//! The hash that class names are made of: MurmurHash2 over the low bytes of the
//! UTF-16 code units, printed to the base 36 or 62.

use crate::text::{chars_of, string_of};
use vstd::arithmetic::div_mod::lemma_div_decreases;
use vstd::prelude::*;

verus! {

/// The UTF-16 code units of a character.
pub open spec fn char_units(c: char) -> Seq<u16> {
    let v = c as u32;
    if v < 0x10000 {
        seq![v as u16]
    } else {
        seq![(0xd800 + (v - 0x10000) / 0x400) as u16, (0xdc00 + (v - 0x10000) % 0x400) as u16]
    }
}

/// The UTF-16 code units of a text.
pub open spec fn utf16(s: Seq<char>) -> Seq<u16>
    decreases s.len(),
{
    if s.len() == 0 {
        Seq::empty()
    } else {
        utf16(s.drop_last()) + char_units(s.last())
    }
}

/// The UTF-16 code units of a text.
pub fn utf16_units(s: &str) -> (r: Vec<u16>)
    ensures
        r@ == utf16(s@),
{
    let chars = chars_of(s);
    let mut out: Vec<u16> = Vec::new();
    let mut i: usize = 0;
    while i < chars.len()
        invariant
            i <= chars@.len(),
            out@ == utf16(chars@.take(i as int)),
        decreases chars@.len() - i,
    {
        let v: u32 = chars[i] as u32;
        let ghost before = out@;
        if v < 0x10000 {
            out.push(v as u16);
        } else {
            out.push((0xd800 + (v - 0x10000) / 0x400) as u16);
            out.push((0xdc00 + (v - 0x10000) % 0x400) as u16);
        }
        proof {
            assert(out@ =~= before + char_units(chars@[i as int]));
            assert(chars@.take(i as int + 1).drop_last() =~= chars@.take(i as int));
        }
        i += 1;
    }
    proof {
        assert(chars@.take(chars@.len() as int) =~= chars@);
    }
    out
}

/// A product with the mixing constant of MurmurHash2, modulo two to the 32nd.
pub open spec fn mixed(a: u32) -> u32 {
    ((a as nat * 0x5bd1e995) % 0x1_0000_0000) as u32
}

/// The low byte of the code unit at `i`.
pub open spec fn low_byte(u: Seq<u16>, i: int) -> u32 {
    (u[i] % 256) as u32
}

/// The hash after the blocks of four units from `i` on and the units behind them.
pub open spec fn murmur_from(u: Seq<u16>, i: int, h: u32) -> u32
    decreases u.len() - i,
{
    let left = u.len() - i;
    if left >= 4 {
        let k = (low_byte(u, i) + low_byte(u, i + 1) * 0x100 + low_byte(u, i + 2) * 0x10000
            + low_byte(u, i + 3) * 0x1000000) as u32;
        let k1 = mixed(k);
        let k2 = mixed(k1 ^ (k1 / 0x1000000));
        murmur_from(u, i + 4, mixed(h) ^ k2)
    } else if left == 3 {
        mixed(
            ((h ^ ((low_byte(u, i + 2) * 0x10000) as u32)) ^ ((low_byte(u, i + 1) * 0x100) as u32))
                ^ low_byte(u, i),
        )
    } else if left == 2 {
        mixed((h ^ ((low_byte(u, i + 1) * 0x100) as u32)) ^ low_byte(u, i))
    } else if left == 1 {
        mixed(h ^ low_byte(u, i))
    } else {
        h
    }
}

/// The MurmurHash2 of code units, with seed one.
pub open spec fn murmur(u: Seq<u16>) -> u32 {
    let h = murmur_from(u, 0, 1u32 ^ (u.len() % 0x1_0000_0000) as u32);
    let h1 = mixed(h ^ (h / 0x2000));
    h1 ^ (h1 / 0x8000)
}

fn mix(a: u32) -> (r: u32)
    ensures
        r == mixed(a),
{
    assert(a as u64 * 0x5bd1e995u64 <= 0xffff_ffff_ffff_ffff) by (nonlinear_arith)
        requires
            a <= 0xffff_ffff,
    ;
    ((a as u64 * 0x5bd1e995u64) % 0x1_0000_0000) as u32
}

fn byte_at(u: &[u16], i: usize) -> (r: u32)
    requires
        i < u@.len(),
    ensures
        r == low_byte(u@, i as int),
        r < 256,
{
    (u[i] % 256) as u32
}

/// The MurmurHash2 of a text, with seed one.
pub fn murmur_hash(s: &str) -> (r: u32)
    ensures
        r == murmur(utf16(s@)),
{
    let u = utf16_units(s);
    let n: usize = u.len();
    let mut h: u32 = 1u32 ^ (n as u64 % 0x1_0000_0000) as u32;
    let mut i: usize = 0;
    while n - i >= 4
        invariant
            i <= n,
            n == u@.len(),
            murmur_from(u@, 0, 1u32 ^ (u@.len() % 0x1_0000_0000) as u32) == murmur_from(
                u@,
                i as int,
                h,
            ),
        decreases n - i,
    {
        let k: u32 = byte_at(&u, i) + byte_at(&u, i + 1) * 0x100 + byte_at(&u, i + 2) * 0x10000
            + byte_at(&u, i + 3) * 0x1000000;
        let k1: u32 = mix(k);
        let k2: u32 = mix(k1 ^ (k1 / 0x1000000));
        h = mix(h) ^ k2;
        i += 4;
    }
    let left: usize = n - i;
    if left == 3 {
        h = mix(
            ((h ^ (byte_at(&u, i + 2) * 0x10000)) ^ (byte_at(&u, i + 1) * 0x100)) ^ byte_at(&u, i),
        );
    } else if left == 2 {
        h = mix((h ^ (byte_at(&u, i + 1) * 0x100)) ^ byte_at(&u, i));
    } else if left == 1 {
        h = mix(h ^ byte_at(&u, i));
    }
    let h1: u32 = mix(h ^ (h / 0x2000));
    h1 ^ (h1 / 0x8000)
}

/// The digit for `d` to the base `base`: figures, then letters. Up to the base 36 the
/// letters are small; beyond it capital letters come before the small ones.
pub open spec fn base_digit(d: int, base: int) -> char {
    if d < 10 {
        (d + 48) as char
    } else if base <= 36 {
        (d + 87) as char
    } else if d < 36 {
        (d + 55) as char
    } else {
        (d + 61) as char
    }
}

/// The digits of `n` to the base `base`; none for zero.
pub open spec fn base_digits(n: nat, base: nat) -> Seq<char>
    decreases n,
    via base_digits_decreases
{
    if n == 0 || base < 2 {
        Seq::empty()
    } else {
        base_digits(n / base, base).push(base_digit((n % base) as int, base as int))
    }
}

#[via_fn]
proof fn base_digits_decreases(n: nat, base: nat) {
    if n > 0 && base >= 2 {
        lemma_div_decreases(n as int, base as int);
    }
}

fn digits_to_base(n: u32, base: u32) -> (r: Vec<char>)
    requires
        2 <= base <= 62,
    ensures
        r@ == base_digits(n as nat, base as nat),
    decreases n,
{
    if n == 0 {
        return Vec::new();
    }
    proof {
        lemma_div_decreases(n as int, base as int);
    }
    let mut out = digits_to_base(n / base, base);
    let d: u8 = (n % base) as u8;
    let c = if d < 10 {
        (d + 48) as char
    } else if base <= 36 {
        (d + 87) as char
    } else if d < 36 {
        (d + 55) as char
    } else {
        (d + 61) as char
    };
    out.push(c);
    out
}

/// The hash of a text to the base 36.
pub open spec fn hash_text(s: Seq<char>) -> Seq<char> {
    let h = murmur(utf16(s));
    if h == 0 {
        "0"@
    } else {
        base_digits(h as nat, 36)
    }
}

/// The hash of a text to the base 36.
pub fn hash(s: &str) -> (r: String)
    ensures
        r@ == hash_text(s@),
{
    let h: u32 = murmur_hash(s);
    if h == 0 {
        return "0".to_owned();
    }
    string_of(&digits_to_base(h, 36))
}

/// The hash of a text in at most five digits to the base 62.
pub open spec fn short_hash_text(s: Seq<char>) -> Seq<char> {
    base_digits((murmur(utf16(s)) % 916132832) as nat, 62)
}

/// The hash of a text in at most five digits to the base 62.
pub fn create_short_hash(s: &str) -> (r: String)
    ensures
        r@ == short_hash_text(s@),
{
    string_of(&digits_to_base(murmur_hash(s) % 916132832, 62))
}

} // verus!
