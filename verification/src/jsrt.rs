//! Strings the way ECMAScript orders and cuts them.

use crate::hash::{char_units, utf16, utf16_units};
use crate::text::{chars_of, find_char, next_char, str_eq, str_texts};
use vstd::prelude::*;

verus! {

/// Whether `a` comes before `b`, unit by unit.
pub open spec fn lex_less(a: Seq<u32>, b: Seq<u32>) -> bool
    decreases a.len(),
{
    if b.len() == 0 {
        false
    } else if a.len() == 0 {
        true
    } else if a[0] != b[0] {
        a[0] < b[0]
    } else {
        lex_less(a.drop_first(), b.drop_first())
    }
}

/// Whether `a` comes before `b`, unit by unit.
pub fn key_less(a: &Vec<u32>, b: &Vec<u32>) -> (r: bool)
    ensures
        r == lex_less(a@, b@),
{
    let mut i: usize = 0;
    proof {
        assert(a@.skip(0) =~= a@);
        assert(b@.skip(0) =~= b@);
    }
    while i < a.len() && i < b.len()
        invariant
            i <= a@.len(),
            i <= b@.len(),
            lex_less(a@, b@) == lex_less(a@.skip(i as int), b@.skip(i as int)),
        decreases a@.len() - i,
    {
        proof {
            assert(a@.skip(i as int).drop_first() =~= a@.skip(i as int + 1));
            assert(b@.skip(i as int).drop_first() =~= b@.skip(i as int + 1));
        }
        if a[i] != b[i] {
            return a[i] < b[i];
        }
        i += 1;
    }
    i < b.len()
}

proof fn lemma_lex_asym(a: Seq<u32>, b: Seq<u32>)
    requires
        lex_less(a, b),
    ensures
        !lex_less(b, a),
    decreases a.len(),
{
    if a.len() > 0 && b.len() > 0 && a[0] == b[0] {
        lemma_lex_asym(a.drop_first(), b.drop_first());
    }
}

proof fn lemma_lex_trans(a: Seq<u32>, b: Seq<u32>, c: Seq<u32>)
    requires
        !lex_less(b, a),
        !lex_less(c, b),
    ensures
        !lex_less(c, a),
    decreases a.len(),
{
    if a.len() > 0 && c.len() > 0 && b.len() > 0 && a[0] == b[0] && b[0] == c[0] {
        lemma_lex_trans(a.drop_first(), b.drop_first(), c.drop_first());
    }
}

/// The key by which a text is ordered, of the given kind.
#[derive(Clone, Copy, PartialEq, Eq, Structural)]
pub enum Collation {
    /// By UTF-16 code units.
    Units,
    /// By the order of a dictionary, with `default` before everything.
    Dictionary,
}

/// The characters of the pinned alphabet in the order of a dictionary; letters
/// stand for both of their cases.
pub const ALPHABET: &'static str = " _-,;:!?.'\"()[]{}@*/\\&#%`^+<=>|~$0123456789abcdefghijklmnopqrstuvwxyz";

/// Whether a character belongs to the pinned alphabet.
pub open spec fn in_alphabet(c: char) -> bool {
    next_char(ALPHABET@, crate::text::ascii_lower_char(c), 0) < ALPHABET@.len()
}

/// The place of a character in the alphabet, counted from one.
pub open spec fn alphabet_place(c: char) -> u32 {
    (next_char(ALPHABET@, crate::text::ascii_lower_char(c), 0) + 1) as u32
}

/// Whether a character is a capital letter.
pub open spec fn capital(c: char) -> bool {
    'A' <= c <= 'Z'
}

/// The key of a text in a dictionary: the places of its characters, then their
/// cases, where small letters come first.
pub open spec fn dictionary_key(s: Seq<char>) -> Seq<u32> {
    Seq::new(s.len(), |i: int| alphabet_place(s[i])).push(0) + Seq::new(
        s.len(),
        |i: int|
            if capital(s[i]) {
                2u32
            } else {
                1u32
            },
    )
}

/// The key by which a text is ordered.
pub open spec fn sort_key(s: Seq<char>, c: Collation) -> Seq<u32> {
    match c {
        Collation::Units => {
            let u = utf16(s);
            Seq::new(u.len(), |i: int| u[i] as u32)
        },
        Collation::Dictionary => if s == "default"@ {
            Seq::empty()
        } else {
            dictionary_key(s)
        },
    }
}

fn lower_char(c: char) -> (r: char)
    ensures
        r == crate::text::ascii_lower_char(c),
{
    if 'A' <= c && c <= 'Z' {
        (c as u8 + 32) as char
    } else {
        c
    }
}

/// The first character from `i` on that does not belong to the pinned alphabet.
pub open spec fn foreign_from(s: Seq<char>, i: int) -> Option<char>
    decreases s.len() - i,
{
    if i < 0 || i >= s.len() {
        None
    } else if in_alphabet(s[i]) {
        foreign_from(s, i + 1)
    } else {
        Some(s[i])
    }
}

/// The first character of a text that does not belong to the pinned alphabet.
pub fn unverified_collation_char(s: &str) -> (r: Option<char>)
    ensures
        r == foreign_from(s@, 0),
{
    let alphabet = chars_of(ALPHABET);
    let v = chars_of(s);
    let mut i: usize = 0;
    while i < v.len()
        invariant
            v@ == s@,
            alphabet@ == ALPHABET@,
            i <= v@.len(),
            foreign_from(s@, 0) == foreign_from(s@, i as int),
        decreases v@.len() - i,
    {
        if find_char(&alphabet, lower_char(v[i]), 0) >= alphabet.len() {
            return Some(v[i]);
        }
        i += 1;
    }
    None
}

/// The key by which a text is ordered.
pub fn key_of(s: &str, c: Collation) -> (r: Vec<u32>)
    ensures
        r@ == sort_key(s@, c),
{
    let mut out: Vec<u32> = Vec::new();
    match c {
        Collation::Units => {
            let u = utf16_units(s);
            let mut i: usize = 0;
            while i < u.len()
                invariant
                    i <= u@.len(),
                    out@.len() == i,
                    forall|j: int| 0 <= j < i ==> out@[j] == u@[j] as u32,
                decreases u@.len() - i,
            {
                out.push(u[i] as u32);
                i += 1;
            }
            proof {
                assert(out@ =~= sort_key(s@, c));
            }
            out
        },
        Collation::Dictionary => {
            if str_eq(s, "default") {
                proof {
                    assert(out@ =~= Seq::<u32>::empty());
                }
                return out;
            }
            let alphabet = chars_of(ALPHABET);
            let v = chars_of(s);
            let n: usize = v.len();
            let mut i: usize = 0;
            proof {
                reveal_strlit(
                    " _-,;:!?.'\"()[]{}@*/\\&#%`^+<=>|~$0123456789abcdefghijklmnopqrstuvwxyz",
                );
            }
            while i < n
                invariant
                    v@ == s@,
                    n == v@.len(),
                    alphabet@ == ALPHABET@,
                    ALPHABET@.len() <= 100,
                    i <= n,
                    out@.len() == i,
                    forall|j: int| 0 <= j < i ==> out@[j] == alphabet_place(v@[j]),
                decreases n - i,
            {
                let at: usize = find_char(&alphabet, lower_char(v[i]), 0);
                out.push((at + 1) as u32);
                i += 1;
            }
            out.push(0);
            i = 0;
            while i < n
                invariant
                    v@ == s@,
                    n == v@.len(),
                    i <= n,
                    out@.len() == n + 1 + i,
                    forall|j: int| 0 <= j < n ==> out@[j] == alphabet_place(v@[j]),
                    out@[n as int] == 0,
                    forall|j: int|
                        0 <= j < i ==> out@[n + 1 + j] == if capital(#[trigger] v@[j]) {
                            2u32
                        } else {
                            1u32
                        },
                decreases n - i,
            {
                let ghost before = out@;
                if 'A' <= v[i] && v[i] <= 'Z' {
                    out.push(2);
                } else {
                    out.push(1);
                }
                i += 1;
            }
            proof {
                assert forall|j: int| 0 <= j < out@.len() implies out@[j] == dictionary_key(s@)[j] by {
                    if j > n {
                        let k = j - n - 1;
                        assert(out@[n + 1 + k] == if capital(v@[k]) {
                            2u32
                        } else {
                            1u32
                        });
                    }
                }
                assert(out@ =~= dictionary_key(s@));
            }
            out
        },
    }
}

/// Where `s` goes among the sorted `v`: behind those that do not come after it.
pub open spec fn insert_at(v: Seq<Seq<char>>, s: Seq<char>, c: Collation, i: int) -> int
    decreases v.len() - i,
{
    if i < 0 || i >= v.len() {
        v.len() as int
    } else if lex_less(sort_key(s, c), sort_key(v[i], c)) {
        i
    } else {
        insert_at(v, s, c, i + 1)
    }
}

/// The first `k` texts in order.
pub open spec fn sorted_upto(v: Seq<Seq<char>>, c: Collation, k: int) -> Seq<Seq<char>>
    decreases k,
{
    if k <= 0 {
        Seq::empty()
    } else {
        let rest = sorted_upto(v, c, k - 1);
        rest.insert(insert_at(rest, v[k - 1], c, 0), v[k - 1])
    }
}

/// The texts in order; equal ones stay as they were.
pub open spec fn sorted_texts(v: Seq<Seq<char>>, c: Collation) -> Seq<Seq<char>> {
    sorted_upto(v, c, v.len() as int)
}

/// Whether no text comes after one behind it.
pub open spec fn in_order(v: Seq<Seq<char>>, c: Collation) -> bool {
    forall|i: int, j: int|
        0 <= i < j < v.len() ==> !lex_less(sort_key(#[trigger] v[j], c), sort_key(#[trigger] v[i], c))
}

proof fn lemma_insert_at(v: Seq<Seq<char>>, s: Seq<char>, c: Collation, i: int)
    requires
        0 <= i <= v.len(),
    ensures
        i <= insert_at(v, s, c, i) <= v.len(),
        forall|j: int|
            i <= j < insert_at(v, s, c, i) ==> !lex_less(sort_key(s, c), sort_key(#[trigger] v[j], c)),
        insert_at(v, s, c, i) < v.len() ==> lex_less(
            sort_key(s, c),
            sort_key(v[insert_at(v, s, c, i)], c),
        ),
    decreases v.len() - i,
{
    if i < v.len() && !lex_less(sort_key(s, c), sort_key(v[i], c)) {
        lemma_insert_at(v, s, c, i + 1);
    }
}

proof fn lemma_sorted_len(v: Seq<Seq<char>>, c: Collation, k: int)
    requires
        0 <= k <= v.len(),
    ensures
        sorted_upto(v, c, k).len() == k,
    decreases k,
{
    if k > 0 {
        lemma_sorted_len(v, c, k - 1);
        lemma_insert_at(sorted_upto(v, c, k - 1), v[k - 1], c, 0);
    }
}

proof fn lemma_sorted_upto(v: Seq<Seq<char>>, c: Collation, k: int)
    requires
        0 <= k <= v.len(),
    ensures
        in_order(sorted_upto(v, c, k), c),
        sorted_upto(v, c, k).to_multiset() == v.take(k).to_multiset(),
    decreases k,
{
    broadcast use vstd::seq_lib::group_to_multiset_ensures;

    if k > 0 {
        lemma_sorted_upto(v, c, k - 1);
        let rest = sorted_upto(v, c, k - 1);
        let s = v[k - 1];
        lemma_insert_at(rest, s, c, 0);
        let p = insert_at(rest, s, c, 0);
        let out = rest.insert(p, s);
        assert forall|i: int, j: int| 0 <= i < j < out.len() implies !lex_less(
            sort_key(#[trigger] out[j], c),
            sort_key(#[trigger] out[i], c),
        ) by {
            let i0 = if i < p {
                i
            } else {
                i - 1
            };
            let j0 = if j < p {
                j
            } else {
                j - 1
            };
            if i != p && j != p {
                assert(!lex_less(sort_key(rest[j0], c), sort_key(rest[i0], c)));
            } else if i == p {
                lemma_lex_asym(sort_key(s, c), sort_key(rest[p], c));
                if j0 > p {
                    assert(!lex_less(sort_key(rest[j0], c), sort_key(rest[p], c)));
                    lemma_lex_trans(sort_key(s, c), sort_key(rest[p], c), sort_key(rest[j0], c));
                }
            } else {
                assert(!lex_less(sort_key(s, c), sort_key(rest[i0], c)));
            }
        }
        assert(v.take(k) =~= v.take(k - 1).push(s));
        assert(out.to_multiset() =~= rest.to_multiset().insert(s)) by {
            out.to_multiset_ensures();
            assert(out.remove(p) =~= rest);
            assert(out[p] == s);
            assert(out.contains(s));
        }
        assert(v.take(k).to_multiset() =~= v.take(k - 1).to_multiset().insert(s));
    } else {
        assert(v.take(0) =~= Seq::<Seq<char>>::empty());
    }
}

/// Sorting keeps every text as often as it was there and puts them in order.
pub proof fn sorting_is_sorting(v: Seq<Seq<char>>, c: Collation)
    ensures
        in_order(sorted_texts(v, c), c),
        sorted_texts(v, c).to_multiset() == v.to_multiset(),
        sorted_texts(v, c).len() == v.len(),
{
    lemma_sorted_upto(v, c, v.len() as int);
    lemma_sorted_len(v, c, v.len() as int);
    assert(v.take(v.len() as int) =~= v);
}

/// Sorts texts; equal ones stay as they were.
pub fn sort_texts<'s>(v: &[&'s str], c: Collation) -> (r: Vec<&'s str>)
    ensures
        str_texts(r@) == sorted_texts(str_texts(v@), c),
        r@.len() == v@.len(),
{
    let ghost all = str_texts(v@);
    let mut out: Vec<&'s str> = Vec::new();
    let mut i: usize = 0;
    proof {
        assert(str_texts(out@) =~= Seq::<Seq<char>>::empty());
    }
    while i < v.len()
        invariant
            all == str_texts(v@),
            i <= v@.len(),
            out@.len() == i,
            str_texts(out@) == sorted_upto(all, c, i as int),
        decreases v@.len() - i,
    {
        let ghost before = str_texts(out@);
        let key = key_of(v[i], c);
        let mut at: usize = 0;
        assert(all[i as int] == v@[i as int]@);
        while at < out.len() && !key_less(&key, &key_of(out[at], c))
            invariant
                i < v@.len(),
                before == str_texts(out@),
                at <= out@.len(),
                key@ == sort_key(v@[i as int]@, c),
                insert_at(before, v@[i as int]@, c, 0) == insert_at(
                    before,
                    v@[i as int]@,
                    c,
                    at as int,
                ),
            decreases out@.len() - at,
        {
            assert(before[at as int] == out@[at as int]@);
            at += 1;
        }
        proof {
            if at < out@.len() {
                assert(before[at as int] == out@[at as int]@);
            }
        }
        out.insert(at, v[i]);
        proof {
            assert(str_texts(out@) =~= before.insert(at as int, v@[i as int]@));
        }
        i += 1;
    }
    out
}

/// Whether a code unit is the first half of a pair.
pub open spec fn high_half(u: u16) -> bool {
    0xd800 <= u < 0xdc00
}

/// Whether a code unit is the second half of a pair.
pub open spec fn low_half(u: u16) -> bool {
    0xdc00 <= u < 0xe000
}

/// The text of code units from `i` on; half pairs become U+FFFD.
pub open spec fn text_of_units(u: Seq<u16>, i: int) -> Seq<char>
    decreases u.len() - i,
{
    if i < 0 || i >= u.len() {
        Seq::empty()
    } else if high_half(u[i]) && i + 1 < u.len() && low_half(u[i + 1]) {
        seq![(0x10000 + (u[i] - 0xd800) * 0x400 + (u[i + 1] - 0xdc00)) as char] + text_of_units(
            u,
            i + 2,
        )
    } else if high_half(u[i]) || low_half(u[i]) {
        seq!['\u{fffd}'] + text_of_units(u, i + 1)
    } else {
        seq![u[i] as char] + text_of_units(u, i + 1)
    }
}

/// `char::from_u32` for the value of a character.
#[verifier::external_body]
fn char_of(v: u32) -> (r: char)
    requires
        v < 0xd800 || 0xe000 <= v < 0x110000,
    ensures
        r == v as char,
{
    char::from_u32(v).unwrap()
}

/// The text of code units; half pairs become U+FFFD.
pub fn decode_units(u: &[u16]) -> (r: String)
    ensures
        r@ == text_of_units(u@, 0),
{
    let mut out = String::new();
    let mut i: usize = 0;
    proof {
        assert(out@ + text_of_units(u@, 0) =~= text_of_units(u@, 0));
    }
    while i < u.len()
        invariant
            i <= u@.len(),
            out@ + text_of_units(u@, i as int) == text_of_units(u@, 0),
        decreases u@.len() - i,
    {
        let ghost before = out@;
        let ghost rest = text_of_units(u@, i as int);
        let a: u16 = u[i];
        let paired = 0xd800 <= a && a < 0xdc00 && i < u.len() - 1 && 0xdc00 <= u[i + 1] && u[i + 1]
            < 0xe000;
        if paired {
            let b: u16 = u[i + 1];
            let c = char_of(0x10000 + (a as u32 - 0xd800) * 0x400 + (b as u32 - 0xdc00));
            out.push(c);
            proof {
                assert(out@ + text_of_units(u@, i + 2) =~= before + rest);
            }
            i += 2;
        } else {
            let c = if 0xd800 <= a && a < 0xe000 {
                '\u{fffd}'
            } else {
                char_of(a as u32)
            };
            out.push(c);
            proof {
                assert(out@ + text_of_units(u@, i + 1) =~= before + rest);
            }
            i += 1;
        }
    }
    proof {
        assert(out@ + text_of_units(u@, i as int) =~= out@);
    }
    out
}

/// A text without its first `from` code units and its last one.
pub open spec fn sliced(s: Seq<char>, from: int) -> Seq<char> {
    let u = utf16(s);
    if from < u.len() - 1 {
        text_of_units(u.subrange(from, u.len() - 1), 0)
    } else {
        Seq::empty()
    }
}

/// A text without its first `from` code units and its last one.
pub fn slice_utf16(s: &str, from: usize) -> (r: String)
    ensures
        r@ == sliced(s@, from as int),
{
    let u = utf16_units(s);
    if u.len() > 0 && from < u.len() - 1 {
        decode_units(&u[from..u.len() - 1])
    } else {
        String::new()
    }
}

proof fn lemma_units_append(a: Seq<char>, b: Seq<char>)
    ensures
        utf16(a + b) == utf16(a) + utf16(b),
    decreases b.len(),
{
    if b.len() == 0 {
        assert(a + b =~= a);
        assert(utf16(a) + utf16(b) =~= utf16(a));
    } else {
        lemma_units_append(a, b.drop_last());
        assert((a + b).drop_last() =~= a + b.drop_last());
        assert(utf16(a + b) =~= utf16(a) + utf16(b));
    }
}

proof fn lemma_text_shift(a: Seq<u16>, b: Seq<u16>, i: int)
    requires
        0 <= i,
    ensures
        text_of_units(a + b, a.len() + i) == text_of_units(b, i),
    decreases b.len() - i,
{
    let u = a + b;
    if i < b.len() {
        assert(u[a.len() + i] == b[i]);
        if i + 1 < b.len() {
            assert(u[a.len() + i + 1] == b[i + 1]);
        }
        if high_half(b[i]) && i + 1 < b.len() && low_half(b[i + 1]) {
            lemma_text_shift(a, b, i + 2);
        } else {
            lemma_text_shift(a, b, i + 1);
        }
    }
}

proof fn lemma_char_units(c: char)
    ensures
        ({
            let u = char_units(c);
            if (c as u32) < 0x10000 {
                u.len() == 1 && !high_half(u[0]) && !low_half(u[0]) && u[0] as char == c
            } else {
                u.len() == 2 && high_half(u[0]) && low_half(u[1]) && (0x10000 + (u[0] - 0xd800)
                    * 0x400 + (u[1] - 0xdc00)) as char == c
            }
        }),
{
    let v = c as u32;
    assert(v < 0xd800 || 0xe000 <= v < 0x110000);
}

/// The code units of a text spell the text.
pub proof fn units_spell_the_text(s: Seq<char>)
    ensures
        text_of_units(utf16(s), 0) == s,
    decreases s.len(),
{
    if s.len() > 0 {
        let c = s[0];
        let rest = s.skip(1);
        units_spell_the_text(rest);
        assert(s =~= seq![c] + rest);
        lemma_units_append(seq![c], rest);
        let head = char_units(c);
        assert(seq![c].drop_last() =~= Seq::<char>::empty());
        reveal_with_fuel(utf16, 2);
        assert(utf16(seq![c]) =~= head);
        let u = head + utf16(rest);
        assert(utf16(s) == u);
        lemma_text_shift(head, utf16(rest), 0);
        lemma_char_units(c);
        assert(u[0] == head[0]);
        if head.len() == 2 {
            assert(u[1] == head[1]);
        }
        assert(text_of_units(u, 0) =~= seq![c] + rest);
    }
}

proof fn lemma_plain_units(s: Seq<char>)
    requires
        forall|i: int| 0 <= i < s.len() ==> (#[trigger] s[i] as u32) < 0x10000,
    ensures
        utf16(s).len() == s.len(),
    decreases s.len(),
{
    if s.len() > 0 {
        lemma_plain_units(s.drop_last());
    }
}

/// A text between two others, of which the first has `from` plain characters and the
/// second has one, is what slicing gives.
pub proof fn slice_finds_the_middle(before: Seq<char>, s: Seq<char>, end: Seq<char>)
    requires
        forall|i: int| 0 <= i < before.len() ==> (#[trigger] before[i] as u32) < 0x10000,
        end.len() == 1,
        (end[0] as u32) < 0x10000,
    ensures
        sliced(before + s + end, before.len() as int) == s,
{
    lemma_units_append(before + s, end);
    lemma_units_append(before, s);
    lemma_plain_units(before);
    lemma_plain_units(end);
    let u = utf16(before + s + end);
    let n = before.len() as int;
    units_spell_the_text(s);
    assert(u.len() == n + utf16(s).len() + 1);
    if n < u.len() - 1 {
        assert(u.subrange(n, u.len() - 1) =~= utf16(s));
    } else {
        assert(utf16(s).len() == 0);
        assert(text_of_units(utf16(s), 0) =~= Seq::<char>::empty());
    }
}

proof fn lemma_lex_same(a: Seq<u32>, b: Seq<u32>)
    requires
        !lex_less(a, b),
        !lex_less(b, a),
    ensures
        a == b,
    decreases a.len(),
{
    if a.len() > 0 && b.len() > 0 {
        lemma_lex_same(a.drop_first(), b.drop_first());
        assert(a =~= seq![a[0]] + a.drop_first());
        assert(b =~= seq![b[0]] + b.drop_first());
    } else {
        assert(a =~= b);
    }
}

proof fn lemma_units_order(a: Seq<char>, b: Seq<char>)
    requires
        sort_key(a, Collation::Units) == sort_key(b, Collation::Units),
    ensures
        a == b,
{
    let u = utf16(a);
    let v = utf16(b);
    let k = sort_key(a, Collation::Units);
    let l = sort_key(b, Collation::Units);
    assert(u.len() == k.len() && v.len() == l.len());
    assert forall|i: int| 0 <= i < u.len() implies u[i] == v[i] by {
        assert(k[i] == u[i] as u32);
        assert(l[i] == v[i] as u32);
    }
    assert(u =~= v);
    units_spell_the_text(a);
    units_spell_the_text(b);
}

/// Sorting by code units forgets the order in which texts came.
pub proof fn sorting_forgets_the_order(v: Seq<Seq<char>>, w: Seq<Seq<char>>)
    requires
        v.to_multiset() == w.to_multiset(),
    ensures
        sorted_texts(v, Collation::Units) == sorted_texts(w, Collation::Units),
{
    let c = Collation::Units;
    let leq = |a: Seq<char>, b: Seq<char>| !lex_less(sort_key(b, c), sort_key(a, c));
    sorting_is_sorting(v, c);
    sorting_is_sorting(w, c);
    assert forall|x: Seq<char>| #[trigger] leq(x, x) by {
        if lex_less(sort_key(x, c), sort_key(x, c)) {
            lemma_lex_asym(sort_key(x, c), sort_key(x, c));
        }
    }
    assert forall|x: Seq<char>, y: Seq<char>| #[trigger] leq(x, y) && #[trigger] leq(y, x) implies x
        == y by {
        lemma_lex_same(sort_key(x, c), sort_key(y, c));
        lemma_units_order(x, y);
    }
    assert forall|x: Seq<char>, y: Seq<char>, z: Seq<char>| #[trigger]
        leq(x, y) && #[trigger] leq(y, z) implies leq(x, z) by {
        lemma_lex_trans(sort_key(x, c), sort_key(y, c), sort_key(z, c));
    }
    assert forall|x: Seq<char>, y: Seq<char>| #[trigger] leq(x, y) || #[trigger] leq(y, x) by {
        if lex_less(sort_key(y, c), sort_key(x, c)) {
            lemma_lex_asym(sort_key(y, c), sort_key(x, c));
        }
    }
    assert(vstd::relations::total_ordering(leq));
    vstd::seq_lib::lemma_sorted_unique(sorted_texts(v, c), sorted_texts(w, c), leq);
}

} // verus!
