//! A memory for compiled declarations, and the keys under which it keeps them.

use crate::errors::{ErrorModel, StylexError};
use crate::number::{decimal, decimal_reads_back, decimal_text};
use crate::options::{ResolvedOptions, StyleResolution};
use crate::rules::{RuleModel, StylexRule};
use crate::shared::css_value::byte_offset;
use crate::shared::flatten::{PreRuleValue, PreRuleValueModel, ScalarModel, StyleScalar};
use crate::shared::generate_rule::{compiled_rule, convert_style_to_class_name, rule_outcome};
use crate::shared::rtl::RtlContext;
use crate::text::{char_count, chars_of, concat2, digit, str_texts, string_of};
use crate::value::{item_keys, keys_of, lemma_find_key, position_of};
use vstd::prelude::*;

verus! {

/// How many declarations are kept.
pub const CONVERT_MEMO_CAP: usize = 65536;

/// How many bytes a text takes in UTF-8.
pub open spec fn byte_len(s: Seq<char>) -> nat {
    byte_offset(s, s.len() as int) as nat
}

/// A text behind its length in bytes.
pub open spec fn memo_part(s: Seq<char>) -> Seq<char> {
    decimal(byte_len(s)) + ":"@ + s
}

proof fn lemma_bytes(s: Seq<char>, i: int)
    requires
        0 <= i,
    ensures
        i <= byte_offset(s, i) <= 4 * i,
    decreases i,
{
    if i > 0 {
        lemma_bytes(s, i - 1);
    }
}

/// Of two texts that begin a third, the one with as many bytes is the same.
proof fn lemma_same_bytes(s: Seq<char>, a: Seq<char>, b: Seq<char>)
    requires
        a.is_prefix_of(s),
        b.is_prefix_of(s),
        byte_len(a) == byte_len(b),
    ensures
        a == b,
{
    lemma_bytes(a, a.len() as int);
    lemma_bytes(b, b.len() as int);
    lemma_bytes_within(s, a, a.len() as int);
    lemma_bytes_within(s, b, b.len() as int);
    if a.len() < b.len() {
        lemma_bytes_grow(s, a.len() as int, b.len() as int);
    }
    if b.len() < a.len() {
        lemma_bytes_grow(s, b.len() as int, a.len() as int);
    }
    assert(a =~= s.take(a.len() as int));
    assert(b =~= s.take(a.len() as int));
}

proof fn lemma_bytes_within(s: Seq<char>, a: Seq<char>, i: int)
    requires
        a.is_prefix_of(s),
        0 <= i <= a.len(),
    ensures
        byte_offset(a, i) == byte_offset(s, i),
    decreases i,
{
    if i > 0 {
        lemma_bytes_within(s, a, i - 1);
        assert(a[i - 1] == s[i - 1]);
    }
}

proof fn lemma_bytes_grow(s: Seq<char>, i: int, j: int)
    requires
        0 <= i < j,
    ensures
        byte_offset(s, i) < byte_offset(s, j),
    decreases j,
{
    if i < j - 1 {
        lemma_bytes_grow(s, i, j - 1);
    }
}

/// The digit for `d` to the base 16.
pub open spec fn hex_digit(d: int) -> char {
    if d < 10 {
        (d + 48) as char
    } else {
        (d + 87) as char
    }
}

/// The last `k` digits of `n` to the base 16.
pub open spec fn hex_digits(n: int, k: int) -> Seq<char>
    decreases k,
{
    if k <= 0 {
        Seq::empty()
    } else {
        hex_digits(n / 16, k - 1).push(hex_digit(n % 16))
    }
}

/// A value with a letter for its kind.
pub open spec fn memo_scalar(s: ScalarModel) -> Seq<char> {
    match s {
        ScalarModel::Str(t) => "s"@ + memo_part(t),
        ScalarModel::Num(n) => "n"@ + hex_digits(n.bits as int, 16),
        ScalarModel::Undefined => "u"@,
    }
}

/// Values one behind the other.
pub open spec fn memo_scalars(v: Seq<ScalarModel>) -> Seq<char>
    decreases v.len(),
{
    if v.len() == 0 {
        Seq::empty()
    } else {
        memo_scalar(v[0]) + memo_scalars(v.drop_first())
    }
}

/// Texts one behind the other.
pub open spec fn memo_parts(v: Seq<Seq<char>>) -> Seq<char>
    decreases v.len(),
{
    if v.len() == 0 {
        Seq::empty()
    } else {
        memo_part(v[0]) + memo_parts(v.drop_first())
    }
}

/// The value of a rule.
pub open spec fn memo_value(v: PreRuleValueModel) -> Seq<char> {
    match v {
        PreRuleValueModel::Single(s) => "S"@ + memo_scalar(s),
        PreRuleValueModel::Multi(l) => "M"@ + memo_scalars(l),
    }
}

/// One letter for each option that counts, but for the prefix.
pub open spec fn memo_letters(o: ResolvedOptions) -> Seq<char> {
    seq![
        if o.enable_font_size_px_to_rem {
            'R'
        } else {
            'r'
        },
        if o.debug && o.enable_debug_class_names {
            'D'
        } else {
            'd'
        },
        match o.style_resolution {
            StyleResolution::PropertySpecificity => 'p',
            StyleResolution::ApplicationOrder => 'a',
            StyleResolution::LegacyExpandShorthands => 'l',
        },
        if o.enable_logical_styles_polyfill {
            'L'
        } else {
            'g'
        },
        if o.enable_legacy_value_flipping {
            'F'
        } else {
            'f'
        },
    ]
}

/// The key of a declaration.
pub open spec fn memo_key(
    property: Seq<char>,
    value: PreRuleValueModel,
    pseudos: Seq<Seq<char>>,
    at_rules: Seq<Seq<char>>,
    const_rules: Seq<Seq<char>>,
    options: ResolvedOptions,
) -> Seq<char> {
    memo_letters(options) + (memo_part(options.class_name_prefix@) + ("|"@ + (memo_part(property)
        + ("|"@ + (memo_value(value) + ("|"@ + (memo_parts(pseudos) + ("|"@ + (memo_parts(at_rules)
        + ("|"@ + memo_parts(const_rules)))))))))))
}

proof fn lemma_part(a: Seq<char>, b: Seq<char>, x: Seq<char>, y: Seq<char>)
    requires
        memo_part(a) + x == memo_part(b) + y,
    ensures
        a == b,
        x == y,
{
    reveal_strlit(":");
    let s = memo_part(a) + x;
    let d = decimal(byte_len(a));
    let e = decimal(byte_len(b));
    decimal_reads_back(byte_len(a));
    decimal_reads_back(byte_len(b));
    assert(s =~= d + (":"@ + a + x));
    assert(s =~= e + (":"@ + b + y));
    if d.len() < e.len() {
        assert(s[d.len() as int] == ':');
        assert(s[d.len() as int] == e[d.len() as int]);
        assert(digit(e[d.len() as int]));
    }
    if e.len() < d.len() {
        assert(s[e.len() as int] == ':');
        assert(s[e.len() as int] == d[e.len() as int]);
        assert(digit(d[e.len() as int]));
    }
    assert(d =~= s.take(d.len() as int));
    assert(e =~= s.take(d.len() as int));
    let rest = s.skip(d.len() as int + 1);
    assert(rest =~= a + x);
    assert(rest =~= b + y);
    assert(a =~= rest.take(a.len() as int));
    assert(b =~= rest.take(b.len() as int));
    lemma_same_bytes(rest, a, b);
    assert(x =~= rest.skip(a.len() as int));
    assert(y =~= rest.skip(a.len() as int));
}

/// Whether a text starts a new section or is over.
pub open spec fn section(x: Seq<char>) -> bool {
    x.len() == 0 || x[0] == '|'
}

proof fn lemma_parts_start(v: Seq<Seq<char>>, x: Seq<char>)
    requires
        v.len() > 0,
    ensures
        (memo_parts(v) + x).len() > 0,
        digit((memo_parts(v) + x)[0]),
{
    decimal_reads_back(byte_len(v[0]));
    assert((memo_parts(v) + x)[0] == decimal(byte_len(v[0]))[0]);
}

proof fn lemma_parts(v: Seq<Seq<char>>, w: Seq<Seq<char>>, x: Seq<char>, y: Seq<char>)
    requires
        memo_parts(v) + x == memo_parts(w) + y,
        section(x),
        section(y),
    ensures
        v == w,
        x == y,
    decreases v.len(),
{
    if v.len() == 0 {
        assert(memo_parts(v) + x =~= x);
        if w.len() > 0 {
            lemma_parts_start(w, y);
        }
        assert(memo_parts(w) + y =~= y);
        assert(v =~= w);
    } else {
        lemma_parts_start(v, x);
        if w.len() == 0 {
            assert(memo_parts(w) + y =~= y);
        }
        let p = memo_parts(v.drop_first()) + x;
        let q = memo_parts(w.drop_first()) + y;
        assert(memo_parts(v) + x =~= memo_part(v[0]) + p);
        assert(memo_parts(w) + y =~= memo_part(w[0]) + q);
        lemma_part(v[0], w[0], p, q);
        lemma_parts(v.drop_first(), w.drop_first(), x, y);
        assert(v =~= seq![v[0]] + v.drop_first());
        assert(w =~= seq![w[0]] + w.drop_first());
    }
}

spec fn pow16(k: int) -> int
    decreases k,
{
    if k <= 0 {
        1
    } else {
        16 * pow16(k - 1)
    }
}

proof fn lemma_hex(n: int, m: int, k: int)
    requires
        0 <= k,
        0 <= n < pow16(k),
        0 <= m < pow16(k),
        hex_digits(n, k) == hex_digits(m, k),
    ensures
        n == m,
    decreases k,
{
    if k > 0 {
        let a = hex_digits(n, k);
        let b = hex_digits(m, k);
        assert(a.drop_last() =~= hex_digits(n / 16, k - 1));
        assert(b.drop_last() =~= hex_digits(m / 16, k - 1));
        assert(a.last() == hex_digit(n % 16));
        assert(b.last() == hex_digit(m % 16));
        lemma_hex(n / 16, m / 16, k - 1);
    }
}

proof fn lemma_hex_len(n: int, k: int)
    requires
        0 <= k,
    ensures
        hex_digits(n, k).len() == k,
    decreases k,
{
    if k > 0 {
        lemma_hex_len(n / 16, k - 1);
    }
}

proof fn lemma_scalar(a: ScalarModel, b: ScalarModel, x: Seq<char>, y: Seq<char>)
    requires
        memo_scalar(a) + x == memo_scalar(b) + y,
    ensures
        a == b,
        x == y,
{
    reveal_strlit("s");
    reveal_strlit("n");
    reveal_strlit("u");
    let s = memo_scalar(a) + x;
    assert(s[0] == memo_scalar(a)[0]);
    assert(s[0] == memo_scalar(b)[0]);
    match (a, b) {
        (ScalarModel::Str(t), ScalarModel::Str(u)) => {
            assert(s.skip(1) =~= memo_part(t) + x);
            assert(s.skip(1) =~= memo_part(u) + y);
            lemma_part(t, u, x, y);
        },
        (ScalarModel::Num(n), ScalarModel::Num(m)) => {
            let d = hex_digits(n.bits as int, 16);
            let e = hex_digits(m.bits as int, 16);
            lemma_hex_len(n.bits as int, 16);
            lemma_hex_len(m.bits as int, 16);
            assert(d =~= s.subrange(1, 17));
            assert(e =~= s.subrange(1, 17));
            assert(x =~= s.skip(17));
            assert(y =~= s.skip(17));
            reveal_with_fuel(pow16, 17);
            lemma_hex(n.bits as int, m.bits as int, 16);
        },
        (ScalarModel::Undefined, ScalarModel::Undefined) => {
            assert(x =~= s.skip(1));
            assert(y =~= s.skip(1));
        },
        _ => {},
    }
}

proof fn lemma_scalars(v: Seq<ScalarModel>, w: Seq<ScalarModel>, x: Seq<char>, y: Seq<char>)
    requires
        memo_scalars(v) + x == memo_scalars(w) + y,
        section(x),
        section(y),
    ensures
        v == w,
        x == y,
    decreases v.len(),
{
    reveal_strlit("s");
    reveal_strlit("n");
    reveal_strlit("u");
    if v.len() > 0 {
        assert((memo_scalars(v) + x)[0] == memo_scalar(v[0])[0]);
    }
    if w.len() > 0 {
        assert((memo_scalars(w) + y)[0] == memo_scalar(w[0])[0]);
    }
    if v.len() == 0 {
        assert(memo_scalars(v) + x =~= x);
        if w.len() == 0 {
            assert(memo_scalars(w) + y =~= y);
            assert(v =~= w);
        }
    } else {
        if w.len() == 0 {
            assert(memo_scalars(w) + y =~= y);
        }
        let p = memo_scalars(v.drop_first()) + x;
        let q = memo_scalars(w.drop_first()) + y;
        assert(memo_scalars(v) + x =~= memo_scalar(v[0]) + p);
        assert(memo_scalars(w) + y =~= memo_scalar(w[0]) + q);
        lemma_scalar(v[0], w[0], p, q);
        lemma_scalars(v.drop_first(), w.drop_first(), x, y);
        assert(v =~= seq![v[0]] + v.drop_first());
        assert(w =~= seq![w[0]] + w.drop_first());
    }
}

proof fn lemma_value(a: PreRuleValueModel, b: PreRuleValueModel, x: Seq<char>, y: Seq<char>)
    requires
        memo_value(a) + x == memo_value(b) + y,
        section(x),
        section(y),
    ensures
        a == b,
        x == y,
{
    reveal_strlit("S");
    reveal_strlit("M");
    let s = memo_value(a) + x;
    assert(s[0] == memo_value(a)[0]);
    assert(s[0] == memo_value(b)[0]);
    match (a, b) {
        (PreRuleValueModel::Single(t), PreRuleValueModel::Single(u)) => {
            assert(s.skip(1) =~= memo_scalar(t) + x);
            assert(s.skip(1) =~= memo_scalar(u) + y);
            lemma_scalar(t, u, x, y);
        },
        (PreRuleValueModel::Multi(t), PreRuleValueModel::Multi(u)) => {
            assert(s.skip(1) =~= memo_scalars(t) + x);
            assert(s.skip(1) =~= memo_scalars(u) + y);
            lemma_scalars(t, u, x, y);
        },
        _ => {},
    }
}

proof fn lemma_break(x: Seq<char>, y: Seq<char>)
    requires
        "|"@ + x == "|"@ + y,
    ensures
        x == y,
{
    reveal_strlit("|");
    assert(x =~= ("|"@ + x).skip(1));
    assert(y =~= ("|"@ + y).skip(1));
}

/// Equal keys mean equal declarations under options that do not differ in what a rule
/// depends on.
pub proof fn keys_tell_declarations_apart(
    p: Seq<char>,
    v: PreRuleValueModel,
    a: Seq<Seq<char>>,
    b: Seq<Seq<char>>,
    c: Seq<Seq<char>>,
    o: ResolvedOptions,
    p2: Seq<char>,
    v2: PreRuleValueModel,
    a2: Seq<Seq<char>>,
    b2: Seq<Seq<char>>,
    c2: Seq<Seq<char>>,
    o2: ResolvedOptions,
)
    requires
        memo_key(p, v, a, b, c, o) == memo_key(p2, v2, a2, b2, c2, o2),
    ensures
        p == p2,
        v == v2,
        a == a2,
        b == b2,
        c == c2,
        memo_letters(o) == memo_letters(o2),
        o.class_name_prefix@ == o2.class_name_prefix@,
{
    reveal_strlit("|");
    let k = memo_key(p, v, a, b, c, o);
    let e = "|"@ + memo_parts(c);
    let e2 = "|"@ + memo_parts(c2);
    let d = "|"@ + (memo_parts(b) + e);
    let d2 = "|"@ + (memo_parts(b2) + e2);
    let f = "|"@ + (memo_parts(a) + d);
    let f2 = "|"@ + (memo_parts(a2) + d2);
    let g = "|"@ + (memo_value(v) + f);
    let g2 = "|"@ + (memo_value(v2) + f2);
    let h = "|"@ + (memo_part(p) + g);
    let h2 = "|"@ + (memo_part(p2) + g2);
    let i = memo_part(o.class_name_prefix@) + h;
    let i2 = memo_part(o2.class_name_prefix@) + h2;
    assert(k == memo_letters(o) + i);
    assert(k == memo_letters(o2) + i2);
    assert(memo_letters(o) =~= k.take(5));
    assert(memo_letters(o2) =~= k.take(5));
    assert(i =~= k.skip(5));
    assert(i2 =~= k.skip(5));
    lemma_part(o.class_name_prefix@, o2.class_name_prefix@, h, h2);
    lemma_break(memo_part(p) + g, memo_part(p2) + g2);
    lemma_part(p, p2, g, g2);
    lemma_break(memo_value(v) + f, memo_value(v2) + f2);
    lemma_value(v, v2, f, f2);
    lemma_break(memo_parts(a) + d, memo_parts(a2) + d2);
    lemma_parts(a, a2, d, d2);
    lemma_break(memo_parts(b) + e, memo_parts(b2) + e2);
    lemma_parts(b, b2, e, e2);
    lemma_break(memo_parts(c), memo_parts(c2));
    let none = Seq::<char>::empty();
    assert(memo_parts(c) + none =~= memo_parts(c));
    assert(memo_parts(c2) + none =~= memo_parts(c2));
    lemma_parts(c, c2, none, none);
}

proof fn lemma_same_letters(o: ResolvedOptions, o2: ResolvedOptions)
    requires
        memo_letters(o) == memo_letters(o2),
    ensures
        o.enable_font_size_px_to_rem == o2.enable_font_size_px_to_rem,
        (o.debug && o.enable_debug_class_names) == (o2.debug && o2.enable_debug_class_names),
        RtlContext::context_of(o) == RtlContext::context_of(o2),
{
    let l = memo_letters(o);
    let m = memo_letters(o2);
    assert(l[0] == m[0] && l[1] == m[1] && l[2] == m[2] && l[3] == m[3] && l[4] == m[4]);
    assert(o.style_resolution == o2.style_resolution);
}

proof fn lemma_same_rule(
    p: Seq<char>,
    v: PreRuleValueModel,
    a: Seq<Seq<char>>,
    b: Seq<Seq<char>>,
    c: Seq<Seq<char>>,
    o: ResolvedOptions,
    o2: ResolvedOptions,
)
    requires
        o.enable_font_size_px_to_rem == o2.enable_font_size_px_to_rem,
        (o.debug && o.enable_debug_class_names) == (o2.debug && o2.enable_debug_class_names),
        RtlContext::context_of(o) == RtlContext::context_of(o2),
        o.class_name_prefix@ == o2.class_name_prefix@,
    ensures
        compiled_rule(p, v, a, b, c, o) == compiled_rule(p, v, a, b, c, o2),
{
}

/// Equal keys mean equal rules: a key covers every option that a rule depends on.
pub proof fn keys_determine_rules(
    p: Seq<char>,
    v: PreRuleValueModel,
    a: Seq<Seq<char>>,
    b: Seq<Seq<char>>,
    c: Seq<Seq<char>>,
    o: ResolvedOptions,
    p2: Seq<char>,
    v2: PreRuleValueModel,
    a2: Seq<Seq<char>>,
    b2: Seq<Seq<char>>,
    c2: Seq<Seq<char>>,
    o2: ResolvedOptions,
)
    requires
        memo_key(p, v, a, b, c, o) == memo_key(p2, v2, a2, b2, c2, o2),
    ensures
        compiled_rule(p, v, a, b, c, o) == compiled_rule(p2, v2, a2, b2, c2, o2),
{
    keys_tell_declarations_apart(p, v, a, b, c, o, p2, v2, a2, b2, c2, o2);
    lemma_same_letters(o, o2);
    lemma_same_rule(p, v, a, b, c, o, o2);
}

fn count_bytes(s: &str) -> (r: usize)
    ensures
        r == byte_len(s@),
{
    let v = chars_of(s);
    let n: usize = char_count(&v);
    let mut bytes: usize = 0;
    let mut i: usize = 0;
    while i < n
        invariant
            i <= n,
            n == v@.len(),
            4 * n <= isize::MAX,
            v@ == s@,
            bytes == byte_offset(s@, i as int),
        decreases n - i,
    {
        proof {
            lemma_bytes(s@, i as int);
        }
        let c: u32 = v[i] as u32;
        let w: usize = if c < 0x80 {
            1
        } else if c < 0x800 {
            2
        } else if c < 0x10000 {
            3
        } else {
            4
        };
        bytes += w;
        i += 1;
    }
    bytes
}

fn push_memo_part(key: &mut String, part: &str)
    ensures
        final(key)@ == old(key)@ + memo_part(part@),
{
    let ghost before = key@;
    let n: usize = count_bytes(part);
    key.append(decimal_text(n as u64).as_str());
    key.append(":");
    key.append(part);
    proof {
        assert(key@ =~= before + memo_part(part@));
    }
}

fn hex_of(n: u64, k: usize) -> (r: Vec<char>)
    ensures
        r@ == hex_digits(n as int, k as int),
    decreases k,
{
    if k == 0 {
        return Vec::new();
    }
    let mut out = hex_of(n / 16, k - 1);
    let d: u8 = (n % 16) as u8;
    out.push(
        if d < 10 {
            (d + 48) as char
        } else {
            (d + 87) as char
        },
    );
    out
}

fn push_memo_scalar(key: &mut String, scalar: &StyleScalar)
    ensures
        final(key)@ == old(key)@ + memo_scalar(scalar.model()),
{
    let ghost before = key@;
    match scalar {
        StyleScalar::Str(s) => {
            key.append("s");
            push_memo_part(key, s.as_str());
        },
        StyleScalar::Num(n) => {
            key.append("n");
            key.append(string_of(&hex_of(n.bits, 16)).as_str());
        },
        StyleScalar::Undefined => {
            key.append("u");
        },
    }
    proof {
        assert(key@ =~= before + memo_scalar(scalar.model()));
    }
}

fn push_memo_value(key: &mut String, value: &PreRuleValue)
    ensures
        final(key)@ == old(key)@ + memo_value(value.model()),
{
    let ghost before = key@;
    match value {
        PreRuleValue::Single(s) => {
            key.append("S");
            push_memo_scalar(key, s);
            proof {
                assert(key@ =~= before + memo_value(value.model()));
            }
        },
        PreRuleValue::Multi(items) => {
            let ghost all = value.model()->Multi_0;
            key.append("M");
            let mut i: usize = 0;
            proof {
                assert(all.skip(0) =~= all);
            }
            while i < items.len()
                invariant
                    i <= items@.len(),
                    all.len() == items@.len(),
                    forall|j: int| 0 <= j < all.len() ==> #[trigger] all[j] == items@[j].model(),
                    key@ + memo_scalars(all.skip(i as int)) == before + "M"@ + memo_scalars(all),
                decreases items@.len() - i,
            {
                let ghost now = key@;
                let ghost rest = all.skip(i as int);
                push_memo_scalar(key, &items[i]);
                proof {
                    assert(rest[0] == items@[i as int].model());
                    assert(rest.drop_first() =~= all.skip(i + 1));
                    assert(key@ + memo_scalars(all.skip(i + 1)) =~= now + memo_scalars(rest));
                }
                i += 1;
            }
            proof {
                assert(all.skip(i as int) =~= Seq::<ScalarModel>::empty());
                assert(key@ + memo_scalars(all.skip(i as int)) =~= key@);
                assert(key@ =~= before + memo_value(value.model()));
            }
        },
    }
}

fn push_memo_parts(key: &mut String, items: &[&str])
    ensures
        final(key)@ == old(key)@ + memo_parts(str_texts(items@)),
{
    let ghost before = key@;
    let ghost all = str_texts(items@);
    let mut i: usize = 0;
    proof {
        assert(all.skip(0) =~= all);
    }
    while i < items.len()
        invariant
            i <= items@.len(),
            all == str_texts(items@),
            key@ + memo_parts(all.skip(i as int)) == before + memo_parts(all),
        decreases items@.len() - i,
    {
        let ghost now = key@;
        let ghost rest = all.skip(i as int);
        push_memo_part(key, items[i]);
        proof {
            assert(rest[0] == items@[i as int]@);
            assert(rest.drop_first() =~= all.skip(i + 1));
            assert(key@ + memo_parts(all.skip(i + 1)) =~= now + memo_parts(rest));
        }
        i += 1;
    }
    proof {
        assert(all.len() == items@.len());
        assert(all.skip(i as int) =~= Seq::<Seq<char>>::empty());
        assert(key@ + memo_parts(all.skip(i as int)) =~= key@);
    }
}

fn letters_of(options: &ResolvedOptions) -> (r: String)
    ensures
        r@ == memo_letters(*options),
{
    let mut v: Vec<char> = Vec::new();
    v.push(
        if options.enable_font_size_px_to_rem {
            'R'
        } else {
            'r'
        },
    );
    v.push(
        if options.debug && options.enable_debug_class_names {
            'D'
        } else {
            'd'
        },
    );
    v.push(
        match options.style_resolution {
            StyleResolution::PropertySpecificity => 'p',
            StyleResolution::ApplicationOrder => 'a',
            StyleResolution::LegacyExpandShorthands => 'l',
        },
    );
    v.push(
        if options.enable_logical_styles_polyfill {
            'L'
        } else {
            'g'
        },
    );
    v.push(
        if options.enable_legacy_value_flipping {
            'F'
        } else {
            'f'
        },
    );
    proof {
        assert(v@ =~= memo_letters(*options));
    }
    string_of(&v)
}

/// Gives the key of a declaration.
pub fn encode_memo_key(
    property: &str,
    value: &PreRuleValue,
    pseudos: &[&str],
    at_rules: &[&str],
    const_rules: &[&str],
    options: &ResolvedOptions,
) -> (r: String)
    ensures
        r@ == memo_key(
            property@,
            value.model(),
            str_texts(pseudos@),
            str_texts(at_rules@),
            str_texts(const_rules@),
            *options,
        ),
{
    let mut prefix = String::new();
    push_memo_part(&mut prefix, options.class_name_prefix.as_str());
    let mut name = String::new();
    push_memo_part(&mut name, property);
    let mut content = String::new();
    push_memo_value(&mut content, value);
    let mut first = String::new();
    push_memo_parts(&mut first, pseudos);
    let mut second = String::new();
    push_memo_parts(&mut second, at_rules);
    let mut third = String::new();
    push_memo_parts(&mut third, const_rules);
    proof {
        assert(prefix@ =~= memo_part(options.class_name_prefix@));
        assert(name@ =~= memo_part(property@));
        assert(content@ =~= memo_value(value.model()));
        assert(first@ =~= memo_parts(str_texts(pseudos@)));
        assert(second@ =~= memo_parts(str_texts(at_rules@)));
        assert(third@ =~= memo_parts(str_texts(const_rules@)));
    }
    let e = concat2("|", third.as_str());
    let d = concat2("|", concat2(second.as_str(), e.as_str()).as_str());
    let f = concat2("|", concat2(first.as_str(), d.as_str()).as_str());
    let g = concat2("|", concat2(content.as_str(), f.as_str()).as_str());
    let h = concat2("|", concat2(name.as_str(), g.as_str()).as_str());
    concat2(letters_of(options).as_str(), concat2(prefix.as_str(), h.as_str()).as_str())
}

/// Whether a rule is that of every declaration with the given key.
pub open spec fn rule_of_key(key: Seq<char>, rule: RuleModel) -> bool {
    forall|
        p: Seq<char>,
        v: PreRuleValueModel,
        a: Seq<Seq<char>>,
        b: Seq<Seq<char>>,
        c: Seq<Seq<char>>,
        o: ResolvedOptions,
    |
        #[trigger] memo_key(p, v, a, b, c, o) == key ==> compiled_rule(p, v, a, b, c, o) == Ok::<
            RuleModel,
            ErrorModel,
        >(rule)
}

/// What kept rules are, mathematically.
pub open spec fn kept_models(v: Seq<(String, StylexRule)>) -> Seq<(Seq<char>, RuleModel)> {
    Seq::new(v.len(), |i: int| (v[i].0@, v[i].1.model()))
}

/// What is kept after the rule of a key was asked for: a rule that was not there is kept
/// last, and a full memory forgets all others first. Errors are not kept.
pub open spec fn kept_after(
    e: Seq<(Seq<char>, RuleModel)>,
    key: Seq<char>,
    outcome: Result<RuleModel, ErrorModel>,
) -> Seq<(Seq<char>, RuleModel)> {
    match outcome {
        Err(_) => e,
        Ok(rule) => if keys_of(e).contains(key) {
            e
        } else if e.len() >= CONVERT_MEMO_CAP {
            seq![(key, rule)]
        } else {
            e.push((key, rule))
        },
    }
}

/// Compiled declarations under their keys.
#[derive(Debug, PartialEq)]
pub struct ConvertMemo {
    pub entries: Vec<(String, StylexRule)>,
}

impl ConvertMemo {
    /// Whether every rule is that of its key, and no more are kept than may be.
    pub open spec fn sound(self) -> bool {
        &&& self.entries@.len() <= CONVERT_MEMO_CAP
        &&& forall|i: int|
            0 <= i < self.entries@.len() ==> rule_of_key(
                (#[trigger] self.entries@[i]).0@,
                self.entries@[i].1.model(),
            )
    }

    /// A memory that holds nothing.
    pub fn new() -> (r: ConvertMemo)
        ensures
            r.sound(),
            r.entries@.len() == 0,
    {
        ConvertMemo { entries: Vec::new() }
    }

    /// Gives the class and the rule of a declaration, from what is kept if it is there.
    /// A rule that was not there is kept; a full memory forgets all others first.
    pub fn convert(
        &mut self,
        property: &str,
        value: &PreRuleValue,
        pseudos: &[&str],
        at_rules: &[&str],
        const_rules: &[&str],
        options: &ResolvedOptions,
    ) -> (r: Result<StylexRule, StylexError>)
        requires
            old(self).sound(),
        ensures
            final(self).sound(),
            rule_outcome(r) == compiled_rule(
                property@,
                value.model(),
                str_texts(pseudos@),
                str_texts(at_rules@),
                str_texts(const_rules@),
                *options,
            ),
            kept_models(final(self).entries@) == kept_after(
                kept_models(old(self).entries@),
                memo_key(
                    property@,
                    value.model(),
                    str_texts(pseudos@),
                    str_texts(at_rules@),
                    str_texts(const_rules@),
                    *options,
                ),
                compiled_rule(
                    property@,
                    value.model(),
                    str_texts(pseudos@),
                    str_texts(at_rules@),
                    str_texts(const_rules@),
                    *options,
                ),
            ),
    {
        let key = encode_memo_key(property, value, pseudos, at_rules, const_rules, options);
        let ghost e = kept_models(self.entries@);
        let ghost keys = keys_of(e);
        let at: usize = position_of(&self.entries, key.as_str());
        proof {
            assert(keys =~= item_keys(self.entries@));
            lemma_find_key(keys, key@, 0);
        }
        if at < self.entries.len() {
            proof {
                assert(keys[at as int] == key@);
                assert(keys.contains(key@));
                assert(rule_of_key(self.entries@[at as int].0@, self.entries@[at as int].1.model()));
            }
            return Ok(self.entries[at].1.clone());
        }
        assert(!keys.contains(key@));
        let rule = match convert_style_to_class_name(
            property,
            value,
            pseudos,
            at_rules,
            const_rules,
            options,
        ) {
            Ok(rule) => rule,
            Err(e) => {
                return Err(e);
            },
        };
        proof {
            assert forall|
                p: Seq<char>,
                v: PreRuleValueModel,
                a: Seq<Seq<char>>,
                b: Seq<Seq<char>>,
                c: Seq<Seq<char>>,
                o: ResolvedOptions,
            | #[trigger] memo_key(p, v, a, b, c, o) == key@ implies compiled_rule(p, v, a, b, c, o)
                == Ok::<RuleModel, ErrorModel>(rule.model()) by {
                keys_determine_rules(
                    p,
                    v,
                    a,
                    b,
                    c,
                    o,
                    property@,
                    value.model(),
                    str_texts(pseudos@),
                    str_texts(at_rules@),
                    str_texts(const_rules@),
                    *options,
                );
            }
            assert(rule_of_key(key@, rule.model()));
        }
        if self.entries.len() >= CONVERT_MEMO_CAP {
            self.entries = Vec::new();
        }
        let kept = rule.clone();
        let ghost at = self.entries@.len() as int;
        let ghost name = key@;
        let ghost before = self.entries@;
        self.entries.push((key, kept));
        proof {
            assert(kept_models(self.entries@) =~= kept_models(before).push((name, rule.model())));
            if e.len() >= CONVERT_MEMO_CAP {
                assert(kept_models(before) =~= Seq::empty());
                assert(kept_models(self.entries@) =~= seq![(name, rule.model())]);
            }
            assert forall|j: int| 0 <= j < self.entries@.len() implies rule_of_key(
                (#[trigger] self.entries@[j]).0@,
                self.entries@[j].1.model(),
            ) by {
                if j < at {
                    assert(self.entries@[j] == before[j]);
                }
            }
        }
        Ok(rule)
    }
}

} // verus!
