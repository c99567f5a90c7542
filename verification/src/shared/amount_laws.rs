//! What the numbers in values stand for, and that normal values stand for the same.

use crate::bignat::pow10;
use crate::number::{
    all_digits, chosen, cut, decimal, decimal_number, decimal_reads_back, digits_value, exponent_at,
    float_prefix, lemma_decimal_short, lemma_places_down, lemma_pow10_adds, lemma_pow10_pos,
    lemma_shortest_bound, lemma_split, lemma_steps_infinite, lemma_steps_order, placed, places,
    reads_as, rounded, rounded_keeps, shortest, steps, unit_steps, without_end_zeros, zeros,
    JsNumber, INFINITE,
};
use crate::number_laws::{
    lemma_digits_concat, lemma_exponent_text, lemma_joined_digits, lemma_places_bound,
    lemma_printed_magnitude, lemma_run, lemma_same_ratio, lemma_split_digits, lemma_zeros_value,
    number_parts, parts_are_read, printed_exponent, printed_numbers_read_back, sign_text,
};
use crate::shared::css_value::{
    begins_number, dimension, nodes_text, number_end, parse_nodes, swept, swept_node, swept_upto,
    Kind, NodeModel, NodeVisitor,
};
use crate::shared::normalize_value::{
    first_at, holds_names, normalized, normalized_nodes, whitespace_normalized,
    without_leading_zero, LeadingZero, Quotes, Timings, ZeroDimensions, ANGLES, ONE, TEN, ZERO,
};
use crate::text::{
    at_pos, char_at, digit, digit_at, digits_end, has_prefix, listed, sign_at,
};
use vstd::arithmetic::power2::{lemma_pow2_pos, pow2};
use vstd::prelude::*;

verus! {

/// The parts of a number: the digits before and behind its point, and its exponent.
pub struct Parts {
    pub whole: Seq<char>,
    pub fraction: Seq<char>,
    pub exponent: Option<(bool, Seq<char>)>,
}

/// Whether the parts of a number are digits.
pub open spec fn proper_parts(p: Parts) -> bool {
    &&& p.whole.len() + p.fraction.len() > 0
    &&& all_digits(p.whole)
    &&& all_digits(p.fraction)
    &&& match p.exponent {
        Some((_, digits)) => digits.len() > 0 && all_digits(digits),
        None => true,
    }
}

/// The number that parts stand for.
pub open spec fn parts_value(negative: bool, p: Parts) -> JsNumber {
    match p.exponent {
        Some((below, digits)) => decimal_number(negative, p.whole, p.fraction, below, digits),
        None => decimal_number(negative, p.whole, p.fraction, false, Seq::empty()),
    }
}

/// Whether a text spells a number with the given parts.
pub open spec fn spells_parts(t: Seq<char>, x: JsNumber, negative: bool, p: Parts) -> bool {
    &&& proper_parts(p)
    &&& t == number_parts(negative, p.whole, p.fraction, p.exponent)
    &&& parts_value(negative, p) == x
}

/// Whether a text spells a number.
pub open spec fn spells_number(t: Seq<char>, x: JsNumber) -> bool {
    exists|negative: bool, p: Parts| #[trigger] spells_parts(t, x, negative, p)
}

/// Whether a text that stands behind a number does not go on with it.
pub open spec fn ends_number(u: Seq<char>) -> bool {
    &&& !digit_at(u, 0)
    &&& !char_at(u, 0, '.')
    &&& !((char_at(u, 0, 'e') || char_at(u, 0, 'E')) && (digit_at(u, 1) || (sign_at(u, 1)
        && digit_at(u, 2))))
}

/// Where the digits before the point end, and where the whole mantissa ends.
spec fn mantissa_ends(negative: bool, p: Parts) -> (int, int, int) {
    let start = if negative {
        1int
    } else {
        0
    };
    let whole_end = start + p.whole.len();
    let end = if p.fraction.len() > 0 {
        whole_end + 1 + p.fraction.len()
    } else {
        whole_end
    };
    (start, whole_end, end)
}

/// The mantissa of a number with parts stands at the start of a text.
#[verifier::opaque]
spec fn mantissa_stands(s: Seq<char>, negative: bool, p: Parts) -> bool {
    let (start, whole_end, end) = mantissa_ends(negative, p);
    &&& end <= s.len()
    &&& char_at(s, 0, '-') == negative
    &&& sign_at(s, 0) == negative
    &&& digits_end(s, start) == whole_end
    &&& s.subrange(start, whole_end) == p.whole
    &&& p.whole.len() > 0 ==> digit_at(s, start)
    &&& !at_pos(s, "Infinity"@, start)
    &&& p.fraction.len() > 0 ==> {
        &&& char_at(s, whole_end, '.')
        &&& digit_at(s, whole_end + 1)
        &&& digits_end(s, whole_end + 1) == end
        &&& digits_end(s, whole_end + 2) == end
        &&& s.subrange(whole_end + 1, end) == p.fraction
    }
    &&& p.fraction.len() == 0 ==> !char_at(s, whole_end, '.')
}

proof fn lemma_mantissa_stands(s: Seq<char>, negative: bool, p: Parts)
    requires
        proper_parts(p),
        ({
            let (start, whole_end, end) = mantissa_ends(negative, p);
            let head = number_parts(negative, p.whole, p.fraction, None);
            &&& head.len() == end
            &&& head.is_prefix_of(s)
            &&& !digit_at(s, end)
            &&& p.fraction.len() == 0 ==> !char_at(s, end, '.')
        }),
    ensures
        mantissa_stands(s, negative, p),
{
    reveal(mantissa_stands);
    let whole = p.whole;
    let fraction = p.fraction;
    let (start, whole_end, end) = mantissa_ends(negative, p);
    let head = number_parts(negative, whole, fraction, None);
    let pointed = fraction.len() > 0;
    assert forall|i: int| 0 <= i < end implies s[i] == head[i] by {
        assert(s.subrange(0, end)[i] == head[i]);
    }
    assert forall|i: int| start <= i < whole_end implies s[i] == whole[i - start] && digit_at(
        s,
        i,
    ) by {
        assert(head[i] == whole[i - start]);
        assert(digit(whole[i - start]));
    }
    if pointed {
        assert(head[whole_end] == '.');
        assert forall|i: int| whole_end + 1 <= i < end implies s[i] == fraction[i - whole_end - 1]
            && digit_at(s, i) by {
            assert(head[i] == fraction[i - whole_end - 1]);
            assert(digit(fraction[i - whole_end - 1]));
        }
        lemma_run(s, whole_end + 1, end);
        assert(digit_at(s, whole_end + 1));
        lemma_run(s, whole_end + 2, end);
        assert(s.subrange(whole_end + 1, end) =~= fraction);
    }
    if whole.len() > 0 {
        assert(digit_at(s, start));
    }
    lemma_run(s, start, whole_end);
    assert(s.subrange(start, whole_end) =~= whole);
    assert(!at_pos(s, "Infinity"@, start)) by {
        reveal_strlit("Infinity");
        if at_pos(s, "Infinity"@, start) {
            assert(s.subrange(start, start + 8)[0] == 'I');
            assert(s[start] == 'I');
        }
    }
    if negative {
        assert(head[0] == '-');
    } else {
        assert(head[0] == if whole.len() > 0 {
            whole[0]
        } else {
            '.'
        });
        if whole.len() > 0 {
            assert(digit(whole[0]));
        }
    }
}

/// The exponent of a number with parts, or what ends it, stands behind its mantissa.
#[verifier::opaque]
spec fn exponent_stands(s: Seq<char>, end: int, stop: int, p: Parts) -> bool {
    match p.exponent {
        Some((below, digits)) => {
            &&& exponent_at(s, end) == (below, digits)
            &&& char_at(s, end, 'e')
            &&& !digit_at(s, end + 1)
            &&& sign_at(s, end + 1)
            &&& digit_at(s, end + 2)
            &&& digits_end(s, end + 3) == stop
        },
        None => {
            &&& exponent_at(s, end) == (false, Seq::<char>::empty())
            &&& stop == end
            &&& !((char_at(s, end, 'e') || char_at(s, end, 'E')) && (digit_at(s, end + 1) || (
            sign_at(s, end + 1) && digit_at(s, end + 2))))
        },
    }
}

proof fn lemma_exponent_stands(t: Seq<char>, u: Seq<char>, negative: bool, p: Parts)
    requires
        proper_parts(p),
        t == number_parts(negative, p.whole, p.fraction, p.exponent),
        ends_number(u),
    ensures
        exponent_stands(t + u, mantissa_ends(negative, p).2, t.len() as int, p),
{
    reveal(exponent_stands);
    let s = t + u;
    let end = mantissa_ends(negative, p).2;
    let n = t.len() as int;
    assert forall|i: int| n <= i < s.len() implies s[i] == u[i - n] by {}
    assert(digit_at(s, n) == digit_at(u, 0));
    match p.exponent {
        Some((below, digits)) => {
            assert(n == end + 2 + digits.len());
            assert(s[end] == t[end] && t[end] == 'e');
            assert(s[end + 1] == t[end + 1] && t[end + 1] == if below {
                '-'
            } else {
                '+'
            });
            assert forall|i: int| end + 2 <= i < n implies s[i] == digits[i - end - 2] && digit_at(
                s,
                i,
            ) by {
                assert(t[i] == digits[i - end - 2]);
                assert(digit(digits[i - end - 2]));
            }
            lemma_run(s, end + 2, n);
            lemma_run(s, end + 3, n);
            assert(s.subrange(end + 2, n) =~= digits);
            assert(digit_at(s, end + 2));
        },
        None => {
            assert(n == end);
            lemma_no_exponent(s, u, end);
            assert(digit_at(s, end + 1) == digit_at(u, 1));
            assert(digit_at(s, end + 2) == digit_at(u, 2));
            assert(sign_at(s, end + 1) == sign_at(u, 1));
        },
    }
}

proof fn lemma_stands(s: Seq<char>, negative: bool, p: Parts, stop: int)
    requires
        proper_parts(p),
        mantissa_stands(s, negative, p),
        exponent_stands(s, mantissa_ends(negative, p).2, stop, p),
    ensures
        float_prefix(s) == Some(parts_value(negative, p)),
        begins_number(s),
        number_end(s) == stop,
{
    reveal(mantissa_stands);
    reveal(exponent_stands);
}

/// A printed number with a unit behind it is read as that number and that unit.
pub(crate) proof fn lemma_printed_unit(x: JsNumber, u: Seq<char>)
    requires
        x.finite(),
        x.magnitude() == 0 ==> !x.negative(),
        ends_number(u),
    ensures
        float_prefix(x.text_spec() + u) == Some(x),
        dimension(x.text_spec() + u) == Some((x.text_spec(), u)),
{
    lemma_printed(x);
    lemma_with_unit(x.text_spec(), x, u);
}

/// A number with a unit behind it is read as that number and that unit.
proof fn lemma_with_unit(t: Seq<char>, x: JsNumber, u: Seq<char>)
    requires
        spells_number(t, x),
        ends_number(u),
    ensures
        float_prefix(t + u) == Some(x),
        dimension(t + u) == Some((t, u)),
{
    let (negative, p) = choose|negative: bool, p: Parts| #[trigger] spells_parts(t, x, negative, p);
    let s = t + u;
    let (start, whole_end, end) = mantissa_ends(negative, p);
    let head = number_parts(negative, p.whole, p.fraction, None);
    assert(s.subrange(0, end) =~= head);
    assert(head.is_prefix_of(s));
    match p.exponent {
        Some((below, digits)) => {
            assert(s[end] == 'e');
        },
        None => {
            assert(t.len() == end);
            assert(digit_at(s, end) == digit_at(u, 0));
            assert(char_at(s, end, '.') == char_at(u, 0, '.'));
        },
    }
    lemma_mantissa_stands(s, negative, p);
    lemma_exponent_stands(t, u, negative, p);
    lemma_stands(s, negative, p, t.len() as int);
    assert(s.subrange(0, t.len() as int) =~= t);
    assert(s.subrange(t.len() as int, s.len() as int) =~= u);
}

proof fn lemma_digits_end(s: Seq<char>, i: int)
    requires
        0 <= i <= s.len(),
    ensures
        i <= digits_end(s, i) <= s.len(),
    decreases s.len() - i,
{
    if digit_at(s, i) {
        lemma_digits_end(s, i + 1);
    }
}

/// The number and the unit of a text are all of it.
proof fn lemma_dimension(s: Seq<char>)
    requires
        dimension(s) is Some,
    ensures
        ({
            let (number, unit) = dimension(s)->0;
            s == number + unit
        }),
{
    let start = if sign_at(s, 0) {
        1int
    } else {
        0
    };
    lemma_digits_end(s, start);
    let whole = digits_end(s, start);
    if digit_at(s, whole + 1) {
        lemma_digits_end(s, whole + 2);
    }
    let fraction = if char_at(s, whole, '.') && digit_at(s, whole + 1) {
        digits_end(s, whole + 2)
    } else {
        whole
    };
    if digit_at(s, fraction + 1) {
        lemma_digits_end(s, fraction + 2);
    }
    if digit_at(s, fraction + 2) {
        lemma_digits_end(s, fraction + 3);
    }
    let e = number_end(s);
    assert(s =~= s.subrange(0, e) + s.subrange(e, s.len() as int));
}

proof fn lemma_no_exponent(s: Seq<char>, u: Seq<char>, end: int)
    requires
        ends_number(u),
        0 <= end,
        s.len() == end + u.len(),
        forall|i: int| end <= i < s.len() ==> s[i] == u[i - end],
    ensures
        exponent_at(s, end) == (false, Seq::<char>::empty()),
{
    assert(digit_at(s, end + 1) == digit_at(u, 1));
    assert(digit_at(s, end + 2) == digit_at(u, 2));
    assert(sign_at(s, end + 1) == sign_at(u, 1));
    assert(char_at(s, end, 'e') == char_at(u, 0, 'e'));
    assert(char_at(s, end, 'E') == char_at(u, 0, 'E'));
    let k = if sign_at(s, end + 1) {
        end + 2
    } else {
        end + 1
    };
    if char_at(s, end, 'e') || char_at(s, end, 'E') {
        assert(!digit_at(s, k));
        assert(digits_end(s, k) == k);
    }
}

/// The digits of a printed number and the place of its point.
spec fn printed_digits(b: int) -> (Seq<char>, int) {
    let (up, down) = places(steps(b));
    let k = shortest(b, up, down, 1);
    let all = decimal(chosen(b, up, down, k));
    (without_end_zeros(all), all.len() + up - down - k)
}

spec fn placed_parts(d: Seq<char>, n: int) -> Parts {
    if d.len() <= n <= 21 {
        Parts { whole: d + zeros(n - d.len()), fraction: Seq::empty(), exponent: None }
    } else if 0 < n <= 21 {
        Parts { whole: d.take(n), fraction: d.skip(n), exponent: None }
    } else if -6 < n <= 0 {
        Parts { whole: seq!['0'], fraction: zeros(-n) + d, exponent: None }
    } else {
        Parts { whole: d.take(1), fraction: d.skip(1), exponent: Some(printed_exponent(n)) }
    }
}

proof fn lemma_placed_parts(negative: bool, d: Seq<char>, n: int)
    requires
        d.len() >= 1,
        all_digits(d),
    ensures
        proper_parts(placed_parts(d, n)),
        placed_parts(d, n).whole.len() > 0,
        ({
            let p = placed_parts(d, n);
            sign_text(negative) + placed(d, n) == number_parts(
                negative,
                p.whole,
                p.fraction,
                p.exponent,
            )
        }),
{
    let p = placed_parts(d, n);
    let s = sign_text(negative) + placed(d, n);
    let none = Seq::<char>::empty();
    reveal_strlit(".");
    reveal_strlit("0.");
    if d.len() <= n <= 21 {
        lemma_zeros_value(n - d.len());
        lemma_joined_digits(d, zeros(n - d.len()));
        assert(s =~= number_parts(negative, p.whole, none, None));
    } else if 0 < n <= 21 {
        lemma_split_digits(d, n);
        assert(s =~= number_parts(negative, d.take(n), d.skip(n), None));
    } else if -6 < n <= 0 {
        lemma_zeros_value(-n);
        lemma_joined_digits(zeros(-n), d);
        assert(s =~= number_parts(negative, seq!['0'], zeros(-n) + d, None));
    } else {
        lemma_split_digits(d, 1);
        lemma_exponent_text(negative, d, n);
        decimal_reads_back(
            if n - 1 < 0 {
                (1 - n) as nat
            } else {
                (n - 1) as nat
            },
        );
    }
}

/// The parts of a printed number.
spec fn printed_parts(x: JsNumber) -> Parts {
    if x.magnitude() == 0 {
        Parts { whole: seq!['0'], fraction: Seq::empty(), exponent: None }
    } else {
        let (d, n) = printed_digits(x.magnitude());
        placed_parts(d, n)
    }
}

proof fn lemma_printed(x: JsNumber)
    requires
        x.finite(),
        x.magnitude() == 0 ==> !x.negative(),
    ensures
        spells_parts(x.text_spec(), x, x.negative(), printed_parts(x)),
        printed_parts(x).whole.len() > 0,
        spells_number(x.text_spec(), x),
{
    let p = printed_parts(x);
    let t = x.text_spec();
    let none = Seq::<char>::empty();
    if x.magnitude() == 0 {
        reveal_strlit("0");
        assert(t =~= number_parts(false, seq!['0'], none, None));
    } else {
        let (d, n) = printed_digits(x.magnitude());
        lemma_printed_magnitude(x.magnitude());
        lemma_placed_parts(x.negative(), d, n);
        reveal_strlit("-");
        assert("-"@ =~= seq!['-']);
        assert(none + placed(d, n) =~= placed(d, n));
        assert(t == sign_text(x.negative()) + placed(d, n));
    }
    parts_are_read(x.negative(), p.whole, p.fraction, p.exponent);
    printed_numbers_read_back(x);
    assert(spells_parts(t, x, x.negative(), p));
}

proof fn lemma_one()
    ensures
        steps(ONE as int) == unit_steps(),
{
    lemma_split(ONE as int, 1023, 0);
    lemma_steps_infinite();
    vstd::arithmetic::power2::lemma_pow2_adds(52, 1022);
}

/// A number below one is printed with its point before its digits.
proof fn lemma_below_one(b: int)
    requires
        0 < b < INFINITE,
        steps(b) < unit_steps(),
    ensures
        printed_digits(b).1 <= 0,
{
    let x = steps(b);
    let (up, down) = places(x);
    let k = shortest(b, up, down, 1);
    lemma_steps_order(0, b);
    lemma_pow2_pos(1074);
    assert(pow10(0) == 1);
    assert(unit_steps() * pow10(0) == unit_steps()) by (nonlinear_arith)
        requires
            pow10(0) == 1,
    ;
    assert(up == 0);
    assert(x * pow10(0) == x) by (nonlinear_arith)
        requires
            pow10(0) == 1,
    ;
    lemma_places_down(x, 0);
    lemma_places_bound(b);
    lemma_shortest_bound(b, up, down, 1);
    let s = cut(x, up, down, k);
    let c = chosen(b, up, down, k);
    let all = decimal(c);
    let u = unit_steps();
    lemma_pow10_adds(down, k);
    lemma_pow10_pos(k);
    assert(x * pow10(down + k) < u * pow10(k)) by (nonlinear_arith)
        requires
            x * pow10(down) < u,
            pow10(down + k) == pow10(down) * pow10(k),
            pow10(k) >= 1,
    ;
    assert(s < pow10(k)) by {
        vstd::arithmetic::div_mod::lemma_fundamental_div_mod(
            (x * pow10(down + k)) as int,
            u as int,
        );
        let v = x * pow10(down + k);
        assert(u * s <= v) by {
            vstd::arithmetic::div_mod::lemma_mod_bound(v as int, u as int);
        }
        assert(s < pow10(k)) by (nonlinear_arith)
            requires
                u * s <= v,
                v < u * pow10(k),
                u > 0,
        ;
    }
    assert(c <= pow10(k));
    if c < pow10(k) {
        lemma_decimal_short(c, k);
    } else {
        assert(pow10(k + 1) == 10 * pow10(k));
        lemma_decimal_short(c, k + 1);
        if down == 0 {
            assert(reads_as(c, up, down, k, b));
            assert(pow10(k) * pow10(0) == pow10(k)) by (nonlinear_arith)
                requires
                    pow10(0) == 1,
            ;
            let p = pow2(1074);
            assert(pow10(k) * p == p * pow10(k)) by (nonlinear_arith);
            lemma_same_ratio(pow10(k), pow10(k), p, p);
            lemma_one();
            rounded_keeps(ONE as int);
        }
    }
}

proof fn lemma_first_zero(s: Seq<char>, i: int)
    requires
        0 <= i,
        forall|j: int| i <= j < s.len() ==> !#[trigger] at_pos(s, "0."@, j),
    ensures
        first_at(s, "0."@, i) == s.len() || i > s.len(),
    decreases s.len() - i,
{
    if i < s.len() {
        lemma_first_zero(s, i + 1);
    }
}

proof fn lemma_point_only(t: Seq<char>, p: Parts, j: int)
    requires
        proper_parts(p),
        p.whole.len() == 1,
        t == number_parts(false, p.whole, p.fraction, p.exponent),
        at_pos(t, "0."@, j),
    ensures
        j == 0,
        p.whole[0] == '0',
        p.fraction.len() > 0,
{
    reveal_strlit("0.");
    assert(t.subrange(j, j + 2)[1] == '.');
    assert(t.subrange(j, j + 2)[0] == '0');
    assert(t[j + 1] == '.');
    assert(t[j] == '0');
    let end = if p.fraction.len() > 0 {
        2 + p.fraction.len()
    } else {
        1
    };
    if j + 1 != 1 {
        if j + 1 < end {
            assert(t[j + 1] == p.fraction[j + 1 - 2]);
            assert(digit(p.fraction[j + 1 - 2]));
        } else if let Some((below, digits)) = p.exponent {
            if j + 1 >= end + 2 {
                assert(t[j + 1] == digits[j + 1 - end - 2]);
                assert(digit(digits[j + 1 - end - 2]));
            }
        }
    } else {
        assert(t[0] == p.whole[0]);
    }
}

/// A number from zero up to one without the zero before its point is still that number.
proof fn lemma_without_zero(x: JsNumber)
    requires
        x.finite(),
        !x.negative(),
        steps(x.magnitude()) < unit_steps(),
    ensures
        spells_number(without_leading_zero(x.text_spec()), x),
{
    let t = x.text_spec();
    let p = printed_parts(x);
    lemma_printed(x);
    if x.magnitude() > 0 {
        lemma_below_one(x.magnitude());
        lemma_printed_magnitude(x.magnitude());
    }
    assert(p.whole.len() == 1);
    assert(t == number_parts(false, p.whole, p.fraction, p.exponent));
    assert(t[0] == p.whole[0]);
    if at_pos(t, "0."@, 0) {
        lemma_point_only(t, p, 0);
        reveal_strlit("0.");
        reveal_strlit(".");
        let short = Parts { whole: Seq::empty(), ..p };
        let out = without_leading_zero(t);
        assert(first_at(t, "0."@, 0) == 0);
        assert(out =~= number_parts(false, short.whole, short.fraction, short.exponent));
        lemma_digits_concat(p.whole, p.fraction);
        assert(digits_value(p.whole) == 0) by {
            reveal_with_fuel(digits_value, 2);
            assert(p.whole.drop_last() =~= Seq::<char>::empty());
            assert(p.whole.last() == '0');
        }
        assert(0 * pow10(p.fraction.len()) == 0) by (nonlinear_arith);
        assert(short.whole + short.fraction =~= p.fraction);
        assert(digits_value(p.whole + p.fraction) == digits_value(short.whole + short.fraction));
        assert(spells_parts(out, x, false, short));
    } else {
        assert forall|j: int| 0 <= j < t.len() implies !#[trigger] at_pos(t, "0."@, j) by {
            if at_pos(t, "0."@, j) {
                lemma_point_only(t, p, j);
            }
        }
        lemma_first_zero(t, 0);
    }
}

/// What a word stands for: a number and a unit. Milliseconds are thousandths of seconds. Zero
/// is the same in all units of one kind: angles, times, fractions, percentages, and all
/// others.
pub open spec fn amount(word: Seq<char>) -> Option<(JsNumber, Seq<char>)> {
    match (float_prefix(word), dimension(word)) {
        (Some(x), Some((_, unit))) => if !x.finite() || !ends_number(unit) {
            None
        } else if x.magnitude() == 0 {
            Some(
                (
                    JsNumber { bits: 0 },
                    if unit == "deg"@ || unit == "grad"@ || unit == "turn"@ || unit == "rad"@ {
                        "deg"@
                    } else if unit == "ms"@ || unit == "s"@ {
                        "s"@
                    } else if unit == "fr"@ || unit == "%"@ {
                        unit
                    } else {
                        ""@
                    },
                ),
            )
        } else if unit == "ms"@ {
            Some((x.over_spec(1000), "s"@))
        } else {
            Some((x, unit))
        },
        _ => None,
    }
}

/// Whether a word keeps what it stands for; a word without a number stays as it is.
pub open spec fn word_kept(a: Seq<char>, b: Seq<char>) -> bool {
    &&& amount(a) is Some ==> amount(b) == amount(a)
    &&& float_prefix(a) is None && dimension(a) is None ==> b == a
}

/// Whether a node keeps what it stands for: words do, and everything else but the quotes of
/// empty strings stays.
pub open spec fn node_kept(a: NodeModel, b: NodeModel) -> bool
    decreases a,
{
    &&& a.kind == b.kind
    &&& a.before == b.before
    &&& a.after == b.after
    &&& a.unclosed == b.unclosed
    &&& if a.kind == Kind::Word {
        word_kept(a.value, b.value)
    } else {
        a.value == b.value
    }
    &&& a.kind == Kind::Str && a.value.len() == 0 || a.quote == b.quote
    &&& if a.kind == Kind::Func {
        a.nodes.len() == b.nodes.len() && forall|i: int|
            0 <= i < a.nodes.len() ==> node_kept(#[trigger] a.nodes[i], b.nodes[i])
    } else {
        a.nodes == b.nodes
    }
}

/// Whether nodes keep what they stand for.
pub open spec fn nodes_kept(a: Seq<NodeModel>, b: Seq<NodeModel>) -> bool {
    a.len() == b.len() && forall|i: int| 0 <= i < a.len() ==> node_kept(#[trigger] a[i], b[i])
}

proof fn lemma_node_trans(a: NodeModel, b: NodeModel, c: NodeModel)
    requires
        node_kept(a, b),
        node_kept(b, c),
    ensures
        node_kept(a, c),
    decreases a,
{
    if a.kind == Kind::Func {
        assert forall|i: int| 0 <= i < a.nodes.len() implies node_kept(
            #[trigger] a.nodes[i],
            c.nodes[i],
        ) by {
            assert(node_kept(a.nodes[i], b.nodes[i]));
            assert(node_kept(b.nodes[i], c.nodes[i]));
            lemma_node_trans(a.nodes[i], b.nodes[i], c.nodes[i]);
        }
    }
}

proof fn lemma_nodes_trans(a: Seq<NodeModel>, b: Seq<NodeModel>, c: Seq<NodeModel>)
    requires
        nodes_kept(a, b),
        nodes_kept(b, c),
    ensures
        nodes_kept(a, c),
{
    assert forall|i: int| 0 <= i < a.len() implies node_kept(#[trigger] a[i], c[i]) by {
        assert(node_kept(a[i], b[i]));
        assert(node_kept(b[i], c[i]));
        lemma_node_trans(a[i], b[i], c[i]);
    }
}

/// Whether a walker changes nothing but the values of words and the quotes of empty strings,
/// and keeps what words stand for.
spec fn keeps_amounts<V: NodeVisitor>() -> bool {
    forall|v: V, n: NodeModel| edit_kept(n, #[trigger] v.edited(n))
}

spec fn edit_kept(n: NodeModel, m: NodeModel) -> bool {
    &&& m.kind == n.kind
    &&& m.before == n.before
    &&& m.after == n.after
    &&& m.unclosed == n.unclosed
    &&& m.nodes == n.nodes
    &&& if n.kind == Kind::Word {
        word_kept(n.value, m.value)
    } else {
        m.value == n.value
    }
    &&& n.kind == Kind::Str && n.value.len() == 0 || m.quote == n.quote
}

proof fn lemma_sweep<V: NodeVisitor>(v: V, nodes: Seq<NodeModel>, k: int)
    requires
        keeps_amounts::<V>(),
        0 <= k <= nodes.len(),
    ensures
        swept_upto(v, nodes, k).1.len() == k,
        forall|i: int|
            0 <= i < k ==> node_kept(nodes[i], #[trigger] swept_upto(v, nodes, k).1[i]),
    decreases nodes, k,
{
    if k > 0 {
        lemma_sweep(v, nodes, k - 1);
        let (w, done) = swept_upto(v, nodes, k - 1);
        lemma_sweep_node(w, nodes[k - 1]);
        let now = swept_upto(v, nodes, k).1;
        assert forall|i: int| 0 <= i < k implies node_kept(nodes[i], #[trigger] now[i]) by {
            if i < k - 1 {
                assert(now[i] == done[i]);
            }
        }
    }
}

proof fn lemma_sweep_node<V: NodeVisitor>(v: V, n: NodeModel)
    requires
        keeps_amounts::<V>(),
    ensures
        node_kept(n, swept_node(v, n).1),
    decreases n, 0int,
{
    let m = v.edited(n);
    assert(edit_kept(n, m));
    if m.kind == Kind::Func {
        lemma_sweep(v.seen(n), n.nodes, n.nodes.len() as int);
        let out = swept_node(v, n).1;
        assert forall|i: int| 0 <= i < n.nodes.len() implies node_kept(
            #[trigger] n.nodes[i],
            out.nodes[i],
        ) by {}
    }
}

proof fn lemma_swept<V: NodeVisitor>(v: V, nodes: Seq<NodeModel>)
    requires
        keeps_amounts::<V>(),
    ensures
        nodes_kept(nodes, swept(v, nodes).1),
{
    lemma_sweep(v, nodes, nodes.len() as int);
    let out = swept(v, nodes).1;
    assert forall|i: int| 0 <= i < nodes.len() implies node_kept(#[trigger] nodes[i], out[i]) by {}
}

proof fn lemma_units()
    ensures
        ends_number("s"@),
        ends_number("ms"@),
        ends_number("deg"@),
        ends_number("fr"@),
        ends_number("%"@),
        ends_number(""@),
        "s"@ != "ms"@,
        "s"@ != "deg"@,
        "s"@ != "%"@,
        "s"@ != "fr"@,
        "fr"@ != "deg"@,
        "fr"@ != "%"@,
        "fr"@ != "ms"@,
        "%"@ != "deg"@,
        "%"@ != "ms"@,
        "deg"@ != "ms"@,
        ""@.len() == 0,
{
    reveal_strlit("s");
    reveal_strlit("ms");
    reveal_strlit("deg");
    reveal_strlit("fr");
    reveal_strlit("%");
    reveal_strlit("");
    assert("s"@.len() == 1 && "ms"@.len() == 2 && "deg"@.len() == 3 && "fr"@.len() == 2
        && "%"@.len() == 1);
    assert("s"@[0] == 's' && "%"@[0] == '%' && "fr"@[0] == 'f' && "ms"@[0] == 'm');
}

proof fn lemma_zero_units()
    ensures
        "deg"@.len() == 3,
        "grad"@.len() == 4,
        "turn"@.len() == 4,
        "rad"@.len() == 3,
        "fr"@.len() == 2,
        "%"@.len() == 1,
        "s"@.len() == 1,
        "ms"@.len() == 2,
{
    reveal_strlit("s");
    reveal_strlit("ms");
    reveal_strlit("%");
    reveal_strlit("fr");
    reveal_strlit("deg");
    reveal_strlit("grad");
    reveal_strlit("turn");
    reveal_strlit("rad");
}

proof fn lemma_timings()
    ensures
        keeps_amounts::<Timings>(),
{
    assert forall|v: Timings, n: NodeModel| edit_kept(n, #[trigger] v.edited(n)) by {
        lemma_timing(v, n);
    }
}

proof fn lemma_timing(v: Timings, n: NodeModel)
    ensures
        edit_kept(n, v.edited(n)),
{
    lemma_units();
    match (float_prefix(n.value), dimension(n.value)) {
        (Some(x), Some(d)) => {
            if n.kind == Kind::Word && d.1 == "ms"@ && !x.below(JsNumber { bits: TEN }) {
                let y = x.over_spec(1000);
                let out = y.text_spec() + "s"@;
                if x.finite() {
                    lemma_over(x, 1000);
                    assert(!x.negative()) by {
                        if x.negative() {
                            lemma_negative(x);
                        }
                    }
                    lemma_printed(y);
                    lemma_zero_units();
                    lemma_with_unit(y.text_spec(), y, "s"@);
                    assert(amount(n.value) == Some((y, "s"@))) by {
                        if x.magnitude() == 0 {
                            lemma_ten();
                            assert(steps(0) == 0);
                        }
                    }
                    assert(amount(out) == Some((y, "s"@))) by {
                        if y.magnitude() == 0 {
                            assert(y == JsNumber { bits: 0 });
                        }
                    }
                }
            }
        },
        _ => {},
    }
}

proof fn lemma_ten()
    ensures
        (JsNumber { bits: TEN }).signed_steps() > 0,
        !(JsNumber { bits: TEN }).nan(),
{
    assert(steps(0) == 0);
    lemma_steps_order(0, TEN as int);
}

proof fn lemma_negative(x: JsNumber)
    requires
        x.finite(),
        x.negative(),
    ensures
        x.below(JsNumber { bits: TEN }),
{
    lemma_ten();
}

proof fn lemma_over(x: JsNumber, k: u32)
    requires
        x.finite(),
        k >= 1,
    ensures
        x.over_spec(k).finite(),
        x.over_spec(k).negative() == x.negative(),
{
    lemma_quotient_finite(x.magnitude(), k);
}

proof fn lemma_quotient_finite(b: int, k: u32)
    requires
        0 <= b < INFINITE,
        k >= 1,
    ensures
        0 <= rounded(steps(b), (k * pow2(1074)) as nat) < INFINITE,
{
    let n = steps(b);
    let p = pow2(1074);
    let d = (k * p) as nat;
    lemma_pow2_pos(1074);
    assert(d > 0) by (nonlinear_arith)
        requires
            d == k * p,
            k >= 1,
            p > 0,
    ;
    crate::number_laws::lemma_rounded_nearest(n, d);
    let r = rounded(n, d);
    if r == INFINITE {
        let t = n * pow2(1075);
        let m = crate::number::twice_middle(INFINITE - 1);
        vstd::arithmetic::power2::lemma_pow2_unfold(1075);
        crate::number::lemma_steps_next(INFINITE - 1);
        assert(n <= steps(INFINITE - 1)) by {
            if b < INFINITE - 1 {
                lemma_steps_order(b, INFINITE - 1);
            }
        }
        assert(d * m > t) by (nonlinear_arith)
            requires
                d == k * p,
                k >= 1,
                p > 0,
                t == n * (2 * p),
                m > 2 * n,
        ;
    }
}

proof fn lemma_zeros()
    ensures
        keeps_amounts::<ZeroDimensions>(),
{
    assert forall|v: ZeroDimensions, n: NodeModel| edit_kept(n, #[trigger] v.edited(n)) by {
        lemma_zero(v, n);
    }
}

proof fn lemma_zero_with(u: Seq<char>)
    requires
        ends_number(u),
    ensures
        float_prefix("0"@ + u) == Some(JsNumber { bits: 0 }),
        dimension("0"@ + u) == Some(("0"@, u)),
{
    let x = JsNumber { bits: 0 };
    lemma_printed(x);
    lemma_with_unit("0"@, x, u);
}

proof fn lemma_zero(v: ZeroDimensions, n: NodeModel)
    ensures
        edit_kept(n, v.edited(n)),
{
    lemma_units();
    lemma_zero_units();
    if let Some(d) = dimension(n.value) {
        if n.kind == Kind::Word && d.0 == "0"@ {
            let out = v.edited(n).value;
            lemma_zero_with("deg"@);
            lemma_zero_with("s"@);
            lemma_zero_with("fr"@);
            lemma_zero_with("%"@);
            lemma_zero_with(""@);
            reveal_strlit("0");
            reveal_strlit("0deg");
            reveal_strlit("0s");
            reveal_strlit("0fr");
            reveal_strlit("0%");
            reveal_strlit("deg");
            reveal_strlit("s");
            reveal_strlit("fr");
            reveal_strlit("%");
            assert("0deg"@ =~= "0"@ + "deg"@);
            assert("0s"@ =~= "0"@ + "s"@);
            assert("0fr"@ =~= "0"@ + "fr"@);
            assert("0%"@ =~= "0"@ + "%"@);
            assert("0"@ =~= "0"@ + ""@);
            if ends_number(d.1) {
                lemma_zero_with(d.1);
                lemma_dimension(n.value);
                assert(n.value =~= "0"@ + d.1);
                assert(listed(d.1, ANGLES@) == (d.1 == "deg"@ || d.1 == "grad"@ || d.1 == "turn"@
                    || d.1 == "rad"@)) by {
                    assert(ANGLES@[0]@ == "deg"@ && ANGLES@[1]@ == "grad"@ && ANGLES@[2]@
                        == "turn"@ && ANGLES@[3]@ == "rad"@);
                    if listed(d.1, ANGLES@) {
                        let i = choose|i: int| 0 <= i < ANGLES@.len() && #[trigger] ANGLES@[i]@ == d.1;
                        assert(i == 0 || i == 1 || i == 2 || i == 3);
                    }
                }
                assert(amount(out) == amount(n.value));
            }
        }
    }
}

proof fn lemma_leading()
    ensures
        keeps_amounts::<LeadingZero>(),
{
    assert forall|v: LeadingZero, n: NodeModel| edit_kept(n, #[trigger] v.edited(n)) by {
        lemma_leading_zero(v, n);
    }
}

proof fn lemma_leading_zero(v: LeadingZero, n: NodeModel)
    ensures
        edit_kept(n, v.edited(n)),
{
    if let Some(x) = float_prefix(n.value) {
        if n.kind == Kind::Word && !x.nan() && !x.below(JsNumber { bits: ZERO }) && x.below(
            JsNumber { bits: ONE },
        ) {
            if let Some((_, unit)) = dimension(n.value) {
                if x.finite() && ends_number(unit) {
                    lemma_one();
                    assert(steps(0) == 0);
                    let y = if x.magnitude() == 0 {
                        JsNumber { bits: 0 }
                    } else {
                        x
                    };
                    if x.magnitude() > 0 {
                        lemma_steps_order(0, x.magnitude());
                    }
                    assert(y.text_spec() == x.text_spec());
                    assert(!y.negative());
                    lemma_without_zero(y);
                    lemma_with_unit(without_leading_zero(y.text_spec()), y, unit);
                    assert(amount(v.edited(n).value) == amount(n.value));
                }
            }
        }
    }
}

/// Normal values stand for the same: every word of a value without its extra white space
/// keeps what it stands for, times, zeros and fractions included, wherever property names
/// are not spelled and pixels are not turned into root sizes.
pub proof fn normal_values_stand_for_the_same(value: Seq<char>, key: Seq<char>)
    requires
        normalized(value, key, false) is Ok,
        !holds_names(key),
    ensures
        whitespace_normalized(parse_nodes(value)) is Some,
        exists|nodes: Seq<NodeModel>| #[trigger]
            nodes_kept(whitespace_normalized(parse_nodes(value))->0, nodes) && normalized(
                value,
                key,
                false,
            )->Ok_0 == nodes_text(nodes),
{
    let start = whitespace_normalized(parse_nodes(value))->0;
    lemma_timings();
    lemma_zeros();
    lemma_leading();
    lemma_quotes();
    let a = swept(Timings, start).1;
    lemma_swept(Timings, start);
    let b = if has_prefix(key, "--"@) {
        a
    } else {
        swept(ZeroDimensions { end_function: 0 }, a).1
    };
    if !has_prefix(key, "--"@) {
        lemma_swept(ZeroDimensions { end_function: 0 }, a);
        lemma_nodes_trans(start, a, b);
    }
    let c = swept(LeadingZero, b).1;
    lemma_swept(LeadingZero, b);
    lemma_nodes_trans(start, b, c);
    let d = swept(Quotes, c).1;
    lemma_swept(Quotes, c);
    lemma_nodes_trans(start, c, d);
    assert(normalized_nodes(start, key, false) == d);
}

proof fn lemma_quotes()
    ensures
        keeps_amounts::<Quotes>(),
{
    assert forall|v: Quotes, n: NodeModel| edit_kept(n, #[trigger] v.edited(n)) by {}
}

} // verus!
