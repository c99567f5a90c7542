//! Numbers that are printed read back as they were.

use crate::bignat::pow10;
use crate::number::{
    all_digits, chosen, cut, decimal, decimal_magnitude, decimal_number, decimal_reads_back,
    digits_value, exponent_at, float_prefix, lemma_middle_order, lemma_places_down, lemma_places_up,
    lemma_pow10_adds, lemma_pow10_pos, lemma_shortest_bound, lemma_steps_infinite,
    lemma_steps_order, lemma_zero_decimal, magnitude_text, nearest, nearest_is_rounded, placed,
    places, reads_as, rounded, rounded_keeps, shortest, steps, twice_middle, unit_steps,
    without_end_zeros, zeros, JsNumber, INFINITE,
};
use crate::text::{at_pos, char_at, digit, digit_at, digits_end, sign_at};
use vstd::arithmetic::power2::{lemma2_to64, lemma_pow2_pos, lemma_pow2_unfold, pow2};
use vstd::prelude::*;

verus! {

proof fn lemma_nearest_between(num: nat, den: nat, low: int, high: int) -> (b: int)
    requires
        den > 0,
        0 <= low <= high <= INFINITE,
        low > 0 ==> den * twice_middle(low - 1) < num * pow2(1075),
        high < INFINITE ==> num * pow2(1075) <= den * twice_middle(high),
    ensures
        nearest(num, den, b),
    decreases high - low,
{
    let t = num * pow2(1075);
    if low < high {
        let mid = low + (high - low) / 2;
        if den * twice_middle(mid) < t {
            lemma_nearest_between(num, den, mid + 1, high)
        } else {
            lemma_nearest_between(num, den, low, mid)
        }
    } else if low < INFINITE && low % 2 == 1 && t == den * twice_middle(low) {
        lemma_middle_order(low, low + 1, den);
        low + 1
    } else {
        low
    }
}

pub(crate) proof fn lemma_rounded_nearest(num: nat, den: nat)
    requires
        den > 0,
    ensures
        nearest(num, den, rounded(num, den)),
{
    let b = lemma_nearest_between(num, den, 0, INFINITE as int);
    nearest_is_rounded(num, den, b);
}

proof fn lemma_cross_less(d: nat, e: nat, n: nat, m: nat, x: nat, p: nat)
    requires
        d > 0,
        e > 0,
        n * e == m * d,
    ensures
        (d * x < n * p) == (e * x < m * p),
        (d * x > n * p) == (e * x > m * p),
        (d * x == n * p) == (e * x == m * p),
{
    assert((d * x) * e == (e * x) * d) by (nonlinear_arith);
    assert((n * p) * e == (m * p) * d) by (nonlinear_arith)
        requires
            n * e == m * d,
    ;
    assert((d * x < n * p) ==> (e * x) * d < (m * p) * d) by (nonlinear_arith)
        requires
            e > 0,
            (d * x) * e == (e * x) * d,
            (n * p) * e == (m * p) * d,
    ;
    assert((d * x >= n * p) ==> (e * x) * d >= (m * p) * d) by (nonlinear_arith)
        requires
            e > 0,
            (d * x) * e == (e * x) * d,
            (n * p) * e == (m * p) * d,
    ;
    assert((d * x <= n * p) ==> (e * x) * d <= (m * p) * d) by (nonlinear_arith)
        requires
            e > 0,
            (d * x) * e == (e * x) * d,
            (n * p) * e == (m * p) * d,
    ;
    assert((d * x > n * p) ==> (e * x) * d > (m * p) * d) by (nonlinear_arith)
        requires
            e > 0,
            (d * x) * e == (e * x) * d,
            (n * p) * e == (m * p) * d,
    ;
    assert(((e * x) * d > (m * p) * d) ==> e * x > m * p) by (nonlinear_arith)
        requires
            d > 0,
    ;
    assert(((e * x) * d < (m * p) * d) ==> e * x < m * p) by (nonlinear_arith)
        requires
            d > 0,
    ;
    assert(((e * x) * d >= (m * p) * d) ==> e * x >= m * p) by (nonlinear_arith)
        requires
            d > 0,
    ;
    assert(((e * x) * d <= (m * p) * d) ==> e * x <= m * p) by (nonlinear_arith)
        requires
            d > 0,
    ;
}

/// Equal ratios have the same nearest magnitude.
pub(crate) proof fn lemma_same_ratio(n: nat, d: nat, m: nat, e: nat)
    requires
        d > 0,
        e > 0,
        n * e == m * d,
    ensures
        rounded(n, d) == rounded(m, e),
{
    let b = rounded(n, d);
    let p = pow2(1075);
    lemma_rounded_nearest(n, d);
    if b > 0 {
        lemma_cross_less(d, e, n, m, twice_middle(b - 1), p);
    }
    if b < INFINITE {
        let x = twice_middle(b);
        lemma_cross_less(d, e, n, m, x, p);
    }
    assert(nearest(m, e, b));
    nearest_is_rounded(m, e, b);
}

spec fn pow5(n: nat) -> nat
    decreases n,
{
    if n == 0 {
        1
    } else {
        5 * pow5((n - 1) as nat)
    }
}

proof fn lemma_ten_is_two_fives(n: nat)
    ensures
        pow10(n) == pow2(n) * pow5(n),
    decreases n,
{
    if n > 0 {
        let m = (n - 1) as nat;
        lemma_ten_is_two_fives(m);
        lemma_pow2_unfold(n);
        assert(10 * (pow2(m) * pow5(m)) == (2 * pow2(m)) * (5 * pow5(m))) by (nonlinear_arith);
    } else {
        lemma2_to64();
    }
}

/// Cut off at the last place, the digits are exact.
proof fn lemma_last_place(b: int, up: nat, down: nat, k: nat)
    requires
        0 < b < INFINITE,
        down + k == up + 1074,
    ensures
        reads_as(cut(steps(b), up, down, k), up, down, k, b),
{
    let x = steps(b);
    let two = pow2(1074);
    let five = pow5(1074);
    let t = pow10(up);
    lemma_ten_is_two_fives(1074);
    lemma_pow10_adds(up, 1074);
    lemma_pow10_pos(up);
    lemma_pow10_pos(down + k);
    lemma_pow2_pos(1074);
    let whole = unit_steps() * t;
    let all = x * pow10(down + k);
    let s = x * five;
    assert(all == s * whole + 0) by (nonlinear_arith)
        requires
            all == x * (t * (two * five)),
            s == x * five,
            whole == two * t,
    ;
    assert(whole > 0) by (nonlinear_arith)
        requires
            whole == two * t,
            two > 0,
            t > 0,
    ;
    vstd::arithmetic::div_mod::lemma_fundamental_div_mod_converse(
        all as int,
        whole as int,
        s as int,
        0,
    );
    assert(cut(x, up, down, k) == s);
    assert((s * t) * two == x * pow10(down + k)) by (nonlinear_arith)
        requires
            s == x * five,
            pow10(down + k) == t * (two * five),
    ;
    lemma_same_ratio(s * t, pow10(down + k), x, two);
    rounded_keeps(b);
}

proof fn lemma_shortest_stops(b: int, up: nat, down: nat, k: nat)
    requires
        down + k <= up + 1074,
    ensures
        ({
            let n = shortest(b, up, down, k);
            let s = cut(steps(b), up, down, n);
            down + n >= up + 1074 || reads_as(s, up, down, n, b) || reads_as(s + 1, up, down, n, b)
        }),
    decreases up + 1075 - down - k,
{
    let s = cut(steps(b), up, down, k);
    if !(down + k >= up + 1074 || reads_as(s, up, down, k, b) || reads_as(s + 1, up, down, k, b)) {
        lemma_shortest_stops(b, up, down, k + 1);
    }
}

/// The digits that are printed read as the magnitude.
proof fn lemma_chosen_reads(b: int, up: nat, down: nat)
    requires
        0 < b < INFINITE,
        down + 1 <= up + 1074,
    ensures
        reads_as(
            chosen(b, up, down, shortest(b, up, down, 1)),
            up,
            down,
            shortest(b, up, down, 1),
            b,
        ),
{
    let k = shortest(b, up, down, 1);
    lemma_shortest_bound(b, up, down, 1);
    lemma_shortest_stops(b, up, down, 1);
    if down + k >= up + 1074 {
        lemma_last_place(b, up, down, k);
    }
}

pub(crate) proof fn lemma_digits_concat(a: Seq<char>, c: Seq<char>)
    ensures
        digits_value(a + c) == digits_value(a) * pow10(c.len()) + digits_value(c),
    decreases c.len(),
{
    if c.len() == 0 {
        assert(a + c =~= a);
        assert(digits_value(a) * 1 == digits_value(a)) by (nonlinear_arith);
    } else {
        let d = c.drop_last();
        lemma_digits_concat(a, d);
        assert((a + c).drop_last() =~= a + d);
        let v = digits_value(a);
        let p = pow10(d.len());
        assert((v * p) * 10 == v * (10 * p)) by (nonlinear_arith);
    }
}

pub(crate) proof fn lemma_zeros_value(n: int)
    ensures
        digits_value(zeros(n)) == 0,
        all_digits(zeros(n)),
    decreases n,
{
    if n > 0 {
        lemma_zeros_value(n - 1);
        assert(zeros(n).drop_last() =~= zeros(n - 1));
    }
}

proof fn lemma_end_zeros(s: Seq<char>)
    requires
        s.len() > 0,
        all_digits(s),
    ensures
        ({
            let d = without_end_zeros(s);
            d.len() >= 1 && d.len() <= s.len() && all_digits(d) && s == d + zeros(
                s.len() - d.len(),
            )
        }),
    decreases s.len(),
{
    if s.len() > 1 && s.last() == '0' {
        let r = s.drop_last();
        assert(all_digits(r)) by {
            assert forall|i: int| 0 <= i < r.len() implies digit(#[trigger] r[i]) by {
                assert(digit(s[i]));
            }
        }
        lemma_end_zeros(r);
        let d = without_end_zeros(s);
        let z = r.len() - d.len();
        assert(r == d + zeros(z));
        assert(zeros(z + 1) =~= zeros(z).push('0'));
        assert(s =~= r.push('0'));
        assert(s =~= d + zeros(z + 1));
    } else {
        assert(s + zeros(0) =~= s);
    }
}

/// The magnitude of the digits that are printed, with the zeros at their end cut off.
pub(crate) proof fn lemma_printed_magnitude(b: int)
    requires
        0 < b < INFINITE,
    ensures
        ({
            let (up, down) = places(steps(b));
            let k = shortest(b, up, down, 1);
            let all = decimal(chosen(b, up, down, k));
            let d = without_end_zeros(all);
            let n = all.len() + up - down - k;
            decimal_magnitude(digits_value(d), n - d.len()) == b && d.len() >= 1 && all_digits(d)
        }),
{
    let (up, down) = places(steps(b));
    let k = shortest(b, up, down, 1);
    let c = chosen(b, up, down, k);
    let all = decimal(c);
    let d = without_end_zeros(all);
    let n = all.len() + up - down - k;
    lemma_places_bound(b);
    lemma_chosen_reads(b, up, down);
    decimal_reads_back(c);
    lemma_end_zeros(all);
    let z = (all.len() - d.len()) as nat;
    let m = digits_value(d);
    lemma_digits_concat(d, zeros(z as int));
    lemma_zeros_value(z as int);
    assert(c == m * pow10(z));
    let q = n - d.len();
    assert(q == z + up - down - k);
    let below = pow10(down + k);
    lemma_pow10_pos(down + k);
    lemma_pow10_adds(z, up);
    assert(c * pow10(up) == m * pow10(z + up)) by (nonlinear_arith)
        requires
            c == m * pow10(z),
            pow10(z + up) == pow10(z) * pow10(up),
    ;
    if q >= 0 {
        lemma_pow10_adds(q as nat, down + k);
        assert(q as nat + (down + k) == z + up);
        assert((c * pow10(up)) * 1 == (m * pow10(q as nat)) * below) by (nonlinear_arith)
            requires
                c * pow10(up) == m * pow10(z + up),
                pow10(z + up) == pow10(q as nat) * below,
        ;
        lemma_same_ratio(c * pow10(up), below, m * pow10(q as nat), 1);
    } else {
        let r = (-q) as nat;
        lemma_pow10_pos(r);
        lemma_pow10_adds(z + up, r);
        assert((z + up) + r == down + k);
        assert((c * pow10(up)) * pow10(r) == m * below) by (nonlinear_arith)
            requires
                c * pow10(up) == m * pow10(z + up),
                below == pow10(z + up) * pow10(r),
        ;
        lemma_same_ratio(c * pow10(up), below, m, pow10(r));
    }
}

pub(crate) proof fn lemma_places_bound(b: int)
    requires
        0 < b < INFINITE,
    ensures
        ({
            let (up, down) = places(steps(b));
            down + 1 <= up + 1074
        }),
{
    lemma_steps_order(0, b);
    lemma_steps_infinite();
    lemma_steps_order(b, INFINITE as int);
    let x = steps(b);
    let (up, down) = places(x);
    lemma_pow2_pos(1074);
    lemma_places_up(x, 0);
    if up == 0 {
        assert(pow10(0) == 1);
        assert(unit_steps() * 1 == unit_steps()) by (nonlinear_arith);
        assert(x * 1 == x) by (nonlinear_arith);
        lemma_places_down(x, 0);
    }
}

pub(crate) proof fn lemma_run(s: Seq<char>, i: int, j: int)
    requires
        0 <= i <= j,
        forall|x: int| i <= x < j ==> digit_at(s, x),
        !digit_at(s, j),
    ensures
        digits_end(s, i) == j,
    decreases j - i,
{
    if i < j {
        assert(digit_at(s, i));
        lemma_run(s, i + 1, j);
    }
}

/// A sign, if there is one.
pub open spec fn sign_text(negative: bool) -> Seq<char> {
    if negative {
        seq!['-']
    } else {
        Seq::empty()
    }
}

/// The text of a number in its parts.
pub open spec fn number_parts(
    negative: bool,
    whole: Seq<char>,
    fraction: Seq<char>,
    exponent: Option<(bool, Seq<char>)>,
) -> Seq<char> {
    sign_text(negative) + whole + (if fraction.len() > 0 {
        seq!['.'] + fraction
    } else {
        Seq::empty()
    }) + match exponent {
        Some((below, digits)) => seq![
            'e',
            if below {
                '-'
            } else {
                '+'
            },
        ] + digits,
        None => Seq::empty(),
    }
}

/// A text that is made of the parts of a number reads as that number.
pub proof fn parts_are_read(
    negative: bool,
    whole: Seq<char>,
    fraction: Seq<char>,
    exponent: Option<(bool, Seq<char>)>,
)
    requires
        whole.len() > 0,
        all_digits(whole),
        all_digits(fraction),
        match exponent {
            Some((_, digits)) => digits.len() > 0 && all_digits(digits),
            None => true,
        },
    ensures
        float_prefix(number_parts(negative, whole, fraction, exponent)) == Some(
            match exponent {
                Some((below, digits)) => decimal_number(negative, whole, fraction, below, digits),
                None => decimal_number(negative, whole, fraction, false, Seq::empty()),
            },
        ),
{
    let s = number_parts(negative, whole, fraction, exponent);
    let start = if negative {
        1int
    } else {
        0
    };
    let whole_end = start + whole.len();
    let pointed = fraction.len() > 0;
    let end = if pointed {
        whole_end + 1 + fraction.len()
    } else {
        whole_end
    };
    assert forall|x: int| start <= x < whole_end implies s[x] == whole[x - start] && digit_at(
        s,
        x,
    ) by {
        assert(digit(whole[x - start]));
    }
    assert(s[start] == whole[0]);
    assert(digit(whole[0]));
    if pointed {
        assert(s[whole_end] == '.');
        assert forall|x: int| whole_end + 1 <= x < end implies s[x] == fraction[x - whole_end - 1]
            && digit_at(s, x) by {
            assert(digit(fraction[x - whole_end - 1]));
        }
    }
    match exponent {
        Some((below, digits)) => {
            assert(s.len() == end + 2 + digits.len());
            assert(s[end] == 'e');
            assert(s[end + 1] == if below {
                '-'
            } else {
                '+'
            });
            assert forall|x: int| end + 2 <= x < s.len() implies s[x] == digits[x - end - 2]
                && digit_at(s, x) by {
                assert(digit(digits[x - end - 2]));
            }
            lemma_run(s, end + 2, s.len() as int);
            assert(s.subrange(end + 2, s.len() as int) =~= digits);
            assert(exponent_at(s, end) == (below, digits));
        },
        None => {
            assert(s.len() == end);
            assert(exponent_at(s, end) == (false, Seq::<char>::empty()));
        },
    }
    lemma_run(s, start, whole_end);
    if pointed {
        lemma_run(s, whole_end + 1, end);
        assert(s.subrange(whole_end + 1, end) =~= fraction);
    }
    assert(s.subrange(start, whole_end) =~= whole);
    assert(!at_pos(s, "Infinity"@, start)) by {
        reveal_strlit("Infinity");
        if at_pos(s, "Infinity"@, start) {
            assert(s.subrange(start, start + 8)[0] == 'I');
        }
    }
    assert(char_at(s, 0, '-') == negative);
    assert(sign_at(s, 0) == negative);
}

pub(crate) proof fn lemma_split_digits(d: Seq<char>, n: int)
    requires
        0 <= n <= d.len(),
        all_digits(d),
    ensures
        all_digits(d.take(n)),
        all_digits(d.skip(n)),
        d.take(n) + d.skip(n) == d,
{
    assert forall|i: int| 0 <= i < n implies digit(#[trigger] d.take(n)[i]) by {
        assert(digit(d[i]));
    }
    assert forall|i: int| 0 <= i < d.len() - n implies digit(#[trigger] d.skip(n)[i]) by {
        assert(digit(d[n + i]));
    }
    assert(d.take(n) + d.skip(n) =~= d);
}

pub(crate) proof fn lemma_joined_digits(a: Seq<char>, c: Seq<char>)
    requires
        all_digits(a),
        all_digits(c),
    ensures
        all_digits(a + c),
{
    assert forall|i: int| 0 <= i < (a + c).len() implies digit(#[trigger] (a + c)[i]) by {
        if i < a.len() {
            assert(digit(a[i]));
        } else {
            assert(digit(c[i - a.len()]));
        }
    }
}

/// Whether digits with the point behind the `n`th place read as the number that they
/// stand for.
pub open spec fn placed_reads(negative: bool, d: Seq<char>, n: int) -> bool {
    float_prefix(sign_text(negative) + placed(d, n)) == Some(
        JsNumber::of(negative, decimal_magnitude(digits_value(d), n - d.len())),
    )
}

proof fn lemma_placed_whole(negative: bool, d: Seq<char>, n: int)
    requires
        d.len() >= 1,
        all_digits(d),
        d.len() <= n <= 21,
    ensures
        placed_reads(negative, d, n),
{
    let k = d.len();
    let none = Seq::<char>::empty();
    let m = digits_value(d);
    let s = sign_text(negative) + placed(d, n);
    assert(digits_value(none) == 0);
    let z = n - k;
    let whole = d + zeros(z);
    lemma_zeros_value(z);
    lemma_joined_digits(d, zeros(z));
    lemma_digits_concat(d, zeros(z));
    assert(s =~= number_parts(negative, whole, none, None));
    parts_are_read(negative, whole, none, None);
    assert(whole + none =~= whole);
    assert(pow10(0) == 1);
    assert((m * pow10(z as nat)) * 1 == m * pow10(z as nat)) by (nonlinear_arith);
}

proof fn lemma_placed_inside(negative: bool, d: Seq<char>, n: int)
    requires
        d.len() >= 1,
        all_digits(d),
        0 < n < d.len(),
        n <= 21,
    ensures
        placed_reads(negative, d, n),
{
    let k = d.len();
    let none = Seq::<char>::empty();
    let m = digits_value(d);
    let s = sign_text(negative) + placed(d, n);
    assert(digits_value(none) == 0);
    reveal_strlit(".");
    lemma_split_digits(d, n);
    assert(s =~= number_parts(negative, d.take(n), d.skip(n), None));
    parts_are_read(negative, d.take(n), d.skip(n), None);
}

proof fn lemma_placed_before(negative: bool, d: Seq<char>, n: int)
    requires
        d.len() >= 1,
        all_digits(d),
        -6 < n <= 0,
    ensures
        placed_reads(negative, d, n),
{
    let k = d.len();
    let none = Seq::<char>::empty();
    let m = digits_value(d);
    let s = sign_text(negative) + placed(d, n);
    assert(digits_value(none) == 0);
    reveal_strlit("0.");
    let zero = seq!['0'];
    let fraction = zeros(-n) + d;
    lemma_zeros_value(-n);
    lemma_joined_digits(zeros(-n), d);
    lemma_digits_concat(zeros(-n), d);
    lemma_digits_concat(zero, fraction);
    assert(digits_value(zero) == 0) by {
        reveal_with_fuel(digits_value, 2);
    }
    assert(0 * pow10(fraction.len()) == 0) by (nonlinear_arith);
    assert(0 * pow10(d.len()) == 0) by (nonlinear_arith);
    assert(s =~= number_parts(negative, zero, fraction, None));
    parts_are_read(negative, zero, fraction, None);
}

/// The exponent that is printed where the point is far from the digits.
pub(crate) open spec fn printed_exponent(n: int) -> (bool, Seq<char>) {
    if n - 1 < 0 {
        (true, decimal((1 - n) as nat))
    } else {
        (false, decimal((n - 1) as nat))
    }
}

proof fn lemma_mantissa(d: Seq<char>, tail: Seq<char>)
    requires
        d.len() >= 1,
    ensures
        (if d.len() == 1 {
            d
        } else {
            d.take(1) + "."@ + d.skip(1)
        }) + tail == d.take(1) + (if d.skip(1).len() > 0 {
            seq!['.'] + d.skip(1)
        } else {
            Seq::empty()
        }) + tail,
{
    reveal_strlit(".");
    if d.len() == 1 {
        assert(d.take(1) =~= d);
        assert(d.take(1) + Seq::<char>::empty() + tail =~= d + tail);
    } else {
        assert("."@ =~= seq!['.']);
        assert(d.take(1) + "."@ + d.skip(1) + tail =~= d.take(1) + (seq!['.'] + d.skip(1)) + tail);
    }
}

pub(crate) proof fn lemma_exponent_text(negative: bool, d: Seq<char>, n: int)
    requires
        d.len() >= 1,
        n <= -6 || n > 21,
    ensures
        sign_text(negative) + placed(d, n) == number_parts(
            negative,
            d.take(1),
            d.skip(1),
            Some(printed_exponent(n)),
        ),
{
    reveal_strlit("e-");
    reveal_strlit("e+");
    let (below, digits) = printed_exponent(n);
    let mark = seq![
        'e',
        if below {
            '-'
        } else {
            '+'
        },
    ];
    let mantissa = if d.len() == 1 {
        d
    } else {
        d.take(1) + "."@ + d.skip(1)
    };
    let sign = sign_text(negative);
    assert(placed(d, n) =~= mantissa + (mark + digits)) by {
        if below {
            assert("e-"@ =~= mark);
        } else {
            assert("e+"@ =~= mark);
        }
    }
    lemma_mantissa(d, mark + digits);
    let point = if d.skip(1).len() > 0 {
        seq!['.'] + d.skip(1)
    } else {
        Seq::empty()
    };
    assert(sign + (d.take(1) + point + (mark + digits)) =~= sign + d.take(1) + point + (mark
        + digits));
}

proof fn lemma_placed_exponent(negative: bool, d: Seq<char>, n: int)
    requires
        d.len() >= 1,
        all_digits(d),
        n <= -6 || n > 21,
    ensures
        placed_reads(negative, d, n),
{
    let (below, digits) = printed_exponent(n);
    lemma_split_digits(d, 1);
    lemma_exponent_text(negative, d, n);
    decimal_reads_back(
        if below {
            (1 - n) as nat
        } else {
            (n - 1) as nat
        },
    );
    parts_are_read(negative, d.take(1), d.skip(1), Some((below, digits)));
}

proof fn lemma_placed(negative: bool, d: Seq<char>, n: int)
    requires
        d.len() >= 1,
        all_digits(d),
    ensures
        placed_reads(negative, d, n),
{
    if d.len() <= n <= 21 {
        lemma_placed_whole(negative, d, n);
    } else if 0 < n <= 21 {
        lemma_placed_inside(negative, d, n);
    } else if -6 < n <= 0 {
        lemma_placed_before(negative, d, n);
    } else {
        lemma_placed_exponent(negative, d, n);
    }
}

/// A number that is printed reads back as it was. Zero is printed without its sign.
pub proof fn printed_numbers_read_back(x: JsNumber)
    requires
        !x.nan(),
        x.magnitude() == 0 ==> !x.negative(),
    ensures
        float_prefix(x.text_spec()) == Some(x),
{
    let b = x.magnitude();
    let none = Seq::<char>::empty();
    reveal_strlit("-");
    assert(x == JsNumber::of(x.negative(), b));
    if b == 0 {
        reveal_strlit("0");
        assert(number_parts(false, "0"@, none, None) =~= "0"@);
        parts_are_read(false, "0"@, none, None);
        reveal_with_fuel(digits_value, 2);
        assert("0"@ + none =~= "0"@);
        assert(digits_value("0"@) == 0);
        assert(digits_value(none) == 0);
        lemma_zero_decimal(0);
    } else if !x.finite() {
        reveal_strlit("Infinity");
        let s = x.text_spec();
        if x.negative() {
            assert(s.subrange(1, 9) =~= "Infinity"@);
            assert(s[0] == '-');
        } else {
            assert(s.subrange(0, 8) =~= "Infinity"@);
            assert(s[0] == 'I');
        }
    } else {
        let (up, down) = places(steps(b));
        let k = shortest(b, up, down, 1);
        let all = decimal(chosen(b, up, down, k));
        let d = without_end_zeros(all);
        let n = all.len() + up - down - k;
        lemma_printed_magnitude(b);
        lemma_placed(x.negative(), d, n);
        assert("-"@ =~= seq!['-']);
        assert(none + magnitude_text(b) =~= magnitude_text(b));
    }
}

} // verus!
