//! Numbers of ECMAScript: doubles by their bits, with exact rules for rounding,
//! arithmetic, reading and printing.

use crate::bignat::{from_u64, pow10, BigNat};
use vstd::arithmetic::power2::{
    lemma2_to64, lemma2_to64_rest, lemma_pow2_adds, lemma_pow2_pos, lemma_pow2_strictly_increases,
    lemma_pow2_unfold, pow2,
};
use crate::text::{
    at_pos, char_at, char_count, chars_of, digit, digit_at, digits_end, has_char, has_digit,
    has_sign, sign_at, skip_digits, stands_at, string_of,
};
use vstd::prelude::*;

verus! {

/// The magnitude bits of infinity.
pub const INFINITE: u64 = 0x7ff0_0000_0000_0000;

/// The bit that holds the sign.
pub const SIGN: u64 = 0x8000_0000_0000_0000;

/// One past the largest fraction.
pub const FRACTION: u64 = 0x10_0000_0000_0000;

/// A number by the bits of its IEEE 754 double.
#[derive(Debug, Clone, Copy, PartialEq, Eq, Structural)]
pub struct JsNumber {
    pub bits: u64,
}

/// The magnitude with bits `b` as a multiple of the least positive double, two to
/// the power of -1074. Infinity counts as two to the 1024th.
pub open spec fn steps(b: int) -> nat {
    let exponent = b / FRACTION as int;
    let fraction = b % FRACTION as int;
    if exponent == 0 {
        fraction as nat
    } else {
        ((FRACTION + fraction) * pow2((exponent - 1) as nat)) as nat
    }
}

/// Twice the middle between the magnitudes `b` and `b + 1`, in steps.
pub open spec fn twice_middle(b: int) -> nat {
    steps(b) + steps(b + 1)
}

/// Whether `b` holds the bits of the magnitude nearest to `num / den`; of two that
/// are equally near, the even one.
pub open spec fn nearest(num: nat, den: nat, b: int) -> bool {
    let t = num * pow2(1075);
    &&& 0 <= b <= INFINITE
    &&& b > 0 ==> {
        ||| den * twice_middle(b - 1) < t
        ||| den * twice_middle(b - 1) == t && b % 2 == 0
    }
    &&& b < INFINITE ==> {
        ||| t < den * twice_middle(b)
        ||| t == den * twice_middle(b) && b % 2 == 0
    }
}

/// The bits of the magnitude nearest to `num / den`.
pub open spec fn rounded(num: nat, den: nat) -> int {
    choose|b: int| nearest(num, den, b)
}

pub(crate) proof fn lemma_steps_next(b: int)
    requires
        0 <= b,
    ensures
        steps(b) < steps(b + 1),
{
    let w = FRACTION as int;
    let e = b / w;
    let f = b % w;
    assert(b == e * w + f) by {
        vstd::arithmetic::div_mod::lemma_fundamental_div_mod(b, w);
        assert(w * e == e * w) by (nonlinear_arith);
    }
    if f + 1 < w {
        lemma_split(b + 1, e, f + 1);
        if e > 0 {
            let p = pow2((e - 1) as nat) as int;
            lemma_pow2_pos((e - 1) as nat);
            assert(steps(b) == (w + f) * p) by {
                lemma_split(b, e, f);
            }
            assert(steps(b + 1) == (w + (f + 1)) * p);
            assert((w + (f + 1)) * p == (w + f) * p + p) by (nonlinear_arith);
        } else {
            assert(steps(b) == f);
            assert(steps(b + 1) == f + 1);
        }
    } else {
        assert((e + 1) * w == e * w + w) by (nonlinear_arith);
        lemma_split(b + 1, e + 1, 0);
        let q = pow2(e as nat) as int;
        lemma_pow2_pos(e as nat);
        assert(steps(b + 1) == (w + 0) * q);
        if e > 0 {
            let p = pow2((e - 1) as nat) as int;
            lemma_pow2_pos((e - 1) as nat);
            lemma_pow2_unfold(e as nat);
            assert(steps(b) == (w + f) * p) by {
                lemma_split(b, e, f);
            }
            assert((w + 0) * q == (w + f) * p + p) by (nonlinear_arith)
                requires
                    q == 2 * p,
                    f + 1 == w,
            ;
        } else {
            lemma2_to64();
            assert(q == 1);
            assert(steps(b) == f);
        }
    }
}

/// The exponent and the fraction of magnitude bits, and what they count for.
pub(crate) proof fn lemma_split(b: int, e: int, f: int)
    requires
        0 <= e,
        0 <= f < FRACTION,
        b == e * FRACTION + f,
    ensures
        b / FRACTION as int == e,
        b % FRACTION as int == f,
        e > 0 ==> steps(b) == (FRACTION + f) * pow2((e - 1) as nat),
        e == 0 ==> steps(b) == f,
{
    vstd::arithmetic::div_mod::lemma_fundamental_div_mod_converse(b, FRACTION as int, e, f);
    if e > 0 {
        lemma_pow2_pos((e - 1) as nat);
        let p = pow2((e - 1) as nat) as int;
        assert((FRACTION + f) * p >= 0) by (nonlinear_arith)
            requires
                f >= 0,
                p > 0,
        ;
    }
}

pub(crate) proof fn lemma_steps_order(a: int, b: int)
    requires
        0 <= a < b,
    ensures
        steps(a) < steps(b),
    decreases b - a,
{
    lemma_steps_next(b - 1);
    if a < b - 1 {
        lemma_steps_order(a, b - 1);
    }
}

pub(crate) proof fn lemma_middle_order(a: int, b: int, den: nat)
    requires
        0 <= a < b,
        den > 0,
    ensures
        den * twice_middle(a) < den * twice_middle(b),
{
    lemma_steps_order(a, b);
    lemma_steps_order(a + 1, b + 1);
    assert(den * twice_middle(a) < den * twice_middle(b)) by (nonlinear_arith)
        requires
            den > 0,
            twice_middle(a) < twice_middle(b),
    ;
}

proof fn lemma_nearest_unique(num: nat, den: nat, a: int, b: int)
    requires
        den > 0,
        nearest(num, den, a),
        nearest(num, den, b),
    ensures
        a == b,
{
    if a < b {
        if a < b - 1 {
            lemma_middle_order(a, b - 1, den);
        }
    } else if b < a {
        if b < a - 1 {
            lemma_middle_order(b, a - 1, den);
        }
    }
}

/// There is one magnitude nearest to a ratio: `rounded` is that one.
pub proof fn nearest_is_rounded(num: nat, den: nat, b: int)
    requires
        den > 0,
        nearest(num, den, b),
    ensures
        rounded(num, den) == b,
{
    lemma_nearest_unique(num, den, rounded(num, den), b);
}

/// A magnitude is nearest to itself.
pub proof fn rounded_keeps(b: int)
    requires
        0 <= b < INFINITE,
    ensures
        rounded(steps(b), pow2(1074)) == b,
{
    let num = steps(b);
    let den = pow2(1074);
    lemma_pow2_pos(1074);
    lemma_pow2_unfold(1075);
    lemma_steps_next(b);
    assert(num * pow2(1075) == den * (2 * num)) by (nonlinear_arith)
        requires
            pow2(1075) == 2 * den,
    ;
    assert(den * (2 * num) < den * twice_middle(b)) by (nonlinear_arith)
        requires
            2 * num < twice_middle(b),
            den > 0,
    ;
    if b > 0 {
        lemma_steps_next(b - 1);
        assert(den * twice_middle(b - 1) < den * (2 * num)) by (nonlinear_arith)
            requires
                twice_middle(b - 1) < 2 * num,
                den > 0,
        ;
    }
    nearest_is_rounded(num, den, b);
}

fn steps_of(b: u64) -> (r: BigNat)
    requires
        b <= INFINITE,
    ensures
        r.value() == steps(b as int),
{
    let exponent: u64 = b / FRACTION;
    let fraction: u64 = b % FRACTION;
    if exponent == 0 {
        from_u64(fraction)
    } else {
        from_u64(FRACTION + fraction).times_pow2((exponent - 1) as u32)
    }
}

/// The bits of the magnitude nearest to `num / den`.
pub fn round_ratio(num: &BigNat, den: &BigNat) -> (r: u64)
    requires
        den.value() > 0,
    ensures
        r == rounded(num.value(), den.value()),
        nearest(num.value(), den.value(), r as int),
        r <= INFINITE,
{
    let t = num.times_pow2(1075);
    let mut low: u64 = 0;
    let mut high: u64 = INFINITE;
    while low < high
        invariant
            low <= high <= INFINITE,
            t.value() == num.value() * pow2(1075),
            low > 0 ==> den.value() * twice_middle(low - 1) < t.value(),
            high < INFINITE ==> t.value() <= den.value() * twice_middle(high as int),
        decreases high - low,
    {
        let mid: u64 = low + (high - low) / 2;
        let f = den.times(&steps_of(mid).plus(&steps_of(mid + 1)));
        if f.less(&t) {
            low = mid + 1;
        } else {
            high = mid;
        }
    }
    let mut r: u64 = low;
    if low < INFINITE && low % 2 == 1 {
        let f = den.times(&steps_of(low).plus(&steps_of(low + 1)));
        if !t.less(&f) {
            proof {
                lemma_middle_order(low as int, low + 1, den.value());
            }
            r = low + 1;
        }
    }
    proof {
        assert(nearest(num.value(), den.value(), r as int));
        nearest_is_rounded(num.value(), den.value(), r as int);
    }
    r
}

impl JsNumber {
    /// Whether the sign bit is set.
    pub open spec fn negative(self) -> bool {
        self.bits >= SIGN
    }

    /// The bits without the sign.
    pub open spec fn magnitude(self) -> int {
        if self.negative() {
            self.bits - SIGN
        } else {
            self.bits as int
        }
    }

    /// Whether the bits hold no number.
    pub open spec fn nan(self) -> bool {
        self.magnitude() > INFINITE
    }

    /// Whether the bits hold a finite number.
    pub open spec fn finite(self) -> bool {
        self.magnitude() < INFINITE
    }

    /// The number in steps, where infinity counts as two to the 1024th.
    pub open spec fn signed_steps(self) -> int {
        if self.negative() {
            -(steps(self.magnitude()) as int)
        } else {
            steps(self.magnitude()) as int
        }
    }

    /// The number with the given sign and magnitude bits.
    pub open spec fn of(negative: bool, magnitude: int) -> JsNumber {
        JsNumber {
            bits: (if negative {
                magnitude + SIGN
            } else {
                magnitude
            }) as u64,
        }
    }

    fn make(negative: bool, magnitude: u64) -> (r: JsNumber)
        requires
            magnitude < SIGN,
        ensures
            r == JsNumber::of(negative, magnitude as int),
            r.negative() == negative,
            r.magnitude() == magnitude,
    {
        JsNumber {
            bits: if negative {
                magnitude + SIGN
            } else {
                magnitude
            },
        }
    }

    /// Whether the sign bit is set.
    pub fn is_negative(self) -> (r: bool)
        ensures
            r == self.negative(),
    {
        self.bits >= SIGN
    }

    fn magnitude_bits(self) -> (r: u64)
        ensures
            r == self.magnitude(),
            r < SIGN,
    {
        if self.bits >= SIGN {
            self.bits - SIGN
        } else {
            self.bits
        }
    }

    /// Whether the bits hold no number.
    pub fn is_nan(self) -> (r: bool)
        ensures
            r == self.nan(),
    {
        self.magnitude_bits() > INFINITE
    }

    /// Whether the bits hold a finite number.
    pub fn is_finite(self) -> (r: bool)
        ensures
            r == self.finite(),
    {
        self.magnitude_bits() < INFINITE
    }

    /// Whether the number is zero, of either sign.
    pub fn is_zero(self) -> (r: bool)
        ensures
            r == (self.magnitude() == 0),
    {
        self.magnitude_bits() == 0
    }

    /// Whether both hold numbers and the first is less.
    pub open spec fn below(self, other: JsNumber) -> bool {
        !self.nan() && !other.nan() && self.signed_steps() < other.signed_steps()
    }

    /// Whether both hold numbers and they are equal.
    pub open spec fn same(self, other: JsNumber) -> bool {
        !self.nan() && !other.nan() && self.signed_steps() == other.signed_steps()
    }

    /// Whether both hold numbers and the first is less.
    pub fn less(self, other: JsNumber) -> (r: bool)
        ensures
            r == self.below(other),
    {
        if self.is_nan() || other.is_nan() {
            return false;
        }
        let a: u64 = self.magnitude_bits();
        let b: u64 = other.magnitude_bits();
        proof {
            lemma_steps_zero();
            lemma_steps_signed(a as int, b as int);
        }
        if self.is_negative() {
            if other.is_negative() {
                b < a
            } else {
                !(a == 0 && b == 0)
            }
        } else if other.is_negative() {
            false
        } else {
            a < b
        }
    }

    /// Whether both hold numbers and they are equal.
    pub fn equals(self, other: JsNumber) -> (r: bool)
        ensures
            r == self.same(other),
    {
        !self.is_nan() && !other.is_nan() && !self.less(other) && !other.less(self)
    }

    /// The quotient by a whole number: the double nearest to it.
    pub open spec fn over_spec(self, k: u32) -> JsNumber {
        if self.finite() {
            JsNumber::of(
                self.negative(),
                rounded(steps(self.magnitude()), (k * pow2(1074)) as nat),
            )
        } else {
            self
        }
    }

    /// The quotient by a whole number: the double nearest to it.
    pub fn over(self, k: u32) -> (r: JsNumber)
        requires
            k > 0,
        ensures
            r == self.over_spec(k),
    {
        if !self.is_finite() {
            return self;
        }
        let num = steps_of(self.magnitude_bits());
        let den = BigNat::from_u32(k).times_pow2(1074);
        proof {
            lemma_pow2_pos(1074);
            assert(k * pow2(1074) > 0) by (nonlinear_arith)
                requires
                    k > 0,
                    pow2(1074) > 0,
            ;
        }
        JsNumber::make(self.is_negative(), round_ratio(&num, &den))
    }

    /// The product with a whole number: the double nearest to it.
    pub open spec fn scaled_spec(self, k: u32) -> JsNumber {
        if self.finite() {
            JsNumber::of(self.negative(), rounded((steps(self.magnitude()) * k) as nat, pow2(1074)))
        } else {
            self
        }
    }

    /// The product with a whole number: the double nearest to it.
    pub fn scaled(self, k: u32) -> (r: JsNumber)
        requires
            k > 0,
        ensures
            r == self.scaled_spec(k),
    {
        if !self.is_finite() {
            return self;
        }
        let num = steps_of(self.magnitude_bits()).times_plus(k, 0);
        let den = BigNat::from_u32(1).times_pow2(1074);
        proof {
            lemma_pow2_pos(1074);
            assert(1 * pow2(1074) == pow2(1074)) by (nonlinear_arith);
        }
        JsNumber::make(self.is_negative(), round_ratio(&num, &den))
    }

    /// The sum of two numbers: the double nearest to it.
    pub open spec fn plus_spec(self, other: JsNumber) -> JsNumber {
        if self.nan() {
            self
        } else if other.nan() {
            other
        } else if !self.finite() {
            if !other.finite() && self.negative() != other.negative() {
                JsNumber::of(false, INFINITE + 1)
            } else {
                self
            }
        } else if !other.finite() {
            other
        } else {
            let total = self.signed_steps() + other.signed_steps();
            if total == 0 {
                JsNumber::of(self.negative() && other.negative(), 0)
            } else if total < 0 {
                JsNumber::of(true, rounded((-total) as nat, pow2(1074)))
            } else {
                JsNumber::of(false, rounded(total as nat, pow2(1074)))
            }
        }
    }

    /// The sum of two numbers: the double nearest to it.
    pub fn plus(self, other: JsNumber) -> (r: JsNumber)
        ensures
            r == self.plus_spec(other),
    {
        if self.is_nan() {
            return self;
        }
        if other.is_nan() {
            return other;
        }
        if !self.is_finite() {
            if !other.is_finite() && self.is_negative() != other.is_negative() {
                return JsNumber::make(false, INFINITE + 1);
            }
            return self;
        }
        if !other.is_finite() {
            return other;
        }
        let a = steps_of(self.magnitude_bits());
        let b = steps_of(other.magnitude_bits());
        let den = BigNat::from_u32(1).times_pow2(1074);
        proof {
            lemma_pow2_pos(1074);
            assert(1 * pow2(1074) == pow2(1074)) by (nonlinear_arith);
        }
        if self.is_negative() == other.is_negative() {
            let total = a.plus(&b);
            if total.is_zero() {
                return JsNumber::make(self.is_negative(), 0);
            }
            return JsNumber::make(self.is_negative(), round_ratio(&total, &den));
        }
        match a.minus(&b) {
            Some(d) => {
                if d.is_zero() {
                    JsNumber::make(false, 0)
                } else {
                    JsNumber::make(self.is_negative(), round_ratio(&d, &den))
                }
            },
            None => {
                match b.minus(&a) {
                    Some(d) => JsNumber::make(other.is_negative(), round_ratio(&d, &den)),
                    None => JsNumber::make(false, 0),
                }
            },
        }
    }

    /// The number with its sign turned.
    pub open spec fn turned(self) -> JsNumber {
        JsNumber::of(!self.negative(), self.magnitude())
    }

    /// The number with its sign turned.
    pub fn negated(self) -> (r: JsNumber)
        ensures
            r == self.turned(),
    {
        JsNumber::make(!self.is_negative(), self.magnitude_bits())
    }
}

proof fn lemma_steps_zero()
    ensures
        steps(0) == 0,
{
}

proof fn lemma_steps_signed(a: int, b: int)
    requires
        0 <= a,
        0 <= b,
    ensures
        (steps(a) < steps(b)) == (a < b),
        (steps(a) == steps(b)) == (a == b),
        (steps(a) == 0) == (a == 0),
        (steps(b) == 0) == (b == 0),
{
    if a < b {
        lemma_steps_order(a, b);
    }
    if b < a {
        lemma_steps_order(b, a);
    }
    if a > 0 {
        lemma_steps_order(0, a);
    }
    if b > 0 {
        lemma_steps_order(0, b);
    }
    lemma_steps_zero();
}

/// The digit that a character stands for.
pub open spec fn digit_value(c: char) -> nat {
    (c as u32 - '0' as u32) as nat
}

/// The character that stands for a digit.
pub open spec fn digit_char(d: nat) -> char {
    (d + '0' as u32) as char
}

/// The number that decimal digits stand for.
pub open spec fn digits_value(s: Seq<char>) -> nat
    decreases s.len(),
{
    if s.len() == 0 {
        0
    } else {
        digits_value(s.drop_last()) * 10 + digit_value(s.last())
    }
}

/// Whether all characters are digits.
pub open spec fn all_digits(s: Seq<char>) -> bool {
    forall|i: int| 0 <= i < s.len() ==> digit(#[trigger] s[i])
}

/// The magnitude nearest to `d` times ten to the power of `e`.
pub open spec fn decimal_magnitude(d: nat, e: int) -> int {
    if e >= 0 {
        rounded(d * pow10(e as nat), 1)
    } else {
        rounded(d, pow10((-e) as nat))
    }
}

/// The double nearest to a decimal: whole digits, fraction digits, and an exponent
/// of ten with its sign.
pub open spec fn decimal_number(
    negative: bool,
    whole: Seq<char>,
    fraction: Seq<char>,
    exponent_negative: bool,
    exponent: Seq<char>,
) -> JsNumber {
    let e = if exponent_negative {
        -(digits_value(exponent) as int)
    } else {
        digits_value(exponent) as int
    };
    JsNumber::of(negative, decimal_magnitude(digits_value(whole + fraction), e - fraction.len()))
}

pub(crate) proof fn lemma_pow10_pos(n: nat)
    ensures
        pow10(n) >= 1,
    decreases n,
{
    if n > 0 {
        lemma_pow10_pos((n - 1) as nat);
    }
}

pub(crate) proof fn lemma_pow10_adds(a: nat, b: nat)
    ensures
        pow10(a + b) == pow10(a) * pow10(b),
    decreases a,
{
    if a > 0 {
        lemma_pow10_adds((a - 1) as nat, b);
        let p = pow10((a - 1) as nat);
        assert(10 * p * pow10(b) == 10 * (p * pow10(b))) by (nonlinear_arith);
    } else {
        assert(1 * pow10(b) == pow10(b)) by (nonlinear_arith);
    }
}

proof fn lemma_pow10_large(j: nat)
    ensures
        pow10(3 * j) >= pow2(9 * j),
    decreases j,
{
    lemma2_to64();
    if j > 0 {
        let k = (j - 1) as nat;
        lemma_pow10_large(k);
        lemma_pow2_adds(9 * k, 9);
        reveal_with_fuel(pow10, 4);
        assert(pow10(3 * j) == 1000 * pow10(3 * k));
        assert(pow10(3 * k) * 1000 >= pow2(9 * k) * 512) by (nonlinear_arith)
            requires
                pow10(3 * k) >= pow2(9 * k),
        ;
    }
}

proof fn lemma_digits_bound(s: Seq<char>)
    requires
        all_digits(s),
    ensures
        digits_value(s) < pow10(s.len()),
    decreases s.len(),
{
    if s.len() > 0 {
        assert(all_digits(s.drop_last())) by {
            assert forall|i: int| 0 <= i < s.drop_last().len() implies digit(
                #[trigger] s.drop_last()[i],
            ) by {
                assert(digit(s[i]));
            }
        }
        lemma_digits_bound(s.drop_last());
        assert(digit(s[s.len() - 1]));
    }
}

pub(crate) proof fn lemma_steps_infinite()
    ensures
        steps(INFINITE as int) == pow2(2098),
        FRACTION == pow2(52),
{
    lemma2_to64();
    lemma2_to64_rest();
    lemma_pow2_adds(52, 2046);
    assert(INFINITE as int / FRACTION as int == 2047);
    assert(INFINITE as int % FRACTION as int == 0);
}

proof fn lemma_huge(d: nat, e: int)
    requires
        d >= 1,
        e >= 400,
    ensures
        decimal_magnitude(d, e) == INFINITE,
{
    let num = d * pow10(e as nat);
    lemma_pow10_large(133);
    lemma_pow10_adds((e - 399) as nat, 399);
    lemma_pow10_pos((e - 399) as nat);
    lemma_pow2_pos(1197);
    lemma_pow2_pos(1075);
    lemma_steps_infinite();
    lemma_steps_next(INFINITE - 1);
    lemma_pow2_adds(1197, 1075);
    lemma_pow2_adds(2098, 1);
    lemma2_to64();
    lemma_pow2_strictly_increases(2099, 2272);
    assert(num >= pow2(1197)) by (nonlinear_arith)
        requires
            num == d * pow10(e as nat),
            d >= 1,
            pow10(e as nat) == pow10((e - 399) as nat) * pow10(399),
            pow10((e - 399) as nat) >= 1,
            pow10(399) >= pow2(1197),
    ;
    assert(num * pow2(1075) >= pow2(1197) * pow2(1075)) by (nonlinear_arith)
        requires
            num >= pow2(1197),
            pow2(1075) > 0,
    ;
    assert(1 * twice_middle(INFINITE - 1) == twice_middle(INFINITE - 1)) by (nonlinear_arith);
    nearest_is_rounded(num, 1, INFINITE as int);
}

proof fn lemma_tiny(d: nat, len: nat, e: int)
    requires
        d < pow10(len),
        e <= -(len + 400),
    ensures
        decimal_magnitude(d, e) == 0,
{
    let den = pow10((-e) as nat);
    let up = ((-e) - len - 399) as nat;
    lemma_pow10_large(133);
    lemma_pow10_adds(up, 399);
    lemma_pow10_adds(len, up + 399);
    lemma_pow10_pos(up);
    lemma_pow10_pos((-e) as nat);
    lemma_pow2_pos(1075);
    lemma_pow2_strictly_increases(1075, 1197);
    let p = pow10(len);
    let q = pow10(up + 399);
    assert(q >= pow2(1075)) by (nonlinear_arith)
        requires
            q == pow10(up) * pow10(399),
            pow10(up) >= 1,
            pow10(399) >= pow2(1197),
            pow2(1197) > pow2(1075),
    ;
    assert(d * pow2(1075) < p * q) by (nonlinear_arith)
        requires
            d < p,
            q >= pow2(1075),
            pow2(1075) > 0,
    ;
    assert(steps(0) == 0);
    assert(steps(1) == 1);
    assert(den * twice_middle(0) == den) by (nonlinear_arith)
        requires
            twice_middle(0) == 1,
    ;
    nearest_is_rounded(d, den, 0);
}

fn digits_number(s: &[char]) -> (r: BigNat)
    requires
        all_digits(s@),
    ensures
        r.value() == digits_value(s@),
{
    let mut out = BigNat::from_u32(0);
    let mut i: usize = 0;
    while i < s.len()
        invariant
            i <= s@.len(),
            all_digits(s@),
            out.value() == digits_value(s@.take(i as int)),
        decreases s@.len() - i,
    {
        assert(digit(s@[i as int]));
        let d: u32 = s[i] as u32 - 48;
        out = out.times_plus(10, d);
        proof {
            assert(s@.take(i as int + 1).drop_last() =~= s@.take(i as int));
        }
        i += 1;
    }
    proof {
        assert(s@.take(s@.len() as int) =~= s@);
    }
    out
}

/// The largest exponent that is told apart from greater ones.
const EXPONENT_CAP: i128 = 0x1_0000_0000_0000_0000_0000;

/// The number of the digits, or the cap where it is greater.
fn capped_number(s: &[char]) -> (r: i128)
    requires
        all_digits(s@),
    ensures
        0 <= r <= EXPONENT_CAP,
        digits_value(s@) <= EXPONENT_CAP ==> r == digits_value(s@),
        digits_value(s@) > EXPONENT_CAP ==> r == EXPONENT_CAP,
{
    let mut out: i128 = 0;
    let mut i: usize = 0;
    while i < s.len()
        invariant
            i <= s@.len(),
            all_digits(s@),
            0 <= out <= EXPONENT_CAP,
            digits_value(s@.take(i as int)) <= EXPONENT_CAP ==> out == digits_value(
                s@.take(i as int),
            ),
            digits_value(s@.take(i as int)) > EXPONENT_CAP ==> out == EXPONENT_CAP,
        decreases s@.len() - i,
    {
        assert(digit(s@[i as int]));
        let d: i128 = s[i] as i128 - 48;
        let t: i128 = out * 10 + d;
        proof {
            assert(s@.take(i as int + 1).drop_last() =~= s@.take(i as int));
        }
        out = if t > EXPONENT_CAP {
            EXPONENT_CAP
        } else {
            t
        };
        i += 1;
    }
    proof {
        assert(s@.take(s@.len() as int) =~= s@);
    }
    out
}

/// Reads a decimal: whole digits, fraction digits, and an exponent of ten with its
/// sign.
pub fn read_decimal(
    negative: bool,
    whole: &[char],
    fraction: &[char],
    exponent_negative: bool,
    exponent: &[char],
) -> (r: JsNumber)
    requires
        all_digits(whole@),
        all_digits(fraction@),
        all_digits(exponent@),
    ensures
        r == decimal_number(negative, whole@, fraction@, exponent_negative, exponent@),
{
    let mut digits: Vec<char> = Vec::new();
    let mut i: usize = 0;
    while i < whole.len()
        invariant
            i <= whole@.len(),
            digits@ == whole@.take(i as int),
        decreases whole@.len() - i,
    {
        digits.push(whole[i]);
        i += 1;
    }
    i = 0;
    proof {
        assert(digits@ =~= whole@ + fraction@.take(0));
    }
    while i < fraction.len()
        invariant
            i <= fraction@.len(),
            digits@ == whole@ + fraction@.take(i as int),
        decreases fraction@.len() - i,
    {
        digits.push(fraction[i]);
        proof {
            assert(digits@ =~= whole@ + fraction@.take(i as int + 1));
        }
        i += 1;
    }
    proof {
        assert(digits@ =~= whole@ + fraction@);
        assert forall|j: int| 0 <= j < digits@.len() implies digit(#[trigger] digits@[j]) by {
            if j < whole@.len() {
                assert(digit(whole@[j]));
            } else {
                assert(digit(fraction@[j - whole@.len()]));
            }
        }
        lemma_digits_bound(digits@);
        lemma_pow10_pos(digits@.len());
    }
    let count: usize = char_count(&digits);
    let places: usize = char_count(fraction);
    let d = digits_number(&digits);
    let power: i128 = capped_number(exponent);
    let e: i128 = if exponent_negative {
        -power - places as i128
    } else {
        power - places as i128
    };
    let ghost exact = if exponent_negative {
        -(digits_value(exponent@) as int) - fraction@.len()
    } else {
        digits_value(exponent@) as int - fraction@.len()
    };
    if d.is_zero() {
        proof {
            lemma_zero_decimal(exact);
        }
        return JsNumber::make(negative, 0);
    }
    if e >= 400 {
        proof {
            lemma_huge(d.value(), exact);
        }
        return JsNumber::make(negative, INFINITE);
    }
    if e <= -(count as i128 + 400) {
        proof {
            lemma_tiny(d.value(), digits@.len(), exact);
        }
        return JsNumber::make(negative, 0);
    }
    assert(e == exact);
    if e >= 0 {
        let num = d.times_pow10(e as u64);
        JsNumber::make(negative, round_ratio(&num, &BigNat::from_u32(1)))
    } else {
        let den = BigNat::from_u32(1).times_pow10((-e) as u64);
        proof {
            lemma_pow10_pos((-e) as nat);
            assert(1 * pow10((-e) as nat) == pow10((-e) as nat)) by (nonlinear_arith);
        }
        JsNumber::make(negative, round_ratio(&d, &den))
    }
}

pub(crate) proof fn lemma_zero_decimal(e: int)
    ensures
        decimal_magnitude(0, e) == 0,
{
    let num = if e >= 0 {
        0 * pow10(e as nat)
    } else {
        0
    };
    let den = if e >= 0 {
        1
    } else {
        pow10((-e) as nat)
    };
    if e < 0 {
        lemma_pow10_pos((-e) as nat);
    }
    assert(steps(0) == 0);
    assert(steps(1) == 1);
    assert(0 * pow2(1075) == 0) by (nonlinear_arith);
    if e >= 0 {
        assert(0 * pow10(e as nat) == 0) by (nonlinear_arith);
    }
    assert(den * twice_middle(0) == den) by (nonlinear_arith)
        requires
            twice_middle(0) == 1,
    ;
    nearest_is_rounded(0, den as nat, 0);
}

/// One, in steps.
pub open spec fn unit_steps() -> nat {
    pow2(1074)
}

/// By how much `x` reaches `m`.
pub open spec fn reach(x: nat, m: nat) -> int {
    if x >= m {
        x + 1 - m
    } else {
        0
    }
}

/// The least `u`, from the given one on, for which `x` steps are less than ten to
/// the `u`.
pub open spec fn places_up(x: nat, u: nat) -> nat
    decreases reach(x, unit_steps() * pow10(u)),
    when unit_steps() >= 1 && pow10(u) >= 1
    via places_up_decreases
{
    if x < unit_steps() * pow10(u) {
        u
    } else {
        places_up(x, u + 1)
    }
}

#[via_fn]
proof fn places_up_decreases(x: nat, u: nat) {
    let p = unit_steps();
    let q = pow10(u);
    assert(p * (10 * q) > p * q) by (nonlinear_arith)
        requires
            p >= 1,
            q >= 1,
    ;
}

/// The largest `d`, from the given one on, for which ten to the `d` times `x` steps
/// is less than one.
pub open spec fn places_down(x: nat, d: nat) -> nat
    decreases unit_steps() - x * pow10(d),
    when x >= 1 && pow10(d) >= 1
    via places_down_decreases
{
    if x * pow10(d + 1) >= unit_steps() {
        d
    } else {
        places_down(x, d + 1)
    }
}

#[via_fn]
proof fn places_down_decreases(x: nat, d: nat) {
    let q = pow10(d);
    assert(x * (10 * q) > x * q) by (nonlinear_arith)
        requires
            x >= 1,
            q >= 1,
    ;
}

/// Where the digits of `x` steps stand: the number is below ten to the first less
/// the second place, and not below a tenth of that.
pub open spec fn places(x: nat) -> (nat, nat) {
    let up = places_up(x, 0);
    (
        up,
        if up == 0 {
            places_down(x, 0)
        } else {
            0
        },
    )
}

/// The first `k` digits of `x` steps, cut off behind the last.
pub open spec fn cut(x: nat, up: nat, down: nat, k: nat) -> nat {
    (x * pow10(down + k)) / (unit_steps() * pow10(up))
}

/// What cutting behind the first `k` digits leaves, as a part of the divisor.
pub open spec fn cut_rest(x: nat, up: nat, down: nat, k: nat) -> nat {
    (x * pow10(down + k)) % (unit_steps() * pow10(up))
}

/// Whether `s`, read with its last digit at place `k`, is nearest to magnitude `b`.
pub open spec fn reads_as(s: nat, up: nat, down: nat, k: nat, b: int) -> bool {
    rounded(s * pow10(up), pow10(down + k)) == b
}

/// The least number of digits, from `k` on, that tell magnitude `b` apart: cut
/// off, or with the last digit raised, they read as `b`. At place 1074 nothing is
/// left to cut off.
pub open spec fn shortest(b: int, up: nat, down: nat, k: nat) -> nat
    decreases up + 1075 - down - k,
{
    let s = cut(steps(b), up, down, k);
    if down + k >= up + 1074 || reads_as(s, up, down, k, b) || reads_as(s + 1, up, down, k, b) {
        k
    } else {
        shortest(b, up, down, k + 1)
    }
}

/// The number that the `k` digits form: the cut one or the raised one, whichever
/// reads as `b`; where both do, the nearer one, or the even one.
pub open spec fn chosen(b: int, up: nat, down: nat, k: nat) -> nat {
    let s = cut(steps(b), up, down, k);
    let rest = cut_rest(steps(b), up, down, k);
    let whole = unit_steps() * pow10(up);
    let raise = 2 * rest > whole || (2 * rest == whole && s % 2 == 1);
    if reads_as(s, up, down, k, b) && !(reads_as(s + 1, up, down, k, b) && raise) {
        s
    } else if reads_as(s + 1, up, down, k, b) {
        s + 1
    } else {
        s
    }
}

/// The decimal digits of a number.
pub open spec fn decimal(n: nat) -> Seq<char>
    decreases n,
{
    if n < 10 {
        seq![digit_char(n)]
    } else {
        decimal(n / 10).push(digit_char(n % 10))
    }
}

/// The digits without the zeros at the end, but for the first.
pub open spec fn without_end_zeros(s: Seq<char>) -> Seq<char>
    decreases s.len(),
{
    if s.len() > 1 && s.last() == '0' {
        without_end_zeros(s.drop_last())
    } else {
        s
    }
}

/// `n` zeros.
pub open spec fn zeros(n: int) -> Seq<char> {
    Seq::new(
        (if n > 0 {
            n
        } else {
            0
        }) as nat,
        |i: int| '0',
    )
}

/// Digits with the point behind the `n`th place, the way ECMAScript prints them.
pub open spec fn placed(digits: Seq<char>, n: int) -> Seq<char> {
    let k = digits.len();
    if k <= n <= 21 {
        digits + zeros(n - k)
    } else if 0 < n <= 21 {
        digits.take(n) + "."@ + digits.skip(n)
    } else if -6 < n <= 0 {
        "0."@ + zeros(-n) + digits
    } else {
        let mantissa = if k == 1 {
            digits
        } else {
            digits.take(1) + "."@ + digits.skip(1)
        };
        if n - 1 < 0 {
            mantissa + "e-"@ + decimal((1 - n) as nat)
        } else {
            mantissa + "e+"@ + decimal((n - 1) as nat)
        }
    }
}

/// The text of a positive finite magnitude.
pub open spec fn magnitude_text(b: int) -> Seq<char> {
    let (up, down) = places(steps(b));
    let k = shortest(b, up, down, 1);
    let all = decimal(chosen(b, up, down, k));
    placed(without_end_zeros(all), all.len() + up - down - k)
}

/// Digits with the point behind the `n`th place, the way JSON is written: a whole number
/// keeps its point, and long numbers have an exponent sooner than in ECMAScript.
pub open spec fn json_placed(digits: Seq<char>, n: int) -> Seq<char> {
    let k = digits.len();
    if k <= n <= 16 {
        digits + zeros(n - k) + ".0"@
    } else if 0 < n <= 16 {
        digits.take(n) + "."@ + digits.skip(n)
    } else if -5 < n <= 0 {
        "0."@ + zeros(-n) + digits
    } else {
        with_exponent(digits, n)
    }
}

/// Digits with the point behind the first, and the exponent.
pub open spec fn with_exponent(digits: Seq<char>, n: int) -> Seq<char> {
    let mantissa = if digits.len() == 1 {
        digits
    } else {
        digits.take(1) + "."@ + digits.skip(1)
    };
    if n - 1 < 0 {
        mantissa + "e-"@ + decimal((1 - n) as nat)
    } else {
        mantissa + "e+"@ + decimal((n - 1) as nat)
    }
}

/// The shortest digits of a positive finite magnitude, and the place of the point.
pub open spec fn magnitude_digits(b: int) -> (Seq<char>, int) {
    let (up, down) = places(steps(b));
    let k = shortest(b, up, down, 1);
    let all = decimal(chosen(b, up, down, k));
    (without_end_zeros(all), all.len() + up - down - k)
}

impl JsNumber {
    /// The text of a finite number, as JSON is written. JSON has no text for others.
    pub open spec fn json_spec(self) -> Seq<char> {
        if !self.finite() {
            "null"@
        } else {
            let t = if self.magnitude() == 0 {
                "0.0"@
            } else {
                let (digits, n) = magnitude_digits(self.magnitude());
                json_placed(digits, n)
            };
            if self.negative() {
                "-"@ + t
            } else {
                t
            }
        }
    }
}

impl JsNumber {
    /// The text of the number, as `String(x)` gives it.
    pub open spec fn text_spec(self) -> Seq<char> {
        if self.nan() {
            "NaN"@
        } else if self.magnitude() == 0 {
            "0"@
        } else {
            let t = if self.finite() {
                magnitude_text(self.magnitude())
            } else {
                "Infinity"@
            };
            if self.negative() {
                "-"@ + t
            } else {
                t
            }
        }
    }
}

proof fn lemma_pow10_above_pow2(n: nat)
    ensures
        pow10(n) >= pow2(n),
    decreases n,
{
    if n > 0 {
        lemma_pow10_above_pow2((n - 1) as nat);
        lemma_pow2_unfold(n);
    } else {
        lemma2_to64();
    }
}

proof fn lemma_places_up_bound(x: nat, u: nat)
    requires
        x < pow2(2098),
        x >= unit_steps() * pow10(u),
    ensures
        u < 1024,
{
    if u >= 1024 {
        lemma_pow10_above_pow2(u);
        lemma_pow2_adds(1074, u);
        lemma_pow2_pos(1074);
        assert(unit_steps() * pow10(u) >= pow2(1074) * pow2(u)) by (nonlinear_arith)
            requires
                unit_steps() == pow2(1074),
                pow2(1074) > 0,
                pow10(u) >= pow2(u),
        ;
        if u > 1024 {
            lemma_pow2_strictly_increases(2098, 1074 + u);
        }
    }
}

proof fn lemma_places_down_bound(x: nat, d: nat)
    requires
        x >= 1,
        x * pow10(d) < unit_steps(),
    ensures
        d < 1074,
{
    if d >= 1074 {
        lemma_pow10_above_pow2(d);
        assert(x * pow10(d) >= pow2(d)) by (nonlinear_arith)
            requires
                x >= 1,
                pow10(d) >= pow2(d),
        ;
        if d > 1074 {
            lemma_pow2_strictly_increases(1074, d);
        }
    }
}

fn decimal_of(n: u64) -> (r: Vec<char>)
    ensures
        r@ == decimal(n as nat),
    decreases n,
{
    if n < 10 {
        let mut out: Vec<char> = Vec::new();
        out.push(digit_of(n as u8));
        proof {
            assert(out@ =~= decimal(n as nat));
        }
        out
    } else {
        let mut out = decimal_of(n / 10);
        out.push(digit_of((n % 10) as u8));
        out
    }
}

fn digit_of(d: u8) -> (r: char)
    requires
        d < 10,
    ensures
        r == digit_char(d as nat),
        digit(r),
{
    (d + 48) as char
}

/// The decimal digits of a number are digits that stand for it.
pub proof fn decimal_reads_back(n: nat)
    ensures
        all_digits(decimal(n)),
        decimal(n).len() > 0,
        digits_value(decimal(n)) == n,
    decreases n,
{
    let d = decimal(n);
    if n < 10 {
        assert(d.drop_last() =~= Seq::<char>::empty());
        reveal_with_fuel(digits_value, 2);
    } else {
        decimal_reads_back(n / 10);
        assert(d.drop_last() =~= decimal(n / 10));
    }
}

/// The decimal digits of a number, as a string.
pub fn decimal_text(n: u64) -> (r: String)
    ensures
        r@ == decimal(n as nat),
{
    string_of(&decimal_of(n))
}

/// Replaces the decimal digits of `n` by those of `n + 1`.
fn increment(digits: &mut Vec<char>, Ghost(n): Ghost<nat>)
    requires
        old(digits)@ == decimal(n),
    ensures
        final(digits)@ == decimal(n + 1),
    decreases n,
{
    let last = digits.pop().unwrap();
    if last == '9' {
        if digits.len() == 0 {
            proof {
                assert(n == 9) by {
                    if n >= 10 {
                        lemma_decimal_len(n / 10);
                    }
                }
                reveal_with_fuel(decimal, 2);
            }
            digits.push('1');
            digits.push('0');
            proof {
                assert(digits@ =~= seq!['1'].push('0'));
            }
        } else {
            proof {
                assert(n >= 10);
                assert(decimal(n / 10) =~= digits@);
                assert((n + 1) / 10 == n / 10 + 1);
                assert((n + 1) % 10 == 0);
            }
            increment(digits, Ghost(n / 10));
            digits.push('0');
        }
    } else {
        proof {
            if n >= 10 {
                assert(decimal(n / 10) =~= digits@);
                assert(n % 10 < 9);
                assert((n + 1) / 10 == n / 10);
                assert((n + 1) % 10 == n % 10 + 1);
            } else {
                assert(digits@ =~= Seq::<char>::empty());
            }
        }
        let up: u8 = last as u8 - 48 + 1;
        digits.push(digit_of(up));
        proof {
            assert(digits@ =~= decimal(n + 1));
        }
    }
}

proof fn lemma_decimal_len(n: nat)
    ensures
        decimal(n).len() >= 1,
    decreases n,
{
    if n >= 10 {
        lemma_decimal_len(n / 10);
    }
}

/// The digits behind `lo`: the next one, and what is left of `a / b`.
fn next_digit(a: &BigNat, b: &BigNat) -> (r: (u8, BigNat))
    requires
        a.value() < b.value(),
    ensures
        r.0 < 10,
        r.1.value() < b.value(),
        a.value() * 10 == r.0 * b.value() + r.1.value(),
{
    let mut rest = a.times_plus(10, 0);
    let mut d: u8 = 0;
    loop
        invariant
            a.value() < b.value(),
            d < 10,
            a.value() * 10 == d * b.value() + rest.value(),
        decreases rest.value(),
    {
        match rest.minus(b) {
            None => {
                return (d, rest);
            },
            Some(next) => {
                proof {
                    assert((d + 1) * b.value() == d * b.value() + b.value()) by (nonlinear_arith);
                    assert(d + 1 < 10) by (nonlinear_arith)
                        requires
                            a.value() < b.value(),
                            a.value() * 10 >= (d + 1) * b.value(),
                    ;
                }
                rest = next;
                d += 1;
            },
        }
    }
}

fn read_back(s: &BigNat, up: u64, down: u64, k: u64, b: u64) -> (r: bool)
    requires
        down + k <= 0xffff_ffff,
    ensures
        r == reads_as(s.value(), up as nat, down as nat, k as nat, b as int),
{
    let num = s.times_pow10(up);
    let den = BigNat::from_u32(1).times_pow10(down + k);
    proof {
        lemma_pow10_pos((down + k) as nat);
        assert(1 * pow10((down + k) as nat) == pow10((down + k) as nat)) by (nonlinear_arith);
    }
    round_ratio(&num, &den) == b
}

/// The shortest digits of a magnitude and the place of the point behind them.
fn shortest_digits(b: u64) -> (r: (Vec<char>, i64))
    requires
        0 < b < INFINITE,
    ensures
        ({
            let (up, down) = places(steps(b as int));
            let k = shortest(b as int, up, down, 1);
            let all = decimal(chosen(b as int, up, down, k));
            &&& r.0@ == all
            &&& r.1 == up - down - k
            &&& -5000 < r.1 < 5000
        }),
{
    let x = steps_of(b);
    let ghost xs = steps(b as int);
    proof {
        lemma_steps_zero();
        lemma_steps_order(0, b as int);
        lemma_steps_infinite();
        lemma_steps_order(b as int, INFINITE as int);
        lemma_pow2_pos(1074);
    }
    let one = BigNat::from_u32(1).times_pow2(1074);
    proof {
        assert(1 * pow2(1074) == pow2(1074)) by (nonlinear_arith);
    }
    // The divisor: ten to the `up`, in steps.
    let mut div = one.copy();
    let mut up: u64 = 0;
    proof {
        assert(unit_steps() * 1 == unit_steps()) by (nonlinear_arith);
    }
    while !x.less(&div)
        invariant
            up <= 1024,
            xs < pow2(2098),
            x.value() == xs,
            unit_steps() >= 1,
            div.value() == unit_steps() * pow10(up as nat),
            up > 0 ==> xs >= unit_steps() * pow10((up - 1) as nat),
            places_up(xs, 0) == places_up(xs, up as nat),
        decreases reach(xs, div.value()),
    {
        proof {
            lemma_pow10_pos(up as nat);
            lemma_places_up_bound(xs, up as nat);
            assert(unit_steps() * pow10(up as nat) * 10 == unit_steps() * (10 * pow10(up as nat)))
                by (nonlinear_arith);
            assert(unit_steps() * pow10(up as nat) >= 1) by (nonlinear_arith)
                requires
                    unit_steps() >= 1,
                    pow10(up as nat) >= 1,
            ;
        }
        div = div.times_plus(10, 0);
        up += 1;
    }
    proof {
        lemma_pow10_pos(up as nat);
    }
    // The dividend: the number times ten to the `down`.
    let mut part = x.copy();
    let mut down: u64 = 0;
    proof {
        assert(xs * 1 == xs) by (nonlinear_arith);
        assert(unit_steps() * 1 == unit_steps()) by (nonlinear_arith);
    }
    if up == 0 {
        loop
            invariant
                down <= 1074,
                xs >= 1,
                up == 0,
                one.value() == unit_steps(),
                part.value() == xs * pow10(down as nat),
                part.value() < unit_steps(),
                places_down(xs, 0) == places_down(xs, down as nat),
            ensures
                down <= 1074,
                part.value() == xs * pow10(down as nat),
                part.value() < unit_steps(),
                places_down(xs, 0) == down,
                xs * pow10((down + 1) as nat) >= unit_steps(),
            decreases unit_steps() - part.value(),
        {
            let next = part.times_plus(10, 0);
            proof {
                lemma_pow10_pos(down as nat);
                assert(xs * pow10(down as nat) * 10 == xs * (10 * pow10(down as nat)))
                    by (nonlinear_arith);
                lemma_places_down_bound(xs, down as nat);
                assert(xs * pow10(down as nat) >= 1) by (nonlinear_arith)
                    requires
                        xs >= 1,
                        pow10(down as nat) >= 1,
                ;
            }
            if !next.less(&one) {
                break;
            }
            part = next;
            down += 1;
        }
    }
    proof {
        lemma_pow10_pos(down as nat);
        if up > 0 {
            assert(pow10(1) == 10) by {
                reveal_with_fuel(pow10, 2);
            }
            assert(xs * 10 >= unit_steps() * pow10(up as nat)) by (nonlinear_arith)
                requires
                    xs >= unit_steps() * pow10((up - 1) as nat),
                    pow10(up as nat) == 10 * pow10((up - 1) as nat),
            ;
        }
        assert(xs * pow10((down + 1) as nat) >= div.value());
        assert((up as nat, down as nat) == places(xs));
    }
    let mut digits: Vec<char> = Vec::new();
    let mut lo = BigNat::from_u32(0);
    let mut k: u64 = 0;
    let ghost whole = div.value();
    loop
        invariant
            0 < b < INFINITE,
            xs == steps(b as int),
            whole == div.value(),
            whole == unit_steps() * pow10(up as nat),
            whole > 0,
            up <= 1024,
            down <= 1074,
            down + k <= up + 1074,
            xs * pow10((down + 1) as nat) >= whole,
            part.value() < whole,
            xs * pow10((down + k) as nat) == lo.value() * whole + part.value(),
            k == 0 ==> lo.value() == 0 && digits@.len() == 0,
            k > 0 ==> lo.value() > 0 && digits@ == decimal(lo.value()),
            shortest(b as int, up as nat, down as nat, 1) == shortest(
                b as int,
                up as nat,
                down as nat,
                (k + 1) as nat,
            ),
            (up as nat, down as nat) == places(xs),
        decreases up + 1075 - down - k,
    {
        let (d, rest) = next_digit(&part, &div);
        let ghost old_lo = lo.value();
        lo = lo.times_plus(10, d as u32);
        k += 1;
        proof {
            let t = pow10((down + k - 1) as nat);
            assert(pow10((down + k) as nat) == 10 * t);
            assert(xs * (10 * t) == (old_lo * 10 + d) * whole + rest.value()) by (nonlinear_arith)
                requires
                    xs * t == old_lo * whole + part.value(),
                    part.value() * 10 == d * whole + rest.value(),
            ;
            lemma_quotient(
                (xs * pow10((down + k) as nat)) as int,
                whole as int,
                lo.value() as int,
                rest.value() as int,
            );
            assert(lo.value() > 0) by {
                if k == 1 && lo.value() == 0 {
                    assert(0 * whole == 0) by (nonlinear_arith);
                }
            }
        }
        digits.push(digit_of(d));
        proof {
            if k == 1 {
                assert(digits@ =~= seq![digit_char(d as nat)]);
            } else {
                assert(lo.value() / 10 == old_lo);
                assert(lo.value() % 10 == d);
            }
            assert(digits@ == decimal(lo.value()));
        }
        part = rest;
        let hi = lo.times_plus(1, 1);
        let low_reads = read_back(&lo, up, down, k, b);
        let high_reads = read_back(&hi, up, down, k, b);
        if down + k >= up + 1074 || low_reads || high_reads {
            let twice = part.times_plus(2, 0);
            let odd = match digits[digits.len() - 1] {
                '1' | '3' | '5' | '7' | '9' => true,
                _ => false,
            };
            proof {
                assert(odd == (lo.value() % 2 == 1)) by {
                    let last = digits@.last();
                    assert(last == digit_char(lo.value() % 10));
                }
            }
            let raise = div.less(&twice) || (!twice.less(&div) && odd);
            let keep = low_reads && !(high_reads && raise);
            if !keep && high_reads {
                increment(&mut digits, Ghost(lo.value()));
            }
            return (digits, up as i64 - down as i64 - k as i64);
        }
    }
}

proof fn lemma_quotient(a: int, b: int, q: int, r: int)
    requires
        a == q * b + r,
        0 <= r < b,
        0 <= q,
    ensures
        a / b == q,
        a % b == r,
{
    vstd::arithmetic::div_mod::lemma_fundamental_div_mod_converse(a, b, q, r);
}

fn push_zeros(out: &mut String, n: i64)
    ensures
        final(out)@ == old(out)@ + zeros(n as int),
{
    let ghost start = out@;
    let mut i: i64 = 0;
    proof {
        assert(out@ =~= start + zeros(0));
    }
    while i < n
        invariant
            0 <= i,
            n > 0 ==> i <= n,
            n <= 0 ==> i == 0,
            out@ == start + zeros(i as int),
        decreases n - i,
    {
        out.push('0');
        i += 1;
        proof {
            assert(out@ =~= start + zeros(i as int));
        }
    }
    proof {
        assert(zeros(i as int) =~= zeros(n as int));
    }
}

fn place_point(digits: &[char], n: i64) -> (r: String)
    requires
        digits@.len() >= 1,
        -10000 < n < 10000,
        digits@.len() < 10000,
    ensures
        r@ == placed(digits@, n as int),
{
    let k: i64 = digits.len() as i64;
    if k <= n && n <= 21 {
        let mut out = string_of(digits);
        push_zeros(&mut out, n - k);
        out
    } else if 0 < n && n <= 21 {
        put_point(digits, n as usize)
    } else if -6 < n && n <= 0 {
        put_zeros(digits, -n)
    } else {
        put_exponent(digits, n)
    }
}

fn put_point(digits: &[char], n: usize) -> (r: String)
    requires
        n <= digits@.len(),
    ensures
        r@ == digits@.take(n as int) + "."@ + digits@.skip(n as int),
{
    let mut out = string_of(&digits[0..n]);
    out.append(".");
    out.append(string_of(&digits[n..digits.len()]).as_str());
    proof {
        assert(digits@.subrange(0, n as int) =~= digits@.take(n as int));
        assert(digits@.subrange(n as int, digits@.len() as int) =~= digits@.skip(n as int));
    }
    out
}

fn put_zeros(digits: &[char], n: i64) -> (r: String)
    requires
        0 <= n < 10000,
    ensures
        r@ == "0."@ + zeros(n as int) + digits@,
{
    let mut out = "0.".to_owned();
    push_zeros(&mut out, n);
    out.append(string_of(digits).as_str());
    out
}

fn put_exponent(digits: &[char], n: i64) -> (r: String)
    requires
        digits@.len() >= 1,
        -10000 < n < 10000,
    ensures
        r@ == with_exponent(digits@, n as int),
{
    let mut out = if digits.len() > 1 {
        put_point(digits, 1)
    } else {
        string_of(digits)
    };
    if n - 1 < 0 {
        out.append("e-");
        out.append(decimal_text((1 - n) as u64).as_str());
    } else {
        out.append("e+");
        out.append(decimal_text((n - 1) as u64).as_str());
    }
    out
}

fn place_json_point(digits: &[char], n: i64) -> (r: String)
    requires
        digits@.len() >= 1,
        -10000 < n < 10000,
        digits@.len() < 10000,
    ensures
        r@ == json_placed(digits@, n as int),
{
    let k: i64 = digits.len() as i64;
    if k <= n && n <= 16 {
        let mut out = string_of(digits);
        push_zeros(&mut out, n - k);
        out.append(".0");
        out
    } else if 0 < n && n <= 16 {
        put_point(digits, n as usize)
    } else if -5 < n && n <= 0 {
        put_zeros(digits, -n)
    } else {
        put_exponent(digits, n)
    }
}

fn print_digits(b: u64) -> (r: (Vec<char>, i64))
    requires
        0 < b < INFINITE,
    ensures
        (r.0@, r.1 as int) == magnitude_digits(b as int),
        1 <= r.0@.len() < 10000,
        -10000 < r.1 < 10000,
{
    let (mut digits, place) = shortest_digits(b);
    let count: usize = digits.len();
    let ghost all = digits@;
    while digits.len() > 1 && digits[digits.len() - 1] == '0'
        invariant
            digits@.len() <= all.len(),
            all.len() >= 1 ==> digits@.len() >= 1,
            without_end_zeros(all) == without_end_zeros(digits@),
        decreases digits@.len(),
    {
        let ghost before = digits@;
        digits.pop();
        proof {
            assert(digits@ =~= before.drop_last());
        }
    }
    proof {
        lemma_digit_count(b as int);
    }
    (digits, place + count as i64)
}

pub(crate) proof fn lemma_decimal_short(n: nat, k: nat)
    requires
        n < pow10(k),
        k >= 1,
    ensures
        decimal(n).len() <= k,
    decreases k,
{
    if n >= 10 {
        assert(k > 1) by {
            if k == 1 {
                reveal_with_fuel(pow10, 2);
            }
        }
        lemma_decimal_short(n / 10, (k - 1) as nat);
    }
}

pub(crate) proof fn lemma_shortest_bound(b: int, up: nat, down: nat, k: nat)
    requires
        down + k <= up + 1074,
    ensures
        k <= shortest(b, up, down, k),
        down + shortest(b, up, down, k) <= up + 1074,
    decreases up + 1075 - down - k,
{
    let s = cut(steps(b), up, down, k);
    if !(down + k >= up + 1074 || reads_as(s, up, down, k, b) || reads_as(s + 1, up, down, k, b)) {
        lemma_shortest_bound(b, up, down, k + 1);
    }
}

impl JsNumber {
    /// The text of the number, as `String(x)` gives it.
    pub fn text(self) -> (r: String)
        ensures
            r@ == self.text_spec(),
    {
        if self.is_nan() {
            return "NaN".to_owned();
        }
        let b: u64 = self.magnitude_bits();
        if b == 0 {
            return "0".to_owned();
        }
        let t = if b < INFINITE {
            let (digits, n) = print_digits(b);
            place_point(&digits, n)
        } else {
            "Infinity".to_owned()
        };
        if self.is_negative() {
            let mut out = "-".to_owned();
            out.append(t.as_str());
            out
        } else {
            t
        }
    }

    /// The text of a finite number, as JSON is written.
    pub fn json_text(self) -> (r: String)
        ensures
            r@ == self.json_spec(),
    {
        let b: u64 = self.magnitude_bits();
        if b >= INFINITE {
            return "null".to_owned();
        }
        let t = if b == 0 {
            "0.0".to_owned()
        } else {
            let (digits, n) = print_digits(b);
            place_json_point(&digits, n)
        };
        if self.is_negative() {
            let mut out = "-".to_owned();
            out.append(t.as_str());
            out
        } else {
            t
        }
    }

    /// The nearest whole number, where a half goes up.
    pub open spec fn whole_spec(self) -> JsNumber {
        if self.magnitude() >= WHOLE_FROM {
            self
        } else {
            let unit = unit_steps() as int;
            let n = (2 * self.signed_steps() + unit) / (2 * unit);
            JsNumber::of(
                self.negative(),
                rounded(
                    (if n < 0 {
                        -n
                    } else {
                        n
                    }) as nat,
                    1,
                ),
            )
        }
    }

    /// The nearest whole number, where a half goes up.
    pub fn whole(self) -> (r: JsNumber)
        ensures
            r == self.whole_spec(),
    {
        let b: u64 = self.magnitude_bits();
        if b >= WHOLE_FROM {
            return self;
        }
        let e: u64 = b / FRACTION;
        let f: u64 = b % FRACTION;
        let mantissa: u64 = if e == 0 {
            f
        } else {
            FRACTION + f
        };
        let low: u64 = if e == 0 {
            0
        } else {
            e - 1
        };
        let shift: u64 = 1074 - low;
        let ghost p = pow2(low as nat) as int;
        let ghost d = pow2(shift as nat) as int;
        let ghost half = pow2((shift - 1) as nat) as int;
        proof {
            lemma_pow2_pos(low as nat);
            lemma_pow2_pos(shift as nat);
            lemma_pow2_pos((shift - 1) as nat);
            lemma_pow2_unfold(shift as nat);
            lemma_pow2_adds(low as nat, shift as nat);
            lemma2_to64();
            lemma2_to64_rest();
            lemma_split(b as int, e as int, f as int);
            assert(steps(b as int) == mantissa * p) by {
                if e == 0 {
                    assert(mantissa * 1 == mantissa) by (nonlinear_arith);
                }
            }
            lemma_half_up(mantissa as int, p, d, half, self.negative());
        }
        let n: u64 = if shift >= 54 {
            proof {
                if shift > 54 {
                    lemma_pow2_strictly_increases(54, shift as nat);
                }
                lemma_below_half(mantissa as int, d, half);
            }
            0
        } else {
            let mut w: u64 = 1;
            let mut i: u64 = 0;
            while i < shift - 1
                invariant
                    1 <= shift < 54,
                    i <= shift - 1,
                    w == pow2(i as nat),
                    w <= 0x20_0000_0000_0000,
                decreases shift - i,
            {
                proof {
                    lemma_pow2_unfold((i + 1) as nat);
                    lemma2_to64();
                    lemma2_to64_rest();
                    if i + 1 < 53 {
                        lemma_pow2_strictly_increases((i + 1) as nat, 53);
                    }
                }
                w = w * 2;
                i += 1;
            }
            if self.is_negative() {
                (mantissa + w - 1) / (2 * w)
            } else {
                (mantissa + w) / (2 * w)
            }
        };
        JsNumber::make(self.is_negative(), round_ratio(&from_u64(n), &BigNat::from_u32(1)))
    }
}

/// The bits of two to the 52nd: from there on every double is whole.
pub const WHOLE_FROM: u64 = 0x4330_0000_0000_0000;

proof fn lemma_below_half(m: int, d: int, half: int)
    requires
        0 <= m < half,
        d == 2 * half,
    ensures
        (m + half) / d == 0,
        (m + half - 1) / d == 0,
{
    if m + half - 1 >= 0 {
        vstd::arithmetic::div_mod::lemma_basic_div(m + half - 1, d);
    }
    vstd::arithmetic::div_mod::lemma_basic_div(m + half, d);
}

/// Half up, by the mantissa alone.
proof fn lemma_half_up(m: int, p: int, d: int, half: int, negative: bool)
    requires
        0 <= m,
        p > 0,
        half > 0,
        d == 2 * half,
    ensures
        ({
            let unit = p * d;
            let s = if negative {
                -(m * p)
            } else {
                m * p
            };
            let n = (2 * s + unit) / (2 * unit);
            &&& unit > 0
            &&& negative ==> n <= 0 && -n == (m + half - 1) / d
            &&& !negative ==> n >= 0 && n == (m + half) / d
        }),
{
    let unit = p * d;
    assert(unit > 0) by (nonlinear_arith)
        requires
            unit == p * d,
            p > 0,
            d > 0,
    ;
    if negative {
        let q = (m + half - 1) / d;
        let r = (m + half - 1) % d;
        vstd::arithmetic::div_mod::lemma_fundamental_div_mod(m + half - 1, d);
        vstd::arithmetic::div_mod::lemma_div_pos_is_pos(m + half - 1, d);
        // -m + half == -q * d + (d - 1 - r)
        let rest = d - 1 - r;
        assert(2 * -(m * p) + unit == -q * (2 * unit) + 2 * (p * rest)) by (nonlinear_arith)
            requires
                unit == p * d,
                d == 2 * half,
                m + half - 1 == d * q + r,
                rest == d - 1 - r,
        ;
        assert(0 <= 2 * (p * rest) < 2 * unit) by (nonlinear_arith)
            requires
                unit == p * d,
                0 <= rest < d,
                p > 0,
        ;
        vstd::arithmetic::div_mod::lemma_fundamental_div_mod_converse(
            2 * -(m * p) + unit,
            2 * unit,
            -q,
            2 * (p * rest),
        );
    } else {
        let q = (m + half) / d;
        let r = (m + half) % d;
        vstd::arithmetic::div_mod::lemma_fundamental_div_mod(m + half, d);
        vstd::arithmetic::div_mod::lemma_div_pos_is_pos(m + half, d);
        assert(2 * (m * p) + unit == q * (2 * unit) + 2 * (p * r)) by (nonlinear_arith)
            requires
                unit == p * d,
                d == 2 * half,
                m + half == d * q + r,
        ;
        assert(0 <= 2 * (p * r) < 2 * unit) by (nonlinear_arith)
            requires
                unit == p * d,
                0 <= r < d,
                p > 0,
        ;
        vstd::arithmetic::div_mod::lemma_fundamental_div_mod_converse(
            2 * (m * p) + unit,
            2 * unit,
            q,
            2 * (p * r),
        );
    }
}

/// The digits of a magnitude are few.
proof fn lemma_digit_count(b: int)
    requires
        0 < b < INFINITE,
    ensures
        ({
            let (up, down) = places(steps(b));
            let k = shortest(b, up, down, 1);
            let all = decimal(chosen(b, up, down, k));
            1 <= all.len() < 3000
        }),
{
    lemma_steps_zero();
    lemma_steps_order(0, b);
    lemma_steps_infinite();
    lemma_steps_order(b, INFINITE as int);
    lemma_pow2_pos(1074);
    let x = steps(b);
    let (up, down) = places(x);
    lemma_places_up(x, 0);
    assert(unit_steps() * 1 == unit_steps()) by (nonlinear_arith);
    assert(x * 1 == x) by (nonlinear_arith);
    if up == 0 {
        lemma_places_down(x, 0);
    }
    lemma_shortest_bound(b, up, down, 1);
    let k = shortest(b, up, down, 1);
    lemma_decimal_len(chosen(b, up, down, k));
    let whole = unit_steps() * pow10(up);
    lemma_pow10_pos(up);
    lemma_pow10_pos(k);
    lemma_pow10_pos(down);
    lemma_pow10_adds(down, k);
    assert(x * pow10(down) < whole) by {
        if up > 0 {
            assert(pow10(0) == 1);
        } else {
            assert(pow10(0) == 1);
        }
    }
    assert(whole > 0);
    assert(x * pow10(down + k) < pow10(k) * whole) by (nonlinear_arith)
        requires
            pow10(down + k) == pow10(down) * pow10(k),
            x * pow10(down) < whole,
            pow10(k) >= 1,
    ;
    let s = cut(x, up, down, k);
    vstd::arithmetic::div_mod::lemma_fundamental_div_mod((x * pow10(down + k)) as int, whole as int);
    assert(s < pow10(k)) by (nonlinear_arith)
        requires
            x * pow10(down + k) == whole * s + (x * pow10(down + k)) % whole,
            (x * pow10(down + k)) % whole >= 0,
            x * pow10(down + k) < pow10(k) * whole,
            whole > 0,
    ;
    assert(chosen(b, up, down, k) <= s + 1);
    assert(pow10(k + 1) == 10 * pow10(k));
    lemma_decimal_short(chosen(b, up, down, k), k + 1);
}

pub(crate) proof fn lemma_places_up(x: nat, u: nat)
    requires
        x < pow2(2098),
        u <= 1024,
    ensures
        u <= places_up(x, u) <= 1024,
        x < unit_steps() * pow10(places_up(x, u)),
    decreases 1025 - u,
{
    lemma_pow2_pos(1074);
    lemma_pow10_pos(u);
    if x >= unit_steps() * pow10(u) {
        lemma_places_up_bound(x, u);
        lemma_places_up(x, u + 1);
    }
}

pub(crate) proof fn lemma_places_down(x: nat, d: nat)
    requires
        x >= 1,
        x * pow10(d) < unit_steps(),
    ensures
        places_down(x, d) < 1074,
        x * pow10(places_down(x, d)) < unit_steps(),
    decreases 1074 - d,
{
    lemma_pow10_pos(d);
    lemma_places_down_bound(x, d);
    if x * pow10(d + 1) < unit_steps() {
        lemma_places_down(x, d + 1);
    }
}

/// The exponent that stands at `at`: its sign and its digits, which are none where
/// no exponent stands.
pub open spec fn exponent_at(s: Seq<char>, at: int) -> (bool, Seq<char>) {
    let k = if sign_at(s, at + 1) {
        at + 2
    } else {
        at + 1
    };
    let end = digits_end(s, k);
    if (char_at(s, at, 'e') || char_at(s, at, 'E')) && end > k {
        (char_at(s, at + 1, '-'), s.subrange(k, end))
    } else {
        (false, Seq::empty())
    }
}

/// The number that `parseFloat` reads at the start of a text: a sign or none, then
/// `Infinity`, or digits with a fraction and an exponent as far as they go.
pub open spec fn float_prefix(s: Seq<char>) -> Option<JsNumber> {
    let negative = char_at(s, 0, '-');
    let start = if sign_at(s, 0) {
        1int
    } else {
        0
    };
    let whole_end = digits_end(s, start);
    if at_pos(s, "Infinity"@, start) {
        Some(JsNumber::of(negative, INFINITE as int))
    } else if whole_end == start && !(char_at(s, start, '.') && digit_at(s, start + 1)) {
        None
    } else {
        let pointed = char_at(s, whole_end, '.');
        let end = if pointed {
            digits_end(s, whole_end + 1)
        } else {
            whole_end
        };
        let fraction = if pointed {
            s.subrange(whole_end + 1, end)
        } else {
            Seq::empty()
        };
        let (exponent_negative, exponent) = exponent_at(s, end);
        Some(
            decimal_number(
                negative,
                s.subrange(start, whole_end),
                fraction,
                exponent_negative,
                exponent,
            ),
        )
    }
}

/// Reads the number at the start of a text as `parseFloat` does.
pub fn parse_float_prefix(text: &str) -> (r: Option<JsNumber>)
    ensures
        r == float_prefix(text@),
{
    let s = chars_of(text);
    let n: usize = char_count(&s);
    let negative = has_char(&s, 0, '-');
    let start: usize = if has_sign(&s, 0) {
        1
    } else {
        0
    };
    let infinity = chars_of("Infinity");
    let whole_end: usize = skip_digits(&s, start);
    if stands_at(&s, &infinity, start) {
        return Some(JsNumber::make(negative, INFINITE));
    }
    if whole_end == start && !(has_char(&s, start, '.') && has_digit(&s, start + 1)) {
        return None;
    }
    let pointed = has_char(&s, whole_end, '.');
    let end: usize = if pointed {
        skip_digits(&s, whole_end + 1)
    } else {
        whole_end
    };
    let fraction_at: usize = if pointed {
        whole_end + 1
    } else {
        whole_end
    };
    let has_e = has_char(&s, end, 'e') || has_char(&s, end, 'E');
    let mut exponent_negative = false;
    let mut exponent_at_pos: usize = end;
    let mut exponent_end: usize = end;
    if has_e {
        let k: usize = if has_sign(&s, end + 1) {
            end + 2
        } else {
            end + 1
        };
        let stop: usize = skip_digits(&s, k);
        if stop > k {
            exponent_negative = has_char(&s, end + 1, '-');
            exponent_at_pos = k;
            exponent_end = stop;
        }
    }
    proof {
        assert(s@.subrange(end as int, end as int) =~= Seq::<char>::empty());
        let whole = s@.subrange(start as int, whole_end as int);
        let frac = s@.subrange(fraction_at as int, end as int);
        let expo = s@.subrange(exponent_at_pos as int, exponent_end as int);
        assert forall|i: int| 0 <= i < whole.len() implies digit(#[trigger] whole[i]) by {
            assert(digit(s@[start + i]));
        }
        assert forall|i: int| 0 <= i < frac.len() implies digit(#[trigger] frac[i]) by {
            assert(digit(s@[fraction_at + i]));
        }
        assert forall|i: int| 0 <= i < expo.len() implies digit(#[trigger] expo[i]) by {
            assert(digit(s@[exponent_at_pos + i]));
        }
        assert(exponent_at(s@, end as int) == (exponent_negative, expo));
    }
    Some(
        read_decimal(
            negative,
            &s[start..whole_end],
            &s[fraction_at..end],
            exponent_negative,
            &s[exponent_at_pos..exponent_end],
        ),
    )
}

impl JsNumber {
    /// The double nearest to a natural number.
    pub open spec fn natural(n: nat) -> JsNumber {
        JsNumber::of(false, rounded(n, 1))
    }

    /// The double nearest to a natural number.
    pub fn from_int(n: u64) -> (r: JsNumber)
        ensures
            r == JsNumber::natural(n as nat),
    {
        JsNumber::make(false, round_ratio(&from_u64(n), &BigNat::from_u32(1)))
    }
}

} // verus!
