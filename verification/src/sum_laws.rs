//! How far a sum of doubles is from the sum of what they stand for.

use crate::number::{
    lemma_split, lemma_steps_infinite, lemma_steps_next, nearest, rounded, steps, twice_middle,
    JsNumber, FRACTION, INFINITE,
};
use crate::number_laws::lemma_rounded_nearest;
use vstd::arithmetic::power2::{
    lemma2_to64, lemma_pow2_adds, lemma_pow2_pos, lemma_pow2_strictly_increases, lemma_pow2_unfold,
    pow2,
};
use vstd::prelude::*;

verus! {

proof fn lemma_pow2_order(a: nat, b: nat)
    requires
        a <= b,
    ensures
        pow2(a) <= pow2(b),
{
    if a < b {
        lemma_pow2_strictly_increases(a, b);
    }
}

/// Doubles below two to the 32nd are close together.
proof fn lemma_gap(b: int)
    requires
        0 <= b,
        steps(b) < pow2(1106),
    ensures
        steps(b + 1) - steps(b) <= pow2(1054),
{
    let w = FRACTION as int;
    let e = b / w;
    let f = b % w;
    vstd::arithmetic::div_mod::lemma_fundamental_div_mod(b, w);
    assert(w * e == e * w) by (nonlinear_arith);
    lemma_split(b, e, f);
    lemma_steps_infinite();
    lemma2_to64();
    lemma_pow2_order(0, 1054);
    if e > 0 {
        let p = pow2((e - 1) as nat) as int;
        lemma_pow2_pos((e - 1) as nat);
        assert((w + f) * p >= w * p) by (nonlinear_arith)
            requires
                f >= 0,
                p > 0,
        ;
        lemma_pow2_adds(52, (e - 1) as nat);
        if e - 1 > 1054 {
            lemma_pow2_order(1106, (52 + (e - 1)) as nat);
        }
        lemma_pow2_order((e - 1) as nat, 1054);
        if f + 1 < w {
            lemma_split(b + 1, e, f + 1);
            assert((w + (f + 1)) * p == (w + f) * p + p) by (nonlinear_arith);
        } else {
            assert((e + 1) * w == e * w + w) by (nonlinear_arith);
            lemma_split(b + 1, e + 1, 0);
            let q = pow2(e as nat) as int;
            lemma_pow2_unfold(e as nat);
            assert((w + 0) * q == (w + f) * p + p) by (nonlinear_arith)
                requires
                    q == 2 * p,
                    f + 1 == w,
            ;
        }
    } else {
        if f + 1 < w {
            lemma_split(b + 1, e, f + 1);
        } else {
            assert((e + 1) * w == e * w + w) by (nonlinear_arith);
            lemma_split(b + 1, e + 1, 0);
            assert((w + 0) * pow2(0) == w) by (nonlinear_arith)
                requires
                    pow2(0) == 1,
            ;
        }
    }
}

/// A ratio below two to the 31st is close to the double nearest to it.
pub(crate) proof fn lemma_close_ratio(num: nat, den: nat)
    requires
        den > 0,
        num * pow2(1074) < den * pow2(1105),
    ensures
        ({
            let b = rounded(num, den);
            &&& 0 <= b < INFINITE
            &&& den * steps(b) <= num * pow2(1074) + den * pow2(1054)
            &&& num * pow2(1074) <= den * steps(b) + den * pow2(1054)
        }),
{
    let b = rounded(num, den);
    let one = pow2(1074);
    let gap = pow2(1054);
    let t = num * pow2(1075);
    lemma_pow2_pos(1074);
    lemma_pow2_unfold(1075);
    lemma_rounded_nearest(num, den);
    assert(t == 2 * (num * one)) by (nonlinear_arith)
        requires
            t == num * pow2(1075),
            pow2(1075) == 2 * one,
    ;
    lemma_pow2_order(1054, 1105);
    lemma_pow2_unfold(1106);
    lemma_pow2_pos(1054);
    let top = pow2(1105);
    if b > 0 {
        let m = twice_middle(b - 1);
        lemma_steps_next(b - 1);
        assert(steps(b - 1) < pow2(1106)) by {
            assert(m < 2 * top) by (nonlinear_arith)
                requires
                    den * m <= 2 * (num * one),
                    num * one < den * top,
                    den > 0,
            ;
        }
        lemma_gap(b - 1);
        let s = steps(b);
        assert(den * s <= num * one + den * gap) by (nonlinear_arith)
            requires
                den * m <= 2 * (num * one),
                2 * s <= m + gap,
                den > 0,
                gap >= 0,
        ;
    } else {
        assert(steps(0) == 0);
        assert(den * 0 <= num * one + den * gap) by (nonlinear_arith);
    }
    lemma_steps_infinite();
    lemma_pow2_order(1107, 2098);
    lemma_pow2_unfold(1107);
    assert(steps(b) < pow2(1106)) by {
        let s = steps(b);
        lemma_pow2_strictly_increases(1054, 1105);
        assert(s < 2 * top) by (nonlinear_arith)
            requires
                den * s <= num * one + den * gap,
                num * one < den * top,
                gap < top,
                den > 0,
        ;
    }
    assert(b < INFINITE) by {
        if b == INFINITE {
            lemma_pow2_strictly_increases(1107, 2098);
        }
    }
    let m = twice_middle(b);
    lemma_gap(b);
    let s = steps(b);
    assert(num * one <= den * s + den * gap) by (nonlinear_arith)
        requires
            2 * (num * one) <= den * m,
            m <= 2 * s + gap,
            den > 0,
            gap >= 0,
    ;
}

/// A number below two to the 31st is close to the double nearest to it.
proof fn lemma_close(n: nat)
    requires
        n < pow2(1105),
    ensures
        ({
            let b = rounded(n, pow2(1074));
            &&& 0 <= b < INFINITE
            &&& steps(b) <= n + pow2(1054)
            &&& n <= steps(b) + pow2(1054)
        }),
{
    let den = pow2(1074);
    let b = rounded(n, den);
    let t = n * pow2(1075);
    lemma_pow2_pos(1074);
    lemma_pow2_unfold(1075);
    lemma_rounded_nearest(n, den);
    assert(t == den * (2 * n)) by (nonlinear_arith)
        requires
            t == n * pow2(1075),
            pow2(1075) == 2 * den,
    ;
    lemma_pow2_order(1054, 1105);
    lemma_pow2_unfold(1106);
    if b > 0 {
        let m = twice_middle(b - 1);
        assert(m <= 2 * n) by (nonlinear_arith)
            requires
                den * m <= den * (2 * n),
                den > 0,
        ;
        lemma_steps_next(b - 1);
        lemma_gap(b - 1);
    } else {
        lemma_pow2_pos(1054);
        assert(steps(0) == 0);
    }
    lemma_steps_infinite();
    lemma_pow2_order(1107, 2098);
    lemma_pow2_unfold(1107);
    assert(b < INFINITE) by {
        if b == INFINITE {
            lemma_pow2_strictly_increases(1107, 2098);
        }
    }
    assert(steps(b) < pow2(1106)) by {
        lemma_pow2_strictly_increases(1054, 1105);
    }
    let m = twice_middle(b);
    assert(2 * n <= m) by (nonlinear_arith)
        requires
            den * (2 * n) <= den * m,
            den > 0,
    ;
    lemma_gap(b);
}

/// A sum below two to the 31st, in either direction, is off by no more than two to the
/// power of -20.
pub proof fn sums_are_close(x: JsNumber, y: JsNumber)
    requires
        x.finite(),
        y.finite(),
        -(pow2(1105) as int) < x.signed_steps() + y.signed_steps() < pow2(1105),
    ensures
        x.plus_spec(y).finite(),
        x.plus_spec(y).signed_steps() <= x.signed_steps() + y.signed_steps() + pow2(1054),
        x.signed_steps() + y.signed_steps() <= x.plus_spec(y).signed_steps() + pow2(1054),
{
    let total = x.signed_steps() + y.signed_steps();
    lemma_pow2_pos(1054);
    if total == 0 {
        assert(steps(0) == 0);
    } else if total < 0 {
        lemma_close((-total) as nat);
    } else {
        lemma_close(total as nat);
    }
}

} // verus!
