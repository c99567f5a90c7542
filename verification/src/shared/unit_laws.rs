//! What becomes of bare numbers and of font sizes in pixels.

use crate::number::{
    float_prefix, lemma_split, lemma_steps_infinite, lemma_steps_order, rounded, steps, unit_steps,
    JsNumber, FRACTION, INFINITE, WHOLE_FROM,
};
use crate::shared::amount_laws::{lemma_printed_unit};
use crate::shared::css_value::{dimension, Kind, NodeModel, NodeVisitor};
use crate::shared::normalize_value::{normalized, FontSize};
use crate::shared::transform_value::{
    content_like, four_places, transformed_num, TIME_PROPERTIES, UNITLESS_PROPERTIES,
};
use crate::sum_laws::lemma_close_ratio;
use crate::text::{has_prefix, listed};
use vstd::arithmetic::power2::{
    lemma2_to64, lemma_pow2_adds, lemma_pow2_pos, lemma_pow2_strictly_increases, pow2,
};
use vstd::prelude::*;

verus! {

/// Doubles from two to the 52nd on are beyond two to the 31st.
proof fn lemma_whole_from()
    ensures
        steps(WHOLE_FROM as int) > pow2(1106),
{
    let w = WHOLE_FROM as int;
    assert(w == 1075 * FRACTION as int + 0);
    lemma_split(w, 1075, 0);
    lemma_steps_infinite();
    lemma_pow2_adds(52, 1074);
    lemma_pow2_strictly_increases(1106, 1126);
    assert((FRACTION as int + 0) * pow2(1074) == pow2(52) * pow2(1074)) by (nonlinear_arith)
        requires
            FRACTION as int == pow2(52),
    ;
}

proof fn lemma_signed(negative: bool, b: int)
    requires
        0 <= b < INFINITE,
    ensures
        JsNumber::of(negative, b).finite(),
        JsNumber::of(negative, b).negative() == negative,
        JsNumber::of(negative, b).magnitude() == b,
        JsNumber::of(negative, b).signed_steps() == (if negative {
            -(steps(b) as int)
        } else {
            steps(b) as int
        }),
{
}

/// A product with ten thousand is close.
proof fn lemma_scaled(x: JsNumber)
    requires
        x.finite(),
        10000 * steps(x.magnitude()) < pow2(1103),
    ensures
        ({
            let r = x.scaled_spec(10000);
            &&& r.finite()
            &&& r.negative() == x.negative()
            &&& r.signed_steps() <= 10000 * x.signed_steps() + pow2(1054)
            &&& 10000 * x.signed_steps() <= r.signed_steps() + pow2(1054)
        }),
{
    let n = (steps(x.magnitude()) * 10000u32) as nat;
    let one = pow2(1074);
    let top = pow2(1105);
    let gap = pow2(1054);
    lemma_pow2_pos(1074);
    lemma_pow2_strictly_increases(1103, 1105);
    assert(n * one < one * top) by (nonlinear_arith)
        requires
            n < top,
            one > 0,
    ;
    lemma_close_ratio(n, one);
    let s = steps(rounded(n, one));
    assert(s <= n + gap && n <= s + gap) by (nonlinear_arith)
        requires
            one * s <= n * one + one * gap,
            n * one <= one * s + one * gap,
            one > 0,
    ;
    lemma_signed(x.negative(), rounded(n, one));
}

/// The nearest whole number is near.
proof fn lemma_nearby(x: JsNumber) -> (n: int)
    requires
        x.finite(),
        steps(x.magnitude()) < pow2(1103) + pow2(1054),
    ensures
        2 * n * unit_steps() <= 2 * x.signed_steps() + unit_steps(),
        2 * x.signed_steps() <= 2 * n * unit_steps() + unit_steps(),
        x.whole_spec().finite(),
        x.whole_spec().negative() == x.negative(),
        x.whole_spec().signed_steps() <= n * unit_steps() + pow2(1054),
        n * unit_steps() <= x.whole_spec().signed_steps() + pow2(1054),
        steps(x.whole_spec().magnitude()) < pow2(1104) + pow2(1054),
{
    lemma_pow2_pos(1074);
    lemma_pow2_pos(1054);
    lemma_whole_from();
    lemma_pow2_strictly_increases(1103, 1106);
    lemma_pow2_strictly_increases(1054, 1101);
    lemma_pow2_strictly_increases(1074, 1101);
    lemma_pow2_adds(2, 1101);
    lemma_pow2_adds(1, 1103);
    lemma_pow2_adds(1, 1104);
    lemma_pow2_strictly_increases(1104, 1106);
    lemma2_to64();
    if x.magnitude() >= WHOLE_FROM {
        if x.magnitude() > WHOLE_FROM {
            lemma_steps_order(WHOLE_FROM as int, x.magnitude());
        }
        assert(false);
    }
    let unit = unit_steps() as int;
    let v = x.signed_steps();
    let n = (2 * v + unit) / (2 * unit);
    vstd::arithmetic::div_mod::lemma_fundamental_div_mod(2 * v + unit, 2 * unit);
    vstd::arithmetic::div_mod::lemma_mod_bound(2 * v + unit, 2 * unit);
    assert((2 * unit) * n == 2 * n * unit) by (nonlinear_arith);
    let m: nat = (if n < 0 {
        -n
    } else {
        n
    }) as nat;
    assert(x.negative() ==> n <= 0) by {
        if x.negative() && n >= 1 {
            assert(2 * n * unit >= 2 * unit) by (nonlinear_arith)
                requires
                    n >= 1,
                    unit > 0,
            ;
        }
    }
    assert(!x.negative() ==> n >= 0) by {
        if !x.negative() && n <= -1 {
            assert(2 * n * unit <= -2 * unit) by (nonlinear_arith)
                requires
                    n <= -1,
                    unit > 0,
            ;
        }
    }
    assert(m * unit == (if n < 0 {
        -(n * unit)
    } else {
        n * unit
    })) by (nonlinear_arith)
        requires
            m == (if n < 0 {
                -n
            } else {
                n
            }),
    ;
    assert(2 * n * unit == 2 * (n * unit)) by (nonlinear_arith);
    assert(m * unit < pow2(1104));
    lemma_whole_close(m);
    lemma_signed(x.negative(), rounded(m, 1));
    n
}

/// A whole number below two to the 31st is close to the double nearest to it.
proof fn lemma_whole_close(m: nat)
    requires
        m * unit_steps() < pow2(1105),
    ensures
        ({
            let b = rounded(m, 1);
            &&& 0 <= b < INFINITE
            &&& steps(b) <= m * unit_steps() + pow2(1054)
            &&& m * unit_steps() <= steps(b) + pow2(1054)
        }),
{
    lemma_close_ratio(m, 1);
}

/// A quotient is close.
proof fn lemma_over(x: JsNumber, k: u32)
    requires
        x.finite(),
        k > 0,
        steps(x.magnitude()) < k * pow2(1105),
    ensures
        ({
            let r = x.over_spec(k);
            &&& r.finite()
            &&& r.negative() == x.negative()
            &&& k * r.signed_steps() <= x.signed_steps() + k * pow2(1054)
            &&& x.signed_steps() <= k * r.signed_steps() + k * pow2(1054)
        }),
{
    let n = steps(x.magnitude());
    let one = pow2(1074) as int;
    let top = pow2(1105) as int;
    let gap = pow2(1054) as int;
    let d = (k * pow2(1074)) as nat;
    lemma_pow2_pos(1074);
    assert(d > 0 && n * one < d * top) by (nonlinear_arith)
        requires
            d == k * one,
            n < k * top,
            one > 0,
            k > 0,
    ;
    lemma_close_ratio(n, d);
    let s = steps(rounded(n, d)) as int;
    assert(k * s <= n + k * gap && n <= k * s + k * gap) by (nonlinear_arith)
        requires
            d == k * one,
            d * s <= n * one + d * gap,
            n * one <= d * s + d * gap,
            one > 0,
    ;
    lemma_signed(x.negative(), rounded(n, d));
    assert(k * (-s) == -(k * s)) by (nonlinear_arith);
}

/// A number below two to the 15th keeps four places behind the point: it is off by no more than
/// half of the fourth and what doubles are off, and so near to a whole number of those.
pub proof fn numbers_keep_four_places(x: JsNumber)
    requires
        x.finite(),
        10000 * steps(x.magnitude()) < pow2(1103),
    ensures
        ({
            let r = four_places(x);
            let d = 10000 * (r.signed_steps() - x.signed_steps());
            &&& r.finite()
            &&& 100 * d <= 51 * unit_steps()
            &&& -100 * d <= 51 * unit_steps()
            &&& exists|n: int|
                {
                    &&& 100 * (10000 * r.signed_steps() - #[trigger] (n * unit_steps()))
                        <= unit_steps()
                    &&& -100 * (10000 * r.signed_steps() - n * unit_steps()) <= unit_steps()
                }
        }),
{
    let a = x.scaled_spec(10000);
    lemma_scaled(x);
    lemma_pow2_pos(1054);
    let n = lemma_nearby(a);
    let w = a.whole_spec();
    let top = pow2(1105) as int;
    lemma2_to64();
    lemma_pow2_adds(1, 1104);
    lemma_pow2_strictly_increases(1054, 1104);
    assert(steps(w.magnitude()) < 10000 * top);
    lemma_over(w, 10000);
    let r = w.over_spec(10000);
    assert(r == four_places(x));
    lemma_pow2_adds(20, 1054);
    let gap = pow2(1054) as int;
    assert(pow2(20) == 1048576);
    assert(unit_steps() == 1048576 * gap);
    assert(2 * n * unit_steps() == 2 * (n * unit_steps())) by (nonlinear_arith);
}

/// A font size in pixels becomes sixteenths of it in rems.
pub proof fn pixels_become_rems(n: NodeModel, number: Seq<char>, x: JsNumber)
    requires
        n.kind == Kind::Word,
        dimension(n.value) == Some((number, "px"@)),
        float_prefix(number) == Some(x),
        x.finite(),
        steps(x.magnitude()) < pow2(1105),
        x.over_spec(16).magnitude() == 0 ==> !x.negative(),
    ensures
        ({
            let e = FontSize.edited(n);
            let y = float_prefix(e.value)->0;
            &&& e == (NodeModel { value: e.value, ..n })
            &&& dimension(e.value) matches Some((_, u)) && u == "rem"@
            &&& float_prefix(e.value) is Some
            &&& 16 * y.signed_steps() <= x.signed_steps() + pow2(1058)
            &&& x.signed_steps() <= 16 * y.signed_steps() + pow2(1058)
        }),
{
    let y = x.over_spec(16);
    lemma_pow2_pos(1105);
    lemma_over(x, 16);
    lemma2_to64();
    lemma_pow2_adds(4, 1054);
    reveal_strlit("rem");
    assert("rem"@[0] == 'r');
    lemma_printed_unit(y, "rem"@);
}

/// Sizes in other units than pixels stay, and so does what is no size.
pub proof fn other_font_sizes_stay(n: NodeModel)
    requires
        n.kind != Kind::Word || dimension(n.value) is None || (dimension(n.value)->0).1 != "px"@,
    ensures
        FontSize.edited(n) == n,
{
}

/// A bare number stands in milliseconds for a time, without a unit for a count or a custom
/// property, and in pixels for everything else.
pub proof fn numbers_carry_their_unit(key: Seq<char>, x: JsNumber, rem: bool)
    requires
        !content_like(key),
    ensures
        ({
            let number = four_places(x).text_spec();
            transformed_num(key, x, rem) == normalized(
                if has_prefix(key, "--"@) || listed(key, UNITLESS_PROPERTIES@) {
                    number
                } else if listed(key, TIME_PROPERTIES@) {
                    number + "ms"@
                } else {
                    number + "px"@
                },
                key,
                rem,
            )
        }),
{
    let number = four_places(x).text_spec();
    reveal_strlit("");
    assert(number + ""@ =~= number);
}

} // verus!
