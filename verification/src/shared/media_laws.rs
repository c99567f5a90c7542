//! What media queries mean on screens, and that their one form means the same.

use crate::number::{lemma_split, lemma_steps_infinite, unit_steps, JsNumber, FRACTION, INFINITE};
use crate::shared::media_normal::{
    always, as_one, bound_of, bounds, bounds_merged, branch, denied, denied_alone, denies_all,
    denies_two, depth_within, excluded, first_denial, first_unit, flat_upto, just_above, just_below,
    lemma_denied_size, lemma_normal_within, lemma_within_mono, lemma_within_size, lower_upto,
    max_key, mergeable, merged, min_key, never, normal, normalized_rule, rule_size, rules_size,
    side_rules, units_differ, upper_upto, EPSILON, MINUS_EPSILON, MINUS_INFINITY, PLUS_INFINITY,
};
use crate::shared::media_query::{
    denials, earlier_siblings_give_way, giving_way, holds, last_wins, narrowed, queries_read,
    query_read, query_text, FeatureModel, MediaModel,
};
use crate::sum_laws::sums_are_close;
use vstd::arithmetic::power2::{
    lemma2_to64, lemma2_to64_rest, lemma_pow2_adds, lemma_pow2_pos, lemma_pow2_strictly_increases,
    lemma_pow2_unfold, pow2,
};
use vstd::prelude::*;

verus! {

/// The sizes of a screen, its width and its height, in each unit, as multiples of the least
/// positive double.
pub type Sizes = spec_fn(bool, Seq<char>) -> int;

/// Which features hold on a screen: sizes decide those about its width and its height, every
/// screen is one of `all`, and `other` decides the rest.
pub open spec fn on_screen(
    size: Sizes,
    other: spec_fn(MediaModel) -> bool,
) -> spec_fn(MediaModel) -> bool {
    |m: MediaModel|
        match m {
            MediaModel::Pair(key, FeatureModel::Length(v, unit)) => if key == "min-width"@ {
                v.signed_steps() <= size(true, unit)
            } else if key == "max-width"@ {
                size(true, unit) <= v.signed_steps()
            } else if key == "min-height"@ {
                v.signed_steps() <= size(false, unit)
            } else if key == "max-height"@ {
                size(false, unit) <= v.signed_steps()
            } else {
                other(m)
            },
            MediaModel::Keyword(key, not, _) => if key == "all"@ {
                !not
            } else {
                other(m)
            },
            _ => other(m),
        }
}

/// Whether a feature is about a size, and whether that is the width.
pub open spec fn sized(key: Seq<char>) -> Option<bool> {
    if key == "min-width"@ || key == "max-width"@ {
        Some(true)
    } else if key == "min-height"@ || key == "max-height"@ {
        Some(false)
    } else {
        None
    }
}

/// Whether a length is a usual one, and a size at least `n` ninetieths of a unit from it.
pub open spec fn apart_from(v: JsNumber, size: int, n: nat) -> bool {
    let d = v.signed_steps() - size;
    &&& !v.nan()
    &&& v.signed_steps() + n * unit_steps() < pow2(1104)
    &&& -(v.signed_steps()) + n * unit_steps() < pow2(1104)
    &&& 90 * d >= n * unit_steps() || -90 * d >= n * unit_steps()
}

/// Whether the sizes of a screen are at least `n` ninetieths of a unit from every length
/// that a condition holds about them.
pub open spec fn off_edges(m: MediaModel, size: Sizes, n: nat) -> bool
    decreases m,
{
    match m {
        MediaModel::Pair(key, FeatureModel::Length(v, unit)) => match sized(key) {
            Some(width) => apart_from(v, size(width, unit), n),
            None => true,
        },
        MediaModel::Not(inner) => off_edges(*inner, size, n),
        MediaModel::And(rules) => forall|i: int|
            0 <= i < rules.len() ==> off_edges(#[trigger] rules[i], size, n),
        MediaModel::Or(rules) => forall|i: int|
            0 <= i < rules.len() ==> off_edges(#[trigger] rules[i], size, n),
        _ => true,
    }
}

/// Whether conditions that must all hold are never none.
pub open spec fn solid(m: MediaModel) -> bool
    decreases m,
{
    match m {
        MediaModel::Not(inner) => solid(*inner),
        MediaModel::And(rules) => rules.len() > 0 && forall|i: int|
            0 <= i < rules.len() ==> solid(#[trigger] rules[i]),
        MediaModel::Or(rules) => forall|i: int|
            0 <= i < rules.len() ==> solid(#[trigger] rules[i]),
        _ => true,
    }
}

/// Whether screens have sizes.
pub open spec fn real_sizes(size: Sizes) -> bool {
    forall|width: bool, unit: Seq<char>|
        -(pow2(2098) as int) < #[trigger] size(width, unit) < pow2(2098)
}

spec fn all_off(rules: Seq<MediaModel>, size: Sizes, n: nat) -> bool {
    forall|i: int| 0 <= i < rules.len() ==> off_edges(#[trigger] rules[i], size, n)
}

spec fn all_solid(rules: Seq<MediaModel>) -> bool {
    forall|i: int| 0 <= i < rules.len() ==> solid(#[trigger] rules[i])
}

spec fn all_hold(rules: Seq<MediaModel>, truth: spec_fn(MediaModel) -> bool) -> bool {
    forall|i: int| 0 <= i < rules.len() ==> holds(#[trigger] rules[i], truth)
}

spec fn any_holds(rules: Seq<MediaModel>, truth: spec_fn(MediaModel) -> bool) -> bool {
    exists|i: int| 0 <= i < rules.len() && holds(#[trigger] rules[i], truth)
}

proof fn lemma_keys()
    ensures
        "min-width"@ != "max-width"@,
        "min-width"@ != "min-height"@,
        "min-width"@ != "max-height"@,
        "max-width"@ != "min-height"@,
        "max-width"@ != "max-height"@,
        "min-height"@ != "max-height"@,
{
    reveal_strlit("min-width");
    reveal_strlit("max-width");
    reveal_strlit("min-height");
    reveal_strlit("max-height");
    assert("min-width"@[1] == 'i' && "max-width"@[1] == 'a');
    assert("min-height"@[1] == 'i' && "max-height"@[1] == 'a');
    assert("min-width"@.len() == 9 && "max-width"@.len() == 9);
    assert("min-height"@.len() == 10 && "max-height"@.len() == 10);
}

proof fn lemma_hundredth()
    ensures
        ({
            let e = (JsNumber { bits: EPSILON }).signed_steps();
            &&& 90 * (e + pow2(1054)) <= unit_steps()
            &&& 110 * (e - pow2(1054)) >= unit_steps()
            &&& e > pow2(1054)
            &&& (JsNumber { bits: MINUS_EPSILON }).signed_steps() == -e
            &&& (JsNumber { bits: EPSILON }).finite()
            &&& (JsNumber { bits: MINUS_EPSILON }).finite()
            &&& e < pow2(1074)
        }),
{
    let q = pow2(1015) as int;
    let m: int = 5764607523034235;
    lemma_split(EPSILON as int, 1016, EPSILON as int - 1016 * FRACTION as int);
    assert((JsNumber { bits: EPSILON }).signed_steps() == m * q);
    lemma2_to64();
    lemma2_to64_rest();
    lemma_pow2_adds(39, 1015);
    lemma_pow2_adds(59, 1015);
    lemma_pow2_pos(1015);
    let a = pow2(39) as int;
    let b = pow2(59) as int;
    assert(a == 549755813888 && b == 576460752303423488);
    assert(90 * (m * q + a * q) <= b * q && 110 * (m * q - a * q) >= b * q && m * q > a * q && m * q
        < b * q) by (nonlinear_arith)
        requires
            a == 549755813888,
            b == 576460752303423488,
            m == 5764607523034235,
            q > 0,
    ;
}

/// A bound that excludes another is a hundredth away from it: more than a part in a hundred
/// and ten, and less than one in ninety.
pub proof fn edges_are_a_hundredth(v: JsNumber)
    requires
        v.finite(),
        -(pow2(1104) as int) < v.signed_steps() < pow2(1104),
    ensures
        110 * (just_above(v).signed_steps() - v.signed_steps()) >= unit_steps(),
        90 * (just_above(v).signed_steps() - v.signed_steps()) <= unit_steps(),
        110 * (v.signed_steps() - just_below(v).signed_steps()) >= unit_steps(),
        90 * (v.signed_steps() - just_below(v).signed_steps()) <= unit_steps(),
        just_above(v).finite(),
        just_below(v).finite(),
{
    lemma_hundredth();
    lemma_pow2_strictly_increases(1074, 1104);
    lemma_pow2_unfold(1105);
    sums_are_close(v, JsNumber { bits: EPSILON });
    sums_are_close(v, JsNumber { bits: MINUS_EPSILON });
}

proof fn lemma_usual(v: JsNumber, size: int, n: nat)
    requires
        apart_from(v, size, n),
    ensures
        v.finite(),
        -(pow2(1104) as int) < v.signed_steps() < pow2(1104),
{
    lemma_pow2_pos(1074);
    assert(n * unit_steps() >= 0) by (nonlinear_arith);
    lemma_steps_infinite();
    lemma_pow2_strictly_increases(1104, 2098);
    if !v.finite() {
        assert(v.magnitude() == INFINITE);
    }
}

pub(crate) proof fn lemma_shifted(v: JsNumber, size: int, n: nat)
    requires
        apart_from(v, size, n + 1),
    ensures
        apart_from(just_above(v), size, n),
        apart_from(just_below(v), size, n),
        apart_from(v, size, n),
        v.signed_steps() < size <==> just_above(v).signed_steps() <= size,
        size < v.signed_steps() <==> size <= just_below(v).signed_steps(),
        size != v.signed_steps(),
{
    lemma_usual(v, size, n + 1);
    edges_are_a_hundredth(v);
    lemma_pow2_pos(1074);
    let u = unit_steps();
    assert((n + 1) * u == n * u + u) by (nonlinear_arith);
    assert(n * u >= 0) by (nonlinear_arith)
        requires
            u >= 0,
    ;
}

proof fn lemma_off_less(m: MediaModel, size: Sizes, n: nat, k: nat)
    requires
        off_edges(m, size, n),
        k <= n,
    ensures
        off_edges(m, size, k),
    decreases m,
{
    match m {
        MediaModel::Pair(key, FeatureModel::Length(v, unit)) => {
            let u = unit_steps();
            assert(k * u <= n * u) by (nonlinear_arith)
                requires
                    k <= n,
                    u >= 0,
            ;
        },
        MediaModel::Not(inner) => lemma_off_less(*inner, size, n, k),
        MediaModel::And(rules) => {
            assert forall|i: int| 0 <= i < rules.len() implies off_edges(
                #[trigger] rules[i],
                size,
                k,
            ) by {
                lemma_off_less(rules[i], size, n, k);
            }
        },
        MediaModel::Or(rules) => {
            assert forall|i: int| 0 <= i < rules.len() implies off_edges(
                #[trigger] rules[i],
                size,
                k,
            ) by {
                lemma_off_less(rules[i], size, n, k);
            }
        },
        _ => {},
    }
}

proof fn lemma_infinities()
    ensures
        (JsNumber { bits: PLUS_INFINITY }).signed_steps() == pow2(2098),
        (JsNumber { bits: MINUS_INFINITY }).signed_steps() == -(pow2(2098) as int),
        !(JsNumber { bits: PLUS_INFINITY }).nan(),
        !(JsNumber { bits: MINUS_INFINITY }).nan(),
{
    lemma_steps_infinite();
}

/// A bound that was read off a condition means what the condition does, on screens that are
/// off its edge: it is one of the dimension that the condition names.
proof fn lemma_bound(m: MediaModel, size: Sizes, other: spec_fn(MediaModel) -> bool, n: nat)
    requires
        bound_of(m) is Some,
        off_edges(m, size, n + 1),
        real_sizes(size),
    ensures
        ({
            let b = bound_of(m)->0;
            let s = size(b.width, b.unit);
            &&& holds(m, on_screen(size, other)) <==> b.lower.signed_steps() <= s
                <= b.upper.signed_steps()
            &&& !b.lower.nan()
            &&& !b.upper.nan()
            &&& b.lower == (JsNumber { bits: MINUS_INFINITY }) || apart_from(b.lower, s, n)
            &&& b.upper == (JsNumber { bits: PLUS_INFINITY }) || apart_from(b.upper, s, n)
        }),
{
    lemma_keys();
    lemma_infinities();
    let b = bound_of(m)->0;
    let s = size(b.width, b.unit);
    match m {
        MediaModel::Pair(key, FeatureModel::Length(v, unit)) => {
            lemma_shifted(v, s, n);
        },
        MediaModel::Not(inner) => match *inner {
            MediaModel::Pair(key, FeatureModel::Length(v, unit)) => {
                assert(off_edges(*inner, size, n + 1));
                lemma_shifted(v, s, n);
                assert(holds(m, on_screen(size, other)) == !holds(*inner, on_screen(size, other)));
            },
            _ => {},
        },
        _ => {},
    }
}

proof fn lemma_sides(
    rules: Seq<MediaModel>,
    width: bool,
    unit: Seq<char>,
    size: Sizes,
    n: nat,
    k: int,
)
    requires
        0 <= k <= rules.len(),
        all_off(rules, size, n + 1),
        real_sizes(size),
        forall|i: int| 0 <= i < k && bounds(#[trigger] rules[i], width) ==> bound_of(
            rules[i],
        )->0.unit == unit,
    ensures
        ({
            let s = size(width, unit);
            let lower = lower_upto(rules, width, k);
            let upper = upper_upto(rules, width, k);
            &&& !lower.nan()
            &&& !upper.nan()
            &&& lower.signed_steps() <= s <==> forall|i: int|
                0 <= i < k && bounds(#[trigger] rules[i], width) ==> bound_of(
                    rules[i],
                )->0.lower.signed_steps() <= s
            &&& s <= upper.signed_steps() <==> forall|i: int|
                0 <= i < k && bounds(#[trigger] rules[i], width) ==> s <= bound_of(
                    rules[i],
                )->0.upper.signed_steps()
            &&& lower == (JsNumber { bits: MINUS_INFINITY }) || apart_from(lower, s, n)
            &&& upper == (JsNumber { bits: PLUS_INFINITY }) || apart_from(upper, s, n)
        }),
    decreases k,
{
    lemma_infinities();
    let s = size(width, unit);
    if k > 0 {
        lemma_sides(rules, width, unit, size, n, k - 1);
        assert(off_edges(rules[k - 1], size, n + 1));
        if bounds(rules[k - 1], width) {
            lemma_bound(rules[k - 1], size, |m: MediaModel| true, n);
        }
        let lower = lower_upto(rules, width, k);
        let upper = upper_upto(rules, width, k);
        if lower.signed_steps() <= s {
            assert forall|i: int| 0 <= i < k && bounds(#[trigger] rules[i], width) implies bound_of(
                rules[i],
            )->0.lower.signed_steps() <= s by {
                if i < k - 1 {
                    assert(lower_upto(rules, width, k - 1).signed_steps() <= s);
                }
            }
        }
        if s <= upper.signed_steps() {
            assert forall|i: int| 0 <= i < k && bounds(#[trigger] rules[i], width) implies s
                <= bound_of(rules[i])->0.upper.signed_steps() by {
                if i < k - 1 {
                    assert(s <= upper_upto(rules, width, k - 1).signed_steps());
                }
            }
        }
    }
}

/// Whether every bound of a dimension is met.
spec fn side_met(rules: Seq<MediaModel>, width: bool, size: Sizes) -> bool {
    forall|i: int|
        0 <= i < rules.len() && bounds(#[trigger] rules[i], width) ==> bound_of(
            rules[i],
        )->0.lower.signed_steps() <= size(width, bound_of(rules[i])->0.unit) <= bound_of(
            rules[i],
        )->0.upper.signed_steps()
}

proof fn lemma_first_unit(rules: Seq<MediaModel>, width: bool, i: int)
    requires
        0 <= i <= rules.len(),
    ensures
        first_unit(rules, width, i) is None <==> forall|j: int|
            i <= j < rules.len() ==> !bounds(#[trigger] rules[j], width),
    decreases rules.len() - i,
{
    if i < rules.len() {
        lemma_first_unit(rules, width, i + 1);
    }
}

proof fn lemma_side(
    rules: Seq<MediaModel>,
    width: bool,
    size: Sizes,
    other: spec_fn(MediaModel) -> bool,
    n: nat,
)
    requires
        all_off(rules, size, n + 1),
        real_sizes(size),
        !units_differ(rules, width),
    ensures
        all_hold(side_rules(rules, width), on_screen(size, other)) <==> side_met(
            rules,
            width,
            size,
        ),
        all_off(side_rules(rules, width), size, n),
        all_solid(side_rules(rules, width)),
        excluded(rules, width) ==> !side_met(rules, width, size),
{
    let truth = on_screen(size, other);
    let out = side_rules(rules, width);
    lemma_first_unit(rules, width, 0);
    lemma_infinities();
    lemma_keys();
    match first_unit(rules, width, 0) {
        None => {},
        Some(unit) => {
            assert forall|i: int| 0 <= i < rules.len() && bounds(
                #[trigger] rules[i],
                width,
            ) implies bound_of(rules[i])->0.unit == unit by {}
            let k = rules.len() as int;
            lemma_sides(rules, width, unit, size, n, k);
            let s = size(width, unit);
            let lower = lower_upto(rules, width, k);
            let upper = upper_upto(rules, width, k);
            let low = MediaModel::Pair(min_key(width), FeatureModel::Length(lower, unit));
            let high = MediaModel::Pair(max_key(width), FeatureModel::Length(upper, unit));
            assert(holds(low, truth) == (lower.signed_steps() <= s));
            assert(holds(high, truth) == (s <= upper.signed_steps()));
            assert(all_hold(out, truth) == (lower.signed_steps() <= s <= upper.signed_steps())) by {
                if all_hold(out, truth) {
                    if !lower.same(JsNumber { bits: MINUS_INFINITY }) {
                        assert(out[0] == low);
                        assert(holds(out[0], truth));
                    }
                    if !upper.same(JsNumber { bits: PLUS_INFINITY }) {
                        assert(out[out.len() - 1] == high);
                        assert(holds(out[out.len() - 1], truth));
                    }
                }
            }
            assert(side_met(rules, width, size) == (lower.signed_steps() <= s
                <= upper.signed_steps())) by {
                if side_met(rules, width, size) {
                    assert forall|i: int| 0 <= i < k && bounds(
                        #[trigger] rules[i],
                        width,
                    ) implies bound_of(rules[i])->0.lower.signed_steps() <= s && s <= bound_of(
                        rules[i],
                    )->0.upper.signed_steps() by {}
                }
            }
            assert forall|i: int| 0 <= i < out.len() implies off_edges(
                #[trigger] out[i],
                size,
                n,
            ) && solid(out[i]) by {
                assert(out[i] == low || out[i] == high);
            }
        },
    }
}

proof fn lemma_two_lists(
    a: Seq<MediaModel>,
    b: Seq<MediaModel>,
    size: Sizes,
    truth: spec_fn(MediaModel) -> bool,
    n: nat,
)
    ensures
        all_hold(a + b, truth) <==> all_hold(a, truth) && all_hold(b, truth),
        any_holds(a + b, truth) <==> any_holds(a, truth) || any_holds(b, truth),
        all_off(a, size, n) && all_off(b, size, n) ==> all_off(a + b, size, n),
        all_solid(a) && all_solid(b) ==> all_solid(a + b),
{
    let c = a + b;
    if all_hold(c, truth) {
        assert forall|i: int| 0 <= i < a.len() implies holds(#[trigger] a[i], truth) by {
            assert(holds(c[i], truth));
        }
        assert forall|i: int| 0 <= i < b.len() implies holds(#[trigger] b[i], truth) by {
            assert(c[a.len() + i] == b[i]);
            assert(holds(c[a.len() + i], truth));
        }
    }
    if any_holds(a, truth) {
        let i = choose|i: int| 0 <= i < a.len() && holds(#[trigger] a[i], truth);
        assert(c[i] == a[i]);
    }
    if any_holds(b, truth) {
        let i = choose|i: int| 0 <= i < b.len() && holds(#[trigger] b[i], truth);
        assert(c[a.len() + i] == b[i]);
    }
    if any_holds(c, truth) {
        let i = choose|i: int| 0 <= i < c.len() && holds(#[trigger] c[i], truth);
        if i < a.len() {
            assert(holds(a[i], truth));
        } else {
            assert(holds(b[i - a.len()], truth));
        }
    }
    if all_off(a, size, n) && all_off(b, size, n) {
        assert forall|i: int| 0 <= i < c.len() implies off_edges(#[trigger] c[i], size, n) by {
            if i < a.len() {
                assert(off_edges(a[i], size, n));
            } else {
                assert(off_edges(b[i - a.len()], size, n));
            }
        }
    }
    if all_solid(a) && all_solid(b) {
        assert forall|i: int| 0 <= i < c.len() implies solid(#[trigger] c[i]) by {
            if i < a.len() {
                assert(solid(a[i]));
            } else {
                assert(solid(b[i - a.len()]));
            }
        }
    }
}

proof fn lemma_all_off_less(rules: Seq<MediaModel>, size: Sizes, n: nat, k: nat)
    requires
        all_off(rules, size, n),
        k <= n,
    ensures
        all_off(rules, size, k),
{
    assert forall|i: int| 0 <= i < rules.len() implies off_edges(#[trigger] rules[i], size, k) by {
        lemma_off_less(rules[i], size, n, k);
    }
}

proof fn lemma_merge_bounds(
    rules: Seq<MediaModel>,
    size: Sizes,
    other: spec_fn(MediaModel) -> bool,
    n: nat,
)
    requires
        rules.len() > 0,
        all_off(rules, size, n + 1),
        all_solid(rules),
        real_sizes(size),
    ensures
        ({
            let out = bounds_merged(rules);
            &&& all_hold(rules, on_screen(size, other)) <==> out.len() > 0 && all_hold(
                out,
                on_screen(size, other),
            )
            &&& all_off(out, size, n)
            &&& all_solid(out)
        }),
{
    let truth = on_screen(size, other);
    lemma_all_off_less(rules, size, n + 1, n);
    if mergeable(rules) {
        let w = side_rules(rules, true);
        let h = side_rules(rules, false);
        lemma_side(rules, true, size, other, n);
        lemma_side(rules, false, size, other, n);
        lemma_two_lists(w, h, size, truth, n);
        assert(all_hold(rules, truth) == (side_met(rules, true, size) && side_met(
            rules,
            false,
            size,
        ))) by {
            assert forall|i: int| 0 <= i < rules.len() implies (holds(#[trigger] rules[i], truth)
                <==> bound_of(rules[i])->0.lower.signed_steps() <= size(
                bound_of(rules[i])->0.width,
                bound_of(rules[i])->0.unit,
            ) <= bound_of(rules[i])->0.upper.signed_steps()) by {
                assert(bound_of(rules[i]) is Some);
                assert(off_edges(rules[i], size, n + 1));
                lemma_bound(rules[i], size, other, n);
            }
            if all_hold(rules, truth) {
                assert forall|i: int, width: bool|
                    #![trigger bounds(rules[i], width)]
                    0 <= i < rules.len() && bounds(rules[i], width) implies bound_of(
                    rules[i],
                )->0.lower.signed_steps() <= size(width, bound_of(rules[i])->0.unit) <= bound_of(
                    rules[i],
                )->0.upper.signed_steps() by {
                    assert(holds(rules[i], truth));
                }
            }
            if side_met(rules, true, size) && side_met(rules, false, size) {
                assert forall|i: int| 0 <= i < rules.len() implies holds(
                    #[trigger] rules[i],
                    truth,
                ) by {
                    assert(bound_of(rules[i]) is Some);
                    let width = bound_of(rules[i])->0.width;
                    assert(bounds(rules[i], width));
                    if width {
                        assert(bounds(rules[i], true));
                    } else {
                        assert(bounds(rules[i], false));
                    }
                }
            }
        }
    }
}

proof fn lemma_and(rules: Seq<MediaModel>, truth: spec_fn(MediaModel) -> bool)
    ensures
        holds(MediaModel::And(rules), truth) == all_hold(rules, truth),
        holds(MediaModel::Or(rules), truth) == any_holds(rules, truth),
{
    let m = MediaModel::And(rules);
    if all_hold(rules, truth) {
        assert forall|i: int| 0 <= i < m->And_0.len() implies holds(#[trigger] m->And_0[i], truth) by {
            assert(holds(rules[i], truth));
        }
    }
    if holds(m, truth) {
        assert forall|i: int| 0 <= i < rules.len() implies holds(#[trigger] rules[i], truth) by {
            assert(m->And_0[i] == rules[i]);
        }
    }
    let o = MediaModel::Or(rules);
    if any_holds(rules, truth) {
        let i = choose|i: int| 0 <= i < rules.len() && holds(#[trigger] rules[i], truth);
        assert(holds(o->Or_0[i], truth));
    }
    if holds(o, truth) {
        let i = choose|i: int| 0 <= i < o->Or_0.len() && holds(#[trigger] o->Or_0[i], truth);
        assert(holds(rules[i], truth));
    }
}

proof fn lemma_branch(
    rules: Seq<MediaModel>,
    size: Sizes,
    truth: spec_fn(MediaModel) -> bool,
    n: nat,
)
    requires
        all_off(rules, size, n),
        all_solid(rules),
    ensures
        any_holds(branch(rules), truth) <==> rules.len() > 0 && all_hold(rules, truth),
        all_off(branch(rules), size, n),
        all_solid(branch(rules)),
{
    let out = branch(rules);
    lemma_and(rules, truth);
    if rules.len() > 0 {
        assert(out[0] == as_one(rules));
        assert(holds(as_one(rules), truth) == all_hold(rules, truth)) by {
            if rules.len() == 1 {
                if all_hold(rules, truth) {
                    assert(holds(rules[0], truth));
                }
            }
        }
        assert(off_edges(as_one(rules), size, n) && solid(as_one(rules))) by {
            if rules.len() == 1 {
                assert(off_edges(rules[0], size, n));
                assert(solid(rules[0]));
            } else {
                let m = MediaModel::And(rules);
                assert(m->And_0 == rules);
            }
        }
        if all_hold(rules, truth) {
            assert(holds(out[0], truth));
        }
        if any_holds(out, truth) {
            let i = choose|i: int| 0 <= i < out.len() && holds(#[trigger] out[i], truth);
            assert(i == 0);
        }
    }
}

proof fn lemma_denied_alone(
    rules: Seq<MediaModel>,
    at: int,
    which: int,
    size: Sizes,
    truth: spec_fn(MediaModel) -> bool,
    n: nat,
)
    requires
        0 <= at < rules.len(),
        denies_two(rules[at]),
        which == 0 || which == 1,
        all_off(rules, size, n),
        all_solid(rules),
    ensures
        all_hold(denied_alone(rules, at, which), truth) <==> (forall|i: int|
            0 <= i < rules.len() && i != at ==> holds(#[trigger] rules[i], truth)) && !holds(
            denied(rules[at])[which],
            truth,
        ),
        all_off(denied_alone(rules, at, which), size, n),
        all_solid(denied_alone(rules, at, which)),
{
    let next = denied_alone(rules, at, which);
    let two = denied(rules[at]);
    let last = MediaModel::Not(Box::new(two[which]));
    assert(next[next.len() - 1] == last);
    assert forall|i: int| 0 <= i < next.len() - 1 implies #[trigger] next[i] == rules[if i < at {
        i
    } else {
        i + 1
    }] by {}
    assert(off_edges(rules[at], size, n) && solid(rules[at]));
    assert(rules[at] == MediaModel::Not(Box::new(MediaModel::And(two))));
    assert(off_edges(MediaModel::And(two), size, n) && solid(MediaModel::And(two)));
    assert(off_edges(two[which], size, n) && solid(two[which]));
    assert forall|i: int| 0 <= i < next.len() implies off_edges(#[trigger] next[i], size, n)
        && solid(next[i]) by {
        if i < next.len() - 1 {
            let j = if i < at {
                i
            } else {
                i + 1
            };
            assert(off_edges(rules[j], size, n) && solid(rules[j]));
        }
    }
    assert(holds(last, truth) == !holds(two[which], truth));
    if all_hold(next, truth) {
        assert(holds(next[next.len() - 1], truth));
        assert forall|i: int| 0 <= i < rules.len() && i != at implies holds(
            #[trigger] rules[i],
            truth,
        ) by {
            let j = if i < at {
                i
            } else {
                i - 1
            };
            assert(next[j] == rules[i]);
            assert(holds(next[j], truth));
        }
    }
    if (forall|i: int| 0 <= i < rules.len() && i != at ==> holds(#[trigger] rules[i], truth))
        && !holds(two[which], truth) {
        assert forall|i: int| 0 <= i < next.len() implies holds(#[trigger] next[i], truth) by {
            if i < next.len() - 1 {
                let j = if i < at {
                    i
                } else {
                    i + 1
                };
                assert(holds(rules[j], truth));
            }
        }
    }
}

proof fn lemma_merged(
    rules: Seq<MediaModel>,
    size: Sizes,
    other: spec_fn(MediaModel) -> bool,
    n: nat,
)
    requires
        rules.len() > 0,
        all_off(rules, size, n + 1),
        all_solid(rules),
        real_sizes(size),
    ensures
        ({
            let out = merged(rules);
            &&& all_hold(rules, on_screen(size, other)) <==> out.len() > 0 && all_hold(
                out,
                on_screen(size, other),
            )
            &&& all_off(out, size, n)
            &&& all_solid(out)
        }),
    decreases rules_size(rules, rules.len() as int),
{
    let truth = on_screen(size, other);
    let at = first_denial(rules, 0);
    if 0 <= at < rules.len() && denies_two(rules[at]) {
        let two = denied(rules[at]);
        let na = denied_alone(rules, at, 0);
        let nb = denied_alone(rules, at, 1);
        lemma_denied_size(rules, at, 0);
        lemma_denied_size(rules, at, 1);
        lemma_denied_alone(rules, at, 0, size, truth, n + 1);
        lemma_denied_alone(rules, at, 1, size, truth, n + 1);
        lemma_merged(na, size, other, n);
        lemma_merged(nb, size, other, n);
        let a = merged(na);
        let b = merged(nb);
        lemma_branch(a, size, truth, n);
        lemma_branch(b, size, truth, n);
        let list = branch(a) + branch(b);
        lemma_two_lists(branch(a), branch(b), size, truth, n);
        lemma_and(list, truth);
        let or = MediaModel::Or(list);
        let out = merged(rules);
        assert(out == seq![or]);
        assert(out[0] == or);
        assert(off_edges(or, size, n) && solid(or)) by {
            assert(or->Or_0 == list);
        }
        lemma_and(two, truth);
        assert(rules[at] == MediaModel::Not(Box::new(MediaModel::And(two))));
        assert(holds(rules[at], truth) == !all_hold(two, truth));
        assert(all_hold(two, truth) == (holds(two[0], truth) && holds(two[1], truth))) by {
            if holds(two[0], truth) && holds(two[1], truth) {
                assert forall|i: int| 0 <= i < two.len() implies holds(#[trigger] two[i], truth) by {
                    assert(i == 0 || i == 1);
                }
            }
        }
        if all_hold(rules, truth) {
            assert(holds(rules[at], truth));
            assert(holds(or, truth));
        }
        if all_hold(out, truth) {
            assert(holds(out[0], truth));
            assert forall|i: int| 0 <= i < rules.len() implies holds(#[trigger] rules[i], truth) by {
                assert(all_hold(na, truth) || all_hold(nb, truth));
            }
        }
    } else {
        lemma_merge_bounds(rules, size, other, n);
    }
}

/// How many ninetieths of a unit a condition may shift at its edges on the way to its one
/// form.
pub open spec fn shifts(m: MediaModel, d: nat) -> nat
    decreases d, m, 0int,
{
    match m {
        MediaModel::And(rules) => shifts_upto(rules, d, rules.len() as int) + 1,
        MediaModel::Or(rules) => shifts_upto(rules, d, rules.len() as int),
        MediaModel::Not(inner) => if d == 0 {
            0
        } else {
            let e = (d - 1) as nat;
            shifts(*inner, e) + match normal(*inner, e) {
                MediaModel::Not(twice) => shifts(*twice, e),
                _ => 0,
            }
        },
        _ => 0,
    }
}

/// How many ninetieths the first `k` conditions may shift.
pub open spec fn shifts_upto(rules: Seq<MediaModel>, d: nat, k: int) -> nat
    decreases d, rules, k,
{
    if k <= 0 || k > rules.len() {
        0
    } else {
        shifts_upto(rules, d, k - 1) + shifts(rules[k - 1], d)
    }
}

proof fn lemma_shift_item(rules: Seq<MediaModel>, d: nat, i: int, k: int)
    requires
        0 <= i < k <= rules.len(),
    ensures
        shifts(rules[i], d) <= shifts_upto(rules, d, k),
    decreases k,
{
    if i < k - 1 {
        lemma_shift_item(rules, d, i, k - 1);
    }
}

proof fn lemma_normal(
    m: MediaModel,
    d: nat,
    size: Sizes,
    other: spec_fn(MediaModel) -> bool,
    n: nat,
)
    requires
        depth_within(m, d),
        solid(m),
        off_edges(m, size, shifts(m, d) + n),
        real_sizes(size),
    ensures
        holds(normal(m, d), on_screen(size, other)) == holds(m, on_screen(size, other)),
        off_edges(normal(m, d), size, n),
        solid(normal(m, d)),
    decreases d, m, 0int,
{
    let truth = on_screen(size, other);
    match m {
        MediaModel::And(rules) => {
            let k = rules.len() as int;
            assert(all_off(rules, size, (shifts_upto(rules, d, k) + (n + 1)) as nat));
            lemma_flat(rules, d, size, other, n + 1, k);
            let flat = flat_upto(rules, d, k);
            lemma_merged(flat, size, other, n);
            let all = merged(flat);
            lemma_and(rules, truth);
            lemma_and(all, truth);
            assert(rules.take(k) =~= rules);
            if all.len() > 0 {
                let out = MediaModel::And(all);
                assert(out->And_0 == all);
                assert(off_edges(out, size, n) && solid(out));
            } else {
                assert(!holds(never(), truth));
            }
        },
        MediaModel::Or(rules) => {
            let out = normal(m, d)->Or_0;
            let k = rules.len() as int;
            assert forall|i: int| 0 <= i < rules.len() implies holds(#[trigger] out[i], truth)
                == holds(rules[i], truth) && off_edges(out[i], size, n) && solid(out[i]) by {
                assert(off_edges(rules[i], size, shifts(m, d) + n));
                lemma_shift_item(rules, d, i, k);
                lemma_off_less(rules[i], size, shifts(m, d) + n, shifts(rules[i], d) + n);
                assert(depth_within(rules[i], d) && solid(rules[i]));
                lemma_normal(rules[i], d, size, other, n);
            }
            lemma_and(rules, truth);
            lemma_and(out, truth);
            if any_holds(rules, truth) {
                let i = choose|i: int| 0 <= i < rules.len() && holds(#[trigger] rules[i], truth);
                assert(holds(out[i], truth));
            }
            if any_holds(out, truth) {
                let i = choose|i: int| 0 <= i < out.len() && holds(#[trigger] out[i], truth);
                assert(holds(rules[i], truth));
            }
            assert(normal(m, d) == MediaModel::Or(out));
        },
        MediaModel::Not(inner) => {
            let e = (d - 1) as nat;
            let operand = normal(*inner, e);
            lemma_normal_within(*inner, e);
            match operand {
                MediaModel::Not(twice) => {
                    lemma_normal(*inner, e, size, other, shifts(*twice, e) + n);
                    lemma_within_mono(*twice, (e - 1) as nat, e);
                    lemma_normal(*twice, e, size, other, n);
                    assert(holds(operand, truth) == !holds(*twice, truth));
                },
                _ => {
                    lemma_normal(*inner, e, size, other, n);
                    if denies_all(operand) {
                        assert(!holds(operand, truth));
                        assert(holds(always(), truth));
                    } else {
                        let out = MediaModel::Not(Box::new(operand));
                        assert(holds(out, truth) == !holds(operand, truth));
                    }
                },
            }
        },
        _ => {
            lemma_off_less(m, size, shifts(m, d) + n, n);
        },
    }
}

proof fn lemma_flat(
    rules: Seq<MediaModel>,
    d: nat,
    size: Sizes,
    other: spec_fn(MediaModel) -> bool,
    n: nat,
    k: int,
)
    requires
        0 <= k <= rules.len(),
        forall|i: int| 0 <= i < rules.len() ==> depth_within(#[trigger] rules[i], d),
        all_solid(rules),
        all_off(rules, size, shifts_upto(rules, d, k) + n),
        real_sizes(size),
    ensures
        all_hold(flat_upto(rules, d, k), on_screen(size, other)) <==> all_hold(
            rules.take(k),
            on_screen(size, other),
        ),
        all_off(flat_upto(rules, d, k), size, n),
        all_solid(flat_upto(rules, d, k)),
        k > 0 ==> flat_upto(rules, d, k).len() > 0,
    decreases d, rules, k,
{
    let truth = on_screen(size, other);
    if k > 0 {
        let all = shifts_upto(rules, d, k) + n;
        lemma_all_off_less(rules, size, all, shifts_upto(rules, d, k - 1) + n);
        lemma_flat(rules, d, size, other, n, k - 1);
        assert(off_edges(rules[k - 1], size, all));
        lemma_off_less(rules[k - 1], size, all, shifts(rules[k - 1], d) + n);
        assert(depth_within(rules[k - 1], d) && solid(rules[k - 1]));
        lemma_normal(rules[k - 1], d, size, other, n);
        let done = flat_upto(rules, d, k - 1);
        let item = normal(rules[k - 1], d);
        let before = rules.take(k - 1);
        let one = seq![rules[k - 1]];
        assert(rules.take(k) =~= before + one);
        lemma_two_lists(before, one, size, truth, n);
        assert(all_hold(one, truth) == holds(rules[k - 1], truth)) by {
            if all_hold(one, truth) {
                assert(holds(one[0], truth));
            }
        }
        match item {
            MediaModel::And(inner) => {
                lemma_two_lists(done, inner, size, truth, n);
                lemma_and(inner, truth);
                assert(all_off(inner, size, n) && all_solid(inner));
            },
            _ => {
                let more = seq![item];
                assert(done.push(item) =~= done + more);
                lemma_two_lists(done, more, size, truth, n);
                assert(all_hold(more, truth) == holds(item, truth)) by {
                    if all_hold(more, truth) {
                        assert(holds(more[0], truth));
                    }
                }
                assert(all_off(more, size, n) && all_solid(more));
            },
        }
    }
}

/// A condition in its one form holds on exactly the screens on which it held, but for sizes
/// within a few hundredths of a length that it names.
pub proof fn one_form_means_the_same(
    m: MediaModel,
    size: Sizes,
    other: spec_fn(MediaModel) -> bool,
)
    requires
        solid(m),
        real_sizes(size),
        off_edges(m, size, shifts(m, rule_size(m))),
    ensures
        holds(normalized_rule(m), on_screen(size, other)) == holds(m, on_screen(size, other)),
{
    lemma_within_size(m);
    lemma_normal(m, rule_size(m), size, other, 0);
}

/// How far from its edges a sibling may be off: a few hundredths for each negation.
pub open spec fn sibling_shifts(rules: Seq<MediaModel>, i: int) -> nat {
    let m = narrowed(rules[i], denials(rules, i + 1));
    shifts(m, rule_size(m))
}

/// Of sibling media queries that hold on a screen, exactly the last one still holds after
/// the rewriting: every other holds where it held and no later one does.
pub proof fn the_last_sibling_decides(
    rules: Seq<MediaModel>,
    i: int,
    size: Sizes,
    other: spec_fn(MediaModel) -> bool,
)
    requires
        0 <= i < rules.len(),
        real_sizes(size),
        forall|j: int| i <= j < rules.len() ==> solid(#[trigger] rules[j]) && off_edges(
            rules[j],
            size,
            sibling_shifts(rules, i),
        ),
    ensures
        holds(giving_way(rules, i), on_screen(size, other)) <==> holds(
            rules[i],
            on_screen(size, other),
        ) && forall|j: int|
            i < j < rules.len() ==> !holds(#[trigger] rules[j], on_screen(size, other)),
{
    let truth = on_screen(size, other);
    let n = sibling_shifts(rules, i);
    assert(solid(rules[i]) && off_edges(rules[i], size, n));
    if i + 1 < rules.len() {
        let no = denials(rules, i + 1);
        let m = narrowed(rules[i], no);
        assert forall|j: int| 0 <= j < no.len() implies solid(#[trigger] no[j]) && off_edges(
            no[j],
            size,
            n,
        ) by {
            assert(solid(rules[i + 1 + j]));
        }
        match rules[i] {
            MediaModel::Or(branches) => {
                let out = m->Or_0;
                assert forall|k: int| 0 <= k < out.len() implies solid(#[trigger] out[k])
                    && off_edges(out[k], size, n) by {
                    assert(out[k] == MediaModel::And(seq![branches[k]] + no));
                    assert(solid(branches[k]) && off_edges(branches[k], size, n));
                    lemma_narrow(branches[k], no, size, n);
                }
                assert(m == MediaModel::Or(out));
            },
            _ => {
                lemma_narrow(rules[i], no, size, n);
            },
        }
        assert(solid(m) && off_edges(m, size, n));
        one_form_means_the_same(m, size, other);
        earlier_siblings_give_way(rules, i, truth);
    }
}

/// The keys of sibling media queries are rewritten to conditions that hold exactly where the
/// sibling held and no later one does.
pub proof fn rewritten_siblings_exclude_each_other(
    keys: Seq<Seq<char>>,
    i: int,
    size: Sizes,
    other: spec_fn(MediaModel) -> bool,
)
    requires
        last_wins(keys) is Ok,
        0 <= i < keys.len(),
        real_sizes(size),
        forall|j: int|
            i <= j < keys.len() ==> solid(query_read(#[trigger] keys[j])->Ok_0) && off_edges(
                query_read(keys[j])->Ok_0,
                size,
                sibling_shifts(queries_read(keys), i),
            ),
    ensures
        last_wins(keys)->Ok_0.len() == keys.len(),
        exists|m: MediaModel|
            {
                &&& last_wins(keys)->Ok_0[i] == #[trigger] query_text(m)
                &&& holds(m, on_screen(size, other)) <==> holds(
                    query_read(keys[i])->Ok_0,
                    on_screen(size, other),
                ) && forall|j: int|
                    i < j < keys.len() ==> !holds(
                        query_read(#[trigger] keys[j])->Ok_0,
                        on_screen(size, other),
                    )
            },
{
    let rules = queries_read(keys);
    let truth = on_screen(size, other);
    assert forall|j: int| i <= j < rules.len() implies solid(#[trigger] rules[j]) && off_edges(
        rules[j],
        size,
        sibling_shifts(rules, i),
    ) by {
        assert(rules[j] == query_read(keys[j])->Ok_0);
    }
    the_last_sibling_decides(rules, i, size, other);
    let m = giving_way(rules, i);
    assert(last_wins(keys)->Ok_0[i] == query_text(m));
    if forall|j: int| i < j < keys.len() ==> !holds(query_read(#[trigger] keys[j])->Ok_0, truth) {
        assert forall|j: int| i < j < rules.len() implies !holds(#[trigger] rules[j], truth) by {
            assert(rules[j] == query_read(keys[j])->Ok_0);
        }
    }
    if forall|j: int| i < j < rules.len() ==> !holds(#[trigger] rules[j], truth) {
        assert forall|j: int| i < j < keys.len() implies !holds(
            query_read(#[trigger] keys[j])->Ok_0,
            truth,
        ) by {
            assert(!holds(rules[j], truth));
        }
    }
}

proof fn lemma_narrow(m: MediaModel, no: Seq<MediaModel>, size: Sizes, n: nat)
    requires
        solid(m),
        off_edges(m, size, n),
        all_solid(no),
        all_off(no, size, n),
    ensures
        solid(MediaModel::And(seq![m] + no)),
        off_edges(MediaModel::And(seq![m] + no), size, n),
{
    let all = seq![m] + no;
    let out = MediaModel::And(all);
    assert forall|i: int| 0 <= i < all.len() implies solid(#[trigger] all[i]) && off_edges(
        all[i],
        size,
        n,
    ) by {
        if i > 0 {
            assert(all[i] == no[i - 1]);
        }
    }
    assert(out->And_0 == all);
}

} // verus!
