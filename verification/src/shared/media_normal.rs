//! Media queries brought to one form: negations resolved, bounds of the same
//! dimension merged.

use crate::number::JsNumber;
use crate::shared::media_query::{
    media_models, FeatureModel, MediaModel, MediaQueryRule, MediaRuleValue,
};
use crate::text::str_eq;
use vstd::prelude::*;

verus! {

/// The bits of a hundredth: how far apart two bounds are that exclude each other.
pub const EPSILON: u64 = 0x3f84_7ae1_47ae_147b;

/// The bits of a hundredth below zero.
pub const MINUS_EPSILON: u64 = 0xbf84_7ae1_47ae_147b;

/// The bits of infinity.
pub const PLUS_INFINITY: u64 = 0x7ff0_0000_0000_0000;

/// The bits of negative infinity.
pub const MINUS_INFINITY: u64 = 0xfff0_0000_0000_0000;

/// A number a hundredth higher.
pub open spec fn just_above(x: JsNumber) -> JsNumber {
    x.plus_spec(JsNumber { bits: EPSILON })
}

/// A number a hundredth lower.
pub open spec fn just_below(x: JsNumber) -> JsNumber {
    x.plus_spec(JsNumber { bits: MINUS_EPSILON })
}

/// The bounds that a condition puts on one dimension.
#[verifier::ext_equal]
pub struct Bound {
    pub width: bool,
    pub lower: JsNumber,
    pub upper: JsNumber,
    pub unit: Seq<char>,
}

/// The name of the least size.
pub open spec fn min_key(width: bool) -> Seq<char> {
    if width {
        "min-width"@
    } else {
        "min-height"@
    }
}

/// The name of the greatest size.
pub open spec fn max_key(width: bool) -> Seq<char> {
    if width {
        "max-width"@
    } else {
        "max-height"@
    }
}

/// The bounds that a length, or its negation, puts on a dimension.
pub open spec fn length_bound(key: Seq<char>, v: JsNumber, unit: Seq<char>, negated: bool) -> Option<
    Bound,
> {
    let low = JsNumber { bits: MINUS_INFINITY };
    let high = JsNumber { bits: PLUS_INFINITY };
    if key == min_key(true) || key == min_key(false) {
        let width = key == min_key(true);
        Some(
            if negated {
                Bound { width, lower: low, upper: just_below(v), unit }
            } else {
                Bound { width, lower: v, upper: high, unit }
            },
        )
    } else if key == max_key(true) || key == max_key(false) {
        let width = key == max_key(true);
        Some(
            if negated {
                Bound { width, lower: just_above(v), upper: high, unit }
            } else {
                Bound { width, lower: low, upper: v, unit }
            },
        )
    } else {
        None
    }
}

/// The bounds that a condition puts on a dimension, if it is about one alone.
pub open spec fn bound_of(m: MediaModel) -> Option<Bound> {
    match m {
        MediaModel::Pair(key, FeatureModel::Length(v, unit)) => length_bound(key, v, unit, false),
        MediaModel::Not(inner) => match *inner {
            MediaModel::Pair(key, FeatureModel::Length(v, unit)) => length_bound(
                key,
                v,
                unit,
                true,
            ),
            _ => None,
        },
        _ => None,
    }
}

/// Whether a condition bounds the given dimension.
pub open spec fn bounds(m: MediaModel, width: bool) -> bool {
    bound_of(m) matches Some(b) && b.width == width
}

/// The unit of the first condition from `i` on that bounds the dimension.
pub open spec fn first_unit(rules: Seq<MediaModel>, width: bool, i: int) -> Option<Seq<char>>
    decreases rules.len() - i,
{
    if i < 0 || i >= rules.len() {
        None
    } else if bounds(rules[i], width) {
        Some(bound_of(rules[i])->0.unit)
    } else {
        first_unit(rules, width, i + 1)
    }
}

/// Whether the bounds of a dimension are in different units.
pub open spec fn units_differ(rules: Seq<MediaModel>, width: bool) -> bool {
    exists|i: int|
        0 <= i < rules.len() && bounds(#[trigger] rules[i], width) && Some(
            bound_of(rules[i])->0.unit,
        ) != first_unit(rules, width, 0)
}

/// The greatest lower bound of a dimension among the first `k` conditions.
pub open spec fn lower_upto(rules: Seq<MediaModel>, width: bool, k: int) -> JsNumber
    decreases k,
{
    if k <= 0 {
        JsNumber { bits: MINUS_INFINITY }
    } else {
        let done = lower_upto(rules, width, k - 1);
        if bounds(rules[k - 1], width) && done.below(bound_of(rules[k - 1])->0.lower) {
            bound_of(rules[k - 1])->0.lower
        } else {
            done
        }
    }
}

/// The least upper bound of a dimension among the first `k` conditions.
pub open spec fn upper_upto(rules: Seq<MediaModel>, width: bool, k: int) -> JsNumber
    decreases k,
{
    if k <= 0 {
        JsNumber { bits: PLUS_INFINITY }
    } else {
        let done = upper_upto(rules, width, k - 1);
        if bounds(rules[k - 1], width) && bound_of(rules[k - 1])->0.upper.below(done) {
            bound_of(rules[k - 1])->0.upper
        } else {
            done
        }
    }
}

/// The merged bounds of a dimension.
pub open spec fn side_rules(rules: Seq<MediaModel>, width: bool) -> Seq<MediaModel> {
    let lower = lower_upto(rules, width, rules.len() as int);
    let upper = upper_upto(rules, width, rules.len() as int);
    match first_unit(rules, width, 0) {
        None => Seq::empty(),
        Some(unit) => {
            let low = if lower.same(JsNumber { bits: MINUS_INFINITY }) {
                Seq::empty()
            } else {
                seq![MediaModel::Pair(min_key(width), FeatureModel::Length(lower, unit))]
            };
            if upper.same(JsNumber { bits: PLUS_INFINITY }) {
                low
            } else {
                low.push(MediaModel::Pair(max_key(width), FeatureModel::Length(upper, unit)))
            }
        },
    }
}

/// Whether no size meets the bounds of a dimension.
pub open spec fn excluded(rules: Seq<MediaModel>, width: bool) -> bool {
    first_unit(rules, width, 0) is Some && upper_upto(rules, width, rules.len() as int).below(
        lower_upto(rules, width, rules.len() as int),
    )
}

/// Whether every condition bounds a dimension, each in one unit.
pub open spec fn mergeable(rules: Seq<MediaModel>) -> bool {
    &&& forall|i: int| 0 <= i < rules.len() ==> bound_of(#[trigger] rules[i]) is Some
    &&& !units_differ(rules, true)
    &&& !units_differ(rules, false)
}

/// The conditions with the bounds of each dimension merged, where that can be done.
/// No conditions stand for what never holds.
pub open spec fn bounds_merged(rules: Seq<MediaModel>) -> Seq<MediaModel> {
    let all = side_rules(rules, true) + side_rules(rules, false);
    if !mergeable(rules) {
        rules
    } else if excluded(rules, true) || excluded(rules, false) {
        Seq::empty()
    } else if all.len() == 0 {
        rules
    } else {
        all
    }
}

/// The size of a condition.
pub open spec fn rule_size(m: MediaModel) -> nat
    decreases m, 0int,
{
    match m {
        MediaModel::Not(inner) => 1 + rule_size(*inner),
        MediaModel::And(rules) => 1 + rules_size(rules, rules.len() as int),
        MediaModel::Or(rules) => 1 + rules_size(rules, rules.len() as int),
        _ => 1,
    }
}

/// The size of the first `k` conditions.
pub open spec fn rules_size(rules: Seq<MediaModel>, k: int) -> nat
    decreases rules, k,
{
    if k <= 0 || k > rules.len() {
        0
    } else {
        rules_size(rules, k - 1) + rule_size(rules[k - 1])
    }
}

/// Whether a condition denies that two others hold together.
pub open spec fn denies_two(m: MediaModel) -> bool {
    m matches MediaModel::Not(inner) && (*inner matches MediaModel::And(two) && two.len() == 2)
}

/// The two conditions that are denied together.
pub open spec fn denied(m: MediaModel) -> Seq<MediaModel> {
    match m {
        MediaModel::Not(inner) => match *inner {
            MediaModel::And(two) => two,
            _ => Seq::empty(),
        },
        _ => Seq::empty(),
    }
}

/// The first condition from `i` on that denies two others, or the number of
/// conditions.
pub open spec fn first_denial(rules: Seq<MediaModel>, i: int) -> int
    decreases rules.len() - i,
{
    if i < 0 || i >= rules.len() {
        rules.len() as int
    } else if denies_two(rules[i]) {
        i
    } else {
        first_denial(rules, i + 1)
    }
}

/// Conditions as one.
pub open spec fn as_one(rules: Seq<MediaModel>) -> MediaModel {
    if rules.len() == 1 {
        rules[0]
    } else {
        MediaModel::And(rules)
    }
}

/// Conditions as the branch of a choice; no conditions give no branch.
pub open spec fn branch(rules: Seq<MediaModel>) -> Seq<MediaModel> {
    if rules.len() == 0 {
        Seq::empty()
    } else {
        seq![as_one(rules)]
    }
}

/// The other conditions, with one of the denied conditions denied alone.
pub open spec fn denied_alone(rules: Seq<MediaModel>, at: int, which: int) -> Seq<MediaModel> {
    rules.remove(at).push(MediaModel::Not(Box::new(denied(rules[at])[which])))
}

/// Conditions that must all hold, merged: a denial of two becomes a choice between
/// the denials of each.
pub open spec fn merged(rules: Seq<MediaModel>) -> Seq<MediaModel>
    decreases rules_size(rules, rules.len() as int),
    via merged_decreases
{
    let at = first_denial(rules, 0);
    if 0 <= at < rules.len() && denies_two(rules[at]) {
        let a = merged(denied_alone(rules, at, 0));
        let b = merged(denied_alone(rules, at, 1));
        seq![MediaModel::Or(branch(a) + branch(b))]
    } else {
        bounds_merged(rules)
    }
}

#[via_fn]
proof fn merged_decreases(rules: Seq<MediaModel>) {
    let at = first_denial(rules, 0);
    if 0 <= at < rules.len() && denies_two(rules[at]) {
        lemma_denied_size(rules, at, 0);
        lemma_denied_size(rules, at, 1);
    }
}

proof fn lemma_size_prefix(a: Seq<MediaModel>, b: Seq<MediaModel>, k: int)
    requires
        0 <= k <= a.len(),
        k <= b.len(),
        forall|i: int| 0 <= i < k ==> a[i] == b[i],
    ensures
        rules_size(a, k) == rules_size(b, k),
    decreases k,
{
    if k > 0 {
        lemma_size_prefix(a, b, k - 1);
    }
}

proof fn lemma_size_remove(rules: Seq<MediaModel>, at: int, k: int)
    requires
        0 <= at < rules.len(),
        at < k <= rules.len(),
    ensures
        rules_size(rules.remove(at), k - 1) + rule_size(rules[at]) == rules_size(rules, k),
    decreases k,
{
    let rest = rules.remove(at);
    if k - 1 == at {
        lemma_size_prefix(rest, rules, at);
    } else {
        lemma_size_remove(rules, at, k - 1);
        assert(rest[k - 2] == rules[k - 1]);
    }
}

pub(crate) proof fn lemma_denied_size(rules: Seq<MediaModel>, at: int, which: int)
    requires
        0 <= at < rules.len(),
        denies_two(rules[at]),
        which == 0 || which == 1,
    ensures
        rules_size(denied_alone(rules, at, which), rules.len() as int) < rules_size(
            rules,
            rules.len() as int,
        ),
        denied_alone(rules, at, which).len() == rules.len(),
{
    let next = denied_alone(rules, at, which);
    let rest = rules.remove(at);
    let n = rules.len() as int;
    lemma_size_remove(rules, at, n);
    lemma_size_prefix(next, rest, n - 1);
    let two = denied(rules[at]);
    reveal_with_fuel(rule_size, 4);
    reveal_with_fuel(rules_size, 4);
    assert(rule_size(rules[at]) == 2 + rules_size(two, 2));
    assert(rules_size(two, 2) == rule_size(two[0]) + rule_size(two[1]));
    assert(rule_size(two[0]) >= 1 && rule_size(two[1]) >= 1);
    assert(next[n - 1] == MediaModel::Not(Box::new(two[which])));
    assert(rule_size(next[n - 1]) == 1 + rule_size(two[which]));
    assert(rules_size(next, n) == rules_size(next, n - 1) + rule_size(next[n - 1]));
}

/// Whether negations are nested at most `d` deep.
pub open spec fn depth_within(m: MediaModel, d: nat) -> bool
    decreases m,
{
    match m {
        MediaModel::Not(inner) => d >= 1 && depth_within(*inner, (d - 1) as nat),
        MediaModel::And(rules) => forall|i: int|
            0 <= i < rules.len() ==> depth_within(#[trigger] rules[i], d),
        MediaModel::Or(rules) => forall|i: int|
            0 <= i < rules.len() ==> depth_within(#[trigger] rules[i], d),
        _ => true,
    }
}

/// Whether negations are nested at most `d` deep in each condition.
pub open spec fn all_within(rules: Seq<MediaModel>, d: nat) -> bool {
    forall|i: int| 0 <= i < rules.len() ==> depth_within(#[trigger] rules[i], d)
}

/// What never holds.
pub open spec fn never() -> MediaModel {
    MediaModel::Keyword("all"@, true, false)
}

/// What always holds.
pub open spec fn always() -> MediaModel {
    MediaModel::Keyword("all"@, false, false)
}

/// Whether a condition is a denial of everything.
pub open spec fn denies_all(m: MediaModel) -> bool {
    m matches MediaModel::Keyword(key, not, _) && not && key == "all"@
}

/// A condition in its one form, for negations nested at most `d` deep.
pub open spec fn normal(m: MediaModel, d: nat) -> MediaModel
    decreases d, m, 0int,
{
    match m {
        MediaModel::And(rules) => {
            let all = merged(flat_upto(rules, d, rules.len() as int));
            if all.len() == 0 {
                never()
            } else {
                MediaModel::And(all)
            }
        },
        MediaModel::Or(rules) => MediaModel::Or(
            Seq::new(
                rules.len(),
                |i: int|
                    if 0 <= i < rules.len() {
                        normal(rules[i], d)
                    } else {
                        arbitrary()
                    },
            ),
        ),
        MediaModel::Not(inner) => if d == 0 {
            m
        } else {
            let operand = normal(*inner, (d - 1) as nat);
            if denies_all(operand) {
                always()
            } else {
                match operand {
                    MediaModel::Not(twice) => normal(*twice, (d - 1) as nat),
                    _ => MediaModel::Not(Box::new(operand)),
                }
            }
        },
        _ => m,
    }
}

/// The first `k` conditions in their one form, where conditions that must all hold
/// stand beside the others.
pub open spec fn flat_upto(rules: Seq<MediaModel>, d: nat, k: int) -> Seq<MediaModel>
    decreases d, rules, k,
{
    if k <= 0 || k > rules.len() {
        Seq::empty()
    } else {
        let done = flat_upto(rules, d, k - 1);
        match normal(rules[k - 1], d) {
            MediaModel::And(inner) => done + inner,
            other => done.push(other),
        }
    }
}

/// A condition in its one form.
pub open spec fn normalized_rule(m: MediaModel) -> MediaModel {
    normal(m, rule_size(m))
}

pub(crate) proof fn lemma_within_mono(m: MediaModel, d: nat, e: nat)
    requires
        depth_within(m, d),
        d <= e,
    ensures
        depth_within(m, e),
    decreases m,
{
    match m {
        MediaModel::Not(inner) => lemma_within_mono(*inner, (d - 1) as nat, (e - 1) as nat),
        MediaModel::And(rules) => {
            assert forall|i: int| 0 <= i < rules.len() implies depth_within(
                #[trigger] rules[i],
                e,
            ) by {
                lemma_within_mono(rules[i], d, e);
            }
        },
        MediaModel::Or(rules) => {
            assert forall|i: int| 0 <= i < rules.len() implies depth_within(
                #[trigger] rules[i],
                e,
            ) by {
                lemma_within_mono(rules[i], d, e);
            }
        },
        _ => {},
    }
}

proof fn lemma_item_size(rules: Seq<MediaModel>, i: int, k: int)
    requires
        0 <= i < k <= rules.len(),
    ensures
        rule_size(rules[i]) <= rules_size(rules, k),
    decreases k,
{
    if i < k - 1 {
        lemma_item_size(rules, i, k - 1);
    }
}

pub(crate) proof fn lemma_within_size(m: MediaModel)
    ensures
        depth_within(m, rule_size(m)),
    decreases m,
{
    match m {
        MediaModel::Not(inner) => {
            lemma_within_size(*inner);
        },
        MediaModel::And(rules) => {
            assert forall|i: int| 0 <= i < rules.len() implies depth_within(
                #[trigger] rules[i],
                rule_size(m),
            ) by {
                lemma_within_size(rules[i]);
                lemma_item_size(rules, i, rules.len() as int);
                lemma_within_mono(rules[i], rule_size(rules[i]), rule_size(m));
            }
        },
        MediaModel::Or(rules) => {
            assert forall|i: int| 0 <= i < rules.len() implies depth_within(
                #[trigger] rules[i],
                rule_size(m),
            ) by {
                lemma_within_size(rules[i]);
                lemma_item_size(rules, i, rules.len() as int);
                lemma_within_mono(rules[i], rule_size(rules[i]), rule_size(m));
            }
        },
        _ => {},
    }
}

proof fn lemma_merged_within(rules: Seq<MediaModel>, d: nat)
    requires
        all_within(rules, d),
    ensures
        all_within(merged(rules), d),
    decreases rules_size(rules, rules.len() as int),
{
    let at = first_denial(rules, 0);
    if 0 <= at < rules.len() && denies_two(rules[at]) {
        let two = denied(rules[at]);
        let na = denied_alone(rules, at, 0);
        let nb = denied_alone(rules, at, 1);
        lemma_denied_size(rules, at, 0);
        lemma_denied_size(rules, at, 1);
        assert(depth_within(rules[at], d));
        assert(depth_within(MediaModel::And(two), (d - 1) as nat));
        assert(depth_within(two[0], (d - 1) as nat) && depth_within(two[1], (d - 1) as nat));
        assert forall|i: int| 0 <= i < na.len() implies depth_within(#[trigger] na[i], d) by {
            if i < na.len() - 1 {
                assert(na[i] == rules[if i < at {
                    i
                } else {
                    i + 1
                }]);
            }
        }
        assert forall|i: int| 0 <= i < nb.len() implies depth_within(#[trigger] nb[i], d) by {
            if i < nb.len() - 1 {
                assert(nb[i] == rules[if i < at {
                    i
                } else {
                    i + 1
                }]);
            }
        }
        lemma_merged_within(na, d);
        lemma_merged_within(nb, d);
        let a = merged(na);
        let b = merged(nb);
        let list = branch(a) + branch(b);
        assert forall|i: int| 0 <= i < list.len() implies depth_within(#[trigger] list[i], d) by {
            if i < branch(a).len() {
                lemma_one_within(a, d);
            } else {
                lemma_one_within(b, d);
            }
        }
        assert(depth_within(MediaModel::Or(list), d));
    } else {
        lemma_bounds_within(rules, d);
    }
}

proof fn lemma_one_within(rules: Seq<MediaModel>, d: nat)
    requires
        all_within(rules, d),
    ensures
        rules.len() > 0 ==> depth_within(as_one(rules), d),
{
    if rules.len() == 1 {
        assert(depth_within(rules[0], d));
    } else if rules.len() > 1 {
        assert(depth_within(MediaModel::And(rules), d));
    }
}

proof fn lemma_bounds_within(rules: Seq<MediaModel>, d: nat)
    requires
        all_within(rules, d),
    ensures
        all_within(bounds_merged(rules), d),
{
    let w = side_rules(rules, true);
    let h = side_rules(rules, false);
    let all = w + h;
    assert forall|i: int| 0 <= i < all.len() implies depth_within(#[trigger] all[i], d) by {
        if i < w.len() {
            assert(w[i] is Pair);
        } else {
            assert(h[i - w.len()] is Pair);
        }
    }
}

pub(crate) proof fn lemma_normal_within(m: MediaModel, d: nat)
    requires
        depth_within(m, d),
    ensures
        depth_within(normal(m, d), d),
    decreases d, m, 0int,
{
    match m {
        MediaModel::And(rules) => {
            lemma_flat_within(rules, d, rules.len() as int);
            let flat = flat_upto(rules, d, rules.len() as int);
            lemma_merged_within(flat, d);
            assert(depth_within(MediaModel::And(merged(flat)), d));
        },
        MediaModel::Or(rules) => {
            let out = normal(m, d)->Or_0;
            assert forall|i: int| 0 <= i < out.len() implies depth_within(#[trigger] out[i], d) by {
                assert(depth_within(rules[i], d));
                lemma_normal_within(rules[i], d);
            }
        },
        MediaModel::Not(inner) => {
            let e = (d - 1) as nat;
            lemma_normal_within(*inner, e);
            let operand = normal(*inner, e);
            if let MediaModel::Not(twice) = operand {
                lemma_within_mono(*twice, (e - 1) as nat, e);
                lemma_normal_within(*twice, e);
                lemma_within_mono(normal(*twice, e), e, d);
            }
        },
        _ => {},
    }
}

proof fn lemma_flat_within(rules: Seq<MediaModel>, d: nat, k: int)
    requires
        all_within(rules, d),
        0 <= k <= rules.len(),
    ensures
        all_within(flat_upto(rules, d, k), d),
    decreases d, rules, k,
{
    if k > 0 {
        lemma_flat_within(rules, d, k - 1);
        assert(depth_within(rules[k - 1], d));
        lemma_normal_within(rules[k - 1], d);
        let done = flat_upto(rules, d, k - 1);
        match normal(rules[k - 1], d) {
            MediaModel::And(inner) => {
                let all = done + inner;
                assert forall|i: int| 0 <= i < all.len() implies depth_within(
                    #[trigger] all[i],
                    d,
                ) by {
                    if i < done.len() {
                        assert(depth_within(done[i], d));
                    } else {
                        assert(depth_within(inner[i - done.len()], d));
                    }
                }
            },
            other => {
                let all = done.push(other);
                assert forall|i: int| 0 <= i < all.len() implies depth_within(
                    #[trigger] all[i],
                    d,
                ) by {
                    if i < done.len() {
                        assert(depth_within(done[i], d));
                    }
                }
            },
        }
    }
}

/// The bounds of one dimension, as they were read.
struct Found {
    width: bool,
    lower: JsNumber,
    upper: JsNumber,
    unit: String,
}

fn length_found(key: &str, v: JsNumber, unit: &str, negated: bool) -> (r: Option<Found>)
    ensures
        r is Some == length_bound(key@, v, unit@, negated) is Some,
        r is Some ==> ({
            let b = length_bound(key@, v, unit@, negated)->0;
            b == (Bound {
                width: r->0.width,
                lower: r->0.lower,
                upper: r->0.upper,
                unit: r->0.unit@,
            })
        }),
{
    let low = JsNumber { bits: MINUS_INFINITY };
    let high = JsNumber { bits: PLUS_INFINITY };
    let min_w = str_eq(key, "min-width");
    let max_w = str_eq(key, "max-width");
    if min_w || str_eq(key, "min-height") {
        let f = if negated {
            Found {
                width: min_w,
                lower: low,
                upper: v.plus(JsNumber { bits: MINUS_EPSILON }),
                unit: unit.to_owned(),
            }
        } else {
            Found { width: min_w, lower: v, upper: high, unit: unit.to_owned() }
        };
        return Some(f);
    }
    if max_w || str_eq(key, "max-height") {
        let f = if negated {
            Found {
                width: max_w,
                lower: v.plus(JsNumber { bits: EPSILON }),
                upper: high,
                unit: unit.to_owned(),
            }
        } else {
            Found { width: max_w, lower: low, upper: v, unit: unit.to_owned() }
        };
        return Some(f);
    }
    None
}

fn find_bound(rule: &MediaQueryRule) -> (r: Option<Found>)
    ensures
        r is Some == bound_of(rule.model()) is Some,
        r is Some ==> bound_of(rule.model())->0 == (Bound {
            width: r->0.width,
            lower: r->0.lower,
            upper: r->0.upper,
            unit: r->0.unit@,
        }),
{
    match rule {
        MediaQueryRule::Pair { key, value } => {
            match value {
                MediaRuleValue::Length { value, unit } => length_found(
                    key.as_str(),
                    *value,
                    unit.as_str(),
                    false,
                ),
                _ => None,
            }
        },
        MediaQueryRule::Not(inner) => {
            proof {
                reveal_with_fuel(MediaQueryRule::model, 2);
            }
            match &**inner {
                MediaQueryRule::Pair { key, value } => {
                    match value {
                        MediaRuleValue::Length { value, unit } => length_found(
                            key.as_str(),
                            *value,
                            unit.as_str(),
                            true,
                        ),
                        _ => None,
                    }
                },
                _ => None,
            }
        },
        _ => None,
    }
}

fn copy_list(v: &Vec<MediaQueryRule>) -> (r: Vec<MediaQueryRule>)
    ensures
        media_models(r@) == media_models(v@),
{
    let mut out: Vec<MediaQueryRule> = Vec::new();
    let mut i: usize = 0;
    while i < v.len()
        invariant
            i <= v@.len(),
            out@.len() == i,
            forall|j: int| 0 <= j < i ==> #[trigger] out@[j].model() == v@[j].model(),
        decreases v@.len() - i,
    {
        out.push(v[i].clone());
        i += 1;
    }
    proof {
        assert(media_models(out@) =~= media_models(v@));
    }
    out
}

fn all_bound(rules: &Vec<MediaQueryRule>) -> (r: Option<Vec<Found>>)
    ensures
        r is Some == (forall|i: int|
            0 <= i < rules@.len() ==> bound_of(#[trigger] media_models(rules@)[i]) is Some),
        r is Some ==> r->0@.len() == rules@.len() && forall|i: int|
            0 <= i < rules@.len() ==> bound_of(#[trigger] media_models(rules@)[i])->0 == (Bound {
                width: r->0@[i].width,
                lower: r->0@[i].lower,
                upper: r->0@[i].upper,
                unit: r->0@[i].unit@,
            }),
{
    let ghost all = media_models(rules@);
    let mut out: Vec<Found> = Vec::new();
    let mut i: usize = 0;
    while i < rules.len()
        invariant
            all == media_models(rules@),
            i <= rules@.len(),
            out@.len() == i,
            forall|j: int|
                0 <= j < i ==> bound_of(#[trigger] all[j]) is Some && bound_of(all[j])->0 == (Bound {
                    width: out@[j].width,
                    lower: out@[j].lower,
                    upper: out@[j].upper,
                    unit: out@[j].unit@,
                }),
        decreases rules@.len() - i,
    {
        assert(all[i as int] == rules@[i as int].model());
        match find_bound(&rules[i]) {
            Some(f) => {
                out.push(f);
            },
            None => {
                assert(bound_of(all[i as int]) is None);
                return None;
            },
        }
        i += 1;
    }
    Some(out)
}

/// The merged bounds of one dimension: nothing where the units differ, otherwise
/// whether no size is left, and the conditions.
fn merge_side(found: &Vec<Found>, width: bool, Ghost(rules): Ghost<Seq<MediaModel>>) -> (r: Option<
    (bool, Vec<MediaQueryRule>),
>)
    requires
        found@.len() == rules.len(),
        forall|i: int|
            0 <= i < rules.len() ==> bound_of(#[trigger] rules[i]) is Some && bound_of(rules[i])->0
                == (Bound {
                width: found@[i].width,
                lower: found@[i].lower,
                upper: found@[i].upper,
                unit: found@[i].unit@,
            }),
    ensures
        r is Some == !units_differ(rules, width),
        r is Some ==> (r->0).0 == excluded(rules, width) && media_models((r->0).1@) == side_rules(
            rules,
            width,
        ),
{
    let mut unit: Option<String> = None;
    let mut lower = JsNumber { bits: MINUS_INFINITY };
    let mut upper = JsNumber { bits: PLUS_INFINITY };
    let mut i: usize = 0;
    while i < found.len()
        invariant
            found@.len() == rules.len(),
            i <= found@.len(),
            forall|j: int|
                0 <= j < rules.len() ==> bound_of(#[trigger] rules[j]) is Some && bound_of(
                    rules[j],
                )->0 == (Bound {
                    width: found@[j].width,
                    lower: found@[j].lower,
                    upper: found@[j].upper,
                    unit: found@[j].unit@,
                }),
            unit is None ==> first_unit(rules, width, 0) == first_unit(rules, width, i as int),
            unit is Some ==> first_unit(rules, width, 0) == Some(unit->0@),
            forall|j: int|
                0 <= j < i && bounds(#[trigger] rules[j], width) ==> Some(bound_of(rules[j])->0.unit)
                    == first_unit(rules, width, 0),
            lower == lower_upto(rules, width, i as int),
            upper == upper_upto(rules, width, i as int),
        decreases found@.len() - i,
    {
        assert(bound_of(rules[i as int]) is Some);
        if found[i].width == width {
            let same = match &unit {
                None => true,
                Some(u) => str_eq(u.as_str(), found[i].unit.as_str()),
            };
            if !same {
                assert(bounds(rules[i as int], width));
                return None;
            }
            if unit.is_none() {
                unit = Some(found[i].unit.clone());
            }
            if lower.less(found[i].lower) {
                lower = found[i].lower;
            }
            if found[i].upper.less(upper) {
                upper = found[i].upper;
            }
        }
        i += 1;
    }
    let mut out: Vec<MediaQueryRule> = Vec::new();
    match unit {
        None => {
            proof {
                assert(media_models(out@) =~= Seq::<MediaModel>::empty());
            }
            Some((false, out))
        },
        Some(u) => {
            if !lower.equals(JsNumber { bits: MINUS_INFINITY }) {
                let key = if width {
                    "min-width".to_owned()
                } else {
                    "min-height".to_owned()
                };
                out.push(
                    MediaQueryRule::Pair {
                        key,
                        value: MediaRuleValue::Length { value: lower, unit: u.clone() },
                    },
                );
            }
            if !upper.equals(JsNumber { bits: PLUS_INFINITY }) {
                let key = if width {
                    "max-width".to_owned()
                } else {
                    "max-height".to_owned()
                };
                out.push(
                    MediaQueryRule::Pair {
                        key,
                        value: MediaRuleValue::Length { value: upper, unit: u },
                    },
                );
            }
            proof {
                assert(media_models(out@) =~= side_rules(rules, width));
            }
            Some((upper.less(lower), out))
        },
    }
}

fn merge_bounds(rules: &Vec<MediaQueryRule>) -> (r: Vec<MediaQueryRule>)
    ensures
        media_models(r@) == bounds_merged(media_models(rules@)),
{
    let ghost all = media_models(rules@);
    let found = match all_bound(rules) {
        Some(f) => f,
        None => {
            return copy_list(rules);
        },
    };
    let (no_width, w) = match merge_side(&found, true, Ghost(all)) {
        Some(p) => p,
        None => {
            return copy_list(rules);
        },
    };
    let (no_height, h) = match merge_side(&found, false, Ghost(all)) {
        Some(p) => p,
        None => {
            return copy_list(rules);
        },
    };
    if no_width || no_height {
        let out: Vec<MediaQueryRule> = Vec::new();
        proof {
            assert(media_models(out@) =~= Seq::<MediaModel>::empty());
        }
        return out;
    }
    let mut out = w;
    let mut rest = h;
    let ghost before = media_models(out@);
    let ghost more = media_models(rest@);
    out.append(&mut rest);
    proof {
        assert(media_models(out@) =~= before + more);
    }
    if out.len() == 0 {
        return copy_list(rules);
    }
    out
}

fn denied_pair(rule: &MediaQueryRule) -> (r: Option<(MediaQueryRule, MediaQueryRule)>)
    ensures
        r is Some == denies_two(rule.model()),
        r is Some ==> (r->0).0.model() == denied(rule.model())[0] && (r->0).1.model() == denied(
            rule.model(),
        )[1],
{
    match rule {
        MediaQueryRule::Not(inner) => {
            proof {
                reveal_with_fuel(MediaQueryRule::model, 2);
            }
            match &**inner {
                MediaQueryRule::And(two) => {
                    if two.len() == 2 {
                        Some((two[0].clone(), two[1].clone()))
                    } else {
                        None
                    }
                },
                _ => None,
            }
        },
        _ => None,
    }
}

fn with_denied(rules: &Vec<MediaQueryRule>, at: usize, which: MediaQueryRule) -> (r: Vec<
    MediaQueryRule,
>)
    requires
        at < rules@.len(),
    ensures
        media_models(r@) == media_models(rules@).remove(at as int).push(
            MediaModel::Not(Box::new(which.model())),
        ),
{
    let mut out = copy_list(rules);
    proof {
        assert(media_models(out@).len() == media_models(rules@).len());
    }
    let ghost before = media_models(out@);
    out.remove(at);
    let ghost rest = before.remove(at as int);
    proof {
        assert(media_models(out@) =~= rest);
    }
    let not = MediaQueryRule::Not(Box::new(which));
    proof {
        assert(not.model() == MediaModel::Not(Box::new(which.model())));
    }
    out.push(not);
    proof {
        assert(media_models(out@) =~= rest.push(MediaModel::Not(Box::new(which.model()))));
    }
    out
}

fn push_branch(out: &mut Vec<MediaQueryRule>, rules: Vec<MediaQueryRule>)
    ensures
        media_models(final(out)@) == media_models(old(out)@) + branch(media_models(rules@)),
{
    let ghost before = media_models(out@);
    let ghost list = media_models(rules@);
    if rules.len() == 0 {
        proof {
            assert(media_models(out@) =~= before + branch(list));
        }
        return;
    }
    if rules.len() == 1 {
        let one = rules[0].clone();
        proof {
            assert(one.model() == list[0]);
        }
        out.push(one);
        proof {
            assert(media_models(out@) =~= before + branch(list));
        }
        return;
    }
    let one = MediaQueryRule::And(rules);
    proof {
        assert(one.model()->And_0 =~= list);
    }
    out.push(one);
    proof {
        assert(media_models(out@) =~= before + branch(list));
    }
}

pub(crate) fn merge_intervals_for_and(rules: &Vec<MediaQueryRule>) -> (r: Vec<MediaQueryRule>)
    ensures
        media_models(r@) == merged(media_models(rules@)),
    decreases rules_size(media_models(rules@), rules@.len() as int),
{
    let ghost all = media_models(rules@);
    let mut i: usize = 0;
    while i < rules.len()
        invariant
            all == media_models(rules@),
            i <= rules@.len(),
            first_denial(all, 0) == first_denial(all, i as int),
        decreases rules@.len() - i,
    {
        assert(all[i as int] == rules@[i as int].model());
        if let Some((a, b)) = denied_pair(&rules[i]) {
            proof {
                lemma_denied_size(all, i as int, 0);
                lemma_denied_size(all, i as int, 1);
            }
            let left = with_denied(rules, i, a);
            let right = with_denied(rules, i, b);
            proof {
                assert(media_models(left@) == denied_alone(all, i as int, 0));
                assert(media_models(right@) == denied_alone(all, i as int, 1));
                assert(left@.len() == media_models(left@).len());
                assert(right@.len() == media_models(right@).len());
            }
            let merged_left = merge_intervals_for_and(&left);
            let merged_right = merge_intervals_for_and(&right);
            let mut branches: Vec<MediaQueryRule> = Vec::new();
            proof {
                assert(media_models(branches@) =~= Seq::<MediaModel>::empty());
            }
            let ghost ml = media_models(merged_left@);
            let ghost mr = media_models(merged_right@);
            push_branch(&mut branches, merged_left);
            push_branch(&mut branches, merged_right);
            let ghost list = media_models(branches@);
            proof {
                assert(list =~= branch(ml) + branch(mr));
            }
            let or = MediaQueryRule::Or(branches);
            proof {
                assert(or.model()->Or_0 =~= list);
            }
            let mut out: Vec<MediaQueryRule> = Vec::new();
            out.push(or);
            proof {
                assert(media_models(out@) =~= seq![MediaModel::Or(list)]);
            }
            return out;
        }
        i += 1;
    }
    merge_bounds(rules)
}

fn normalize_within(rule: MediaQueryRule, Ghost(d): Ghost<nat>) -> (r: MediaQueryRule)
    requires
        depth_within(rule.model(), d),
    ensures
        r.model() == normal(rule.model(), d),
    decreases d, rule.model(),
{
    let ghost m = rule.model();
    match rule {
        MediaQueryRule::And(v) => {
            let ghost all = m->And_0;
            proof {
                assert(all =~= media_models(v@));
            }
            let mut flat: Vec<MediaQueryRule> = Vec::new();
            let mut i: usize = 0;
            proof {
                assert(media_models(flat@) =~= Seq::<MediaModel>::empty());
            }
            while i < v.len()
                invariant
                    m == rule.model(),
                    m == MediaModel::And(all),
                    all == media_models(v@),
                    depth_within(m, d),
                    i <= v@.len(),
                    media_models(flat@) == flat_upto(all, d, i as int),
                decreases v@.len() - i,
            {
                let ghost before = media_models(flat@);
                let item = v[i].clone();
                proof {
                    assert(item.model() == all[i as int]);
                    assert(m->And_0 == all);
                    assert(depth_within(m->And_0[i as int], d));
                    assert(decreases_to!(m => m->And_0));
                    assert(decreases_to!(all => all[i as int]));
                }
                match normalize_within(item, Ghost(d)) {
                    MediaQueryRule::And(inner) => {
                        let ghost more = media_models(inner@);
                        let mut rest = inner;
                        proof {
                            assert(MediaQueryRule::And(rest).model()->And_0 =~= more);
                        }
                        flat.append(&mut rest);
                        proof {
                            assert(media_models(flat@) =~= before + more);
                        }
                    },
                    other => {
                        flat.push(other);
                        proof {
                            assert(media_models(flat@) =~= before.push(other.model()));
                        }
                    },
                }
                i += 1;
            }
            let all_merged = merge_intervals_for_and(&flat);
            if all_merged.len() == 0 {
                proof {
                    assert(media_models(all_merged@).len() == 0);
                }
                MediaQueryRule::Keyword { key: "all".to_owned(), not: true, only: false }
            } else {
                let ghost out = media_models(all_merged@);
                let r = MediaQueryRule::And(all_merged);
                proof {
                    assert(r.model()->And_0 =~= out);
                }
                r
            }
        },
        MediaQueryRule::Or(v) => {
            let ghost all = m->Or_0;
            proof {
                assert(all =~= media_models(v@));
            }
            let mut out: Vec<MediaQueryRule> = Vec::new();
            let mut i: usize = 0;
            while i < v.len()
                invariant
                    m == rule.model(),
                    m == MediaModel::Or(all),
                    all == media_models(v@),
                    depth_within(m, d),
                    i <= v@.len(),
                    out@.len() == i,
                    forall|j: int| 0 <= j < i ==> #[trigger] out@[j].model() == normal(all[j], d),
                decreases v@.len() - i,
            {
                let item = v[i].clone();
                proof {
                    assert(item.model() == all[i as int]);
                    assert(m->Or_0 == all);
                    assert(depth_within(m->Or_0[i as int], d));
                    assert(decreases_to!(m => m->Or_0));
                    assert(decreases_to!(all => all[i as int]));
                }
                out.push(normalize_within(item, Ghost(d)));
                i += 1;
            }
            let r = MediaQueryRule::Or(out);
            proof {
                let want = normal(m, d)->Or_0;
                assert forall|j: int| 0 <= j < all.len() implies r.model()->Or_0[j] == want[j] by {
                    assert(out@[j].model() == normal(all[j], d));
                }
                assert(r.model()->Or_0 =~= want);
            }
            r
        },
        MediaQueryRule::Not(inner) => {
            let ghost e = (d - 1) as nat;
            let ghost im = inner.model();
            proof {
                assert(m == MediaModel::Not(Box::new(im)));
                lemma_normal_within(im, e);
            }
            let operand = normalize_within(*inner, Ghost(e));
            match operand {
                MediaQueryRule::Keyword { key, not, only } => {
                    if not && str_eq(key.as_str(), "all") {
                        return MediaQueryRule::Keyword {
                            key: "all".to_owned(),
                            not: false,
                            only: false,
                        };
                    }
                    let op = MediaQueryRule::Keyword { key, not, only };
                    let r = MediaQueryRule::Not(Box::new(op));
                    proof {
                        assert(r.model() == MediaModel::Not(Box::new(op.model())));
                    }
                    r
                },
                MediaQueryRule::Not(twice) => {
                    proof {
                        let tm = twice.model();
                        assert(normal(im, e) == MediaModel::Not(Box::new(tm)));
                        assert(depth_within(MediaModel::Not(Box::new(tm)), e));
                        lemma_within_mono(tm, (e - 1) as nat, e);
                    }
                    normalize_within(*twice, Ghost(e))
                },
                other => {
                    let r = MediaQueryRule::Not(Box::new(other));
                    proof {
                        assert(r.model() == MediaModel::Not(Box::new(other.model())));
                    }
                    r
                },
            }
        },
        other => other,
    }
}

/// Brings a condition to its one form.
pub fn normalize(rule: MediaQueryRule) -> (r: MediaQueryRule)
    ensures
        r.model() == normalized_rule(rule.model()),
{
    proof {
        lemma_within_size(rule.model());
    }
    normalize_within(rule, Ghost(rule_size(rule.model())))
}

/// Conditions that bound each dimension in one unit are met by the same sizes after
/// they were merged: the merged bounds are the tightest of them.
pub proof fn merged_bounds_are_tightest(rules: Seq<MediaModel>, width: bool, i: int)
    requires
        0 <= i < rules.len(),
        bounds(rules[i], width),
    ensures
        !lower_upto(rules, width, rules.len() as int).below(bound_of(rules[i])->0.lower),
        !bound_of(rules[i])->0.upper.below(upper_upto(rules, width, rules.len() as int)),
{
    lemma_tightest(rules, width, i, rules.len() as int);
}

proof fn lemma_tightest(rules: Seq<MediaModel>, width: bool, i: int, k: int)
    requires
        0 <= i < k <= rules.len(),
        bounds(rules[i], width),
    ensures
        !lower_upto(rules, width, k).below(bound_of(rules[i])->0.lower),
        !bound_of(rules[i])->0.upper.below(upper_upto(rules, width, k)),
    decreases k,
{
    if i < k - 1 {
        lemma_tightest(rules, width, i, k - 1);
    }
}

} // verus!
