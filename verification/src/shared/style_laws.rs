//! Where the rules of a style come from: every rule is that of a value in the style, under
//! exactly the conditions that the value stands under.

use crate::errors::ErrorModel;
use crate::options::ResolvedOptions;
use crate::rules::RuleModel;
use crate::shared::create::{
    core_output, first_entries, keys_upto, last_of_each, last_rule_of_a_key_stays, media_ordered,
    namespace_rules, namespaces_upto, with_namespace, with_new, KeysModel, OutputModel, ShapeModel,
};
use crate::shared::flatten::{
    array_rules, compiled, compiled_upto, condition_key, conditions_upto, declarations,
    distinct_upto, entry_rules, flattened, full_path, grouped_upto, leaf_rules, parts_upto,
    path_rule, property_path, rule_path, set_of, sets_of, spread_upto, styles_upto, under,
    unwrapped, value_rules, var_use, with_pairs, with_rule, with_rules, CompiledModel, FlatModel,
    GroupsModel, PathPart, PreRuleModel, PreRuleValueModel, ScalarModel, ValuesModel,
};
use crate::shared::for_in::{for_in, lemma_entry_smaller, lemma_for_in_size, total_size, val_size};
use crate::shared::generate_rule::compiled_rule;
use crate::shared::resolution::PairModel;
use crate::text::has_prefix;
use crate::value::{append_put, find_key, keys_of, lemma_find_key, value_of, ObjModel, Val};
use vstd::prelude::*;

verus! {

/// Whether a key is a condition: a selector, an at-rule or a constant that stands for one.
pub open spec fn is_condition(k: Seq<char>) -> bool {
    has_prefix(k, ":"@) || has_prefix(k, "["@) || has_prefix(k, "@"@) || has_prefix(k, "var(--"@)
}

/// The conditions among keys.
pub open spec fn only_conditions(v: Seq<Seq<char>>) -> Seq<Seq<char>> {
    v.filter(|k: Seq<char>| is_condition(k))
}

/// The selectors among keys.
pub open spec fn selectors_in(v: Seq<Seq<char>>) -> Seq<Seq<char>> {
    v.filter(|k: Seq<char>| has_prefix(k, ":"@) || has_prefix(k, "["@))
}

/// The at-rules among keys.
pub open spec fn at_rules_in(v: Seq<Seq<char>>) -> Seq<Seq<char>> {
    v.filter(|k: Seq<char>| has_prefix(k, "@"@))
}

/// The constants among keys that stand for conditions.
pub open spec fn constants_in(v: Seq<Seq<char>>) -> Seq<Seq<char>> {
    v.filter(|k: Seq<char>| has_prefix(k, "var(--"@))
}

/// Whether a value is no object.
pub open spec fn is_leaf(v: Val) -> bool {
    v is Null || v is Str || v is Num || v is Arr
}

/// Whether the value of a property leads to a leaf under the given conditions: objects name a
/// condition with each key but `default`.
pub open spec fn value_leads(v: Val, ats: Seq<Seq<char>>, leaf: Val) -> bool
    decreases val_size(v),
    via value_leads_decreases
{
    if is_leaf(v) {
        ats.len() == 0 && leaf == v
    } else {
        match v {
            Val::Obj(m) => exists|i: int|
                #![trigger for_in(m)[i]]
                0 <= i < for_in(m).len() && if for_in(m)[i].0 == "default"@ {
                    value_leads(for_in(m)[i].1, ats, leaf)
                } else {
                    ats.len() > 0 && ats[0] == for_in(m)[i].0 && value_leads(
                        for_in(m)[i].1,
                        ats.skip(1),
                        leaf,
                    )
                },
            _ => false,
        }
    }
}

#[via_fn]
proof fn value_leads_decreases(v: Val, ats: Seq<Seq<char>>, leaf: Val) {
    if let Val::Obj(m) = v {
        lemma_smaller(m);
    }
}

proof fn lemma_smaller(m: ObjModel)
    ensures
        forall|i: int|
            0 <= i < for_in(m).len() ==> val_size((#[trigger] for_in(m)[i]).1) < val_size(
                Val::Obj(m),
            ),
        total_size(for_in(m)) < val_size(Val::Obj(m)),
{
    lemma_for_in_size(m);
    assert forall|i: int| 0 <= i < for_in(m).len() implies val_size(
        (#[trigger] for_in(m)[i]).1,
    ) < val_size(Val::Obj(m)) by {
        lemma_entry_smaller(for_in(m), i);
    }
}

/// Whether an entry of a style leads to a leaf of the given property under the given
/// conditions.
pub open spec fn entry_leads(
    raw: Seq<char>,
    v: Val,
    ats: Seq<Seq<char>>,
    key: Seq<char>,
    leaf: Val,
) -> bool
    decreases val_size(v),
    via entry_leads_decreases
{
    match v {
        Val::Obj(m) => if condition_key(unwrapped(raw)) {
            ats.len() > 0 && ats[0] == raw && exists|i: int|
                #![trigger for_in(m)[i]]
                0 <= i < for_in(m).len() && entry_leads(
                    for_in(m)[i].0,
                    for_in(m)[i].1,
                    ats.skip(1),
                    key,
                    leaf,
                )
        } else {
            key == unwrapped(raw) && value_leads(v, ats, leaf)
        },
        _ => key == unwrapped(raw) && value_leads(v, ats, leaf),
    }
}

#[via_fn]
proof fn entry_leads_decreases(
    raw: Seq<char>,
    v: Val,
    ats: Seq<Seq<char>>,
    key: Seq<char>,
    leaf: Val,
) {
    if let Val::Obj(m) = v {
        lemma_smaller(m);
    }
}

/// Whether a style leads to a leaf of the given property under the given conditions.
pub open spec fn style_leads(
    style: ObjModel,
    ats: Seq<Seq<char>>,
    key: Seq<char>,
    leaf: Val,
) -> bool {
    exists|i: int|
        #![trigger for_in(style)[i]]
        0 <= i < for_in(style).len() && entry_leads(
            for_in(style)[i].0,
            for_in(style)[i].1,
            ats,
            key,
            leaf,
        )
}

/// Whether one value of a property declares a value of another.
pub open spec fn declares_one(
    key: Seq<char>,
    v: Val,
    property: Seq<char>,
    s: ScalarModel,
    options: ResolvedOptions,
) -> bool {
    declarations(key, v, options) is Ok && declarations(key, v, options)->Ok_0.contains(
        (property, Some(s)),
    )
}

/// The values of a rule.
pub open spec fn rule_values(value: PreRuleValueModel) -> Seq<ScalarModel> {
    match value {
        PreRuleValueModel::Single(s) => seq![s],
        PreRuleValueModel::Multi(v) => v,
    }
}

/// Whether a leaf declares the values of a rule: each of them is one that it, or one of its
/// items, declares.
pub open spec fn declares(
    key: Seq<char>,
    leaf: Val,
    property: Seq<char>,
    value: PreRuleValueModel,
    options: ResolvedOptions,
) -> bool {
    let all = rule_values(value);
    &&& all.len() > 0
    &&& forall|i: int|
        0 <= i < all.len() ==> match leaf {
            Val::Arr(items) => item_declares(key, items, property, #[trigger] all[i], options),
            _ => declares_one(key, leaf, property, all[i], options),
        }
}

/// Whether one of several values of a property declares a value of another.
pub open spec fn item_declares(
    key: Seq<char>,
    items: Seq<Val>,
    property: Seq<char>,
    s: ScalarModel,
    options: ResolvedOptions,
) -> bool {
    exists|n: int|
        0 <= n < items.len() && declares_one(key, #[trigger] items[n], property, s, options)
}

/// What holds of a rule that was flattened: its property, its value and its path.
pub type Good = spec_fn(Seq<char>, PreRuleValueModel, Seq<Seq<char>>) -> bool;

/// Whether it holds of every rule.
pub open spec fn all_good(rule: PreRuleModel, g: Good) -> bool
    decreases rule,
{
    match rule {
        PreRuleModel::Null => true,
        PreRuleModel::Rule(property, value, path) => g(property, value, full_path(property, path)),
        PreRuleModel::Rules(rules) => forall|i: int|
            0 <= i < rules.len() ==> all_good(#[trigger] rules[i], g),
    }
}

spec fn flat_good(flat: FlatModel, g: Good) -> bool {
    forall|i: int| 0 <= i < flat.len() ==> all_good((#[trigger] flat[i]).1, g)
}

spec fn groups_good(groups: GroupsModel, g: Good) -> bool {
    forall|i: int| 0 <= i < groups.len() ==> flat_good((#[trigger] groups[i]).1, g)
}

proof fn lemma_spread(rules: Seq<PreRuleModel>, k: int, g: Good)
    requires
        0 <= k <= rules.len(),
        forall|i: int| 0 <= i < rules.len() ==> all_good(#[trigger] rules[i], g),
    ensures
        forall|i: int|
            0 <= i < spread_upto(rules, k).len() ==> all_good(#[trigger] spread_upto(rules, k)[i], g),
    decreases k,
{
    if k > 0 {
        lemma_spread(rules, k - 1, g);
        let done = spread_upto(rules, k - 1);
        let now = spread_upto(rules, k);
        assert(all_good(rules[k - 1], g));
        assert forall|i: int| 0 <= i < now.len() implies all_good(#[trigger] now[i], g) by {
            if i < done.len() {
                assert(now[i] == done[i]);
            } else if let PreRuleModel::Rules(inner) = rules[k - 1] {
                assert(now[i] == inner[i - done.len()]);
                assert(all_good(inner[i - done.len()], g));
            }
        }
    }
}

proof fn lemma_set_of(rules: Seq<PreRuleModel>, g: Good)
    requires
        forall|i: int| 0 <= i < rules.len() ==> all_good(#[trigger] rules[i], g),
    ensures
        all_good(set_of(rules), g),
{
    lemma_spread(rules, rules.len() as int, g);
    let all = spread_upto(rules, rules.len() as int);
    if all.len() == 1 {
        assert(all_good(all[0], g));
    } else if all.len() > 1 {
        let out = PreRuleModel::Rules(all);
        assert forall|i: int| 0 <= i < out->Rules_0.len() implies all_good(
            #[trigger] out->Rules_0[i],
            g,
        ) by {
            assert(all_good(all[i], g));
        }
    }
}

proof fn lemma_sets_of(groups: GroupsModel, g: Good)
    requires
        groups_good(groups, g),
    ensures
        flat_good(sets_of(groups), g),
{
    let out = sets_of(groups);
    assert forall|i: int| 0 <= i < out.len() implies all_good((#[trigger] out[i]).1, g) by {
        assert(flat_good(groups[i].1, g));
        let rules = Seq::new(groups[i].1.len(), |j: int| groups[i].1[j].1);
        assert forall|j: int| 0 <= j < rules.len() implies all_good(#[trigger] rules[j], g) by {
            assert(all_good(groups[i].1[j].1, g));
        }
        lemma_set_of(rules, g);
    }
}

proof fn lemma_append_good(flat: FlatModel, k: Seq<char>, rule: PreRuleModel, g: Good)
    requires
        flat_good(flat, g),
        all_good(rule, g),
    ensures
        flat_good(append_put(flat, k, rule), g),
{
    let now = append_put(flat, k, rule);
    let at = find_key(keys_of(flat), k, 0);
    lemma_find_key(keys_of(flat), k, 0);
    assert forall|i: int| 0 <= i < now.len() implies all_good((#[trigger] now[i]).1, g) by {
        if i < flat.len() && i != at {
            assert(now[i] == flat[i]);
            assert(all_good(flat[i].1, g));
        }
    }
}

proof fn lemma_with_rule(
    groups: GroupsModel,
    condition: Seq<char>,
    p: (Seq<char>, PreRuleModel),
    g: Good,
)
    requires
        groups_good(groups, g),
        all_good(p.1, g),
    ensures
        groups_good(with_rule(groups, condition, p), g),
{
    let at = find_key(keys_of(groups), p.0, 0);
    lemma_find_key(keys_of(groups), p.0, 0);
    let before = match value_of(groups, p.0) {
        Some(v) => v,
        None => Seq::empty(),
    };
    if at < groups.len() {
        assert(flat_good(groups[at].1, g));
    }
    assert(flat_good(before, g));
    lemma_append_good(before, condition, p.1, g);
    let now = with_rule(groups, condition, p);
    assert forall|i: int| 0 <= i < now.len() implies flat_good((#[trigger] now[i]).1, g) by {
        if i < groups.len() && i != at {
            assert(now[i] == groups[i]);
            assert(flat_good(groups[i].1, g));
        }
    }
}

proof fn lemma_with_rules(
    groups: GroupsModel,
    condition: Seq<char>,
    flat: FlatModel,
    k: int,
    g: Good,
)
    requires
        0 <= k <= flat.len(),
        groups_good(groups, g),
        flat_good(flat, g),
    ensures
        groups_good(with_rules(groups, condition, flat, k), g),
    decreases k,
{
    if k > 0 {
        lemma_with_rules(groups, condition, flat, k - 1, g);
        assert(all_good(flat[k - 1].1, g));
        lemma_with_rule(with_rules(groups, condition, flat, k - 1), condition, flat[k - 1], g);
    }
}

/// Whether no key uses a variable.
pub open spec fn no_variables(v: Seq<Seq<char>>) -> bool {
    forall|i: int| 0 <= i < v.len() ==> unwrapped(#[trigger] v[i]) == v[i]
}

/// Whether the path of a rule has the given conditions, where neither its property nor the key
/// that it came from is one; for values to fall back on, where no condition uses a variable.
pub open spec fn same_conditions(
    path: Seq<Seq<char>>,
    q: Seq<Seq<char>>,
    property: Seq<char>,
    key: Seq<char>,
    leaf: Val,
) -> bool {
    !is_condition(property) && !is_condition(key) && (leaf is Arr ==> no_variables(q))
        ==> only_conditions(path) == only_conditions(q)
}

proof fn lemma_replaced(path: Seq<Seq<char>>, key: Seq<char>, property: Seq<char>, k: int)
    requires
        0 <= k <= path.len(),
        !is_condition(property),
        !is_condition(key),
    ensures
        ({
            let out = Seq::new(
                path.len(),
                |i: int|
                    if path[i] == key {
                        property
                    } else {
                        path[i]
                    },
            );
            only_conditions(out.take(k)) == only_conditions(path.take(k))
        }),
    decreases k,
{
    let out = Seq::new(
        path.len(),
        |i: int|
            if path[i] == key {
                property
            } else {
                path[i]
            },
    );
    reveal(Seq::filter);
    if k > 0 {
        lemma_replaced(path, key, property, k - 1);
        assert(out.take(k).drop_last() =~= out.take(k - 1));
        assert(path.take(k).drop_last() =~= path.take(k - 1));
        assert(out.take(k).last() == out[k - 1]);
        assert(path.take(k).last() == path[k - 1]);
    } else {
        assert(out.take(0) =~= path.take(0));
    }
}

proof fn lemma_one_key(k: Seq<char>)
    ensures
        only_conditions(seq![k]) == if is_condition(k) {
            seq![k]
        } else {
            Seq::empty()
        },
        only_conditions(Seq::empty()) == Seq::<Seq<char>>::empty(),
{
    let pick = |k: Seq<char>| is_condition(k);
    let one = seq![k];
    let none = Seq::<Seq<char>>::empty();
    reveal(Seq::filter);
    assert(none.filter(pick) =~= none);
    assert(one.drop_last() =~= none);
    assert(one.last() == k);
    assert(one.filter(pick) =~= if is_condition(k) {
        seq![k]
    } else {
        none
    });
}

proof fn lemma_rule_path(path: Seq<Seq<char>>, key: Seq<char>, property: Seq<char>)
    requires
        !is_condition(property),
        !is_condition(key) || !path.contains(key),
    ensures
        only_conditions(full_path(property, rule_path(path, key, property))) == only_conditions(
            path,
        ),
{
    reveal(Seq::filter);
    if path.len() == 0 {
        lemma_one_key(property);
        assert(path =~= Seq::empty());
    } else if path.contains(key) {
        let out = rule_path(path, key, property)->0;
        let same = Seq::new(
            path.len(),
            |i: int|
                if path[i] == key {
                    property
                } else {
                    path[i]
                },
        );
        lemma_replaced(path, key, property, path.len() as int);
        assert(same.take(path.len() as int) =~= out);
        assert(path.take(path.len() as int) =~= path);
    } else {
        let out = path.push(property);
        assert(out.drop_last() =~= path);
        assert(out.last() == property);
        assert(full_path(property, rule_path(path, key, property)) == out);
    }
}

/// Whether what holds of the rules of a value follows from what leads to them.
spec fn covers_value(
    g: Good,
    key: Seq<char>,
    v: Val,
    path: Seq<Seq<char>>,
    options: ResolvedOptions,
) -> bool {
    forall|
        ats: Seq<Seq<char>>,
        leaf: Val,
        property: Seq<char>,
        value: PreRuleValueModel,
        p: Seq<Seq<char>>,
    |
        #![trigger value_leads(v, ats, leaf), g(property, value, p)]
        value_leads(v, ats, leaf) && declares(key, leaf, property, value, options)
            && same_conditions(p, path + ats, property, key, leaf) ==> g(property, value, p)
}

proof fn lemma_leaf(
    key: Seq<char>,
    v: Val,
    path: Seq<Seq<char>>,
    options: ResolvedOptions,
    g: Good,
)
    requires
        is_leaf(v),
        !(v is Arr),
        leaf_rules(key, v, path, options) is Ok,
        covers_value(g, key, v, path, options),
    ensures
        flat_good(leaf_rules(key, v, path, options)->Ok_0, g),
{
    let pairs = declarations(key, v, options)->Ok_0;
    let flat = leaf_rules(key, v, path, options)->Ok_0;
    let none = Seq::<Seq<char>>::empty();
    assert(path + none =~= path);
    assert(value_leads(v, none, v));
    assert forall|i: int| 0 <= i < flat.len() implies all_good((#[trigger] flat[i]).1, g) by {
        let (property, scalar) = pairs[i];
        if let Some(s) = scalar {
            let value = PreRuleValueModel::Single(s);
            let p = full_path(property, rule_path(path, key, property));
            assert(pairs.contains((property, Some(s)))) by {
                assert(pairs[i] == (property, Some(s)));
            }
            assert(declares(key, v, property, value, options));
            if !is_condition(property) && !is_condition(key) {
                lemma_rule_path(path, key, property);
            }
            assert(same_conditions(p, path + none, property, key, v));
            assert(g(property, value, p));
        }
    }
}

/// Whether every value of a property is one that an item declares.
spec fn values_declared(
    groups: ValuesModel,
    key: Seq<char>,
    items: Seq<Val>,
    options: ResolvedOptions,
) -> bool {
    forall|i: int, j: int|
        #![trigger groups[i].1[j]]
        0 <= i < groups.len() && 0 <= j < groups[i].1.len() ==> item_declares(
            key,
            items,
            groups[i].0,
            groups[i].1[j],
            options,
        )
}

proof fn lemma_with_pairs(
    groups: ValuesModel,
    pairs: Seq<PairModel>,
    k: int,
    key: Seq<char>,
    items: Seq<Val>,
    n: int,
    options: ResolvedOptions,
)
    requires
        0 <= k <= pairs.len(),
        0 <= n < items.len(),
        declarations(key, items[n], options) == Ok::<Seq<PairModel>, ErrorModel>(pairs),
        values_declared(groups, key, items, options),
    ensures
        values_declared(with_pairs(groups, pairs, k), key, items, options),
    decreases k,
{
    if k > 0 {
        lemma_with_pairs(groups, pairs, k - 1, key, items, n, options);
        let done = with_pairs(groups, pairs, k - 1);
        let now = with_pairs(groups, pairs, k);
        let p = pairs[k - 1];
        let at = find_key(keys_of(done), p.0, 0);
        lemma_find_key(keys_of(done), p.0, 0);
        assert forall|i: int, j: int|
            #![trigger now[i].1[j]]
            0 <= i < now.len() && 0 <= j < now[i].1.len() implies item_declares(
            key,
            items,
            now[i].0,
            now[i].1[j],
            options,
        ) by {
            if i == at {
                let before = match value_of(done, p.0) {
                    Some(v) => v,
                    None => Seq::empty(),
                };
                if at < done.len() {
                    assert(keys_of(done)[at] == p.0);
                }
                assert(now[i].0 == p.0);
                if j < before.len() {
                    assert(now[i].1[j] == done[at].1[j]);
                } else {
                    let s = p.1->0;
                    assert(now[i].1[j] == s);
                    assert(pairs.contains((p.0, Some(s)))) by {
                        assert(pairs[k - 1] == (p.0, Some(s)));
                    }
                    assert(declares_one(key, items[n], p.0, s, options));
                }
            } else {
                assert(now[i] == done[i]);
                assert(now[i].1[j] == done[i].1[j]);
            }
        }
    }
}

proof fn lemma_grouped(key: Seq<char>, items: Seq<Val>, options: ResolvedOptions, k: int)
    requires
        0 <= k <= items.len(),
        grouped_upto(key, items, options, k) is Ok,
    ensures
        values_declared(grouped_upto(key, items, options, k)->Ok_0, key, items, options),
    decreases k,
{
    if k > 0 {
        lemma_grouped(key, items, options, k - 1);
        let groups = grouped_upto(key, items, options, k - 1)->Ok_0;
        let pairs = declarations(key, items[k - 1], options)->Ok_0;
        lemma_with_pairs(groups, pairs, pairs.len() as int, key, items, k - 1, options);
    }
}

proof fn lemma_distinct(v: Seq<ScalarModel>, k: int)
    requires
        0 <= k <= v.len(),
    ensures
        forall|i: int|
            0 <= i < distinct_upto(v, k).len() ==> v.contains(#[trigger] distinct_upto(v, k)[i]),
    decreases k,
{
    if k > 0 {
        lemma_distinct(v, k - 1);
        let done = distinct_upto(v, k - 1);
        let now = distinct_upto(v, k);
        assert forall|i: int| 0 <= i < now.len() implies v.contains(#[trigger] now[i]) by {
            if i < done.len() {
                assert(now[i] == done[i]);
            } else {
                assert(now[i] == v[k - 1]);
            }
        }
    }
}

proof fn lemma_array(
    key: Seq<char>,
    from: Seq<char>,
    items: Seq<Val>,
    path: Seq<Seq<char>>,
    options: ResolvedOptions,
    g: Good,
)
    requires
        array_rules(key, from, items, path, options) is Ok,
        covers_value(g, key, Val::Arr(items), path, options),
        from == key || unwrapped(from) == key,
    ensures
        flat_good(array_rules(key, from, items, path, options)->Ok_0, g),
{
    let v = Val::Arr(items);
    let groups = grouped_upto(key, items, options, items.len() as int)->Ok_0;
    let flat = array_rules(key, from, items, path, options)->Ok_0;
    let none = Seq::<Seq<char>>::empty();
    lemma_grouped(key, items, options, items.len() as int);
    assert(path + none =~= path);
    assert(value_leads(v, none, v));
    assert forall|i: int| 0 <= i < flat.len() implies all_good((#[trigger] flat[i]).1, g) by {
        let (property, values) = groups[i];
        let d = distinct_upto(values, values.len() as int);
        lemma_distinct(values, values.len() as int);
        let p = full_path(property, rule_path(path, from, property));
        if d.len() > 0 {
            let value = if d.len() == 1 {
                PreRuleValueModel::Single(d[0])
            } else {
                PreRuleValueModel::Multi(d)
            };
            let all = rule_values(value);
            assert(all =~= d);
            assert forall|x: int| 0 <= x < all.len() implies item_declares(
                key,
                items,
                property,
                #[trigger] all[x],
                options,
            ) by {
                assert(values.contains(d[x]));
                let y = choose|y: int| 0 <= y < values.len() && values[y] == d[x];
                assert(item_declares(key, items, groups[i].0, groups[i].1[y], options));
            }
            assert(declares(key, v, property, value, options));
            if !is_condition(property) && !is_condition(key) && no_variables(path) {
                if from != key && path.contains(from) {
                    let n = choose|n: int| 0 <= n < path.len() && path[n] == from;
                    assert(unwrapped(path[n]) == path[n]);
                }
                lemma_rule_path(path, from, property);
            }
            assert(same_conditions(p, path + none, property, key, v));
            assert(g(property, value, p));
        }
    }
}

proof fn lemma_default_is_none(path: Seq<Seq<char>>, ats: Seq<Seq<char>>)
    ensures
        only_conditions(path.push("default"@) + ats) == only_conditions(path + ats),
        no_variables(path + ats) ==> no_variables(path.push("default"@) + ats),
{
    let pick = |k: Seq<char>| is_condition(k);
    Seq::filter_distributes_over_add(path.push("default"@), ats, pick);
    Seq::filter_distributes_over_add(path, ats, pick);
    reveal(Seq::filter);
    assert(path.push("default"@).drop_last() =~= path);
    lemma_default();
    if no_variables(path + ats) {
        let all = path.push("default"@) + ats;
        assert forall|i: int| 0 <= i < all.len() implies unwrapped(#[trigger] all[i]) == all[i] by {
            if i < path.len() {
                assert((path + ats)[i] == all[i]);
            } else if i > path.len() {
                assert((path + ats)[i - 1] == all[i]);
            }
        }
    }
}

proof fn lemma_default()
    ensures
        !is_condition("default"@),
        unwrapped("default"@) == "default"@,
{
    reveal_strlit("default");
    reveal_strlit(":");
    reveal_strlit("[");
    reveal_strlit("@");
    reveal_strlit("var(--");
    let s = "default"@;
    assert(s[0] == 'd');
    if has_prefix(s, ":"@) {
        assert(s.take(1)[0] == ':');
    }
    if has_prefix(s, "["@) {
        assert(s.take(1)[0] == '[');
    }
    if has_prefix(s, "@"@) {
        assert(s.take(1)[0] == '@');
    }
    if has_prefix(s, "var(--"@) {
        assert(s.take(6)[0] == 'v');
    }
    if exists|p: int, q: int| var_use(s, p, q) {
        let (p, q) = choose|p: int, q: int| var_use(s, p, q);
        assert(s.subrange(p, p + 6)[0] == 'v');
        assert(s[p] == 'v');
        assert(s[p] == 'd' || s[p] == 'e' || s[p] == 'f' || s[p] == 'a' || s[p] == 'u' || s[p]
            == 'l' || s[p] == 't');
    }
}

proof fn lemma_value(
    key: Seq<char>,
    v: Val,
    path: Seq<Seq<char>>,
    options: ResolvedOptions,
    g: Good,
)
    requires
        value_rules(key, v, path, options) is Ok,
        covers_value(g, key, v, path, options),
    ensures
        flat_good(value_rules(key, v, path, options)->Ok_0, g),
    decreases val_size(v), 0int,
{
    match v {
        Val::Null | Val::Str(_) | Val::Num(_) => {
            lemma_leaf(key, v, path, options, g);
        },
        Val::Arr(items) => {
            lemma_array(key, key, items, path, options, g);
        },
        Val::Obj(m) => {
            lemma_smaller(m);
            let e = for_in(m);
            lemma_conditions(key, m, e, path, options, e.len() as int, g);
            lemma_sets_of(conditions_upto(key, e, path, options, e.len() as int)->Ok_0, g);
        },
        _ => {},
    }
}

proof fn lemma_conditions(
    key: Seq<char>,
    m: ObjModel,
    e: Seq<(Seq<char>, Val)>,
    path: Seq<Seq<char>>,
    options: ResolvedOptions,
    k: int,
    g: Good,
)
    requires
        e == for_in(m),
        0 <= k <= e.len(),
        conditions_upto(key, e, path, options, k) is Ok,
        covers_value(g, key, Val::Obj(m), path, options),
    ensures
        groups_good(conditions_upto(key, e, path, options, k)->Ok_0, g),
    decreases total_size(e), k,
{
    if k > 0 {
        lemma_conditions(key, m, e, path, options, k - 1, g);
        lemma_entry_smaller(e, k - 1);
        let (c, w) = e[k - 1];
        let inner = path.push(c);
        let v = Val::Obj(m);
        assert(covers_value(g, key, w, inner, options)) by {
            assert forall|
                ats: Seq<Seq<char>>,
                leaf: Val,
                property: Seq<char>,
                value: PreRuleValueModel,
                p: Seq<Seq<char>>,
            |
                #![trigger value_leads(w, ats, leaf), g(property, value, p)]
                value_leads(w, ats, leaf) && declares(key, leaf, property, value, options)
                    && same_conditions(p, inner + ats, property, key, leaf) implies g(
                property,
                value,
                p,
            ) by {
                assert(for_in(m)[k - 1] == (c, w));
                if c == "default"@ {
                    assert(value_leads(v, ats, leaf));
                    lemma_default_is_none(path, ats);
                    assert(same_conditions(p, path + ats, property, key, leaf));
                } else {
                    let more = seq![c] + ats;
                    assert(more.skip(1) =~= ats);
                    assert(value_leads(v, more, leaf));
                    assert(path + more =~= inner + ats);
                }
            }
        }
        lemma_value(key, w, inner, options, g);
        let flat = value_rules(key, w, inner, options)->Ok_0;
        lemma_with_rules(
            conditions_upto(key, e, path, options, k - 1)->Ok_0,
            c,
            flat,
            flat.len() as int,
            g,
        );
    }
}

/// Whether what holds of the rules of an entry follows from what leads to them.
spec fn covers_entry(
    g: Good,
    raw: Seq<char>,
    v: Val,
    path: Seq<Seq<char>>,
    options: ResolvedOptions,
) -> bool {
    forall|
        ats: Seq<Seq<char>>,
        key: Seq<char>,
        leaf: Val,
        property: Seq<char>,
        value: PreRuleValueModel,
        p: Seq<Seq<char>>,
    |
        #![trigger entry_leads(raw, v, ats, key, leaf), g(property, value, p)]
        entry_leads(raw, v, ats, key, leaf) && declares(key, leaf, property, value, options)
            && same_conditions(p, path + ats, property, key, leaf) ==> g(property, value, p)
}

proof fn lemma_property_path(key: Seq<char>, path: Seq<Seq<char>>, ats: Seq<Seq<char>>, leaf: Val)
    requires
        !is_condition(key),
        unwrapped(key) == key,
    ensures
        only_conditions(property_path(key, path) + ats) == only_conditions(path + ats),
        no_variables(path + ats) ==> no_variables(property_path(key, path) + ats),
{
    if path.len() == 0 {
        let pick = |k: Seq<char>| is_condition(k);
        let one = seq![key];
        Seq::filter_distributes_over_add(one, ats, pick);
        lemma_one_key(key);
        assert(path + ats =~= ats);
        assert(Seq::<Seq<char>>::empty() + ats.filter(pick) =~= ats.filter(pick));
        if no_variables(path + ats) {
            let all = one + ats;
            assert forall|i: int| 0 <= i < all.len() implies unwrapped(#[trigger] all[i])
                == all[i] by {
                if i > 0 {
                    assert((path + ats)[i - 1] == all[i]);
                }
            }
        }
    }
}

proof fn lemma_entry(
    raw: Seq<char>,
    v: Val,
    path: Seq<Seq<char>>,
    options: ResolvedOptions,
    g: Good,
)
    requires
        entry_rules(raw, v, path, options) is Ok,
        covers_entry(g, raw, v, path, options),
        plain_keys(raw, v),
    ensures
        flat_good(entry_rules(raw, v, path, options)->Ok_0, g),
    decreases val_size(v), 0int,
{
    let key = unwrapped(raw);
    if is_leaf(v) {
        assert(covers_value(g, key, v, path, options)) by {
            assert forall|
                ats: Seq<Seq<char>>,
                leaf: Val,
                property: Seq<char>,
                value: PreRuleValueModel,
                p: Seq<Seq<char>>,
            |
                #![trigger value_leads(v, ats, leaf), g(property, value, p)]
                value_leads(v, ats, leaf) && declares(key, leaf, property, value, options)
                    && same_conditions(p, path + ats, property, key, leaf) implies g(
                property,
                value,
                p,
            ) by {
                assert(entry_leads(raw, v, ats, key, leaf));
            }
        }
        match v {
            Val::Arr(items) => {
                lemma_array(key, raw, items, path, options, g);
            },
            _ => {
                lemma_leaf(key, v, path, options, g);
            },
        }
    } else if let Val::Obj(m) = v {
        lemma_smaller(m);
        let e = for_in(m);
        if condition_key(key) {
            let inner = path.push(raw);
            assert forall|i: int| 0 <= i < e.len() implies covers_entry(
                g,
                (#[trigger] e[i]).0,
                e[i].1,
                inner,
                options,
            ) && plain_keys(e[i].0, e[i].1) by {
                assert(plain_keys(for_in(m)[i].0, for_in(m)[i].1));
                assert forall|
                    ats: Seq<Seq<char>>,
                    k: Seq<char>,
                    leaf: Val,
                    property: Seq<char>,
                    value: PreRuleValueModel,
                    p: Seq<Seq<char>>,
                |
                    #![trigger entry_leads(e[i].0, e[i].1, ats, k, leaf), g(property, value, p)]
                    entry_leads(e[i].0, e[i].1, ats, k, leaf) && declares(
                        k,
                        leaf,
                        property,
                        value,
                        options,
                    ) && same_conditions(p, inner + ats, property, k, leaf) implies g(
                    property,
                    value,
                    p,
                ) by {
                    let more = seq![raw] + ats;
                    assert(more.skip(1) =~= ats);
                    assert(for_in(m)[i] == e[i]);
                    assert(entry_leads(raw, v, more, k, leaf));
                    assert(path + more =~= inner + ats);
                }
            }
            lemma_styles(e, inner, options, e.len() as int, g);
            let flat = styles_upto(e, inner, options, e.len() as int)->Ok_0;
            let out = under(key, flat);
            assert forall|i: int| 0 <= i < out.len() implies all_good((#[trigger] out[i]).1, g) by {
                assert(all_good(flat[i].1, g));
            }
        } else {
            let from = property_path(key, path);
            assert(covers_value(g, key, v, from, options)) by {
                assert forall|
                    ats: Seq<Seq<char>>,
                    leaf: Val,
                    property: Seq<char>,
                    value: PreRuleValueModel,
                    p: Seq<Seq<char>>,
                |
                    #![trigger value_leads(v, ats, leaf), g(property, value, p)]
                    value_leads(v, ats, leaf) && declares(key, leaf, property, value, options)
                        && same_conditions(p, from + ats, property, key, leaf) implies g(
                    property,
                    value,
                    p,
                ) by {
                    assert(entry_leads(raw, v, ats, key, leaf));
                    if !is_condition(key) {
                        lemma_property_path(key, path, ats, leaf);
                    }
                    assert(same_conditions(p, path + ats, property, key, leaf));
                }
            }
            lemma_conditions(key, m, e, from, options, e.len() as int, g);
            lemma_sets_of(conditions_upto(key, e, from, options, e.len() as int)->Ok_0, g);
        }
    }
}

/// Whether every property that an entry of a style names is named without more variables
/// than one.
pub open spec fn plain_keys(raw: Seq<char>, v: Val) -> bool
    decreases val_size(v),
    via plain_keys_decreases
{
    &&& unwrapped(unwrapped(raw)) == unwrapped(raw)
    &&& match v {
        Val::Obj(m) => condition_key(unwrapped(raw)) ==> forall|i: int|
            #![trigger for_in(m)[i]]
            0 <= i < for_in(m).len() ==> plain_keys(for_in(m)[i].0, for_in(m)[i].1),
        _ => true,
    }
}

#[via_fn]
proof fn plain_keys_decreases(raw: Seq<char>, v: Val) {
    if let Val::Obj(m) = v {
        lemma_smaller(m);
    }
}

proof fn lemma_styles(
    e: Seq<(Seq<char>, Val)>,
    path: Seq<Seq<char>>,
    options: ResolvedOptions,
    k: int,
    g: Good,
)
    requires
        0 <= k <= e.len(),
        styles_upto(e, path, options, k) is Ok,
        forall|i: int|
            0 <= i < e.len() ==> covers_entry(g, (#[trigger] e[i]).0, e[i].1, path, options)
                && plain_keys(e[i].0, e[i].1),
    ensures
        flat_good(styles_upto(e, path, options, k)->Ok_0, g),
    decreases total_size(e), k,
{
    if k > 0 {
        lemma_styles(e, path, options, k - 1, g);
        lemma_entry_smaller(e, k - 1);
        assert(covers_entry(g, e[k - 1].0, e[k - 1].1, path, options));
        lemma_entry(e[k - 1].0, e[k - 1].1, path, options, g);
        let done = styles_upto(e, path, options, k - 1)->Ok_0;
        let flat = entry_rules(e[k - 1].0, e[k - 1].1, path, options)->Ok_0;
        let all = done + flat;
        assert forall|i: int| 0 <= i < all.len() implies all_good((#[trigger] all[i]).1, g) by {
            if i < done.len() {
                assert(all_good(done[i].1, g));
            } else {
                assert(all_good(flat[i - done.len()].1, g));
            }
        }
    }
}

/// Whether a rule is due in a style: a value of the style declares it, and the conditions in
/// its path are those that the value stands under.
pub open spec fn due(
    style: ObjModel,
    options: ResolvedOptions,
    property: Seq<char>,
    value: PreRuleValueModel,
    path: Seq<Seq<char>>,
) -> bool {
    exists|ats: Seq<Seq<char>>, key: Seq<char>, leaf: Val| #[trigger]
        style_leads(style, ats, key, leaf) && declares(key, leaf, property, value, options)
            && same_conditions(path, ats, property, key, leaf)
}

/// Whether the properties of a style are named without more variables than one.
pub open spec fn plain_style(style: ObjModel) -> bool {
    forall|i: int|
        #![trigger for_in(style)[i]]
        0 <= i < for_in(style).len() ==> plain_keys(for_in(style)[i].0, for_in(style)[i].1)
}

/// Every rule that a style is flattened to is due in it.
pub proof fn flattened_rules_are_due(style: ObjModel, options: ResolvedOptions)
    requires
        flattened(style, options) is Ok,
        plain_style(style),
    ensures
        forall|i: int|
            0 <= i < flattened(style, options)->Ok_0.len() ==> all_good(
                (#[trigger] flattened(style, options)->Ok_0[i]).1,
                |p: Seq<char>, v: PreRuleValueModel, path: Seq<Seq<char>>|
                    due(style, options, p, v, path),
            ),
{
    let g: Good = |p: Seq<char>, v: PreRuleValueModel, path: Seq<Seq<char>>|
        due(style, options, p, v, path);
    let e = for_in(style);
    let none = Seq::<Seq<char>>::empty();
    assert forall|i: int| 0 <= i < e.len() implies covers_entry(
        g,
        (#[trigger] e[i]).0,
        e[i].1,
        none,
        options,
    ) && plain_keys(e[i].0, e[i].1) by {
        assert(plain_keys(for_in(style)[i].0, for_in(style)[i].1));
        assert forall|
            ats: Seq<Seq<char>>,
            k: Seq<char>,
            leaf: Val,
            property: Seq<char>,
            value: PreRuleValueModel,
            p: Seq<Seq<char>>,
        |
            #![trigger entry_leads(e[i].0, e[i].1, ats, k, leaf), g(property, value, p)]
            entry_leads(e[i].0, e[i].1, ats, k, leaf) && declares(k, leaf, property, value, options)
                && same_conditions(p, none + ats, property, k, leaf) implies g(
            property,
            value,
            p,
        ) by {
            assert(none + ats =~= ats);
            assert(for_in(style)[i] == e[i]);
            assert(style_leads(style, ats, k, leaf));
        }
    }
    lemma_styles(e, none, options, e.len() as int, g);
}

proof fn lemma_parts(path: Seq<Seq<char>>, k: int)
    requires
        0 <= k <= path.len(),
    ensures
        parts_upto(path, PathPart::Pseudo, k) == selectors_in(path.take(k)),
        parts_upto(path, PathPart::AtRule, k) == at_rules_in(path.take(k)),
        parts_upto(path, PathPart::Const, k) == constants_in(path.take(k)),
    decreases k,
{
    reveal(Seq::filter);
    if k > 0 {
        lemma_parts(path, k - 1);
        assert(path.take(k).drop_last() =~= path.take(k - 1));
        assert(path.take(k).last() == path[k - 1]);
    } else {
        assert(path.take(0) =~= Seq::empty());
    }
}

proof fn lemma_path_rule(
    property: Seq<char>,
    value: PreRuleValueModel,
    p: Seq<Seq<char>>,
    options: ResolvedOptions,
)
    ensures
        path_rule(property, value, p, options) == compiled_rule(
            property,
            value,
            selectors_in(p),
            at_rules_in(p),
            constants_in(p),
            options,
        ),
{
    reveal(path_rule);
    lemma_parts(p, p.len() as int);
    assert(p.take(p.len() as int) =~= p);
}

/// Whether the rule that a path leads to is compiled under all the selectors, at-rules and
/// constants in it.
#[verifier::opaque]
pub open spec fn compiled_under_all(
    rule: Result<RuleModel, ErrorModel>,
    property: Seq<char>,
    value: PreRuleValueModel,
    p: Seq<Seq<char>>,
    options: ResolvedOptions,
) -> bool {
    rule == compiled_rule(
        property,
        value,
        selectors_in(p),
        at_rules_in(p),
        constants_in(p),
        options,
    )
}

/// A rule with a path is compiled under all the selectors, at-rules and constants in it.
pub proof fn paths_are_split_into_their_parts(
    property: Seq<char>,
    value: PreRuleValueModel,
    path: Option<Seq<Seq<char>>>,
    options: ResolvedOptions,
)
    ensures
        exists|rule: Result<RuleModel, ErrorModel>| #[trigger]
            compiled_under_all(rule, property, value, full_path(property, path), options)
                && match compiled(PreRuleModel::Rule(property, value, path), options) {
                Ok(v) => rule is Ok && v == seq![(rule->Ok_0, full_path(property, path))],
                Err(x) => rule == Err::<RuleModel, ErrorModel>(x),
            },
{
    let p = full_path(property, path);
    let rule = path_rule(property, value, p, options);
    assert(compiled_under_all(rule, property, value, p, options)) by {
        reveal(compiled_under_all);
        lemma_path_rule(property, value, p, options);
    }
}

/// Whether a compiled rule is due in a style: it is the rule of a value in it, under all the
/// conditions that the value stands under.
pub open spec fn rule_due(r: RuleModel, style: ObjModel, options: ResolvedOptions) -> bool {
    exists|property: Seq<char>, value: PreRuleValueModel, p: Seq<Seq<char>>| #[trigger]
        due(style, options, property, value, p) && compiled_under_all(
            Ok(r),
            property,
            value,
            p,
            options,
        )
}

spec fn dues(style: ObjModel, options: ResolvedOptions) -> Good {
    |p: Seq<char>, v: PreRuleValueModel, path: Seq<Seq<char>>| due(style, options, p, v, path)
}

spec fn all_due(v: CompiledModel, style: ObjModel, options: ResolvedOptions) -> bool {
    forall|i: int| 0 <= i < v.len() ==> rule_due((#[trigger] v[i]).0, style, options)
}

proof fn lemma_compiled(rule: PreRuleModel, style: ObjModel, options: ResolvedOptions)
    requires
        all_good(rule, dues(style, options)),
        compiled(rule, options) is Ok,
    ensures
        all_due(compiled(rule, options)->Ok_0, style, options),
    decreases rule, 0int,
{
    match rule {
        PreRuleModel::Rule(property, value, path) => {
            paths_are_split_into_their_parts(property, value, path, options);
            let p = full_path(property, path);
            let v = compiled(rule, options)->Ok_0;
            let one = choose|r: Result<RuleModel, ErrorModel>| #[trigger]
                compiled_under_all(r, property, value, p, options) && match compiled(
                    PreRuleModel::Rule(property, value, path),
                    options,
                ) {
                    Ok(v) => r is Ok && v == seq![(r->Ok_0, p)],
                    Err(x) => r == Err::<RuleModel, ErrorModel>(x),
                };
            assert(v[0].0 == one->Ok_0);
            assert(one == Ok::<RuleModel, ErrorModel>(v[0].0));
            assert(due(style, options, property, value, p));
        },
        PreRuleModel::Rules(rules) => {
            lemma_compiled_upto(rules, rules.len() as int, style, options);
        },
        _ => {},
    }
}

proof fn lemma_compiled_upto(
    rules: Seq<PreRuleModel>,
    k: int,
    style: ObjModel,
    options: ResolvedOptions,
)
    requires
        0 <= k <= rules.len(),
        forall|i: int|
            0 <= i < rules.len() ==> all_good(#[trigger] rules[i], dues(style, options)),
        compiled_upto(rules, options, k) is Ok,
    ensures
        all_due(compiled_upto(rules, options, k)->Ok_0, style, options),
    decreases rules, k,
{
    if k > 0 {
        lemma_compiled_upto(rules, k - 1, style, options);
        assert(all_good(rules[k - 1], dues(style, options)));
        lemma_compiled(rules[k - 1], style, options);
        let done = compiled_upto(rules, options, k - 1)->Ok_0;
        let more = compiled(rules[k - 1], options)->Ok_0;
        let all = done + more;
        assert forall|i: int| 0 <= i < all.len() implies rule_due(
            (#[trigger] all[i]).0,
            style,
            options,
        ) by {
            if i < done.len() {
                assert(all[i] == done[i]);
            } else {
                assert(all[i] == more[i - done.len()]);
            }
        }
    }
}

/// What is due in the namespaces of a call.
pub open spec fn due_somewhere(
    r: RuleModel,
    e: Seq<(Seq<char>, Val)>,
    options: ResolvedOptions,
) -> bool {
    exists|i: int|
        0 <= i < e.len() && (#[trigger] e[i]).1 is Obj && media_ordered(
            e[i].1->Obj_0,
            options,
        ) is Ok && rule_due(r, media_ordered(e[i].1->Obj_0, options)->Ok_0, options)
}

proof fn lemma_new_due(
    rules: Seq<RuleModel>,
    v: CompiledModel,
    k: int,
    e: Seq<(Seq<char>, Val)>,
    options: ResolvedOptions,
)
    requires
        0 <= k <= v.len(),
        forall|i: int| 0 <= i < rules.len() ==> due_somewhere(#[trigger] rules[i], e, options),
        forall|i: int| 0 <= i < v.len() ==> due_somewhere((#[trigger] v[i]).0, e, options),
    ensures
        forall|i: int|
            0 <= i < with_new(rules, v, k).len() ==> due_somewhere(
                #[trigger] with_new(rules, v, k)[i],
                e,
                options,
            ),
    decreases k,
{
    if k > 0 {
        lemma_new_due(rules, v, k - 1, e, options);
        let done = with_new(rules, v, k - 1);
        let now = with_new(rules, v, k);
        assert(due_somewhere(v[k - 1].0, e, options));
        assert forall|i: int| 0 <= i < now.len() implies due_somewhere(
            #[trigger] now[i],
            e,
            options,
        ) by {
            if i < done.len() {
                assert(now[i] == done[i]);
            }
        }
    }
}

proof fn lemma_keys_due(
    start: KeysModel,
    flat: FlatModel,
    options: ResolvedOptions,
    need: bool,
    k: int,
    e: Seq<(Seq<char>, Val)>,
    n: int,
)
    requires
        0 <= k <= flat.len(),
        0 <= n < e.len(),
        e[n].1 is Obj,
        media_ordered(e[n].1->Obj_0, options) is Ok,
        forall|i: int|
            0 <= i < flat.len() ==> all_good(
                (#[trigger] flat[i]).1,
                dues(media_ordered(e[n].1->Obj_0, options)->Ok_0, options),
            ),
        forall|i: int|
            0 <= i < start.rules.len() ==> due_somewhere(#[trigger] start.rules[i], e, options),
        keys_upto(start, flat, options, need, k) is Ok,
    ensures
        forall|i: int|
            0 <= i < keys_upto(start, flat, options, need, k)->Ok_0.rules.len() ==> due_somewhere(
                #[trigger] keys_upto(start, flat, options, need, k)->Ok_0.rules[i],
                e,
                options,
            ),
    decreases k,
{
    if k > 0 {
        lemma_keys_due(start, flat, options, need, k - 1, e, n);
        let s = keys_upto(start, flat, options, need, k - 1)->Ok_0;
        let v = compiled(flat[k - 1].1, options)->Ok_0;
        let style = media_ordered(e[n].1->Obj_0, options)->Ok_0;
        assert(all_good(flat[k - 1].1, dues(style, options)));
        lemma_compiled(flat[k - 1].1, style, options);
        assert forall|i: int| 0 <= i < v.len() implies due_somewhere(
            (#[trigger] v[i]).0,
            e,
            options,
        ) by {
            assert(rule_due(v[i].0, style, options));
            assert(e[n].1 is Obj);
        }
        lemma_new_due(s.rules, v, v.len() as int, e, options);
    }
}

/// Whether the properties of every namespace are named without more variables than one.
pub open spec fn plain_namespaces(e: Seq<(Seq<char>, Val)>, options: ResolvedOptions) -> bool {
    forall|i: int|
        0 <= i < e.len() && (#[trigger] e[i]).1 is Obj && media_ordered(
            e[i].1->Obj_0,
            options,
        ) is Ok ==> plain_style(media_ordered(e[i].1->Obj_0, options)->Ok_0)
}

proof fn lemma_namespace_due(
    s: OutputModel,
    e: Seq<(Seq<char>, Val)>,
    n: int,
    options: ResolvedOptions,
    shape: ShapeModel,
    need: bool,
)
    requires
        0 <= n < e.len(),
        plain_namespaces(e, options),
        forall|i: int| 0 <= i < s.rules.len() ==> due_somewhere(#[trigger] s.rules[i], e, options),
        with_namespace(s, e[n].0, e[n].1, options, shape, need) is Ok,
    ensures
        ({
            let out = with_namespace(s, e[n].0, e[n].1, options, shape, need)->Ok_0;
            forall|i: int|
                0 <= i < out.rules.len() ==> due_somewhere(#[trigger] out.rules[i], e, options)
        }),
{
    if e[n].0 != "__proto__"@ {
        let v = e[n].1;
        let last = namespace_rules(v, options)->Ok_0;
        assert(v is Obj);
        let style = media_ordered(v->Obj_0, options)->Ok_0;
        let flat = flattened(style, options)->Ok_0;
        assert(e[n].1 is Obj);
        flattened_rules_are_due(style, options);
        assert forall|i: int| 0 <= i < last.len() implies all_good(
            (#[trigger] last[i]).1,
            dues(style, options),
        ) by {
            last_rule_of_a_key_stays(flat);
            assert(last == last_of_each(flat));
            let j = choose|j: int| 0 <= j < flat.len() && flat[j] == last[i];
            assert(all_good(flat[j].1, dues(style, options)));
        }
        let start = KeysModel {
            entries: first_entries(shape, e[n].0),
            paths: Seq::empty(),
            rules: s.rules,
        };
        lemma_keys_due(start, last, options, need, last.len() as int, e, n);
    }
}

proof fn lemma_namespaces_due(
    e: Seq<(Seq<char>, Val)>,
    options: ResolvedOptions,
    shape: ShapeModel,
    need: bool,
    k: int,
)
    requires
        0 <= k <= e.len(),
        plain_namespaces(e, options),
        namespaces_upto(e, options, shape, need, k) is Ok,
    ensures
        ({
            let out = namespaces_upto(e, options, shape, need, k)->Ok_0;
            forall|i: int|
                0 <= i < out.rules.len() ==> due_somewhere(#[trigger] out.rules[i], e, options)
        }),
    decreases k,
{
    if k > 0 {
        lemma_namespaces_due(e, options, shape, need, k - 1);
        let s = namespaces_upto(e, options, shape, need, k - 1)->Ok_0;
        lemma_namespace_due(s, e, k - 1, options, shape, need);
    }
}

/// Every rule of the output is that of a value in one of the namespaces, under exactly the
/// selectors, at-rules and constants that the value stands under.
pub proof fn output_rules_are_due(
    e: Seq<(Seq<char>, Val)>,
    options: ResolvedOptions,
    shape: ShapeModel,
    need_paths: bool,
)
    requires
        core_output(e, options, shape, need_paths) is Ok,
        plain_namespaces(e, options),
    ensures
        ({
            let out = core_output(e, options, shape, need_paths)->Ok_0;
            forall|i: int|
                0 <= i < out.rules.len() ==> due_somewhere(#[trigger] out.rules[i], e, options)
        }),
{
    lemma_namespaces_due(e, options, shape, need_paths, e.len() as int);
}

} // verus!
