//! Where the variables of a file are set: inside exactly the at-rules that they were written
//! under, for every element and for those of their group.

use crate::errors::ErrorModel;
use crate::hash::hash_text;
use crate::jsrt::{sorted_texts, Collation};
use crate::options::ResolvedOptions;
use crate::rules::RuleModel;
use crate::shared::create_theme::bare_value;
use crate::shared::define_consts::{const_key, export_id};
use crate::shared::define_vars::{
    declared_from, group_class, group_rule, keyed_put, named_upto, property_rule, typed_rules,
    vars_output, with_groups, TypedModel,
};
use crate::shared::for_in::{lemma_as_object_size, lemma_entry_smaller, total_size, val_size};
use crate::shared::frame_laws::lemma_put;
use crate::shared::group_laws::{
    adds, filled, group_holds, lemma_collected, lemma_filled, lemma_group_text, lemma_same_group,
    leads_to, unmarked, variable_set,
};
use crate::shared::rule_laws::in_conditions;
use crate::shared::types::css_type_of;
use crate::shared::vars_utils::{
    at_rules_for, collected, collected_from, default_of, group_key, lacks_default,
    with_declaration, CollectionModel,
};
use crate::text::concat_texts;
use crate::value::{
    as_object, as_object_upto, find_key, keys_of, lemma_find_key, put_then_read, value_of, Val,
};
use vstd::prelude::*;

verus! {

/// Whether a file sets a variable to a text under the given at-rules: one of its entries leads
/// there, and `name` is the name of its variable.
pub open spec fn file_sets(
    e: Seq<(Seq<char>, Val)>,
    id: Seq<char>,
    options: ResolvedOptions,
    i: int,
    name: Seq<char>,
    ats: Seq<Seq<char>>,
    text: Seq<char>,
) -> bool {
    &&& 0 <= i < e.len()
    &&& name == const_key(e[i].0, id, options)
    &&& leads_to(bare_value(e[i].1), ats, text)
}

/// Whether every at-rule that the variables name is an ordinary one.
pub open spec fn ordinary_conditions(
    e: Seq<(Seq<char>, Val)>,
    id: Seq<char>,
    options: ResolvedOptions,
) -> bool {
    forall|i: int, name: Seq<char>, ats: Seq<Seq<char>>, text: Seq<char>| #[trigger]
        file_sets(e, id, options, i, name, ats, text) ==> unmarked(ats) && forall|j: int|
            0 <= j < ats.len() ==> #[trigger] ats[j] != "default"@
}

/// Whether a declaration is one that the file makes under the given at-rules.
pub open spec fn made_under(
    e: Seq<(Seq<char>, Val)>,
    id: Seq<char>,
    options: ResolvedOptions,
    ats: Seq<Seq<char>>,
    decl: Seq<char>,
) -> bool {
    exists|i: int, name: Seq<char>, own: Seq<Seq<char>>, text: Seq<char>| #[trigger]
        file_sets(e, id, options, i, name, own, text) && sorted_texts(own, Collation::Units)
            == sorted_texts(ats, Collation::Units) && decl == variable_set(name, text)
}

/// Whether a rule holds declarations under at-rules, for every element and for those of the group.
pub open spec fn rule_holds(
    rule: RuleModel,
    group: Seq<char>,
    ats: Seq<Seq<char>>,
    decls: Seq<Seq<char>>,
) -> bool {
    &&& rule.ltr == in_conditions(
        sorted_texts(ats, Collation::Units),
        ":root, ."@ + group + "{"@ + concat_texts(decls) + "}"@,
    )
    &&& rule.rtl is None
}

/// Whether a rule sets variables of the file, inside the at-rules that they were written under.
pub open spec fn sets_variables(
    rule: RuleModel,
    e: Seq<(Seq<char>, Val)>,
    id: Seq<char>,
    options: ResolvedOptions,
    group: Seq<char>,
) -> bool {
    exists|ats: Seq<Seq<char>>, decls: Seq<Seq<char>>| #[trigger]
        rule_holds(rule, group, ats, decls) && decls.len() > 0 && forall|j: int|
            0 <= j < decls.len() ==> made_under(e, id, options, ats, #[trigger] decls[j])
}

/// Whether a rule says of which type a variable of the file is, and what it is at first.
pub open spec fn types_variable(
    rule: RuleModel,
    e: Seq<(Seq<char>, Val)>,
    id: Seq<char>,
    options: ResolvedOptions,
    i: int,
) -> bool {
    &&& 0 <= i < e.len()
    &&& css_type_of(e[i].1) matches Some((syntax, inner)) && default_of(inner) matches Ok(d)
        && rule.ltr == "@property --"@ + const_key(e[i].0, id, options) + " { syntax: \""@ + syntax
        + "\"; inherits: true;"@ + (match d {
        Some(t) => " initial-value: "@ + t,
        None => Seq::empty(),
    }) + " }"@
    &&& rule.rtl is None
}

spec fn distinct(c: CollectionModel) -> bool {
    forall|i: int, j: int| 0 <= i < j < c.len() ==> (#[trigger] c[i]).0 != (#[trigger] c[j]).0
}

proof fn lemma_distinct_with(c: CollectionModel, group: Seq<char>, decl: Seq<char>)
    requires
        distinct(c),
    ensures
        distinct(with_declaration(c, group, decl)),
{
    lemma_find_key(keys_of(c), group, 0);
    let out = with_declaration(c, group, decl);
    let at = find_key(keys_of(c), group, 0);
    if at >= c.len() {
        assert forall|i: int, j: int| 0 <= i < j < out.len() implies (#[trigger] out[i]).0 != (
        #[trigger] out[j]).0 by {
            assert(keys_of(c)[i] == c[i].0);
            if j < c.len() {
                assert(c[i].0 != c[j].0);
            }
        }
    } else {
        assert(keys_of(c)[at] == c[at].0);
        assert forall|i: int, j: int| 0 <= i < j < out.len() implies (#[trigger] out[i]).0 != (
        #[trigger] out[j]).0 by {
            assert(c[i].0 != c[j].0);
            assert(out[i].0 == c[i].0 && out[j].0 == c[j].0);
        }
    }
}

proof fn lemma_distinct(
    key: Seq<char>,
    name: Seq<char>,
    v: Val,
    c: CollectionModel,
    around: Seq<Seq<char>>,
)
    requires
        distinct(c),
    ensures
        distinct(collected(key, name, v, c, around).0),
    decreases val_size(v), 0int,
{
    match v {
        Val::Str(s) => {
            lemma_distinct_with(c, group_key(around), variable_set(name, s));
        },
        Val::Num(n) => {
            lemma_distinct_with(c, group_key(around), variable_set(name, n.text_spec()));
        },
        Val::Obj(m) => {
            lemma_as_object_size(m.entries, m.entries.len() as int);
            if !lacks_default(m.entries) {
                lemma_distinct_from(key, name, as_object(m.entries), 0, c, around);
            }
        },
        _ => {},
    }
}

proof fn lemma_distinct_from(
    key: Seq<char>,
    name: Seq<char>,
    e: Seq<(Seq<char>, Val)>,
    i: int,
    c: CollectionModel,
    around: Seq<Seq<char>>,
)
    requires
        distinct(c),
        0 <= i <= e.len(),
    ensures
        distinct(collected_from(key, name, e, i, c, around).0),
    decreases total_size(e), e.len() - i,
{
    if i < e.len() {
        lemma_entry_smaller(e, i);
        let inner = at_rules_for(e[i].0, around);
        lemma_distinct(key, name, e[i].1, c, inner);
        let (after, error) = collected(key, name, e[i].1, c, inner);
        if error is None {
            lemma_distinct_from(key, name, e, i + 1, after, around);
        }
    }
}

spec fn var_adds(vars: Seq<(Seq<char>, Seq<char>, Val)>, j: int, g: Seq<char>, d: Seq<char>) -> bool {
    adds(vars[j].2, vars[j].1, Seq::empty(), g, d)
}

proof fn lemma_declared_from(vars: Seq<(Seq<char>, Seq<char>, Val)>, i: int, c: CollectionModel)
    requires
        0 <= i <= vars.len(),
        declared_from(vars, i, c).1 is None,
        filled(c),
        distinct(c),
    ensures
        filled(declared_from(vars, i, c).0),
        distinct(declared_from(vars, i, c).0),
        forall|g: Seq<char>, d: Seq<char>| #[trigger]
            group_holds(declared_from(vars, i, c).0, g, d) ==> group_holds(c, g, d) || exists|j: int|
                i <= j < vars.len() && var_adds(vars, j, g, d),
    decreases vars.len() - i,
{
    if i < vars.len() {
        let none = Seq::<Seq<char>>::empty();
        let (after, error) = collected(vars[i].0, vars[i].1, vars[i].2, c, none);
        lemma_filled(vars[i].0, vars[i].1, vars[i].2, c, none);
        lemma_distinct(vars[i].0, vars[i].1, vars[i].2, c, none);
        lemma_declared_from(vars, i + 1, after);
        assert forall|g: Seq<char>, d: Seq<char>| #[trigger]
            group_holds(declared_from(vars, i, c).0, g, d) implies group_holds(c, g, d) || exists|
            j: int,
        | i <= j < vars.len() && var_adds(vars, j, g, d) by {
            assert(group_holds(declared_from(vars, i + 1, after).0, g, d));
            if group_holds(after, g, d) {
                lemma_collected(vars[i].0, vars[i].1, vars[i].2, c, none, g, d);
                if !group_holds(c, g, d) {
                    assert(var_adds(vars, i, g, d));
                }
            }
        }
    }
}

/// Whether variables are those of the entries.
spec fn of_entries(
    vars: Seq<(Seq<char>, Seq<char>, Val)>,
    e: Seq<(Seq<char>, Val)>,
    id: Seq<char>,
    options: ResolvedOptions,
) -> bool {
    &&& vars.len() <= e.len()
    &&& forall|i: int|
        0 <= i < vars.len() ==> (#[trigger] vars[i]).1 == const_key(e[i].0, id, options) && vars[i].2
            == bare_value(e[i].1)
}

/// Whether types are those of the entries.
spec fn typed_of(
    t: TypedModel,
    e: Seq<(Seq<char>, Val)>,
    id: Seq<char>,
    options: ResolvedOptions,
) -> bool {
    forall|x: (Seq<char>, (Option<Seq<char>>, Seq<char>))| #[trigger]
        t.contains(x) ==> exists|i: int| typed_by(x, e, id, options, i)
}

spec fn typed_by(
    x: (Seq<char>, (Option<Seq<char>>, Seq<char>)),
    e: Seq<(Seq<char>, Val)>,
    id: Seq<char>,
    options: ResolvedOptions,
    i: int,
) -> bool {
    &&& 0 <= i < e.len()
    &&& x.0 == const_key(e[i].0, id, options)
    &&& css_type_of(e[i].1) matches Some((syntax, inner)) && syntax == x.1.1 && default_of(inner) == Ok::<
        Option<Seq<char>>,
        ErrorModel,
    >(x.1.0)
}

proof fn lemma_named(e: Seq<(Seq<char>, Val)>, id: Seq<char>, options: ResolvedOptions, k: int)
    requires
        0 <= k <= e.len(),
        named_upto(e, id, options, k) is Ok,
    ensures
        named_upto(e, id, options, k)->Ok_0.vars.len() == k,
        of_entries(named_upto(e, id, options, k)->Ok_0.vars, e, id, options),
        typed_of(named_upto(e, id, options, k)->Ok_0.typed, e, id, options),
    decreases k,
{
    if k > 0 {
        lemma_named(e, id, options, k - 1);
        let before = named_upto(e, id, options, k - 1)->Ok_0;
        let s = named_upto(e, id, options, k)->Ok_0;
        let name = const_key(e[k - 1].0, id, options);
        match css_type_of(e[k - 1].1) {
            Some((syntax, inner)) => {
                let d = default_of(inner)->Ok_0;
                let x = (name, (d, syntax));
                lemma_put(before.typed, name, (d, syntax));
                assert(typed_by(x, e, id, options, k - 1));
                assert forall|y: (Seq<char>, (Option<Seq<char>>, Seq<char>))| #[trigger]
                    s.typed.contains(y) implies exists|i: int| typed_by(y, e, id, options, i) by {
                    if y != x {
                        assert(before.typed.contains(y));
                    }
                }
            },
            None => {},
        }
    }
}

proof fn lemma_arranged(c: CollectionModel, k: int)
    requires
        0 <= k <= c.len(),
    ensures
        forall|x: (Seq<char>, Seq<Seq<char>>)| #[trigger]
            as_object_upto(c, k).contains(x) ==> c.contains(x),
    decreases k,
{
    if k > 0 {
        lemma_arranged(c, k - 1);
        lemma_put(as_object_upto(c, k - 1), c[k - 1].0, c[k - 1].1);
        assert(c.contains(c[k - 1]));
        assert(c[k - 1] == (c[k - 1].0, c[k - 1].1));
    }
}

proof fn lemma_keyed_put(e: Seq<(Seq<char>, RuleModel)>, k: Seq<char>, v: RuleModel)
    ensures
        forall|x: (Seq<char>, RuleModel)| #[trigger]
            keyed_put(e, k, v).contains(x) ==> x == (k, v) || e.contains(x),
{
    lemma_put(e, k, v);
}

/// Whether a rule is one of a typed variable.
spec fn typed_rule(rule: RuleModel, t: TypedModel, i: int) -> bool {
    0 <= i < t.len() && rule == property_rule(t[i].0, t[i].1.0, t[i].1.1)
}

proof fn lemma_typed_rules(t: TypedModel, k: int)
    requires
        0 <= k <= t.len(),
    ensures
        forall|x: (Seq<char>, RuleModel)| #[trigger]
            typed_rules(t, k).contains(x) ==> exists|i: int| typed_rule(x.1, t, i),
    decreases k,
{
    if k > 0 {
        lemma_typed_rules(t, k - 1);
        let rule = property_rule(t[k - 1].0, t[k - 1].1.0, t[k - 1].1.1);
        let before = typed_rules(t, k - 1);
        let name = t[k - 1].0;
        lemma_keyed_put(before, name, rule);
        assert(typed_rule(rule, t, k - 1));
        assert(typed_rules(t, k) == keyed_put(before, name, rule));
        assert forall|x: (Seq<char>, RuleModel)| #[trigger]
            typed_rules(t, k).contains(x) implies exists|i: int| typed_rule(x.1, t, i) by {
            if x != (name, rule) {
                assert(before.contains(x));
            } else {
                assert(typed_rule(x.1, t, k - 1));
            }
        }
    }
}

/// Whether a rule is one of a group.
spec fn grouped_rule(rule: RuleModel, c: CollectionModel, group: Seq<char>, i: int) -> bool {
    0 <= i < c.len() && rule == group_rule(group, c[i].0, c[i].1)
}

proof fn lemma_with_groups(
    rules: Seq<(Seq<char>, RuleModel)>,
    c: CollectionModel,
    group: Seq<char>,
    k: int,
)
    requires
        0 <= k <= c.len(),
    ensures
        forall|x: (Seq<char>, RuleModel)| #[trigger]
            with_groups(rules, c, group, k).contains(x) ==> rules.contains(x) || exists|i: int|
                grouped_rule(x.1, c, group, i),
    decreases k,
{
    if k > 0 {
        lemma_with_groups(rules, c, group, k - 1);
        let rule = group_rule(group, c[k - 1].0, c[k - 1].1);
        let before = with_groups(rules, c, group, k - 1);
        let class = group_class(group, c[k - 1].0);
        lemma_keyed_put(before, class, rule);
        assert(grouped_rule(rule, c, group, k - 1));
        assert(with_groups(rules, c, group, k) == keyed_put(before, class, rule));
        assert forall|x: (Seq<char>, RuleModel)| #[trigger]
            with_groups(rules, c, group, k).contains(x) implies rules.contains(x) || exists|i: int|
            grouped_rule(x.1, c, group, i) by {
            if x != (class, rule) {
                assert(before.contains(x));
            } else {
                assert(grouped_rule(x.1, c, group, k - 1));
            }
        }
    }
}

proof fn lemma_group_is_due(
    e: Seq<(Seq<char>, Val)>,
    id: Seq<char>,
    options: ResolvedOptions,
    vars: Seq<(Seq<char>, Seq<char>, Val)>,
    c: CollectionModel,
    group: Seq<char>,
    at: int,
)
    requires
        of_entries(vars, e, id, options),
        ordinary_conditions(e, id, options),
        filled(c),
        distinct(c),
        0 <= at < c.len(),
        forall|g: Seq<char>, d: Seq<char>| #[trigger]
            group_holds(c, g, d) ==> exists|j: int| 0 <= j < vars.len() && var_adds(vars, j, g, d),
    ensures
        sets_variables(group_rule(group, c[at].0, c[at].1), e, id, options, group),
{
    let g = c[at].0;
    let decls = c[at].1;
    lemma_find_key(keys_of(c), g, 0);
    assert(keys_of(c)[at] == g);
    let first = find_key(keys_of(c), g, 0);
    assert(first == at) by {
        if first < at {
            assert(keys_of(c)[first] == c[first].0);
            assert(c[first].0 != c[at].0);
        }
    }
    assert(value_of(c, g) == Some(decls));
    assert(decls.len() > 0);
    let (j0, ats, t0) = lemma_made(e, id, options, vars, c, g, decls[0]);
    let body = ":root, ."@ + group + "{"@ + concat_texts(decls) + "}"@;
    lemma_group_text(body, ats);
    let rule = group_rule(group, g, decls);
    assert(rule_holds(rule, group, ats, decls));
    assert forall|j: int| 0 <= j < decls.len() implies made_under(
        e,
        id,
        options,
        ats,
        #[trigger] decls[j],
    ) by {
        let (i, own, text) = lemma_made(e, id, options, vars, c, g, decls[j]);
        lemma_same_group(own, ats);
        assert(file_sets(e, id, options, i, vars[i].1, own, text));
    }
}

proof fn lemma_made(
    e: Seq<(Seq<char>, Val)>,
    id: Seq<char>,
    options: ResolvedOptions,
    vars: Seq<(Seq<char>, Seq<char>, Val)>,
    c: CollectionModel,
    g: Seq<char>,
    d: Seq<char>,
) -> (r: (int, Seq<Seq<char>>, Seq<char>))
    requires
        of_entries(vars, e, id, options),
        ordinary_conditions(e, id, options),
        value_of(c, g) is Some,
        value_of(c, g)->0.contains(d),
        forall|g: Seq<char>, d: Seq<char>| #[trigger]
            group_holds(c, g, d) ==> exists|j: int| 0 <= j < vars.len() && var_adds(vars, j, g, d),
    ensures
        0 <= r.0 < vars.len(),
        file_sets(e, id, options, r.0, vars[r.0].1, r.1, r.2),
        g == group_key(r.1),
        d == variable_set(vars[r.0].1, r.2),
        unmarked(r.1),
        forall|j: int| 0 <= j < r.1.len() ==> #[trigger] r.1[j] != "default"@,
{
    let none = Seq::<Seq<char>>::empty();
    assert(group_holds(c, g, d));
    let i = choose|j: int| 0 <= j < vars.len() && var_adds(vars, j, g, d);
    let (ats, text) = choose|ats: Seq<Seq<char>>, text: Seq<char>| #[trigger]
        leads_to(vars[i].2, ats, text) && g == group_key(none + ats) && d == variable_set(
            vars[i].1,
            text,
        );
    assert(none + ats =~= ats);
    assert(file_sets(e, id, options, i, vars[i].1, ats, text));
    (i, ats, text)
}

/// Every rule of the variables of a file says of which type one of them is, or sets some of them
/// for every element and for those of the group, inside the at-rules that they were written under
/// and inside nothing else.
pub proof fn variables_are_set_where_written(
    e: Seq<(Seq<char>, Val)>,
    file: Seq<char>,
    export: Seq<char>,
    options: ResolvedOptions,
)
    requires
        vars_output(e, file, export, options) is Ok,
        ordinary_conditions(e, export_id(file, export), options),
    ensures
        ({
            let id = export_id(file, export);
            let group = options.class_name_prefix@ + hash_text(id);
            let out = vars_output(e, file, export, options)->Ok_0;
            &&& value_of(out.entries, "__varGroupHash__"@) == Some(Val::Str(group))
            &&& forall|r: int|
                0 <= r < out.rules.len() ==> (sets_variables(
                    #[trigger] out.rules[r],
                    e,
                    id,
                    options,
                    group,
                ) || exists|i: int| types_variable(out.rules[r], e, id, options, i))
        }),
{
    let id = export_id(file, export);
    let group = options.class_name_prefix@ + hash_text(id);
    let out = vars_output(e, file, export, options)->Ok_0;
    let s = named_upto(e, id, options, e.len() as int)->Ok_0;
    let empty: CollectionModel = Seq::empty();
    let c = declared_from(s.vars, 0, empty).0;
    let typed = typed_rules(s.typed, s.typed.len() as int);
    let arranged = as_object(c);
    let rules = with_groups(typed, arranged, group, arranged.len() as int);
    lemma_named(e, id, options, e.len() as int);
    assert forall|h: Seq<char>| (#[trigger] value_of(empty, h)) is Some implies value_of(
        empty,
        h,
    )->0.len() > 0 by {
        lemma_find_key(keys_of(empty), h, 0);
    }
    lemma_declared_from(s.vars, 0, empty);
    assert forall|g: Seq<char>, d: Seq<char>| #[trigger] group_holds(c, g, d) implies exists|j: int|
        0 <= j < s.vars.len() && var_adds(s.vars, j, g, d) by {
        lemma_find_key(keys_of(empty), g, 0);
        assert(!group_holds(empty, g, d));
    }
    lemma_arranged(c, c.len() as int);
    lemma_typed_rules(s.typed, s.typed.len() as int);
    lemma_with_groups(typed, arranged, group, arranged.len() as int);
    put_then_read(s.entries, "__varGroupHash__"@, Val::Str(group));
    assert forall|r: int| 0 <= r < out.rules.len() implies (sets_variables(
        #[trigger] out.rules[r],
        e,
        id,
        options,
        group,
    ) || exists|i: int| types_variable(out.rules[r], e, id, options, i)) by {
        let x = rules[r];
        assert(rules.contains(x));
        if typed.contains(x) {
            let i = choose|i: int| typed_rule(x.1, s.typed, i);
            let y = s.typed[i];
            assert(s.typed.contains(y));
            let j = choose|j: int| typed_by(y, e, id, options, j);
            assert(types_variable(x.1, e, id, options, j));
        } else {
            let i = choose|i: int| grouped_rule(x.1, arranged, group, i);
            let y = arranged[i];
            assert(arranged.contains(y));
            let at = choose|at: int| 0 <= at < c.len() && c[at] == y;
            lemma_group_is_due(e, id, options, s.vars, c, group, at);
        }
    }
}

} // verus!
