//! Where the declarations of variables stand: inside exactly the at-rules that they were
//! written under.

use crate::errors::ErrorModel;
use crate::hash::hash_text;
use crate::jsrt::{sorted_texts, sorting_is_sorting, Collation};
use crate::options::ResolvedOptions;
use crate::rules::RuleModel;
use crate::shared::create_theme::{
    bare_value, group_declarations, hashed_groups, others_upto, theme_from, theme_group,
    theme_order, theme_output, theme_rule, theme_var_name, ThemeModel,
};
use crate::shared::define_vars::{call_entries, group_text};
use crate::shared::for_in::{lemma_as_object_size, lemma_entry_smaller, total_size, val_size};
use crate::shared::rule_laws::{closed, in_conditions, opened};
use crate::shared::vars_utils::{
    at_rules_for, collected, collected_from, group_key, inside, lacks_default, with_declaration,
    CollectionModel, SPLIT_TOKEN,
};
use crate::text::{at_pos, concat_texts, first_place, join_first, join_texts, split_parts};
use crate::value::{
    append_put, as_object, find_key, keys_of, lemma_find_key, put, put_keeps_others, put_then_read,
    value_of, Val,
};
use vstd::prelude::*;

verus! {

/// Whether no text holds a dollar sign, which marks the places between the at-rules of a
/// group.
pub open spec fn unmarked(v: Seq<Seq<char>>) -> bool {
    forall|i: int| 0 <= i < v.len() ==> !(#[trigger] v[i]).contains('$')
}

proof fn lemma_token()
    ensures
        SPLIT_TOKEN@.len() == 6,
        SPLIT_TOKEN@[0] == '_',
        SPLIT_TOKEN@[1] == '_',
        SPLIT_TOKEN@[2] == '$',
        SPLIT_TOKEN@[3] == '$',
        SPLIT_TOKEN@[4] == '_',
        SPLIT_TOKEN@[5] == '_',
{
    reveal_strlit("__$$__");
}

proof fn lemma_place_is(s: Seq<char>, p: Seq<char>, from: int, at: int)
    requires
        0 <= from <= at <= s.len(),
        at < s.len() ==> at_pos(s, p, at),
        forall|j: int| from <= j < at ==> !#[trigger] at_pos(s, p, j),
    ensures
        first_place(s, p, from) == at,
    decreases at - from,
{
    if from < at {
        assert(!at_pos(s, p, from));
        lemma_place_is(s, p, from + 1, at);
    }
}

proof fn lemma_place(s: Seq<char>, p: Seq<char>, from: int)
    requires
        0 <= from <= s.len(),
    ensures
        from <= first_place(s, p, from) <= s.len(),
        first_place(s, p, from) < s.len() ==> at_pos(s, p, first_place(s, p, from)),
        forall|j: int| from <= j < first_place(s, p, from) ==> !#[trigger] at_pos(s, p, j),
    decreases s.len() - from,
{
    if from < s.len() && !at_pos(s, p, from) {
        lemma_place(s, p, from + 1);
    }
}

proof fn lemma_at_shifted(x: Seq<char>, y: Seq<char>, p: Seq<char>, i: int)
    requires
        0 <= i,
    ensures
        at_pos(x + y, p, x.len() + i) == at_pos(y, p, i),
{
    if i + p.len() <= y.len() {
        assert((x + y).subrange(x.len() + i, x.len() + i + p.len()) =~= y.subrange(
            i,
            i + p.len(),
        ));
    }
}

proof fn lemma_split_shifted(x: Seq<char>, y: Seq<char>, p: Seq<char>, i: int)
    requires
        0 <= i <= y.len(),
        p.len() > 0,
    ensures
        split_parts(x + y, p, x.len() + i) == split_parts(y, p, i),
    decreases y.len() - i,
{
    let s = x + y;
    let n = x.len() as int;
    lemma_place(y, p, i);
    let at = first_place(y, p, i);
    if at < y.len() {
        lemma_at_shifted(x, y, p, at);
    }
    assert forall|j: int| n + i <= j < n + at implies !#[trigger] at_pos(s, p, j) by {
        lemma_at_shifted(x, y, p, j - n);
        assert(!at_pos(y, p, j - n));
    }
    lemma_place_is(s, p, n + i, n + at);
    if at < y.len() {
        lemma_split_shifted(x, y, p, at + p.len());
        assert(s.subrange(n + i, n + at) =~= y.subrange(i, at));
    } else {
        assert(s.skip(n + i) =~= y.skip(i));
    }
}

proof fn lemma_join_front(v: Seq<Seq<char>>, sep: Seq<char>, n: int)
    requires
        2 <= n <= v.len(),
    ensures
        join_first(v, sep, n) == v[0] + sep + join_first(v.skip(1), sep, n - 1),
    decreases n,
{
    let w = v.skip(1);
    if n == 2 {
        reveal_with_fuel(join_first, 3);
        assert(w[0] == v[1]);
    } else {
        lemma_join_front(v, sep, n - 1);
        assert(w[n - 2] == v[n - 1]);
        assert(join_first(v, sep, n) =~= v[0] + sep + join_first(w, sep, n - 1));
    }
}

proof fn lemma_no_token(x: Seq<char>, y: Seq<char>, j: int)
    requires
        !x.contains('$'),
        0 <= j < x.len(),
        y.len() >= 2 ==> y[0] == '_' && y[1] == '_',
        y.len() < 2 ==> y.len() == 0,
    ensures
        !at_pos(x + y, SPLIT_TOKEN@, j),
{
    lemma_token();
    let s = x + y;
    if at_pos(s, SPLIT_TOKEN@, j) {
        assert(s.subrange(j, j + 6)[2] == '$');
        assert(s[j + 2] == '$');
        if j + 2 < x.len() {
            assert(x[j + 2] == '$');
        } else if j + 2 - x.len() < 2 {
            assert(s[j + 2] == y[j + 2 - x.len()]);
        }
    }
}

/// At-rules that were put together into the key of a group come out of it again.
proof fn lemma_split_joined(v: Seq<Seq<char>>)
    requires
        v.len() > 0,
        unmarked(v),
    ensures
        split_parts(join_texts(v, SPLIT_TOKEN@), SPLIT_TOKEN@, 0) == v,
    decreases v.len(),
{
    let p = SPLIT_TOKEN@;
    let x = v[0];
    lemma_token();
    if v.len() == 1 {
        let none = Seq::<char>::empty();
        assert(x + none =~= x);
        assert forall|j: int| 0 <= j < x.len() implies !#[trigger] at_pos(x, p, j) by {
            lemma_no_token(x, none, j);
        }
        lemma_place_is(x, p, 0, x.len() as int);
        assert(x.skip(0) =~= x);
        assert(v =~= seq![x]);
    } else {
        let w = v.skip(1);
        assert(unmarked(w)) by {
            assert forall|i: int| 0 <= i < w.len() implies !(#[trigger] w[i]).contains('$') by {
                assert(w[i] == v[i + 1]);
            }
        }
        lemma_join_front(v, p, v.len() as int);
        let rest = join_texts(w, p);
        let s = x + p + rest;
        let tail = p + rest;
        assert(s =~= x + tail);
        assert forall|j: int| 0 <= j < x.len() implies !#[trigger] at_pos(s, p, j) by {
            lemma_no_token(x, tail, j);
        }
        assert(at_pos(s, p, x.len() as int)) by {
            assert(s.subrange(x.len() as int, x.len() as int + 6) =~= p);
        }
        lemma_place_is(s, p, 0, x.len() as int);
        lemma_split_shifted(x + p, rest, p, 0);
        lemma_split_joined(w);
        assert(s.subrange(0, x.len() as int) =~= x);
        assert(split_parts(s, p, 0) =~= seq![x] + w);
        assert(seq![x] + w =~= v);
    }
}

proof fn lemma_sorted_unmarked(ats: Seq<Seq<char>>)
    requires
        unmarked(ats),
    ensures
        unmarked(sorted_texts(ats, Collation::Units)),
{
    let out = sorted_texts(ats, Collation::Units);
    sorting_is_sorting(ats, Collation::Units);
    out.to_multiset_ensures();
    ats.to_multiset_ensures();
    assert forall|i: int| 0 <= i < out.len() implies !(#[trigger] out[i]).contains('$') by {
        assert(out.contains(out[i]));
        assert(ats.to_multiset().count(out[i]) > 0);
        assert(ats.contains(out[i]));
        let j = choose|j: int| 0 <= j < ats.len() && ats[j] == out[i];
        assert(!ats[j].contains('$'));
    }
}

proof fn lemma_inside(text: Seq<char>, ats: Seq<Seq<char>>, k: int)
    requires
        0 <= k <= ats.len(),
    ensures
        inside(text, ats, k) == opened(ats, k) + text + closed(k as nat),
    decreases k,
{
    reveal_strlit("}");
    if k > 0 {
        lemma_inside(text, ats, k - 1);
        assert(inside(text, ats, k) =~= opened(ats, k) + text + closed(k as nat));
    } else {
        assert(inside(text, ats, k) =~= opened(ats, k) + text + closed(k as nat));
    }
}

proof fn lemma_not_default(ats: Seq<Seq<char>>)
    requires
        ats.len() > 0,
        unmarked(ats),
        forall|i: int| 0 <= i < ats.len() ==> #[trigger] ats[i] != "default"@,
    ensures
        group_key(ats) != "default"@,
{
    let s = sorted_texts(ats, Collation::Units);
    sorting_is_sorting(ats, Collation::Units);
    lemma_sorted_unmarked(ats);
    lemma_split_joined(s);
    if group_key(ats) == "default"@ {
        let one = seq!["default"@];
        reveal_strlit("default");
        assert(!"default"@.contains('$'));
        assert(unmarked(one));
        lemma_split_joined(one);
        assert(join_texts(one, SPLIT_TOKEN@) == "default"@);
        assert(s == one);
        s.to_multiset_ensures();
        ats.to_multiset_ensures();
        assert(s.contains(s[0]));
        assert(ats.to_multiset().count(s[0]) > 0);
        assert(ats.contains("default"@));
    }
}

/// A text that is put into the group of at-rules stands inside all of them, and inside
/// nothing else.
pub(crate) proof fn lemma_group_text(body: Seq<char>, ats: Seq<Seq<char>>)
    requires
        unmarked(ats),
        forall|i: int| 0 <= i < ats.len() ==> #[trigger] ats[i] != "default"@,
    ensures
        group_text(body, group_key(ats)) == in_conditions(
            sorted_texts(ats, Collation::Units),
            body,
        ),
{
    let s = sorted_texts(ats, Collation::Units);
    sorting_is_sorting(ats, Collation::Units);
    if ats.len() == 0 {
        assert(in_conditions(s, body) =~= body);
    } else {
        lemma_not_default(ats);
        lemma_sorted_unmarked(ats);
        lemma_split_joined(s);
        lemma_inside(body, s, s.len() as int);
    }
}

/// Whether a value of a variable leads to a text under the given at-rules: objects name an
/// at-rule with each key but `default`.
pub open spec fn leads_to(v: Val, ats: Seq<Seq<char>>, text: Seq<char>) -> bool
    decreases val_size(v),
    via leads_to_decreases
{
    match v {
        Val::Str(s) => ats.len() == 0 && text == s,
        Val::Num(n) => ats.len() == 0 && text == n.text_spec(),
        Val::Obj(m) => exists|i: int|
            #![trigger as_object(m.entries)[i]]
            0 <= i < as_object(m.entries).len() && if as_object(m.entries)[i].0 == "default"@ {
                leads_to(as_object(m.entries)[i].1, ats, text)
            } else {
                ats.len() > 0 && ats[0] == as_object(m.entries)[i].0 && leads_to(
                    as_object(m.entries)[i].1,
                    ats.skip(1),
                    text,
                )
            },
        _ => false,
    }
}

#[via_fn]
proof fn leads_to_decreases(v: Val, ats: Seq<Seq<char>>, text: Seq<char>) {
    if let Val::Obj(m) = v {
        lemma_as_object_size(m.entries, m.entries.len() as int);
        assert forall|i: int| 0 <= i < as_object(m.entries).len() implies val_size(
            (#[trigger] as_object(m.entries)[i]).1,
        ) < val_size(v) by {
            lemma_entry_smaller(as_object(m.entries), i);
        }
    }
}

/// The text of a declaration of a variable.
pub open spec fn variable_set(name: Seq<char>, text: Seq<char>) -> Seq<char> {
    "--"@ + name + ":"@ + text + ";"@
}

/// Whether a group holds a declaration.
pub open spec fn group_holds(c: CollectionModel, group: Seq<char>, decl: Seq<char>) -> bool {
    value_of(c, group) is Some && value_of(c, group)->0.contains(decl)
}

proof fn lemma_append_put<T>(e: Seq<(Seq<char>, T)>, k: Seq<char>, v: T, other: Seq<char>)
    ensures
        value_of(append_put(e, k, v), other) == if other == k {
            Some(v)
        } else {
            value_of(e, other)
        },
        keys_of(append_put(e, k, v)) == if value_of(e, k) is Some {
            keys_of(e)
        } else {
            keys_of(e).push(k)
        },
{
    let now = append_put(e, k, v);
    let i = find_key(keys_of(e), k, 0);
    lemma_find_key(keys_of(e), k, 0);
    lemma_find_key(keys_of(e), other, 0);
    lemma_find_key(keys_of(now), other, 0);
    let a = find_key(keys_of(e), other, 0);
    let b = find_key(keys_of(now), other, 0);
    if i < e.len() {
        assert(keys_of(now) =~= keys_of(e));
    } else {
        assert(keys_of(now) =~= keys_of(e).push(k));
        if a < e.len() {
            assert(keys_of(now)[a] == other);
            if b < a {
                assert(keys_of(e)[b] == keys_of(now)[b]);
            }
        } else if other == k {
            assert(keys_of(now)[e.len() as int] == k);
            if b < e.len() {
                assert(keys_of(e)[b] == keys_of(now)[b]);
            }
        } else if b < now.len() {
            if b < e.len() {
                assert(keys_of(e)[b] == keys_of(now)[b]);
            }
        }
    }
}

proof fn lemma_with_declaration(
    c: CollectionModel,
    group: Seq<char>,
    decl: Seq<char>,
    g: Seq<char>,
    d: Seq<char>,
)
    ensures
        group_holds(with_declaration(c, group, decl), g, d) <==> group_holds(c, g, d) || (g == group
            && d == decl),
{
    let before = match value_of(c, group) {
        Some(v) => v,
        None => Seq::empty(),
    };
    let now = before.push(decl);
    lemma_append_put(c, group, now, g);
    if g == group {
        assert(now.last() == decl);
        if d == decl {
            assert(now[now.len() - 1] == d);
        }
        if before.contains(d) {
            let i = choose|i: int| 0 <= i < before.len() && before[i] == d;
            assert(now[i] == d);
        }
        if now.contains(d) && d != decl {
            let i = choose|i: int| 0 <= i < now.len() && now[i] == d;
            assert(before[i] == d);
        }
    }
}

/// Whether a value adds a declaration to a group, under at-rules that stand around it.
pub(crate) open spec fn adds(
    v: Val,
    name: Seq<char>,
    around: Seq<Seq<char>>,
    g: Seq<char>,
    d: Seq<char>,
) -> bool {
    exists|ats: Seq<Seq<char>>, text: Seq<char>| #[trigger]
        leads_to(v, ats, text) && g == group_key(around + ats) && d == variable_set(name, text)
}

pub(crate) proof fn lemma_collected(
    key: Seq<char>,
    name: Seq<char>,
    v: Val,
    c: CollectionModel,
    around: Seq<Seq<char>>,
    g: Seq<char>,
    d: Seq<char>,
)
    requires
        collected(key, name, v, c, around).1 is None,
    ensures
        group_holds(collected(key, name, v, c, around).0, g, d) <==> group_holds(c, g, d) || adds(
            v,
            name,
            around,
            g,
            d,
        ),
    decreases val_size(v), 0int,
{
    let none = Seq::<Seq<char>>::empty();
    match v {
        Val::Str(s) => {
            lemma_with_declaration(c, group_key(around), variable_set(name, s), g, d);
            assert(around + none =~= around);
            if adds(v, name, around, g, d) {
                let (ats, text) = choose|ats: Seq<Seq<char>>, text: Seq<char>| #[trigger]
                    leads_to(v, ats, text) && g == group_key(around + ats) && d == variable_set(
                        name,
                        text,
                    );
                assert(ats =~= none);
            }
            if g == group_key(around) && d == variable_set(name, s) {
                assert(leads_to(v, none, s));
            }
        },
        Val::Num(n) => {
            let s = n.text_spec();
            lemma_with_declaration(c, group_key(around), variable_set(name, s), g, d);
            assert(around + none =~= around);
            if adds(v, name, around, g, d) {
                let (ats, text) = choose|ats: Seq<Seq<char>>, text: Seq<char>| #[trigger]
                    leads_to(v, ats, text) && g == group_key(around + ats) && d == variable_set(
                        name,
                        text,
                    );
                assert(ats =~= none);
            }
            if g == group_key(around) && d == variable_set(name, s) {
                assert(leads_to(v, none, s));
            }
        },
        Val::Obj(m) => {
            let e = as_object(m.entries);
            lemma_as_object_size(m.entries, m.entries.len() as int);
            lemma_collected_from(key, name, e, 0, c, around, g, d);
            if adds(v, name, around, g, d) {
                let (ats, text) = choose|ats: Seq<Seq<char>>, text: Seq<char>| #[trigger]
                    leads_to(v, ats, text) && g == group_key(around + ats) && d == variable_set(
                        name,
                        text,
                    );
                let i = choose|i: int|
                    #![trigger as_object(m.entries)[i]]
                    0 <= i < e.len() && if e[i].0 == "default"@ {
                        leads_to(e[i].1, ats, text)
                    } else {
                        ats.len() > 0 && ats[0] == e[i].0 && leads_to(e[i].1, ats.skip(1), text)
                    };
                let inner = at_rules_for(e[i].0, around);
                if e[i].0 == "default"@ {
                    assert(adds(e[i].1, name, inner, g, d));
                } else {
                    assert(inner + ats.skip(1) =~= around + ats);
                    assert(adds(e[i].1, name, inner, g, d));
                }
                assert(entry_adds(e, i, name, around, g, d));
            }
            if exists|i: int| 0 <= i < e.len() && #[trigger] entry_adds(e, i, name, around, g, d) {
                let i = choose|i: int|
                    0 <= i < e.len() && #[trigger] entry_adds(e, i, name, around, g, d);
                let inner = at_rules_for(e[i].0, around);
                let (ats, text) = choose|ats: Seq<Seq<char>>, text: Seq<char>| #[trigger]
                    leads_to(e[i].1, ats, text) && g == group_key(inner + ats) && d == variable_set(
                        name,
                        text,
                    );
                assert(as_object(m.entries)[i] == e[i]);
                if e[i].0 == "default"@ {
                    assert(leads_to(v, ats, text));
                } else {
                    let more = seq![e[i].0] + ats;
                    assert(more.skip(1) =~= ats);
                    assert(inner + ats =~= around + more);
                    assert(leads_to(v, more, text));
                }
            }
        },
        _ => {},
    }
}

spec fn entry_adds(
    e: Seq<(Seq<char>, Val)>,
    i: int,
    name: Seq<char>,
    around: Seq<Seq<char>>,
    g: Seq<char>,
    d: Seq<char>,
) -> bool {
    adds(e[i].1, name, at_rules_for(e[i].0, around), g, d)
}

proof fn lemma_collected_from(
    key: Seq<char>,
    name: Seq<char>,
    e: Seq<(Seq<char>, Val)>,
    i: int,
    c: CollectionModel,
    around: Seq<Seq<char>>,
    g: Seq<char>,
    d: Seq<char>,
)
    requires
        0 <= i <= e.len(),
        collected_from(key, name, e, i, c, around).1 is None,
    ensures
        group_holds(collected_from(key, name, e, i, c, around).0, g, d) <==> group_holds(c, g, d)
            || exists|j: int| i <= j < e.len() && #[trigger] entry_adds(e, j, name, around, g, d),
    decreases total_size(e), e.len() - i,
{
    if i < e.len() {
        lemma_entry_smaller(e, i);
        let inner = at_rules_for(e[i].0, around);
        let (after, error) = collected(key, name, e[i].1, c, inner);
        lemma_collected(key, name, e[i].1, c, inner, g, d);
        lemma_collected_from(key, name, e, i + 1, after, around, g, d);
        assert(entry_adds(e, i, name, around, g, d) == adds(e[i].1, name, inner, g, d));
        if exists|j: int| i <= j < e.len() && #[trigger] entry_adds(e, j, name, around, g, d) {
            let j = choose|j: int| i <= j < e.len() && #[trigger] entry_adds(
                e,
                j,
                name,
                around,
                g,
                d,
            );
            if j > i {
                assert(i + 1 <= j < e.len() && entry_adds(e, j, name, around, g, d));
            }
        }
    }
}

/// Whether a theme sets a variable to a text under the given at-rules: `key` leads there, and
/// `name` is the name of the variable in its group.
pub open spec fn theme_sets(
    theme: Val,
    e: Seq<(Seq<char>, Val)>,
    key: Seq<char>,
    name: Seq<char>,
    ats: Seq<Seq<char>>,
    text: Seq<char>,
) -> bool {
    &&& keys_of(e).contains(key)
    &&& theme_var_name(theme, key) matches Ok(n) && n == name
    &&& leads_to(bare_value(value_of(e, key)->0), ats, text)
}

spec fn theme_adds(
    theme: Val,
    e: Seq<(Seq<char>, Val)>,
    key: Seq<char>,
    g: Seq<char>,
    d: Seq<char>,
) -> bool {
    adds(
        bare_value(value_of(e, key)->0),
        theme_var_name(theme, key)->Ok_0,
        Seq::empty(),
        g,
        d,
    )
}

proof fn lemma_theme_from(
    theme: Val,
    e: Seq<(Seq<char>, Val)>,
    keys: Seq<Seq<char>>,
    i: int,
    c: CollectionModel,
    g: Seq<char>,
    d: Seq<char>,
)
    requires
        0 <= i <= keys.len(),
        theme_from(theme, e, keys, i, c) is Ok,
    ensures
        group_holds(theme_from(theme, e, keys, i, c)->Ok_0, g, d) <==> group_holds(c, g, d)
            || exists|j: int|
            i <= j < keys.len() && theme_adds(theme, e, #[trigger] keys[j], g, d),
        forall|j: int| i <= j < keys.len() ==> theme_var_name(theme, #[trigger] keys[j]) is Ok,
    decreases keys.len() - i,
{
    if i < keys.len() {
        let name = theme_var_name(theme, keys[i])->Ok_0;
        let v = bare_value(value_of(e, keys[i])->0);
        let (after, error) = collected(keys[i], name, v, c, Seq::empty());
        lemma_collected(keys[i], name, v, c, Seq::empty(), g, d);
        lemma_theme_from(theme, e, keys, i + 1, after, g, d);
        assert(theme_adds(theme, e, keys[i], g, d) == adds(v, name, Seq::empty(), g, d));
    }
}

/// Whether a rule of a theme holds a declaration under at-rules, with the class of the theme.
pub open spec fn rule_sets(
    rule: RuleModel,
    class: Seq<char>,
    ats: Seq<Seq<char>>,
    decls: Seq<Seq<char>>,
) -> bool {
    &&& rule.ltr == in_conditions(
        sorted_texts(ats, Collation::Units),
        "."@ + class + ", ."@ + class + ":root{"@ + concat_texts(decls) + "}"@,
    )
    &&& rule.rtl is None
}

/// Whether every at-rule that a theme names is an ordinary one.
pub open spec fn ordinary_at_rules(theme: Val, e: Seq<(Seq<char>, Val)>) -> bool {
    forall|key: Seq<char>, name: Seq<char>, ats: Seq<Seq<char>>, text: Seq<char>| #[trigger]
        theme_sets(theme, e, key, name, ats, text) ==> unmarked(ats) && forall|i: int|
            0 <= i < ats.len() ==> #[trigger] ats[i] != "default"@
}

proof fn lemma_group_of(theme: Val, e: Seq<(Seq<char>, Val)>, c: CollectionModel, g: Seq<char>)
    requires
        ({
            let keys = sorted_texts(keys_of(e), Collation::Units);
            theme_from(theme, e, keys, 0, Seq::empty()) == Ok::<CollectionModel, ErrorModel>(c)
        }),
    ensures
        forall|d: Seq<char>| #[trigger]
            group_holds(c, g, d) <==> exists|
                key: Seq<char>,
                name: Seq<char>,
                ats: Seq<Seq<char>>,
                text: Seq<char>,
            | #[trigger]
                theme_sets(theme, e, key, name, ats, text) && g == group_key(ats) && d
                    == variable_set(name, text),
{
    let keys = sorted_texts(keys_of(e), Collation::Units);
    let none = Seq::<Seq<char>>::empty();
    let empty: CollectionModel = Seq::empty();
    sorting_is_sorting(keys_of(e), Collation::Units);
    keys.to_multiset_ensures();
    keys_of(e).to_multiset_ensures();
    assert forall|d: Seq<char>| #[trigger] group_holds(c, g, d) <==> exists|
        key: Seq<char>,
        name: Seq<char>,
        ats: Seq<Seq<char>>,
        text: Seq<char>,
    | #[trigger]
        theme_sets(theme, e, key, name, ats, text) && g == group_key(ats) && d == variable_set(
            name,
            text,
        ) by {
        lemma_theme_from(theme, e, keys, 0, empty, g, d);
        lemma_find_key(keys_of(empty), g, 0);
        assert(!group_holds(empty, g, d));
        if group_holds(c, g, d) {
            let j = choose|j: int| 0 <= j < keys.len() && theme_adds(
                theme,
                e,
                #[trigger] keys[j],
                g,
                d,
            );
            let key = keys[j];
            let name = theme_var_name(theme, key)->Ok_0;
            let v = bare_value(value_of(e, key)->0);
            let (ats, text) = choose|ats: Seq<Seq<char>>, text: Seq<char>| #[trigger]
                leads_to(v, ats, text) && g == group_key(none + ats) && d == variable_set(
                    name,
                    text,
                );
            assert(none + ats =~= ats);
            assert(keys.contains(key));
            assert(keys.to_multiset().count(key) > 0);
            assert(keys_of(e).contains(key));
            assert(theme_sets(theme, e, key, name, ats, text));
        }
        if exists|key: Seq<char>, name: Seq<char>, ats: Seq<Seq<char>>, text: Seq<char>| #[trigger]
            theme_sets(theme, e, key, name, ats, text) && g == group_key(ats) && d == variable_set(
                name,
                text,
            ) {
            let (key, name, ats, text) = choose|
                key: Seq<char>,
                name: Seq<char>,
                ats: Seq<Seq<char>>,
                text: Seq<char>,
            | #[trigger]
                theme_sets(theme, e, key, name, ats, text) && g == group_key(ats) && d
                    == variable_set(name, text);
            assert(keys_of(e).to_multiset().count(key) > 0);
            assert(keys.contains(key));
            let j = choose|j: int| 0 <= j < keys.len() && keys[j] == key;
            assert(none + ats =~= ats);
            assert(theme_adds(theme, e, keys[j], g, d));
        }
    }
}

/// Whether no group is empty.
pub(crate) open spec fn filled(c: CollectionModel) -> bool {
    forall|g: Seq<char>|
        (#[trigger] value_of(c, g)) is Some ==> value_of(c, g)->0.len() > 0
}

proof fn lemma_filled_with(c: CollectionModel, group: Seq<char>, decl: Seq<char>)
    requires
        filled(c),
    ensures
        filled(with_declaration(c, group, decl)),
{
    let before = match value_of(c, group) {
        Some(v) => v,
        None => Seq::empty(),
    };
    let out = with_declaration(c, group, decl);
    assert forall|g: Seq<char>| (#[trigger] value_of(out, g)) is Some implies value_of(
        out,
        g,
    )->0.len() > 0 by {
        lemma_append_put(c, group, before.push(decl), g);
        assert(value_of(c, g) is Some ==> value_of(c, g)->0.len() > 0);
    }
}

pub(crate) proof fn lemma_filled(
    key: Seq<char>,
    name: Seq<char>,
    v: Val,
    c: CollectionModel,
    around: Seq<Seq<char>>,
)
    requires
        filled(c),
    ensures
        filled(collected(key, name, v, c, around).0),
    decreases val_size(v), 0int,
{
    match v {
        Val::Str(s) => {
            lemma_filled_with(c, group_key(around), variable_set(name, s));
        },
        Val::Num(n) => {
            lemma_filled_with(c, group_key(around), variable_set(name, n.text_spec()));
        },
        Val::Obj(m) => {
            lemma_as_object_size(m.entries, m.entries.len() as int);
            if !lacks_default(m.entries) {
                lemma_filled_from(key, name, as_object(m.entries), 0, c, around);
            }
        },
        _ => {},
    }
}

proof fn lemma_filled_from(
    key: Seq<char>,
    name: Seq<char>,
    e: Seq<(Seq<char>, Val)>,
    i: int,
    c: CollectionModel,
    around: Seq<Seq<char>>,
)
    requires
        filled(c),
        0 <= i <= e.len(),
    ensures
        filled(collected_from(key, name, e, i, c, around).0),
    decreases total_size(e), e.len() - i,
{
    if i < e.len() {
        lemma_entry_smaller(e, i);
        let inner = at_rules_for(e[i].0, around);
        lemma_filled(key, name, e[i].1, c, inner);
        let (after, error) = collected(key, name, e[i].1, c, inner);
        if error is None {
            lemma_filled_from(key, name, e, i + 1, after, around);
        }
    }
}

proof fn lemma_theme_filled(
    theme: Val,
    e: Seq<(Seq<char>, Val)>,
    keys: Seq<Seq<char>>,
    i: int,
    c: CollectionModel,
)
    requires
        filled(c),
        0 <= i <= keys.len(),
        theme_from(theme, e, keys, i, c) is Ok,
    ensures
        filled(theme_from(theme, e, keys, i, c)->Ok_0),
    decreases keys.len() - i,
{
    if i < keys.len() {
        let name = theme_var_name(theme, keys[i])->Ok_0;
        let v = bare_value(value_of(e, keys[i])->0);
        lemma_filled(keys[i], name, v, c, Seq::empty());
        let (after, error) = collected(keys[i], name, v, c, Seq::empty());
        lemma_theme_filled(theme, e, keys, i + 1, after);
    }
}

proof fn lemma_others(keys: Seq<Seq<char>>, k: int)
    requires
        0 <= k <= keys.len(),
    ensures
        forall|g: Seq<char>| #[trigger]
            others_upto(keys, k).contains(g) <==> g != "default"@ && exists|i: int|
                0 <= i < k && #[trigger] keys[i] == g,
    decreases k,
{
    if k > 0 {
        lemma_others(keys, k - 1);
        let done = others_upto(keys, k - 1);
        let now = others_upto(keys, k);
        assert forall|g: Seq<char>| #[trigger] now.contains(g) <==> g != "default"@ && exists|
            i: int,
        |
            0 <= i < k && #[trigger] keys[i] == g by {
            if now.contains(g) {
                let j = choose|j: int| 0 <= j < now.len() && now[j] == g;
                if j < done.len() {
                    assert(done[j] == g);
                    assert(done.contains(g));
                } else {
                    assert(keys[k - 1] == g);
                }
            }
            if g != "default"@ && exists|i: int| 0 <= i < k && #[trigger] keys[i] == g {
                let i = choose|i: int| 0 <= i < k && #[trigger] keys[i] == g;
                if i < k - 1 {
                    assert(done.contains(g));
                    let j = choose|j: int| 0 <= j < done.len() && done[j] == g;
                    assert(now[j] == g);
                } else {
                    assert(now[done.len() as int] == g);
                }
            }
        }
    }
}

/// The order of the groups of a theme holds every group.
proof fn lemma_theme_order(keys: Seq<Seq<char>>, g: Seq<char>)
    ensures
        theme_order(keys).contains(g) <==> keys.contains(g),
{
    let others = others_upto(keys, keys.len() as int);
    let sorted = sorted_texts(others, Collation::Dictionary);
    let out = theme_order(keys);
    lemma_others(keys, keys.len() as int);
    sorting_is_sorting(others, Collation::Dictionary);
    sorted.to_multiset_ensures();
    others.to_multiset_ensures();
    assert(sorted.contains(g) == others.contains(g)) by {
        assert(sorted.contains(g) == (sorted.to_multiset().count(g) > 0));
        assert(others.contains(g) == (others.to_multiset().count(g) > 0));
    }
    assert(others.contains(g) == (g != "default"@ && keys.contains(g))) by {
        if keys.contains(g) && g != "default"@ {
            let i = choose|i: int| 0 <= i < keys.len() && keys[i] == g;
            assert(keys[i] == g);
        }
    }
    let first = if keys.contains("default"@) {
        seq!["default"@]
    } else {
        Seq::empty()
    };
    assert(out == first + sorted);
    if out.contains(g) {
        let i = choose|i: int| 0 <= i < out.len() && out[i] == g;
        if i < first.len() {
            assert(g == "default"@);
        } else {
            assert(sorted[i - first.len()] == g);
            assert(sorted.contains(g));
        }
    }
    if keys.contains(g) {
        if g == "default"@ {
            assert(out[0] == g);
        } else {
            let i = choose|i: int| 0 <= i < sorted.len() && sorted[i] == g;
            assert(out[first.len() + i] == g);
        }
    }
}

/// Groups of ordinary at-rules have the same key only where they have the same at-rules.
pub(crate) proof fn lemma_same_group(a: Seq<Seq<char>>, b: Seq<Seq<char>>)
    requires
        unmarked(a),
        unmarked(b),
        forall|i: int| 0 <= i < a.len() ==> #[trigger] a[i] != "default"@,
        forall|i: int| 0 <= i < b.len() ==> #[trigger] b[i] != "default"@,
        group_key(a) == group_key(b),
    ensures
        sorted_texts(a, Collation::Units) == sorted_texts(b, Collation::Units),
{
    let x = sorted_texts(a, Collation::Units);
    let y = sorted_texts(b, Collation::Units);
    sorting_is_sorting(a, Collation::Units);
    sorting_is_sorting(b, Collation::Units);
    if a.len() > 0 {
        lemma_not_default(a);
    }
    if b.len() > 0 {
        lemma_not_default(b);
    }
    if a.len() > 0 && b.len() > 0 {
        lemma_sorted_unmarked(a);
        lemma_sorted_unmarked(b);
        lemma_split_joined(x);
        lemma_split_joined(y);
    } else {
        assert(x =~= y);
    }
}

/// Whether declarations are what a theme sets under the given at-rules.
pub open spec fn set_under(
    theme: Val,
    e: Seq<(Seq<char>, Val)>,
    ats: Seq<Seq<char>>,
    decl: Seq<char>,
) -> bool {
    exists|key: Seq<char>, name: Seq<char>, own: Seq<Seq<char>>, text: Seq<char>| #[trigger]
        theme_sets(theme, e, key, name, own, text) && sorted_texts(own, Collation::Units)
            == sorted_texts(ats, Collation::Units) && decl == variable_set(name, text)
}

/// Whether a rule of a theme stands inside some at-rules and holds nothing but what the theme
/// sets under them.
pub open spec fn rule_is_due(
    rule: RuleModel,
    class: Seq<char>,
    theme: Val,
    e: Seq<(Seq<char>, Val)>,
) -> bool {
    exists|ats: Seq<Seq<char>>, decls: Seq<Seq<char>>| #[trigger]
        rule_sets(rule, class, ats, decls) && forall|j: int|
            0 <= j < decls.len() ==> set_under(theme, e, ats, #[trigger] decls[j])
}

/// Whether a rule sets a variable to a text under the given at-rules.
pub open spec fn set_by(
    rule: RuleModel,
    class: Seq<char>,
    name: Seq<char>,
    ats: Seq<Seq<char>>,
    text: Seq<char>,
) -> bool {
    exists|decls: Seq<Seq<char>>| #[trigger]
        rule_sets(rule, class, ats, decls) && decls.contains(variable_set(name, text))
}

/// Whether a theme says exactly what its overrides do: every rule stands inside the at-rules
/// that its declarations were written under, and every override stands in a rule.
pub open spec fn theme_says(
    theme: Val,
    e: Seq<(Seq<char>, Val)>,
    out: ThemeModel,
    class: Seq<char>,
) -> bool {
    &&& forall|i: int|
        0 <= i < out.rules.len() ==> rule_is_due(#[trigger] out.rules[i], class, theme, e)
    &&& forall|key: Seq<char>, name: Seq<char>, ats: Seq<Seq<char>>, text: Seq<char>| #[trigger]
        theme_sets(theme, e, key, name, ats, text) ==> exists|i: int|
            0 <= i < out.rules.len() && set_by(#[trigger] out.rules[i], class, name, ats, text)
}

proof fn lemma_key_there<T>(c: Seq<(Seq<char>, T)>, g: Seq<char>)
    ensures
        keys_of(c).contains(g) == value_of(c, g) is Some,
{
    lemma_find_key(keys_of(c), g, 0);
    let at = find_key(keys_of(c), g, 0);
    if keys_of(c).contains(g) {
        let i = choose|i: int| 0 <= i < keys_of(c).len() && keys_of(c)[i] == g;
        assert(at <= i);
    }
    if at < c.len() {
        assert(keys_of(c)[at] == g);
    }
}

proof fn lemma_theme_rule(
    theme: Val,
    e: Seq<(Seq<char>, Val)>,
    c: CollectionModel,
    class: Seq<char>,
    g: Seq<char>,
)
    requires
        ordinary_at_rules(theme, e),
        ({
            let keys = sorted_texts(keys_of(e), Collation::Units);
            theme_from(theme, e, keys, 0, Seq::empty()) == Ok::<CollectionModel, ErrorModel>(c)
        }),
        value_of(c, g) is Some,
    ensures
        rule_is_due(theme_rule(class, g, group_declarations(c, g)), class, theme, e),
{
    let keys = sorted_texts(keys_of(e), Collation::Units);
    let decls = value_of(c, g)->0;
    let empty: CollectionModel = Seq::empty();
    assert(filled(empty)) by {
        assert forall|h: Seq<char>| (#[trigger] value_of(empty, h)) is Some implies value_of(
            empty,
            h,
        )->0.len() > 0 by {
            lemma_find_key(keys_of(empty), h, 0);
        }
    }
    lemma_theme_filled(theme, e, keys, 0, empty);
    assert(decls.len() > 0);
    lemma_group_of(theme, e, c, g);
    assert(decls.contains(decls[0]));
    assert(group_holds(c, g, decls[0]));
    let (key, name, ats, text) = choose|
        key: Seq<char>,
        name: Seq<char>,
        ats: Seq<Seq<char>>,
        text: Seq<char>,
    | #[trigger]
        theme_sets(theme, e, key, name, ats, text) && g == group_key(ats) && decls[0]
            == variable_set(name, text);
    let rule = theme_rule(class, g, group_declarations(c, g));
    lemma_group_text(
        "."@ + class + ", ."@ + class + ":root{"@ + concat_texts(decls) + "}"@,
        ats,
    );
    assert(rule_sets(rule, class, ats, decls));
    assert forall|j: int| 0 <= j < decls.len() implies set_under(
        theme,
        e,
        ats,
        #[trigger] decls[j],
    ) by {
        assert(decls.contains(decls[j]));
        assert(group_holds(c, g, decls[j]));
        let (k2, n2, a2, t2) = choose|
            key: Seq<char>,
            name: Seq<char>,
            ats: Seq<Seq<char>>,
            text: Seq<char>,
        | #[trigger]
            theme_sets(theme, e, key, name, ats, text) && g == group_key(ats) && decls[j]
                == variable_set(name, text);
        lemma_same_group(a2, ats);
    }
}

/// The rules of a theme hold exactly its overrides, each inside the at-rules that it was
/// written under, and inside nothing else.
pub proof fn themes_set_their_overrides(theme: Val, overrides: Val, options: ResolvedOptions)
    requires
        theme_output(theme, overrides, options) is Ok,
        ordinary_at_rules(theme, call_entries(overrides)->0),
    ensures
        call_entries(overrides) is Some,
        theme_group(theme) is Some,
        exists|class: Seq<char>|
            {
                &&& #[trigger] theme_says(
                    theme,
                    call_entries(overrides)->0,
                    theme_output(theme, overrides, options)->Ok_0,
                    class,
                )
                &&& theme_group(theme)->0 != "$$css"@ ==> value_of(
                    theme_output(theme, overrides, options)->Ok_0.entries,
                    theme_group(theme)->0,
                ) == Some(Val::Str(class + " "@ + theme_group(theme)->0))
                &&& value_of(
                    theme_output(theme, overrides, options)->Ok_0.entries,
                    "$$css"@,
                ) == Some(Val::Bool(true))
            },
{
    let e = call_entries(overrides)->0;
    let out = theme_output(theme, overrides, options)->Ok_0;
    let group = theme_group(theme)->0;
    let keys = sorted_texts(keys_of(e), Collation::Units);
    let c = theme_from(theme, e, keys, 0, Seq::empty())->Ok_0;
    let order = theme_order(keys_of(c));
    let class = options.class_name_prefix@ + hash_text(
        hashed_groups(c, order, order.len() as int),
    );
    assert(out.rules == Seq::new(
        order.len(),
        |i: int| theme_rule(class, order[i], group_declarations(c, order[i])),
    ));
    assert forall|i: int| 0 <= i < out.rules.len() implies rule_is_due(
        #[trigger] out.rules[i],
        class,
        theme,
        e,
    ) by {
        assert(order.contains(order[i]));
        lemma_theme_order(keys_of(c), order[i]);
        lemma_key_there(c, order[i]);
        lemma_theme_rule(theme, e, c, class, order[i]);
    }
    assert forall|key: Seq<char>, name: Seq<char>, ats: Seq<Seq<char>>, text: Seq<char>| #[trigger]
        theme_sets(theme, e, key, name, ats, text) implies exists|i: int|
        0 <= i < out.rules.len() && set_by(#[trigger] out.rules[i], class, name, ats, text) by {
        let g = group_key(ats);
        let d = variable_set(name, text);
        lemma_group_of(theme, e, c, g);
        assert(group_holds(c, g, d));
        lemma_key_there(c, g);
        lemma_theme_order(keys_of(c), g);
        let i = choose|i: int| 0 <= i < order.len() && order[i] == g;
        let decls = value_of(c, g)->0;
        lemma_group_text(
            "."@ + class + ", ."@ + class + ":root{"@ + concat_texts(decls) + "}"@,
            ats,
        );
        assert(rule_sets(out.rules[i], class, ats, decls));
        assert(set_by(out.rules[i], class, name, ats, text));
    }
    assert(theme_says(theme, e, out, class));
    let first = put(
        Seq::<(Seq<char>, Val)>::empty(),
        group,
        Val::Str(class + " "@ + group),
    );
    put_then_read(Seq::<(Seq<char>, Val)>::empty(), group, Val::Str(class + " "@ + group));
    put_then_read(first, "$$css"@, Val::Bool(true));
    if group != "$$css"@ {
        put_keeps_others(first, "$$css"@, Val::Bool(true), group);
    }
}

} // verus!
