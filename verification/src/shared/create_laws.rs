//! What compiled styles and their rules have to do with each other.

use crate::options::ResolvedOptions;
use crate::rules::RuleModel;
use crate::shared::create::{
    core_output, css_mark, display_key, first_entries, has_class, keys_upto, names_upto,
    names_value, namespace_rules, namespaces_upto, with_namespace, with_new, KeysModel,
    OutputModel, ShapeModel,
};
use crate::shared::dashify::sanitized;
use crate::shared::flatten::{compiled, CompiledModel, FlatModel};
use crate::text::join_texts;
use crate::value::{find_key, keys_of, lemma_find_key, lemma_slot, put, slot_of, ObjModel, Val};
use vstd::prelude::*;

verus! {

/// Whether a text spells class names, each of which has a rule.
pub open spec fn spells(text: Seq<char>, names: Seq<Seq<char>>, rules: Seq<RuleModel>) -> bool {
    &&& text == join_texts(names, " "@)
    &&& forall|i: int| 0 <= i < names.len() ==> has_class(rules, #[trigger] names[i])
}

/// Whether a text spells class names that have rules.
pub open spec fn spelt(text: Seq<char>, rules: Seq<RuleModel>) -> bool {
    exists|names: Seq<Seq<char>>| #[trigger] spells(text, names, rules)
}

/// Whether a value is `null` or spells class names that have rules.
pub open spec fn ruled(v: Val, rules: Seq<RuleModel>) -> bool {
    v is Null || (v is Str && spelt(v->Str_0, rules))
}

/// Whether an entry of a compiled namespace is the mark that it is compiled, or its class
/// name for development.
pub open spec fn is_mark(e: (Seq<char>, Val), shape: ShapeModel, namespace: Seq<char>) -> bool {
    e.0 == "$$css"@ || (shape.prefix is Some && e.1 == Val::Str(
        sanitized(shape.prefix->0 + namespace),
    ))
}

/// Whether every entry of a compiled namespace but for its marks has rules.
pub open spec fn entries_ruled(
    e: Seq<(Seq<char>, Val)>,
    rules: Seq<RuleModel>,
    shape: ShapeModel,
    namespace: Seq<char>,
) -> bool {
    forall|i: int|
        0 <= i < e.len() ==> is_mark(#[trigger] e[i], shape, namespace) || ruled(e[i].1, rules)
}

/// Whether every compiled namespace has rules.
pub open spec fn output_ruled(o: OutputModel, shape: ShapeModel) -> bool {
    forall|i: int|
        0 <= i < o.compiled.len() ==> (#[trigger] o.compiled[i]).1 is Obj && entries_ruled(
            o.compiled[i].1->Obj_0.entries,
            o.rules,
            shape,
            o.compiled[i].0,
        )
}

/// Whether rules are kept.
spec fn rules_kept(a: Seq<RuleModel>, b: Seq<RuleModel>) -> bool {
    forall|class: Seq<char>| has_class(a, class) ==> #[trigger] has_class(b, class)
}

proof fn lemma_put_entries<T>(e: Seq<(Seq<char>, T)>, k: Seq<char>, v: T)
    ensures
        forall|i: int|
            0 <= i < put(e, k, v).len() ==> (#[trigger] put(e, k, v)[i]) == (k, v) || e.contains(
                put(e, k, v)[i],
            ),
{
    let now = put(e, k, v);
    lemma_find_key(keys_of(e), k, 0);
    lemma_slot(keys_of(e), k);
    let at = find_key(keys_of(e), k, 0);
    let slot = slot_of(keys_of(e), k);
    assert forall|i: int| 0 <= i < now.len() implies (#[trigger] now[i]) == (k, v) || e.contains(
        now[i],
    ) by {
        if at < e.len() {
            if i == at {
                assert(keys_of(e)[at] == k);
            } else {
                assert(now[i] == e[i]);
            }
        } else if i < slot {
            assert(now[i] == e[i]);
        } else if i > slot {
            assert(now[i] == e[i - 1]);
        }
    }
}

proof fn lemma_new_rules(rules: Seq<RuleModel>, v: CompiledModel, k: int)
    requires
        0 <= k <= v.len(),
    ensures
        rules_kept(rules, with_new(rules, v, k)),
        forall|j: int|
            0 <= j < k ==> has_class(with_new(rules, v, k), (#[trigger] v[j]).0.class_name),
    decreases k,
{
    if k > 0 {
        lemma_new_rules(rules, v, k - 1);
        let done = with_new(rules, v, k - 1);
        let now = with_new(rules, v, k);
        if !has_class(done, v[k - 1].0.class_name) {
            assert(now[done.len() as int] == v[k - 1].0);
            assert forall|class: Seq<char>| has_class(done, class) implies #[trigger] has_class(
                now,
                class,
            ) by {
                let i = choose|i: int|
                    0 <= i < done.len() && (#[trigger] done[i]).class_name == class;
                assert(now[i] == done[i]);
            }
        }
        assert forall|j: int| 0 <= j < k implies has_class(
            now,
            (#[trigger] v[j]).0.class_name,
        ) by {
            if j < k - 1 {
                assert(has_class(done, v[j].0.class_name));
            }
        }
    }
}

proof fn lemma_names(v: CompiledModel, k: int, rules: Seq<RuleModel>)
    requires
        0 <= k <= v.len(),
        forall|j: int| 0 <= j < k ==> has_class(rules, (#[trigger] v[j]).0.class_name),
    ensures
        forall|i: int|
            0 <= i < names_upto(v, k).len() ==> has_class(rules, #[trigger] names_upto(v, k)[i]),
    decreases k,
{
    if k > 0 {
        lemma_names(v, k - 1, rules);
        let done = names_upto(v, k - 1);
        let now = names_upto(v, k);
        assert(has_class(rules, v[k - 1].0.class_name));
        assert forall|i: int| 0 <= i < now.len() implies has_class(rules, #[trigger] now[i]) by {
            if i < done.len() {
                assert(now[i] == done[i]);
            }
        }
    }
}

proof fn lemma_names_ruled(v: CompiledModel, rules: Seq<RuleModel>)
    requires
        forall|j: int| 0 <= j < v.len() ==> has_class(rules, (#[trigger] v[j]).0.class_name),
    ensures
        ruled(names_value(v), rules),
{
    let names = names_upto(v, v.len() as int);
    let text = join_texts(names, " "@);
    lemma_names(v, v.len() as int, rules);
    assert(spells(text, names, rules));
    assert(spelt(text, rules));
    if text.len() > 0 {
        assert(names_value(v) == Val::Str(text));
    } else {
        assert(names_value(v) == Val::Null);
    }
}

proof fn lemma_ruled_kept(v: Val, a: Seq<RuleModel>, b: Seq<RuleModel>)
    requires
        rules_kept(a, b),
        ruled(v, a),
    ensures
        ruled(v, b),
{
    if let Val::Str(text) = v {
        let names = choose|names: Seq<Seq<char>>| spells(text, names, a);
        assert(spells(text, names, b)) by {
            assert forall|i: int| 0 <= i < names.len() implies has_class(b, #[trigger] names[i]) by {
                assert(has_class(a, names[i]));
            }
        }
    }
}

proof fn lemma_entries_kept(
    e: Seq<(Seq<char>, Val)>,
    a: Seq<RuleModel>,
    b: Seq<RuleModel>,
    shape: ShapeModel,
    namespace: Seq<char>,
)
    requires
        rules_kept(a, b),
        entries_ruled(e, a, shape, namespace),
    ensures
        entries_ruled(e, b, shape, namespace),
{
    assert forall|i: int| 0 <= i < e.len() implies is_mark(#[trigger] e[i], shape, namespace)
        || ruled(e[i].1, b) by {
        if !is_mark(e[i], shape, namespace) {
            lemma_ruled_kept(e[i].1, a, b);
        }
    }
}

proof fn lemma_put_ruled(
    e: Seq<(Seq<char>, Val)>,
    k: Seq<char>,
    v: Val,
    rules: Seq<RuleModel>,
    shape: ShapeModel,
    namespace: Seq<char>,
)
    requires
        entries_ruled(e, rules, shape, namespace),
        is_mark((k, v), shape, namespace) || ruled(v, rules),
    ensures
        entries_ruled(put(e, k, v), rules, shape, namespace),
{
    lemma_put_entries(e, k, v);
    let now = put(e, k, v);
    assert forall|i: int| 0 <= i < now.len() implies is_mark(#[trigger] now[i], shape, namespace)
        || ruled(now[i].1, rules) by {
        if now[i] != (k, v) {
            assert(e.contains(now[i]));
            let j = choose|j: int| 0 <= j < e.len() && e[j] == now[i];
            assert(is_mark(e[j], shape, namespace) || ruled(e[j].1, rules));
        }
    }
}

proof fn lemma_keys(
    start: KeysModel,
    flat: FlatModel,
    options: ResolvedOptions,
    need: bool,
    k: int,
    shape: ShapeModel,
    namespace: Seq<char>,
)
    requires
        0 <= k <= flat.len(),
        entries_ruled(start.entries, start.rules, shape, namespace),
        keys_upto(start, flat, options, need, k) is Ok,
    ensures
        ({
            let done = keys_upto(start, flat, options, need, k)->Ok_0;
            &&& rules_kept(start.rules, done.rules)
            &&& entries_ruled(done.entries, done.rules, shape, namespace)
        }),
    decreases k,
{
    if k > 0 {
        lemma_keys(start, flat, options, need, k - 1, shape, namespace);
        let s = keys_upto(start, flat, options, need, k - 1)->Ok_0;
        let v = compiled(flat[k - 1].1, options)->Ok_0;
        let done = keys_upto(start, flat, options, need, k)->Ok_0;
        let n = v.len() as int;
        lemma_new_rules(s.rules, v, n);
        lemma_names_ruled(v, done.rules);
        lemma_entries_kept(s.entries, s.rules, done.rules, shape, namespace);
        lemma_put_ruled(
            s.entries,
            display_key(flat[k - 1].0, options),
            names_value(v),
            done.rules,
            shape,
            namespace,
        );
    }
}

proof fn lemma_namespace(
    s: OutputModel,
    name: Seq<char>,
    v: Val,
    options: ResolvedOptions,
    shape: ShapeModel,
    need: bool,
)
    requires
        output_ruled(s, shape),
        with_namespace(s, name, v, options, shape, need) is Ok,
    ensures
        output_ruled(with_namespace(s, name, v, options, shape, need)->Ok_0, shape),
{
    if name != "__proto__"@ {
        let out = with_namespace(s, name, v, options, shape, need)->Ok_0;
        let flat = namespace_rules(v, options)->Ok_0;
        let start = KeysModel {
            entries: first_entries(shape, name),
            paths: Seq::empty(),
            rules: s.rules,
        };
        let done = keys_upto(start, flat, options, need, flat.len() as int)->Ok_0;
        let none = Seq::<(Seq<char>, Val)>::empty();
        if let Some(p) = shape.prefix {
            let class = sanitized(p + name);
            assert(is_mark((class, Val::Str(class)), shape, name));
            lemma_put_ruled(none, class, Val::Str(class), s.rules, shape, name);
        }
        lemma_keys(start, flat, options, need, flat.len() as int, shape, name);
        let mark = css_mark(shape, name);
        assert(is_mark(("$$css"@, mark), shape, name));
        lemma_put_ruled(done.entries, "$$css"@, mark, done.rules, shape, name);
        let obj = ObjModel { entries: put(done.entries, "$$css"@, mark), css: None };
        lemma_put_entries(s.compiled, name, Val::Obj(obj));
        assert forall|i: int| 0 <= i < out.compiled.len() implies (
        #[trigger] out.compiled[i]).1 is Obj && entries_ruled(
            out.compiled[i].1->Obj_0.entries,
            out.rules,
            shape,
            out.compiled[i].0,
        ) by {
            if out.compiled[i] != (name, Val::Obj(obj)) {
                assert(s.compiled.contains(out.compiled[i]));
                let j = choose|j: int|
                    0 <= j < s.compiled.len() && s.compiled[j] == out.compiled[i];
                assert(s.compiled[j].1 is Obj);
                lemma_entries_kept(
                    s.compiled[j].1->Obj_0.entries,
                    s.rules,
                    out.rules,
                    shape,
                    s.compiled[j].0,
                );
            }
        }
    }
}

proof fn lemma_namespaces(
    e: Seq<(Seq<char>, Val)>,
    options: ResolvedOptions,
    shape: ShapeModel,
    need: bool,
    k: int,
)
    requires
        0 <= k <= e.len(),
        namespaces_upto(e, options, shape, need, k) is Ok,
    ensures
        output_ruled(namespaces_upto(e, options, shape, need, k)->Ok_0, shape),
    decreases k,
{
    if k > 0 {
        lemma_namespaces(e, options, shape, need, k - 1);
        let s = namespaces_upto(e, options, shape, need, k - 1)->Ok_0;
        lemma_namespace(s, e[k - 1].0, e[k - 1].1, options, shape, need);
    }
}

/// Every class name in a compiled object has a rule in the output, but for the class names
/// that namespaces have in development.
pub proof fn class_names_have_rules(
    e: Seq<(Seq<char>, Val)>,
    options: ResolvedOptions,
    shape: ShapeModel,
    need_paths: bool,
)
    requires
        core_output(e, options, shape, need_paths) is Ok,
    ensures
        output_ruled(core_output(e, options, shape, need_paths)->Ok_0, shape),
{
    lemma_namespaces(e, options, shape, need_paths, e.len() as int);
}

} // verus!
