//! Variables grouped by the at-rules that they stand under.

use crate::errors::{
    array_in_define_vars_model, define_vars_value_model, missing_default_model, ErrorModel,
    StylexError,
};
use crate::hash::{hash, hash_text};
use crate::jsrt::{sort_texts, sorted_texts, Collation};
use crate::number::JsNumber;
use crate::options::ResolvedOptions;
use crate::shared::define_consts::{safe_key, var_safe_key};
use crate::shared::flatten::{copy_texts, fails_as};
use crate::shared::for_in::{
    lemma_as_object_size, lemma_entry_smaller, total_size, val_size,
};
use crate::text::{
    concat2, concat3, concat4, concat5, has_prefix, join_first, join_texts, split_parts,
    split_text, starts_with, str_eq, str_texts, texts,
};
use crate::value::{
    append_put, as_object, as_object_upto, find_key, item_keys, keys_of, lemma_find_key, opt_text,
    position_of, put, put_item, slot_of, value_of, JsObj, JsValue, ProxyModel, Val, VarGroupProxy,
};
use vstd::prelude::*;

verus! {

/// What stands between the at-rules of a group.
pub const SPLIT_TOKEN: &'static str = "__$$__";

/// What borrowed entries of the evaluator are, mathematically.
pub open spec fn js_entry_models(v: Seq<(&str, &JsValue)>) -> Seq<(Seq<char>, Val)> {
    Seq::new(v.len(), |i: int| (v[i].0@, v[i].1.model()))
}

/// The entries at the given positions, under the keys that are given with them.
spec fn picked(order: Seq<(String, usize)>, e: Seq<(Seq<char>, Val)>) -> Seq<(Seq<char>, Val)> {
    Seq::new(order.len(), |i: int| (order[i].0@, e[order[i].1 as int].1))
}

/// Gives the entries of an object in the order of ECMAScript.
pub fn es_ordered_entries<'v>(obj: &'v JsObj) -> (r: Vec<(&'v str, &'v JsValue)>)
    ensures
        js_entry_models(r@) == as_object(obj.pairs()),
{
    let ghost e = obj.pairs();
    let mut order: Vec<(String, usize)> = Vec::new();
    proof {
        assert(picked(order@, e) =~= Seq::<(Seq<char>, Val)>::empty());
    }
    let mut i: usize = 0;
    while i < obj.items.len()
        invariant
            e == obj.pairs(),
            i <= obj.items@.len(),
            picked(order@, e) == as_object_upto(e, i as int),
            forall|j: int|
                0 <= j < order@.len() ==> (#[trigger] order@[j]).1 < i && order@[j].0@
                    == e[order@[j].1 as int].0,
        decreases obj.items@.len() - i,
    {
        assert(e[i as int] == (obj.items@[i as int].0@, obj.items@[i as int].1.model()));
        let ghost before = order@;
        proof {
            assert(keys_of(picked(before, e)) =~= item_keys(before));
        }
        put_item(&mut order, obj.items[i].0.clone(), i);
        proof {
            lemma_find_key(item_keys(before), e[i as int].0, 0);
            assert(picked(order@, e) =~= put(picked(before, e), e[i as int].0, e[i as int].1));
            assert forall|j: int| 0 <= j < order@.len() implies (#[trigger] order@[j]).1 < i + 1
                && order@[j].0@ == e[order@[j].1 as int].0 by {
                let at = find_key(item_keys(before), e[i as int].0, 0);
                if at < before.len() {
                    if j != at {
                        assert(order@[j] == before[j]);
                    } else {
                        assert(item_keys(before)[at] == before[at].0@);
                    }
                } else {
                    let s = slot_of(item_keys(before), e[i as int].0);
                    if j < s {
                        assert(order@[j] == before[j]);
                    } else if j > s {
                        assert(order@[j] == before[j - 1]);
                    }
                }
            }
        }
        i += 1;
    }
    let mut out: Vec<(&'v str, &'v JsValue)> = Vec::new();
    let mut k: usize = 0;
    while k < order.len()
        invariant
            e == obj.pairs(),
            k <= order@.len(),
            out@.len() == k,
            forall|j: int|
                0 <= j < order@.len() ==> (#[trigger] order@[j]).1 < obj.items@.len()
                    && order@[j].0@ == e[order@[j].1 as int].0,
            forall|j: int|
                0 <= j < k ==> (#[trigger] out@[j]).0@ == order@[j].0@ && out@[j].1.model()
                    == e[order@[j].1 as int].1,
        decreases order@.len() - k,
    {
        let at: usize = order[k].1;
        assert(order@[k as int].1 < obj.items@.len());
        assert(e[at as int] == (obj.items@[at as int].0@, obj.items@[at as int].1.model()));
        out.push((obj.items[at].0.as_str(), &obj.items[at].1));
        k += 1;
    }
    proof {
        assert(js_entry_models(out@) =~= picked(order@, e));
    }
    out
}

/// Declarations under the at-rules that they stand under.
pub type CollectionModel = Seq<(Seq<char>, Seq<Seq<char>>)>;

/// What collected declarations are, mathematically.
pub open spec fn collection_models(v: Seq<(String, Vec<String>)>) -> CollectionModel {
    Seq::new(v.len(), |i: int| (v[i].0@, texts(v[i].1@)))
}

/// The key of declarations that stand under the given at-rules.
pub open spec fn group_key(at_rules: Seq<Seq<char>>) -> Seq<char> {
    if at_rules.len() == 0 {
        "default"@
    } else {
        join_texts(sorted_texts(at_rules, Collation::Units), SPLIT_TOKEN@)
    }
}

/// The declarations after one more was added.
pub open spec fn with_declaration(
    c: CollectionModel,
    group: Seq<char>,
    decl: Seq<char>,
) -> CollectionModel {
    let before = match value_of(c, group) {
        Some(v) => v,
        None => Seq::empty(),
    };
    append_put(c, group, before.push(decl))
}

/// Whether an object has no default value.
pub open spec fn lacks_default(e: Seq<(Seq<char>, Val)>) -> bool {
    value_of(e, "default"@) is None || value_of(e, "default"@)->0 is Undefined
}

/// The text of a declaration of a variable.
pub open spec fn var_declaration(name: Seq<char>, value: Seq<char>) -> Seq<char> {
    "--"@ + name + ":"@ + value + ";"@
}

/// The declarations after those of a value were added, and the first error.
pub open spec fn collected(
    key: Seq<char>,
    name: Seq<char>,
    v: Val,
    c: CollectionModel,
    at_rules: Seq<Seq<char>>,
) -> (CollectionModel, Option<ErrorModel>)
    decreases val_size(v), 0int,
    via collected_decreases
{
    match v {
        Val::Str(s) => (with_declaration(c, group_key(at_rules), var_declaration(name, s)), None),
        Val::Num(n) => (
            with_declaration(c, group_key(at_rules), var_declaration(name, n.text_spec())),
            None,
        ),
        Val::Arr(_) => (c, Some(array_in_define_vars_model())),
        Val::Obj(m) => if lacks_default(m.entries) {
            (c, Some(missing_default_model(Some(key))))
        } else {
            collected_from(key, name, as_object(m.entries), 0, c, at_rules)
        },
        _ => (c, None),
    }
}

#[via_fn]
proof fn collected_decreases(
    key: Seq<char>,
    name: Seq<char>,
    v: Val,
    c: CollectionModel,
    at_rules: Seq<Seq<char>>,
) {
    match v {
        Val::Obj(m) => {
            lemma_as_object_size(m.entries, m.entries.len() as int);
        },
        _ => {},
    }
}

/// The at-rules of an entry: `default` adds none.
pub open spec fn at_rules_for(key: Seq<char>, at_rules: Seq<Seq<char>>) -> Seq<Seq<char>> {
    if key == "default"@ {
        at_rules
    } else {
        at_rules.push(key)
    }
}

/// The declarations after those of the entries from `i` on were added, and the first
/// error.
pub open spec fn collected_from(
    key: Seq<char>,
    name: Seq<char>,
    e: Seq<(Seq<char>, Val)>,
    i: int,
    c: CollectionModel,
    at_rules: Seq<Seq<char>>,
) -> (CollectionModel, Option<ErrorModel>)
    decreases total_size(e), e.len() - i,
    via collected_from_decreases
{
    if i < 0 || i >= e.len() {
        (c, None)
    } else {
        let (after, error) = collected(key, name, e[i].1, c, at_rules_for(e[i].0, at_rules));
        if error is Some {
            (after, error)
        } else {
            collected_from(key, name, e, i + 1, after, at_rules)
        }
    }
}

#[via_fn]
proof fn collected_from_decreases(
    key: Seq<char>,
    name: Seq<char>,
    e: Seq<(Seq<char>, Val)>,
    i: int,
    c: CollectionModel,
    at_rules: Seq<Seq<char>>,
) {
    if 0 <= i < e.len() {
        lemma_entry_smaller(e, i);
    }
}

fn key_of_group(at_rules: &Vec<String>) -> (r: String)
    ensures
        r@ == group_key(texts(at_rules@)),
{
    if at_rules.len() == 0 {
        return "default".to_owned();
    }
    let mut names: Vec<&str> = Vec::new();
    let mut i: usize = 0;
    while i < at_rules.len()
        invariant
            i <= at_rules@.len(),
            names@.len() == i,
            forall|j: int| 0 <= j < i ==> (#[trigger] names@[j])@ == at_rules@[j]@,
        decreases at_rules@.len() - i,
    {
        names.push(at_rules[i].as_str());
        i += 1;
    }
    proof {
        assert(str_texts(names@) =~= texts(at_rules@));
    }
    let sorted = sort_texts(&names, Collation::Units);
    join_names(&sorted, SPLIT_TOKEN)
}

fn join_names(parts: &Vec<&str>, sep: &str) -> (r: String)
    ensures
        r@ == join_texts(str_texts(parts@), sep@),
{
    let ghost all = str_texts(parts@);
    let mut out = String::new();
    let mut i: usize = 0;
    while i < parts.len()
        invariant
            all == str_texts(parts@),
            i <= parts@.len(),
            out@ == join_first(all, sep@, i as int),
        decreases parts@.len() - i,
    {
        assert(all[i as int] == parts@[i as int]@);
        if i > 0 {
            out.append(sep);
        }
        out.append(parts[i]);
        i += 1;
    }
    out
}

fn add_declaration(c: &mut Vec<(String, Vec<String>)>, group: String, decl: String)
    ensures
        collection_models(final(c)@) == with_declaration(
            collection_models(old(c)@),
            group@,
            decl@,
        ),
{
    let ghost before = collection_models(c@);
    let at: usize = position_of(c, group.as_str());
    proof {
        assert(keys_of(before) =~= item_keys(c@));
        lemma_find_key(keys_of(before), group@, 0);
    }
    if at < c.len() {
        let (name, mut decls) = c.remove(at);
        let ghost ds = texts(decls@);
        decls.push(decl);
        proof {
            assert(texts(decls@) =~= ds.push(decl@));
        }
        c.insert(at, (name, decls));
        proof {
            assert(collection_models(c@) =~= before.update(
                at as int,
                (before[at as int].0, ds.push(decl@)),
            ));
        }
    } else {
        let mut decls: Vec<String> = Vec::new();
        decls.push(decl);
        proof {
            assert(texts(decls@) =~= Seq::<Seq<char>>::empty().push(decl@));
        }
        let ghost ds = texts(decls@);
        c.push((group, decls));
        proof {
            assert(collection_models(c@) =~= before.push((group@, ds)));
        }
    }
}

fn declare_var(name: &str, value: &str) -> (r: String)
    ensures
        r@ == var_declaration(name@, value@),
{
    concat5("--", name, ":", value, ";")
}

/// Adds the declarations of a variable to those collected, under the at-rules that
/// its value has them.
pub fn collect_vars_by_at_rule(
    key: &str,
    name_hash: &str,
    value: &JsValue,
    collection: &mut Vec<(String, Vec<String>)>,
    at_rules: &Vec<String>,
) -> (r: Result<(), StylexError>)
    ensures
        collection_models(final(collection)@) == collected(
            key@,
            name_hash@,
            value.model(),
            collection_models(old(collection)@),
            texts(at_rules@),
        ).0,
        fails_as(
            r,
            collected(
                key@,
                name_hash@,
                value.model(),
                collection_models(old(collection)@),
                texts(at_rules@),
            ).1,
        ),
    decreases val_size(value.model()),
{
    match value {
        JsValue::Str(s) => {
            let decl = declare_var(name_hash, s.as_str());
            add_declaration(collection, key_of_group(at_rules), decl);
            Ok(())
        },
        JsValue::Num(n) => {
            let decl = declare_var(name_hash, n.text().as_str());
            add_declaration(collection, key_of_group(at_rules), decl);
            Ok(())
        },
        JsValue::Arr(_) => Err(StylexError::array_in_define_vars()),
        JsValue::Obj(obj) => {
            let missing = match obj.get("default") {
                None => true,
                Some(JsValue::Undefined) => true,
                _ => false,
            };
            if missing {
                return Err(StylexError::missing_default_value(Some(key)));
            }
            let entries = es_ordered_entries(obj);
            let ghost e = as_object(obj.pairs());
            let ghost start = collection_models(collection@);
            let ghost at = texts(at_rules@);
            proof {
                lemma_as_object_size(obj.pairs(), obj.pairs().len() as int);
            }
            let mut i: usize = 0;
            while i < entries.len()
                invariant
                    e == js_entry_models(entries@),
                    total_size(e) < val_size(value.model()),
                    at == texts(at_rules@),
                    start == collection_models(old(collection)@),
                    i <= entries@.len(),
                    collected(key@, name_hash@, value.model(), start, at) == collected_from(
                        key@,
                        name_hash@,
                        e,
                        i as int,
                        collection_models(collection@),
                        at,
                    ),
                decreases entries@.len() - i,
            {
                let (at_rule, v) = entries[i];
                proof {
                    assert(e[i as int] == (at_rule@, v.model()));
                    lemma_entry_smaller(e, i as int);
                }
                let mut inner = copy_texts(at_rules);
                if !str_eq(at_rule, "default") {
                    inner.push(at_rule.to_owned());
                    proof {
                        assert(texts(inner@) =~= at.push(at_rule@));
                    }
                }
                match collect_vars_by_at_rule(key, name_hash, v, collection, &inner) {
                    Ok(_) => {},
                    Err(x) => {
                        return Err(x);
                    },
                }
                i += 1;
            }
            Ok(())
        },
        _ => Ok(()),
    }
}

/// A text inside the first `k` at-rules, later ones outside.
pub open spec fn inside(text: Seq<char>, at_rules: Seq<Seq<char>>, k: int) -> Seq<char>
    decreases k,
{
    if k <= 0 {
        text
    } else {
        at_rules[k - 1] + "{"@ + inside(text, at_rules, k - 1) + "}"@
    }
}

/// The at-rules of a group.
pub open spec fn at_rules_of(key: Seq<char>) -> Seq<Seq<char>> {
    split_parts(key, SPLIT_TOKEN@, 0)
}

/// A text inside the at-rules of a group.
pub open spec fn inside_group(text: Seq<char>, key: Seq<char>) -> Seq<char> {
    inside(text, at_rules_of(key), at_rules_of(key).len() as int)
}

/// The priority of a group before it is scaled.
pub open spec fn group_priority(key: Seq<char>) -> JsNumber {
    if key == "default"@ {
        JsNumber::natural(1)
    } else {
        JsNumber::natural(1).plus_spec(JsNumber::natural(at_rules_of(key).len()))
    }
}

/// Wraps a text in the at-rules of a group, later ones outside.
pub fn wrap_with_at_rules(ltr: &str, at_rule_key: &str) -> (r: String)
    ensures
        r@ == inside_group(ltr@, at_rule_key@),
{
    proof {
        reveal_strlit("__$$__");
    }
    let parts = split_text(at_rule_key, SPLIT_TOKEN);
    let ghost all = texts(parts@);
    let mut out = ltr.to_owned();
    let mut i: usize = 0;
    while i < parts.len()
        invariant
            all == texts(parts@),
            i <= parts@.len(),
            out@ == inside(ltr@, all, i as int),
        decreases parts@.len() - i,
    {
        assert(all[i as int] == parts@[i as int]@);
        out = concat4(parts[i].as_str(), "{", out.as_str(), "}");
        i += 1;
    }
    proof {
        assert(all.len() == parts@.len());
    }
    out
}

/// Gives the priority of a group before it is scaled.
pub fn priority_for_at_rule(at_rule_key: &str) -> (r: JsNumber)
    ensures
        r == group_priority(at_rule_key@),
{
    if str_eq(at_rule_key, "default") {
        return JsNumber::from_int(1);
    }
    proof {
        reveal_strlit("__$$__");
    }
    let parts = split_text(at_rule_key, SPLIT_TOKEN);
    proof {
        assert(texts(parts@).len() == parts@.len());
    }
    JsNumber::from_int(1).plus(JsNumber::from_int(parts.len() as u64))
}

/// The default of a variable, if it has one.
pub open spec fn default_of(v: Val) -> Result<Option<Seq<char>>, ErrorModel>
    decreases v,
{
    match v {
        Val::Str(s) => Ok(Some(s)),
        Val::Num(n) => Ok(Some(n.text_spec())),
        Val::Null | Val::Undefined => Ok(None),
        Val::Arr(_) => Err(array_in_define_vars_model()),
        Val::Obj(m) => {
            let at = find_key(keys_of(m.entries), "default"@, 0);
            if 0 <= at < m.entries.len() && !(m.entries[at].1 is Undefined) {
                default_of(m.entries[at].1)
            } else {
                Err(missing_default_model(None))
            }
        },
        Val::Proxy(p) => Ok(Some(p.reference("default"@))),
        _ => Err(define_vars_value_model()),
    }
}

/// What a default or an error is, mathematically.
pub open spec fn default_result(r: Result<Option<String>, StylexError>) -> Result<
    Option<Seq<char>>,
    ErrorModel,
> {
    match r {
        Ok(o) => Ok(opt_text(o)),
        Err(e) => Err(e.model()),
    }
}

/// Gives the default of a variable, if it has one.
pub fn get_default_value(value: &JsValue) -> (r: Result<Option<String>, StylexError>)
    ensures
        default_result(r) == default_of(value.model()),
    decreases value,
{
    match value {
        JsValue::Str(s) => Ok(Some(s.clone())),
        JsValue::Num(n) => Ok(Some(n.text())),
        JsValue::Null => Ok(None),
        JsValue::Undefined => Ok(None),
        JsValue::Arr(_) => Err(StylexError::array_in_define_vars()),
        JsValue::Obj(obj) => {
            let at: usize = position_of(&obj.items, "default");
            proof {
                assert(keys_of(obj.pairs()) =~= item_keys(obj.items@));
                lemma_find_key(keys_of(obj.pairs()), "default"@, 0);
            }
            if at < obj.items.len() {
                assert(obj.pairs()[at as int].1 == obj.items@[at as int].1.model());
                match &obj.items[at].1 {
                    JsValue::Undefined => Err(StylexError::missing_default_value(None)),
                    inner => {
                        proof {
                            assert(decreases_to!(*value => value->Obj_0));
                            assert(decreases_to!(*obj => obj.items));
                            assert(decreases_to!(obj.items => obj.items@[at as int]));
                        }
                        get_default_value(inner)
                    },
                }
            } else {
                Err(StylexError::missing_default_value(None))
            }
        },
        JsValue::Proxy(proxy) => Ok(Some(proxy.resolve_key("default"))),
        _ => Err(StylexError::invalid_define_vars_value()),
    }
}

impl ProxyModel {
    /// The reference to a variable of the group.
    pub open spec fn reference(self, key: Seq<char>) -> Seq<char> {
        if has_prefix(key, "--"@) {
            "var("@ + key + ")"@
        } else {
            let name = self.class_name_prefix + hash_text(
                self.file_name + "//"@ + self.export_name + "."@ + key,
            );
            let full = if self.debug_names {
                safe_key(key) + "-"@ + name
            } else {
                name
            };
            "var(--"@ + full + ")"@
        }
    }
}

impl VarGroupProxy {
    /// The variables of a group that a file exports.
    pub fn new(file_name: String, export_name: String, options: &ResolvedOptions) -> (r:
        VarGroupProxy)
        ensures
            r.model() == (ProxyModel {
                file_name: file_name@,
                export_name: export_name@,
                class_name_prefix: options.class_name_prefix@,
                debug_names: options.debug && options.enable_debug_class_names,
                var_group_hash: options.class_name_prefix@ + hash_text(
                    file_name@ + "//"@ + export_name@,
                ),
            }),
    {
        let id = concat3(file_name.as_str(), "//", export_name.as_str());
        let var_group_hash = concat2(
            options.class_name_prefix.as_str(),
            hash(id.as_str()).as_str(),
        );
        VarGroupProxy {
            file_name,
            export_name,
            class_name_prefix: options.class_name_prefix.clone(),
            debug_names: options.debug && options.enable_debug_class_names,
            var_group_hash,
        }
    }

    /// Gives the reference to a variable of the group.
    pub fn resolve_key(&self, key: &str) -> (r: String)
        ensures
            r@ == self.model().reference(key@),
    {
        if starts_with(key, "--") {
            return concat3("var(", key, ")");
        }
        let id = concat5(self.file_name.as_str(), "//", self.export_name.as_str(), ".", key);
        let name = concat2(self.class_name_prefix.as_str(), hash(id.as_str()).as_str());
        let full = if self.debug_names {
            concat3(
                var_safe_key(key).as_str(),
                "-",
                name.as_str(),
            )
        } else {
            name
        };
        concat3("var(--", full.as_str(), ")")
    }
}

} // verus!
