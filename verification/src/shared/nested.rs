//! Nested groups of variables and constants, flattened to keys with dots and back.

use crate::errors::{
    nested_key_model, non_static_value_model, non_style_object_model, type_crash_model, ErrorModel,
    StylexError,
};
use crate::number::{decimal, decimal_text};
use crate::options::ResolvedOptions;
use crate::shared::define_consts::{
    consts_output, consts_result, define_consts, ConstsModel, DefineConstsOutput,
};
use crate::shared::define_vars::keyed_put;
use crate::shared::for_in::{
    lemma_as_object_size, lemma_entry_smaller, total_size, val_size,
};
use crate::shared::generate_rule::text_result;
use crate::shared::media_order::object_result;
use crate::shared::position_try::{js_entries, object_entries_js};
use crate::shared::types::{
    as_css_type_js, css_type_of, types_member_source, value_result, SOURCES,
};
use crate::shared::vars_utils::{es_ordered_entries, js_entry_models};
use crate::text::{
    chars_of, concat3, digit, has_prefix, join, join_texts, paired, split, split_at_char,
    starts_with, str_eq, texts,
};
use crate::value::{
    array_index_of, as_object, eval_of, item_keys, keys_of, lemma_find_key, position_of, put,
    put_item, to_eval_value, value_of, Callable, CallableModel, EvalValue, JsObj, JsObjectMap,
    JsValue, ObjModel, StylexCallable, Val,
};
use vstd::prelude::*;

verus! {

/// What stands between the parts of a flat key.
pub const NESTED_KEY_SEPARATOR: char = '.';

/// The source text of the function that stands for every function of a style file.
pub const EVALUATED_FN_SOURCE: &'static str =
    "(...args) => {\n        const identifierEntries = identParams.map((ident, index) => [ident, args[index]]);\n        const identifiersObj = Object.fromEntries(identifierEntries);\n        const result = evaluate(evaluatedExpr, state.traversalState, {\n          ...state.functions,\n          identifiers: {\n            ...state.functions.identifiers,\n            ...identifiersObj\n          }\n        });\n        if (!result.confident) {\n          throw new Error(result.reason ?? NON_CONSTANT);\n        }\n        return result.value;\n      }";

/// Which values are leaves.
#[derive(Debug, Clone, Copy, PartialEq, Eq)]
pub enum LeafKind {
    Strings,
    Consts,
}

/// Whether a value is a leaf.
pub open spec fn is_leaf(v: Val, kind: LeafKind) -> bool {
    v is Str || (kind == LeafKind::Consts && v is Num)
}

/// The flat key of a key inside a group.
pub open spec fn full_key(prefix: Seq<char>, key: Seq<char>) -> Seq<char> {
    if prefix.len() == 0 {
        key
    } else {
        prefix + "."@ + key
    }
}

/// The flat entries after the leaves of the entries from `i` on were set.
pub open spec fn flat_from(
    e: Seq<(Seq<char>, Val)>,
    i: int,
    prefix: Seq<char>,
    acc: Seq<(Seq<char>, Val)>,
    kind: LeafKind,
) -> Result<Seq<(Seq<char>, Val)>, ErrorModel>
    decreases e, e.len() - i,
{
    if i < 0 || i >= e.len() {
        Ok(acc)
    } else {
        let (key, v) = e[i];
        if key == "__proto__"@ {
            flat_from(e, i + 1, prefix, acc, kind)
        } else if key.contains('.') {
            Err(nested_key_model(key))
        } else if is_leaf(v, kind) {
            flat_from(e, i + 1, prefix, put(acc, full_key(prefix, key), v), kind)
        } else {
            match v {
                Val::Obj(m) => match flat_from(m.entries, 0, full_key(prefix, key), acc, kind) {
                    Ok(more) => flat_from(e, i + 1, prefix, more, kind),
                    Err(x) => Err(x),
                },
                _ => flat_from(e, i + 1, prefix, acc, kind),
            }
        }
    }
}

/// The flat entries of a nested value.
pub open spec fn flat_config(v: Val, kind: LeafKind) -> Result<ObjModel, ErrorModel> {
    match js_entries(v) {
        None => Err(type_crash_model("Object.keys of a nullish nested config"@)),
        Some(e) => match flat_from(e, 0, Seq::empty(), Seq::empty(), kind) {
            Ok(flat) => Ok(ObjModel { entries: flat, css: None }),
            Err(x) => Err(x),
        },
    }
}

/// Flattens a nested value whose leaves are strings.
pub fn flatten_nested_string_config(value: &EvalValue) -> (r: Result<JsObjectMap, StylexError>)
    ensures
        object_result(r) == flat_config(value.model(), LeafKind::Strings),
{
    flatten(value, LeafKind::Strings)
}

/// Flattens a nested value whose leaves are strings and numbers.
pub fn flatten_nested_consts_config(value: &EvalValue) -> (r: Result<JsObjectMap, StylexError>)
    ensures
        object_result(r) == flat_config(value.model(), LeafKind::Consts),
{
    flatten(value, LeafKind::Consts)
}

fn flatten(value: &EvalValue, kind: LeafKind) -> (r: Result<JsObjectMap, StylexError>)
    ensures
        object_result(r) == flat_config(value.model(), kind),
{
    proof {
        reveal_strlit("");
        assert(""@ =~= Seq::<char>::empty());
    }
    let entries = match object_entries_js(value, "Object.keys of a nullish nested config") {
        Ok(m) => m,
        Err(x) => {
            return Err(x);
        },
    };
    match flatten_impl(&entries, "", JsObjectMap::new(), kind) {
        Ok(m) => {
            proof {
                assert(m.model() =~= ObjModel { entries: m.pairs(), css: None });
            }
            Ok(m)
        },
        Err(x) => Err(x),
    }
}

fn has_separator(key: &str) -> (r: bool)
    ensures
        r == key@.contains('.'),
{
    let s = chars_of(key);
    let mut i: usize = 0;
    while i < s.len()
        invariant
            s@ == key@,
            i <= s@.len(),
            forall|j: int| 0 <= j < i ==> s@[j] != '.',
        decreases s@.len() - i,
    {
        if s[i] == '.' {
            assert(key@[i as int] == '.');
            return true;
        }
        i += 1;
    }
    false
}

fn join_key(prefix: &str, key: &str) -> (r: String)
    ensures
        r@ == full_key(prefix@, key@),
{
    let n: usize = chars_of(prefix).len();
    if n == 0 {
        key.to_owned()
    } else {
        concat3(prefix, ".", key)
    }
}

fn flatten_impl(obj: &JsObjectMap, prefix: &str, start: JsObjectMap, kind: LeafKind) -> (r: Result<
    JsObjectMap,
    StylexError,
>)
    requires
        start.model().css is None,
    ensures
        match r {
            Ok(m) => m.model().css is None && flat_from(
                obj.pairs(),
                0,
                prefix@,
                start.pairs(),
                kind,
            ) == Ok::<Seq<(Seq<char>, Val)>, ErrorModel>(m.pairs()),
            Err(x) => flat_from(obj.pairs(), 0, prefix@, start.pairs(), kind) == Err::<
                Seq<(Seq<char>, Val)>,
                ErrorModel,
            >(x.model()),
        },
    decreases obj,
{
    let ghost e = obj.pairs();
    let ghost first = start.pairs();
    let mut acc = start;
    let mut i: usize = 0;
    while i < obj.items.len()
        invariant
            e == obj.pairs(),
            first == start.pairs(),
            i <= obj.items@.len(),
            acc.model().css is None,
            flat_from(e, 0, prefix@, first, kind) == flat_from(
                e,
                i as int,
                prefix@,
                acc.pairs(),
                kind,
            ),
        decreases obj.items@.len() - i,
    {
        let (key, value) = &obj.items[i];
        assert(e[i as int] == (key@, value.model()));
        if !str_eq(key.as_str(), "__proto__") {
            if has_separator(key.as_str()) {
                return Err(StylexError::nested_key_contains_separator(key.as_str()));
            }
            let full = join_key(prefix, key.as_str());
            let leaf = match value {
                EvalValue::Str(_) => true,
                EvalValue::Num(_) => match kind {
                    LeafKind::Consts => true,
                    LeafKind::Strings => false,
                },
                _ => false,
            };
            if leaf {
                acc.insert(full, value.clone());
            } else if let EvalValue::Obj(inner) = value {
                proof {
                    assert(decreases_to!(*obj => obj.items));
                    assert(decreases_to!(obj.items => obj.items@[i as int]));
                }
                acc = match flatten_impl(inner, full.as_str(), acc, kind) {
                    Ok(m) => m,
                    Err(x) => {
                        return Err(x);
                    },
                };
            }
        }
        i += 1;
    }
    Ok(acc)
}

/// Whether a value counts as undefined: functions of the style language do, but for
/// those that make CSS types.
pub open spec fn as_undefined(v: Val) -> bool {
    v is Undefined || match v {
        Val::Callable(CallableModel::Stylex(_)) => true,
        _ => false,
    }
}

/// Whether a value is a leaf of a group of variables: a string, a value with a CSS
/// type, or an object with a default and at-rules only.
pub open spec fn is_vars_leaf(v: Val) -> bool {
    v is Str || css_type_of(v) is Some || match v {
        Val::Obj(m) => value_of(m.entries, "default"@) is Some && !as_undefined(
            value_of(m.entries, "default"@)->0,
        ) && forall|i: int|
            0 <= i < as_object(m.entries).len() ==> conditional_key(
                (#[trigger] as_object(m.entries)[i]).0,
            ),
        _ => false,
    }
}

/// Whether a key may stand beside a default.
pub open spec fn conditional_key(key: Seq<char>) -> bool {
    key == "default"@ || key == "__proto__"@ || has_prefix(key, "@"@)
}

/// The text of a value that is no object, as ECMAScript prints it.
pub open spec fn printed(v: Val, api: Seq<char>) -> Result<Seq<char>, ErrorModel>
    decreases v, 0int,
{
    match v {
        Val::Str(s) => Ok(s),
        Val::Num(n) => Ok(n.text_spec()),
        Val::Bool(true) => Ok("true"@),
        Val::Bool(false) => Ok("false"@),
        Val::Null => Ok("null"@),
        Val::Undefined => Ok("undefined"@),
        Val::Obj(_) | Val::Proxy(_) => Ok("[object Object]"@),
        Val::Arr(items) => match printed_upto(items, api, items.len() as int) {
            Ok(parts) => Ok(join_texts(parts, ","@)),
            Err(x) => Err(x),
        },
        Val::Callable(CallableModel::Arrow(_)) => Ok(EVALUATED_FN_SOURCE@),
        Val::Callable(CallableModel::Types(kind)) => match paired(kind, SOURCES@) {
            Some(s) => Ok(s),
            None => Err(non_static_value_model(api)),
        },
        Val::Callable(_) => Err(non_static_value_model(api)),
    }
}

/// The texts of the first `k` items of an array, as ECMAScript prints them in it.
pub open spec fn printed_upto(v: Seq<Val>, api: Seq<char>, k: int) -> Result<
    Seq<Seq<char>>,
    ErrorModel,
>
    decreases v, k,
{
    if k <= 0 || k > v.len() {
        Ok(Seq::empty())
    } else {
        match printed_upto(v, api, k - 1) {
            Err(x) => Err(x),
            Ok(done) => if v[k - 1] is Null || as_undefined(v[k - 1]) {
                Ok(done.push(Seq::empty()))
            } else {
                match printed(v[k - 1], api) {
                    Ok(t) => Ok(done.push(t)),
                    Err(x) => Err(x),
                }
            },
        }
    }
}

proof fn lemma_printed_failure(v: Seq<Val>, api: Seq<char>, i: int, k: int)
    requires
        0 <= i <= k <= v.len(),
        printed_upto(v, api, i) is Err,
    ensures
        printed_upto(v, api, k) == printed_upto(v, api, i),
    decreases k,
{
    if i < k {
        lemma_printed_failure(v, api, i, k - 1);
    }
}

/// An object that starts with an empty default.
pub open spec fn default_entries() -> Seq<(Seq<char>, Val)> {
    put(Seq::empty(), "default"@, Val::Str(Seq::empty()))
}

/// The value of a leaf: all that it holds is text.
pub open spec fn config_value(v: Val, api: Seq<char>) -> Result<Val, ErrorModel>
    decreases val_size(v), 0int,
    via config_value_decreases
{
    if as_undefined(v) || v is Null {
        Ok(Val::Str(Seq::empty()))
    } else {
        match v {
            Val::Obj(m) => match config_from(as_object(m.entries), 0, default_entries(), api) {
                Ok(e) => Ok(Val::Obj(ObjModel { entries: e, css: None })),
                Err(x) => Err(x),
            },
            Val::Proxy(_) => Ok(Val::Obj(ObjModel { entries: default_entries(), css: None })),
            _ => match printed(v, api) {
                Ok(t) => Ok(Val::Str(t)),
                Err(x) => Err(x),
            },
        }
    }
}

#[via_fn]
proof fn config_value_decreases(v: Val, api: Seq<char>) {
    match v {
        Val::Obj(m) => {
            lemma_as_object_size(m.entries, m.entries.len() as int);
        },
        _ => {},
    }
}

/// The entries of a leaf after those from `i` on were set.
pub open spec fn config_from(
    e: Seq<(Seq<char>, Val)>,
    i: int,
    acc: Seq<(Seq<char>, Val)>,
    api: Seq<char>,
) -> Result<Seq<(Seq<char>, Val)>, ErrorModel>
    decreases total_size(e), e.len() - i,
    via config_from_decreases
{
    if i < 0 || i >= e.len() {
        Ok(acc)
    } else if e[i].0 == "__proto__"@ {
        config_from(e, i + 1, acc, api)
    } else {
        match config_value(e[i].1, api) {
            Ok(v) => config_from(e, i + 1, put(acc, e[i].0, v), api),
            Err(x) => Err(x),
        }
    }
}

#[via_fn]
proof fn config_from_decreases(
    e: Seq<(Seq<char>, Val)>,
    i: int,
    acc: Seq<(Seq<char>, Val)>,
    api: Seq<char>,
) {
    if 0 <= i < e.len() {
        lemma_entry_smaller(e, i);
    }
}

/// The value that a leaf of a group of variables is flattened to.
pub open spec fn leaf_value(v: Val, unwrap: bool, api: Seq<char>) -> Result<Val, ErrorModel> {
    if v is Str {
        Ok(eval_of(v))
    } else {
        match css_type_of(v) {
            Some((_, inner)) => if unwrap {
                config_value(inner, api)
            } else {
                Ok(eval_of(v))
            },
            None => config_value(v, api),
        }
    }
}

/// The flat entries after those of one entry were set.
pub open spec fn js_flat_entry(
    key: Seq<char>,
    v: Val,
    prefix: Seq<char>,
    acc: Seq<(Seq<char>, Val)>,
    unwrap: bool,
    api: Seq<char>,
) -> Result<Seq<(Seq<char>, Val)>, ErrorModel>
    decreases val_size(v), 0int,
    via js_flat_entry_decreases
{
    if key == "__proto__"@ {
        Ok(acc)
    } else if key.contains('.') {
        Err(nested_key_model(key))
    } else if as_undefined(v) {
        Ok(acc)
    } else if is_vars_leaf(v) {
        match leaf_value(v, unwrap, api) {
            Ok(leaf) => Ok(put(acc, full_key(prefix, key), leaf)),
            Err(x) => Err(x),
        }
    } else {
        match v {
            Val::Obj(m) => js_flat_from(
                as_object(m.entries),
                0,
                full_key(prefix, key),
                acc,
                unwrap,
                api,
            ),
            _ => Ok(acc),
        }
    }
}

#[via_fn]
proof fn js_flat_entry_decreases(
    key: Seq<char>,
    v: Val,
    prefix: Seq<char>,
    acc: Seq<(Seq<char>, Val)>,
    unwrap: bool,
    api: Seq<char>,
) {
    match v {
        Val::Obj(m) => {
            lemma_as_object_size(m.entries, m.entries.len() as int);
        },
        _ => {},
    }
}

/// The flat entries after those of the entries from `i` on were set.
pub open spec fn js_flat_from(
    e: Seq<(Seq<char>, Val)>,
    i: int,
    prefix: Seq<char>,
    acc: Seq<(Seq<char>, Val)>,
    unwrap: bool,
    api: Seq<char>,
) -> Result<Seq<(Seq<char>, Val)>, ErrorModel>
    decreases total_size(e), e.len() - i,
    via js_flat_from_decreases
{
    if i < 0 || i >= e.len() {
        Ok(acc)
    } else {
        match js_flat_entry(e[i].0, e[i].1, prefix, acc, unwrap, api) {
            Ok(more) => js_flat_from(e, i + 1, prefix, more, unwrap, api),
            Err(x) => Err(x),
        }
    }
}

#[via_fn]
proof fn js_flat_from_decreases(
    e: Seq<(Seq<char>, Val)>,
    i: int,
    prefix: Seq<char>,
    acc: Seq<(Seq<char>, Val)>,
    unwrap: bool,
    api: Seq<char>,
) {
    if 0 <= i < e.len() {
        lemma_entry_smaller(e, i);
    }
}

/// The flat entries of a nested value of the evaluator.
pub open spec fn js_flat_config(v: Val, unwrap: bool, api: Seq<char>) -> Result<
    ObjModel,
    ErrorModel,
> {
    let flat = match v {
        Val::Obj(m) => js_flat_from(
            as_object(m.entries),
            0,
            Seq::empty(),
            Seq::empty(),
            unwrap,
            api,
        ),
        Val::Arr(items) => js_flat_from(
            Seq::new(items.len(), |i: int| (decimal(i as nat), items[i])),
            0,
            Seq::empty(),
            Seq::empty(),
            unwrap,
            api,
        ),
        Val::Proxy(_) => Ok(Seq::empty()),
        _ => Err(non_style_object_model(api)),
    };
    match flat {
        Ok(e) => Ok(ObjModel { entries: e, css: None }),
        Err(x) => Err(x),
    }
}

fn undefined_like(value: &JsValue) -> (r: bool)
    ensures
        r == as_undefined(value.model()),
{
    match value {
        JsValue::Undefined => true,
        JsValue::Callable(Callable::Stylex(callee)) => match callee {
            StylexCallable::Types(_) => false,
            _ => true,
        },
        _ => false,
    }
}

fn is_vars_leaf_js(value: &JsValue) -> (r: bool)
    ensures
        r == is_vars_leaf(value.model()),
{
    if let JsValue::Str(_) = value {
        return true;
    }
    if as_css_type_js(value).is_some() {
        return true;
    }
    let obj = match value {
        JsValue::Obj(obj) => obj,
        _ => {
            return false;
        },
    };
    match obj.get("default") {
        None => {
            return false;
        },
        Some(v) => {
            if undefined_like(v) {
                return false;
            }
        },
    }
    let entries = es_ordered_entries(obj);
    let ghost e = as_object(obj.pairs());
    let mut i: usize = 0;
    while i < entries.len()
        invariant
            *value == JsValue::Obj(*obj),
            e == as_object(obj.pairs()),
            e == js_entry_models(entries@),
            value_of(obj.pairs(), "default"@) is Some,
            !as_undefined(value_of(obj.pairs(), "default"@)->0),
            css_type_of(value.model()) is None,
            i <= entries@.len(),
            forall|j: int| 0 <= j < i ==> conditional_key((#[trigger] e[j]).0),
        decreases entries@.len() - i,
    {
        let (k, _) = entries[i];
        assert(e[i as int].0 == k@);
        if !(str_eq(k, "default") || str_eq(k, "__proto__") || starts_with(k, "@")) {
            assert(!conditional_key(e[i as int].0));
            return false;
        }
        i += 1;
    }
    true
}

fn js_coerce_string(value: &JsValue, api: &str) -> (r: Result<String, StylexError>)
    ensures
        text_result(r) == printed(value.model(), api@),
    decreases value,
{
    match value {
        JsValue::Str(s) => Ok(s.clone()),
        JsValue::Num(n) => Ok(n.text()),
        JsValue::Bool(b) => Ok(
            if *b {
                "true".to_owned()
            } else {
                "false".to_owned()
            },
        ),
        JsValue::Null => Ok("null".to_owned()),
        JsValue::Undefined => Ok("undefined".to_owned()),
        JsValue::Obj(_) => Ok("[object Object]".to_owned()),
        JsValue::Proxy(_) => Ok("[object Object]".to_owned()),
        JsValue::Arr(items) => {
            let ghost all = value.model()->Arr_0;
            let mut parts: Vec<String> = Vec::new();
            proof {
                assert(texts(parts@) =~= Seq::<Seq<char>>::empty());
            }
            let mut i: usize = 0;
            while i < items.len()
                invariant
                    *value == JsValue::Arr(*items),
                    all == value.model()->Arr_0,
                    i <= items@.len(),
                    printed_upto(all, api@, i as int) == Ok::<Seq<Seq<char>>, ErrorModel>(
                        texts(parts@),
                    ),
                decreases items@.len() - i,
            {
                proof {
                    assert(decreases_to!(*value => value->Arr_0));
                    assert(decreases_to!(*items => items@[i as int]));
                    assert(all[i as int] == items@[i as int].model());
                }
                let item = &items[i];
                let blank = undefined_like(item) || match item {
                    JsValue::Null => true,
                    _ => false,
                };
                let part = if blank {
                    String::new()
                } else {
                    match js_coerce_string(item, api) {
                        Ok(t) => t,
                        Err(x) => {
                            proof {
                                lemma_printed_failure(all, api@, i + 1, all.len() as int);
                            }
                            return Err(x);
                        },
                    }
                };
                let ghost before = texts(parts@);
                parts.push(part);
                proof {
                    assert(texts(parts@) =~= before.push(part@));
                }
                i += 1;
            }
            Ok(join(&parts, ","))
        },
        JsValue::Callable(Callable::Arrow(_)) => Ok(EVALUATED_FN_SOURCE.to_owned()),
        JsValue::Callable(Callable::Stylex(StylexCallable::Types(kind))) => {
            match types_member_source(kind.as_str()) {
                Some(s) => Ok(s.to_owned()),
                None => Err(StylexError::non_static_value(api)),
            }
        },
        JsValue::Callable(_) => Err(StylexError::non_static_value(api)),
    }
}

fn with_default() -> (r: JsObjectMap)
    ensures
        r.pairs() == default_entries(),
        r.model().css is None,
{
    let mut out = JsObjectMap::new();
    out.set("default", EvalValue::Str(String::new()));
    out
}

fn to_vars_config_value_js(value: &JsValue, api: &str) -> (r: Result<EvalValue, StylexError>)
    ensures
        value_result(r) == config_value(value.model(), api@),
    decreases val_size(value.model()),
{
    if undefined_like(value) {
        return Ok(EvalValue::Str(String::new()));
    }
    match value {
        JsValue::Null => Ok(EvalValue::Str(String::new())),
        JsValue::Obj(obj) => {
            proof {
                lemma_as_object_size(obj.pairs(), obj.pairs().len() as int);
            }
            let entries = es_ordered_entries(obj);
            let ghost e = as_object(obj.pairs());
            let mut out = with_default();
            let mut i: usize = 0;
            while i < entries.len()
                invariant
                    *value == JsValue::Obj(*obj),
                    e == as_object(obj.pairs()),
                    e == js_entry_models(entries@),
                    total_size(e) < val_size(value.model()),
                    i <= entries@.len(),
                    out.model().css is None,
                    config_from(e, 0, default_entries(), api@) == config_from(
                        e,
                        i as int,
                        out.pairs(),
                        api@,
                    ),
                decreases entries@.len() - i,
            {
                let (k, v) = entries[i];
                proof {
                    assert(e[i as int] == (k@, v.model()));
                    lemma_entry_smaller(e, i as int);
                }
                if !str_eq(k, "__proto__") {
                    match to_vars_config_value_js(v, api) {
                        Ok(x) => {
                            out.set(k, x);
                        },
                        Err(x) => {
                            return Err(x);
                        },
                    }
                }
                i += 1;
            }
            proof {
                assert(out.model() =~= ObjModel { entries: out.pairs(), css: None });
            }
            Ok(EvalValue::Obj(out))
        },
        JsValue::Proxy(_) => {
            let out = with_default();
            proof {
                assert(out.model() =~= ObjModel { entries: default_entries(), css: None });
            }
            Ok(EvalValue::Obj(out))
        },
        other => match js_coerce_string(other, api) {
            Ok(t) => Ok(EvalValue::Str(t)),
            Err(x) => Err(x),
        },
    }
}

/// Flattens a nested group of variables.
pub fn flatten_nested_vars_config(value: &JsValue) -> (r: Result<JsObjectMap, StylexError>)
    ensures
        object_result(r) == js_flat_config(
            value.model(),
            false,
            "unstable_defineVarsNested"@,
        ),
{
    flatten_js(value, false, "unstable_defineVarsNested")
}

/// Flattens the nested overrides of a theme; CSS types are taken off.
pub fn flatten_nested_overrides_config(value: &JsValue) -> (r: Result<JsObjectMap, StylexError>)
    ensures
        object_result(r) == js_flat_config(
            value.model(),
            true,
            "unstable_createThemeNested"@,
        ),
{
    flatten_js(value, true, "unstable_createThemeNested")
}

fn flatten_js(value: &JsValue, unwrap_css_types: bool, api: &str) -> (r: Result<
    JsObjectMap,
    StylexError,
>)
    ensures
        object_result(r) == js_flat_config(value.model(), unwrap_css_types, api@),
{
    proof {
        reveal_strlit("");
        assert(""@ =~= Seq::<char>::empty());
    }
    let mut result = JsObjectMap::new();
    match value {
        JsValue::Obj(obj) => {
            result = match flatten_js_impl(obj, "", result, unwrap_css_types, api) {
                Ok(m) => m,
                Err(x) => {
                    return Err(x);
                },
            };
        },
        JsValue::Arr(items) => {
            let ghost all = value.model()->Arr_0;
            let ghost e = Seq::new(all.len(), |i: int| (decimal(i as nat), all[i]));
            let mut i: usize = 0;
            while i < items.len()
                invariant
                    *value == JsValue::Arr(*items),
                    all == value.model()->Arr_0,
                    e == Seq::new(all.len(), |i: int| (decimal(i as nat), all[i])),
                    ""@ == Seq::<char>::empty(),
                    i <= items@.len(),
                    result.model().css is None,
                    js_flat_from(
                        e,
                        0,
                        Seq::empty(),
                        Seq::empty(),
                        unwrap_css_types,
                        api@,
                    ) == js_flat_from(
                        e,
                        i as int,
                        Seq::empty(),
                        result.pairs(),
                        unwrap_css_types,
                        api@,
                    ),
                decreases items@.len() - i,
            {
                assert(all[i as int] == items@[i as int].model());
                let key = decimal_text(i as u64);
                result =
                match flatten_js_entry(
                    key.as_str(),
                    &items[i],
                    "",
                    result,
                    unwrap_css_types,
                    api,
                ) {
                    Ok(m) => m,
                    Err(x) => {
                        return Err(x);
                    },
                };
                i += 1;
            }
        },
        JsValue::Proxy(_) => {},
        _ => {
            return Err(StylexError::non_style_object(api));
        },
    }
    proof {
        assert(result.model() =~= ObjModel { entries: result.pairs(), css: None });
    }
    Ok(result)
}

fn flatten_js_impl(
    obj: &JsObj,
    prefix: &str,
    start: JsObjectMap,
    unwrap_css_types: bool,
    api: &str,
) -> (r: Result<JsObjectMap, StylexError>)
    requires
        start.model().css is None,
    ensures
        match r {
            Ok(m) => m.model().css is None && js_flat_from(
                as_object(obj.pairs()),
                0,
                prefix@,
                start.pairs(),
                unwrap_css_types,
                api@,
            ) == Ok::<Seq<(Seq<char>, Val)>, ErrorModel>(m.pairs()),
            Err(x) => js_flat_from(
                as_object(obj.pairs()),
                0,
                prefix@,
                start.pairs(),
                unwrap_css_types,
                api@,
            ) == Err::<Seq<(Seq<char>, Val)>, ErrorModel>(x.model()),
        },
    decreases total_size(as_object(obj.pairs())), 1int,
{
    let entries = es_ordered_entries(obj);
    let ghost e = as_object(obj.pairs());
    let ghost first = start.pairs();
    let mut acc = start;
    let mut i: usize = 0;
    while i < entries.len()
        invariant
            e == as_object(obj.pairs()),
            e == js_entry_models(entries@),
            first == start.pairs(),
            i <= entries@.len(),
            acc.model().css is None,
            js_flat_from(e, 0, prefix@, first, unwrap_css_types, api@) == js_flat_from(
                e,
                i as int,
                prefix@,
                acc.pairs(),
                unwrap_css_types,
                api@,
            ),
        decreases entries@.len() - i,
    {
        let (key, value) = entries[i];
        proof {
            assert(e[i as int] == (key@, value.model()));
            lemma_entry_smaller(e, i as int);
        }
        acc = match flatten_js_entry(key, value, prefix, acc, unwrap_css_types, api) {
            Ok(m) => m,
            Err(x) => {
                return Err(x);
            },
        };
        i += 1;
    }
    Ok(acc)
}

fn flatten_js_entry(
    key: &str,
    value: &JsValue,
    prefix: &str,
    start: JsObjectMap,
    unwrap_css_types: bool,
    api: &str,
) -> (r: Result<JsObjectMap, StylexError>)
    requires
        start.model().css is None,
    ensures
        match r {
            Ok(m) => m.model().css is None && js_flat_entry(
                key@,
                value.model(),
                prefix@,
                start.pairs(),
                unwrap_css_types,
                api@,
            ) == Ok::<Seq<(Seq<char>, Val)>, ErrorModel>(m.pairs()),
            Err(x) => js_flat_entry(
                key@,
                value.model(),
                prefix@,
                start.pairs(),
                unwrap_css_types,
                api@,
            ) == Err::<Seq<(Seq<char>, Val)>, ErrorModel>(x.model()),
        },
    decreases val_size(value.model()), 0int,
{
    if str_eq(key, "__proto__") {
        return Ok(start);
    }
    if has_separator(key) {
        return Err(StylexError::nested_key_contains_separator(key));
    }
    if undefined_like(value) {
        return Ok(start);
    }
    let full = join_key(prefix, key);
    if is_vars_leaf_js(value) {
        let leaf = match make_leaf(value, unwrap_css_types, api) {
            Ok(v) => v,
            Err(x) => {
                return Err(x);
            },
        };
        let mut acc = start;
        acc.insert(full, leaf);
        return Ok(acc);
    }
    match value {
        JsValue::Obj(obj) => {
            proof {
                lemma_as_object_size(obj.pairs(), obj.pairs().len() as int);
            }
            flatten_js_impl(obj, full.as_str(), start, unwrap_css_types, api)
        },
        _ => Ok(start),
    }
}

fn make_leaf(value: &JsValue, unwrap_css_types: bool, api: &str) -> (r: Result<
    EvalValue,
    StylexError,
>)
    ensures
        value_result(r) == leaf_value(value.model(), unwrap_css_types, api@),
{
    if let JsValue::Str(_) = value {
        return Ok(to_eval_value(value));
    }
    match as_css_type_js(value) {
        Some((_, inner)) => {
            if unwrap_css_types {
                to_vars_config_value_js(&inner, api)
            } else {
                Ok(to_eval_value(value))
            }
        },
        None => to_vars_config_value_js(value, api),
    }
}

/// The keys that are never split.
pub const SPECIAL_KEYS: [&'static str; 2] = ["__varGroupHash__", "$$css"];

/// What a key of a group holds while groups are built: a value, or another group.
#[verifier::ext_equal]
pub enum SlotModel {
    Value(Val),
    Child(int),
}

/// Groups that are being built. `nodes` holds them, the outermost first; `paths` says
/// which of them stands for a path.
#[verifier::ext_equal]
pub struct GroupsModel {
    pub nodes: Seq<Seq<(Seq<char>, SlotModel)>>,
    pub paths: Seq<(Seq<char>, int)>,
}

impl GroupsModel {
    /// The groups after a key of one of them was set.
    pub open spec fn with_slot(self, node: int, key: Seq<char>, slot: SlotModel) -> GroupsModel {
        GroupsModel {
            nodes: self.nodes.update(node, keyed_put(self.nodes[node], key, slot)),
            paths: self.paths,
        }
    }

    /// The groups after a new one was set as a key of one of them.
    pub open spec fn with_group(self, node: int, key: Seq<char>, path: Seq<char>) -> GroupsModel {
        let id = self.nodes.len() as int;
        let linked = self.with_slot(node, key, SlotModel::Child(id));
        GroupsModel {
            nodes: linked.nodes.push(Seq::empty()),
            paths: self.paths.push((path, id)),
        }
    }
}

/// The groups, and the one that the parts from `i` to `n` lead to.
pub open spec fn led_to(
    g: GroupsModel,
    parts: Seq<Seq<char>>,
    i: int,
    n: int,
    path: Seq<char>,
    node: int,
) -> (GroupsModel, int)
    decreases n - i,
{
    if i >= n {
        (g, node)
    } else {
        let next = full_key(path, parts[i]);
        match value_of(g.paths, next) {
            Some(id) => led_to(g, parts, i + 1, n, next, id),
            None => led_to(
                g.with_group(node, parts[i], next),
                parts,
                i + 1,
                n,
                next,
                g.nodes.len() as int,
            ),
        }
    }
}

/// Whether a flat key is a key of the outermost group.
pub open spec fn outermost(key: Seq<char>) -> bool {
    key == "__varGroupHash__"@ || key == "$$css"@ || !key.contains('.')
}

/// The groups after a flat key was set.
pub open spec fn with_flat(g: GroupsModel, key: Seq<char>, v: Val) -> GroupsModel {
    if outermost(key) {
        g.with_slot(0, key, SlotModel::Value(v))
    } else {
        let parts = split_at_char(key, '.');
        let (after, node) = led_to(g, parts, 0, parts.len() - 1, Seq::empty(), 0);
        after.with_slot(node, parts.last(), SlotModel::Value(v))
    }
}

/// The groups after the first `k` flat keys were set.
pub open spec fn grouped_upto(e: Seq<(Seq<char>, Val)>, k: int) -> GroupsModel
    decreases k,
{
    if k <= 0 {
        GroupsModel { nodes: seq![Seq::empty()], paths: Seq::empty() }
    } else {
        with_flat(grouped_upto(e, k - 1), e[k - 1].0, e[k - 1].1)
    }
}

/// The first `k` entries of a group, with the groups inside it. A group stands behind
/// the one that it is in.
pub open spec fn made_upto(nodes: Seq<Seq<(Seq<char>, SlotModel)>>, id: int, k: int) -> Seq<
    (Seq<char>, Val),
>
    decreases nodes.len() - id, k,
{
    if k <= 0 || id < 0 || id >= nodes.len() {
        Seq::empty()
    } else {
        let (key, slot) = nodes[id][k - 1];
        let done = made_upto(nodes, id, k - 1);
        match slot {
            SlotModel::Value(v) => put(done, key, v),
            SlotModel::Child(c) => if id < c < nodes.len() {
                let inner = made_upto(nodes, c, nodes[c].len() as int);
                put(done, key, Val::Obj(ObjModel { entries: inner, css: None }))
            } else {
                put(done, key, Val::Obj(ObjModel { entries: Seq::empty(), css: None }))
            },
        }
    }
}

/// The nested entries of flat ones.
pub open spec fn unflattened(e: Seq<(Seq<char>, Val)>) -> Seq<(Seq<char>, Val)> {
    let g = grouped_upto(e, e.len() as int);
    made_upto(g.nodes, 0, g.nodes[0].len() as int)
}

enum Slot {
    Value(EvalValue),
    Child(usize),
}

impl Slot {
    spec fn model(self) -> SlotModel {
        match self {
            Slot::Value(v) => SlotModel::Value(v.model()),
            Slot::Child(c) => SlotModel::Child(c as int),
        }
    }
}

spec fn slot_models(v: Seq<(String, Slot)>) -> Seq<(Seq<char>, SlotModel)> {
    Seq::new(v.len(), |i: int| (v[i].0@, v[i].1.model()))
}

spec fn node_models(v: Seq<Vec<(String, Slot)>>) -> Seq<Seq<(Seq<char>, SlotModel)>> {
    Seq::new(v.len(), |i: int| slot_models(v[i]@))
}

spec fn place_models(v: Seq<(String, usize)>) -> Seq<(Seq<char>, int)> {
    Seq::new(v.len(), |i: int| (v[i].0@, v[i].1 as int))
}

struct Groups {
    nodes: Vec<Vec<(String, Slot)>>,
    paths: Vec<(String, usize)>,
}

impl Groups {
    spec fn model(self) -> GroupsModel {
        GroupsModel { nodes: node_models(self.nodes@), paths: place_models(self.paths@) }
    }

    spec fn valid(self) -> bool {
        &&& self.nodes@.len() > 0
        &&& forall|i: int|
            0 <= i < self.paths@.len() ==> (#[trigger] self.paths@[i]).1 < self.nodes@.len()
    }

    fn set_slot(&mut self, node: usize, key: &str, slot: Slot)
        requires
            old(self).valid(),
            node < old(self).nodes@.len(),
        ensures
            final(self).valid(),
            final(self).nodes@.len() == old(self).nodes@.len(),
            final(self).model() == old(self).model().with_slot(node as int, key@, slot.model()),
    {
        let ghost before = self.model();
        let ghost sm = slot.model();
        if !str_eq(key, "__proto__") {
            let mut entries = self.nodes.remove(node);
            let ghost em = slot_models(entries@);
            proof {
                assert(keys_of(em) =~= item_keys(entries@));
            }
            put_item(&mut entries, key.to_owned(), slot);
            proof {
                assert(slot_models(entries@) =~= put(em, key@, sm));
            }
            self.nodes.insert(node, entries);
            proof {
                assert(node_models(self.nodes@) =~= before.nodes.update(
                    node as int,
                    put(em, key@, sm),
                ));
            }
        } else {
            proof {
                assert(before.nodes.update(node as int, before.nodes[node as int])
                    =~= before.nodes);
            }
        }
    }

    fn add_group(&mut self, node: usize, key: &str, path: String)
        requires
            old(self).valid(),
            node < old(self).nodes@.len(),
        ensures
            final(self).valid(),
            final(self).nodes@.len() == old(self).nodes@.len() + 1,
            final(self).model() == old(self).model().with_group(node as int, key@, path@),
    {
        let id: usize = self.nodes.len();
        self.set_slot(node, key, Slot::Child(id));
        let ghost linked = self.model();
        let empty: Vec<(String, Slot)> = Vec::new();
        self.nodes.push(empty);
        self.paths.push((path, id));
        proof {
            assert(slot_models(empty@) =~= Seq::<(Seq<char>, SlotModel)>::empty());
            assert(node_models(self.nodes@) =~= linked.nodes.push(Seq::empty()));
            assert(place_models(self.paths@) =~= linked.paths.push((path@, id as int)));
        }
    }

    fn set_flat(&mut self, key: &str, value: &EvalValue)
        requires
            old(self).valid(),
        ensures
            final(self).valid(),
            final(self).model() == with_flat(old(self).model(), key@, value.model()),
    {
        if str_eq(key, "__varGroupHash__") || str_eq(key, "$$css") || !has_separator(key) {
            self.set_slot(0, key, Slot::Value(value.clone()));
            return ;
        }
        let parts = split(key, '.');
        let ghost ps = texts(parts@);
        let ghost start = self.model();
        let mut path = String::new();
        let mut node: usize = 0;
        let mut i: usize = 0;
        proof {
            assert(ps.len() > 0);
            assert(path@ =~= Seq::<char>::empty());
        }
        while i < parts.len() - 1
            invariant
                self.valid(),
                ps == texts(parts@),
                parts@.len() > 0,
                i <= parts@.len() - 1,
                node < self.nodes@.len(),
                led_to(start, ps, 0, ps.len() - 1, Seq::empty(), 0) == led_to(
                    self.model(),
                    ps,
                    i as int,
                    ps.len() - 1,
                    path@,
                    node as int,
                ),
            decreases parts@.len() - i,
        {
            assert(ps[i as int] == parts@[i as int]@);
            let next = join_key(path.as_str(), parts[i].as_str());
            let at: usize = position_of(&self.paths, next.as_str());
            proof {
                assert(keys_of(place_models(self.paths@)) =~= item_keys(self.paths@));
                lemma_find_key(item_keys(self.paths@), next@, 0);
            }
            if at < self.paths.len() {
                node = self.paths[at].1;
            } else {
                let id: usize = self.nodes.len();
                self.add_group(node, parts[i].as_str(), next.clone());
                node = id;
            }
            path = next;
            i += 1;
        }
        let last = parts[parts.len() - 1].as_str();
        assert(ps[ps.len() - 1] == last@);
        self.set_slot(node, last, Slot::Value(value.clone()));
    }
}

fn materialize(nodes: &Vec<Vec<(String, Slot)>>, id: usize) -> (r: JsObjectMap)
    requires
        id < nodes@.len(),
    ensures
        r.model().css is None,
        r.pairs() == made_upto(
            node_models(nodes@),
            id as int,
            node_models(nodes@)[id as int].len() as int,
        ),
    decreases nodes@.len() - id,
{
    let ghost ns = node_models(nodes@);
    let entries = &nodes[id];
    let ghost es = slot_models(entries@);
    proof {
        assert(ns[id as int] == es);
    }
    let mut out = JsObjectMap::new();
    let mut i: usize = 0;
    while i < entries.len()
        invariant
            id < nodes@.len(),
            ns == node_models(nodes@),
            ns.len() == nodes@.len(),
            es == slot_models(entries@),
            ns[id as int] == es,
            i <= entries@.len(),
            out.model().css is None,
            out.pairs() == made_upto(ns, id as int, i as int),
        decreases entries@.len() - i,
    {
        let (key, slot) = &entries[i];
        assert(es[i as int] == (key@, slot.model()));
        match slot {
            Slot::Value(v) => {
                out.set(key.as_str(), v.clone());
            },
            Slot::Child(c) => {
                let inner = if id < *c && *c < nodes.len() {
                    materialize(nodes, *c)
                } else {
                    JsObjectMap::new()
                };
                proof {
                    assert(inner.model() =~= ObjModel { entries: inner.pairs(), css: None });
                }
                out.set(key.as_str(), EvalValue::Obj(inner));
            },
        }
        i += 1;
    }
    out
}

/// Builds the nested object of a flat one.
pub fn unflatten_object(flat: &JsObjectMap) -> (r: JsObjectMap)
    ensures
        r.model() == (ObjModel { entries: unflattened(flat.pairs()), css: None }),
{
    let ghost e = flat.pairs();
    let mut nodes: Vec<Vec<(String, Slot)>> = Vec::new();
    let root: Vec<(String, Slot)> = Vec::new();
    nodes.push(root);
    let mut groups = Groups { nodes, paths: Vec::new() };
    proof {
        assert(slot_models(root@) =~= Seq::<(Seq<char>, SlotModel)>::empty());
        assert(groups.model().nodes =~= seq![Seq::<(Seq<char>, SlotModel)>::empty()]);
        assert(groups.model() =~= grouped_upto(e, 0));
    }
    let mut i: usize = 0;
    while i < flat.items.len()
        invariant
            e == flat.pairs(),
            groups.valid(),
            i <= flat.items@.len(),
            groups.model() == grouped_upto(e, i as int),
        decreases flat.items@.len() - i,
    {
        assert(e[i as int] == (flat.items@[i as int].0@, flat.items@[i as int].1.model()));
        groups.set_flat(flat.items[i].0.as_str(), &flat.items[i].1);
        i += 1;
    }
    let out = materialize(&groups.nodes, 0);
    proof {
        assert(out.model() =~= ObjModel { entries: out.pairs(), css: None });
    }
    out
}

/// Those of the first `k` entries whose key is not the given one.
pub open spec fn without_upto(e: Seq<(Seq<char>, Val)>, key: Seq<char>, k: int) -> Seq<
    (Seq<char>, Val),
>
    decreases k,
{
    if k <= 0 {
        Seq::empty()
    } else if e[k - 1].0 == key {
        without_upto(e, key, k - 1)
    } else {
        put(without_upto(e, key, k - 1), e[k - 1].0, e[k - 1].1)
    }
}

/// The value of the last of the first `k` entries that has the given key.
pub open spec fn last_value(e: Seq<(Seq<char>, Val)>, key: Seq<char>, k: int) -> Option<Val>
    decreases k,
{
    if k <= 0 {
        None
    } else if e[k - 1].0 == key {
        Some(e[k - 1].1)
    } else {
        last_value(e, key, k - 1)
    }
}

/// The nested references to variables, with the name of their group at the end.
pub open spec fn nested_vars(e: Seq<(Seq<char>, Val)>) -> Seq<(Seq<char>, Val)> {
    let refs = unflattened(without_upto(e, "__varGroupHash__"@, e.len() as int));
    match last_value(e, "__varGroupHash__"@, e.len() as int) {
        Some(hash) => put(refs, "__varGroupHash__"@, hash),
        None => refs,
    }
}

/// Gives the nested references to variables, with the name of their group at the end.
pub fn nest_define_vars_js_output(flat_result: &JsObjectMap) -> (r: JsObjectMap)
    ensures
        r.model() == (ObjModel { entries: nested_vars(flat_result.pairs()), css: None }),
{
    let ghost e = flat_result.pairs();
    let mut refs = JsObjectMap::new();
    let mut hash: Option<EvalValue> = None;
    let mut i: usize = 0;
    while i < flat_result.items.len()
        invariant
            e == flat_result.pairs(),
            i <= flat_result.items@.len(),
            refs.pairs() == without_upto(e, "__varGroupHash__"@, i as int),
            match hash {
                Some(v) => last_value(e, "__varGroupHash__"@, i as int) == Some(v.model()),
                None => last_value(e, "__varGroupHash__"@, i as int) is None,
            },
        decreases flat_result.items@.len() - i,
    {
        let (k, v) = &flat_result.items[i];
        assert(e[i as int] == (k@, v.model()));
        if str_eq(k.as_str(), "__varGroupHash__") {
            hash = Some(v.clone());
        } else {
            refs.set(k.as_str(), v.clone());
        }
        i += 1;
    }
    let mut out = unflatten_object(&refs);
    if let Some(v) = hash {
        out.set("__varGroupHash__", v);
    }
    proof {
        assert(out.model() =~= ObjModel { entries: out.pairs(), css: None });
    }
    out
}

/// What nested constants compile to.
pub open spec fn nested_consts_output(
    v: Val,
    file: Seq<char>,
    export: Seq<char>,
    options: ResolvedOptions,
) -> Result<ConstsModel, ErrorModel> {
    if !(v is Obj || v is Arr) {
        Err(non_style_object_model("unstable_defineConstsNested"@))
    } else {
        match flat_config(v, LeafKind::Consts) {
            Err(x) => Err(x),
            Ok(flat) => match consts_output(Val::Obj(flat), file, export, options) {
                Err(x) => Err(x),
                Ok(out) => Ok(
                    ConstsModel { entries: unflattened(out.entries), rules: out.rules },
                ),
            },
        }
    }
}

/// Compiles the nested constants that a file exports.
pub fn define_consts_nested(
    constants: &EvalValue,
    canonical_file_name: &str,
    export_name: &str,
    options: &ResolvedOptions,
) -> (r: Result<DefineConstsOutput, StylexError>)
    ensures
        consts_result(r) == nested_consts_output(
            constants.model(),
            canonical_file_name@,
            export_name@,
            *options,
        ),
        r is Ok ==> r->Ok_0.js_output.model().css is None,
{
    match constants {
        EvalValue::Obj(_) => {},
        EvalValue::Arr(_) => {},
        _ => {
            return Err(StylexError::non_style_object("unstable_defineConstsNested"));
        },
    }
    let flat = match flatten_nested_consts_config(constants) {
        Ok(m) => m,
        Err(x) => {
            return Err(x);
        },
    };
    match define_consts(&EvalValue::Obj(flat), canonical_file_name, export_name, options) {
        Ok(out) => Ok(
            DefineConstsOutput { js_output: unflatten_object(&out.js_output), rules: out.rules },
        ),
        Err(x) => Err(x),
    }
}

/// Whether a key that the walk over nested entries meets holds a dot.
pub open spec fn meets_dot(e: Seq<(Seq<char>, Val)>, kind: LeafKind) -> bool
    decreases e,
{
    exists|i: int|
        0 <= i < e.len() && (#[trigger] e[i]).0 != "__proto__"@ && (e[i].0.contains('.') || (
        !is_leaf(e[i].1, kind) && match e[i].1 {
            Val::Obj(m) => meets_dot(m.entries, kind),
            _ => false,
        }))
}

proof fn lemma_dot_fails(
    e: Seq<(Seq<char>, Val)>,
    i: int,
    at: int,
    prefix: Seq<char>,
    acc: Seq<(Seq<char>, Val)>,
    kind: LeafKind,
)
    requires
        0 <= i <= at < e.len(),
        e[at].0 != "__proto__"@,
        e[at].0.contains('.') || (!is_leaf(e[at].1, kind) && match e[at].1 {
            Val::Obj(m) => meets_dot(m.entries, kind),
            _ => false,
        }),
    ensures
        flat_from(e, i, prefix, acc, kind) is Err,
    decreases e, at - i,
{
    let (key, v) = e[i];
    if i < at {
        if key == "__proto__"@ {
            lemma_dot_fails(e, i + 1, at, prefix, acc, kind);
        } else if !key.contains('.') {
            if is_leaf(v, kind) {
                lemma_dot_fails(e, i + 1, at, prefix, put(acc, full_key(prefix, key), v), kind);
            } else {
                match v {
                    Val::Obj(m) => {
                        match flat_from(m.entries, 0, full_key(prefix, key), acc, kind) {
                            Ok(more) => {
                                lemma_dot_fails(e, i + 1, at, prefix, more, kind);
                            },
                            Err(_) => {},
                        }
                    },
                    _ => {
                        lemma_dot_fails(e, i + 1, at, prefix, acc, kind);
                    },
                }
            }
        }
    } else if !key.contains('.') {
        if let Val::Obj(m) = v {
            let inner = m.entries;
            let j = choose|j: int|
                0 <= j < inner.len() && (#[trigger] inner[j]).0 != "__proto__"@ && (
                inner[j].0.contains('.') || (!is_leaf(inner[j].1, kind) && match inner[j].1 {
                    Val::Obj(m) => meets_dot(m.entries, kind),
                    _ => false,
                }));
            lemma_dot_fails(inner, 0, j, full_key(prefix, key), acc, kind);
        }
    }
}

/// A key with a dot is refused at any depth.
pub proof fn dots_are_refused(v: Val, kind: LeafKind)
    requires
        js_entries(v) is Some,
        meets_dot(js_entries(v)->0, kind),
    ensures
        flat_config(v, kind) is Err,
{
    let e = js_entries(v)->0;
    let i = choose|i: int|
        0 <= i < e.len() && (#[trigger] e[i]).0 != "__proto__"@ && (e[i].0.contains('.') || (
        !is_leaf(e[i].1, kind) && match e[i].1 {
            Val::Obj(m) => meets_dot(m.entries, kind),
            _ => false,
        }));
    lemma_dot_fails(e, 0, i, Seq::empty(), Seq::empty(), kind);
}

proof fn lemma_default_stays(
    e: Seq<(Seq<char>, Val)>,
    i: int,
    acc: Seq<(Seq<char>, Val)>,
    api: Seq<char>,
)
    requires
        0 <= i <= e.len(),
        acc.len() > 0,
        acc[0].0 == "default"@,
        forall|j: int| 0 <= j < e.len() ==> conditional_key((#[trigger] e[j]).0),
        config_from(e, i, acc, api) is Ok,
    ensures
        config_from(e, i, acc, api)->Ok_0.len() > 0,
        config_from(e, i, acc, api)->Ok_0[0].0 == "default"@,
    decreases e.len() - i,
{
    if i < e.len() {
        if e[i].0 == "__proto__"@ {
            lemma_default_stays(e, i + 1, acc, api);
        } else {
            let v = config_value(e[i].1, api)->Ok_0;
            let key = e[i].0;
            assert(conditional_key(key));
            assert(array_index_of(key) is None) by {
                reveal_strlit("default");
                reveal_strlit("@");
                if key != "default"@ {
                    assert(key.take(1) == "@"@);
                    assert(key[0] == key.take(1)[0]);
                }
                assert(key.len() > 0 && !digit(key[0]));
            }
            lemma_find_key(keys_of(acc), key, 0);
            lemma_default_stays(e, i + 1, put(acc, key, v), api);
        }
    }
}

/// The default of a leaf with conditions comes first, wherever it was written.
pub proof fn default_comes_first(v: Val, unwrap: bool, api: Seq<char>)
    requires
        v is Obj,
        is_vars_leaf(v),
        css_type_of(v) is None,
        leaf_value(v, unwrap, api) is Ok,
    ensures
        leaf_value(v, unwrap, api)->Ok_0 is Obj,
        leaf_value(v, unwrap, api)->Ok_0->Obj_0.entries.len() > 0,
        leaf_value(v, unwrap, api)->Ok_0->Obj_0.entries[0].0 == "default"@,
{
    if let Val::Obj(m) = v {
        let none = Seq::<(Seq<char>, Val)>::empty();
        lemma_find_key(keys_of(none), "default"@, 0);
        reveal_strlit("default");
        assert(!digit("default"@[0]));
        assert(array_index_of("default"@) is None);
        lemma_default_stays(as_object(m.entries), 0, default_entries(), api);
    }
}

} // verus!
