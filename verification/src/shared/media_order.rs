//! The order of sibling media queries: where two hold, the later one decides.

use crate::errors::{said, ErrorCode, ErrorModel, StylexError};
use crate::options::ResolvedOptions;
use crate::shared::media_query::{
    is_media_key, last_media_query_wins_transform, last_wins, MediaErrorModel, MediaQueryError,
};
use crate::text::{concat3, has_prefix, str_eq, texts};
use crate::value::{
    array_index_of, es_ordered, index_slot, keys_of, lemma_find_key, put, removed, value_of,
    EvalValue, JsObjectMap, ObjModel, Val,
};
use vstd::prelude::*;

verus! {

/// Whether the rewriting of media queries could change an object that stands inside
/// another or not: it drops prototypes and CSS types, and rewrites media queries below the top.
pub open spec fn can_change(m: ObjModel, nested: bool) -> bool
    decreases m,
{
    m.css is Some || exists|i: int|
        0 <= i < m.entries.len() && {
            ||| (#[trigger] m.entries[i]).0 == "__proto__"@
            ||| nested && has_prefix(m.entries[i].0, "@media "@)
            ||| match m.entries[i].1 {
                Val::Obj(inner) => can_change(inner, true),
                _ => false,
            }
        }
}

/// The media queries among the first `k` keys.
pub open spec fn media_keys(e: Seq<(Seq<char>, Val)>, k: int) -> Seq<Seq<char>>
    decreases k,
{
    if k <= 0 {
        Seq::empty()
    } else if has_prefix(e[k - 1].0, "@media "@) {
        media_keys(e, k - 1).push(e[k - 1].0)
    } else {
        media_keys(e, k - 1)
    }
}

/// The entries after the first `k` old keys gave way to new ones, each behind all
/// others.
pub open spec fn renamed(
    e: Seq<(Seq<char>, Val)>,
    old_keys: Seq<Seq<char>>,
    new_keys: Seq<Seq<char>>,
    k: int,
) -> Seq<(Seq<char>, Val)>
    decreases k,
{
    if k <= 0 {
        e
    } else {
        let done = renamed(e, old_keys, new_keys, k - 1);
        match value_of(done, old_keys[k - 1]) {
            Some(v) => put(removed(done, old_keys[k - 1]), new_keys[k - 1], v),
            None => done,
        }
    }
}

/// The error for media queries that cannot be put in order.
pub open spec fn order_error(e: MediaErrorModel) -> ErrorModel {
    match e {
        MediaErrorModel::Syntax(x) => x,
        MediaErrorModel::Unverified(input) => said(
            ErrorCode::UnsupportedApi,
            "media query `"@ + input + "` (unverified tokenizer form)"@ + " is not supported."@,
        ),
    }
}

/// The entries with their media queries in order.
pub open spec fn in_media_order(e: Seq<(Seq<char>, Val)>) -> Result<
    Seq<(Seq<char>, Val)>,
    ErrorModel,
> {
    let keys = media_keys(e, e.len() as int);
    match last_wins(keys) {
        Ok(new_keys) => Ok(renamed(e, keys, new_keys, keys.len() as int)),
        Err(x) => Err(order_error(x)),
    }
}

/// A value, rebuilt if it is an object that could change.
pub open spec fn rebuilt_value(v: Val) -> Result<Val, ErrorModel>
    decreases v, 0int,
{
    match v {
        Val::Obj(inner) => if can_change(inner, true) {
            match ordered(inner, true) {
                Ok(m) => Ok(Val::Obj(m)),
                Err(x) => Err(x),
            }
        } else {
            Ok(v)
        },
        _ => Ok(v),
    }
}

/// The first `k` entries, each object that could change rebuilt.
pub open spec fn rebuilt_upto(e: Seq<(Seq<char>, Val)>, k: int) -> Result<
    Seq<(Seq<char>, Val)>,
    ErrorModel,
>
    decreases e, k,
{
    if k <= 0 || k > e.len() {
        Ok(Seq::empty())
    } else {
        match rebuilt_upto(e, k - 1) {
            Err(x) => Err(x),
            Ok(done) => if e[k - 1].0 == "__proto__"@ {
                Ok(done)
            } else {
                match rebuilt_value(e[k - 1].1) {
                    Ok(v) => Ok(put(done, e[k - 1].0, v)),
                    Err(x) => Err(x),
                }
            },
        }
    }
}

/// An object, inside another or not, with all media queries below the top in order.
pub open spec fn ordered(m: ObjModel, nested: bool) -> Result<ObjModel, ErrorModel>
    decreases m, 0int,
{
    match rebuilt_upto(m.entries, m.entries.len() as int) {
        Err(x) => Err(x),
        Ok(e) => if nested && media_keys(e, e.len() as int).len() > 0 {
            match in_media_order(e) {
                Ok(done) => Ok(ObjModel { entries: done, css: None }),
                Err(x) => Err(x),
            }
        } else {
            Ok(ObjModel { entries: e, css: None })
        },
    }
}

/// What the rewriting gives, mathematically.
pub open spec fn object_result(r: Result<JsObjectMap, StylexError>) -> Result<ObjModel, ErrorModel> {
    match r {
        Ok(m) => Ok(m.model()),
        Err(e) => Err(e.model()),
    }
}

/// Whether the rewriting of media queries could change an object at `depth`.
pub fn dfs_can_change(obj: &JsObjectMap, depth: usize) -> (r: bool)
    ensures
        r == can_change(obj.model(), depth >= 1),
    decreases obj,
{
    if obj.css.is_some() {
        return true;
    }
    let ghost m = obj.model();
    let mut i: usize = 0;
    while i < obj.items.len()
        invariant
            m == obj.model(),
            i <= obj.items@.len(),
            m.css is None,
            forall|j: int|
                0 <= j < i ==> {
                    &&& (#[trigger] m.entries[j]).0 != "__proto__"@
                    &&& !(depth >= 1 && has_prefix(m.entries[j].0, "@media "@))
                    &&& match m.entries[j].1 {
                        Val::Obj(inner) => !can_change(inner, true),
                        _ => true,
                    }
                },
        decreases obj.items@.len() - i,
    {
        assert(m.entries[i as int] == (obj.items@[i as int].0@, obj.items@[i as int].1.model()));
        let key = obj.items[i].0.as_str();
        if str_eq(key, "__proto__") || (depth >= 1 && is_media_key(key)) {
            return true;
        }
        if let EvalValue::Obj(inner) = &obj.items[i].1 {
            proof {
                assert(decreases_to!(*obj => obj.items));
                assert(decreases_to!(obj.items => obj.items@[i as int]));
            }
            if dfs_can_change(inner, 1) {
                return true;
            }
        }
        i += 1;
    }
    false
}

fn order_failure(e: MediaQueryError) -> (r: StylexError)
    ensures
        r.model() == order_error(e.model()),
{
    match e {
        MediaQueryError::Syntax(x) => x,
        MediaQueryError::Unverified { input } => StylexError::unsupported_api(
            concat3("media query `", input.as_str(), "` (unverified tokenizer form)").as_str(),
        ),
    }
}

fn collect_media_keys(obj: &JsObjectMap) -> (r: Vec<String>)
    ensures
        texts(r@) == media_keys(obj.pairs(), obj.pairs().len() as int),
{
    let ghost e = obj.pairs();
    let mut out: Vec<String> = Vec::new();
    let mut i: usize = 0;
    proof {
        assert(texts(out@) =~= Seq::<Seq<char>>::empty());
    }
    while i < obj.items.len()
        invariant
            e == obj.pairs(),
            i <= obj.items@.len(),
            texts(out@) == media_keys(e, i as int),
        decreases obj.items@.len() - i,
    {
        assert(e[i as int].0 == obj.items@[i as int].0@);
        if is_media_key(obj.items[i].0.as_str()) {
            let ghost before = texts(out@);
            out.push(obj.items[i].0.clone());
            proof {
                assert(texts(out@) =~= before.push(e[i as int].0));
            }
        }
        i += 1;
    }
    out
}

fn rename_media(obj: JsObjectMap, media: &Vec<String>) -> (r: Result<JsObjectMap, StylexError>)
    requires
        obj.model().css is None,
        texts(media@) == media_keys(obj.pairs(), obj.pairs().len() as int),
    ensures
        match r {
            Ok(m) => in_media_order(obj.pairs()) == Ok::<Seq<(Seq<char>, Val)>, ErrorModel>(
                m.pairs(),
            ) && m.model().css is None,
            Err(x) => in_media_order(obj.pairs()) == Err::<Seq<(Seq<char>, Val)>, ErrorModel>(
                x.model(),
            ),
        },
{
    let ghost start = obj.pairs();
    let mut result = obj;
    let new_keys = match last_media_query_wins_transform(media) {
        Ok(v) => v,
        Err(x) => {
            return Err(order_failure(x));
        },
    };
    proof {
        assert(texts(media@).len() == media@.len());
        assert(texts(new_keys@).len() == new_keys@.len());
    }
    let mut k: usize = 0;
    while k < media.len()
        invariant
            k <= media@.len(),
            media@.len() == new_keys@.len(),
            result.model().css is None,
            result.pairs() == renamed(start, texts(media@), texts(new_keys@), k as int),
        decreases media@.len() - k,
    {
        if let Some(v) = result.remove(media[k].as_str()) {
            result.set(new_keys[k].as_str(), v);
        }
        k += 1;
    }
    Ok(result)
}

fn process_value(v: &EvalValue) -> (r: Result<EvalValue, StylexError>)
    ensures
        match r {
            Ok(x) => rebuilt_value(v.model()) == Ok::<Val, ErrorModel>(x.model()),
            Err(x) => rebuilt_value(v.model()) == Err::<Val, ErrorModel>(x.model()),
        },
    decreases v,
{
    match v {
        EvalValue::Obj(inner) => {
            if dfs_can_change(inner, 1) {
                match dfs_process_map(inner, 1) {
                    Ok(m) => Ok(EvalValue::Obj(m)),
                    Err(x) => Err(x),
                }
            } else {
                Ok(v.clone())
            }
        },
        _ => Ok(v.clone()),
    }
}

/// Puts the media queries of an object in order.
pub fn dfs_process_map(obj: &JsObjectMap, depth: usize) -> (r: Result<JsObjectMap, StylexError>)
    ensures
        object_result(r) == ordered(obj.model(), depth >= 1),
    decreases obj,
{
    let ghost e = obj.pairs();
    let nested = depth >= 1;
    let mut result = JsObjectMap::new();
    let mut i: usize = 0;
    while i < obj.items.len()
        invariant
            e == obj.pairs(),
            e.len() == obj.items@.len(),
            i <= obj.items@.len(),
            nested == (depth >= 1),
            result.model().css is None,
            rebuilt_upto(e, i as int) == Ok::<Seq<(Seq<char>, Val)>, ErrorModel>(result.pairs()),
        decreases obj.items@.len() - i,
    {
        assert(e[i as int] == (obj.items@[i as int].0@, obj.items@[i as int].1.model()));
        let key = obj.items[i].0.as_str();
        if !str_eq(key, "__proto__") {
            proof {
                assert(decreases_to!(*obj => obj.items));
                assert(decreases_to!(obj.items => obj.items@[i as int]));
            }
            match process_value(&obj.items[i].1) {
                Ok(v) => {
                    result.set(key, v);
                },
                Err(x) => {
                    proof {
                        lemma_first_failure(e, i + 1, e.len() as int);
                    }
                    return Err(x);
                },
            }
        }
        i += 1;
    }
    if nested {
        let media = collect_media_keys(&result);
        if media.len() > 0 {
            return rename_media(result, &media);
        }
        proof {
            assert(texts(media@).len() == 0);
        }
    }
    Ok(result)
}

proof fn lemma_first_failure(e: Seq<(Seq<char>, Val)>, i: int, k: int)
    requires
        0 <= i <= k <= e.len(),
        rebuilt_upto(e, i) is Err,
    ensures
        rebuilt_upto(e, k) == rebuilt_upto(e, i),
    decreases k,
{
    if i < k {
        lemma_first_failure(e, i, k - 1);
    }
}

/// Puts the media queries of a style in order where the options ask for it and
/// something could change.
pub fn media_order_transform(style: &JsObjectMap, options: &ResolvedOptions) -> (r: Result<
    Option<JsObjectMap>,
    StylexError,
>)
    ensures
        if options.enable_media_query_order && can_change(style.model(), false) {
            match r {
                Ok(o) => o is Some && ordered(style.model(), false) == Ok::<ObjModel, ErrorModel>(
                    o->0.model(),
                ),
                Err(x) => ordered(style.model(), false) == Err::<ObjModel, ErrorModel>(x.model()),
            }
        } else {
            r matches Ok(o) && o is None
        },
{
    if options.enable_media_query_order && dfs_can_change(style, 0) {
        match dfs_process_map(style, 0) {
            Ok(m) => Ok(Some(m)),
            Err(x) => Err(x),
        }
    } else {
        Ok(None)
    }
}

/// Whether the keys of a value, and of all objects in it, are in the order of
/// ECMAScript.
pub open spec fn deeply_ordered(m: ObjModel) -> bool
    decreases m,
{
    es_ordered(keys_of(m.entries)) && forall|i: int|
        0 <= i < m.entries.len() ==> match (#[trigger] m.entries[i]).1 {
            Val::Obj(inner) => deeply_ordered(inner),
            _ => true,
        }
}

/// The first `k` entries, each object rebuilt, whether it could change or not.
pub open spec fn all_rebuilt_upto(e: Seq<(Seq<char>, Val)>, k: int) -> Result<
    Seq<(Seq<char>, Val)>,
    ErrorModel,
>
    decreases e, k,
{
    if k <= 0 || k > e.len() {
        Ok(Seq::empty())
    } else {
        match all_rebuilt_upto(e, k - 1) {
            Err(x) => Err(x),
            Ok(done) => {
                let (key, v) = e[k - 1];
                if key == "__proto__"@ {
                    Ok(done)
                } else {
                    match v {
                        Val::Obj(inner) => match all_ordered(inner, true) {
                            Ok(m) => Ok(put(done, key, Val::Obj(m))),
                            Err(x) => Err(x),
                        },
                        _ => Ok(put(done, key, v)),
                    }
                }
            },
        }
    }
}

/// An object with its media queries in order and every object in it rebuilt.
pub open spec fn all_ordered(m: ObjModel, nested: bool) -> Result<ObjModel, ErrorModel>
    decreases m,
{
    match all_rebuilt_upto(m.entries, m.entries.len() as int) {
        Err(x) => Err(x),
        Ok(e) => if nested && media_keys(e, e.len() as int).len() > 0 {
            match in_media_order(e) {
                Ok(done) => Ok(ObjModel { entries: done, css: None }),
                Err(x) => Err(x),
            }
        } else {
            Ok(ObjModel { entries: e, css: None })
        },
    }
}

proof fn lemma_slot_behind(keys: Seq<Seq<char>>, n: int, from: int)
    requires
        0 <= from <= keys.len(),
        forall|i: int|
            0 <= i < keys.len() ==> array_index_of(#[trigger] keys[i]) is Some && array_index_of(
                keys[i],
            )->0 < n,
    ensures
        index_slot(keys, n, from) == keys.len(),
    decreases keys.len() - from,
{
    if from < keys.len() {
        assert(array_index_of(keys[from]) is Some);
        lemma_slot_behind(keys, n, from + 1);
    }
}

proof fn lemma_put_appends(e: Seq<(Seq<char>, Val)>, k: int)
    requires
        0 <= k < e.len(),
        es_ordered(keys_of(e)),
    ensures
        put(e.take(k), e[k].0, e[k].1) == e.take(k + 1),
{
    let done = e.take(k);
    let keys = keys_of(done);
    lemma_find_key(keys, e[k].0, 0);
    assert forall|i: int| 0 <= i < k implies #[trigger] keys[i] != e[k].0 by {
        assert(keys[i] == keys_of(e)[i]);
        assert(keys_of(e)[k] == e[k].0);
    }
    match array_index_of(e[k].0) {
        Some(n) => {
            assert forall|i: int| 0 <= i < keys.len() implies array_index_of(#[trigger] keys[i])
                is Some && array_index_of(keys[i])->0 < n by {
                assert(keys[i] == keys_of(e)[i]);
                assert(keys_of(e)[k] == e[k].0);
            }
            lemma_slot_behind(keys, n, 0);
        },
        None => {},
    }
    assert(put(done, e[k].0, e[k].1) =~= e.take(k + 1));
}

proof fn lemma_no_media(e: Seq<(Seq<char>, Val)>, k: int)
    requires
        0 <= k <= e.len(),
        forall|i: int| 0 <= i < e.len() ==> !has_prefix((#[trigger] e[i]).0, "@media "@),
    ensures
        media_keys(e, k) == Seq::<Seq<char>>::empty(),
    decreases k,
{
    if k > 0 {
        lemma_no_media(e, k - 1);
    }
}

proof fn lemma_all_unchanged_upto(m: ObjModel, nested: bool, k: int)
    requires
        0 <= k <= m.entries.len(),
        !can_change(m, nested),
        deeply_ordered(m),
    ensures
        all_rebuilt_upto(m.entries, k) == Ok::<Seq<(Seq<char>, Val)>, ErrorModel>(
            m.entries.take(k),
        ),
    decreases m.entries, k,
{
    if k > 0 {
        lemma_all_unchanged_upto(m, nested, k - 1);
        lemma_put_appends(m.entries, k - 1);
        let x = m.entries[k - 1];
        match x.1 {
            Val::Obj(inner) => {
                lemma_all_unchanged(inner, true);
            },
            _ => {},
        }
    } else {
        assert(m.entries.take(0) =~= Seq::<(Seq<char>, Val)>::empty());
    }
}

proof fn lemma_all_unchanged(m: ObjModel, nested: bool)
    requires
        !can_change(m, nested),
        deeply_ordered(m),
    ensures
        all_ordered(m, nested) == Ok::<ObjModel, ErrorModel>(m),
    decreases m,
{
    lemma_all_unchanged_upto(m, nested, m.entries.len() as int);
    assert(m.entries.take(m.entries.len() as int) =~= m.entries);
    if nested {
        lemma_no_media(m.entries, m.entries.len() as int);
    }
}

proof fn lemma_sharing_upto(e: Seq<(Seq<char>, Val)>, k: int)
    requires
        0 <= k <= e.len(),
        forall|i: int|
            0 <= i < e.len() ==> match (#[trigger] e[i]).1 {
                Val::Obj(inner) => deeply_ordered(inner),
                _ => true,
            },
    ensures
        rebuilt_upto(e, k) == all_rebuilt_upto(e, k),
    decreases e, k,
{
    if k > 0 {
        lemma_sharing_upto(e, k - 1);
        let x = e[k - 1];
        let one = rebuilt_value(x.1);
        assert(one == match x.1 {
            Val::Obj(inner) => if can_change(inner, true) {
                match ordered(inner, true) {
                    Ok(m) => Ok(Val::Obj(m)),
                    Err(y) => Err(y),
                }
            } else {
                Ok(x.1)
            },
            _ => Ok(x.1),
        });
        match x.1 {
            Val::Obj(inner) => {
                if can_change(inner, true) {
                    sharing_is_not_seen(inner, true);
                } else {
                    lemma_all_unchanged(inner, true);
                }
            },
            _ => {},
        }
    }
}

/// To take over an object that cannot change gives what to rebuild it gives.
pub proof fn sharing_is_not_seen(m: ObjModel, nested: bool)
    requires
        deeply_ordered(m),
    ensures
        ordered(m, nested) == all_ordered(m, nested),
    decreases m,
{
    lemma_sharing_upto(m.entries, m.entries.len() as int);
}

/// An object in which nothing could change is what the rewriting gives for it.
pub proof fn unchangeable_styles_stay(m: ObjModel, nested: bool)
    requires
        deeply_ordered(m),
        !can_change(m, nested),
    ensures
        ordered(m, nested) == Ok::<ObjModel, ErrorModel>(m),
{
    sharing_is_not_seen(m, nested);
    lemma_all_unchanged(m, nested);
}

} // verus!
