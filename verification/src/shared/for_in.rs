//! Which keys of an object an enumeration reaches when a `__proto__` key plants a
//! prototype.

use crate::text::str_eq;
use crate::value::{
    as_object_upto, find_key, item_keys, keys_of, lemma_find_key, lemma_slot, position_of, put,
    slot_of, value_of, EvalValue, JsObjectMap, ObjModel, Val,
};
use vstd::prelude::*;

verus! {

/// How large a value is.
pub open spec fn val_size(v: Val) -> nat
    decreases v, 0int,
{
    match v {
        Val::Obj(m) => 1 + entries_size(m.entries, m.entries.len() as int),
        _ => 1,
    }
}

/// How large the first `k` entries are together.
pub open spec fn entries_size(e: Seq<(Seq<char>, Val)>, k: int) -> nat
    decreases e, k,
{
    if k <= 0 || k > e.len() {
        0
    } else {
        entries_size(e, k - 1) + 1 + val_size(e[k - 1].1)
    }
}

/// How large entries are together.
pub open spec fn total_size(e: Seq<(Seq<char>, Val)>) -> nat {
    entries_size(e, e.len() as int)
}

/// Whether no array and no `null` stands in the chain of prototypes.
pub open spec fn plain(e: Seq<(Seq<char>, Val)>) -> bool
    decreases e,
{
    let at = find_key(keys_of(e), "__proto__"@, 0);
    if 0 <= at < e.len() {
        match e[at].1 {
            Val::Obj(m) => plain(m.entries),
            Val::Null | Val::Arr(_) => false,
            _ => true,
        }
    } else {
        true
    }
}

/// `seen`, and those of the first `k` entries whose keys are not in it.
pub open spec fn unseen_upto(
    e: Seq<(Seq<char>, Val)>,
    seen: Seq<(Seq<char>, Val)>,
    k: int,
) -> Seq<(Seq<char>, Val)>
    decreases k,
{
    if k <= 0 {
        seen
    } else {
        let done = unseen_upto(e, seen, k - 1);
        if e[k - 1].0 == "__proto__"@ || value_of(done, e[k - 1].0) is Some {
            done
        } else {
            done.push(e[k - 1])
        }
    }
}

/// `seen`, and the entries of an object and of its prototypes whose keys are new.
pub open spec fn chain(e: Seq<(Seq<char>, Val)>, seen: Seq<(Seq<char>, Val)>) -> Seq<
    (Seq<char>, Val),
>
    decreases e,
{
    let all = unseen_upto(e, seen, e.len() as int);
    let at = find_key(keys_of(e), "__proto__"@, 0);
    if 0 <= at < e.len() {
        match e[at].1 {
            Val::Obj(m) => chain(m.entries, all),
            _ => all,
        }
    } else {
        all
    }
}

/// The entries that an enumeration of an object reaches: its own, then those of its
/// prototypes that nothing hides.
pub open spec fn for_in(m: ObjModel) -> Seq<(Seq<char>, Val)> {
    if value_of(m.entries, "__proto__"@) is None {
        m.entries
    } else {
        chain(m.entries, Seq::empty())
    }
}

/// What borrowed entries are, mathematically.
pub open spec fn entry_models(v: Seq<(&str, &EvalValue)>) -> Seq<(Seq<char>, Val)> {
    Seq::new(v.len(), |i: int| (v[i].0@, v[i].1.model()))
}

proof fn lemma_size_prefix(a: Seq<(Seq<char>, Val)>, b: Seq<(Seq<char>, Val)>, k: int)
    requires
        0 <= k <= a.len(),
        k <= b.len(),
        forall|i: int| 0 <= i < k ==> a[i] == b[i],
    ensures
        entries_size(a, k) == entries_size(b, k),
    decreases k,
{
    if k > 0 {
        lemma_size_prefix(a, b, k - 1);
    }
}

proof fn lemma_size_push(e: Seq<(Seq<char>, Val)>, x: (Seq<char>, Val))
    ensures
        total_size(e.push(x)) == total_size(e) + 1 + val_size(x.1),
{
    lemma_size_prefix(e, e.push(x), e.len() as int);
}

/// Each entry is smaller than all of them together.
pub proof fn lemma_entry_smaller(e: Seq<(Seq<char>, Val)>, i: int)
    requires
        0 <= i < e.len(),
    ensures
        val_size(e[i].1) < total_size(e),
{
    lemma_entry_within(e, i, e.len() as int);
}

proof fn lemma_entry_within(e: Seq<(Seq<char>, Val)>, i: int, k: int)
    requires
        0 <= i < k <= e.len(),
    ensures
        val_size(e[i].1) < entries_size(e, k),
    decreases k,
{
    if i < k - 1 {
        lemma_entry_within(e, i, k - 1);
    }
}

proof fn lemma_unseen_size(
    e: Seq<(Seq<char>, Val)>,
    seen: Seq<(Seq<char>, Val)>,
    at: int,
    k: int,
)
    requires
        0 <= k <= e.len(),
        0 <= at < e.len() ==> e[at].0 == "__proto__"@,
    ensures
        total_size(unseen_upto(e, seen, k)) + if 0 <= at < k {
            1 + val_size(e[at].1)
        } else {
            0
        } <= total_size(seen) + entries_size(e, k),
    decreases k,
{
    if k > 0 {
        lemma_unseen_size(e, seen, at, k - 1);
        lemma_size_push(unseen_upto(e, seen, k - 1), e[k - 1]);
    }
}

proof fn lemma_chain_size(e: Seq<(Seq<char>, Val)>, seen: Seq<(Seq<char>, Val)>)
    ensures
        total_size(chain(e, seen)) <= total_size(seen) + total_size(e),
    decreases e,
{
    let at = find_key(keys_of(e), "__proto__"@, 0);
    lemma_find_key(keys_of(e), "__proto__"@, 0);
    let all = unseen_upto(e, seen, e.len() as int);
    if 0 <= at < e.len() {
        assert(keys_of(e)[at] == e[at].0);
    }
    lemma_unseen_size(e, seen, at, e.len() as int);
    if 0 <= at < e.len() {
        match e[at].1 {
            Val::Obj(m) => {
                lemma_chain_size(m.entries, all);
            },
            _ => {},
        }
    }
}

/// What an enumeration reaches is no larger than the object.
pub proof fn lemma_for_in_size(m: ObjModel)
    ensures
        total_size(for_in(m)) < val_size(Val::Obj(m)),
{
    if value_of(m.entries, "__proto__"@) is Some {
        lemma_chain_size(m.entries, Seq::empty());
    }
}

/// Whether no array and no `null` stands in the chain of prototypes of an object.
pub fn is_plain(obj: &JsObjectMap) -> (r: bool)
    ensures
        r == plain(obj.pairs()),
    decreases obj,
{
    let at: usize = position_of(&obj.items, "__proto__");
    proof {
        assert(keys_of(obj.pairs()) =~= item_keys(obj.items@));
        lemma_find_key(keys_of(obj.pairs()), "__proto__"@, 0);
    }
    if at < obj.items.len() {
        assert(obj.pairs()[at as int].1 == obj.items@[at as int].1.model());
        match &obj.items[at].1 {
            EvalValue::Obj(proto) => {
                proof {
                    assert(decreases_to!(*obj => obj.items));
                    assert(decreases_to!(obj.items => obj.items@[at as int]));
                }
                is_plain(proto)
            },
            EvalValue::Null => false,
            EvalValue::Arr(_) => false,
            _ => true,
        }
    } else {
        true
    }
}

fn reached<'a>(v: &Vec<(&'a str, &'a EvalValue)>, key: &str) -> (r: bool)
    ensures
        r == value_of(entry_models(v@), key@) is Some,
{
    let mut i: usize = 0;
    let ghost keys = keys_of(entry_models(v@));
    while i < v.len()
        invariant
            keys == keys_of(entry_models(v@)),
            i <= v@.len(),
            find_key(keys, key@, 0) == find_key(keys, key@, i as int),
        decreases v@.len() - i,
    {
        assert(keys[i as int] == v@[i as int].0@);
        if str_eq(v[i].0, key) {
            return true;
        }
        i += 1;
    }
    false
}

fn add_chain<'a>(obj: &'a JsObjectMap, out: Vec<(&'a str, &'a EvalValue)>) -> (r: Vec<
    (&'a str, &'a EvalValue),
>)
    ensures
        entry_models(r@) == chain(obj.pairs(), entry_models(out@)),
    decreases obj,
{
    let mut all = out;
    let ghost e = obj.pairs();
    let ghost seen = entry_models(out@);
    let mut i: usize = 0;
    while i < obj.items.len()
        invariant
            e == obj.pairs(),
            i <= obj.items@.len(),
            entry_models(all@) == unseen_upto(e, seen, i as int),
        decreases obj.items@.len() - i,
    {
        assert(e[i as int] == (obj.items@[i as int].0@, obj.items@[i as int].1.model()));
        let key = obj.items[i].0.as_str();
        if !str_eq(key, "__proto__") && !reached(&all, key) {
            let ghost before = entry_models(all@);
            all.push((key, &obj.items[i].1));
            proof {
                assert(entry_models(all@) =~= before.push(e[i as int]));
            }
        }
        i += 1;
    }
    let at: usize = position_of(&obj.items, "__proto__");
    proof {
        assert(keys_of(e) =~= item_keys(obj.items@));
        lemma_find_key(keys_of(e), "__proto__"@, 0);
    }
    if at < obj.items.len() {
        assert(e[at as int].1 == obj.items@[at as int].1.model());
        if let EvalValue::Obj(proto) = &obj.items[at].1 {
            proof {
                assert(decreases_to!(*obj => obj.items));
                assert(decreases_to!(obj.items => obj.items@[at as int]));
            }
            return add_chain(proto, all);
        }
    }
    all
}

/// The entries that an enumeration of an object reaches.
pub fn for_in_entries<'a>(obj: &'a JsObjectMap) -> (r: Vec<(&'a str, &'a EvalValue)>)
    ensures
        entry_models(r@) == for_in(obj.model()),
{
    let mut out: Vec<(&'a str, &'a EvalValue)> = Vec::new();
    if obj.contains_key("__proto__") {
        proof {
            assert(entry_models(out@) =~= Seq::<(Seq<char>, Val)>::empty());
        }
        return add_chain(obj, out);
    }
    let mut i: usize = 0;
    while i < obj.items.len()
        invariant
            i <= obj.items@.len(),
            out@.len() == i,
            forall|j: int|
                0 <= j < i ==> (#[trigger] out@[j]).0@ == obj.items@[j].0@ && out@[j].1
                    == obj.items@[j].1,
        decreases obj.items@.len() - i,
    {
        out.push((obj.items[i].0.as_str(), &obj.items[i].1));
        i += 1;
    }
    proof {
        assert(entry_models(out@) =~= obj.pairs());
    }
    out
}

proof fn lemma_update_size(e: Seq<(Seq<char>, Val)>, i: int, x: (Seq<char>, Val), k: int)
    requires
        0 <= i < k <= e.len(),
    ensures
        entries_size(e.update(i, x), k) + val_size(e[i].1) == entries_size(e, k) + val_size(x.1),
    decreases k,
{
    if i < k - 1 {
        lemma_update_size(e, i, x, k - 1);
    } else {
        lemma_size_prefix(e, e.update(i, x), k - 1);
    }
}

proof fn lemma_insert_size(e: Seq<(Seq<char>, Val)>, i: int, x: (Seq<char>, Val), k: int)
    requires
        0 <= i <= k <= e.len(),
    ensures
        entries_size(e.insert(i, x), k + 1) == entries_size(e, k) + 1 + val_size(x.1),
    decreases k,
{
    let now = e.insert(i, x);
    if i < k {
        lemma_insert_size(e, i, x, k - 1);
        assert(now[k] == e[k - 1]);
    } else {
        lemma_size_prefix(e, now, k);
        assert(now[k] == x);
    }
}

proof fn lemma_put_size(e: Seq<(Seq<char>, Val)>, k: Seq<char>, v: Val)
    ensures
        total_size(put(e, k, v)) <= total_size(e) + 1 + val_size(v),
{
    let i = find_key(keys_of(e), k, 0);
    lemma_find_key(keys_of(e), k, 0);
    if i < e.len() {
        lemma_update_size(e, i, (e[i].0, v), e.len() as int);
    } else {
        lemma_slot(keys_of(e), k);
        lemma_insert_size(e, slot_of(keys_of(e), k), (k, v), e.len() as int);
    }
}

/// Entries that are set in order are no larger than they were.
pub proof fn lemma_as_object_size(e: Seq<(Seq<char>, Val)>, k: int)
    requires
        0 <= k <= e.len(),
    ensures
        total_size(as_object_upto(e, k)) <= entries_size(e, k),
    decreases k,
{
    if k > 0 {
        lemma_as_object_size(e, k - 1);
        lemma_put_size(as_object_upto(e, k - 1), e[k - 1].0, e[k - 1].1);
    }
}

} // verus!
