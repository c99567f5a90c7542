//! What does not count in the values that a theme sets.

use crate::jsrt::{sorted_texts, sorting_forgets_the_order, Collation};
use crate::options::ResolvedOptions;
use crate::shared::create_theme::{bare_value, theme_from, theme_output, theme_var_name};
use crate::shared::vars_utils::{collected, CollectionModel};
use crate::value::{
    as_object, as_object_upto, es_ordered, find_key, keys_of, lemma_find_key, put_keeps_order,
    put_keeps_others, put_then_read, value_of, ObjModel, Val,
};
use vstd::prelude::*;

verus! {

/// Whether two objects hold the same under the same keys, in whatever order.
pub open spec fn hold_the_same(a: Seq<(Seq<char>, Val)>, b: Seq<(Seq<char>, Val)>) -> bool {
    &&& keys_of(a).no_duplicates()
    &&& keys_of(b).no_duplicates()
    &&& forall|k: Seq<char>| #[trigger] value_of(a, k) == value_of(b, k)
}

proof fn lemma_value_set(e: Seq<(Seq<char>, Val)>, key: Seq<char>, k: int)
    requires
        keys_of(e).no_duplicates(),
        0 <= k <= e.len(),
    ensures
        forall|i: int|
            0 <= i < k && (#[trigger] e[i]).0 == key ==> value_of(as_object_upto(e, k), key) == Some(
                e[i].1,
            ),
        (forall|i: int| 0 <= i < k ==> (#[trigger] e[i]).0 != key) ==> value_of(
            as_object_upto(e, k),
            key,
        ) is None,
    decreases k,
{
    if k > 0 {
        lemma_value_set(e, key, k - 1);
        let before = as_object_upto(e, k - 1);
        let last = e[k - 1];
        if last.0 == key {
            put_then_read(before, key, last.1);
            assert forall|i: int| 0 <= i < k && (#[trigger] e[i]).0 == key implies i == k - 1 by {
                assert(keys_of(e)[i] == keys_of(e)[k - 1]);
            }
        } else {
            put_keeps_others(before, last.0, last.1, key);
        }
    } else {
        lemma_find_key(keys_of(as_object_upto(e, 0)), key, 0);
    }
}

proof fn lemma_value_kept(e: Seq<(Seq<char>, Val)>, key: Seq<char>)
    requires
        keys_of(e).no_duplicates(),
    ensures
        value_of(as_object(e), key) == value_of(e, key),
{
    lemma_value_set(e, key, e.len() as int);
    lemma_find_key(keys_of(e), key, 0);
    let i = find_first(e, key);
    if i < e.len() {
        assert(keys_of(e)[i] == key);
        assert(e[i].0 == key);
    } else {
        assert forall|j: int| 0 <= j < e.len() implies (#[trigger] e[j]).0 != key by {
            assert(keys_of(e)[j] != key);
        }
    }
}

spec fn find_first(e: Seq<(Seq<char>, Val)>, key: Seq<char>) -> int {
    find_key(keys_of(e), key, 0)
}

proof fn lemma_ordered(e: Seq<(Seq<char>, Val)>, k: int)
    requires
        0 <= k <= e.len(),
    ensures
        es_ordered(keys_of(as_object_upto(e, k))),
    decreases k,
{
    if k > 0 {
        lemma_ordered(e, k - 1);
        put_keeps_order(as_object_upto(e, k - 1), e[k - 1].0, e[k - 1].1);
    }
}

proof fn lemma_key_there(e: Seq<(Seq<char>, Val)>, key: Seq<char>)
    ensures
        keys_of(e).contains(key) == value_of(e, key) is Some,
{
    lemma_find_key(keys_of(e), key, 0);
    if keys_of(e).contains(key) {
        let i = choose|i: int| 0 <= i < keys_of(e).len() && keys_of(e)[i] == key;
        assert(find_first(e, key) <= i);
    }
    if find_first(e, key) < e.len() {
        assert(keys_of(e)[find_first(e, key)] == key);
    }
}

proof fn lemma_same_texts(v: Seq<Seq<char>>, w: Seq<Seq<char>>)
    requires
        v.no_duplicates(),
        w.no_duplicates(),
        forall|k: Seq<char>| v.contains(k) == w.contains(k),
    ensures
        v.to_multiset() == w.to_multiset(),
{
    broadcast use vstd::multiset::group_multiset_axioms;

    v.to_multiset_ensures();
    w.to_multiset_ensures();
    v.lemma_multiset_has_no_duplicates();
    w.lemma_multiset_has_no_duplicates();
    assert forall|k: Seq<char>| #[trigger] v.to_multiset().count(k) == w.to_multiset().count(k) by {
        assert(v.contains(k) == w.contains(k));
        assert(v.to_multiset().contains(k) == v.contains(k));
        assert(w.to_multiset().contains(k) == w.contains(k));
    }
    assert(v.to_multiset() =~= w.to_multiset());
}

proof fn lemma_no_duplicates(e: Seq<(Seq<char>, Val)>)
    ensures
        keys_of(as_object(e)).no_duplicates(),
{
    lemma_ordered(e, e.len() as int);
    let keys = keys_of(as_object(e));
    assert forall|i: int, j: int| 0 <= i < keys.len() && 0 <= j < keys.len() && i != j implies keys[i]
        != keys[j] by {
        if i < j {
            assert(keys[i] != keys[j]);
        } else {
            assert(keys[j] != keys[i]);
        }
    }
}

proof fn lemma_same_theme(
    theme: Val,
    a: Seq<(Seq<char>, Val)>,
    b: Seq<(Seq<char>, Val)>,
    keys: Seq<Seq<char>>,
    i: int,
    c: CollectionModel,
)
    requires
        forall|k: Seq<char>| #[trigger] value_of(a, k) == value_of(b, k),
    ensures
        theme_from(theme, a, keys, i, c) == theme_from(theme, b, keys, i, c),
    decreases keys.len() - i,
{
    if 0 <= i < keys.len() {
        let (after, error) = collected(
            keys[i],
            theme_var_name(theme, keys[i])->Ok_0,
            bare_value(value_of(a, keys[i])->0),
            c,
            Seq::empty(),
        );
        assert(value_of(a, keys[i]) == value_of(b, keys[i]));
        lemma_same_theme(theme, a, b, keys, i + 1, after);
    }
}

/// The order in which a theme sets its variables does not count: the class name, the rules
/// and the errors are the same.
pub proof fn order_of_overrides_does_not_count(
    theme: Val,
    a: ObjModel,
    b: ObjModel,
    options: ResolvedOptions,
)
    requires
        hold_the_same(a.entries, b.entries),
    ensures
        theme_output(theme, Val::Obj(a), options) == theme_output(theme, Val::Obj(b), options),
{
    let x = as_object(a.entries);
    let y = as_object(b.entries);
    assert forall|k: Seq<char>| #[trigger] value_of(x, k) == value_of(y, k) by {
        lemma_value_kept(a.entries, k);
        lemma_value_kept(b.entries, k);
        assert(value_of(a.entries, k) == value_of(b.entries, k));
    }
    lemma_no_duplicates(a.entries);
    lemma_no_duplicates(b.entries);
    assert forall|k: Seq<char>| keys_of(x).contains(k) == keys_of(y).contains(k) by {
        lemma_key_there(x, k);
        lemma_key_there(y, k);
        assert(value_of(x, k) == value_of(y, k));
    }
    lemma_same_texts(keys_of(x), keys_of(y));
    sorting_forgets_the_order(keys_of(x), keys_of(y));
    let keys = sorted_texts(keys_of(x), Collation::Units);
    lemma_same_theme(theme, x, y, keys, 0, Seq::empty());
}

} // verus!
