//! Nested groups that were flattened are found again.

use crate::errors::ErrorModel;
use crate::number::digits_value;
use crate::shared::nested::{
    flat_config, flat_from, full_key, grouped_upto, is_leaf, led_to, made_upto, outermost,
    unflattened, with_flat, GroupsModel, LeafKind, SlotModel,
};
use crate::shared::position_try::reset_upto;
use crate::text::{digit, next_char, split_at_char, split_from};
use crate::value::{
    array_index_of, es_ordered, find_key, index_slot, keys_of, lemma_find_key,
    lemma_index_injective, lemma_slot, put, put_keeps_order, slot_of, value_of, ObjModel, Val,
};
use vstd::prelude::*;

verus! {

/// Whether a key may stand in a nested group: it is not empty, holds no dot, and is an
/// ordinary key.
pub open spec fn plain_key(key: Seq<char>) -> bool {
    key.len() > 0 && !key.contains('.') && key != "__proto__"@
}

/// Whether entries are nested groups with nothing but leaves in them: no group is
/// empty, and keys are in their order.
pub open spec fn clean(e: Seq<(Seq<char>, Val)>, kind: LeafKind) -> bool
    decreases e,
{
    &&& es_ordered(keys_of(e))
    &&& forall|i: int|
        0 <= i < e.len() ==> plain_key((#[trigger] e[i]).0) && (is_leaf(e[i].1, kind) || match e[i].1 {
            Val::Obj(m) => m.css is None && m.entries.len() > 0 && clean(m.entries, kind),
            _ => false,
        })
}

/// The flat key of a path.
pub open spec fn dotted(parts: Seq<Seq<char>>) -> Seq<char>
    decreases parts.len(),
{
    if parts.len() == 0 {
        Seq::empty()
    } else {
        full_key(dotted(parts.drop_last()), parts.last())
    }
}

/// Whether all parts of a path are ordinary keys.
pub open spec fn plain_path(parts: Seq<Seq<char>>) -> bool {
    forall|i: int| 0 <= i < parts.len() ==> plain_key(#[trigger] parts[i])
}

proof fn lemma_next_beyond(p: Seq<char>, key: Seq<char>, from: int)
    requires
        0 <= from <= p.len(),
        !key.contains('.'),
    ensures
        next_char(p + "."@ + key, '.', from) == next_char(p, '.', from),
        from <= next_char(p, '.', from) <= p.len(),
    decreases p.len() - from,
{
    reveal_strlit(".");
    let s = p + "."@ + key;
    if from < p.len() {
        assert(s[from] == p[from]);
        if p[from] != '.' {
            lemma_next_beyond(p, key, from + 1);
        }
    } else {
        assert(s[from] == '.');
    }
}

proof fn lemma_no_next(key: Seq<char>, s: Seq<char>, from: int, at: int)
    requires
        0 <= from <= at <= s.len(),
        s.skip(from) == key,
        !key.contains('.'),
    ensures
        next_char(s, '.', at) == s.len(),
    decreases s.len() - at,
{
    if at < s.len() {
        assert(s[at] == s.skip(from)[at - from]);
        assert(s[at] != '.');
        lemma_no_next(key, s, from, at + 1);
    }
}

proof fn lemma_split_key(p: Seq<char>, key: Seq<char>, from: int)
    requires
        0 <= from <= p.len(),
        !key.contains('.'),
    ensures
        split_from(p + "."@ + key, '.', from) == split_from(p, '.', from).push(key),
    decreases p.len() - from,
{
    reveal_strlit(".");
    let s = p + "."@ + key;
    lemma_next_beyond(p, key, from);
    let next = next_char(p, '.', from);
    assert(s.subrange(from, next) =~= p.subrange(from, next));
    if next < p.len() {
        lemma_split_key(p, key, next + 1);
        assert(split_from(s, '.', from) =~= split_from(p, '.', from).push(key));
    } else {
        assert(s.skip(next + 1) =~= key);
        lemma_no_next(key, s, next + 1, next + 1);
        assert(s.subrange(next + 1, s.len() as int) =~= key);
        assert(split_from(s, '.', next + 1) =~= seq![key]);
        assert(split_from(p, '.', from) =~= seq![p.subrange(from, next)]);
        assert(split_from(s, '.', from) =~= split_from(p, '.', from).push(key));
    }
}

proof fn lemma_split_single(key: Seq<char>)
    requires
        !key.contains('.'),
    ensures
        split_at_char(key, '.') == seq![key],
{
    assert(key.skip(0) =~= key);
    lemma_no_next(key, key, 0, 0);
    assert(key.subrange(0, key.len() as int) =~= key);
}

proof fn lemma_dotted(parts: Seq<Seq<char>>)
    requires
        parts.len() > 0,
        plain_path(parts),
    ensures
        split_at_char(dotted(parts), '.') == parts,
        dotted(parts).len() > 0,
        parts.len() >= 2 ==> dotted(parts).contains('.'),
        parts.len() == 1 ==> dotted(parts) == parts[0],
    decreases parts.len(),
{
    reveal_strlit(".");
    let before = parts.drop_last();
    let key = parts.last();
    assert(plain_key(key));
    if before.len() == 0 {
        assert(dotted(before) =~= Seq::<char>::empty());
        lemma_split_single(key);
        assert(parts =~= seq![key]);
    } else {
        assert(plain_path(before)) by {
            assert forall|i: int| 0 <= i < before.len() implies plain_key(#[trigger] before[i]) by {
                assert(before[i] == parts[i]);
            }
        }
        lemma_dotted(before);
        let p = dotted(before);
        lemma_split_key(p, key, 0);
        assert(parts =~= before.push(key));
        let s = dotted(parts);
        assert(s == p + "."@ + key);
        assert(s[p.len() as int] == '.');
    }
}

proof fn lemma_dotted_push(parts: Seq<Seq<char>>, key: Seq<char>)
    ensures
        dotted(parts.push(key)) == full_key(dotted(parts), key),
{
    assert(parts.push(key).drop_last() =~= parts);
}

/// Whether a flat key leads into a path or to it.
pub open spec fn under(flat: Seq<char>, parts: Seq<Seq<char>>) -> bool {
    parts.is_prefix_of(split_at_char(flat, '.'))
}

/// The leaves of the entries from `i` on with their flat keys.
pub open spec fn leaves(
    e: Seq<(Seq<char>, Val)>,
    i: int,
    parts: Seq<Seq<char>>,
    kind: LeafKind,
) -> Seq<(Seq<char>, Val)>
    decreases e, e.len() - i,
{
    if i < 0 || i >= e.len() {
        Seq::empty()
    } else {
        let (key, v) = e[i];
        let here = if is_leaf(v, kind) {
            seq![(dotted(parts.push(key)), v)]
        } else {
            match v {
                Val::Obj(m) => leaves(m.entries, 0, parts.push(key), kind),
                _ => Seq::empty(),
            }
        };
        here + leaves(e, i + 1, parts, kind)
    }
}

proof fn lemma_plain_push(parts: Seq<Seq<char>>, key: Seq<char>)
    requires
        plain_path(parts),
        plain_key(key),
    ensures
        plain_path(parts.push(key)),
{
    assert forall|i: int| 0 <= i < parts.push(key).len() implies plain_key(
        #[trigger] parts.push(key)[i],
    ) by {
        if i < parts.len() {
            assert(parts.push(key)[i] == parts[i]);
        }
    }
}

proof fn lemma_under_parent(flat: Seq<char>, parts: Seq<Seq<char>>, key: Seq<char>)
    requires
        under(flat, parts.push(key)),
    ensures
        under(flat, parts),
{
    let s = split_at_char(flat, '.');
    assert(s.subrange(0, parts.len() as int) =~= parts) by {
        assert(s.subrange(0, parts.push(key).len() as int) =~= parts.push(key));
        assert forall|i: int| 0 <= i < parts.len() implies s[i] == parts[i] by {
            assert(s.subrange(0, parts.push(key).len() as int)[i] == parts.push(key)[i]);
        }
    }
}

proof fn lemma_under_apart(flat: Seq<char>, parts: Seq<Seq<char>>, a: Seq<char>, b: Seq<char>)
    requires
        under(flat, parts.push(a)),
        under(flat, parts.push(b)),
    ensures
        a == b,
{
    let s = split_at_char(flat, '.');
    let n = parts.len() as int;
    assert(s.subrange(0, n + 1)[n] == parts.push(a)[n]);
    assert(s.subrange(0, n + 1)[n] == parts.push(b)[n]);
}

proof fn lemma_under_itself(parts: Seq<Seq<char>>)
    requires
        parts.len() > 0,
        plain_path(parts),
    ensures
        under(dotted(parts), parts),
        forall|key: Seq<char>| !#[trigger] under(dotted(parts), parts.push(key)),
{
    lemma_dotted(parts);
    assert(parts.subrange(0, parts.len() as int) =~= parts);
}

/// Whether a flat key leads into one of the entries from `i` on.
pub open spec fn below(
    flat: Seq<char>,
    parts: Seq<Seq<char>>,
    e: Seq<(Seq<char>, Val)>,
    i: int,
) -> bool {
    exists|j: int| i <= j < e.len() && under(flat, parts.push((#[trigger] e[j]).0))
}

proof fn lemma_leaves(
    e: Seq<(Seq<char>, Val)>,
    i: int,
    parts: Seq<Seq<char>>,
    kind: LeafKind,
)
    requires
        clean(e, kind),
        plain_path(parts),
        0 <= i <= e.len(),
    ensures
        i < e.len() ==> leaves(e, i, parts, kind).len() > 0,
        forall|k: int|
            0 <= k < leaves(e, i, parts, kind).len() ==> below(
                (#[trigger] leaves(e, i, parts, kind)[k]).0,
                parts,
                e,
                i,
            ),
    decreases e, e.len() - i,
{
    if i < e.len() {
        let (key, v) = e[i];
        let all = leaves(e, i, parts, kind);
        let rest = leaves(e, i + 1, parts, kind);
        assert(plain_key(e[i].0));
        lemma_plain_push(parts, key);
        lemma_leaves(e, i + 1, parts, kind);
        let inner = parts.push(key);
        let here = if is_leaf(v, kind) {
            seq![(dotted(inner), v)]
        } else {
            leaves(v->Obj_0.entries, 0, inner, kind)
        };
        if is_leaf(v, kind) {
            lemma_under_itself(inner);
        } else {
            lemma_leaves(v->Obj_0.entries, 0, inner, kind);
        }
        assert(all == here + rest);
        assert forall|k: int| 0 <= k < all.len() implies below((#[trigger] all[k]).0, parts, e, i) by {
            if k < here.len() {
                assert(all[k] == here[k]);
                if !is_leaf(v, kind) {
                    let m = v->Obj_0.entries;
                    assert(below(here[k].0, inner, m, 0));
                    let j = choose|j: int|
                        0 <= j < m.len() && under(here[k].0, inner.push((#[trigger] m[j]).0));
                    lemma_under_parent(here[k].0, inner, m[j].0);
                }
                assert(under(all[k].0, parts.push(e[i].0)));
            } else {
                let x = rest[k - here.len()].0;
                assert(all[k] == rest[k - here.len()]);
                assert(below(x, parts, e, i + 1));
                let j = choose|j: int|
                    i + 1 <= j < e.len() && under(x, parts.push((#[trigger] e[j]).0));
                assert(under(all[k].0, parts.push(e[j].0)));
            }
        }
    }
}

/// Whether no flat key leads into one of the entries from `i` on.
pub open spec fn apart(
    keys: Seq<Seq<char>>,
    parts: Seq<Seq<char>>,
    e: Seq<(Seq<char>, Val)>,
    i: int,
) -> bool {
    forall|k: int| 0 <= k < keys.len() ==> !below(#[trigger] keys[k], parts, e, i)
}

proof fn lemma_distinct(e: Seq<(Seq<char>, Val)>, i: int, j: int)
    requires
        es_ordered(keys_of(e)),
        0 <= i < j < e.len(),
    ensures
        e[i].0 != e[j].0,
{
    assert(keys_of(e)[i] != keys_of(e)[j]);
}

proof fn lemma_apart_later(
    keys: Seq<Seq<char>>,
    parts: Seq<Seq<char>>,
    e: Seq<(Seq<char>, Val)>,
    i: int,
    more: Seq<Seq<char>>,
)
    requires
        0 <= i < e.len(),
        es_ordered(keys_of(e)),
        apart(keys, parts, e, i),
        forall|k: int| 0 <= k < more.len() ==> under(#[trigger] more[k], parts.push(e[i].0)),
    ensures
        apart(keys + more, parts, e, i + 1),
{
    let all = keys + more;
    assert forall|k: int| 0 <= k < all.len() implies !below(#[trigger] all[k], parts, e, i + 1) by {
        if below(all[k], parts, e, i + 1) {
            let j = choose|j: int|
                i + 1 <= j < e.len() && under(all[k], parts.push((#[trigger] e[j]).0));
            if k < keys.len() {
                assert(all[k] == keys[k]);
                assert(below(keys[k], parts, e, i));
            } else {
                assert(all[k] == more[k - keys.len()]);
                lemma_under_apart(all[k], parts, e[i].0, e[j].0);
                lemma_distinct(e, i, j);
            }
        }
    }
}

proof fn lemma_apart_inside(
    keys: Seq<Seq<char>>,
    parts: Seq<Seq<char>>,
    e: Seq<(Seq<char>, Val)>,
    i: int,
    m: Seq<(Seq<char>, Val)>,
)
    requires
        0 <= i < e.len(),
        apart(keys, parts, e, i),
    ensures
        apart(keys, parts.push(e[i].0), m, 0),
        forall|k: int| 0 <= k < keys.len() ==> !under(#[trigger] keys[k], parts.push(e[i].0)),
{
    let inner = parts.push(e[i].0);
    assert forall|k: int| 0 <= k < keys.len() implies !under(#[trigger] keys[k], inner) by {
        if under(keys[k], inner) {
            assert(below(keys[k], parts, e, i));
        }
    }
    assert forall|k: int| 0 <= k < keys.len() implies !below(#[trigger] keys[k], inner, m, 0) by {
        if below(keys[k], inner, m, 0) {
            let j = choose|j: int|
                0 <= j < m.len() && under(keys[k], inner.push((#[trigger] m[j]).0));
            lemma_under_parent(keys[k], inner, m[j].0);
        }
    }
}

proof fn lemma_flat(
    e: Seq<(Seq<char>, Val)>,
    i: int,
    parts: Seq<Seq<char>>,
    acc: Seq<(Seq<char>, Val)>,
    kind: LeafKind,
)
    requires
        clean(e, kind),
        plain_path(parts),
        0 <= i <= e.len(),
        apart(keys_of(acc), parts, e, i),
        parts.len() > 0,
    ensures
        flat_from(e, i, dotted(parts), acc, kind) == Ok::<Seq<(Seq<char>, Val)>, ErrorModel>(
            acc + leaves(e, i, parts, kind),
        ),
    decreases e, e.len() - i,
{
    if i < e.len() {
        let (key, v) = e[i];
        assert(plain_key(e[i].0));
        lemma_plain_push(parts, key);
        lemma_dotted_push(parts, key);
        let inner = parts.push(key);
        let full = dotted(inner);
        lemma_dotted(inner);
        let rest = leaves(e, i + 1, parts, kind);
        if is_leaf(v, kind) {
            lemma_find_key(keys_of(acc), full, 0);
            let at = find_key(keys_of(acc), full, 0);
            lemma_under_itself(inner);
            if at < acc.len() {
                assert(keys_of(acc)[at] == full);
                assert(under(keys_of(acc)[at], parts.push(e[i].0)));
                assert(below(keys_of(acc)[at], parts, e, i));
            }
            assert(array_index_of(full) is None) by {
                let d = choose|d: int| 0 <= d < full.len() && full[d] == '.';
                assert(!digit(full[d]));
            }
            let next = put(acc, full, v);
            assert(next =~= acc.push((full, v)));
            assert(keys_of(next) =~= keys_of(acc) + seq![full]);
            lemma_apart_later(keys_of(acc), parts, e, i, seq![full]);
            lemma_flat(e, i + 1, parts, next, kind);
            assert(next + rest =~= acc + leaves(e, i, parts, kind));
        } else {
            let m = v->Obj_0.entries;
            let here = leaves(m, 0, inner, kind);
            lemma_apart_inside(keys_of(acc), parts, e, i, m);
            lemma_flat(m, 0, inner, acc, kind);
            let next = acc + here;
            lemma_leaves(m, 0, inner, kind);
            let more = keys_of(here);
            assert forall|k: int| 0 <= k < more.len() implies under(
                #[trigger] more[k],
                parts.push(e[i].0),
            ) by {
                assert(more[k] == here[k].0);
                let j = choose|j: int|
                    0 <= j < m.len() && under(here[k].0, inner.push((#[trigger] m[j]).0));
                lemma_under_parent(here[k].0, inner, m[j].0);
            }
            assert(keys_of(next) =~= keys_of(acc) + more);
            lemma_apart_later(keys_of(acc), parts, e, i, more);
            lemma_flat(e, i + 1, parts, next, kind);
            assert(next + rest =~= acc + leaves(e, i, parts, kind));
        }
    } else {
        assert(acc + leaves(e, i, parts, kind) =~= acc);
    }
}

/// The groups after the first `k` of more flat keys were set.
pub open spec fn set_upto(g: GroupsModel, f: Seq<(Seq<char>, Val)>, k: int) -> GroupsModel
    decreases k,
{
    if k <= 0 || k > f.len() {
        g
    } else {
        with_flat(set_upto(g, f, k - 1), f[k - 1].0, f[k - 1].1)
    }
}

proof fn lemma_set_more(g: GroupsModel, a: Seq<(Seq<char>, Val)>, b: Seq<(Seq<char>, Val)>, k: int)
    requires
        0 <= k <= b.len(),
    ensures
        set_upto(g, a + b, a.len() + k) == set_upto(set_upto(g, a, a.len() as int), b, k),
    decreases k,
{
    if k > 0 {
        lemma_set_more(g, a, b, k - 1);
        assert((a + b)[a.len() + k - 1] == b[k - 1]);
    } else {
        lemma_set_prefix(g, a, b, a.len() as int);
    }
}

proof fn lemma_set_prefix(
    g: GroupsModel,
    a: Seq<(Seq<char>, Val)>,
    b: Seq<(Seq<char>, Val)>,
    k: int,
)
    requires
        0 <= k <= a.len(),
    ensures
        set_upto(g, a + b, k) == set_upto(g, a, k),
    decreases k,
{
    if k > 0 {
        lemma_set_prefix(g, a, b, k - 1);
        assert((a + b)[k - 1] == a[k - 1]);
    }
}

proof fn lemma_grouped(f: Seq<(Seq<char>, Val)>, k: int)
    requires
        0 <= k <= f.len(),
    ensures
        grouped_upto(f, k) == set_upto(
            GroupsModel { nodes: seq![Seq::empty()], paths: Seq::empty() },
            f,
            k,
        ),
    decreases k,
{
    if k > 0 {
        lemma_grouped(f, k - 1);
    }
}

/// Whether the groups on a path are known: `chain` holds them, the outermost first.
pub open spec fn linked(g: GroupsModel, parts: Seq<Seq<char>>, chain: Seq<int>) -> bool {
    &&& chain.len() == parts.len() + 1
    &&& chain[0] == 0
    &&& forall|k: int|
        1 <= k <= parts.len() ==> value_of(g.paths, dotted(parts.take(k))) == Some(
            #[trigger] chain[k],
        )
}

proof fn lemma_led(
    g: GroupsModel,
    parts: Seq<Seq<char>>,
    chain: Seq<int>,
    all: Seq<Seq<char>>,
    i: int,
    n: int,
)
    requires
        linked(g, parts, chain),
        0 <= i <= parts.len() <= n,
        n < all.len(),
        parts.is_prefix_of(all),
    ensures
        led_to(g, all, i, n, dotted(parts.take(i)), chain[i]) == led_to(
            g,
            all,
            parts.len() as int,
            n,
            dotted(parts),
            chain[parts.len() as int],
        ),
    decreases parts.len() - i,
{
    if i < parts.len() {
        assert(all.subrange(0, parts.len() as int)[i] == parts[i]);
        lemma_dotted_push(parts.take(i), parts[i]);
        assert(parts.take(i).push(parts[i]) =~= parts.take(i + 1));
        assert(value_of(g.paths, dotted(parts.take(i + 1))) == Some(chain[i + 1]));
        lemma_led(g, parts, chain, all, i + 1, n);
    } else {
        assert(parts.take(i) =~= parts);
    }
}

/// Whether the groups that stand in the groups from `a` up to `b` are behind them and
/// before `b`.
pub open spec fn sealed(nodes: Seq<Seq<(Seq<char>, SlotModel)>>, a: int, b: int) -> bool {
    forall|x: int, s: int|
        a <= x < b && 0 <= s < nodes[x].len() ==> match (#[trigger] nodes[x][s]).1 {
            SlotModel::Child(c) => x < c < b,
            SlotModel::Value(_) => true,
        }
}

/// Whether the groups in the first `k` slots of a group are from `a` up to `b`.
pub open spec fn held(
    nodes: Seq<Seq<(Seq<char>, SlotModel)>>,
    node: int,
    k: int,
    a: int,
    b: int,
) -> bool {
    forall|s: int|
        0 <= s < k ==> match (#[trigger] nodes[node][s]).1 {
            SlotModel::Child(c) => a <= c < b,
            SlotModel::Value(_) => true,
        }
}

proof fn lemma_made_frame(
    p: Seq<Seq<(Seq<char>, SlotModel)>>,
    q: Seq<Seq<(Seq<char>, SlotModel)>>,
    node: int,
    k: int,
    a: int,
    b: int,
)
    requires
        0 <= node < a <= b <= p.len(),
        b <= q.len(),
        0 <= k <= p[node].len(),
        k <= q[node].len(),
        forall|s: int| 0 <= s < k ==> #[trigger] p[node][s] == q[node][s],
        forall|x: int| a <= x < b ==> #[trigger] p[x] == q[x],
        held(p, node, k, a, b),
        sealed(p, a, b),
    ensures
        made_upto(p, node, k) == made_upto(q, node, k),
    decreases b - node, k,
{
    if k > 0 {
        lemma_made_frame(p, q, node, k - 1, a, b);
        assert(p[node][k - 1] == q[node][k - 1]);
        match p[node][k - 1].1 {
            SlotModel::Child(c) => {
                assert(a <= c < b);
                assert(p[c] == q[c]);
                assert(held(p, c, p[c].len() as int, c + 1, b)) by {
                    assert forall|s: int| 0 <= s < p[c].len() implies match (#[trigger] p[c][s]).1 {
                        SlotModel::Child(d) => c + 1 <= d < b,
                        SlotModel::Value(_) => true,
                    } by {}
                }
                lemma_made_frame(p, q, c, p[c].len() as int, c + 1, b);
            },
            SlotModel::Value(_) => {},
        }
    }
}

proof fn lemma_last_slot<T>(e: Seq<(Seq<char>, T)>, i: int)
    requires
        es_ordered(keys_of(e)),
        0 <= i < e.len(),
    ensures
        find_key(keys_of(e.take(i)), e[i].0, 0) == i,
        slot_of(keys_of(e.take(i)), e[i].0) == i,
{
    let keys = keys_of(e.take(i));
    let key = e[i].0;
    lemma_find_key(keys, key, 0);
    let at = find_key(keys, key, 0);
    if at < i {
        assert(keys_of(e)[at] == keys[at]);
        assert(keys_of(e)[at] != keys_of(e)[i]);
    }
    if let Some(n) = array_index_of(key) {
        assert forall|j: int| 0 <= j < i implies array_index_of(#[trigger] keys[j]) is Some
            && array_index_of(keys[j])->0 < n by {
            assert(keys_of(e)[j] == keys[j]);
            assert(keys_of(e)[i] == key);
        }
        lemma_all_smaller(keys, n, 0);
    }
}

proof fn lemma_all_smaller(keys: Seq<Seq<char>>, n: int, from: int)
    requires
        0 <= from <= keys.len(),
        forall|j: int|
            0 <= j < keys.len() ==> array_index_of(#[trigger] keys[j]) is Some && array_index_of(
                keys[j],
            )->0 < n,
    ensures
        index_slot(keys, n, from) == keys.len(),
    decreases keys.len() - from,
{
    if from < keys.len() {
        assert(array_index_of(keys[from]) is Some);
        lemma_all_smaller(keys, n, from + 1);
    }
}

proof fn lemma_put_last<T>(e: Seq<(Seq<char>, T)>, i: int)
    requires
        es_ordered(keys_of(e)),
        0 <= i < e.len(),
    ensures
        put(e.take(i), e[i].0, e[i].1) == e.take(i + 1),
{
    lemma_last_slot(e, i);
    assert(put(e.take(i), e[i].0, e[i].1) =~= e.take(i + 1));
}

/// Whether a group holds what the first `i` entries stand for: their keys, and what is
/// made of them. The groups inside it are from `lo` on.
pub open spec fn holds_first(
    g: GroupsModel,
    node: int,
    e: Seq<(Seq<char>, Val)>,
    i: int,
    lo: int,
) -> bool {
    let n = g.nodes.len() as int;
    &&& 0 <= node < lo <= n
    &&& g.nodes[node].len() == i
    &&& keys_of(g.nodes[node]) == keys_of(e.take(i))
    &&& held(g.nodes, node, i, lo, n)
    &&& sealed(g.nodes, lo, n)
    &&& made_upto(g.nodes, node, i) == e.take(i)
}

/// Whether the groups that there were are the same still, but for one of them, and the
/// paths that came lead below the given entries.
pub open spec fn built(
    g: GroupsModel,
    h: GroupsModel,
    node: int,
    parts: Seq<Seq<char>>,
    e: Seq<(Seq<char>, Val)>,
    i: int,
) -> bool {
    &&& g.nodes.len() <= h.nodes.len()
    &&& forall|x: int| 0 <= x < g.nodes.len() && x != node ==> #[trigger] h.nodes[x] == g.nodes[x]
    &&& g.paths.len() <= h.paths.len()
    &&& forall|q: int| 0 <= q < g.paths.len() ==> #[trigger] h.paths[q] == g.paths[q]
    &&& forall|q: int|
        g.paths.len() <= q < h.paths.len() ==> below((#[trigger] h.paths[q]).0, parts, e, i)
}

proof fn lemma_slot_pushed(
    slots: Seq<(Seq<char>, SlotModel)>,
    e: Seq<(Seq<char>, Val)>,
    i: int,
    slot: SlotModel,
)
    requires
        es_ordered(keys_of(e)),
        0 <= i < e.len(),
        keys_of(slots) == keys_of(e.take(i)),
    ensures
        put(slots, e[i].0, slot) == slots.push((e[i].0, slot)),
        keys_of(slots.push((e[i].0, slot))) == keys_of(e.take(i + 1)),
{
    lemma_last_slot(e, i);
    assert(slots.len() == keys_of(slots).len());
    assert(put(slots, e[i].0, slot) =~= slots.push((e[i].0, slot)));
    assert(keys_of(slots.push((e[i].0, slot))) =~= keys_of(e.take(i + 1))) by {
        assert forall|k: int| 0 <= k <= i implies keys_of(slots.push((e[i].0, slot)))[k] == keys_of(
            e.take(i + 1),
        )[k] by {
            if k < i {
                assert(keys_of(slots)[k] == keys_of(e.take(i))[k]);
            }
        }
    }
}

proof fn lemma_leaf_set(
    g: GroupsModel,
    parts: Seq<Seq<char>>,
    chain: Seq<int>,
    e: Seq<(Seq<char>, Val)>,
    i: int,
    lo: int,
    kind: LeafKind,
)
    requires
        clean(e, kind),
        plain_path(parts),
        0 <= i < e.len(),
        is_leaf(e[i].1, kind),
        linked(g, parts, chain),
        holds_first(g, chain.last(), e, i, lo),
    ensures
        ({
            let h = with_flat(g, dotted(parts.push(e[i].0)), e[i].1);
            linked(h, parts, chain) && holds_first(h, chain.last(), e, i + 1, lo) && h.paths
                == g.paths && h.nodes.len() == g.nodes.len() && forall|x: int|
                0 <= x < g.nodes.len() && x != chain.last() ==> #[trigger] h.nodes[x] == g.nodes[x]
        }),
{
    let (key, v) = e[i];
    let inner = parts.push(key);
    let full = dotted(inner);
    let node = chain.last();
    assert(plain_key(e[i].0));
    lemma_plain_push(parts, key);
    lemma_dotted(inner);
    let h = with_flat(g, full, v);
    let slots = g.nodes[node];
    lemma_slot_pushed(slots, e, i, SlotModel::Value(v));
    assert(h == g.with_slot(node, key, SlotModel::Value(v))) by {
        if parts.len() == 0 {
            assert(full == key);
            assert(outermost(full));
        } else {
            reveal_strlit("__varGroupHash__");
            reveal_strlit("$$css");
            assert(!outermost(full)) by {
                let d = choose|d: int| 0 <= d < full.len() && full[d] == '.';
                assert(full[d] == '.');
            }
            assert(parts.is_prefix_of(inner)) by {
                assert(inner.subrange(0, parts.len() as int) =~= parts);
            }
            lemma_led(g, parts, chain, inner, 0, parts.len() as int);
            assert(parts.take(0) =~= Seq::<Seq<char>>::empty());
            assert(dotted(parts.take(0)) =~= Seq::<char>::empty());
            assert(inner.last() == key);
        }
    }
    let n = g.nodes.len() as int;
    assert(h.nodes[node] == slots.push((key, SlotModel::Value(v))));
    assert forall|x: int| 0 <= x < n && x != node implies #[trigger] h.nodes[x] == g.nodes[x] by {}
    assert(held(h.nodes, node, i + 1, lo, n)) by {
        assert forall|s: int| 0 <= s < i + 1 implies match (#[trigger] h.nodes[node][s]).1 {
            SlotModel::Child(c) => lo <= c < n,
            SlotModel::Value(_) => true,
        } by {
            if s < i {
                assert(h.nodes[node][s] == g.nodes[node][s]);
            }
        }
    }
    assert(sealed(h.nodes, lo, n)) by {
        assert forall|x: int, s: int| lo <= x < n && 0 <= s < h.nodes[x].len() implies match (
        #[trigger] h.nodes[x][s]).1 {
            SlotModel::Child(c) => x < c < n,
            SlotModel::Value(_) => true,
        } by {
            assert(h.nodes[x][s] == g.nodes[x][s]);
        }
    }
    assert(held(g.nodes, node, i, lo, n));
    lemma_made_frame(g.nodes, h.nodes, node, i, lo, n);
    assert(h.nodes[node][i] == (key, SlotModel::Value(v)));
    lemma_put_last(e, i);
    assert(made_upto(h.nodes, node, i + 1) == e.take(i + 1));
}

proof fn lemma_path_added(g: GroupsModel, path: Seq<char>, id: int, h: GroupsModel)
    requires
        h.paths == g.paths.push((path, id)),
        forall|q: int| 0 <= q < g.paths.len() ==> (#[trigger] g.paths[q]).0 != path,
    ensures
        value_of(g.paths, path) is None,
        value_of(h.paths, path) == Some(id),
        forall|other: Seq<char>|
            other != path ==> #[trigger] value_of(h.paths, other) == value_of(g.paths, other),
{
    let a = keys_of(g.paths);
    let b = keys_of(h.paths);
    assert(b =~= a.push(path));
    lemma_find_key(a, path, 0);
    lemma_find_key(b, path, 0);
    let x = find_key(a, path, 0);
    if x < a.len() {
        assert(g.paths[x].0 == path);
    }
    let y = find_key(b, path, 0);
    if y < a.len() {
        assert(b[y] == a[y]);
        assert(g.paths[y].0 == path);
    } else {
        assert(b[a.len() as int] == path);
    }
    assert forall|other: Seq<char>| other != path implies #[trigger] value_of(h.paths, other)
        == value_of(g.paths, other) by {
        lemma_find_key(a, other, 0);
        lemma_find_key(b, other, 0);
        let u = find_key(a, other, 0);
        let w = find_key(b, other, 0);
        if u < a.len() {
            assert(b[u] == a[u]);
            if w < u {
                assert(b[w] == a[w]);
            }
            assert(w == u);
        } else if w < b.len() {
            if w < a.len() {
                assert(b[w] == a[w]);
            }
        }
    }
}

proof fn lemma_paths_kept(g: GroupsModel, h: GroupsModel, path: Seq<char>)
    requires
        g.paths.len() <= h.paths.len(),
        forall|q: int| 0 <= q < g.paths.len() ==> #[trigger] h.paths[q] == g.paths[q],
        value_of(g.paths, path) is Some,
    ensures
        value_of(h.paths, path) == value_of(g.paths, path),
{
    let a = keys_of(g.paths);
    let b = keys_of(h.paths);
    lemma_find_key(a, path, 0);
    lemma_find_key(b, path, 0);
    let u = find_key(a, path, 0);
    let w = find_key(b, path, 0);
    assert(h.paths[u] == g.paths[u]);
    assert(b[u] == a[u]);
    if w < u {
        assert(h.paths[w] == g.paths[w]);
        assert(b[w] == a[w]);
    }
}

proof fn lemma_linked_kept(
    g: GroupsModel,
    h: GroupsModel,
    parts: Seq<Seq<char>>,
    chain: Seq<int>,
)
    requires
        linked(g, parts, chain),
        g.paths.len() <= h.paths.len(),
        forall|q: int| 0 <= q < g.paths.len() ==> #[trigger] h.paths[q] == g.paths[q],
    ensures
        linked(h, parts, chain),
{
    assert forall|k: int| 1 <= k <= parts.len() implies value_of(h.paths, dotted(parts.take(k)))
        == Some(#[trigger] chain[k]) by {
        assert(value_of(g.paths, dotted(parts.take(k))) == Some(chain[k]));
        lemma_paths_kept(g, h, dotted(parts.take(k)));
    }
}

/// The groups with a group for a key that a path leads to.
pub open spec fn opened(
    g: GroupsModel,
    parts: Seq<Seq<char>>,
    chain: Seq<int>,
    key: Seq<char>,
) -> GroupsModel {
    g.with_group(chain.last(), key, dotted(parts.push(key)))
}

proof fn lemma_first_opens(
    g: GroupsModel,
    parts: Seq<Seq<char>>,
    chain: Seq<int>,
    key: Seq<char>,
    flat: Seq<char>,
    v: Val,
)
    requires
        plain_path(parts),
        plain_key(key),
        linked(g, parts, chain),
        under(flat, parts.push(key)),
        split_at_char(flat, '.').len() > parts.len() + 1,
        flat.contains('.'),
        forall|q: int| 0 <= q < g.paths.len() ==> !under((#[trigger] g.paths[q]).0, parts.push(key)),
    ensures
        with_flat(g, flat, v) == with_flat(opened(g, parts, chain, key), flat, v),
{
    let inner = parts.push(key);
    let all = split_at_char(flat, '.');
    let h = opened(g, parts, chain, key);
    let n = all.len() - 1;
    let path = dotted(inner);
    let id = g.nodes.len() as int;
    lemma_plain_push(parts, key);
    lemma_under_itself(inner);
    lemma_under_parent(flat, parts, key);
    reveal_strlit("__varGroupHash__");
    reveal_strlit("$$css");
    assert(!outermost(flat)) by {
        let d = choose|d: int| 0 <= d < flat.len() && flat[d] == '.';
        assert(flat[d] == '.');
    }
    assert forall|q: int| 0 <= q < g.paths.len() implies (#[trigger] g.paths[q]).0 != path by {
        if g.paths[q].0 == path {
            assert(under(g.paths[q].0, inner));
        }
    }
    lemma_path_added(g, path, id, h);
    lemma_linked_kept(g, h, parts, chain);
    lemma_led(g, parts, chain, all, 0, n);
    lemma_led(h, parts, chain, all, 0, n);
    assert(parts.take(0) =~= Seq::<Seq<char>>::empty());
    assert(dotted(parts.take(0)) =~= Seq::<char>::empty());
    assert(all[parts.len() as int] == key) by {
        assert(all.subrange(0, inner.len() as int)[parts.len() as int] == inner[parts.len() as int]);
    }
    lemma_dotted_push(parts, key);
    assert(full_key(dotted(parts), key) == path);
    assert(chain[parts.len() as int] == chain.last());
}

proof fn lemma_set_opened(
    g: GroupsModel,
    h: GroupsModel,
    f: Seq<(Seq<char>, Val)>,
    k: int,
)
    requires
        1 <= k <= f.len(),
        with_flat(g, f[0].0, f[0].1) == with_flat(h, f[0].0, f[0].1),
    ensures
        set_upto(g, f, k) == set_upto(h, f, k),
    decreases k,
{
    if k > 1 {
        lemma_set_opened(g, h, f, k - 1);
    } else {
        reveal_with_fuel(set_upto, 2);
    }
}

proof fn lemma_build(
    g: GroupsModel,
    parts: Seq<Seq<char>>,
    chain: Seq<int>,
    e: Seq<(Seq<char>, Val)>,
    i: int,
    lo: int,
    kind: LeafKind,
)
    requires
        clean(e, kind),
        plain_path(parts),
        0 <= i <= e.len(),
        linked(g, parts, chain),
        holds_first(g, chain.last(), e, i, lo),
        apart(keys_of(g.paths), parts, e, i),
    ensures
        ({
            let f = leaves(e, i, parts, kind);
            let h = set_upto(g, f, f.len() as int);
            linked(h, parts, chain) && holds_first(h, chain.last(), e, e.len() as int, lo) && built(
                g,
                h,
                chain.last(),
                parts,
                e,
                i,
            )
        }),
    decreases e, e.len() - i, 1int,
{
    let f = leaves(e, i, parts, kind);
    let node = chain.last();
    if i < e.len() {
        let (key, v) = e[i];
        let inner = parts.push(key);
        let rest = leaves(e, i + 1, parts, kind);
        assert(plain_key(e[i].0));
        lemma_plain_push(parts, key);
        if is_leaf(v, kind) {
            let one = seq![(dotted(inner), v)];
            let mid = with_flat(g, dotted(inner), v);
            lemma_leaf_set(g, parts, chain, e, i, lo, kind);
            assert(set_upto(g, one, 1) == mid) by {
                reveal_with_fuel(set_upto, 2);
            }
            assert(f == one + rest);
            lemma_set_more(g, one, rest, rest.len() as int);
            assert(f.len() == one.len() + rest.len());
            assert(keys_of(g.paths) + Seq::<Seq<char>>::empty() =~= keys_of(mid.paths));
            lemma_apart_later(keys_of(g.paths), parts, e, i, Seq::empty());
            lemma_build(mid, parts, chain, e, i + 1, lo, kind);
            let h = set_upto(g, f, f.len() as int);
            assert(h == set_upto(mid, rest, rest.len() as int));
            lemma_built_more(g, mid, h, node, parts, e, i);
        } else {
            lemma_build_group(g, parts, chain, e, i, lo, kind);
            let m = v->Obj_0.entries;
            let here = leaves(m, 0, inner, kind);
            let mid = set_upto(g, here, here.len() as int);
            assert(f == here + rest);
            lemma_set_more(g, here, rest, rest.len() as int);
            assert(f.len() == here.len() + rest.len());
            lemma_build(mid, parts, chain, e, i + 1, lo, kind);
            let h = set_upto(g, f, f.len() as int);
            assert(h == set_upto(mid, rest, rest.len() as int));
            lemma_built_more(g, mid, h, node, parts, e, i);
        }
    } else {
        assert(e.take(i) =~= e);
    }
}

proof fn lemma_built_more(
    g: GroupsModel,
    mid: GroupsModel,
    h: GroupsModel,
    node: int,
    parts: Seq<Seq<char>>,
    e: Seq<(Seq<char>, Val)>,
    i: int,
)
    requires
        0 <= i < e.len(),
        built(g, mid, node, parts, e, i),
        built(mid, h, node, parts, e, i + 1),
    ensures
        built(g, h, node, parts, e, i),
{
    assert forall|x: int| 0 <= x < g.nodes.len() && x != node implies #[trigger] h.nodes[x]
        == g.nodes[x] by {
        assert(mid.nodes[x] == g.nodes[x]);
    }
    assert forall|q: int| 0 <= q < g.paths.len() implies #[trigger] h.paths[q] == g.paths[q] by {
        assert(mid.paths[q] == g.paths[q]);
    }
    assert forall|q: int| g.paths.len() <= q < h.paths.len() implies below(
        (#[trigger] h.paths[q]).0,
        parts,
        e,
        i,
    ) by {
        if q < mid.paths.len() {
            assert(h.paths[q] == mid.paths[q]);
        } else {
            assert(below(h.paths[q].0, parts, e, i + 1));
            let j = choose|j: int|
                i + 1 <= j < e.len() && under(h.paths[q].0, parts.push((#[trigger] e[j]).0));
            assert(under(h.paths[q].0, parts.push(e[j].0)));
        }
    }
}

proof fn lemma_build_group(
    g: GroupsModel,
    parts: Seq<Seq<char>>,
    chain: Seq<int>,
    e: Seq<(Seq<char>, Val)>,
    i: int,
    lo: int,
    kind: LeafKind,
)
    requires
        clean(e, kind),
        plain_path(parts),
        0 <= i < e.len(),
        !is_leaf(e[i].1, kind),
        linked(g, parts, chain),
        holds_first(g, chain.last(), e, i, lo),
        apart(keys_of(g.paths), parts, e, i),
    ensures
        ({
            let f = leaves(e[i].1->Obj_0.entries, 0, parts.push(e[i].0), kind);
            let h = set_upto(g, f, f.len() as int);
            linked(h, parts, chain) && holds_first(h, chain.last(), e, i + 1, lo) && built(
                g,
                h,
                chain.last(),
                parts,
                e,
                i,
            ) && apart(keys_of(h.paths), parts, e, i + 1)
        }),
    decreases e, e.len() - i, 0int,
{
    let (key, v) = e[i];
    let node = chain.last();
    let inner = parts.push(key);
    let path = dotted(inner);
    let m = v->Obj_0.entries;
    let f = leaves(m, 0, inner, kind);
    let id = g.nodes.len() as int;
    let mid = opened(g, parts, chain, key);
    let longer = chain.push(id);
    assert(plain_key(e[i].0));
    lemma_plain_push(parts, key);
    lemma_under_itself(inner);
    lemma_leaves(m, 0, inner, kind);
    lemma_apart_inside(keys_of(g.paths), parts, e, i, m);
    assert forall|q: int| 0 <= q < g.paths.len() implies !under((#[trigger] g.paths[q]).0, inner) by {
        assert(keys_of(g.paths)[q] == g.paths[q].0);
    }
    // The first leaf opens the group.
    assert(below(f[0].0, inner, m, 0));
    let j = choose|j: int| 0 <= j < m.len() && under(f[0].0, inner.push((#[trigger] m[j]).0));
    lemma_under_parent(f[0].0, inner, m[j].0);
    lemma_dots_inside(f[0].0, inner.push(m[j].0));
    lemma_first_opens(g, parts, chain, key, f[0].0, f[0].1);
    lemma_set_opened(g, mid, f, f.len() as int);
    // The group is empty at first.
    assert forall|q: int| 0 <= q < g.paths.len() implies (#[trigger] g.paths[q]).0 != path by {
        if g.paths[q].0 == path {
            assert(under(g.paths[q].0, inner));
        }
    }
    lemma_path_added(g, path, id, mid);
    lemma_slot_pushed(g.nodes[node], e, i, SlotModel::Child(id));
    assert(mid.nodes[node] == g.nodes[node].push((key, SlotModel::Child(id))));
    assert(mid.nodes[id] =~= Seq::<(Seq<char>, SlotModel)>::empty());
    lemma_linked_kept(g, mid, parts, chain);
    assert(linked(mid, inner, longer)) by {
        assert forall|k: int| 1 <= k <= inner.len() implies value_of(
            mid.paths,
            dotted(inner.take(k)),
        ) == Some(#[trigger] longer[k]) by {
            if k <= parts.len() {
                assert(inner.take(k) =~= parts.take(k));
                assert(value_of(mid.paths, dotted(parts.take(k))) == Some(chain[k]));
            } else {
                assert(inner.take(k) =~= inner);
            }
        }
    }
    assert(m.take(0) =~= Seq::<(Seq<char>, Val)>::empty());
    assert(keys_of(mid.nodes[id]) =~= keys_of(m.take(0)));
    assert(holds_first(mid, id, m, 0, id + 1));
    assert(apart(keys_of(mid.paths), inner, m, 0)) by {
        let keys = keys_of(mid.paths);
        assert forall|q: int| 0 <= q < keys.len() implies !below(#[trigger] keys[q], inner, m, 0) by {
            if q < g.paths.len() {
                assert(keys[q] == keys_of(g.paths)[q]);
            } else {
                assert(keys[q] == path);
                if below(path, inner, m, 0) {
                    let x = choose|x: int|
                        0 <= x < m.len() && under(path, inner.push((#[trigger] m[x]).0));
                    assert(under(path, inner.push(m[x].0)));
                }
            }
        }
    }
    lemma_build(mid, inner, longer, m, 0, id + 1, kind);
    let h = set_upto(mid, f, f.len() as int);
    assert(h == set_upto(g, f, f.len() as int));
    assert(longer.last() == id);
    lemma_group_done(g, mid, h, parts, chain, e, i, lo, kind);
}

proof fn lemma_dots_inside(flat: Seq<char>, parts: Seq<Seq<char>>)
    requires
        parts.len() >= 2,
        under(flat, parts),
    ensures
        flat.contains('.'),
        split_at_char(flat, '.').len() >= parts.len(),
{
    if !flat.contains('.') {
        lemma_split_single(flat);
    }
}

proof fn lemma_group_done(
    g: GroupsModel,
    mid: GroupsModel,
    h: GroupsModel,
    parts: Seq<Seq<char>>,
    chain: Seq<int>,
    e: Seq<(Seq<char>, Val)>,
    i: int,
    lo: int,
    kind: LeafKind,
)
    requires
        clean(e, kind),
        plain_path(parts),
        0 <= i < e.len(),
        !is_leaf(e[i].1, kind),
        linked(g, parts, chain),
        holds_first(g, chain.last(), e, i, lo),
        apart(keys_of(g.paths), parts, e, i),
        mid == opened(g, parts, chain, e[i].0),
        mid.nodes[chain.last()] == g.nodes[chain.last()].push(
            (e[i].0, SlotModel::Child(g.nodes.len() as int)),
        ),
        built(
            mid,
            h,
            g.nodes.len() as int,
            parts.push(e[i].0),
            e[i].1->Obj_0.entries,
            0,
        ),
        holds_first(
            h,
            g.nodes.len() as int,
            e[i].1->Obj_0.entries,
            e[i].1->Obj_0.entries.len() as int,
            (g.nodes.len() + 1) as int,
        ),
    ensures
        linked(h, parts, chain),
        holds_first(h, chain.last(), e, i + 1, lo),
        built(g, h, chain.last(), parts, e, i),
        apart(keys_of(h.paths), parts, e, i + 1),
{
    let (key, v) = e[i];
    let node = chain.last();
    let inner = parts.push(key);
    let path = dotted(inner);
    let m = v->Obj_0.entries;
    let id = g.nodes.len() as int;
    let end = h.nodes.len() as int;
    assert(plain_key(e[i].0));
    lemma_plain_push(parts, key);
    lemma_under_itself(inner);
    lemma_slot_pushed(g.nodes[node], e, i, SlotModel::Child(id));
    assert(h.nodes[node] == mid.nodes[node]);
    assert forall|x: int| 0 <= x < id && x != node implies #[trigger] h.nodes[x] == g.nodes[x] by {
        assert(mid.nodes[x] == g.nodes[x]);
        assert(h.nodes[x] == mid.nodes[x]);
    }
    assert forall|q: int| 0 <= q < g.paths.len() implies #[trigger] h.paths[q] == g.paths[q] by {
        assert(mid.paths[q] == g.paths[q]);
        assert(h.paths[q] == mid.paths[q]);
    }
    assert forall|q: int| g.paths.len() <= q < h.paths.len() implies under(
        (#[trigger] h.paths[q]).0,
        inner,
    ) by {
        if q < mid.paths.len() {
            assert(h.paths[q] == mid.paths[q]);
        } else {
            assert(below(h.paths[q].0, inner, m, 0));
            let j = choose|j: int|
                0 <= j < m.len() && under(h.paths[q].0, inner.push((#[trigger] m[j]).0));
            lemma_under_parent(h.paths[q].0, inner, m[j].0);
        }
    }
    assert forall|q: int| g.paths.len() <= q < h.paths.len() implies below(
        (#[trigger] h.paths[q]).0,
        parts,
        e,
        i,
    ) by {
        assert(under(h.paths[q].0, parts.push(e[i].0)));
    }
    lemma_linked_kept(g, h, parts, chain);
    let more = keys_of(h.paths).skip(g.paths.len() as int);
    assert(keys_of(h.paths) =~= keys_of(g.paths) + more) by {
        assert forall|q: int| 0 <= q < g.paths.len() implies keys_of(h.paths)[q] == keys_of(
            g.paths,
        )[q] by {
            assert(h.paths[q] == g.paths[q]);
        }
    }
    assert forall|k: int| 0 <= k < more.len() implies under(
        #[trigger] more[k],
        parts.push(e[i].0),
    ) by {
        assert(more[k] == h.paths[g.paths.len() + k].0);
    }
    lemma_apart_later(keys_of(g.paths), parts, e, i, more);
    // The group of the entries holds one more.
    assert(held(h.nodes, node, i + 1, lo, end)) by {
        assert forall|s: int| 0 <= s < i + 1 implies match (#[trigger] h.nodes[node][s]).1 {
            SlotModel::Child(c) => lo <= c < end,
            SlotModel::Value(_) => true,
        } by {
            if s < i {
                assert(h.nodes[node][s] == g.nodes[node][s]);
            }
        }
    }
    assert(sealed(h.nodes, lo, end)) by {
        assert forall|x: int, s: int| lo <= x < end && 0 <= s < h.nodes[x].len() implies match (
        #[trigger] h.nodes[x][s]).1 {
            SlotModel::Child(c) => x < c < end,
            SlotModel::Value(_) => true,
        } by {
            if x < id {
                assert(h.nodes[x] == g.nodes[x]);
                assert(g.nodes[x][s] == h.nodes[x][s]);
            } else if x == id {
                assert(held(h.nodes, id, m.len() as int, id + 1, end));
                assert(h.nodes[id].len() == m.len());
            } else {
                assert(sealed(h.nodes, id + 1, end));
            }
        }
    }
    assert forall|x: int| lo <= x < id implies #[trigger] g.nodes[x] == h.nodes[x] by {
        assert(h.nodes[x] == g.nodes[x]);
    }
    assert forall|s: int| 0 <= s < i implies #[trigger] g.nodes[node][s] == h.nodes[node][s] by {
        assert(h.nodes[node][s] == mid.nodes[node][s]);
    }
    lemma_made_frame(g.nodes, h.nodes, node, i, lo, id);
    assert(h.nodes[node][i] == (key, SlotModel::Child(id)));
    assert(made_upto(h.nodes, id, h.nodes[id].len() as int) == m) by {
        assert(m.take(m.len() as int) =~= m);
    }
    assert(v == Val::Obj(ObjModel { entries: m, css: None }));
    lemma_put_last(e, i);
    assert(made_upto(h.nodes, node, i + 1) == e.take(i + 1));
}

proof fn lemma_slot_unique(keys: Seq<Seq<char>>, n: int, p: int, from: int)
    requires
        0 <= from <= p <= keys.len(),
        forall|j: int|
            0 <= j < p ==> array_index_of(#[trigger] keys[j]) is Some && array_index_of(keys[j])->0
                < n,
        p < keys.len() ==> !(array_index_of(keys[p]) is Some && array_index_of(keys[p])->0 < n),
    ensures
        index_slot(keys, n, from) == p,
    decreases p - from,
{
    if from < p {
        assert(array_index_of(keys[from]) is Some);
        lemma_slot_unique(keys, n, p, from + 1);
    }
}

proof fn lemma_slot_sides(keys: Seq<Seq<char>>, n: int, from: int)
    requires
        es_ordered(keys),
        0 <= from <= keys.len(),
        forall|j: int|
            0 <= j < from ==> array_index_of(#[trigger] keys[j]) is Some && array_index_of(
                keys[j],
            )->0 < n,
    ensures
        from <= index_slot(keys, n, from) <= keys.len(),
        forall|j: int|
            0 <= j < index_slot(keys, n, from) ==> array_index_of(#[trigger] keys[j]) is Some
                && array_index_of(keys[j])->0 < n,
        forall|j: int|
            index_slot(keys, n, from) <= j < keys.len() ==> !(array_index_of(
                #[trigger] keys[j],
            ) is Some && array_index_of(keys[j])->0 < n),
    decreases keys.len() - from,
{
    if from < keys.len() {
        let m = array_index_of(keys[from]);
        if m is Some && m->0 < n {
            lemma_slot_sides(keys, n, from + 1);
        } else {
            assert forall|j: int| from <= j < keys.len() implies !(array_index_of(
                #[trigger] keys[j],
            ) is Some && array_index_of(keys[j])->0 < n) by {
                if from < j && array_index_of(keys[j]) is Some {
                    assert(keys[from] != keys[j]);
                }
            }
        }
    }
}

proof fn lemma_find_inserted(keys: Seq<Seq<char>>, p: int, a: Seq<char>, b: Seq<char>)
    requires
        0 <= p <= keys.len(),
        a != b,
    ensures
        find_key(keys.insert(p, a), b, 0) == if find_key(keys, b, 0) < p {
            find_key(keys, b, 0)
        } else {
            find_key(keys, b, 0) + 1
        },
{
    let more = keys.insert(p, a);
    lemma_find_key(keys, b, 0);
    lemma_find_key(more, b, 0);
    let x = find_key(keys, b, 0);
    let y = find_key(more, b, 0);
    let want = if x < p {
        x
    } else {
        x + 1
    };
    if x < keys.len() {
        assert(more[want] == keys[x]);
    }
    if y < want {
        if y < p {
            assert(more[y] == keys[y]);
        } else if y > p {
            assert(more[y] == keys[y - 1]);
        }
    }
}

/// The place of an array index among keys, after another key came.
proof fn lemma_slot_after(keys: Seq<Seq<char>>, n: int, b: Seq<char>)
    requires
        es_ordered(keys),
        find_key(keys, b, 0) == keys.len(),
        array_index_of(b) is Some ==> array_index_of(b)->0 != n,
    ensures
        0 <= slot_of(keys, b) <= keys.len(),
        index_slot(keys.insert(slot_of(keys, b), b), n, 0) == if array_index_of(b) is Some
            && array_index_of(b)->0 < n {
            index_slot(keys, n, 0) + 1
        } else {
            index_slot(keys, n, 0)
        },
        array_index_of(b) is Some && array_index_of(b)->0 < n ==> slot_of(keys, b) <= index_slot(
            keys,
            n,
            0,
        ),
        !(array_index_of(b) is Some && array_index_of(b)->0 < n) ==> index_slot(keys, n, 0)
            <= slot_of(keys, b),
{
    lemma_slot_sides(keys, n, 0);
    let p = index_slot(keys, n, 0);
    let q = slot_of(keys, b);
    if let Some(m) = array_index_of(b) {
        lemma_slot_sides(keys, m, 0);
        if m < n {
            if q > p {
                assert(array_index_of(keys[p]) is Some);
            }
        } else {
            if q < p {
                assert(array_index_of(keys[q]) is Some);
                lemma_find_key(keys, b, 0);
                assert(keys[q] != b);
                assert(array_index_of(keys[q])->0 < n);
            }
        }
    }
    let more = keys.insert(q, b);
    let want = if array_index_of(b) is Some && array_index_of(b)->0 < n {
        p + 1
    } else {
        p
    };
    assert forall|j: int| 0 <= j < want implies array_index_of(#[trigger] more[j]) is Some
        && array_index_of(more[j])->0 < n by {
        if j < q {
            assert(more[j] == keys[j]);
        } else if j > q {
            assert(more[j] == keys[j - 1]);
        }
    }
    if want < more.len() {
        if want < q {
            assert(more[want] == keys[want]);
        } else if want > q {
            assert(more[want] == keys[want - 1]);
        }
    }
    lemma_slot_unique(more, n, want, 0);
}

proof fn lemma_two_inserted<A>(s: Seq<A>, p: int, x: A, q: int, y: A)
    requires
        0 <= p <= q <= s.len(),
    ensures
        s.insert(p, x).insert(q + 1, y) == s.insert(q, y).insert(p, x),
{
    assert(s.insert(p, x).insert(q + 1, y) =~= s.insert(q, y).insert(p, x));
}

proof fn lemma_put_new_new<T>(s: Seq<(Seq<char>, T)>, a: Seq<char>, x: T, b: Seq<char>, y: T)
    requires
        es_ordered(keys_of(s)),
        a != b,
        array_index_of(a) is Some,
        find_key(keys_of(s), a, 0) == s.len(),
        find_key(keys_of(s), b, 0) == s.len(),
    ensures
        put(put(s, a, x), b, y) == put(put(s, b, y), a, x),
{
    let keys = keys_of(s);
    let n = array_index_of(a)->0;
    let p = slot_of(keys, a);
    let q = slot_of(keys, b);
    let sa = put(s, a, x);
    let sb = put(s, b, y);
    if let Some(m) = array_index_of(b) {
        if m == n {
            lemma_index_injective(a, b);
        }
        lemma_slot_after(keys, m, a);
    }
    lemma_slot_after(keys, n, b);
    lemma_slot(keys, a);
    assert(keys_of(sa) =~= keys.insert(p, a));
    assert(keys_of(sb) =~= keys.insert(q, b));
    lemma_find_inserted(keys, p, a, b);
    lemma_find_inserted(keys, q, b, a);
    let pa = slot_of(keys_of(sb), a);
    let qb = slot_of(keys_of(sa), b);
    assert(put(sa, b, y) == sa.insert(qb, (b, y)));
    assert(put(sb, a, x) == sb.insert(pa, (a, x)));
    if array_index_of(b) is Some && array_index_of(b)->0 < n {
        assert(qb == q && pa == p + 1);
        lemma_two_inserted(s, q, (b, y), p, (a, x));
    } else {
        assert(pa == p);
        assert(qb == q + 1);
        lemma_two_inserted(s, p, (a, x), q, (b, y));
    }
}

proof fn lemma_put_there_new<T>(s: Seq<(Seq<char>, T)>, a: Seq<char>, x: T, b: Seq<char>, y: T)
    requires
        a != b,
        find_key(keys_of(s), a, 0) < s.len(),
        find_key(keys_of(s), b, 0) == s.len(),
    ensures
        put(put(s, a, x), b, y) == put(put(s, b, y), a, x),
{
    let keys = keys_of(s);
    let fa = find_key(keys, a, 0);
    let q = slot_of(keys, b);
    let sa = put(s, a, x);
    let sb = put(s, b, y);
    lemma_slot(keys, b);
    lemma_find_key(keys, a, 0);
    assert(keys_of(sa) =~= keys);
    assert(keys_of(sb) =~= keys.insert(q, b));
    lemma_find_inserted(keys, q, b, a);
    assert(put(sa, b, y) == sa.insert(q, (b, y)));
    assert(put(sa, b, y) =~= put(sb, a, x));
}

proof fn lemma_put_commutes<T>(s: Seq<(Seq<char>, T)>, a: Seq<char>, x: T, b: Seq<char>, y: T)
    requires
        es_ordered(keys_of(s)),
        a != b,
        array_index_of(a) is Some,
    ensures
        put(put(s, a, x), b, y) == put(put(s, b, y), a, x),
{
    let keys = keys_of(s);
    lemma_find_key(keys, a, 0);
    lemma_find_key(keys, b, 0);
    let fa = find_key(keys, a, 0);
    let fb = find_key(keys, b, 0);
    if fa < s.len() {
        if fb < s.len() {
            assert(keys_of(put(s, a, x)) =~= keys);
            assert(keys_of(put(s, b, y)) =~= keys);
            assert(put(put(s, a, x), b, y) =~= put(put(s, b, y), a, x));
        } else {
            lemma_put_there_new(s, a, x, b, y);
        }
    } else if fb < s.len() {
        lemma_put_there_new(s, b, y, a, x);
    } else {
        lemma_put_new_new(s, a, x, b, y);
    }
}

/// Whether groups are in order: the keys of the outermost are, and no path leads to it.
pub open spec fn groups_in_order(g: GroupsModel) -> bool {
    &&& g.nodes.len() > 0
    &&& es_ordered(keys_of(g.nodes[0]))
    &&& forall|q: int| 0 <= q < g.paths.len() ==> 0 < (#[trigger] g.paths[q]).1 < g.nodes.len()
}

proof fn lemma_slot_in_order(g: GroupsModel, node: int, key: Seq<char>, slot: SlotModel)
    requires
        groups_in_order(g),
        0 <= node < g.nodes.len(),
    ensures
        groups_in_order(g.with_slot(node, key, slot)),
{
    put_keeps_order(g.nodes[0], key, slot);
}

proof fn lemma_group_in_order(g: GroupsModel, node: int, key: Seq<char>, path: Seq<char>)
    requires
        groups_in_order(g),
        0 <= node < g.nodes.len(),
    ensures
        groups_in_order(g.with_group(node, key, path)),
{
    lemma_slot_in_order(g, node, key, SlotModel::Child(g.nodes.len() as int));
    let h = g.with_group(node, key, path);
    assert forall|q: int| 0 <= q < h.paths.len() implies 0 < (#[trigger] h.paths[q]).1
        < h.nodes.len() by {
        if q < g.paths.len() {
            assert(h.paths[q] == g.paths[q]);
        }
    }
}

proof fn lemma_slots_commute(
    g: GroupsModel,
    k: Seq<char>,
    v: Val,
    node: int,
    key: Seq<char>,
    slot: SlotModel,
)
    requires
        groups_in_order(g),
        0 <= node < g.nodes.len(),
        array_index_of(k) is Some,
        node == 0 ==> key != k,
    ensures
        g.with_slot(0, k, SlotModel::Value(v)).with_slot(node, key, slot) == g.with_slot(
            node,
            key,
            slot,
        ).with_slot(0, k, SlotModel::Value(v)),
{
    let x = SlotModel::Value(v);
    let a = g.with_slot(0, k, x).with_slot(node, key, slot);
    let b = g.with_slot(node, key, slot).with_slot(0, k, x);
    if node == 0 && k != "__proto__"@ && key != "__proto__"@ {
        lemma_put_commutes(g.nodes[0], k, x, key, slot);
    }
    assert(a.nodes =~= b.nodes);
}

proof fn lemma_led_past(
    g: GroupsModel,
    k: Seq<char>,
    v: Val,
    parts: Seq<Seq<char>>,
    i: int,
    n: int,
    path: Seq<char>,
    node: int,
)
    requires
        groups_in_order(g),
        0 <= i <= n < parts.len(),
        0 <= node < g.nodes.len(),
        node == 0 <==> i == 0,
        array_index_of(k) is Some,
        parts[0] != k,
    ensures
        ({
            let (h, to) = led_to(g, parts, i, n, path, node);
            let x = SlotModel::Value(v);
            &&& led_to(g.with_slot(0, k, x), parts, i, n, path, node) == (h.with_slot(0, k, x), to)
            &&& groups_in_order(h)
            &&& 0 <= to < h.nodes.len()
            &&& to == 0 <==> n == 0
        }),
    decreases n - i,
{
    if i < n {
        let x = SlotModel::Value(v);
        let next = full_key(path, parts[i]);
        match value_of(g.paths, next) {
            Some(id) => {
                lemma_find_key(keys_of(g.paths), next, 0);
                let q = find_key(keys_of(g.paths), next, 0);
                assert(0 < g.paths[q].1 < g.nodes.len());
                lemma_led_past(g, k, v, parts, i + 1, n, next, id);
            },
            None => {
                let id = g.nodes.len() as int;
                let h = g.with_group(node, parts[i], next);
                lemma_slots_commute(g, k, v, node, parts[i], SlotModel::Child(id));
                lemma_group_in_order(g, node, parts[i], next);
                let s = g.with_slot(0, k, x);
                assert(s.with_group(node, parts[i], next).nodes =~= h.with_slot(0, k, x).nodes) by {
                    let linked = g.with_slot(node, parts[i], SlotModel::Child(id));
                    assert(s.with_slot(node, parts[i], SlotModel::Child(id)) == linked.with_slot(
                        0,
                        k,
                        x,
                    ));
                    assert(h.nodes == linked.nodes.push(Seq::empty()));
                    assert(h.nodes[0] == linked.nodes[0]);
                }
                assert(s.with_group(node, parts[i], next) == h.with_slot(0, k, x));
                lemma_led_past(h, k, v, parts, i + 1, n, next, id);
            },
        }
    }
}

proof fn lemma_flat_commutes(g: GroupsModel, k: Seq<char>, v: Val, q: Seq<char>, w: Val)
    requires
        groups_in_order(g),
        array_index_of(k) is Some,
        split_at_char(q, '.').len() > 0,
        split_at_char(q, '.')[0] != k,
    ensures
        with_flat(with_flat(g, k, v), q, w) == with_flat(with_flat(g, q, w), k, v),
        groups_in_order(with_flat(g, q, w)),
        groups_in_order(with_flat(g, k, v)),
{
    let x = SlotModel::Value(v);
    let y = SlotModel::Value(w);
    assert(!k.contains('.')) by {
        if k.contains('.') {
            let d = choose|d: int| 0 <= d < k.len() && k[d] == '.';
            assert(digit(k[d]));
        }
    }
    assert(with_flat(g, k, v) == g.with_slot(0, k, x));
    lemma_slot_in_order(g, 0, k, x);
    if outermost(q) {
        assert(!q.contains('.')) by {
            reveal_strlit("__varGroupHash__");
            reveal_strlit("$$css");
        }
        lemma_split_single(q);
        lemma_slots_commute(g, k, v, 0, q, y);
        lemma_slot_in_order(g, 0, q, y);
    } else {
        let parts = split_at_char(q, '.');
        let n = parts.len() - 1;
        if n == 0 {
            lemma_many_parts(q);
        }
        lemma_led_past(g, k, v, parts, 0, n, Seq::empty(), 0);
        let (h, to) = led_to(g, parts, 0, n, Seq::empty(), 0);
        lemma_slots_commute(h, k, v, to, parts.last(), y);
        lemma_slot_in_order(h, to, parts.last(), y);
    }
}

proof fn lemma_many_parts(q: Seq<char>)
    requires
        q.contains('.'),
    ensures
        split_at_char(q, '.').len() >= 2,
{
    let d = choose|d: int| 0 <= d < q.len() && q[d] == '.';
    lemma_next_found(q, 0, d);
    let next = next_char(q, '.', 0);
    assert(split_from(q, '.', next + 1).len() > 0);
}

proof fn lemma_next_found(q: Seq<char>, from: int, d: int)
    requires
        0 <= from <= d < q.len(),
        q[d] == '.',
    ensures
        from <= next_char(q, '.', from) <= d,
    decreases d - from,
{
    if q[from] != '.' {
        lemma_next_found(q, from + 1, d);
    }
}

/// The first part of a flat key.
pub open spec fn first_part(flat: Seq<char>) -> Seq<char> {
    split_at_char(flat, '.')[0]
}

proof fn lemma_some_part(flat: Seq<char>)
    ensures
        split_at_char(flat, '.').len() > 0,
{
}

proof fn lemma_grouped_in_order(f: Seq<(Seq<char>, Val)>, k: int)
    requires
        0 <= k <= f.len(),
    ensures
        groups_in_order(grouped_upto(f, k)),
    decreases k,
{
    if k > 0 {
        lemma_grouped_in_order(f, k - 1);
        let g = grouped_upto(f, k - 1);
        let q = f[k - 1].0;
        let v = f[k - 1].1;
        if outermost(q) {
            lemma_slot_in_order(g, 0, q, SlotModel::Value(v));
        } else {
            let parts = split_at_char(q, '.');
            lemma_some_part(q);
            let n = parts.len() - 1;
            // Any array index that is not the first part will do.
            let x = "0"@;
            let y = "1"@;
            reveal_strlit("0");
            reveal_strlit("1");
            reveal_with_fuel(digits_value, 2);
            let free = if parts[0] != x {
                x
            } else {
                y
            };
            assert(x[0] != y[0]);
            assert(array_index_of(x) is Some);
            assert(array_index_of(y) is Some);
            lemma_led_past(g, free, v, parts, 0, n, Seq::empty(), 0);
            let (h, to) = led_to(g, parts, 0, n, Seq::empty(), 0);
            lemma_slot_in_order(h, to, parts.last(), SlotModel::Value(v));
        }
    } else {
        let g = grouped_upto(f, 0);
        assert(keys_of(g.nodes[0]) =~= Seq::<Seq<char>>::empty());
    }
}

proof fn lemma_grouped_same(
    a: Seq<(Seq<char>, Val)>,
    b: Seq<(Seq<char>, Val)>,
    from: int,
    k: int,
)
    requires
        0 <= from <= k <= a.len(),
        a.len() == b.len(),
        grouped_upto(a, from) == grouped_upto(b, from),
        forall|j: int| from <= j < k ==> #[trigger] a[j] == b[j],
    ensures
        grouped_upto(a, k) == grouped_upto(b, k),
    decreases k - from,
{
    if from < k {
        lemma_grouped_same(a, b, from, k - 1);
        assert(a[k - 1] == b[k - 1]);
    }
}

proof fn lemma_grouped_start(a: Seq<(Seq<char>, Val)>, b: Seq<(Seq<char>, Val)>, k: int)
    requires
        0 <= k <= a.len(),
        k <= b.len(),
        forall|j: int| 0 <= j < k ==> #[trigger] a[j] == b[j],
    ensures
        grouped_upto(a, k) == grouped_upto(b, k),
    decreases k,
{
    if k > 0 {
        lemma_grouped_start(a, b, k - 1);
        assert(a[k - 1] == b[k - 1]);
    }
}

proof fn lemma_moved_back(acc: Seq<(Seq<char>, Val)>, p: int, k: Seq<char>, v: Val)
    requires
        0 <= p <= acc.len(),
        array_index_of(k) is Some,
        forall|j: int| p <= j < acc.len() ==> first_part((#[trigger] acc[j]).0) != k,
    ensures
        grouped_upto(acc.insert(p, (k, v)), (acc.len() + 1) as int) == with_flat(
            grouped_upto(acc, acc.len() as int),
            k,
            v,
        ),
    decreases acc.len() - p,
{
    let a = acc.insert(p, (k, v));
    if p < acc.len() {
        let b = acc.insert(p + 1, (k, v));
        lemma_moved_back(acc, p + 1, k, v);
        let g = grouped_upto(acc, p);
        lemma_grouped_start(acc, a, p);
        lemma_grouped_start(acc, b, p);
        lemma_grouped_in_order(acc, p);
        assert(a[p] == (k, v) && a[p + 1] == acc[p]);
        assert(b[p] == acc[p] && b[p + 1] == (k, v));
        lemma_some_part(acc[p].0);
        assert(first_part(acc[p].0) != k);
        lemma_flat_commutes(g, k, v, acc[p].0, acc[p].1);
        assert(grouped_upto(a, p + 1) == with_flat(g, k, v));
        assert(grouped_upto(b, p + 1) == with_flat(g, acc[p].0, acc[p].1));
        assert(grouped_upto(a, p + 2) == grouped_upto(b, p + 2));
        lemma_grouped_same(a, b, p + 2, (acc.len() + 1) as int);
    } else {
        lemma_grouped_start(acc, a, acc.len() as int);
        assert(a[acc.len() as int] == (k, v));
    }
}

proof fn lemma_flat_root(e: Seq<(Seq<char>, Val)>, i: int, acc: Seq<(Seq<char>, Val)>, kind: LeafKind)
    requires
        clean(e, kind),
        0 <= i <= e.len(),
        apart(keys_of(acc), Seq::empty(), e, i),
    ensures
        ({
            let parts = Seq::<Seq<char>>::empty();
            let f = leaves(e, i, parts, kind);
            match flat_from(e, i, Seq::empty(), acc, kind) {
                Ok(flat) => grouped_upto(flat, flat.len() as int) == set_upto(
                    grouped_upto(acc, acc.len() as int),
                    f,
                    f.len() as int,
                ),
                Err(_) => false,
            }
        }),
    decreases e.len() - i,
{
    let parts = Seq::<Seq<char>>::empty();
    let g = grouped_upto(acc, acc.len() as int);
    if i < e.len() {
        let (key, v) = e[i];
        assert(plain_key(e[i].0));
        lemma_plain_push(parts, key);
        let inner = parts.push(key);
        lemma_dotted(inner);
        lemma_under_itself(inner);
        assert(dotted(inner) == key);
        let rest = leaves(e, i + 1, parts, kind);
        if is_leaf(v, kind) {
            lemma_find_key(keys_of(acc), key, 0);
            let at = find_key(keys_of(acc), key, 0);
            if at < acc.len() {
                assert(under(keys_of(acc)[at], parts.push(e[i].0)));
                assert(below(keys_of(acc)[at], parts, e, i));
            }
            let next = put(acc, key, v);
            let p = slot_of(keys_of(acc), key);
            lemma_slot(keys_of(acc), key);
            assert(next == acc.insert(p, (key, v)));
            assert(grouped_upto(next, next.len() as int) == with_flat(g, key, v)) by {
                if array_index_of(key) is Some {
                    assert forall|j: int| p <= j < acc.len() implies first_part(
                        (#[trigger] acc[j]).0,
                    ) != key by {
                        if first_part(acc[j].0) == key {
                            lemma_some_part(acc[j].0);
                            let s = split_at_char(acc[j].0, '.');
                            assert(s.subrange(0, 1) =~= parts.push(e[i].0));
                            assert(keys_of(acc)[j] == acc[j].0);
                            assert(below(keys_of(acc)[j], parts, e, i));
                        }
                    }
                    lemma_moved_back(acc, p, key, v);
                } else {
                    lemma_grouped_start(acc, next, acc.len() as int);
                }
            }
            assert(apart(keys_of(next), parts, e, i + 1)) by {
                lemma_apart_later(keys_of(acc), parts, e, i, seq![key]);
                let all = keys_of(acc) + seq![key];
                assert forall|k: int| 0 <= k < next.len() implies !below(
                    #[trigger] keys_of(next)[k],
                    parts,
                    e,
                    i + 1,
                ) by {
                    if k < p {
                        assert(keys_of(next)[k] == all[k]);
                    } else if k == p {
                        assert(keys_of(next)[k] == all[acc.len() as int]);
                    } else {
                        assert(keys_of(next)[k] == all[k - 1]);
                    }
                }
            }
            lemma_flat_root(e, i + 1, next, kind);
            let one = seq![(key, v)];
            assert(leaves(e, i, parts, kind) == one + rest);
            lemma_set_more(g, one, rest, rest.len() as int);
            assert(set_upto(g, one, 1) == with_flat(g, key, v)) by {
                reveal_with_fuel(set_upto, 2);
            }
        } else {
            let m = v->Obj_0.entries;
            let here = leaves(m, 0, inner, kind);
            lemma_apart_inside(keys_of(acc), parts, e, i, m);
            lemma_flat(m, 0, inner, acc, kind);
            let next = acc + here;
            lemma_leaves(m, 0, inner, kind);
            let more = keys_of(here);
            assert forall|k: int| 0 <= k < more.len() implies under(
                #[trigger] more[k],
                parts.push(e[i].0),
            ) by {
                assert(more[k] == here[k].0);
                let j = choose|j: int|
                    0 <= j < m.len() && under(here[k].0, inner.push((#[trigger] m[j]).0));
                lemma_under_parent(here[k].0, inner, m[j].0);
            }
            assert(keys_of(next) =~= keys_of(acc) + more);
            lemma_apart_later(keys_of(acc), parts, e, i, more);
            lemma_flat_root(e, i + 1, next, kind);
            assert(leaves(e, i, parts, kind) == here + rest);
            lemma_set_more(g, here, rest, rest.len() as int);
            lemma_grouped(acc, acc.len() as int);
            lemma_grouped(next, next.len() as int);
            lemma_set_more(
                GroupsModel { nodes: seq![Seq::empty()], paths: Seq::empty() },
                acc,
                here,
                here.len() as int,
            );
        }
    }
}

proof fn lemma_reset(e: Seq<(Seq<char>, Val)>, k: int)
    requires
        es_ordered(keys_of(e)),
        0 <= k <= e.len(),
        forall|i: int| 0 <= i < e.len() ==> plain_key((#[trigger] e[i]).0),
    ensures
        reset_upto(e, k) == e.take(k),
    decreases k,
{
    if k > 0 {
        lemma_reset(e, k - 1);
        assert(plain_key(e[k - 1].0));
        lemma_put_last(e, k - 1);
    } else {
        assert(e.take(0) =~= Seq::<(Seq<char>, Val)>::empty());
    }
}

/// Nested groups that are flattened and nested again are what they were.
pub proof fn nesting_gives_groups_back(e: Seq<(Seq<char>, Val)>, kind: LeafKind)
    requires
        clean(e, kind),
    ensures
        ({
            let v = Val::Obj(ObjModel { entries: e, css: None });
            match flat_config(v, kind) {
                Ok(flat) => unflattened(flat.entries) == e,
                Err(_) => false,
            }
        }),
{
    let parts = Seq::<Seq<char>>::empty();
    let none = Seq::<(Seq<char>, Val)>::empty();
    let g = grouped_upto(none, 0);
    assert(keys_of(none) =~= Seq::<Seq<char>>::empty());
    lemma_flat_root(e, 0, none, kind);
    assert(e.take(0) =~= none);
    assert(keys_of(g.nodes[0]) =~= keys_of(e.take(0)));
    assert(keys_of(g.paths) =~= Seq::<Seq<char>>::empty());
    assert(linked(g, parts, seq![0int]));
    assert(holds_first(g, 0, e, 0, 1));
    lemma_build(g, parts, seq![0int], e, 0, 1, kind);
    assert(e.take(e.len() as int) =~= e);
    lemma_reset(e, e.len() as int);
}

} // verus!
