//! Cycles among the variables of a group.

use crate::errors::{said, ErrorCode, ErrorModel, StylexError};
use crate::shared::flatten::fails_as;
use crate::text::{join, join_texts, str_eq, texts};
use crate::value::{find_key, lemma_find_key};
use vstd::prelude::*;

verus! {

/// Variables with those that they refer to, mathematically.
pub type DepsModel = Seq<(Seq<char>, Seq<Seq<char>>)>;

/// What variables with their references are, mathematically.
pub open spec fn deps_models(v: Seq<(String, Vec<String>)>) -> DepsModel {
    Seq::new(v.len(), |i: int| (v[i].0@, texts(v[i].1@)))
}

/// The references of a variable among the first `k`; the last entry counts.
pub open spec fn deps_upto(map: DepsModel, key: Seq<char>, k: int) -> Option<Seq<Seq<char>>>
    decreases k,
{
    if k <= 0 {
        None
    } else if map[k - 1].0 == key {
        Some(map[k - 1].1)
    } else {
        deps_upto(map, key, k - 1)
    }
}

/// The references of a variable.
pub open spec fn deps_of(map: DepsModel, key: Seq<char>) -> Option<Seq<Seq<char>>> {
    deps_upto(map, key, map.len() as int)
}

/// How many of the first `k` variables are not on the path.
pub open spec fn absent_upto(map: DepsModel, path: Seq<Seq<char>>, k: int) -> nat
    decreases k,
{
    if k <= 0 {
        0
    } else {
        absent_upto(map, path, k - 1) + if path.contains(map[k - 1].0) {
            0nat
        } else {
            1
        }
    }
}

/// How many variables are not on the path.
pub open spec fn absent(map: DepsModel, path: Seq<Seq<char>>) -> nat {
    absent_upto(map, path, map.len() as int)
}

/// Follows a variable: the variables that are done with after that, and the first
/// cycle that was met. `path` is the way to the variable.
pub open spec fn visit(
    map: DepsModel,
    key: Seq<char>,
    done: Seq<Seq<char>>,
    path: Seq<Seq<char>>,
) -> (Seq<Seq<char>>, Option<Seq<Seq<char>>>)
    decreases absent(map, path), 0int, 0int,
    via visit_decreases
{
    if path.contains(key) {
        (done, Some(path.skip(find_key(path, key, 0)).push(key)))
    } else if done.contains(key) {
        (done, None)
    } else {
        match deps_of(map, key) {
            None => (done.push(key), None),
            Some(deps) => {
                let (after, cycle) = visit_deps(map, deps, 0, done, path.push(key));
                if cycle is Some {
                    (after, cycle)
                } else {
                    (after.push(key), None)
                }
            },
        }
    }
}

#[via_fn]
proof fn visit_decreases(
    map: DepsModel,
    key: Seq<char>,
    done: Seq<Seq<char>>,
    path: Seq<Seq<char>>,
) {
    if !path.contains(key) && deps_of(map, key) is Some {
        lemma_absent_less(map, path, key, map.len() as int);
    }
}

/// Follows the references of a variable from the `i`th on.
pub open spec fn visit_deps(
    map: DepsModel,
    deps: Seq<Seq<char>>,
    i: int,
    done: Seq<Seq<char>>,
    path: Seq<Seq<char>>,
) -> (Seq<Seq<char>>, Option<Seq<Seq<char>>>)
    decreases absent(map, path), 1int, deps.len() - i,
{
    if i < 0 || i >= deps.len() {
        (done, None)
    } else if deps_of(map, deps[i]) is None {
        visit_deps(map, deps, i + 1, done, path)
    } else {
        let (after, cycle) = visit(map, deps[i], done, path);
        if cycle is Some {
            (after, cycle)
        } else {
            visit_deps(map, deps, i + 1, after, path)
        }
    }
}

/// Follows the variables of a group from the `i`th on.
pub open spec fn visit_from(map: DepsModel, i: int, done: Seq<Seq<char>>) -> (
    Seq<Seq<char>>,
    Option<Seq<Seq<char>>>,
)
    decreases map.len() - i,
{
    if i < 0 || i >= map.len() {
        (done, None)
    } else {
        let (after, cycle) = visit(map, map[i].0, done, Seq::empty());
        if cycle is Some {
            (after, cycle)
        } else {
            visit_from(map, i + 1, after)
        }
    }
}

/// The first cycle of a group, if it has one.
pub open spec fn first_cycle(map: DepsModel) -> Option<Seq<Seq<char>>> {
    visit_from(map, 0, Seq::empty()).1
}

/// The error for the first cycle of a group.
pub open spec fn cycle_error(map: DepsModel) -> Option<ErrorModel> {
    match first_cycle(map) {
        Some(cycle) => Some(
            said(
                ErrorCode::CyclicDefineVarsReference,
                "Cyclic same-group references in defineVars() are not allowed: "@ + join_texts(
                    cycle,
                    " -> "@,
                ) + "."@,
            ),
        ),
        None => None,
    }
}

proof fn lemma_absent_kept(map: DepsModel, path: Seq<Seq<char>>, key: Seq<char>, k: int)
    ensures
        absent_upto(map, path.push(key), k) <= absent_upto(map, path, k),
    decreases k,
{
    if k > 0 {
        lemma_absent_kept(map, path, key, k - 1);
        if path.contains(map[k - 1].0) {
            let i = choose|i: int| 0 <= i < path.len() && path[i] == map[k - 1].0;
            assert(path.push(key)[i] == map[k - 1].0);
        }
    }
}

proof fn lemma_absent_less(map: DepsModel, path: Seq<Seq<char>>, key: Seq<char>, k: int)
    requires
        0 <= k <= map.len(),
        !path.contains(key),
        deps_upto(map, key, k) is Some,
    ensures
        absent_upto(map, path.push(key), k) < absent_upto(map, path, k),
    decreases k,
{
    if map[k - 1].0 == key {
        lemma_absent_kept(map, path, key, k - 1);
        assert(path.push(key)[path.len() as int] == key);
    } else {
        lemma_absent_less(map, path, key, k - 1);
        if path.contains(map[k - 1].0) {
            let i = choose|i: int| 0 <= i < path.len() && path[i] == map[k - 1].0;
            assert(path.push(key)[i] == map[k - 1].0);
        }
    }
}

fn holds(v: &Vec<String>, key: &str) -> (r: usize)
    ensures
        r == find_key(texts(v@), key@, 0),
        r <= v@.len(),
        r < v@.len() <==> texts(v@).contains(key@),
{
    let ghost keys = texts(v@);
    let mut i: usize = 0;
    while i < v.len()
        invariant
            keys == texts(v@),
            i <= v@.len(),
            find_key(keys, key@, 0) == find_key(keys, key@, i as int),
            forall|j: int| 0 <= j < i ==> keys[j] != key@,
        decreases v@.len() - i,
    {
        assert(keys[i as int] == v@[i as int]@);
        if str_eq(v[i].as_str(), key) {
            return i;
        }
        i += 1;
    }
    i
}

fn deps_at(map: &Vec<(String, Vec<String>)>, key: &str) -> (r: usize)
    ensures
        r <= map@.len(),
        r < map@.len() ==> deps_of(deps_models(map@), key@) == Some(texts(map@[r as int].1@)),
        r == map@.len() ==> deps_of(deps_models(map@), key@) is None,
{
    let ghost m = deps_models(map@);
    let mut k: usize = map.len();
    while k > 0
        invariant
            m == deps_models(map@),
            k <= map@.len(),
            deps_of(m, key@) == deps_upto(m, key@, k as int),
        decreases k,
    {
        k -= 1;
        assert(m[k as int] == (map@[k as int].0@, texts(map@[k as int].1@)));
        if str_eq(map[k].0.as_str(), key) {
            return k;
        }
    }
    map.len()
}

/// The view of an optional path.
spec fn cycle_view(o: Option<Vec<String>>) -> Option<Seq<Seq<char>>> {
    match o {
        Some(v) => Some(texts(v@)),
        None => None,
    }
}

fn visit_node(
    map: &Vec<(String, Vec<String>)>,
    key: &str,
    done: &mut Vec<String>,
    path: &Vec<String>,
) -> (r: Option<Vec<String>>)
    ensures
        (texts(final(done)@), cycle_view(r)) == visit(
            deps_models(map@),
            key@,
            texts(old(done)@),
            texts(path@),
        ),
    decreases absent(deps_models(map@), texts(path@)),
{
    let ghost m = deps_models(map@);
    let at: usize = holds(path, key);
    if at < path.len() {
        let mut out: Vec<String> = Vec::new();
        let mut i: usize = at;
        while i < path.len()
            invariant
                at <= i <= path@.len(),
                out@.len() == i - at,
                forall|j: int| 0 <= j < out@.len() ==> (#[trigger] out@[j])@ == path@[at + j]@,
            decreases path@.len() - i,
        {
            out.push(path[i].clone());
            i += 1;
        }
        out.push(key.to_owned());
        proof {
            assert(texts(out@) =~= texts(path@).skip(at as int).push(key@));
        }
        return Some(out);
    }
    let seen: usize = holds(done, key);
    if seen < done.len() {
        return None;
    }
    let place: usize = deps_at(map, key);
    if place < map.len() {
        let mut longer = crate::shared::flatten::copy_texts(path);
        longer.push(key.to_owned());
        proof {
            assert(texts(longer@) =~= texts(path@).push(key@));
            lemma_absent_less(m, texts(path@), key@, m.len() as int);
        }
        let deps = &map[place].1;
        let ghost ds = texts(deps@);
        let ghost start = texts(done@);
        let mut i: usize = 0;
        while i < deps.len()
            invariant
                m == deps_models(map@),
                ds == texts(deps@),
                deps_of(m, key@) == Some(ds),
                start == texts(old(done)@),
                !start.contains(key@),
                !texts(path@).contains(key@),
                texts(longer@) == texts(path@).push(key@),
                i <= deps@.len(),
                absent(m, texts(longer@)) < absent(m, texts(path@)),
                visit_deps(m, ds, 0, start, texts(longer@)) == visit_deps(
                    m,
                    ds,
                    i as int,
                    texts(done@),
                    texts(longer@),
                ),
            ensures
                visit_deps(m, ds, 0, start, texts(longer@)) == (
                    texts(done@),
                    None::<Seq<Seq<char>>>,
                ),
            decreases deps@.len() - i,
        {
            assert(ds[i as int] == deps@[i as int]@);
            let known: usize = deps_at(map, deps[i].as_str());
            if known < map.len() {
                let found = visit_node(map, deps[i].as_str(), done, &longer);
                if found.is_some() {
                    return found;
                }
            }
            i += 1;
        }
    }
    let ghost before = texts(done@);
    done.push(key.to_owned());
    proof {
        assert(texts(done@) =~= before.push(key@));
    }
    None
}

/// Refuses a group whose variables refer to each other in a cycle.
pub fn assert_no_define_vars_cycles(dep_map: &Vec<(String, Vec<String>)>) -> (r: Result<
    (),
    StylexError,
>)
    ensures
        fails_as(r, cycle_error(deps_models(dep_map@))),
{
    let ghost m = deps_models(dep_map@);
    let mut done: Vec<String> = Vec::new();
    let path: Vec<String> = Vec::new();
    proof {
        assert(texts(done@) =~= Seq::<Seq<char>>::empty());
        assert(texts(path@) =~= Seq::<Seq<char>>::empty());
    }
    let mut i: usize = 0;
    while i < dep_map.len()
        invariant
            m == deps_models(dep_map@),
            texts(path@) == Seq::<Seq<char>>::empty(),
            i <= dep_map@.len(),
            visit_from(m, 0, Seq::empty()) == visit_from(m, i as int, texts(done@)),
        decreases dep_map@.len() - i,
    {
        assert(m[i as int].0 == dep_map@[i as int].0@);
        if let Some(cycle) = visit_node(dep_map, dep_map[i].0.as_str(), &mut done, &path) {
            return Err(
                StylexError::cyclic_define_vars_reference(join(&cycle, " -> ").as_str()),
            );
        }
        i += 1;
    }
    Ok(())
}

/// Whether a variable refers to another one of its group.
pub open spec fn refers(map: DepsModel, a: Seq<char>, b: Seq<char>) -> bool {
    deps_of(map, a) is Some && deps_of(map, a)->0.contains(b) && deps_of(map, b) is Some
}

/// Whether each variable on a path refers to the next.
pub open spec fn linked(map: DepsModel, path: Seq<Seq<char>>) -> bool {
    forall|i: int| 0 <= i < path.len() - 1 ==> refers(map, #[trigger] path[i], path[i + 1])
}

/// Whether a path leads from a variable back to itself.
pub open spec fn is_cycle(map: DepsModel, path: Seq<Seq<char>>) -> bool {
    path.len() >= 2 && path[0] == path.last() && linked(map, path)
}

proof fn lemma_visit_cycle(
    map: DepsModel,
    key: Seq<char>,
    done: Seq<Seq<char>>,
    path: Seq<Seq<char>>,
)
    requires
        linked(map, path),
        path.len() > 0 ==> refers(map, path.last(), key),
    ensures
        visit(map, key, done, path).1 is Some ==> is_cycle(map, visit(map, key, done, path).1->0),
    decreases absent(map, path), 0int, 0int,
{
    if path.contains(key) {
        lemma_find_key(path, key, 0);
        let a = find_key(path, key, 0);
        assert(a < path.len()) by {
            let j = choose|j: int| 0 <= j < path.len() && path[j] == key;
            assert(path[j] == key);
        }
        let p = path.skip(a).push(key);
        assert forall|i: int| 0 <= i < p.len() - 1 implies refers(map, #[trigger] p[i], p[i + 1]) by {
            if i < p.len() - 2 {
                assert(p[i] == path[a + i]);
                assert(p[i + 1] == path[a + i + 1]);
                assert(refers(map, path[a + i], path[(a + i) + 1]));
            } else {
                assert(p[i] == path.last());
            }
        }
    } else if !done.contains(key) && deps_of(map, key) is Some {
        lemma_absent_less(map, path, key, map.len() as int);
        let longer = path.push(key);
        assert forall|i: int| 0 <= i < longer.len() - 1 implies refers(
            map,
            #[trigger] longer[i],
            longer[i + 1],
        ) by {
            if i < path.len() - 1 {
                assert(refers(map, path[i], path[i + 1]));
            } else {
                assert(longer[i] == path.last());
            }
        }
        lemma_deps_cycle(map, deps_of(map, key)->0, 0, done, longer);
    }
}

proof fn lemma_deps_cycle(
    map: DepsModel,
    deps: Seq<Seq<char>>,
    i: int,
    done: Seq<Seq<char>>,
    path: Seq<Seq<char>>,
)
    requires
        0 <= i,
        linked(map, path),
        path.len() > 0,
        deps_of(map, path.last()) == Some(deps),
    ensures
        visit_deps(map, deps, i, done, path).1 is Some ==> is_cycle(
            map,
            visit_deps(map, deps, i, done, path).1->0,
        ),
    decreases absent(map, path), 1int, deps.len() - i,
{
    if i < deps.len() {
        if deps_of(map, deps[i]) is None {
            lemma_deps_cycle(map, deps, i + 1, done, path);
        } else {
            assert(refers(map, path.last(), deps[i]));
            lemma_visit_cycle(map, deps[i], done, path);
            let (after, cycle) = visit(map, deps[i], done, path);
            if cycle is None {
                lemma_deps_cycle(map, deps, i + 1, after, path);
            }
        }
    }
}

proof fn lemma_from_cycle(map: DepsModel, i: int, done: Seq<Seq<char>>)
    requires
        0 <= i,
    ensures
        visit_from(map, i, done).1 is Some ==> is_cycle(map, visit_from(map, i, done).1->0),
    decreases map.len() - i,
{
    if i < map.len() {
        lemma_visit_cycle(map, map[i].0, done, Seq::empty());
        let (after, cycle) = visit(map, map[i].0, done, Seq::empty());
        if cycle is None {
            lemma_from_cycle(map, i + 1, after);
        }
    }
}

/// Whether all that a variable in the sequence refers to stands before it.
pub open spec fn settled(map: DepsModel, done: Seq<Seq<char>>) -> bool {
    forall|i: int, b: Seq<char>|
        0 <= i < done.len() && #[trigger] refers(map, done[i], b) ==> exists|j: int|
            0 <= j < i && #[trigger] done[j] == b
}

/// Whether `b` starts with `a`.
pub open spec fn extends(a: Seq<Seq<char>>, b: Seq<Seq<char>>) -> bool {
    a.len() <= b.len() && forall|i: int| 0 <= i < a.len() ==> #[trigger] b[i] == a[i]
}

proof fn lemma_extends_contains(a: Seq<Seq<char>>, b: Seq<Seq<char>>, x: Seq<char>)
    requires
        extends(a, b),
        a.contains(x),
    ensures
        b.contains(x),
{
    let i = choose|i: int| 0 <= i < a.len() && a[i] == x;
    assert(b[i] == x);
}

proof fn lemma_visit_settled(
    map: DepsModel,
    key: Seq<char>,
    done: Seq<Seq<char>>,
    path: Seq<Seq<char>>,
)
    requires
        settled(map, done),
    ensures
        visit(map, key, done, path).1 is None ==> {
            &&& settled(map, visit(map, key, done, path).0)
            &&& extends(done, visit(map, key, done, path).0)
            &&& visit(map, key, done, path).0.contains(key)
        },
    decreases absent(map, path), 0int, 0int,
{
    if !path.contains(key) && !done.contains(key) {
        match deps_of(map, key) {
            None => {
                let now = done.push(key);
                assert(now[done.len() as int] == key);
                assert forall|i: int, b: Seq<char>|
                    0 <= i < now.len() && #[trigger] refers(map, now[i], b) implies exists|j: int|
                    0 <= j < i && #[trigger] now[j] == b by {
                    assert(i < done.len());
                    assert(refers(map, done[i], b));
                    let j = choose|j: int| 0 <= j < i && #[trigger] done[j] == b;
                    assert(now[j] == b);
                }
            },
            Some(deps) => {
                lemma_absent_less(map, path, key, map.len() as int);
                lemma_deps_settled(map, deps, 0, done, path.push(key));
                let (after, cycle) = visit_deps(map, deps, 0, done, path.push(key));
                if cycle is None {
                    let now = after.push(key);
                    assert(now[after.len() as int] == key);
                    assert forall|i: int, b: Seq<char>|
                        0 <= i < now.len() && #[trigger] refers(map, now[i], b) implies exists|
                        j: int,
                    | 0 <= j < i && #[trigger] now[j] == b by {
                        if i < after.len() {
                            assert(refers(map, after[i], b));
                            let j = choose|j: int| 0 <= j < i && #[trigger] after[j] == b;
                            assert(now[j] == b);
                        } else {
                            let d = choose|d: int| 0 <= d < deps.len() && deps[d] == b;
                            assert(after.contains(deps[d]));
                            let j = choose|j: int| 0 <= j < after.len() && after[j] == b;
                            assert(now[j] == b);
                        }
                    }
                }
            },
        }
    }
}

proof fn lemma_deps_settled(
    map: DepsModel,
    deps: Seq<Seq<char>>,
    i: int,
    done: Seq<Seq<char>>,
    path: Seq<Seq<char>>,
)
    requires
        0 <= i,
        settled(map, done),
    ensures
        visit_deps(map, deps, i, done, path).1 is None ==> {
            &&& settled(map, visit_deps(map, deps, i, done, path).0)
            &&& extends(done, visit_deps(map, deps, i, done, path).0)
            &&& forall|d: int|
                i <= d < deps.len() && deps_of(map, #[trigger] deps[d]) is Some ==> visit_deps(
                    map,
                    deps,
                    i,
                    done,
                    path,
                ).0.contains(deps[d])
        },
    decreases absent(map, path), 1int, deps.len() - i,
{
    if i < deps.len() {
        if deps_of(map, deps[i]) is None {
            lemma_deps_settled(map, deps, i + 1, done, path);
        } else {
            lemma_visit_settled(map, deps[i], done, path);
            let (after, cycle) = visit(map, deps[i], done, path);
            if cycle is None {
                lemma_deps_settled(map, deps, i + 1, after, path);
                let end = visit_deps(map, deps, i + 1, after, path);
                if end.1 is None {
                    lemma_extends_contains(after, end.0, deps[i]);
                }
            }
        }
    }
}

proof fn lemma_from_settled(map: DepsModel, i: int, done: Seq<Seq<char>>)
    requires
        0 <= i,
        settled(map, done),
    ensures
        visit_from(map, i, done).1 is None ==> {
            &&& settled(map, visit_from(map, i, done).0)
            &&& extends(done, visit_from(map, i, done).0)
            &&& forall|d: int|
                i <= d < map.len() ==> visit_from(map, i, done).0.contains((#[trigger] map[d]).0)
        },
    decreases map.len() - i,
{
    if i < map.len() {
        lemma_visit_settled(map, map[i].0, done, Seq::empty());
        let (after, cycle) = visit(map, map[i].0, done, Seq::empty());
        if cycle is None {
            lemma_from_settled(map, i + 1, after);
            let end = visit_from(map, i + 1, after);
            if end.1 is None {
                lemma_extends_contains(after, end.0, map[i].0);
            }
        }
    }
}

proof fn lemma_entry(map: DepsModel, key: Seq<char>, k: int) -> (i: int)
    requires
        0 <= k <= map.len(),
        deps_upto(map, key, k) is Some,
    ensures
        0 <= i < map.len() && map[i].0 == key,
    decreases k,
{
    if map[k - 1].0 == key {
        k - 1
    } else {
        lemma_entry(map, key, k - 1)
    }
}

proof fn lemma_down(map: DepsModel, done: Seq<Seq<char>>, path: Seq<Seq<char>>, t: int, at: int) -> (j:
    int)
    requires
        settled(map, done),
        linked(map, path),
        0 <= t < path.len(),
        0 <= at < done.len(),
        done[at] == path[0],
    ensures
        0 <= j <= at - t,
        done[j] == path[t],
    decreases t,
{
    if t == 0 {
        at
    } else {
        let i = lemma_down(map, done, path, t - 1, at);
        assert(refers(map, path[t - 1], path[(t - 1) + 1]));
        assert(refers(map, done[i], path[t]));
        choose|j: int| 0 <= j < i && #[trigger] done[j] == path[t]
    }
}

/// A cycle is reported exactly where the variables of a group hold one, and what is
/// reported is a cycle.
pub proof fn cycles_are_found(map: DepsModel)
    ensures
        first_cycle(map) is Some ==> is_cycle(map, first_cycle(map)->0),
        first_cycle(map) is None ==> forall|path: Seq<Seq<char>>| !is_cycle(map, path),
{
    lemma_from_cycle(map, 0, Seq::empty());
    if first_cycle(map) is None {
        lemma_from_settled(map, 0, Seq::empty());
        let done = visit_from(map, 0, Seq::empty()).0;
        assert forall|path: Seq<Seq<char>>| !is_cycle(map, path) by {
            if is_cycle(map, path) {
                assert(refers(map, path[0], path[0int + 1]));
                let e = lemma_entry(map, path[0], map.len() as int);
                assert(done.contains(map[e].0));
                let some = choose|i: int| 0 <= i < done.len() && done[i] == path[0];
                lemma_find_key(done, path[0], 0);
                let at = find_key(done, path[0], 0);
                assert(at < done.len()) by {
                    assert(done[some] == path[0]);
                }
                let j = lemma_down(map, done, path, path.len() - 1, at);
                assert(done[j] == path[0]);
                assert(j < at);
            }
        }
    }
}

} // verus!
