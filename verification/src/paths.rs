//! Paths with slashes between their names, folded by their text alone.

use crate::shared::dev_naming::{way, way_between};
use crate::text::{
    chars_of, concat2, join, join_texts, split, split_at_char, str_eq, texts,
};
use crate::value::opt_text;
use vstd::prelude::*;

verus! {

/// Whether a path starts at the root.
pub open spec fn rooted(path: Seq<char>) -> bool {
    path.len() > 0 && path[0] == '/'
}

/// Those of the first `k` parts that are names: empty parts and single dots are not,
/// but for a dot that a path without a root starts with.
pub open spec fn names_upto(parts: Seq<Seq<char>>, root: bool, k: int) -> Seq<Seq<char>>
    decreases k,
{
    if k <= 0 {
        Seq::empty()
    } else if parts[k - 1].len() == 0 || (parts[k - 1] == "."@ && (root || k > 1)) {
        names_upto(parts, root, k - 1)
    } else {
        names_upto(parts, root, k - 1).push(parts[k - 1])
    }
}

/// The names of a path.
pub open spec fn names(path: Seq<char>) -> Seq<Seq<char>> {
    let parts = split_at_char(path, '/');
    names_upto(parts, rooted(path), parts.len() as int)
}

/// The text of a path with the given names.
pub open spec fn path_text(root: bool, v: Seq<Seq<char>>) -> Seq<char> {
    if root {
        "/"@ + join_texts(v, "/"@)
    } else {
        join_texts(v, "/"@)
    }
}

/// The path of the directory that a path is in, if it is in one.
pub open spec fn parent_of(path: Seq<char>) -> Option<Seq<char>> {
    if names(path).len() == 0 {
        None
    } else {
        Some(path_text(rooted(path), names(path).drop_last()))
    }
}

/// Whether a name stands for a file or a directory itself.
pub open spec fn proper(name: Seq<char>) -> bool {
    name != "."@ && name != ".."@
}

/// The last name of a path, if it stands for a file or a directory itself.
pub open spec fn last_name(path: Seq<char>) -> Option<Seq<char>> {
    if names(path).len() > 0 && proper(names(path).last()) {
        Some(names(path).last())
    } else {
        None
    }
}

/// A path with one more name.
pub open spec fn joined(path: Seq<char>, name: Seq<char>) -> Seq<char> {
    path_text(rooted(path), names(path).push(name))
}

/// Whether a path leads to a place inside another or to that place.
pub open spec fn within(path: Seq<char>, base: Seq<char>) -> bool {
    rooted(path) == rooted(base) && names(base).is_prefix_of(names(path))
}

/// Folded names with one more: a single dot is left out, and a double dot takes the name
/// before it away. Where there is none, it stays at the root, or leads out of the place
/// where a path without a root starts.
pub open spec fn fold_step(done: Seq<Seq<char>>, root: bool, name: Seq<char>) -> Seq<Seq<char>> {
    if name == "."@ {
        done
    } else if name == ".."@ {
        if done.len() > 0 && done.last() != ".."@ {
            done.drop_last()
        } else if root {
            done
        } else {
            done.push(name)
        }
    } else {
        done.push(name)
    }
}

/// The first `k` names with single dots left out and double dots folded.
pub open spec fn folded_upto(v: Seq<Seq<char>>, root: bool, k: int) -> Seq<Seq<char>>
    decreases k,
{
    if k <= 0 {
        Seq::empty()
    } else {
        fold_step(folded_upto(v, root, k - 1), root, v[k - 1])
    }
}

/// The names of a path with dots folded.
pub open spec fn folded(path: Seq<char>) -> Seq<Seq<char>> {
    folded_upto(names(path), rooted(path), names(path).len() as int)
}

/// A path with dots folded.
pub open spec fn normal_path(path: Seq<char>) -> Seq<char> {
    path_text(rooted(path), folded(path))
}

/// Those of the first `k` names that are no double dots.
pub open spec fn downward_upto(v: Seq<Seq<char>>, k: int) -> Seq<Seq<char>>
    decreases k,
{
    if k <= 0 {
        Seq::empty()
    } else if v[k - 1] == ".."@ {
        downward_upto(v, k - 1)
    } else {
        downward_upto(v, k - 1).push(v[k - 1])
    }
}

/// The names of a folded path below the place where it starts.
pub open spec fn downward(path: Seq<char>) -> Seq<Seq<char>> {
    downward_upto(folded(path), folded(path).len() as int)
}

/// The path that leads from one place to another.
pub open spec fn relative_path(from: Seq<char>, to: Seq<char>) -> Seq<char> {
    join_texts(way(downward(from), downward(to)), "/"@)
}

/// Whether a path starts at the root.
pub fn is_rooted(path: &str) -> (r: bool)
    ensures
        r == rooted(path@),
{
    let s = chars_of(path);
    s.len() > 0 && s[0] == '/'
}

/// Gives the names of a path.
pub fn path_names(path: &str) -> (r: Vec<String>)
    ensures
        texts(r@) == names(path@),
{
    let root = is_rooted(path);
    let parts = split(path, '/');
    let ghost all = texts(parts@);
    let mut out: Vec<String> = Vec::new();
    proof {
        assert(texts(out@) =~= Seq::<Seq<char>>::empty());
    }
    let mut i: usize = 0;
    while i < parts.len()
        invariant
            all == texts(parts@),
            i <= parts@.len(),
            texts(out@) == names_upto(all, root, i as int),
        decreases parts@.len() - i,
    {
        assert(all[i as int] == parts@[i as int]@);
        let n: usize = chars_of(parts[i].as_str()).len();
        if !(n == 0 || (str_eq(parts[i].as_str(), ".") && (root || i > 0))) {
            let ghost before = texts(out@);
            out.push(parts[i].clone());
            proof {
                assert(texts(out@) =~= before.push(all[i as int]));
            }
        }
        i += 1;
    }
    proof {
        assert(all.len() == parts@.len());
    }
    out
}

/// Gives the text of a path with the given names.
pub fn make_path(root: bool, v: &Vec<String>) -> (r: String)
    ensures
        r@ == path_text(root, texts(v@)),
{
    let text = join(v, "/");
    if root {
        concat2("/", text.as_str())
    } else {
        text
    }
}

/// Gives the path of the directory that a path is in, if it is in one.
pub fn path_parent(path: &str) -> (r: Option<String>)
    ensures
        opt_text(r) == parent_of(path@),
{
    let mut v = path_names(path);
    if v.len() == 0 {
        return None;
    }
    let ghost before = texts(v@);
    let gone = v.pop();
    proof {
        assert(texts(v@) =~= before.drop_last());
    }
    Some(make_path(is_rooted(path), &v))
}

/// Gives the last name of a path, if it stands for a file or a directory itself.
pub fn path_last_name(path: &str) -> (r: Option<String>)
    ensures
        opt_text(r) == last_name(path@),
{
    let v = path_names(path);
    proof {
        assert(texts(v@).len() == v@.len());
    }
    if v.len() == 0 {
        return None;
    }
    let last = v[v.len() - 1].as_str();
    assert(texts(v@)[v@.len() - 1] == last@);
    if str_eq(last, ".") || str_eq(last, "..") {
        None
    } else {
        Some(last.to_owned())
    }
}

/// Gives a path with one more name.
pub fn path_join(path: &str, name: &str) -> (r: String)
    ensures
        r@ == joined(path@, name@),
{
    let mut v = path_names(path);
    let ghost before = texts(v@);
    v.push(name.to_owned());
    proof {
        assert(texts(v@) =~= before.push(name@));
    }
    make_path(is_rooted(path), &v)
}

/// Whether a path leads to a place inside another or to that place.
pub fn path_within(path: &str, base: &str) -> (r: bool)
    ensures
        r == within(path@, base@),
{
    let a = path_names(path);
    let b = path_names(base);
    proof {
        assert(texts(a@).len() == a@.len());
        assert(texts(b@).len() == b@.len());
    }
    if is_rooted(path) != is_rooted(base) || b.len() > a.len() {
        return false;
    }
    let mut i: usize = 0;
    while i < b.len()
        invariant
            i <= b@.len(),
            b@.len() <= a@.len(),
            texts(a@) == names(path@),
            texts(b@) == names(base@),
            forall|j: int| 0 <= j < i ==> texts(a@)[j] == texts(b@)[j],
        decreases b@.len() - i,
    {
        assert(texts(a@)[i as int] == a@[i as int]@);
        assert(texts(b@)[i as int] == b@[i as int]@);
        if !str_eq(a[i].as_str(), b[i].as_str()) {
            return false;
        }
        i += 1;
    }
    true
}

/// Gives the names of a path with dots folded.
pub fn fold_names(path: &str) -> (r: Vec<String>)
    ensures
        texts(r@) == folded(path@),
{
    let root = is_rooted(path);
    let v = path_names(path);
    let ghost all = texts(v@);
    let mut out: Vec<String> = Vec::new();
    proof {
        assert(texts(out@) =~= Seq::<Seq<char>>::empty());
    }
    let mut i: usize = 0;
    while i < v.len()
        invariant
            all == texts(v@),
            i <= v@.len(),
            texts(out@) == folded_upto(all, root, i as int),
        decreases v@.len() - i,
    {
        assert(all[i as int] == v@[i as int]@);
        let ghost before = texts(out@);
        proof {
            assert(before.len() == out@.len());
        }
        let up = str_eq(v[i].as_str(), "..");
        let falls = if out.len() > 0 {
            assert(before.last() == out@.last()@);
            !str_eq(out[out.len() - 1].as_str(), "..")
        } else {
            false
        };
        if up && falls {
            let gone = out.pop();
            proof {
                reveal_strlit(".");
                reveal_strlit("..");
                assert(texts(out@) =~= before.drop_last());
            }
        } else if !str_eq(v[i].as_str(), ".") && !(up && root) {
            out.push(v[i].clone());
            proof {
                assert(texts(out@) =~= before.push(all[i as int]));
            }
        }
        i += 1;
    }
    proof {
        assert(all.len() == v@.len());
    }
    out
}

/// Folds the dots of a path.
pub fn normalize_path(path: &str) -> (r: String)
    ensures
        r@ == normal_path(path@),
{
    make_path(is_rooted(path), &fold_names(path))
}

fn downward_names(path: &str) -> (r: Vec<String>)
    ensures
        texts(r@) == downward(path@),
{
    let v = fold_names(path);
    let ghost all = texts(v@);
    let mut out: Vec<String> = Vec::new();
    proof {
        assert(texts(out@) =~= Seq::<Seq<char>>::empty());
    }
    let mut i: usize = 0;
    while i < v.len()
        invariant
            all == texts(v@),
            i <= v@.len(),
            texts(out@) == downward_upto(all, i as int),
        decreases v@.len() - i,
    {
        assert(all[i as int] == v@[i as int]@);
        if !str_eq(v[i].as_str(), "..") {
            let ghost before = texts(out@);
            out.push(v[i].clone());
            proof {
                assert(texts(out@) =~= before.push(all[i as int]));
            }
        }
        i += 1;
    }
    proof {
        assert(all.len() == v@.len());
    }
    out
}

/// Gives the path that leads from one place to another.
pub fn path_relative(from: &str, to: &str) -> (r: String)
    ensures
        r@ == relative_path(from@, to@),
{
    let parts = way_between(&downward_names(from), &downward_names(to));
    join(&parts, "/")
}

pub(crate) proof fn lemma_folded(v: Seq<Seq<char>>, root: bool, k: int)
    requires
        0 <= k <= v.len(),
    ensures
        no_dots(folded_upto(v, root, k)),
        root ==> no_double_dots(folded_upto(v, root, k)),
        leads_out_first(folded_upto(v, root, k)),
    decreases k,
{
    if k > 0 {
        lemma_folded(v, root, k - 1);
        let done = folded_upto(v, root, k - 1);
        let now = folded_upto(v, root, k);
        reveal_strlit(".");
        reveal_strlit("..");
        assert forall|i: int| 0 <= i < now.len() implies #[trigger] now[i] != "."@ && (root
            ==> now[i] != ".."@) by {
            if i < done.len() {
                assert(now[i] == done[i]);
            }
        }
        assert forall|i: int, j: int| 0 <= i < j < now.len() && #[trigger] now[j]
            == ".."@ implies #[trigger] now[i] == ".."@ by {
            assert(now[i] == done[i]);
            if j < done.len() {
                assert(now[j] == done[j]);
            } else {
                assert(done.last() == ".."@);
                assert(done[done.len() - 1] == ".."@);
            }
        }
    }
}

/// Whether no name is a single dot.
pub open spec fn no_dots(v: Seq<Seq<char>>) -> bool {
    forall|i: int| 0 <= i < v.len() ==> #[trigger] v[i] != "."@
}

/// Whether no name is a double dot.
pub open spec fn no_double_dots(v: Seq<Seq<char>>) -> bool {
    forall|i: int| 0 <= i < v.len() ==> #[trigger] v[i] != ".."@
}

/// Whether double dots stand only at the front.
pub open spec fn leads_out_first(v: Seq<Seq<char>>) -> bool {
    forall|i: int, j: int|
        0 <= i < j < v.len() && #[trigger] v[j] == ".."@ ==> #[trigger] v[i] == ".."@
}

/// A folded path holds no single dot. From the root it holds no double dot either; without
/// a root double dots stand only at its front.
pub proof fn folding_leaves_no_dots(path: Seq<char>)
    ensures
        no_dots(folded(path)),
        rooted(path) ==> no_double_dots(folded(path)),
        leads_out_first(folded(path)),
{
    lemma_folded(names(path), rooted(path), names(path).len() as int);
}

} // verus!
