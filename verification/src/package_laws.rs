//! What a memory of the file system says about packages: what it once said, until it
//! forgets, and nothing that the file system did not say.

use crate::module_resolution::{
    dir_upto, learned, manifest_name, nearest, no_facts, package_above, AnswerModel, FactsModel,
    ManifestModel, QueryModel,
};
use crate::paths::{names, within};
use crate::resolution_laws::{grown, kept, learning_keeps_the_facts, lemma_package_above, settled};
use crate::value::{find_key, keys_of, lemma_find_key, value_of};
use vstd::prelude::*;

verus! {

/// More facts do not change the package that was found above a file, nor that none was
/// found, and a question is asked only where its answer is not known.
pub proof fn found_packages_stay(
    f: FactsModel,
    g: FactsModel,
    path: Seq<char>,
    stop: Option<Seq<char>>,
)
    requires
        grown(f, g),
    ensures
        settled(f, nearest(f, path, stop), nearest(g, path, stop)),
{
    lemma_package_above(f, g, path, stop, names(path).len() - 1);
}

/// The facts after answers were learned one after the other.
pub open spec fn all_learned(f: FactsModel, steps: Seq<(QueryModel, AnswerModel)>) -> FactsModel
    decreases steps.len(),
{
    if steps.len() == 0 {
        f
    } else {
        let (q, a) = steps.last();
        learned(all_learned(f, steps.drop_last()), q, a)
    }
}

proof fn lemma_all_kept(f: FactsModel, steps: Seq<(QueryModel, AnswerModel)>)
    ensures
        grown(f, all_learned(f, steps)),
    decreases steps.len(),
{
    if steps.len() > 0 {
        let (q, a) = steps.last();
        lemma_all_kept(f, steps.drop_last());
        let g = all_learned(f, steps.drop_last());
        learning_keeps_the_facts(g, q, a);
        let h = learned(g, q, a);
        lemma_kept(f.files, g.files, h.files);
        lemma_kept(f.exists, g.exists, h.exists);
        lemma_kept(f.dirs, g.dirs, h.dirs);
        lemma_kept(f.manifests, g.manifests, h.manifests);
        lemma_kept(f.real_paths, g.real_paths, h.real_paths);
    }
}

proof fn lemma_kept<T>(
    a: Seq<(Seq<char>, T)>,
    b: Seq<(Seq<char>, T)>,
    c: Seq<(Seq<char>, T)>,
)
    requires
        kept(a, b),
        kept(b, c),
    ensures
        kept(a, c),
{
    assert forall|p: Seq<char>| (#[trigger] value_of(a, p)) is Some implies value_of(c, p)
        == value_of(a, p) by {
        assert(value_of(b, p) == value_of(a, p));
    }
}

/// A memory that forgets nothing goes on to give the package that it gave for a file,
/// whatever it learns of the file system afterwards.
pub proof fn remembered_packages_stay(
    f: FactsModel,
    steps: Seq<(QueryModel, AnswerModel)>,
    path: Seq<char>,
    stop: Option<Seq<char>>,
)
    requires
        nearest(f, path, stop) is Ok,
    ensures
        nearest(all_learned(f, steps), path, stop) == nearest(f, path, stop),
{
    lemma_all_kept(f, steps);
    found_packages_stay(f, all_learned(f, steps), path, stop);
}

/// The nearest package in the directory of the first `k` names of a path or above it, where
/// `disk` gives the manifest of every directory.
pub open spec fn package_on(
    disk: spec_fn(Seq<char>) -> ManifestModel,
    path: Seq<char>,
    stop: Option<Seq<char>>,
    k: int,
) -> Option<(Seq<char>, Seq<char>)>
    decreases k + 1,
{
    if k < 0 {
        None
    } else {
        let dir = dir_upto(path, k);
        if stop is Some && !within(dir, stop->0) {
            None
        } else {
            match disk(dir) {
                ManifestModel::Parsed(v) => Some((manifest_name(v), dir)),
                ManifestModel::Missing => package_on(disk, path, stop, k - 1),
                _ => None,
            }
        }
    }
}

/// The nearest package above a file on a disk.
pub open spec fn nearest_on(
    disk: spec_fn(Seq<char>) -> ManifestModel,
    path: Seq<char>,
    stop: Option<Seq<char>>,
) -> Option<(Seq<char>, Seq<char>)> {
    package_on(disk, path, stop, names(path).len() - 1)
}

/// Whether every manifest that is known is the one on the disk.
pub open spec fn true_of(f: FactsModel, disk: spec_fn(Seq<char>) -> ManifestModel) -> bool {
    forall|p: Seq<char>|
        (#[trigger] value_of(f.manifests, p)) is Some ==> value_of(f.manifests, p)->0 == disk(p)
}

/// Whether an answer about a manifest is that of the disk.
pub open spec fn answered_by(
    q: QueryModel,
    a: AnswerModel,
    disk: spec_fn(Seq<char>) -> ManifestModel,
) -> bool {
    match (q, a) {
        (QueryModel::Manifest(p), AnswerModel::Manifest(m)) => m == disk(p),
        _ => true,
    }
}

/// A memory that has forgotten everything says nothing wrong about any disk, and goes on
/// to say nothing wrong as long as it learns the answers of the disk.
pub proof fn answers_of_a_disk_are_true(
    f: FactsModel,
    q: QueryModel,
    a: AnswerModel,
    disk: spec_fn(Seq<char>) -> ManifestModel,
)
    requires
        answered_by(q, a, disk),
    ensures
        true_of(no_facts(), disk),
        true_of(f, disk) ==> true_of(learned(f, q, a), disk),
{
    let g = learned(f, q, a);
    if true_of(f, disk) {
        assert forall|p: Seq<char>| (#[trigger] value_of(g.manifests, p)) is Some implies value_of(
            g.manifests,
            p,
        )->0 == disk(p) by {
            lemma_find_key(keys_of(f.manifests), p, 0);
            lemma_find_key(keys_of(g.manifests), p, 0);
            let i = find_key(keys_of(f.manifests), p, 0);
            let j = find_key(keys_of(g.manifests), p, 0);
            if j < f.manifests.len() {
                assert(keys_of(f.manifests)[j] == keys_of(g.manifests)[j]);
                assert(i <= j);
                assert(keys_of(g.manifests)[i] == keys_of(f.manifests)[i]);
                assert(i == j);
                assert(value_of(f.manifests, p) is Some);
            } else if g.manifests != f.manifests {
                assert(keys_of(g.manifests)[j] == p);
            }
        }
    }
}

proof fn lemma_package_on(
    f: FactsModel,
    disk: spec_fn(Seq<char>) -> ManifestModel,
    path: Seq<char>,
    stop: Option<Seq<char>>,
    k: int,
)
    requires
        true_of(f, disk),
        package_above(f, path, stop, k) is Ok,
    ensures
        package_above(f, path, stop, k)->Ok_0 == package_on(disk, path, stop, k),
    decreases k + 1,
{
    if k >= 0 {
        let dir = dir_upto(path, k);
        if !(stop is Some && !within(dir, stop->0)) {
            assert(value_of(f.manifests, dir) is Some);
            if disk(dir) is Missing {
                lemma_package_on(f, disk, path, stop, k - 1);
            }
        }
    }
}

/// A memory that says nothing wrong about a disk gives the package that is nearest on the
/// disk.
pub proof fn packages_are_those_of_the_disk(
    f: FactsModel,
    disk: spec_fn(Seq<char>) -> ManifestModel,
    path: Seq<char>,
    stop: Option<Seq<char>>,
)
    requires
        true_of(f, disk),
        nearest(f, path, stop) is Ok,
    ensures
        nearest(f, path, stop)->Ok_0 == nearest_on(disk, path, stop),
{
    lemma_package_on(f, disk, path, stop, names(path).len() - 1);
}

} // verus!
