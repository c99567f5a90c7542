//! Where the targets in the manifests of packages lead.

use crate::json::JsonModel;
use crate::module_resolution::{
    canonical_name, condition_from, dotted_upto, export_items, export_target, file_named,
    has_index_key, import_target, in_package, module_file, nearest, target_file, value_member,
    without_links, FactsModel, ManifestModel, QueryModel, TargetModel,
};
use crate::path_laws::{
    all_single, lemma_fold_on, lemma_fold_way, lemma_names_in_joined, lemma_names_in_two,
    lemma_names_of_path, lemma_rooted_names, lemma_way_single, names_in, single,
};
use crate::paths::{
    fold_step, folded, folded_upto, names, names_upto, no_dots, no_double_dots, normal_path,
    parent_of, relative_path, rooted, within,
};
use crate::shared::dev_naming::{way, way_leads_there};
use crate::text::{has_prefix, has_suffix, next_char, split_at_char, split_from};
use crate::text_laws::parts_lack_the_separator;
use crate::url_paths::{
    array_like, before_query, escape_at, followed_upto, forbidden_segment, has_forbidden,
    same_but_case, slashed, spells, spells_from, url_joined,
};
use crate::value::{find_key, keys_of, lemma_find_key};
use vstd::prelude::*;

verus! {

/// Whether a text is a way through directories that needs no decoding.
pub open spec fn plain_way(s: Seq<char>) -> bool {
    forall|i: int|
        0 <= i < s.len() ==> #[trigger] s[i] != '%' && s[i] != '\\' && s[i] != '?' && s[i] != '#'
            && s[i] != '*'
}

/// Whether a path from the root is spelled without detours.
pub open spec fn straight(dir: Seq<char>) -> bool {
    rooted(dir) && no_double_dots(names(dir))
}

proof fn lemma_no_next(s: Seq<char>, c: char, from: int)
    requires
        0 <= from <= s.len(),
        forall|i: int| from <= i < s.len() ==> s[i] != c,
    ensures
        next_char(s, c, from) == s.len(),
    decreases s.len() - from,
{
    if from < s.len() {
        lemma_no_next(s, c, from + 1);
    }
}

proof fn lemma_plain(s: Seq<char>)
    requires
        plain_way(s),
    ensures
        before_query(s) == s,
        slashed(s) == s,
{
    lemma_no_next(s, '?', 0);
    lemma_no_next(s, '#', 0);
    assert(s.take(s.len() as int) =~= s);
    assert(slashed(s) =~= s);
}

proof fn lemma_part_chars(s: Seq<char>, c: char, from: int)
    requires
        0 <= from <= s.len(),
        !s.contains('%'),
    ensures
        forall|i: int|
            0 <= i < split_from(s, c, from).len() ==> !(
            #[trigger] split_from(s, c, from)[i]).contains('%'),
    decreases s.len() - from,
{
    let next = next_char(s, c, from);
    let all = split_from(s, c, from);
    if from <= next < s.len() {
        lemma_part_chars(s, c, next + 1);
        let rest = split_from(s, c, next + 1);
        assert forall|i: int| 0 <= i < all.len() implies !(#[trigger] all[i]).contains('%') by {
            if i > 0 {
                assert(all[i] == rest[i - 1]);
            } else {
                let first = s.subrange(from, next);
                if first.contains('%') {
                    let j = choose|j: int| 0 <= j < first.len() && first[j] == '%';
                    assert(s[from + j] == '%');
                }
            }
        }
    } else {
        let first = s.subrange(from, s.len() as int);
        if first.contains('%') {
            let j = choose|j: int| 0 <= j < first.len() && first[j] == '%';
            assert(s[from + j] == '%');
        }
        assert(all[0] == first);
    }
}

proof fn lemma_dot(c: char)
    ensures
        same_but_case(c as u32, '.') == (c == '.'),
{
}

/// Without escapes only a dot spells a dot, and only two dots spell two.
proof fn lemma_spells(s: Seq<char>)
    requires
        !s.contains('%'),
    ensures
        spells(s, "."@) == (s == "."@),
        spells(s, ".."@) == (s == ".."@),
{
    reveal_strlit(".");
    reveal_strlit("..");
    assert forall|i: int| #[trigger] escape_at(s, i) is None by {
        if 0 <= i < s.len() {
            assert(s.contains(s[i]));
        }
    }
    if s.len() > 0 {
        assert(s.contains(s[0]));
    }
    if s.len() > 1 {
        assert(s.contains(s[1]));
    }
    let one = "."@;
    let two = ".."@;
    assert(one.len() == 1 && one[0] == '.' && two.len() == 2 && two[0] == '.' && two[1] == '.');
    assert(escape_at(s, 0) is None && escape_at(s, 1) is None);
    if s.len() > 0 {
        assert(s[0] != '%');
        lemma_dot(s[0]);
    }
    if s.len() > 1 {
        assert(s[1] != '%');
        lemma_dot(s[1]);
    }
    assert(spells_from(s, 1, one, 1) == (s.len() == 1));
    assert(spells_from(s, 0, one, 0) == (s.len() > 0 && s[0] == '.' && spells_from(s, 1, one, 1)));
    assert(spells_from(s, 2, two, 2) == (s.len() == 2));
    assert(spells_from(s, 1, two, 1) == (s.len() > 1 && s[1] == '.' && spells_from(s, 2, two, 2)));
    assert(spells_from(s, 0, two, 0) == (s.len() > 0 && s[0] == '.' && spells_from(s, 1, two, 1)));
    assert(spells(s, "."@) == (s.len() == 1 && s[0] == '.'));
    assert(spells(s, ".."@) == (s.len() == 2 && s[0] == '.' && s[1] == '.'));
    if s.len() == 1 && s[0] == '.' {
        assert(s =~= "."@);
    }
    if s.len() == 2 && s[0] == '.' && s[1] == '.' {
        assert(s =~= ".."@);
    }
}

proof fn lemma_follow(v: Seq<Seq<char>>, parts: Seq<Seq<char>>, k: int)
    requires
        0 <= k <= parts.len(),
        no_dots(v),
        no_double_dots(v),
        forall|i: int| 0 <= i < parts.len() ==> !(#[trigger] parts[i]).contains('%'),
    ensures
        followed_upto(v, parts, k) == folded_upto(
            v + names_upto(parts, true, k),
            true,
            (v + names_upto(parts, true, k)).len() as int,
        ),
        no_double_dots(followed_upto(v, parts, k)),
    decreases k,
{
    reveal_strlit(".");
    reveal_strlit("..");
    if k == 0 {
        lemma_unfolded(v, v.len() as int);
        assert(v + Seq::<Seq<char>>::empty() =~= v);
        assert(v.take(v.len() as int) =~= v);
    } else {
        lemma_follow(v, parts, k - 1);
        let before = v + names_upto(parts, true, k - 1);
        let now = v + names_upto(parts, true, k);
        let s = parts[k - 1];
        lemma_spells(s);
        let done = followed_upto(v, parts, k - 1);
        if s.len() == 0 || s == "."@ {
            assert(now =~= before);
        } else {
            assert(now =~= before.push(s));
            lemma_fold_on(before, seq![s], before.len() as int);
            assert(before + seq![s] =~= now);
            assert(now[before.len() as int] == s);
            assert(folded_upto(now, true, now.len() as int) == fold_step(done, true, s));
            if s == ".."@ && done.len() > 0 {
                assert(done.last() == done[done.len() - 1]);
            }
        }
        let out = followed_upto(v, parts, k);
        assert forall|i: int| 0 <= i < out.len() implies #[trigger] out[i] != ".."@ by {
            if i < done.len() {
                assert(out[i] == done[i]);
            }
        }
    }
}

proof fn lemma_unfolded(v: Seq<Seq<char>>, k: int)
    requires
        0 <= k <= v.len(),
        no_dots(v),
        no_double_dots(v),
    ensures
        folded_upto(v, true, k) == v.take(k),
    decreases k,
{
    if k > 0 {
        lemma_unfolded(v, k - 1);
        assert(v[k - 1] != "."@ && v[k - 1] != ".."@);
        assert(v.take(k) =~= v.take(k - 1).push(v[k - 1]));
    }
}

/// Following a plain way from a directory leads where the two paths together do, with their
/// dots folded.
pub proof fn ways_are_followed(base: Seq<char>, plain: Seq<char>)
    requires
        straight(base),
        plain_way(plain),
    ensures
        url_joined(base, plain) == normal_path(base + "/"@ + plain),
{
    let parts = split_at_char(plain, '/');
    let v = names(base);
    lemma_rooted_names(base);
    assert(no_dots(v)) by {
        assert forall|i: int| 0 <= i < v.len() implies #[trigger] v[i] != "."@ by {
            assert(single(v[i]));
        }
    }
    assert(!plain.contains('%')) by {
        if plain.contains('%') {
            let i = choose|i: int| 0 <= i < plain.len() && plain[i] == '%';
            assert(plain[i] != '%');
        }
    }
    lemma_part_chars(plain, '/', 0);
    lemma_follow(v, parts, parts.len() as int);
    lemma_names_in_two(base, plain);
    let whole = base + "/"@ + plain;
    assert(whole[0] == base[0]);
    assert(names(whole) == v + names_in(plain));
}

/// Whether a way goes down into directories only: no part of it is empty, a dot, two dots or
/// the directory of packages.
pub open spec fn downward_way(s: Seq<char>) -> bool {
    &&& plain_way(s)
    &&& forall|i: int|
        0 <= i < split_at_char(s, '/').len() ==> (#[trigger] split_at_char(s, '/')[i]).len() > 0
            && !forbidden_segment(split_at_char(s, '/')[i])
}

/// A target inside a package is the file of that path in the directory of the package.
pub proof fn targets_are_files_of_the_package(dir: Seq<char>, plain: Seq<char>)
    requires
        straight(dir),
        downward_way(plain),
    ensures
        export_target(dir, JsonModel::Str("./"@ + plain), Seq::empty(), false)
            == TargetModel::Resolved(normal_path(dir + "/"@ + plain)),
        forall|f: FactsModel| #[trigger]
            import_target(f, dir, JsonModel::Str("./"@ + plain), Seq::empty(), false) == Ok::<
                TargetModel,
                QueryModel,
            >(TargetModel::Resolved(normal_path(dir + "/"@ + plain))),
{
    let target = "./"@ + plain;
    reveal_strlit("./");
    assert(target.skip(2) =~= plain);
    assert(target.take(2) =~= "./"@);
    assert(has_prefix(target, "./"@));
    lemma_plain(plain);
    ways_are_followed(dir, plain);
    assert(!has_forbidden(plain));
    let parts = split_at_char(plain, '/');
    let v = names(dir);
    let place = url_joined(dir, plain);
    lemma_rooted_names(dir);
    parts_lack_the_separator(plain, '/');
    lemma_down(v, parts, parts.len() as int);
    let w = v + parts;
    assert(parts.take(parts.len() as int) =~= parts);
    assert(all_single(w)) by {
        assert forall|i: int| 0 <= i < w.len() implies single(#[trigger] w[i]) by {
            if i < v.len() {
                assert(single(v[i]));
            } else {
                let p = parts[i - v.len()];
                assert(w[i] == p);
                assert(p.len() > 0 && !forbidden_segment(p) && !p.contains('/'));
                if p == "."@ {
                    lemma_spells_dot();
                }
            }
        }
    }
    lemma_names_of_path(w);
    assert(no_dots(v)) by {
        assert forall|i: int| 0 <= i < v.len() implies #[trigger] v[i] != "."@ by {
            assert(single(v[i]));
        }
    }
    lemma_unfolded(v, v.len() as int);
    assert(v.take(v.len() as int) =~= v);
    assert(folded(dir) == v);
    lemma_names_of_path(v);
    assert(v =~= w.take(v.len() as int));
    assert(within(place, normal_path(dir)));
}

proof fn lemma_spells_dot()
    ensures
        spells("."@, "."@),
{
    reveal_strlit(".");
    assert(!"."@.contains('%'));
    lemma_spells("."@);
}

proof fn lemma_down(v: Seq<Seq<char>>, parts: Seq<Seq<char>>, k: int)
    requires
        0 <= k <= parts.len(),
        forall|i: int|
            0 <= i < parts.len() ==> (#[trigger] parts[i]).len() > 0 && !forbidden_segment(
                parts[i],
            ),
    ensures
        followed_upto(v, parts, k) == v + parts.take(k),
    decreases k,
{
    if k > 0 {
        lemma_down(v, parts, k - 1);
        let s = parts[k - 1];
        assert(s.len() > 0 && !forbidden_segment(s));
        assert((v + parts.take(k - 1)).push(s) =~= v + parts.take(k));
    } else {
        assert(v + parts.take(0) =~= v);
    }
}

/// Whether a key names a condition that an import meets.
pub open spec fn met(key: Seq<char>) -> bool {
    key == "node"@ || key == "import"@ || key == "default"@
}

/// Whether the first condition of a target that an import meets is the one at `i`.
pub open spec fn first_met(e: Seq<(Seq<char>, JsonModel)>, i: int) -> bool {
    &&& 0 <= i < e.len()
    &&& met(e[i].0)
    &&& forall|j: int| 0 <= j < i ==> !met((#[trigger] e[j]).0)
    &&& forall|j: int| 0 <= j < e.len() ==> !array_like((#[trigger] e[j]).0)
}

proof fn lemma_first_met(e: Seq<(Seq<char>, JsonModel)>, i: int, from: int)
    requires
        first_met(e, i),
        0 <= from <= i,
    ensures
        condition_from(e, from) == i,
    decreases i - from,
{
    if from < i {
        assert(!met(e[from].0));
        lemma_first_met(e, i, from + 1);
    }
}

proof fn lemma_none_met(e: Seq<(Seq<char>, JsonModel)>, from: int)
    requires
        0 <= from <= e.len(),
        forall|j: int| 0 <= j < e.len() ==> !met((#[trigger] e[j]).0),
    ensures
        condition_from(e, from) == e.len(),
    decreases e.len() - from,
{
    if from < e.len() {
        assert(!met(e[from].0));
        lemma_none_met(e, from + 1);
    }
}

/// A target with conditions leads where its first entry leads whose key is `node`, `import` or
/// `default`; where it has none, it leads nowhere.
pub proof fn the_first_condition_decides(
    f: FactsModel,
    dir: Seq<char>,
    e: Seq<(Seq<char>, JsonModel)>,
    i: int,
    matched: Seq<char>,
    pattern: bool,
)
    ensures
        first_met(e, i) ==> export_target(dir, JsonModel::Obj(e), matched, pattern)
            == export_target(dir, e[i].1, matched, pattern),
        first_met(e, i) ==> import_target(f, dir, JsonModel::Obj(e), matched, pattern)
            == import_target(f, dir, e[i].1, matched, pattern),
        (forall|j: int|
            0 <= j < e.len() ==> !met((#[trigger] e[j]).0) && !array_like(e[j].0)) ==> {
            &&& export_target(dir, JsonModel::Obj(e), matched, pattern) == TargetModel::Null
            &&& import_target(f, dir, JsonModel::Obj(e), matched, pattern) == Ok::<
                TargetModel,
                QueryModel,
            >(TargetModel::Null)
        },
{
    if first_met(e, i) {
        lemma_first_met(e, i, 0);
        assert(!has_index_key(e));
    }
    if forall|j: int| 0 <= j < e.len() ==> !met((#[trigger] e[j]).0) && !array_like(e[j].0) {
        lemma_none_met(e, 0);
        assert(!has_index_key(e));
    }
}

proof fn lemma_items(
    dir: Seq<char>,
    items: Seq<JsonModel>,
    from: int,
    i: int,
    matched: Seq<char>,
    pattern: bool,
    invalid: bool,
)
    requires
        0 <= from <= i < items.len(),
        export_target(dir, items[i], matched, pattern) is Resolved,
        forall|j: int|
            0 <= j < i ==> {
                let t = export_target(dir, #[trigger] items[j], matched, pattern);
                t is Null || t is Invalid
            },
    ensures
        export_items(dir, items, from, matched, pattern, invalid) == export_target(
            dir,
            items[i],
            matched,
            pattern,
        ),
    decreases i - from,
{
    if from < i {
        let t = export_target(dir, items[from], matched, pattern);
        assert(t is Null || t is Invalid);
        lemma_items(dir, items, from + 1, i, matched, pattern, t is Invalid);
    }
}

/// A list of targets leads where its first target leads that leads anywhere.
pub proof fn the_first_target_that_leads_anywhere_decides(
    dir: Seq<char>,
    items: Seq<JsonModel>,
    i: int,
    matched: Seq<char>,
    pattern: bool,
)
    requires
        0 <= i < items.len(),
        export_target(dir, items[i], matched, pattern) is Resolved,
        forall|j: int|
            0 <= j < i ==> {
                let t = export_target(dir, #[trigger] items[j], matched, pattern);
                t is Null || t is Invalid
            },
    ensures
        export_target(dir, JsonModel::Arr(items), matched, pattern) == export_target(
            dir,
            items[i],
            matched,
            pattern,
        ),
{
    lemma_items(dir, items, 0, i, matched, pattern, false);
}

proof fn lemma_all_dotted(e: Seq<(Seq<char>, JsonModel)>, k: int)
    requires
        0 <= k <= e.len(),
        forall|j: int| 0 <= j < e.len() ==> has_prefix((#[trigger] e[j]).0, "."@),
    ensures
        dotted_upto(e, k) == k,
    decreases k,
{
    if k > 0 {
        lemma_all_dotted(e, k - 1);
        assert(has_prefix(e[k - 1].0, "."@));
    }
}

proof fn lemma_found_at(keys: Seq<Seq<char>>, key: Seq<char>, at: int)
    requires
        0 <= at < keys.len(),
        keys[at] == key,
        forall|j: int| 0 <= j < at ==> #[trigger] keys[j] != key,
    ensures
        find_key(keys, key, 0) == at,
{
    lemma_find_key(keys, key, 0);
    let i = find_key(keys, key, 0);
    if i < at {
        assert(keys[i] != key);
    }
}

/// Whether the exports of a package name a path, at `at`, with conditions of which the first
/// that an import meets, at `i`, is a path inside the package.
pub open spec fn exports_path(
    e: Seq<(Seq<char>, JsonModel)>,
    subpath: Seq<char>,
    at: int,
    conditions: Seq<(Seq<char>, JsonModel)>,
    i: int,
    plain: Seq<char>,
) -> bool {
    &&& 0 <= at < e.len()
    &&& e[at] == (subpath, JsonModel::Obj(conditions))
    &&& forall|j: int| 0 <= j < at ==> (#[trigger] e[j]).0 != subpath
    &&& forall|j: int| 0 <= j < e.len() ==> has_prefix((#[trigger] e[j]).0, "."@)
    &&& !subpath.contains('*')
    &&& !has_suffix(subpath, "/"@)
    &&& first_met(conditions, i)
    &&& conditions[i].1 == JsonModel::Str("./"@ + plain)
    &&& downward_way(plain)
}

/// A path that a package exports under conditions leads to the file that the first condition
/// names which an import meets.
pub proof fn exported_paths_lead_to_the_import(
    f: FactsModel,
    dir: Seq<char>,
    manifest: JsonModel,
    e: Seq<(Seq<char>, JsonModel)>,
    subpath: Seq<char>,
    at: int,
    conditions: Seq<(Seq<char>, JsonModel)>,
    i: int,
    plain: Seq<char>,
)
    requires
        straight(dir),
        f.manifest(dir) == Ok::<ManifestModel, QueryModel>(ManifestModel::Parsed(manifest)),
        value_member(manifest, "exports"@) == Some(JsonModel::Obj(e)),
        exports_path(e, subpath, at, conditions, i, plain),
    ensures
        in_package(f, dir, subpath) == target_file(
            f,
            TargetModel::Resolved(normal_path(dir + "/"@ + plain)),
        ),
{
    lemma_all_dotted(e, e.len() as int);
    let keys = keys_of(e);
    assert(keys[at] == subpath);
    assert forall|j: int| 0 <= j < at implies #[trigger] keys[j] != subpath by {
        assert(e[j].0 != subpath);
    }
    lemma_found_at(keys, subpath, at);
    the_first_condition_decides(f, dir, conditions, i, Seq::empty(), false);
    targets_are_files_of_the_package(dir, plain);
    assert(!(manifest is Null));
}

/// A relative import is looked for beside the importing file.
pub proof fn relative_imports_start_at_their_file(
    f: FactsModel,
    importer: Seq<char>,
    plain: Seq<char>,
)
    requires
        parent_of(importer) is Some,
        straight(normal_path(parent_of(importer)->0)),
        plain_way(plain),
        has_prefix(plain, "./"@) || has_prefix(plain, "../"@),
    ensures
        module_file(f, plain, importer) == without_links(
            f,
            file_named(
                f,
                normal_path(normal_path(parent_of(importer)->0) + "/"@ + plain),
            ),
        ),
{
    lemma_plain(plain);
    ways_are_followed(normal_path(parent_of(importer)->0), plain);
}

/// The name of a file that does not depend on where the project is leads to the file again:
/// behind the name of its package it is the path from the directory of the package.
pub proof fn canonical_names_lead_to_the_file(
    f: FactsModel,
    file: Seq<char>,
    root: Option<Seq<char>>,
    stop: Option<Seq<char>>,
    name: Seq<char>,
    dir: Seq<char>,
)
    requires
        rooted(file),
        rooted(dir),
        nearest(f, file, stop) == Ok::<Option<(Seq<char>, Seq<char>)>, QueryModel>(
            Some((name, dir)),
        ),
    ensures
        canonical_name(f, file, root, stop) is Ok,
        exists|path: Seq<char>|
            {
                &&& canonical_name(f, file, root, stop)->Ok_0 == #[trigger] (name + ":"@ + path)
                &&& normal_path(dir + "/"@ + path) == normal_path(file)
            },
{
    let path = relative_path(dir, file);
    assert(canonical_name(f, file, root, stop)->Ok_0 == name + ":"@ + path);
    lemma_relative(dir, file);
}

proof fn lemma_relative(dir: Seq<char>, file: Seq<char>)
    requires
        rooted(dir),
        rooted(file),
    ensures
        normal_path(dir + "/"@ + relative_path(dir, file)) == normal_path(file),
{
    lemma_rooted_names(dir);
    lemma_rooted_names(file);
    let a = folded(dir);
    let b = folded(file);
    let w = way(a, b);
    let text = relative_path(dir, file);
    lemma_way_single(a, b);
    lemma_names_in_joined(w);
    lemma_names_in_two(dir, text);
    let whole = dir + "/"@ + text;
    assert(whole[0] == dir[0]);
    assert(names(whole) == names(dir) + w);
    lemma_fold_way(names(dir), b, w.len() as int);
    way_leads_there(a, b);
}

} // verus!
