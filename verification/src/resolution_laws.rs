//! What more facts change in the resolution of imports: nothing that was decided.

use crate::json::JsonModel;
use crate::module_names::{aliased, possible_paths};
use crate::module_resolution::{
    alias_file, alias_files, aliases_of, candidate_file, candidate_files, canonical_name, dir_upto,
    existing_from, exported_path, file_named, import_items, import_target, import_text,
    imported_file, imported_path, imports_file, in_package, learned, main_from, module_file,
    named_file, own_exports, package_above, package_dir, package_target, packages_above, root_of,
    scope_above, scope_of, target_file, theme_name, without_links, AnswerModel, FactsModel,
    HomeModel, ManifestModel, QueryModel, TargetModel,
};
use crate::options::{ModuleResolutionType, ResolvedOptions};
use crate::paths::names;
use crate::url_paths::{decoded, relative_specifier};
use crate::value::{find_key, keys_of, lemma_find_key, value_of};
use vstd::prelude::*;

verus! {

/// Whether what is known in `a` is known in `b` too.
pub open spec fn kept<T>(a: Seq<(Seq<char>, T)>, b: Seq<(Seq<char>, T)>) -> bool {
    forall|p: Seq<char>|
        (#[trigger] value_of(a, p)) is Some ==> value_of(b, p) == value_of(a, p)
}

/// Whether `g` knows all that `f` knows.
pub open spec fn grown(f: FactsModel, g: FactsModel) -> bool {
    &&& kept(f.files, g.files)
    &&& kept(f.exists, g.exists)
    &&& kept(f.dirs, g.dirs)
    &&& kept(f.manifests, g.manifests)
    &&& kept(f.real_paths, g.real_paths)
}

/// Whether a question has no answer yet.
pub open spec fn unknown(f: FactsModel, q: QueryModel) -> bool {
    match q {
        QueryModel::IsFile(p) => value_of(f.files, p) is None,
        QueryModel::Exists(p) => value_of(f.exists, p) is None,
        QueryModel::IsDir(p) => value_of(f.dirs, p) is None,
        QueryModel::Manifest(p) => value_of(f.manifests, p) is None,
        QueryModel::RealPath(p) => value_of(f.real_paths, p) is None,
    }
}

/// Whether an answer stays with more facts, and a question is a new one.
pub open spec fn settled<T>(f: FactsModel, r: Result<T, QueryModel>, s: Result<T, QueryModel>) -> bool {
    match r {
        Ok(_) => s == r,
        Err(q) => unknown(f, q),
    }
}

proof fn lemma_push_kept<T>(a: Seq<(Seq<char>, T)>, k: Seq<char>, v: T)
    ensures
        kept(a, a.push((k, v))),
{
    let b = a.push((k, v));
    assert forall|p: Seq<char>| (#[trigger] value_of(a, p)) is Some implies value_of(b, p)
        == value_of(a, p) by {
        lemma_find_key(keys_of(a), p, 0);
        lemma_find_key(keys_of(b), p, 0);
        let i = find_key(keys_of(a), p, 0);
        let j = find_key(keys_of(b), p, 0);
        assert(keys_of(b)[i] == keys_of(a)[i]);
        if j < i {
            assert(keys_of(a)[j] == keys_of(b)[j]);
        }
    }
}

proof fn lemma_file(f: FactsModel, g: FactsModel, p: Seq<char>)
    requires
        grown(f, g),
    ensures
        settled(f, file_named(f, p), file_named(g, p)),
{
    if let Some(d) = decoded(p) {
        assert(value_of(f.files, d) is Some ==> value_of(g.files, d) == value_of(f.files, d));
    }
}

pub(crate) proof fn lemma_package_above(
    f: FactsModel,
    g: FactsModel,
    path: Seq<char>,
    stop: Option<Seq<char>>,
    k: int,
)
    requires
        grown(f, g),
    ensures
        settled(f, package_above(f, path, stop, k), package_above(g, path, stop, k)),
    decreases k + 1,
{
    if k >= 0 {
        lemma_package_above(f, g, path, stop, k - 1);
        let d = dir_upto(path, k);
        assert(value_of(f.manifests, d) is Some ==> value_of(g.manifests, d) == value_of(
            f.manifests,
            d,
        ));
    }
}

proof fn lemma_target(f: FactsModel, g: FactsModel, t: TargetModel)
    requires
        grown(f, g),
    ensures
        settled(f, target_file(f, t), target_file(g, t)),
{
    if let TargetModel::Resolved(p) = t {
        lemma_file(f, g, p);
    }
}

proof fn lemma_scope(f: FactsModel, g: FactsModel, path: Seq<char>, k: int)
    requires
        grown(f, g),
    ensures
        settled(f, scope_above(f, path, k), scope_above(g, path, k)),
    decreases k + 1,
{
    if k >= 0 {
        lemma_scope(f, g, path, k - 1);
        let d = dir_upto(path, k);
        assert(value_of(f.manifests, d) is Some ==> value_of(g.manifests, d) == value_of(
            f.manifests,
            d,
        ));
    }
}

proof fn lemma_main(
    f: FactsModel,
    g: FactsModel,
    dir: Seq<char>,
    guesses: Seq<Seq<char>>,
    i: int,
)
    requires
        grown(f, g),
        0 <= i,
    ensures
        settled(f, main_from(f, dir, guesses, i), main_from(g, dir, guesses, i)),
    decreases guesses.len() - i,
{
    if i < guesses.len() {
        lemma_main(f, g, dir, guesses, i + 1);
        lemma_file(
            f,
            g,
            crate::url_paths::url_joined(
                dir,
                crate::url_paths::slashed(crate::url_paths::before_query(guesses[i])),
            ),
        );
    }
}

proof fn lemma_in_package(f: FactsModel, g: FactsModel, dir: Seq<char>, subpath: Seq<char>)
    requires
        grown(f, g),
    ensures
        settled(f, in_package(f, dir, subpath), in_package(g, dir, subpath)),
{
    assert(value_of(f.manifests, dir) is Some ==> value_of(g.manifests, dir) == value_of(
        f.manifests,
        dir,
    ));
    if let Ok(m) = f.manifest(dir) {
        let exports = match m {
            ManifestModel::Parsed(v) => crate::module_resolution::value_member(v, "exports"@),
            _ => None,
        };
        let main = match m {
            ManifestModel::Parsed(v) => crate::module_resolution::text_member(v, "main"@),
            _ => None,
        };
        if let Some(e) = exports {
            lemma_target(f, g, exported_path(dir, subpath, e));
        }
        lemma_main(f, g, dir, crate::module_resolution::main_guesses(main), 0);
        lemma_file(
            f,
            g,
            crate::url_paths::url_joined(
                dir,
                crate::url_paths::slashed(crate::url_paths::before_query(subpath.skip(2))),
            ),
        );
    }
}

proof fn lemma_packages(
    f: FactsModel,
    g: FactsModel,
    path: Seq<char>,
    name: Seq<char>,
    subpath: Seq<char>,
    k: int,
)
    requires
        grown(f, g),
    ensures
        settled(
            f,
            packages_above(f, path, name, subpath, k),
            packages_above(g, path, name, subpath, k),
        ),
    decreases k + 1,
{
    if k >= 0 {
        lemma_packages(f, g, path, name, subpath, k - 1);
        let d = package_dir(path, name, k);
        lemma_in_package(f, g, d, subpath);
        assert(value_of(f.dirs, d) is Some ==> value_of(g.dirs, d) == value_of(f.dirs, d));
    }
}

proof fn lemma_package_target(
    f: FactsModel,
    g: FactsModel,
    specifier: Seq<char>,
    importer: Seq<char>,
)
    requires
        grown(f, g),
    ensures
        settled(
            f,
            package_target(f, specifier, importer),
            package_target(g, specifier, importer),
        ),
{
    if let Some((name, subpath)) = crate::url_paths::package_parts(specifier) {
        lemma_scope(f, g, importer, names(importer).len() - 1);
        lemma_packages(f, g, importer, name, subpath, names(importer).len() - 1);
        if let Ok(s) = scope_of(f, importer) {
            if let Some((dir, e)) = own_exports(s, name) {
                lemma_target(f, g, exported_path(dir, subpath, e));
            }
        }
    }
}

proof fn lemma_import_text(
    f: FactsModel,
    g: FactsModel,
    dir: Seq<char>,
    target: Seq<char>,
    matched: Seq<char>,
    pattern: bool,
)
    requires
        grown(f, g),
    ensures
        settled(
            f,
            import_text(f, dir, target, matched, pattern),
            import_text(g, dir, target, matched, pattern),
        ),
{
    let full = if pattern {
        crate::module_names::starred(target, matched)
    } else {
        target + matched
    };
    lemma_package_target(f, g, full, crate::paths::joined(dir, "package.json"@));
}

proof fn lemma_import_target(
    f: FactsModel,
    g: FactsModel,
    dir: Seq<char>,
    target: JsonModel,
    matched: Seq<char>,
    pattern: bool,
)
    requires
        grown(f, g),
    ensures
        settled(
            f,
            import_target(f, dir, target, matched, pattern),
            import_target(g, dir, target, matched, pattern),
        ),
    decreases target, 0int,
{
    match target {
        JsonModel::Str(s) => {
            lemma_import_text(f, g, dir, s, matched, pattern);
        },
        JsonModel::Arr(items) => {
            lemma_import_items(f, g, dir, items, 0, matched, pattern, false);
        },
        JsonModel::Obj(e) => {
            let at = crate::module_resolution::condition_from(e, 0);
            if 0 <= at < e.len() {
                lemma_import_target(f, g, dir, e[at].1, matched, pattern);
            }
        },
        _ => {},
    }
}

proof fn lemma_import_items(
    f: FactsModel,
    g: FactsModel,
    dir: Seq<char>,
    items: Seq<JsonModel>,
    i: int,
    matched: Seq<char>,
    pattern: bool,
    invalid: bool,
)
    requires
        grown(f, g),
        0 <= i,
    ensures
        settled(
            f,
            import_items(f, dir, items, i, matched, pattern, invalid),
            import_items(g, dir, items, i, matched, pattern, invalid),
        ),
    decreases items, items.len() - i,
{
    if i < items.len() {
        lemma_import_target(f, g, dir, items[i], matched, pattern);
        lemma_import_items(f, g, dir, items, i + 1, matched, pattern, false);
        lemma_import_items(f, g, dir, items, i + 1, matched, pattern, true);
    }
}

proof fn lemma_named(
    f: FactsModel,
    g: FactsModel,
    a: Result<TargetModel, QueryModel>,
    b: Result<TargetModel, QueryModel>,
)
    requires
        grown(f, g),
        settled(f, a, b),
    ensures
        settled(f, named_file(f, a), named_file(g, b)),
{
    if let Ok(TargetModel::Resolved(p)) = a {
        lemma_file(f, g, p);
    }
}

proof fn lemma_imported_path(
    f: FactsModel,
    g: FactsModel,
    dir: Seq<char>,
    map: Seq<(Seq<char>, JsonModel)>,
    specifier: Seq<char>,
)
    requires
        grown(f, g),
    ensures
        settled(
            f,
            imported_path(f, dir, map, specifier),
            imported_path(g, dir, map, specifier),
        ),
{
    let at = find_key(keys_of(map), specifier, 0);
    if at < map.len() && !specifier.contains('*') {
        let none = Seq::<char>::empty();
        lemma_import_target(f, g, dir, map[at].1, none, false);
        lemma_named(
            f,
            g,
            import_target(f, dir, map[at].1, none, false),
            import_target(g, dir, map[at].1, none, false),
        );
    } else if let Some((i, matched)) = crate::module_resolution::best_from(
        keys_of(map),
        specifier,
        true,
        0,
        None,
    ) {
        lemma_import_target(f, g, dir, map[i].1, matched, true);
        lemma_named(
            f,
            g,
            import_target(f, dir, map[i].1, matched, true),
            import_target(g, dir, map[i].1, matched, true),
        );
    }
}

proof fn lemma_imports_file(
    f: FactsModel,
    g: FactsModel,
    specifier: Seq<char>,
    importer: Seq<char>,
)
    requires
        grown(f, g),
    ensures
        settled(f, imports_file(f, specifier, importer), imports_file(g, specifier, importer)),
{
    lemma_scope(f, g, importer, names(importer).len() - 1);
    if let Ok(HomeModel::Found(dir, v)) = scope_of(f, importer) {
        if let Some(JsonModel::Obj(map)) = crate::module_resolution::value_member(v, "imports"@) {
            lemma_imported_path(f, g, dir, map, specifier);
        }
    }
}

proof fn lemma_links(
    f: FactsModel,
    g: FactsModel,
    a: Result<Option<Seq<char>>, QueryModel>,
    b: Result<Option<Seq<char>>, QueryModel>,
)
    requires
        grown(f, g),
        settled(f, a, b),
    ensures
        settled(f, without_links(f, a), without_links(g, b)),
{
    if let Ok(Some(p)) = a {
        assert(value_of(f.real_paths, p) is Some ==> value_of(g.real_paths, p) == value_of(
            f.real_paths,
            p,
        ));
    }
}

proof fn lemma_module_file(
    f: FactsModel,
    g: FactsModel,
    specifier: Seq<char>,
    importer: Seq<char>,
)
    requires
        grown(f, g),
    ensures
        settled(f, module_file(f, specifier, importer), module_file(g, specifier, importer)),
{
    if let Some(dir) = crate::paths::parent_of(importer) {
        let p = crate::url_paths::url_joined(
            crate::paths::normal_path(dir),
            crate::url_paths::slashed(crate::url_paths::before_query(specifier)),
        );
        lemma_file(f, g, p);
        lemma_links(f, g, file_named(f, p), file_named(g, p));
    }
    lemma_imports_file(f, g, specifier, importer);
    lemma_links(
        f,
        g,
        imports_file(f, specifier, importer),
        imports_file(g, specifier, importer),
    );
    lemma_package_target(f, g, specifier, importer);
    if let Ok(TargetModel::Resolved(p)) = package_target(f, specifier, importer) {
        lemma_links(f, g, Ok(Some(p)), Ok(Some(p)));
    }
}

proof fn lemma_existing(f: FactsModel, g: FactsModel, paths: Seq<Seq<char>>, i: int)
    requires
        grown(f, g),
        0 <= i,
    ensures
        settled(f, existing_from(f, paths, i), existing_from(g, paths, i)),
    decreases paths.len() - i,
{
    if i < paths.len() {
        lemma_existing(f, g, paths, i + 1);
        let p = paths[i];
        assert(value_of(f.exists, p) is Some ==> value_of(g.exists, p) == value_of(f.exists, p));
    }
}

proof fn lemma_alias_files(
    f: FactsModel,
    g: FactsModel,
    paths: Seq<Seq<char>>,
    i: int,
    importer: Seq<char>,
    root: Option<Seq<char>>,
)
    requires
        grown(f, g),
        0 <= i,
    ensures
        settled(
            f,
            alias_files(f, paths, i, importer, root),
            alias_files(g, paths, i, importer, root),
        ),
    decreases paths.len() - i,
{
    if i < paths.len() {
        lemma_alias_files(f, g, paths, i + 1, importer, root);
        lemma_module_file(f, g, paths[i], importer);
        lemma_existing(f, g, possible_paths(paths[i]), 0);
        if let Some(r) = root {
            lemma_existing(
                f,
                g,
                possible_paths(crate::url_paths::path_joined(r, paths[i].skip(6))),
                0,
            );
        }
        assert(settled(
            f,
            alias_file(f, paths[i], importer, root),
            alias_file(g, paths[i], importer, root),
        ));
    }
}

proof fn lemma_candidate_files(
    f: FactsModel,
    g: FactsModel,
    candidates: Seq<Seq<char>>,
    i: int,
    importer: Seq<char>,
    aliases: Seq<(Seq<char>, Seq<Seq<char>>)>,
    root: Option<Seq<char>>,
)
    requires
        grown(f, g),
        0 <= i,
    ensures
        settled(
            f,
            candidate_files(f, candidates, i, importer, aliases, root),
            candidate_files(g, candidates, i, importer, aliases, root),
        ),
    decreases candidates.len() - i,
{
    if i < candidates.len() {
        lemma_candidate_files(f, g, candidates, i + 1, importer, aliases, root);
        lemma_module_file(f, g, candidates[i], importer);
        lemma_alias_files(f, g, aliased(candidates[i], aliases), 0, importer, root);
        assert(settled(
            f,
            candidate_file(f, candidates[i], importer, aliases, root),
            candidate_file(g, candidates[i], importer, aliases, root),
        ));
    }
}

/// More facts do not change the file that an import was found to name, and a question
/// is asked only where its answer is not known.
pub proof fn found_files_stay(
    f: FactsModel,
    g: FactsModel,
    specifier: Seq<char>,
    importer: Seq<char>,
    aliases: Seq<(Seq<char>, Seq<Seq<char>>)>,
    root: Option<Seq<char>>,
)
    requires
        grown(f, g),
    ensures
        settled(
            f,
            imported_file(f, specifier, importer, aliases, root),
            imported_file(g, specifier, importer, aliases, root),
        ),
{
    lemma_candidate_files(f, g, possible_paths(specifier), 0, importer, aliases, root);
}

/// More facts do not change the name that was found for a file that an import of
/// variables names, and a question is asked only where its answer is not known.
pub proof fn found_names_stay(
    f: FactsModel,
    g: FactsModel,
    specifier: Seq<char>,
    source: Option<Seq<char>>,
    options: ResolvedOptions,
    stop: Option<Seq<char>>,
)
    requires
        grown(f, g),
    ensures
        settled(
            f,
            theme_name(f, specifier, source, options, stop),
            theme_name(g, specifier, source, options, stop),
        ),
{
    if let Some(file) = source {
        found_files_stay(f, g, specifier, file, aliases_of(options), root_of(options));
        if let Ok(Some(p)) = imported_file(
            f,
            specifier,
            file,
            aliases_of(options),
            root_of(options),
        ) {
            lemma_package_above(f, g, p, stop, names(p).len() - 1);
            assert(settled(
                f,
                canonical_name(f, p, root_of(options), stop),
                canonical_name(g, p, root_of(options), stop),
            ));
        }
    }
}

/// To learn the answer to a question that was asked keeps all that was known.
pub proof fn learning_keeps_the_facts(f: FactsModel, q: QueryModel, a: AnswerModel)
    ensures
        grown(f, learned(f, q, a)),
{
    match (q, a) {
        (QueryModel::IsFile(p), AnswerModel::Flag(b)) => {
            lemma_push_kept(f.files, p, b);
        },
        (QueryModel::Exists(p), AnswerModel::Flag(b)) => {
            lemma_push_kept(f.exists, p, b);
        },
        (QueryModel::IsDir(p), AnswerModel::Flag(b)) => {
            lemma_push_kept(f.dirs, p, b);
        },
        (QueryModel::Manifest(p), AnswerModel::Manifest(m)) => {
            lemma_push_kept(f.manifests, p, m);
        },
        (QueryModel::RealPath(p), AnswerModel::Path(r)) => {
            lemma_push_kept(f.real_paths, p, r);
        },
        _ => {},
    }
}

/// Names under haste do not depend on the file system, and nothing is asked of it.
pub proof fn haste_asks_nothing(
    f: FactsModel,
    g: FactsModel,
    specifier: Seq<char>,
    source: Option<Seq<char>>,
    options: ResolvedOptions,
    stop: Option<Seq<char>>,
)
    requires
        options.unstable_module_resolution is Some,
        options.unstable_module_resolution->0.kind == ModuleResolutionType::Haste,
    ensures
        theme_name(f, specifier, source, options, stop) is Ok,
        theme_name(f, specifier, source, options, stop) == theme_name(
            g,
            specifier,
            source,
            options,
            stop,
        ),
{
}

/// A manifest that is no JSON object, where a file belongs to it, ends every import of
/// a package and every import that starts with a hash sign.
pub proof fn malformed_scope_is_fatal(f: FactsModel, specifier: Seq<char>, importer: Seq<char>)
    requires
        scope_of(f, importer) == Ok::<HomeModel, QueryModel>(HomeModel::Malformed),
        !relative_specifier(specifier),
    ensures
        module_file(f, specifier, importer) == Ok::<Option<Seq<char>>, QueryModel>(None),
{
}

} // verus!
