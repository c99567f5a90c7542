//! Which file an import names. What the file system holds is given by facts; where
//! one is missing, the answer is the question to ask.

use crate::hash::{utf16, utf16_units};
use crate::json::{member, Json, JsonModel};
use crate::jsrt::{decode_units, text_of_units};
use crate::module_names::{
    add_file_extension, alias_models, aliased, get_relative_path, import_source,
    is_theme_specifier, matches_file_suffix, opt_aliases, possible_aliased_paths,
    possible_file_paths, possible_paths, replace_stars, starred, strip_extension, suffix_fits,
    theme_specifier, with_extension, without_extension,
};
use crate::number::{float_prefix, parse_float_prefix};
use crate::options::{ModuleResolutionType, ResolvedOptions, THEME_FILE_EXTENSION};
use crate::paths::{
    is_rooted, joined, last_name, names, normal_path, normalize_path, parent_of, path_join,
    path_last_name, path_names, path_parent, path_relative, path_within, relative_path, rooted,
    within,
};
use crate::text::{
    chars_of, concat2, concat3, ends_with, has_prefix, has_suffix, piece, starts_with, str_eq,
    texts,
};
use crate::url_paths::{
    array_like, before_query, decoded, escapes_separator, has_deprecated_segment,
    has_encoded_separator, has_forbidden, has_scheme, is_js_array_index, is_relative_specifier,
    join_url_segments, node_path_join, package_parts, parse_package_name, parses_as_url,
    path_joined, percent_decode_path, relative_specifier, slashed, strip_query_fragment,
    url_joined, url_path,
};
use crate::value::{
    find_key, item_keys, keys_of, lemma_find_key, opt_text, position_of, value_of,
};
use vstd::prelude::*;

verus! {

/// A question to the file system.
#[derive(Debug, PartialEq)]
pub enum Query {
    /// Whether a path is a file.
    IsFile(String),
    /// Whether a path is anything.
    Exists(String),
    /// Whether a path is a directory.
    IsDir(String),
    /// What the manifest in a directory holds.
    Manifest(String),
    /// The path without links.
    RealPath(String),
}

/// A question to the file system, mathematically.
#[verifier::ext_equal]
pub enum QueryModel {
    IsFile(Seq<char>),
    Exists(Seq<char>),
    IsDir(Seq<char>),
    Manifest(Seq<char>),
    RealPath(Seq<char>),
}

impl Query {
    /// What the question is, mathematically.
    pub open spec fn model(self) -> QueryModel {
        match self {
            Query::IsFile(p) => QueryModel::IsFile(p@),
            Query::Exists(p) => QueryModel::Exists(p@),
            Query::IsDir(p) => QueryModel::IsDir(p@),
            Query::Manifest(p) => QueryModel::Manifest(p@),
            Query::RealPath(p) => QueryModel::RealPath(p@),
        }
    }
}

/// What the manifest in a directory holds.
#[derive(Debug, PartialEq)]
pub enum Manifest {
    /// There is no such file.
    Missing,
    /// There is one, but it cannot be read.
    Unreadable,
    /// It is no JSON.
    Malformed,
    Parsed(Json),
}

/// What the manifest in a directory holds, mathematically.
#[verifier::ext_equal]
pub enum ManifestModel {
    Missing,
    Unreadable,
    Malformed,
    Parsed(JsonModel),
}

impl Manifest {
    /// What the manifest is, mathematically.
    pub open spec fn model(self) -> ManifestModel {
        match self {
            Manifest::Missing => ManifestModel::Missing,
            Manifest::Unreadable => ManifestModel::Unreadable,
            Manifest::Malformed => ManifestModel::Malformed,
            Manifest::Parsed(v) => ManifestModel::Parsed(v.model()),
        }
    }
}

/// What is known of the file system.
#[derive(Debug, PartialEq)]
pub struct Facts {
    pub files: Vec<(String, bool)>,
    pub exists: Vec<(String, bool)>,
    pub dirs: Vec<(String, bool)>,
    pub manifests: Vec<(String, Manifest)>,
    pub real_paths: Vec<(String, String)>,
}

/// What is known of the file system, mathematically.
#[verifier::ext_equal]
pub struct FactsModel {
    pub files: Seq<(Seq<char>, bool)>,
    pub exists: Seq<(Seq<char>, bool)>,
    pub dirs: Seq<(Seq<char>, bool)>,
    pub manifests: Seq<(Seq<char>, ManifestModel)>,
    pub real_paths: Seq<(Seq<char>, Seq<char>)>,
}

/// What facts that are true or false are, mathematically.
pub open spec fn flag_models(v: Seq<(String, bool)>) -> Seq<(Seq<char>, bool)> {
    Seq::new(v.len(), |i: int| (v[i].0@, v[i].1))
}

/// What manifests are, mathematically.
pub open spec fn manifest_models(v: Seq<(String, Manifest)>) -> Seq<(Seq<char>, ManifestModel)> {
    Seq::new(v.len(), |i: int| (v[i].0@, v[i].1.model()))
}

/// What paths without links are, mathematically.
pub open spec fn real_models(v: Seq<(String, String)>) -> Seq<(Seq<char>, Seq<char>)> {
    Seq::new(v.len(), |i: int| (v[i].0@, v[i].1@))
}

/// An answer, or the question that has to be asked first.
pub type Asked<T> = Result<T, QueryModel>;

impl FactsModel {
    /// Whether a path is a file.
    pub open spec fn is_file(self, p: Seq<char>) -> Asked<bool> {
        match value_of(self.files, p) {
            Some(b) => Ok(b),
            None => Err(QueryModel::IsFile(p)),
        }
    }

    /// Whether a path is anything.
    pub open spec fn is_there(self, p: Seq<char>) -> Asked<bool> {
        match value_of(self.exists, p) {
            Some(b) => Ok(b),
            None => Err(QueryModel::Exists(p)),
        }
    }

    /// Whether a path is a directory.
    pub open spec fn is_dir(self, p: Seq<char>) -> Asked<bool> {
        match value_of(self.dirs, p) {
            Some(b) => Ok(b),
            None => Err(QueryModel::IsDir(p)),
        }
    }

    /// What the manifest in a directory holds.
    pub open spec fn manifest(self, p: Seq<char>) -> Asked<ManifestModel> {
        match value_of(self.manifests, p) {
            Some(m) => Ok(m),
            None => Err(QueryModel::Manifest(p)),
        }
    }

    /// A path without links.
    pub open spec fn real_path(self, p: Seq<char>) -> Asked<Seq<char>> {
        match value_of(self.real_paths, p) {
            Some(r) => Ok(r),
            None => Err(QueryModel::RealPath(p)),
        }
    }
}

fn flag_of(v: &Vec<(String, bool)>, p: &str) -> (r: Option<bool>)
    ensures
        r == value_of(flag_models(v@), p@),
{
    let at: usize = position_of(v, p);
    proof {
        assert(keys_of(flag_models(v@)) =~= item_keys(v@));
        lemma_find_key(item_keys(v@), p@, 0);
    }
    if at < v.len() {
        Some(v[at].1)
    } else {
        None
    }
}

impl Facts {
    /// What the facts are, mathematically.
    pub open spec fn model(self) -> FactsModel {
        FactsModel {
            files: flag_models(self.files@),
            exists: flag_models(self.exists@),
            dirs: flag_models(self.dirs@),
            manifests: manifest_models(self.manifests@),
            real_paths: real_models(self.real_paths@),
        }
    }

    /// Facts that say nothing.
    pub fn new() -> (r: Facts)
        ensures
            r.model() == (FactsModel {
                files: Seq::empty(),
                exists: Seq::empty(),
                dirs: Seq::empty(),
                manifests: Seq::empty(),
                real_paths: Seq::empty(),
            }),
    {
        let r = Facts {
            files: Vec::new(),
            exists: Vec::new(),
            dirs: Vec::new(),
            manifests: Vec::new(),
            real_paths: Vec::new(),
        };
        proof {
            assert(r.model() =~= FactsModel {
                files: Seq::empty(),
                exists: Seq::empty(),
                dirs: Seq::empty(),
                manifests: Seq::empty(),
                real_paths: Seq::empty(),
            });
        }
        r
    }

    fn is_file(&self, p: &str) -> (r: Result<bool, Query>)
        ensures
            asked(r) == self.model().is_file(p@),
    {
        match flag_of(&self.files, p) {
            Some(b) => Ok(b),
            None => Err(Query::IsFile(p.to_owned())),
        }
    }

    fn is_there(&self, p: &str) -> (r: Result<bool, Query>)
        ensures
            asked(r) == self.model().is_there(p@),
    {
        match flag_of(&self.exists, p) {
            Some(b) => Ok(b),
            None => Err(Query::Exists(p.to_owned())),
        }
    }

    fn is_dir(&self, p: &str) -> (r: Result<bool, Query>)
        ensures
            asked(r) == self.model().is_dir(p@),
    {
        match flag_of(&self.dirs, p) {
            Some(b) => Ok(b),
            None => Err(Query::IsDir(p.to_owned())),
        }
    }

    fn manifest(&self, p: &str) -> (r: Result<&Manifest, Query>)
        ensures
            match r {
                Ok(m) => self.model().manifest(p@) == Ok::<ManifestModel, QueryModel>(m.model()),
                Err(q) => self.model().manifest(p@) == Err::<ManifestModel, QueryModel>(q.model()),
            },
    {
        let at: usize = position_of(&self.manifests, p);
        proof {
            assert(keys_of(manifest_models(self.manifests@)) =~= item_keys(self.manifests@));
            lemma_find_key(item_keys(self.manifests@), p@, 0);
        }
        if at < self.manifests.len() {
            Ok(&self.manifests[at].1)
        } else {
            Err(Query::Manifest(p.to_owned()))
        }
    }

    fn real_path(&self, p: &str) -> (r: Result<String, Query>)
        ensures
            match r {
                Ok(t) => self.model().real_path(p@) == Ok::<Seq<char>, QueryModel>(t@),
                Err(q) => self.model().real_path(p@) == Err::<Seq<char>, QueryModel>(q.model()),
            },
    {
        let at: usize = position_of(&self.real_paths, p);
        proof {
            assert(keys_of(real_models(self.real_paths@)) =~= item_keys(self.real_paths@));
            lemma_find_key(item_keys(self.real_paths@), p@, 0);
        }
        if at < self.real_paths.len() {
            Ok(self.real_paths[at].1.clone())
        } else {
            Err(Query::RealPath(p.to_owned()))
        }
    }
}

/// What an answer or a question is, mathematically.
pub open spec fn asked<T>(r: Result<T, Query>) -> Asked<T> {
    match r {
        Ok(v) => Ok(v),
        Err(q) => Err(q.model()),
    }
}

/// What an optional text or a question is, mathematically.
pub open spec fn asked_text(r: Result<Option<String>, Query>) -> Asked<Option<Seq<char>>> {
    match r {
        Ok(o) => Ok(opt_text(o)),
        Err(q) => Err(q.model()),
    }
}

/// The file that the path of a URL names, if there is one.
pub open spec fn file_named(f: FactsModel, p: Seq<char>) -> Asked<Option<Seq<char>>> {
    if escapes_separator(p) {
        Ok(None)
    } else {
        match decoded(p) {
            None => Ok(None),
            Some(d) => match f.is_file(d) {
                Ok(true) => Ok(Some(d)),
                Ok(false) => Ok(None),
                Err(q) => Err(q),
            },
        }
    }
}

fn finalize_file(facts: &Facts, p: &str) -> (r: Result<Option<String>, Query>)
    ensures
        asked_text(r) == file_named(facts.model(), p@),
{
    if has_encoded_separator(p) {
        return Ok(None);
    }
    match percent_decode_path(p) {
        None => Ok(None),
        Some(d) => match facts.is_file(d.as_str()) {
            Ok(b) => {
                if b {
                    Ok(Some(d))
                } else {
                    Ok(None)
                }
            },
            Err(q) => Err(q),
        },
    }
}

/// The name in a manifest as a text.
pub open spec fn manifest_name(v: JsonModel) -> Seq<char> {
    match member(v, "name"@) {
        None => "undefined"@,
        Some(JsonModel::Str(s)) => s,
        Some(JsonModel::Null) => "null"@,
        Some(JsonModel::Bool(true)) => "true"@,
        Some(JsonModel::Bool(false)) => "false"@,
        Some(JsonModel::Double(x)) => x.text_spec(),
        Some(JsonModel::Number(n)) => match float_prefix(n) {
            Some(x) => x.text_spec(),
            None => "NaN"@,
        },
        Some(_) => "[object Object]"@,
    }
}

/// Gives the name in a manifest as a text.
pub fn js_name_string(v: &Json) -> (r: String)
    ensures
        r@ == manifest_name(v.model()),
{
    match v.get("name") {
        None => "undefined".to_owned(),
        Some(Json::Str(s)) => s.clone(),
        Some(Json::Null) => "null".to_owned(),
        Some(Json::Bool(b)) => {
            if *b {
                "true".to_owned()
            } else {
                "false".to_owned()
            }
        },
        Some(Json::Double(x)) => x.text(),
        Some(Json::Number(n)) => match parse_float_prefix(n.as_str()) {
            Some(x) => x.text(),
            None => "NaN".to_owned(),
        },
        Some(_) => "[object Object]".to_owned(),
    }
}

/// The shortest beginning of a path, from `i` characters on, that has the names `v`.
pub open spec fn spelled_from(path: Seq<char>, v: Seq<Seq<char>>, i: int) -> Seq<char>
    decreases path.len() - i,
{
    if i >= path.len() || names(path.take(i)) == v {
        path.take(i)
    } else {
        spelled_from(path, v, i + 1)
    }
}

/// The directory that the first `k` names of a path make, spelled as the path spells
/// it.
pub open spec fn dir_upto(path: Seq<char>, k: int) -> Seq<char> {
    spelled_from(path, names(path).take(k), if rooted(path) { 1 } else { 0 })
}

/// The nearest package in the directory of the first `k` names of a path or above it:
/// its name and its directory. The search ends at `stop`.
pub open spec fn package_above(
    f: FactsModel,
    path: Seq<char>,
    stop: Option<Seq<char>>,
    k: int,
) -> Asked<Option<(Seq<char>, Seq<char>)>>
    decreases k + 1,
{
    if k < 0 {
        Ok(None)
    } else {
        let dir = dir_upto(path, k);
        if stop is Some && !within(dir, stop->0) {
            Ok(None)
        } else {
            match f.manifest(dir) {
                Err(q) => Err(q),
                Ok(ManifestModel::Parsed(v)) => Ok(Some((manifest_name(v), dir))),
                Ok(ManifestModel::Missing) => package_above(f, path, stop, k - 1),
                Ok(_) => Ok(None),
            }
        }
    }
}

/// The nearest package above a file. A manifest beside the root of the search counts,
/// one inside the file does not.
pub open spec fn nearest(f: FactsModel, path: Seq<char>, stop: Option<Seq<char>>) -> Asked<
    Option<(Seq<char>, Seq<char>)>,
> {
    package_above(f, path, stop, names(path).len() - 1)
}

/// The view of an optional string slice.
pub open spec fn opt_slice(o: Option<&str>) -> Option<Seq<char>> {
    match o {
        Some(s) => Some(s@),
        None => None,
    }
}

fn same_names(a: &Vec<String>, b: &Vec<String>, k: usize) -> (r: bool)
    requires
        k <= b@.len(),
    ensures
        r == (texts(a@) == texts(b@).take(k as int)),
{
    let ghost want = texts(b@).take(k as int);
    if a.len() != k {
        assert(texts(a@).len() != want.len());
        return false;
    }
    let mut i: usize = 0;
    while i < k
        invariant
            i <= k == a@.len() <= b@.len(),
            want == texts(b@).take(k as int),
            forall|j: int| 0 <= j < i ==> texts(a@)[j] == want[j],
        decreases k - i,
    {
        assert(texts(a@)[i as int] == a@[i as int]@);
        assert(want[i as int] == b@[i as int]@);
        if !str_eq(a[i].as_str(), b[i].as_str()) {
            return false;
        }
        i += 1;
    }
    assert(texts(a@) =~= want);
    true
}

fn dir_of(path: &str, v: &Vec<String>, k: usize) -> (r: String)
    requires
        k <= v@.len(),
        texts(v@) == names(path@),
    ensures
        r@ == dir_upto(path@, k as int),
{
    let s = chars_of(path);
    let ghost want = names(path@).take(k as int);
    let mut i: usize = if is_rooted(path) {
        1
    } else {
        0
    };
    while i < s.len()
        invariant
            i <= s@.len(),
            s@ == path@,
            k <= v@.len(),
            texts(v@) == names(path@),
            want == names(path@).take(k as int),
            dir_upto(path@, k as int) == spelled_from(path@, want, i as int),
        decreases s@.len() - i,
    {
        let part = piece(&s, 0, i);
        assert(part@ =~= path@.take(i as int));
        if same_names(&path_names(part.as_str()), v, k) {
            return part;
        }
        i += 1;
    }
    assert(path@.take(i as int) =~= path@);
    path.to_owned()
}

/// Gives the nearest package above a file: its name and its directory.
pub fn nearest_package(facts: &Facts, from: &str, stop_at: Option<&str>) -> (r: Result<
    Option<(String, String)>,
    Query,
>)
    ensures
        match r {
            Ok(None) => nearest(facts.model(), from@, opt_slice(stop_at)) == Ok::<
                Option<(Seq<char>, Seq<char>)>,
                QueryModel,
            >(None),
            Ok(Some(p)) => nearest(facts.model(), from@, opt_slice(stop_at)) == Ok::<
                Option<(Seq<char>, Seq<char>)>,
                QueryModel,
            >(Some((p.0@, p.1@))),
            Err(q) => nearest(facts.model(), from@, opt_slice(stop_at)) == Err::<
                Option<(Seq<char>, Seq<char>)>,
                QueryModel,
            >(q.model()),
        },
{
    let v = path_names(from);
    let ghost f = facts.model();
    let ghost stop = opt_slice(stop_at);
    let mut k: usize = v.len();
    proof {
        assert(texts(v@).len() == v@.len());
    }
    while k > 0
        invariant
            k <= v@.len(),
            texts(v@) == names(from@),
            f == facts.model(),
            stop == opt_slice(stop_at),
            nearest(f, from@, stop) == package_above(f, from@, stop, k - 1),
        decreases k,
    {
        k -= 1;
        let dir = dir_of(from, &v, k);
        if let Some(stop) = stop_at {
            if !path_within(dir.as_str(), stop) {
                return Ok(None);
            }
        }
        match facts.manifest(dir.as_str()) {
            Err(q) => {
                return Err(q);
            },
            Ok(Manifest::Parsed(json)) => {
                return Ok(Some((js_name_string(json), dir)));
            },
            Ok(Manifest::Missing) => {},
            Ok(_) => {
                return Ok(None);
            },
        }
    }
    Ok(None)
}

/// What a target in a manifest leads to.
#[derive(Debug, PartialEq)]
pub enum Target {
    /// A path, which need not be a file.
    Resolved(String),
    /// Nothing, by the will of the manifest.
    Null,
    /// The target is not valid; an array goes on with the next.
    Invalid,
    /// The search has failed.
    Fatal,
}

/// What a target in a manifest leads to, mathematically.
#[verifier::ext_equal]
pub enum TargetModel {
    Resolved(Seq<char>),
    Null,
    Invalid,
    Fatal,
}

impl Target {
    /// What the target is, mathematically.
    pub open spec fn model(self) -> TargetModel {
        match self {
            Target::Resolved(p) => TargetModel::Resolved(p@),
            Target::Null => TargetModel::Null,
            Target::Invalid => TargetModel::Invalid,
            Target::Fatal => TargetModel::Fatal,
        }
    }
}

/// What a target that is a path inside a package leads to. `matched` is what a star
/// stands for, or what follows on a target that ends in a slash.
pub open spec fn inner_target(
    dir: Seq<char>,
    target: Seq<char>,
    matched: Seq<char>,
    pattern: bool,
) -> TargetModel {
    let way = target.skip(2);
    let place = url_joined(dir, slashed(before_query(way)));
    if has_forbidden(way) || !within(place, normal_path(dir)) {
        TargetModel::Invalid
    } else if matched.len() == 0 {
        TargetModel::Resolved(place)
    } else if has_forbidden(matched) {
        TargetModel::Fatal
    } else if pattern {
        TargetModel::Resolved(normal_path(before_query(starred(place, slashed(matched)))))
    } else {
        TargetModel::Resolved(url_joined(place, slashed(before_query(matched))))
    }
}

/// Whether what is matched cannot go with a target.
pub open spec fn unfit_match(target: Seq<char>, matched: Seq<char>, pattern: bool) -> bool {
    matched.len() > 0 && !pattern && !has_suffix(target, "/"@)
}

/// What a target of the exports of a package leads to, if it is a text.
pub open spec fn export_text(
    dir: Seq<char>,
    target: Seq<char>,
    matched: Seq<char>,
    pattern: bool,
) -> TargetModel {
    if unfit_match(target, matched, pattern) || !has_prefix(target, "./"@) {
        TargetModel::Invalid
    } else {
        inner_target(dir, target, matched, pattern)
    }
}

/// Whether a key of a target is a condition that holds.
pub open spec fn condition_holds(key: Seq<char>) -> bool {
    key == "default"@ || key == "node"@ || key == "import"@
}

/// The first entry, from `i` on, whose condition holds, or the number of entries.
pub open spec fn condition_from(e: Seq<(Seq<char>, JsonModel)>, i: int) -> int
    decreases e.len() - i,
{
    if i < 0 || i >= e.len() {
        e.len() as int
    } else if condition_holds(e[i].0) {
        i
    } else {
        condition_from(e, i + 1)
    }
}

/// Whether a key is an array index.
pub open spec fn has_index_key(e: Seq<(Seq<char>, JsonModel)>) -> bool {
    exists|i: int| 0 <= i < e.len() && array_like((#[trigger] e[i]).0)
}

/// What a target of the exports of a package leads to.
pub open spec fn export_target(
    dir: Seq<char>,
    target: JsonModel,
    matched: Seq<char>,
    pattern: bool,
) -> TargetModel
    decreases target, 0int,
{
    match target {
        JsonModel::Str(s) => export_text(dir, s, matched, pattern),
        JsonModel::Arr(items) => export_items(dir, items, 0, matched, pattern, false),
        JsonModel::Obj(e) => {
            let at = condition_from(e, 0);
            if has_index_key(e) {
                TargetModel::Fatal
            } else if 0 <= at < e.len() {
                export_target(dir, e[at].1, matched, pattern)
            } else {
                TargetModel::Null
            }
        },
        JsonModel::Null => TargetModel::Null,
        _ => TargetModel::Invalid,
    }
}

/// What the targets in an array from `i` on lead to: the first that leads somewhere.
/// `invalid` says whether the one before was not valid.
pub open spec fn export_items(
    dir: Seq<char>,
    items: Seq<JsonModel>,
    i: int,
    matched: Seq<char>,
    pattern: bool,
    invalid: bool,
) -> TargetModel
    decreases items, items.len() - i,
{
    if i < 0 || i >= items.len() {
        if invalid {
            TargetModel::Invalid
        } else {
            TargetModel::Null
        }
    } else {
        match export_target(dir, items[i], matched, pattern) {
            TargetModel::Null => export_items(dir, items, i + 1, matched, pattern, false),
            TargetModel::Invalid => export_items(dir, items, i + 1, matched, pattern, true),
            other => other,
        }
    }
}

fn resolve_inner(dir: &str, target: &str, matched: &str, pattern: bool) -> (r: Target)
    requires
        has_prefix(target@, "./"@),
    ensures
        r.model() == inner_target(dir@, target@, matched@, pattern),
{
    let s = chars_of(target);
    proof {
        reveal_strlit("./");
    }
    let way = piece(&s, 2, s.len());
    proof {
        assert(way@ =~= target@.skip(2));
    }
    if has_deprecated_segment(way.as_str()) {
        return Target::Invalid;
    }
    let place = join_url_segments(
        dir,
        url_path(strip_query_fragment(way.as_str()).as_str()).as_str(),
    );
    if !path_within(place.as_str(), normalize_path(dir).as_str()) {
        return Target::Invalid;
    }
    let n: usize = chars_of(matched).len();
    if n == 0 {
        return Target::Resolved(place);
    }
    if has_deprecated_segment(matched) {
        return Target::Fatal;
    }
    if pattern {
        let replaced = replace_stars(place.as_str(), url_path(matched).as_str());
        Target::Resolved(normalize_path(strip_query_fragment(replaced.as_str()).as_str()))
    } else {
        let rest = url_path(strip_query_fragment(matched).as_str());
        Target::Resolved(join_url_segments(place.as_str(), rest.as_str()))
    }
}

fn is_unfit(target: &str, matched: &str, pattern: bool) -> (r: bool)
    ensures
        r == unfit_match(target@, matched@, pattern),
{
    let n: usize = chars_of(matched).len();
    n > 0 && !pattern && !ends_with(target, "/")
}

fn find_condition(e: &Vec<(String, Json)>, Ghost(all): Ghost<Seq<(Seq<char>, JsonModel)>>) -> (r: (
    usize,
    bool,
))
    requires
        all.len() == e@.len(),
        forall|i: int|
            0 <= i < e@.len() ==> (#[trigger] all[i]) == (e@[i].0@, e@[i].1.model()),
    ensures
        r.0 == condition_from(all, 0),
        r.0 <= e@.len(),
        r.1 == has_index_key(all),
{
    let mut indexed = false;
    let mut i: usize = 0;
    while i < e.len()
        invariant
            all.len() == e@.len(),
            forall|j: int|
                0 <= j < e@.len() ==> (#[trigger] all[j]) == (e@[j].0@, e@[j].1.model()),
            i <= e@.len(),
            indexed == exists|j: int| 0 <= j < i && array_like((#[trigger] all[j]).0),
        decreases e@.len() - i,
    {
        assert(all[i as int].0 == e@[i as int].0@);
        if is_js_array_index(e[i].0.as_str()) {
            indexed = true;
        }
        i += 1;
    }
    let mut at: usize = 0;
    while at < e.len()
        invariant
            all.len() == e@.len(),
            forall|j: int|
                0 <= j < e@.len() ==> (#[trigger] all[j]) == (e@[j].0@, e@[j].1.model()),
            at <= e@.len(),
            condition_from(all, 0) == condition_from(all, at as int),
            indexed == has_index_key(all),
        decreases e@.len() - at,
    {
        let key = e[at].0.as_str();
        assert(all[at as int].0 == key@);
        if str_eq(key, "default") || str_eq(key, "node") || str_eq(key, "import") {
            return (at, indexed);
        }
        at += 1;
    }
    (at, indexed)
}

fn resolve_export_target(dir: &str, target: &Json, matched: &str, pattern: bool) -> (r: Target)
    ensures
        r.model() == export_target(dir@, target.model(), matched@, pattern),
    decreases target,
{
    match target {
        Json::Str(s) => {
            if is_unfit(s.as_str(), matched, pattern) || !starts_with(s.as_str(), "./") {
                Target::Invalid
            } else {
                resolve_inner(dir, s.as_str(), matched, pattern)
            }
        },
        Json::Arr(items) => {
            let ghost all = target.model()->Arr_0;
            let mut invalid = false;
            let mut i: usize = 0;
            while i < items.len()
                invariant
                    *target == Json::Arr(*items),
                    all == target.model()->Arr_0,
                    i <= items@.len(),
                    export_items(dir@, all, 0, matched@, pattern, false) == export_items(
                        dir@,
                        all,
                        i as int,
                        matched@,
                        pattern,
                        invalid,
                    ),
                decreases items@.len() - i,
            {
                proof {
                    assert(decreases_to!(*target => target->Arr_0));
                    assert(decreases_to!(*items => items@[i as int]));
                    assert(all[i as int] == items@[i as int].model());
                }
                match resolve_export_target(dir, &items[i], matched, pattern) {
                    Target::Null => {
                        invalid = false;
                    },
                    Target::Invalid => {
                        invalid = true;
                    },
                    other => {
                        return other;
                    },
                }
                i += 1;
            }
            if invalid {
                Target::Invalid
            } else {
                Target::Null
            }
        },
        Json::Obj(e) => {
            let ghost all = target.model()->Obj_0;
            let (at, indexed) = find_condition(e, Ghost(all));
            if indexed {
                return Target::Fatal;
            }
            if at < e.len() {
                proof {
                    assert(decreases_to!(*target => target->Obj_0));
                    assert(decreases_to!(*e => e@[at as int]));
                    assert(all[at as int] == (e@[at as int].0@, e@[at as int].1.model()));
                }
                return resolve_export_target(dir, &e[at].1, matched, pattern);
            }
            Target::Null
        },
        Json::Null => Target::Null,
        _ => Target::Invalid,
    }
}

/// Where a star stands in the units of a key, or their number.
pub open spec fn star_at(u: Seq<u16>, i: int) -> int
    decreases u.len() - i,
{
    if i < 0 || i >= u.len() {
        u.len() as int
    } else if u[i] == 42 {
        i
    } else {
        star_at(u, i + 1)
    }
}

/// How much of a key counts first: all up to the star.
pub open spec fn key_base(u: Seq<u16>) -> int {
    if star_at(u, 0) < u.len() {
        star_at(u, 0) + 1
    } else {
        u.len() as int
    }
}

/// The order of two keys: -1 where the first comes first, 1 where the second does.
/// Keys with more before the star come first, then longer ones; keys without a star
/// come last.
pub open spec fn key_order(a: Seq<char>, b: Seq<char>) -> int {
    let u = utf16(a);
    let v = utf16(b);
    if key_base(u) != key_base(v) {
        if key_base(u) > key_base(v) {
            -1
        } else {
            1
        }
    } else if star_at(u, 0) >= u.len() {
        1
    } else if star_at(v, 0) >= v.len() || u.len() > v.len() {
        -1
    } else if v.len() > u.len() {
        1
    } else {
        0
    }
}

fn find_star(u: &Vec<u16>, from: usize) -> (r: usize)
    requires
        from <= u@.len(),
    ensures
        r == star_at(u@, from as int),
        from <= r <= u@.len(),
        r < u@.len() ==> u@[r as int] == 42,
{
    let mut i: usize = from;
    while i < u.len() && u[i] != 42
        invariant
            from <= i <= u@.len(),
            star_at(u@, from as int) == star_at(u@, i as int),
        decreases u@.len() - i,
    {
        i += 1;
    }
    i
}

/// Gives the order of two keys.
pub fn pattern_key_compare(a: &str, b: &str) -> (r: i32)
    ensures
        r == key_order(a@, b@),
{
    let u = utf16_units(a);
    let v = utf16_units(b);
    let x: usize = find_star(&u, 0);
    let y: usize = find_star(&v, 0);
    let base_x: usize = if x < u.len() {
        x + 1
    } else {
        u.len()
    };
    let base_y: usize = if y < v.len() {
        y + 1
    } else {
        v.len()
    };
    if base_x > base_y {
        return -1;
    }
    if base_y > base_x {
        return 1;
    }
    if x >= u.len() {
        return 1;
    }
    if y >= v.len() {
        return -1;
    }
    if u.len() > v.len() {
        return -1;
    }
    if v.len() > u.len() {
        return 1;
    }
    0
}

/// What the star of a key stands for in a specifier, if the key fits. A key has one
/// star. `whole` says that all of the key but its last unit is compared with the start
/// of the specifier, as the imports of a package have it.
pub open spec fn key_match(key: Seq<char>, specifier: Seq<char>, whole: bool) -> Option<Seq<char>> {
    let k = utf16(key);
    let s = utf16(specifier);
    let star = star_at(k, 0);
    if star >= k.len() || star_at(k, star + 1) < k.len() {
        None
    } else {
        let lead = if whole {
            k.take(k.len() - 1)
        } else {
            k.take(star)
        };
        let trailer = k.skip(star + 1);
        if lead.is_prefix_of(s) && s.len() >= k.len() && trailer.is_suffix_of(s) {
            let mid = s.subrange(star, s.len() - trailer.len());
            if utf16(text_of_units(mid, 0)) == mid {
                Some(text_of_units(mid, 0))
            } else {
                None
            }
        } else {
            None
        }
    }
}

fn units_eq(a: &Vec<u16>, b: &Vec<u16>) -> (r: bool)
    ensures
        r == (a@ == b@),
{
    if a.len() != b.len() {
        return false;
    }
    let mut i: usize = 0;
    while i < a.len()
        invariant
            a@.len() == b@.len(),
            i <= a@.len(),
            forall|j: int| 0 <= j < i ==> a@[j] == b@[j],
        decreases a@.len() - i,
    {
        if a[i] != b[i] {
            return false;
        }
        i += 1;
    }
    proof {
        assert(a@ =~= b@);
    }
    true
}

fn units_stand_at(s: &Vec<u16>, k: &Vec<u16>, from: usize, len: usize, at: usize) -> (r: bool)
    requires
        from + len <= k@.len(),
        at + len <= s@.len(),
    ensures
        r == forall|j: int| 0 <= j < len ==> #[trigger] s@[at + j] == k@[from + j],
{
    let n: usize = s.len();
    let m: usize = k.len();
    let mut i: usize = 0;
    while i < len
        invariant
            n == s@.len(),
            m == k@.len(),
            from + len <= m,
            at + len <= n,
            i <= len,
            forall|j: int| 0 <= j < i ==> #[trigger] s@[at + j] == k@[from + j],
        decreases len - i,
    {
        if s[at + i] != k[from + i] {
            assert(s@[at + i as int] != k@[from + i as int]);
            return false;
        }
        i += 1;
    }
    true
}

fn match_key(key: &str, specifier: &str, whole: bool) -> (r: Option<String>)
    ensures
        opt_text(r) == key_match(key@, specifier@, whole),
{
    let k = utf16_units(key);
    let s = utf16_units(specifier);
    let star: usize = find_star(&k, 0);
    if star >= k.len() {
        return None;
    }
    let more: usize = find_star(&k, star + 1);
    if more < k.len() {
        return None;
    }
    let lead: usize = if whole {
        k.len() - 1
    } else {
        star
    };
    let tail: usize = k.len() - star - 1;
    if s.len() < k.len() {
        return None;
    }
    let ghost trailer = k@.skip(star + 1);
    let starts = units_stand_at(&s, &k, 0, lead, 0);
    let ends = units_stand_at(&s, &k, star + 1, tail, s.len() - tail);
    proof {
        let start = k@.take(lead as int);
        assert(starts == start.is_prefix_of(s@)) by {
            if starts {
                assert(start =~= s@.take(lead as int)) by {
                    assert forall|j: int| 0 <= j < lead implies start[j] == s@.take(lead as int)[j] by {
                        assert(s@[0 + j] == k@[0 + j]);
                    }
                }
                assert(start.is_prefix_of(s@));
            } else if start.is_prefix_of(s@) {
                assert forall|j: int| 0 <= j < lead implies #[trigger] s@[0 + j] == k@[0 + j] by {
                    assert(start[j] == s@.subrange(0, lead as int)[j]);
                }
            }
        }
        assert(ends == trailer.is_suffix_of(s@)) by {
            let off = s@.len() - tail;
            if ends {
                assert(trailer =~= s@.subrange(off, s@.len() as int)) by {
                    assert forall|j: int| 0 <= j < tail implies trailer[j] == s@.subrange(
                        off,
                        s@.len() as int,
                    )[j] by {
                        assert(s@[off + j] == k@[star + 1 + j]);
                    }
                }
                assert(trailer.is_suffix_of(s@));
            } else if trailer.is_suffix_of(s@) {
                assert forall|j: int| 0 <= j < tail implies #[trigger] s@[off + j] == k@[star + 1
                    + j] by {
                    assert(trailer[j] == s@.subrange(off, s@.len() as int)[j]);
                }
            }
        }
    }
    if !starts || !ends {
        return None;
    }
    let mut mid: Vec<u16> = Vec::new();
    let end: usize = s.len() - tail;
    let mut i: usize = star;
    while i < end
        invariant
            star <= i <= end,
            end <= s@.len(),
            mid@ == s@.subrange(star as int, i as int),
        decreases end - i,
    {
        mid.push(s[i]);
        proof {
            assert(mid@ =~= s@.subrange(star as int, i + 1));
        }
        i += 1;
    }
    let text = decode_units(&mid);
    let again = utf16_units(text.as_str());
    if units_eq(&again, &mid) {
        Some(text)
    } else {
        None
    }
}

/// The best of the keys from `i` on, and what its star stands for.
pub open spec fn best_from(
    keys: Seq<Seq<char>>,
    specifier: Seq<char>,
    whole: bool,
    i: int,
    best: Option<(int, Seq<char>)>,
) -> Option<(int, Seq<char>)>
    decreases keys.len() - i,
{
    if i < 0 || i >= keys.len() {
        best
    } else {
        let found = key_match(keys[i], specifier, whole);
        let better = best is None || key_order(keys[(best->0).0], keys[i]) == 1;
        if found is Some && better {
            best_from(keys, specifier, whole, i + 1, Some((i, found->0)))
        } else {
            best_from(keys, specifier, whole, i + 1, best)
        }
    }
}

fn find_best(
    e: &Vec<(String, Json)>,
    specifier: &str,
    whole: bool,
    Ghost(keys): Ghost<Seq<Seq<char>>>,
) -> (r: Option<(usize, String)>)
    requires
        keys.len() == e@.len(),
        forall|i: int| 0 <= i < e@.len() ==> #[trigger] keys[i] == e@[i].0@,
    ensures
        match r {
            Some(p) => p.0 < e@.len() && best_from(keys, specifier@, whole, 0, None) == Some(
                (p.0 as int, p.1@),
            ),
            None => best_from(keys, specifier@, whole, 0, None) is None,
        },
{
    let mut best: Option<(usize, String)> = None;
    let mut i: usize = 0;
    while i < e.len()
        invariant
            keys.len() == e@.len(),
            forall|j: int| 0 <= j < e@.len() ==> #[trigger] keys[j] == e@[j].0@,
            i <= e@.len(),
            best is Some ==> (best->0).0 < i,
            best_from(keys, specifier@, whole, 0, None) == best_from(
                keys,
                specifier@,
                whole,
                i as int,
                match best {
                    Some(p) => Some((p.0 as int, p.1@)),
                    None => None,
                },
            ),
        decreases e@.len() - i,
    {
        let key = e[i].0.as_str();
        assert(keys[i as int] == key@);
        let better = match &best {
            None => true,
            Some((b, _)) => {
                assert(keys[*b as int] == e@[*b as int].0@);
                pattern_key_compare(e[*b].0.as_str(), key) == 1
            },
        };
        if let Some(found) = match_key(key, specifier, whole) {
            if better {
                best = Some((i, found));
            }
        }
        i += 1;
    }
    best
}

/// How many of the first `k` keys start with a dot.
pub open spec fn dotted_upto(e: Seq<(Seq<char>, JsonModel)>, k: int) -> nat
    decreases k,
{
    if k <= 0 {
        0
    } else {
        dotted_upto(e, k - 1) + if has_prefix(e[k - 1].0, "."@) {
            1nat
        } else {
            0
        }
    }
}

/// The paths that a package exports: all keys of its exports start with a dot, or
/// none does and the exports are those of the package itself.
pub open spec fn exported_paths(exports: JsonModel) -> Option<Seq<(Seq<char>, JsonModel)>> {
    match exports {
        JsonModel::Obj(e) => {
            let n = dotted_upto(e, e.len() as int);
            if n == e.len() {
                Some(e)
            } else if n == 0 {
                Some(seq![("."@, exports)])
            } else {
                None
            }
        },
        JsonModel::Str(_) | JsonModel::Arr(_) => Some(seq![("."@, exports)]),
        _ => None,
    }
}

/// What a path in the exports of a package leads to.
pub open spec fn exported_path(dir: Seq<char>, subpath: Seq<char>, exports: JsonModel) -> TargetModel {
    match exported_paths(exports) {
        None => TargetModel::Fatal,
        Some(e) => {
            let at = find_key(keys_of(e), subpath, 0);
            if at < e.len() && !subpath.contains('*') && !has_suffix(subpath, "/"@) {
                export_target(dir, e[at].1, Seq::empty(), false)
            } else {
                match best_from(keys_of(e), subpath, false, 0, None) {
                    None => TargetModel::Fatal,
                    Some((i, matched)) => export_target(dir, e[i].1, matched, true),
                }
            }
        },
    }
}

/// The file that a target names, or why there is none. What leads nowhere has failed.
pub open spec fn target_file(f: FactsModel, t: TargetModel) -> Asked<TargetModel> {
    match t {
        TargetModel::Resolved(p) => match file_named(f, p) {
            Ok(Some(file)) => Ok(TargetModel::Resolved(file)),
            Ok(None) => Ok(TargetModel::Fatal),
            Err(q) => Err(q),
        },
        TargetModel::Invalid => Ok(TargetModel::Invalid),
        _ => Ok(TargetModel::Fatal),
    }
}

/// What a target or a question is, mathematically.
pub open spec fn asked_target(r: Result<Target, Query>) -> Asked<TargetModel> {
    match r {
        Ok(t) => Ok(t.model()),
        Err(q) => Err(q.model()),
    }
}

fn finish_target(facts: &Facts, t: Target) -> (r: Result<Target, Query>)
    ensures
        asked_target(r) == target_file(facts.model(), t.model()),
{
    match t {
        Target::Resolved(p) => match finalize_file(facts, p.as_str()) {
            Ok(Some(file)) => Ok(Target::Resolved(file)),
            Ok(None) => Ok(Target::Fatal),
            Err(q) => Err(q),
        },
        Target::Invalid => Ok(Target::Invalid),
        _ => Ok(Target::Fatal),
    }
}

fn count_dotted(e: &Vec<(String, Json)>, Ghost(all): Ghost<Seq<(Seq<char>, JsonModel)>>) -> (r: usize)
    requires
        all.len() == e@.len(),
        forall|i: int|
            0 <= i < e@.len() ==> (#[trigger] all[i]) == (e@[i].0@, e@[i].1.model()),
    ensures
        r == dotted_upto(all, all.len() as int),
        r <= e@.len(),
{
    let mut n: usize = 0;
    let mut i: usize = 0;
    while i < e.len()
        invariant
            all.len() == e@.len(),
            forall|j: int|
                0 <= j < e@.len() ==> (#[trigger] all[j]) == (e@[j].0@, e@[j].1.model()),
            n <= i <= e@.len(),
            n == dotted_upto(all, i as int),
        decreases e@.len() - i,
    {
        assert(all[i as int].0 == e@[i as int].0@);
        if starts_with(e[i].0.as_str(), ".") {
            n += 1;
        }
        i += 1;
    }
    n
}

fn has_star(text: &str) -> (r: bool)
    ensures
        r == text@.contains('*'),
{
    let s = chars_of(text);
    let mut i: usize = 0;
    while i < s.len()
        invariant
            s@ == text@,
            i <= s@.len(),
            forall|j: int| 0 <= j < i ==> s@[j] != '*',
        decreases s@.len() - i,
    {
        if s[i] == '*' {
            assert(text@[i as int] == '*');
            return true;
        }
        i += 1;
    }
    false
}

/// What a path leads to where a package exports itself alone.
proof fn lemma_alone(dir: Seq<char>, subpath: Seq<char>, exports: JsonModel)
    requires
        exported_paths(exports) == Some(seq![("."@, exports)]),
    ensures
        exported_path(dir, subpath, exports) == if subpath == "."@ {
            export_target(dir, exports, Seq::empty(), false)
        } else {
            TargetModel::Fatal
        },
{
    let e = seq![("."@, exports)];
    let keys = keys_of(e);
    reveal_strlit(".");
    reveal_strlit("/");
    assert(keys =~= seq!["."@]);
    lemma_find_key(keys, subpath, 0);
    if subpath == "."@ {
        assert(find_key(keys, subpath, 0) == 0);
        assert(!subpath.contains('*'));
        assert(!has_suffix(subpath, "/"@)) by {
            if has_suffix(subpath, "/"@) {
                assert(subpath[0] == "/"@[0]);
            }
        }
    } else {
        assert(keys[0] == "."@);
        assert(find_key(keys, subpath, 0) >= 1);
        assert(key_match("."@, subpath, false) is None) by {
            reveal_with_fuel(utf16, 2);
            assert("."@.drop_last() =~= Seq::<char>::empty());
            assert("."@.last() == '.');
            assert(utf16("."@) =~= seq!['.' as u16]);
            reveal_with_fuel(star_at, 2);
            assert(star_at(utf16("."@), 0) == 1);
        }
        reveal_with_fuel(best_from, 2);
    }
}

fn package_exports_resolve(dir: &str, subpath: &str, exports: &Json) -> (r: Target)
    ensures
        r.model() == exported_path(dir@, subpath@, exports.model()),
{
    let ghost alone = exported_paths(exports.model()) == Some(seq![("."@, exports.model())]);
    match exports {
        Json::Obj(e) => {
            let ghost all = exports.model()->Obj_0;
            let n: usize = count_dotted(e, Ghost(all));
            if n == e.len() {
                let at: usize = position_of(e, subpath);
                proof {
                    assert(keys_of(all) =~= item_keys(e@));
                    lemma_find_key(keys_of(all), subpath@, 0);
                }
                if at < e.len() && !has_star(subpath) && !ends_with(subpath, "/") {
                    proof {
                        reveal_strlit("");
                        assert(""@ =~= Seq::<char>::empty());
                        assert(all[at as int] == (e@[at as int].0@, e@[at as int].1.model()));
                    }
                    return resolve_export_target(dir, &e[at].1, "", false);
                }
                return match find_best(e, subpath, false, Ghost(keys_of(all))) {
                    Some((i, matched)) => {
                        assert(all[i as int] == (e@[i as int].0@, e@[i as int].1.model()));
                        resolve_export_target(dir, &e[i].1, matched.as_str(), true)
                    },
                    None => Target::Fatal,
                };
            }
            if n > 0 {
                return Target::Fatal;
            }
        },
        Json::Str(_) => {},
        Json::Arr(_) => {},
        _ => {
            return Target::Fatal;
        },
    }
    proof {
        lemma_alone(dir@, subpath@, exports.model());
        reveal_strlit("");
        assert(""@ =~= Seq::<char>::empty());
    }
    if str_eq(subpath, ".") {
        resolve_export_target(dir, exports, "", false)
    } else {
        Target::Fatal
    }
}

/// The manifest that a file belongs to.
#[verifier::ext_equal]
pub enum HomeModel {
    Found(Seq<char>, JsonModel),
    NotFound,
    Malformed,
}

/// The manifest in the directory of the first `k` names of a path or above it. The
/// search does not leave a directory of packages.
pub open spec fn scope_above(f: FactsModel, path: Seq<char>, k: int) -> Asked<HomeModel>
    decreases k + 1,
{
    if k < 0 {
        Ok(HomeModel::NotFound)
    } else {
        let dir = dir_upto(path, k);
        if k > 0 && names(path)[k - 1] == "node_modules"@ {
            Ok(HomeModel::NotFound)
        } else {
            match f.manifest(dir) {
                Err(q) => Err(q),
                Ok(ManifestModel::Parsed(v)) => if v is Null {
                    Ok(HomeModel::Malformed)
                } else {
                    Ok(HomeModel::Found(dir, v))
                },
                Ok(ManifestModel::Malformed) => Ok(HomeModel::Malformed),
                Ok(_) => scope_above(f, path, k - 1),
            }
        }
    }
}

/// The manifest that a file belongs to.
pub open spec fn scope_of(f: FactsModel, path: Seq<char>) -> Asked<HomeModel> {
    scope_above(f, path, names(path).len() - 1)
}

enum Home<'a> {
    Found(String, &'a Json),
    NotFound,
    Malformed,
}

impl<'a> Home<'a> {
    spec fn model(self) -> HomeModel {
        match self {
            Home::Found(dir, v) => HomeModel::Found(dir@, v.model()),
            Home::NotFound => HomeModel::NotFound,
            Home::Malformed => HomeModel::Malformed,
        }
    }
}

fn package_scope_config<'a>(facts: &'a Facts, from: &str) -> (r: Result<Home<'a>, Query>)
    ensures
        match r {
            Ok(s) => scope_of(facts.model(), from@) == Ok::<HomeModel, QueryModel>(s.model()),
            Err(q) => scope_of(facts.model(), from@) == Err::<HomeModel, QueryModel>(q.model()),
        },
{
    let v = path_names(from);
    let ghost f = facts.model();
    let mut k: usize = v.len();
    proof {
        assert(texts(v@).len() == v@.len());
    }
    while k > 0
        invariant
            k <= v@.len(),
            texts(v@) == names(from@),
            f == facts.model(),
            scope_of(f, from@) == scope_above(f, from@, k - 1),
        decreases k,
    {
        k -= 1;
        let dir = dir_of(from, &v, k);
        if k > 0 {
            assert(names(from@)[k - 1] == v@[k - 1]@);
            if str_eq(v[k - 1].as_str(), "node_modules") {
                return Ok(Home::NotFound);
            }
        }
        match facts.manifest(dir.as_str()) {
            Err(q) => {
                return Err(q);
            },
            Ok(Manifest::Parsed(json)) => {
                return match json {
                    Json::Null => Ok(Home::Malformed),
                    _ => Ok(Home::Found(dir, json)),
                };
            },
            Ok(Manifest::Malformed) => {
                return Ok(Home::Malformed);
            },
            Ok(_) => {},
        }
    }
    Ok(Home::NotFound)
}

/// The text of a member of a manifest.
pub open spec fn text_member(v: JsonModel, key: Seq<char>) -> Option<Seq<char>> {
    match member(v, key) {
        Some(JsonModel::Str(s)) => Some(s),
        _ => None,
    }
}

/// A member of a manifest that is not `null`.
pub open spec fn value_member(v: JsonModel, key: Seq<char>) -> Option<JsonModel> {
    match member(v, key) {
        Some(JsonModel::Null) => None,
        o => o,
    }
}

fn text_field(v: &Json, key: &str) -> (r: Option<String>)
    ensures
        opt_text(r) == text_member(v.model(), key@),
{
    match v.get(key) {
        Some(Json::Str(s)) => Some(s.clone()),
        _ => None,
    }
}

fn value_field<'a>(v: &'a Json, key: &str) -> (r: Option<&'a Json>)
    ensures
        match r {
            Some(j) => value_member(v.model(), key@) == Some(j.model()),
            None => value_member(v.model(), key@) is None,
        },
{
    match v.get(key) {
        Some(Json::Null) => None,
        o => o,
    }
}

/// The files that may be the main file of a package, in the order in which they are
/// tried.
pub open spec fn main_guesses(main: Option<Seq<char>>) -> Seq<Seq<char>> {
    let rest = seq!["index.js"@, "index.json"@, "index.node"@];
    match main {
        Some(m) => seq![
            m,
            m + ".js"@,
            m + ".json"@,
            m + ".node"@,
            m + "/index.js"@,
            m + "/index.json"@,
            m + "/index.node"@,
        ] + rest,
        None => rest,
    }
}

/// The first of the guesses from `i` on that is a file.
pub open spec fn main_from(f: FactsModel, dir: Seq<char>, guesses: Seq<Seq<char>>, i: int) -> Asked<
    Option<Seq<char>>,
>
    decreases guesses.len() - i,
{
    if i < 0 || i >= guesses.len() {
        Ok(None)
    } else {
        match file_named(f, url_joined(dir, slashed(before_query(guesses[i])))) {
            Err(q) => Err(q),
            Ok(Some(p)) => Ok(Some(p)),
            Ok(None) => main_from(f, dir, guesses, i + 1),
        }
    }
}

fn list_guesses(main: &Option<String>) -> (r: Vec<String>)
    ensures
        texts(r@) == main_guesses(opt_text(*main)),
{
    let mut out: Vec<String> = Vec::new();
    if let Some(m) = main {
        out.push(m.clone());
        out.push(concat2(m.as_str(), ".js"));
        out.push(concat2(m.as_str(), ".json"));
        out.push(concat2(m.as_str(), ".node"));
        out.push(concat2(m.as_str(), "/index.js"));
        out.push(concat2(m.as_str(), "/index.json"));
        out.push(concat2(m.as_str(), "/index.node"));
    }
    out.push("index.js".to_owned());
    out.push("index.json".to_owned());
    out.push("index.node".to_owned());
    proof {
        assert(texts(out@) =~= main_guesses(opt_text(*main)));
    }
    out
}

fn legacy_main_resolve(facts: &Facts, dir: &str, main: &Option<String>) -> (r: Result<
    Option<String>,
    Query,
>)
    ensures
        asked_text(r) == main_from(
            facts.model(),
            dir@,
            main_guesses(opt_text(*main)),
            0,
        ),
{
    let guesses = list_guesses(main);
    let ghost all = texts(guesses@);
    let ghost f = facts.model();
    let mut i: usize = 0;
    while i < guesses.len()
        invariant
            all == texts(guesses@),
            all == main_guesses(opt_text(*main)),
            f == facts.model(),
            i <= guesses@.len(),
            main_from(f, dir@, all, 0) == main_from(f, dir@, all, i as int),
        decreases guesses@.len() - i,
    {
        assert(all[i as int] == guesses@[i as int]@);
        let place = join_url_segments(
            dir,
            url_path(strip_query_fragment(guesses[i].as_str()).as_str()).as_str(),
        );
        match finalize_file(facts, place.as_str()) {
            Err(q) => {
                return Err(q);
            },
            Ok(Some(p)) => {
                return Ok(Some(p));
            },
            Ok(None) => {},
        }
        i += 1;
    }
    Ok(None)
}

/// A file, or failure where there is none.
pub open spec fn file_or_fatal(r: Asked<Option<Seq<char>>>) -> Asked<TargetModel> {
    match r {
        Ok(Some(p)) => Ok(TargetModel::Resolved(p)),
        Ok(None) => Ok(TargetModel::Fatal),
        Err(q) => Err(q),
    }
}

/// What a path inside the package in a directory leads to.
pub open spec fn in_package(f: FactsModel, dir: Seq<char>, subpath: Seq<char>) -> Asked<
    TargetModel,
> {
    match f.manifest(dir) {
        Err(q) => Err(q),
        Ok(ManifestModel::Malformed) | Ok(ManifestModel::Parsed(JsonModel::Null)) => Ok(
            TargetModel::Fatal,
        ),
        Ok(m) => {
            let exports = match m {
                ManifestModel::Parsed(v) => value_member(v, "exports"@),
                _ => None,
            };
            let main = match m {
                ManifestModel::Parsed(v) => text_member(v, "main"@),
                _ => None,
            };
            match exports {
                Some(e) => target_file(f, exported_path(dir, subpath, e)),
                None => if subpath == "."@ {
                    file_or_fatal(main_from(f, dir, main_guesses(main), 0))
                } else {
                    file_or_fatal(
                        file_named(f, url_joined(dir, slashed(before_query(subpath.skip(2))))),
                    )
                },
            }
        },
    }
}

fn resolve_in_package(facts: &Facts, dir: &str, subpath: &str) -> (r: Result<Target, Query>)
    requires
        subpath@ == "."@ || subpath@.len() >= 2,
    ensures
        asked_target(r) == in_package(facts.model(), dir@, subpath@),
{
    let none: Option<String> = None;
    let (exports, main) = match facts.manifest(dir) {
        Err(q) => {
            return Err(q);
        },
        Ok(Manifest::Malformed) => {
            return Ok(Target::Fatal);
        },
        Ok(Manifest::Parsed(json)) => {
            if let Json::Null = json {
                return Ok(Target::Fatal);
            }
            (value_field(json, "exports"), text_field(json, "main"))
        },
        Ok(_) => (None, none),
    };
    if let Some(e) = exports {
        return finish_target(facts, package_exports_resolve(dir, subpath, e));
    }
    if str_eq(subpath, ".") {
        return match legacy_main_resolve(facts, dir, &main) {
            Ok(Some(p)) => Ok(Target::Resolved(p)),
            Ok(None) => Ok(Target::Fatal),
            Err(q) => Err(q),
        };
    }
    let s = chars_of(subpath);
    let rest = piece(&s, 2, s.len());
    proof {
        assert(rest@ =~= subpath@.skip(2));
    }
    let place = join_url_segments(
        dir,
        url_path(strip_query_fragment(rest.as_str()).as_str()).as_str(),
    );
    match finalize_file(facts, place.as_str()) {
        Ok(Some(p)) => Ok(Target::Resolved(p)),
        Ok(None) => Ok(Target::Fatal),
        Err(q) => Err(q),
    }
}

/// The directory of a package beside the directory of the first `k` names of a path.
pub open spec fn package_dir(path: Seq<char>, name: Seq<char>, k: int) -> Seq<char> {
    joined(joined(dir_upto(path, k), "node_modules"@), name)
}

/// What a path inside a package leads to, where the package is looked for beside the
/// directory of the first `k` names of a path and above.
pub open spec fn packages_above(
    f: FactsModel,
    path: Seq<char>,
    name: Seq<char>,
    subpath: Seq<char>,
    k: int,
) -> Asked<TargetModel>
    decreases k + 1,
{
    if k < 0 {
        Ok(TargetModel::Fatal)
    } else {
        let dir = package_dir(path, name, k);
        match f.is_dir(dir) {
            Err(q) => Err(q),
            Ok(true) => in_package(f, dir, subpath),
            Ok(false) => packages_above(f, path, name, subpath, k - 1),
        }
    }
}

/// The exports of the package that a file belongs to, if it has the given name.
pub open spec fn own_exports(s: HomeModel, name: Seq<char>) -> Option<(Seq<char>, JsonModel)> {
    match s {
        HomeModel::Found(dir, v) => match value_member(v, "exports"@) {
            Some(e) => if text_member(v, "name"@) == Some(name) {
                Some((dir, e))
            } else {
                None
            },
            None => None,
        },
        _ => None,
    }
}

/// What a specifier of a package leads to.
pub open spec fn package_target(f: FactsModel, specifier: Seq<char>, importer: Seq<char>) -> Asked<
    TargetModel,
> {
    match package_parts(specifier) {
        None => Ok(TargetModel::Fatal),
        Some((name, subpath)) => match scope_of(f, importer) {
            Err(q) => Err(q),
            Ok(HomeModel::Malformed) => Ok(TargetModel::Fatal),
            Ok(s) => match own_exports(s, name) {
                Some((dir, e)) => target_file(f, exported_path(dir, subpath, e)),
                None => packages_above(f, importer, name, subpath, names(importer).len() - 1),
            },
        },
    }
}

fn package_resolve(facts: &Facts, specifier: &str, importer: &str) -> (r: Result<Target, Query>)
    ensures
        asked_target(r) == package_target(facts.model(), specifier@, importer@),
{
    let (name, subpath) = match parse_package_name(specifier) {
        Some(p) => p,
        None => {
            return Ok(Target::Fatal);
        },
    };
    match package_scope_config(facts, importer) {
        Err(q) => {
            return Err(q);
        },
        Ok(Home::Malformed) => {
            return Ok(Target::Fatal);
        },
        Ok(Home::Found(dir, json)) => {
            let own = match text_field(json, "name") {
                Some(n) => str_eq(n.as_str(), name.as_str()),
                None => false,
            };
            if let Some(e) = value_field(json, "exports") {
                if own {
                    return finish_target(
                        facts,
                        package_exports_resolve(dir.as_str(), subpath.as_str(), e),
                    );
                }
            }
        },
        Ok(Home::NotFound) => {},
    }
    find_package(facts, importer, name.as_str(), subpath.as_str())
}

fn find_package(facts: &Facts, importer: &str, name: &str, subpath: &str) -> (r: Result<
    Target,
    Query,
>)
    requires
        subpath@ == "."@ || subpath@.len() >= 2,
    ensures
        asked_target(r) == packages_above(
            facts.model(),
            importer@,
            name@,
            subpath@,
            names(importer@).len() - 1,
        ),
{
    let v = path_names(importer);
    let ghost f = facts.model();
    let ghost n = names(importer@).len() - 1;
    let mut k: usize = v.len();
    proof {
        assert(texts(v@).len() == v@.len());
    }
    while k > 0
        invariant
            k <= v@.len(),
            texts(v@) == names(importer@),
            n == names(importer@).len() - 1,
            f == facts.model(),
            subpath@ == "."@ || subpath@.len() >= 2,
            packages_above(f, importer@, name@, subpath@, n) == packages_above(
                f,
                importer@,
                name@,
                subpath@,
                k - 1,
            ),
        decreases k,
    {
        k -= 1;
        let base = dir_of(importer, &v, k);
        let dir = path_join(path_join(base.as_str(), "node_modules").as_str(), name);
        assert(dir@ == package_dir(importer@, name@, k as int));
        match facts.is_dir(dir.as_str()) {
            Err(q) => {
                return Err(q);
            },
            Ok(b) => {
                if b {
                    return resolve_in_package(facts, dir.as_str(), subpath);
                }
            },
        }
    }
    Ok(Target::Fatal)
}

/// What a target of the imports of a package leads to, if it is a text. It may name
/// another package.
pub open spec fn import_text(
    f: FactsModel,
    dir: Seq<char>,
    target: Seq<char>,
    matched: Seq<char>,
    pattern: bool,
) -> Asked<TargetModel> {
    if unfit_match(target, matched, pattern) {
        Ok(TargetModel::Invalid)
    } else if has_prefix(target, "./"@) {
        Ok(inner_target(dir, target, matched, pattern))
    } else if has_prefix(target, "../"@) || has_prefix(target, "/"@) || has_scheme(target) {
        Ok(TargetModel::Invalid)
    } else {
        let full = if pattern {
            starred(target, matched)
        } else {
            target + matched
        };
        package_target(f, full, joined(dir, "package.json"@))
    }
}

/// What a target of the imports of a package leads to.
pub open spec fn import_target(
    f: FactsModel,
    dir: Seq<char>,
    target: JsonModel,
    matched: Seq<char>,
    pattern: bool,
) -> Asked<TargetModel>
    decreases target, 0int,
{
    match target {
        JsonModel::Str(s) => import_text(f, dir, s, matched, pattern),
        JsonModel::Arr(items) => import_items(f, dir, items, 0, matched, pattern, false),
        JsonModel::Obj(e) => {
            let at = condition_from(e, 0);
            if has_index_key(e) {
                Ok(TargetModel::Fatal)
            } else if 0 <= at < e.len() {
                import_target(f, dir, e[at].1, matched, pattern)
            } else {
                Ok(TargetModel::Null)
            }
        },
        JsonModel::Null => Ok(TargetModel::Null),
        _ => Ok(TargetModel::Invalid),
    }
}

/// What the targets in an array from `i` on lead to: the first that leads somewhere.
pub open spec fn import_items(
    f: FactsModel,
    dir: Seq<char>,
    items: Seq<JsonModel>,
    i: int,
    matched: Seq<char>,
    pattern: bool,
    invalid: bool,
) -> Asked<TargetModel>
    decreases items, items.len() - i,
{
    if i < 0 || i >= items.len() {
        Ok(
            if invalid {
                TargetModel::Invalid
            } else {
                TargetModel::Null
            },
        )
    } else {
        match import_target(f, dir, items[i], matched, pattern) {
            Ok(TargetModel::Null) => import_items(f, dir, items, i + 1, matched, pattern, false),
            Ok(TargetModel::Invalid) => import_items(f, dir, items, i + 1, matched, pattern, true),
            other => other,
        }
    }
}

fn resolve_import_text(facts: &Facts, dir: &str, target: &str, matched: &str, pattern: bool) -> (r:
    Result<Target, Query>)
    ensures
        asked_target(r) == import_text(facts.model(), dir@, target@, matched@, pattern),
{
    if is_unfit(target, matched, pattern) {
        return Ok(Target::Invalid);
    }
    if starts_with(target, "./") {
        return Ok(resolve_inner(dir, target, matched, pattern));
    }
    if starts_with(target, "../") || starts_with(target, "/") || parses_as_url(target) {
        return Ok(Target::Invalid);
    }
    let full = if pattern {
        replace_stars(target, matched)
    } else {
        concat2(target, matched)
    };
    package_resolve(facts, full.as_str(), path_join(dir, "package.json").as_str())
}

fn resolve_import_target(
    facts: &Facts,
    dir: &str,
    target: &Json,
    matched: &str,
    pattern: bool,
) -> (r: Result<Target, Query>)
    ensures
        asked_target(r) == import_target(facts.model(), dir@, target.model(), matched@, pattern),
    decreases target,
{
    let ghost f = facts.model();
    match target {
        Json::Str(s) => resolve_import_text(facts, dir, s.as_str(), matched, pattern),
        Json::Arr(items) => {
            let ghost all = target.model()->Arr_0;
            let mut invalid = false;
            let mut i: usize = 0;
            while i < items.len()
                invariant
                    *target == Json::Arr(*items),
                    all == target.model()->Arr_0,
                    f == facts.model(),
                    i <= items@.len(),
                    import_items(f, dir@, all, 0, matched@, pattern, false) == import_items(
                        f,
                        dir@,
                        all,
                        i as int,
                        matched@,
                        pattern,
                        invalid,
                    ),
                decreases items@.len() - i,
            {
                proof {
                    assert(decreases_to!(*target => target->Arr_0));
                    assert(decreases_to!(*items => items@[i as int]));
                    assert(all[i as int] == items@[i as int].model());
                }
                match resolve_import_target(facts, dir, &items[i], matched, pattern) {
                    Ok(Target::Null) => {
                        invalid = false;
                    },
                    Ok(Target::Invalid) => {
                        invalid = true;
                    },
                    other => {
                        return other;
                    },
                }
                i += 1;
            }
            if invalid {
                Ok(Target::Invalid)
            } else {
                Ok(Target::Null)
            }
        },
        Json::Obj(e) => {
            let ghost all = target.model()->Obj_0;
            let (at, indexed) = find_condition(e, Ghost(all));
            if indexed {
                return Ok(Target::Fatal);
            }
            if at < e.len() {
                proof {
                    assert(decreases_to!(*target => target->Obj_0));
                    assert(decreases_to!(*e => e@[at as int]));
                    assert(all[at as int] == (e@[at as int].0@, e@[at as int].1.model()));
                }
                return resolve_import_target(facts, dir, &e[at].1, matched, pattern);
            }
            Ok(Target::Null)
        },
        Json::Null => Ok(Target::Null),
        _ => Ok(Target::Invalid),
    }
}

/// The file that a target names, if it names one.
pub open spec fn named_file(f: FactsModel, t: Asked<TargetModel>) -> Asked<Option<Seq<char>>> {
    match t {
        Err(q) => Err(q),
        Ok(TargetModel::Resolved(p)) => file_named(f, p),
        Ok(_) => Ok(None),
    }
}

/// What the imports of a package make of a specifier.
pub open spec fn imported_path(
    f: FactsModel,
    dir: Seq<char>,
    map: Seq<(Seq<char>, JsonModel)>,
    specifier: Seq<char>,
) -> Asked<Option<Seq<char>>> {
    let at = find_key(keys_of(map), specifier, 0);
    if at < map.len() && !specifier.contains('*') {
        named_file(f, import_target(f, dir, map[at].1, Seq::empty(), false))
    } else {
        match best_from(keys_of(map), specifier, true, 0, None) {
            None => Ok(None),
            Some((i, matched)) => named_file(f, import_target(f, dir, map[i].1, matched, true)),
        }
    }
}

/// The file that a specifier with a number sign names.
pub open spec fn imports_file(f: FactsModel, specifier: Seq<char>, importer: Seq<char>) -> Asked<
    Option<Seq<char>>,
> {
    if specifier == "#"@ || has_prefix(specifier, "#/"@) || has_suffix(specifier, "/"@) {
        Ok(None)
    } else {
        match scope_of(f, importer) {
            Err(q) => Err(q),
            Ok(HomeModel::Found(dir, v)) => match value_member(v, "imports"@) {
                Some(JsonModel::Obj(map)) => imported_path(f, dir, map, specifier),
                _ => Ok(None),
            },
            Ok(_) => Ok(None),
        }
    }
}

fn finish_named(facts: &Facts, t: Result<Target, Query>) -> (r: Result<Option<String>, Query>)
    ensures
        asked_text(r) == named_file(facts.model(), asked_target(t)),
{
    match t {
        Err(q) => Err(q),
        Ok(Target::Resolved(p)) => finalize_file(facts, p.as_str()),
        Ok(_) => Ok(None),
    }
}

fn package_imports_resolve(facts: &Facts, specifier: &str, importer: &str) -> (r: Result<
    Option<String>,
    Query,
>)
    ensures
        asked_text(r) == imports_file(facts.model(), specifier@, importer@),
{
    if str_eq(specifier, "#") || starts_with(specifier, "#/") || ends_with(specifier, "/") {
        return Ok(None);
    }
    let (dir, json) = match package_scope_config(facts, importer) {
        Err(q) => {
            return Err(q);
        },
        Ok(Home::Found(dir, json)) => (dir, json),
        Ok(_) => {
            return Ok(None);
        },
    };
    let imports = match value_field(json, "imports") {
        Some(v) => v,
        None => {
            return Ok(None);
        },
    };
    let map = match imports {
        Json::Obj(map) => map,
        _ => {
            return Ok(None);
        },
    };
    let ghost all = imports.model()->Obj_0;
    let at: usize = position_of(map, specifier);
    proof {
        assert(keys_of(all) =~= item_keys(map@));
        lemma_find_key(keys_of(all), specifier@, 0);
        reveal_strlit("");
        assert(""@ =~= Seq::<char>::empty());
    }
    if at < map.len() && !has_star(specifier) {
        assert(all[at as int] == (map@[at as int].0@, map@[at as int].1.model()));
        let t = resolve_import_target(facts, dir.as_str(), &map[at].1, "", false);
        return finish_named(facts, t);
    }
    match find_best(map, specifier, true, Ghost(keys_of(all))) {
        None => Ok(None),
        Some((i, matched)) => {
            assert(all[i as int] == (map@[i as int].0@, map@[i as int].1.model()));
            let t = resolve_import_target(facts, dir.as_str(), &map[i].1, matched.as_str(), true);
            finish_named(facts, t)
        },
    }
}

/// A file without links, where there is one.
pub open spec fn without_links(f: FactsModel, r: Asked<Option<Seq<char>>>) -> Asked<
    Option<Seq<char>>,
> {
    match r {
        Ok(Some(p)) => match f.real_path(p) {
            Ok(x) => Ok(Some(x)),
            Err(q) => Err(q),
        },
        other => other,
    }
}

/// The file that a specifier names, without links.
pub open spec fn module_file(f: FactsModel, specifier: Seq<char>, importer: Seq<char>) -> Asked<
    Option<Seq<char>>,
> {
    if relative_specifier(specifier) {
        match parent_of(importer) {
            None => Ok(None),
            Some(dir) => without_links(
                f,
                file_named(f, url_joined(normal_path(dir), slashed(before_query(specifier)))),
            ),
        }
    } else if has_prefix(specifier, "."@) {
        Ok(None)
    } else if has_prefix(specifier, "#"@) {
        without_links(f, imports_file(f, specifier, importer))
    } else {
        match package_target(f, specifier, importer) {
            Err(q) => Err(q),
            Ok(TargetModel::Resolved(p)) => without_links(f, Ok(Some(p))),
            Ok(_) => Ok(None),
        }
    }
}

fn real_file(facts: &Facts, r: Result<Option<String>, Query>) -> (out: Result<
    Option<String>,
    Query,
>)
    ensures
        asked_text(out) == without_links(facts.model(), asked_text(r)),
{
    match r {
        Ok(Some(p)) => match facts.real_path(p.as_str()) {
            Ok(x) => Ok(Some(x)),
            Err(q) => Err(q),
        },
        other => other,
    }
}

fn module_resolve(facts: &Facts, specifier: &str, importer: &str) -> (r: Result<
    Option<String>,
    Query,
>)
    ensures
        asked_text(r) == module_file(facts.model(), specifier@, importer@),
{
    if is_relative_specifier(specifier) {
        return match path_parent(importer) {
            None => Ok(None),
            Some(dir) => {
                let way = url_path(strip_query_fragment(specifier).as_str());
                let place = join_url_segments(
                    normalize_path(dir.as_str()).as_str(),
                    way.as_str(),
                );
                real_file(facts, finalize_file(facts, place.as_str()))
            },
        };
    }
    if starts_with(specifier, ".") {
        return Ok(None);
    }
    if starts_with(specifier, "#") {
        return real_file(facts, package_imports_resolve(facts, specifier, importer));
    }
    match package_resolve(facts, specifier, importer) {
        Err(q) => Err(q),
        Ok(Target::Resolved(p)) => real_file(facts, Ok(Some(p))),
        Ok(_) => Ok(None),
    }
}

/// The first of the paths from `i` on that is anything.
pub open spec fn existing_from(f: FactsModel, paths: Seq<Seq<char>>, i: int) -> Asked<
    Option<Seq<char>>,
>
    decreases paths.len() - i,
{
    if i < 0 || i >= paths.len() {
        Ok(None)
    } else {
        match f.is_there(paths[i]) {
            Err(q) => Err(q),
            Ok(true) => Ok(Some(paths[i])),
            Ok(false) => existing_from(f, paths, i + 1),
        }
    }
}

fn first_existing(facts: &Facts, path: &str) -> (r: Result<Option<String>, Query>)
    ensures
        asked_text(r) == existing_from(facts.model(), possible_paths(path@), 0),
{
    let paths = possible_file_paths(path);
    let ghost all = texts(paths@);
    let ghost f = facts.model();
    let mut i: usize = 0;
    while i < paths.len()
        invariant
            all == texts(paths@),
            all == possible_paths(path@),
            f == facts.model(),
            i <= paths@.len(),
            existing_from(f, all, 0) == existing_from(f, all, i as int),
        decreases paths@.len() - i,
    {
        assert(all[i as int] == paths@[i as int]@);
        match facts.is_there(paths[i].as_str()) {
            Err(q) => {
                return Err(q);
            },
            Ok(b) => {
                if b {
                    return Ok(Some(paths[i].clone()));
                }
            },
        }
        i += 1;
    }
    Ok(None)
}

/// What an import is resolved against, besides the file system.
#[derive(Debug, Clone, Copy)]
pub struct ResolveConfig<'a> {
    pub aliases: Option<&'a Vec<(String, Vec<String>)>>,
    pub root_dir: Option<&'a str>,
}

/// The root directory of module resolution.
pub open spec fn root_of(options: ResolvedOptions) -> Option<Seq<char>> {
    match options.unstable_module_resolution {
        Some(m) => opt_text(m.root_dir),
        None => None,
    }
}

/// What aliases the options have.
pub open spec fn aliases_of(options: ResolvedOptions) -> Seq<(Seq<char>, Seq<Seq<char>>)> {
    match options.aliases {
        Some(v) => alias_models(v@),
        None => Seq::empty(),
    }
}

impl<'a> ResolveConfig<'a> {
    /// The aliases and the root directory of the options.
    pub fn of(options: &'a ResolvedOptions) -> (r: ResolveConfig<'a>)
        ensures
            opt_aliases(r.aliases) == aliases_of(*options),
            opt_slice(r.root_dir) == root_of(*options),
    {
        let root_dir = match &options.unstable_module_resolution {
            Some(m) => match &m.root_dir {
                Some(d) => Some(d.as_str()),
                None => None,
            },
            None => None,
        };
        let aliases = match &options.aliases {
            Some(v) => Some(v),
            None => None,
        };
        ResolveConfig { aliases, root_dir }
    }

    /// The aliases of the options alone.
    pub fn aliases_only(options: &'a ResolvedOptions) -> (r: ResolveConfig<'a>)
        ensures
            opt_aliases(r.aliases) == aliases_of(*options),
            r.root_dir is None,
    {
        let aliases = match &options.aliases {
            Some(v) => Some(v),
            None => None,
        };
        ResolveConfig { aliases, root_dir: None }
    }
}

/// The file that one of the paths of an import names.
pub open spec fn alias_file(
    f: FactsModel,
    possible: Seq<char>,
    importer: Seq<char>,
    root: Option<Seq<char>>,
) -> Asked<Option<Seq<char>>> {
    if has_prefix(possible, "/ROOT/"@) && root is Some {
        existing_from(f, possible_paths(path_joined(root->0, possible.skip(6))), 0)
    } else if rooted(possible) {
        existing_from(f, possible_paths(possible), 0)
    } else {
        module_file(f, possible, importer)
    }
}

/// The file that the paths of an import from `i` on name.
pub open spec fn alias_files(
    f: FactsModel,
    paths: Seq<Seq<char>>,
    i: int,
    importer: Seq<char>,
    root: Option<Seq<char>>,
) -> Asked<Option<Seq<char>>>
    decreases paths.len() - i,
{
    if i < 0 || i >= paths.len() {
        Ok(None)
    } else {
        match alias_file(f, paths[i], importer, root) {
            Ok(None) => alias_files(f, paths, i + 1, importer, root),
            other => other,
        }
    }
}

/// The file that one form of an import names. Aliases are not for relative imports.
pub open spec fn candidate_file(
    f: FactsModel,
    candidate: Seq<char>,
    importer: Seq<char>,
    aliases: Seq<(Seq<char>, Seq<Seq<char>>)>,
    root: Option<Seq<char>>,
) -> Asked<Option<Seq<char>>> {
    if has_prefix(candidate, "."@) {
        module_file(f, candidate, importer)
    } else {
        alias_files(f, aliased(candidate, aliases), 0, importer, root)
    }
}

/// The file that the forms of an import from `i` on name.
pub open spec fn candidate_files(
    f: FactsModel,
    candidates: Seq<Seq<char>>,
    i: int,
    importer: Seq<char>,
    aliases: Seq<(Seq<char>, Seq<Seq<char>>)>,
    root: Option<Seq<char>>,
) -> Asked<Option<Seq<char>>>
    decreases candidates.len() - i,
{
    if i < 0 || i >= candidates.len() {
        Ok(None)
    } else {
        match candidate_file(f, candidates[i], importer, aliases, root) {
            Ok(None) => candidate_files(f, candidates, i + 1, importer, aliases, root),
            other => other,
        }
    }
}

/// The file that an import names, if it names one.
pub open spec fn imported_file(
    f: FactsModel,
    specifier: Seq<char>,
    importer: Seq<char>,
    aliases: Seq<(Seq<char>, Seq<Seq<char>>)>,
    root: Option<Seq<char>>,
) -> Asked<Option<Seq<char>>> {
    candidate_files(f, possible_paths(specifier), 0, importer, aliases, root)
}

fn resolve_alias(facts: &Facts, possible: &str, importer: &str, root: Option<&str>) -> (r: Result<
    Option<String>,
    Query,
>)
    ensures
        asked_text(r) == alias_file(facts.model(), possible@, importer@, opt_slice(root)),
{
    if starts_with(possible, "/ROOT/") {
        if let Some(root) = root {
            proof {
                reveal_strlit("/ROOT/");
            }
            let s = chars_of(possible);
            let rest = piece(&s, 6, s.len());
            proof {
                assert(rest@ =~= possible@.skip(6));
            }
            let place = node_path_join(root, rest.as_str());
            return first_existing(facts, place.as_str());
        }
    }
    if is_rooted(possible) {
        return first_existing(facts, possible);
    }
    module_resolve(facts, possible, importer)
}

fn resolve_candidate(
    facts: &Facts,
    candidate: &str,
    importer: &str,
    config: ResolveConfig<'_>,
) -> (r: Result<Option<String>, Query>)
    ensures
        asked_text(r) == candidate_file(
            facts.model(),
            candidate@,
            importer@,
            opt_aliases(config.aliases),
            opt_slice(config.root_dir),
        ),
{
    if starts_with(candidate, ".") {
        return module_resolve(facts, candidate, importer);
    }
    let paths = possible_aliased_paths(candidate, config.aliases);
    let ghost all = texts(paths@);
    let ghost f = facts.model();
    let ghost root = opt_slice(config.root_dir);
    let mut i: usize = 0;
    while i < paths.len()
        invariant
            all == texts(paths@),
            all == aliased(candidate@, opt_aliases(config.aliases)),
            !has_prefix(candidate@, "."@),
            f == facts.model(),
            root == opt_slice(config.root_dir),
            i <= paths@.len(),
            alias_files(f, all, 0, importer@, root) == alias_files(
                f,
                all,
                i as int,
                importer@,
                root,
            ),
        decreases paths@.len() - i,
    {
        assert(all[i as int] == paths@[i as int]@);
        match resolve_alias(facts, paths[i].as_str(), importer, config.root_dir) {
            Ok(None) => {},
            other => {
                return other;
            },
        }
        i += 1;
    }
    Ok(None)
}

/// Gives the file that an import names, or the question to ask first.
pub fn resolve_import(
    facts: &Facts,
    specifier: &str,
    importer: &str,
    config: ResolveConfig<'_>,
) -> (r: Result<Option<String>, Query>)
    ensures
        asked_text(r) == imported_file(
            facts.model(),
            specifier@,
            importer@,
            opt_aliases(config.aliases),
            opt_slice(config.root_dir),
        ),
{
    let candidates = possible_file_paths(specifier);
    let ghost all = texts(candidates@);
    let ghost f = facts.model();
    let ghost aliases = opt_aliases(config.aliases);
    let ghost root = opt_slice(config.root_dir);
    let mut i: usize = 0;
    while i < candidates.len()
        invariant
            all == texts(candidates@),
            all == possible_paths(specifier@),
            f == facts.model(),
            aliases == opt_aliases(config.aliases),
            root == opt_slice(config.root_dir),
            i <= candidates@.len(),
            candidate_files(f, all, 0, importer@, aliases, root) == candidate_files(
                f,
                all,
                i as int,
                importer@,
                aliases,
                root,
            ),
        decreases candidates@.len() - i,
    {
        assert(all[i as int] == candidates@[i as int]@);
        match resolve_candidate(facts, candidates[i].as_str(), importer, config) {
            Ok(None) => {},
            other => {
                return other;
            },
        }
        i += 1;
    }
    Ok(None)
}

/// The name of a file that does not depend on where the project is.
pub open spec fn canonical_name(
    f: FactsModel,
    file: Seq<char>,
    root: Option<Seq<char>>,
    stop: Option<Seq<char>>,
) -> Asked<Seq<char>> {
    match nearest(f, file, stop) {
        Err(q) => Err(q),
        Ok(Some((name, dir))) => Ok(name + ":"@ + relative_path(dir, file)),
        Ok(None) => match root {
            Some(r) => Ok(relative_path(r, file)),
            None => Ok(
                "_unknown_path_:"@ + match last_name(file) {
                    Some(n) => n,
                    None => Seq::empty(),
                },
            ),
        },
    }
}

/// What a text or a question is, mathematically.
pub open spec fn asked_name(r: Result<String, Query>) -> Asked<Seq<char>> {
    match r {
        Ok(s) => Ok(s@),
        Err(q) => Err(q.model()),
    }
}

/// Gives the name of a file that does not depend on where the project is. The search
/// for its package ends at `stop_at`.
pub fn canonical_file_path(
    facts: &Facts,
    file: &str,
    root_dir: Option<&str>,
    stop_at: Option<&str>,
) -> (r: Result<String, Query>)
    ensures
        asked_name(r) == canonical_name(
            facts.model(),
            file@,
            opt_slice(root_dir),
            opt_slice(stop_at),
        ),
{
    match nearest_package(facts, file, stop_at) {
        Err(q) => Err(q),
        Ok(Some((name, dir))) => Ok(
            concat3(name.as_str(), ":", path_relative(dir.as_str(), file).as_str()),
        ),
        Ok(None) => match root_dir {
            Some(root) => Ok(path_relative(root, file)),
            None => {
                let base = match path_last_name(file) {
                    Some(n) => n,
                    None => String::new(),
                };
                Ok(concat2("_unknown_path_:", base.as_str()))
            },
        },
    }
}

/// The name of the file that an import of variables names, if it names one.
pub open spec fn theme_name(
    f: FactsModel,
    specifier: Seq<char>,
    source: Option<Seq<char>>,
    options: ResolvedOptions,
    stop: Option<Seq<char>>,
) -> Asked<Option<Seq<char>>> {
    match (source, options.unstable_module_resolution) {
        (Some(file), Some(m)) => if !theme_specifier(specifier, m.theme_file_extension@) {
            Ok(None)
        } else if m.kind == ModuleResolutionType::Haste {
            Ok(Some(with_extension(specifier, file)))
        } else {
            match imported_file(f, specifier, file, aliases_of(options), root_of(options)) {
                Err(q) => Err(q),
                Ok(None) => Ok(None),
                Ok(Some(p)) => match canonical_name(f, p, root_of(options), stop) {
                    Ok(name) => Ok(Some(name)),
                    Err(q) => Err(q),
                },
            }
        },
        _ => Ok(None),
    }
}

/// Gives the name of the file that an import of variables names, if it names one.
pub fn import_path_resolver(
    facts: &Facts,
    specifier: &str,
    source_file: Option<&str>,
    options: &ResolvedOptions,
    stop_at: Option<&str>,
) -> (r: Result<Option<String>, Query>)
    ensures
        asked_text(r) == theme_name(
            facts.model(),
            specifier@,
            opt_slice(source_file),
            *options,
            opt_slice(stop_at),
        ),
{
    let source = match source_file {
        Some(s) => s,
        None => {
            return Ok(None);
        },
    };
    let m = match &options.unstable_module_resolution {
        Some(m) => m,
        None => {
            return Ok(None);
        },
    };
    if !is_theme_specifier(specifier, m.theme_file_extension.as_str()) {
        return Ok(None);
    }
    match m.kind {
        ModuleResolutionType::Haste => Ok(Some(add_file_extension(specifier, source))),
        ModuleResolutionType::CommonJs => {
            let config = ResolveConfig::of(options);
            match resolve_import(facts, specifier, source, config) {
                Err(q) => Err(q),
                Ok(None) => Ok(None),
                Ok(Some(p)) => match canonical_file_path(
                    facts,
                    p.as_str(),
                    config.root_dir,
                    stop_at,
                ) {
                    Ok(name) => Ok(Some(name)),
                    Err(q) => Err(q),
                },
            }
        },
    }
}

/// The path that an aliased import of variables is rewritten to, if it is.
pub open spec fn rewritten_source(
    f: FactsModel,
    source: Seq<char>,
    filename: Seq<char>,
    options: ResolvedOptions,
) -> Asked<Option<Seq<char>>> {
    if !suffix_fits(THEME_FILE_EXTENSION@, source) {
        Ok(None)
    } else {
        match imported_file(f, source, filename, aliases_of(options), None) {
            Err(q) => Err(q),
            Ok(None) => Ok(None),
            Ok(Some(p)) => Ok(Some(without_extension(import_source(filename, p)))),
        }
    }
}

/// Gives the path that an aliased import of variables is rewritten to, if it is.
pub fn rewritten_import_source(
    facts: &Facts,
    source: &str,
    filename: &str,
    options: &ResolvedOptions,
) -> (r: Result<Option<String>, Query>)
    ensures
        asked_text(r) == rewritten_source(facts.model(), source@, filename@, *options),
{
    if !matches_file_suffix(THEME_FILE_EXTENSION, source) {
        return Ok(None);
    }
    match resolve_import(facts, source, filename, ResolveConfig::aliases_only(options)) {
        Err(q) => Err(q),
        Ok(None) => Ok(None),
        Ok(Some(p)) => Ok(
            Some(strip_extension(get_relative_path(filename, p.as_str()).as_str())),
        ),
    }
}

/// An answer of the file system.
#[derive(Debug, PartialEq)]
pub enum Answer {
    Flag(bool),
    Manifest(Manifest),
    Path(String),
}

/// What was learned of the file system. A snapshot keeps what it learned; a live one
/// is asked anew.
#[derive(Debug, PartialEq)]
pub struct MemoFs {
    pub live: bool,
    pub facts: Facts,
}

impl MemoFs {
    /// A memory that keeps what it learned.
    pub fn snapshot() -> (r: MemoFs)
        ensures
            !r.live,
            r.facts.model() == no_facts(),
    {
        MemoFs { live: false, facts: Facts::new() }
    }

    /// A memory whose answers hold for one question only.
    pub fn live() -> (r: MemoFs)
        ensures
            r.live,
            r.facts.model() == no_facts(),
    {
        MemoFs { live: true, facts: Facts::new() }
    }

    /// Forgets everything.
    pub fn invalidate_all(&mut self)
        ensures
            final(self).live == old(self).live,
            final(self).facts.model() == no_facts(),
    {
        self.facts = Facts::new();
    }

    /// Gets ready for a new question: a live memory forgets what it learned.
    pub fn begin(&mut self)
        ensures
            final(self).live == old(self).live,
            final(self).facts.model() == if old(self).live {
                no_facts()
            } else {
                old(self).facts.model()
            },
    {
        if self.live {
            self.invalidate_all();
        }
    }

    /// Learns the answer to a question. An answer of another kind is not learned.
    pub fn learn(&mut self, query: &Query, answer: Answer)
        ensures
            final(self).live == old(self).live,
            final(self).facts.model() == learned(
                old(self).facts.model(),
                query.model(),
                answer.model(),
            ),
    {
        let ghost before = self.facts.model();
        match (query, answer) {
            (Query::IsFile(p), Answer::Flag(b)) => {
                self.facts.files.push((p.clone(), b));
                proof {
                    assert(self.facts.model().files =~= before.files.push((p@, b)));
                }
            },
            (Query::Exists(p), Answer::Flag(b)) => {
                self.facts.exists.push((p.clone(), b));
                proof {
                    assert(self.facts.model().exists =~= before.exists.push((p@, b)));
                }
            },
            (Query::IsDir(p), Answer::Flag(b)) => {
                self.facts.dirs.push((p.clone(), b));
                proof {
                    assert(self.facts.model().dirs =~= before.dirs.push((p@, b)));
                }
            },
            (Query::Manifest(p), Answer::Manifest(m)) => {
                let ghost mm = m.model();
                self.facts.manifests.push((p.clone(), m));
                proof {
                    assert(self.facts.model().manifests =~= before.manifests.push((p@, mm)));
                }
            },
            (Query::RealPath(p), Answer::Path(r)) => {
                self.facts.real_paths.push((p.clone(), r));
                proof {
                    assert(self.facts.model().real_paths =~= before.real_paths.push((p@, r@)));
                }
            },
            _ => {},
        }
    }
}

/// Facts that say nothing.
pub open spec fn no_facts() -> FactsModel {
    FactsModel {
        files: Seq::empty(),
        exists: Seq::empty(),
        dirs: Seq::empty(),
        manifests: Seq::empty(),
        real_paths: Seq::empty(),
    }
}

/// An answer of the file system, mathematically.
#[verifier::ext_equal]
pub enum AnswerModel {
    Flag(bool),
    Manifest(ManifestModel),
    Path(Seq<char>),
}

impl Answer {
    /// What the answer is, mathematically.
    pub open spec fn model(self) -> AnswerModel {
        match self {
            Answer::Flag(b) => AnswerModel::Flag(b),
            Answer::Manifest(m) => AnswerModel::Manifest(m.model()),
            Answer::Path(p) => AnswerModel::Path(p@),
        }
    }
}

/// The facts after an answer was learned.
pub open spec fn learned(f: FactsModel, q: QueryModel, a: AnswerModel) -> FactsModel {
    match (q, a) {
        (QueryModel::IsFile(p), AnswerModel::Flag(b)) => FactsModel {
            files: f.files.push((p, b)),
            ..f
        },
        (QueryModel::Exists(p), AnswerModel::Flag(b)) => FactsModel {
            exists: f.exists.push((p, b)),
            ..f
        },
        (QueryModel::IsDir(p), AnswerModel::Flag(b)) => FactsModel { dirs: f.dirs.push((p, b)), ..f },
        (QueryModel::Manifest(p), AnswerModel::Manifest(m)) => FactsModel {
            manifests: f.manifests.push((p, m)),
            ..f
        },
        (QueryModel::RealPath(p), AnswerModel::Path(r)) => FactsModel {
            real_paths: f.real_paths.push((p, r)),
            ..f
        },
        _ => f,
    }
}

} // verus!
