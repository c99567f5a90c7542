//! Class names and source places for development.

use crate::shared::dashify::{sanitize_dev_class_name, sanitized};
use crate::text::{
    char_count, chars_of, concat2, concat3, concat4, find_part, first_place, join, join_texts,
    piece, split, split_at_char, str_eq, texts,
};
use crate::value::{opt_text, put, EvalValue, JsObjectMap, ObjModel, Val};
use vstd::prelude::*;

verus! {

/// What is known of the place of a source file.
#[derive(Debug)]
pub struct DebugPathInfo {
    /// The name and the directory of the nearest package above the file.
    pub file_package: Option<(String, String)>,
    /// The name of the nearest package above the working directory.
    pub cwd_package_name: Option<String>,
    /// The root directory of module resolution.
    pub root_dir: Option<String>,
    pub is_haste: bool,
}

impl Default for DebugPathInfo {
    fn default() -> (r: Self)
        ensures
            r.file_package is None,
            r.cwd_package_name is None,
            r.root_dir is None,
            !r.is_haste,
    {
        DebugPathInfo {
            file_package: None,
            cwd_package_name: None,
            root_dir: None,
            is_haste: false,
        }
    }
}

/// The last segment of a path.
pub open spec fn basename(path: Seq<char>) -> Seq<char> {
    split_at_char(path, '/').last()
}

/// What stands before the first dot of a name.
pub open spec fn stem(name: Seq<char>) -> Seq<char> {
    split_at_char(name, '.').first()
}

/// The start of all class names of one call.
pub open spec fn dev_prefix(var_name: Option<Seq<char>>, filename: Seq<char>) -> Seq<char> {
    match var_name {
        Some(v) => stem(basename(filename)) + "__"@ + v + "."@,
        None => stem(basename(filename)) + "__"@,
    }
}

/// The class name of a namespace.
pub open spec fn dev_class(
    namespace: Seq<char>,
    var_name: Option<Seq<char>>,
    filename: Seq<char>,
) -> Seq<char> {
    sanitized(dev_prefix(var_name, filename) + namespace)
}

/// The view of an optional string slice.
pub open spec fn opt_str(o: Option<&str>) -> Option<Seq<char>> {
    match o {
        Some(s) => Some(s@),
        None => None,
    }
}

proof fn lemma_split_some(s: Seq<char>, c: char, from: int)
    requires
        0 <= from <= s.len(),
    ensures
        crate::text::split_from(s, c, from).len() > 0,
{
}

/// Gives the last segment of a path.
pub fn path_basename(path: &str) -> (r: String)
    ensures
        r@ == basename(path@),
{
    let parts = split(path, '/');
    proof {
        lemma_split_some(path@, '/', 0);
        assert(texts(parts@).len() == parts@.len());
        assert(texts(parts@)[parts@.len() - 1] == parts@[parts@.len() - 1]@);
    }
    parts[parts.len() - 1].clone()
}

/// Gives what stands before the first dot of a name.
pub fn name_stem(name: &str) -> (r: String)
    ensures
        r@ == stem(name@),
{
    let parts = split(name, '.');
    proof {
        lemma_split_some(name@, '.', 0);
        assert(texts(parts@).len() == parts@.len());
        assert(texts(parts@)[0] == parts@[0]@);
    }
    parts[0].clone()
}

/// Gives the start of all class names of one call.
pub fn dev_class_prefix(var_name: Option<&str>, filename: &str) -> (r: String)
    ensures
        r@ == dev_prefix(opt_str(var_name), filename@),
{
    let base = name_stem(path_basename(filename).as_str());
    let name = base.as_str();
    match var_name {
        Some(v) => concat4(name, "__", v, "."),
        None => concat2(name, "__"),
    }
}

/// Gives the class name of a namespace.
pub fn namespace_to_dev_class_name(namespace: &str, var_name: Option<&str>, filename: &str) -> (r:
    String)
    ensures
        r@ == dev_class(namespace@, opt_str(var_name), filename@),
{
    let prefix = dev_class_prefix(var_name, filename);
    sanitize_dev_class_name(concat2(prefix.as_str(), namespace).as_str())
}

/// The object that stands for a namespace in tests.
pub open spec fn test_style(class: Seq<char>) -> Val {
    Val::Obj(
        ObjModel {
            entries: put(put(Seq::empty(), class, Val::Str(class)), "$$css"@, Val::Bool(true)),
            css: None,
        },
    )
}

/// The file name that stands for a missing one.
pub open spec fn file_or_unknown(filename: Option<Seq<char>>) -> Seq<char> {
    match filename {
        Some(f) => f,
        None => "UnknownFile"@,
    }
}

/// The first `k` namespaces as tests see them.
pub open spec fn test_styles_upto(
    e: Seq<(Seq<char>, Val)>,
    var_name: Option<Seq<char>>,
    filename: Option<Seq<char>>,
    k: int,
) -> Seq<(Seq<char>, Val)>
    decreases k,
{
    if k <= 0 {
        Seq::empty()
    } else {
        put(
            test_styles_upto(e, var_name, filename, k - 1),
            e[k - 1].0,
            test_style(dev_class(e[k - 1].0, var_name, file_or_unknown(filename))),
        )
    }
}

/// Gives the namespaces as tests see them: each has its class name alone.
pub fn convert_to_test_styles(
    compiled: &JsObjectMap,
    var_name: Option<&str>,
    filename: Option<&str>,
) -> (r: JsObjectMap)
    ensures
        r.pairs() == test_styles_upto(
            compiled.pairs(),
            opt_str(var_name),
            opt_str(filename),
            compiled.pairs().len() as int,
        ),
        r.model().css is None,
{
    let file = match filename {
        Some(f) => f,
        None => "UnknownFile",
    };
    let prefix = dev_class_prefix(var_name, file);
    let ghost e = compiled.pairs();
    let mut result = JsObjectMap::new();
    let mut i: usize = 0;
    while i < compiled.items.len()
        invariant
            e == compiled.pairs(),
            i <= compiled.items@.len(),
            prefix@ == dev_prefix(opt_str(var_name), file_or_unknown(opt_str(filename))),
            result.model().css is None,
            result.pairs() == test_styles_upto(
                e,
                opt_str(var_name),
                opt_str(filename),
                i as int,
            ),
        decreases compiled.items@.len() - i,
    {
        let namespace = compiled.items[i].0.as_str();
        assert(e[i as int].0 == namespace@);
        let class = sanitize_dev_class_name(concat2(prefix.as_str(), namespace).as_str());
        let mut obj = JsObjectMap::new();
        obj.insert(class.clone(), EvalValue::Str(class.clone()));
        obj.set("$$css", EvalValue::Bool(true));
        proof {
            assert(obj.model() =~= test_style(class@)->Obj_0);
        }
        result.set(namespace, EvalValue::Obj(obj));
        i += 1;
    }
    result
}

/// Those of the first `k` segments that are not empty.
pub open spec fn segments_upto(parts: Seq<Seq<char>>, k: int) -> Seq<Seq<char>>
    decreases k,
{
    if k <= 0 {
        Seq::empty()
    } else if parts[k - 1].len() > 0 {
        segments_upto(parts, k - 1).push(parts[k - 1])
    } else {
        segments_upto(parts, k - 1)
    }
}

/// The segments of a path.
pub open spec fn segments(path: Seq<char>) -> Seq<Seq<char>> {
    let parts = split_at_char(path, '/');
    segments_upto(parts, parts.len() as int)
}

/// How many segments two paths have in common, from `i` on.
pub open spec fn common_from(a: Seq<Seq<char>>, b: Seq<Seq<char>>, i: int) -> int
    decreases a.len() - i,
{
    if 0 <= i < a.len() && i < b.len() && a[i] == b[i] {
        common_from(a, b, i + 1)
    } else {
        i
    }
}

/// The segments that lead from one place to another: up to the last common
/// directory, and down from there.
pub open spec fn way(a: Seq<Seq<char>>, b: Seq<Seq<char>>) -> Seq<Seq<char>> {
    let n = common_from(a, b, 0);
    Seq::new((a.len() - n) as nat, |i: int| ".."@) + b.skip(n)
}

/// The path that leads from one place to another.
pub open spec fn relative(from: Seq<char>, to: Seq<char>) -> Seq<char> {
    join_texts(way(segments(from), segments(to)), "/"@)
}

/// Where the first `k` segments of a way lead from a place.
pub open spec fn walked(place: Seq<Seq<char>>, way: Seq<Seq<char>>, k: int) -> Seq<Seq<char>>
    decreases k,
{
    if k <= 0 {
        place
    } else {
        let at = walked(place, way, k - 1);
        if way[k - 1] == ".."@ && at.len() > 0 {
            at.drop_last()
        } else {
            at.push(way[k - 1])
        }
    }
}

pub(crate) proof fn lemma_common(a: Seq<Seq<char>>, b: Seq<Seq<char>>, i: int)
    requires
        0 <= i <= a.len(),
        i <= b.len(),
        forall|j: int| 0 <= j < i ==> a[j] == b[j],
    ensures
        i <= common_from(a, b, i) <= a.len(),
        common_from(a, b, i) <= b.len(),
        forall|j: int| 0 <= j < common_from(a, b, i) ==> a[j] == b[j],
    decreases a.len() - i,
{
    if i < a.len() && i < b.len() && a[i] == b[i] {
        lemma_common(a, b, i + 1);
    }
}

pub(crate) proof fn lemma_walk_up(a: Seq<Seq<char>>, b: Seq<Seq<char>>, k: int)
    requires
        0 <= k <= a.len() - common_from(a, b, 0),
    ensures
        walked(a, way(a, b), k) == a.take(a.len() - k),
    decreases k,
{
    lemma_common(a, b, 0);
    if k > 0 {
        lemma_walk_up(a, b, k - 1);
        assert(a.take(a.len() - (k - 1)).drop_last() =~= a.take(a.len() - k));
    } else {
        assert(a.take(a.len() as int) =~= a);
    }
}

pub(crate) proof fn lemma_walk_down(a: Seq<Seq<char>>, b: Seq<Seq<char>>, k: int)
    requires
        0 <= k <= b.len() - common_from(a, b, 0),
        forall|i: int| 0 <= i < b.len() ==> #[trigger] b[i] != ".."@,
    ensures
        walked(a, way(a, b), a.len() - common_from(a, b, 0) + k) == b.take(
            common_from(a, b, 0) + k,
        ),
    decreases k,
{
    let n = common_from(a, b, 0);
    lemma_common(a, b, 0);
    if k > 0 {
        lemma_walk_down(a, b, k - 1);
        assert(way(a, b)[a.len() - n + k - 1] == b[n + k - 1]);
        assert(b.take(n + k - 1).push(b[n + k - 1]) =~= b.take(n + k));
    } else {
        lemma_walk_up(a, b, a.len() - n);
        assert(a.take(n) =~= b.take(n));
    }
}

/// A way between two places leads from the first to the second, where the second is
/// no place above the root.
pub proof fn way_leads_there(a: Seq<Seq<char>>, b: Seq<Seq<char>>)
    requires
        forall|i: int| 0 <= i < b.len() ==> #[trigger] b[i] != ".."@,
    ensures
        walked(a, way(a, b), way(a, b).len() as int) == b,
{
    lemma_common(a, b, 0);
    lemma_walk_down(a, b, b.len() - common_from(a, b, 0));
    assert(b.take(b.len() as int) =~= b);
}

/// Gives the segments of a path.
pub fn path_segments(path: &str) -> (r: Vec<String>)
    ensures
        texts(r@) == segments(path@),
{
    let parts = split(path, '/');
    let ghost all = texts(parts@);
    let mut out: Vec<String> = Vec::new();
    proof {
        assert(texts(out@) =~= Seq::<Seq<char>>::empty());
    }
    let mut i: usize = 0;
    while i < parts.len()
        invariant
            all == texts(parts@),
            i <= parts@.len(),
            texts(out@) == segments_upto(all, i as int),
        decreases parts@.len() - i,
    {
        assert(all[i as int] == parts@[i as int]@);
        let n: usize = chars_of(parts[i].as_str()).len();
        if n > 0 {
            let ghost before = texts(out@);
            out.push(parts[i].clone());
            proof {
                assert(texts(out@) =~= before.push(all[i as int]));
            }
        }
        i += 1;
    }
    proof {
        assert(all.len() == parts@.len());
    }
    out
}

/// Gives the segments that lead from one place to another.
pub fn way_between(a: &Vec<String>, b: &Vec<String>) -> (r: Vec<String>)
    ensures
        texts(r@) == way(texts(a@), texts(b@)),
{
    let ghost am = texts(a@);
    let ghost bm = texts(b@);
    let mut n: usize = 0;
    while n < a.len() && n < b.len() && str_eq(a[n].as_str(), b[n].as_str())
        invariant
            am == texts(a@),
            bm == texts(b@),
            n <= a@.len(),
            n <= b@.len(),
            common_from(am, bm, 0) == common_from(am, bm, n as int),
        decreases a@.len() - n,
    {
        assert(am[n as int] == bm[n as int]);
        n += 1;
    }
    proof {
        if n < a@.len() && n < b@.len() {
            assert(am[n as int] == a@[n as int]@);
            assert(bm[n as int] == b@[n as int]@);
        }
        assert(common_from(am, bm, 0) == n);
    }
    let mut parts: Vec<String> = Vec::new();
    let mut i: usize = n;
    while i < a.len()
        invariant
            n <= i <= a@.len(),
            parts@.len() == i - n,
            forall|j: int| 0 <= j < parts@.len() ==> (#[trigger] parts@[j])@ == ".."@,
        decreases a@.len() - i,
    {
        parts.push("..".to_owned());
        i += 1;
    }
    i = n;
    while i < b.len()
        invariant
            n <= i <= b@.len(),
            n <= a@.len(),
            parts@.len() == a@.len() - n + i - n,
            forall|j: int| 0 <= j < a@.len() - n ==> (#[trigger] parts@[j])@ == ".."@,
            forall|j: int|
                a@.len() - n <= j < parts@.len() ==> (#[trigger] parts@[j])@ == b@[j - (a@.len()
                    - n) + n]@,
        decreases b@.len() - i,
    {
        parts.push(b[i].clone());
        i += 1;
    }
    proof {
        assert(texts(parts@) =~= way(am, bm));
    }
    parts
}

/// Gives the path that leads from one place to another.
pub fn relative_between(from: &str, to: &str) -> (r: String)
    ensures
        r@ == relative(from@, to@),
{
    let a = path_segments(from);
    let b = path_segments(to);
    let parts = way_between(&a, &b);
    join(&parts, "/")
}

/// The last two segments of a path, or the path below the root directory.
pub open spec fn short(filename: Seq<char>, root_dir: Option<Seq<char>>) -> Seq<char> {
    match root_dir {
        Some(root) => relative(root, filename),
        None => {
            let parts = split_at_char(filename, '/');
            join_texts(
                parts.skip(
                    if parts.len() >= 2 {
                        parts.len() - 2
                    } else {
                        0
                    },
                ),
                "/"@,
            )
        },
    }
}

/// The segment behind the first `node_modules` and one ASCII character, if it is not
/// empty.
pub open spec fn package_of(filename: Seq<char>) -> Option<Seq<char>> {
    let at = first_place(filename, "node_modules"@, 0);
    if at + 12 < filename.len() && (filename[at + 12] as u32) < 0x80 {
        let name = split_at_char(filename.skip(at + 13), '/').first();
        if name.len() > 0 {
            Some(name)
        } else {
            None
        }
    } else {
        None
    }
}

/// The view of an optional pair of strings.
pub open spec fn opt_pair(o: Option<(String, String)>) -> Option<(Seq<char>, Seq<char>)> {
    match o {
        Some(p) => Some((p.0@, p.1@)),
        None => None,
    }
}

/// The short name of a source file.
pub open spec fn short_filename(
    filename: Seq<char>,
    file_package: Option<(Seq<char>, Seq<char>)>,
    cwd_package: Option<Seq<char>>,
    root_dir: Option<Seq<char>>,
    is_haste: bool,
) -> Seq<char> {
    match file_package {
        Some((name, dir)) => if cwd_package == Some(name) {
            relative(dir, filename)
        } else {
            name + ":"@ + relative(dir, filename)
        },
        None => match package_of(filename) {
            Some(name) => name + ":"@ + short(filename, root_dir),
            None => if is_haste {
                basename(filename)
            } else {
                short(filename, root_dir)
            },
        },
    }
}

fn short_path(filename: &str, root_dir: &Option<String>) -> (r: String)
    ensures
        r@ == short(filename@, opt_text(*root_dir)),
{
    if let Some(root) = root_dir {
        return relative_between(root.as_str(), filename);
    }
    let parts = split(filename, '/');
    let ghost all = texts(parts@);
    let n: usize = parts.len();
    let start: usize = if n >= 2 {
        n - 2
    } else {
        0
    };
    let mut out: Vec<String> = Vec::new();
    let mut i: usize = start;
    while i < n
        invariant
            n == parts@.len(),
            start <= i <= n,
            out@.len() == i - start,
            forall|j: int| 0 <= j < out@.len() ==> (#[trigger] out@[j])@ == parts@[start + j]@,
        decreases n - i,
    {
        out.push(parts[i].clone());
        i += 1;
    }
    proof {
        assert(texts(out@) =~= all.skip(start as int));
    }
    join(&out, "/")
}

fn package_prefix(filename: &str) -> (r: Option<String>)
    ensures
        opt_text(r) == package_of(filename@),
{
    let s = chars_of(filename);
    let n: usize = char_count(&s);
    let name = chars_of("node_modules");
    proof {
        reveal_strlit("node_modules");
    }
    let at: usize = find_part(&s, &name, 0);
    if at < n && at + 12 < n && (s[at + 12] as u32) < 0x80 {
        let rest = piece(&s, at + 13, n);
        proof {
            assert(rest@ =~= filename@.skip(at + 13));
            lemma_split_some(rest@, '/', 0);
        }
        let parts = split(rest.as_str(), '/');
        proof {
            assert(texts(parts@).len() == parts@.len());
            assert(texts(parts@)[0] == parts@[0]@);
        }
        let len: usize = chars_of(parts[0].as_str()).len();
        if len > 0 {
            return Some(parts[0].clone());
        }
    }
    None
}

/// Gives the short name of a source file.
pub fn create_short_filename(filename: &str, info: &DebugPathInfo) -> (r: String)
    ensures
        r@ == short_filename(
            filename@,
            opt_pair(info.file_package),
            opt_text(info.cwd_package_name),
            opt_text(info.root_dir),
            info.is_haste,
        ),
{
    if let Some((name, dir)) = &info.file_package {
        let rel = relative_between(dir.as_str(), filename);
        if let Some(cwd) = &info.cwd_package_name {
            if str_eq(cwd.as_str(), name.as_str()) {
                return rel;
            }
        }
        return concat3(name.as_str(), ":", rel.as_str());
    }
    if let Some(prefix) = package_prefix(filename) {
        return concat3(prefix.as_str(), ":", short_path(filename, &info.root_dir).as_str());
    }
    if info.is_haste {
        return path_basename(filename);
    }
    short_path(filename, &info.root_dir)
}

} // verus!
