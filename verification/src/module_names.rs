//! The names of modules: extensions, suffixes, aliases, and the parts of a specifier.

use crate::paths::{parent_of, path_parent, path_relative, relative_path};
use crate::text::{
    char_count, chars_of, concat2, concat3, concat5, ends_with, find_char, has_prefix, has_suffix,
    next_char, piece, starts_with, str_eq, texts,
};
use crate::value::opt_text;
use vstd::prelude::*;

verus! {

/// The extensions of code files, in the order in which they are tried.
pub const EXTENSIONS: [&'static str; 6] = [".js", ".ts", ".tsx", ".jsx", ".mjs", ".cjs"];

/// The first extension of code files, from the `i`th on, that a path ends with.
pub open spec fn extension_from(path: Seq<char>, i: int) -> Option<Seq<char>>
    decreases 6 - i,
{
    if i < 0 || i >= 6 {
        None
    } else if has_suffix(path, EXTENSIONS@[i]@) {
        Some(EXTENSIONS@[i]@)
    } else {
        extension_from(path, i + 1)
    }
}

/// A path without its extension of code files.
pub open spec fn without_extension(path: Seq<char>) -> Seq<char> {
    match extension_from(path, 0) {
        Some(e) => path.take(path.len() - e.len()),
        None => path,
    }
}

/// The paths that a module may have: as it is written, then with each extension.
pub open spec fn possible_paths(path: Seq<char>) -> Seq<Seq<char>> {
    seq![path] + Seq::new(6, |i: int| without_extension(path) + EXTENSIONS@[i]@)
}

/// Gives a path without its extension of code files.
pub fn strip_extension(path: &str) -> (r: String)
    ensures
        r@ == without_extension(path@),
{
    let s = chars_of(path);
    let n: usize = char_count(&s);
    let mut i: usize = 0;
    while i < 6
        invariant
            s@ == path@,
            n == s@.len(),
            i <= 6,
            extension_from(path@, 0) == extension_from(path@, i as int),
        decreases 6 - i,
    {
        let ext = EXTENSIONS[i];
        if ends_with(path, ext) {
            let e = chars_of(ext);
            let out = piece(&s, 0, n - e.len());
            proof {
                assert(out@ =~= path@.take(path@.len() - ext@.len()));
            }
            return out;
        }
        i += 1;
    }
    path.to_owned()
}

/// Gives the paths that a module may have, in the order in which they are tried.
pub fn possible_file_paths(file_path: &str) -> (r: Vec<String>)
    ensures
        texts(r@) == possible_paths(file_path@),
{
    let stripped = strip_extension(file_path);
    let mut out: Vec<String> = Vec::new();
    out.push(file_path.to_owned());
    let mut i: usize = 0;
    while i < 6
        invariant
            i <= 6,
            stripped@ == without_extension(file_path@),
            out@.len() == i + 1,
            out@[0]@ == file_path@,
            forall|j: int|
                0 <= j < i ==> (#[trigger] out@[j + 1])@ == stripped@ + EXTENSIONS@[j]@,
        decreases 6 - i,
    {
        let ghost before = out@;
        out.push(concat2(stripped.as_str(), EXTENSIONS[i]));
        proof {
            assert forall|j: int| 0 <= j < i + 1 implies (#[trigger] out@[j + 1])@ == stripped@
                + EXTENSIONS@[j]@ by {
                if j < i {
                    assert(out@[j + 1] == before[j + 1]);
                }
            }
        }
        i += 1;
    }
    proof {
        let want = possible_paths(file_path@);
        assert forall|k: int| 0 <= k < want.len() implies texts(out@)[k] == want[k] by {
            if k > 0 {
                assert(out@[(k - 1) + 1]@ == stripped@ + EXTENSIONS@[k - 1]@);
            }
        }
        assert(texts(out@) =~= want);
    }
    out
}

/// A text with each star replaced, from `i` on.
pub open spec fn starred_from(s: Seq<char>, by_text: Seq<char>, i: int) -> Seq<char>
    decreases s.len() - i,
{
    if i < 0 || i >= s.len() {
        Seq::empty()
    } else if s[i] == '*' {
        by_text + starred_from(s, by_text, i + 1)
    } else {
        seq![s[i]] + starred_from(s, by_text, i + 1)
    }
}

/// A text with each star replaced.
pub open spec fn starred(s: Seq<char>, by_text: Seq<char>) -> Seq<char> {
    starred_from(s, by_text, 0)
}

/// Gives a text with each star replaced.
pub fn replace_stars(text: &str, by_text: &str) -> (r: String)
    ensures
        r@ == starred(text@, by_text@),
{
    let s = chars_of(text);
    let mut out = String::new();
    let mut i: usize = 0;
    proof {
        assert(out@ + starred_from(s@, by_text@, 0) =~= starred(s@, by_text@));
    }
    while i < s.len()
        invariant
            s@ == text@,
            i <= s@.len(),
            out@ + starred_from(s@, by_text@, i as int) == starred(s@, by_text@),
        decreases s@.len() - i,
    {
        let ghost before = out@;
        let ghost rest = starred_from(s@, by_text@, i + 1);
        if s[i] == '*' {
            out.append(by_text);
            proof {
                assert(out@ + rest =~= before + starred_from(s@, by_text@, i as int));
            }
        } else {
            out.push(s[i]);
            proof {
                assert(out@ + rest =~= before + starred_from(s@, by_text@, i as int));
            }
        }
        i += 1;
    }
    proof {
        assert(out@ + starred_from(s@, by_text@, i as int) =~= out@);
    }
    out
}

/// What the star of an alias stands for in a specifier, if the alias fits. Nothing
/// behind a second star counts.
pub open spec fn captured(alias: Seq<char>, specifier: Seq<char>) -> Option<Seq<char>> {
    let star = next_char(alias, '*', 0);
    let before = alias.take(star);
    let second = next_char(alias, '*', star + 1);
    let after = alias.subrange(star + 1, second);
    if has_prefix(specifier, before) && has_suffix(specifier, after) {
        let end = specifier.len() - after.len();
        let start = if before.len() < end {
            before.len() as int
        } else {
            end
        };
        Some(specifier.subrange(start, end))
    } else {
        None
    }
}

/// The values of an alias for a specifier.
pub open spec fn alias_values(
    alias: Seq<char>,
    values: Seq<Seq<char>>,
    specifier: Seq<char>,
) -> Seq<Seq<char>> {
    if alias.contains('*') {
        match captured(alias, specifier) {
            Some(c) => Seq::new(values.len(), |i: int| starred(values[i], c)),
            None => Seq::empty(),
        }
    } else if alias == specifier {
        values
    } else {
        Seq::empty()
    }
}

/// What aliases are, mathematically.
pub open spec fn alias_models(v: Seq<(String, Vec<String>)>) -> Seq<(Seq<char>, Seq<Seq<char>>)> {
    Seq::new(v.len(), |i: int| (v[i].0@, texts(v[i].1@)))
}

/// A specifier, then what the first `k` aliases make of it.
pub open spec fn aliased_upto(
    specifier: Seq<char>,
    aliases: Seq<(Seq<char>, Seq<Seq<char>>)>,
    k: int,
) -> Seq<Seq<char>>
    decreases k,
{
    if k <= 0 {
        seq![specifier]
    } else {
        aliased_upto(specifier, aliases, k - 1) + alias_values(
            aliases[k - 1].0,
            aliases[k - 1].1,
            specifier,
        )
    }
}

/// What optional aliases are, mathematically.
pub open spec fn opt_aliases(o: Option<&Vec<(String, Vec<String>)>>) -> Seq<
    (Seq<char>, Seq<Seq<char>>),
> {
    match o {
        Some(v) => alias_models(v@),
        None => Seq::empty(),
    }
}

/// A specifier, then what aliases make of it.
pub open spec fn aliased(specifier: Seq<char>, aliases: Seq<(Seq<char>, Seq<Seq<char>>)>) -> Seq<
    Seq<char>,
> {
    aliased_upto(specifier, aliases, aliases.len() as int)
}

fn capture(alias: &str, specifier: &str) -> (r: Option<Option<String>>)
    ensures
        r is Some == alias@.contains('*'),
        r is Some ==> opt_text(r->0) == captured(alias@, specifier@),
{
    let a = chars_of(alias);
    let s = chars_of(specifier);
    let n: usize = char_count(&a);
    let star: usize = find_char(&a, '*', 0);
    proof {
        lemma_next_char(a@, '*', 0);
    }
    if star >= n {
        proof {
            assert(!alias@.contains('*'));
        }
        return None;
    }
    assert(alias@[star as int] == '*');
    let second: usize = find_char(&a, '*', star + 1);
    proof {
        lemma_next_char(a@, '*', star + 1);
    }
    let before = piece(&a, 0, star);
    let after = piece(&a, star + 1, second);
    proof {
        assert(before@ =~= alias@.take(star as int));
        assert(after@ =~= alias@.subrange(star + 1, second as int));
    }
    if starts_with(specifier, before.as_str()) && ends_with(specifier, after.as_str()) {
        let m: usize = char_count(&s);
        let end: usize = m - (second - star - 1);
        let start: usize = if star < end {
            star
        } else {
            end
        };
        Some(Some(piece(&s, start, end)))
    } else {
        Some(None)
    }
}

proof fn lemma_next_char(s: Seq<char>, c: char, from: int)
    requires
        0 <= from <= s.len(),
    ensures
        from <= next_char(s, c, from) <= s.len(),
        next_char(s, c, from) < s.len() ==> s[next_char(s, c, from)] == c,
        forall|i: int| from <= i < next_char(s, c, from) ==> s[i] != c,
    decreases s.len() - from,
{
    if from < s.len() && s[from] != c {
        lemma_next_char(s, c, from + 1);
    }
}

/// Gives a specifier, then what aliases make of it, in their order.
pub fn possible_aliased_paths(import_path: &str, aliases: Option<&Vec<(String, Vec<String>)>>) -> (r: Vec<
    String,
>)
    ensures
        texts(r@) == aliased(import_path@, opt_aliases(aliases)),
{
    let mut out: Vec<String> = Vec::new();
    out.push(import_path.to_owned());
    proof {
        assert(texts(out@) =~= seq![import_path@]);
    }
    let list = match aliases {
        Some(v) => v,
        None => {
            return out;
        },
    };
    let ghost all = alias_models(list@);
    let mut i: usize = 0;
    while i < list.len()
        invariant
            all == alias_models(list@),
            i <= list@.len(),
            texts(out@) == aliased_upto(import_path@, all, i as int),
        decreases list@.len() - i,
    {
        let (alias, values) = &list[i];
        let ghost vs = texts(values@);
        assert(all[i as int] == (alias@, vs));
        let ghost start = texts(out@);
        let ghost want = alias_values(alias@, vs, import_path@);
        let fit = capture(alias.as_str(), import_path);
        let take = match &fit {
            Some(o) => o.is_some(),
            None => str_eq(alias.as_str(), import_path),
        };
        if take {
            let mut j: usize = 0;
            while j < values.len()
                invariant
                    vs == texts(values@),
                    want.len() == vs.len(),
                    j <= values@.len(),
                    texts(out@) == start + want.take(j as int),
                    match fit {
                        Some(o) => o is Some && forall|k: int|
                            0 <= k < vs.len() ==> #[trigger] want[k] == starred(vs[k], o->0@),
                        None => want == vs,
                    },
                decreases values@.len() - j,
            {
                assert(vs[j as int] == values@[j as int]@);
                let value = match &fit {
                    Some(Some(c)) => replace_stars(values[j].as_str(), c.as_str()),
                    _ => values[j].clone(),
                };
                assert(value@ == want[j as int]);
                let ghost before = texts(out@);
                out.push(value);
                proof {
                    assert(texts(out@) =~= before.push(want[j as int]));
                    assert(texts(out@) =~= start + want.take(j + 1));
                }
                j += 1;
            }
            proof {
                assert(want.take(want.len() as int) =~= want);
            }
        } else {
            proof {
                assert(start + want =~= start);
            }
        }
        i += 1;
    }
    proof {
        assert(all.len() == list@.len());
    }
    out
}

/// Whether a file has a suffix, or the suffix with an extension of code files.
pub open spec fn suffix_fits(suffix: Seq<char>, filename: Seq<char>) -> bool {
    has_suffix(filename, suffix) || exists|i: int|
        0 <= i < 6 && has_suffix(filename, suffix + (#[trigger] EXTENSIONS@[i])@)
}

/// Whether a file has a suffix, or the suffix with an extension of code files.
pub fn matches_file_suffix(suffix: &str, filename: &str) -> (r: bool)
    ensures
        r == suffix_fits(suffix@, filename@),
{
    if ends_with(filename, suffix) {
        return true;
    }
    let mut i: usize = 0;
    while i < 6
        invariant
            i <= 6,
            forall|j: int|
                0 <= j < i ==> !has_suffix(filename@, suffix@ + (#[trigger] EXTENSIONS@[j])@),
        decreases 6 - i,
    {
        if ends_with(filename, concat2(suffix, EXTENSIONS[i]).as_str()) {
            assert(has_suffix(filename@, suffix@ + EXTENSIONS@[i as int]@));
            return true;
        }
        i += 1;
    }
    false
}

/// Whether a specifier names a file that variables or constants are exported from.
pub open spec fn theme_specifier(specifier: Seq<char>, extension: Seq<char>) -> bool {
    suffix_fits(extension, specifier) || suffix_fits(extension + ".const"@, specifier)
        || suffix_fits(".transformed"@, specifier)
}

/// Whether a specifier names a file that variables or constants are exported from.
pub fn is_theme_specifier(specifier: &str, theme_extension: &str) -> (r: bool)
    ensures
        r == theme_specifier(specifier@, theme_extension@),
{
    matches_file_suffix(theme_extension, specifier) || matches_file_suffix(
        concat2(theme_extension, ".const").as_str(),
        specifier,
    ) || matches_file_suffix(".transformed", specifier)
}

/// The name of an export, or of one of its keys.
pub open spec fn identifier(file: Seq<char>, export: Seq<char>, key: Option<Seq<char>>) -> Seq<char> {
    match key {
        Some(k) => file + "//"@ + export + "."@ + k,
        None => file + "//"@ + export,
    }
}

/// Gives the name of an export, or of one of its keys.
pub fn gen_file_based_identifier(file_name: &str, export_name: &str, key: Option<&str>) -> (r: String)
    ensures
        r@ == identifier(
            file_name@,
            export_name@,
            match key {
                Some(k) => Some(k@),
                None => None,
            },
        ),
{
    match key {
        Some(k) => concat5(file_name, "//", export_name, ".", k),
        None => concat3(file_name, "//", export_name),
    }
}

/// The path of a file as another file imports it.
pub open spec fn import_source(from: Seq<char>, to: Seq<char>) -> Seq<char> {
    let dir = match parent_of(from) {
        Some(d) => d,
        None => Seq::empty(),
    };
    let way = relative_path(dir, to);
    if has_prefix(way, "."@) {
        way
    } else {
        "./"@ + way
    }
}

/// Gives the path of a file as another file imports it.
pub fn get_relative_path(from: &str, to: &str) -> (r: String)
    ensures
        r@ == import_source(from@, to@),
{
    let dir = match path_parent(from) {
        Some(d) => d,
        None => String::new(),
    };
    let way = path_relative(dir.as_str(), to);
    if starts_with(way.as_str(), ".") {
        way
    } else {
        concat2("./", way.as_str())
    }
}

/// The length of a text without the slashes at its end.
pub open spec fn trimmed_len(s: Seq<char>, k: int) -> int
    decreases k,
{
    if 0 < k <= s.len() && s[k - 1] == '/' {
        trimmed_len(s, k - 1)
    } else {
        k
    }
}

/// Where the last part of the first `k` characters of a path starts.
pub open spec fn last_part(s: Seq<char>, k: int) -> int
    decreases k,
{
    if 0 < k <= s.len() && s[k - 1] != '/' {
        last_part(s, k - 1)
    } else {
        k
    }
}

/// The last part of a path; slashes at its end do not count.
pub open spec fn base_name(path: Seq<char>) -> Seq<char> {
    let end = trimmed_len(path, path.len() as int);
    path.subrange(last_part(path, end), end)
}

/// Gives the length of a text without the slashes at its end.
pub fn name_end(s: &[char]) -> (r: usize)
    ensures
        r == trimmed_len(s@, s@.len() as int),
        r <= s@.len(),
        r > 0 ==> s@[r - 1] != '/',
{
    let mut k: usize = s.len();
    while k > 0 && s[k - 1] == '/'
        invariant
            k <= s@.len(),
            trimmed_len(s@, s@.len() as int) == trimmed_len(s@, k as int),
        decreases k,
    {
        k -= 1;
    }
    k
}

fn name_start(s: &[char], end: usize) -> (r: usize)
    requires
        end <= s@.len(),
    ensures
        r == last_part(s@, end as int),
        r <= end,
        forall|i: int| r <= i < end ==> s@[i] != '/',
{
    let mut k: usize = end;
    while k > 0 && s[k - 1] != '/'
        invariant
            k <= end <= s@.len(),
            last_part(s@, end as int) == last_part(s@, k as int),
            forall|i: int| k <= i < end ==> s@[i] != '/',
        decreases k,
    {
        k -= 1;
    }
    k
}

/// Gives the last part of a path; slashes at its end do not count.
pub fn node_basename(path: &str) -> (r: String)
    ensures
        r@ == base_name(path@),
{
    let s = chars_of(path);
    let end: usize = name_end(&s);
    let start: usize = name_start(&s, end);
    piece(&s, start, end)
}

/// The last dot of the first `k` characters of a name, or its length.
pub open spec fn last_dot(s: Seq<char>, k: int) -> int
    decreases k,
{
    if k <= 0 || k > s.len() {
        s.len() as int
    } else if s[k - 1] == '.' {
        k - 1
    } else {
        last_dot(s, k - 1)
    }
}

/// The extension of a path: the last part from its last dot on, unless nothing
/// stands before that dot or the part is two dots.
pub open spec fn extension(path: Seq<char>) -> Seq<char> {
    let name = base_name(path);
    let dot = last_dot(name, name.len() as int);
    if dot >= name.len() || dot == 0 || name == ".."@ {
        Seq::empty()
    } else {
        name.skip(dot)
    }
}

/// Gives the extension of a path.
pub fn node_extname(path: &str) -> (r: String)
    ensures
        r@ == extension(path@),
{
    let name = node_basename(path);
    let s = chars_of(name.as_str());
    let n: usize = char_count(&s);
    let mut k: usize = n;
    while k > 0 && s[k - 1] != '.'
        invariant
            k <= n,
            n == s@.len(),
            last_dot(s@, n as int) == last_dot(s@, k as int),
        decreases k,
    {
        k -= 1;
    }
    if k <= 1 || str_eq(name.as_str(), "..") {
        String::new()
    } else {
        let out = piece(&s, k - 1, n);
        proof {
            assert(out@ =~= name@.skip(k - 1));
        }
        out
    }
}

/// A module with the extension of the file that imports it, unless it has one.
pub open spec fn with_extension(imported: Seq<char>, source: Seq<char>) -> Seq<char> {
    if extension_from(imported, 0) is Some {
        imported
    } else {
        imported + extension(source)
    }
}

/// Gives a module the extension of the file that imports it, unless it has one.
pub fn add_file_extension(imported: &str, source_file: &str) -> (r: String)
    ensures
        r@ == with_extension(imported@, source_file@),
{
    let mut i: usize = 0;
    while i < 6
        invariant
            i <= 6,
            extension_from(imported@, 0) == extension_from(imported@, i as int),
        decreases 6 - i,
    {
        if ends_with(imported, EXTENSIONS[i]) {
            return imported.to_owned();
        }
        i += 1;
    }
    concat2(imported, node_extname(source_file).as_str())
}

proof fn lemma_aliased_first(
    specifier: Seq<char>,
    aliases: Seq<(Seq<char>, Seq<Seq<char>>)>,
    k: int,
)
    ensures
        aliased_upto(specifier, aliases, k).len() > 0,
        aliased_upto(specifier, aliases, k)[0] == specifier,
    decreases k,
{
    if k > 0 {
        lemma_aliased_first(specifier, aliases, k - 1);
    }
}

/// What was written is tried first, whatever aliases and extensions there are.
pub proof fn raw_specifier_comes_first(
    specifier: Seq<char>,
    aliases: Seq<(Seq<char>, Seq<Seq<char>>)>,
)
    ensures
        aliased(specifier, aliases).len() > 0,
        aliased(specifier, aliases)[0] == specifier,
        possible_paths(specifier)[0] == specifier,
        aliases.len() == 0 ==> aliased(specifier, aliases) == seq![specifier],
{
    lemma_aliased_first(specifier, aliases, aliases.len() as int);
}

/// The path under which a file imports another starts with a dot.
pub proof fn import_sources_are_relative(from: Seq<char>, to: Seq<char>)
    ensures
        import_source(from, to).len() > 0,
        import_source(from, to)[0] == '.',
{
    reveal_strlit(".");
    reveal_strlit("./");
    let s = import_source(from, to);
    if has_prefix(s, "."@) {
        assert(s.take(1) == "."@);
        assert(s[0] == s.take(1)[0]);
    }
}

} // verus!
