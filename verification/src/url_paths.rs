//! Paths as they stand in URLs: escapes, queries, and dots that are escaped.

use crate::module_names::{name_end, trimmed_len};
use crate::number::{float_prefix, parse_float_prefix, JsNumber};
use crate::paths::{
    is_rooted, make_path, names, normal_path, normalize_path, path_names, path_text, rooted,
};
use crate::text::{
    alnum, ascii_lower_char, char_count, chars_of, concat2, concat3, find_char, has_prefix,
    is_alnum, is_letter, letter, next_char, piece, split, split_at_char, starts_with, str_eq, texts,
};
use crate::value::opt_text;
use vstd::prelude::*;
use vstd::utf8::{decode_utf8, encode_utf8, valid_utf8};

verus! {

/// The value of a hexadecimal digit.
pub open spec fn hex_value(c: char) -> Option<u32> {
    if '0' <= c && c <= '9' {
        Some((c as u32 - '0' as u32) as u32)
    } else if 'a' <= c && c <= 'f' {
        Some((c as u32 - 'a' as u32 + 10) as u32)
    } else if 'A' <= c && c <= 'F' {
        Some((c as u32 - 'A' as u32 + 10) as u32)
    } else {
        None
    }
}

fn hex_of(c: char) -> (r: Option<u32>)
    ensures
        r == hex_value(c),
        r is Some ==> r->0 < 16,
{
    let v: u32 = c as u32;
    if '0' <= c && c <= '9' {
        Some(v - 48)
    } else if 'a' <= c && c <= 'f' {
        Some(v - 97 + 10)
    } else if 'A' <= c && c <= 'F' {
        Some(v - 65 + 10)
    } else {
        None
    }
}

/// The character that an escape at `i` stands for, below 256.
pub open spec fn escape_at(s: Seq<char>, i: int) -> Option<u32> {
    if 0 <= i && i + 2 < s.len() && s[i] == '%' {
        match (hex_value(s[i + 1]), hex_value(s[i + 2])) {
            (Some(a), Some(b)) => Some((a * 16 + b) as u32),
            _ => None,
        }
    } else {
        None
    }
}

fn read_escape(s: &[char], i: usize) -> (r: Option<u32>)
    requires
        4 * s@.len() <= isize::MAX,
    ensures
        r == escape_at(s@, i as int),
        r is Some ==> r->0 < 256 && i + 2 < s@.len(),
{
    if i < s.len() && i + 2 < s.len() && s[i] == '%' {
        match (hex_of(s[i + 1]), hex_of(s[i + 2])) {
            (Some(a), Some(b)) => Some(a * 16 + b),
            _ => None,
        }
    } else {
        None
    }
}

/// Whether two characters are the same but for the case of ASCII letters.
pub open spec fn same_but_case(a: u32, b: char) -> bool {
    a < 0x80 && ascii_lower_char(a as u8 as char) == ascii_lower_char(b)
}

/// Whether a segment from `i` on spells a word from `j` on, with escapes, without
/// regard to case.
pub open spec fn spells_from(s: Seq<char>, i: int, word: Seq<char>, j: int) -> bool
    decreases word.len() - j,
{
    if j < 0 || j >= word.len() {
        i == s.len()
    } else if escape_at(s, i) is Some && same_but_case(escape_at(s, i)->0, word[j]) {
        spells_from(s, i + 3, word, j + 1)
    } else if 0 <= i < s.len() && s[i] != '%' && same_but_case(s[i] as u32, word[j]) {
        spells_from(s, i + 1, word, j + 1)
    } else {
        false
    }
}

/// Whether a segment spells a word, with escapes, without regard to case.
pub open spec fn spells(s: Seq<char>, word: Seq<char>) -> bool {
    spells_from(s, 0, word, 0)
}

fn lower(c: char) -> (r: char)
    ensures
        r == ascii_lower_char(c),
{
    if 'A' <= c && c <= 'Z' {
        (c as u8 + 32) as char
    } else {
        c
    }
}

fn is_same_but_case(a: u32, b: char) -> (r: bool)
    ensures
        r == same_but_case(a, b),
{
    a < 0x80 && lower(a as u8 as char) == lower(b)
}

/// Whether a segment spells a word, with escapes, without regard to case.
pub fn matches_encoded(segment: &str, word: &str) -> (r: bool)
    ensures
        r == spells(segment@, word@),
{
    let s = chars_of(segment);
    let n: usize = char_count(&s);
    let w = chars_of(word);
    let mut i: usize = 0;
    let mut j: usize = 0;
    while j < w.len()
        invariant
            s@ == segment@,
            w@ == word@,
            n == s@.len(),
            4 * n <= isize::MAX,
            j <= w@.len(),
            i <= n,
            spells(s@, w@) == spells_from(s@, i as int, w@, j as int),
        decreases w@.len() - j,
    {
        let escaped = match read_escape(&s, i) {
            Some(v) => is_same_but_case(v, w[j]),
            None => false,
        };
        if escaped {
            i += 3;
        } else if i < n && s[i] != '%' && is_same_but_case(s[i] as u32, w[j]) {
            i += 1;
        } else {
            return false;
        }
        j += 1;
    }
    i == n
}

/// A text with slashes for backslashes.
pub open spec fn slashed(s: Seq<char>) -> Seq<char> {
    Seq::new(
        s.len(),
        |i: int|
            if s[i] == '\\' {
                '/'
            } else {
                s[i]
            },
    )
}

/// Gives a text with slashes for backslashes.
pub fn url_path(text: &str) -> (r: String)
    ensures
        r@ == slashed(text@),
{
    let s = chars_of(text);
    let mut out = String::new();
    let mut i: usize = 0;
    while i < s.len()
        invariant
            s@ == text@,
            i <= s@.len(),
            out@.len() == i,
            forall|j: int| 0 <= j < i ==> #[trigger] out@[j] == slashed(s@)[j],
        decreases s@.len() - i,
    {
        if s[i] == '\\' {
            out.push('/');
        } else {
            out.push(s[i]);
        }
        i += 1;
    }
    proof {
        assert(out@ =~= slashed(text@));
    }
    out
}

/// A text up to its first question mark or number sign.
pub open spec fn before_query(s: Seq<char>) -> Seq<char> {
    let a = next_char(s, '?', 0);
    let b = next_char(s, '#', 0);
    s.take(
        if a < b {
            a
        } else {
            b
        },
    )
}

/// Gives a text up to its first question mark or number sign.
pub fn strip_query_fragment(text: &str) -> (r: String)
    ensures
        r@ == before_query(text@),
{
    let s = chars_of(text);
    let a: usize = find_char(&s, '?', 0);
    let b: usize = find_char(&s, '#', 0);
    let end: usize = if a < b {
        a
    } else {
        b
    };
    let out = piece(&s, 0, end);
    proof {
        assert(out@ =~= text@.take(end as int));
    }
    out
}

/// Whether a segment is a dot, two dots, or the directory of packages.
pub open spec fn forbidden_segment(s: Seq<char>) -> bool {
    spells(s, "."@) || spells(s, ".."@) || spells(s, "node_modules"@)
}

/// Whether a text has a segment that no target may have.
pub open spec fn has_forbidden(text: Seq<char>) -> bool {
    let parts = split_at_char(slashed(text), '/');
    exists|i: int| 0 <= i < parts.len() && forbidden_segment(#[trigger] parts[i])
}

/// Whether a text has a segment that no target may have.
pub fn has_deprecated_segment(text: &str) -> (r: bool)
    ensures
        r == has_forbidden(text@),
{
    let parts = split(url_path(text).as_str(), '/');
    let ghost all = texts(parts@);
    let mut i: usize = 0;
    while i < parts.len()
        invariant
            all == texts(parts@),
            all == split_at_char(slashed(text@), '/'),
            i <= parts@.len(),
            forall|j: int| 0 <= j < i ==> !forbidden_segment(#[trigger] all[j]),
        decreases parts@.len() - i,
    {
        let part = parts[i].as_str();
        assert(all[i as int] == part@);
        if matches_encoded(part, ".") || matches_encoded(part, "..") || matches_encoded(
            part,
            "node_modules",
        ) {
            assert(forbidden_segment(all[i as int]));
            return true;
        }
        i += 1;
    }
    proof {
        assert(all.len() == parts@.len());
    }
    false
}

/// Names after the first `k` segments of a URL were followed.
pub open spec fn followed_upto(v: Seq<Seq<char>>, segments: Seq<Seq<char>>, k: int) -> Seq<
    Seq<char>,
>
    decreases k,
{
    if k <= 0 {
        v
    } else {
        let done = followed_upto(v, segments, k - 1);
        let s = segments[k - 1];
        if s.len() == 0 || spells(s, "."@) {
            done
        } else if spells(s, ".."@) {
            if done.len() > 0 {
                done.drop_last()
            } else {
                done
            }
        } else {
            done.push(s)
        }
    }
}

/// The place that the path of a URL leads to from a directory. Double dots stop at
/// the root.
pub open spec fn url_joined(base: Seq<char>, way: Seq<char>) -> Seq<char> {
    let segments = split_at_char(way, '/');
    path_text(rooted(base), followed_upto(names(base), segments, segments.len() as int))
}

/// Gives the place that the path of a URL leads to from a directory.
pub fn join_url_segments(base: &str, way: &str) -> (r: String)
    ensures
        r@ == url_joined(base@, way@),
{
    let mut out = path_names(base);
    let ghost start = texts(out@);
    let segments = split(way, '/');
    let ghost all = texts(segments@);
    let mut i: usize = 0;
    while i < segments.len()
        invariant
            all == texts(segments@),
            i <= segments@.len(),
            texts(out@) == followed_upto(start, all, i as int),
        decreases segments@.len() - i,
    {
        let s = segments[i].as_str();
        assert(all[i as int] == s@);
        let n: usize = chars_of(s).len();
        let ghost before = texts(out@);
        proof {
            assert(before.len() == out@.len());
        }
        if n == 0 || matches_encoded(s, ".") {
        } else if matches_encoded(s, "..") {
            if out.len() > 0 {
                let gone = out.pop();
                proof {
                    assert(texts(out@) =~= before.drop_last());
                }
            }
        } else {
            out.push(s.to_owned());
            proof {
                assert(texts(out@) =~= before.push(s@));
            }
        }
        i += 1;
    }
    proof {
        assert(all.len() == segments@.len());
    }
    make_path(is_rooted(base), &out)
}

/// Whether a path escapes a slash or a backslash.
pub open spec fn escapes_separator(s: Seq<char>) -> bool {
    exists|i: int| #[trigger] separator_escape(s, i)
}

/// Whether a slash or a backslash is escaped at `i`.
pub open spec fn separator_escape(s: Seq<char>, i: int) -> bool {
    0 <= i && i + 2 < s.len() && s[i] == '%' && ((s[i + 1] == '2' && (s[i + 2] == 'f' || s[i + 2]
        == 'F')) || (s[i + 1] == '5' && (s[i + 2] == 'c' || s[i + 2] == 'C')))
}

/// Whether a path escapes a slash or a backslash.
pub fn has_encoded_separator(path: &str) -> (r: bool)
    ensures
        r == escapes_separator(path@),
{
    let s = chars_of(path);
    let n: usize = char_count(&s);
    let mut i: usize = 0;
    while i + 2 < n
        invariant
            s@ == path@,
            n == s@.len(),
            4 * n <= isize::MAX,
            i <= n,
            forall|j: int| 0 <= j < i ==> !#[trigger] separator_escape(s@, j),
        decreases n - i,
    {
        if s[i] == '%' && ((s[i + 1] == '2' && (s[i + 2] == 'f' || s[i + 2] == 'F')) || (s[i + 1]
            == '5' && (s[i + 2] == 'c' || s[i + 2] == 'C'))) {
            assert(separator_escape(path@, i as int));
            return true;
        }
        i += 1;
    }
    false
}

/// The bytes from `i` on with their escapes decoded, unless an escape is malformed.
pub open spec fn decoded_from(b: Seq<u8>, i: int) -> Option<Seq<u8>>
    decreases b.len() - i,
{
    if i < 0 || i >= b.len() {
        Some(Seq::empty())
    } else if b[i] == 37 {
        if i + 2 < b.len() {
            match (hex_value(b[i + 1] as char), hex_value(b[i + 2] as char)) {
                (Some(x), Some(y)) => match decoded_from(b, i + 3) {
                    Some(rest) => Some(seq![(x * 16 + y) as u8] + rest),
                    None => None,
                },
                _ => None,
            }
        } else {
            None
        }
    } else {
        match decoded_from(b, i + 1) {
            Some(rest) => Some(seq![b[i]] + rest),
            None => None,
        }
    }
}

/// A path with its escapes decoded, unless one is malformed or the result is no
/// UTF-8.
pub open spec fn decoded(path: Seq<char>) -> Option<Seq<char>> {
    if !path.contains('%') {
        Some(path)
    } else {
        match decoded_from(encode_utf8(path), 0) {
            Some(b) => if valid_utf8(b) {
                Some(decode_utf8(b))
            } else {
                None
            },
            None => None,
        }
    }
}

/// `String::from_utf8`: the text that the bytes encode, or an error where they are no
/// UTF-8.
#[verifier::external_body]
fn text_of_utf8(bytes: Vec<u8>) -> (r: Option<String>)
    ensures
        r is Some == valid_utf8(bytes@),
        r is Some ==> r->0@ == decode_utf8(bytes@),
{
    String::from_utf8(bytes).ok()
}

/// Decodes the escapes of a path, unless one is malformed or the result is no UTF-8.
pub fn percent_decode_path(path: &str) -> (r: Option<String>)
    ensures
        opt_text(r) == decoded(path@),
{
    let s = chars_of(path);
    let at: usize = find_char(&s, '%', 0);
    proof {
        lemma_percent(s@, 0);
    }
    if at >= s.len() {
        return Some(path.to_owned());
    }
    let b = path.as_bytes();
    let n: usize = b.len();
    let mut out: Vec<u8> = Vec::new();
    let mut i: usize = 0;
    proof {
        assert(path@.contains('%')) by {
            assert(path@[at as int] == '%');
        }
        assert(decoded_from(b@, 0) == after_done(out@, decoded_from(b@, 0))) by {
            if let Some(rest) = decoded_from(b@, 0) {
                assert(out@ + rest =~= rest);
            }
        }
    }
    while i < n
        invariant
            b@ == encode_utf8(path@),
            path@.contains('%'),
            n == b@.len(),
            i <= n,
            decoded_from(b@, 0) == after_done(out@, decoded_from(b@, i as int)),
        decreases n - i,
    {
        let ghost before = out@;
        if b[i] == 37 {
            if n - i < 3 {
                return None;
            }
            match (hex_of(b[i + 1] as char), hex_of(b[i + 2] as char)) {
                (Some(x), Some(y)) => {
                    out.push((x * 16 + y) as u8);
                    proof {
                        lemma_after_done(before, (x * 16 + y) as u8, decoded_from(b@, i + 3));
                    }
                },
                _ => {
                    return None;
                },
            }
            i += 3;
        } else {
            out.push(b[i]);
            proof {
                lemma_after_done(before, b@[i as int], decoded_from(b@, i + 1));
            }
            i += 1;
        }
    }
    proof {
        assert(decoded_from(b@, i as int) == Some(Seq::<u8>::empty()));
        assert(out@ + Seq::<u8>::empty() =~= out@);
    }
    text_of_utf8(out)
}

/// Bytes behind those that are done.
spec fn after_done(done: Seq<u8>, rest: Option<Seq<u8>>) -> Option<Seq<u8>> {
    match rest {
        Some(r) => Some(done + r),
        None => None,
    }
}

proof fn lemma_after_done(done: Seq<u8>, x: u8, rest: Option<Seq<u8>>)
    ensures
        after_done(
            done,
            match rest {
                Some(r) => Some(seq![x] + r),
                None => None,
            },
        ) == after_done(done.push(x), rest),
{
    if let Some(r) = rest {
        assert(done + (seq![x] + r) =~= done.push(x) + r);
    }
}

proof fn lemma_percent(s: Seq<char>, from: int)
    requires
        0 <= from <= s.len(),
    ensures
        next_char(s, '%', from) < s.len() ==> s[next_char(s, '%', from)] == '%' && next_char(
            s,
            '%',
            from,
        ) >= from,
        next_char(s, '%', from) >= s.len() ==> forall|i: int| from <= i < s.len() ==> s[i] != '%',
    decreases s.len() - from,
{
    if from < s.len() && s[from] != '%' {
        lemma_percent(s, from + 1);
    }
}

/// Whether a character may stand in the scheme of a URL.
pub open spec fn scheme_char(c: char) -> bool {
    alnum(c) || c == '+' || c == '-' || c == '.'
}

/// Whether a text starts with the scheme of a URL.
pub open spec fn has_scheme(s: Seq<char>) -> bool {
    let colon = next_char(s, ':', 0);
    0 < colon < s.len() && letter(s[0]) && forall|i: int|
        0 < i < colon ==> scheme_char(#[trigger] s[i])
}

/// Whether a text starts with the scheme of a URL.
pub fn parses_as_url(text: &str) -> (r: bool)
    ensures
        r == has_scheme(text@),
{
    let s = chars_of(text);
    let n: usize = char_count(&s);
    let colon: usize = find_char(&s, ':', 0);
    if colon >= n || colon == 0 || !is_letter(s[0]) {
        return false;
    }
    let mut i: usize = 1;
    while i < colon
        invariant
            s@ == text@,
            n == s@.len(),
            colon == next_char(s@, ':', 0),
            0 < i <= colon < n,
            forall|j: int| 0 < j < i ==> scheme_char(#[trigger] s@[j]),
        decreases colon - i,
    {
        if !(is_alnum(s[i]) || s[i] == '+' || s[i] == '-' || s[i] == '.') {
            assert(!scheme_char(s@[i as int]));
            return false;
        }
        i += 1;
    }
    true
}

/// Whether a key is the text of a number from zero to below two to the 32nd less one.
pub open spec fn array_like(key: Seq<char>) -> bool {
    match float_prefix(key) {
        Some(n) => n.text_spec() == key && !n.below(JsNumber::natural(0)) && n.below(
            JsNumber::natural(4294967295),
        ),
        None => false,
    }
}

/// Whether a key is the text of a number from zero to below two to the 32nd less one.
pub fn is_js_array_index(key: &str) -> (r: bool)
    ensures
        r == array_like(key@),
{
    match parse_float_prefix(key) {
        Some(n) => str_eq(n.text().as_str(), key) && !n.less(JsNumber::from_int(0)) && n.less(
            JsNumber::from_int(4294967295),
        ),
        None => false,
    }
}

/// The name of the package that a specifier names, and the path inside it.
pub open spec fn package_parts(s: Seq<char>) -> Option<(Seq<char>, Seq<char>)> {
    let first = next_char(s, '/', 0);
    let scoped = has_prefix(s, "@"@);
    let sep = if scoped {
        next_char(s, '/', first + 1)
    } else {
        first
    };
    let name = s.take(sep);
    if (scoped && first >= s.len()) || name.len() == 0 || has_prefix(name, "."@) || name.contains(
        '%',
    ) || name.contains('\\') {
        None
    } else {
        Some((name, "."@ + s.skip(sep)))
    }
}

fn holds_char(s: &[char], c: char) -> (r: bool)
    ensures
        r == s@.contains(c),
{
    let mut i: usize = 0;
    while i < s.len()
        invariant
            i <= s@.len(),
            forall|j: int| 0 <= j < i ==> s@[j] != c,
        decreases s@.len() - i,
    {
        if s[i] == c {
            assert(s@[i as int] == c);
            return true;
        }
        i += 1;
    }
    false
}

/// Gives the name of the package that a specifier names, and the path inside it.
pub fn parse_package_name(specifier: &str) -> (r: Option<(String, String)>)
    ensures
        match r {
            Some(p) => package_parts(specifier@) == Some((p.0@, p.1@)),
            None => package_parts(specifier@) is None,
        },
        r is Some ==> (r->0).1@ == "."@ || (r->0).1@.len() >= 2,
{
    let s = chars_of(specifier);
    let n: usize = char_count(&s);
    let first: usize = find_char(&s, '/', 0);
    let scoped = starts_with(specifier, "@");
    if scoped && first >= n {
        return None;
    }
    let sep: usize = if scoped {
        find_char(&s, '/', first + 1)
    } else {
        first
    };
    let name = piece(&s, 0, sep);
    proof {
        assert(name@ =~= specifier@.take(sep as int));
    }
    let name_chars = chars_of(name.as_str());
    if name_chars.len() == 0 || starts_with(name.as_str(), ".") || holds_char(&name_chars, '%')
        || holds_char(&name_chars, '\\') {
        return None;
    }
    let rest = piece(&s, sep, n);
    proof {
        assert(rest@ =~= specifier@.skip(sep as int));
        reveal_strlit(".");
        if rest@.len() == 0 {
            assert("."@ + rest@ =~= "."@);
        }
    }
    Some((name, concat2(".", rest.as_str())))
}

/// Two paths put together: a slash at the start of the second does not count.
pub open spec fn path_joined(base: Seq<char>, rest: Seq<char>) -> Seq<char> {
    normal_path(
        base.take(trimmed_len(base, base.len() as int)) + "/"@ + rest,
    )
}

/// Puts two paths together.
pub fn node_path_join(base: &str, rest: &str) -> (r: String)
    ensures
        r@ == path_joined(base@, rest@),
{
    let s = chars_of(base);
    let end: usize = name_end(&s);
    let head = piece(&s, 0, end);
    proof {
        assert(head@ =~= base@.take(end as int));
    }
    normalize_path(concat3(head.as_str(), "/", rest).as_str())
}

/// Whether a specifier is a path from the importing file.
pub open spec fn relative_specifier(s: Seq<char>) -> bool {
    s == "."@ || s == ".."@ || has_prefix(s, "./"@) || has_prefix(s, "../"@)
}

/// Whether a specifier is a path from the importing file.
pub fn is_relative_specifier(s: &str) -> (r: bool)
    ensures
        r == relative_specifier(s@),
{
    str_eq(s, ".") || str_eq(s, "..") || starts_with(s, "./") || starts_with(s, "../")
}

} // verus!
