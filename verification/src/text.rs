//! Text primitives: strings seen as sequences of characters.

use vstd::prelude::*;

verus! {

/// `String::push` appends one character.
pub assume_specification[ std::string::String::push ](s: &mut std::string::String, c: char)
    ensures
        final(s)@ == old(s)@.push(c),
;

/// What `str::to_lowercase` makes of a text.
pub uninterp spec fn lowercase_text(s: Seq<char>) -> Seq<char>;

/// A character with `A` to `Z` mapped to `a` to `z`.
pub open spec fn ascii_lower_char(c: char) -> char {
    if 'A' <= c <= 'Z' {
        (c as u32 + 32) as char
    } else {
        c
    }
}

/// A text with `A` to `Z` mapped to `a` to `z`.
pub open spec fn ascii_lower(s: Seq<char>) -> Seq<char> {
    Seq::new(s.len(), |i: int| ascii_lower_char(s[i]))
}

/// Whether every character is below U+0080.
pub open spec fn all_ascii(s: Seq<char>) -> bool {
    forall|i: int| 0 <= i < s.len() ==> (#[trigger] s[i] as u32) < 128
}

/// `str::to_lowercase`: Unicode lowercase of the whole text. On a text of ASCII
/// characters alone it maps `A` to `Z` to `a` to `z` and keeps the rest.
#[verifier::external_body]
pub(crate) fn lowercase(s: &str) -> (r: String)
    ensures
        r@ == lowercase_text(s@),
        all_ascii(s@) ==> r@ == ascii_lower(s@),
{
    s.to_lowercase()
}

/// `<[char]>::len`. No slice spans more than `isize::MAX` bytes, and a `char` takes
/// four of them.
#[verifier::external_body]
pub(crate) fn char_count(v: &[char]) -> (n: usize)
    ensures
        n == v@.len(),
        4 * n <= isize::MAX,
{
    v.len()
}

/// The characters of a string, as a vector.
pub fn chars_of(s: &str) -> (r: Vec<char>)
    ensures
        r@ == s@,
{
    let mut out: Vec<char> = Vec::new();
    for c in it: s.chars()
        invariant
            out@ == it.seq().take(it.index() as int),
            it.seq() == s@,
    {
        out.push(c);
    }
    proof {
        assert(s@.take(s@.len() as int) == s@);
    }
    out
}

/// The string made of the given characters.
pub fn string_of(v: &[char]) -> (r: String)
    ensures
        r@ == v@,
{
    let mut out = String::new();
    let mut i: usize = 0;
    while i < v.len()
        invariant
            i <= v.len(),
            out@ == v@.take(i as int),
        decreases v.len() - i,
    {
        out.push(v[i]);
        proof {
            assert(v@.take(i as int + 1) == v@.take(i as int).push(v@[i as int]));
        }
        i += 1;
    }
    proof {
        assert(v@.take(v@.len() as int) == v@);
    }
    out
}

/// The string made of the characters from `from` up to `to`.
pub fn piece(v: &[char], from: usize, to: usize) -> (r: String)
    requires
        from <= to <= v@.len(),
    ensures
        r@ == v@.subrange(from as int, to as int),
{
    string_of(&v[from..to])
}

/// Whether two character slices are equal.
pub fn chars_eq(a: &[char], b: &[char]) -> (r: bool)
    ensures
        r == (a@ == b@),
{
    if a.len() != b.len() {
        return false;
    }
    let mut i: usize = 0;
    while i < a.len()
        invariant
            i <= a.len(),
            a.len() == b.len(),
            forall|j: int| 0 <= j < i ==> a@[j] == b@[j],
        decreases a.len() - i,
    {
        if a[i] != b[i] {
            return false;
        }
        i += 1;
    }
    proof {
        assert(a@ =~= b@);
    }
    true
}

/// Whether two strings are equal.
pub fn str_eq(a: &str, b: &str) -> (r: bool)
    ensures
        r == (a@ == b@),
{
    let x = chars_of(a);
    let y = chars_of(b);
    chars_eq(&x, &y)
}

/// Whether `p` stands in `s` at position `at`.
pub open spec fn at_pos(s: Seq<char>, p: Seq<char>, at: int) -> bool {
    0 <= at && at + p.len() <= s.len() && s.subrange(at, at + p.len() as int) == p
}

/// Whether `p` stands in `s` at position `at`.
pub fn stands_at(s: &[char], p: &[char], at: usize) -> (r: bool)
    ensures
        r == at_pos(s@, p@, at as int),
{
    if at > s.len() || p.len() > s.len() - at {
        return false;
    }
    chars_eq(&s[at..at + p.len()], p)
}

/// Whether `s` begins with `p`.
pub open spec fn has_prefix(s: Seq<char>, p: Seq<char>) -> bool {
    at_pos(s, p, 0)
}

/// Whether `s` ends with `p`.
pub open spec fn has_suffix(s: Seq<char>, p: Seq<char>) -> bool {
    at_pos(s, p, s.len() - p.len())
}

/// Whether `p` stands anywhere in `s`.
pub open spec fn has_part(s: Seq<char>, p: Seq<char>) -> bool {
    exists|i: int| #[trigger] at_pos(s, p, i)
}

/// Whether `s` begins with `p`.
pub fn starts_with(s: &str, p: &str) -> (r: bool)
    ensures
        r == has_prefix(s@, p@),
{
    stands_at(&chars_of(s), &chars_of(p), 0)
}

/// Whether `s` ends with `p`.
pub fn ends_with(s: &str, p: &str) -> (r: bool)
    ensures
        r == has_suffix(s@, p@),
{
    let x = chars_of(s);
    let y = chars_of(p);
    if y.len() > x.len() {
        return false;
    }
    stands_at(&x, &y, x.len() - y.len())
}

/// Whether `p` stands anywhere in `s`.
pub fn contains(s: &str, p: &str) -> (r: bool)
    ensures
        r == has_part(s@, p@),
{
    let x = chars_of(s);
    let y = chars_of(p);
    let mut i: usize = 0;
    while i < x.len()
        invariant
            i <= x.len(),
            x@ == s@,
            y@ == p@,
            forall|j: int| 0 <= j < i ==> !#[trigger] at_pos(s@, p@, j),
        decreases x.len() - i,
    {
        if stands_at(&x, &y, i) {
            return true;
        }
        i += 1;
    }
    stands_at(&x, &y, i)
}

/// The first position at or after `from` that holds `c`, or the length of `s`.
pub open spec fn next_char(s: Seq<char>, c: char, from: int) -> int
    decreases s.len() - from,
{
    if from >= s.len() {
        s.len() as int
    } else if s[from] == c {
        from
    } else {
        next_char(s, c, from + 1)
    }
}

/// The first position at or after `from` that holds `c`, or the length of `s`.
pub fn find_char(s: &[char], c: char, from: usize) -> (r: usize)
    ensures
        r == next_char(s@, c, from as int),
        from <= s@.len() ==> from <= r <= s@.len(),
        r < s@.len() ==> s@[r as int] == c,
        forall|j: int| from <= j < r && j < s@.len() ==> s@[j] != c,
{
    let mut i: usize = from;
    while i < s.len()
        invariant
            from <= i,
            from <= s@.len() ==> i <= s@.len(),
            next_char(s@, c, from as int) == next_char(s@, c, i as int),
            forall|j: int| from <= j < i && j < s@.len() ==> s@[j] != c,
        decreases s.len() - i,
    {
        if s[i] == c {
            return i;
        }
        i += 1;
    }
    s.len()
}

/// Whether `k` is one of the listed texts.
pub open spec fn listed(k: Seq<char>, table: Seq<&'static str>) -> bool {
    exists|i: int| 0 <= i < table.len() && #[trigger] table[i]@ == k
}

/// Whether `k` is one of the listed texts.
pub fn is_listed(k: &str, table: &[&'static str]) -> (r: bool)
    ensures
        r == listed(k@, table@),
{
    let mut i: usize = 0;
    while i < table.len()
        invariant
            i <= table.len(),
            forall|j: int| 0 <= j < i ==> #[trigger] table@[j]@ != k@,
        decreases table.len() - i,
    {
        if str_eq(k, table[i]) {
            return true;
        }
        i += 1;
    }
    false
}

/// The text that the table pairs with `k`: that of the first row from `from` on
/// whose key is `k`.
pub open spec fn paired_from(k: Seq<char>, table: Seq<(&'static str, &'static str)>, from: int) -> Option<
    Seq<char>,
>
    decreases table.len() - from,
{
    if from >= table.len() {
        None
    } else if table[from].0@ == k {
        Some(table[from].1@)
    } else {
        paired_from(k, table, from + 1)
    }
}

/// The text that the table pairs with `k`, if any.
pub open spec fn paired(k: Seq<char>, table: Seq<(&'static str, &'static str)>) -> Option<Seq<char>> {
    paired_from(k, table, 0)
}

/// The text that the table pairs with `k`, if any.
pub fn lookup(k: &str, table: &[(&'static str, &'static str)]) -> (r: Option<&'static str>)
    ensures
        r is Some == paired(k@, table@) is Some,
        r is Some ==> r->0@ == paired(k@, table@)->0,
{
    let mut i: usize = 0;
    while i < table.len()
        invariant
            i <= table.len(),
            paired(k@, table@) == paired_from(k@, table@, i as int),
        decreases table.len() - i,
    {
        if str_eq(k, table[i].0) {
            return Some(table[i].1);
        }
        i += 1;
    }
    None
}

/// The parts of `s` from `from` on, split at every `c`.
pub open spec fn split_from(s: Seq<char>, c: char, from: int) -> Seq<Seq<char>>
    decreases s.len() - from,
{
    if from < 0 || from > s.len() {
        Seq::empty()
    } else {
        let next = next_char(s, c, from);
        if from <= next < s.len() {
            seq![s.subrange(from, next)] + split_from(s, c, next + 1)
        } else {
            seq![s.subrange(from, s.len() as int)]
        }
    }
}

/// The parts of `s`, split at every `c`.
pub open spec fn split_at_char(s: Seq<char>, c: char) -> Seq<Seq<char>> {
    split_from(s, c, 0)
}

/// The views of a sequence of strings.
pub open spec fn texts(v: Seq<String>) -> Seq<Seq<char>> {
    Seq::new(v.len(), |i: int| v[i]@)
}

/// The views of a sequence of string slices.
pub open spec fn str_texts(v: Seq<&str>) -> Seq<Seq<char>> {
    Seq::new(v.len(), |i: int| v[i]@)
}

/// The parts of `s`, split at every `c`.
pub fn split_chars(s: &[char], c: char) -> (r: Vec<String>)
    ensures
        texts(r@) == split_at_char(s@, c),
        r@.len() >= 1,
{
    let mut out: Vec<String> = Vec::new();
    let mut from: usize = 0;
    proof {
        assert(texts(out@) + split_from(s@, c, 0) =~= split_at_char(s@, c));
    }
    loop
        invariant
            from <= s@.len(),
            texts(out@) + split_from(s@, c, from as int) == split_at_char(s@, c),
        decreases s@.len() - from,
    {
        let next: usize = find_char(s, c, from);
        let ghost before = texts(out@);
        let ghost rest = split_from(s@, c, from as int);
        if next < s.len() {
            out.push(piece(s, from, next));
            proof {
                assert(texts(out@) =~= before.push(s@.subrange(from as int, next as int)));
                assert(texts(out@) + split_from(s@, c, next as int + 1) =~= before + rest);
            }
            from = next + 1;
        } else {
            out.push(piece(s, from, s.len()));
            proof {
                assert(texts(out@) =~= before + rest);
            }
            return out;
        }
    }
}

/// The parts of `s`, split at every `c`.
pub fn split(s: &str, c: char) -> (r: Vec<String>)
    ensures
        texts(r@) == split_at_char(s@, c),
        r@.len() >= 1,
{
    split_chars(&chars_of(s), c)
}

/// The first `n` parts joined with `sep` between each two.
pub open spec fn join_first(parts: Seq<Seq<char>>, sep: Seq<char>, n: int) -> Seq<char>
    decreases n,
{
    if n <= 0 {
        Seq::empty()
    } else if n == 1 {
        parts[0]
    } else {
        join_first(parts, sep, n - 1) + sep + parts[n - 1]
    }
}

/// The parts joined with `sep` between each two.
pub open spec fn join_texts(parts: Seq<Seq<char>>, sep: Seq<char>) -> Seq<char> {
    join_first(parts, sep, parts.len() as int)
}

/// The parts joined with `sep` between each two.
pub fn join(parts: &[String], sep: &str) -> (r: String)
    ensures
        r@ == join_texts(texts(parts@), sep@),
{
    if parts.len() == 0 {
        return String::new();
    }
    let mut out = parts[0].clone();
    let mut i: usize = 1;
    while i < parts.len()
        invariant
            1 <= i <= parts.len(),
            out@ == join_first(texts(parts@), sep@, i as int),
        decreases parts.len() - i,
    {
        out.append(sep);
        out.append(parts[i].as_str());
        i += 1;
    }
    out
}

/// Whether `c` is an ASCII digit.
pub open spec fn digit(c: char) -> bool {
    '0' <= c <= '9'
}

/// Whether `c` is an ASCII letter.
pub open spec fn letter(c: char) -> bool {
    ('a' <= c <= 'z') || ('A' <= c <= 'Z')
}

/// Whether `c` is an ASCII letter or digit.
pub open spec fn alnum(c: char) -> bool {
    letter(c) || digit(c)
}

/// Whether `c` is an ASCII digit.
pub fn is_digit(c: char) -> (r: bool)
    ensures
        r == digit(c),
{
    '0' <= c && c <= '9'
}

/// Whether `c` is an ASCII letter.
pub fn is_letter(c: char) -> (r: bool)
    ensures
        r == letter(c),
{
    ('a' <= c && c <= 'z') || ('A' <= c && c <= 'Z')
}

/// Whether `c` is an ASCII letter or digit.
pub fn is_alnum(c: char) -> (r: bool)
    ensures
        r == alnum(c),
{
    is_letter(c) || is_digit(c)
}

/// ECMAScript white space and line terminators.
pub open spec fn js_space(c: char) -> bool {
    c == '\t' || c == '\n' || c == '\u{b}' || c == '\u{c}' || c == '\r' || c == ' ' || c
        == '\u{a0}' || c == '\u{1680}' || ('\u{2000}' <= c <= '\u{200a}') || c == '\u{2028}' || c
        == '\u{2029}' || c == '\u{202f}' || c == '\u{205f}' || c == '\u{3000}' || c == '\u{feff}'
}

/// ECMAScript white space and line terminators.
pub fn is_js_space(c: char) -> (r: bool)
    ensures
        r == js_space(c),
{
    c == '\t' || c == '\n' || c == '\u{b}' || c == '\u{c}' || c == '\r' || c == ' ' || c
        == '\u{a0}' || c == '\u{1680}' || ('\u{2000}' <= c && c <= '\u{200a}') || c == '\u{2028}'
        || c == '\u{2029}' || c == '\u{202f}' || c == '\u{205f}' || c == '\u{3000}' || c
        == '\u{feff}'
}

/// The texts `a` and `b`, one after the other.
pub fn concat2(a: &str, b: &str) -> (r: String)
    ensures
        r@ == a@ + b@,
{
    let mut out = a.to_owned();
    out.append(b);
    out
}

/// Three texts, one after the other.
pub fn concat3(a: &str, b: &str, c: &str) -> (r: String)
    ensures
        r@ == a@ + b@ + c@,
{
    let mut out = concat2(a, b);
    out.append(c);
    out
}

/// Four texts, one after the other.
pub fn concat4(a: &str, b: &str, c: &str, d: &str) -> (r: String)
    ensures
        r@ == a@ + b@ + c@ + d@,
{
    let mut out = concat3(a, b, c);
    out.append(d);
    out
}

/// Five texts, one after the other.
pub fn concat5(a: &str, b: &str, c: &str, d: &str, e: &str) -> (r: String)
    ensures
        r@ == a@ + b@ + c@ + d@ + e@,
{
    let mut out = concat4(a, b, c, d);
    out.append(e);
    out
}

/// Whether an ASCII digit stands at `i`.
pub open spec fn digit_at(s: Seq<char>, i: int) -> bool {
    0 <= i < s.len() && digit(s[i])
}

/// Whether a plus or minus sign stands at `i`.
pub open spec fn sign_at(s: Seq<char>, i: int) -> bool {
    0 <= i < s.len() && (s[i] == '+' || s[i] == '-')
}

/// Whether `c` stands at `i`.
pub open spec fn char_at(s: Seq<char>, i: int, c: char) -> bool {
    0 <= i < s.len() && s[i] == c
}

/// The first position at or after `i` that holds no digit.
pub open spec fn digits_end(s: Seq<char>, i: int) -> int
    decreases s.len() - i,
{
    if digit_at(s, i) {
        digits_end(s, i + 1)
    } else {
        i
    }
}

/// Whether an ASCII digit stands at `i`.
pub fn has_digit(s: &[char], i: usize) -> (r: bool)
    ensures
        r == digit_at(s@, i as int),
{
    i < s.len() && is_digit(s[i])
}

/// Whether a plus or minus sign stands at `i`.
pub fn has_sign(s: &[char], i: usize) -> (r: bool)
    ensures
        r == sign_at(s@, i as int),
{
    i < s.len() && (s[i] == '+' || s[i] == '-')
}

/// Whether `c` stands at `i`.
pub fn has_char(s: &[char], i: usize, c: char) -> (r: bool)
    ensures
        r == char_at(s@, i as int, c),
{
    i < s.len() && s[i] == c
}

/// The first position at or after `from` that holds no digit.
pub fn skip_digits(s: &[char], from: usize) -> (r: usize)
    requires
        from <= s@.len(),
    ensures
        r == digits_end(s@, from as int),
        from <= r <= s@.len(),
        digit_at(s@, from as int) ==> from < r,
        forall|i: int| from <= i < r ==> digit(#[trigger] s@[i]),
{
    let mut i: usize = from;
    while i < s.len() && is_digit(s[i])
        invariant
            from <= i <= s@.len(),
            digits_end(s@, from as int) == digits_end(s@, i as int),
            forall|j: int| from <= j < i ==> digit(#[trigger] s@[j]),
        decreases s@.len() - i,
    {
        i += 1;
    }
    i
}

/// White space by the Unicode property of that name.
pub open spec fn unicode_space(c: char) -> bool {
    ('\t' <= c <= '\r') || c == ' ' || c == '\u{85}' || c == '\u{a0}' || c == '\u{1680}' || (
    '\u{2000}' <= c <= '\u{200a}') || c == '\u{2028}' || c == '\u{2029}' || c == '\u{202f}' || c
        == '\u{205f}' || c == '\u{3000}'
}

/// White space by the Unicode property of that name.
pub fn is_unicode_space(c: char) -> (r: bool)
    ensures
        r == unicode_space(c),
{
    ('\t' <= c && c <= '\r') || c == ' ' || c == '\u{85}' || c == '\u{a0}' || c == '\u{1680}' || (
    '\u{2000}' <= c && c <= '\u{200a}') || c == '\u{2028}' || c == '\u{2029}' || c == '\u{202f}'
        || c == '\u{205f}' || c == '\u{3000}'
}

/// The text without the characters that `p` marks at its start.
pub open spec fn trim_start_by(s: Seq<char>, p: spec_fn(char) -> bool) -> Seq<char>
    decreases s.len(),
{
    if s.len() > 0 && p(s[0]) {
        trim_start_by(s.drop_first(), p)
    } else {
        s
    }
}

/// The text without the characters that `p` marks at its end.
pub open spec fn trim_end_by(s: Seq<char>, p: spec_fn(char) -> bool) -> Seq<char>
    decreases s.len(),
{
    if s.len() > 0 && p(s.last()) {
        trim_end_by(s.drop_last(), p)
    } else {
        s
    }
}

/// The text without Unicode white space at either end.
pub open spec fn trimmed_unicode(s: Seq<char>) -> Seq<char> {
    let p = |c: char| unicode_space(c);
    trim_end_by(trim_start_by(s, p), p)
}

/// The text without ECMAScript white space at either end.
pub open spec fn trimmed_js(s: Seq<char>) -> Seq<char> {
    let p = |c: char| js_space(c);
    trim_end_by(trim_start_by(s, p), p)
}

/// The text without Unicode white space at either end.
pub fn trim_unicode(s: &str) -> (r: String)
    ensures
        r@ == trimmed_unicode(s@),
{
    let v = chars_of(s);
    let ghost p = |c: char| unicode_space(c);
    let mut from: usize = 0;
    proof {
        assert(v@.subrange(0, v@.len() as int) =~= v@);
    }
    while from < v.len() && is_unicode_space(v[from])
        invariant
            from <= v@.len(),
            p == (|c: char| unicode_space(c)),
            trim_start_by(s@, p) == trim_start_by(v@.subrange(from as int, v@.len() as int), p),
        decreases v@.len() - from,
    {
        proof {
            let cur = v@.subrange(from as int, v@.len() as int);
            assert(cur.drop_first() =~= v@.subrange(from as int + 1, v@.len() as int));
        }
        from += 1;
    }
    let mut to: usize = v.len();
    while to > from && is_unicode_space(v[to - 1])
        invariant
            from <= to <= v@.len(),
            p == (|c: char| unicode_space(c)),
            trim_end_by(v@.subrange(from as int, v@.len() as int), p) == trim_end_by(
                v@.subrange(from as int, to as int),
                p,
            ),
        decreases to,
    {
        proof {
            let cur = v@.subrange(from as int, to as int);
            assert(cur.drop_last() =~= v@.subrange(from as int, to as int - 1));
        }
        to -= 1;
    }
    piece(&v, from, to)
}

/// The text without ECMAScript white space at either end.
pub fn trim_js(s: &str) -> (r: String)
    ensures
        r@ == trimmed_js(s@),
{
    let v = chars_of(s);
    let ghost p = |c: char| js_space(c);
    let mut from: usize = 0;
    proof {
        assert(v@.subrange(0, v@.len() as int) =~= v@);
    }
    while from < v.len() && is_js_space(v[from])
        invariant
            from <= v@.len(),
            p == (|c: char| js_space(c)),
            trim_start_by(s@, p) == trim_start_by(v@.subrange(from as int, v@.len() as int), p),
        decreases v@.len() - from,
    {
        proof {
            let cur = v@.subrange(from as int, v@.len() as int);
            assert(cur.drop_first() =~= v@.subrange(from as int + 1, v@.len() as int));
        }
        from += 1;
    }
    let mut to: usize = v.len();
    while to > from && is_js_space(v[to - 1])
        invariant
            from <= to <= v@.len(),
            p == (|c: char| js_space(c)),
            trim_end_by(v@.subrange(from as int, v@.len() as int), p) == trim_end_by(
                v@.subrange(from as int, to as int),
                p,
            ),
        decreases to,
    {
        proof {
            let cur = v@.subrange(from as int, to as int);
            assert(cur.drop_last() =~= v@.subrange(from as int, to as int - 1));
        }
        to -= 1;
    }
    piece(&v, from, to)
}

/// The number that the table gives for `k`: that of the first row from `from` on
/// whose key is `k`.
pub open spec fn ranked_from(k: Seq<char>, table: Seq<(&'static str, u64)>, from: int) -> Option<u64>
    decreases table.len() - from,
{
    if from >= table.len() {
        None
    } else if table[from].0@ == k {
        Some(table[from].1)
    } else {
        ranked_from(k, table, from + 1)
    }
}

/// The number that the table gives for `k`, if any.
pub open spec fn ranked(k: Seq<char>, table: Seq<(&'static str, u64)>) -> Option<u64> {
    ranked_from(k, table, 0)
}

/// The number that the table gives for `k`, if any.
pub fn rank(k: &str, table: &[(&'static str, u64)]) -> (r: Option<u64>)
    ensures
        r == ranked(k@, table@),
{
    let mut i: usize = 0;
    while i < table.len()
        invariant
            i <= table.len(),
            ranked(k@, table@) == ranked_from(k@, table@, i as int),
        decreases table.len() - i,
    {
        if str_eq(k, table[i].0) {
            return Some(table[i].1);
        }
        i += 1;
    }
    None
}

/// What `{:?}` prints for a string.
pub uninterp spec fn debug_text(s: Seq<char>) -> Seq<char>;

/// `<str as Debug>::fmt`: the string in quotes, with escapes.
#[verifier::external_body]
pub(crate) fn debug_string(s: &str) -> (r: String)
    ensures
        r@ == debug_text(s@),
{
    format!("{s:?}")
}

/// What `{:?}` prints for a character.
pub uninterp spec fn debug_char_text(c: char) -> Seq<char>;

/// `<char as Debug>::fmt`: the character in single quotes, escaped where needed.
#[verifier::external_body]
pub(crate) fn debug_char(c: char) -> (r: String)
    ensures
        r@ == debug_char_text(c),
{
    format!("{c:?}")
}

/// The first `k` texts, one behind the other.
pub open spec fn concat_upto(v: Seq<Seq<char>>, k: int) -> Seq<char>
    decreases k,
{
    if k <= 0 {
        Seq::empty()
    } else {
        concat_upto(v, k - 1) + v[k - 1]
    }
}

/// The texts, one behind the other.
pub open spec fn concat_texts(v: Seq<Seq<char>>) -> Seq<char> {
    concat_upto(v, v.len() as int)
}

/// The texts, one behind the other.
pub fn concat_all(v: &[&str]) -> (r: String)
    ensures
        r@ == concat_texts(str_texts(v@)),
{
    let mut out = String::new();
    let mut i: usize = 0;
    while i < v.len()
        invariant
            i <= v@.len(),
            out@ == concat_upto(str_texts(v@), i as int),
        decreases v@.len() - i,
    {
        out.append(v[i]);
        i += 1;
    }
    out
}

/// The texts, one behind the other.
pub fn concat_strings(v: &[String]) -> (r: String)
    ensures
        r@ == concat_texts(texts(v@)),
{
    let mut out = String::new();
    let mut i: usize = 0;
    while i < v.len()
        invariant
            i <= v@.len(),
            out@ == concat_upto(texts(v@), i as int),
        decreases v@.len() - i,
    {
        out.append(v[i].as_str());
        i += 1;
    }
    out
}

/// A text `n` times.
pub open spec fn repeated(t: Seq<char>, n: nat) -> Seq<char>
    decreases n,
{
    if n == 0 {
        Seq::empty()
    } else {
        repeated(t, (n - 1) as nat) + t
    }
}

/// The first position at or after `from` where `p` stands, or the length.
pub open spec fn first_place(s: Seq<char>, p: Seq<char>, from: int) -> int
    decreases s.len() - from,
{
    if from < 0 || from >= s.len() {
        s.len() as int
    } else if at_pos(s, p, from) {
        from
    } else {
        first_place(s, p, from + 1)
    }
}

/// Gives the first position at or after `from` where `p` stands, or the length.
pub fn find_part(s: &[char], p: &[char], from: usize) -> (r: usize)
    requires
        from <= s@.len(),
    ensures
        r == first_place(s@, p@, from as int),
        from <= r <= s@.len(),
        r < s@.len() ==> at_pos(s@, p@, r as int),
{
    let mut at: usize = from;
    while at < s.len() && !stands_at(s, p, at)
        invariant
            from <= at <= s@.len(),
            first_place(s@, p@, from as int) == first_place(s@, p@, at as int),
        decreases s@.len() - at,
    {
        at += 1;
    }
    at
}

/// The parts of a text from `from` on, where `sep` stands between them.
pub open spec fn split_parts(s: Seq<char>, sep: Seq<char>, from: int) -> Seq<Seq<char>>
    decreases
            if from < s.len() {
                s.len() - from
            } else {
                0
            },
{
    let at = first_place(s, sep, from);
    if from < 0 || sep.len() == 0 || at < from || at >= s.len() {
        seq![s.skip(from)]
    } else {
        seq![s.subrange(from, at)] + split_parts(s, sep, at + sep.len())
    }
}

/// Splits a text where `sep` stands.
pub fn split_text(text: &str, sep: &str) -> (r: Vec<String>)
    requires
        sep@.len() > 0,
    ensures
        texts(r@) == split_parts(text@, sep@, 0),
{
    let s = chars_of(text);
    let n: usize = char_count(&s);
    let p = chars_of(sep);
    let m: usize = char_count(&p);
    let mut out: Vec<String> = Vec::new();
    let mut from: usize = 0;
    let mut at: usize = find_part(&s, &p, 0);
    proof {
        assert(texts(out@) + split_parts(s@, p@, 0) =~= split_parts(s@, p@, 0));
    }
    while at < n
        invariant
            s@ == text@,
            p@ == sep@,
            n == s@.len(),
            m == p@.len(),
            m > 0,
            4 * n <= isize::MAX,
            from <= at <= n,
            at == first_place(s@, p@, from as int),
            at < n ==> at_pos(s@, p@, at as int),
            texts(out@) + split_parts(s@, p@, from as int) == split_parts(s@, p@, 0),
        decreases n - at,
    {
        let ghost before = texts(out@);
        let ghost rest = split_parts(s@, p@, at + m);
        out.push(piece(&s, from, at));
        proof {
            assert(texts(out@) =~= before.push(s@.subrange(from as int, at as int)));
            assert(split_parts(s@, p@, from as int) =~= seq![
                s@.subrange(from as int, at as int),
            ] + rest);
            assert(texts(out@) + rest =~= before + split_parts(s@, p@, from as int));
        }
        from = at + m;
        at = find_part(&s, &p, from);
    }
    let ghost before = texts(out@);
    out.push(piece(&s, from, n));
    proof {
        assert(s@.subrange(from as int, n as int) =~= s@.skip(from as int));
        assert(texts(out@) =~= before + split_parts(s@, p@, from as int));
    }
    out
}

} // verus!
