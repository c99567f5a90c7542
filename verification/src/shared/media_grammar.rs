//! The tokens and the grammar of media queries.

use crate::number::{float_prefix, parse_float_prefix, JsNumber};
use crate::shared::css_value::{begins_number, number_end, number_len};
use crate::shared::media_normal::{just_above, just_below, EPSILON, MINUS_EPSILON};
use crate::shared::media_query::{
    media_models, FeatureModel, MediaModel, MediaQueryRule, MediaRuleValue,
};
use crate::text::{
    alnum, at_pos, char_at, char_count, chars_of, concat2, concat3, concat4, has_char, is_alnum,
    is_letter, letter, piece, stands_at, str_eq,
};
use crate::value::opt_text;
use vstd::prelude::*;

verus! {

/// A token of a media query.
#[derive(Debug)]
pub enum Tok {
    Whitespace,
    Ident(String),
    AtKeyword(String),
    Function(String),
    Number(JsNumber),
    Percentage(JsNumber),
    Dimension(JsNumber, String),
    Colon,
    Comma,
    OpenParen,
    CloseParen,
    Delim(char),
    /// Strings, brackets, semicolons and comments, which no media query holds.
    Unsupported,
}

/// What a token is, mathematically.
#[verifier::ext_equal]
pub enum TokModel {
    Whitespace,
    Ident(Seq<char>),
    AtKeyword(Seq<char>),
    Function(Seq<char>),
    Number(JsNumber),
    Percentage(JsNumber),
    Dimension(JsNumber, Seq<char>),
    Colon,
    Comma,
    OpenParen,
    CloseParen,
    Delim(char),
    Unsupported,
}

impl Tok {
    /// What the token is, mathematically.
    pub open spec fn model(self) -> TokModel {
        match self {
            Tok::Whitespace => TokModel::Whitespace,
            Tok::Ident(s) => TokModel::Ident(s@),
            Tok::AtKeyword(s) => TokModel::AtKeyword(s@),
            Tok::Function(s) => TokModel::Function(s@),
            Tok::Number(n) => TokModel::Number(n),
            Tok::Percentage(n) => TokModel::Percentage(n),
            Tok::Dimension(n, s) => TokModel::Dimension(n, s@),
            Tok::Colon => TokModel::Colon,
            Tok::Comma => TokModel::Comma,
            Tok::OpenParen => TokModel::OpenParen,
            Tok::CloseParen => TokModel::CloseParen,
            Tok::Delim(c) => TokModel::Delim(c),
            Tok::Unsupported => TokModel::Unsupported,
        }
    }
}

/// What tokens are, mathematically.
pub open spec fn tok_models(v: Seq<Tok>) -> Seq<TokModel> {
    Seq::new(v.len(), |i: int| v[i].model())
}

/// Whether a character is white space in a media query.
pub open spec fn query_space(c: char) -> bool {
    c == ' ' || c == '\t' || c == '\n' || c == '\r' || c == '\u{c}'
}

/// Whether a character begins a name.
pub open spec fn name_start(c: char) -> bool {
    letter(c) || c == '_'
}

/// Whether a character may stand in a name.
pub open spec fn name_char(c: char) -> bool {
    alnum(c) || c == '_' || c == '-'
}

/// Whether a name begins at `i`.
pub open spec fn begins_name(s: Seq<char>, i: int) -> bool {
    0 <= i < s.len() && if s[i] == '-' {
        i + 1 < s.len() && (name_start(s[i + 1]) || s[i + 1] == '-')
    } else {
        name_start(s[i])
    }
}

/// The first position at or after `i` that does not belong to a name.
pub open spec fn name_stop(s: Seq<char>, i: int) -> int
    decreases s.len() - i,
{
    if 0 <= i < s.len() && name_char(s[i]) {
        name_stop(s, i + 1)
    } else {
        i
    }
}

/// The first position at or after `i` that holds no white space.
pub open spec fn query_space_end(s: Seq<char>, i: int) -> int
    decreases s.len() - i,
{
    if 0 <= i < s.len() && query_space(s[i]) {
        query_space_end(s, i + 1)
    } else {
        i
    }
}

/// The position behind the comment whose contents are read from `i` on.
pub open spec fn comment_stop(s: Seq<char>, i: int) -> int
    decreases s.len() - i,
{
    if i < 0 || i >= s.len() {
        s.len() as int
    } else if s[i] == '*' && char_at(s, i + 1, '/') {
        i + 2
    } else {
        comment_stop(s, i + 1)
    }
}

/// The number that a text spells.
pub open spec fn spelled(s: Seq<char>) -> JsNumber {
    match float_prefix(s) {
        Some(x) => x,
        None => JsNumber { bits: 0x7ff8_0000_0000_0000 },
    }
}

/// The token that begins with a number at `i`, and the position behind it.
pub open spec fn number_token(s: Seq<char>, i: int) -> (TokModel, int) {
    let end = i + number_end(s.skip(i));
    let value = spelled(s.subrange(i, end));
    if begins_name(s, end) {
        (TokModel::Dimension(value, s.subrange(end, name_stop(s, end))), name_stop(s, end))
    } else if char_at(s, end, '%') {
        (TokModel::Percentage(value), end + 1)
    } else {
        (TokModel::Number(value), end)
    }
}

/// The token of a single character.
pub open spec fn char_token(c: char) -> TokModel {
    if c == '(' {
        TokModel::OpenParen
    } else if c == ')' {
        TokModel::CloseParen
    } else if c == ':' {
        TokModel::Colon
    } else if c == ',' {
        TokModel::Comma
    } else if c == '"' || c == '\'' || c == '[' || c == ']' || c == '{' || c == '}' || c == ';' {
        TokModel::Unsupported
    } else {
        TokModel::Delim(c)
    }
}

/// The token at `i`, and the position behind it.
pub open spec fn token_here(s: Seq<char>, i: int) -> (TokModel, int) {
    let c = s[i];
    if query_space(c) {
        (TokModel::Whitespace, query_space_end(s, i))
    } else if c == '/' && char_at(s, i + 1, '*') {
        (TokModel::Unsupported, comment_stop(s, i + 2))
    } else if begins_number(s.skip(i)) {
        number_token(s, i)
    } else if at_pos(s, "-->"@, i) {
        (TokModel::Unsupported, i + 3)
    } else if at_pos(s, "<!--"@, i) {
        (TokModel::Unsupported, i + 4)
    } else if begins_name(s, i) {
        let end = name_stop(s, i);
        if char_at(s, end, '(') {
            (TokModel::Function(s.subrange(i, end)), end + 1)
        } else {
            (TokModel::Ident(s.subrange(i, end)), end)
        }
    } else if c == '@' && begins_name(s, i + 1) {
        let end = name_stop(s, i + 1);
        (TokModel::AtKeyword(s.subrange(i + 1, end)), end)
    } else {
        (char_token(c), i + 1)
    }
}

/// The tokens from `i` on.
pub open spec fn tokens_from(s: Seq<char>, i: int) -> Seq<TokModel>
    decreases s.len() - i,
{
    if i < 0 || i >= s.len() {
        Seq::empty()
    } else {
        let (tok, next) = token_here(s, i);
        if i < next <= s.len() {
            seq![tok] + tokens_from(s, next)
        } else {
            seq![tok]
        }
    }
}

fn name_begins(s: &[char], i: usize) -> (r: bool)
    requires
        4 * s@.len() <= isize::MAX,
    ensures
        r == begins_name(s@, i as int),
{
    if i >= s.len() {
        return false;
    }
    let c = s[i];
    if c == '-' {
        i + 1 < s.len() && (is_letter(s[i + 1]) || s[i + 1] == '_' || s[i + 1] == '-')
    } else {
        is_letter(c) || c == '_'
    }
}

fn skip_query_name(s: &[char], from: usize) -> (r: usize)
    requires
        from <= s@.len(),
    ensures
        r == name_stop(s@, from as int),
        from <= r <= s@.len(),
        begins_name(s@, from as int) ==> from < r,
{
    let mut i: usize = from;
    while i < s.len() && (is_alnum(s[i]) || s[i] == '_' || s[i] == '-')
        invariant
            from <= i <= s@.len(),
            name_stop(s@, from as int) == name_stop(s@, i as int),
        decreases s@.len() - i,
    {
        i += 1;
    }
    i
}

fn tokenize_one(s: &[char], i: usize) -> (r: (Tok, usize))
    requires
        i < s@.len(),
        4 * s@.len() <= isize::MAX,
    ensures
        (r.0.model(), r.1 as int) == token_here(s@, i as int),
        i < r.1 <= s@.len(),
{
    let n: usize = s.len();
    let c = s[i];
    if c == ' ' || c == '\t' || c == '\n' || c == '\r' || c == '\u{c}' {
        let mut end: usize = i;
        while end < n && (s[end] == ' ' || s[end] == '\t' || s[end] == '\n' || s[end] == '\r'
            || s[end] == '\u{c}')
            invariant
                n == s@.len(),
                i <= end <= n,
                i < n,
                query_space(s@[i as int]),
                query_space_end(s@, i as int) == query_space_end(s@, end as int),
            decreases n - end,
        {
            end += 1;
        }
        return (Tok::Whitespace, end);
    }
    if c == '/' && has_char(s, i + 1, '*') {
        let mut end: usize = i + 2;
        while end < n
            invariant
                n == s@.len(),
                4 * n <= isize::MAX,
                i + 2 <= end <= n,
                comment_stop(s@, i + 2) == comment_stop(s@, end as int),
                s@[i as int] == '/' && char_at(s@, i + 1, '*'),
                !query_space(s@[i as int]),
            decreases n - end,
        {
            if s[end] == '*' && has_char(s, end + 1, '/') {
                return (Tok::Unsupported, end + 2);
            }
            end += 1;
        }
        return (Tok::Unsupported, n);
    }
    let rest = &s[i..n];
    proof {
        assert(rest@ =~= s@.skip(i as int));
    }
    if let Some(len) = number_len(rest) {
        let end: usize = i + len;
        let text = piece(s, i, end);
        let value = match parse_float_prefix(text.as_str()) {
            Some(x) => x,
            None => JsNumber { bits: 0x7ff8_0000_0000_0000 },
        };
        if name_begins(s, end) {
            let stop: usize = skip_query_name(s, end);
            return (Tok::Dimension(value, piece(s, end, stop)), stop);
        }
        if has_char(s, end, '%') {
            return (Tok::Percentage(value), end + 1);
        }
        return (Tok::Number(value), end);
    }
    proof {
        reveal_strlit("-->");
        reveal_strlit("<!--");
    }
    if stands_at(s, &chars_of("-->"), i) {
        return (Tok::Unsupported, i + 3);
    }
    if stands_at(s, &chars_of("<!--"), i) {
        return (Tok::Unsupported, i + 4);
    }
    if name_begins(s, i) {
        let end: usize = skip_query_name(s, i);
        let name = piece(s, i, end);
        if has_char(s, end, '(') {
            return (Tok::Function(name), end + 1);
        }
        return (Tok::Ident(name), end);
    }
    if c == '@' && name_begins(s, i + 1) {
        let end: usize = skip_query_name(s, i + 1);
        return (Tok::AtKeyword(piece(s, i + 1, end)), end);
    }
    let tok = if c == '(' {
        Tok::OpenParen
    } else if c == ')' {
        Tok::CloseParen
    } else if c == ':' {
        Tok::Colon
    } else if c == ',' {
        Tok::Comma
    } else if c == '"' || c == '\'' || c == '[' || c == ']' || c == '{' || c == '}' || c == ';' {
        Tok::Unsupported
    } else {
        Tok::Delim(c)
    };
    (tok, i + 1)
}

/// Cuts a media query into tokens.
pub fn tokenize(input: &str) -> (r: Vec<Tok>)
    ensures
        tok_models(r@) == tokens_from(input@, 0),
{
    let s = chars_of(input);
    let n: usize = char_count(&s);
    let mut out: Vec<Tok> = Vec::new();
    let mut i: usize = 0;
    proof {
        assert(tok_models(out@) + tokens_from(s@, 0) =~= tokens_from(s@, 0));
    }
    while i < n
        invariant
            n == s@.len(),
            4 * n <= isize::MAX,
            i <= n,
            tok_models(out@) + tokens_from(s@, i as int) == tokens_from(s@, 0),
        decreases n - i,
    {
        let ghost before = tok_models(out@);
        let (tok, next) = tokenize_one(&s, i);
        out.push(tok);
        proof {
            assert(tok_models(out@) =~= before.push(tok.model()));
            assert(tok_models(out@) + tokens_from(s@, next as int) =~= before + tokens_from(
                s@,
                i as int,
            ));
        }
        i = next;
    }
    proof {
        assert(tok_models(out@) + tokens_from(s@, i as int) =~= tok_models(out@));
    }
    out
}

/// The position behind the token `k` at `i`; -1 where it does not stand there.
pub open spec fn after(t: Seq<TokModel>, i: int, k: TokModel) -> int {
    if 0 <= i < t.len() && t[i] == k {
        i + 1
    } else {
        -1
    }
}

/// The position behind white space at `i`, if any stands there.
pub open spec fn past_space(t: Seq<TokModel>, i: int) -> int {
    if 0 <= i < t.len() && t[i] is Whitespace {
        i + 1
    } else {
        i
    }
}

/// The name at `i`, if one stands there.
pub open spec fn name_at(t: Seq<TokModel>, i: int) -> Option<Seq<char>> {
    if 0 <= i < t.len() {
        match t[i] {
            TokModel::Ident(s) => Some(s),
            _ => None,
        }
    } else {
        None
    }
}

/// The length at `i`, if one stands there.
pub open spec fn length_at(t: Seq<TokModel>, i: int) -> Option<(JsNumber, Seq<char>)> {
    if 0 <= i < t.len() {
        match t[i] {
            TokModel::Dimension(n, s) => Some((n, s)),
            _ => None,
        }
    } else {
        None
    }
}

/// The bare number at `i`, if one stands there.
pub open spec fn number_at(t: Seq<TokModel>, i: int) -> Option<JsNumber> {
    if 0 <= i < t.len() {
        match t[i] {
            TokModel::Number(n) => Some(n),
            _ => None,
        }
    } else {
        None
    }
}

/// The sign of a calculation at `i`, if one stands there.
pub open spec fn sign_here(t: Seq<TokModel>, i: int) -> Option<char> {
    if 0 <= i < t.len() {
        match t[i] {
            TokModel::Delim(c) => if c == '*' || c == '/' || c == '+' || c == '-' {
                Some(c)
            } else {
                None
            },
            _ => None,
        }
    } else {
        None
    }
}

/// The sign of a comparison at `i`, if one stands there: whether it says greater.
pub open spec fn greater_at(t: Seq<TokModel>, i: int) -> Option<bool> {
    if 0 <= i < t.len() {
        if t[i] == TokModel::Delim('>') {
            Some(true)
        } else if t[i] == TokModel::Delim('<') {
            Some(false)
        } else {
            None
        }
    } else {
        None
    }
}

/// Whether the name at `i` is a type of media.
pub open spec fn media_type_at(t: Seq<TokModel>, i: int) -> bool {
    name_at(t, i) matches Some(s) && (s == "screen"@ || s == "print"@ || s == "all"@)
}

/// The tokens from a position on, with one rule read and the position behind it.
pub type Read = Option<(MediaModel, int)>;

/// A type of media at `i`, behind `not` or `only` or both.
pub open spec fn keyword_at(t: Seq<TokModel>, i: int) -> Read {
    let not = after(t, i, TokModel::Ident("not"@)) >= 0;
    let a = if not {
        i + 1
    } else {
        i
    };
    let b = if not {
        after(t, a, TokModel::Whitespace)
    } else {
        a
    };
    let only = after(t, b, TokModel::Ident("only"@)) >= 0;
    let c = if only {
        b + 1
    } else {
        a
    };
    let d = if c > i {
        after(t, c, TokModel::Whitespace)
    } else {
        c
    };
    if media_type_at(t, d) {
        Some((MediaModel::Keyword(name_at(t, d)->0, not, only), d + 1))
    } else {
        None
    }
}

/// A feature by its name alone at `i`.
pub open spec fn word_at(t: Seq<TokModel>, i: int) -> Read {
    let a = after(t, i, TokModel::OpenParen);
    let end = after(t, a + 1, TokModel::CloseParen);
    match name_at(t, a) {
        Some(key) => if end >= 0 && (key == "color"@ || key == "monochrome"@ || key == "grid"@ || key
            == "color-index"@) {
            Some((MediaModel::WordRule(key), end))
        } else {
            None
        },
        None => None,
    }
}

/// How many tokens are left at `i`.
pub open spec fn left(t: Seq<TokModel>, i: int) -> int {
    if 0 <= i < t.len() {
        t.len() - i
    } else {
        0
    }
}

/// Whether a name is a constant of calculations.
pub open spec fn calc_constant(s: Seq<char>) -> bool {
    s == "pi"@ || s == "e"@ || s == "infinity"@ || s == "-infinity"@ || s == "NaN"@
}

/// A value of a calculation at `i`.
pub open spec fn calc_value_at(t: Seq<TokModel>, i: int) -> Option<Seq<char>> {
    if 0 <= i < t.len() {
        match t[i] {
            TokModel::Ident(s) => if calc_constant(s) {
                Some(s)
            } else {
                None
            },
            TokModel::Number(n) => Some(n.text_spec()),
            TokModel::Dimension(n, unit) => Some(n.text_spec() + unit),
            TokModel::Percentage(n) => Some(n.text_spec() + "%"@),
            _ => None,
        }
    } else {
        None
    }
}

/// An operand of a calculation at `i`: a value, or a calculation in brackets.
pub open spec fn operand_at(t: Seq<TokModel>, i: int) -> Option<(Seq<char>, int)>
    decreases left(t, i), 0int,
{
    match calc_value_at(t, i) {
        Some(s) => Some((s, i + 1)),
        None => if after(t, i, TokModel::OpenParen) >= 0 {
            match calculation_at(t, past_space(t, i + 1)) {
                Some((inner, p)) => {
                    let end = after(t, past_space(t, p), TokModel::CloseParen);
                    if end >= 0 {
                        Some(("("@ + inner + ")"@, end))
                    } else {
                        None
                    }
                },
                None => None,
            }
        } else {
            None
        },
    }
}

/// A calculation at `i`.
pub open spec fn calculation_at(t: Seq<TokModel>, i: int) -> Option<(Seq<char>, int)>
    decreases left(t, i), 1int,
{
    match operand_at(t, i) {
        Some((first, p)) => if 0 <= i < p && i < t.len() {
            Some(calculation_rest(t, past_space(t, p), first, true))
        } else {
            None
        },
        None => None,
    }
}

/// The rest of a calculation at `i`, behind the text read so far.
pub open spec fn calculation_rest(t: Seq<TokModel>, i: int, text: Seq<char>, first: bool) -> (
    Seq<char>,
    int,
)
    decreases left(t, i), 2int,
{
    let s = if first {
        i
    } else {
        past_space(t, i)
    };
    match sign_here(t, s) {
        Some(op) => match operand_at(t, past_space(t, s + 1)) {
            Some((operand, p)) => if p > i {
                calculation_rest(t, p, text + " "@ + seq![op] + " "@ + operand, false)
            } else {
                (text, i)
            },
            None => (text, i),
        },
        None => (text, i),
    }
}

/// A `calc()` at `i`.
pub open spec fn calc_at(t: Seq<TokModel>, i: int) -> Option<(Seq<char>, int)> {
    let a = after(t, i, TokModel::Function("calc"@));
    if a < 0 {
        None
    } else {
        match calculation_at(t, past_space(t, a)) {
            Some((body, p)) => {
                let end = after(t, past_space(t, p), TokModel::CloseParen);
                if end >= 0 {
                    Some(("calc("@ + body + ")"@, end))
                } else {
                    None
                }
            },
            None => None,
        }
    }
}

/// The value of a feature at `i`.
pub open spec fn feature_at(t: Seq<TokModel>, i: int) -> Option<(FeatureModel, int)> {
    if calc_at(t, i) is Some {
        Some((FeatureModel::Str((calc_at(t, i)->0).0), (calc_at(t, i)->0).1))
    } else if length_at(t, i) is Some {
        Some((FeatureModel::Length((length_at(t, i)->0).0, (length_at(t, i)->0).1), i + 1))
    } else if name_at(t, i) is Some {
        Some((FeatureModel::Str(name_at(t, i)->0), i + 1))
    } else if number_at(t, i) is Some {
        let a = number_at(t, i)->0;
        let slash = after(t, past_space(t, i + 1), TokModel::Delim('/'));
        let b = past_space(t, slash);
        if slash >= 0 && number_at(t, b) is Some {
            Some((FeatureModel::Fraction(a, number_at(t, b)->0), b + 1))
        } else {
            Some((FeatureModel::Number(a), i + 1))
        }
    } else {
        None
    }
}

/// A feature with its value at `i`.
pub open spec fn pair_at(t: Seq<TokModel>, i: int) -> Read {
    let a = past_space(t, after(t, i, TokModel::OpenParen));
    match name_at(t, a) {
        Some(key) => {
            let b = after(t, past_space(t, a + 1), TokModel::Colon);
            match feature_at(t, past_space(t, b)) {
                Some((value, p)) => {
                    let end = after(t, past_space(t, p), TokModel::CloseParen);
                    if end >= 0 {
                        Some((MediaModel::Pair(key, value), end))
                    } else {
                        None
                    }
                },
                None => None,
            }
        },
        None => None,
    }
}

/// A dimension at `i`: whether it is the width.
pub open spec fn size_at(t: Seq<TokModel>, i: int) -> Option<Seq<char>> {
    match name_at(t, i) {
        Some(s) => if s == "width"@ || s == "height"@ {
            Some(s)
        } else {
            None
        },
        None => None,
    }
}

/// Whether `=` stands at `i`, with white space before it or without.
pub open spec fn equal_at(t: Seq<TokModel>, i: int) -> bool {
    after(t, past_space(t, i), TokModel::Delim('=')) >= 0
}

/// The position behind `=` at `i`, if it stands there.
pub open spec fn past_equal(t: Seq<TokModel>, i: int) -> int {
    if equal_at(t, i) {
        past_space(t, i) + 1
    } else {
        i
    }
}

/// A bound that leaves the value itself out where the comparison is strict.
pub open spec fn bound_rule(size: Seq<char>, max: bool, v: JsNumber, unit: Seq<char>, eq: bool) -> MediaModel {
    let value = if eq {
        v
    } else if max {
        just_below(v)
    } else {
        just_above(v)
    };
    MediaModel::Pair(
        if max {
            "max-"@ + size
        } else {
            "min-"@ + size
        },
        FeatureModel::Length(value, unit),
    )
}

/// A comparison at `i`, with the dimension first.
pub open spec fn forward_at(t: Seq<TokModel>, i: int) -> Read {
    let a = past_space(t, after(t, i, TokModel::OpenParen));
    let b = past_space(t, a + 1);
    let c = b + 1;
    let d = past_space(t, past_equal(t, c));
    let end = after(t, past_space(t, d + 1), TokModel::CloseParen);
    if size_at(t, a) is Some && greater_at(t, b) is Some && length_at(t, d) is Some && end >= 0 {
        let v = length_at(t, d)->0;
        Some(
            (
                bound_rule(size_at(t, a)->0, !greater_at(t, b)->0, v.0, v.1, equal_at(t, c)),
                end,
            ),
        )
    } else {
        None
    }
}

/// A comparison at `i`, with the length first.
pub open spec fn reversed_at(t: Seq<TokModel>, i: int) -> Read {
    let a = past_space(t, after(t, i, TokModel::OpenParen));
    let b = past_space(t, a + 1);
    let c = b + 1;
    let d = past_space(t, past_equal(t, c));
    let end = after(t, past_space(t, d + 1), TokModel::CloseParen);
    if length_at(t, a) is Some && greater_at(t, b) is Some && size_at(t, d) is Some && end >= 0 {
        let v = length_at(t, a)->0;
        Some(
            (bound_rule(size_at(t, d)->0, greater_at(t, b)->0, v.0, v.1, equal_at(t, c)), end),
        )
    } else {
        None
    }
}

/// A comparison at `i`.
pub open spec fn comparison_at(t: Seq<TokModel>, i: int) -> Read {
    match forward_at(t, i) {
        Some(r) => Some(r),
        None => reversed_at(t, i),
    }
}

/// Two comparisons at `i`, with the dimension between two lengths.
pub open spec fn between_at(t: Seq<TokModel>, i: int) -> Read {
    let a = past_space(t, after(t, i, TokModel::OpenParen));
    let b = past_space(t, a + 1);
    let c = b + 1;
    let d = past_space(t, past_equal(t, c));
    let e = past_space(t, d + 1);
    let f = e + 1;
    let g = past_space(t, past_equal(t, f));
    let end = after(t, past_space(t, g + 1), TokModel::CloseParen);
    if length_at(t, a) is Some && greater_at(t, b) is Some && size_at(t, d) is Some && greater_at(
        t,
        e,
    ) is Some && length_at(t, g) is Some && end >= 0 {
        let low = length_at(t, a)->0;
        let high = length_at(t, g)->0;
        let size = size_at(t, d)->0;
        Some(
            (
                MediaModel::And(
                    seq![
                        bound_rule(size, greater_at(t, b)->0, low.0, low.1, equal_at(t, c)),
                        bound_rule(size, !greater_at(t, e)->0, high.0, high.1, equal_at(t, f)),
                    ],
                ),
                end,
            ),
        )
    } else {
        None
    }
}

/// The first of two readings that succeeds.
pub open spec fn either(a: Read, b: Read) -> Read {
    match a {
        Some(r) => Some(r),
        None => b,
    }
}

/// Rules joined by a word at `i`: at least two.
pub open spec fn chain_at(t: Seq<TokModel>, i: int, word: Seq<char>) -> Option<(Seq<MediaModel>, int)>
    decreases left(t, i), 3int,
{
    match element_at(t, i) {
        Some((first, p)) => if 0 <= i < p && i < t.len() {
            let (items, end) = chain_rest(t, p, word, seq![first]);
            if items.len() > 1 {
                Some((items, end))
            } else {
                None
            }
        } else {
            None
        },
        None => None,
    }
}

/// The rest of rules joined by a word at `i`. A word without a rule behind it is
/// passed over.
pub open spec fn chain_rest(t: Seq<TokModel>, i: int, word: Seq<char>, items: Seq<MediaModel>) -> (
    Seq<MediaModel>,
    int,
)
    decreases left(t, i), 3int,
{
    let a = after(
        t,
        after(t, after(t, i, TokModel::Whitespace), TokModel::Ident(word)),
        TokModel::Whitespace,
    );
    if a < 0 {
        (items, i)
    } else {
        match element_at(t, a) {
            Some((rule, p)) => if p > a {
                chain_rest(t, p, word, items.push(rule))
            } else {
                (items, a)
            },
            None => (items, a),
        }
    }
}

/// Rules that must all hold at `i`.
pub open spec fn and_at(t: Seq<TokModel>, i: int) -> Read
    decreases left(t, i), 4int,
{
    match chain_at(t, i, "and"@) {
        Some((items, p)) => Some((MediaModel::And(items), p)),
        None => None,
    }
}

/// Rules of which one must hold at `i`.
pub open spec fn or_at(t: Seq<TokModel>, i: int) -> Read
    decreases left(t, i), 4int,
{
    match chain_at(t, i, "or"@) {
        Some((items, p)) => Some((MediaModel::Or(items), p)),
        None => None,
    }
}

/// One rule of a chain at `i`.
pub open spec fn element_at(t: Seq<TokModel>, i: int) -> Read
    decreases left(t, i), 2int,
{
    either(
        keyword_at(t, i),
        either(
            or_in_brackets_at(t, i),
            either(
                and_in_brackets_at(t, i),
                either(
                    not_at(t, i),
                    either(
                        between_at(t, i),
                        either(comparison_at(t, i), either(pair_at(t, i), word_at(t, i))),
                    ),
                ),
            ),
        ),
    )
}

/// A choice in brackets at `i`.
pub open spec fn or_in_brackets_at(t: Seq<TokModel>, i: int) -> Read
    decreases left(t, i), 1int,
{
    if after(t, i, TokModel::OpenParen) < 0 {
        None
    } else {
        match or_at(t, i + 1) {
            Some((rule, p)) => if after(t, p, TokModel::CloseParen) >= 0 {
                Some((rule, p + 1))
            } else {
                None
            },
            None => None,
        }
    }
}

/// Rules that must all hold in brackets at `i`.
pub open spec fn and_in_brackets_at(t: Seq<TokModel>, i: int) -> Read
    decreases left(t, i), 1int,
{
    if after(t, i, TokModel::OpenParen) < 0 {
        None
    } else {
        match and_at(t, i + 1) {
            Some((rule, p)) => if after(t, p, TokModel::CloseParen) >= 0 {
                Some((rule, p + 1))
            } else {
                None
            },
            None => None,
        }
    }
}

/// A denial in brackets at `i`.
pub open spec fn not_at(t: Seq<TokModel>, i: int) -> Read
    decreases left(t, i), 1int,
{
    let a = after(
        t,
        after(t, after(t, i, TokModel::OpenParen), TokModel::Ident("not"@)),
        TokModel::Whitespace,
    );
    if a < 0 {
        None
    } else {
        match denied_at(t, a) {
            Some((rule, p)) => if after(t, p, TokModel::CloseParen) >= 0 {
                Some((MediaModel::Not(Box::new(rule)), p + 1))
            } else {
                None
            },
            None => None,
        }
    }
}

/// A type of media in brackets at `i`.
pub open spec fn keyword_in_brackets_at(t: Seq<TokModel>, i: int) -> Read {
    let a = after(t, i, TokModel::OpenParen);
    if media_type_at(t, a) && after(t, a + 1, TokModel::CloseParen) >= 0 {
        Some((MediaModel::Keyword(name_at(t, a)->0, false, false), a + 2))
    } else {
        None
    }
}

/// What may be denied in brackets at `i`: comparisons may not.
pub open spec fn denied_at(t: Seq<TokModel>, i: int) -> Read
    decreases left(t, i), 5int,
{
    match either(
        keyword_in_brackets_at(t, i),
        either(
            and_at(t, i),
            either(
                or_at(t, i),
                either(
                    pair_at(t, i),
                    either(
                        word_at(t, i),
                        either(
                            not_at(t, i),
                            either(or_in_brackets_at(t, i), and_in_brackets_at(t, i)),
                        ),
                    ),
                ),
            ),
        ),
    ) {
        Some((rule, p)) => Some((rule, past_space(t, p))),
        None => None,
    }
}

/// A denial at the start of a query at `i`.
pub open spec fn leading_not_at(t: Seq<TokModel>, i: int) -> Read {
    let a = after(t, after(t, i, TokModel::Ident("not"@)), TokModel::Whitespace);
    if a < 0 {
        None
    } else {
        match either(
            or_in_brackets_at(t, a),
            either(
                and_in_brackets_at(t, a),
                either(
                    not_at(t, a),
                    either(comparison_at(t, a), either(pair_at(t, a), word_at(t, a))),
                ),
            ),
        ) {
            Some((rule, p)) => Some((MediaModel::Not(Box::new(rule)), p)),
            None => None,
        }
    }
}

/// One query at `i`.
pub open spec fn query_at(t: Seq<TokModel>, i: int) -> Read {
    either(
        leading_not_at(t, i),
        either(
            and_at(t, i),
            either(
                or_at(t, i),
                either(
                    keyword_at(t, i),
                    either(
                        not_at(t, i),
                        either(
                            between_at(t, i),
                            either(
                                comparison_at(t, i),
                                either(
                                    pair_at(t, i),
                                    either(
                                        word_at(t, i),
                                        either(
                                            or_in_brackets_at(t, i),
                                            and_in_brackets_at(t, i),
                                        ),
                                    ),
                                ),
                            ),
                        ),
                    ),
                ),
            ),
        ),
    )
}

/// The rest of queries with commas between at `i`. A comma without a query behind
/// it is passed over.
pub open spec fn queries_rest(t: Seq<TokModel>, i: int, items: Seq<MediaModel>) -> (
    Seq<MediaModel>,
    int,
)
    decreases left(t, i),
{
    let comma = after(t, past_space(t, i), TokModel::Comma);
    if comma < 0 {
        (items, i)
    } else {
        let a = past_space(t, comma);
        match query_at(t, a) {
            Some((rule, p)) => if p > i {
                queries_rest(t, p, items.push(rule))
            } else {
                (items, a)
            },
            None => (items, a),
        }
    }
}

/// A media query: its name, then queries with commas between.
pub open spec fn media_query_at(t: Seq<TokModel>, i: int) -> Read {
    let a = after(t, after(t, i, TokModel::AtKeyword("media"@)), TokModel::Whitespace);
    if a < 0 {
        None
    } else {
        match query_at(t, a) {
            Some((first, p)) => {
                let (items, end) = queries_rest(t, p, seq![first]);
                Some(
                    (
                        if items.len() > 1 {
                            MediaModel::Or(items)
                        } else {
                            items[0]
                        },
                        end,
                    ),
                )
            },
            None => None,
        }
    }
}

/// The view of an optional position.
spec fn place(o: Option<usize>) -> int {
    match o {
        Some(i) => i as int,
        None => -1,
    }
}

/// The view of a rule and a position.
spec fn read(o: Option<(MediaQueryRule, usize)>) -> Read {
    match o {
        Some(p) => Some((p.0.model(), p.1 as int)),
        None => None,
    }
}

/// The view of a text and a position.
spec fn text_read(o: Option<(String, usize)>) -> Option<(Seq<char>, int)> {
    match o {
        Some(p) => Some((p.0@, p.1 as int)),
        None => None,
    }
}

/// A reader of tokens.
pub struct Parser<'a> {
    tokens: &'a Vec<Tok>,
}

impl<'a> Parser<'a> {
    /// The tokens, mathematically.
    pub closed spec fn toks(self) -> Seq<TokModel> {
        tok_models(self.tokens@)
    }

    /// A reader of the given tokens.
    pub fn new(tokens: &'a Vec<Tok>) -> (r: Parser<'a>)
        ensures
            r.toks() == tok_models(tokens@),
    {
        Parser { tokens }
    }

    fn peek(&self, at: Option<usize>) -> (r: Option<&'a Tok>)
        ensures
            r is Some == (0 <= place(at) < self.toks().len()),
            r is Some ==> r->0.model() == self.toks()[place(at)],
            r is Some ==> at->0 < usize::MAX,
    {
        match at {
            Some(i) => {
                if i < self.tokens.len() {
                    Some(&self.tokens[i])
                } else {
                    None
                }
            },
            None => None,
        }
    }

    fn next(&self, at: Option<usize>) -> (r: Option<usize>)
        requires
            0 <= place(at) < self.toks().len(),
        ensures
            place(r) == place(at) + 1,
    {
        let n: usize = self.tokens.len();
        match at {
            Some(i) => Some(i + 1),
            None => None,
        }
    }

    fn ws(&self, at: Option<usize>) -> (r: Option<usize>)
        ensures
            place(r) == after(self.toks(), place(at), TokModel::Whitespace),
    {
        match self.peek(at) {
            Some(Tok::Whitespace) => self.next(at),
            _ => None,
        }
    }

    fn ws_opt(&self, at: Option<usize>) -> (r: Option<usize>)
        ensures
            place(r) == past_space(self.toks(), place(at)),
            r is Some == at is Some,
    {
        match self.peek(at) {
            Some(Tok::Whitespace) => self.next(at),
            _ => at,
        }
    }

    fn ident_eq(&self, at: Option<usize>, word: &str) -> (r: Option<usize>)
        ensures
            place(r) == after(self.toks(), place(at), TokModel::Ident(word@)),
    {
        match self.peek(at) {
            Some(Tok::Ident(name)) => {
                if str_eq(name.as_str(), word) {
                    self.next(at)
                } else {
                    None
                }
            },
            _ => None,
        }
    }

    fn ident(&self, at: Option<usize>) -> (r: Option<String>)
        ensures
            opt_text(r) == name_at(self.toks(), place(at)),
    {
        match self.peek(at) {
            Some(Tok::Ident(name)) => Some(name.clone()),
            _ => None,
        }
    }

    fn delim(&self, at: Option<usize>, c: char) -> (r: Option<usize>)
        ensures
            place(r) == after(self.toks(), place(at), TokModel::Delim(c)),
    {
        match self.peek(at) {
            Some(Tok::Delim(d)) => {
                if *d == c {
                    self.next(at)
                } else {
                    None
                }
            },
            _ => None,
        }
    }

    fn open(&self, at: Option<usize>) -> (r: Option<usize>)
        ensures
            place(r) == after(self.toks(), place(at), TokModel::OpenParen),
    {
        match self.peek(at) {
            Some(Tok::OpenParen) => self.next(at),
            _ => None,
        }
    }

    fn close(&self, at: Option<usize>) -> (r: Option<usize>)
        ensures
            place(r) == after(self.toks(), place(at), TokModel::CloseParen),
    {
        match self.peek(at) {
            Some(Tok::CloseParen) => self.next(at),
            _ => None,
        }
    }

    fn colon(&self, at: Option<usize>) -> (r: Option<usize>)
        ensures
            place(r) == after(self.toks(), place(at), TokModel::Colon),
    {
        match self.peek(at) {
            Some(Tok::Colon) => self.next(at),
            _ => None,
        }
    }

    fn comma(&self, at: Option<usize>) -> (r: Option<usize>)
        ensures
            place(r) == after(self.toks(), place(at), TokModel::Comma),
    {
        match self.peek(at) {
            Some(Tok::Comma) => self.next(at),
            _ => None,
        }
    }

    fn function_eq(&self, at: Option<usize>, word: &str) -> (r: Option<usize>)
        ensures
            place(r) == after(self.toks(), place(at), TokModel::Function(word@)),
    {
        match self.peek(at) {
            Some(Tok::Function(name)) => {
                if str_eq(name.as_str(), word) {
                    self.next(at)
                } else {
                    None
                }
            },
            _ => None,
        }
    }

    fn at_keyword_eq(&self, at: Option<usize>, word: &str) -> (r: Option<usize>)
        ensures
            place(r) == after(self.toks(), place(at), TokModel::AtKeyword(word@)),
    {
        match self.peek(at) {
            Some(Tok::AtKeyword(name)) => {
                if str_eq(name.as_str(), word) {
                    self.next(at)
                } else {
                    None
                }
            },
            _ => None,
        }
    }

    fn number(&self, at: Option<usize>) -> (r: Option<JsNumber>)
        ensures
            r == number_at(self.toks(), place(at)),
    {
        match self.peek(at) {
            Some(Tok::Number(n)) => Some(*n),
            _ => None,
        }
    }

    fn dimension(&self, at: Option<usize>) -> (r: Option<(JsNumber, String)>)
        ensures
            r is Some == length_at(self.toks(), place(at)) is Some,
            r is Some ==> ((r->0).0, (r->0).1@) == length_at(self.toks(), place(at))->0,
    {
        match self.peek(at) {
            Some(Tok::Dimension(n, unit)) => Some((*n, unit.clone())),
            _ => None,
        }
    }

    fn operator(&self, at: Option<usize>) -> (r: Option<char>)
        ensures
            r == sign_here(self.toks(), place(at)),
    {
        match self.peek(at) {
            Some(Tok::Delim(c)) => {
                if *c == '*' || *c == '/' || *c == '+' || *c == '-' {
                    Some(*c)
                } else {
                    None
                }
            },
            _ => None,
        }
    }

    fn ineq_op(&self, at: Option<usize>) -> (r: Option<bool>)
        ensures
            r == greater_at(self.toks(), place(at)),
    {
        match self.peek(at) {
            Some(Tok::Delim(c)) => {
                if *c == '>' {
                    Some(true)
                } else if *c == '<' {
                    Some(false)
                } else {
                    None
                }
            },
            _ => None,
        }
    }

    fn media_type(&self, at: Option<usize>) -> (r: Option<String>)
        ensures
            r is Some == media_type_at(self.toks(), place(at)),
            r is Some ==> Some(r->0@) == name_at(self.toks(), place(at)),
    {
        match self.ident(at) {
            Some(s) => {
                if str_eq(s.as_str(), "screen") || str_eq(s.as_str(), "print") || str_eq(
                    s.as_str(),
                    "all",
                ) {
                    Some(s)
                } else {
                    None
                }
            },
            None => None,
        }
    }

    fn width_or_height(&self, at: Option<usize>) -> (r: Option<String>)
        ensures
            opt_text(r) == size_at(self.toks(), place(at)),
    {
        match self.ident(at) {
            Some(s) => {
                if str_eq(s.as_str(), "width") || str_eq(s.as_str(), "height") {
                    Some(s)
                } else {
                    None
                }
            },
            None => None,
        }
    }

    fn media_keyword(&self, i: usize) -> (r: Option<(MediaQueryRule, usize)>)
        ensures
            read(r) == keyword_at(self.toks(), i as int),
            r is Some ==> i < (r->0).1,
    {
        let after_not = self.ident_eq(Some(i), "not");
        let not = after_not.is_some();
        let a = if not {
            after_not
        } else {
            Some(i)
        };
        let b = if not {
            self.ws(a)
        } else {
            a
        };
        let after_only = self.ident_eq(b, "only");
        let only = after_only.is_some();
        let c = if only {
            after_only
        } else {
            a
        };
        let d = if not || only {
            self.ws(c)
        } else {
            c
        };
        match self.media_type(d) {
            Some(key) => {
                match self.next(d) {
                    Some(end) => Some((MediaQueryRule::Keyword { key, not, only }, end)),
                    None => None,
                }
            },
            None => None,
        }
    }

    fn word_rule(&self, i: usize) -> (r: Option<(MediaQueryRule, usize)>)
        ensures
            read(r) == word_at(self.toks(), i as int),
            r is Some ==> i < (r->0).1,
    {
        let a = self.open(Some(i));
        match self.ident(a) {
            Some(key) => {
                let end = self.close(self.next(a));
                let known = str_eq(key.as_str(), "color") || str_eq(key.as_str(), "monochrome")
                    || str_eq(key.as_str(), "grid") || str_eq(key.as_str(), "color-index");
                match end {
                    Some(e) => {
                        if known {
                            Some((MediaQueryRule::WordRule(key), e))
                        } else {
                            None
                        }
                    },
                    None => None,
                }
            },
            None => None,
        }
    }

    fn calc_value(&self, i: usize) -> (r: Option<String>)
        ensures
            opt_text(r) == calc_value_at(self.toks(), i as int),
    {
        match self.peek(Some(i)) {
            Some(Tok::Ident(s)) => {
                if str_eq(s.as_str(), "pi") || str_eq(s.as_str(), "e") || str_eq(
                    s.as_str(),
                    "infinity",
                ) || str_eq(s.as_str(), "-infinity") || str_eq(s.as_str(), "NaN") {
                    Some(s.clone())
                } else {
                    None
                }
            },
            Some(Tok::Number(n)) => Some(n.text()),
            Some(Tok::Dimension(n, unit)) => Some(concat2(n.text().as_str(), unit.as_str())),
            Some(Tok::Percentage(n)) => Some(concat2(n.text().as_str(), "%")),
            _ => None,
        }
    }

    fn calc_operand(&self, i: usize) -> (r: Option<(String, usize)>)
        ensures
            text_read(r) == operand_at(self.toks(), i as int),
            r is Some ==> i < (r->0).1 && i < self.toks().len(),
        decreases left(self.toks(), i as int), 0int,
    {
        if let Some(s) = self.calc_value(i) {
            return match self.next(Some(i)) {
                Some(end) => Some((s, end)),
                None => None,
            };
        }
        let a = match self.ws_opt(self.open(Some(i))) {
            Some(a) => a,
            None => {
                return None;
            },
        };
        match self.calc_operations(a) {
            Some((inner, p)) => {
                match self.close(self.ws_opt(Some(p))) {
                    Some(end) => Some((concat3("(", inner.as_str(), ")"), end)),
                    None => None,
                }
            },
            None => None,
        }
    }

    fn calc_operations(&self, i: usize) -> (r: Option<(String, usize)>)
        ensures
            text_read(r) == calculation_at(self.toks(), i as int),
            r is Some ==> i < (r->0).1,
        decreases left(self.toks(), i as int), 1int,
    {
        let (first, p) = match self.calc_operand(i) {
            Some(x) => x,
            None => {
                return None;
            },
        };
        let mut text = first;
        let mut at: usize = match self.ws_opt(Some(p)) {
            Some(x) => x,
            None => p,
        };
        let mut start = true;
        let ghost want = calculation_rest(self.toks(), at as int, text@, true);
        loop
            invariant
                i < at,
                0 <= i < self.toks().len(),
                want == calculation_rest(self.toks(), at as int, text@, start),
            ensures
                want == (text@, at as int),
                i < at,
            decreases left(self.toks(), at as int),
        {
            let s = if start {
                Some(at)
            } else {
                self.ws_opt(Some(at))
            };
            let op = match self.operator(s) {
                Some(c) => c,
                None => {
                    break ;
                },
            };
            let b: usize = match self.ws_opt(self.next(s)) {
                Some(x) => x,
                None => {
                    break ;
                },
            };
            let (operand, q) = match self.calc_operand(b) {
                Some(x) => x,
                None => {
                    break ;
                },
            };
            let mut sign = String::new();
            sign.push(op);
            proof {
                assert(sign@ =~= seq![op]);
            }
            text = concat4(text.as_str(), " ", sign.as_str(), " ");
            text.append(operand.as_str());
            at = q;
            start = false;
        }
        Some((text, at))
    }

    fn calc(&self, i: usize) -> (r: Option<(String, usize)>)
        ensures
            text_read(r) == calc_at(self.toks(), i as int),
            r is Some ==> i < (r->0).1,
    {
        let a = match self.ws_opt(self.function_eq(Some(i), "calc")) {
            Some(a) => a,
            None => {
                return None;
            },
        };
        match self.calc_operations(a) {
            Some((body, p)) => {
                match self.close(self.ws_opt(Some(p))) {
                    Some(end) => Some((concat3("calc(", body.as_str(), ")"), end)),
                    None => None,
                }
            },
            None => None,
        }
    }

    fn media_rule_value(&self, at: Option<usize>) -> (r: Option<(MediaRuleValue, usize)>)
        ensures
            r is Some == feature_at(self.toks(), place(at)) is Some,
            r is Some ==> ((r->0).0.model(), (r->0).1 as int) == feature_at(
                self.toks(),
                place(at),
            )->0,
            r is Some ==> place(at) < (r->0).1,
    {
        let i: usize = match at {
            Some(i) => i,
            None => {
                return None;
            },
        };
        if let Some((s, end)) = self.calc(i) {
            return Some((MediaRuleValue::Str(s), end));
        }
        if let Some((value, unit)) = self.dimension(at) {
            return match self.next(at) {
                Some(end) => Some((MediaRuleValue::Length { value, unit }, end)),
                None => None,
            };
        }
        if let Some(name) = self.ident(at) {
            return match self.next(at) {
                Some(end) => Some((MediaRuleValue::Str(name), end)),
                None => None,
            };
        }
        let a = match self.number(at) {
            Some(n) => n,
            None => {
                return None;
            },
        };
        let b_at = self.ws_opt(self.delim(self.ws_opt(self.next(at)), '/'));
        if let Some(b) = self.number(b_at) {
            return match self.next(b_at) {
                Some(end) => Some((MediaRuleValue::Fraction(a, b), end)),
                None => None,
            };
        }
        match self.next(at) {
            Some(end) => Some((MediaRuleValue::Number(a), end)),
            None => None,
        }
    }

    fn simple_pair(&self, i: usize) -> (r: Option<(MediaQueryRule, usize)>)
        ensures
            read(r) == pair_at(self.toks(), i as int),
            r is Some ==> i < (r->0).1,
    {
        let a = self.ws_opt(self.open(Some(i)));
        let key = match self.ident(a) {
            Some(k) => k,
            None => {
                return None;
            },
        };
        let b = self.ws_opt(self.colon(self.ws_opt(self.next(a))));
        match self.media_rule_value(b) {
            Some((value, p)) => {
                match self.close(self.ws_opt(Some(p))) {
                    Some(end) => Some((MediaQueryRule::Pair { key, value }, end)),
                    None => None,
                }
            },
            None => None,
        }
    }

    fn ineq_eq(&self, at: Option<usize>) -> (r: (bool, Option<usize>))
        ensures
            r.0 == equal_at(self.toks(), place(at)),
            place(r.1) == past_equal(self.toks(), place(at)),
    {
        match self.delim(self.ws_opt(at), '=') {
            Some(end) => (true, Some(end)),
            None => (false, at),
        }
    }

    fn bound(size: &str, max: bool, value: JsNumber, unit: String, eq: bool) -> (r: MediaQueryRule)
        ensures
            r.model() == bound_rule(size@, max, value, unit@, eq),
    {
        let v = if eq {
            value
        } else if max {
            value.plus(JsNumber { bits: MINUS_EPSILON })
        } else {
            value.plus(JsNumber { bits: EPSILON })
        };
        let key = if max {
            concat2("max-", size)
        } else {
            concat2("min-", size)
        };
        MediaQueryRule::Pair { key, value: MediaRuleValue::Length { value: v, unit } }
    }

    fn ineq_forward(&self, i: usize) -> (r: Option<(MediaQueryRule, usize)>)
        ensures
            read(r) == forward_at(self.toks(), i as int),
            r is Some ==> i < (r->0).1,
    {
        let a = self.ws_opt(self.open(Some(i)));
        let key = match self.width_or_height(a) {
            Some(k) => k,
            None => {
                return None;
            },
        };
        let b = self.ws_opt(self.next(a));
        let greater = match self.ineq_op(b) {
            Some(g) => g,
            None => {
                return None;
            },
        };
        let (eq, c) = self.ineq_eq(self.next(b));
        let d = self.ws_opt(c);
        let (value, unit) = match self.dimension(d) {
            Some(x) => x,
            None => {
                return None;
            },
        };
        match self.close(self.ws_opt(self.next(d))) {
            Some(end) => Some((Self::bound(key.as_str(), !greater, value, unit, eq), end)),
            None => None,
        }
    }

    fn ineq_reversed(&self, i: usize) -> (r: Option<(MediaQueryRule, usize)>)
        ensures
            read(r) == reversed_at(self.toks(), i as int),
            r is Some ==> i < (r->0).1,
    {
        let a = self.ws_opt(self.open(Some(i)));
        let (value, unit) = match self.dimension(a) {
            Some(x) => x,
            None => {
                return None;
            },
        };
        let b = self.ws_opt(self.next(a));
        let greater = match self.ineq_op(b) {
            Some(g) => g,
            None => {
                return None;
            },
        };
        let (eq, c) = self.ineq_eq(self.next(b));
        let d = self.ws_opt(c);
        let key = match self.width_or_height(d) {
            Some(k) => k,
            None => {
                return None;
            },
        };
        match self.close(self.ws_opt(self.next(d))) {
            Some(end) => Some((Self::bound(key.as_str(), greater, value, unit, eq), end)),
            None => None,
        }
    }

    fn combined_inequality(&self, i: usize) -> (r: Option<(MediaQueryRule, usize)>)
        ensures
            read(r) == comparison_at(self.toks(), i as int),
            r is Some ==> i < (r->0).1,
    {
        match self.ineq_forward(i) {
            Some(x) => Some(x),
            None => self.ineq_reversed(i),
        }
    }

    fn double_inequality(&self, i: usize) -> (r: Option<(MediaQueryRule, usize)>)
        ensures
            read(r) == between_at(self.toks(), i as int),
            r is Some ==> i < (r->0).1,
    {
        let a = self.ws_opt(self.open(Some(i)));
        let (lower, lower_unit) = match self.dimension(a) {
            Some(x) => x,
            None => {
                return None;
            },
        };
        let b = self.ws_opt(self.next(a));
        let greater = match self.ineq_op(b) {
            Some(g) => g,
            None => {
                return None;
            },
        };
        let (eq, c) = self.ineq_eq(self.next(b));
        let d = self.ws_opt(c);
        let key = match self.width_or_height(d) {
            Some(k) => k,
            None => {
                return None;
            },
        };
        let e = self.ws_opt(self.next(d));
        let greater2 = match self.ineq_op(e) {
            Some(g) => g,
            None => {
                return None;
            },
        };
        let (eq2, f) = self.ineq_eq(self.next(e));
        let g = self.ws_opt(f);
        let (upper, upper_unit) = match self.dimension(g) {
            Some(x) => x,
            None => {
                return None;
            },
        };
        match self.close(self.ws_opt(self.next(g))) {
            Some(end) => {
                let first = Self::bound(key.as_str(), greater, lower, lower_unit, eq);
                let second = Self::bound(key.as_str(), !greater2, upper, upper_unit, eq2);
                let ghost m1 = first.model();
                let ghost m2 = second.model();
                let mut both: Vec<MediaQueryRule> = Vec::new();
                both.push(first);
                both.push(second);
                let r = MediaQueryRule::And(both);
                proof {
                    assert(r.model()->And_0 =~= seq![m1, m2]);
                }
                Some((r, end))
            },
            None => None,
        }
    }

    fn combinator_rules(&self, i: usize, word: &str) -> (r: Option<(Vec<MediaQueryRule>, usize)>)
        ensures
            r is Some == chain_at(self.toks(), i as int, word@) is Some,
            r is Some ==> (
                media_models((r->0).0@),
                (r->0).1 as int,
            ) == chain_at(self.toks(), i as int, word@)->0,
            r is Some ==> i < (r->0).1,
        decreases left(self.toks(), i as int), 3int,
    {
        let (first, p) = match self.and_or_element(i) {
            Some(x) => x,
            None => {
                return None;
            },
        };
        let mut items: Vec<MediaQueryRule> = Vec::new();
        let ghost fm = first.model();
        items.push(first);
        let mut at: usize = p;
        proof {
            assert(media_models(items@) =~= seq![fm]);
        }
        let ghost want = chain_rest(self.toks(), p as int, word@, seq![fm]);
        loop
            invariant_except_break
                want == chain_rest(
                    self.toks(),
                    at as int,
                    word@,
                    media_models(items@),
                ),
            invariant
                0 <= i < at,
                i < self.toks().len(),
            ensures
                want == (media_models(items@), at as int),
            decreases left(self.toks(), at as int),
        {
            let a: usize = match self.ws(self.ident_eq(self.ws(Some(at)), word)) {
                Some(x) => x,
                None => {
                    break ;
                },
            };
            match self.and_or_element(a) {
                Some((rule, q)) => {
                    let ghost before = media_models(items@);
                    let ghost rm = rule.model();
                    items.push(rule);
                    proof {
                        assert(media_models(items@) =~= before.push(rm));
                    }
                    at = q;
                },
                None => {
                    at = a;
                    break ;
                },
            }
        }
        if items.len() > 1 {
            Some((items, at))
        } else {
            None
        }
    }

    fn and_rules(&self, i: usize) -> (r: Option<(MediaQueryRule, usize)>)
        ensures
            read(r) == and_at(self.toks(), i as int),
            r is Some ==> i < (r->0).1,
        decreases left(self.toks(), i as int), 4int,
    {
        match self.combinator_rules(i, "and") {
            Some((items, end)) => {
                let ghost all = media_models(items@);
                let r = MediaQueryRule::And(items);
                proof {
                    assert(r.model()->And_0 =~= all);
                }
                Some((r, end))
            },
            None => None,
        }
    }

    fn or_rules(&self, i: usize) -> (r: Option<(MediaQueryRule, usize)>)
        ensures
            read(r) == or_at(self.toks(), i as int),
            r is Some ==> i < (r->0).1,
        decreases left(self.toks(), i as int), 4int,
    {
        match self.combinator_rules(i, "or") {
            Some((items, end)) => {
                let ghost all = media_models(items@);
                let r = MediaQueryRule::Or(items);
                proof {
                    assert(r.model()->Or_0 =~= all);
                }
                Some((r, end))
            },
            None => None,
        }
    }

    fn and_or_element(&self, i: usize) -> (r: Option<(MediaQueryRule, usize)>)
        ensures
            read(r) == element_at(self.toks(), i as int),
            r is Some ==> i < (r->0).1 && i < self.toks().len(),
        decreases left(self.toks(), i as int), 2int,
    {
        if i >= self.tokens.len() {
            proof {
                lemma_nothing_left(self.toks(), i as int);
            }
            return None;
        }
        if let Some(x) = self.media_keyword(i) {
            return Some(x);
        }
        if let Some(x) = self.or_in_parens(i) {
            return Some(x);
        }
        if let Some(x) = self.and_in_parens(i) {
            return Some(x);
        }
        if let Some(x) = self.not_parser(i) {
            return Some(x);
        }
        if let Some(x) = self.double_inequality(i) {
            return Some(x);
        }
        if let Some(x) = self.combined_inequality(i) {
            return Some(x);
        }
        if let Some(x) = self.simple_pair(i) {
            return Some(x);
        }
        self.word_rule(i)
    }

    fn or_in_parens(&self, i: usize) -> (r: Option<(MediaQueryRule, usize)>)
        ensures
            read(r) == or_in_brackets_at(self.toks(), i as int),
            r is Some ==> i < (r->0).1,
        decreases left(self.toks(), i as int), 1int,
    {
        let a: usize = match self.open(Some(i)) {
            Some(a) => a,
            None => {
                return None;
            },
        };
        match self.or_rules(a) {
            Some((rule, p)) => {
                match self.close(Some(p)) {
                    Some(end) => Some((rule, end)),
                    None => None,
                }
            },
            None => None,
        }
    }

    fn and_in_parens(&self, i: usize) -> (r: Option<(MediaQueryRule, usize)>)
        ensures
            read(r) == and_in_brackets_at(self.toks(), i as int),
            r is Some ==> i < (r->0).1,
        decreases left(self.toks(), i as int), 1int,
    {
        let a: usize = match self.open(Some(i)) {
            Some(a) => a,
            None => {
                return None;
            },
        };
        match self.and_rules(a) {
            Some((rule, p)) => {
                match self.close(Some(p)) {
                    Some(end) => Some((rule, end)),
                    None => None,
                }
            },
            None => None,
        }
    }

    fn not_parser(&self, i: usize) -> (r: Option<(MediaQueryRule, usize)>)
        ensures
            read(r) == not_at(self.toks(), i as int),
            r is Some ==> i < (r->0).1,
        decreases left(self.toks(), i as int), 1int,
    {
        let a: usize = match self.ws(self.ident_eq(self.open(Some(i)), "not")) {
            Some(a) => a,
            None => {
                return None;
            },
        };
        match self.normal_rule_for_not(a) {
            Some((rule, p)) => {
                match self.close(Some(p)) {
                    Some(end) => {
                        let ghost m = rule.model();
                        let r = MediaQueryRule::Not(Box::new(rule));
                        proof {
                            assert(r.model() == MediaModel::Not(Box::new(m)));
                        }
                        Some((r, end))
                    },
                    None => None,
                }
            },
            None => None,
        }
    }

    fn paren_keyword(&self, i: usize) -> (r: Option<(MediaQueryRule, usize)>)
        ensures
            read(r) == keyword_in_brackets_at(self.toks(), i as int),
            r is Some ==> i < (r->0).1,
    {
        let a = self.open(Some(i));
        match self.media_type(a) {
            Some(key) => {
                match self.close(self.next(a)) {
                    Some(end) => Some(
                        (MediaQueryRule::Keyword { key, not: false, only: false }, end),
                    ),
                    None => None,
                }
            },
            None => None,
        }
    }

    fn normal_rule_for_not(&self, i: usize) -> (r: Option<(MediaQueryRule, usize)>)
        ensures
            read(r) == denied_at(self.toks(), i as int),
            r is Some ==> i < (r->0).1,
        decreases left(self.toks(), i as int), 5int,
    {
        let found = if let Some(x) = self.paren_keyword(i) {
            Some(x)
        } else if let Some(x) = self.and_rules(i) {
            Some(x)
        } else if let Some(x) = self.or_rules(i) {
            Some(x)
        } else if let Some(x) = self.simple_pair(i) {
            Some(x)
        } else if let Some(x) = self.word_rule(i) {
            Some(x)
        } else if let Some(x) = self.not_parser(i) {
            Some(x)
        } else if let Some(x) = self.or_in_parens(i) {
            Some(x)
        } else {
            self.and_in_parens(i)
        };
        match found {
            Some((rule, p)) => {
                match self.ws_opt(Some(p)) {
                    Some(end) => Some((rule, end)),
                    None => None,
                }
            },
            None => None,
        }
    }

    fn leading_not(&self, i: usize) -> (r: Option<(MediaQueryRule, usize)>)
        ensures
            read(r) == leading_not_at(self.toks(), i as int),
            r is Some ==> i < (r->0).1,
    {
        let a: usize = match self.ws(self.ident_eq(Some(i), "not")) {
            Some(a) => a,
            None => {
                return None;
            },
        };
        let found = if let Some(x) = self.or_in_parens(a) {
            Some(x)
        } else if let Some(x) = self.and_in_parens(a) {
            Some(x)
        } else if let Some(x) = self.not_parser(a) {
            Some(x)
        } else if let Some(x) = self.combined_inequality(a) {
            Some(x)
        } else if let Some(x) = self.simple_pair(a) {
            Some(x)
        } else {
            self.word_rule(a)
        };
        match found {
            Some((rule, end)) => {
                let ghost m = rule.model();
                let r = MediaQueryRule::Not(Box::new(rule));
                proof {
                    assert(r.model() == MediaModel::Not(Box::new(m)));
                }
                Some((r, end))
            },
            None => None,
        }
    }

    fn query(&self, i: usize) -> (r: Option<(MediaQueryRule, usize)>)
        ensures
            read(r) == query_at(self.toks(), i as int),
            r is Some ==> i < (r->0).1,
    {
        if let Some(x) = self.leading_not(i) {
            return Some(x);
        }
        if let Some(x) = self.and_rules(i) {
            return Some(x);
        }
        if let Some(x) = self.or_rules(i) {
            return Some(x);
        }
        if let Some(x) = self.media_keyword(i) {
            return Some(x);
        }
        if let Some(x) = self.not_parser(i) {
            return Some(x);
        }
        if let Some(x) = self.double_inequality(i) {
            return Some(x);
        }
        if let Some(x) = self.combined_inequality(i) {
            return Some(x);
        }
        if let Some(x) = self.simple_pair(i) {
            return Some(x);
        }
        if let Some(x) = self.word_rule(i) {
            return Some(x);
        }
        if let Some(x) = self.or_in_parens(i) {
            return Some(x);
        }
        self.and_in_parens(i)
    }

    /// Reads a media query at the start of the tokens.
    pub fn media_query(&self) -> (r: Option<(MediaQueryRule, usize)>)
        ensures
            r is Some == media_query_at(self.toks(), 0) is Some,
            r is Some ==> ((r->0).0.model(), (r->0).1 as int) == media_query_at(self.toks(), 0)->0,
    {
        let a: usize = match self.ws(self.at_keyword_eq(Some(0), "media")) {
            Some(a) => a,
            None => {
                return None;
            },
        };
        let (first, p) = match self.query(a) {
            Some(x) => x,
            None => {
                return None;
            },
        };
        let ghost fm = first.model();
        let mut items: Vec<MediaQueryRule> = Vec::new();
        items.push(first);
        let mut at: usize = p;
        proof {
            assert(media_models(items@) =~= seq![fm]);
        }
        let ghost want = queries_rest(self.toks(), p as int, seq![fm]);
        loop
            invariant_except_break
                want == queries_rest(
                    self.toks(),
                    at as int,
                    media_models(items@),
                ),
            invariant
                items@.len() >= 1,
            ensures
                want == (media_models(items@), at as int),
            decreases left(self.toks(), at as int),
        {
            let b: usize = match self.ws_opt(self.comma(self.ws_opt(Some(at)))) {
                Some(x) => x,
                None => {
                    break ;
                },
            };
            match self.query(b) {
                Some((rule, q)) => {
                    let ghost before = media_models(items@);
                    let ghost rm = rule.model();
                    items.push(rule);
                    proof {
                        assert(media_models(items@) =~= before.push(rm));
                    }
                    at = q;
                },
                None => {
                    at = b;
                    break ;
                },
            }
        }
        if items.len() > 1 {
            let ghost all = media_models(items@);
            let r = MediaQueryRule::Or(items);
            proof {
                assert(r.model()->Or_0 =~= all);
            }
            Some((r, at))
        } else {
            let only = items[0].clone();
            Some((only, at))
        }
    }
}

proof fn lemma_nothing_left(t: Seq<TokModel>, i: int)
    requires
        i >= t.len(),
    ensures
        element_at(t, i) is None,
{
}

} // verus!
