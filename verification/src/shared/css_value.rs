//! CSS value tokenizer: a value is cut into words, spaces, dividers, strings,
//! comments and functions, which print back to the text they came from.

use crate::text::{
    at_pos, char_at, char_count, chars_eq, chars_of, digit, digit_at, digits_end, find_char,
    has_char, has_digit, has_part, has_sign, is_digit, next_char, piece, sign_at, skip_digits,
};
use vstd::prelude::*;

verus! {

#[derive(Debug, Clone, Copy, PartialEq, Eq, Structural)]
pub enum Kind {
    Word,
    Space,
    Div,
    Str,
    Comment,
    Func,
    UnicodeRange,
}

/// One node of a parsed value; fields that a kind does not use keep their defaults.
#[derive(Debug, PartialEq)]
pub struct Node {
    pub kind: Kind,
    pub value: String,
    pub source_index: usize,
    pub source_end_index: usize,
    pub before: String,
    pub after: String,
    pub quote: u8,
    pub unclosed: bool,
    pub nodes: Vec<Node>,
}

/// What a node is, mathematically.
#[verifier::ext_equal]
pub struct NodeModel {
    pub kind: Kind,
    pub value: Seq<char>,
    pub source_index: int,
    pub source_end_index: int,
    pub before: Seq<char>,
    pub after: Seq<char>,
    pub quote: u8,
    pub unclosed: bool,
    pub nodes: Seq<NodeModel>,
}

/// What a sequence of nodes is, mathematically.
pub open spec fn models(v: Seq<Node>) -> Seq<NodeModel> {
    Seq::new(v.len(), |i: int| v[i].model())
}

impl Node {
    /// What the node is, mathematically.
    pub open spec fn model(self) -> NodeModel
        decreases self,
    {
        NodeModel {
            kind: self.kind,
            value: self.value@,
            source_index: self.source_index as int,
            source_end_index: self.source_end_index as int,
            before: self.before@,
            after: self.after@,
            quote: self.quote,
            unclosed: self.unclosed,
            nodes: Seq::new(
                self.nodes@.len(),
                |i: int|
                    if 0 <= i < self.nodes@.len() {
                        self.nodes@[i].model()
                    } else {
                        arbitrary()
                    },
            ),
        }
    }

    fn leaf(kind: Kind, value: String, source_index: usize, source_end_index: usize) -> (r: Node)
        ensures
            r.model() == leaf_model(
                kind,
                value@,
                source_index as int,
                source_end_index as int,
            ),
            r.kind == kind,
            r.nodes@.len() == 0,
    {
        let r = Node {
            kind,
            value,
            source_index,
            source_end_index,
            before: String::new(),
            after: String::new(),
            quote: 0,
            unclosed: false,
            nodes: Vec::new(),
        };
        proof {
            assert(r.model().nodes =~= Seq::<NodeModel>::empty());
        }
        r
    }
}

/// A node without children, padding or quote.
pub open spec fn leaf_model(kind: Kind, value: Seq<char>, start: int, end: int) -> NodeModel {
    NodeModel {
        kind,
        value,
        source_index: start,
        source_end_index: end,
        before: Seq::empty(),
        after: Seq::empty(),
        quote: 0,
        unclosed: false,
        nodes: Seq::empty(),
    }
}

/// The number of bytes of a character in UTF-8.
pub open spec fn char_width(c: char) -> int {
    if (c as u32) < 0x80 {
        1
    } else if (c as u32) < 0x800 {
        2
    } else if (c as u32) < 0x10000 {
        3
    } else {
        4
    }
}

/// The number of bytes of the first `i` characters of `s` in UTF-8, where each
/// position past the end counts for one byte.
pub open spec fn byte_offset(s: Seq<char>, i: int) -> int
    decreases i,
{
    if i <= 0 {
        0
    } else if i <= s.len() {
        byte_offset(s, i - 1) + char_width(s[i - 1])
    } else {
        byte_offset(s, i - 1) + 1
    }
}

/// Whether `c` separates tokens like white space does.
pub open spec fn blank(c: char) -> bool {
    c as u32 <= 32
}

/// The first position at or after `i` that is not blank, or the end.
pub open spec fn skip_blank(s: Seq<char>, i: int) -> int
    decreases s.len() - i,
{
    if 0 <= i < s.len() && blank(s[i]) {
        skip_blank(s, i + 1)
    } else {
        i
    }
}

/// The last position before `i` that is not blank.
pub open spec fn last_visible(s: Seq<char>, i: int) -> int
    decreases i,
{
    if i <= 0 {
        -1
    } else if blank(s[i - 1]) {
        last_visible(s, i - 1)
    } else {
        i - 1
    }
}

/// The number of backslashes that stand directly before `i`.
pub open spec fn backslashes_before(s: Seq<char>, i: int) -> nat
    decreases i,
{
    if i <= 0 || s[i - 1] != '\\' {
        0
    } else {
        backslashes_before(s, i - 1) + 1
    }
}

/// The first unescaped `c` at or after `from`, or the length of `s`.
pub open spec fn unescaped(s: Seq<char>, c: char, from: int) -> int
    decreases s.len() - from,
{
    let i = next_char(s, c, from);
    if from <= i < s.len() && backslashes_before(s, i) % 2 == 1 {
        unescaped(s, c, i + 1)
    } else {
        i
    }
}

/// The first position at or after `from` where `*/` stands, or the length of `s`.
pub open spec fn comment_close(s: Seq<char>, from: int) -> int
    decreases s.len() - from,
{
    if from + 1 >= s.len() {
        s.len() as int
    } else if s[from] == '*' && s[from + 1] == '/' {
        from
    } else {
        comment_close(s, from + 1)
    }
}

/// Where the tokenizer stands: inside a function or not, inside `calc` itself,
/// and whether any function was opened before.
#[derive(Clone, Copy)]
pub struct Place {
    pub in_function: bool,
    pub in_calc: bool,
    pub entered: bool,
}

/// Whether a word stops before `c`.
pub open spec fn breaks_word(c: char, place: Place) -> bool {
    blank(c) || c == '\'' || c == '"' || c == ',' || c == ':' || c == '/' || c == '(' || (c == '*'
        && place.in_calc) || (c == ')' && place.in_function)
}

/// The end of the word whose character at `i` has been taken; a backslash takes
/// the character behind it along, which may lead one past the end.
pub open spec fn word_end(s: Seq<char>, i: int, place: Place) -> int
    decreases s.len() - i,
{
    if i < 0 || i >= s.len() {
        i
    } else {
        let n = if s[i] == '\\' {
            i + 2
        } else {
            i + 1
        };
        if n >= s.len() || breaks_word(s[n], place) {
            n
        } else {
            word_end(s, n, place)
        }
    }
}

/// Whether a word is a `unicode-range` such as `U+26` or `u+0-7?`.
pub open spec fn is_range_word(t: Seq<char>) -> bool {
    &&& t.len() > 2
    &&& (t[0] == 'u' || t[0] == 'U')
    &&& t[1] == '+'
    &&& forall|i: int|
        2 <= i < t.len() ==> {
            let c = #[trigger] t[i];
            digit(c) || ('a' <= c <= 'f') || ('A' <= c <= 'F') || c == '?' || c == '-'
        }
}

/// What stands at a position.
#[verifier::ext_equal]
pub enum Token {
    /// White space up to the given position.
    Blank(int),
    /// A node without open ends, the position behind it, and whether its closing
    /// mark had to be supplied.
    Leaf(NodeModel, int, bool),
    /// The opening of a function: its name starts at the first position, its
    /// bracket stands at the second, its contents begin at the third.
    Open(int, int, int),
    /// The closing bracket of the current function.
    Close,
}

/// An unquoted `url(...)`, taken whole up to its unescaped closing bracket.
pub open spec fn raw_url(s: Seq<char>, start: int, paren: int, inside: int) -> Token {
    let close = unescaped(s, ')', inside);
    let closed = close < s.len();
    let last = last_visible(s, close);
    let word = leaf_model(
        Kind::Word,
        s.subrange(inside, last + 1),
        byte_offset(s, inside),
        byte_offset(s, last + 1),
    );
    let trailing = s.subrange(last + 1, close);
    let keeps_space = !closed && trailing.len() > 0;
    let space = leaf_model(Kind::Space, trailing, byte_offset(s, last + 1), byte_offset(s, close));
    Token::Leaf(
        NodeModel {
            kind: Kind::Func,
            value: s.subrange(start, paren),
            source_index: byte_offset(s, start),
            source_end_index: if closed {
                byte_offset(s, close + 1)
            } else {
                byte_offset(s, close)
            },
            before: s.subrange(paren + 1, inside),
            after: if last > paren && !keeps_space {
                trailing
            } else {
                Seq::empty()
            },
            quote: 0,
            unclosed: !closed,
            nodes: if last <= paren {
                Seq::empty()
            } else if keeps_space {
                seq![word, space]
            } else {
                seq![word]
            },
        },
        close + 1,
        !closed,
    )
}

/// The function opening whose name runs from `start` to the bracket at `paren`.
pub open spec fn opening(s: Seq<char>, start: int, paren: int) -> Token {
    let inside = skip_blank(s, paren + 1);
    let quoted = inside < s.len() && (s[inside] == '\'' || s[inside] == '"');
    if s.subrange(start, paren) == "url"@ && !quoted {
        raw_url(s, start, paren, inside)
    } else {
        Token::Open(start, paren, inside)
    }
}

/// A quoted string, which runs to its unescaped closing quote.
pub open spec fn string_token(s: Seq<char>, pos: int) -> Token {
    let close = unescaped(s, s[pos], pos + 1);
    let closed = close < s.len();
    Token::Leaf(
        NodeModel {
            quote: s[pos] as u8,
            unclosed: !closed,
            ..leaf_model(
                Kind::Str,
                s.subrange(pos + 1, close),
                byte_offset(s, pos),
                if closed {
                    byte_offset(s, close + 1)
                } else {
                    byte_offset(s, close)
                },
            )
        },
        close + 1,
        !closed,
    )
}

/// A comment, which runs to the first `*/` whose star stands behind its slash.
pub open spec fn comment_token(s: Seq<char>, pos: int) -> Token {
    let close = comment_close(s, pos);
    let closed = close < s.len();
    Token::Leaf(
        NodeModel {
            unclosed: !closed,
            ..leaf_model(
                Kind::Comment,
                if close > pos + 2 {
                    s.subrange(pos + 2, close)
                } else {
                    Seq::empty()
                },
                byte_offset(s, pos),
                if closed {
                    byte_offset(s, close + 2)
                } else {
                    byte_offset(s, close)
                },
            )
        },
        close + 2,
        false,
    )
}

/// What stands at `pos`.
#[verifier::opaque]
pub open spec fn token_at(s: Seq<char>, pos: int, place: Place) -> Token {
    let c = s[pos];
    if blank(c) {
        Token::Blank(skip_blank(s, pos))
    } else if c == '\'' || c == '"' {
        string_token(s, pos)
    } else if c == '/' && pos + 1 < s.len() && s[pos + 1] == '*' {
        comment_token(s, pos)
    } else if (c == '/' || c == '*') && place.in_calc {
        Token::Leaf(
            leaf_model(Kind::Word, seq![c], byte_offset(s, pos), byte_offset(s, pos + 1)),
            pos + 1,
            false,
        )
    } else if c == '/' || c == ',' || c == ':' {
        Token::Leaf(
            leaf_model(Kind::Div, seq![c], byte_offset(s, pos), byte_offset(s, pos + 1)),
            pos + 1,
            false,
        )
    } else if c == '(' {
        opening(s, pos, pos)
    } else if c == ')' && place.in_function {
        Token::Close
    } else {
        let end = word_end(s, pos, place);
        let stop = if end < s.len() {
            end
        } else {
            s.len() as int
        };
        let word = s.subrange(pos, stop);
        if end < s.len() && s[end] == '(' {
            opening(s, pos, end)
        } else {
            Token::Leaf(
                leaf_model(
                    if is_range_word(word) {
                        Kind::UnicodeRange
                    } else {
                        Kind::Word
                    },
                    word,
                    byte_offset(s, pos),
                    byte_offset(s, end),
                ),
                end,
                false,
            )
        }
    }
}

/// The contents of a function, or of the whole value: its nodes, the white space
/// before the closing bracket, the position behind it, whether the bracket was
/// there, and whether a closing mark had to be supplied on the way.
#[verifier::ext_equal]
pub struct Listing {
    pub nodes: Seq<NodeModel>,
    pub after: Seq<char>,
    pub end: int,
    pub closed: bool,
    pub grown: bool,
}

/// Whether white space that ends at `next` becomes the padding before a divider.
pub open spec fn pads_divider(s: Seq<char>, next: int, place: Place) -> bool {
    &&& next < s.len()
    &&& s[next] == ',' || s[next] == ':' || {
        &&& s[next] == '/'
        &&& !(next + 1 < s.len() && s[next + 1] == '*')
        &&& if place.in_function {
            !place.in_calc
        } else {
            !place.entered
        }
    }
}

/// The function node made of its opening and its contents.
pub open spec fn func_model(s: Seq<char>, start: int, paren: int, inside: int, inner: Listing) -> NodeModel {
    NodeModel {
        kind: Kind::Func,
        value: s.subrange(start, paren),
        source_index: byte_offset(s, start),
        source_end_index: if inner.closed {
            byte_offset(s, inner.end)
        } else {
            byte_offset(
                s,
                s.len() + if inner.grown {
                    1int
                } else {
                    0
                },
            )
        },
        before: s.subrange(paren + 1, inside),
        after: inner.after,
        quote: 0,
        unclosed: !inner.closed,
        nodes: inner.nodes,
    }
}

/// The place inside a function whose name runs from `start` to `paren`.
pub open spec fn place_inside(s: Seq<char>, start: int, paren: int) -> Place {
    Place { in_function: true, in_calc: s.subrange(start, paren) == "calc"@, entered: true }
}

/// How many characters are left at `pos`.
pub open spec fn left(s: Seq<char>, pos: int) -> int {
    if pos < s.len() {
        s.len() - pos
    } else {
        0
    }
}

/// The nodes from `pos` on, behind those already in `cur`.
pub open spec fn list_from(
    s: Seq<char>,
    pos: int,
    place: Place,
    grown: bool,
    cur: Seq<NodeModel>,
) -> Listing
    decreases left(s, pos),
{
    if pos < 0 || pos >= s.len() {
        Listing { nodes: cur, after: Seq::empty(), end: pos, closed: false, grown }
    } else {
        match token_at(s, pos, place) {
            Token::Blank(next) => {
                let white = s.subrange(pos, next);
                if next <= pos {
                    arbitrary()
                } else if next < s.len() && s[next] == ')' && place.in_function {
                    Listing { nodes: cur, after: white, end: next + 1, closed: true, grown }
                } else if cur.len() > 0 && cur.last().kind == Kind::Div {
                    let div = NodeModel {
                        after: white,
                        source_end_index: cur.last().source_end_index + white.len(),
                        ..cur.last()
                    };
                    list_from(s, next, place, grown, cur.drop_last().push(div))
                } else if pads_divider(s, next, place) {
                    let div = NodeModel {
                        before: white,
                        ..leaf_model(
                            Kind::Div,
                            seq![s[next]],
                            byte_offset(s, pos),
                            byte_offset(s, next + 1),
                        )
                    };
                    list_from(s, next + 1, place, grown, cur.push(div))
                } else {
                    let space = leaf_model(
                        Kind::Space,
                        white,
                        byte_offset(s, pos),
                        byte_offset(s, next),
                    );
                    list_from(s, next, place, grown, cur.push(space))
                }
            },
            Token::Leaf(node, next, supplied) => {
                if next <= pos {
                    arbitrary()
                } else {
                    list_from(s, next, place, supplied, cur.push(node))
                }
            },
            Token::Open(start, paren, inside) => {
                if inside <= pos {
                    arbitrary()
                } else {
                    let inner = list_from(
                        s,
                        inside,
                        place_inside(s, start, paren),
                        grown,
                        Seq::empty(),
                    );
                    let func = func_model(s, start, paren, inside, inner);
                    if inner.end <= pos {
                        arbitrary()
                    } else {
                        list_from(
                            s,
                            inner.end,
                            Place { entered: true, ..place },
                            inner.grown,
                            cur.push(func),
                        )
                    }
                }
            },
            Token::Close => Listing {
                nodes: cur,
                after: Seq::empty(),
                end: pos + 1,
                closed: true,
                grown,
            },
        }
    }
}

/// The place at the start of a value.
pub open spec fn top_place() -> Place {
    Place { in_function: false, in_calc: false, entered: false }
}

/// The nodes of a whole value.
pub open spec fn parse_nodes(s: Seq<char>) -> Seq<NodeModel> {
    list_from(s, 0, top_place(), false, Seq::empty()).nodes
}

impl Clone for Node {
    fn clone(&self) -> (r: Self)
        ensures
            r.model() == self.model(),
        decreases self,
    {
        let mut nodes: Vec<Node> = Vec::new();
        let mut i: usize = 0;
        while i < self.nodes.len()
            invariant
                i <= self.nodes.len(),
                nodes@.len() == i,
                forall|j: int| 0 <= j < i ==> #[trigger] nodes@[j].model() == self.nodes@[j].model(),
            decreases self.nodes.len() - i,
        {
            let n = self.nodes[i].clone();
            nodes.push(n);
            i += 1;
        }
        let r = Node {
            kind: self.kind,
            value: self.value.clone(),
            source_index: self.source_index,
            source_end_index: self.source_end_index,
            before: self.before.clone(),
            after: self.after.clone(),
            quote: self.quote,
            unclosed: self.unclosed,
            nodes,
        };
        proof {
            assert forall|j: int| 0 <= j < self.nodes@.len() implies r.model().nodes[j]
                == self.model().nodes[j] by {
                assert(r.nodes@[j].model() == self.nodes@[j].model());
            }
            assert(r.model().nodes =~= self.model().nodes);
        }
        r
    }
}

/// The characters of a value with the byte offset of each.
struct Source<'a> {
    chars: &'a [char],
    offsets: Vec<usize>,
}

impl<'a> Source<'a> {
    spec fn wf(self) -> bool {
        &&& self.offsets@.len() == self.chars@.len() + 1
        &&& 4 * self.chars@.len() <= isize::MAX
        &&& forall|i: int|
            0 <= i <= self.chars@.len() ==> {
                &&& #[trigger] self.offsets@[i] == byte_offset(self.chars@, i)
                &&& byte_offset(self.chars@, i) <= 4 * i
            }
    }

    fn new(chars: &'a [char]) -> (r: Self)
        ensures
            r.wf(),
            r.chars@ == chars@,
    {
        let n: usize = char_count(chars);
        let mut offsets: Vec<usize> = Vec::new();
        offsets.push(0);
        let mut i: usize = 0;
        while i < n
            invariant
                i <= n,
                n == chars@.len(),
                4 * n <= isize::MAX,
                offsets@.len() == i + 1,
                forall|j: int|
                    0 <= j <= i ==> {
                        &&& #[trigger] offsets@[j] == byte_offset(chars@, j)
                        &&& byte_offset(chars@, j) <= 4 * j
                    },
            decreases n - i,
        {
            let c: u32 = chars[i] as u32;
            let w: usize = if c < 0x80 {
                1
            } else if c < 0x800 {
                2
            } else if c < 0x10000 {
                3
            } else {
                4
            };
            let next: usize = offsets[i] + w;
            offsets.push(next);
            i += 1;
        }
        Source { chars, offsets }
    }

    fn offset(&self, i: usize) -> (r: usize)
        requires
            self.wf(),
            i <= self.chars@.len() + 2,
        ensures
            r == byte_offset(self.chars@, i as int),
            r <= 4 * self.chars@.len() + 2,
    {
        let n: usize = char_count(self.chars);
        proof {
            reveal_with_fuel(byte_offset, 3);
        }
        if i <= n {
            self.offsets[i]
        } else {
            self.offsets[n] + (i - n)
        }
    }

    fn blank_end(&self, from: usize) -> (r: usize)
        requires
            from <= self.chars@.len(),
        ensures
            r == skip_blank(self.chars@, from as int),
            from <= r <= self.chars@.len(),
    {
        let mut i: usize = from;
        while i < self.chars.len() && self.chars[i] as u32 <= 32
            invariant
                from <= i <= self.chars@.len(),
                skip_blank(self.chars@, from as int) == skip_blank(self.chars@, i as int),
            decreases self.chars@.len() - i,
        {
            i += 1;
        }
        i
    }

    /// The first unescaped `c` at or after `from`, or the length.
    fn find_unescaped(&self, c: char, from: usize) -> (r: usize)
        requires
            from <= self.chars@.len(),
        ensures
            r == unescaped(self.chars@, c, from as int),
            from <= r <= self.chars@.len(),
    {
        let mut at: usize = from;
        loop
            invariant
                from <= at <= self.chars@.len(),
                unescaped(self.chars@, c, from as int) == unescaped(self.chars@, c, at as int),
            decreases self.chars@.len() - at,
        {
            let i: usize = find_char(self.chars, c, at);
            if i >= self.chars.len() {
                return i;
            }
            let mut escape_pos: usize = i;
            let mut escape = false;
            while escape_pos > 0 && self.chars[escape_pos - 1] == '\\'
                invariant
                    i < self.chars@.len(),
                    escape_pos <= i,
                    (backslashes_before(self.chars@, i as int) % 2 == 1) == (escape != (
                    backslashes_before(self.chars@, escape_pos as int) % 2 == 1)),
                decreases escape_pos,
            {
                escape_pos -= 1;
                escape = !escape;
            }
            if !escape {
                return i;
            }
            at = i + 1;
        }
    }

    fn find_comment_close(&self, from: usize) -> (r: usize)
        requires
            self.wf(),
            from <= self.chars@.len(),
        ensures
            r == comment_close(self.chars@, from as int),
            from <= r <= self.chars@.len(),
            r < self.chars@.len() ==> r + 1 < self.chars@.len(),
    {
        let n: usize = char_count(self.chars);
        let mut i: usize = from;
        while i + 1 < n
            invariant
                from <= i <= n,
                n == self.chars@.len(),
                4 * n <= isize::MAX,
                comment_close(self.chars@, from as int) == comment_close(self.chars@, i as int),
            decreases n - i,
        {
            if self.chars[i] == '*' && self.chars[i + 1] == '/' {
                return i;
            }
            i += 1;
        }
        n
    }

    fn find_word_end(&self, from: usize, place: Place) -> (r: usize)
        requires
            self.wf(),
            from < self.chars@.len(),
        ensures
            r == word_end(self.chars@, from as int, place),
            from < r <= self.chars@.len() + 1,
    {
        let n: usize = char_count(self.chars);
        let mut i: usize = from;
        loop
            invariant
                from <= i < n,
                n == self.chars@.len(),
                4 * n <= isize::MAX,
                word_end(self.chars@, from as int, place) == word_end(self.chars@, i as int, place),
            decreases n - i,
        {
            let next: usize = if self.chars[i] == '\\' {
                i + 2
            } else {
                i + 1
            };
            if next >= n {
                return next;
            }
            let c = self.chars[next];
            if c as u32 <= 32 || c == '\'' || c == '"' || c == ',' || c == ':' || c == '/' || c
                == '(' || (c == '*' && place.in_calc) || (c == ')' && place.in_function) {
                return next;
            }
            i = next;
        }
    }
}

fn is_unicode_range(t: &[char]) -> (r: bool)
    ensures
        r == is_range_word(t@),
{
    if t.len() <= 2 || !(t[0] == 'u' || t[0] == 'U') || t[1] != '+' {
        return false;
    }
    let mut i: usize = 2;
    while i < t.len()
        invariant
            2 <= i <= t@.len(),
            forall|j: int|
                2 <= j < i ==> {
                    let c = #[trigger] t@[j];
                    digit(c) || ('a' <= c <= 'f') || ('A' <= c <= 'F') || c == '?' || c == '-'
                },
        decreases t@.len() - i,
    {
        let c = t[i];
        if !(is_digit(c) || ('a' <= c && c <= 'f') || ('A' <= c && c <= 'F') || c == '?' || c
            == '-') {
            return false;
        }
        i += 1;
    }
    true
}

enum Found {
    Blank(usize),
    Leaf(Node, usize, bool),
    Open(usize, usize, usize),
    Close,
}

impl Found {
    spec fn token(self) -> Token {
        match self {
            Found::Blank(next) => Token::Blank(next as int),
            Found::Leaf(node, next, supplied) => Token::Leaf(node.model(), next as int, supplied),
            Found::Open(start, paren, inside) => Token::Open(
                start as int,
                paren as int,
                inside as int,
            ),
            Found::Close => Token::Close,
        }
    }
}

proof fn lemma_last_visible(s: Seq<char>, i: int, at: int)
    requires
        0 <= at < i <= s.len(),
        !blank(s[at]),
    ensures
        at <= last_visible(s, i) < i,
        !blank(s[last_visible(s, i)]),
        forall|j: int| last_visible(s, i) < j < i ==> blank(#[trigger] s[j]),
    decreases i,
{
    if blank(s[i - 1]) {
        lemma_last_visible(s, i - 1, at);
    }
}

proof fn lemma_skip_blank(s: Seq<char>, i: int)
    requires
        0 <= i <= s.len(),
    ensures
        i <= skip_blank(s, i) <= s.len(),
        skip_blank(s, i) < s.len() ==> !blank(s[skip_blank(s, i)]),
        forall|j: int| i <= j < skip_blank(s, i) ==> blank(#[trigger] s[j]),
    decreases s.len() - i,
{
    if i < s.len() && blank(s[i]) {
        lemma_skip_blank(s, i + 1);
    }
}

impl<'a> Source<'a> {
    fn raw_url_at(&self, start: usize, paren: usize, inside: usize) -> (r: Found)
        requires
            self.wf(),
            start <= paren < inside <= self.chars@.len(),
            inside == skip_blank(self.chars@, paren as int + 1),
            self.chars@[paren as int] == '(',
        ensures
            r.token() == raw_url(self.chars@, start as int, paren as int, inside as int),
            r matches Found::Leaf(_, end, supplied) && paren < end <= self.chars@.len() + 1 && (
            supplied ==> end >= self.chars@.len()),
    {
        let n: usize = char_count(self.chars);
        let close: usize = self.find_unescaped(')', inside);
        let closed = close < n;
        let ghost last_m = last_visible(self.chars@, close as int);
        let mut end: usize = close;
        proof {
            lemma_last_visible(self.chars@, close as int, paren as int);
            lemma_skip_blank(self.chars@, paren as int + 1);
        }
        while self.chars[end - 1] as u32 <= 32
            invariant
                self.wf(),
                paren < end <= close <= self.chars@.len(),
                self.chars@[paren as int] == '(',
                last_visible(self.chars@, close as int) == last_visible(self.chars@, end as int),
            decreases end,
        {
            end -= 1;
        }
        let mut nodes: Vec<Node> = Vec::new();
        let mut after = String::new();
        if end - 1 > paren {
            nodes.push(
                Node::leaf(
                    Kind::Word,
                    piece(self.chars, inside, end),
                    self.offset(inside),
                    self.offset(end),
                ),
            );
            let trailing = piece(self.chars, end, close);
            if !closed && end != close {
                nodes.push(
                    Node::leaf(Kind::Space, trailing, self.offset(end), self.offset(close)),
                );
            } else {
                after = trailing;
            }
        }
        let func = Node {
            kind: Kind::Func,
            value: piece(self.chars, start, paren),
            source_index: self.offset(start),
            source_end_index: if closed {
                self.offset(close + 1)
            } else {
                self.offset(close)
            },
            before: piece(self.chars, paren + 1, inside),
            after,
            quote: 0,
            unclosed: !closed,
            nodes,
        };
        let r = Found::Leaf(func, close + 1, !closed);
        proof {
            let m = raw_url(self.chars@, start as int, paren as int, inside as int)->Leaf_0;
            assert(func.model().nodes =~= m.nodes);
            assert(func.model().after =~= m.after);
        }
        r
    }

    fn opening_at(&self, start: usize, paren: usize) -> (r: Found)
        requires
            self.wf(),
            start <= paren < self.chars@.len(),
            self.chars@[paren as int] == '(',
        ensures
            r.token() == opening(self.chars@, start as int, paren as int),
            match r {
                Found::Leaf(_, end, supplied) => paren < end <= self.chars@.len() + 1 && (supplied
                    ==> end >= self.chars@.len()),
                Found::Open(a, b, c) => a == start && b == paren && paren < c <= self.chars@.len(),
                _ => false,
            },
    {
        let n: usize = char_count(self.chars);
        let inside: usize = self.blank_end(paren + 1);
        let quoted = inside < n && (self.chars[inside] == '\'' || self.chars[inside] == '"');
        let url = chars_of("url");
        if chars_eq(&self.chars[start..paren], &url) && !quoted {
            self.raw_url_at(start, paren, inside)
        } else {
            Found::Open(start, paren, inside)
        }
    }

    fn token(&self, pos: usize, place: Place) -> (r: Found)
        requires
            self.wf(),
            pos < self.chars@.len(),
        ensures
            r.token() == token_at(self.chars@, pos as int, place),
            match r {
                Found::Blank(end) => pos < end <= self.chars@.len(),
                Found::Leaf(node, end, supplied) => {
                    &&& pos < end <= self.chars@.len() + 2
                    &&& supplied ==> end >= self.chars@.len()
                    &&& node.kind == Kind::Div ==> node.source_end_index == byte_offset(
                        self.chars@,
                        end as int,
                    )
                },
                Found::Open(a, b, c) => pos == a && a <= b < c <= self.chars@.len(),
                Found::Close => self.chars@[pos as int] == ')',
            },
    {
        let n: usize = char_count(self.chars);
        let c = self.chars[pos];
        proof {
            reveal(token_at);
        }
        if c as u32 <= 32 {
            let next: usize = self.blank_end(pos + 1);
            Found::Blank(next)
        } else if c == '\'' || c == '"' {
            let close: usize = self.find_unescaped(c, pos + 1);
            let closed = close < n;
            let end: usize = if closed {
                close + 1
            } else {
                close
            };
            let mut node = Node::leaf(
                Kind::Str,
                piece(self.chars, pos + 1, close),
                self.offset(pos),
                self.offset(end),
            );
            node.quote = if c == '"' {
                34
            } else {
                39
            };
            node.unclosed = !closed;
            proof {
                let m = string_token(self.chars@, pos as int)->Leaf_0;
                assert(node.model().nodes =~= m.nodes);
            }
            Found::Leaf(node, close + 1, !closed)
        } else if c == '/' && pos + 1 < n && self.chars[pos + 1] == '*' {
            let close: usize = self.find_comment_close(pos);
            let closed = close < n;
            let end: usize = if closed {
                close + 2
            } else {
                close
            };
            let value = if close > pos + 2 {
                piece(self.chars, pos + 2, close)
            } else {
                String::new()
            };
            let mut node = Node::leaf(Kind::Comment, value, self.offset(pos), self.offset(end));
            node.unclosed = !closed;
            proof {
                let m = comment_token(self.chars@, pos as int)->Leaf_0;
                assert(node.model().nodes =~= m.nodes);
            }
            Found::Leaf(node, close + 2, false)
        } else if (c == '/' || c == '*') && place.in_calc {
            let value = piece(self.chars, pos, pos + 1);
            let node = Node::leaf(Kind::Word, value, self.offset(pos), self.offset(pos + 1));
            proof {
                assert(value@ =~= seq![c]);
            }
            Found::Leaf(node, pos + 1, false)
        } else if c == '/' || c == ',' || c == ':' {
            let value = piece(self.chars, pos, pos + 1);
            let node = Node::leaf(Kind::Div, value, self.offset(pos), self.offset(pos + 1));
            proof {
                assert(value@ =~= seq![c]);
            }
            Found::Leaf(node, pos + 1, false)
        } else if c == '(' {
            self.opening_at(pos, pos)
        } else if c == ')' && place.in_function {
            Found::Close
        } else {
            let end: usize = self.find_word_end(pos, place);
            let stop: usize = if end < n {
                end
            } else {
                n
            };
            if end < n && self.chars[end] == '(' {
                return self.opening_at(pos, end);
            }
            let kind = if is_unicode_range(&self.chars[pos..stop]) {
                Kind::UnicodeRange
            } else {
                Kind::Word
            };
            let node = Node::leaf(
                kind,
                piece(self.chars, pos, stop),
                self.offset(pos),
                self.offset(end),
            );
            Found::Leaf(node, end, false)
        }
    }
}

/// The contents of a function, or of a whole value, as they were read.
struct Listed {
    nodes: Vec<Node>,
    after: String,
    end: usize,
    closed: bool,
    grown: bool,
}

impl Listed {
    spec fn listing(self) -> Listing {
        Listing {
            nodes: models(self.nodes@),
            after: self.after@,
            end: self.end as int,
            closed: self.closed,
            grown: self.grown,
        }
    }
}

proof fn lemma_offset_grows(s: Seq<char>, a: int, b: int)
    requires
        0 <= a <= b,
    ensures
        byte_offset(s, a) + (b - a) <= byte_offset(s, b),
    decreases b - a,
{
    if a < b {
        lemma_offset_grows(s, a, b - 1);
    }
}

impl<'a> Source<'a> {
    fn list(&self, start: usize, outer: Place) -> (r: Listed)
        requires
            self.wf(),
            start <= self.chars@.len(),
        ensures
            r.listing() == list_from(self.chars@, start as int, outer, false, Seq::empty()),
            start <= r.end <= self.chars@.len() + 2,
            r.closed ==> r.end <= self.chars@.len(),
            r.grown ==> r.end >= self.chars@.len(),
        decreases self.chars@.len() - start,
    {
        let n: usize = char_count(self.chars);
        let mut pos: usize = start;
        let mut place = outer;
        let mut grown = false;
        let mut cur: Vec<Node> = Vec::new();
        proof {
            assert(models(cur@) =~= Seq::<NodeModel>::empty());
        }
        while pos < n
            invariant
                self.wf(),
                n == self.chars@.len(),
                start <= pos <= n + 2,
                place.in_function == outer.in_function,
                place.in_calc == outer.in_calc,
                grown ==> pos >= n,
                cur@.len() > 0 && cur@.last().kind == Kind::Div ==> cur@.last().source_end_index
                    <= byte_offset(self.chars@, pos as int),
                list_from(self.chars@, start as int, outer, false, Seq::empty()) == list_from(
                    self.chars@,
                    pos as int,
                    place,
                    grown,
                    models(cur@),
                ),
            decreases left(self.chars@, pos as int),
        {
            let ghost before = cur@;
            match self.token(pos, place) {
                Found::Blank(next) => {
                    let white = piece(self.chars, pos, next);
                    let after_div = if cur.len() > 0 {
                        cur[cur.len() - 1].kind == Kind::Div
                    } else {
                        false
                    };
                    if next < n && self.chars[next] == ')' && place.in_function {
                        return Listed { nodes: cur, after: white, end: next + 1, closed: true, grown };
                    } else if after_div {
                        let last: usize = cur.len() - 1;
                        let mut div = cur.pop().unwrap();
                        proof {
                            lemma_offset_grows(self.chars@, pos as int, next as int);
                            assert(byte_offset(self.chars@, next as int) == self.offsets@[next as int]);
                        }
                        div.source_end_index = div.source_end_index + (next - pos);
                        div.after = white;
                        cur.push(div);
                        proof {
                            let m = models(before).last();
                            let changed = NodeModel {
                                after: white@,
                                source_end_index: m.source_end_index + white@.len(),
                                ..m
                            };
                            assert(div.model().nodes =~= m.nodes);
                            assert(models(cur@) =~= models(before).drop_last().push(changed));
                        }
                        pos = next;
                    } else if next < n && (self.chars[next] == ',' || self.chars[next] == ':' || (
                    self.chars[next] == '/' && !(next + 1 < n && self.chars[next + 1] == '*')
                        && if place.in_function {
                        !place.in_calc
                    } else {
                        !place.entered
                    })) {
                        let value = piece(self.chars, next, next + 1);
                        let mut div = Node::leaf(
                            Kind::Div,
                            value,
                            self.offset(pos),
                            self.offset(next + 1),
                        );
                        div.before = white;
                        proof {
                            assert(value@ =~= seq![self.chars@[next as int]]);
                            let m = NodeModel {
                                before: white@,
                                ..leaf_model(
                                    Kind::Div,
                                    seq![self.chars@[next as int]],
                                    byte_offset(self.chars@, pos as int),
                                    byte_offset(self.chars@, next as int + 1),
                                )
                            };
                            assert(div.model().nodes =~= m.nodes);
                            assert(div.model() == m);
                        }
                        cur.push(div);
                        proof {
                            assert(models(cur@) =~= models(before).push(div.model()));
                        }
                        pos = next + 1;
                    } else {
                        let space = Node::leaf(Kind::Space, white, self.offset(pos), self.offset(next));
                        cur.push(space);
                        proof {
                            assert(models(cur@) =~= models(before).push(space.model()));
                        }
                        pos = next;
                    }
                },
                Found::Leaf(node, next, supplied) => {
                    cur.push(node);
                    proof {
                        assert(models(cur@) =~= models(before).push(node.model()));
                    }
                    pos = next;
                    grown = supplied;
                },
                Found::Open(name_at, paren, inside) => {
                    let calc = chars_of("calc");
                    let inner_place = Place {
                        in_function: true,
                        in_calc: chars_eq(&self.chars[name_at..paren], &calc),
                        entered: true,
                    };
                    let inner = self.list(inside, inner_place);
                    let end: usize = if inner.closed {
                        self.offset(inner.end)
                    } else if inner.grown {
                        self.offset(n + 1)
                    } else {
                        self.offset(n)
                    };
                    let ghost inner_m = inner.listing();
                    let func = Node {
                        kind: Kind::Func,
                        value: piece(self.chars, name_at, paren),
                        source_index: self.offset(name_at),
                        source_end_index: end,
                        before: piece(self.chars, paren + 1, inside),
                        after: inner.after,
                        quote: 0,
                        unclosed: !inner.closed,
                        nodes: inner.nodes,
                    };
                    proof {
                        let m = func_model(
                            self.chars@,
                            name_at as int,
                            paren as int,
                            inside as int,
                            inner_m,
                        );
                        assert(func.model().nodes =~= m.nodes);
                        assert(func.model() == m);
                    }
                    cur.push(func);
                    proof {
                        assert(models(cur@) =~= models(before).push(func.model()));
                    }
                    pos = inner.end;
                    grown = inner.grown;
                    place = Place {
                        in_function: place.in_function,
                        in_calc: place.in_calc,
                        entered: true,
                    };
                },
                Found::Close => {
                    return Listed {
                        nodes: cur,
                        after: String::new(),
                        end: pos + 1,
                        closed: true,
                        grown,
                    };
                },
            }
        }
        Listed { nodes: cur, after: String::new(), end: pos, closed: false, grown }
    }
}

/// Cuts a value into its nodes.
pub fn parse(input: &str) -> (r: Vec<Node>)
    ensures
        models(r@) == parse_nodes(input@),
{
    let chars = chars_of(input);
    let source = Source::new(&chars);
    source.list(0, Place { in_function: false, in_calc: false, entered: false }).nodes
}

/// The text of one node.
pub open spec fn node_text(n: NodeModel) -> Seq<char>
    decreases n, 0nat,
{
    match n.kind {
        Kind::Word | Kind::Space | Kind::UnicodeRange => n.value,
        Kind::Str => {
            let open = seq![n.quote as char] + n.value;
            if n.unclosed {
                open
            } else {
                open.push(n.quote as char)
            }
        },
        Kind::Comment => {
            let open = "/*"@ + n.value;
            if n.unclosed {
                open
            } else {
                open + "*/"@
            }
        },
        Kind::Div => n.before + n.value + n.after,
        Kind::Func => {
            let open = n.value.push('(') + n.before + nodes_text_upto(n.nodes, n.nodes.len() as int) + n.after;
            if n.unclosed {
                open
            } else {
                open.push(')')
            }
        },
    }
}

/// The text of the first `k` nodes.
pub open spec fn nodes_text_upto(nodes: Seq<NodeModel>, k: int) -> Seq<char>
    decreases nodes, k,
{
    if k <= 0 || k > nodes.len() {
        Seq::empty()
    } else {
        nodes_text_upto(nodes, k - 1) + node_text(nodes[k - 1])
    }
}

/// The text of a sequence of nodes.
pub open spec fn nodes_text(nodes: Seq<NodeModel>) -> Seq<char> {
    nodes_text_upto(nodes, nodes.len() as int)
}

/// Prints nodes back to text.
pub fn stringify(nodes: &[Node]) -> (r: String)
    ensures
        r@ == nodes_text(models(nodes@)),
{
    let mut out = String::new();
    let mut i: usize = 0;
    while i < nodes.len()
        invariant
            i <= nodes@.len(),
            out@ == nodes_text_upto(models(nodes@), i as int),
        decreases nodes@.len() - i,
    {
        stringify_node(&nodes[i], &mut out);
        i += 1;
    }
    out
}

fn stringify_node(node: &Node, out: &mut String)
    ensures
        final(out)@ == old(out)@ + node_text(node.model()),
    decreases node,
{
    let ghost start = out@;
    match node.kind {
        Kind::Word | Kind::Space | Kind::UnicodeRange => {
            out.append(node.value.as_str());
        },
        Kind::Str => {
            out.push(node.quote as char);
            out.append(node.value.as_str());
            if !node.unclosed {
                out.push(node.quote as char);
            }
        },
        Kind::Comment => {
            out.append("/*");
            out.append(node.value.as_str());
            if !node.unclosed {
                out.append("*/");
            }
        },
        Kind::Div => {
            out.append(node.before.as_str());
            out.append(node.value.as_str());
            out.append(node.after.as_str());
        },
        Kind::Func => {
            out.append(node.value.as_str());
            out.push('(');
            out.append(node.before.as_str());
            let ghost head = out@;
            let ghost kids = node.model().nodes;
            let mut i: usize = 0;
            proof {
                assert(head + nodes_text_upto(kids, 0) =~= head);
            }
            while i < node.nodes.len()
                invariant
                    i <= node.nodes@.len(),
                    kids == node.model().nodes,
                    out@ == head + nodes_text_upto(kids, i as int),
                decreases node.nodes@.len() - i,
            {
                stringify_node(&node.nodes[i], out);
                i += 1;
                proof {
                    assert(out@ =~= head + nodes_text_upto(kids, i as int));
                }
            }
            out.append(node.after.as_str());
            if !node.unclosed {
                out.push(')');
            }
        },
    }
    proof {
        assert(out@ =~= start + node_text(node.model()));
    }
}

/// Whether a node is a comment whose opening and closing marks share their star:
/// `/*/`.
pub open spec fn shares_star(n: NodeModel) -> bool {
    n.kind == Kind::Comment && !n.unclosed && n.source_end_index == n.source_index + 3
}

/// Whether no comment in or under the node shares the star of its marks.
pub open spec fn own_stars(n: NodeModel) -> bool
    decreases n,
{
    &&& !shares_star(n)
    &&& n.kind == Kind::Func ==> forall|i: int|
        0 <= i < n.nodes.len() ==> own_stars(#[trigger] n.nodes[i])
}

/// Whether no comment among the nodes shares the star of its marks.
pub open spec fn all_own_stars(nodes: Seq<NodeModel>) -> bool {
    forall|i: int| 0 <= i < nodes.len() ==> own_stars(#[trigger] nodes[i])
}

spec fn clip(s: Seq<char>, i: int) -> int {
    if i < s.len() {
        i
    } else {
        s.len() as int
    }
}

proof fn lemma_text_push(nodes: Seq<NodeModel>, n: NodeModel)
    ensures
        nodes_text(nodes.push(n)) == nodes_text(nodes) + node_text(n),
{
    lemma_text_prefix(nodes, nodes.push(n), nodes.len() as int);
}

proof fn lemma_text_prefix(a: Seq<NodeModel>, b: Seq<NodeModel>, k: int)
    requires
        0 <= k <= a.len(),
        k <= b.len(),
        forall|i: int| 0 <= i < k ==> a[i] == b[i],
    ensures
        nodes_text_upto(a, k) == nodes_text_upto(b, k),
    decreases k,
{
    if k > 0 {
        lemma_text_prefix(a, b, k - 1);
    }
}

proof fn lemma_next_char(s: Seq<char>, c: char, from: int)
    requires
        0 <= from <= s.len(),
    ensures
        from <= next_char(s, c, from) <= s.len(),
        next_char(s, c, from) < s.len() ==> s[next_char(s, c, from)] == c,
    decreases s.len() - from,
{
    if from < s.len() && s[from] != c {
        lemma_next_char(s, c, from + 1);
    }
}

proof fn lemma_unescaped(s: Seq<char>, c: char, from: int)
    requires
        0 <= from <= s.len(),
    ensures
        from <= unescaped(s, c, from) <= s.len(),
        unescaped(s, c, from) < s.len() ==> s[unescaped(s, c, from)] == c,
    decreases s.len() - from,
{
    lemma_next_char(s, c, from);
    let i = next_char(s, c, from);
    if i < s.len() && backslashes_before(s, i) % 2 == 1 {
        lemma_unescaped(s, c, i + 1);
    }
}

proof fn lemma_comment_close(s: Seq<char>, from: int)
    requires
        0 <= from <= s.len(),
    ensures
        from <= comment_close(s, from) <= s.len(),
        comment_close(s, from) < s.len() ==> comment_close(s, from) + 1 < s.len()
            && s[comment_close(s, from)] == '*' && s[comment_close(s, from) + 1] == '/',
    decreases s.len() - from,
{
    if from + 1 < s.len() && !(s[from] == '*' && s[from + 1] == '/') {
        lemma_comment_close(s, from + 1);
    }
}

proof fn lemma_word_end(s: Seq<char>, i: int, place: Place)
    requires
        0 <= i < s.len(),
    ensures
        i < word_end(s, i, place) <= s.len() + 1,
    decreases s.len() - i,
{
    let n = if s[i] == '\\' {
        i + 2
    } else {
        i + 1
    };
    if n < s.len() && !breaks_word(s[n], place) {
        lemma_word_end(s, n, place);
    }
}

proof fn lemma_raw_url_text(s: Seq<char>, start: int, paren: int)
    requires
        0 <= start <= paren < s.len(),
        s[paren] == '(',
    ensures
        ({
            let inside = skip_blank(s, paren + 1);
            let token = raw_url(s, start, paren, inside);
            &&& token is Leaf
            &&& paren < token->Leaf_1
            &&& node_text(token->Leaf_0) == s.subrange(start, clip(s, token->Leaf_1))
            &&& own_stars(token->Leaf_0)
            &&& token->Leaf_0.kind == Kind::Func
        }),
{
    let inside = skip_blank(s, paren + 1);
    lemma_skip_blank(s, paren + 1);
    lemma_unescaped(s, ')', inside);
    let close = unescaped(s, ')', inside);
    lemma_last_visible(s, close, paren);
    let last = last_visible(s, close);
    let n = raw_url(s, start, paren, inside)->Leaf_0;
    reveal_with_fuel(nodes_text_upto, 3);
    reveal_with_fuel(node_text, 3);
    reveal_with_fuel(own_stars, 3);
    assert(n.nodes.len() <= 2);
    if last <= paren {
        assert(last == paren);
        assert(inside == close) by {
            if inside < close {
                assert(!blank(s[inside]));
                assert(blank(s[inside]));
            }
        }
    } else {
        assert(inside <= last) by {
            if last < inside {
                assert(blank(s[last]));
            }
        }
    }
    let end = clip(s, close + 1);
    if close < s.len() {
        assert(s.subrange(start, end) =~= s.subrange(start, paren).push('(') + s.subrange(
            paren + 1,
            inside,
        ) + s.subrange(inside, close).push(')'));
    } else {
        assert(s.subrange(start, end) =~= s.subrange(start, paren).push('(') + s.subrange(
            paren + 1,
            inside,
        ) + s.subrange(inside, close));
    }
    if last > paren {
        assert(s.subrange(inside, close) =~= s.subrange(inside, last + 1) + s.subrange(
            last + 1,
            close,
        ));
    }
    assert(node_text(n) =~= s.subrange(start, end));
}

proof fn lemma_leaf_text(s: Seq<char>, pos: int, place: Place)
    requires
        0 <= pos < s.len(),
    ensures
        match token_at(s, pos, place) {
            Token::Blank(next) => pos < next <= s.len() && next == skip_blank(s, pos),
            Token::Leaf(node, next, supplied) => {
                &&& pos < next
                &&& !shares_star(node) ==> node_text(node) == s.subrange(pos, clip(s, next))
                &&& shares_star(node) ==> !own_stars(node)
                &&& node.kind == Kind::Div ==> node.after.len() == 0
            },
            Token::Open(start, paren, inside) => {
                &&& pos == start <= paren < inside <= s.len()
                &&& s[paren] == '('
                &&& inside == skip_blank(s, paren + 1)
            },
            Token::Close => s[pos] == ')' && place.in_function,
        },
{
    reveal(token_at);
    let c = s[pos];
    if blank(c) {
        lemma_skip_blank(s, pos);
    } else if c == '\'' || c == '"' {
        lemma_unescaped(s, c, pos + 1);
        let close = unescaped(s, c, pos + 1);
        let n = string_token(s, pos)->Leaf_0;
        assert(n.quote as char == c);
        assert(node_text(n) =~= s.subrange(pos, clip(s, close + 1)));
    } else if c == '/' && pos + 1 < s.len() && s[pos + 1] == '*' {
        lemma_comment_close(s, pos);
        let close = comment_close(s, pos);
        let n = comment_token(s, pos)->Leaf_0;
        reveal_strlit("/*");
        reveal_strlit("*/");
        if close < s.len() {
            lemma_offset_grows(s, pos, close + 2);
            if close == pos + 1 {
                assert(byte_offset(s, pos + 3) == byte_offset(s, pos) + 3) by {
                    reveal_with_fuel(byte_offset, 4);
                }
                assert(shares_star(n));
            } else {
                assert(close >= pos + 2);
                assert(node_text(n) =~= s.subrange(pos, clip(s, close + 2)));
            }
        } else {
            assert(node_text(n) =~= s.subrange(pos, clip(s, close + 2)));
        }
    } else if (c == '/' || c == '*') && place.in_calc {
        assert(seq![c] =~= s.subrange(pos, pos + 1));
    } else if c == '/' || c == ',' || c == ':' {
        let e = Seq::<char>::empty();
        assert(e + seq![c] + e =~= s.subrange(pos, pos + 1));
    } else if c == '(' {
        lemma_skip_blank(s, pos + 1);
        lemma_raw_url_text(s, pos, pos);
    } else if c == ')' && place.in_function {
    } else {
        lemma_word_end(s, pos, place);
        let end = word_end(s, pos, place);
        if end < s.len() && s[end] == '(' {
            lemma_skip_blank(s, end + 1);
            lemma_raw_url_text(s, pos, end);
        }
    }
}

/// Whether a divider at the end of the nodes has no padding behind it yet.
spec fn open_div(cur: Seq<NodeModel>) -> bool {
    cur.len() > 0 && cur.last().kind == Kind::Div ==> cur.last().after.len() == 0
}

/// What a listing keeps: it is behind `cur`, and its text is that of `cur` and of
/// the characters it took.
spec fn keeps_text(s: Seq<char>, pos: int, place: Place, cur: Seq<NodeModel>, l: Listing) -> bool {
    &&& l.end >= pos
    &&& l.closed ==> l.end <= s.len()
    &&& l.closed ==> place.in_function
    &&& !l.closed ==> l.end >= s.len() && l.after.len() == 0
    &&& l.nodes.len() >= cur.len()
    &&& forall|i: int|
        0 <= i < cur.len() ==> (#[trigger] l.nodes[i]) == cur[i] || (cur[i].kind == Kind::Div
            && l.nodes[i].kind == Kind::Div)
    &&& all_own_stars(l.nodes) ==> listing_text(l) == nodes_text(cur) + s.subrange(
        clip(s, pos),
        clip(s, l.end),
    )
}

spec fn listing_text(l: Listing) -> Seq<char> {
    let whole = nodes_text(l.nodes) + l.after;
    if l.closed {
        whole.push(')')
    } else {
        whole
    }
}

/// One more node in front of the rest of the text.
proof fn lemma_pushed(
    s: Seq<char>,
    pos: int,
    next: int,
    place: Place,
    inner: Place,
    cur: Seq<NodeModel>,
    node: NodeModel,
    l: Listing,
)
    requires
        0 <= pos < s.len(),
        pos < next,
        place.in_function == inner.in_function,
        all_own_stars(l.nodes) && l.nodes[cur.len() as int] == node ==> node_text(node)
            == s.subrange(pos, clip(s, next)),
        node.kind == Kind::Div ==> node_text(node) == s.subrange(pos, clip(s, next)),
        keeps_text(s, next, inner, cur.push(node), l),
    ensures
        keeps_text(s, pos, place, cur, l),
{
    assert forall|i: int| 0 <= i < cur.len() implies (#[trigger] l.nodes[i]) == cur[i] || (
    cur[i].kind == Kind::Div && l.nodes[i].kind == Kind::Div) by {
        assert(cur.push(node)[i] == cur[i]);
    }
    if all_own_stars(l.nodes) {
        let last = cur.len() as int;
        assert(cur.push(node)[last] == node);
        assert(l.nodes[last] == node || node.kind == Kind::Div);
        lemma_text_push(cur, node);
        assert(s.subrange(pos, clip(s, next)) + s.subrange(clip(s, next), clip(s, l.end))
            =~= s.subrange(pos, clip(s, l.end)));
        assert(nodes_text(cur.push(node)) + s.subrange(clip(s, next), clip(s, l.end))
            =~= nodes_text(cur) + (node_text(node) + s.subrange(clip(s, next), clip(s, l.end))));
    }
}

/// White space that goes behind a divider at the end of the nodes.
proof fn lemma_padded(
    s: Seq<char>,
    pos: int,
    next: int,
    place: Place,
    cur: Seq<NodeModel>,
    div: NodeModel,
    l: Listing,
)
    requires
        0 <= pos < next <= s.len(),
        open_div(cur),
        cur.len() > 0,
        cur.last().kind == Kind::Div,
        div.kind == Kind::Div,
        div.before == cur.last().before,
        div.value == cur.last().value,
        div.after == s.subrange(pos, next),
        keeps_text(s, next, place, cur.drop_last().push(div), l),
    ensures
        keeps_text(s, pos, place, cur, l),
{
    let rest = cur.drop_last().push(div);
    let white = s.subrange(pos, next);
    lemma_text_push(cur.drop_last(), div);
    lemma_text_push(cur.drop_last(), cur.last());
    assert(cur.drop_last().push(cur.last()) =~= cur);
    assert(node_text(div) =~= node_text(cur.last()) + white);
    assert(nodes_text(rest) =~= nodes_text(cur) + white);
    assert(white + s.subrange(next, clip(s, l.end)) =~= s.subrange(pos, clip(s, l.end)));
    assert(nodes_text(rest) + s.subrange(next, clip(s, l.end)) =~= nodes_text(cur) + s.subrange(
        pos,
        clip(s, l.end),
    ));
    assert forall|i: int| 0 <= i < cur.len() implies (#[trigger] l.nodes[i]) == cur[i] || (
    cur[i].kind == Kind::Div && l.nodes[i].kind == Kind::Div) by {
        assert(rest[i].kind == cur[i].kind);
        if i < cur.len() - 1 {
            assert(rest[i] == cur[i]);
        }
    }
}

/// The text of a function is that of its opening and of its contents.
proof fn lemma_func_text(s: Seq<char>, start: int, paren: int, inside: int, inner: Listing)
    requires
        0 <= start <= paren < inside <= s.len(),
        s[paren] == '(',
        keeps_text(s, inside, place_inside(s, start, paren), Seq::empty(), inner),
        own_stars(func_model(s, start, paren, inside, inner)),
    ensures
        node_text(func_model(s, start, paren, inside, inner)) == s.subrange(
            start,
            clip(s, inner.end),
        ),
{
    let func = func_model(s, start, paren, inside, inner);
    assert(all_own_stars(inner.nodes)) by {
        assert forall|i: int| 0 <= i < inner.nodes.len() implies own_stars(
            #[trigger] inner.nodes[i],
        ) by {
            assert(func.nodes[i] == inner.nodes[i]);
        }
    }
    let body = s.subrange(inside, clip(s, inner.end));
    assert(nodes_text(Seq::<NodeModel>::empty()) + body =~= body);
    assert(node_text(func) =~= s.subrange(start, paren).push('(') + s.subrange(paren + 1, inside)
        + body);
    assert(node_text(func) =~= s.subrange(start, clip(s, inner.end)));
}

proof fn lemma_list_text(s: Seq<char>, pos: int, place: Place, grown: bool, cur: Seq<NodeModel>)
    requires
        0 <= pos,
        open_div(cur) || pos >= s.len() || !blank(s[pos]),
    ensures
        keeps_text(s, pos, place, cur, list_from(s, pos, place, grown, cur)),
    decreases left(s, pos),
{
    let l = list_from(s, pos, place, grown, cur);
    if pos >= s.len() {
        assert(nodes_text(l.nodes) + l.after =~= nodes_text(cur) + s.subrange(
            clip(s, pos),
            clip(s, l.end),
        ));
    } else {
        lemma_leaf_text(s, pos, place);
        match token_at(s, pos, place) {
            Token::Blank(next) => {
                let white = s.subrange(pos, next);
                lemma_skip_blank(s, pos);
                if next < s.len() && s[next] == ')' && place.in_function {
                    assert((nodes_text(l.nodes) + l.after).push(')') =~= nodes_text(cur)
                        + s.subrange(pos, l.end));
                } else if cur.len() > 0 && cur.last().kind == Kind::Div {
                    let div = NodeModel {
                        after: white,
                        source_end_index: cur.last().source_end_index + white.len(),
                        ..cur.last()
                    };
                    lemma_list_text(s, next, place, grown, cur.drop_last().push(div));
                    lemma_padded(s, pos, next, place, cur, div, l);
                } else if pads_divider(s, next, place) {
                    let div = NodeModel {
                        before: white,
                        ..leaf_model(
                            Kind::Div,
                            seq![s[next]],
                            byte_offset(s, pos),
                            byte_offset(s, next + 1),
                        )
                    };
                    lemma_list_text(s, next + 1, place, grown, cur.push(div));
                    assert(node_text(div) =~= s.subrange(pos, next + 1));
                    lemma_pushed(s, pos, next + 1, place, place, cur, div, l);
                } else {
                    let space = leaf_model(
                        Kind::Space,
                        white,
                        byte_offset(s, pos),
                        byte_offset(s, next),
                    );
                    lemma_list_text(s, next, place, grown, cur.push(space));
                    lemma_pushed(s, pos, next, place, place, cur, space, l);
                }
            },
            Token::Leaf(node, next, supplied) => {
                lemma_list_text(s, next, place, supplied, cur.push(node));
                if all_own_stars(l.nodes) && l.nodes[cur.len() as int] == node {
                    assert(own_stars(l.nodes[cur.len() as int]));
                }
                lemma_pushed(s, pos, next, place, place, cur, node, l);
            },
            Token::Open(start, paren, inside) => {
                let place_in = place_inside(s, start, paren);
                lemma_list_text(s, inside, place_in, grown, Seq::empty());
                let inner = list_from(s, inside, place_in, grown, Seq::empty());
                let func = func_model(s, start, paren, inside, inner);
                let place_on = Place { entered: true, ..place };
                lemma_list_text(s, inner.end, place_on, inner.grown, cur.push(func));
                if all_own_stars(l.nodes) && l.nodes[cur.len() as int] == func {
                    assert(own_stars(l.nodes[cur.len() as int]));
                    lemma_func_text(s, start, paren, inside, inner);
                }
                lemma_pushed(s, pos, inner.end, place, place_on, cur, func, l);
            },
            Token::Close => {
                assert((nodes_text(l.nodes) + l.after).push(')') =~= nodes_text(cur) + s.subrange(
                    pos,
                    l.end,
                ));
            },
        }
    }
}

/// Printing the nodes of a value gives the value back, unless a comment in it is
/// closed by the star that opens it: `/*/` prints as `/**/`.
pub proof fn parse_then_stringify(s: Seq<char>)
    requires
        all_own_stars(parse_nodes(s)),
    ensures
        nodes_text(parse_nodes(s)) == s,
{
    let e = Seq::<NodeModel>::empty();
    lemma_list_text(s, 0, top_place(), false, e);
    let l = list_from(s, 0, top_place(), false, e);
    assert(nodes_text(l.nodes) + l.after =~= nodes_text(l.nodes));
    assert(nodes_text(e) + s.subrange(0, s.len() as int) =~= s);
}

proof fn lemma_leaf_stars(s: Seq<char>, pos: int, place: Place)
    requires
        0 <= pos < s.len(),
        !has_part(s, "/*/"@),
    ensures
        token_at(s, pos, place) is Leaf ==> own_stars(token_at(s, pos, place)->Leaf_0),
{
    reveal(token_at);
    let c = s[pos];
    if blank(c) || c == '\'' || c == '"' {
    } else if c == '/' && pos + 1 < s.len() && s[pos + 1] == '*' {
        lemma_comment_close(s, pos);
        let close = comment_close(s, pos);
        if close < s.len() {
            lemma_offset_grows(s, pos, close + 2);
            if close == pos + 1 {
                reveal_strlit("/*/");
                assert(s.subrange(pos, pos + 3) =~= "/*/"@);
                assert(at_pos(s, "/*/"@, pos));
            }
        }
    } else if c == '(' {
        lemma_raw_url_text(s, pos, pos);
    } else {
        lemma_word_end(s, pos, place);
        let end = word_end(s, pos, place);
        if end < s.len() && s[end] == '(' {
            lemma_raw_url_text(s, pos, end);
        }
    }
}

proof fn lemma_list_stars(s: Seq<char>, pos: int, place: Place, grown: bool, cur: Seq<NodeModel>)
    requires
        0 <= pos,
        !has_part(s, "/*/"@),
        all_own_stars(cur),
    ensures
        all_own_stars(list_from(s, pos, place, grown, cur).nodes),
    decreases left(s, pos),
{
    if pos < s.len() {
        lemma_leaf_text(s, pos, place);
        lemma_leaf_stars(s, pos, place);
        match token_at(s, pos, place) {
            Token::Blank(next) => {
                let white = s.subrange(pos, next);
                if next < s.len() && s[next] == ')' && place.in_function {
                } else if cur.len() > 0 && cur.last().kind == Kind::Div {
                    let div = NodeModel {
                        after: white,
                        source_end_index: cur.last().source_end_index + white.len(),
                        ..cur.last()
                    };
                    lemma_stars_push(cur.drop_last(), div);
                    lemma_list_stars(s, next, place, grown, cur.drop_last().push(div));
                } else if pads_divider(s, next, place) {
                    let div = NodeModel {
                        before: white,
                        ..leaf_model(
                            Kind::Div,
                            seq![s[next]],
                            byte_offset(s, pos),
                            byte_offset(s, next + 1),
                        )
                    };
                    lemma_stars_push(cur, div);
                    lemma_list_stars(s, next + 1, place, grown, cur.push(div));
                } else {
                    let space = leaf_model(
                        Kind::Space,
                        white,
                        byte_offset(s, pos),
                        byte_offset(s, next),
                    );
                    lemma_stars_push(cur, space);
                    lemma_list_stars(s, next, place, grown, cur.push(space));
                }
            },
            Token::Leaf(node, next, supplied) => {
                lemma_stars_push(cur, node);
                lemma_list_stars(s, next, place, supplied, cur.push(node));
            },
            Token::Open(start, paren, inside) => {
                let place_in = place_inside(s, start, paren);
                lemma_list_text(s, inside, place_in, grown, Seq::empty());
                lemma_list_stars(s, inside, place_in, grown, Seq::empty());
                let inner = list_from(s, inside, place_in, grown, Seq::empty());
                let func = func_model(s, start, paren, inside, inner);
                lemma_stars_push(cur, func);
                lemma_list_stars(
                    s,
                    inner.end,
                    Place { entered: true, ..place },
                    inner.grown,
                    cur.push(func),
                );
            },
            Token::Close => {},
        }
    }
}

proof fn lemma_stars_push(cur: Seq<NodeModel>, n: NodeModel)
    requires
        all_own_stars(cur),
        own_stars(n),
    ensures
        all_own_stars(cur.push(n)),
{
    assert forall|i: int| 0 <= i < cur.push(n).len() implies own_stars(
        #[trigger] cur.push(n)[i],
    ) by {
        if i < cur.len() {
            assert(cur.push(n)[i] == cur[i]);
        }
    }
}

/// Printing the nodes of a value gives the value back, whatever it leaves unclosed, for
/// every value in which `/*/` does not stand.
pub proof fn values_are_given_back(s: Seq<char>)
    requires
        !has_part(s, "/*/"@),
    ensures
        nodes_text(parse_nodes(s)) == s,
{
    lemma_list_stars(s, 0, top_place(), false, Seq::empty());
    parse_then_stringify(s);
}

/// Whether nodes stand one behind the other from the start of the text on.
pub open spec fn in_a_row(nodes: Seq<NodeModel>) -> bool {
    &&& nodes.len() > 0 ==> nodes[0].source_index == 0
    &&& forall|i: int, j: int|
        0 <= i < nodes.len() && j == i + 1 && j < nodes.len() ==> (#[trigger] nodes[j]).source_index
            == (#[trigger] nodes[i]).source_end_index
}

/// Where the last node ends.
pub open spec fn row_end(nodes: Seq<NodeModel>) -> int {
    if nodes.len() > 0 {
        nodes.last().source_end_index as int
    } else {
        0
    }
}

/// Whether a value is closed: its last node is, and no backslash stands at its end.
pub open spec fn closed_value(s: Seq<char>, nodes: Seq<NodeModel>) -> bool {
    &&& nodes.len() > 0 ==> !nodes.last().unclosed
    &&& s.len() > 0 ==> s.last() != '\\'
}

proof fn lemma_row_push(cur: Seq<NodeModel>, n: NodeModel)
    requires
        in_a_row(cur),
        n.source_index == row_end(cur),
    ensures
        in_a_row(cur.push(n)),
        row_end(cur.push(n)) == n.source_end_index,
{
    let now = cur.push(n);
    assert forall|i: int, j: int| 0 <= i < now.len() && j == i + 1 && j < now.len() implies (
    #[trigger] now[j]).source_index == (#[trigger] now[i]).source_end_index by {
        assert(now[i] == cur[i]);
        if j < cur.len() {
            assert(now[j] == cur[j]);
        }
    }
}

proof fn lemma_row_end(cur: Seq<NodeModel>, n: NodeModel)
    requires
        in_a_row(cur),
        cur.len() > 0,
        n.source_index == cur.last().source_index,
    ensures
        in_a_row(cur.drop_last().push(n)),
{
    let now = cur.drop_last().push(n);
    assert forall|i: int, j: int| 0 <= i < now.len() && j == i + 1 && j < now.len() implies (
    #[trigger] now[j]).source_index == (#[trigger] now[i]).source_end_index by {
        assert(now[i] == cur[i]);
        assert(now[j].source_index == cur[j].source_index);
    }
}

proof fn lemma_blank_bytes(s: Seq<char>, a: int, b: int)
    requires
        0 <= a <= b <= s.len(),
        forall|i: int| a <= i < b ==> blank(#[trigger] s[i]),
    ensures
        byte_offset(s, b) == byte_offset(s, a) + (b - a),
    decreases b - a,
{
    if a < b {
        lemma_blank_bytes(s, a, b - 1);
        assert(blank(s[b - 1]));
    }
}

proof fn lemma_word_end_over(s: Seq<char>, i: int, place: Place)
    requires
        0 <= i < s.len(),
        word_end(s, i, place) > s.len(),
    ensures
        s.last() == '\\',
    decreases s.len() - i,
{
    let n = if s[i] == '\\' {
        i + 2
    } else {
        i + 1
    };
    if n < s.len() && !breaks_word(s[n], place) {
        lemma_word_end_over(s, n, place);
    }
}

proof fn lemma_leaf_place(s: Seq<char>, pos: int, place: Place)
    requires
        0 <= pos < s.len(),
    ensures
        match token_at(s, pos, place) {
            Token::Leaf(node, next, _) => {
                &&& node.source_index == byte_offset(s, pos)
                &&& next <= s.len() ==> node.source_end_index == byte_offset(s, next)
                &&& next > s.len() ==> node.unclosed || s.last() == '\\'
            },
            _ => true,
        },
{
    reveal(token_at);
    let c = s[pos];
    if blank(c) {
    } else if c == '\'' || c == '"' {
        lemma_unescaped(s, c, pos + 1);
    } else if c == '/' && pos + 1 < s.len() && s[pos + 1] == '*' {
        lemma_comment_close(s, pos);
    } else if c == '(' {
        lemma_skip_blank(s, pos + 1);
        lemma_unescaped(s, ')', skip_blank(s, pos + 1));
    } else {
        lemma_word_end(s, pos, place);
        let end = word_end(s, pos, place);
        if end > s.len() {
            lemma_word_end_over(s, pos, place);
        } else if end < s.len() && s[end] == '(' {
            lemma_skip_blank(s, end + 1);
            lemma_unescaped(s, ')', skip_blank(s, end + 1));
        }
    }
}

/// Whether nodes stand in a row up to a place, or to the end of a closed value.
#[verifier::opaque]
spec fn row_upto(s: Seq<char>, pos: int, cur: Seq<NodeModel>) -> bool {
    &&& in_a_row(cur)
    &&& pos < s.len() ==> row_end(cur) == byte_offset(s, pos)
    &&& pos >= s.len() && closed_value(s, cur) ==> row_end(cur) == byte_offset(s, s.len() as int)
}

proof fn lemma_row_step(s: Seq<char>, pos: int, next: int, cur: Seq<NodeModel>, n: NodeModel)
    requires
        0 <= pos < s.len(),
        row_upto(s, pos, cur),
        n.source_index == byte_offset(s, pos),
        next < s.len() ==> n.source_end_index == byte_offset(s, next),
        next >= s.len() && !n.unclosed && s.last() != '\\' ==> n.source_end_index == byte_offset(
            s,
            s.len() as int,
        ),
    ensures
        row_upto(s, next, cur.push(n)),
{
    reveal(row_upto);
    lemma_row_push(cur, n);
}

proof fn lemma_row_padded(s: Seq<char>, pos: int, next: int, cur: Seq<NodeModel>, n: NodeModel)
    requires
        0 <= pos < s.len(),
        pos < next <= s.len(),
        row_upto(s, pos, cur),
        cur.len() > 0,
        n.source_index == cur.last().source_index,
        n.source_end_index == cur.last().source_end_index + (next - pos),
        byte_offset(s, next) == byte_offset(s, pos) + (next - pos),
    ensures
        row_upto(s, next, cur.drop_last().push(n)),
{
    reveal(row_upto);
    lemma_row_end(cur, n);
}

proof fn lemma_list_row(s: Seq<char>, pos: int, place: Place, grown: bool, cur: Seq<NodeModel>)
    requires
        0 <= pos,
        !place.in_function,
        row_upto(s, pos, cur),
    ensures
        row_upto(s, s.len() as int, list_from(s, pos, place, grown, cur).nodes),
    decreases left(s, pos),
{
    if pos >= s.len() {
        reveal(row_upto);
    } else {
        lemma_leaf_text(s, pos, place);
        lemma_leaf_place(s, pos, place);
        match token_at(s, pos, place) {
            Token::Blank(next) => {
                let white = s.subrange(pos, next);
                lemma_skip_blank(s, pos);
                lemma_blank_bytes(s, pos, next);
                if cur.len() > 0 && cur.last().kind == Kind::Div {
                    let div = NodeModel {
                        after: white,
                        source_end_index: cur.last().source_end_index + white.len(),
                        ..cur.last()
                    };
                    lemma_row_padded(s, pos, next, cur, div);
                    lemma_list_row(s, next, place, grown, cur.drop_last().push(div));
                } else if pads_divider(s, next, place) {
                    let div = NodeModel {
                        before: white,
                        ..leaf_model(
                            Kind::Div,
                            seq![s[next]],
                            byte_offset(s, pos),
                            byte_offset(s, next + 1),
                        )
                    };
                    lemma_row_step(s, pos, next + 1, cur, div);
                    lemma_list_row(s, next + 1, place, grown, cur.push(div));
                } else {
                    let space = leaf_model(
                        Kind::Space,
                        white,
                        byte_offset(s, pos),
                        byte_offset(s, next),
                    );
                    lemma_row_step(s, pos, next, cur, space);
                    lemma_list_row(s, next, place, grown, cur.push(space));
                }
            },
            Token::Leaf(node, next, supplied) => {
                lemma_row_step(s, pos, next, cur, node);
                lemma_list_row(s, next, place, supplied, cur.push(node));
            },
            Token::Open(start, paren, inside) => {
                let place_in = place_inside(s, start, paren);
                lemma_list_text(s, inside, place_in, grown, Seq::empty());
                let inner = list_from(s, inside, place_in, grown, Seq::empty());
                let func = func_model(s, start, paren, inside, inner);
                let place_on = Place { entered: true, ..place };
                lemma_row_step(s, pos, inner.end, cur, func);
                lemma_list_row(s, inner.end, place_on, inner.grown, cur.push(func));
            },
            Token::Close => {},
        }
    }
}

/// The nodes of a value stand one behind the other from its start on, and those of a closed
/// value reach to its end.
pub proof fn nodes_cover_the_value(s: Seq<char>)
    ensures
        in_a_row(parse_nodes(s)),
        closed_value(s, parse_nodes(s)) ==> row_end(parse_nodes(s)) == byte_offset(
            s,
            s.len() as int,
        ),
{
    reveal(row_upto);
    lemma_list_row(s, 0, top_place(), false, Seq::empty());
}

/// What is done to each node on a walk, and to the walker itself.
pub trait NodeVisitor: Sized {
    /// The walker after it has seen `n`.
    spec fn seen(self, n: NodeModel) -> Self;

    /// What the walker makes of `n` and of its children.
    spec fn edited(self, n: NodeModel) -> NodeModel;

    /// Sees a node and edits it.
    fn visit(&mut self, node: &mut Node)
        ensures
            final(node).model() == old(self).edited(old(node).model()),
            *final(self) == old(self).seen(old(node).model()),
    ;
}

/// The walker and the first `k` nodes, after a walk over them that goes no more than
/// `depth` levels down, if that is deep enough: each node is seen before its children.
pub open spec fn walked_within<V: NodeVisitor>(
    v: V,
    nodes: Seq<NodeModel>,
    k: int,
    depth: nat,
) -> Option<(V, Seq<NodeModel>)>
    decreases depth, k,
{
    if k <= 0 || k > nodes.len() {
        Some((v, Seq::empty()))
    } else {
        match walked_within(v, nodes, k - 1, depth) {
            None => None,
            Some((w, done)) => match node_walked_within(w, nodes[k - 1], depth) {
                None => None,
                Some((u, n)) => Some((u, done.push(n))),
            },
        }
    }
}

/// The walker and the node, after a walk over the node and the children that the walker
/// left it, which are walked over where it left a function.
pub open spec fn node_walked_within<V: NodeVisitor>(v: V, n: NodeModel, depth: nat) -> Option<
    (V, NodeModel),
>
    decreases depth, 0int,
{
    let w = v.seen(n);
    let m = v.edited(n);
    if m.kind != Kind::Func {
        Some((w, m))
    } else if depth == 0 {
        None
    } else {
        match walked_within(w, m.nodes, m.nodes.len() as int, (depth - 1) as nat) {
            None => None,
            Some((u, kids)) => Some((u, NodeModel { nodes: kids, ..m })),
        }
    }
}

/// Whether a walk over all the nodes that goes no more than `depth` levels down ends.
pub open spec fn walk_ends_within<V: NodeVisitor>(v: V, nodes: Seq<NodeModel>, depth: nat) -> bool {
    walked_within(v, nodes, nodes.len() as int, depth) is Some
}

/// Whether a walk over the nodes ends: it does not where the walker puts functions into
/// functions forever.
pub open spec fn walk_ends<V: NodeVisitor>(v: V, nodes: Seq<NodeModel>) -> bool {
    exists|depth: nat| walk_ends_within(v, nodes, depth)
}

/// The walker and the nodes, after a walk over all of them.
pub open spec fn walked<V: NodeVisitor>(v: V, nodes: Seq<NodeModel>) -> (V, Seq<NodeModel>) {
    let depth = choose|depth: nat| walk_ends_within(v, nodes, depth);
    walked_within(v, nodes, nodes.len() as int, depth)->0
}

proof fn lemma_deeper<V: NodeVisitor>(v: V, nodes: Seq<NodeModel>, k: int, a: nat, b: nat)
    requires
        walked_within(v, nodes, k, a) is Some,
        a <= b,
    ensures
        walked_within(v, nodes, k, b) == walked_within(v, nodes, k, a),
    decreases a, k,
{
    if 0 < k <= nodes.len() {
        lemma_deeper(v, nodes, k - 1, a, b);
        let (w, done) = walked_within(v, nodes, k - 1, a)->0;
        lemma_node_deeper(w, nodes[k - 1], a, b);
    }
}

proof fn lemma_node_deeper<V: NodeVisitor>(v: V, n: NodeModel, a: nat, b: nat)
    requires
        node_walked_within(v, n, a) is Some,
        a <= b,
    ensures
        node_walked_within(v, n, b) == node_walked_within(v, n, a),
    decreases a, 0int,
{
    let m = v.edited(n);
    if m.kind == Kind::Func {
        lemma_deeper(v.seen(n), m.nodes, m.nodes.len() as int, (a - 1) as nat, (b - 1) as nat);
    }
}

/// A walk that ends gives the same however deep it may go.
pub proof fn depth_of_a_walk_does_not_count<V: NodeVisitor>(
    v: V,
    nodes: Seq<NodeModel>,
    depth: nat,
)
    requires
        walk_ends_within(v, nodes, depth),
    ensures
        walk_ends(v, nodes),
        walked_within(v, nodes, nodes.len() as int, depth) == Some(walked(v, nodes)),
{
    let other = choose|depth: nat| walk_ends_within(v, nodes, depth);
    let k = nodes.len() as int;
    if other <= depth {
        lemma_deeper(v, nodes, k, other, depth);
    } else {
        lemma_deeper(v, nodes, k, depth, other);
    }
}

/// The walker and the first `k` nodes, after a walk over them and the children that they
/// had.
pub open spec fn swept_upto<V: NodeVisitor>(v: V, nodes: Seq<NodeModel>, k: int) -> (
    V,
    Seq<NodeModel>,
)
    decreases nodes, k,
{
    if k <= 0 || k > nodes.len() {
        (v, Seq::empty())
    } else {
        let (w, done) = swept_upto(v, nodes, k - 1);
        let (u, n) = swept_node(w, nodes[k - 1]);
        (u, done.push(n))
    }
}

/// The walker and the node, after a walk over the node and the children that it had.
pub open spec fn swept_node<V: NodeVisitor>(v: V, n: NodeModel) -> (V, NodeModel)
    decreases n, 0int,
{
    let w = v.seen(n);
    let m = v.edited(n);
    if m.kind == Kind::Func {
        let (u, kids) = swept_upto(w, n.nodes, n.nodes.len() as int);
        (u, NodeModel { nodes: kids, ..m })
    } else {
        (w, m)
    }
}

/// The walker and the nodes, after a walk over all of them and the children that they had.
pub open spec fn swept<V: NodeVisitor>(v: V, nodes: Seq<NodeModel>) -> (V, Seq<NodeModel>) {
    swept_upto(v, nodes, nodes.len() as int)
}

/// Whether a walker leaves the children of every node as they are.
pub open spec fn keeps_children<V: NodeVisitor>() -> bool {
    forall|v: V, n: NodeModel| (#[trigger] v.edited(n)).nodes == n.nodes
}

proof fn lemma_swept<V: NodeVisitor>(v: V, nodes: Seq<NodeModel>, k: int) -> (depth: nat)
    requires
        keeps_children::<V>(),
    ensures
        walked_within(v, nodes, k, depth) == Some(swept_upto(v, nodes, k)),
    decreases nodes, k,
{
    if k <= 0 || k > nodes.len() {
        0
    } else {
        let a = lemma_swept(v, nodes, k - 1);
        let (w, done) = swept_upto(v, nodes, k - 1);
        let b = lemma_swept_node(w, nodes[k - 1]);
        let depth = if a < b {
            b
        } else {
            a
        };
        lemma_deeper(v, nodes, k - 1, a, depth);
        lemma_node_deeper(w, nodes[k - 1], b, depth);
        depth
    }
}

proof fn lemma_swept_node<V: NodeVisitor>(v: V, n: NodeModel) -> (depth: nat)
    requires
        keeps_children::<V>(),
    ensures
        node_walked_within(v, n, depth) == Some(swept_node(v, n)),
    decreases n, 0int,
{
    let inner = lemma_swept(v.seen(n), n.nodes, n.nodes.len() as int);
    assert(v.edited(n).nodes == n.nodes);
    assert((inner + 1 - 1) as nat == inner);
    inner + 1
}

/// A walk that leaves the children of every node as they are ends, and goes over the
/// children that the nodes had.
pub proof fn steady_walks_end<V: NodeVisitor>(v: V, nodes: Seq<NodeModel>)
    requires
        keeps_children::<V>(),
    ensures
        walk_ends(v, nodes),
        walked(v, nodes) == swept(v, nodes),
{
    let depth = lemma_swept(v, nodes, nodes.len() as int);
    assert(walk_ends_within(v, nodes, depth));
    depth_of_a_walk_does_not_count(v, nodes, depth);
}

/// Walks over nodes and the children of functions, in the order of the text. The walker
/// sees each node once, before its children; the children are those that it leaves.
pub fn walk<V: NodeVisitor>(nodes: &mut Vec<Node>, v: &mut V)
    requires
        walk_ends(*old(v), models(old(nodes)@)),
    ensures
        (*final(v), models(final(nodes)@)) == walked(*old(v), models(old(nodes)@)),
        final(nodes)@.len() == old(nodes)@.len(),
{
    let ghost depth = choose|depth: nat| walk_ends_within(*v, models(nodes@), depth);
    walk_down(nodes, v, Ghost(depth))
}

fn walk_down<V: NodeVisitor>(nodes: &mut Vec<Node>, v: &mut V, Ghost(depth): Ghost<nat>)
    requires
        walk_ends_within(*old(v), models(old(nodes)@), depth),
    ensures
        Some((*final(v), models(final(nodes)@))) == walked_within(
            *old(v),
            models(old(nodes)@),
            old(nodes)@.len() as int,
            depth,
        ),
        final(nodes)@.len() == old(nodes)@.len(),
    decreases depth,
{
    let ghost first = models(nodes@);
    let ghost start = *v;
    let ghost orig = nodes@;
    let mut i: usize = 0;
    proof {
        assert(models(nodes@).take(0) =~= Seq::<NodeModel>::empty());
    }
    while i < nodes.len()
        invariant
            i <= nodes@.len(),
            nodes@.len() == orig.len(),
            orig == old(nodes)@,
            start == *old(v),
            first == models(orig),
            forall|j: int| i <= j < nodes@.len() ==> nodes@[j] == orig[j],
            walk_ends_within(start, first, depth),
            Some((*v, models(nodes@).take(i as int))) == walked_within(
                start,
                first,
                i as int,
                depth,
            ),
        decreases nodes@.len() - i,
    {
        let ghost before = models(nodes@);
        let ghost w = *v;
        let mut node = nodes.remove(i);
        let ghost n = node.model();
        proof {
            lemma_ends_before(start, first, i as int + 1, depth);
            assert(first[i as int] == n);
            assert(node_walked_within(w, n, depth) is Some);
        }
        v.visit(&mut node);
        let ghost m = node.model();
        if node.kind == Kind::Func {
            proof {
                assert(m.nodes =~= models(node.nodes@));
            }
            walk_down(&mut node.nodes, v, Ghost((depth - 1) as nat));
        }
        nodes.insert(i, node);
        proof {
            assert(node.model().nodes =~= models(node.nodes@));
            assert(node_walked_within(w, n, depth) == Some((*v, node.model())));
            assert(models(nodes@).take(i as int + 1) =~= before.take(i as int).push(node.model()));
        }
        i += 1;
    }
    proof {
        assert(models(nodes@).take(nodes@.len() as int) =~= models(nodes@));
    }
}

proof fn lemma_ends_before<V: NodeVisitor>(v: V, nodes: Seq<NodeModel>, k: int, depth: nat)
    requires
        walk_ends_within(v, nodes, depth),
        0 <= k <= nodes.len(),
    ensures
        walked_within(v, nodes, k, depth) is Some,
    decreases nodes.len() - k,
{
    if k < nodes.len() {
        lemma_ends_before(v, nodes, k + 1, depth);
    }
}

/// A number and the unit behind it.
#[derive(Debug, PartialEq, Eq)]
pub struct Dimension<'a> {
    pub number: &'a str,
    pub unit: &'a str,
}

/// Whether a number begins the text: a sign or none, then a digit, or a point with
/// a digit behind it.
pub open spec fn begins_number(s: Seq<char>) -> bool {
    let i = if sign_at(s, 0) {
        1int
    } else {
        0
    };
    digit_at(s, i) || (char_at(s, i, '.') && digit_at(s, i + 1))
}

/// The position behind the number that begins the text: digits, a fraction where
/// the point has a digit behind it, and an exponent where it has digits.
pub open spec fn number_end(s: Seq<char>) -> int {
    let whole = digits_end(
        s,
        if sign_at(s, 0) {
            1
        } else {
            0
        },
    );
    let fraction = if char_at(s, whole, '.') && digit_at(s, whole + 1) {
        digits_end(s, whole + 2)
    } else {
        whole
    };
    if char_at(s, fraction, 'e') || char_at(s, fraction, 'E') {
        if digit_at(s, fraction + 1) {
            digits_end(s, fraction + 2)
        } else if sign_at(s, fraction + 1) && digit_at(s, fraction + 2) {
            digits_end(s, fraction + 3)
        } else {
            fraction
        }
    } else {
        fraction
    }
}

/// The number and the unit of a text, where it begins with a number.
pub open spec fn dimension(s: Seq<char>) -> Option<(Seq<char>, Seq<char>)> {
    if begins_number(s) {
        Some((s.subrange(0, number_end(s)), s.subrange(number_end(s), s.len() as int)))
    } else {
        None
    }
}

/// The position behind the number that begins the text, if one does.
pub fn number_len(s: &[char]) -> (r: Option<usize>)
    ensures
        r is Some == begins_number(s@),
        r is Some ==> r->0 == number_end(s@) && 0 < r->0 <= s@.len(),
{
    let n: usize = char_count(s);
    let first: usize = if has_sign(s, 0) {
        1
    } else {
        0
    };
    if !(has_digit(s, first) || (has_char(s, first, '.') && has_digit(s, first + 1))) {
        return None;
    }
    let whole: usize = skip_digits(s, first);
    let fraction: usize = if has_char(s, whole, '.') && has_digit(s, whole + 1) {
        skip_digits(s, whole + 2)
    } else {
        whole
    };
    let end: usize = if has_char(s, fraction, 'e') || has_char(s, fraction, 'E') {
        if has_digit(s, fraction + 1) {
            skip_digits(s, fraction + 2)
        } else if has_sign(s, fraction + 1) && has_digit(s, fraction + 2) {
            skip_digits(s, fraction + 3)
        } else {
            fraction
        }
    } else {
        fraction
    };
    Some(end)
}

/// Splits a text that begins with a number into the number and its unit.
pub fn unit<'a>(value: &'a str) -> (r: Option<Dimension<'a>>)
    ensures
        r is Some == dimension(value@) is Some,
        r is Some ==> (r->0.number@, r->0.unit@) == dimension(value@)->0,
{
    let s = chars_of(value);
    match number_len(&s) {
        None => None,
        Some(end) => Some(
            Dimension {
                number: value.substring_char(0, end),
                unit: value.substring_char(end, s.len()),
            },
        ),
    }
}

} // verus!
