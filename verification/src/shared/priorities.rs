//! The order in which rules apply: a priority for each property, pseudo selector
//! and at-rule.

use crate::number::JsNumber;
use crate::text::{
    alnum, at_pos, char_at, char_count, chars_of, contains, has_char, has_prefix, is_alnum,
    is_js_space, is_letter, is_listed, js_space, letter, listed, next_char, piece, rank, ranked,
    stands_at, starts_with, texts,
};
use vstd::prelude::*;

verus! {

/// The priorities of pseudo-classes.
pub const PSEUDO_CLASSES: [(&'static str, u64); 53] = [
    (":is", 40),
    (":where", 40),
    (":not", 40),
    (":has", 45),
    (":dir", 50),
    (":lang", 51),
    (":first-child", 52),
    (":first-of-type", 53),
    (":last-child", 54),
    (":last-of-type", 55),
    (":only-child", 56),
    (":only-of-type", 57),
    (":nth-child", 60),
    (":nth-last-child", 61),
    (":nth-of-type", 62),
    (":nth-last-of-type", 63),
    (":empty", 70),
    (":link", 80),
    (":any-link", 81),
    (":local-link", 82),
    (":target-within", 83),
    (":target", 84),
    (":visited", 85),
    (":enabled", 91),
    (":disabled", 92),
    (":required", 93),
    (":optional", 94),
    (":read-only", 95),
    (":read-write", 96),
    (":placeholder-shown", 97),
    (":in-range", 98),
    (":out-of-range", 99),
    (":default", 100),
    (":checked", 101),
    (":indeterminate", 101),
    (":blank", 102),
    (":valid", 103),
    (":invalid", 104),
    (":user-invalid", 105),
    (":autofill", 110),
    (":picture-in-picture", 120),
    (":modal", 121),
    (":fullscreen", 122),
    (":paused", 123),
    (":playing", 124),
    (":current", 125),
    (":past", 126),
    (":future", 127),
    (":hover", 130),
    (":focusWithin", 140),
    (":focus", 150),
    (":focusVisible", 160),
    (":active", 170),
];

/// Shorthands of shorthands.
pub const SHORTHANDS_OF_SHORTHANDS: [&'static str; 15] = [
    "animation",
    "background",
    "border",
    "border-block",
    "border-inline",
    "margin",
    "padding",
    "font",
    "grid",
    "grid-template",
    "grid-area",
    "all",
    "inset",
    "scroll-margin",
    "scroll-padding",
];

/// Shorthands of longhands.
pub const SHORTHANDS_OF_LONGHANDS: [&'static str; 58] = [
    "animation-range",
    "scroll-timeline",
    "view-timeline",
    "background-position",
    "border-color",
    "border-style",
    "border-width",
    "border-block-start",
    "border-top",
    "border-block-end",
    "border-bottom",
    "border-inline-color",
    "border-inline-style",
    "border-inline-width",
    "border-inline-start",
    "border-left",
    "border-inline-end",
    "border-right",
    "border-image",
    "border-radius",
    "corner-shape",
    "caret",
    "outline",
    "grid-gap",
    "gap",
    "place-content",
    "place-items",
    "place-self",
    "margin-block",
    "margin-inline",
    "overscroll-behavior",
    "padding-block",
    "padding-inline",
    "columns",
    "column-rule",
    "contain-intrinsic-size",
    "container",
    "flex",
    "flex-flow",
    "font-variant",
    "grid-template-areas",
    "grid-row",
    "grid-column",
    "list-style",
    "mask",
    "mask-border",
    "offset",
    "overflow",
    "inset-block",
    "inset-inline",
    "scroll-margin-block",
    "scroll-margin-inline",
    "scroll-padding-block",
    "scroll-padding-inline",
    "scroll-snap-type",
    "text-decoration",
    "text-emphasis",
    "transition",
];

/// Longhands that name a side or an axis of the page.
pub const PHYSICAL_LONGHANDS: [&'static str; 50] = [
    "border-top-color",
    "border-top-style",
    "border-top-width",
    "border-bottom-color",
    "border-bottom-style",
    "border-bottom-width",
    "border-left-color",
    "border-left-style",
    "border-left-width",
    "border-right-color",
    "border-right-style",
    "border-right-width",
    "border-top-left-radius",
    "border-top-right-radius",
    "border-bottom-left-radius",
    "border-bottom-right-radius",
    "corner-top-left-shape",
    "corner-top-right-shape",
    "corner-bottom-left-shape",
    "corner-bottom-right-shape",
    "height",
    "width",
    "max-height",
    "max-width",
    "min-height",
    "min-width",
    "margin-top",
    "margin-bottom",
    "margin-left",
    "margin-right",
    "overscroll-behavior-y",
    "overscroll-behavior-x",
    "padding-top",
    "padding-bottom",
    "padding-left",
    "padding-right",
    "overflow-y",
    "overflow-x",
    "top",
    "bottom",
    "left",
    "right",
    "scroll-margin-top",
    "scroll-margin-bottom",
    "scroll-margin-left",
    "scroll-margin-right",
    "scroll-padding-top",
    "scroll-padding-bottom",
    "scroll-padding-left",
    "scroll-padding-right",
];

/// The priority of a pseudo-class that the table does not name.
pub const OTHER_PSEUDO_CLASS: u64 = 40;

/// The priority of a pseudo-element.
pub const PSEUDO_ELEMENT: u64 = 5000;

/// The priority of a pseudo-class.
pub open spec fn class_rank(p: Seq<char>) -> u64 {
    match ranked(p, PSEUDO_CLASSES@) {
        Some(n) => n,
        None => OTHER_PSEUDO_CLASS,
    }
}

fn class_rank_of(p: &str) -> (r: u64)
    ensures
        r == class_rank(p@),
{
    match rank(p, &PSEUDO_CLASSES) {
        Some(n) => n,
        None => OTHER_PSEUDO_CLASS,
    }
}

/// The priority of a custom property or an at-rule.
pub open spec fn at_rule_rank(key: Seq<char>) -> Option<u64> {
    if has_prefix(key, "--"@) {
        Some(1)
    } else if has_prefix(key, "@supports"@) {
        Some(30)
    } else if has_prefix(key, "@media"@) {
        Some(200)
    } else if has_prefix(key, "@container"@) {
        Some(300)
    } else {
        None
    }
}

fn at_rule_priority(key: &str) -> (r: Option<u64>)
    ensures
        r == at_rule_rank(key@),
{
    if starts_with(key, "--") {
        Some(1)
    } else if starts_with(key, "@supports") {
        Some(30)
    } else if starts_with(key, "@media") {
        Some(200)
    } else if starts_with(key, "@container") {
        Some(300)
    } else {
        None
    }
}

/// Whether a character may stand in the name of a pseudo selector.
pub open spec fn pseudo_char(c: char) -> bool {
    letter(c) || c == '-'
}

/// The first position at or after `i` that is not in the name of a pseudo selector.
pub open spec fn name_end(s: Seq<char>, i: int) -> int
    decreases s.len() - i,
{
    if 0 <= i < s.len() && pseudo_char(s[i]) {
        name_end(s, i + 1)
    } else {
        i
    }
}

fn skip_name(s: &[char], from: usize) -> (r: usize)
    requires
        from <= s@.len(),
    ensures
        r == name_end(s@, from as int),
        from <= r <= s@.len(),
{
    let mut i: usize = from;
    while i < s.len() && (is_letter(s[i]) || s[i] == '-')
        invariant
            from <= i <= s@.len(),
            name_end(s@, from as int) == name_end(s@, i as int),
        decreases s@.len() - i,
    {
        i += 1;
    }
    i
}

/// The end of the pseudo selector whose colon stands at `i`, if one stands there:
/// a name behind two colons, or a name behind one with brackets or without.
pub open spec fn part_end(s: Seq<char>, i: int) -> Option<int> {
    if char_at(s, i + 1, ':') {
        let j = name_end(s, i + 2);
        if j > i + 2 {
            Some(j)
        } else {
            None
        }
    } else {
        let j = name_end(s, i + 1);
        if j <= i + 1 {
            None
        } else if char_at(s, j, '(') && next_char(s, ')', j + 1) < s.len() {
            Some(next_char(s, ')', j + 1) + 1)
        } else {
            Some(j)
        }
    }
}

fn pseudo_part_end(s: &[char], i: usize) -> (r: Option<usize>)
    requires
        i < s@.len(),
    ensures
        r is Some == part_end(s@, i as int) is Some,
        r is Some ==> r->0 == part_end(s@, i as int)->0 && i < r->0 <= s@.len(),
{
    let n: usize = char_count(s);
    if has_char(s, i + 1, ':') {
        let j: usize = skip_name(s, i + 2);
        return if j > i + 2 {
            Some(j)
        } else {
            None
        };
    }
    let j: usize = skip_name(s, i + 1);
    if j <= i + 1 {
        return None;
    }
    if has_char(s, j, '(') {
        let close: usize = crate::text::find_char(s, ')', j + 1);
        if close < s.len() {
            return Some(close + 1);
        }
    }
    Some(j)
}

/// The pseudo selectors of a key from `i` on.
pub open spec fn parts_from(s: Seq<char>, i: int) -> Seq<Seq<char>>
    decreases s.len() - i,
{
    if i < 0 || i >= s.len() {
        Seq::empty()
    } else {
        match part_end(s, i) {
            Some(end) => if s[i] == ':' && i < end <= s.len() {
                seq![s.subrange(i, end)] + parts_from(s, end)
            } else {
                parts_from(s, i + 1)
            },
            None => parts_from(s, i + 1),
        }
    }
}

fn pseudo_parts(s: &[char]) -> (r: Vec<String>)
    ensures
        texts(r@) == parts_from(s@, 0),
{
    let mut out: Vec<String> = Vec::new();
    let mut i: usize = 0;
    proof {
        assert(texts(out@) + parts_from(s@, 0) =~= parts_from(s@, 0));
    }
    while i < s.len()
        invariant
            i <= s@.len(),
            texts(out@) + parts_from(s@, i as int) == parts_from(s@, 0),
        decreases s@.len() - i,
    {
        let ghost before = texts(out@);
        if s[i] == ':' {
            if let Some(end) = pseudo_part_end(s, i) {
                out.push(piece(s, i, end));
                proof {
                    assert(texts(out@) =~= before.push(s@.subrange(i as int, end as int)));
                    assert(texts(out@) + parts_from(s@, end as int) =~= before + parts_from(
                        s@,
                        i as int,
                    ));
                }
                i = end;
                continue ;
            }
        }
        i += 1;
    }
    proof {
        assert(texts(out@) + parts_from(s@, i as int) =~= texts(out@));
    }
    out
}

/// The priority of one pseudo selector of a chain.
pub open spec fn part_rank(p: Seq<char>) -> u64 {
    if has_prefix(p, "::"@) {
        PSEUDO_ELEMENT
    } else {
        class_rank(p)
    }
}

/// The sum of the priorities of the first `k` pseudo selectors.
pub open spec fn parts_sum(parts: Seq<Seq<char>>, k: int) -> JsNumber
    decreases k,
{
    if k <= 0 {
        JsNumber::natural(0)
    } else {
        parts_sum(parts, k - 1).plus_spec(JsNumber::natural(part_rank(parts[k - 1]) as nat))
    }
}

/// The priority of a chain of pseudo selectors without brackets.
pub open spec fn chain_priority(key: Seq<char>) -> Option<JsNumber> {
    let parts = parts_from(key, 0);
    if parts.len() <= 1 || (exists|i: int|
        0 <= i < parts.len() && crate::text::has_part(#[trigger] parts[i], "("@)) {
        None
    } else {
        Some(parts_sum(parts, parts.len() as int))
    }
}

fn compound_pseudo_priority(key: &[char]) -> (r: Option<JsNumber>)
    ensures
        r == chain_priority(key@),
{
    let parts = pseudo_parts(key);
    let ghost all = texts(parts@);
    if parts.len() <= 1 {
        return None;
    }
    let mut i: usize = 0;
    while i < parts.len()
        invariant
            all == texts(parts@),
            all == parts_from(key@, 0),
            i <= parts@.len(),
            forall|j: int| 0 <= j < i ==> !crate::text::has_part(#[trigger] all[j], "("@),
        decreases parts@.len() - i,
    {
        assert(all[i as int] == parts@[i as int]@);
        if contains(parts[i].as_str(), "(") {
            return None;
        }
        i += 1;
    }
    let mut total = JsNumber::from_int(0);
    i = 0;
    while i < parts.len()
        invariant
            all == texts(parts@),
            i <= parts@.len(),
            total == parts_sum(all, i as int),
        decreases parts@.len() - i,
    {
        assert(all[i as int] == parts@[i as int]@);
        let own: u64 = if starts_with(parts[i].as_str(), "::") {
            PSEUDO_ELEMENT
        } else {
            class_rank_of(parts[i].as_str())
        };
        total = total.plus(JsNumber::from_int(own));
        i += 1;
    }
    Some(total)
}

/// The position behind `t` where it stands at `i`; -1 where it does not.
pub open spec fn after_text(s: Seq<char>, i: int, t: Seq<char>) -> int {
    if i >= 0 && at_pos(s, t, i) {
        i + t.len()
    } else {
        -1
    }
}

/// Whether a character may stand in the name of a class.
pub open spec fn marker_char(c: char) -> bool {
    alnum(c) || c == '_' || c == '-'
}

/// The first position at or after `i` that is not in the name of a class.
pub open spec fn marker_end(s: Seq<char>, i: int) -> int
    decreases s.len() - i,
{
    if 0 <= i < s.len() && marker_char(s[i]) {
        marker_end(s, i + 1)
    } else {
        i
    }
}

/// The position behind the class that stands at `i`; -1 where none does.
pub open spec fn after_class(s: Seq<char>, i: int) -> int {
    if i >= 0 && char_at(s, i, '.') && marker_end(s, i + 1) > i + 1 {
        marker_end(s, i + 1)
    } else {
        -1
    }
}

/// The position behind the plain pseudo-class that stands at `i`; -1 where none
/// does.
pub open spec fn after_pseudo(s: Seq<char>, i: int) -> int {
    if i >= 0 && char_at(s, i, ':') && name_end(s, i + 1) > i + 1 {
        name_end(s, i + 1)
    } else {
        -1
    }
}

/// The first position at or after `i` that holds no white space.
pub open spec fn space_end(s: Seq<char>, i: int) -> int
    decreases s.len() - i,
{
    if 0 <= i < s.len() && js_space(s[i]) {
        space_end(s, i + 1)
    } else {
        i
    }
}

/// The position behind the white space that stands at `i`; -1 where none does.
pub open spec fn after_space(s: Seq<char>, i: int) -> int {
    if i >= 0 && space_end(s, i) > i {
        space_end(s, i)
    } else {
        -1
    }
}

/// The position behind the one white space character that stands at `i`; -1 where
/// none does.
pub open spec fn after_one_space(s: Seq<char>, i: int) -> int {
    if 0 <= i < s.len() && js_space(s[i]) {
        i + 1
    } else {
        -1
    }
}

/// How a rule looks at another element.
#[derive(Debug, Clone, Copy, PartialEq, Eq, Structural)]
pub enum Relational {
    Ancestor,
    Descendant,
    SiblingBefore,
    SiblingAfter,
    AnySibling,
}

/// The pseudo-class or classes of a key that looks at another element in the given
/// way, if it does: the second is that of the later sibling.
pub open spec fn relational(s: Seq<char>, shape: Relational) -> Option<
    (Seq<char>, Option<Seq<char>>),
> {
    let open = after_text(s, 0, ":where("@);
    match shape {
        Relational::Ancestor => {
            let c = after_class(s, open);
            let p = after_pseudo(s, c);
            if p >= 0 && after_text(s, after_space(s, p), "*)"@) == s.len() {
                Some((s.subrange(c, p), None))
            } else {
                None
            }
        },
        Relational::Descendant => {
            let c = after_class(s, after_text(s, open, ":has("@));
            let p = after_pseudo(s, c);
            if p >= 0 && after_text(s, p, "))"@) == s.len() {
                Some((s.subrange(c, p), None))
            } else {
                None
            }
        },
        Relational::SiblingBefore => {
            let c = after_class(s, open);
            let p = after_pseudo(s, c);
            let tilde = after_text(s, after_space(s, p), "~"@);
            if p >= 0 && after_text(s, after_space(s, tilde), "*)"@) == s.len() {
                Some((s.subrange(c, p), None))
            } else {
                None
            }
        },
        Relational::SiblingAfter => {
            let c = after_class(s, after_one_space(s, after_text(s, open, ":has(~"@)));
            let p = after_pseudo(s, c);
            if p >= 0 && after_text(s, p, "))"@) == s.len() {
                Some((s.subrange(c, p), None))
            } else {
                None
            }
        },
        Relational::AnySibling => {
            let c = after_class(s, open);
            let p = after_pseudo(s, c);
            let tilde = after_text(s, after_space(s, p), "~"@);
            let star = after_text(s, after_space(s, tilde), "*,"@);
            let has = after_text(s, after_space(s, star), ":has(~"@);
            let c2 = after_class(s, after_one_space(s, has));
            let p2 = after_pseudo(s, c2);
            if p >= 0 && p2 >= 0 && after_text(s, p2, "))"@) == s.len() {
                Some((s.subrange(c, p), Some(s.subrange(c2, p2))))
            } else {
                None
            }
        },
    }
}

/// The view of an optional position.
pub open spec fn place(o: Option<usize>) -> int {
    match o {
        Some(i) => i as int,
        None => -1,
    }
}

fn lit(s: &[char], at: Option<usize>, t: &str) -> (r: Option<usize>)
    ensures
        place(r) == after_text(s@, place(at), t@),
        r is Some ==> r->0 <= s@.len(),
{
    match at {
        None => None,
        Some(i) => {
            let p = chars_of(t);
            let n: usize = s.len();
            if stands_at(s, &p, i) {
                Some(i + p.len())
            } else {
                None
            }
        },
    }
}

fn class_name(s: &[char], at: Option<usize>) -> (r: Option<usize>)
    ensures
        place(r) == after_class(s@, place(at)),
        r is Some ==> r->0 <= s@.len(),
{
    let start: usize = match at {
        None => {
            return None;
        },
        Some(i) => i,
    };
    let n: usize = s.len();
    if !has_char(s, start, '.') {
        return None;
    }
    let mut i: usize = start + 1;
    while i < s.len() && (is_alnum(s[i]) || s[i] == '_' || s[i] == '-')
        invariant
            start + 1 <= i <= s@.len(),
            marker_end(s@, start + 1) == marker_end(s@, i as int),
        decreases s@.len() - i,
    {
        i += 1;
    }
    if i > start + 1 {
        Some(i)
    } else {
        None
    }
}

fn pseudo_capture(s: &[char], at: Option<usize>) -> (r: Option<usize>)
    ensures
        place(r) == after_pseudo(s@, place(at)),
        r is Some ==> at is Some && at->0 < r->0 <= s@.len(),
{
    let start: usize = match at {
        None => {
            return None;
        },
        Some(i) => i,
    };
    let n: usize = s.len();
    if !has_char(s, start, ':') {
        return None;
    }
    let end: usize = skip_name(s, start + 1);
    if end > start + 1 {
        Some(end)
    } else {
        None
    }
}

fn spaces(s: &[char], at: Option<usize>) -> (r: Option<usize>)
    ensures
        place(r) == after_space(s@, place(at)),
{
    let start: usize = match at {
        None => {
            return None;
        },
        Some(i) => i,
    };
    let mut i: usize = start;
    while i < s.len() && is_js_space(s[i])
        invariant
            start <= i,
            start <= s@.len() ==> i <= s@.len(),
            start > s@.len() ==> i == start,
            space_end(s@, start as int) == space_end(s@, i as int),
        decreases s@.len() - i,
    {
        i += 1;
    }
    if i > start {
        Some(i)
    } else {
        None
    }
}

fn one_space(s: &[char], at: Option<usize>) -> (r: Option<usize>)
    ensures
        place(r) == after_one_space(s@, place(at)),
{
    match at {
        None => None,
        Some(i) => {
            if i < s.len() && is_js_space(s[i]) {
                Some(i + 1)
            } else {
                None
            }
        },
    }
}

fn ends(s: &[char], at: Option<usize>) -> (r: bool)
    ensures
        r == (place(at) == s@.len()),
{
    match at {
        None => false,
        Some(i) => i == s.len(),
    }
}

/// The view of what a key looks at.
pub open spec fn looks(o: Option<(String, Option<String>)>) -> Option<
    (Seq<char>, Option<Seq<char>>),
> {
    match o {
        Some(p) => Some(
            (
                p.0@,
                match p.1 {
                    Some(q) => Some(q@),
                    None => None,
                },
            ),
        ),
        None => None,
    }
}

fn match_relational(s: &[char], shape: Relational) -> (r: Option<(String, Option<String>)>)
    ensures
        looks(r) == relational(s@, shape),
{
    let open = lit(s, Some(0), ":where(");
    match shape {
        Relational::Ancestor => {
            let c = class_name(s, open);
            let p = pseudo_capture(s, c);
            if let (Some(a), Some(b)) = (c, p) {
                if ends(s, lit(s, spaces(s, p), "*)")) {
                    return Some((piece(s, a, b), None));
                }
            }
            None
        },
        Relational::Descendant => {
            let c = class_name(s, lit(s, open, ":has("));
            let p = pseudo_capture(s, c);
            if let (Some(a), Some(b)) = (c, p) {
                if ends(s, lit(s, p, "))")) {
                    return Some((piece(s, a, b), None));
                }
            }
            None
        },
        Relational::SiblingBefore => {
            let c = class_name(s, open);
            let p = pseudo_capture(s, c);
            let tilde = lit(s, spaces(s, p), "~");
            if let (Some(a), Some(b)) = (c, p) {
                if ends(s, lit(s, spaces(s, tilde), "*)")) {
                    return Some((piece(s, a, b), None));
                }
            }
            None
        },
        Relational::SiblingAfter => {
            let c = class_name(s, one_space(s, lit(s, open, ":has(~")));
            let p = pseudo_capture(s, c);
            if let (Some(a), Some(b)) = (c, p) {
                if ends(s, lit(s, p, "))")) {
                    return Some((piece(s, a, b), None));
                }
            }
            None
        },
        Relational::AnySibling => {
            let c = class_name(s, open);
            let p = pseudo_capture(s, c);
            let tilde = lit(s, spaces(s, p), "~");
            let star = lit(s, spaces(s, tilde), "*,");
            let has = lit(s, spaces(s, star), ":has(~");
            let c2 = class_name(s, one_space(s, has));
            let p2 = pseudo_capture(s, c2);
            if let (Some(a), Some(b)) = (c, p) {
                if let (Some(a2), Some(b2)) = (c2, p2) {
                    if ends(s, lit(s, p2, "))")) {
                        return Some((piece(s, a, b), Some(piece(s, a2, b2))));
                    }
                }
            }
            None
        },
    }
}

/// A hundredth of the priority of a pseudo-class.
pub open spec fn class_part(p: Seq<char>) -> JsNumber {
    JsNumber::natural(class_rank(p) as nat).over_spec(100)
}

/// The larger of two numbers.
pub open spec fn larger(a: JsNumber, b: JsNumber) -> JsNumber {
    if a.below(b) {
        b
    } else {
        a
    }
}

/// The pseudo-class of a key that looks at another element in the given way.
pub open spec fn seen_class(s: Seq<char>, shape: Relational) -> Seq<char> {
    match relational(s, shape) {
        Some(p) => p.0,
        None => Seq::empty(),
    }
}

/// The priority of a key that looks at another element, if it does.
pub open spec fn relational_priority(s: Seq<char>) -> Option<JsNumber> {
    if relational(s, Relational::Ancestor) is Some {
        Some(JsNumber::natural(10).plus_spec(class_part(seen_class(s, Relational::Ancestor))))
    } else if relational(s, Relational::Descendant) is Some {
        Some(JsNumber::natural(15).plus_spec(class_part(seen_class(s, Relational::Descendant))))
    } else if relational(s, Relational::AnySibling) is Some {
        let p = relational(s, Relational::AnySibling)->0;
        Some(
            JsNumber::natural(20).plus_spec(
                larger(
                    class_part(p.0),
                    class_part(
                        match p.1 {
                            Some(q) => q,
                            None => p.0,
                        },
                    ),
                ),
            ),
        )
    } else if relational(s, Relational::SiblingBefore) is Some {
        Some(JsNumber::natural(30).plus_spec(class_part(seen_class(s, Relational::SiblingBefore))))
    } else if relational(s, Relational::SiblingAfter) is Some {
        Some(JsNumber::natural(40).plus_spec(class_part(seen_class(s, Relational::SiblingAfter))))
    } else {
        None
    }
}

fn part_of(p: &str) -> (r: JsNumber)
    ensures
        r == class_part(p@),
{
    JsNumber::from_int(class_rank_of(p)).over(100)
}

fn find_relational_priority(s: &[char]) -> (r: Option<JsNumber>)
    ensures
        r == relational_priority(s@),
{
    if let Some(p) = match_relational(s, Relational::Ancestor) {
        return Some(JsNumber::from_int(10).plus(part_of(p.0.as_str())));
    }
    if let Some(p) = match_relational(s, Relational::Descendant) {
        return Some(JsNumber::from_int(15).plus(part_of(p.0.as_str())));
    }
    if let Some(p) = match_relational(s, Relational::AnySibling) {
        let a = part_of(p.0.as_str());
        let b = match &p.1 {
            Some(q) => part_of(q.as_str()),
            None => part_of(p.0.as_str()),
        };
        let m = if a.less(b) {
            b
        } else {
            a
        };
        return Some(JsNumber::from_int(20).plus(m));
    }
    if let Some(p) = match_relational(s, Relational::SiblingBefore) {
        return Some(JsNumber::from_int(30).plus(part_of(p.0.as_str())));
    }
    if let Some(p) = match_relational(s, Relational::SiblingAfter) {
        return Some(JsNumber::from_int(40).plus(part_of(p.0.as_str())));
    }
    None
}

/// The key up to its first opening bracket.
pub open spec fn before_bracket(s: Seq<char>) -> Seq<char> {
    s.take(next_char(s, '(', 0))
}

/// The priority of a property.
pub open spec fn property_rank(key: Seq<char>) -> u64 {
    if listed(key, SHORTHANDS_OF_SHORTHANDS@) {
        1000
    } else if listed(key, SHORTHANDS_OF_LONGHANDS@) {
        2000
    } else if listed(key, PHYSICAL_LONGHANDS@) {
        4000
    } else {
        3000
    }
}

/// The priority of a property, a pseudo selector or an at-rule.
pub open spec fn priority(key: Seq<char>) -> JsNumber {
    if at_rule_rank(key) is Some {
        JsNumber::natural(at_rule_rank(key)->0 as nat)
    } else if chain_priority(key) is Some {
        chain_priority(key)->0
    } else if has_prefix(key, "::"@) {
        JsNumber::natural(PSEUDO_ELEMENT as nat)
    } else if has_prefix(key, ":"@) {
        match relational_priority(key) {
            Some(p) => p,
            None => JsNumber::natural(class_rank(before_bracket(key)) as nat),
        }
    } else {
        JsNumber::natural(property_rank(key) as nat)
    }
}

/// Gives the priority of a property, a pseudo selector or an at-rule.
pub fn get_priority(key: &str) -> (r: JsNumber)
    ensures
        r == priority(key@),
{
    if let Some(p) = at_rule_priority(key) {
        return JsNumber::from_int(p);
    }
    let s = chars_of(key);
    if let Some(p) = compound_pseudo_priority(&s) {
        return p;
    }
    if starts_with(key, "::") {
        return JsNumber::from_int(PSEUDO_ELEMENT);
    }
    if starts_with(key, ":") {
        if let Some(p) = find_relational_priority(&s) {
            return p;
        }
        let end: usize = crate::text::find_char(&s, '(', 0);
        let name = piece(&s, 0, end);
        proof {
            assert(s@.subrange(0, end as int) =~= s@.take(end as int));
        }
        return JsNumber::from_int(class_rank_of(name.as_str()));
    }
    let rank: u64 = if is_listed(key, &SHORTHANDS_OF_SHORTHANDS) {
        1000
    } else if is_listed(key, &SHORTHANDS_OF_LONGHANDS) {
        2000
    } else if is_listed(key, &PHYSICAL_LONGHANDS) {
        4000
    } else {
        3000
    };
    JsNumber::from_int(rank)
}

} // verus!
