//! Declarations for the two writing directions.

use crate::options::{ResolvedOptions, StyleResolution};
use crate::shared::css_value::{
    dimension, models, nodes_text, parse, parse_nodes, stringify, unit, Kind, Node, NodeModel,
};
use crate::text::{
    char_at, chars_of, concat2, has_char, join, join_texts, lookup, paired, piece, split,
    split_at_char, str_eq, texts,
};
use vstd::prelude::*;

verus! {

/// The options that directions depend on.
#[derive(Debug, Clone, Copy, PartialEq, Eq, Structural)]
pub struct RtlContext {
    pub style_resolution: StyleResolution,
    pub enable_logical_styles_polyfill: bool,
    pub enable_legacy_value_flipping: bool,
}

impl RtlContext {
    /// What directions depend on where no options are given.
    pub open spec fn default_context() -> RtlContext {
        RtlContext {
            style_resolution: StyleResolution::PropertySpecificity,
            enable_logical_styles_polyfill: false,
            enable_legacy_value_flipping: false,
        }
    }

    /// What directions depend on where no options are given.
    pub fn defaults() -> (r: RtlContext)
        ensures
            r == RtlContext::default_context(),
    {
        RtlContext {
            style_resolution: StyleResolution::PropertySpecificity,
            enable_logical_styles_polyfill: false,
            enable_legacy_value_flipping: false,
        }
    }

    /// What directions depend on in the options.
    pub open spec fn context_of(options: ResolvedOptions) -> RtlContext {
        RtlContext {
            style_resolution: options.style_resolution,
            enable_logical_styles_polyfill: options.enable_logical_styles_polyfill,
            enable_legacy_value_flipping: options.enable_legacy_value_flipping,
        }
    }

    /// What directions depend on in the options.
    pub fn of(options: &ResolvedOptions) -> (r: RtlContext)
        ensures
            r == RtlContext::context_of(*options),
    {
        RtlContext {
            style_resolution: options.style_resolution,
            enable_logical_styles_polyfill: options.enable_logical_styles_polyfill,
            enable_legacy_value_flipping: options.enable_legacy_value_flipping,
        }
    }

    /// Whether shorthands are expanded the legacy way.
    pub open spec fn legacy(self) -> bool {
        self.style_resolution == StyleResolution::LegacyExpandShorthands
    }

    fn is_legacy(self) -> (r: bool)
        ensures
            r == self.legacy(),
    {
        match self.style_resolution {
            StyleResolution::LegacyExpandShorthands => true,
            _ => false,
        }
    }
}

/// Values of `float` and `clear` from left to right.
pub const LTR_VALUES: [(&'static str, &'static str); 4] = [
    ("start", "left"),
    ("inline-start", "left"),
    ("end", "right"),
    ("inline-end", "right"),
];

/// Values of `float` and `clear` from right to left.
pub const RTL_VALUES: [(&'static str, &'static str); 4] = [
    ("start", "right"),
    ("inline-start", "right"),
    ("end", "left"),
    ("inline-end", "left"),
];

/// Properties with a start and an end, from left to right.
pub const LTR_PROPERTIES: [(&'static str, &'static str); 18] = [
    ("margin-start", "margin-left"),
    ("margin-end", "margin-right"),
    ("padding-start", "padding-left"),
    ("padding-end", "padding-right"),
    ("border-start", "border-left"),
    ("border-end", "border-right"),
    ("border-start-width", "border-left-width"),
    ("border-end-width", "border-right-width"),
    ("border-start-color", "border-left-color"),
    ("border-end-color", "border-right-color"),
    ("border-start-style", "border-left-style"),
    ("border-end-style", "border-right-style"),
    ("border-top-start-radius", "border-top-left-radius"),
    ("border-bottom-start-radius", "border-bottom-left-radius"),
    ("border-top-end-radius", "border-top-right-radius"),
    ("border-bottom-end-radius", "border-bottom-right-radius"),
    ("start", "left"),
    ("end", "right"),
];

/// Properties with a start and an end, from right to left.
pub const RTL_PROPERTIES: [(&'static str, &'static str); 18] = [
    ("margin-start", "margin-right"),
    ("margin-end", "margin-left"),
    ("padding-start", "padding-right"),
    ("padding-end", "padding-left"),
    ("border-start", "border-right"),
    ("border-end", "border-left"),
    ("border-start-width", "border-right-width"),
    ("border-end-width", "border-left-width"),
    ("border-start-color", "border-right-color"),
    ("border-end-color", "border-left-color"),
    ("border-start-style", "border-right-style"),
    ("border-end-style", "border-left-style"),
    ("border-top-start-radius", "border-top-right-radius"),
    ("border-bottom-start-radius", "border-bottom-right-radius"),
    ("border-top-end-radius", "border-top-left-radius"),
    ("border-bottom-end-radius", "border-bottom-left-radius"),
    ("start", "right"),
    ("end", "left"),
];

/// Logical properties from left to right.
pub const INLINE_LTR_PROPERTIES: [(&'static str, &'static str); 18] = [
    ("margin-inline-start", "margin-left"),
    ("margin-inline-end", "margin-right"),
    ("padding-inline-start", "padding-left"),
    ("padding-inline-end", "padding-right"),
    ("border-inline-start", "border-left"),
    ("border-inline-end", "border-right"),
    ("border-inline-start-width", "border-left-width"),
    ("border-inline-end-width", "border-right-width"),
    ("border-inline-start-color", "border-left-color"),
    ("border-inline-end-color", "border-right-color"),
    ("border-inline-start-style", "border-left-style"),
    ("border-inline-end-style", "border-right-style"),
    ("border-start-start-radius", "border-top-left-radius"),
    ("border-start-end-radius", "border-top-right-radius"),
    ("border-end-start-radius", "border-bottom-left-radius"),
    ("border-end-end-radius", "border-bottom-right-radius"),
    ("inset-inline-start", "left"),
    ("inset-inline-end", "right"),
];

/// Logical properties from right to left.
pub const INLINE_RTL_PROPERTIES: [(&'static str, &'static str); 18] = [
    ("margin-inline-start", "margin-right"),
    ("margin-inline-end", "margin-left"),
    ("padding-inline-start", "padding-right"),
    ("padding-inline-end", "padding-left"),
    ("border-inline-start", "border-right"),
    ("border-inline-end", "border-left"),
    ("border-inline-start-width", "border-right-width"),
    ("border-inline-end-width", "border-left-width"),
    ("border-inline-start-color", "border-right-color"),
    ("border-inline-end-color", "border-left-color"),
    ("border-inline-start-style", "border-right-style"),
    ("border-inline-end-style", "border-left-style"),
    ("border-start-start-radius", "border-top-right-radius"),
    ("border-start-end-radius", "border-top-left-radius"),
    ("border-end-start-radius", "border-bottom-right-radius"),
    ("border-end-end-radius", "border-bottom-left-radius"),
    ("inset-inline-start", "right"),
    ("inset-inline-end", "left"),
];

/// Cursors that point the other way from right to left.
pub const CURSOR_FLIPS: [(&'static str, &'static str); 8] = [
    ("e-resize", "w-resize"),
    ("w-resize", "e-resize"),
    ("ne-resize", "nw-resize"),
    ("nw-resize", "ne-resize"),
    ("se-resize", "sw-resize"),
    ("sw-resize", "se-resize"),
    ("nesw-resize", "nwse-resize"),
    ("nwse-resize", "nesw-resize"),
];

/// One word of a background position, with the sides named.
pub open spec fn position_word(word: Seq<char>, start: Seq<char>, end: Seq<char>) -> Seq<char> {
    if word == "start"@ || word == "insetInlineStart"@ {
        start
    } else if word == "end"@ || word == "insetInlineEnd"@ {
        end
    } else {
        word
    }
}

/// A background position with the sides named.
pub open spec fn position_text(value: Seq<char>, start: Seq<char>, end: Seq<char>) -> Seq<char> {
    let words = split_at_char(value, ' ');
    join_texts(Seq::new(words.len(), |i: int| position_word(words[i], start, end)), " "@)
}

fn map_background_position(value: &str, start_to: &str, end_to: &str) -> (r: String)
    ensures
        r@ == position_text(value@, start_to@, end_to@),
{
    let words = split(value, ' ');
    let ghost all = texts(words@);
    let mut out: Vec<String> = Vec::new();
    let mut i: usize = 0;
    while i < words.len()
        invariant
            i <= words@.len(),
            all == texts(words@),
            out@.len() == i,
            forall|j: int|
                0 <= j < i ==> (#[trigger] out@[j])@ == position_word(all[j], start_to@, end_to@),
        decreases words@.len() - i,
    {
        let word = words[i].as_str();
        assert(word@ == all[i as int]);
        if str_eq(word, "start") || str_eq(word, "insetInlineStart") {
            out.push(start_to.to_owned());
        } else if str_eq(word, "end") || str_eq(word, "insetInlineEnd") {
            out.push(end_to.to_owned());
        } else {
            out.push(word.to_owned());
        }
        i += 1;
    }
    proof {
        assert(texts(out@) =~= Seq::new(
            all.len(),
            |i: int| position_word(all[i], start_to@, end_to@),
        ));
    }
    join(&out, " ")
}

/// The text of the first entry of a table for a value, or the value itself.
pub open spec fn mapped_or(v: Option<Seq<char>>, value: Seq<char>) -> Seq<char> {
    match v {
        Some(m) => m,
        None => value,
    }
}

/// The declaration from left to right.
pub open spec fn ltr_pair(key: Seq<char>, value: Seq<char>, ctx: RtlContext) -> (
    Seq<char>,
    Seq<char>,
) {
    if ctx.legacy() && !ctx.enable_logical_styles_polyfill {
        (key, value)
    } else if ctx.legacy() && paired(key, INLINE_LTR_PROPERTIES@) is Some {
        (paired(key, INLINE_LTR_PROPERTIES@)->0, value)
    } else if paired(key, LTR_PROPERTIES@) is Some {
        (paired(key, LTR_PROPERTIES@)->0, value)
    } else if key == "float"@ || key == "clear"@ {
        (key, mapped_or(paired(value, LTR_VALUES@), value))
    } else if key == "background-position"@ {
        (key, position_text(value, "left"@, "right"@))
    } else {
        (key, value)
    }
}

/// Gives the declaration from left to right.
pub fn generate_ltr(key: &str, value: &str, ctx: RtlContext) -> (r: (String, String))
    ensures
        (r.0@, r.1@) == ltr_pair(key@, value@, ctx),
{
    if ctx.is_legacy() {
        if !ctx.enable_logical_styles_polyfill {
            return (key.to_owned(), value.to_owned());
        }
        if let Some(mapped) = lookup(key, &INLINE_LTR_PROPERTIES) {
            return (mapped.to_owned(), value.to_owned());
        }
    }
    if let Some(mapped) = lookup(key, &LTR_PROPERTIES) {
        return (mapped.to_owned(), value.to_owned());
    }
    if str_eq(key, "float") || str_eq(key, "clear") {
        return match lookup(value, &LTR_VALUES) {
            Some(mapped) => (key.to_owned(), mapped.to_owned()),
            None => (key.to_owned(), value.to_owned()),
        };
    }
    if str_eq(key, "background-position") {
        return (key.to_owned(), map_background_position(value, "left", "right"));
    }
    (key.to_owned(), value.to_owned())
}

/// The top-level parts of a value between its dividers from `i` on, where `cur`
/// are the nodes of the part that is open.
pub open spec fn groups_from(nodes: Seq<NodeModel>, i: int, cur: Seq<NodeModel>) -> Seq<Seq<char>>
    decreases nodes.len() - i,
{
    if i < 0 || i >= nodes.len() {
        if cur.len() > 0 {
            seq![nodes_text(cur)]
        } else {
            Seq::empty()
        }
    } else if nodes[i].kind == Kind::Div {
        if cur.len() > 0 {
            seq![nodes_text(cur)] + groups_from(nodes, i + 1, Seq::empty())
        } else {
            groups_from(nodes, i + 1, Seq::empty())
        }
    } else {
        groups_from(nodes, i + 1, cur.push(nodes[i]))
    }
}

/// The parts of a value between its dividers; empty ones are left out.
pub open spec fn divided(value: Seq<char>) -> Seq<Seq<char>> {
    groups_from(parse_nodes(value), 0, Seq::empty())
}

fn split_by_divisor(value: &str) -> (r: Vec<String>)
    ensures
        texts(r@) == divided(value@),
{
    let mut groups: Vec<String> = Vec::new();
    let mut current: Vec<Node> = Vec::new();
    let nodes = parse(value);
    let ghost all = models(nodes@);
    let mut i: usize = 0;
    proof {
        assert(models(current@) =~= Seq::<NodeModel>::empty());
        assert(texts(groups@) + divided(value@) =~= divided(value@));
    }
    while i < nodes.len()
        invariant
            all == models(nodes@),
            i <= nodes@.len(),
            texts(groups@) + groups_from(all, i as int, models(current@)) == divided(value@),
        decreases nodes@.len() - i,
    {
        let ghost done = texts(groups@);
        let ghost cur = models(current@);
        assert(all[i as int] == nodes@[i as int].model());
        if nodes[i].kind == Kind::Div {
            if current.len() > 0 {
                groups.push(stringify(&current));
                proof {
                    assert(texts(groups@) =~= done.push(nodes_text(cur)));
                }
                current = Vec::new();
            }
            proof {
                assert(models(current@) =~= Seq::<NodeModel>::empty());
                assert(texts(groups@) + groups_from(all, i + 1, Seq::empty()) =~= done
                    + groups_from(all, i as int, cur));
            }
        } else {
            current.push(nodes[i].clone());
            proof {
                assert(models(current@) =~= cur.push(all[i as int]));
            }
        }
        i += 1;
    }
    let ghost done = texts(groups@);
    if current.len() > 0 {
        groups.push(stringify(&current));
        proof {
            assert(texts(groups@) =~= done + seq![nodes_text(models(current@))]);
        }
    } else {
        proof {
            assert(models(current@) =~= Seq::<NodeModel>::empty());
            assert(texts(groups@) =~= done + Seq::<Seq<char>>::empty());
        }
    }
    groups
}

/// A length with its sign turned; a bare zero stays.
pub open spec fn sign_turned(part: Seq<char>) -> Seq<char> {
    if part == "0"@ {
        part
    } else if char_at(part, 0, '-') {
        part.skip(1)
    } else {
        "-"@ + part
    }
}

fn flip_sign(part: &str) -> (r: String)
    ensures
        r@ == sign_turned(part@),
{
    if str_eq(part, "0") {
        return part.to_owned();
    }
    let s = chars_of(part);
    if has_char(&s, 0, '-') {
        proof {
            assert(s@.subrange(1, s@.len() as int) =~= s@.skip(1));
        }
        piece(&s, 1, s.len())
    } else {
        concat2("-", part)
    }
}

/// A shadow mirrored: its first length has its sign turned. The first length is
/// the first word, or the second where the first is no number.
pub open spec fn shadow_flipped(def: Seq<char>) -> Seq<char> {
    let parts = split_at_char(def, ' ');
    let i = if dimension(parts[0]) is Some {
        0int
    } else {
        1
    };
    join_texts(
        if i < parts.len() {
            parts.update(i, sign_turned(parts[i]))
        } else {
            parts
        },
        " "@,
    )
}

/// The shadows of a value mirrored, with commas between.
pub open spec fn shadows_flipped(value: Seq<char>) -> Seq<char> {
    let groups = divided(value);
    join_texts(Seq::new(groups.len(), |i: int| shadow_flipped(groups[i])), ","@)
}

fn flip_shadow(value: &str) -> (r: Option<String>)
    ensures
        r is Some == (shadows_flipped(value@) != value@),
        r is Some ==> r->0@ == shadows_flipped(value@),
{
    let groups = split_by_divisor(value);
    let ghost all = texts(groups@);
    let mut out: Vec<String> = Vec::new();
    let mut i: usize = 0;
    while i < groups.len()
        invariant
            i <= groups@.len(),
            all == texts(groups@),
            out@.len() == i,
            forall|j: int| 0 <= j < i ==> (#[trigger] out@[j])@ == shadow_flipped(all[j]),
        decreases groups@.len() - i,
    {
        assert(all[i as int] == groups@[i as int]@);
        let mut parts = split(groups[i].as_str(), ' ');
        let ghost words = texts(parts@);
        proof {
            assert(words[0] == parts@[0]@);
        }
        let index: usize = if unit(parts[0].as_str()).is_some() {
            0
        } else {
            1
        };
        if index < parts.len() {
            let part = parts.remove(index);
            parts.insert(index, flip_sign(part.as_str()));
            proof {
                assert(texts(parts@) =~= words.update(index as int, sign_turned(words[index as int])));
            }
        }
        out.push(join(&parts, " "));
        i += 1;
    }
    proof {
        assert(texts(out@) =~= Seq::new(all.len(), |i: int| shadow_flipped(all[i])));
    }
    let rtl = join(&out, ",");
    if str_eq(rtl.as_str(), value) {
        None
    } else {
        Some(rtl)
    }
}

/// The declaration from right to left, where it differs in kind.
pub open spec fn rtl_pair(key: Seq<char>, value: Seq<char>, ctx: RtlContext) -> Option<
    (Seq<char>, Seq<char>),
> {
    if ctx.legacy() && !ctx.enable_logical_styles_polyfill {
        None
    } else if ctx.legacy() && paired(key, INLINE_RTL_PROPERTIES@) is Some {
        Some((paired(key, INLINE_RTL_PROPERTIES@)->0, value))
    } else if paired(key, RTL_PROPERTIES@) is Some {
        Some((paired(key, RTL_PROPERTIES@)->0, value))
    } else if key == "float"@ || key == "clear"@ {
        match paired(value, RTL_VALUES@) {
            Some(v) => Some((key, v)),
            None => None,
        }
    } else if key == "background-position"@ {
        let words = split_at_char(value, ' ');
        if words.contains("start"@) || words.contains("end"@) {
            Some((key, position_text(value, "right"@, "left"@)))
        } else {
            None
        }
    } else if key == "cursor"@ && ctx.enable_legacy_value_flipping {
        match paired(value, CURSOR_FLIPS@) {
            Some(v) => Some((key, v)),
            None => None,
        }
    } else if (key == "box-shadow"@ || key == "text-shadow"@) && ctx.enable_legacy_value_flipping {
        if shadows_flipped(value) != value {
            Some((key, shadows_flipped(value)))
        } else {
            None
        }
    } else {
        None
    }
}

/// The view of an optional declaration.
pub open spec fn opt_pair(o: Option<(String, String)>) -> Option<(Seq<char>, Seq<char>)> {
    match o {
        Some(p) => Some((p.0@, p.1@)),
        None => None,
    }
}

fn has_word(words: &Vec<String>, word: &str) -> (r: bool)
    ensures
        r == texts(words@).contains(word@),
{
    let mut i: usize = 0;
    while i < words.len()
        invariant
            i <= words@.len(),
            forall|j: int| 0 <= j < i ==> #[trigger] texts(words@)[j] != word@,
        decreases words@.len() - i,
    {
        if str_eq(words[i].as_str(), word) {
            assert(texts(words@)[i as int] == word@);
            return true;
        }
        i += 1;
    }
    false
}

/// Gives the declaration from right to left, where it differs in kind.
pub fn generate_rtl(key: &str, value: &str, ctx: RtlContext) -> (r: Option<(String, String)>)
    ensures
        opt_pair(r) == rtl_pair(key@, value@, ctx),
{
    if ctx.is_legacy() {
        if !ctx.enable_logical_styles_polyfill {
            return None;
        }
        if let Some(mapped) = lookup(key, &INLINE_RTL_PROPERTIES) {
            return Some((mapped.to_owned(), value.to_owned()));
        }
    }
    if let Some(mapped) = lookup(key, &RTL_PROPERTIES) {
        return Some((mapped.to_owned(), value.to_owned()));
    }
    if str_eq(key, "float") || str_eq(key, "clear") {
        return match lookup(value, &RTL_VALUES) {
            Some(mapped) => Some((key.to_owned(), mapped.to_owned())),
            None => None,
        };
    }
    if str_eq(key, "background-position") {
        let words = split(value, ' ');
        if !has_word(&words, "start") && !has_word(&words, "end") {
            return None;
        }
        return Some((key.to_owned(), map_background_position(value, "right", "left")));
    }
    if str_eq(key, "cursor") && ctx.enable_legacy_value_flipping {
        return match lookup(value, &CURSOR_FLIPS) {
            Some(mapped) => Some((key.to_owned(), mapped.to_owned())),
            None => None,
        };
    }
    if (str_eq(key, "box-shadow") || str_eq(key, "text-shadow"))
        && ctx.enable_legacy_value_flipping {
        return match flip_shadow(value) {
            Some(v) => Some((key.to_owned(), v)),
            None => None,
        };
    }
    None
}

/// Without the polyfill, legacy expansion leaves every declaration as it is and
/// gives none from right to left.
pub proof fn legacy_without_polyfill(key: Seq<char>, value: Seq<char>, ctx: RtlContext)
    requires
        ctx.legacy(),
        !ctx.enable_logical_styles_polyfill,
    ensures
        ltr_pair(key, value, ctx) == (key, value),
        rtl_pair(key, value, ctx) is None,
{
}

/// Turning the sign of a length twice gives the length back, unless it begins with
/// two dashes or is a zero behind one.
pub proof fn sign_turned_twice(part: Seq<char>)
    requires
        !(char_at(part, 0, '-') && char_at(part, 1, '-')),
        part != "-0"@,
    ensures
        sign_turned(sign_turned(part)) == part,
{
    reveal_strlit("0");
    reveal_strlit("-");
    reveal_strlit("-0");
    if part != "0"@ {
        if char_at(part, 0, '-') {
            let rest = part.skip(1);
            if rest == "0"@ {
                assert("0"@.len() == 1);
                assert(rest.len() == part.len() - 1);
                assert(rest[0] == '0');
                assert(part =~= "-0"@);
            }
            assert(!char_at(rest, 0, '-'));
            assert("-"@ + rest =~= part);
        } else {
            let turned = "-"@ + part;
            assert(turned.skip(1) =~= part);
            assert(turned != "0"@) by {
                assert(turned[0] == '-');
                assert("0"@[0] == '0');
            }
        }
    }
}

} // verus!
