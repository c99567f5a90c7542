//! What legacy shorthands give their longhands.

use crate::shared::flatten::ScalarModel;
use crate::shared::resolution::{
    box_sides, legacy_pairs, list_parts, list_rest, list_style_pairs, no_parts, two_sides, words,
    zipped, ListParts, PairModel, DUOS, LIST_STYLE_GLOBALS, QUADS, SAMES,
};
use crate::shared::split_css_value::split_scalar;
use crate::text::{listed, paired, paired_from, split_at_char};
use crate::text_laws::{one_part, parts_of_a_whole};
use vstd::prelude::*;

verus! {

spec fn clear_upto(s: Seq<char>, k: nat) -> bool
    decreases k,
{
    k == 0 || (s[k - 1] != ' ' && clear_upto(s, (k - 1) as nat))
}

proof fn lemma_clear(s: Seq<char>, k: nat)
    requires
        clear_upto(s, k),
        k <= s.len(),
    ensures
        forall|i: int| 0 <= i < k ==> s[i] != ' ',
    decreases k,
{
    if k > 0 {
        lemma_clear(s, (k - 1) as nat);
    }
}

proof fn lemma_one_word(s: Seq<char>)
    requires
        clear_upto(s, s.len()),
    ensures
        split_at_char(s, ' ') == seq![s],
{
    lemma_clear(s, s.len());
    one_part(s, ' ');
}

proof fn lemma_four_words(a: Seq<char>, b: Seq<char>, c: Seq<char>, d: Seq<char>, row: Seq<char>)
    requires
        clear_upto(a, a.len()),
        clear_upto(b, b.len()),
        clear_upto(c, c.len()),
        clear_upto(d, d.len()),
        row == a + seq![' '] + b + seq![' '] + c + seq![' '] + d,
    ensures
        words(row) == seq![a, b, c, d],
{
    lemma_one_word(a);
    lemma_one_word(b);
    lemma_one_word(c);
    lemma_one_word(d);
    parts_of_a_whole(a, ' ', b);
    parts_of_a_whole(a + seq![' '] + b, ' ', c);
    parts_of_a_whole(a + seq![' '] + b + seq![' '] + c, ' ', d);
    assert(words(row) =~= seq![a, b, c, d]);
}

/// The longhand of one side.
pub open spec fn of_side(start: Seq<char>, side: Seq<char>, end: Seq<char>) -> Seq<char> {
    start + side + end
}

/// The longhands of the four sides: of the top, the end, the bottom and the start.
spec fn four_longhands(start: Seq<char>, end: Seq<char>) -> Seq<Seq<char>> {
    seq![
        of_side(start, "Top"@, end),
        of_side(start, "InlineEnd"@, end),
        of_side(start, "Bottom"@, end),
        of_side(start, "InlineStart"@, end),
    ]
}

proof fn lemma_margin_row()
    ensures
        words(QUADS@[5].1@) == four_longhands("margin"@, ""@),
        QUADS@[5].0@ == "margin"@ + ""@,
{
    reveal_strlit("");
    reveal_strlit("Bottom");
    reveal_strlit("InlineEnd");
    reveal_strlit("InlineStart");
    reveal_strlit("Top");
    reveal_strlit("margin");
    reveal_strlit("marginBottom");
    reveal_strlit("marginInlineEnd");
    reveal_strlit("marginInlineStart");
    reveal_strlit("marginTop");
    reveal_strlit("marginTop marginInlineEnd marginBottom marginInlineStart");
    reveal_with_fuel(clear_upto, 30);
    assert("marginTop"@.len() == 9);
    assert(clear_upto("marginTop"@, 9));
    assert(of_side("margin"@, "Top"@, ""@) =~= "marginTop"@);
    assert("marginInlineEnd"@.len() == 15);
    assert(clear_upto("marginInlineEnd"@, 15));
    assert(of_side("margin"@, "InlineEnd"@, ""@) =~= "marginInlineEnd"@);
    assert("marginBottom"@.len() == 12);
    assert(clear_upto("marginBottom"@, 12));
    assert(of_side("margin"@, "Bottom"@, ""@) =~= "marginBottom"@);
    assert("marginInlineStart"@.len() == 17);
    assert(clear_upto("marginInlineStart"@, 17));
    assert(of_side("margin"@, "InlineStart"@, ""@) =~= "marginInlineStart"@);
    assert("marginTop marginInlineEnd marginBottom marginInlineStart"@ =~= "marginTop"@ + seq![' '] + "marginInlineEnd"@ + seq![' '] + "marginBottom"@ + seq![' '] + "marginInlineStart"@);
    lemma_four_words("marginTop"@, "marginInlineEnd"@, "marginBottom"@, "marginInlineStart"@, "marginTop marginInlineEnd marginBottom marginInlineStart"@);
    assert("margin"@ + ""@ =~= "margin"@);
}

proof fn lemma_padding_row()
    ensures
        words(QUADS@[6].1@) == four_longhands("padding"@, ""@),
        QUADS@[6].0@ == "padding"@ + ""@,
{
    reveal_strlit("");
    reveal_strlit("Bottom");
    reveal_strlit("InlineEnd");
    reveal_strlit("InlineStart");
    reveal_strlit("Top");
    reveal_strlit("padding");
    reveal_strlit("paddingBottom");
    reveal_strlit("paddingInlineEnd");
    reveal_strlit("paddingInlineStart");
    reveal_strlit("paddingTop");
    reveal_strlit("paddingTop paddingInlineEnd paddingBottom paddingInlineStart");
    reveal_with_fuel(clear_upto, 30);
    assert("paddingTop"@.len() == 10);
    assert(clear_upto("paddingTop"@, 10));
    assert(of_side("padding"@, "Top"@, ""@) =~= "paddingTop"@);
    assert("paddingInlineEnd"@.len() == 16);
    assert(clear_upto("paddingInlineEnd"@, 16));
    assert(of_side("padding"@, "InlineEnd"@, ""@) =~= "paddingInlineEnd"@);
    assert("paddingBottom"@.len() == 13);
    assert(clear_upto("paddingBottom"@, 13));
    assert(of_side("padding"@, "Bottom"@, ""@) =~= "paddingBottom"@);
    assert("paddingInlineStart"@.len() == 18);
    assert(clear_upto("paddingInlineStart"@, 18));
    assert(of_side("padding"@, "InlineStart"@, ""@) =~= "paddingInlineStart"@);
    assert("paddingTop paddingInlineEnd paddingBottom paddingInlineStart"@ =~= "paddingTop"@ + seq![' '] + "paddingInlineEnd"@ + seq![' '] + "paddingBottom"@ + seq![' '] + "paddingInlineStart"@);
    lemma_four_words("paddingTop"@, "paddingInlineEnd"@, "paddingBottom"@, "paddingInlineStart"@, "paddingTop paddingInlineEnd paddingBottom paddingInlineStart"@);
    assert("padding"@ + ""@ =~= "padding"@);
}

proof fn lemma_border_color_row()
    ensures
        words(QUADS@[0].1@) == four_longhands("border"@, "Color"@),
        QUADS@[0].0@ == "border"@ + "Color"@,
{
    reveal_strlit("Bottom");
    reveal_strlit("Color");
    reveal_strlit("InlineEnd");
    reveal_strlit("InlineStart");
    reveal_strlit("Top");
    reveal_strlit("border");
    reveal_strlit("borderBottomColor");
    reveal_strlit("borderColor");
    reveal_strlit("borderInlineEndColor");
    reveal_strlit("borderInlineStartColor");
    reveal_strlit("borderTopColor");
    reveal_strlit("borderTopColor borderInlineEndColor borderBottomColor borderInlineStartColor");
    reveal_with_fuel(clear_upto, 30);
    assert("borderTopColor"@.len() == 14);
    assert(clear_upto("borderTopColor"@, 14));
    assert(of_side("border"@, "Top"@, "Color"@) =~= "borderTopColor"@);
    assert("borderInlineEndColor"@.len() == 20);
    assert(clear_upto("borderInlineEndColor"@, 20));
    assert(of_side("border"@, "InlineEnd"@, "Color"@) =~= "borderInlineEndColor"@);
    assert("borderBottomColor"@.len() == 17);
    assert(clear_upto("borderBottomColor"@, 17));
    assert(of_side("border"@, "Bottom"@, "Color"@) =~= "borderBottomColor"@);
    assert("borderInlineStartColor"@.len() == 22);
    assert(clear_upto("borderInlineStartColor"@, 22));
    assert(of_side("border"@, "InlineStart"@, "Color"@) =~= "borderInlineStartColor"@);
    assert("borderTopColor borderInlineEndColor borderBottomColor borderInlineStartColor"@ =~= "borderTopColor"@ + seq![' '] + "borderInlineEndColor"@ + seq![' '] + "borderBottomColor"@ + seq![' '] + "borderInlineStartColor"@);
    lemma_four_words("borderTopColor"@, "borderInlineEndColor"@, "borderBottomColor"@, "borderInlineStartColor"@, "borderTopColor borderInlineEndColor borderBottomColor borderInlineStartColor"@);
    assert("border"@ + "Color"@ =~= "borderColor"@);
}

proof fn lemma_border_style_row()
    ensures
        words(QUADS@[1].1@) == four_longhands("border"@, "Style"@),
        QUADS@[1].0@ == "border"@ + "Style"@,
{
    reveal_strlit("Bottom");
    reveal_strlit("InlineEnd");
    reveal_strlit("InlineStart");
    reveal_strlit("Style");
    reveal_strlit("Top");
    reveal_strlit("border");
    reveal_strlit("borderBottomStyle");
    reveal_strlit("borderInlineEndStyle");
    reveal_strlit("borderInlineStartStyle");
    reveal_strlit("borderStyle");
    reveal_strlit("borderTopStyle");
    reveal_strlit("borderTopStyle borderInlineEndStyle borderBottomStyle borderInlineStartStyle");
    reveal_with_fuel(clear_upto, 30);
    assert("borderTopStyle"@.len() == 14);
    assert(clear_upto("borderTopStyle"@, 14));
    assert(of_side("border"@, "Top"@, "Style"@) =~= "borderTopStyle"@);
    assert("borderInlineEndStyle"@.len() == 20);
    assert(clear_upto("borderInlineEndStyle"@, 20));
    assert(of_side("border"@, "InlineEnd"@, "Style"@) =~= "borderInlineEndStyle"@);
    assert("borderBottomStyle"@.len() == 17);
    assert(clear_upto("borderBottomStyle"@, 17));
    assert(of_side("border"@, "Bottom"@, "Style"@) =~= "borderBottomStyle"@);
    assert("borderInlineStartStyle"@.len() == 22);
    assert(clear_upto("borderInlineStartStyle"@, 22));
    assert(of_side("border"@, "InlineStart"@, "Style"@) =~= "borderInlineStartStyle"@);
    assert("borderTopStyle borderInlineEndStyle borderBottomStyle borderInlineStartStyle"@ =~= "borderTopStyle"@ + seq![' '] + "borderInlineEndStyle"@ + seq![' '] + "borderBottomStyle"@ + seq![' '] + "borderInlineStartStyle"@);
    lemma_four_words("borderTopStyle"@, "borderInlineEndStyle"@, "borderBottomStyle"@, "borderInlineStartStyle"@, "borderTopStyle borderInlineEndStyle borderBottomStyle borderInlineStartStyle"@);
    assert("border"@ + "Style"@ =~= "borderStyle"@);
}

proof fn lemma_border_width_row()
    ensures
        words(QUADS@[2].1@) == four_longhands("border"@, "Width"@),
        QUADS@[2].0@ == "border"@ + "Width"@,
{
    reveal_strlit("Bottom");
    reveal_strlit("InlineEnd");
    reveal_strlit("InlineStart");
    reveal_strlit("Top");
    reveal_strlit("Width");
    reveal_strlit("border");
    reveal_strlit("borderBottomWidth");
    reveal_strlit("borderInlineEndWidth");
    reveal_strlit("borderInlineStartWidth");
    reveal_strlit("borderTopWidth");
    reveal_strlit("borderTopWidth borderInlineEndWidth borderBottomWidth borderInlineStartWidth");
    reveal_strlit("borderWidth");
    reveal_with_fuel(clear_upto, 30);
    assert("borderTopWidth"@.len() == 14);
    assert(clear_upto("borderTopWidth"@, 14));
    assert(of_side("border"@, "Top"@, "Width"@) =~= "borderTopWidth"@);
    assert("borderInlineEndWidth"@.len() == 20);
    assert(clear_upto("borderInlineEndWidth"@, 20));
    assert(of_side("border"@, "InlineEnd"@, "Width"@) =~= "borderInlineEndWidth"@);
    assert("borderBottomWidth"@.len() == 17);
    assert(clear_upto("borderBottomWidth"@, 17));
    assert(of_side("border"@, "Bottom"@, "Width"@) =~= "borderBottomWidth"@);
    assert("borderInlineStartWidth"@.len() == 22);
    assert(clear_upto("borderInlineStartWidth"@, 22));
    assert(of_side("border"@, "InlineStart"@, "Width"@) =~= "borderInlineStartWidth"@);
    assert("borderTopWidth borderInlineEndWidth borderBottomWidth borderInlineStartWidth"@ =~= "borderTopWidth"@ + seq![' '] + "borderInlineEndWidth"@ + seq![' '] + "borderBottomWidth"@ + seq![' '] + "borderInlineStartWidth"@);
    lemma_four_words("borderTopWidth"@, "borderInlineEndWidth"@, "borderBottomWidth"@, "borderInlineStartWidth"@, "borderTopWidth borderInlineEndWidth borderBottomWidth borderInlineStartWidth"@);
    assert("border"@ + "Width"@ =~= "borderWidth"@);
}

proof fn lemma_found(k: Seq<char>, i: int, from: int)
    requires
        0 <= from <= i < QUADS@.len(),
        QUADS@[i].0@ == k,
        forall|j: int| from <= j < i ==> (#[trigger] QUADS@[j]).0@ != k,
    ensures
        paired_from(k, QUADS@, from) == Some(QUADS@[i].1@),
    decreases i - from,
{
    if from < i {
        assert(QUADS@[from].0@ != k);
        lemma_found(k, i, from + 1);
    }
}

proof fn lemma_quad_keys()
    ensures
        QUADS@[0].0@ != QUADS@[1].0@,
        QUADS@[0].0@ != QUADS@[2].0@,
        QUADS@[1].0@ != QUADS@[2].0@,
        forall|j: int| 0 <= j < 5 ==> (#[trigger] QUADS@[j]).0@ != QUADS@[5].0@,
        forall|j: int| 0 <= j < 6 ==> (#[trigger] QUADS@[j]).0@ != QUADS@[6].0@,
{
    reveal_strlit("borderColor");
    reveal_strlit("borderStyle");
    reveal_strlit("borderWidth");
    reveal_strlit("borderRadius");
    reveal_strlit("inset");
    reveal_strlit("margin");
    reveal_strlit("padding");
    assert("borderColor"@[6] == 'C' && "borderStyle"@[6] == 'S' && "borderWidth"@[6] == 'W');
    assert(QUADS@[0].0@ == "borderColor"@ && QUADS@[1].0@ == "borderStyle"@ && QUADS@[2].0@
        == "borderWidth"@ && QUADS@[3].0@ == "borderRadius"@ && QUADS@[4].0@ == "inset"@ && QUADS@[5].0@
        == "margin"@ && QUADS@[6].0@ == "padding"@);
    assert("borderColor"@.len() == 11 && "borderStyle"@.len() == 11 && "borderWidth"@.len() == 11);
    assert("borderRadius"@.len() == 12 && "inset"@.len() == 5 && "margin"@.len() == 6);
    assert("padding"@.len() == 7);
    assert forall|j: int| 0 <= j < 5 implies (#[trigger] QUADS@[j]).0@ != QUADS@[5].0@ by {
        assert(j == 0 || j == 1 || j == 2 || j == 3 || j == 4);
    }
    assert forall|j: int| 0 <= j < 6 implies (#[trigger] QUADS@[j]).0@ != QUADS@[6].0@ by {
        assert(j == 0 || j == 1 || j == 2 || j == 3 || j == 4 || j == 5);
    }
}

/// Whether a property has four sides: its name is the longhand of a side without the side.
pub open spec fn four_sided(start: Seq<char>, end: Seq<char>) -> bool {
    ||| start == "margin"@ && end == ""@
    ||| start == "padding"@ && end == ""@
    ||| start == "border"@ && (end == "Color"@ || end == "Style"@ || end == "Width"@)
}

/// The part of a value for a side, where the top comes first, then the end, the bottom and the
/// start: the start takes after the end, the bottom after the top, and the end after the top.
pub open spec fn part_for(parts: Seq<Option<ScalarModel>>, side: int) -> Option<ScalarModel> {
    if side < parts.len() {
        parts[side]
    } else if side == 3 && parts.len() > 1 {
        parts[1]
    } else {
        parts[0]
    }
}

/// A legacy shorthand of four sides gives the top, the end, the bottom and the start the parts of
/// its value in that order; a side without one takes that of the side across, and all take the
/// only one.
pub proof fn boxes_have_four_sides(start: Seq<char>, end: Seq<char>, value: Option<ScalarModel>)
    requires
        four_sided(start, end),
        split_scalar(value).len() > 0,
        forall|i: int|
            0 <= i < split_scalar(value).len() ==> #[trigger] split_scalar(value)[i] != Some(
                ScalarModel::Undefined,
            ),
    ensures
        ({
            let parts = split_scalar(value);
            legacy_pairs(start + end, value) == Some(
                Ok::<_, crate::errors::ErrorModel>(
                    seq![
                        (of_side(start, "Top"@, end), part_for(parts, 0)),
                        (of_side(start, "InlineEnd"@, end), part_for(parts, 1)),
                        (of_side(start, "Bottom"@, end), part_for(parts, 2)),
                        (of_side(start, "InlineStart"@, end), part_for(parts, 3)),
                    ],
                ),
            )
        }),
{
    let parts = split_scalar(value);
    lemma_margin_row();
    lemma_padding_row();
    lemma_border_color_row();
    lemma_border_style_row();
    lemma_border_width_row();
    lemma_quad_keys();
    let i: int = if start == "margin"@ && end == ""@ {
        5
    } else if start == "padding"@ && end == ""@ {
        6
    } else if end == "Color"@ {
        0
    } else if end == "Style"@ {
        1
    } else {
        2
    };
    lemma_found(start + end, i, 0);
    assert(zipped(four_longhands(start, end), box_sides(parts)) =~= seq![
        (of_side(start, "Top"@, end), part_for(parts, 0)),
        (of_side(start, "InlineEnd"@, end), part_for(parts, 1)),
        (of_side(start, "Bottom"@, end), part_for(parts, 2)),
        (of_side(start, "InlineStart"@, end), part_for(parts, 3)),
    ]);
}

/// A legacy shorthand of two longhands gives the first part of its value to the first and the
/// second, or the only one, to the second. One of several equal longhands gives each the whole.
pub proof fn pairs_have_two_sides(key: Seq<char>, value: Option<ScalarModel>)
    requires
        paired(key, QUADS@) is None,
        forall|i: int|
            0 <= i < split_scalar(value).len() ==> #[trigger] split_scalar(value)[i] != Some(
                ScalarModel::Undefined,
            ),
    ensures
        paired(key, SAMES@) is None && paired(key, DUOS@) is Some ==> {
            let names = words(paired(key, DUOS@)->0);
            let parts = split_scalar(value);
            legacy_pairs(key, value) matches Some(Ok(pairs)) && (names.len() == 2 && parts.len() > 0
                ==> pairs == seq![
                (names[0], parts[0]),
                (names[1], parts[if parts.len() > 1 {
                    1int
                } else {
                    0
                }]),
            ])
        },
        paired(key, SAMES@) is Some ==> {
            let names = words(paired(key, SAMES@)->0);
            legacy_pairs(key, value) matches Some(Ok(pairs)) && pairs.len() == names.len() && forall|
                i: int,
            |
                0 <= i < pairs.len() ==> #[trigger] pairs[i] == (names[i], value)
        },
{
    let parts = split_scalar(value);
    if paired(key, SAMES@) is None && paired(key, DUOS@) is Some {
        let names = words(paired(key, DUOS@)->0);
        if names.len() == 2 && parts.len() > 0 {
            assert(zipped(names, two_sides(parts)) =~= seq![
                (names[0], parts[0]),
                (names[1], parts[if parts.len() > 1 {
                    1int
                } else {
                    0
                }]),
            ]);
        }
    }
}

/// How many of the three were found.
spec fn found_count(f: ListParts) -> nat {
    (if f.kind is Some {
        1nat
    } else {
        0
    }) + (if f.position is Some {
        1nat
    } else {
        0
    }) + (if f.image is Some {
        1nat
    } else {
        0
    })
}

/// Whether a part was taken for one of the three.
spec fn taken(f: ListParts, part: Seq<char>) -> bool {
    f.kind == Some(part) || f.position == Some(part) || f.image == Some(part)
}

/// Whether what was found stays found.
spec fn grown(f: ListParts, g: ListParts) -> bool {
    &&& f.kind is Some ==> g.kind == f.kind
    &&& f.position is Some ==> g.position == f.position
    &&& f.image is Some ==> g.image == f.image
}

proof fn lemma_rest(rest: Seq<Seq<char>>, i: int, f: ListParts)
    requires
        0 <= i <= rest.len(),
        list_rest(rest, i, f) is Ok,
    ensures
        ({
            let g = list_rest(rest, i, f)->Ok_0;
            &&& grown(f, g)
            &&& g.position == f.position
            &&& found_count(g) == found_count(f) + (rest.len() - i)
            &&& forall|j: int| i <= j < rest.len() ==> taken(g, #[trigger] rest[j])
        }),
    decreases rest.len() - i,
{
    if i < rest.len() {
        let next = if rest[i] == "none"@ && f.kind is None {
            ListParts { kind: Some(rest[i]), ..f }
        } else {
            ListParts { image: Some(rest[i]), ..f }
        };
        lemma_rest(rest, i + 1, next);
        let g = list_rest(rest, i, f)->Ok_0;
        assert(taken(g, rest[i]));
        assert forall|j: int| i <= j < rest.len() implies taken(g, #[trigger] rest[j]) by {
            assert(j == i || i + 1 <= j);
        }
    }
}

spec fn all_texts(parts: Seq<Option<ScalarModel>>) -> bool {
    forall|i: int| 0 <= i < parts.len() ==> (#[trigger] parts[i]) is Some && parts[i]->0 is Str
}

spec fn sorted_out(f: ListParts, part: Seq<char>) -> bool {
    f.kind == Some(part) || f.position == Some(part) || f.rest.contains(part)
}

proof fn lemma_parts(parts: Seq<Option<ScalarModel>>, i: int, f: ListParts)
    requires
        0 <= i <= parts.len(),
        all_texts(parts),
        list_parts(parts, i, f) is Ok,
    ensures
        ({
            let g = list_parts(parts, i, f)->Ok_0;
            &&& grown(f, g)
            &&& g.image == f.image
            &&& f.rest.is_prefix_of(g.rest)
            &&& found_count(g) + g.rest.len() == found_count(f) + f.rest.len() + (parts.len() - i)
            &&& f.position is None && g.position is Some ==> g.position->0 == "inside"@
                || g.position->0 == "outside"@
            &&& forall|j: int| i <= j < parts.len() ==> sorted_out(g, (#[trigger] parts[j])->0->Str_0)
            &&& forall|j: int|
                i <= j < parts.len() && ((#[trigger] parts[j])->0->Str_0 == "inside"@
                    || parts[j]->0->Str_0 == "outside"@) ==> g.position == Some(parts[j]->0->Str_0)
        }),
    decreases parts.len() - i,
{
    if i < parts.len() {
        let part = parts[i]->0->Str_0;
        assert(parts[i] == Some(ScalarModel::Str(part)));
        let next = if part == "inside"@ || part == "outside"@ {
            ListParts { position: Some(part), ..f }
        } else if part != "none"@ && crate::shared::resolution::marker_type(part) {
            ListParts { kind: Some(part), ..f }
        } else {
            ListParts { rest: f.rest.push(part), ..f }
        };
        lemma_parts(parts, i + 1, next);
        let g = list_parts(parts, i, f)->Ok_0;
        if next.rest != f.rest {
            assert(next.rest.last() == part);
            assert(g.rest[f.rest.len() as int] == part);
            assert(f.rest.is_prefix_of(next.rest));
        }
        assert(sorted_out(g, part));
        assert forall|j: int| i <= j < parts.len() implies sorted_out(
            g,
            (#[trigger] parts[j])->0->Str_0,
        ) by {
            assert(j == i || i + 1 <= j);
        }
    }
}

/// A list style that is no global word gives each of its parts to one of its three longhands, and
/// no longhand more than one: `inside` and `outside` to the position, and nothing else to it.
pub proof fn list_styles_are_shared_out(text: Seq<char>)
    requires
        ({
            let parts = split_scalar(Some(ScalarModel::Str(text)));
            parts.len() != 1 || !listed(text_of(parts[0]), LIST_STYLE_GLOBALS@)
        }),
        list_style_pairs(Some(ScalarModel::Str(text))) is Ok,
    ensures
        ({
            let parts = split_scalar(Some(ScalarModel::Str(text)));
            let pairs = list_style_pairs(Some(ScalarModel::Str(text)))->Ok_0;
            &&& pairs.len() == 3
            &&& pairs[0].0 == "listStyleType"@
            &&& pairs[1].0 == "listStylePosition"@
            &&& pairs[2].0 == "listStyleImage"@
            &&& parts.len() == set_values(pairs)
            &&& forall|i: int|
                0 <= i < parts.len() ==> (#[trigger] parts[i] == pairs[0].1 || parts[i] == pairs[1].1
                    || parts[i] == pairs[2].1)
            &&& pairs[1].1 is Some ==> text_of(pairs[1].1) == "inside"@ || text_of(pairs[1].1)
                == "outside"@
            &&& forall|i: int|
                0 <= i < parts.len() && (text_of(#[trigger] parts[i]) == "inside"@ || text_of(parts[i])
                    == "outside"@) ==> parts[i] == pairs[1].1
        }),
{
    let value = Some(ScalarModel::Str(text));
    let parts = split_scalar(value);
    assert(all_texts(parts));
    lemma_parts(parts, 0, no_parts());
    let f = list_parts(parts, 0, no_parts())->Ok_0;
    lemma_rest(f.rest, 0, f);
    let g = list_rest(f.rest, 0, f)->Ok_0;
    assert forall|i: int| 0 <= i < parts.len() implies taken(g, text_of(#[trigger] parts[i])) by {
        let part = parts[i]->0->Str_0;
        assert(sorted_out(f, part));
        if f.rest.contains(part) {
            let j = choose|j: int| 0 <= j < f.rest.len() && f.rest[j] == part;
            assert(taken(g, f.rest[j]));
        }
    }
}

/// A value as text.
pub open spec fn text_of(v: Option<ScalarModel>) -> Seq<char> {
    match v {
        Some(ScalarModel::Str(s)) => s,
        _ => Seq::empty(),
    }
}

/// How many of three declarations have a value.
pub open spec fn set_values(pairs: Seq<PairModel>) -> nat {
    (if pairs[0].1 is Some {
        1nat
    } else {
        0
    }) + (if pairs[1].1 is Some {
        1nat
    } else {
        0
    }) + (if pairs[2].1 is Some {
        1nat
    } else {
        0
    })
}

} // verus!
