//! What declarations from right to left have to do with those from left to right.

use crate::shared::rtl::{
    ltr_pair, position_text, position_word, rtl_pair, RtlContext, CURSOR_FLIPS,
    INLINE_LTR_PROPERTIES, INLINE_RTL_PROPERTIES, LTR_PROPERTIES, LTR_VALUES, RTL_PROPERTIES,
    RTL_VALUES,
};
use crate::text::{paired, paired_from, split_at_char};
use crate::text_laws::{joined_parts_split_again, parts_lack_the_separator};
use vstd::prelude::*;

verus! {

/// Whether two tables have the same keys in the same order, and never the same text for
/// one.
spec fn opposed(
    a: Seq<(&'static str, &'static str)>,
    b: Seq<(&'static str, &'static str)>,
) -> bool {
    &&& a.len() == b.len()
    &&& forall|i: int| 0 <= i < a.len() ==> (#[trigger] a[i]).0@ == b[i].0@ && a[i].1@ != b[i].1@
}

proof fn lemma_opposed(
    k: Seq<char>,
    a: Seq<(&'static str, &'static str)>,
    b: Seq<(&'static str, &'static str)>,
    from: int,
)
    requires
        opposed(a, b),
        0 <= from <= a.len(),
    ensures
        paired_from(k, a, from) is Some == paired_from(k, b, from) is Some,
        paired_from(k, a, from) is Some ==> paired_from(k, a, from)->0 != paired_from(
            k,
            b,
            from,
        )->0,
    decreases a.len() - from,
{
    if from < a.len() {
        assert(a[from].0@ == b[from].0@);
        lemma_opposed(k, a, b, from + 1);
    }
}

proof fn lemma_values()
    ensures
        opposed(LTR_VALUES@, RTL_VALUES@),
{
    reveal_strlit("left");
    reveal_strlit("right");
    assert(LTR_VALUES@[0].1@.len() != RTL_VALUES@[0].1@.len());
    assert(LTR_VALUES@[1].1@.len() != RTL_VALUES@[1].1@.len());
    assert(LTR_VALUES@[2].1@.len() != RTL_VALUES@[2].1@.len());
    assert(LTR_VALUES@[3].1@.len() != RTL_VALUES@[3].1@.len());
    assert forall|i: int| 0 <= i < LTR_VALUES@.len() implies #[trigger] LTR_VALUES@[i].0@ == RTL_VALUES@[i].0@
        && LTR_VALUES@[i].1@ != RTL_VALUES@[i].1@ by {
        assert(i == 0 || i == 1 || i == 2 || i == 3);
    }
}

proof fn lemma_properties()
    ensures
        opposed(LTR_PROPERTIES@, RTL_PROPERTIES@),
{
    reveal_strlit("border-bottom-left-radius");
    reveal_strlit("border-bottom-right-radius");
    reveal_strlit("border-left");
    reveal_strlit("border-left-color");
    reveal_strlit("border-left-style");
    reveal_strlit("border-left-width");
    reveal_strlit("border-right");
    reveal_strlit("border-right-color");
    reveal_strlit("border-right-style");
    reveal_strlit("border-right-width");
    reveal_strlit("border-top-left-radius");
    reveal_strlit("border-top-right-radius");
    reveal_strlit("left");
    reveal_strlit("margin-left");
    reveal_strlit("margin-right");
    reveal_strlit("padding-left");
    reveal_strlit("padding-right");
    reveal_strlit("right");
    assert(LTR_PROPERTIES@[0].1@.len() != RTL_PROPERTIES@[0].1@.len());
    assert(LTR_PROPERTIES@[1].1@.len() != RTL_PROPERTIES@[1].1@.len());
    assert(LTR_PROPERTIES@[2].1@.len() != RTL_PROPERTIES@[2].1@.len());
    assert(LTR_PROPERTIES@[3].1@.len() != RTL_PROPERTIES@[3].1@.len());
    assert(LTR_PROPERTIES@[4].1@.len() != RTL_PROPERTIES@[4].1@.len());
    assert(LTR_PROPERTIES@[5].1@.len() != RTL_PROPERTIES@[5].1@.len());
    assert(LTR_PROPERTIES@[6].1@.len() != RTL_PROPERTIES@[6].1@.len());
    assert(LTR_PROPERTIES@[7].1@.len() != RTL_PROPERTIES@[7].1@.len());
    assert(LTR_PROPERTIES@[8].1@.len() != RTL_PROPERTIES@[8].1@.len());
    assert(LTR_PROPERTIES@[9].1@.len() != RTL_PROPERTIES@[9].1@.len());
    assert(LTR_PROPERTIES@[10].1@.len() != RTL_PROPERTIES@[10].1@.len());
    assert(LTR_PROPERTIES@[11].1@.len() != RTL_PROPERTIES@[11].1@.len());
    assert(LTR_PROPERTIES@[12].1@.len() != RTL_PROPERTIES@[12].1@.len());
    assert(LTR_PROPERTIES@[13].1@.len() != RTL_PROPERTIES@[13].1@.len());
    assert(LTR_PROPERTIES@[14].1@.len() != RTL_PROPERTIES@[14].1@.len());
    assert(LTR_PROPERTIES@[15].1@.len() != RTL_PROPERTIES@[15].1@.len());
    assert(LTR_PROPERTIES@[16].1@.len() != RTL_PROPERTIES@[16].1@.len());
    assert(LTR_PROPERTIES@[17].1@.len() != RTL_PROPERTIES@[17].1@.len());
    assert forall|i: int| 0 <= i < LTR_PROPERTIES@.len() implies #[trigger] LTR_PROPERTIES@[i].0@ == RTL_PROPERTIES@[i].0@
        && LTR_PROPERTIES@[i].1@ != RTL_PROPERTIES@[i].1@ by {
        assert(i == 0 || i == 1 || i == 2 || i == 3 || i == 4 || i == 5 || i == 6 || i == 7 || i == 8 || i == 9 || i == 10 || i == 11 || i == 12 || i == 13 || i == 14 || i == 15 || i == 16 || i == 17);
    }
}

proof fn lemma_inline_properties()
    ensures
        opposed(INLINE_LTR_PROPERTIES@, INLINE_RTL_PROPERTIES@),
{
    reveal_strlit("border-bottom-left-radius");
    reveal_strlit("border-bottom-right-radius");
    reveal_strlit("border-left");
    reveal_strlit("border-left-color");
    reveal_strlit("border-left-style");
    reveal_strlit("border-left-width");
    reveal_strlit("border-right");
    reveal_strlit("border-right-color");
    reveal_strlit("border-right-style");
    reveal_strlit("border-right-width");
    reveal_strlit("border-top-left-radius");
    reveal_strlit("border-top-right-radius");
    reveal_strlit("left");
    reveal_strlit("margin-left");
    reveal_strlit("margin-right");
    reveal_strlit("padding-left");
    reveal_strlit("padding-right");
    reveal_strlit("right");
    assert(INLINE_LTR_PROPERTIES@[0].1@.len() != INLINE_RTL_PROPERTIES@[0].1@.len());
    assert(INLINE_LTR_PROPERTIES@[1].1@.len() != INLINE_RTL_PROPERTIES@[1].1@.len());
    assert(INLINE_LTR_PROPERTIES@[2].1@.len() != INLINE_RTL_PROPERTIES@[2].1@.len());
    assert(INLINE_LTR_PROPERTIES@[3].1@.len() != INLINE_RTL_PROPERTIES@[3].1@.len());
    assert(INLINE_LTR_PROPERTIES@[4].1@.len() != INLINE_RTL_PROPERTIES@[4].1@.len());
    assert(INLINE_LTR_PROPERTIES@[5].1@.len() != INLINE_RTL_PROPERTIES@[5].1@.len());
    assert(INLINE_LTR_PROPERTIES@[6].1@.len() != INLINE_RTL_PROPERTIES@[6].1@.len());
    assert(INLINE_LTR_PROPERTIES@[7].1@.len() != INLINE_RTL_PROPERTIES@[7].1@.len());
    assert(INLINE_LTR_PROPERTIES@[8].1@.len() != INLINE_RTL_PROPERTIES@[8].1@.len());
    assert(INLINE_LTR_PROPERTIES@[9].1@.len() != INLINE_RTL_PROPERTIES@[9].1@.len());
    assert(INLINE_LTR_PROPERTIES@[10].1@.len() != INLINE_RTL_PROPERTIES@[10].1@.len());
    assert(INLINE_LTR_PROPERTIES@[11].1@.len() != INLINE_RTL_PROPERTIES@[11].1@.len());
    assert(INLINE_LTR_PROPERTIES@[12].1@.len() != INLINE_RTL_PROPERTIES@[12].1@.len());
    assert(INLINE_LTR_PROPERTIES@[13].1@.len() != INLINE_RTL_PROPERTIES@[13].1@.len());
    assert(INLINE_LTR_PROPERTIES@[14].1@.len() != INLINE_RTL_PROPERTIES@[14].1@.len());
    assert(INLINE_LTR_PROPERTIES@[15].1@.len() != INLINE_RTL_PROPERTIES@[15].1@.len());
    assert(INLINE_LTR_PROPERTIES@[16].1@.len() != INLINE_RTL_PROPERTIES@[16].1@.len());
    assert(INLINE_LTR_PROPERTIES@[17].1@.len() != INLINE_RTL_PROPERTIES@[17].1@.len());
    assert forall|i: int| 0 <= i < INLINE_LTR_PROPERTIES@.len() implies #[trigger] INLINE_LTR_PROPERTIES@[i].0@ == INLINE_RTL_PROPERTIES@[i].0@
        && INLINE_LTR_PROPERTIES@[i].1@ != INLINE_RTL_PROPERTIES@[i].1@ by {
        assert(i == 0 || i == 1 || i == 2 || i == 3 || i == 4 || i == 5 || i == 6 || i == 7 || i == 8 || i == 9 || i == 10 || i == 11 || i == 12 || i == 13 || i == 14 || i == 15 || i == 16 || i == 17);
    }
}

proof fn lemma_cursors(value: Seq<char>)
    ensures
        paired(value, CURSOR_FLIPS@) != Some(value),
{
    reveal_strlit("e-resize");
    reveal_strlit("ne-resize");
    reveal_strlit("nesw-resize");
    reveal_strlit("nw-resize");
    reveal_strlit("nwse-resize");
    reveal_strlit("se-resize");
    reveal_strlit("sw-resize");
    reveal_strlit("w-resize");
    assert(CURSOR_FLIPS@[0].0@[0] != CURSOR_FLIPS@[0].1@[0]);
    assert(CURSOR_FLIPS@[1].0@[0] != CURSOR_FLIPS@[1].1@[0]);
    assert(CURSOR_FLIPS@[2].0@[1] != CURSOR_FLIPS@[2].1@[1]);
    assert(CURSOR_FLIPS@[3].0@[1] != CURSOR_FLIPS@[3].1@[1]);
    assert(CURSOR_FLIPS@[4].0@[1] != CURSOR_FLIPS@[4].1@[1]);
    assert(CURSOR_FLIPS@[5].0@[1] != CURSOR_FLIPS@[5].1@[1]);
    assert(CURSOR_FLIPS@[6].0@[1] != CURSOR_FLIPS@[6].1@[1]);
    assert(CURSOR_FLIPS@[7].0@[1] != CURSOR_FLIPS@[7].1@[1]);
    reveal_with_fuel(paired_from, 9);
}

pub(crate) proof fn lemma_no_blank(s: Seq<char>, i: int)
    requires
        0 <= i < split_at_char(s, ' ').len(),
    ensures
        !position_word(split_at_char(s, ' ')[i], "left"@, "right"@).contains(' '),
        !position_word(split_at_char(s, ' ')[i], "right"@, "left"@).contains(' '),
{
    parts_lack_the_separator(s, ' ');
    reveal_strlit("left");
    reveal_strlit("right");
}

proof fn lemma_positions(value: Seq<char>)
    requires
        split_at_char(value, ' ').contains("start"@) || split_at_char(value, ' ').contains("end"@),
    ensures
        position_text(value, "left"@, "right"@) != position_text(value, "right"@, "left"@),
{
    let words = split_at_char(value, ' ');
    let a = Seq::new(words.len(), |i: int| position_word(words[i], "left"@, "right"@));
    let b = Seq::new(words.len(), |i: int| position_word(words[i], "right"@, "left"@));
    assert forall|i: int| 0 <= i < a.len() implies !(#[trigger] a[i]).contains(' ') by {
        lemma_no_blank(value, i);
    }
    assert forall|i: int| 0 <= i < b.len() implies !(#[trigger] b[i]).contains(' ') by {
        lemma_no_blank(value, i);
    }
    reveal_strlit(" ");
    assert(" "@ =~= seq![' ']);
    let j = choose|j: int| 0 <= j < words.len() && (words[j] == "start"@ || words[j] == "end"@);
    reveal_strlit("left");
    reveal_strlit("right");
    assert("left"@.len() != "right"@.len());
    assert(a[j] != b[j]);
    joined_parts_split_again(a, ' ');
    joined_parts_split_again(b, ' ');
}

/// A declaration from right to left is given only where it differs from the one from left
/// to right.
pub proof fn turned_declarations_differ(key: Seq<char>, value: Seq<char>, ctx: RtlContext)
    ensures
        rtl_pair(key, value, ctx) != Some(ltr_pair(key, value, ctx)),
{
    lemma_inline_properties();
    lemma_opposed(key, INLINE_LTR_PROPERTIES@, INLINE_RTL_PROPERTIES@, 0);
    lemma_properties();
    lemma_opposed(key, LTR_PROPERTIES@, RTL_PROPERTIES@, 0);
    lemma_values();
    lemma_opposed(value, LTR_VALUES@, RTL_VALUES@, 0);
    lemma_cursors(value);
    if key == "background-position"@ && rtl_pair(key, value, ctx) == Some(
        (key, position_text(value, "right"@, "left"@)),
    ) {
        let words = split_at_char(value, ' ');
        if words.contains("start"@) || words.contains("end"@) {
            lemma_positions(value);
        }
    }
}

} // verus!
