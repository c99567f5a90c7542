//! Which side is the start and which the end in the two writing directions.

use crate::shared::css_value::dimension;
use crate::shared::rtl::{
    ltr_pair, position_text, position_word, rtl_pair, shadow_flipped, sign_turned, RtlContext,
    CURSOR_FLIPS, INLINE_LTR_PROPERTIES, INLINE_RTL_PROPERTIES, LTR_PROPERTIES, RTL_PROPERTIES,
};
use crate::shared::rtl_laws::lemma_no_blank;
use crate::text::{paired, paired_from, split_at_char};
use crate::text_laws::{joined_parts_split_again, parts_lack_the_separator};
use vstd::prelude::*;

verus! {

/// The word for the start or for the end of a line.
pub open spec fn edge(start: bool) -> Seq<char> {
    if start {
        "start"@
    } else {
        "end"@
    }
}

/// The side at which a line starts or ends.
pub open spec fn side(start: bool, rtl: bool) -> Seq<char> {
    if start != rtl {
        "left"@
    } else {
        "right"@
    }
}

/// Whether a text names an edge of the line where another names its side.
pub open spec fn sided(
    text: Seq<char>,
    out: Seq<char>,
    before: Seq<char>,
    start: bool,
    behind: Seq<char>,
    rtl: bool,
) -> bool {
    &&& out == before + side(start, rtl) + behind
    &&& {
        ||| text == before + edge(start) + behind
        ||| text == before + "inline-"@ + edge(start) + behind
        ||| before.len() == 0 && text == "inset-inline-"@ + edge(start) + behind
        ||| before == "border-top-"@ && text == "border-start-"@ + edge(start) + behind
        ||| before == "border-bottom-"@ && text == "border-end-"@ + edge(start) + behind
    }
}

/// Whether a text names the side that another names by an edge of the line.
pub open spec fn named_by_side(text: Seq<char>, out: Seq<char>, rtl: bool) -> bool {
    exists|before: Seq<char>, start: bool, behind: Seq<char>| #[trigger]
        sided(text, out, before, start, behind, rtl)
}

spec fn all_named(t: Seq<(&'static str, &'static str)>, rtl: bool) -> bool {
    forall|i: int| 0 <= i < t.len() ==> named_by_side((#[trigger] t[i]).0@, t[i].1@, rtl)
}

proof fn lemma_named(k: Seq<char>, t: Seq<(&'static str, &'static str)>, rtl: bool, from: int)
    requires
        all_named(t, rtl),
        0 <= from <= t.len(),
    ensures
        paired_from(k, t, from) is Some ==> named_by_side(k, paired_from(k, t, from)->0, rtl),
    decreases t.len() - from,
{
    if from < t.len() {
        assert(named_by_side(t[from].0@, t[from].1@, rtl));
        lemma_named(k, t, rtl, from + 1);
    }
}

proof fn lemma_present(k: Seq<char>, t: Seq<(&'static str, &'static str)>, i: int, from: int)
    requires
        0 <= from <= i < t.len(),
        t[i].0@ == k,
    ensures
        paired_from(k, t, from) is Some,
    decreases i - from,
{
    if from < i {
        lemma_present(k, t, i, from + 1);
    }
}

proof fn lemma_ltr_properties()
    ensures
        all_named(LTR_PROPERTIES@, false),
{
    assert(named_by_side(LTR_PROPERTIES@[0].0@, LTR_PROPERTIES@[0].1@, false)) by {
        reveal_strlit("");
        reveal_strlit("left");
        reveal_strlit("margin-");
        reveal_strlit("margin-left");
        reveal_strlit("margin-start");
        reveal_strlit("start");
        assert("margin-start"@ =~= "margin-"@ + edge(true) + ""@);
        assert("margin-left"@ =~= "margin-"@ + side(true, false) + ""@);
        assert(sided("margin-start"@, "margin-left"@, "margin-"@, true, ""@, false));
    }
    assert(named_by_side(LTR_PROPERTIES@[1].0@, LTR_PROPERTIES@[1].1@, false)) by {
        reveal_strlit("");
        reveal_strlit("end");
        reveal_strlit("margin-");
        reveal_strlit("margin-end");
        reveal_strlit("margin-right");
        reveal_strlit("right");
        assert("margin-end"@ =~= "margin-"@ + edge(false) + ""@);
        assert("margin-right"@ =~= "margin-"@ + side(false, false) + ""@);
        assert(sided("margin-end"@, "margin-right"@, "margin-"@, false, ""@, false));
    }
    assert(named_by_side(LTR_PROPERTIES@[2].0@, LTR_PROPERTIES@[2].1@, false)) by {
        reveal_strlit("");
        reveal_strlit("left");
        reveal_strlit("padding-");
        reveal_strlit("padding-left");
        reveal_strlit("padding-start");
        reveal_strlit("start");
        assert("padding-start"@ =~= "padding-"@ + edge(true) + ""@);
        assert("padding-left"@ =~= "padding-"@ + side(true, false) + ""@);
        assert(sided("padding-start"@, "padding-left"@, "padding-"@, true, ""@, false));
    }
    assert(named_by_side(LTR_PROPERTIES@[3].0@, LTR_PROPERTIES@[3].1@, false)) by {
        reveal_strlit("");
        reveal_strlit("end");
        reveal_strlit("padding-");
        reveal_strlit("padding-end");
        reveal_strlit("padding-right");
        reveal_strlit("right");
        assert("padding-end"@ =~= "padding-"@ + edge(false) + ""@);
        assert("padding-right"@ =~= "padding-"@ + side(false, false) + ""@);
        assert(sided("padding-end"@, "padding-right"@, "padding-"@, false, ""@, false));
    }
    assert(named_by_side(LTR_PROPERTIES@[4].0@, LTR_PROPERTIES@[4].1@, false)) by {
        reveal_strlit("");
        reveal_strlit("border-");
        reveal_strlit("border-left");
        reveal_strlit("border-start");
        reveal_strlit("left");
        reveal_strlit("start");
        assert("border-start"@ =~= "border-"@ + edge(true) + ""@);
        assert("border-left"@ =~= "border-"@ + side(true, false) + ""@);
        assert(sided("border-start"@, "border-left"@, "border-"@, true, ""@, false));
    }
    assert(named_by_side(LTR_PROPERTIES@[5].0@, LTR_PROPERTIES@[5].1@, false)) by {
        reveal_strlit("");
        reveal_strlit("border-");
        reveal_strlit("border-end");
        reveal_strlit("border-right");
        reveal_strlit("end");
        reveal_strlit("right");
        assert("border-end"@ =~= "border-"@ + edge(false) + ""@);
        assert("border-right"@ =~= "border-"@ + side(false, false) + ""@);
        assert(sided("border-end"@, "border-right"@, "border-"@, false, ""@, false));
    }
    assert(named_by_side(LTR_PROPERTIES@[6].0@, LTR_PROPERTIES@[6].1@, false)) by {
        reveal_strlit("-width");
        reveal_strlit("border-");
        reveal_strlit("border-left-width");
        reveal_strlit("border-start-width");
        reveal_strlit("left");
        reveal_strlit("start");
        assert("border-start-width"@ =~= "border-"@ + edge(true) + "-width"@);
        assert("border-left-width"@ =~= "border-"@ + side(true, false) + "-width"@);
        assert(sided("border-start-width"@, "border-left-width"@, "border-"@, true, "-width"@, false));
    }
    assert(named_by_side(LTR_PROPERTIES@[7].0@, LTR_PROPERTIES@[7].1@, false)) by {
        reveal_strlit("-width");
        reveal_strlit("border-");
        reveal_strlit("border-end-width");
        reveal_strlit("border-right-width");
        reveal_strlit("end");
        reveal_strlit("right");
        assert("border-end-width"@ =~= "border-"@ + edge(false) + "-width"@);
        assert("border-right-width"@ =~= "border-"@ + side(false, false) + "-width"@);
        assert(sided("border-end-width"@, "border-right-width"@, "border-"@, false, "-width"@, false));
    }
    assert(named_by_side(LTR_PROPERTIES@[8].0@, LTR_PROPERTIES@[8].1@, false)) by {
        reveal_strlit("-color");
        reveal_strlit("border-");
        reveal_strlit("border-left-color");
        reveal_strlit("border-start-color");
        reveal_strlit("left");
        reveal_strlit("start");
        assert("border-start-color"@ =~= "border-"@ + edge(true) + "-color"@);
        assert("border-left-color"@ =~= "border-"@ + side(true, false) + "-color"@);
        assert(sided("border-start-color"@, "border-left-color"@, "border-"@, true, "-color"@, false));
    }
    assert(named_by_side(LTR_PROPERTIES@[9].0@, LTR_PROPERTIES@[9].1@, false)) by {
        reveal_strlit("-color");
        reveal_strlit("border-");
        reveal_strlit("border-end-color");
        reveal_strlit("border-right-color");
        reveal_strlit("end");
        reveal_strlit("right");
        assert("border-end-color"@ =~= "border-"@ + edge(false) + "-color"@);
        assert("border-right-color"@ =~= "border-"@ + side(false, false) + "-color"@);
        assert(sided("border-end-color"@, "border-right-color"@, "border-"@, false, "-color"@, false));
    }
    assert(named_by_side(LTR_PROPERTIES@[10].0@, LTR_PROPERTIES@[10].1@, false)) by {
        reveal_strlit("-style");
        reveal_strlit("border-");
        reveal_strlit("border-left-style");
        reveal_strlit("border-start-style");
        reveal_strlit("left");
        reveal_strlit("start");
        assert("border-start-style"@ =~= "border-"@ + edge(true) + "-style"@);
        assert("border-left-style"@ =~= "border-"@ + side(true, false) + "-style"@);
        assert(sided("border-start-style"@, "border-left-style"@, "border-"@, true, "-style"@, false));
    }
    assert(named_by_side(LTR_PROPERTIES@[11].0@, LTR_PROPERTIES@[11].1@, false)) by {
        reveal_strlit("-style");
        reveal_strlit("border-");
        reveal_strlit("border-end-style");
        reveal_strlit("border-right-style");
        reveal_strlit("end");
        reveal_strlit("right");
        assert("border-end-style"@ =~= "border-"@ + edge(false) + "-style"@);
        assert("border-right-style"@ =~= "border-"@ + side(false, false) + "-style"@);
        assert(sided("border-end-style"@, "border-right-style"@, "border-"@, false, "-style"@, false));
    }
    assert(named_by_side(LTR_PROPERTIES@[12].0@, LTR_PROPERTIES@[12].1@, false)) by {
        reveal_strlit("-radius");
        reveal_strlit("border-top-");
        reveal_strlit("border-top-left-radius");
        reveal_strlit("border-top-start-radius");
        reveal_strlit("left");
        reveal_strlit("start");
        assert("border-top-start-radius"@ =~= "border-top-"@ + edge(true) + "-radius"@);
        assert("border-top-left-radius"@ =~= "border-top-"@ + side(true, false) + "-radius"@);
        assert(sided("border-top-start-radius"@, "border-top-left-radius"@, "border-top-"@, true, "-radius"@, false));
    }
    assert(named_by_side(LTR_PROPERTIES@[13].0@, LTR_PROPERTIES@[13].1@, false)) by {
        reveal_strlit("-radius");
        reveal_strlit("border-bottom-");
        reveal_strlit("border-bottom-left-radius");
        reveal_strlit("border-bottom-start-radius");
        reveal_strlit("left");
        reveal_strlit("start");
        assert("border-bottom-start-radius"@ =~= "border-bottom-"@ + edge(true) + "-radius"@);
        assert("border-bottom-left-radius"@ =~= "border-bottom-"@ + side(true, false) + "-radius"@);
        assert(sided("border-bottom-start-radius"@, "border-bottom-left-radius"@, "border-bottom-"@, true, "-radius"@, false));
    }
    assert(named_by_side(LTR_PROPERTIES@[14].0@, LTR_PROPERTIES@[14].1@, false)) by {
        reveal_strlit("-radius");
        reveal_strlit("border-top-");
        reveal_strlit("border-top-end-radius");
        reveal_strlit("border-top-right-radius");
        reveal_strlit("end");
        reveal_strlit("right");
        assert("border-top-end-radius"@ =~= "border-top-"@ + edge(false) + "-radius"@);
        assert("border-top-right-radius"@ =~= "border-top-"@ + side(false, false) + "-radius"@);
        assert(sided("border-top-end-radius"@, "border-top-right-radius"@, "border-top-"@, false, "-radius"@, false));
    }
    assert(named_by_side(LTR_PROPERTIES@[15].0@, LTR_PROPERTIES@[15].1@, false)) by {
        reveal_strlit("-radius");
        reveal_strlit("border-bottom-");
        reveal_strlit("border-bottom-end-radius");
        reveal_strlit("border-bottom-right-radius");
        reveal_strlit("end");
        reveal_strlit("right");
        assert("border-bottom-end-radius"@ =~= "border-bottom-"@ + edge(false) + "-radius"@);
        assert("border-bottom-right-radius"@ =~= "border-bottom-"@ + side(false, false) + "-radius"@);
        assert(sided("border-bottom-end-radius"@, "border-bottom-right-radius"@, "border-bottom-"@, false, "-radius"@, false));
    }
    assert(named_by_side(LTR_PROPERTIES@[16].0@, LTR_PROPERTIES@[16].1@, false)) by {
        reveal_strlit("");
        reveal_strlit("left");
        reveal_strlit("start");
        assert("start"@ =~= ""@ + edge(true) + ""@);
        assert("left"@ =~= ""@ + side(true, false) + ""@);
        assert(sided("start"@, "left"@, ""@, true, ""@, false));
    }
    assert(named_by_side(LTR_PROPERTIES@[17].0@, LTR_PROPERTIES@[17].1@, false)) by {
        reveal_strlit("");
        reveal_strlit("end");
        reveal_strlit("right");
        assert("end"@ =~= ""@ + edge(false) + ""@);
        assert("right"@ =~= ""@ + side(false, false) + ""@);
        assert(sided("end"@, "right"@, ""@, false, ""@, false));
    }
    assert forall|i: int| 0 <= i < LTR_PROPERTIES@.len() implies named_by_side(
        (#[trigger] LTR_PROPERTIES@[i]).0@,
        LTR_PROPERTIES@[i].1@,
        false,
    ) by {
        assert(i == 0 || i == 1 || i == 2 || i == 3 || i == 4 || i == 5 || i == 6 || i == 7 || i == 8 || i == 9 || i == 10 || i == 11 || i == 12 || i == 13 || i == 14 || i == 15 || i == 16 || i == 17);
    }
}

proof fn lemma_rtl_properties()
    ensures
        all_named(RTL_PROPERTIES@, true),
{
    assert(named_by_side(RTL_PROPERTIES@[0].0@, RTL_PROPERTIES@[0].1@, true)) by {
        reveal_strlit("");
        reveal_strlit("margin-");
        reveal_strlit("margin-right");
        reveal_strlit("margin-start");
        reveal_strlit("right");
        reveal_strlit("start");
        assert("margin-start"@ =~= "margin-"@ + edge(true) + ""@);
        assert("margin-right"@ =~= "margin-"@ + side(true, true) + ""@);
        assert(sided("margin-start"@, "margin-right"@, "margin-"@, true, ""@, true));
    }
    assert(named_by_side(RTL_PROPERTIES@[1].0@, RTL_PROPERTIES@[1].1@, true)) by {
        reveal_strlit("");
        reveal_strlit("end");
        reveal_strlit("left");
        reveal_strlit("margin-");
        reveal_strlit("margin-end");
        reveal_strlit("margin-left");
        assert("margin-end"@ =~= "margin-"@ + edge(false) + ""@);
        assert("margin-left"@ =~= "margin-"@ + side(false, true) + ""@);
        assert(sided("margin-end"@, "margin-left"@, "margin-"@, false, ""@, true));
    }
    assert(named_by_side(RTL_PROPERTIES@[2].0@, RTL_PROPERTIES@[2].1@, true)) by {
        reveal_strlit("");
        reveal_strlit("padding-");
        reveal_strlit("padding-right");
        reveal_strlit("padding-start");
        reveal_strlit("right");
        reveal_strlit("start");
        assert("padding-start"@ =~= "padding-"@ + edge(true) + ""@);
        assert("padding-right"@ =~= "padding-"@ + side(true, true) + ""@);
        assert(sided("padding-start"@, "padding-right"@, "padding-"@, true, ""@, true));
    }
    assert(named_by_side(RTL_PROPERTIES@[3].0@, RTL_PROPERTIES@[3].1@, true)) by {
        reveal_strlit("");
        reveal_strlit("end");
        reveal_strlit("left");
        reveal_strlit("padding-");
        reveal_strlit("padding-end");
        reveal_strlit("padding-left");
        assert("padding-end"@ =~= "padding-"@ + edge(false) + ""@);
        assert("padding-left"@ =~= "padding-"@ + side(false, true) + ""@);
        assert(sided("padding-end"@, "padding-left"@, "padding-"@, false, ""@, true));
    }
    assert(named_by_side(RTL_PROPERTIES@[4].0@, RTL_PROPERTIES@[4].1@, true)) by {
        reveal_strlit("");
        reveal_strlit("border-");
        reveal_strlit("border-right");
        reveal_strlit("border-start");
        reveal_strlit("right");
        reveal_strlit("start");
        assert("border-start"@ =~= "border-"@ + edge(true) + ""@);
        assert("border-right"@ =~= "border-"@ + side(true, true) + ""@);
        assert(sided("border-start"@, "border-right"@, "border-"@, true, ""@, true));
    }
    assert(named_by_side(RTL_PROPERTIES@[5].0@, RTL_PROPERTIES@[5].1@, true)) by {
        reveal_strlit("");
        reveal_strlit("border-");
        reveal_strlit("border-end");
        reveal_strlit("border-left");
        reveal_strlit("end");
        reveal_strlit("left");
        assert("border-end"@ =~= "border-"@ + edge(false) + ""@);
        assert("border-left"@ =~= "border-"@ + side(false, true) + ""@);
        assert(sided("border-end"@, "border-left"@, "border-"@, false, ""@, true));
    }
    assert(named_by_side(RTL_PROPERTIES@[6].0@, RTL_PROPERTIES@[6].1@, true)) by {
        reveal_strlit("-width");
        reveal_strlit("border-");
        reveal_strlit("border-right-width");
        reveal_strlit("border-start-width");
        reveal_strlit("right");
        reveal_strlit("start");
        assert("border-start-width"@ =~= "border-"@ + edge(true) + "-width"@);
        assert("border-right-width"@ =~= "border-"@ + side(true, true) + "-width"@);
        assert(sided("border-start-width"@, "border-right-width"@, "border-"@, true, "-width"@, true));
    }
    assert(named_by_side(RTL_PROPERTIES@[7].0@, RTL_PROPERTIES@[7].1@, true)) by {
        reveal_strlit("-width");
        reveal_strlit("border-");
        reveal_strlit("border-end-width");
        reveal_strlit("border-left-width");
        reveal_strlit("end");
        reveal_strlit("left");
        assert("border-end-width"@ =~= "border-"@ + edge(false) + "-width"@);
        assert("border-left-width"@ =~= "border-"@ + side(false, true) + "-width"@);
        assert(sided("border-end-width"@, "border-left-width"@, "border-"@, false, "-width"@, true));
    }
    assert(named_by_side(RTL_PROPERTIES@[8].0@, RTL_PROPERTIES@[8].1@, true)) by {
        reveal_strlit("-color");
        reveal_strlit("border-");
        reveal_strlit("border-right-color");
        reveal_strlit("border-start-color");
        reveal_strlit("right");
        reveal_strlit("start");
        assert("border-start-color"@ =~= "border-"@ + edge(true) + "-color"@);
        assert("border-right-color"@ =~= "border-"@ + side(true, true) + "-color"@);
        assert(sided("border-start-color"@, "border-right-color"@, "border-"@, true, "-color"@, true));
    }
    assert(named_by_side(RTL_PROPERTIES@[9].0@, RTL_PROPERTIES@[9].1@, true)) by {
        reveal_strlit("-color");
        reveal_strlit("border-");
        reveal_strlit("border-end-color");
        reveal_strlit("border-left-color");
        reveal_strlit("end");
        reveal_strlit("left");
        assert("border-end-color"@ =~= "border-"@ + edge(false) + "-color"@);
        assert("border-left-color"@ =~= "border-"@ + side(false, true) + "-color"@);
        assert(sided("border-end-color"@, "border-left-color"@, "border-"@, false, "-color"@, true));
    }
    assert(named_by_side(RTL_PROPERTIES@[10].0@, RTL_PROPERTIES@[10].1@, true)) by {
        reveal_strlit("-style");
        reveal_strlit("border-");
        reveal_strlit("border-right-style");
        reveal_strlit("border-start-style");
        reveal_strlit("right");
        reveal_strlit("start");
        assert("border-start-style"@ =~= "border-"@ + edge(true) + "-style"@);
        assert("border-right-style"@ =~= "border-"@ + side(true, true) + "-style"@);
        assert(sided("border-start-style"@, "border-right-style"@, "border-"@, true, "-style"@, true));
    }
    assert(named_by_side(RTL_PROPERTIES@[11].0@, RTL_PROPERTIES@[11].1@, true)) by {
        reveal_strlit("-style");
        reveal_strlit("border-");
        reveal_strlit("border-end-style");
        reveal_strlit("border-left-style");
        reveal_strlit("end");
        reveal_strlit("left");
        assert("border-end-style"@ =~= "border-"@ + edge(false) + "-style"@);
        assert("border-left-style"@ =~= "border-"@ + side(false, true) + "-style"@);
        assert(sided("border-end-style"@, "border-left-style"@, "border-"@, false, "-style"@, true));
    }
    assert(named_by_side(RTL_PROPERTIES@[12].0@, RTL_PROPERTIES@[12].1@, true)) by {
        reveal_strlit("-radius");
        reveal_strlit("border-top-");
        reveal_strlit("border-top-right-radius");
        reveal_strlit("border-top-start-radius");
        reveal_strlit("right");
        reveal_strlit("start");
        assert("border-top-start-radius"@ =~= "border-top-"@ + edge(true) + "-radius"@);
        assert("border-top-right-radius"@ =~= "border-top-"@ + side(true, true) + "-radius"@);
        assert(sided("border-top-start-radius"@, "border-top-right-radius"@, "border-top-"@, true, "-radius"@, true));
    }
    assert(named_by_side(RTL_PROPERTIES@[13].0@, RTL_PROPERTIES@[13].1@, true)) by {
        reveal_strlit("-radius");
        reveal_strlit("border-bottom-");
        reveal_strlit("border-bottom-right-radius");
        reveal_strlit("border-bottom-start-radius");
        reveal_strlit("right");
        reveal_strlit("start");
        assert("border-bottom-start-radius"@ =~= "border-bottom-"@ + edge(true) + "-radius"@);
        assert("border-bottom-right-radius"@ =~= "border-bottom-"@ + side(true, true) + "-radius"@);
        assert(sided("border-bottom-start-radius"@, "border-bottom-right-radius"@, "border-bottom-"@, true, "-radius"@, true));
    }
    assert(named_by_side(RTL_PROPERTIES@[14].0@, RTL_PROPERTIES@[14].1@, true)) by {
        reveal_strlit("-radius");
        reveal_strlit("border-top-");
        reveal_strlit("border-top-end-radius");
        reveal_strlit("border-top-left-radius");
        reveal_strlit("end");
        reveal_strlit("left");
        assert("border-top-end-radius"@ =~= "border-top-"@ + edge(false) + "-radius"@);
        assert("border-top-left-radius"@ =~= "border-top-"@ + side(false, true) + "-radius"@);
        assert(sided("border-top-end-radius"@, "border-top-left-radius"@, "border-top-"@, false, "-radius"@, true));
    }
    assert(named_by_side(RTL_PROPERTIES@[15].0@, RTL_PROPERTIES@[15].1@, true)) by {
        reveal_strlit("-radius");
        reveal_strlit("border-bottom-");
        reveal_strlit("border-bottom-end-radius");
        reveal_strlit("border-bottom-left-radius");
        reveal_strlit("end");
        reveal_strlit("left");
        assert("border-bottom-end-radius"@ =~= "border-bottom-"@ + edge(false) + "-radius"@);
        assert("border-bottom-left-radius"@ =~= "border-bottom-"@ + side(false, true) + "-radius"@);
        assert(sided("border-bottom-end-radius"@, "border-bottom-left-radius"@, "border-bottom-"@, false, "-radius"@, true));
    }
    assert(named_by_side(RTL_PROPERTIES@[16].0@, RTL_PROPERTIES@[16].1@, true)) by {
        reveal_strlit("");
        reveal_strlit("right");
        reveal_strlit("start");
        assert("start"@ =~= ""@ + edge(true) + ""@);
        assert("right"@ =~= ""@ + side(true, true) + ""@);
        assert(sided("start"@, "right"@, ""@, true, ""@, true));
    }
    assert(named_by_side(RTL_PROPERTIES@[17].0@, RTL_PROPERTIES@[17].1@, true)) by {
        reveal_strlit("");
        reveal_strlit("end");
        reveal_strlit("left");
        assert("end"@ =~= ""@ + edge(false) + ""@);
        assert("left"@ =~= ""@ + side(false, true) + ""@);
        assert(sided("end"@, "left"@, ""@, false, ""@, true));
    }
    assert forall|i: int| 0 <= i < RTL_PROPERTIES@.len() implies named_by_side(
        (#[trigger] RTL_PROPERTIES@[i]).0@,
        RTL_PROPERTIES@[i].1@,
        true,
    ) by {
        assert(i == 0 || i == 1 || i == 2 || i == 3 || i == 4 || i == 5 || i == 6 || i == 7 || i == 8 || i == 9 || i == 10 || i == 11 || i == 12 || i == 13 || i == 14 || i == 15 || i == 16 || i == 17);
    }
}

proof fn lemma_inline_ltr_properties()
    ensures
        all_named(INLINE_LTR_PROPERTIES@, false),
{
    assert(named_by_side(INLINE_LTR_PROPERTIES@[0].0@, INLINE_LTR_PROPERTIES@[0].1@, false)) by {
        reveal_strlit("");
        reveal_strlit("inline-");
        reveal_strlit("left");
        reveal_strlit("margin-");
        reveal_strlit("margin-inline-start");
        reveal_strlit("margin-left");
        reveal_strlit("start");
        assert("margin-inline-start"@ =~= "margin-"@ + "inline-"@ + edge(true) + ""@);
        assert("margin-left"@ =~= "margin-"@ + side(true, false) + ""@);
        assert(sided("margin-inline-start"@, "margin-left"@, "margin-"@, true, ""@, false));
    }
    assert(named_by_side(INLINE_LTR_PROPERTIES@[1].0@, INLINE_LTR_PROPERTIES@[1].1@, false)) by {
        reveal_strlit("");
        reveal_strlit("end");
        reveal_strlit("inline-");
        reveal_strlit("margin-");
        reveal_strlit("margin-inline-end");
        reveal_strlit("margin-right");
        reveal_strlit("right");
        assert("margin-inline-end"@ =~= "margin-"@ + "inline-"@ + edge(false) + ""@);
        assert("margin-right"@ =~= "margin-"@ + side(false, false) + ""@);
        assert(sided("margin-inline-end"@, "margin-right"@, "margin-"@, false, ""@, false));
    }
    assert(named_by_side(INLINE_LTR_PROPERTIES@[2].0@, INLINE_LTR_PROPERTIES@[2].1@, false)) by {
        reveal_strlit("");
        reveal_strlit("inline-");
        reveal_strlit("left");
        reveal_strlit("padding-");
        reveal_strlit("padding-inline-start");
        reveal_strlit("padding-left");
        reveal_strlit("start");
        assert("padding-inline-start"@ =~= "padding-"@ + "inline-"@ + edge(true) + ""@);
        assert("padding-left"@ =~= "padding-"@ + side(true, false) + ""@);
        assert(sided("padding-inline-start"@, "padding-left"@, "padding-"@, true, ""@, false));
    }
    assert(named_by_side(INLINE_LTR_PROPERTIES@[3].0@, INLINE_LTR_PROPERTIES@[3].1@, false)) by {
        reveal_strlit("");
        reveal_strlit("end");
        reveal_strlit("inline-");
        reveal_strlit("padding-");
        reveal_strlit("padding-inline-end");
        reveal_strlit("padding-right");
        reveal_strlit("right");
        assert("padding-inline-end"@ =~= "padding-"@ + "inline-"@ + edge(false) + ""@);
        assert("padding-right"@ =~= "padding-"@ + side(false, false) + ""@);
        assert(sided("padding-inline-end"@, "padding-right"@, "padding-"@, false, ""@, false));
    }
    assert(named_by_side(INLINE_LTR_PROPERTIES@[4].0@, INLINE_LTR_PROPERTIES@[4].1@, false)) by {
        reveal_strlit("");
        reveal_strlit("border-");
        reveal_strlit("border-inline-start");
        reveal_strlit("border-left");
        reveal_strlit("inline-");
        reveal_strlit("left");
        reveal_strlit("start");
        assert("border-inline-start"@ =~= "border-"@ + "inline-"@ + edge(true) + ""@);
        assert("border-left"@ =~= "border-"@ + side(true, false) + ""@);
        assert(sided("border-inline-start"@, "border-left"@, "border-"@, true, ""@, false));
    }
    assert(named_by_side(INLINE_LTR_PROPERTIES@[5].0@, INLINE_LTR_PROPERTIES@[5].1@, false)) by {
        reveal_strlit("");
        reveal_strlit("border-");
        reveal_strlit("border-inline-end");
        reveal_strlit("border-right");
        reveal_strlit("end");
        reveal_strlit("inline-");
        reveal_strlit("right");
        assert("border-inline-end"@ =~= "border-"@ + "inline-"@ + edge(false) + ""@);
        assert("border-right"@ =~= "border-"@ + side(false, false) + ""@);
        assert(sided("border-inline-end"@, "border-right"@, "border-"@, false, ""@, false));
    }
    assert(named_by_side(INLINE_LTR_PROPERTIES@[6].0@, INLINE_LTR_PROPERTIES@[6].1@, false)) by {
        reveal_strlit("-width");
        reveal_strlit("border-");
        reveal_strlit("border-inline-start-width");
        reveal_strlit("border-left-width");
        reveal_strlit("inline-");
        reveal_strlit("left");
        reveal_strlit("start");
        assert("border-inline-start-width"@ =~= "border-"@ + "inline-"@ + edge(true) + "-width"@);
        assert("border-left-width"@ =~= "border-"@ + side(true, false) + "-width"@);
        assert(sided("border-inline-start-width"@, "border-left-width"@, "border-"@, true, "-width"@, false));
    }
    assert(named_by_side(INLINE_LTR_PROPERTIES@[7].0@, INLINE_LTR_PROPERTIES@[7].1@, false)) by {
        reveal_strlit("-width");
        reveal_strlit("border-");
        reveal_strlit("border-inline-end-width");
        reveal_strlit("border-right-width");
        reveal_strlit("end");
        reveal_strlit("inline-");
        reveal_strlit("right");
        assert("border-inline-end-width"@ =~= "border-"@ + "inline-"@ + edge(false) + "-width"@);
        assert("border-right-width"@ =~= "border-"@ + side(false, false) + "-width"@);
        assert(sided("border-inline-end-width"@, "border-right-width"@, "border-"@, false, "-width"@, false));
    }
    assert(named_by_side(INLINE_LTR_PROPERTIES@[8].0@, INLINE_LTR_PROPERTIES@[8].1@, false)) by {
        reveal_strlit("-color");
        reveal_strlit("border-");
        reveal_strlit("border-inline-start-color");
        reveal_strlit("border-left-color");
        reveal_strlit("inline-");
        reveal_strlit("left");
        reveal_strlit("start");
        assert("border-inline-start-color"@ =~= "border-"@ + "inline-"@ + edge(true) + "-color"@);
        assert("border-left-color"@ =~= "border-"@ + side(true, false) + "-color"@);
        assert(sided("border-inline-start-color"@, "border-left-color"@, "border-"@, true, "-color"@, false));
    }
    assert(named_by_side(INLINE_LTR_PROPERTIES@[9].0@, INLINE_LTR_PROPERTIES@[9].1@, false)) by {
        reveal_strlit("-color");
        reveal_strlit("border-");
        reveal_strlit("border-inline-end-color");
        reveal_strlit("border-right-color");
        reveal_strlit("end");
        reveal_strlit("inline-");
        reveal_strlit("right");
        assert("border-inline-end-color"@ =~= "border-"@ + "inline-"@ + edge(false) + "-color"@);
        assert("border-right-color"@ =~= "border-"@ + side(false, false) + "-color"@);
        assert(sided("border-inline-end-color"@, "border-right-color"@, "border-"@, false, "-color"@, false));
    }
    assert(named_by_side(INLINE_LTR_PROPERTIES@[10].0@, INLINE_LTR_PROPERTIES@[10].1@, false)) by {
        reveal_strlit("-style");
        reveal_strlit("border-");
        reveal_strlit("border-inline-start-style");
        reveal_strlit("border-left-style");
        reveal_strlit("inline-");
        reveal_strlit("left");
        reveal_strlit("start");
        assert("border-inline-start-style"@ =~= "border-"@ + "inline-"@ + edge(true) + "-style"@);
        assert("border-left-style"@ =~= "border-"@ + side(true, false) + "-style"@);
        assert(sided("border-inline-start-style"@, "border-left-style"@, "border-"@, true, "-style"@, false));
    }
    assert(named_by_side(INLINE_LTR_PROPERTIES@[11].0@, INLINE_LTR_PROPERTIES@[11].1@, false)) by {
        reveal_strlit("-style");
        reveal_strlit("border-");
        reveal_strlit("border-inline-end-style");
        reveal_strlit("border-right-style");
        reveal_strlit("end");
        reveal_strlit("inline-");
        reveal_strlit("right");
        assert("border-inline-end-style"@ =~= "border-"@ + "inline-"@ + edge(false) + "-style"@);
        assert("border-right-style"@ =~= "border-"@ + side(false, false) + "-style"@);
        assert(sided("border-inline-end-style"@, "border-right-style"@, "border-"@, false, "-style"@, false));
    }
    assert(named_by_side(INLINE_LTR_PROPERTIES@[12].0@, INLINE_LTR_PROPERTIES@[12].1@, false)) by {
        reveal_strlit("-radius");
        reveal_strlit("border-start-");
        reveal_strlit("border-start-start-radius");
        reveal_strlit("border-top-");
        reveal_strlit("border-top-left-radius");
        reveal_strlit("left");
        reveal_strlit("start");
        assert("border-start-start-radius"@ =~= "border-start-"@ + edge(true) + "-radius"@);
        assert("border-top-left-radius"@ =~= "border-top-"@ + side(true, false) + "-radius"@);
        assert(sided("border-start-start-radius"@, "border-top-left-radius"@, "border-top-"@, true, "-radius"@, false));
    }
    assert(named_by_side(INLINE_LTR_PROPERTIES@[13].0@, INLINE_LTR_PROPERTIES@[13].1@, false)) by {
        reveal_strlit("-radius");
        reveal_strlit("border-start-");
        reveal_strlit("border-start-end-radius");
        reveal_strlit("border-top-");
        reveal_strlit("border-top-right-radius");
        reveal_strlit("end");
        reveal_strlit("right");
        assert("border-start-end-radius"@ =~= "border-start-"@ + edge(false) + "-radius"@);
        assert("border-top-right-radius"@ =~= "border-top-"@ + side(false, false) + "-radius"@);
        assert(sided("border-start-end-radius"@, "border-top-right-radius"@, "border-top-"@, false, "-radius"@, false));
    }
    assert(named_by_side(INLINE_LTR_PROPERTIES@[14].0@, INLINE_LTR_PROPERTIES@[14].1@, false)) by {
        reveal_strlit("-radius");
        reveal_strlit("border-bottom-");
        reveal_strlit("border-bottom-left-radius");
        reveal_strlit("border-end-");
        reveal_strlit("border-end-start-radius");
        reveal_strlit("left");
        reveal_strlit("start");
        assert("border-end-start-radius"@ =~= "border-end-"@ + edge(true) + "-radius"@);
        assert("border-bottom-left-radius"@ =~= "border-bottom-"@ + side(true, false) + "-radius"@);
        assert(sided("border-end-start-radius"@, "border-bottom-left-radius"@, "border-bottom-"@, true, "-radius"@, false));
    }
    assert(named_by_side(INLINE_LTR_PROPERTIES@[15].0@, INLINE_LTR_PROPERTIES@[15].1@, false)) by {
        reveal_strlit("-radius");
        reveal_strlit("border-bottom-");
        reveal_strlit("border-bottom-right-radius");
        reveal_strlit("border-end-");
        reveal_strlit("border-end-end-radius");
        reveal_strlit("end");
        reveal_strlit("right");
        assert("border-end-end-radius"@ =~= "border-end-"@ + edge(false) + "-radius"@);
        assert("border-bottom-right-radius"@ =~= "border-bottom-"@ + side(false, false) + "-radius"@);
        assert(sided("border-end-end-radius"@, "border-bottom-right-radius"@, "border-bottom-"@, false, "-radius"@, false));
    }
    assert(named_by_side(INLINE_LTR_PROPERTIES@[16].0@, INLINE_LTR_PROPERTIES@[16].1@, false)) by {
        reveal_strlit("");
        reveal_strlit("inset-inline-");
        reveal_strlit("inset-inline-start");
        reveal_strlit("left");
        reveal_strlit("start");
        assert("inset-inline-start"@ =~= "inset-inline-"@ + edge(true) + ""@);
        assert("left"@ =~= ""@ + side(true, false) + ""@);
        assert(sided("inset-inline-start"@, "left"@, ""@, true, ""@, false));
    }
    assert(named_by_side(INLINE_LTR_PROPERTIES@[17].0@, INLINE_LTR_PROPERTIES@[17].1@, false)) by {
        reveal_strlit("");
        reveal_strlit("end");
        reveal_strlit("inset-inline-");
        reveal_strlit("inset-inline-end");
        reveal_strlit("right");
        assert("inset-inline-end"@ =~= "inset-inline-"@ + edge(false) + ""@);
        assert("right"@ =~= ""@ + side(false, false) + ""@);
        assert(sided("inset-inline-end"@, "right"@, ""@, false, ""@, false));
    }
    assert forall|i: int| 0 <= i < INLINE_LTR_PROPERTIES@.len() implies named_by_side(
        (#[trigger] INLINE_LTR_PROPERTIES@[i]).0@,
        INLINE_LTR_PROPERTIES@[i].1@,
        false,
    ) by {
        assert(i == 0 || i == 1 || i == 2 || i == 3 || i == 4 || i == 5 || i == 6 || i == 7 || i == 8 || i == 9 || i == 10 || i == 11 || i == 12 || i == 13 || i == 14 || i == 15 || i == 16 || i == 17);
    }
}

proof fn lemma_inline_rtl_properties()
    ensures
        all_named(INLINE_RTL_PROPERTIES@, true),
{
    assert(named_by_side(INLINE_RTL_PROPERTIES@[0].0@, INLINE_RTL_PROPERTIES@[0].1@, true)) by {
        reveal_strlit("");
        reveal_strlit("inline-");
        reveal_strlit("margin-");
        reveal_strlit("margin-inline-start");
        reveal_strlit("margin-right");
        reveal_strlit("right");
        reveal_strlit("start");
        assert("margin-inline-start"@ =~= "margin-"@ + "inline-"@ + edge(true) + ""@);
        assert("margin-right"@ =~= "margin-"@ + side(true, true) + ""@);
        assert(sided("margin-inline-start"@, "margin-right"@, "margin-"@, true, ""@, true));
    }
    assert(named_by_side(INLINE_RTL_PROPERTIES@[1].0@, INLINE_RTL_PROPERTIES@[1].1@, true)) by {
        reveal_strlit("");
        reveal_strlit("end");
        reveal_strlit("inline-");
        reveal_strlit("left");
        reveal_strlit("margin-");
        reveal_strlit("margin-inline-end");
        reveal_strlit("margin-left");
        assert("margin-inline-end"@ =~= "margin-"@ + "inline-"@ + edge(false) + ""@);
        assert("margin-left"@ =~= "margin-"@ + side(false, true) + ""@);
        assert(sided("margin-inline-end"@, "margin-left"@, "margin-"@, false, ""@, true));
    }
    assert(named_by_side(INLINE_RTL_PROPERTIES@[2].0@, INLINE_RTL_PROPERTIES@[2].1@, true)) by {
        reveal_strlit("");
        reveal_strlit("inline-");
        reveal_strlit("padding-");
        reveal_strlit("padding-inline-start");
        reveal_strlit("padding-right");
        reveal_strlit("right");
        reveal_strlit("start");
        assert("padding-inline-start"@ =~= "padding-"@ + "inline-"@ + edge(true) + ""@);
        assert("padding-right"@ =~= "padding-"@ + side(true, true) + ""@);
        assert(sided("padding-inline-start"@, "padding-right"@, "padding-"@, true, ""@, true));
    }
    assert(named_by_side(INLINE_RTL_PROPERTIES@[3].0@, INLINE_RTL_PROPERTIES@[3].1@, true)) by {
        reveal_strlit("");
        reveal_strlit("end");
        reveal_strlit("inline-");
        reveal_strlit("left");
        reveal_strlit("padding-");
        reveal_strlit("padding-inline-end");
        reveal_strlit("padding-left");
        assert("padding-inline-end"@ =~= "padding-"@ + "inline-"@ + edge(false) + ""@);
        assert("padding-left"@ =~= "padding-"@ + side(false, true) + ""@);
        assert(sided("padding-inline-end"@, "padding-left"@, "padding-"@, false, ""@, true));
    }
    assert(named_by_side(INLINE_RTL_PROPERTIES@[4].0@, INLINE_RTL_PROPERTIES@[4].1@, true)) by {
        reveal_strlit("");
        reveal_strlit("border-");
        reveal_strlit("border-inline-start");
        reveal_strlit("border-right");
        reveal_strlit("inline-");
        reveal_strlit("right");
        reveal_strlit("start");
        assert("border-inline-start"@ =~= "border-"@ + "inline-"@ + edge(true) + ""@);
        assert("border-right"@ =~= "border-"@ + side(true, true) + ""@);
        assert(sided("border-inline-start"@, "border-right"@, "border-"@, true, ""@, true));
    }
    assert(named_by_side(INLINE_RTL_PROPERTIES@[5].0@, INLINE_RTL_PROPERTIES@[5].1@, true)) by {
        reveal_strlit("");
        reveal_strlit("border-");
        reveal_strlit("border-inline-end");
        reveal_strlit("border-left");
        reveal_strlit("end");
        reveal_strlit("inline-");
        reveal_strlit("left");
        assert("border-inline-end"@ =~= "border-"@ + "inline-"@ + edge(false) + ""@);
        assert("border-left"@ =~= "border-"@ + side(false, true) + ""@);
        assert(sided("border-inline-end"@, "border-left"@, "border-"@, false, ""@, true));
    }
    assert(named_by_side(INLINE_RTL_PROPERTIES@[6].0@, INLINE_RTL_PROPERTIES@[6].1@, true)) by {
        reveal_strlit("-width");
        reveal_strlit("border-");
        reveal_strlit("border-inline-start-width");
        reveal_strlit("border-right-width");
        reveal_strlit("inline-");
        reveal_strlit("right");
        reveal_strlit("start");
        assert("border-inline-start-width"@ =~= "border-"@ + "inline-"@ + edge(true) + "-width"@);
        assert("border-right-width"@ =~= "border-"@ + side(true, true) + "-width"@);
        assert(sided("border-inline-start-width"@, "border-right-width"@, "border-"@, true, "-width"@, true));
    }
    assert(named_by_side(INLINE_RTL_PROPERTIES@[7].0@, INLINE_RTL_PROPERTIES@[7].1@, true)) by {
        reveal_strlit("-width");
        reveal_strlit("border-");
        reveal_strlit("border-inline-end-width");
        reveal_strlit("border-left-width");
        reveal_strlit("end");
        reveal_strlit("inline-");
        reveal_strlit("left");
        assert("border-inline-end-width"@ =~= "border-"@ + "inline-"@ + edge(false) + "-width"@);
        assert("border-left-width"@ =~= "border-"@ + side(false, true) + "-width"@);
        assert(sided("border-inline-end-width"@, "border-left-width"@, "border-"@, false, "-width"@, true));
    }
    assert(named_by_side(INLINE_RTL_PROPERTIES@[8].0@, INLINE_RTL_PROPERTIES@[8].1@, true)) by {
        reveal_strlit("-color");
        reveal_strlit("border-");
        reveal_strlit("border-inline-start-color");
        reveal_strlit("border-right-color");
        reveal_strlit("inline-");
        reveal_strlit("right");
        reveal_strlit("start");
        assert("border-inline-start-color"@ =~= "border-"@ + "inline-"@ + edge(true) + "-color"@);
        assert("border-right-color"@ =~= "border-"@ + side(true, true) + "-color"@);
        assert(sided("border-inline-start-color"@, "border-right-color"@, "border-"@, true, "-color"@, true));
    }
    assert(named_by_side(INLINE_RTL_PROPERTIES@[9].0@, INLINE_RTL_PROPERTIES@[9].1@, true)) by {
        reveal_strlit("-color");
        reveal_strlit("border-");
        reveal_strlit("border-inline-end-color");
        reveal_strlit("border-left-color");
        reveal_strlit("end");
        reveal_strlit("inline-");
        reveal_strlit("left");
        assert("border-inline-end-color"@ =~= "border-"@ + "inline-"@ + edge(false) + "-color"@);
        assert("border-left-color"@ =~= "border-"@ + side(false, true) + "-color"@);
        assert(sided("border-inline-end-color"@, "border-left-color"@, "border-"@, false, "-color"@, true));
    }
    assert(named_by_side(INLINE_RTL_PROPERTIES@[10].0@, INLINE_RTL_PROPERTIES@[10].1@, true)) by {
        reveal_strlit("-style");
        reveal_strlit("border-");
        reveal_strlit("border-inline-start-style");
        reveal_strlit("border-right-style");
        reveal_strlit("inline-");
        reveal_strlit("right");
        reveal_strlit("start");
        assert("border-inline-start-style"@ =~= "border-"@ + "inline-"@ + edge(true) + "-style"@);
        assert("border-right-style"@ =~= "border-"@ + side(true, true) + "-style"@);
        assert(sided("border-inline-start-style"@, "border-right-style"@, "border-"@, true, "-style"@, true));
    }
    assert(named_by_side(INLINE_RTL_PROPERTIES@[11].0@, INLINE_RTL_PROPERTIES@[11].1@, true)) by {
        reveal_strlit("-style");
        reveal_strlit("border-");
        reveal_strlit("border-inline-end-style");
        reveal_strlit("border-left-style");
        reveal_strlit("end");
        reveal_strlit("inline-");
        reveal_strlit("left");
        assert("border-inline-end-style"@ =~= "border-"@ + "inline-"@ + edge(false) + "-style"@);
        assert("border-left-style"@ =~= "border-"@ + side(false, true) + "-style"@);
        assert(sided("border-inline-end-style"@, "border-left-style"@, "border-"@, false, "-style"@, true));
    }
    assert(named_by_side(INLINE_RTL_PROPERTIES@[12].0@, INLINE_RTL_PROPERTIES@[12].1@, true)) by {
        reveal_strlit("-radius");
        reveal_strlit("border-start-");
        reveal_strlit("border-start-start-radius");
        reveal_strlit("border-top-");
        reveal_strlit("border-top-right-radius");
        reveal_strlit("right");
        reveal_strlit("start");
        assert("border-start-start-radius"@ =~= "border-start-"@ + edge(true) + "-radius"@);
        assert("border-top-right-radius"@ =~= "border-top-"@ + side(true, true) + "-radius"@);
        assert(sided("border-start-start-radius"@, "border-top-right-radius"@, "border-top-"@, true, "-radius"@, true));
    }
    assert(named_by_side(INLINE_RTL_PROPERTIES@[13].0@, INLINE_RTL_PROPERTIES@[13].1@, true)) by {
        reveal_strlit("-radius");
        reveal_strlit("border-start-");
        reveal_strlit("border-start-end-radius");
        reveal_strlit("border-top-");
        reveal_strlit("border-top-left-radius");
        reveal_strlit("end");
        reveal_strlit("left");
        assert("border-start-end-radius"@ =~= "border-start-"@ + edge(false) + "-radius"@);
        assert("border-top-left-radius"@ =~= "border-top-"@ + side(false, true) + "-radius"@);
        assert(sided("border-start-end-radius"@, "border-top-left-radius"@, "border-top-"@, false, "-radius"@, true));
    }
    assert(named_by_side(INLINE_RTL_PROPERTIES@[14].0@, INLINE_RTL_PROPERTIES@[14].1@, true)) by {
        reveal_strlit("-radius");
        reveal_strlit("border-bottom-");
        reveal_strlit("border-bottom-right-radius");
        reveal_strlit("border-end-");
        reveal_strlit("border-end-start-radius");
        reveal_strlit("right");
        reveal_strlit("start");
        assert("border-end-start-radius"@ =~= "border-end-"@ + edge(true) + "-radius"@);
        assert("border-bottom-right-radius"@ =~= "border-bottom-"@ + side(true, true) + "-radius"@);
        assert(sided("border-end-start-radius"@, "border-bottom-right-radius"@, "border-bottom-"@, true, "-radius"@, true));
    }
    assert(named_by_side(INLINE_RTL_PROPERTIES@[15].0@, INLINE_RTL_PROPERTIES@[15].1@, true)) by {
        reveal_strlit("-radius");
        reveal_strlit("border-bottom-");
        reveal_strlit("border-bottom-left-radius");
        reveal_strlit("border-end-");
        reveal_strlit("border-end-end-radius");
        reveal_strlit("end");
        reveal_strlit("left");
        assert("border-end-end-radius"@ =~= "border-end-"@ + edge(false) + "-radius"@);
        assert("border-bottom-left-radius"@ =~= "border-bottom-"@ + side(false, true) + "-radius"@);
        assert(sided("border-end-end-radius"@, "border-bottom-left-radius"@, "border-bottom-"@, false, "-radius"@, true));
    }
    assert(named_by_side(INLINE_RTL_PROPERTIES@[16].0@, INLINE_RTL_PROPERTIES@[16].1@, true)) by {
        reveal_strlit("");
        reveal_strlit("inset-inline-");
        reveal_strlit("inset-inline-start");
        reveal_strlit("right");
        reveal_strlit("start");
        assert("inset-inline-start"@ =~= "inset-inline-"@ + edge(true) + ""@);
        assert("right"@ =~= ""@ + side(true, true) + ""@);
        assert(sided("inset-inline-start"@, "right"@, ""@, true, ""@, true));
    }
    assert(named_by_side(INLINE_RTL_PROPERTIES@[17].0@, INLINE_RTL_PROPERTIES@[17].1@, true)) by {
        reveal_strlit("");
        reveal_strlit("end");
        reveal_strlit("inset-inline-");
        reveal_strlit("inset-inline-end");
        reveal_strlit("left");
        assert("inset-inline-end"@ =~= "inset-inline-"@ + edge(false) + ""@);
        assert("left"@ =~= ""@ + side(false, true) + ""@);
        assert(sided("inset-inline-end"@, "left"@, ""@, false, ""@, true));
    }
    assert forall|i: int| 0 <= i < INLINE_RTL_PROPERTIES@.len() implies named_by_side(
        (#[trigger] INLINE_RTL_PROPERTIES@[i]).0@,
        INLINE_RTL_PROPERTIES@[i].1@,
        true,
    ) by {
        assert(i == 0 || i == 1 || i == 2 || i == 3 || i == 4 || i == 5 || i == 6 || i == 7 || i == 8 || i == 9 || i == 10 || i == 11 || i == 12 || i == 13 || i == 14 || i == 15 || i == 16 || i == 17);
    }
}

/// Whether a property names an edge of the line between these texts.
pub open spec fn edged(before: Seq<char>, behind: Seq<char>) -> bool {
    ||| before == "margin-"@ && behind == ""@
    ||| before == "padding-"@ && behind == ""@
    ||| before == "border-"@ && behind == ""@
    ||| before == "border-"@ && behind == "-width"@
    ||| before == "border-"@ && behind == "-color"@
    ||| before == "border-"@ && behind == "-style"@
    ||| before == "border-top-"@ && behind == "-radius"@
    ||| before == "border-bottom-"@ && behind == "-radius"@
    ||| before == ""@ && behind == ""@
}

proof fn lemma_ltr_properties_listed(before: Seq<char>, start: bool, behind: Seq<char>)
    requires
        edged(before, behind),
    ensures
        paired(before + edge(start) + behind, LTR_PROPERTIES@) is Some,
{
    let k = before + edge(start) + behind;
    if before == "margin-"@ && behind == ""@ && start == true {
        reveal_strlit("");
        reveal_strlit("margin-");
        reveal_strlit("margin-start");
        reveal_strlit("start");
        assert("margin-start"@ =~= k);
        lemma_present(k, LTR_PROPERTIES@, 0, 0);
    }
    if before == "margin-"@ && behind == ""@ && start == false {
        reveal_strlit("");
        reveal_strlit("end");
        reveal_strlit("margin-");
        reveal_strlit("margin-end");
        assert("margin-end"@ =~= k);
        lemma_present(k, LTR_PROPERTIES@, 1, 0);
    }
    if before == "padding-"@ && behind == ""@ && start == true {
        reveal_strlit("");
        reveal_strlit("padding-");
        reveal_strlit("padding-start");
        reveal_strlit("start");
        assert("padding-start"@ =~= k);
        lemma_present(k, LTR_PROPERTIES@, 2, 0);
    }
    if before == "padding-"@ && behind == ""@ && start == false {
        reveal_strlit("");
        reveal_strlit("end");
        reveal_strlit("padding-");
        reveal_strlit("padding-end");
        assert("padding-end"@ =~= k);
        lemma_present(k, LTR_PROPERTIES@, 3, 0);
    }
    if before == "border-"@ && behind == ""@ && start == true {
        reveal_strlit("");
        reveal_strlit("border-");
        reveal_strlit("border-start");
        reveal_strlit("start");
        assert("border-start"@ =~= k);
        lemma_present(k, LTR_PROPERTIES@, 4, 0);
    }
    if before == "border-"@ && behind == ""@ && start == false {
        reveal_strlit("");
        reveal_strlit("border-");
        reveal_strlit("border-end");
        reveal_strlit("end");
        assert("border-end"@ =~= k);
        lemma_present(k, LTR_PROPERTIES@, 5, 0);
    }
    if before == "border-"@ && behind == "-width"@ && start == true {
        reveal_strlit("-width");
        reveal_strlit("border-");
        reveal_strlit("border-start-width");
        reveal_strlit("start");
        assert("border-start-width"@ =~= k);
        lemma_present(k, LTR_PROPERTIES@, 6, 0);
    }
    if before == "border-"@ && behind == "-width"@ && start == false {
        reveal_strlit("-width");
        reveal_strlit("border-");
        reveal_strlit("border-end-width");
        reveal_strlit("end");
        assert("border-end-width"@ =~= k);
        lemma_present(k, LTR_PROPERTIES@, 7, 0);
    }
    if before == "border-"@ && behind == "-color"@ && start == true {
        reveal_strlit("-color");
        reveal_strlit("border-");
        reveal_strlit("border-start-color");
        reveal_strlit("start");
        assert("border-start-color"@ =~= k);
        lemma_present(k, LTR_PROPERTIES@, 8, 0);
    }
    if before == "border-"@ && behind == "-color"@ && start == false {
        reveal_strlit("-color");
        reveal_strlit("border-");
        reveal_strlit("border-end-color");
        reveal_strlit("end");
        assert("border-end-color"@ =~= k);
        lemma_present(k, LTR_PROPERTIES@, 9, 0);
    }
    if before == "border-"@ && behind == "-style"@ && start == true {
        reveal_strlit("-style");
        reveal_strlit("border-");
        reveal_strlit("border-start-style");
        reveal_strlit("start");
        assert("border-start-style"@ =~= k);
        lemma_present(k, LTR_PROPERTIES@, 10, 0);
    }
    if before == "border-"@ && behind == "-style"@ && start == false {
        reveal_strlit("-style");
        reveal_strlit("border-");
        reveal_strlit("border-end-style");
        reveal_strlit("end");
        assert("border-end-style"@ =~= k);
        lemma_present(k, LTR_PROPERTIES@, 11, 0);
    }
    if before == "border-top-"@ && behind == "-radius"@ && start == true {
        reveal_strlit("-radius");
        reveal_strlit("border-top-");
        reveal_strlit("border-top-start-radius");
        reveal_strlit("start");
        assert("border-top-start-radius"@ =~= k);
        lemma_present(k, LTR_PROPERTIES@, 12, 0);
    }
    if before == "border-bottom-"@ && behind == "-radius"@ && start == true {
        reveal_strlit("-radius");
        reveal_strlit("border-bottom-");
        reveal_strlit("border-bottom-start-radius");
        reveal_strlit("start");
        assert("border-bottom-start-radius"@ =~= k);
        lemma_present(k, LTR_PROPERTIES@, 13, 0);
    }
    if before == "border-top-"@ && behind == "-radius"@ && start == false {
        reveal_strlit("-radius");
        reveal_strlit("border-top-");
        reveal_strlit("border-top-end-radius");
        reveal_strlit("end");
        assert("border-top-end-radius"@ =~= k);
        lemma_present(k, LTR_PROPERTIES@, 14, 0);
    }
    if before == "border-bottom-"@ && behind == "-radius"@ && start == false {
        reveal_strlit("-radius");
        reveal_strlit("border-bottom-");
        reveal_strlit("border-bottom-end-radius");
        reveal_strlit("end");
        assert("border-bottom-end-radius"@ =~= k);
        lemma_present(k, LTR_PROPERTIES@, 15, 0);
    }
    if before == ""@ && behind == ""@ && start == true {
        reveal_strlit("");
        reveal_strlit("start");
        assert("start"@ =~= k);
        lemma_present(k, LTR_PROPERTIES@, 16, 0);
    }
    if before == ""@ && behind == ""@ && start == false {
        reveal_strlit("");
        reveal_strlit("end");
        assert("end"@ =~= k);
        lemma_present(k, LTR_PROPERTIES@, 17, 0);
    }
}

proof fn lemma_rtl_properties_listed(before: Seq<char>, start: bool, behind: Seq<char>)
    requires
        edged(before, behind),
    ensures
        paired(before + edge(start) + behind, RTL_PROPERTIES@) is Some,
{
    let k = before + edge(start) + behind;
    if before == "margin-"@ && behind == ""@ && start == true {
        reveal_strlit("");
        reveal_strlit("margin-");
        reveal_strlit("margin-start");
        reveal_strlit("start");
        assert("margin-start"@ =~= k);
        lemma_present(k, RTL_PROPERTIES@, 0, 0);
    }
    if before == "margin-"@ && behind == ""@ && start == false {
        reveal_strlit("");
        reveal_strlit("end");
        reveal_strlit("margin-");
        reveal_strlit("margin-end");
        assert("margin-end"@ =~= k);
        lemma_present(k, RTL_PROPERTIES@, 1, 0);
    }
    if before == "padding-"@ && behind == ""@ && start == true {
        reveal_strlit("");
        reveal_strlit("padding-");
        reveal_strlit("padding-start");
        reveal_strlit("start");
        assert("padding-start"@ =~= k);
        lemma_present(k, RTL_PROPERTIES@, 2, 0);
    }
    if before == "padding-"@ && behind == ""@ && start == false {
        reveal_strlit("");
        reveal_strlit("end");
        reveal_strlit("padding-");
        reveal_strlit("padding-end");
        assert("padding-end"@ =~= k);
        lemma_present(k, RTL_PROPERTIES@, 3, 0);
    }
    if before == "border-"@ && behind == ""@ && start == true {
        reveal_strlit("");
        reveal_strlit("border-");
        reveal_strlit("border-start");
        reveal_strlit("start");
        assert("border-start"@ =~= k);
        lemma_present(k, RTL_PROPERTIES@, 4, 0);
    }
    if before == "border-"@ && behind == ""@ && start == false {
        reveal_strlit("");
        reveal_strlit("border-");
        reveal_strlit("border-end");
        reveal_strlit("end");
        assert("border-end"@ =~= k);
        lemma_present(k, RTL_PROPERTIES@, 5, 0);
    }
    if before == "border-"@ && behind == "-width"@ && start == true {
        reveal_strlit("-width");
        reveal_strlit("border-");
        reveal_strlit("border-start-width");
        reveal_strlit("start");
        assert("border-start-width"@ =~= k);
        lemma_present(k, RTL_PROPERTIES@, 6, 0);
    }
    if before == "border-"@ && behind == "-width"@ && start == false {
        reveal_strlit("-width");
        reveal_strlit("border-");
        reveal_strlit("border-end-width");
        reveal_strlit("end");
        assert("border-end-width"@ =~= k);
        lemma_present(k, RTL_PROPERTIES@, 7, 0);
    }
    if before == "border-"@ && behind == "-color"@ && start == true {
        reveal_strlit("-color");
        reveal_strlit("border-");
        reveal_strlit("border-start-color");
        reveal_strlit("start");
        assert("border-start-color"@ =~= k);
        lemma_present(k, RTL_PROPERTIES@, 8, 0);
    }
    if before == "border-"@ && behind == "-color"@ && start == false {
        reveal_strlit("-color");
        reveal_strlit("border-");
        reveal_strlit("border-end-color");
        reveal_strlit("end");
        assert("border-end-color"@ =~= k);
        lemma_present(k, RTL_PROPERTIES@, 9, 0);
    }
    if before == "border-"@ && behind == "-style"@ && start == true {
        reveal_strlit("-style");
        reveal_strlit("border-");
        reveal_strlit("border-start-style");
        reveal_strlit("start");
        assert("border-start-style"@ =~= k);
        lemma_present(k, RTL_PROPERTIES@, 10, 0);
    }
    if before == "border-"@ && behind == "-style"@ && start == false {
        reveal_strlit("-style");
        reveal_strlit("border-");
        reveal_strlit("border-end-style");
        reveal_strlit("end");
        assert("border-end-style"@ =~= k);
        lemma_present(k, RTL_PROPERTIES@, 11, 0);
    }
    if before == "border-top-"@ && behind == "-radius"@ && start == true {
        reveal_strlit("-radius");
        reveal_strlit("border-top-");
        reveal_strlit("border-top-start-radius");
        reveal_strlit("start");
        assert("border-top-start-radius"@ =~= k);
        lemma_present(k, RTL_PROPERTIES@, 12, 0);
    }
    if before == "border-bottom-"@ && behind == "-radius"@ && start == true {
        reveal_strlit("-radius");
        reveal_strlit("border-bottom-");
        reveal_strlit("border-bottom-start-radius");
        reveal_strlit("start");
        assert("border-bottom-start-radius"@ =~= k);
        lemma_present(k, RTL_PROPERTIES@, 13, 0);
    }
    if before == "border-top-"@ && behind == "-radius"@ && start == false {
        reveal_strlit("-radius");
        reveal_strlit("border-top-");
        reveal_strlit("border-top-end-radius");
        reveal_strlit("end");
        assert("border-top-end-radius"@ =~= k);
        lemma_present(k, RTL_PROPERTIES@, 14, 0);
    }
    if before == "border-bottom-"@ && behind == "-radius"@ && start == false {
        reveal_strlit("-radius");
        reveal_strlit("border-bottom-");
        reveal_strlit("border-bottom-end-radius");
        reveal_strlit("end");
        assert("border-bottom-end-radius"@ =~= k);
        lemma_present(k, RTL_PROPERTIES@, 15, 0);
    }
    if before == ""@ && behind == ""@ && start == true {
        reveal_strlit("");
        reveal_strlit("start");
        assert("start"@ =~= k);
        lemma_present(k, RTL_PROPERTIES@, 16, 0);
    }
    if before == ""@ && behind == ""@ && start == false {
        reveal_strlit("");
        reveal_strlit("end");
        assert("end"@ =~= k);
        lemma_present(k, RTL_PROPERTIES@, 17, 0);
    }
}

/// A property that names an edge of the line is declared for the side of that edge: the line
/// starts at the left from left to right, and at the right from right to left. Nothing else of
/// its name changes, and its value stays. No other property is renamed.
pub proof fn edges_are_sides(key: Seq<char>, value: Seq<char>, ctx: RtlContext)
    ensures
        ({
            let p = ltr_pair(key, value, ctx);
            p.0 == key || (named_by_side(key, p.0, false) && p.1 == value)
        }),
        rtl_pair(key, value, ctx) matches Some(p) ==> p.0 == key || (named_by_side(key, p.0, true)
            && p.1 == value),
{
    lemma_ltr_properties();
    lemma_rtl_properties();
    lemma_inline_ltr_properties();
    lemma_inline_rtl_properties();
    lemma_named(key, LTR_PROPERTIES@, false, 0);
    lemma_named(key, RTL_PROPERTIES@, true, 0);
    lemma_named(key, INLINE_LTR_PROPERTIES@, false, 0);
    lemma_named(key, INLINE_RTL_PROPERTIES@, true, 0);
}

/// Margins, paddings, borders, corners and insets with an edge are declared by side in both
/// directions, but for legacy expansion without the polyfill.
pub proof fn edges_get_their_sides(
    before: Seq<char>,
    start: bool,
    behind: Seq<char>,
    value: Seq<char>,
    ctx: RtlContext,
)
    requires
        edged(before, behind),
        !ctx.legacy() || ctx.enable_logical_styles_polyfill,
    ensures
        ({
            let key = before + edge(start) + behind;
            &&& named_by_side(key, ltr_pair(key, value, ctx).0, false)
            &&& ltr_pair(key, value, ctx).1 == value
            &&& rtl_pair(key, value, ctx) matches Some(p) && named_by_side(key, p.0, true) && p.1
                == value
        }),
{
    let key = before + edge(start) + behind;
    lemma_ltr_properties_listed(before, start, behind);
    lemma_rtl_properties_listed(before, start, behind);
    lemma_ltr_properties();
    lemma_rtl_properties();
    lemma_inline_ltr_properties();
    lemma_inline_rtl_properties();
    lemma_named(key, LTR_PROPERTIES@, false, 0);
    lemma_named(key, RTL_PROPERTIES@, true, 0);
    lemma_named(key, INLINE_LTR_PROPERTIES@, false, 0);
    lemma_named(key, INLINE_RTL_PROPERTIES@, true, 0);
}

proof fn lemma_absent(k: Seq<char>, t: Seq<(&'static str, &'static str)>, from: int)
    requires
        forall|i: int| 0 <= i < t.len() ==> (#[trigger] t[i]).0@ != k,
        0 <= from <= t.len(),
    ensures
        paired_from(k, t, from) is None,
    decreases t.len() - from,
{
    if from < t.len() {
        assert(t[from].0@ != k);
        lemma_absent(k, t, from + 1);
    }
}

proof fn lemma_ltr_properties_short(k: Seq<char>)
    requires
        k.len() == 5 || k.len() == 6,
        k != "start"@,
    ensures
        paired(k, LTR_PROPERTIES@) is None,
        paired(k, RTL_PROPERTIES@) is None,
{
    reveal_strlit("border-bottom-end-radius");
    reveal_strlit("border-bottom-start-radius");
    reveal_strlit("border-end");
    reveal_strlit("border-end-color");
    reveal_strlit("border-end-style");
    reveal_strlit("border-end-width");
    reveal_strlit("border-start");
    reveal_strlit("border-start-color");
    reveal_strlit("border-start-style");
    reveal_strlit("border-start-width");
    reveal_strlit("border-top-end-radius");
    reveal_strlit("border-top-start-radius");
    reveal_strlit("end");
    reveal_strlit("margin-end");
    reveal_strlit("margin-start");
    reveal_strlit("padding-end");
    reveal_strlit("padding-start");
    reveal_strlit("start");
    assert(LTR_PROPERTIES@[0].0@.len() == 12 && RTL_PROPERTIES@[0].0@.len() == 12);
    assert(LTR_PROPERTIES@[1].0@.len() == 10 && RTL_PROPERTIES@[1].0@.len() == 10);
    assert(LTR_PROPERTIES@[2].0@.len() == 13 && RTL_PROPERTIES@[2].0@.len() == 13);
    assert(LTR_PROPERTIES@[3].0@.len() == 11 && RTL_PROPERTIES@[3].0@.len() == 11);
    assert(LTR_PROPERTIES@[4].0@.len() == 12 && RTL_PROPERTIES@[4].0@.len() == 12);
    assert(LTR_PROPERTIES@[5].0@.len() == 10 && RTL_PROPERTIES@[5].0@.len() == 10);
    assert(LTR_PROPERTIES@[6].0@.len() == 18 && RTL_PROPERTIES@[6].0@.len() == 18);
    assert(LTR_PROPERTIES@[7].0@.len() == 16 && RTL_PROPERTIES@[7].0@.len() == 16);
    assert(LTR_PROPERTIES@[8].0@.len() == 18 && RTL_PROPERTIES@[8].0@.len() == 18);
    assert(LTR_PROPERTIES@[9].0@.len() == 16 && RTL_PROPERTIES@[9].0@.len() == 16);
    assert(LTR_PROPERTIES@[10].0@.len() == 18 && RTL_PROPERTIES@[10].0@.len() == 18);
    assert(LTR_PROPERTIES@[11].0@.len() == 16 && RTL_PROPERTIES@[11].0@.len() == 16);
    assert(LTR_PROPERTIES@[12].0@.len() == 23 && RTL_PROPERTIES@[12].0@.len() == 23);
    assert(LTR_PROPERTIES@[13].0@.len() == 26 && RTL_PROPERTIES@[13].0@.len() == 26);
    assert(LTR_PROPERTIES@[14].0@.len() == 21 && RTL_PROPERTIES@[14].0@.len() == 21);
    assert(LTR_PROPERTIES@[15].0@.len() == 24 && RTL_PROPERTIES@[15].0@.len() == 24);
    assert(LTR_PROPERTIES@[17].0@.len() == 3 && RTL_PROPERTIES@[17].0@.len() == 3);
    assert forall|i: int| 0 <= i < LTR_PROPERTIES@.len() implies (#[trigger] LTR_PROPERTIES@[i]).0@ != k by {
        assert(i == 0 || i == 1 || i == 2 || i == 3 || i == 4 || i == 5 || i == 6 || i == 7 || i == 8 || i == 9 || i == 10 || i == 11 || i == 12 || i == 13 || i == 14 || i == 15 || i == 16 || i == 17);
    }
    lemma_absent(k, LTR_PROPERTIES@, 0);
    assert forall|i: int| 0 <= i < RTL_PROPERTIES@.len() implies (#[trigger] RTL_PROPERTIES@[i]).0@ != k by {
        assert(i == 0 || i == 1 || i == 2 || i == 3 || i == 4 || i == 5 || i == 6 || i == 7 || i == 8 || i == 9 || i == 10 || i == 11 || i == 12 || i == 13 || i == 14 || i == 15 || i == 16 || i == 17);
    }
    lemma_absent(k, RTL_PROPERTIES@, 0);
}

proof fn lemma_inline_ltr_properties_short(k: Seq<char>)
    requires
        k.len() == 5 || k.len() == 6,
        k != "start"@,
    ensures
        paired(k, INLINE_LTR_PROPERTIES@) is None,
        paired(k, INLINE_RTL_PROPERTIES@) is None,
{
    reveal_strlit("border-end-end-radius");
    reveal_strlit("border-end-start-radius");
    reveal_strlit("border-inline-end");
    reveal_strlit("border-inline-end-color");
    reveal_strlit("border-inline-end-style");
    reveal_strlit("border-inline-end-width");
    reveal_strlit("border-inline-start");
    reveal_strlit("border-inline-start-color");
    reveal_strlit("border-inline-start-style");
    reveal_strlit("border-inline-start-width");
    reveal_strlit("border-start-end-radius");
    reveal_strlit("border-start-start-radius");
    reveal_strlit("inset-inline-end");
    reveal_strlit("inset-inline-start");
    reveal_strlit("margin-inline-end");
    reveal_strlit("margin-inline-start");
    reveal_strlit("padding-inline-end");
    reveal_strlit("padding-inline-start");
    assert(INLINE_LTR_PROPERTIES@[0].0@.len() == 19 && INLINE_RTL_PROPERTIES@[0].0@.len() == 19);
    assert(INLINE_LTR_PROPERTIES@[1].0@.len() == 17 && INLINE_RTL_PROPERTIES@[1].0@.len() == 17);
    assert(INLINE_LTR_PROPERTIES@[2].0@.len() == 20 && INLINE_RTL_PROPERTIES@[2].0@.len() == 20);
    assert(INLINE_LTR_PROPERTIES@[3].0@.len() == 18 && INLINE_RTL_PROPERTIES@[3].0@.len() == 18);
    assert(INLINE_LTR_PROPERTIES@[4].0@.len() == 19 && INLINE_RTL_PROPERTIES@[4].0@.len() == 19);
    assert(INLINE_LTR_PROPERTIES@[5].0@.len() == 17 && INLINE_RTL_PROPERTIES@[5].0@.len() == 17);
    assert(INLINE_LTR_PROPERTIES@[6].0@.len() == 25 && INLINE_RTL_PROPERTIES@[6].0@.len() == 25);
    assert(INLINE_LTR_PROPERTIES@[7].0@.len() == 23 && INLINE_RTL_PROPERTIES@[7].0@.len() == 23);
    assert(INLINE_LTR_PROPERTIES@[8].0@.len() == 25 && INLINE_RTL_PROPERTIES@[8].0@.len() == 25);
    assert(INLINE_LTR_PROPERTIES@[9].0@.len() == 23 && INLINE_RTL_PROPERTIES@[9].0@.len() == 23);
    assert(INLINE_LTR_PROPERTIES@[10].0@.len() == 25 && INLINE_RTL_PROPERTIES@[10].0@.len() == 25);
    assert(INLINE_LTR_PROPERTIES@[11].0@.len() == 23 && INLINE_RTL_PROPERTIES@[11].0@.len() == 23);
    assert(INLINE_LTR_PROPERTIES@[12].0@.len() == 25 && INLINE_RTL_PROPERTIES@[12].0@.len() == 25);
    assert(INLINE_LTR_PROPERTIES@[13].0@.len() == 23 && INLINE_RTL_PROPERTIES@[13].0@.len() == 23);
    assert(INLINE_LTR_PROPERTIES@[14].0@.len() == 23 && INLINE_RTL_PROPERTIES@[14].0@.len() == 23);
    assert(INLINE_LTR_PROPERTIES@[15].0@.len() == 21 && INLINE_RTL_PROPERTIES@[15].0@.len() == 21);
    assert(INLINE_LTR_PROPERTIES@[16].0@.len() == 18 && INLINE_RTL_PROPERTIES@[16].0@.len() == 18);
    assert(INLINE_LTR_PROPERTIES@[17].0@.len() == 16 && INLINE_RTL_PROPERTIES@[17].0@.len() == 16);
    assert forall|i: int| 0 <= i < INLINE_LTR_PROPERTIES@.len() implies (#[trigger] INLINE_LTR_PROPERTIES@[i]).0@ != k by {
        assert(i == 0 || i == 1 || i == 2 || i == 3 || i == 4 || i == 5 || i == 6 || i == 7 || i == 8 || i == 9 || i == 10 || i == 11 || i == 12 || i == 13 || i == 14 || i == 15 || i == 16 || i == 17);
    }
    lemma_absent(k, INLINE_LTR_PROPERTIES@, 0);
    assert forall|i: int| 0 <= i < INLINE_RTL_PROPERTIES@.len() implies (#[trigger] INLINE_RTL_PROPERTIES@[i]).0@ != k by {
        assert(i == 0 || i == 1 || i == 2 || i == 3 || i == 4 || i == 5 || i == 6 || i == 7 || i == 8 || i == 9 || i == 10 || i == 11 || i == 12 || i == 13 || i == 14 || i == 15 || i == 16 || i == 17);
    }
    lemma_absent(k, INLINE_RTL_PROPERTIES@, 0);
}

/// What floats to an edge of the line, or is cleared of one, floats to the side of that edge.
pub proof fn floats_take_sides(key: Seq<char>, start: bool, ctx: RtlContext)
    requires
        key == "float"@ || key == "clear"@,
        !ctx.legacy() || ctx.enable_logical_styles_polyfill,
    ensures
        ltr_pair(key, edge(start), ctx) == (key, side(start, false)),
        ltr_pair(key, "inline-"@ + edge(start), ctx) == (key, side(start, false)),
        rtl_pair(key, edge(start), ctx) == Some((key, side(start, true))),
        rtl_pair(key, "inline-"@ + edge(start), ctx) == Some((key, side(start, true))),
{
    reveal_strlit("start");
    reveal_strlit("end");
    reveal_strlit("inline-start");
    reveal_strlit("inline-end");
    reveal_strlit("inline-");
    assert("inline-"@ + "start"@ =~= "inline-start"@);
    assert("inline-"@ + "end"@ =~= "inline-end"@);
    assert("start"@.len() == 5 && "end"@.len() == 3);
    assert("inline-start"@.len() == 12 && "inline-end"@.len() == 10);
    reveal_strlit("float");
    reveal_strlit("clear");
    assert("float"@[0] == 'f' && "clear"@[0] == 'c' && "start"@[0] == 's');
    assert(key.len() == 5 && key != "start"@);
    lemma_ltr_properties_short(key);
    lemma_inline_ltr_properties_short(key);
    reveal_with_fuel(paired_from, 5);
}

/// Whether a word of a position is an edge of the line.
pub open spec fn edge_word(word: Seq<char>) -> Option<bool> {
    if word == "start"@ || word == "insetInlineStart"@ {
        Some(true)
    } else if word == "end"@ || word == "insetInlineEnd"@ {
        Some(false)
    } else {
        None
    }
}

/// A background stands at the sides of the edges that its position names, and otherwise where it
/// stood, word for word.
pub proof fn backgrounds_take_sides(value: Seq<char>, rtl: bool, i: int)
    requires
        0 <= i < split_at_char(value, ' ').len(),
    ensures
        ({
            let words = split_at_char(value, ' ');
            let out = split_at_char(position_text(value, side(true, rtl), side(false, rtl)), ' ');
            &&& out.len() == words.len()
            &&& out[i] == match edge_word(words[i]) {
                Some(start) => side(start, rtl),
                None => words[i],
            }
        }),
{
    let words = split_at_char(value, ' ');
    let all = Seq::new(
        words.len(),
        |j: int| position_word(words[j], side(true, rtl), side(false, rtl)),
    );
    assert forall|j: int| 0 <= j < all.len() implies !(#[trigger] all[j]).contains(' ') by {
        lemma_no_blank(value, j);
    }
    reveal_strlit(" ");
    assert(" "@ =~= seq![' ']);
    joined_parts_split_again(all, ' ');
}

/// A mirrored shadow keeps all its words but its first length, whose sign is turned.
pub proof fn shadows_are_mirrored(def: Seq<char>)
    ensures
        ({
            let words = split_at_char(def, ' ');
            let out = split_at_char(shadow_flipped(def), ' ');
            let first = if dimension(words[0]) is Some {
                0int
            } else {
                1int
            };
            &&& out.len() == words.len()
            &&& forall|i: int|
                0 <= i < words.len() ==> #[trigger] out[i] == (if i == first {
                    sign_turned(words[i])
                } else {
                    words[i]
                })
        }),
{
    let words = split_at_char(def, ' ');
    let first = if dimension(words[0]) is Some {
        0int
    } else {
        1int
    };
    parts_lack_the_separator(def, ' ');
    let all = if first < words.len() {
        words.update(first, sign_turned(words[first]))
    } else {
        words
    };
    assert forall|j: int| 0 <= j < all.len() implies !(#[trigger] all[j]).contains(' ') by {
        assert(!words[j].contains(' '));
        if j == first {
            lemma_turned(words[j]);
        }
    }
    reveal_strlit(" ");
    assert(" "@ =~= seq![' ']);
    joined_parts_split_again(all, ' ');
}

proof fn lemma_turned(part: Seq<char>)
    requires
        !part.contains(' '),
    ensures
        !sign_turned(part).contains(' '),
{
    reveal_strlit("-");
    let t = sign_turned(part);
    if t.contains(' ') {
        let j = choose|j: int| 0 <= j < t.len() && t[j] == ' ';
        if t != part {
            if crate::text::char_at(part, 0, '-') {
                assert(part[j + 1] == ' ');
            } else {
                assert(t[0] == '-');
                assert(part[j - 1] == ' ');
            }
        }
    }
}

/// East and west are each other's mirror image.
pub open spec fn east_west(c: char) -> char {
    if c == 'e' {
        'w'
    } else if c == 'w' {
        'e'
    } else {
        c
    }
}

/// Whether two cursors are each other's mirror image.
pub open spec fn mirrored(v: Seq<char>, o: Seq<char>) -> bool {
    &&& v.len() == o.len() > 7
    &&& v.skip(v.len() - 7) == "-resize"@
    &&& o.skip(v.len() - 7) == "-resize"@
    &&& forall|i: int| 0 <= i < v.len() - 7 ==> #[trigger] o[i] == east_west(v[i])
}

spec fn all_mirrored() -> bool {
    forall|i: int|
        0 <= i < CURSOR_FLIPS@.len() ==> mirrored((#[trigger] CURSOR_FLIPS@[i]).0@, CURSOR_FLIPS@[i].1@)
}

proof fn lemma_mirrored(k: Seq<char>, from: int)
    requires
        all_mirrored(),
        0 <= from <= CURSOR_FLIPS@.len(),
    ensures
        paired_from(k, CURSOR_FLIPS@, from) is Some ==> mirrored(
            k,
            paired_from(k, CURSOR_FLIPS@, from)->0,
        ),
    decreases CURSOR_FLIPS@.len() - from,
{
    if from < CURSOR_FLIPS@.len() {
        assert(mirrored(CURSOR_FLIPS@[from].0@, CURSOR_FLIPS@[from].1@));
        lemma_mirrored(k, from + 1);
    }
}

proof fn lemma_flips()
    ensures
        all_mirrored(),
{
    assert(mirrored(CURSOR_FLIPS@[0].0@, CURSOR_FLIPS@[0].1@)) by {
        reveal_strlit("e-resize");
        reveal_strlit("w-resize");
        reveal_strlit("-resize");
        assert("e-resize"@.skip(1) =~= "-resize"@);
        assert("w-resize"@.skip(1) =~= "-resize"@);
        assert forall|j: int| 0 <= j < 1 implies #[trigger] "w-resize"@[j] == east_west("e-resize"@[j]) by {
            assert(j == 0);
        }
    }
    assert(mirrored(CURSOR_FLIPS@[1].0@, CURSOR_FLIPS@[1].1@)) by {
        reveal_strlit("w-resize");
        reveal_strlit("e-resize");
        reveal_strlit("-resize");
        assert("w-resize"@.skip(1) =~= "-resize"@);
        assert("e-resize"@.skip(1) =~= "-resize"@);
        assert forall|j: int| 0 <= j < 1 implies #[trigger] "e-resize"@[j] == east_west("w-resize"@[j]) by {
            assert(j == 0);
        }
    }
    assert(mirrored(CURSOR_FLIPS@[2].0@, CURSOR_FLIPS@[2].1@)) by {
        reveal_strlit("ne-resize");
        reveal_strlit("nw-resize");
        reveal_strlit("-resize");
        assert("ne-resize"@.skip(2) =~= "-resize"@);
        assert("nw-resize"@.skip(2) =~= "-resize"@);
        assert forall|j: int| 0 <= j < 2 implies #[trigger] "nw-resize"@[j] == east_west("ne-resize"@[j]) by {
            assert(j == 0 || j == 1);
        }
    }
    assert(mirrored(CURSOR_FLIPS@[3].0@, CURSOR_FLIPS@[3].1@)) by {
        reveal_strlit("nw-resize");
        reveal_strlit("ne-resize");
        reveal_strlit("-resize");
        assert("nw-resize"@.skip(2) =~= "-resize"@);
        assert("ne-resize"@.skip(2) =~= "-resize"@);
        assert forall|j: int| 0 <= j < 2 implies #[trigger] "ne-resize"@[j] == east_west("nw-resize"@[j]) by {
            assert(j == 0 || j == 1);
        }
    }
    assert(mirrored(CURSOR_FLIPS@[4].0@, CURSOR_FLIPS@[4].1@)) by {
        reveal_strlit("se-resize");
        reveal_strlit("sw-resize");
        reveal_strlit("-resize");
        assert("se-resize"@.skip(2) =~= "-resize"@);
        assert("sw-resize"@.skip(2) =~= "-resize"@);
        assert forall|j: int| 0 <= j < 2 implies #[trigger] "sw-resize"@[j] == east_west("se-resize"@[j]) by {
            assert(j == 0 || j == 1);
        }
    }
    assert(mirrored(CURSOR_FLIPS@[5].0@, CURSOR_FLIPS@[5].1@)) by {
        reveal_strlit("sw-resize");
        reveal_strlit("se-resize");
        reveal_strlit("-resize");
        assert("sw-resize"@.skip(2) =~= "-resize"@);
        assert("se-resize"@.skip(2) =~= "-resize"@);
        assert forall|j: int| 0 <= j < 2 implies #[trigger] "se-resize"@[j] == east_west("sw-resize"@[j]) by {
            assert(j == 0 || j == 1);
        }
    }
    assert(mirrored(CURSOR_FLIPS@[6].0@, CURSOR_FLIPS@[6].1@)) by {
        reveal_strlit("nesw-resize");
        reveal_strlit("nwse-resize");
        reveal_strlit("-resize");
        assert("nesw-resize"@.skip(4) =~= "-resize"@);
        assert("nwse-resize"@.skip(4) =~= "-resize"@);
        assert forall|j: int| 0 <= j < 4 implies #[trigger] "nwse-resize"@[j] == east_west("nesw-resize"@[j]) by {
            assert(j == 0 || j == 1 || j == 2 || j == 3);
        }
    }
    assert(mirrored(CURSOR_FLIPS@[7].0@, CURSOR_FLIPS@[7].1@)) by {
        reveal_strlit("nwse-resize");
        reveal_strlit("nesw-resize");
        reveal_strlit("-resize");
        assert("nwse-resize"@.skip(4) =~= "-resize"@);
        assert("nesw-resize"@.skip(4) =~= "-resize"@);
        assert forall|j: int| 0 <= j < 4 implies #[trigger] "nesw-resize"@[j] == east_west("nwse-resize"@[j]) by {
            assert(j == 0 || j == 1 || j == 2 || j == 3);
        }
    }
    assert forall|i: int| 0 <= i < CURSOR_FLIPS@.len() implies mirrored(
        (#[trigger] CURSOR_FLIPS@[i]).0@,
        CURSOR_FLIPS@[i].1@,
    ) by {
        assert(i == 0 || i == 1 || i == 2 || i == 3 || i == 4 || i == 5 || i == 6 || i == 7);
    }
}

/// A cursor from right to left is the mirror image of the one from left to right.
pub proof fn cursors_are_mirrored(value: Seq<char>, ctx: RtlContext)
    ensures
        rtl_pair("cursor"@, value, ctx) matches Some(p) ==> p.0 == "cursor"@ && mirrored(value, p.1),
{
    lemma_flips();
    lemma_mirrored(value, 0);
    reveal_strlit("cursor");
    reveal_strlit("background-position");
    assert("cursor"@.len() == 6 && "background-position"@.len() == 19);
    reveal_strlit("box-shadow");
    reveal_strlit("text-shadow");
    assert("box-shadow"@.len() == 10 && "text-shadow"@.len() == 11);
    reveal_strlit("start");
    reveal_strlit("float");
    reveal_strlit("clear");
    assert("start"@.len() == 5 && "float"@.len() == 5 && "clear"@.len() == 5);
    lemma_ltr_properties_short("cursor"@);
    lemma_inline_ltr_properties_short("cursor"@);
}

} // verus!
