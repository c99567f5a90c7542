//! How the CSS types are named.

use crate::shared::dashify::{dash_before, dashed_upto, with_dashes};
use crate::shared::types::{
    conversion_of, converted, css_type_made, css_type_of, made_types_are_types, SYNTAXES,
    TYPES_MEMBERS,
};
use crate::text::{all_ascii, ascii_lower, ascii_lower_char, listed, paired, paired_from};
use crate::value::Val;
use vstd::prelude::*;

verus! {

/// The syntax that a name in camel case stands for: the name with dashes, in angle
/// brackets.
pub open spec fn bracketed(kind: Seq<char>) -> Seq<char> {
    "<"@ + ascii_lower(with_dashes(kind)) + ">"@
}

spec fn small(c: char) -> bool {
    'a' <= c <= 'z'
}

proof fn lemma_small(s: Seq<char>, k: int)
    requires
        0 <= k <= s.len(),
        forall|i: int| 0 <= i < k ==> small(#[trigger] s[i]),
    ensures
        dashed_upto(s, k) == s.take(k),
    decreases k,
{
    if k > 0 {
        lemma_small(s, k - 1);
        assert(small(s[k - 1]));
        assert(s.take(k) =~= s.take(k - 1).push(s[k - 1]));
    } else {
        assert(s.take(0) =~= Seq::empty());
    }
}

proof fn lemma_one_capital(s: Seq<char>, p: int, k: int)
    requires
        0 < p < k <= s.len(),
        'A' <= s[p] <= 'Z',
        forall|i: int| 0 <= i < s.len() && i != p ==> small(#[trigger] s[i]),
    ensures
        dashed_upto(s, k) == s.take(p).push('-') + s.subrange(p, k),
    decreases k,
{
    assert(small(s[p - 1]));
    if k == p + 1 {
        lemma_small(s, p);
        assert(dash_before(s, p));
        assert(dashed_upto(s, k) =~= s.take(p).push('-') + s.subrange(p, k));
    } else {
        lemma_one_capital(s, p, k - 1);
        assert(small(s[k - 1]));
        assert(s.take(p).push('-') + s.subrange(p, k) =~= (s.take(p).push('-') + s.subrange(
            p,
            k - 1,
        )).push(s[k - 1]));
    }
}

proof fn lemma_plain_name(s: Seq<char>)
    requires
        forall|i: int| 0 <= i < s.len() ==> small(#[trigger] s[i]),
    ensures
        ascii_lower(with_dashes(s)) == s,
        all_ascii(s),
{
    lemma_small(s, s.len() as int);
    assert(s.take(s.len() as int) =~= s);
    assert forall|i: int| 0 <= i < s.len() implies ascii_lower_char(#[trigger] s[i]) == s[i] && (
    s[i] as u32) < 128 by {
        assert(small(s[i]));
    }
    assert(ascii_lower(s) =~= s);
}

proof fn lemma_two_part_name(s: Seq<char>, p: int)
    requires
        0 < p < s.len(),
        'A' <= s[p] <= 'Z',
        forall|i: int| 0 <= i < s.len() && i != p ==> small(#[trigger] s[i]),
    ensures
        ascii_lower(with_dashes(s)) == s.take(p).push('-').push(ascii_lower_char(s[p])) + s.skip(
            p + 1,
        ),
        all_ascii(s),
{
    lemma_one_capital(s, p, s.len() as int);
    assert forall|i: int| 0 <= i < s.len() && i != p implies ascii_lower_char(#[trigger] s[i])
        == s[i] && (s[i] as u32) < 128 by {
        assert(small(s[i]));
    }
    let dashed = s.take(p).push('-') + s.subrange(p, s.len() as int);
    let wanted = s.take(p).push('-').push(ascii_lower_char(s[p])) + s.skip(p + 1);
    assert forall|i: int| 0 <= i < dashed.len() implies ascii_lower(dashed)[i] == wanted[i] by {
        if i < p {
            assert(dashed[i] == s[i]);
        } else if i > p {
            assert(dashed[i] == s[i - 1]);
        }
    }
    assert(ascii_lower(dashed) =~= wanted);
}

proof fn lemma_row_angle()
    ensures
        SYNTAXES@[0].1@ == bracketed(SYNTAXES@[0].0@),
        all_ascii(SYNTAXES@[0].0@),
{
    reveal_strlit("<");
    reveal_strlit(">");
    reveal_strlit("angle");
    reveal_strlit("<angle>");
    lemma_plain_name("angle"@);
    assert("<angle>"@ =~= bracketed("angle"@));
}

proof fn lemma_row_color()
    ensures
        SYNTAXES@[1].1@ == bracketed(SYNTAXES@[1].0@),
        all_ascii(SYNTAXES@[1].0@),
{
    reveal_strlit("<");
    reveal_strlit(">");
    reveal_strlit("color");
    reveal_strlit("<color>");
    lemma_plain_name("color"@);
    assert("<color>"@ =~= bracketed("color"@));
}

proof fn lemma_row_url()
    ensures
        SYNTAXES@[2].1@ == bracketed(SYNTAXES@[2].0@),
        all_ascii(SYNTAXES@[2].0@),
{
    reveal_strlit("<");
    reveal_strlit(">");
    reveal_strlit("url");
    reveal_strlit("<url>");
    lemma_plain_name("url"@);
    assert("<url>"@ =~= bracketed("url"@));
}

proof fn lemma_row_image()
    ensures
        SYNTAXES@[3].1@ == bracketed(SYNTAXES@[3].0@),
        all_ascii(SYNTAXES@[3].0@),
{
    reveal_strlit("<");
    reveal_strlit(">");
    reveal_strlit("image");
    reveal_strlit("<image>");
    lemma_plain_name("image"@);
    assert("<image>"@ =~= bracketed("image"@));
}

proof fn lemma_row_integer()
    ensures
        SYNTAXES@[4].1@ == bracketed(SYNTAXES@[4].0@),
        all_ascii(SYNTAXES@[4].0@),
{
    reveal_strlit("<");
    reveal_strlit(">");
    reveal_strlit("integer");
    reveal_strlit("<integer>");
    lemma_plain_name("integer"@);
    assert("<integer>"@ =~= bracketed("integer"@));
}

proof fn lemma_row_length_percentage()
    ensures
        SYNTAXES@[5].1@ == bracketed(SYNTAXES@[5].0@),
        all_ascii(SYNTAXES@[5].0@),
{
    reveal_strlit("<");
    reveal_strlit(">");
    reveal_strlit("lengthPercentage");
    reveal_strlit("<length-percentage>");
    lemma_two_part_name("lengthPercentage"@, 6);
    assert("<length-percentage>"@ =~= bracketed("lengthPercentage"@));
}

proof fn lemma_row_length()
    ensures
        SYNTAXES@[6].1@ == bracketed(SYNTAXES@[6].0@),
        all_ascii(SYNTAXES@[6].0@),
{
    reveal_strlit("<");
    reveal_strlit(">");
    reveal_strlit("length");
    reveal_strlit("<length>");
    lemma_plain_name("length"@);
    assert("<length>"@ =~= bracketed("length"@));
}

proof fn lemma_row_percentage()
    ensures
        SYNTAXES@[7].1@ == bracketed(SYNTAXES@[7].0@),
        all_ascii(SYNTAXES@[7].0@),
{
    reveal_strlit("<");
    reveal_strlit(">");
    reveal_strlit("percentage");
    reveal_strlit("<percentage>");
    lemma_plain_name("percentage"@);
    assert("<percentage>"@ =~= bracketed("percentage"@));
}

proof fn lemma_row_number()
    ensures
        SYNTAXES@[8].1@ == bracketed(SYNTAXES@[8].0@),
        all_ascii(SYNTAXES@[8].0@),
{
    reveal_strlit("<");
    reveal_strlit(">");
    reveal_strlit("number");
    reveal_strlit("<number>");
    lemma_plain_name("number"@);
    assert("<number>"@ =~= bracketed("number"@));
}

proof fn lemma_row_resolution()
    ensures
        SYNTAXES@[9].1@ == bracketed(SYNTAXES@[9].0@),
        all_ascii(SYNTAXES@[9].0@),
{
    reveal_strlit("<");
    reveal_strlit(">");
    reveal_strlit("resolution");
    reveal_strlit("<resolution>");
    lemma_plain_name("resolution"@);
    assert("<resolution>"@ =~= bracketed("resolution"@));
}

proof fn lemma_row_time()
    ensures
        SYNTAXES@[10].1@ == bracketed(SYNTAXES@[10].0@),
        all_ascii(SYNTAXES@[10].0@),
{
    reveal_strlit("<");
    reveal_strlit(">");
    reveal_strlit("time");
    reveal_strlit("<time>");
    lemma_plain_name("time"@);
    assert("<time>"@ =~= bracketed("time"@));
}

proof fn lemma_row_transform_function()
    ensures
        SYNTAXES@[11].1@ == bracketed(SYNTAXES@[11].0@),
        all_ascii(SYNTAXES@[11].0@),
{
    reveal_strlit("<");
    reveal_strlit(">");
    reveal_strlit("transformFunction");
    reveal_strlit("<transform-function>");
    lemma_two_part_name("transformFunction"@, 9);
    assert("<transform-function>"@ =~= bracketed("transformFunction"@));
}

proof fn lemma_row_transform_list()
    ensures
        SYNTAXES@[12].1@ == bracketed(SYNTAXES@[12].0@),
        all_ascii(SYNTAXES@[12].0@),
{
    reveal_strlit("<");
    reveal_strlit(">");
    reveal_strlit("transformList");
    reveal_strlit("<transform-list>");
    lemma_two_part_name("transformList"@, 9);
    assert("<transform-list>"@ =~= bracketed("transformList"@));
}

proof fn lemma_rows(i: int)
    requires
        0 <= i < SYNTAXES@.len(),
    ensures
        SYNTAXES@[i].1@ == bracketed(SYNTAXES@[i].0@),
        all_ascii(SYNTAXES@[i].0@),
        SYNTAXES@[i].0@ == TYPES_MEMBERS@[i]@,
{
    lemma_row_angle();
    lemma_row_color();
    lemma_row_url();
    lemma_row_image();
    lemma_row_integer();
    lemma_row_length_percentage();
    lemma_row_length();
    lemma_row_percentage();
    lemma_row_number();
    lemma_row_resolution();
    lemma_row_time();
    lemma_row_transform_function();
    lemma_row_transform_list();
    assert(i == 0 || i == 1 || i == 2 || i == 3 || i == 4 || i == 5 || i == 6 || i == 7 || i == 8 || i == 9 || i == 10 || i == 11 || i == 12);
}

proof fn lemma_found(kind: Seq<char>, from: int)
    requires
        0 <= from <= SYNTAXES@.len(),
        exists|i: int| from <= i < SYNTAXES@.len() && (#[trigger] SYNTAXES@[i]).0@ == kind,
    ensures
        paired_from(kind, SYNTAXES@, from) == Some(bracketed(kind)),
    decreases SYNTAXES@.len() - from,
{
    lemma_rows(from);
    if SYNTAXES@[from].0@ != kind {
        lemma_found(kind, from + 1);
    }
}

/// The syntax of every CSS type is its name with dashes, in angle brackets.
pub proof fn syntaxes_are_named(kind: Seq<char>)
    requires
        listed(kind, TYPES_MEMBERS@),
    ensures
        all_ascii(kind),
        paired(kind, SYNTAXES@) == Some(bracketed(kind)),
{
    let i = choose|i: int| 0 <= i < TYPES_MEMBERS@.len() && TYPES_MEMBERS@[i]@ == kind;
    lemma_rows(i);
    lemma_found(kind, 0);
}

/// A text that is made a CSS type is one, with its name as the syntax and the text as the
/// value.
pub proof fn typed_texts_are_read(kind: Seq<char>, s: Seq<char>)
    requires
        listed(kind, TYPES_MEMBERS@),
    ensures
        css_type_made(kind, Val::Str(s)) is Ok,
        css_type_of(css_type_made(kind, Val::Str(s))->Ok_0) == Some((bracketed(kind), Val::Str(s))),
{
    syntaxes_are_named(kind);
    let v = converted(Val::Str(s), conversion_of(kind));
    assert(v is Ok && v->Ok_0 == Val::Str(s));
    made_types_are_types(kind, Val::Str(s));
}

} // verus!
