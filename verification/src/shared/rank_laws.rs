//! How rules that look at other elements are ranked, and how at-rules, pseudo selectors and
//! properties are.

use crate::number::JsNumber;
use crate::shared::priorities::{
    after_class, after_one_space, after_pseudo, after_space, after_text, chain_priority, class_part,
    class_rank, marker_char, marker_end, name_end, part_end, parts_from, priority, pseudo_char,
    relational, relational_priority, space_end, Relational, PHYSICAL_LONGHANDS,
    SHORTHANDS_OF_LONGHANDS, SHORTHANDS_OF_SHORTHANDS,
};
use crate::shared::when::{relation_selector, selector_error, WhenRelation};
use crate::text::{at_pos, has_part, has_prefix, has_suffix, listed, next_char};
use vstd::prelude::*;

verus! {

proof fn lemma_marker_run(s: Seq<char>, i: int, j: int)
    requires
        0 <= i <= j < s.len(),
        forall|k: int| i <= k < j ==> marker_char(#[trigger] s[k]),
        !marker_char(s[j]),
    ensures
        marker_end(s, i) == j,
    decreases j - i,
{
    if i < j {
        lemma_marker_run(s, i + 1, j);
    }
}

proof fn lemma_name_run(s: Seq<char>, i: int, j: int)
    requires
        0 <= i <= j < s.len(),
        forall|k: int| i <= k < j ==> pseudo_char(#[trigger] s[k]),
        !pseudo_char(s[j]),
    ensures
        name_end(s, i) == j,
    decreases j - i,
{
    if i < j {
        lemma_name_run(s, i + 1, j);
    }
}

/// Whether a text is the name of a class.
pub open spec fn class_name(c: Seq<char>) -> bool {
    c.len() > 0 && forall|i: int| 0 <= i < c.len() ==> marker_char(#[trigger] c[i])
}

/// Whether a text is a pseudo-class without brackets.
pub open spec fn plain_class(p: Seq<char>) -> bool {
    &&& p.len() > 1
    &&& p[0] == ':'
    &&& forall|i: int| 1 <= i < p.len() ==> pseudo_char(#[trigger] p[i])
}

/// Whether a class with a pseudo-class behind it stands at `i`, and something else behind both.
spec fn marked_at(s: Seq<char>, i: int, c: Seq<char>, p: Seq<char>) -> bool {
    let a = i + 1 + c.len();
    let b = a + p.len();
    &&& class_name(c)
    &&& plain_class(p)
    &&& 0 <= i
    &&& b < s.len()
    &&& s[i] == '.'
    &&& s.subrange(i + 1, a) == c
    &&& s.subrange(a, b) == p
    &&& s[b] == ' ' || s[b] == ')'
}

proof fn lemma_marked(s: Seq<char>, i: int, c: Seq<char>, p: Seq<char>)
    requires
        marked_at(s, i, c, p),
    ensures
        after_class(s, i) == i + 1 + c.len(),
        after_pseudo(s, i + 1 + c.len()) == i + 1 + c.len() + p.len(),
{
    let a: int = i + 1 + c.len();
    let b: int = a + p.len();
    assert forall|k: int| i + 1 <= k < a implies marker_char(#[trigger] s[k]) by {
        assert(s[k] == c[k - i - 1]);
    }
    assert(s[a] == p[0]);
    lemma_marker_run(s, i + 1, a);
    assert forall|k: int| a + 1 <= k < b implies pseudo_char(#[trigger] s[k]) by {
        assert(s[k] == p[k - a]);
    }
    lemma_name_run(s, a + 1, b);
}

/// A selector that holds others in brackets is no chain of pseudo selectors.
proof fn lemma_no_chain(s: Seq<char>)
    requires
        s.len() > 7,
        s.subrange(0, 7) == ":where("@,
        s.last() == ')',
    ensures
        chain_priority(s) is None,
{
    reveal_strlit(":where(");
    assert(s[0] == ':' && s[1] == 'w' && s[2] == 'h' && s[3] == 'e' && s[4] == 'r' && s[5] == 'e'
        && s[6] == '(') by {
        let t = s.subrange(0, 7);
        assert(t[0] == ':' && t[1] == 'w' && t[2] == 'h' && t[3] == 'e' && t[4] == 'r' && t[5] == 'e'
            && t[6] == '(');
    }
    lemma_name_run(s, 1, 6);
    lemma_bracket(s, 7);
    let end = next_char(s, ')', 7) + 1;
    assert(part_end(s, 0) == Some(end));
    let parts = parts_from(s, 0);
    assert(parts == seq![s.subrange(0, end)] + parts_from(s, end));
    assert(parts[0] == s.subrange(0, end));
    reveal_strlit("(");
    assert(parts[0].subrange(6, 7) =~= "("@);
    assert(at_pos(parts[0], "("@, 6));
    assert(has_part(parts[0], "("@));
}

proof fn lemma_bracket(s: Seq<char>, i: int)
    requires
        0 <= i < s.len(),
        s.last() == ')',
    ensures
        i <= next_char(s, ')', i) < s.len(),
    decreases s.len() - i,
{
    if s[i] != ')' {
        lemma_bracket(s, i + 1);
    }
}

/// What a rule that looks at another element weighs more than the rest, by where it looks.
pub open spec fn weight(relation: WhenRelation) -> nat {
    match relation {
        WhenRelation::Ancestor => 10,
        WhenRelation::Descendant => 15,
        WhenRelation::AnySibling => 20,
        WhenRelation::SiblingBefore => 30,
        WhenRelation::SiblingAfter => 40,
    }
}

proof fn lemma_signs()
    ensures
        ":where(."@ == seq![':', 'w', 'h', 'e', 'r', 'e', '(', '.'],
        ":where("@ == seq![':', 'w', 'h', 'e', 'r', 'e', '('],
        ":where(:has(."@ == seq![
            ':',
            'w',
            'h',
            'e',
            'r',
            'e',
            '(',
            ':',
            'h',
            'a',
            's',
            '(',
            '.',
        ],
        ":where(:has(~ ."@ == seq![
            ':',
            'w',
            'h',
            'e',
            'r',
            'e',
            '(',
            ':',
            'h',
            'a',
            's',
            '(',
            '~',
            ' ',
            '.',
        ],
        " *)"@ == seq![' ', '*', ')'],
        "))"@ == seq![')', ')'],
        " ~ *)"@ == seq![' ', '~', ' ', '*', ')'],
        " ~ *, :has(~ ."@ == seq![
            ' ',
            '~',
            ' ',
            '*',
            ',',
            ' ',
            ':',
            'h',
            'a',
            's',
            '(',
            '~',
            ' ',
            '.',
        ],
        ":has("@ == seq![':', 'h', 'a', 's', '('],
        ":has(~"@ == seq![':', 'h', 'a', 's', '(', '~'],
        "*)"@ == seq!['*', ')'],
        "*,"@ == seq!['*', ','],
        "~"@ == seq!['~'],
{
    reveal_strlit(":where(.");
    reveal_strlit(":where(");
    reveal_strlit(":where(:has(.");
    reveal_strlit(":where(:has(~ .");
    reveal_strlit(" *)");
    reveal_strlit("))");
    reveal_strlit(" ~ *)");
    reveal_strlit(" ~ *, :has(~ .");
    reveal_strlit(":has(");
    reveal_strlit(":has(~");
    reveal_strlit("*)");
    reveal_strlit("*,");
    reveal_strlit("~");
    assert(":where(."@ =~= seq![':', 'w', 'h', 'e', 'r', 'e', '(', '.']);
    assert(":where("@ =~= seq![':', 'w', 'h', 'e', 'r', 'e', '(']);
    assert(" *)"@ =~= seq![' ', '*', ')']);
    assert("))"@ =~= seq![')', ')']);
    assert(" ~ *)"@ =~= seq![' ', '~', ' ', '*', ')']);
    assert(":has("@ =~= seq![':', 'h', 'a', 's', '(']);
    assert(":has(~"@ =~= seq![':', 'h', 'a', 's', '(', '~']);
    assert("*)"@ =~= seq!['*', ')']);
    assert("*,"@ =~= seq!['*', ',']);
    assert("~"@ =~= seq!['~']);
}

proof fn lemma_stands(s: Seq<char>, t: Seq<char>, i: int)
    requires
        0 <= i,
        i + t.len() <= s.len(),
        forall|k: int| 0 <= k < t.len() ==> s[i + k] == #[trigger] t[k],
    ensures
        at_pos(s, t, i),
        after_text(s, i, t) == i + t.len(),
{
    assert(s.subrange(i, i + t.len() as int) =~= t);
}

proof fn lemma_stands_not(s: Seq<char>, t: Seq<char>, i: int, k: int)
    requires
        0 <= i,
        0 <= k < t.len(),
        i + k >= s.len() || s[i + k] != t[k],
    ensures
        after_text(s, i, t) == -1,
{
    if at_pos(s, t, i) {
        assert(s.subrange(i, i + t.len() as int)[k] == t[k]);
    }
}

/// What the selectors begin with.
proof fn lemma_open(s: Seq<char>)
    requires
        s.len() > 7,
        s[0] == ':' && s[1] == 'w' && s[2] == 'h' && s[3] == 'e' && s[4] == 'r' && s[5] == 'e' && s[6]
            == '(',
        s.last() == ')',
    ensures
        after_text(s, 0, ":where("@) == 7,
        chain_priority(s) is None,
        priority(s) == (match relational_priority(s) {
            Some(p) => p,
            None => JsNumber::natural(
                class_rank(crate::shared::priorities::before_bracket(s)) as nat,
            ),
        }),
{
    lemma_signs();
    lemma_stands(s, ":where("@, 0);
    lemma_no_chain(s);
    reveal_strlit("--");
    reveal_strlit("@supports");
    reveal_strlit("@media");
    reveal_strlit("@container");
    reveal_strlit("::");
    reveal_strlit(":");
    lemma_stands_not(s, "--"@, 0, 0);
    lemma_stands_not(s, "@supports"@, 0, 0);
    lemma_stands_not(s, "@media"@, 0, 0);
    lemma_stands_not(s, "@container"@, 0, 0);
    lemma_stands_not(s, "::"@, 0, 1);
    lemma_stands(s, ":"@, 0);
}

/// Selectors that start with a class look upwards or at siblings before.
proof fn lemma_ancestor(c: Seq<char>, p: Seq<char>)
    requires
        class_name(c),
        plain_class(p),
    ensures
        ({
            let s = relation_selector(WhenRelation::Ancestor, c + p);
            priority(s) == JsNumber::natural(10).plus_spec(class_part(p))
        }),
{
    lemma_signs();
    let s = relation_selector(WhenRelation::Ancestor, c + p);
    let b: int = 8int + c.len() + p.len();
    assert(s[7] == '.');
    assert(s.subrange(8, 8 + c.len() as int) =~= c);
    assert(s.subrange(8 + c.len() as int, b) =~= p);
    assert(s[b] == ' ' && s[b + 1] == '*' && s[b + 2] == ')');
    lemma_open(s);
    lemma_marked(s, 7, c, p);
    assert(space_end(s, b + 1) == b + 1);
    assert(after_space(s, b) == b + 1);
    lemma_stands(s, "*)"@, b + 1);
    assert(relational(s, Relational::Ancestor) == Some((p, None::<Seq<char>>)));
}

/// Selectors that start with what is had look downwards or at siblings behind.
proof fn lemma_no_class(s: Seq<char>)
    requires
        s.len() > 12,
        after_text(s, 0, ":where("@) == 7,
        s[7] != '.',
    ensures
        relational(s, Relational::Ancestor) is None,
        relational(s, Relational::SiblingBefore) is None,
        relational(s, Relational::AnySibling) is None,
{
}

proof fn lemma_descendant(c: Seq<char>, p: Seq<char>)
    requires
        class_name(c),
        plain_class(p),
    ensures
        ({
            let s = relation_selector(WhenRelation::Descendant, c + p);
            priority(s) == JsNumber::natural(15).plus_spec(class_part(p))
        }),
{
    lemma_signs();
    let s = relation_selector(WhenRelation::Descendant, c + p);
    let b: int = 13int + c.len() + p.len();
    assert(s[7] == ':' && s[8] == 'h' && s[9] == 'a' && s[10] == 's' && s[11] == '(' && s[12] == '.');
    assert(s.subrange(13, 13 + c.len() as int) =~= c);
    assert(s.subrange(13 + c.len() as int, b) =~= p);
    assert(s[b] == ')' && s[b + 1] == ')');
    lemma_open(s);
    lemma_no_class(s);
    lemma_stands(s, ":has("@, 7);
    lemma_marked(s, 12, c, p);
    lemma_stands(s, "))"@, b);
    assert(relational(s, Relational::Descendant) == Some((p, None::<Seq<char>>)));
}

proof fn lemma_after(c: Seq<char>, p: Seq<char>)
    requires
        class_name(c),
        plain_class(p),
    ensures
        ({
            let s = relation_selector(WhenRelation::SiblingAfter, c + p);
            priority(s) == JsNumber::natural(40).plus_spec(class_part(p))
        }),
{
    lemma_signs();
    let s = relation_selector(WhenRelation::SiblingAfter, c + p);
    let open = ":where(:has(~ ."@;
    reveal_strlit(":where(:has(~ .");
    assert(open.len() == 15);
    let b: int = 15int + c.len() + p.len();
    assert forall|k: int| 0 <= k < 15 implies s[k] == #[trigger] open[k] by {}
    assert(s[7] == open[7] && s[8] == open[8] && s[9] == open[9] && s[10] == open[10]);
    assert(s[11] == open[11] && s[12] == open[12] && s[13] == open[13] && s[14] == open[14]);
    assert(s.subrange(15, 15 + c.len() as int) =~= c);
    assert(s.subrange(15 + c.len() as int, b) =~= p);
    assert(s[b] == ')' && s[b + 1] == ')');
    lemma_open(s);
    lemma_no_class(s);
    lemma_stands(s, ":has("@, 7);
    assert(relational(s, Relational::Descendant) is None);
    lemma_stands(s, ":has(~"@, 7);
    assert(after_one_space(s, 13) == 14);
    lemma_marked(s, 14, c, p);
    lemma_stands(s, "))"@, b);
    assert(relational(s, Relational::SiblingAfter) == Some((p, None::<Seq<char>>)));
}

proof fn lemma_before(c: Seq<char>, p: Seq<char>)
    requires
        class_name(c),
        plain_class(p),
    ensures
        ({
            let s = relation_selector(WhenRelation::SiblingBefore, c + p);
            priority(s) == JsNumber::natural(30).plus_spec(class_part(p))
        }),
{
    lemma_signs();
    let s = relation_selector(WhenRelation::SiblingBefore, c + p);
    let b: int = 8int + c.len() + p.len();
    assert(s[7] == '.');
    assert(s.subrange(8, 8 + c.len() as int) =~= c);
    assert(s.subrange(8 + c.len() as int, b) =~= p);
    assert(s[b] == ' ' && s[b + 1] == '~' && s[b + 2] == ' ' && s[b + 3] == '*' && s[b + 4] == ')');
    lemma_open(s);
    lemma_marked(s, 7, c, p);
    assert(space_end(s, b + 1) == b + 1);
    assert(after_space(s, b) == b + 1);
    lemma_stands_not(s, "*)"@, b + 1, 0);
    assert(relational(s, Relational::Ancestor) is None);
    lemma_stands_not(s, ":has("@, 7, 0);
    assert(relational(s, Relational::Descendant) is None);
    lemma_stands(s, "~"@, b + 1);
    assert(space_end(s, b + 3) == b + 3);
    assert(after_space(s, b + 2) == b + 3);
    lemma_stands_not(s, "*,"@, b + 3, 1);
    assert(relational(s, Relational::AnySibling) is None);
    lemma_stands(s, "*)"@, b + 3);
    assert(relational(s, Relational::SiblingBefore) == Some((p, None::<Seq<char>>)));
}

/// Whether a selector is that of siblings of either kind, with the first class up to `b` and the
/// second up to `d`.
spec fn either_sibling(s: Seq<char>, c: Seq<char>, p: Seq<char>, b: int, d: int) -> bool {
    &&& b == 8int + c.len() + p.len()
    &&& d == b + 14 + c.len() + p.len()
    &&& s.len() == d + 2
    &&& s[0] == ':' && s[1] == 'w' && s[2] == 'h' && s[3] == 'e' && s[4] == 'r' && s[5] == 'e' && s[6]
        == '('
    &&& marked_at(s, 7, c, p)
    &&& s[b] == ' ' && s[b + 1] == '~' && s[b + 2] == ' ' && s[b + 3] == '*' && s[b + 4] == ','
    &&& s[b + 5] == ' ' && s[b + 6] == ':' && s[b + 7] == 'h' && s[b + 8] == 'a' && s[b + 9] == 's'
    &&& s[b + 10] == '(' && s[b + 11] == '~' && s[b + 12] == ' ' && s[b + 13] == '.'
    &&& marked_at(s, b + 13, c, p)
    &&& s[d] == ')' && s[d + 1] == ')'
}

proof fn lemma_any_shape(c: Seq<char>, p: Seq<char>)
    requires
        class_name(c),
        plain_class(p),
    ensures
        ({
            let b: int = 8int + c.len() + p.len();
            let d: int = b + 14 + c.len() + p.len();
            either_sibling(relation_selector(WhenRelation::AnySibling, c + p), c, p, b, d)
        }),
{
    let w = c + p;
    let s = relation_selector(WhenRelation::AnySibling, w);
    let open = ":where(."@;
    let mid = " ~ *, :has(~ ."@;
    reveal_strlit(":where(.");
    reveal_strlit(" ~ *, :has(~ .");
    reveal_strlit("))");
    assert(open.len() == 8 && mid.len() == 14 && "))"@.len() == 2);
    let b: int = 8int + c.len() + p.len();
    let d: int = b + 14 + c.len() + p.len();
    assert(s.len() == d + 2);
    assert(s.subrange(0, 8) =~= open);
    assert(s.subrange(b, b + 14) =~= mid);
    assert forall|k: int| 0 <= k < 8 implies s[k] == #[trigger] open[k] by {
        assert(s.subrange(0, 8)[k] == s[k]);
    }
    assert forall|k: int| 0 <= k < 14 implies s[b + k] == #[trigger] mid[k] by {
        assert(s.subrange(b, b + 14)[k] == s[b + k]);
    }
    assert(s[0] == open[0] && s[1] == open[1] && s[2] == open[2] && s[3] == open[3]);
    assert(s[4] == open[4] && s[5] == open[5] && s[6] == open[6] && s[7] == open[7]);
    assert(s[b + 0] == mid[0] && s[b + 1] == mid[1] && s[b + 2] == mid[2] && s[b + 3] == mid[3]);
    assert(s[b + 4] == mid[4] && s[b + 5] == mid[5] && s[b + 6] == mid[6] && s[b + 7] == mid[7]);
    assert(s[b + 8] == mid[8] && s[b + 9] == mid[9] && s[b + 10] == mid[10] && s[b + 11] == mid[11]);
    assert(s[b + 12] == mid[12] && s[b + 13] == mid[13]);
    assert(s.subrange(8, 8 + c.len() as int) =~= c);
    assert(s.subrange(8 + c.len() as int, b) =~= p);
    assert(s.subrange(b + 14, b + 14 + c.len() as int) =~= c);
    assert(s.subrange(b + 14 + c.len() as int, d) =~= p);
    assert(s[d] == "))"@[0] && s[d + 1] == "))"@[1]);
}

proof fn lemma_any_read(s: Seq<char>, c: Seq<char>, p: Seq<char>, b: int, d: int)
    requires
        either_sibling(s, c, p, b, d),
    ensures
        after_text(s, 0, ":where("@) == 7,
        priority(s) == (match relational_priority(s) {
            Some(p) => p,
            None => JsNumber::natural(
                class_rank(crate::shared::priorities::before_bracket(s)) as nat,
            ),
        }),
        relational(s, Relational::Ancestor) is None,
        relational(s, Relational::Descendant) is None,
{
    lemma_signs();
    lemma_open(s);
    lemma_marked(s, 7, c, p);
    assert(space_end(s, b + 1) == b + 1);
    assert(after_space(s, b) == b + 1);
    lemma_stands_not(s, "*)"@, b + 1, 0);
    assert(relational(s, Relational::Ancestor) is None);
    lemma_stands_not(s, ":has("@, 7, 0);
    assert(relational(s, Relational::Descendant) is None);
}

proof fn lemma_any_found(s: Seq<char>, c: Seq<char>, p: Seq<char>, b: int, d: int)
    requires
        either_sibling(s, c, p, b, d),
        after_text(s, 0, ":where("@) == 7,
    ensures
        relational(s, Relational::AnySibling) == Some((p, Some(p))),
{
    lemma_signs();
    lemma_marked(s, 7, c, p);
    assert(space_end(s, b + 1) == b + 1);
    assert(after_space(s, b) == b + 1);
    lemma_stands(s, "~"@, b + 1);
    assert(space_end(s, b + 3) == b + 3);
    assert(after_space(s, b + 2) == b + 3);
    lemma_stands(s, "*,"@, b + 3);
    assert(space_end(s, b + 6) == b + 6);
    assert(after_space(s, b + 5) == b + 6);
    lemma_stands(s, ":has(~"@, b + 6);
    assert(after_one_space(s, b + 12) == b + 13);
    lemma_marked(s, b + 13, c, p);
    lemma_stands(s, "))"@, d);
}

proof fn lemma_any(c: Seq<char>, p: Seq<char>)
    requires
        class_name(c),
        plain_class(p),
    ensures
        ({
            let s = relation_selector(WhenRelation::AnySibling, c + p);
            priority(s) == JsNumber::natural(20).plus_spec(class_part(p))
        }),
{
    let s = relation_selector(WhenRelation::AnySibling, c + p);
    let b: int = 8int + c.len() + p.len();
    let d: int = b + 14 + c.len() + p.len();
    lemma_any_shape(c, p);
    lemma_any_read(s, c, p, b, d);
    lemma_any_found(s, c, p, b, d);
}

/// A rule for an element by its relation to one of a class is ranked by that relation: by
/// ancestors least, then by descendants, by siblings of either kind, by siblings before and by
/// siblings behind. The pseudo-class of the other element adds a hundredth of its own rank.
pub proof fn related_elements_are_ranked(relation: WhenRelation, c: Seq<char>, p: Seq<char>)
    requires
        class_name(c),
        plain_class(p),
    ensures
        priority(relation_selector(relation, c + p)) == JsNumber::natural(weight(relation)).plus_spec(
            JsNumber::natural(class_rank(p) as nat).over_spec(100),
        ),
{
    match relation {
        WhenRelation::Ancestor => {
            lemma_ancestor(c, p);
        },
        WhenRelation::Descendant => {
            lemma_descendant(c, p);
        },
        WhenRelation::SiblingBefore => {
            lemma_before(c, p);
        },
        WhenRelation::SiblingAfter => {
            lemma_after(c, p);
        },
        WhenRelation::AnySibling => {
            lemma_any(c, p);
        },
    }
}

proof fn lemma_no_parts(s: Seq<char>, i: int)
    requires
        0 <= i <= s.len(),
        forall|k: int| i <= k < s.len() ==> #[trigger] s[k] != ':',
    ensures
        parts_from(s, i).len() == 0,
    decreases s.len() - i,
{
    if i < s.len() {
        lemma_no_parts(s, i + 1);
    }
}

/// Whether a text begins as another does.
pub open spec fn begins(key: Seq<char>, start: Seq<char>) -> bool {
    exists|rest: Seq<char>| key == #[trigger] (start + rest)
}

proof fn lemma_begins(key: Seq<char>, start: Seq<char>)
    ensures
        begins(key, start) == has_prefix(key, start),
{
    if begins(key, start) {
        let rest = choose|rest: Seq<char>| key == #[trigger] (start + rest);
        assert(key.subrange(0, start.len() as int) =~= start);
    }
    if has_prefix(key, start) {
        let rest = key.skip(start.len() as int);
        assert(key =~= start + rest);
    }
}

/// Custom properties rank lowest, then conditions on support, on the media and on containers,
/// then shorthands of shorthands, shorthands, longhands and physical longhands, and
/// pseudo-elements rank highest.
pub proof fn ranks_are_in_order(key: Seq<char>)
    ensures
        begins(key, "--"@) ==> priority(key) == JsNumber::natural(1),
        begins(key, "@supports"@) ==> priority(key) == JsNumber::natural(30),
        begins(key, "@media"@) ==> priority(key) == JsNumber::natural(200),
        begins(key, "@container"@) ==> priority(key) == JsNumber::natural(300),
        begins(key, "::"@) && chain_priority(key) is None ==> priority(key) == JsNumber::natural(5000),
        !key.contains(':') && !key.contains('@') && !begins(key, "--"@) ==> priority(key)
            == JsNumber::natural(
            if listed(key, SHORTHANDS_OF_SHORTHANDS@) {
                1000
            } else if listed(key, SHORTHANDS_OF_LONGHANDS@) {
                2000
            } else if !listed(key, PHYSICAL_LONGHANDS@) {
                3000
            } else {
                4000
            },
        ),
{
    lemma_begins(key, "--"@);
    lemma_begins(key, "@supports"@);
    lemma_begins(key, "@media"@);
    lemma_begins(key, "@container"@);
    lemma_begins(key, "::"@);
    reveal_strlit("--");
    reveal_strlit("@supports");
    reveal_strlit("@media");
    reveal_strlit("@container");
    reveal_strlit("::");
    reveal_strlit(":");
    if key.len() > 0 {
        if key[0] != '-' {
            lemma_stands_not(key, "--"@, 0, 0);
        }
        if key[0] != '@' {
            lemma_stands_not(key, "@supports"@, 0, 0);
            lemma_stands_not(key, "@media"@, 0, 0);
            lemma_stands_not(key, "@container"@, 0, 0);
        }
        if key[0] != ':' {
            lemma_stands_not(key, "::"@, 0, 0);
            lemma_stands_not(key, ":"@, 0, 0);
        }
        if has_prefix(key, "@supports"@) {
            assert(key.subrange(0, 9)[1] == 's');
            lemma_stands_not(key, "@media"@, 0, 1);
            lemma_stands_not(key, "@container"@, 0, 1);
        }
        if has_prefix(key, "@media"@) {
            assert(key.subrange(0, 6)[1] == 'm');
            lemma_stands_not(key, "@supports"@, 0, 1);
        }
        if has_prefix(key, "@container"@) {
            assert(key.subrange(0, 10)[1] == 'c');
            lemma_stands_not(key, "@supports"@, 0, 1);
            lemma_stands_not(key, "@media"@, 0, 1);
        }
    }
    if !key.contains(':') && !key.contains('@') {
        assert forall|k: int| 0 <= k < key.len() implies #[trigger] key[k] != ':' by {
            assert(key.contains(key[k]));
        }
        if key.len() > 0 {
            assert(key.contains(key[0]));
        }
        lemma_no_parts(key, 0);
    }
}

/// The other element of a relation is chosen by a pseudo-class or by an attribute in its brackets,
/// and by nothing else.
pub proof fn other_elements_are_chosen(pseudo: Seq<char>)
    ensures
        selector_error(pseudo) is None <==> (begins(pseudo, ":"@) && !begins(pseudo, "::"@)) || (
        begins(pseudo, "["@) && has_suffix(pseudo, "]"@)),
{
    lemma_begins(pseudo, ":"@);
    lemma_begins(pseudo, "::"@);
    lemma_begins(pseudo, "["@);
    reveal_strlit(":");
    reveal_strlit("::");
    reveal_strlit("[");
    if has_prefix(pseudo, "["@) {
        assert(pseudo.subrange(0, 1)[0] == '[');
        lemma_stands_not(pseudo, ":"@, 0, 0);
        lemma_stands_not(pseudo, "::"@, 0, 0);
    }
    if has_prefix(pseudo, ":"@) {
        assert(pseudo.subrange(0, 1)[0] == ':');
        lemma_stands_not(pseudo, "["@, 0, 0);
    }
}

} // verus!
