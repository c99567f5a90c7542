//! What splitting and joining texts have to do with each other.

use crate::text::{join_first, join_texts, next_char, split_at_char, split_from};
use vstd::prelude::*;

verus! {

proof fn lemma_next(s: Seq<char>, c: char, from: int)
    requires
        0 <= from <= s.len(),
    ensures
        from <= next_char(s, c, from) <= s.len(),
        next_char(s, c, from) < s.len() ==> s[next_char(s, c, from)] == c,
        forall|i: int| from <= i < next_char(s, c, from) ==> s[i] != c,
    decreases s.len() - from,
{
    if from < s.len() && s[from] != c {
        lemma_next(s, c, from + 1);
    }
}

proof fn lemma_next_is(s: Seq<char>, c: char, from: int, at: int)
    requires
        0 <= from <= at <= s.len(),
        at < s.len() ==> s[at] == c,
        forall|i: int| from <= i < at ==> s[i] != c,
    ensures
        next_char(s, c, from) == at,
{
    lemma_next(s, c, from);
    let next = next_char(s, c, from);
    if next < at {
        assert(s[next] != c);
    }
    if at < next {
        assert(s[at] != c);
    }
}

proof fn lemma_split_shifted(p: Seq<char>, y: Seq<char>, c: char, i: int)
    requires
        0 <= i <= y.len(),
    ensures
        split_from(p + y, c, p.len() + i) == split_from(y, c, i),
    decreases y.len() - i,
{
    let s = p + y;
    let at = p.len() + i;
    lemma_next(y, c, i);
    let next = next_char(y, c, i);
    assert forall|j: int| at <= j < p.len() + next implies s[j] != c by {
        assert(s[j] == y[j - p.len()]);
    }
    lemma_next_is(s, c, at, p.len() + next);
    if next < y.len() {
        lemma_split_shifted(p, y, c, next + 1);
        assert(s.subrange(at, p.len() + next) =~= y.subrange(i, next));
    } else {
        assert(s.subrange(at, s.len() as int) =~= y.subrange(i, y.len() as int));
    }
}

proof fn lemma_split_behind(x: Seq<char>, c: char, y: Seq<char>, from: int)
    requires
        0 <= from <= x.len(),
    ensures
        split_from(x + seq![c] + y, c, from) == split_from(x, c, from) + split_at_char(y, c),
    decreases x.len() - from,
{
    let p = x + seq![c];
    let s = p + y;
    lemma_next(x, c, from);
    let next = next_char(x, c, from);
    assert forall|j: int| from <= j < next implies s[j] != c by {
        assert(s[j] == x[j]);
    }
    assert(s[next] == c);
    lemma_next_is(s, c, from, next);
    assert(s.subrange(from, next) =~= x.subrange(from, next));
    if next < x.len() {
        lemma_split_behind(x, c, y, next + 1);
        assert(split_from(s, c, from) =~= split_from(x, c, from) + split_at_char(y, c));
    } else {
        lemma_split_shifted(p, y, c, 0);
        assert(split_from(s, c, from) =~= split_from(x, c, from) + split_at_char(y, c));
    }
}

/// A text that is put together around a separator splits into the parts of the two.
pub proof fn parts_of_a_whole(x: Seq<char>, c: char, y: Seq<char>)
    ensures
        split_at_char(x + seq![c] + y, c) == split_at_char(x, c) + split_at_char(y, c),
{
    lemma_split_behind(x, c, y, 0);
}

/// A text without the separator is one part.
pub proof fn one_part(x: Seq<char>, c: char)
    requires
        !x.contains(c),
    ensures
        split_at_char(x, c) == seq![x],
{
    assert forall|i: int| 0 <= i < x.len() implies x[i] != c by {
        assert(x.contains(x[i]));
    }
    lemma_next_is(x, c, 0, x.len() as int);
    assert(x.subrange(0, x.len() as int) =~= x);
}

proof fn lemma_lacking(s: Seq<char>, c: char, from: int)
    requires
        0 <= from <= s.len(),
    ensures
        split_from(s, c, from).len() > 0,
        forall|i: int|
            0 <= i < split_from(s, c, from).len() ==> !(#[trigger] split_from(s, c, from)[i]).contains(
                c,
            ),
    decreases s.len() - from,
{
    lemma_next(s, c, from);
    let next = next_char(s, c, from);
    let first = s.subrange(from, next);
    assert(!first.contains(c)) by {
        if first.contains(c) {
            let j = choose|j: int| 0 <= j < first.len() && first[j] == c;
            assert(s[from + j] != c);
        }
    }
    if next < s.len() {
        lemma_lacking(s, c, next + 1);
        let rest = split_from(s, c, next + 1);
        let all = split_from(s, c, from);
        assert forall|i: int| 0 <= i < all.len() implies !(#[trigger] all[i]).contains(c) by {
            if i > 0 {
                assert(all[i] == rest[i - 1]);
            }
        }
    }
}

/// No part of a text holds the separator.
pub proof fn parts_lack_the_separator(s: Seq<char>, c: char)
    ensures
        split_at_char(s, c).len() > 0,
        forall|i: int|
            0 <= i < split_at_char(s, c).len() ==> !(#[trigger] split_at_char(s, c)[i]).contains(c),
{
    lemma_lacking(s, c, 0);
}

proof fn lemma_joined(parts: Seq<Seq<char>>, c: char, n: int)
    requires
        0 < n <= parts.len(),
        forall|i: int| 0 <= i < parts.len() ==> !(#[trigger] parts[i]).contains(c),
    ensures
        split_at_char(join_first(parts, seq![c], n), c) == parts.take(n),
    decreases n,
{
    if n == 1 {
        one_part(parts[0], c);
        assert(parts.take(1) =~= seq![parts[0]]);
    } else {
        lemma_joined(parts, c, n - 1);
        parts_of_a_whole(join_first(parts, seq![c], n - 1), c, parts[n - 1]);
        one_part(parts[n - 1], c);
        assert(parts.take(n) =~= parts.take(n - 1) + seq![parts[n - 1]]);
    }
}

/// Parts that are joined with a separator that none of them holds split into the same
/// parts again.
pub proof fn joined_parts_split_again(parts: Seq<Seq<char>>, c: char)
    requires
        parts.len() > 0,
        forall|i: int| 0 <= i < parts.len() ==> !(#[trigger] parts[i]).contains(c),
    ensures
        split_at_char(join_texts(parts, seq![c]), c) == parts,
{
    lemma_joined(parts, c, parts.len() as int);
    assert(parts.take(parts.len() as int) =~= parts);
}

} // verus!
