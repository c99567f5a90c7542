//! Media queries are read as they are spelled, and comparisons mean what they say.

use crate::number::JsNumber;
use crate::shared::media_grammar::{
    after, and_at, and_in_brackets_at, between_at, bound_rule, chain_at, chain_rest, comparison_at,
    denied_at, element_at, feature_at, forward_at, keyword_at, keyword_in_brackets_at,
    leading_not_at, media_query_at, not_at, or_at, or_in_brackets_at, pair_at, queries_rest,
    query_at, reversed_at, word_at, TokModel,
};
use crate::shared::media_laws::{apart_from, lemma_shifted, on_screen, Sizes};
use crate::shared::media_query::{holds, FeatureModel, MediaModel};
use vstd::prelude::*;

verus! {

/// Whether a type of media is spelled from `i` to `p`.
pub open spec fn type_spelled(
    t: Seq<TokModel>,
    i: int,
    key: Seq<char>,
    not: bool,
    only: bool,
    p: int,
) -> bool {
    let a = if not {
        i + 2
    } else {
        i
    };
    let b = if only {
        a + 2
    } else {
        a
    };
    &&& 0 <= i
    &&& p == b + 1 <= t.len()
    &&& key == "screen"@ || key == "print"@ || key == "all"@
    &&& not ==> t[i] == TokModel::Ident("not"@) && t[i + 1] is Whitespace
    &&& only ==> t[a] == TokModel::Ident("only"@) && t[a + 1] is Whitespace
    &&& t[b] == TokModel::Ident(key)
}

/// Whether a value is spelled from `i` to `p`.
pub open spec fn value_spelled(t: Seq<TokModel>, i: int, v: FeatureModel, p: int) -> bool {
    &&& 0 <= i < p <= t.len()
    &&& match v {
        FeatureModel::Length(n, unit) => p == i + 1 && t[i] == TokModel::Dimension(n, unit),
        FeatureModel::Number(n) => p == i + 1 && t[i] == TokModel::Number(n),
        FeatureModel::Str(s) => p == i + 1 && t[i] == TokModel::Ident(s),
        FeatureModel::Fraction(a, b) => p == i + 5 && t[i] == TokModel::Number(a) && t[i
            + 1] is Whitespace && t[i + 2] == TokModel::Delim('/') && t[i + 3] is Whitespace && t[i
            + 4] == TokModel::Number(b),
    }
}

/// How many conditions one holds.
pub open spec fn parts(m: MediaModel) -> Seq<MediaModel> {
    match m {
        MediaModel::And(rules) => rules,
        MediaModel::Or(rules) => rules,
        _ => seq![],
    }
}

/// The word between the conditions that one holds.
pub open spec fn joint(m: MediaModel) -> Seq<char> {
    match m {
        MediaModel::And(_) => "and"@,
        _ => "or"@,
    }
}

/// Whether a condition is spelled from `i` to `p`, in brackets but for a type of media.
pub open spec fn spelled(t: Seq<TokModel>, i: int, m: MediaModel, p: int) -> bool
    decreases m, parts(m).len() + 1,
{
    &&& 0 <= i < p <= t.len()
    &&& match m {
        MediaModel::Keyword(key, not, only) => type_spelled(t, i, key, not, only, p),
        MediaModel::WordRule(key) => {
            &&& p == i + 3
            &&& t[i] is OpenParen
            &&& t[i + 1] == TokModel::Ident(key)
            &&& t[i + 2] is CloseParen
            &&& key == "color"@ || key == "monochrome"@ || key == "grid"@ || key == "color-index"@
        },
        MediaModel::Pair(key, v) => {
            &&& p > i + 5
            &&& t[i] is OpenParen
            &&& t[i + 1] == TokModel::Ident(key)
            &&& t[i + 2] is Colon
            &&& t[i + 3] is Whitespace
            &&& value_spelled(t, i + 4, v, p - 1)
            &&& t[p - 1] is CloseParen
        },
        MediaModel::Not(inner) => {
            &&& p > i + 4
            &&& t[i] is OpenParen
            &&& t[i + 1] == TokModel::Ident("not"@)
            &&& t[i + 2] is Whitespace
            &&& match *inner {
                MediaModel::Keyword(key, not, only) => {
                    &&& !not && !only
                    &&& p == i + 7
                    &&& t[i + 3] is OpenParen
                    &&& type_spelled(t, i + 4, key, not, only, i + 5)
                    &&& t[i + 5] is CloseParen
                },
                inner => spelled(t, i + 3, inner, p - 1),
            }
            &&& t[p - 1] is CloseParen
        },
        m => {
            &&& p > i + 2
            &&& t[i] is OpenParen
            &&& parts(m).len() > 1
            &&& !(parts(m)[0] matches MediaModel::Keyword(_, true, _))
            &&& joined(t, i + 1, m, 0, p - 1)
            &&& t[p - 1] is CloseParen
        },
    }
}

/// Whether the conditions that one holds, from the `n`th on, are spelled from `i` to `p` with
/// their word between.
pub open spec fn joined(t: Seq<TokModel>, i: int, m: MediaModel, n: int, p: int) -> bool
    decreases m, parts(m).len() - n,
{
    &&& 0 <= n < parts(m).len()
    &&& if n + 1 == parts(m).len() {
        spelled(t, i, parts(m)[n], p)
    } else {
        exists|q: int|
            {
                &&& spelled(t, i, parts(m)[n], q)
                &&& q + 3 < t.len()
                &&& #[trigger] t[q] is Whitespace
                &&& t[q + 1] == TokModel::Ident(joint(m))
                &&& t[q + 2] is Whitespace
                &&& joined(t, q + 3, m, n + 1, p)
            }
    }
}

proof fn lemma_words()
    ensures
        "and"@ != "or"@,
        "not"@ != "only"@,
        "not"@ != "screen"@,
        "not"@ != "print"@,
        "not"@ != "all"@,
        "only"@ != "screen"@,
        "only"@ != "print"@,
        "only"@ != "all"@,
        forall|k: Seq<char>|
            #![trigger k.len()]
            k == "color"@ || k == "monochrome"@ || k == "grid"@ || k == "color-index"@ ==> k
                != "screen"@ && k != "print"@ && k != "all"@,
{
    reveal_strlit("and");
    reveal_strlit("or");
    reveal_strlit("not");
    reveal_strlit("only");
    reveal_strlit("screen");
    reveal_strlit("print");
    reveal_strlit("all");
    reveal_strlit("color");
    reveal_strlit("monochrome");
    reveal_strlit("grid");
    reveal_strlit("color-index");
    assert("and"@.len() == 3 && "or"@.len() == 2 && "not"@.len() == 3 && "only"@.len() == 4);
    assert("screen"@.len() == 6 && "print"@.len() == 5 && "all"@.len() == 3);
    assert("color"@.len() == 5 && "monochrome"@.len() == 10 && "grid"@.len() == 4);
    assert("color-index"@.len() == 11);
    assert("not"@[0] == 'n' && "all"@[0] == 'a');
    assert("color"@[0] == 'c' && "print"@[0] == 'p');
}

/// Where no bracket opens, only a type of media is read.
proof fn lemma_no_bracket(t: Seq<TokModel>, i: int)
    requires
        0 <= i < t.len(),
        !(t[i] is OpenParen),
    ensures
        element_at(t, i) == keyword_at(t, i),
        or_in_brackets_at(t, i) is None,
        and_in_brackets_at(t, i) is None,
        not_at(t, i) is None,
        between_at(t, i) is None,
        comparison_at(t, i) is None,
        pair_at(t, i) is None,
        word_at(t, i) is None,
{
}

/// Behind an open bracket no chain starts with a name that nothing follows.
proof fn lemma_no_chain(t: Seq<TokModel>, i: int, word: Seq<char>)
    requires
        0 <= i < i + 1 < t.len(),
        t[i] is Ident,
        t[i + 1] is Colon || t[i + 1] is CloseParen,
    ensures
        chain_at(t, i, word) is None,
{
    lemma_no_bracket(t, i);
}

/// A chain of one is none.
proof fn lemma_one(t: Seq<TokModel>, i: int, word: Seq<char>, p: int)
    requires
        0 <= i < p < t.len(),
        element_at(t, i) matches Some((m, q)) && q == p,
        after(
            t,
            after(t, after(t, p, TokModel::Whitespace), TokModel::Ident(word)),
            TokModel::Whitespace,
        ) < 0,
    ensures
        chain_at(t, i, word) is None,
{
}

proof fn lemma_type(t: Seq<TokModel>, i: int, key: Seq<char>, not: bool, only: bool, p: int)
    requires
        type_spelled(t, i, key, not, only, p),
    ensures
        keyword_at(t, i) == Some((MediaModel::Keyword(key, not, only), p)),
{
    lemma_words();
}

proof fn lemma_value(t: Seq<TokModel>, i: int, v: FeatureModel, p: int)
    requires
        value_spelled(t, i, v, p),
        p < t.len(),
        t[p] is CloseParen,
    ensures
        feature_at(t, i) == Some((v, p)),
{
}

/// What a bracket holds that is no chain.
proof fn lemma_plain(t: Seq<TokModel>, i: int, m: MediaModel, p: int)
    requires
        spelled(t, i, m, p),
        m is Pair || m is WordRule,
    ensures
        element_at(t, i) == Some((m, p)),
        m is Pair ==> pair_at(t, i) == Some((m, p)),
        m is WordRule ==> pair_at(t, i) is None && word_at(t, i) == Some((m, p)),
        or_in_brackets_at(t, i) is None,
        and_in_brackets_at(t, i) is None,
        not_at(t, i) is None,
        between_at(t, i) is None,
        comparison_at(t, i) is None,
        keyword_in_brackets_at(t, i) is None,
        keyword_at(t, i) is None,
{
    lemma_words();
    lemma_no_chain(t, i + 1, "or"@);
    lemma_no_chain(t, i + 1, "and"@);
    assert(or_at(t, i + 1) is None);
    assert(and_at(t, i + 1) is None);
    assert(or_in_brackets_at(t, i) is None);
    assert(and_in_brackets_at(t, i) is None);
    assert(not_at(t, i) is None);
    match m {
        MediaModel::Pair(key, v) => {
            lemma_value(t, i + 4, v, p - 1);
            assert(pair_at(t, i) == Some((m, p)));
        },
        MediaModel::WordRule(key) => {
            assert(key.len() >= 0);
            assert(word_at(t, i) == Some((m, p)));
        },
        _ => {},
    }
    assert(between_at(t, i) is None);
    assert(comparison_at(t, i) is None);
}

/// A denial in brackets is read as it is spelled, once what it denies is.
proof fn lemma_denial(t: Seq<TokModel>, i: int, inner: MediaModel, p: int)
    requires
        0 <= i < i + 4 < p <= t.len(),
        t[i] is OpenParen,
        t[i + 1] == TokModel::Ident("not"@),
        t[i + 2] is Whitespace,
        t[i + 3] is OpenParen,
        denied_at(t, i + 3) == Some((inner, p - 1)),
        t[p - 1] is CloseParen,
    ensures
        ({
            let m = MediaModel::Not(Box::new(inner));
            &&& element_at(t, i) == Some((m, p))
            &&& not_at(t, i) == Some((m, p))
            &&& or_in_brackets_at(t, i) is None
            &&& and_in_brackets_at(t, i) is None
            &&& pair_at(t, i) is None
            &&& word_at(t, i) is None
            &&& keyword_in_brackets_at(t, i) is None
            &&& keyword_at(t, i) is None
        }),
{
    lemma_words();
    lemma_no_bracket(t, i + 1);
    assert(keyword_at(t, i + 1) is None);
    assert(chain_at(t, i + 1, "or"@) is None);
    assert(chain_at(t, i + 1, "and"@) is None);
    assert(or_at(t, i + 1) is None);
    assert(and_at(t, i + 1) is None);
    assert(or_in_brackets_at(t, i) is None);
    assert(and_in_brackets_at(t, i) is None);
    assert(not_at(t, i) == Some((MediaModel::Not(Box::new(inner)), p)));
}

/// Conditions with a word between, in brackets, are read as they are spelled, once the chain is.
proof fn lemma_bracketed(t: Seq<TokModel>, i: int, m: MediaModel, p: int)
    requires
        spelled(t, i, m, p),
        m is And || m is Or,
        chain_at(t, i + 1, joint(m)) == Some((parts(m), p - 1)),
        element_at(t, i + 1) matches Some((first, q)) && 0 <= i + 1 < q < t.len() && t[q] is Whitespace
            && t[q + 1] == TokModel::Ident(joint(m)),
    ensures
        element_at(t, i) == Some((m, p)),
        m is Or ==> or_in_brackets_at(t, i) == Some((m, p)),
        m is And ==> or_in_brackets_at(t, i) is None && and_in_brackets_at(t, i) == Some((m, p)),
{
    lemma_words();
    let q = (element_at(t, i + 1)->0).1;
    match m {
        MediaModel::And(rules) => {
            assert(after(t, after(t, q, TokModel::Whitespace), TokModel::Ident("or"@)) < 0);
            lemma_one(t, i + 1, "or"@, q);
            assert(or_at(t, i + 1) is None);
            assert(and_at(t, i + 1) == Some((m, p - 1)));
            assert(or_in_brackets_at(t, i) is None);
            assert(and_in_brackets_at(t, i) == Some((m, p)));
        },
        MediaModel::Or(rules) => {
            assert(or_at(t, i + 1) == Some((m, p - 1)));
            assert(or_in_brackets_at(t, i) == Some((m, p)));
        },
        _ => {},
    }
}

/// Where the next of conditions with a word between starts.
proof fn lemma_next(t: Seq<TokModel>, i: int, m: MediaModel, n: int, p: int) -> (q: int)
    requires
        joined(t, i, m, n, p),
        n + 1 < parts(m).len(),
    ensures
        spelled(t, i, parts(m)[n], q),
        q + 3 < t.len(),
        t[q] is Whitespace,
        t[q + 1] == TokModel::Ident(joint(m)),
        t[q + 2] is Whitespace,
        joined(t, q + 3, m, n + 1, p),
{
    choose|q: int|
        {
            &&& spelled(t, i, parts(m)[n], q)
            &&& q + 3 < t.len()
            &&& #[trigger] t[q] is Whitespace
            &&& t[q + 1] == TokModel::Ident(joint(m))
            &&& t[q + 2] is Whitespace
            &&& joined(t, q + 3, m, n + 1, p)
        }
}

/// What the conditions with a word between, in brackets, are not.
proof fn lemma_not_plain(t: Seq<TokModel>, i: int, m: MediaModel, p: int)
    requires
        spelled(t, i, m, p),
        m is And || m is Or,
    ensures
        pair_at(t, i) is None,
        word_at(t, i) is None,
        not_at(t, i) is None,
        keyword_in_brackets_at(t, i) is None,
        keyword_at(t, i) is None,
        between_at(t, i) is None,
        comparison_at(t, i) is None,
{
    lemma_words();
    let first = parts(m)[0];
    assert(joined(t, i + 1, m, 0, p - 1));
    let q = lemma_next(t, i + 1, m, 0, p - 1);
    if first is Keyword {
        assert(type_spelled(t, i + 1, first->Keyword_0, false, first->Keyword_2, q));
    } else {
        assert(t[i + 1] is OpenParen);
    }
}

/// Whether no further condition follows with a word before it.
spec fn ends_at(t: Seq<TokModel>, p: int, word: Seq<char>) -> bool {
    after(
        t,
        after(t, after(t, p, TokModel::Whitespace), TokModel::Ident(word)),
        TokModel::Whitespace,
    ) < 0
}

/// A condition is read as it is spelled.
pub proof fn conditions_are_read_as_spelled(t: Seq<TokModel>, i: int, m: MediaModel, p: int)
    requires
        spelled(t, i, m, p),
    ensures
        element_at(t, i) == Some((m, p)),
        m is Or ==> or_in_brackets_at(t, i) == Some((m, p)),
        m is And ==> or_in_brackets_at(t, i) is None && and_in_brackets_at(t, i) == Some((m, p)),
        m is Not ==> or_in_brackets_at(t, i) is None && and_in_brackets_at(t, i) is None && not_at(
            t,
            i,
        ) == Some((m, p)) && pair_at(t, i) is None && word_at(t, i) is None
            && keyword_in_brackets_at(t, i) is None && keyword_at(t, i) is None,
    decreases m, parts(m).len() + 1,
{
    lemma_words();
    match m {
        MediaModel::Keyword(key, not, only) => {
            lemma_type(t, i, key, not, only, p);
        },
        MediaModel::WordRule(_) => {
            lemma_plain(t, i, m, p);
        },
        MediaModel::Pair(_, _) => {
            lemma_plain(t, i, m, p);
        },
        MediaModel::Not(inner) => {
            match *inner {
                MediaModel::Keyword(key, not, only) => {
                    assert(keyword_in_brackets_at(t, i + 3) == Some((*inner, p - 1)));
                    assert(denied_at(t, i + 3) == Some((*inner, p - 1)));
                },
                _ => {
                    lemma_denied(t, i + 3, *inner, p - 1);
                },
            }
            lemma_denial(t, i, *inner, p);
            assert(m == MediaModel::Not(Box::new(*inner)));
        },
        _ => {
            let q = lemma_next(t, i + 1, m, 0, p - 1);
            lemma_chain(t, i + 1, m, 0, p - 1, seq![]);
            conditions_are_read_as_spelled(t, i + 1, parts(m)[0], q);
            assert(seq![parts(m)[0]] =~= seq![].push(parts(m)[0]));
            assert(seq![] + parts(m).skip(0) =~= parts(m));
            lemma_bracketed(t, i, m, p);
        },
    }
}

/// What is denied in brackets is read as it is spelled.
proof fn lemma_denied(t: Seq<TokModel>, i: int, m: MediaModel, p: int)
    requires
        spelled(t, i, m, p),
        !(m is Keyword),
        p < t.len(),
        t[p] is CloseParen,
    ensures
        denied_at(t, i) == Some((m, p)),
        t[i] is OpenParen,
    decreases m, parts(m).len() + 2,
{
    conditions_are_read_as_spelled(t, i, m, p);
    lemma_one(t, i, "and"@, p);
    lemma_one(t, i, "or"@, p);
    assert(and_at(t, i) is None);
    assert(or_at(t, i) is None);
    match m {
        MediaModel::WordRule(_) => {
            lemma_plain(t, i, m, p);
        },
        MediaModel::Pair(_, _) => {
            lemma_plain(t, i, m, p);
        },
        MediaModel::Not(_) => {},
        _ => {
            lemma_not_plain(t, i, m, p);
        },
    }
}

/// Conditions with a word between are read as they are spelled.
proof fn lemma_chain(
    t: Seq<TokModel>,
    i: int,
    m: MediaModel,
    n: int,
    p: int,
    items: Seq<MediaModel>,
)
    requires
        joined(t, i, m, n, p),
        ends_at(t, p, joint(m)),
    ensures
        element_at(t, i) matches Some((first, q)) && first == parts(m)[n] && 0 <= i < q && i
            < t.len() && chain_rest(t, q, joint(m), items.push(first)) == (
            items + parts(m).skip(n),
            p,
        ),
    decreases m, parts(m).len() - n,
{
    let first = parts(m)[n];
    if n + 1 == parts(m).len() {
        conditions_are_read_as_spelled(t, i, first, p);
        assert(items.push(first) =~= items + parts(m).skip(n));
    } else {
        let q = lemma_next(t, i, m, n, p);
        conditions_are_read_as_spelled(t, i, first, q);
        lemma_chain(t, q + 3, m, n + 1, p, items.push(first));
        assert(items.push(first) + parts(m).skip(n + 1) =~= items + parts(m).skip(n));
    }
}

/// Whether a query is spelled from `i` to `p`: conditions with a word between and denials
/// stand without brackets.
pub open spec fn query_spelled(t: Seq<TokModel>, i: int, m: MediaModel, p: int) -> bool {
    match m {
        MediaModel::Not(inner) => {
            &&& 0 <= i < i + 2 < t.len()
            &&& t[i] == TokModel::Ident("not"@)
            &&& t[i + 1] is Whitespace
            &&& !(*inner is Keyword)
            &&& spelled(t, i + 2, *inner, p)
        },
        MediaModel::And(rules) => rules.len() > 1 && joined(t, i, m, 0, p),
        MediaModel::Or(rules) => rules.len() > 1 && joined(t, i, m, 0, p),
        _ => spelled(t, i, m, p),
    }
}

/// Whether queries, from the `n`th on, are spelled from `i` to the end with commas between.
pub open spec fn queries_spelled(t: Seq<TokModel>, i: int, all: Seq<MediaModel>, n: int) -> bool
    decreases all.len() - n,
{
    &&& 0 <= n < all.len()
    &&& if n + 1 == all.len() {
        query_spelled(t, i, all[n], t.len() as int)
    } else {
        exists|q: int|
            {
                &&& query_spelled(t, i, all[n], q)
                &&& 0 <= q < q + 2 < t.len()
                &&& #[trigger] t[q] is Comma
                &&& t[q + 1] is Whitespace
                &&& queries_spelled(t, q + 2, all, n + 1)
            }
    }
}

/// Denials that stand first are read only where they are spelled.
proof fn lemma_no_denial(t: Seq<TokModel>, i: int, m: MediaModel, p: int)
    requires
        spelled(t, i, m, p),
    ensures
        leading_not_at(t, i) is None,
{
    lemma_words();
    match m {
        MediaModel::Keyword(key, not, only) => {
            if not {
                lemma_no_bracket(t, i + 2);
            }
        },
        _ => {
            assert(t[i] is OpenParen);
        },
    }
}

/// A query is read as it is spelled.
proof fn lemma_query(t: Seq<TokModel>, i: int, m: MediaModel, p: int)
    requires
        query_spelled(t, i, m, p),
        p == t.len() || t[p] is Comma,
    ensures
        query_at(t, i) == Some((m, p)),
        i < p <= t.len(),
{
    lemma_words();
    match m {
        MediaModel::Not(inner) => {
            conditions_are_read_as_spelled(t, i + 2, *inner, p);
            if *inner is Pair || *inner is WordRule {
                lemma_plain(t, i + 2, *inner, p);
            }
            assert(m == MediaModel::Not(Box::new(*inner)));
        },
        MediaModel::And(rules) => {
            let q = lemma_next(t, i, m, 0, p);
            lemma_no_denial(t, i, rules[0], q);
            lemma_chain(t, i, m, 0, p, seq![]);
            lemma_within(t, i, m, 0, p);
            assert(seq![rules[0]] =~= seq![].push(rules[0]));
            assert(seq![] + rules.skip(0) =~= rules);
            assert(chain_at(t, i, "and"@) == Some((rules, p)));
            assert(and_at(t, i) == Some((m, p)));
        },
        MediaModel::Or(rules) => {
            let q = lemma_next(t, i, m, 0, p);
            lemma_no_denial(t, i, rules[0], q);
            lemma_chain(t, i, m, 0, p, seq![]);
            lemma_within(t, i, m, 0, p);
            conditions_are_read_as_spelled(t, i, rules[0], q);
            assert(after(t, after(t, q, TokModel::Whitespace), TokModel::Ident("and"@)) < 0);
            lemma_one(t, i, "and"@, q);
            assert(and_at(t, i) is None);
            assert(seq![rules[0]] =~= seq![].push(rules[0]));
            assert(seq![] + rules.skip(0) =~= rules);
            assert(chain_at(t, i, "or"@) == Some((rules, p)));
            assert(or_at(t, i) == Some((m, p)));
        },
        _ => {
            lemma_no_denial(t, i, m, p);
            conditions_are_read_as_spelled(t, i, m, p);
            lemma_last(t, i, "and"@, p);
            lemma_last(t, i, "or"@, p);
            assert(and_at(t, i) is None);
            assert(or_at(t, i) is None);
            if !(m is Keyword) {
                lemma_plain(t, i, m, p);
            } else {
                lemma_type(t, i, m->Keyword_0, m->Keyword_1, m->Keyword_2, p);
            }
        },
    }
}

/// A chain of one is none at the end of a query either.
proof fn lemma_last(t: Seq<TokModel>, i: int, word: Seq<char>, p: int)
    requires
        0 <= i < p <= t.len(),
        element_at(t, i) matches Some((m, q)) && q == p,
        p == t.len() || t[p] is Comma,
    ensures
        chain_at(t, i, word) is None,
{
}

/// Conditions with a word between stand within the tokens.
proof fn lemma_within(t: Seq<TokModel>, i: int, m: MediaModel, n: int, p: int)
    requires
        joined(t, i, m, n, p),
    ensures
        0 <= i < p <= t.len(),
    decreases parts(m).len() - n,
{
    if n + 1 == parts(m).len() {
        assert(spelled(t, i, parts(m)[n], p));
    } else {
        let q = lemma_next(t, i, m, n, p);
        assert(spelled(t, i, parts(m)[n], q));
        lemma_within(t, q + 3, m, n + 1, p);
    }
}

/// Where the next of queries with commas between starts.
proof fn lemma_comma(t: Seq<TokModel>, i: int, all: Seq<MediaModel>, n: int) -> (q: int)
    requires
        queries_spelled(t, i, all, n),
    ensures
        query_spelled(t, i, all[n], q),
        n + 1 == all.len() ==> q == t.len(),
        n + 1 < all.len() ==> 0 <= q < q + 2 < t.len() && t[q] is Comma && t[q + 1] is Whitespace
            && queries_spelled(t, q + 2, all, n + 1),
{
    if n + 1 == all.len() {
        t.len() as int
    } else {
        choose|q: int|
            {
                &&& query_spelled(t, i, all[n], q)
                &&& 0 <= q < q + 2 < t.len()
                &&& #[trigger] t[q] is Comma
                &&& t[q + 1] is Whitespace
                &&& queries_spelled(t, q + 2, all, n + 1)
            }
    }
}

#[verifier::opaque]
spec fn reads(t: Seq<TokModel>, i: int, m: MediaModel, p: int) -> bool {
    query_at(t, i) == Some((m, p)) && i < p
}

#[verifier::opaque]
spec fn gathers(t: Seq<TokModel>, i: int, items: Seq<MediaModel>, all: Seq<MediaModel>) -> bool {
    queries_rest(t, i, items) == (all, t.len() as int)
}

proof fn lemma_reads(t: Seq<TokModel>, i: int, m: MediaModel, p: int)
    requires
        query_spelled(t, i, m, p),
        p == t.len() || t[p] is Comma,
    ensures
        reads(t, i, m, p),
{
    lemma_query(t, i, m, p);
    reveal(reads);
}

/// One step of reading queries.
proof fn lemma_step(
    t: Seq<TokModel>,
    i: int,
    next: MediaModel,
    p: int,
    items: Seq<MediaModel>,
    all: Seq<MediaModel>,
)
    requires
        0 <= i < i + 2 < t.len(),
        t[i] is Comma,
        t[i + 1] is Whitespace,
        reads(t, i + 2, next, p),
        gathers(t, p, items.push(next), all),
    ensures
        gathers(t, i, items, all),
{
    reveal(reads);
    reveal(gathers);
}

proof fn lemma_gathered(t: Seq<TokModel>, items: Seq<MediaModel>)
    ensures
        gathers(t, t.len() as int, items, items),
{
    reveal(gathers);
}

proof fn lemma_queries(
    t: Seq<TokModel>,
    i: int,
    all: Seq<MediaModel>,
    n: int,
    items: Seq<MediaModel>,
) -> (p: int)
    requires
        queries_spelled(t, i, all, n),
    ensures
        reads(t, i, all[n], p),
        gathers(t, p, items.push(all[n]), items + all.skip(n)),
    decreases all.len() - n,
{
    let m = all[n];
    let q = lemma_comma(t, i, all, n);
    lemma_reads(t, i, m, q);
    if n + 1 == all.len() {
        lemma_gathered(t, items.push(m));
        assert(items.push(m) =~= items + all.skip(n));
    } else {
        let p = lemma_queries(t, q + 2, all, n + 1, items.push(m));
        lemma_step(t, q, all[n + 1], p, items.push(m), items.push(m) + all.skip(n + 1));
        assert(items.push(m) + all.skip(n + 1) =~= items + all.skip(n));
    }
    q
}

/// A media query is read as it is spelled: one query as itself, and several with commas between
/// as the choice of them.
pub proof fn queries_are_read_as_spelled(t: Seq<TokModel>, all: Seq<MediaModel>)
    requires
        t.len() > 2,
        t[0] == TokModel::AtKeyword("media"@),
        t[1] is Whitespace,
        queries_spelled(t, 2, all, 0),
    ensures
        all.len() == 1 ==> media_query_at(t, 0) == Some((all[0], t.len() as int)),
        all.len() > 1 ==> media_query_at(t, 0) == Some((MediaModel::Or(all), t.len() as int)),
{
    let p = lemma_queries(t, 2, all, 0, seq![]);
    reveal(reads);
    reveal(gathers);
    assert(seq![all[0]] =~= seq![].push(all[0]));
    assert(seq![] + all.skip(0) =~= all);
}

/// Whether a comparison says greater or less, or equal too.
pub open spec fn compares(greater: bool, or_equal: bool, x: int, y: int) -> bool {
    if greater {
        x > y || (or_equal && x == y)
    } else {
        x < y || (or_equal && x == y)
    }
}

/// The name of a dimension.
pub open spec fn dimension(width: bool) -> TokModel {
    TokModel::Ident(
        if width {
            "width"@
        } else {
            "height"@
        },
    )
}

/// Whether a sign of a comparison stands from `i` to `p`, between white space.
pub open spec fn sign_spelled(t: Seq<TokModel>, i: int, greater: bool, or_equal: bool, p: int) -> bool {
    &&& 0 <= i
    &&& p == (if or_equal {
        i + 4
    } else {
        i + 3
    }) < t.len()
    &&& t[i] is Whitespace
    &&& t[i + 1] == TokModel::Delim(
        if greater {
            '>'
        } else {
            '<'
        },
    )
    &&& or_equal ==> t[i + 2] == TokModel::Delim('=')
    &&& t[p - 1] is Whitespace
}

/// Whether a length is a usual one, and a size away from it where that would leave open what
/// a comparison says.
pub open spec fn clear_of(or_equal: bool, v: JsNumber, size: int) -> bool {
    !or_equal ==> apart_from(v, size, 1)
}

proof fn lemma_bound(
    width: bool,
    max: bool,
    v: JsNumber,
    unit: Seq<char>,
    eq: bool,
    size: Sizes,
    other: spec_fn(MediaModel) -> bool,
)
    requires
        clear_of(eq, v, size(width, unit)),
    ensures
        ({
            let name = if width {
                "width"@
            } else {
                "height"@
            };
            holds(bound_rule(name, max, v, unit, eq), on_screen(size, other)) == compares(
                !max,
                eq,
                size(width, unit),
                v.signed_steps(),
            )
        }),
{
    lemma_sizes();
    if !eq {
        lemma_shifted(v, size(width, unit), 0);
    }
}

proof fn lemma_sizes()
    ensures
        "max-"@ + "width"@ == "max-width"@,
        "min-"@ + "width"@ == "min-width"@,
        "max-"@ + "height"@ == "max-height"@,
        "min-"@ + "height"@ == "min-height"@,
        "max-width"@ != "min-width"@,
        "max-width"@ != "max-height"@,
        "max-width"@ != "min-height"@,
        "min-width"@ != "max-height"@,
        "min-width"@ != "min-height"@,
        "max-height"@ != "min-height"@,
{
    reveal_strlit("max-");
    reveal_strlit("min-");
    reveal_strlit("width");
    reveal_strlit("height");
    reveal_strlit("max-width");
    reveal_strlit("min-width");
    reveal_strlit("max-height");
    reveal_strlit("min-height");
    assert("max-"@ + "width"@ =~= "max-width"@);
    assert("min-"@ + "width"@ =~= "min-width"@);
    assert("max-"@ + "height"@ =~= "max-height"@);
    assert("min-"@ + "height"@ =~= "min-height"@);
    assert("max-width"@.len() == 9 && "min-width"@.len() == 9);
    assert("max-height"@.len() == 10 && "min-height"@.len() == 10);
    assert("max-width"@[1] == 'a' && "min-width"@[1] == 'i');
    assert("max-height"@[1] == 'a' && "min-height"@[1] == 'i');
}

/// Brackets with a length or a dimension and a sign behind it hold no chain and no denial.
proof fn lemma_comparison_only(t: Seq<TokModel>, i: int, p: int)
    requires
        0 <= i < i + 4 < t.len(),
        t[i] is OpenParen,
        t[i + 1] is Dimension || t[i + 1] == dimension(true) || t[i + 1] == dimension(false),
        t[i + 2] is Whitespace,
        t[i + 3] is Delim,
    ensures
        element_at(t, i) == (if between_at(t, i) is Some {
            between_at(t, i)
        } else if comparison_at(t, i) is Some {
            comparison_at(t, i)
        } else if pair_at(t, i) is Some {
            pair_at(t, i)
        } else {
            word_at(t, i)
        }),
{
    lemma_words();
    reveal_strlit("width");
    reveal_strlit("height");
    reveal_strlit("not");
    reveal_strlit("only");
    reveal_strlit("screen");
    reveal_strlit("print");
    reveal_strlit("all");
    assert("width"@.len() == 5 && "height"@.len() == 6);
    assert("width"@[0] == 'w' && "height"@[0] == 'h');
    assert("screen"@[0] == 's' && "print"@[0] == 'p');
    assert("not"@.len() == 3 && "only"@.len() == 4 && "all"@.len() == 3);
    lemma_no_bracket(t, i + 1);
    assert(keyword_at(t, i + 1) is None);
    assert(chain_at(t, i + 1, "or"@) is None);
    assert(chain_at(t, i + 1, "and"@) is None);
    assert(or_at(t, i + 1) is None);
    assert(and_at(t, i + 1) is None);
    assert(or_in_brackets_at(t, i) is None);
    assert(and_in_brackets_at(t, i) is None);
    assert(not_at(t, i) is None);
    assert(keyword_at(t, i) is None);
}

/// A comparison of a size and a length holds on the screens of which it says so, whichever of
/// the two it names first.
pub proof fn comparisons_mean_what_they_say(
    t: Seq<TokModel>,
    i: int,
    size_first: bool,
    width: bool,
    greater: bool,
    or_equal: bool,
    v: JsNumber,
    unit: Seq<char>,
    p: int,
    size: Sizes,
    other: spec_fn(MediaModel) -> bool,
)
    requires
        0 <= i < t.len(),
        t[i] is OpenParen,
        sign_spelled(t, i + 2, greater, or_equal, p),
        p + 1 < t.len(),
        if size_first {
            t[i + 1] == dimension(width) && t[p] == TokModel::Dimension(v, unit)
        } else {
            t[i + 1] == TokModel::Dimension(v, unit) && t[p] == dimension(width)
        },
        t[p + 1] is CloseParen,
        clear_of(or_equal, v, size(width, unit)),
    ensures
        element_at(t, i) matches Some((m, q)) && q == p + 2 && holds(m, on_screen(size, other)) == (
        if size_first {
            compares(greater, or_equal, size(width, unit), v.signed_steps())
        } else {
            compares(greater, or_equal, v.signed_steps(), size(width, unit))
        }),
{
    lemma_comparison_only(t, i, p);
    let max = if size_first {
        !greater
    } else {
        greater
    };
    lemma_bound(width, max, v, unit, or_equal, size, other);
    assert(between_at(t, i) is None);
    if size_first {
        assert(forward_at(t, i) is Some);
    } else {
        assert(forward_at(t, i) is None);
        assert(reversed_at(t, i) is Some);
    }
}

/// Two comparisons with a size between two lengths hold on the screens of which both say so.
pub proof fn ranges_mean_what_they_say(
    t: Seq<TokModel>,
    i: int,
    width: bool,
    greater: (bool, bool),
    or_equal: (bool, bool),
    v: (JsNumber, JsNumber),
    unit: (Seq<char>, Seq<char>),
    p: int,
    q: int,
    size: Sizes,
    other: spec_fn(MediaModel) -> bool,
)
    requires
        0 <= i < t.len(),
        t[i] is OpenParen,
        t[i + 1] == TokModel::Dimension(v.0, unit.0),
        sign_spelled(t, i + 2, greater.0, or_equal.0, p),
        t[p] == dimension(width),
        sign_spelled(t, p + 1, greater.1, or_equal.1, q),
        q + 1 < t.len(),
        t[q] == TokModel::Dimension(v.1, unit.1),
        t[q + 1] is CloseParen,
        clear_of(or_equal.0, v.0, size(width, unit.0)),
        clear_of(or_equal.1, v.1, size(width, unit.1)),
    ensures
        element_at(t, i) matches Some((m, end)) && end == q + 2 && holds(m, on_screen(size, other))
            == (compares(greater.0, or_equal.0, v.0.signed_steps(), size(width, unit.0))
            && compares(greater.1, or_equal.1, size(width, unit.1), v.1.signed_steps())),
{
    lemma_comparison_only(t, i, p);
    lemma_bound(width, greater.0, v.0, unit.0, or_equal.0, size, other);
    lemma_bound(width, !greater.1, v.1, unit.1, or_equal.1, size, other);
    assert(between_at(t, i) is Some);
    let m = (between_at(t, i)->0).0;
    assert(m->And_0.len() == 2);
    let truth = on_screen(size, other);
    if holds(m, truth) {
        assert(holds(m->And_0[0], truth));
        assert(holds(m->And_0[1], truth));
    } else {
        let k = choose|k: int| 0 <= k < m->And_0.len() && !holds(#[trigger] m->And_0[k], truth);
        assert(k == 0 || k == 1);
    }
}

} // verus!
