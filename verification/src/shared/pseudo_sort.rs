//! The order of pseudo selectors and at-rules before they are hashed.

use crate::errors::{said, ErrorCode, ErrorModel, StylexError};
use crate::jsrt::{
    foreign_from, sort_texts, sorted_texts, sorting_is_sorting, unverified_collation_char,
    Collation,
};
use crate::text::{
    concat4, debug_char, debug_char_text, debug_string, debug_text, has_prefix, starts_with,
    str_texts,
};
use vstd::prelude::*;

verus! {

/// The error for a pseudo selector that cannot be ordered.
pub open spec fn foreign_error(pseudo: Seq<char>, c: char) -> ErrorModel {
    said(
        ErrorCode::UnsupportedApi,
        "cannot sort pseudo selector "@ + debug_text(pseudo) + ": "@ + debug_char_text(c)
            + " is outside the pinned collation alphabet and the order feeds the class-name hash"@,
    )
}

/// The error for the first pseudo selector from `i` up to `end` that cannot be
/// ordered.
pub open spec fn run_error(v: Seq<Seq<char>>, i: int, end: int) -> Option<ErrorModel>
    decreases end - i,
{
    if i < 0 || i >= end {
        None
    } else {
        match foreign_from(v[i], 0) {
            Some(c) => Some(foreign_error(v[i], c)),
            None => run_error(v, i + 1, end),
        }
    }
}

/// The run from `start` up to `end` in order. A run of one is not ordered, so any
/// characters may stand in it.
pub open spec fn run_sorted(v: Seq<Seq<char>>, start: int, end: int) -> Result<
    Seq<Seq<char>>,
    ErrorModel,
> {
    if end - start >= 2 && run_error(v, start, end) is Some {
        Err(run_error(v, start, end)->0)
    } else {
        Ok(sorted_texts(v.subrange(start, end), Collation::Dictionary))
    }
}

/// The pseudo selectors from `i` on, where the run that is open began at `start`:
/// runs of pseudo-classes are ordered, pseudo-elements stay between them.
pub open spec fn runs_from(v: Seq<Seq<char>>, start: int, i: int) -> Result<
    Seq<Seq<char>>,
    ErrorModel,
>
    decreases v.len() - i,
{
    if i < 0 || i >= v.len() {
        run_sorted(v, start, v.len() as int)
    } else if has_prefix(v[i], "::"@) {
        match run_sorted(v, start, i) {
            Err(e) => Err(e),
            Ok(run) => match runs_from(v, i + 1, i + 1) {
                Err(e) => Err(e),
                Ok(rest) => Ok(run.push(v[i]) + rest),
            },
        }
    } else {
        runs_from(v, start, i + 1)
    }
}

/// The pseudo selectors in the order in which they are hashed.
pub open spec fn pseudos_sorted(v: Seq<Seq<char>>) -> Result<Seq<Seq<char>>, ErrorModel> {
    if v.len() < 2 {
        Ok(v)
    } else {
        runs_from(v, 0, 0)
    }
}

/// The view of a list of texts or an error.
pub open spec fn texts_result(r: Result<Vec<&str>, StylexError>) -> Result<
    Seq<Seq<char>>,
    ErrorModel,
> {
    match r {
        Ok(v) => Ok(str_texts(v@)),
        Err(e) => Err(e.model()),
    }
}

fn sort_run<'s>(v: &[&'s str], start: usize, end: usize) -> (r: Result<Vec<&'s str>, StylexError>)
    requires
        start <= end <= v@.len(),
    ensures
        texts_result(r) == run_sorted(str_texts(v@), start as int, end as int),
{
    let ghost all = str_texts(v@);
    if end - start >= 2 {
        let mut i: usize = start;
        while i < end
            invariant
                all == str_texts(v@),
                start <= i <= end <= v@.len(),
                end - start >= 2,
                run_error(all, start as int, end as int) == run_error(all, i as int, end as int),
            decreases end - i,
        {
            assert(all[i as int] == v@[i as int]@);
            if let Some(c) = unverified_collation_char(v[i]) {
                let mut m = concat4(
                    "cannot sort pseudo selector ",
                    debug_string(v[i]).as_str(),
                    ": ",
                    debug_char(c).as_str(),
                );
                m.append(
                    " is outside the pinned collation alphabet and the order feeds the class-name hash",
                );
                return Err(StylexError { code: ErrorCode::UnsupportedApi, message: m });
            }
            i += 1;
        }
    }
    let run = &v[start..end];
    proof {
        assert(str_texts(run@) =~= all.subrange(start as int, end as int));
    }
    Ok(sort_texts(run, Collation::Dictionary))
}

/// Puts pseudo selectors in the order in which they are hashed.
pub fn sort_pseudos<'s>(pseudos: &[&'s str]) -> (r: Result<Vec<&'s str>, StylexError>)
    ensures
        texts_result(r) == pseudos_sorted(str_texts(pseudos@)),
{
    let ghost all = str_texts(pseudos@);
    let mut out: Vec<&'s str> = Vec::new();
    if pseudos.len() < 2 {
        if pseudos.len() == 1 {
            out.push(pseudos[0]);
        }
        proof {
            assert(str_texts(out@) =~= all);
        }
        return Ok(out);
    }
    let ghost want = runs_from(all, 0, 0);
    let mut start: usize = 0;
    let mut i: usize = 0;
    proof {
        assert(str_texts(out@) =~= Seq::<Seq<char>>::empty());
        if want is Ok {
            assert(str_texts(out@) + want->Ok_0 =~= want->Ok_0);
        }
    }
    while i < pseudos.len()
        invariant
            all == str_texts(pseudos@),
            want == runs_from(all, 0, 0),
            start <= i <= pseudos@.len(),
            match runs_from(all, start as int, i as int) {
                Ok(rest) => want == Ok::<Seq<Seq<char>>, ErrorModel>(str_texts(out@) + rest),
                Err(e) => want == Err::<Seq<Seq<char>>, ErrorModel>(e),
            },
        decreases pseudos@.len() - i,
    {
        assert(all[i as int] == pseudos@[i as int]@);
        if starts_with(pseudos[i], "::") {
            let ghost before = str_texts(out@);
            match sort_run(pseudos, start, i) {
                Ok(run) => {
                    let ghost sorted = str_texts(run@);
                    let mut run = run;
                    out.append(&mut run);
                    out.push(pseudos[i]);
                    proof {
                        assert(str_texts(out@) =~= before + sorted.push(all[i as int]));
                        if let Ok(rest) = runs_from(all, i + 1, i + 1) {
                            assert(before + (sorted.push(all[i as int]) + rest) =~= str_texts(out@)
                                + rest);
                        }
                    }
                },
                Err(e) => {
                    return Err(e);
                },
            }
            start = i + 1;
        }
        i += 1;
    }
    match sort_run(pseudos, start, pseudos.len()) {
        Ok(run) => {
            let ghost before = str_texts(out@);
            let ghost sorted = str_texts(run@);
            let mut run = run;
            out.append(&mut run);
            proof {
                assert(str_texts(out@) =~= before + sorted);
            }
            Ok(out)
        },
        Err(e) => Err(e),
    }
}

/// The at-rules in the order in which they are hashed: by UTF-16 code units.
pub open spec fn at_rules_sorted(v: Seq<Seq<char>>) -> Seq<Seq<char>> {
    sorted_texts(v, Collation::Units)
}

/// Puts at-rules in the order in which they are hashed.
pub fn sort_at_rules<'s>(at_rules: &[&'s str]) -> (r: Vec<&'s str>)
    ensures
        str_texts(r@) == at_rules_sorted(str_texts(at_rules@)),
        r@.len() == at_rules@.len(),
{
    sort_texts(at_rules, Collation::Units)
}

proof fn lemma_runs(v: Seq<Seq<char>>, start: int, i: int)
    requires
        0 <= start <= i <= v.len(),
        runs_from(v, start, i) is Ok,
        forall|j: int| start <= j < i ==> !has_prefix(#[trigger] v[j], "::"@),
    ensures
        runs_from(v, start, i)->Ok_0.len() == v.len() - start,
        runs_from(v, start, i)->Ok_0.to_multiset() == v.skip(start).to_multiset(),
        forall|j: int|
            start <= j < v.len() && has_prefix(#[trigger] v[j], "::"@) ==> runs_from(
                v,
                start,
                i,
            )->Ok_0[j - start] == v[j],
    decreases v.len() - i,
{
    let out = runs_from(v, start, i)->Ok_0;
    if i >= v.len() {
        let run = v.subrange(start, v.len() as int);
        sorting_is_sorting(run, Collation::Dictionary);
        assert(run =~= v.skip(start));
    } else if has_prefix(v[i], "::"@) {
        let run = v.subrange(start, i);
        let sorted = sorted_texts(run, Collation::Dictionary);
        sorting_is_sorting(run, Collation::Dictionary);
        lemma_runs(v, i + 1, i + 1);
        let rest = runs_from(v, i + 1, i + 1)->Ok_0;
        assert(out == sorted.push(v[i]) + rest);
        assert(v.skip(start) =~= run.push(v[i]) + v.skip(i + 1));
        vstd::seq_lib::lemma_multiset_commutative(sorted.push(v[i]), rest);
        vstd::seq_lib::lemma_multiset_commutative(run.push(v[i]), v.skip(i + 1));
        broadcast use vstd::seq_lib::group_to_multiset_ensures;

        assert(sorted.push(v[i]).to_multiset() =~= run.push(v[i]).to_multiset());
        assert forall|j: int|
            start <= j < v.len() && has_prefix(#[trigger] v[j], "::"@) implies out[j - start]
            == v[j] by {
            if j > i {
                assert(rest[j - i - 1] == v[j]);
                assert(out[j - start] == rest[j - i - 1]);
            }
        }
    } else {
        lemma_runs(v, start, i + 1);
    }
}

/// The order of pseudo selectors keeps each of them as often as it was there, and
/// every pseudo-element in its place.
pub proof fn pseudo_elements_stay_in_place(v: Seq<Seq<char>>)
    requires
        pseudos_sorted(v) is Ok,
    ensures
        pseudos_sorted(v)->Ok_0.len() == v.len(),
        pseudos_sorted(v)->Ok_0.to_multiset() == v.to_multiset(),
        forall|j: int|
            0 <= j < v.len() && has_prefix(#[trigger] v[j], "::"@) ==> pseudos_sorted(v)->Ok_0[j]
                == v[j],
{
    if v.len() >= 2 {
        lemma_runs(v, 0, 0);
        assert(v.skip(0) =~= v);
        assert forall|j: int| 0 <= j < v.len() && has_prefix(#[trigger] v[j], "::"@) implies
            pseudos_sorted(v)->Ok_0[j] == v[j] by {
            assert(runs_from(v, 0, 0)->Ok_0[j - 0] == v[j]);
        }
    }
}

} // verus!
