//! Lists of fallback values: variables next to each other become nested `var()`s.

use crate::errors::{said, ErrorCode, ErrorModel, StylexError};
use crate::text::{
    chars_of, concat3, concat5, ends_with, has_prefix, has_suffix, piece, starts_with, texts,
};
use vstd::prelude::*;

verus! {

/// Whether a value is a variable.
pub open spec fn var_value(v: Seq<char>) -> bool {
    has_prefix(v, "var("@) && has_suffix(v, ")"@)
}

/// What stands between the brackets of a variable.
pub open spec fn var_inside(v: Seq<char>) -> Seq<char> {
    v.subrange(4, v.len() - 1)
}

proof fn lemma_var_len(v: Seq<char>)
    requires
        var_value(v),
    ensures
        v.len() >= 5,
{
    reveal_strlit("var(");
    reveal_strlit(")");
    if v.len() == 4 {
        assert(v.subrange(0, 4)[3] == '(');
        assert(v.subrange(3, 4)[0] == ')');
    }
}

fn is_var(v: &str) -> (r: bool)
    ensures
        r == var_value(v@),
{
    starts_with(v, "var(") && ends_with(v, ")")
}

fn inside_of(v: &str) -> (r: String)
    requires
        var_value(v@),
    ensures
        r@ == var_inside(v@),
{
    let s = chars_of(v);
    proof {
        lemma_var_len(v@);
    }
    piece(&s, 4, s.len() - 1)
}

/// Whether one of the values is a variable.
pub fn has_var_fallback(values: &[String]) -> (r: bool)
    ensures
        r == exists|i: int| 0 <= i < values@.len() && var_value(#[trigger] values@[i]@),
{
    let mut i: usize = 0;
    while i < values.len()
        invariant
            i <= values@.len(),
            forall|j: int| 0 <= j < i ==> !var_value(#[trigger] values@[j]@),
        decreases values@.len() - i,
    {
        if is_var(values[i].as_str()) {
            return true;
        }
        i += 1;
    }
    false
}

/// Names nested from `i` on: each but the last wraps what follows it, and the last
/// is a variable only if it is the name of one.
pub open spec fn composed(args: Seq<Seq<char>>, i: int) -> Seq<char>
    decreases args.len() - i,
{
    if i < 0 || i >= args.len() {
        Seq::empty()
    } else if i == args.len() - 1 {
        if has_prefix(args[i], "--"@) {
            "var("@ + args[i] + ")"@
        } else {
            args[i]
        }
    } else {
        "var("@ + args[i] + ","@ + composed(args, i + 1) + ")"@
    }
}

fn compose_vars(args: &Vec<String>, i: usize) -> (r: String)
    requires
        i < args@.len(),
    ensures
        r@ == composed(texts(args@), i as int),
    decreases args@.len() - i,
{
    assert(texts(args@)[i as int] == args@[i as int]@);
    if i == args.len() - 1 {
        if starts_with(args[i].as_str(), "--") {
            concat3("var(", args[i].as_str(), ")")
        } else {
            args[i].clone()
        }
    } else {
        let rest = compose_vars(args, i + 1);
        concat5("var(", args[i].as_str(), ",", rest.as_str(), ")")
    }
}

/// The first position at or after `i` that holds a variable, or the length.
pub open spec fn first_var(values: Seq<Seq<char>>, i: int) -> int
    decreases values.len() - i,
{
    if i < 0 || i >= values.len() {
        values.len() as int
    } else if var_value(values[i]) {
        i
    } else {
        first_var(values, i + 1)
    }
}

/// The last position before `i` that holds a variable, or -1.
pub open spec fn last_var(values: Seq<Seq<char>>, i: int) -> int
    decreases i,
{
    if i <= 0 {
        -1
    } else if var_value(values[i - 1]) {
        i - 1
    } else {
        last_var(values, i - 1)
    }
}

/// The names of the variables from `first` to `last`, the last one first.
pub open spec fn names_reversed(values: Seq<Seq<char>>, first: int, last: int) -> Seq<Seq<char>> {
    Seq::new((last - first + 1) as nat, |i: int| var_inside(values[last - i]))
}

/// The fallback values in the order in which they are tried: the variables, which
/// must stand together, are nested round each value before them.
pub open spec fn fallbacks(values: Seq<Seq<char>>) -> Result<Seq<Seq<char>>, ErrorModel> {
    let first = first_var(values, 0);
    let last = last_var(values, values.len() as int);
    if first >= values.len() {
        Ok(values)
    } else if exists|i: int| first <= i <= last && !var_value(#[trigger] values[i]) {
        Err(
            said(
                ErrorCode::NonContiguousVars,
                "All variables passed to firstThatWorks() must be contiguous."@,
            ),
        )
    } else {
        let names = names_reversed(values, first, last);
        let composed_values = if first == 0 {
            seq![composed(names, 0)]
        } else {
            Seq::new(first as nat, |i: int| composed(names.push(values[i]), 0))
        };
        Ok(composed_values + values.skip(last + 1))
    }
}

/// The view of a list or an error.
pub open spec fn list_result(r: Result<Vec<String>, StylexError>) -> Result<
    Seq<Seq<char>>,
    ErrorModel,
> {
    match r {
        Ok(v) => Ok(texts(v@)),
        Err(e) => Err(e.model()),
    }
}

fn copy_strings(v: &Vec<String>) -> (r: Vec<String>)
    ensures
        texts(r@) == texts(v@),
        r@.len() == v@.len(),
{
    let mut out: Vec<String> = Vec::new();
    let mut i: usize = 0;
    while i < v.len()
        invariant
            i <= v@.len(),
            out@.len() == i,
            forall|j: int| 0 <= j < i ==> (#[trigger] out@[j])@ == v@[j]@,
        decreases v@.len() - i,
    {
        out.push(v[i].clone());
        i += 1;
    }
    proof {
        assert(texts(out@) =~= texts(v@));
    }
    out
}

/// Puts fallback values in the order in which they are tried.
pub fn variable_fallbacks(values: &Vec<String>) -> (r: Result<Vec<String>, StylexError>)
    ensures
        list_result(r) == fallbacks(texts(values@)),
{
    let ghost all = texts(values@);
    let n: usize = values.len();
    let mut first: usize = 0;
    while first < n && !is_var(values[first].as_str())
        invariant
            n == values@.len(),
            all == texts(values@),
            first <= n,
            first_var(all, 0) == first_var(all, first as int),
        decreases n - first,
    {
        assert(all[first as int] == values@[first as int]@);
        first += 1;
    }
    if first >= n {
        return Ok(copy_strings(values));
    }
    assert(all[first as int] == values@[first as int]@);
    assert(first_var(all, 0) == first);
    let mut end: usize = n;
    while !is_var(values[end - 1].as_str())
        invariant
            n == values@.len(),
            all == texts(values@),
            first < end <= n,
            var_value(all[first as int]),
            last_var(all, n as int) == last_var(all, end as int),
        decreases end,
    {
        assert(all[end as int - 1] == values@[end as int - 1]@);
        end -= 1;
    }
    assert(all[end as int - 1] == values@[end as int - 1]@);
    assert(last_var(all, n as int) == end - 1);
    let ghost names = names_reversed(all, first as int, end as int - 1);
    let mut var_names: Vec<String> = Vec::new();
    let mut i: usize = end;
    while i > first
        invariant
            n == values@.len(),
            all == texts(values@),
            first <= i <= end <= n,
            first < end,
            first_var(all, 0) == first,
            last_var(all, n as int) == end - 1,
            var_names@.len() == end - i,
            names == names_reversed(all, first as int, end as int - 1),
            forall|j: int| 0 <= j < end - i ==> (#[trigger] var_names@[j])@ == names[j],
            forall|j: int| i <= j < end ==> var_value(#[trigger] all[j]),
        decreases i,
    {
        assert(all[i as int - 1] == values@[i as int - 1]@);
        if !is_var(values[i - 1].as_str()) {
            assert(!var_value(all[i as int - 1]));
            return Err(StylexError::non_contiguous_vars());
        }
        var_names.push(inside_of(values[i - 1].as_str()));
        i -= 1;
    }
    proof {
        assert(texts(var_names@) =~= names);
    }
    let mut out: Vec<String> = Vec::new();
    let ghost composed_values = if first == 0 {
        seq![composed(names, 0)]
    } else {
        Seq::new(first as nat, |i: int| composed(names.push(all[i]), 0))
    };
    if first == 0 {
        out.push(compose_vars(&var_names, 0));
        proof {
            assert(texts(out@) =~= composed_values);
        }
    } else {
        let mut k: usize = 0;
        while k < first
            invariant
                n == values@.len(),
                all == texts(values@),
                k <= first <= n,
                texts(var_names@) == names,
                out@.len() == k,
                forall|j: int|
                    0 <= j < k ==> (#[trigger] out@[j])@ == composed(names.push(all[j]), 0),
            decreases first - k,
        {
            assert(all[k as int] == values@[k as int]@);
            let mut args = copy_strings(&var_names);
            let ghost before = texts(args@);
            args.push(values[k].clone());
            proof {
                assert(texts(args@) =~= before.push(all[k as int]));
            }
            out.push(compose_vars(&args, 0));
            k += 1;
        }
        proof {
            assert(texts(out@) =~= composed_values);
        }
    }
    let mut k: usize = end;
    proof {
        assert(texts(out@) =~= composed_values + all.subrange(end as int, end as int));
    }
    while k < n
        invariant
            n == values@.len(),
            all == texts(values@),
            end <= k <= n,
            texts(out@) == composed_values + all.subrange(end as int, k as int),
        decreases n - k,
    {
        let ghost before = texts(out@);
        out.push(values[k].clone());
        proof {
            assert(texts(out@) =~= before.push(all[k as int]));
            assert(texts(out@) =~= composed_values + all.subrange(end as int, k as int + 1));
        }
        k += 1;
    }
    proof {
        assert(all.subrange(end as int, n as int) =~= all.skip(end as int));
    }
    Ok(out)
}

} // verus!
