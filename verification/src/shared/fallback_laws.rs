//! What fallback values show, and which variable of them decides.

use crate::errors::{ErrorCode, ErrorModel};
use crate::shared::fallbacks::{
    composed, fallbacks, first_var, last_var, names_reversed, var_inside, var_value,
};
use crate::text::has_prefix;
use vstd::prelude::*;

verus! {

/// The values of custom properties, of those that have one.
pub type Custom = spec_fn(Seq<char>) -> Option<Seq<char>>;

/// Whether a declared value shows as `out`, where `n` bounds how deep fallbacks stand: a
/// variable that has a value shows as it, another as its fallback, and what is no variable as
/// itself.
pub open spec fn shows(text: Seq<char>, custom: Custom, out: Seq<char>, n: nat) -> bool
    decreases n,
{
    n > 0 && {
        ||| !has_prefix(text, "var("@) && out == text
        ||| exists|name: Seq<char>|
            text == #[trigger] alone(name) && has_prefix(name, "--"@) && custom(name) == Some(out)
        ||| exists|name: Seq<char>, rest: Seq<char>|
            text == #[trigger] before(name, rest) && match custom(name) {
                Some(v) => out == v,
                None => shows(rest, custom, out, (n - 1) as nat),
            }
    }
}

/// A variable.
pub open spec fn alone(name: Seq<char>) -> Seq<char> {
    "var("@ + name + ")"@
}

/// A variable with a fallback.
pub open spec fn before(name: Seq<char>, rest: Seq<char>) -> Seq<char> {
    "var("@ + name + ","@ + rest + ")"@
}

/// What the first of the names shows that has a value; `last` where none has.
pub open spec fn first_set(names: Seq<Seq<char>>, custom: Custom, last: Seq<char>) -> Seq<char>
    decreases names.len(),
{
    if names.len() == 0 {
        last
    } else {
        match custom(names[0]) {
            Some(v) => v,
            None => first_set(names.skip(1), custom, last),
        }
    }
}

proof fn lemma_nested(args: Seq<Seq<char>>, i: int, custom: Custom)
    requires
        0 <= i < args.len(),
        !has_prefix(args.last(), "--"@),
        !has_prefix(args.last(), "var("@),
    ensures
        shows(
            composed(args, i),
            custom,
            first_set(args.drop_last().skip(i), custom, args.last()),
            (args.len() - i) as nat,
        ),
    decreases args.len() - i,
{
    let names = args.drop_last().skip(i);
    if i < args.len() - 1 {
        lemma_nested(args, i + 1, custom);
        assert(names.skip(1) =~= args.drop_last().skip(i + 1));
        assert(names[0] == args[i]);
        assert(composed(args, i) =~= before(args[i], composed(args, i + 1)));
    }
}

proof fn lemma_nested_names(names: Seq<Seq<char>>, i: int, custom: Custom)
    requires
        0 <= i < names.len(),
        has_prefix(names.last(), "--"@),
        exists|j: int| i <= j < names.len() && custom(#[trigger] names[j]) is Some,
    ensures
        shows(
            composed(names, i),
            custom,
            first_set(names.skip(i), custom, Seq::empty()),
            (names.len() - i) as nat,
        ),
    decreases names.len() - i,
{
    let left = names.skip(i);
    assert(left[0] == names[i]);
    if i < names.len() - 1 {
        assert(left.skip(1) =~= names.skip(i + 1));
        assert(composed(names, i) =~= before(names[i], composed(names, i + 1)));
        if custom(names[i]) is None {
            lemma_nested_names(names, i + 1, custom);
        }
    } else {
        assert(composed(names, i) =~= alone(names[i]));
    }
}

/// Whether the values before `a` and those from `b` on are none but plain ones, and those
/// between are variables of custom properties.
pub open spec fn variables_stand_together(values: Seq<Seq<char>>, a: int, b: int) -> bool {
    &&& 0 <= a < b <= values.len()
    &&& forall|i: int|
        0 <= i < values.len() ==> {
            let v = #[trigger] values[i];
            if a <= i < b {
                exists|name: Seq<char>| v == #[trigger] alone(name) && has_prefix(name, "--"@)
            } else {
                !has_prefix(v, "var("@) && !has_prefix(v, "--"@)
            }
        }
}

/// The names of the variables from `a` to `b`, the last one first.
pub open spec fn named_from_the_last(values: Seq<Seq<char>>, a: int, b: int, names: Seq<Seq<char>>) -> bool {
    &&& names.len() == b - a
    &&& forall|j: int| a <= j < b ==> values[j] == alone(#[trigger] names[b - 1 - j])
}

proof fn lemma_alone(name: Seq<char>)
    ensures
        var_value(alone(name)),
        var_inside(alone(name)) == name,
{
    reveal_strlit("var(");
    reveal_strlit(")");
    let v = alone(name);
    assert("var("@.len() == 4 && ")"@.len() == 1);
    assert(v.subrange(0, 4) =~= "var("@);
    assert(v.subrange(v.len() - 1, v.len() as int) =~= ")"@);
    assert(v.subrange(4, v.len() - 1) =~= name);
}

proof fn lemma_first(values: Seq<Seq<char>>, a: int, i: int)
    requires
        0 <= i <= a < values.len(),
        var_value(values[a]),
        forall|j: int| i <= j < a ==> !var_value(#[trigger] values[j]),
    ensures
        first_var(values, i) == a,
    decreases a - i,
{
    if i < a {
        lemma_first(values, a, i + 1);
    }
}

proof fn lemma_last(values: Seq<Seq<char>>, b: int, i: int)
    requires
        0 < b <= i <= values.len(),
        var_value(values[b - 1]),
        forall|j: int| b <= j < i ==> !var_value(#[trigger] values[j]),
    ensures
        last_var(values, i) == b - 1,
    decreases i,
{
    if b < i {
        lemma_last(values, b, i - 1);
    }
}

/// Of fallback values with variables among them, each value before the variables shows as the
/// last variable that has a value, and as itself where none has. The variables alone show the
/// last of them that has a value. What stands behind them stays.
pub proof fn the_last_set_variable_shows(
    values: Seq<Seq<char>>,
    a: int,
    b: int,
    names: Seq<Seq<char>>,
    custom: Custom,
)
    requires
        variables_stand_together(values, a, b),
        named_from_the_last(values, a, b, names),
        forall|j: int| 0 <= j < names.len() ==> has_prefix(#[trigger] names[j], "--"@),
    ensures
        fallbacks(values) matches Ok(out) && {
            let n = if a == 0 {
                1
            } else {
                a
            };
            &&& out.len() == n + (values.len() - b)
            &&& out.skip(n) == values.skip(b)
            &&& forall|i: int|
                0 <= i < a ==> shows(
                    #[trigger] out[i],
                    custom,
                    first_set(names, custom, values[i]),
                    (b - a + 1) as nat,
                )
            &&& a == 0 && (exists|j: int| 0 <= j < names.len() && custom(#[trigger] names[j]) is Some)
                ==> shows(out[0], custom, first_set(names, custom, Seq::empty()), b as nat)
        },
{
    assert forall|j: int| a <= j < b implies var_value(#[trigger] values[j]) && var_inside(values[j])
        == names[b - 1 - j] by {
        lemma_alone(names[b - 1 - j]);
    }
    assert forall|j: int| 0 <= j < values.len() && !(a <= j < b) implies !var_value(
        #[trigger] values[j],
    ) by {}
    lemma_first(values, a, 0);
    lemma_last(values, b, values.len() as int);
    assert(names_reversed(values, a, b - 1) =~= names);
    let out = fallbacks(values)->Ok_0;
    let n = if a == 0 {
        1
    } else {
        a
    };
    assert(out.skip(n) =~= values.skip(b));
    assert forall|i: int| 0 <= i < a implies shows(
        #[trigger] out[i],
        custom,
        first_set(names, custom, values[i]),
        (b - a + 1) as nat,
    ) by {
        let args = names.push(values[i]);
        assert(args.drop_last().skip(0) =~= names);
        assert(args.last() == values[i]);
        lemma_nested(args, 0, custom);
    }
    if a == 0 && (exists|j: int| 0 <= j < names.len() && custom(#[trigger] names[j]) is Some) {
        assert(names.skip(0) =~= names);
        lemma_nested_names(names, 0, custom);
    }
}

proof fn lemma_first_before(values: Seq<Seq<char>>, from: int, i: int)
    requires
        0 <= from <= i < values.len(),
        var_value(values[i]),
    ensures
        first_var(values, from) <= i,
    decreases i - from,
{
    if from < i {
        lemma_first_before(values, from + 1, i);
    }
}

proof fn lemma_last_behind(values: Seq<Seq<char>>, to: int, i: int)
    requires
        0 <= i < to <= values.len(),
        var_value(values[i]),
    ensures
        last_var(values, to) >= i,
    decreases to,
{
    if i < to - 1 {
        lemma_last_behind(values, to - 1, i);
    }
}

/// Variables with something else between them are refused.
pub proof fn separated_variables_are_refused(values: Seq<Seq<char>>, i: int, j: int, k: int)
    requires
        0 <= i < j < k < values.len(),
        var_value(values[i]),
        !var_value(values[j]),
        var_value(values[k]),
    ensures
        fallbacks(values) matches Err(e) && e.code == ErrorCode::NonContiguousVars,
{
    lemma_first_before(values, 0, i);
    lemma_last_behind(values, values.len() as int, k);
}

/// Values without a variable among them stay as they are.
pub proof fn plain_fallbacks_stay(values: Seq<Seq<char>>)
    requires
        forall|i: int| 0 <= i < values.len() ==> !has_prefix(#[trigger] values[i], "var("@),
    ensures
        fallbacks(values) == Ok::<Seq<Seq<char>>, ErrorModel>(values),
{
    lemma_none(values, 0);
}

proof fn lemma_none(values: Seq<Seq<char>>, from: int)
    requires
        0 <= from <= values.len(),
        forall|i: int| 0 <= i < values.len() ==> !has_prefix(#[trigger] values[i], "var("@),
    ensures
        first_var(values, from) == values.len(),
    decreases values.len() - from,
{
    if from < values.len() {
        assert(!var_value(values[from]));
        lemma_none(values, from + 1);
    }
}

} // verus!
