//! How the weights of what stands in a rule add up to its own.

use crate::number::{steps, JsNumber};
use crate::shared::generate_rule::{priorities_upto, rule_priority};
use crate::shared::priorities::priority;
use crate::sum_laws::{lemma_close_ratio, sums_are_close};
use vstd::arithmetic::power2::{
    lemma2_to64, lemma_pow2_adds, lemma_pow2_pos, lemma_pow2_strictly_increases, pow2,
};
use vstd::prelude::*;

verus! {

/// The weights of keys together, in steps.
pub open spec fn weights(v: Seq<Seq<char>>) -> int
    decreases v.len(),
{
    if v.len() == 0 {
        0
    } else {
        weights(v.drop_last()) + priority(v.last()).signed_steps()
    }
}

/// Whether a weight is a number from nothing to two to the 16th.
pub open spec fn usual_weight(key: Seq<char>) -> bool {
    priority(key).finite() && 0 <= priority(key).signed_steps() <= pow2(1090)
}

/// Whether all weights are usual ones.
pub open spec fn usual_weights(v: Seq<Seq<char>>) -> bool {
    v.len() <= 1000 && forall|i: int| 0 <= i < v.len() ==> usual_weight(#[trigger] v[i])
}

/// Whether a number is a sum, but for what `n` sums of doubles are off.
pub open spec fn adds_up(x: JsNumber, total: int, n: nat) -> bool {
    &&& x.finite()
    &&& x.signed_steps() <= total + n * pow2(1054)
    &&& total <= x.signed_steps() + n * pow2(1054)
}

proof fn lemma_nothing()
    ensures
        adds_up(JsNumber::natural(0), 0, 1),
{
    lemma_pow2_pos(1105);
    lemma_pow2_pos(1054);
    assert(0 * pow2(1074) < 1 * pow2(1105)) by (nonlinear_arith)
        requires
            pow2(1105) > 0,
    ;
    lemma_close_ratio(0, 1);
}

/// One more weight.
proof fn lemma_sum(x: JsNumber, a: int, n: nat, y: JsNumber, b: int, m: nat)
    requires
        adds_up(x, a, n),
        adds_up(y, b, m),
        0 <= a <= pow2(1102),
        0 <= b <= pow2(1102),
        n + m <= 5000,
    ensures
        adds_up(x.plus_spec(y), a + b, n + m + 1),
{
    let g = pow2(1054) as int;
    lemma_pow2_pos(1054);
    lemma2_to64();
    lemma_pow2_adds(13, 1054);
    lemma_pow2_strictly_increases(1067, 1102);
    lemma_pow2_adds(1, 1102);
    lemma_pow2_adds(1, 1103);
    lemma_pow2_adds(1, 1104);
    assert(pow2(13) == 8192);
    assert(n * g + m * g == (n + m) * g && (n + m) * g <= 5000 * g && (n + m) * g + g == (n + m + 1)
        * g && n * g >= 0 && m * g >= 0) by (nonlinear_arith)
        requires
            n + m <= 5000,
            g > 0,
            n >= 0,
            m >= 0,
    ;
    sums_are_close(x, y);
}

proof fn lemma_weights(v: Seq<Seq<char>>, k: int)
    requires
        usual_weights(v),
        0 <= k <= v.len(),
    ensures
        adds_up(priorities_upto(v, k), weights(v.take(k)), (k + 1) as nat),
        0 <= weights(v.take(k)) <= k * pow2(1090),
    decreases k,
{
    let top = pow2(1090) as int;
    lemma_pow2_pos(1090);
    if k > 0 {
        lemma_weights(v, k - 1);
        assert(v.take(k).drop_last() =~= v.take(k - 1));
        assert(usual_weight(v[k - 1]));
        assert((k - 1) * top + top == k * top) by (nonlinear_arith);
        let before = weights(v.take(k - 1));
        lemma2_to64();
        lemma_pow2_adds(10, 1090);
        lemma_pow2_strictly_increases(1100, 1102);
        lemma_pow2_strictly_increases(1090, 1102);
        assert(k * top <= 1000 * top) by (nonlinear_arith)
            requires
                k <= 1000,
                top > 0,
        ;
        assert(pow2(10) == 1024);
        let y = priority(v[k - 1]);
        assert(adds_up(y, y.signed_steps(), 0)) by {
            assert(0 * pow2(1054) == 0) by (nonlinear_arith);
        }
        lemma_sum(priorities_upto(v, k - 1), before, k as nat, y, y.signed_steps(), 0);
    } else {
        lemma_nothing();
        assert(v.take(0) =~= Seq::empty());
        assert(0 * top == 0) by (nonlinear_arith);
    }
}

/// A rule weighs what its property, its pseudo selectors, its at-rules and its conditions by
/// constants weigh together, but for what sums of doubles are off.
pub proof fn weights_add_up(
    key: Seq<char>,
    pseudos: Seq<Seq<char>>,
    at_rules: Seq<Seq<char>>,
    consts: Seq<Seq<char>>,
)
    requires
        usual_weight(key),
        usual_weights(pseudos),
        usual_weights(at_rules),
        usual_weights(consts),
    ensures
        adds_up(
            rule_priority(key, pseudos, at_rules, consts),
            priority(key).signed_steps() + weights(pseudos) + weights(at_rules) + weights(consts),
            pseudos.len() + at_rules.len() + consts.len() + 6,
        ),
{
    let top = pow2(1090) as int;
    lemma_pow2_pos(1090);
    lemma2_to64();
    lemma_pow2_adds(10, 1090);
    lemma_pow2_strictly_increases(1090, 1100);
    lemma_pow2_adds(2, 1100);
    assert(pow2(10) == 1024 && pow2(2) == 4);
    lemma_weights(pseudos, pseudos.len() as int);
    lemma_weights(at_rules, at_rules.len() as int);
    lemma_weights(consts, consts.len() as int);
    assert(pseudos.take(pseudos.len() as int) =~= pseudos);
    assert(at_rules.take(at_rules.len() as int) =~= at_rules);
    assert(consts.take(consts.len() as int) =~= consts);
    let (p, a, c) = (pseudos.len() as int, at_rules.len() as int, consts.len() as int);
    assert(p * top <= 1000 * top && a * top <= 1000 * top && c * top <= 1000 * top) by (nonlinear_arith)
        requires
            p <= 1000,
            a <= 1000,
            c <= 1000,
            top > 0,
    ;
    let x = priority(key);
    assert(adds_up(x, x.signed_steps(), 0)) by {
        assert(0 * pow2(1054) == 0) by (nonlinear_arith);
    }
    let one = x.plus_spec(priorities_upto(pseudos, p));
    lemma_sum(x, x.signed_steps(), 0, priorities_upto(pseudos, p), weights(pseudos), (p + 1) as nat);
    let sum = x.signed_steps() + weights(pseudos);
    let two = one.plus_spec(priorities_upto(at_rules, a));
    lemma_sum(one, sum, (p + 2) as nat, priorities_upto(at_rules, a), weights(at_rules), (a + 1) as nat);
    lemma_sum(
        two,
        sum + weights(at_rules),
        (p + a + 4) as nat,
        priorities_upto(consts, c),
        weights(consts),
        (c + 1) as nat,
    );
}

} // verus!
