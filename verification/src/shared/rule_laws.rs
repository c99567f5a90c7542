//! What the class and the rule of a declaration say of it.

use crate::hash::hash_text;
use crate::jsrt::{sorted_texts, sorting_forgets_the_order, sorting_is_sorting, Collation};
use crate::options::ResolvedOptions;
use crate::shared::dashify::dashed_key_text;
use crate::shared::flatten::{PreRuleValueModel, ScalarModel};
use crate::shared::generate_rule::{
    compiled_rule, declaration, declared, hash_input, hashed_values, ltr_declarations,
    pseudo_suffix, pseudos_upto, rtl_declarations, selector_of, wrapped,
};
use crate::shared::pseudo_sort::{
    at_rules_sorted, pseudo_elements_stay_in_place, pseudos_sorted,
};
use crate::shared::rtl::{ltr_pair, rtl_pair, RtlContext};
use crate::text::{concat_texts, concat_upto, has_part, has_prefix, join_texts, repeated};
use vstd::prelude::*;

verus! {

/// The text of the values of a declaration, as it goes into the class name.
pub open spec fn values_text(v: PreRuleValueModel, values: Seq<Seq<char>>) -> Seq<char> {
    if v == PreRuleValueModel::Single(ScalarModel::Undefined) {
        "undefined"@
    } else {
        join_texts(values, ", "@)
    }
}

/// The name of a class whose declaration is told by a text.
pub open spec fn named_after(
    property: Seq<char>,
    text: Seq<char>,
    options: ResolvedOptions,
) -> Seq<char> {
    if options.debug && options.enable_debug_class_names {
        property + "-"@ + options.class_name_prefix@ + hash_text(text)
    } else {
        options.class_name_prefix@ + hash_text(text)
    }
}

proof fn lemma_conditions_sorted(at_rules: Seq<Seq<char>>, const_rules: Seq<Seq<char>>)
    ensures
        at_rules_sorted(at_rules_sorted(at_rules) + const_rules) == sorted_texts(
            at_rules + const_rules,
            Collation::Units,
        ),
        at_rules_sorted(at_rules).to_multiset() == at_rules.to_multiset(),
        at_rules_sorted(at_rules).len() == at_rules.len(),
{
    let at = at_rules_sorted(at_rules);
    sorting_is_sorting(at_rules, Collation::Units);
    vstd::seq_lib::lemma_multiset_commutative(at, const_rules);
    vstd::seq_lib::lemma_multiset_commutative(at_rules, const_rules);
    assert((at + const_rules).to_multiset() =~= (at_rules + const_rules).to_multiset());
    sorting_forgets_the_order(at + const_rules, at_rules + const_rules);
    at.to_multiset_ensures();
    at_rules.to_multiset_ensures();
}

/// The class of a declaration is named after its property, its values, all its pseudo
/// selectors and all its at-rules and constant rules, these in the order of their code
/// units; where there are none of either, the word `null` stands for them.
pub proof fn classes_are_named_after_everything(
    property: Seq<char>,
    value: PreRuleValueModel,
    pseudos: Seq<Seq<char>>,
    at_rules: Seq<Seq<char>>,
    const_rules: Seq<Seq<char>>,
    options: ResolvedOptions,
)
    requires
        compiled_rule(property, value, pseudos, at_rules, const_rules, options) is Ok,
    ensures
        pseudos_sorted(pseudos) is Ok,
        pseudos_sorted(pseudos)->Ok_0.to_multiset() == pseudos.to_multiset(),
        declared(property, value, options.enable_font_size_px_to_rem) is Ok,
        ({
            let rule = compiled_rule(
                property,
                value,
                pseudos,
                at_rules,
                const_rules,
                options,
            )->Ok_0;
            let ps = concat_texts(pseudos_sorted(pseudos)->Ok_0);
            let cs = concat_texts(sorted_texts(at_rules + const_rules, Collation::Units));
            let values = declared(property, value, options.enable_font_size_px_to_rem)->Ok_0;
            let start = "<>"@ + dashed_key_text(property) + values_text(value, values);
            &&& ps.len() + cs.len() > 0 ==> rule.class_name == named_after(
                property,
                start + ps + cs,
                options,
            )
            &&& ps.len() + cs.len() == 0 ==> rule.class_name == named_after(
                property,
                start + "null"@,
                options,
            )
        }),
{
    pseudo_elements_stay_in_place(pseudos);
    lemma_conditions_sorted(at_rules, const_rules);
    let rule = compiled_rule(property, value, pseudos, at_rules, const_rules, options)->Ok_0;
    let ps = pseudos_sorted(pseudos)->Ok_0;
    let cs = sorted_texts(at_rules + const_rules, Collation::Units);
    let values = declared(property, value, options.enable_font_size_px_to_rem)->Ok_0;
    let key = dashed_key_text(property);
    let start = "<>"@ + key + values_text(value, values);
    let input = hash_input(key, hashed_values(value, values), ps, cs);
    let one = seq!["undefined"@];
    assert(join_texts(one, ", "@) =~= "undefined"@);
    assert(join_texts(hashed_values(value, values), ", "@) == values_text(value, values));
    if concat_texts(ps).len() + concat_texts(cs).len() > 0 {
        assert(input =~= start + concat_texts(ps) + concat_texts(cs));
    } else {
        assert(input =~= start + "null"@);
    }
    let prefix = options.class_name_prefix@;
    assert(property + "-"@ + (prefix + hash_text(input)) =~= property + "-"@ + prefix + hash_text(
        input,
    ));
}

/// The texts that two class names rest on are the same for one property, one list of values
/// and one list of pseudo selectors only where the conditions are, read one behind the
/// other, or where one of them has none and the others spell the word `null`.
pub proof fn conditions_tell_classes_apart(
    key: Seq<char>,
    values: Seq<Seq<char>>,
    pseudos: Seq<Seq<char>>,
    a: Seq<Seq<char>>,
    b: Seq<Seq<char>>,
)
    requires
        hash_input(key, values, pseudos, a) == hash_input(key, values, pseudos, b),
    ensures
        concat_texts(a) == concat_texts(b) || (concat_texts(pseudos).len() == 0 && (
        concat_texts(a).len() == 0 && concat_texts(b) == "null"@ || concat_texts(b).len() == 0
            && concat_texts(a) == "null"@)),
{
    let start = "<>"@ + key + join_texts(values, ", "@);
    let p = concat_texts(pseudos);
    let x = p + concat_texts(a);
    let y = p + concat_texts(b);
    let s = hash_input(key, values, pseudos, a);
    let t = hash_input(key, values, pseudos, b);
    let rest = s.skip(start.len() as int);
    reveal_strlit("null");
    if x.len() > 0 {
        assert(s =~= start + x);
        assert(rest =~= x);
    } else {
        assert(rest =~= "null"@);
    }
    if y.len() > 0 {
        assert(t =~= start + y);
        assert(rest =~= y);
    } else {
        assert(rest =~= "null"@);
    }
    if x == y {
        assert(concat_texts(a) =~= x.skip(p.len() as int));
        assert(concat_texts(b) =~= y.skip(p.len() as int));
    } else {
        assert(p.len() == 0);
        assert(x =~= concat_texts(a));
        assert(y =~= concat_texts(b));
    }
}

/// The beginning of a rule that stands in the first `k` conditions: the last is outermost.
pub open spec fn opened(conditions: Seq<Seq<char>>, k: int) -> Seq<char>
    decreases k,
{
    if k <= 0 {
        Seq::empty()
    } else {
        conditions[k - 1] + "{"@ + opened(conditions, k - 1)
    }
}

/// The closing braces of `k` conditions.
pub open spec fn closed(k: nat) -> Seq<char> {
    Seq::new(k, |i: int| '}')
}

/// A rule in all its conditions.
pub open spec fn in_conditions(conditions: Seq<Seq<char>>, rule: Seq<char>) -> Seq<char> {
    opened(conditions, conditions.len() as int) + rule + closed(conditions.len())
}

proof fn lemma_wrapped(conditions: Seq<Seq<char>>, rule: Seq<char>, k: int)
    requires
        0 <= k <= conditions.len(),
    ensures
        wrapped(conditions, rule, k) == opened(conditions, k) + rule + closed(k as nat),
    decreases k,
{
    reveal_strlit("}");
    if k > 0 {
        lemma_wrapped(conditions, rule, k - 1);
        assert(wrapped(conditions, rule, k) =~= opened(conditions, k) + rule + closed(k as nat));
    } else {
        assert(wrapped(conditions, rule, k) =~= opened(conditions, k) + rule + closed(k as nat));
    }
}

/// Those of pseudo selectors that are elements, or that are none; the thumb is neither.
pub open spec fn pseudos_of(v: Seq<Seq<char>>, elements: bool) -> Seq<Seq<char>> {
    v.filter(|p: Seq<char>| p != "::thumb"@ && (elements <==> has_prefix(p, "::"@)))
}

proof fn lemma_concat_push(v: Seq<Seq<char>>, s: Seq<char>)
    ensures
        concat_texts(v.push(s)) == concat_texts(v) + s,
{
    lemma_concat_prefix(v, v.push(s), v.len() as int);
}

proof fn lemma_concat_prefix(a: Seq<Seq<char>>, b: Seq<Seq<char>>, k: int)
    requires
        0 <= k <= a.len(),
        k <= b.len(),
        forall|i: int| 0 <= i < k ==> a[i] == b[i],
    ensures
        concat_upto(a, k) == concat_upto(b, k),
    decreases k,
{
    if k > 0 {
        lemma_concat_prefix(a, b, k - 1);
    }
}

proof fn lemma_pseudos(v: Seq<Seq<char>>, elements: bool, k: int)
    requires
        0 <= k <= v.len(),
    ensures
        pseudos_upto(v, elements, k) == concat_texts(pseudos_of(v.take(k), elements)),
    decreases k,
{
    let pick = |p: Seq<char>| p != "::thumb"@ && (elements <==> has_prefix(p, "::"@));
    reveal(Seq::filter);
    if k > 0 {
        lemma_pseudos(v, elements, k - 1);
        let now = v.take(k);
        assert(now.drop_last() =~= v.take(k - 1));
        assert(now.last() == v[k - 1]);
        if pick(v[k - 1]) {
            lemma_concat_push(v.take(k - 1).filter(pick), v[k - 1]);
        }
    } else {
        assert(v.take(0) =~= Seq::empty());
    }
}

/// The selector of a rule: the class once, once more for each condition, and once more where
/// it looks at another element; then the pseudo-classes, then the pseudo-elements. A thumb
/// stands for the elements of three browsers.
pub open spec fn selects(
    selector: Seq<char>,
    class: Seq<char>,
    pseudos: Seq<Seq<char>>,
    conditions: nat,
) -> bool {
    let suffix = concat_texts(pseudos_of(pseudos, false)) + concat_texts(
        pseudos_of(pseudos, true),
    );
    let copies = if has_part(suffix, ":where("@) {
        conditions + 2
    } else {
        conditions + 1
    };
    let one = repeated("."@ + class, copies) + suffix;
    if pseudos.contains("::thumb"@) {
        selector == one + "::-webkit-slider-thumb"@ + ", "@ + one + "::-moz-range-thumb"@ + ", "@
            + one + "::-ms-thumb"@
    } else {
        selector == one
    }
}

proof fn lemma_selector(class: Seq<char>, pseudos: Seq<Seq<char>>, conditions: nat)
    ensures
        selects(selector_of(class, pseudos, conditions), class, pseudos, conditions),
{
    lemma_pseudos(pseudos, false, pseudos.len() as int);
    lemma_pseudos(pseudos, true, pseudos.len() as int);
    assert(pseudos.take(pseudos.len() as int) =~= pseudos);
    let suffix = pseudo_suffix(pseudos);
    let copies = 1 + conditions + if has_part(suffix, ":where("@) {
        1nat
    } else {
        0
    };
    let one = repeated("."@ + class, copies) + suffix;
    assert(one + "::-webkit-slider-thumb"@ + ", "@ + (one + "::-moz-range-thumb"@) + ", "@ + (one
        + "::-ms-thumb"@) =~= one + "::-webkit-slider-thumb"@ + ", "@ + one
        + "::-moz-range-thumb"@ + ", "@ + one + "::-ms-thumb"@);
}

/// Whether a text is a rule for a class: its declarations behind a selector for the class,
/// inside all the conditions.
pub open spec fn rule_for(
    text: Seq<char>,
    class: Seq<char>,
    pseudos: Seq<Seq<char>>,
    conditions: Seq<Seq<char>>,
    decls: Seq<char>,
) -> bool {
    exists|selector: Seq<char>|
        #[trigger] selects(selector, class, pseudos, conditions.len()) && text == in_conditions(
            conditions,
            selector + "{"@ + decls + "}"@,
        )
}

/// A property and its value with a colon between.
pub open spec fn one_declaration(p: (Seq<char>, Seq<char>)) -> Seq<char> {
    p.0 + ":"@ + p.1
}

/// The text of declarations from left to right.
pub open spec fn ltr_text(key: Seq<char>, values: Seq<Seq<char>>, ctx: RtlContext) -> Seq<char> {
    join_texts(
        Seq::new(
            values.len(),
            |i: int| one_declaration(ltr_pair(key, values[i], ctx)),
        ),
        ";"@,
    )
}

/// The values that have a declaration from right to left.
pub open spec fn turning(key: Seq<char>, values: Seq<Seq<char>>, ctx: RtlContext) -> Seq<Seq<char>> {
    values.filter(|v: Seq<char>| rtl_pair(key, v, ctx) is Some)
}

/// The text of declarations from right to left.
pub open spec fn rtl_text(key: Seq<char>, values: Seq<Seq<char>>, ctx: RtlContext) -> Seq<char> {
    let turned = turning(key, values, ctx);
    join_texts(
        Seq::new(
            turned.len(),
            |i: int| one_declaration(rtl_pair(key, turned[i], ctx)->0),
        ),
        ";"@,
    )
}

spec fn rtl_list(key: Seq<char>, turned: Seq<Seq<char>>, ctx: RtlContext) -> Seq<Seq<char>> {
    Seq::new(
        turned.len(),
        |i: int| one_declaration(rtl_pair(key, turned[i], ctx)->0),
    )
}

proof fn lemma_rtl(key: Seq<char>, values: Seq<Seq<char>>, ctx: RtlContext, k: int)
    requires
        0 <= k <= values.len(),
    ensures
        rtl_declarations(key, values, ctx, k) == rtl_list(
            key,
            turning(key, values.take(k), ctx),
            ctx,
        ),
    decreases k,
{
    let pick = |v: Seq<char>| rtl_pair(key, v, ctx) is Some;
    reveal(Seq::filter);
    if k > 0 {
        lemma_rtl(key, values, ctx, k - 1);
        let now = values.take(k);
        assert(now.drop_last() =~= values.take(k - 1));
        assert(now.last() == values[k - 1]);
        assert(rtl_declarations(key, values, ctx, k) =~= rtl_list(
            key,
            turning(key, now, ctx),
            ctx,
        ));
    } else {
        assert(values.take(0) =~= Seq::empty());
        assert(rtl_declarations(key, values, ctx, 0) =~= rtl_list(
            key,
            turning(key, values.take(0), ctx),
            ctx,
        ));
    }
}

/// The rule of a declaration stands inside every at-rule and constant rule of it and names
/// its class and all its pseudo selectors; it declares the values from left to right. A rule
/// from right to left stands in the same place, and is there exactly where a value turns.
pub proof fn rules_stand_inside_their_conditions(
    property: Seq<char>,
    value: PreRuleValueModel,
    pseudos: Seq<Seq<char>>,
    at_rules: Seq<Seq<char>>,
    const_rules: Seq<Seq<char>>,
    options: ResolvedOptions,
)
    requires
        compiled_rule(property, value, pseudos, at_rules, const_rules, options) is Ok,
    ensures
        sorted_texts(at_rules, Collation::Units).to_multiset() == at_rules.to_multiset(),
        ({
            let rule = compiled_rule(
                property,
                value,
                pseudos,
                at_rules,
                const_rules,
                options,
            )->Ok_0;
            let ps = pseudos_sorted(pseudos)->Ok_0;
            let conditions = sorted_texts(at_rules, Collation::Units) + const_rules;
            let values = declared(property, value, options.enable_font_size_px_to_rem)->Ok_0;
            let key = dashed_key_text(property);
            let ctx = RtlContext::context_of(options);
            &&& rule_for(rule.ltr, rule.class_name, ps, conditions, ltr_text(key, values, ctx))
            &&& rule.rtl is Some <==> turning(key, values, ctx).len() > 0
            &&& rule.rtl is Some ==> rule_for(
                rule.rtl->0,
                rule.class_name,
                ps,
                conditions,
                rtl_text(key, values, ctx),
            )
        }),
{
    lemma_conditions_sorted(at_rules, const_rules);
    let rule = compiled_rule(property, value, pseudos, at_rules, const_rules, options)->Ok_0;
    let ps = pseudos_sorted(pseudos)->Ok_0;
    let conditions = sorted_texts(at_rules, Collation::Units) + const_rules;
    let values = declared(property, value, options.enable_font_size_px_to_rem)->Ok_0;
    let key = dashed_key_text(property);
    let ctx = RtlContext::context_of(options);
    let n = conditions.len() as int;
    let selector = selector_of(rule.class_name, ps, conditions.len());
    lemma_selector(rule.class_name, ps, conditions.len());
    let ltr = ltr_text(key, values, ctx);
    assert(ltr_declarations(key, values, ctx) =~= Seq::new(
        values.len(),
        |i: int| one_declaration(ltr_pair(key, values[i], ctx)),
    ));
    lemma_wrapped(conditions, selector + "{"@ + ltr + "}"@, n);
    assert(rule.ltr == in_conditions(conditions, selector + "{"@ + ltr + "}"@));
    lemma_rtl(key, values, ctx, values.len() as int);
    assert(values.take(values.len() as int) =~= values);
    let rtl = rtl_text(key, values, ctx);
    assert(rtl_declarations(key, values, ctx, values.len() as int).len() == turning(
        key,
        values,
        ctx,
    ).len());
    if rule.rtl is Some {
        lemma_wrapped(conditions, selector + "{"@ + rtl + "}"@, n);
        assert(rule.rtl->0 == in_conditions(conditions, selector + "{"@ + rtl + "}"@));
    }
}

} // verus!
