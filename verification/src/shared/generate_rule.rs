//! One declaration to its class and its rule.

use crate::errors::{said, ErrorCode, ErrorModel, StylexError};
use crate::hash::{hash, hash_text};
use crate::jsrt::sorting_forgets_the_order;
use crate::number::JsNumber;
use crate::options::ResolvedOptions;
use crate::rules::{plain_rule, RuleModel, StylexRule};
use crate::shared::dashify::{dashed_key, dashed_key_text};
use crate::shared::fallbacks::{
    fallbacks, has_var_fallback, list_result, var_value, variable_fallbacks,
};
use crate::shared::flatten::{PreRuleValue, PreRuleValueModel, ScalarModel, StyleScalar};
use crate::shared::normalize_value::CssValueError;
use crate::shared::priorities::{get_priority, priority};
use crate::shared::pseudo_sort::{at_rules_sorted, pseudos_sorted, sort_at_rules, sort_pseudos};
use crate::shared::rtl::{generate_ltr, generate_rtl, ltr_pair, rtl_pair, RtlContext};
use crate::shared::transform_value::{
    transform_value_num, transform_value_str, transformed, transformed_num,
};
use crate::text::{
    concat2, concat3, concat_all, concat_texts, contains, has_part, has_prefix, join, join_texts,
    repeated, starts_with, str_eq, str_texts, texts,
};
use vstd::prelude::*;

verus! {

/// The error of a style call for a value that has no spelling.
pub open spec fn css_error(e: CssValueError) -> ErrorModel {
    match e {
        CssValueError::UnclosedFunction => said(
            ErrorCode::UnclosedFunction,
            "Rule contains an unclosed function"@,
        ),
        CssValueError::UnclosedString => said(
            ErrorCode::UnclosedString,
            "Rule contains an unclosed string"@,
        ),
        CssValueError::EmptyValue => said(
            ErrorCode::EmptyValue,
            "Cannot normalize an empty value"@,
        ),
    }
}

/// Gives the error of a style call for a value that has no spelling.
pub fn css_value_error(e: CssValueError) -> (r: StylexError)
    ensures
        r.model() == css_error(e),
{
    match e {
        CssValueError::UnclosedFunction => StylexError::unclosed_function(),
        CssValueError::UnclosedString => StylexError::unclosed_string(),
        CssValueError::EmptyValue => StylexError::empty_value(),
    }
}

/// A text, or the error of a style call.
pub open spec fn styled(r: Result<Seq<char>, CssValueError>) -> Result<Seq<char>, ErrorModel> {
    match r {
        Ok(t) => Ok(t),
        Err(e) => Err(css_error(e)),
    }
}

/// The text of a declaration for a value.
pub open spec fn scalar_declared(key: Seq<char>, v: ScalarModel, rem: bool) -> Result<
    Seq<char>,
    ErrorModel,
> {
    match v {
        ScalarModel::Str(s) => styled(transformed(key, s, rem)),
        ScalarModel::Num(n) => styled(transformed_num(key, n, rem)),
        ScalarModel::Undefined => Ok(Seq::empty()),
    }
}

/// The view of a text or an error.
pub open spec fn text_result(r: Result<String, StylexError>) -> Result<Seq<char>, ErrorModel> {
    match r {
        Ok(s) => Ok(s@),
        Err(e) => Err(e.model()),
    }
}

/// Gives the text of a declaration for a value.
pub fn transform_scalar(key: &str, scalar: &StyleScalar, font_size_px_to_rem: bool) -> (r: Result<
    String,
    StylexError,
>)
    ensures
        text_result(r) == scalar_declared(key@, scalar.model(), font_size_px_to_rem),
{
    let t = match scalar {
        StyleScalar::Str(s) => transform_value_str(key, s.as_str(), font_size_px_to_rem),
        StyleScalar::Num(n) => transform_value_num(key, *n, font_size_px_to_rem),
        StyleScalar::Undefined => Ok(String::new()),
    };
    match t {
        Ok(s) => Ok(s),
        Err(e) => Err(css_value_error(e)),
    }
}

/// The texts of the first `k` values, or the first error among them.
pub open spec fn declared_upto(key: Seq<char>, v: Seq<ScalarModel>, rem: bool, k: int) -> Result<
    Seq<Seq<char>>,
    ErrorModel,
>
    decreases k,
{
    if k <= 0 {
        Ok(Seq::empty())
    } else {
        match declared_upto(key, v, rem, k - 1) {
            Err(e) => Err(e),
            Ok(done) => match scalar_declared(key, v[k - 1], rem) {
                Err(e) => Err(e),
                Ok(t) => Ok(done.push(t)),
            },
        }
    }
}

/// Whether one of the texts is a variable.
pub open spec fn any_var(v: Seq<Seq<char>>) -> bool {
    exists|i: int| 0 <= i < v.len() && var_value(#[trigger] v[i])
}

/// The texts that a property is declared with, in the order in which they are
/// tried.
pub open spec fn declared(key: Seq<char>, v: PreRuleValueModel, rem: bool) -> Result<
    Seq<Seq<char>>,
    ErrorModel,
> {
    match v {
        PreRuleValueModel::Single(s) => match scalar_declared(key, s, rem) {
            Err(e) => Err(e),
            Ok(t) => Ok(seq![t]),
        },
        PreRuleValueModel::Multi(items) => match declared_upto(key, items, rem, items.len() as int) {
            Err(e) => Err(e),
            Ok(ts) => if any_var(ts) {
                fallbacks(ts)
            } else {
                Ok(ts)
            },
        },
    }
}

/// The texts that are hashed: where there is no value, the word for it.
pub open spec fn hashed_values(v: PreRuleValueModel, values: Seq<Seq<char>>) -> Seq<Seq<char>> {
    if v == PreRuleValueModel::Single(ScalarModel::Undefined) {
        seq!["undefined"@]
    } else {
        values
    }
}

/// The text that the class is hashed from.
pub open spec fn hash_input(
    key: Seq<char>,
    values: Seq<Seq<char>>,
    pseudos: Seq<Seq<char>>,
    conditions: Seq<Seq<char>>,
) -> Seq<char> {
    let modifier = concat_texts(pseudos) + concat_texts(conditions);
    "<>"@ + key + join_texts(values, ", "@) + if modifier.len() == 0 {
        "null"@
    } else {
        modifier
    }
}

/// The name of the class.
pub open spec fn class_of(property: Seq<char>, input: Seq<char>, options: ResolvedOptions) -> Seq<char> {
    let plain = options.class_name_prefix@ + hash_text(input);
    if options.debug && options.enable_debug_class_names {
        property + "-"@ + plain
    } else {
        plain
    }
}

/// One declaration as text.
pub open spec fn declaration(p: (Seq<char>, Seq<char>)) -> Seq<char> {
    p.0 + ":"@ + p.1
}

/// The declarations from left to right.
pub open spec fn ltr_declarations(key: Seq<char>, values: Seq<Seq<char>>, ctx: RtlContext) -> Seq<
    Seq<char>,
> {
    Seq::new(values.len(), |i: int| declaration(ltr_pair(key, values[i], ctx)))
}

/// The declarations from right to left of the first `k` values that have one.
pub open spec fn rtl_declarations(
    key: Seq<char>,
    values: Seq<Seq<char>>,
    ctx: RtlContext,
    k: int,
) -> Seq<Seq<char>>
    decreases k,
{
    if k <= 0 {
        Seq::empty()
    } else {
        let done = rtl_declarations(key, values, ctx, k - 1);
        match rtl_pair(key, values[k - 1], ctx) {
            Some(p) => done.push(declaration(p)),
            None => done,
        }
    }
}

/// The first `k` pseudo selectors that are elements, or those that are none; the
/// thumb is left out.
pub open spec fn pseudos_upto(v: Seq<Seq<char>>, elements: bool, k: int) -> Seq<char>
    decreases k,
{
    if k <= 0 {
        Seq::empty()
    } else {
        let done = pseudos_upto(v, elements, k - 1);
        if v[k - 1] != "::thumb"@ && has_prefix(v[k - 1], "::"@) == elements {
            done + v[k - 1]
        } else {
            done
        }
    }
}

/// The pseudo selectors behind a class: pseudo-classes first.
pub open spec fn pseudo_suffix(v: Seq<Seq<char>>) -> Seq<char> {
    pseudos_upto(v, false, v.len() as int) + pseudos_upto(v, true, v.len() as int)
}

/// The elements that a thumb stands for.
pub const THUMB_VARIANTS: [&'static str; 3] = [
    "::-webkit-slider-thumb",
    "::-moz-range-thumb",
    "::-ms-thumb",
];

/// The selector of a rule: the class once, once more for each condition and where
/// the rule looks at another element.
pub open spec fn selector_of(class: Seq<char>, pseudos: Seq<Seq<char>>, conditions: nat) -> Seq<char> {
    let suffix = pseudo_suffix(pseudos);
    let copies = 1 + conditions + if has_part(suffix, ":where("@) {
        1nat
    } else {
        0
    };
    let one = repeated("."@ + class, copies) + suffix;
    if pseudos.contains("::thumb"@) {
        one + THUMB_VARIANTS@[0]@ + ", "@ + (one + THUMB_VARIANTS@[1]@) + ", "@ + (one
            + THUMB_VARIANTS@[2]@)
    } else {
        one
    }
}

/// A rule inside the first `k` conditions, the last of them outermost.
pub open spec fn wrapped(conditions: Seq<Seq<char>>, rule: Seq<char>, k: int) -> Seq<char>
    decreases k,
{
    if k <= 0 {
        rule
    } else {
        conditions[k - 1] + "{"@ + wrapped(conditions, rule, k - 1) + "}"@
    }
}

/// The text of a rule.
pub open spec fn nested_rule(
    class: Seq<char>,
    decls: Seq<char>,
    pseudos: Seq<Seq<char>>,
    conditions: Seq<Seq<char>>,
) -> Seq<char> {
    wrapped(
        conditions,
        selector_of(class, pseudos, conditions.len()) + "{"@ + decls + "}"@,
        conditions.len() as int,
    )
}

/// The sum of the priorities of the first `k` keys.
pub open spec fn priorities_upto(v: Seq<Seq<char>>, k: int) -> JsNumber
    decreases k,
{
    if k <= 0 {
        JsNumber::natural(0)
    } else {
        priorities_upto(v, k - 1).plus_spec(priority(v[k - 1]))
    }
}

/// The priority of a rule.
pub open spec fn rule_priority(
    key: Seq<char>,
    pseudos: Seq<Seq<char>>,
    at_rules: Seq<Seq<char>>,
    const_rules: Seq<Seq<char>>,
) -> JsNumber {
    priority(key).plus_spec(priorities_upto(pseudos, pseudos.len() as int)).plus_spec(
        priorities_upto(at_rules, at_rules.len() as int),
    ).plus_spec(priorities_upto(const_rules, const_rules.len() as int))
}

/// The rule of a class.
pub open spec fn css_rule(
    class: Seq<char>,
    key: Seq<char>,
    values: Seq<Seq<char>>,
    pseudos: Seq<Seq<char>>,
    at_rules: Seq<Seq<char>>,
    const_rules: Seq<Seq<char>>,
    ctx: RtlContext,
) -> RuleModel {
    let conditions = at_rules + const_rules;
    let rtl = rtl_declarations(key, values, ctx, values.len() as int);
    plain_rule(
        class,
        nested_rule(class, join_texts(ltr_declarations(key, values, ctx), ";"@), pseudos, conditions),
        if rtl.len() == 0 {
            None
        } else {
            Some(nested_rule(class, join_texts(rtl, ";"@), pseudos, conditions))
        },
        rule_priority(key, pseudos, at_rules, const_rules),
    )
}

/// The rule of a declaration, or why there is none.
pub open spec fn compiled_rule(
    property: Seq<char>,
    value: PreRuleValueModel,
    pseudos: Seq<Seq<char>>,
    at_rules: Seq<Seq<char>>,
    const_rules: Seq<Seq<char>>,
    options: ResolvedOptions,
) -> Result<RuleModel, ErrorModel> {
    match pseudos_sorted(pseudos) {
        Err(e) => Err(e),
        Ok(ps) => {
            let at = at_rules_sorted(at_rules);
            let conditions = at_rules_sorted(at + const_rules);
            let key = dashed_key_text(property);
            match declared(property, value, options.enable_font_size_px_to_rem) {
                Err(e) => Err(e),
                Ok(values) => {
                    let input = hash_input(key, hashed_values(value, values), ps, conditions);
                    Ok(
                        css_rule(
                            class_of(property, input, options),
                            key,
                            values,
                            ps,
                            at,
                            const_rules,
                            RtlContext::context_of(options),
                        ),
                    )
                },
            }
        },
    }
}

/// The view of a rule or an error.
pub open spec fn rule_outcome(r: Result<StylexRule, StylexError>) -> Result<RuleModel, ErrorModel> {
    match r {
        Ok(rule) => Ok(rule.model()),
        Err(e) => Err(e.model()),
    }
}

fn declare(property: &str, value: &PreRuleValue, rem: bool) -> (r: Result<Vec<String>, StylexError>)
    ensures
        list_result(r) == declared(property@, value.model(), rem),
{
    match value {
        PreRuleValue::Single(s) => {
            match transform_scalar(property, s, rem) {
                Err(e) => Err(e),
                Ok(t) => {
                    let mut out: Vec<String> = Vec::new();
                    out.push(t);
                    proof {
                        assert(texts(out@) =~= seq![t@]);
                    }
                    Ok(out)
                },
            }
        },
        PreRuleValue::Multi(items) => {
            let ghost all = value.model()->Multi_0;
            let mut out: Vec<String> = Vec::new();
            let mut i: usize = 0;
            proof {
                assert(texts(out@) =~= Seq::<Seq<char>>::empty());
                lemma_declared_prefix(property@, all, rem, 0, all.len() as int);
            }
            while i < items.len()
                invariant
                    *value == PreRuleValue::Multi(*items),
                    all == value.model()->Multi_0,
                    i <= items@.len(),
                    declared_upto(property@, all, rem, i as int) == Ok::<
                        Seq<Seq<char>>,
                        ErrorModel,
                    >(texts(out@)),
                decreases items@.len() - i,
            {
                let ghost before = texts(out@);
                match transform_scalar(property, &items[i], rem) {
                    Err(e) => {
                        proof {
                            lemma_declared_prefix(
                                property@,
                                all,
                                rem,
                                i as int + 1,
                                all.len() as int,
                            );
                        }
                        return Err(e);
                    },
                    Ok(t) => {
                        out.push(t);
                        proof {
                            assert(texts(out@) =~= before.push(t@));
                        }
                    },
                }
                i += 1;
            }
            let some = has_var_fallback(&out);
            proof {
                let ts = texts(out@);
                assert(some == any_var(ts)) by {
                    if some {
                        let j = choose|j: int|
                            0 <= j < out@.len() && var_value(#[trigger] out@[j]@);
                        assert(var_value(ts[j]));
                    }
                    if any_var(ts) {
                        let j = choose|j: int| 0 <= j < ts.len() && var_value(#[trigger] ts[j]);
                        assert(var_value(out@[j]@));
                    }
                }
            }
            if some {
                variable_fallbacks(&out)
            } else {
                Ok(out)
            }
        },
    }
}

/// An error among the first values is the error of all.
proof fn lemma_declared_prefix(key: Seq<char>, v: Seq<ScalarModel>, rem: bool, a: int, b: int)
    requires
        a <= b,
    ensures
        declared_upto(key, v, rem, a) is Err ==> declared_upto(key, v, rem, b) == declared_upto(
            key,
            v,
            rem,
            a,
        ),
    decreases b - a,
{
    if a < b {
        lemma_declared_prefix(key, v, rem, a, b - 1);
    }
}

/// Gives the class and the rule of a declaration.
pub fn convert_style_to_class_name(
    property: &str,
    value: &PreRuleValue,
    pseudos: &[&str],
    at_rules: &[&str],
    const_rules: &[&str],
    options: &ResolvedOptions,
) -> (r: Result<StylexRule, StylexError>)
    ensures
        rule_outcome(r) == compiled_rule(
            property@,
            value.model(),
            str_texts(pseudos@),
            str_texts(at_rules@),
            str_texts(const_rules@),
            *options,
        ),
{
    let sorted_pseudos = match sort_pseudos(pseudos) {
        Ok(v) => v,
        Err(e) => {
            return Err(e);
        },
    };
    let sorted_at_rules = sort_at_rules(at_rules);
    let mut at_and_const: Vec<&str> = Vec::new();
    let mut i: usize = 0;
    while i < sorted_at_rules.len()
        invariant
            i <= sorted_at_rules@.len(),
            at_and_const@ == sorted_at_rules@.take(i as int),
        decreases sorted_at_rules@.len() - i,
    {
        at_and_const.push(sorted_at_rules[i]);
        i += 1;
    }
    i = 0;
    proof {
        assert(at_and_const@ =~= sorted_at_rules@ + const_rules@.take(0));
    }
    while i < const_rules.len()
        invariant
            i <= const_rules@.len(),
            at_and_const@ == sorted_at_rules@ + const_rules@.take(i as int),
        decreases const_rules@.len() - i,
    {
        at_and_const.push(const_rules[i]);
        proof {
            assert(at_and_const@ =~= sorted_at_rules@ + const_rules@.take(i as int + 1));
        }
        i += 1;
    }
    proof {
        assert(str_texts(at_and_const@) =~= str_texts(sorted_at_rules@) + str_texts(const_rules@));
    }
    let sorted_at_and_const = sort_at_rules(&at_and_const);
    let dashed = dashed_key(property);
    let values = match declare(property, value, options.enable_font_size_px_to_rem) {
        Ok(v) => v,
        Err(e) => {
            return Err(e);
        },
    };
    let joined = match value {
        PreRuleValue::Single(StyleScalar::Undefined) => {
            proof {
                let one = seq!["undefined"@];
                assert(join_texts(one, ", "@) =~= "undefined"@);
            }
            "undefined".to_owned()
        },
        _ => join(&values, ", "),
    };
    let mut modifier = concat_all(&sorted_pseudos);
    modifier.append(concat_all(&sorted_at_and_const).as_str());
    let mut input = concat3("<>", dashed.as_str(), joined.as_str());
    if modifier.as_str().is_empty() {
        input.append("null");
    } else {
        input.append(modifier.as_str());
    }
    let plain = concat2(options.class_name_prefix.as_str(), hash(input.as_str()).as_str());
    let class_name = if options.debug && options.enable_debug_class_names {
        concat3(property, "-", plain.as_str())
    } else {
        plain
    };
    Ok(
        generate_css_rule(
            class_name.as_str(),
            dashed.as_str(),
            &values,
            &sorted_pseudos,
            &sorted_at_rules,
            const_rules,
            RtlContext::of(options),
        ),
    )
}

/// Gives the rule of a class.
pub fn generate_css_rule(
    class_name: &str,
    key: &str,
    values: &Vec<String>,
    pseudos: &[&str],
    at_rules: &[&str],
    const_rules: &[&str],
    ctx: RtlContext,
) -> (r: StylexRule)
    ensures
        r.model() == css_rule(
            class_name@,
            key@,
            texts(values@),
            str_texts(pseudos@),
            str_texts(at_rules@),
            str_texts(const_rules@),
            ctx,
        ),
{
    let ghost all = texts(values@);
    let mut ltr: Vec<String> = Vec::new();
    let mut rtl: Vec<String> = Vec::new();
    let mut i: usize = 0;
    proof {
        assert(texts(rtl@) =~= Seq::<Seq<char>>::empty());
    }
    while i < values.len()
        invariant
            all == texts(values@),
            i <= values@.len(),
            ltr@.len() == i,
            forall|j: int|
                0 <= j < i ==> (#[trigger] ltr@[j])@ == declaration(ltr_pair(key@, all[j], ctx)),
            texts(rtl@) == rtl_declarations(key@, all, ctx, i as int),
        decreases values@.len() - i,
    {
        let ghost before = texts(rtl@);
        assert(all[i as int] == values@[i as int]@);
        let p = generate_ltr(key, values[i].as_str(), ctx);
        ltr.push(concat3(p.0.as_str(), ":", p.1.as_str()));
        if let Some(q) = generate_rtl(key, values[i].as_str(), ctx) {
            rtl.push(concat3(q.0.as_str(), ":", q.1.as_str()));
            proof {
                assert(texts(rtl@) =~= before.push(declaration((q.0@, q.1@))));
            }
        }
        i += 1;
    }
    proof {
        assert(texts(ltr@) =~= ltr_declarations(key@, all, ctx));
    }
    let conditions = both(at_rules, const_rules);
    let ltr_rule = build_nested_css_rule(class_name, join(&ltr, ";").as_str(), pseudos, &conditions);
    let rtl_rule = if rtl.len() == 0 {
        None
    } else {
        Some(build_nested_css_rule(class_name, join(&rtl, ";").as_str(), pseudos, &conditions))
    };
    let p = get_priority(key).plus(sum_priorities(pseudos)).plus(sum_priorities(at_rules)).plus(
        sum_priorities(const_rules),
    );
    StylexRule::plain(class_name.to_owned(), ltr_rule, rtl_rule, p)
}

fn both<'s>(a: &[&'s str], b: &[&'s str]) -> (r: Vec<&'s str>)
    ensures
        str_texts(r@) == str_texts(a@) + str_texts(b@),
{
    let mut out: Vec<&'s str> = Vec::new();
    let mut i: usize = 0;
    while i < a.len()
        invariant
            i <= a@.len(),
            out@ == a@.take(i as int),
        decreases a@.len() - i,
    {
        out.push(a[i]);
        i += 1;
    }
    i = 0;
    proof {
        assert(out@ =~= a@ + b@.take(0));
    }
    while i < b.len()
        invariant
            i <= b@.len(),
            out@ == a@ + b@.take(i as int),
        decreases b@.len() - i,
    {
        out.push(b[i]);
        proof {
            assert(out@ =~= a@ + b@.take(i as int + 1));
        }
        i += 1;
    }
    proof {
        assert(str_texts(out@) =~= str_texts(a@) + str_texts(b@));
    }
    out
}

fn sum_priorities(v: &[&str]) -> (r: JsNumber)
    ensures
        r == priorities_upto(str_texts(v@), v@.len() as int),
{
    let mut total = JsNumber::from_int(0);
    let mut i: usize = 0;
    while i < v.len()
        invariant
            i <= v@.len(),
            total == priorities_upto(str_texts(v@), i as int),
        decreases v@.len() - i,
    {
        assert(str_texts(v@)[i as int] == v@[i as int]@);
        total = total.plus(get_priority(v[i]));
        i += 1;
    }
    total
}

fn push_pseudos(out: &mut String, v: &[&str], elements: bool)
    ensures
        final(out)@ == old(out)@ + pseudos_upto(str_texts(v@), elements, v@.len() as int),
{
    let ghost start = out@;
    let mut i: usize = 0;
    proof {
        assert(out@ =~= start + pseudos_upto(str_texts(v@), elements, 0));
    }
    while i < v.len()
        invariant
            i <= v@.len(),
            out@ == start + pseudos_upto(str_texts(v@), elements, i as int),
        decreases v@.len() - i,
    {
        assert(str_texts(v@)[i as int] == v@[i as int]@);
        if !str_eq(v[i], "::thumb") && starts_with(v[i], "::") == elements {
            out.append(v[i]);
        }
        i += 1;
        proof {
            assert(out@ =~= start + pseudos_upto(str_texts(v@), elements, i as int));
        }
    }
}

fn has_thumb(v: &[&str]) -> (r: bool)
    ensures
        r == str_texts(v@).contains("::thumb"@),
{
    let mut i: usize = 0;
    while i < v.len()
        invariant
            i <= v@.len(),
            forall|j: int| 0 <= j < i ==> #[trigger] str_texts(v@)[j] != "::thumb"@,
        decreases v@.len() - i,
    {
        if str_eq(v[i], "::thumb") {
            assert(str_texts(v@)[i as int] == "::thumb"@);
            return true;
        }
        i += 1;
    }
    false
}

fn build_nested_css_rule(class_name: &str, decls: &str, pseudos: &[&str], conditions: &Vec<&str>) -> (r:
    String)
    ensures
        r@ == nested_rule(class_name@, decls@, str_texts(pseudos@), str_texts(conditions@)),
{
    let ghost conds = str_texts(conditions@);
    let mut pseudo = String::new();
    push_pseudos(&mut pseudo, pseudos, false);
    push_pseudos(&mut pseudo, pseudos, true);
    proof {
        assert(pseudo@ =~= pseudo_suffix(str_texts(pseudos@)));
    }
    let dotted = concat2(".", class_name);
    let mut selector = dotted.clone();
    let ghost mut copies: nat = 1;
    proof {
        reveal_with_fuel(repeated, 2);
        assert(selector@ =~= repeated(dotted@, 1));
    }
    if contains(pseudo.as_str(), ":where(") {
        selector.append(dotted.as_str());
        proof {
            copies = 2;
        }
    }
    let ghost first = copies;
    let mut i: usize = 0;
    while i < conditions.len()
        invariant
            i <= conditions@.len(),
            selector@ == repeated(dotted@, first + i as nat),
        decreases conditions@.len() - i,
    {
        selector.append(dotted.as_str());
        i += 1;
    }
    selector.append(pseudo.as_str());
    if has_thumb(pseudos) {
        let variants = THUMB_VARIANTS;
        let one = concat2(selector.as_str(), variants[0]);
        let two = concat2(selector.as_str(), variants[1]);
        let three = concat2(selector.as_str(), variants[2]);
        let mut list = concat3(one.as_str(), ", ", two.as_str());
        list.append(", ");
        list.append(three.as_str());
        selector = list;
    }
    assert(selector@ == selector_of(class_name@, str_texts(pseudos@), conds.len()));
    let mut rule = concat3(selector.as_str(), "{", decls);
    rule.append("}");
    let ghost inner = rule@;
    i = 0;
    while i < conditions.len()
        invariant
            conds == str_texts(conditions@),
            i <= conditions@.len(),
            rule@ == wrapped(conds, inner, i as int),
        decreases conditions@.len() - i,
    {
        let mut outer = concat3(conditions[i], "{", rule.as_str());
        outer.append("}");
        rule = outer;
        i += 1;
    }
    rule
}

/// The class and the rule of a declaration do not depend on the order in which its
/// at-rules came.
pub proof fn order_of_at_rules_does_not_count(
    property: Seq<char>,
    value: PreRuleValueModel,
    pseudos: Seq<Seq<char>>,
    a: Seq<Seq<char>>,
    b: Seq<Seq<char>>,
    const_rules: Seq<Seq<char>>,
    options: ResolvedOptions,
)
    requires
        a.to_multiset() == b.to_multiset(),
    ensures
        compiled_rule(property, value, pseudos, a, const_rules, options) == compiled_rule(
            property,
            value,
            pseudos,
            b,
            const_rules,
            options,
        ),
{
    sorting_forgets_the_order(a, b);
}

} // verus!
