//! Style objects flattened into one list of declarations.

use crate::errors::{
    duplicate_conditional_model, illegal_namespace_model, illegal_prop_array_model,
    illegal_prop_model, invalid_condition_model, ErrorModel, StylexError,
};
use crate::jsrt::{slice_utf16, sliced};
use crate::number::JsNumber;
use crate::options::ResolvedOptions;
use crate::shared::for_in::{
    entry_models, for_in, for_in_entries, is_plain, lemma_entry_smaller, lemma_for_in_size, plain,
    total_size, val_size,
};
use crate::rules::{RuleModel, StylexRule};
use crate::shared::generate_rule::{compiled_rule, convert_style_to_class_name, rule_outcome};
use crate::shared::resolution::{
    expanded, flat_map_expanded_shorthands, pair_models, pairs_result, ExpandedPair, PairModel,
};
use crate::text::{
    at_pos, char_count, chars_of, concat3, digit, has_prefix, is_digit, stands_at, starts_with,
    str_eq, str_texts, texts,
};
use crate::value::{
    append_put, item_keys, keys_of, lemma_find_key, position_of, value_of, EvalValue, JsObjectMap,
    ObjModel, Val,
};
use vstd::prelude::*;

verus! {

/// A value of a declaration, where no value at all stands for `null`.
#[derive(Debug, PartialEq)]
pub enum StyleScalar {
    Str(String),
    Num(JsNumber),
    Undefined,
}

/// What a value of a declaration is, mathematically.
#[verifier::ext_equal]
pub enum ScalarModel {
    Str(Seq<char>),
    Num(JsNumber),
    Undefined,
}

impl StyleScalar {
    /// What the value is, mathematically.
    pub open spec fn model(self) -> ScalarModel {
        match self {
            StyleScalar::Str(s) => ScalarModel::Str(s@),
            StyleScalar::Num(n) => ScalarModel::Num(n),
            StyleScalar::Undefined => ScalarModel::Undefined,
        }
    }
}

impl Clone for StyleScalar {
    fn clone(&self) -> (r: Self)
        ensures
            r.model() == self.model(),
    {
        match self {
            StyleScalar::Str(s) => StyleScalar::Str(s.clone()),
            StyleScalar::Num(n) => StyleScalar::Num(*n),
            StyleScalar::Undefined => StyleScalar::Undefined,
        }
    }
}

/// What an optional value is, mathematically.
pub open spec fn opt_scalar(o: Option<StyleScalar>) -> Option<ScalarModel> {
    match o {
        Some(s) => Some(s.model()),
        None => None,
    }
}

/// What a reference to an optional value is, mathematically.
pub open spec fn opt_scalar_ref(o: Option<&StyleScalar>) -> Option<ScalarModel> {
    match o {
        Some(s) => Some(s.model()),
        None => None,
    }
}

/// What a sequence of optional values is, mathematically.
pub open spec fn scalar_models(v: Seq<Option<StyleScalar>>) -> Seq<Option<ScalarModel>> {
    Seq::new(v.len(), |i: int| opt_scalar(v[i]))
}

/// A copy of an optional value.
pub fn copy_scalar(o: &Option<StyleScalar>) -> (r: Option<StyleScalar>)
    ensures
        opt_scalar(r) == opt_scalar(*o),
{
    match o {
        Some(s) => Some(s.clone()),
        None => None,
    }
}

/// The value of a rule: one value, or values to fall back on.
#[derive(Debug, PartialEq)]
pub enum PreRuleValue {
    Single(StyleScalar),
    Multi(Vec<StyleScalar>),
}

/// What the value of a rule is, mathematically.
#[verifier::ext_equal]
pub enum PreRuleValueModel {
    Single(ScalarModel),
    Multi(Seq<ScalarModel>),
}

impl PreRuleValue {
    /// What the value is, mathematically.
    pub open spec fn model(self) -> PreRuleValueModel {
        match self {
            PreRuleValue::Single(s) => PreRuleValueModel::Single(s.model()),
            PreRuleValue::Multi(v) => PreRuleValueModel::Multi(
                Seq::new(v@.len(), |i: int| v@[i].model()),
            ),
        }
    }
}

/// Whether a key is a selector or an at-rule that styles can stand under.
pub open spec fn condition_key(key: Seq<char>) -> bool {
    has_prefix(key, "@"@) || has_prefix(key, ":"@) || has_prefix(key, "["@)
}

/// Whether a value is one that a declaration can have.
pub open spec fn plain_value(v: Val) -> bool {
    v is Null || v is Str || v is Num
}

/// Whether all values are such as a declaration can have.
pub open spec fn plain_values(v: Seq<Val>) -> bool {
    forall|i: int| 0 <= i < v.len() ==> plain_value(#[trigger] v[i])
}

/// What is wrong with the styles of a namespace that stand within the given
/// conditions, if anything is.
pub open spec fn namespace_error(v: Val, within: Seq<Seq<char>>) -> Option<ErrorModel>
    decreases val_size(v), 0int,
    via namespace_error_decreases
{
    match v {
        Val::Obj(m) => if plain(m.entries) {
            styles_error(for_in(m), 0, within)
        } else {
            Some(illegal_namespace_model())
        },
        _ => Some(illegal_namespace_model()),
    }
}

#[via_fn]
proof fn namespace_error_decreases(v: Val, within: Seq<Seq<char>>) {
    match v {
        Val::Obj(m) => {
            lemma_for_in_size(m);
        },
        _ => {},
    }
}

/// What is wrong with the entries of a namespace from `i` on.
pub open spec fn styles_error(e: Seq<(Seq<char>, Val)>, i: int, within: Seq<Seq<char>>) -> Option<
    ErrorModel,
>
    decreases total_size(e), e.len() - i,
    via styles_error_decreases
{
    if i < 0 || i >= e.len() {
        None
    } else {
        let (key, v) = e[i];
        let wrong = match v {
            Val::Null | Val::Str(_) | Val::Num(_) => None,
            Val::Arr(items) => if plain_values(items) {
                None
            } else {
                Some(illegal_prop_array_model())
            },
            Val::Obj(m) => if !plain(m.entries) {
                Some(illegal_prop_model())
            } else if !condition_key(key) {
                conditions_error(for_in(m), 0, Seq::empty())
            } else if within.contains(key) {
                Some(duplicate_conditional_model())
            } else {
                namespace_error(v, within.push(key))
            },
            _ => Some(illegal_prop_model()),
        };
        match wrong {
            Some(x) => Some(x),
            None => styles_error(e, i + 1, within),
        }
    }
}

#[via_fn]
proof fn styles_error_decreases(e: Seq<(Seq<char>, Val)>, i: int, within: Seq<Seq<char>>) {
    if 0 <= i < e.len() {
        lemma_entry_smaller(e, i);
    }
}

/// What is wrong with the conditions of a property from `i` on.
pub open spec fn conditions_error(
    e: Seq<(Seq<char>, Val)>,
    i: int,
    within: Seq<Seq<char>>,
) -> Option<ErrorModel>
    decreases total_size(e), e.len() - i,
    via conditions_error_decreases
{
    if i < 0 || i >= e.len() {
        None
    } else {
        let (key, v) = e[i];
        let wrong = if !(condition_key(key) || has_prefix(key, "var(--"@) || key == "default"@) {
            Some(invalid_condition_model())
        } else if within.contains(key) {
            Some(duplicate_conditional_model())
        } else {
            match v {
                Val::Null | Val::Str(_) | Val::Num(_) => None,
                Val::Arr(items) => if plain_values(items) {
                    None
                } else {
                    Some(illegal_prop_model())
                },
                Val::Obj(m) => if plain(m.entries) {
                    conditions_error(for_in(m), 0, within.push(key))
                } else {
                    Some(illegal_prop_model())
                },
                _ => Some(illegal_prop_model()),
            }
        };
        match wrong {
            Some(x) => Some(x),
            None => conditions_error(e, i + 1, within),
        }
    }
}

#[via_fn]
proof fn conditions_error_decreases(e: Seq<(Seq<char>, Val)>, i: int, within: Seq<Seq<char>>) {
    if 0 <= i < e.len() {
        lemma_entry_smaller(e, i);
        match e[i].1 {
            Val::Obj(m) => {
                lemma_for_in_size(m);
            },
            _ => {},
        }
    }
}

/// Whether an outcome is the given error, or success where there is none.
pub open spec fn fails_as(r: Result<(), StylexError>, e: Option<ErrorModel>) -> bool {
    match r {
        Ok(_) => e is None,
        Err(x) => e == Some(x.model()),
    }
}

fn is_condition_key(key: &str) -> (r: bool)
    ensures
        r == condition_key(key@),
{
    starts_with(key, "@") || starts_with(key, ":") || starts_with(key, "[")
}

fn all_plain_values(items: &Vec<EvalValue>, Ghost(all): Ghost<Seq<Val>>) -> (r: bool)
    requires
        all.len() == items@.len(),
        forall|i: int| 0 <= i < all.len() ==> all[i] == #[trigger] items@[i].model(),
    ensures
        r == plain_values(all),
{
    let mut i: usize = 0;
    while i < items.len()
        invariant
            all.len() == items@.len(),
            forall|j: int| 0 <= j < all.len() ==> all[j] == #[trigger] items@[j].model(),
            i <= items@.len(),
            forall|j: int| 0 <= j < i ==> plain_value(#[trigger] all[j]),
        decreases items@.len() - i,
    {
        assert(all[i as int] == items@[i as int].model());
        match &items[i] {
            EvalValue::Null => {},
            EvalValue::Str(_) => {},
            EvalValue::Num(_) => {},
            _ => {
                assert(!plain_value(all[i as int]));
                return false;
            },
        }
        i += 1;
    }
    true
}

/// Whether a text is among others.
pub fn encloses(conditions: &Vec<String>, key: &str) -> (r: bool)
    ensures
        r == texts(conditions@).contains(key@),
{
    let mut i: usize = 0;
    while i < conditions.len()
        invariant
            i <= conditions@.len(),
            forall|j: int| 0 <= j < i ==> (#[trigger] conditions@[j])@ != key@,
        decreases conditions@.len() - i,
    {
        if str_eq(conditions[i].as_str(), key) {
            assert(texts(conditions@)[i as int] == key@);
            return true;
        }
        i += 1;
    }
    proof {
        assert forall|j: int| 0 <= j < conditions@.len() implies #[trigger] texts(conditions@)[j]
            != key@ by {
            assert(conditions@[j]@ != key@);
        }
    }
    false
}

fn with_key(path: &Vec<String>, key: &str) -> (r: Vec<String>)
    ensures
        texts(r@) == texts(path@).push(key@),
{
    let mut out = copy_texts(path);
    out.push(key.to_owned());
    proof {
        assert(texts(out@) =~= texts(path@).push(key@));
    }
    out
}

/// A copy of texts.
pub fn copy_texts(v: &Vec<String>) -> (r: Vec<String>)
    ensures
        texts(r@) == texts(v@),
        r@.len() == v@.len(),
        forall|j: int| 0 <= j < v@.len() ==> (#[trigger] r@[j])@ == v@[j]@,
{
    let mut out: Vec<String> = Vec::new();
    let mut i: usize = 0;
    while i < v.len()
        invariant
            i <= v@.len(),
            out@.len() == i,
            forall|j: int| 0 <= j < i ==> (#[trigger] out@[j])@ == v@[j]@,
        decreases v@.len() - i,
    {
        out.push(v[i].clone());
        i += 1;
    }
    proof {
        assert(texts(out@) =~= texts(v@));
    }
    out
}

/// Checks the styles of a namespace.
pub fn validate_namespace(namespace: &EvalValue) -> (r: Result<(), StylexError>)
    ensures
        fails_as(r, namespace_error(namespace.model(), Seq::empty())),
{
    let none: Vec<String> = Vec::new();
    proof {
        assert(texts(none@) =~= Seq::<Seq<char>>::empty());
    }
    validate_namespace_in(namespace, &none)
}

fn validate_namespace_in(namespace: &EvalValue, conditions: &Vec<String>) -> (r: Result<
    (),
    StylexError,
>)
    ensures
        fails_as(r, namespace_error(namespace.model(), texts(conditions@))),
    decreases val_size(namespace.model()),
{
    let ns = match namespace {
        EvalValue::Obj(ns) => ns,
        _ => {
            return Err(StylexError::illegal_namespace_value());
        },
    };
    if !is_plain(ns) {
        return Err(StylexError::illegal_namespace_value());
    }
    let entries = for_in_entries(ns);
    let ghost e = for_in(ns.model());
    let ghost within = texts(conditions@);
    proof {
        lemma_for_in_size(ns.model());
    }
    let mut i: usize = 0;
    while i < entries.len()
        invariant
            e == entry_models(entries@),
            total_size(e) < val_size(namespace.model()),
            within == texts(conditions@),
            i <= entries@.len(),
            namespace_error(namespace.model(), within) == styles_error(e, i as int, within),
        decreases entries@.len() - i,
    {
        let (key, val) = entries[i];
        proof {
            assert(e[i as int] == (key@, val.model()));
            lemma_entry_smaller(e, i as int);
        }
        match val {
            EvalValue::Null => {},
            EvalValue::Str(_) => {},
            EvalValue::Num(_) => {},
            EvalValue::Arr(items) => {
                if !all_plain_values(items, Ghost(val.model()->Arr_0)) {
                    return Err(StylexError::illegal_prop_array_value());
                }
            },
            EvalValue::Obj(inner) => {
                if !is_plain(inner) {
                    return Err(StylexError::illegal_prop_value());
                }
                if is_condition_key(key) {
                    if encloses(conditions, key) {
                        return Err(StylexError::duplicate_conditional());
                    }
                    let nested = with_key(conditions, key);
                    match validate_namespace_in(val, &nested) {
                        Ok(_) => {},
                        Err(x) => {
                            return Err(x);
                        },
                    }
                } else {
                    let none: Vec<String> = Vec::new();
                    proof {
                        assert(texts(none@) =~= Seq::<Seq<char>>::empty());
                    }
                    match validate_conditional_styles(inner, &none) {
                        Ok(_) => {},
                        Err(x) => {
                            return Err(x);
                        },
                    }
                }
            },
            _ => {
                return Err(StylexError::illegal_prop_value());
            },
        }
        i += 1;
    }
    Ok(())
}

fn validate_conditional_styles(obj: &JsObjectMap, conditions: &Vec<String>) -> (r:
    Result<(), StylexError>)
    ensures
        fails_as(r, conditions_error(for_in(obj.model()), 0, texts(conditions@))),
    decreases total_size(for_in(obj.model())),
{
    let entries = for_in_entries(obj);
    let ghost e = for_in(obj.model());
    let ghost within = texts(conditions@);
    let mut i: usize = 0;
    while i < entries.len()
        invariant
            e == entry_models(entries@),
            e == for_in(obj.model()),
            within == texts(conditions@),
            i <= entries@.len(),
            conditions_error(e, 0, within) == conditions_error(e, i as int, within),
        decreases entries@.len() - i,
    {
        let (key, val) = entries[i];
        proof {
            assert(e[i as int] == (key@, val.model()));
            lemma_entry_smaller(e, i as int);
        }
        if !(is_condition_key(key) || starts_with(key, "var(--") || str_eq(key, "default")) {
            return Err(StylexError::invalid_pseudo_or_at_rule());
        }
        if encloses(conditions, key) {
            return Err(StylexError::duplicate_conditional());
        }
        match val {
            EvalValue::Null => {},
            EvalValue::Str(_) => {},
            EvalValue::Num(_) => {},
            EvalValue::Arr(items) => {
                if !all_plain_values(items, Ghost(val.model()->Arr_0)) {
                    return Err(StylexError::illegal_prop_value());
                }
            },
            EvalValue::Obj(inner) => {
                if !is_plain(inner) {
                    return Err(StylexError::illegal_prop_value());
                }
                proof {
                    lemma_for_in_size(inner.model());
                }
                let nested = with_key(conditions, key);
                match validate_conditional_styles(inner, &nested) {
                    Ok(_) => {},
                    Err(x) => {
                        return Err(x);
                    },
                }
            },
            _ => {
                return Err(StylexError::illegal_prop_value());
            },
        }
        i += 1;
    }
    Ok(())
}

/// Whether a character may stand in the name of a variable that is unwrapped.
pub open spec fn small_or_digit(c: char) -> bool {
    ('a' <= c && c <= 'z') || digit(c)
}

/// Whether a use of a variable stands at `p` and ends before `q`.
pub open spec fn var_use(s: Seq<char>, p: int, q: int) -> bool {
    &&& at_pos(s, "var(--"@, p)
    &&& p + 6 < q < s.len()
    &&& s[q] == ')'
    &&& forall|j: int| p + 6 <= j < q ==> small_or_digit(#[trigger] s[j])
}

/// The property that a key names: a key that uses a variable somewhere loses its
/// first four units and its last one.
pub open spec fn unwrapped(key: Seq<char>) -> Seq<char> {
    if exists|p: int, q: int| var_use(key, p, q) {
        sliced(key, 4)
    } else {
        key
    }
}

fn skip_name(s: &[char], from: usize) -> (r: usize)
    requires
        from <= s@.len(),
    ensures
        from <= r <= s@.len(),
        forall|j: int| from <= j < r ==> small_or_digit(#[trigger] s@[j]),
        r < s@.len() ==> !small_or_digit(s@[r as int]),
{
    let mut i: usize = from;
    while i < s.len() && (('a' <= s[i] && s[i] <= 'z') || is_digit(s[i]))
        invariant
            from <= i <= s@.len(),
            forall|j: int| from <= j < i ==> small_or_digit(#[trigger] s@[j]),
        decreases s@.len() - i,
    {
        i += 1;
    }
    i
}

/// Gives the property that a key names.
pub fn unwrap_var_key(key: &str) -> (r: String)
    ensures
        r@ == unwrapped(key@),
{
    let s = chars_of(key);
    let n: usize = char_count(&s);
    let var = chars_of("var(--");
    proof {
        reveal_strlit("var(--");
    }
    let mut p: usize = 0;
    while p < n
        invariant
            s@ == key@,
            n == s@.len(),
            4 * n <= isize::MAX,
            var@ == "var(--"@,
            var@.len() == 6,
            p <= n,
            forall|i: int, q: int| 0 <= i < p ==> !var_use(s@, i, q),
        decreases n - p,
    {
        if stands_at(&s, &var, p) {
            let end: usize = skip_name(&s, p + 6);
            if end > p + 6 && end < n && s[end] == ')' {
                proof {
                    assert(var_use(key@, p as int, end as int));
                }
                return slice_utf16(key, 4);
            }
            proof {
                assert forall|q: int| !var_use(s@, p as int, q) by {
                    if var_use(s@, p as int, q) {
                        if q < end {
                            assert(small_or_digit(s@[q]));
                        } else if q > end {
                            assert(small_or_digit(s@[end as int]));
                        }
                    }
                }
            }
        }
        p += 1;
    }
    proof {
        assert forall|i: int, q: int| !var_use(key@, i, q) by {
            if var_use(key@, i, q) {
                assert(0 <= i < n);
            }
        }
    }
    key.to_owned()
}

/// A rule that has not been compiled: none, one declaration, or several rules under
/// different conditions.
#[derive(Debug, PartialEq)]
pub enum PreRule {
    Null,
    Rule { property: String, value: PreRuleValue, key_path: Option<Vec<String>> },
    Rules(Vec<PreRule>),
}

/// What a rule that has not been compiled is, mathematically.
#[verifier::ext_equal]
pub enum PreRuleModel {
    Null,
    Rule(Seq<char>, PreRuleValueModel, Option<Seq<Seq<char>>>),
    Rules(Seq<PreRuleModel>),
}

/// What an optional path is, mathematically.
pub open spec fn opt_path(o: Option<Vec<String>>) -> Option<Seq<Seq<char>>> {
    match o {
        Some(v) => Some(texts(v@)),
        None => None,
    }
}

impl PreRule {
    /// What the rule is, mathematically.
    pub open spec fn model(self) -> PreRuleModel
        decreases self,
    {
        match self {
            PreRule::Null => PreRuleModel::Null,
            PreRule::Rule { property, value, key_path } => PreRuleModel::Rule(
                property@,
                value.model(),
                opt_path(key_path),
            ),
            PreRule::Rules(v) => PreRuleModel::Rules(
                Seq::new(
                    v@.len(),
                    |i: int|
                        if 0 <= i < v@.len() {
                            v@[i].model()
                        } else {
                            arbitrary()
                        },
                ),
            ),
        }
    }
}

/// What rules are, mathematically.
pub open spec fn pre_rule_models(v: Seq<PreRule>) -> Seq<PreRuleModel> {
    Seq::new(v.len(), |i: int| v[i].model())
}

/// The first `k` rules, with the rules of a set in its place.
pub open spec fn spread_upto(rules: Seq<PreRuleModel>, k: int) -> Seq<PreRuleModel>
    decreases k,
{
    if k <= 0 {
        Seq::empty()
    } else {
        spread_upto(rules, k - 1) + match rules[k - 1] {
            PreRuleModel::Rules(inner) => inner,
            other => seq![other],
        }
    }
}

/// Several rules as one.
pub open spec fn set_of(rules: Seq<PreRuleModel>) -> PreRuleModel {
    let all = spread_upto(rules, rules.len() as int);
    if all.len() == 0 {
        PreRuleModel::Null
    } else if all.len() == 1 {
        all[0]
    } else {
        PreRuleModel::Rules(all)
    }
}

/// The value that a declaration has of a plain value.
pub open spec fn scalar_of_val(v: Val) -> Option<ScalarModel> {
    match v {
        Val::Str(s) => Some(ScalarModel::Str(s)),
        Val::Num(n) => Some(ScalarModel::Num(n)),
        _ => None,
    }
}

fn scalar_of(value: &EvalValue) -> (r: Option<StyleScalar>)
    ensures
        opt_scalar(r) == scalar_of_val(value.model()),
{
    match value {
        EvalValue::Str(s) => Some(StyleScalar::Str(s.clone())),
        EvalValue::Num(n) => Some(StyleScalar::Num(*n)),
        _ => None,
    }
}

/// The declarations that a property with a plain value stands for.
#[verifier::opaque]
pub open spec fn declarations(key: Seq<char>, v: Val, options: ResolvedOptions) -> Result<
    Seq<PairModel>,
    ErrorModel,
> {
    expanded(
        key,
        scalar_of_val(v),
        false,
        options.style_resolution,
        options.property_validation_mode,
    )
}

fn expand(key: &str, value: &EvalValue, options: &ResolvedOptions) -> (r: Result<
    Vec<ExpandedPair>,
    StylexError,
>)
    ensures
        pairs_result(r) == declarations(key@, value.model(), *options),
{
    proof {
        reveal(declarations);
    }
    flat_map_expanded_shorthands(key, scalar_of(value), false, options)
}

/// The path of a rule: the property takes the place of the key that it came from, or
/// the end where the key is not in the path.
pub open spec fn rule_path(
    path: Seq<Seq<char>>,
    key: Seq<char>,
    property: Seq<char>,
) -> Option<Seq<Seq<char>>> {
    if path.len() == 0 {
        None
    } else if path.contains(key) {
        Some(
            Seq::new(
                path.len(),
                |i: int|
                    if path[i] == key {
                        property
                    } else {
                        path[i]
                    },
            ),
        )
    } else {
        Some(path.push(property))
    }
}

fn rule_key_path(key_path: &Vec<String>, key: &str, property: &str) -> (r: Option<Vec<String>>)
    ensures
        opt_path(r) == rule_path(texts(key_path@), key@, property@),
{
    let ghost path = texts(key_path@);
    if key_path.len() == 0 {
        return None;
    }
    if !encloses(key_path, key) {
        return Some(with_key(key_path, property));
    }
    let mut out: Vec<String> = Vec::new();
    let mut i: usize = 0;
    while i < key_path.len()
        invariant
            path == texts(key_path@),
            i <= key_path@.len(),
            out@.len() == i,
            forall|j: int|
                0 <= j < i ==> (#[trigger] out@[j])@ == if path[j] == key@ {
                    property@
                } else {
                    path[j]
                },
        decreases key_path@.len() - i,
    {
        assert(path[i as int] == key_path@[i as int]@);
        if str_eq(key_path[i].as_str(), key) {
            out.push(property.to_owned());
        } else {
            out.push(key_path[i].clone());
        }
        i += 1;
    }
    proof {
        assert(texts(out@) =~= rule_path(path, key@, property@)->0);
    }
    Some(out)
}

/// Rules under the keys that they compile to.
pub type FlatModel = Seq<(Seq<char>, PreRuleModel)>;

/// What rules under their keys are, mathematically.
pub open spec fn flat_models(v: Seq<(String, PreRule)>) -> FlatModel {
    Seq::new(v.len(), |i: int| (v[i].0@, v[i].1.model()))
}

/// What flattening gives, mathematically.
pub open spec fn flat_result(r: Result<Vec<(String, PreRule)>, StylexError>) -> Result<
    FlatModel,
    ErrorModel,
> {
    match r {
        Ok(v) => Ok(flat_models(v@)),
        Err(e) => Err(e.model()),
    }
}

/// The rule of a declaration; no value unsets the property.
pub open spec fn pair_rule(p: PairModel, path: Seq<Seq<char>>, key: Seq<char>) -> PreRuleModel {
    match p.1 {
        Some(v) => PreRuleModel::Rule(
            p.0,
            PreRuleValueModel::Single(v),
            rule_path(path, key, p.0),
        ),
        None => PreRuleModel::Null,
    }
}

/// The rules of a property with one plain value.
pub open spec fn leaf_rules(
    key: Seq<char>,
    v: Val,
    path: Seq<Seq<char>>,
    options: ResolvedOptions,
) -> Result<FlatModel, ErrorModel> {
    match declarations(key, v, options) {
        Ok(pairs) => Ok(Seq::new(pairs.len(), |i: int| (pairs[i].0, pair_rule(pairs[i], path, key)))),
        Err(e) => Err(e),
    }
}

fn flatten_leaf(key: &str, value: &EvalValue, key_path: &Vec<String>, options: &ResolvedOptions) -> (r:
    Result<Vec<(String, PreRule)>, StylexError>)
    ensures
        flat_result(r) == leaf_rules(key@, value.model(), texts(key_path@), *options),
{
    let pairs = match expand(key, value, options) {
        Ok(v) => v,
        Err(e) => {
            return Err(e);
        },
    };
    let ghost all = pair_models(pairs@);
    let ghost path = texts(key_path@);
    let mut out: Vec<(String, PreRule)> = Vec::new();
    let mut i: usize = 0;
    while i < pairs.len()
        invariant
            all == pair_models(pairs@),
            path == texts(key_path@),
            i <= pairs@.len(),
            out@.len() == i,
            forall|j: int|
                0 <= j < i ==> (#[trigger] out@[j]).0@ == all[j].0 && out@[j].1.model()
                    == pair_rule(all[j], path, key@),
        decreases pairs@.len() - i,
    {
        let (property, expanded) = &pairs[i];
        assert(all[i as int] == (property@, opt_scalar(*expanded)));
        let rule = match expanded {
            None => PreRule::Null,
            Some(v) => PreRule::Rule {
                property: property.clone(),
                value: PreRuleValue::Single(v.clone()),
                key_path: rule_key_path(key_path, key, property.as_str()),
            },
        };
        out.push((property.clone(), rule));
        i += 1;
    }
    proof {
        assert(flat_models(out@) =~= leaf_rules(key@, value.model(), path, *options)->Ok_0);
    }
    Ok(out)
}

/// Values under the properties that they are for.
pub type ValuesModel = Seq<(Seq<char>, Seq<ScalarModel>)>;

/// The values after a declaration was added to those of its property.
pub open spec fn with_pair(groups: ValuesModel, p: PairModel) -> ValuesModel {
    let before = match value_of(groups, p.0) {
        Some(v) => v,
        None => Seq::empty(),
    };
    append_put(
        groups,
        p.0,
        match p.1 {
            Some(v) => before.push(v),
            None => before,
        },
    )
}

/// The values after the first `k` declarations were added.
pub open spec fn with_pairs(groups: ValuesModel, pairs: Seq<PairModel>, k: int) -> ValuesModel
    decreases k,
{
    if k <= 0 {
        groups
    } else {
        with_pair(with_pairs(groups, pairs, k - 1), pairs[k - 1])
    }
}

/// The values that the first `k` items of an array give to each property.
pub open spec fn grouped_upto(
    key: Seq<char>,
    items: Seq<Val>,
    options: ResolvedOptions,
    k: int,
) -> Result<ValuesModel, ErrorModel>
    decreases k,
{
    if k <= 0 {
        Ok(Seq::empty())
    } else {
        match grouped_upto(key, items, options, k - 1) {
            Err(e) => Err(e),
            Ok(groups) => match declarations(key, items[k - 1], options) {
                Ok(pairs) => Ok(with_pairs(groups, pairs, pairs.len() as int)),
                Err(e) => Err(e),
            },
        }
    }
}

/// Whether a value counts as true.
pub open spec fn truthy(v: ScalarModel) -> bool {
    match v {
        ScalarModel::Str(s) => s.len() > 0,
        ScalarModel::Num(n) => n.magnitude() != 0 && !n.nan(),
        ScalarModel::Undefined => false,
    }
}

/// Whether two values are the same, as a set would have it.
pub open spec fn same_scalar(a: ScalarModel, b: ScalarModel) -> bool {
    match (a, b) {
        (ScalarModel::Str(x), ScalarModel::Str(y)) => x == y,
        (ScalarModel::Num(x), ScalarModel::Num(y)) => x.same(y) || (x.nan() && y.nan()),
        (ScalarModel::Undefined, ScalarModel::Undefined) => true,
        _ => false,
    }
}

/// The true ones among the first `k` values, each once.
pub open spec fn distinct_upto(v: Seq<ScalarModel>, k: int) -> Seq<ScalarModel>
    decreases k,
{
    if k <= 0 {
        Seq::empty()
    } else {
        let done = distinct_upto(v, k - 1);
        if truthy(v[k - 1]) && !(exists|i: int|
            0 <= i < done.len() && same_scalar(#[trigger] done[i], v[k - 1])) {
            done.push(v[k - 1])
        } else {
            done
        }
    }
}

/// The rule of a property with values to fall back on.
pub open spec fn values_rule(
    property: Seq<char>,
    values: Seq<ScalarModel>,
    path: Seq<Seq<char>>,
    key: Seq<char>,
) -> PreRuleModel {
    let v = distinct_upto(values, values.len() as int);
    if v.len() == 0 {
        PreRuleModel::Null
    } else if v.len() == 1 {
        PreRuleModel::Rule(
            property,
            PreRuleValueModel::Single(v[0]),
            rule_path(path, key, property),
        )
    } else {
        PreRuleModel::Rule(property, PreRuleValueModel::Multi(v), rule_path(path, key, property))
    }
}

/// The rules of a property with an array of values. `from` is the key in the path
/// that the properties take the place of.
pub open spec fn array_rules(
    key: Seq<char>,
    from: Seq<char>,
    items: Seq<Val>,
    path: Seq<Seq<char>>,
    options: ResolvedOptions,
) -> Result<FlatModel, ErrorModel> {
    match grouped_upto(key, items, options, items.len() as int) {
        Ok(groups) => Ok(
            Seq::new(
                groups.len(),
                |i: int| (groups[i].0, values_rule(groups[i].0, groups[i].1, path, from)),
            ),
        ),
        Err(e) => Err(e),
    }
}

fn js_truthy(scalar: &StyleScalar) -> (r: bool)
    ensures
        r == truthy(scalar.model()),
{
    match scalar {
        StyleScalar::Str(s) => {
            let n: usize = chars_of(s.as_str()).len();
            n > 0
        },
        StyleScalar::Num(n) => !n.is_zero() && !n.is_nan(),
        StyleScalar::Undefined => false,
    }
}

fn same_value_zero(a: &StyleScalar, b: &StyleScalar) -> (r: bool)
    ensures
        r == same_scalar(a.model(), b.model()),
{
    match (a, b) {
        (StyleScalar::Str(x), StyleScalar::Str(y)) => str_eq(x.as_str(), y.as_str()),
        (StyleScalar::Num(x), StyleScalar::Num(y)) => x.equals(*y) || (x.is_nan() && y.is_nan()),
        (StyleScalar::Undefined, StyleScalar::Undefined) => true,
        _ => false,
    }
}

/// What values are, mathematically.
pub open spec fn value_models(v: Seq<StyleScalar>) -> Seq<ScalarModel> {
    Seq::new(v.len(), |i: int| v[i].model())
}

/// What values under their properties are, mathematically.
pub open spec fn values_models(v: Seq<(String, Vec<StyleScalar>)>) -> ValuesModel {
    Seq::new(v.len(), |i: int| (v[i].0@, value_models(v[i].1@)))
}

fn distinct(values: &Vec<StyleScalar>) -> (r: Vec<StyleScalar>)
    ensures
        value_models(r@) == distinct_upto(value_models(values@), values@.len() as int),
{
    let ghost all = value_models(values@);
    let mut out: Vec<StyleScalar> = Vec::new();
    proof {
        assert(value_models(out@) =~= Seq::<ScalarModel>::empty());
    }
    let mut i: usize = 0;
    while i < values.len()
        invariant
            all == value_models(values@),
            i <= values@.len(),
            value_models(out@) == distinct_upto(all, i as int),
        decreases values@.len() - i,
    {
        let ghost done = value_models(out@);
        let mut seen = false;
        let mut j: usize = 0;
        while j < out.len()
            invariant
                i < values@.len(),
                all == value_models(values@),
                done == value_models(out@),
                j <= out@.len(),
                seen == exists|k: int| 0 <= k < j && same_scalar(#[trigger] done[k], all[i as int]),
            decreases out@.len() - j,
        {
            assert(done[j as int] == out@[j as int].model());
            if same_value_zero(&out[j], &values[i]) {
                seen = true;
            }
            j += 1;
        }
        if js_truthy(&values[i]) && !seen {
            out.push(values[i].clone());
            proof {
                assert(value_models(out@) =~= done.push(all[i as int]));
            }
        }
        i += 1;
    }
    out
}

fn add_pair(groups: &mut Vec<(String, Vec<StyleScalar>)>, pair: &ExpandedPair)
    ensures
        values_models(final(groups)@) == with_pair(
            values_models(old(groups)@),
            (pair.0@, opt_scalar(pair.1)),
        ),
{
    let ghost before = values_models(groups@);
    let at: usize = position_of(groups, pair.0.as_str());
    proof {
        assert(keys_of(before) =~= item_keys(groups@));
        lemma_find_key(keys_of(before), pair.0@, 0);
    }
    if at < groups.len() {
        if let Some(v) = &pair.1 {
            let (name, mut values) = groups.remove(at);
            let ghost vs = value_models(values@);
            values.push(v.clone());
            proof {
                assert(value_models(values@) =~= vs.push(v.model()));
            }
            groups.insert(at, (name, values));
            proof {
                assert(values_models(groups@) =~= before.update(
                    at as int,
                    (before[at as int].0, vs.push(v.model())),
                ));
            }
        } else {
            proof {
                assert(before.update(at as int, (before[at as int].0, before[at as int].1))
                    =~= before);
            }
        }
    } else {
        let mut values: Vec<StyleScalar> = Vec::new();
        proof {
            assert(value_models(values@) =~= Seq::<ScalarModel>::empty());
        }
        if let Some(v) = &pair.1 {
            values.push(v.clone());
            proof {
                assert(value_models(values@) =~= Seq::<ScalarModel>::empty().push(v.model()));
            }
        }
        let ghost vs = value_models(values@);
        groups.push((pair.0.clone(), values));
        proof {
            assert(values_models(groups@) =~= before.push((pair.0@, vs)));
        }
    }
}

fn group_values(
    key: &str,
    items: &Vec<EvalValue>,
    options: &ResolvedOptions,
    Ghost(all): Ghost<Seq<Val>>,
) -> (r: Result<Vec<(String, Vec<StyleScalar>)>, StylexError>)
    requires
        all.len() == items@.len(),
        forall|i: int| 0 <= i < all.len() ==> all[i] == #[trigger] items@[i].model(),
    ensures
        match r {
            Ok(v) => grouped_upto(key@, all, *options, all.len() as int) == Ok::<
                ValuesModel,
                ErrorModel,
            >(values_models(v@)),
            Err(e) => grouped_upto(key@, all, *options, all.len() as int) == Err::<
                ValuesModel,
                ErrorModel,
            >(e.model()),
        },
{
    let mut groups: Vec<(String, Vec<StyleScalar>)> = Vec::new();
    proof {
        assert(values_models(groups@) =~= Seq::<(Seq<char>, Seq<ScalarModel>)>::empty());
    }
    let mut i: usize = 0;
    while i < items.len()
        invariant
            all.len() == items@.len(),
            forall|j: int| 0 <= j < all.len() ==> all[j] == #[trigger] items@[j].model(),
            i <= items@.len(),
            grouped_upto(key@, all, *options, i as int) == Ok::<ValuesModel, ErrorModel>(
                values_models(groups@),
            ),
        decreases items@.len() - i,
    {
        assert(all[i as int] == items@[i as int].model());
        let pairs = match expand(key, &items[i], options) {
            Ok(v) => v,
            Err(e) => {
                proof {
                    lemma_group_failure(key@, all, *options, i + 1, all.len() as int);
                }
                return Err(e);
            },
        };
        let ghost start = values_models(groups@);
        let ghost ps = pair_models(pairs@);
        let mut j: usize = 0;
        while j < pairs.len()
            invariant
                ps == pair_models(pairs@),
                j <= pairs@.len(),
                values_models(groups@) == with_pairs(start, ps, j as int),
            decreases pairs@.len() - j,
        {
            assert(ps[j as int] == (pairs@[j as int].0@, opt_scalar(pairs@[j as int].1)));
            add_pair(&mut groups, &pairs[j]);
            j += 1;
        }
        i += 1;
    }
    Ok(groups)
}

proof fn lemma_group_failure(
    key: Seq<char>,
    items: Seq<Val>,
    options: ResolvedOptions,
    i: int,
    k: int,
)
    requires
        0 <= i <= k,
        grouped_upto(key, items, options, i) is Err,
    ensures
        grouped_upto(key, items, options, k) == grouped_upto(key, items, options, i),
    decreases k,
{
    if i < k {
        lemma_group_failure(key, items, options, i, k - 1);
    }
}

fn flatten_array(
    key: &str,
    from: &str,
    items: &Vec<EvalValue>,
    key_path: &Vec<String>,
    options: &ResolvedOptions,
    Ghost(all): Ghost<Seq<Val>>,
) -> (r: Result<Vec<(String, PreRule)>, StylexError>)
    requires
        all.len() == items@.len(),
        forall|i: int| 0 <= i < all.len() ==> all[i] == #[trigger] items@[i].model(),
    ensures
        flat_result(r) == array_rules(key@, from@, all, texts(key_path@), *options),
{
    let groups = match group_values(key, items, options, Ghost(all)) {
        Ok(v) => v,
        Err(e) => {
            return Err(e);
        },
    };
    let ghost gs = values_models(groups@);
    let ghost path = texts(key_path@);
    let mut out: Vec<(String, PreRule)> = Vec::new();
    let mut i: usize = 0;
    while i < groups.len()
        invariant
            gs == values_models(groups@),
            path == texts(key_path@),
            i <= groups@.len(),
            out@.len() == i,
            forall|j: int|
                0 <= j < i ==> (#[trigger] out@[j]).0@ == gs[j].0 && out@[j].1.model()
                    == values_rule(gs[j].0, gs[j].1, path, from@),
        decreases groups@.len() - i,
    {
        let (property, values) = &groups[i];
        assert(gs[i as int] == (property@, value_models(values@)));
        let mut deduped = distinct(values);
        let ghost ds = value_models(deduped@);
        let rule = if deduped.len() == 0 {
            PreRule::Null
        } else {
            let path = rule_key_path(key_path, from, property.as_str());
            let value = if deduped.len() == 1 {
                assert(ds[0] == deduped@[0].model());
                PreRuleValue::Single(deduped.remove(0))
            } else {
                PreRuleValue::Multi(deduped)
            };
            proof {
                if ds.len() > 1 {
                    assert(value.model()->Multi_0 =~= ds);
                }
            }
            PreRule::Rule { property: property.clone(), value, key_path: path }
        };
        out.push((property.clone(), rule));
        i += 1;
    }
    proof {
        assert(flat_models(out@) =~= array_rules(key@, from@, all, path, *options)->Ok_0);
    }
    Ok(out)
}

/// Rules under their conditions, under the properties that they are for.
pub type GroupsModel = Seq<(Seq<char>, FlatModel)>;

/// The groups after the rule of a property under a condition was added. A rule that
/// was there under the same condition is replaced.
pub open spec fn with_rule(
    groups: GroupsModel,
    condition: Seq<char>,
    p: (Seq<char>, PreRuleModel),
) -> GroupsModel {
    let before = match value_of(groups, p.0) {
        Some(v) => v,
        None => Seq::empty(),
    };
    append_put(groups, p.0, append_put(before, condition, p.1))
}

/// The groups after the first `k` rules under a condition were added.
pub open spec fn with_rules(
    groups: GroupsModel,
    condition: Seq<char>,
    flat: FlatModel,
    k: int,
) -> GroupsModel
    decreases k,
{
    if k <= 0 {
        groups
    } else {
        with_rule(with_rules(groups, condition, flat, k - 1), condition, flat[k - 1])
    }
}

/// The rules of each group as one.
pub open spec fn sets_of(groups: GroupsModel) -> FlatModel {
    Seq::new(
        groups.len(),
        |i: int|
            (
                groups[i].0,
                set_of(Seq::new(groups[i].1.len(), |j: int| groups[i].1[j].1)),
            ),
    )
}

/// The rules of a property under the first `k` of its conditions.
pub open spec fn conditions_upto(
    key: Seq<char>,
    e: Seq<(Seq<char>, Val)>,
    path: Seq<Seq<char>>,
    options: ResolvedOptions,
    k: int,
) -> Result<GroupsModel, ErrorModel>
    decreases total_size(e), k,
    via conditions_upto_decreases
{
    if k <= 0 || k > e.len() {
        Ok(Seq::empty())
    } else {
        match conditions_upto(key, e, path, options, k - 1) {
            Err(x) => Err(x),
            Ok(groups) => match value_rules(key, e[k - 1].1, path.push(e[k - 1].0), options) {
                Ok(flat) => Ok(with_rules(groups, e[k - 1].0, flat, flat.len() as int)),
                Err(x) => Err(x),
            },
        }
    }
}

#[via_fn]
proof fn conditions_upto_decreases(
    key: Seq<char>,
    e: Seq<(Seq<char>, Val)>,
    path: Seq<Seq<char>>,
    options: ResolvedOptions,
    k: int,
) {
    if 0 < k <= e.len() {
        lemma_entry_smaller(e, k - 1);
    }
}

/// The rules of a property with the given value.
pub open spec fn value_rules(
    key: Seq<char>,
    v: Val,
    path: Seq<Seq<char>>,
    options: ResolvedOptions,
) -> Result<FlatModel, ErrorModel>
    decreases val_size(v), 0int,
    via value_rules_decreases
{
    match v {
        Val::Null | Val::Str(_) | Val::Num(_) => leaf_rules(key, v, path, options),
        Val::Arr(items) => array_rules(key, key, items, path, options),
        Val::Obj(m) => match conditions_upto(
            key,
            for_in(m),
            path,
            options,
            for_in(m).len() as int,
        ) {
            Ok(groups) => Ok(sets_of(groups)),
            Err(x) => Err(x),
        },
        _ => Ok(Seq::empty()),
    }
}

#[via_fn]
proof fn value_rules_decreases(
    key: Seq<char>,
    v: Val,
    path: Seq<Seq<char>>,
    options: ResolvedOptions,
) {
    match v {
        Val::Obj(m) => {
            lemma_for_in_size(m);
        },
        _ => {},
    }
}

/// Rules with a condition in front of their keys.
pub open spec fn under(condition: Seq<char>, flat: FlatModel) -> FlatModel {
    Seq::new(flat.len(), |i: int| (condition + "_"@ + flat[i].0, flat[i].1))
}

/// Where the conditions of a property start in its path.
pub open spec fn property_path(key: Seq<char>, path: Seq<Seq<char>>) -> Seq<Seq<char>> {
    if path.len() == 0 {
        seq![key]
    } else {
        path
    }
}

/// The rules of one entry of a style.
pub open spec fn entry_rules(
    raw: Seq<char>,
    v: Val,
    path: Seq<Seq<char>>,
    options: ResolvedOptions,
) -> Result<FlatModel, ErrorModel>
    decreases val_size(v), 0int,
    via entry_rules_decreases
{
    let key = unwrapped(raw);
    match v {
        Val::Null | Val::Str(_) | Val::Num(_) => leaf_rules(key, v, path, options),
        Val::Arr(items) => array_rules(key, raw, items, path, options),
        Val::Obj(m) => if condition_key(key) {
            match styles_upto(for_in(m), path.push(raw), options, for_in(m).len() as int) {
                Ok(flat) => Ok(under(key, flat)),
                Err(x) => Err(x),
            }
        } else {
            match conditions_upto(
                key,
                for_in(m),
                property_path(key, path),
                options,
                for_in(m).len() as int,
            ) {
                Ok(groups) => Ok(sets_of(groups)),
                Err(x) => Err(x),
            }
        },
        _ => Ok(Seq::empty()),
    }
}

#[via_fn]
proof fn entry_rules_decreases(
    raw: Seq<char>,
    v: Val,
    path: Seq<Seq<char>>,
    options: ResolvedOptions,
) {
    match v {
        Val::Obj(m) => {
            lemma_for_in_size(m);
        },
        _ => {},
    }
}

/// The rules of the first `k` entries of a style.
pub open spec fn styles_upto(
    e: Seq<(Seq<char>, Val)>,
    path: Seq<Seq<char>>,
    options: ResolvedOptions,
    k: int,
) -> Result<FlatModel, ErrorModel>
    decreases total_size(e), k,
    via styles_upto_decreases
{
    if k <= 0 || k > e.len() {
        Ok(Seq::empty())
    } else {
        match styles_upto(e, path, options, k - 1) {
            Err(x) => Err(x),
            Ok(done) => match entry_rules(e[k - 1].0, e[k - 1].1, path, options) {
                Ok(flat) => Ok(done + flat),
                Err(x) => Err(x),
            },
        }
    }
}

#[via_fn]
proof fn styles_upto_decreases(
    e: Seq<(Seq<char>, Val)>,
    path: Seq<Seq<char>>,
    options: ResolvedOptions,
    k: int,
) {
    if 0 < k <= e.len() {
        lemma_entry_smaller(e, k - 1);
    }
}

/// A style flattened into one list of rules.
pub open spec fn flattened(style: ObjModel, options: ResolvedOptions) -> Result<
    FlatModel,
    ErrorModel,
> {
    styles_upto(for_in(style), Seq::empty(), options, for_in(style).len() as int)
}

proof fn lemma_conditions_failure(
    key: Seq<char>,
    e: Seq<(Seq<char>, Val)>,
    path: Seq<Seq<char>>,
    options: ResolvedOptions,
    i: int,
    k: int,
)
    requires
        0 <= i <= k <= e.len(),
        conditions_upto(key, e, path, options, i) is Err,
    ensures
        conditions_upto(key, e, path, options, k) == conditions_upto(key, e, path, options, i),
    decreases k,
{
    if i < k {
        lemma_conditions_failure(key, e, path, options, i, k - 1);
    }
}

proof fn lemma_styles_failure(
    e: Seq<(Seq<char>, Val)>,
    path: Seq<Seq<char>>,
    options: ResolvedOptions,
    i: int,
    k: int,
)
    requires
        0 <= i <= k <= e.len(),
        styles_upto(e, path, options, i) is Err,
    ensures
        styles_upto(e, path, options, k) == styles_upto(e, path, options, i),
    decreases k,
{
    if i < k {
        lemma_styles_failure(e, path, options, i, k - 1);
    }
}

/// What groups of rules are, mathematically.
pub open spec fn groups_models(v: Seq<(String, Vec<(String, PreRule)>)>) -> GroupsModel {
    Seq::new(v.len(), |i: int| (v[i].0@, flat_models(v[i].1@)))
}

fn put_rule(rules: &mut Vec<(String, PreRule)>, condition: &str, rule: PreRule)
    ensures
        flat_models(final(rules)@) == append_put(
            flat_models(old(rules)@),
            condition@,
            rule.model(),
        ),
{
    let ghost before = flat_models(rules@);
    let ghost m = rule.model();
    let at: usize = position_of(rules, condition);
    proof {
        assert(keys_of(before) =~= item_keys(rules@));
        lemma_find_key(keys_of(before), condition@, 0);
    }
    if at < rules.len() {
        let gone = rules.remove(at);
        rules.insert(at, (gone.0, rule));
        proof {
            assert(flat_models(rules@) =~= before.update(at as int, (before[at as int].0, m)));
        }
    } else {
        rules.push((condition.to_owned(), rule));
        proof {
            assert(flat_models(rules@) =~= before.push((condition@, m)));
        }
    }
}

fn add_rule(
    groups: &mut Vec<(String, Vec<(String, PreRule)>)>,
    condition: &str,
    property: String,
    rule: PreRule,
)
    ensures
        groups_models(final(groups)@) == with_rule(
            groups_models(old(groups)@),
            condition@,
            (property@, rule.model()),
        ),
{
    let ghost before = groups_models(groups@);
    let ghost m = rule.model();
    let at: usize = position_of(groups, property.as_str());
    proof {
        assert(keys_of(before) =~= item_keys(groups@));
        lemma_find_key(keys_of(before), property@, 0);
    }
    if at < groups.len() {
        let (name, mut rules) = groups.remove(at);
        put_rule(&mut rules, condition, rule);
        let ghost rs = flat_models(rules@);
        groups.insert(at, (name, rules));
        proof {
            assert(groups_models(groups@) =~= before.update(at as int, (before[at as int].0, rs)));
        }
    } else {
        let mut rules: Vec<(String, PreRule)> = Vec::new();
        proof {
            assert(flat_models(rules@) =~= Seq::<(Seq<char>, PreRuleModel)>::empty());
        }
        put_rule(&mut rules, condition, rule);
        let ghost rs = flat_models(rules@);
        groups.push((property, rules));
        proof {
            assert(groups_models(groups@) =~= before.push((property@, rs)));
        }
    }
}

fn add_rules(
    groups: &mut Vec<(String, Vec<(String, PreRule)>)>,
    condition: &str,
    flat: Vec<(String, PreRule)>,
)
    ensures
        groups_models(final(groups)@) == with_rules(
            groups_models(old(groups)@),
            condition@,
            flat_models(flat@),
            flat@.len() as int,
        ),
{
    let ghost all = flat_models(flat@);
    let ghost start = groups_models(groups@);
    let mut rest = flat;
    let ghost mut k: int = 0;
    while rest.len() > 0
        invariant
            0 <= k <= all.len(),
            rest@.len() == all.len() - k,
            forall|j: int|
                0 <= j < rest@.len() ==> all[k + j] == ((#[trigger] rest@[j]).0@, rest@[j].1.model()),
            groups_models(groups@) == with_rules(start, condition@, all, k),
        decreases rest@.len(),
    {
        proof {
            assert(all[k + 0] == (rest@[0].0@, rest@[0].1.model()));
        }
        let ghost before = rest@;
        let (property, rule) = rest.remove(0);
        add_rule(groups, condition, property, rule);
        proof {
            k = k + 1;
            assert forall|j: int| 0 <= j < rest@.len() implies all[k + j] == (
                (#[trigger] rest@[j]).0@,
                rest@[j].1.model(),
            ) by {
                assert(rest@[j] == before[j + 1]);
                assert(all[(k - 1) + (j + 1)] == (before[j + 1].0@, before[j + 1].1.model()));
            }
        }
    }
}

impl PreRule {
    /// Makes several rules one.
    pub fn create_set(rules: Vec<PreRule>) -> (r: PreRule)
        ensures
            r.model() == set_of(pre_rule_models(rules@)),
    {
        let ghost all = pre_rule_models(rules@);
        let mut rest = rules;
        let mut out: Vec<PreRule> = Vec::new();
        let ghost mut k: int = 0;
        proof {
            assert(pre_rule_models(out@) =~= Seq::<PreRuleModel>::empty());
        }
        while rest.len() > 0
            invariant
                0 <= k <= all.len(),
                rest@.len() == all.len() - k,
                forall|j: int| 0 <= j < rest@.len() ==> all[k + j] == (#[trigger] rest@[j]).model(),
                pre_rule_models(out@) == spread_upto(all, k),
            decreases rest@.len(),
        {
            let ghost before = rest@;
            let ghost done = pre_rule_models(out@);
            proof {
                assert(all[k + 0] == rest@[0].model());
            }
            let rule = rest.remove(0);
            match rule {
                PreRule::Rules(inner) => {
                    let ghost im = pre_rule_models(inner@);
                    proof {
                        assert(rule.model()->Rules_0 =~= im);
                    }
                    let mut more = inner;
                    out.append(&mut more);
                    proof {
                        assert(pre_rule_models(out@) =~= done + im);
                    }
                },
                other => {
                    let ghost m = other.model();
                    out.push(other);
                    proof {
                        assert(pre_rule_models(out@) =~= done + seq![m]);
                    }
                },
            }
            proof {
                k = k + 1;
                assert forall|j: int| 0 <= j < rest@.len() implies all[k + j] == (
                #[trigger] rest@[j]).model() by {
                    assert(rest@[j] == before[j + 1]);
                    assert(all[(k - 1) + (j + 1)] == before[j + 1].model());
                }
            }
        }
        let ghost flat = pre_rule_models(out@);
        if out.len() == 0 {
            PreRule::Null
        } else if out.len() == 1 {
            assert(flat[0] == out@[0].model());
            out.remove(0)
        } else {
            let r = PreRule::Rules(out);
            proof {
                assert(r.model()->Rules_0 =~= flat);
            }
            r
        }
    }
}

fn rules_of(flat: Vec<(String, PreRule)>) -> (r: Vec<PreRule>)
    ensures
        r@.len() == flat@.len(),
        forall|j: int| 0 <= j < flat@.len() ==> (#[trigger] r@[j]).model() == flat@[j].1.model(),
{
    let ghost all = flat@;
    let mut rest = flat;
    let mut out: Vec<PreRule> = Vec::new();
    let ghost mut k: int = 0;
    while rest.len() > 0
        invariant
            0 <= k <= all.len(),
            rest@.len() == all.len() - k,
            out@.len() == k,
            forall|j: int| 0 <= j < rest@.len() ==> all[k + j] == #[trigger] rest@[j],
            forall|j: int| 0 <= j < k ==> (#[trigger] out@[j]).model() == all[j].1.model(),
        decreases rest@.len(),
    {
        let ghost before = rest@;
        proof {
            assert(all[k + 0] == rest@[0]);
        }
        let (_, rule) = rest.remove(0);
        out.push(rule);
        proof {
            k = k + 1;
            assert forall|j: int| 0 <= j < rest@.len() implies all[k + j] == #[trigger] rest@[j] by {
                assert(rest@[j] == before[j + 1]);
                assert(all[(k - 1) + (j + 1)] == before[j + 1]);
            }
        }
    }
    out
}

fn make_sets(groups: Vec<(String, Vec<(String, PreRule)>)>) -> (r: Vec<(String, PreRule)>)
    ensures
        flat_models(r@) == sets_of(groups_models(groups@)),
{
    let ghost all = groups_models(groups@);
    let ghost want = sets_of(all);
    let mut rest = groups;
    let mut out: Vec<(String, PreRule)> = Vec::new();
    let ghost mut k: int = 0;
    while rest.len() > 0
        invariant
            want == sets_of(all),
            0 <= k <= all.len(),
            rest@.len() == all.len() - k,
            out@.len() == k,
            forall|j: int|
                0 <= j < rest@.len() ==> all[k + j] == (
                    (#[trigger] rest@[j]).0@,
                    flat_models(rest@[j].1@),
                ),
            forall|j: int|
                0 <= j < k ==> (#[trigger] out@[j]).0@ == want[j].0 && out@[j].1.model()
                    == want[j].1,
        decreases rest@.len(),
    {
        let ghost before = rest@;
        proof {
            assert(all[k + 0] == (rest@[0].0@, flat_models(rest@[0].1@)));
        }
        let (property, rules) = rest.remove(0);
        let list = rules_of(rules);
        proof {
            assert(pre_rule_models(list@) =~= Seq::new(all[k].1.len(), |j: int| all[k].1[j].1));
        }
        out.push((property, PreRule::create_set(list)));
        proof {
            k = k + 1;
            assert forall|j: int| 0 <= j < rest@.len() implies all[k + j] == (
                (#[trigger] rest@[j]).0@,
                flat_models(rest@[j].1@),
            ) by {
                assert(rest@[j] == before[j + 1]);
                assert(all[(k - 1) + (j + 1)] == (before[j + 1].0@, flat_models(before[j + 1].1@)));
            }
        }
    }
    proof {
        assert(flat_models(out@) =~= want);
    }
    out
}

fn flatten_conditions(
    key: &str,
    obj: &JsObjectMap,
    base: &Vec<String>,
    options: &ResolvedOptions,
) -> (r: Result<Vec<(String, PreRule)>, StylexError>)
    ensures
        match conditions_upto(
            key@,
            for_in(obj.model()),
            texts(base@),
            *options,
            for_in(obj.model()).len() as int,
        ) {
            Ok(groups) => flat_result(r) == Ok::<FlatModel, ErrorModel>(sets_of(groups)),
            Err(x) => flat_result(r) == Err::<FlatModel, ErrorModel>(x),
        },
    decreases total_size(for_in(obj.model())), 1int,
{
    let entries = for_in_entries(obj);
    let ghost e = for_in(obj.model());
    let ghost path = texts(base@);
    let mut groups: Vec<(String, Vec<(String, PreRule)>)> = Vec::new();
    proof {
        assert(groups_models(groups@) =~= Seq::<(Seq<char>, FlatModel)>::empty());
    }
    let mut i: usize = 0;
    while i < entries.len()
        invariant
            e == for_in(obj.model()),
            e == entry_models(entries@),
            path == texts(base@),
            i <= entries@.len(),
            conditions_upto(key@, e, path, *options, i as int) == Ok::<GroupsModel, ErrorModel>(
                groups_models(groups@),
            ),
        decreases entries@.len() - i,
    {
        let (condition, value) = entries[i];
        proof {
            assert(e[i as int] == (condition@, value.model()));
            lemma_entry_smaller(e, i as int);
        }
        let nested = with_key(base, condition);
        match flatten_value_as_property(key, value, &nested, options) {
            Ok(flat) => {
                proof {
                    assert(flat_models(flat@).len() == flat@.len());
                }
                add_rules(&mut groups, condition, flat);
            },
            Err(x) => {
                proof {
                    lemma_conditions_failure(key@, e, path, *options, i + 1, e.len() as int);
                }
                return Err(x);
            },
        }
        i += 1;
    }
    Ok(make_sets(groups))
}

fn flatten_value_as_property(
    key: &str,
    value: &EvalValue,
    nested_path: &Vec<String>,
    options: &ResolvedOptions,
) -> (r: Result<Vec<(String, PreRule)>, StylexError>)
    ensures
        flat_result(r) == value_rules(key@, value.model(), texts(nested_path@), *options),
    decreases val_size(value.model()), 0int,
{
    match value {
        EvalValue::Null => flatten_leaf(key, value, nested_path, options),
        EvalValue::Str(_) => flatten_leaf(key, value, nested_path, options),
        EvalValue::Num(_) => flatten_leaf(key, value, nested_path, options),
        EvalValue::Arr(items) => flatten_array(
            key,
            key,
            items,
            nested_path,
            options,
            Ghost(value.model()->Arr_0),
        ),
        EvalValue::Obj(obj) => {
            proof {
                lemma_for_in_size(obj.model());
            }
            flatten_conditions(key, obj, nested_path, options)
        },
        _ => {
            let out: Vec<(String, PreRule)> = Vec::new();
            proof {
                assert(flat_models(out@) =~= Seq::<(Seq<char>, PreRuleModel)>::empty());
            }
            Ok(out)
        },
    }
}

fn put_under(condition: &str, flat: Vec<(String, PreRule)>) -> (r: Vec<(String, PreRule)>)
    ensures
        flat_models(r@) == under(condition@, flat_models(flat@)),
{
    let ghost all = flat_models(flat@);
    let ghost want = under(condition@, all);
    let mut rest = flat;
    let mut out: Vec<(String, PreRule)> = Vec::new();
    let ghost mut k: int = 0;
    while rest.len() > 0
        invariant
            want == under(condition@, all),
            0 <= k <= all.len(),
            rest@.len() == all.len() - k,
            out@.len() == k,
            forall|j: int|
                0 <= j < rest@.len() ==> all[k + j] == ((#[trigger] rest@[j]).0@, rest@[j].1.model()),
            forall|j: int|
                0 <= j < k ==> (#[trigger] out@[j]).0@ == want[j].0 && out@[j].1.model()
                    == want[j].1,
        decreases rest@.len(),
    {
        let ghost before = rest@;
        proof {
            assert(all[k + 0] == (rest@[0].0@, rest@[0].1.model()));
        }
        let (property, rule) = rest.remove(0);
        out.push((concat3(condition, "_", property.as_str()), rule));
        proof {
            k = k + 1;
            assert forall|j: int| 0 <= j < rest@.len() implies all[k + j] == (
                (#[trigger] rest@[j]).0@,
                rest@[j].1.model(),
            ) by {
                assert(rest@[j] == before[j + 1]);
                assert(all[(k - 1) + (j + 1)] == (before[j + 1].0@, before[j + 1].1.model()));
            }
        }
    }
    proof {
        assert(flat_models(out@) =~= want);
    }
    out
}

fn flatten_entry(
    raw_key: &str,
    value: &EvalValue,
    key_path: &Vec<String>,
    options: &ResolvedOptions,
) -> (r: Result<Vec<(String, PreRule)>, StylexError>)
    ensures
        flat_result(r) == entry_rules(raw_key@, value.model(), texts(key_path@), *options),
    decreases val_size(value.model()), 0int,
{
    let key = unwrap_var_key(raw_key);
    match value {
        EvalValue::Null => flatten_leaf(key.as_str(), value, key_path, options),
        EvalValue::Str(_) => flatten_leaf(key.as_str(), value, key_path, options),
        EvalValue::Num(_) => flatten_leaf(key.as_str(), value, key_path, options),
        EvalValue::Arr(items) => flatten_array(
            key.as_str(),
            raw_key,
            items,
            key_path,
            options,
            Ghost(value.model()->Arr_0),
        ),
        EvalValue::Obj(obj) => {
            proof {
                lemma_for_in_size(obj.model());
            }
            if is_condition_key(key.as_str()) {
                let nested = with_key(key_path, raw_key);
                match flatten_inner(obj, &nested, options) {
                    Ok(flat) => Ok(put_under(key.as_str(), flat)),
                    Err(x) => Err(x),
                }
            } else if key_path.len() == 0 {
                let mut base: Vec<String> = Vec::new();
                base.push(key.clone());
                proof {
                    assert(texts(base@) =~= seq![key@]);
                }
                flatten_conditions(key.as_str(), obj, &base, options)
            } else {
                flatten_conditions(key.as_str(), obj, key_path, options)
            }
        },
        _ => {
            let out: Vec<(String, PreRule)> = Vec::new();
            proof {
                assert(flat_models(out@) =~= Seq::<(Seq<char>, PreRuleModel)>::empty());
            }
            Ok(out)
        },
    }
}

fn flatten_inner(style: &JsObjectMap, key_path: &Vec<String>, options: &ResolvedOptions) -> (r: Result<
    Vec<(String, PreRule)>,
    StylexError,
>)
    ensures
        flat_result(r) == styles_upto(
            for_in(style.model()),
            texts(key_path@),
            *options,
            for_in(style.model()).len() as int,
        ),
    decreases total_size(for_in(style.model())), 1int,
{
    let entries = for_in_entries(style);
    let ghost e = for_in(style.model());
    let ghost path = texts(key_path@);
    let mut out: Vec<(String, PreRule)> = Vec::new();
    proof {
        assert(flat_models(out@) =~= Seq::<(Seq<char>, PreRuleModel)>::empty());
    }
    let mut i: usize = 0;
    while i < entries.len()
        invariant
            e == for_in(style.model()),
            e == entry_models(entries@),
            path == texts(key_path@),
            i <= entries@.len(),
            styles_upto(e, path, *options, i as int) == Ok::<FlatModel, ErrorModel>(
                flat_models(out@),
            ),
        decreases entries@.len() - i,
    {
        let (raw_key, value) = entries[i];
        proof {
            assert(e[i as int] == (raw_key@, value.model()));
            lemma_entry_smaller(e, i as int);
        }
        match flatten_entry(raw_key, value, key_path, options) {
            Ok(flat) => {
                let ghost before = flat_models(out@);
                let ghost fm = flat_models(flat@);
                let mut more = flat;
                out.append(&mut more);
                proof {
                    assert(flat_models(out@) =~= before + fm);
                }
            },
            Err(x) => {
                proof {
                    lemma_styles_failure(e, path, *options, i + 1, e.len() as int);
                }
                return Err(x);
            },
        }
        i += 1;
    }
    Ok(out)
}

/// Flattens a style into one list of rules.
pub fn flatten_raw_style_object(style: &JsObjectMap, options: &ResolvedOptions) -> (r: Result<
    Vec<(String, PreRule)>,
    StylexError,
>)
    ensures
        flat_result(r) == flattened(style.model(), *options),
{
    let none: Vec<String> = Vec::new();
    proof {
        assert(texts(none@) =~= Seq::<Seq<char>>::empty());
    }
    flatten_inner(style, &none, options)
}

/// What a key in a path stands for.
#[derive(Debug, PartialEq, Eq, Clone, Copy)]
pub enum PathPart {
    Pseudo,
    AtRule,
    Const,
}

/// Whether a key in a path stands for the given part of a rule.
pub open spec fn stands_for_part(key: Seq<char>, part: PathPart) -> bool {
    match part {
        PathPart::Pseudo => has_prefix(key, ":"@) || has_prefix(key, "["@),
        PathPart::AtRule => has_prefix(key, "@"@),
        PathPart::Const => has_prefix(key, "var(--"@),
    }
}

/// Those of the first `k` keys in a path that stand for the given part of a rule.
pub open spec fn parts_upto(path: Seq<Seq<char>>, part: PathPart, k: int) -> Seq<Seq<char>>
    decreases k,
{
    if k <= 0 {
        Seq::empty()
    } else if stands_for_part(path[k - 1], part) {
        parts_upto(path, part, k - 1).push(path[k - 1])
    } else {
        parts_upto(path, part, k - 1)
    }
}

/// The keys in a path that stand for the given part of a rule.
pub open spec fn parts_of(path: Seq<Seq<char>>, part: PathPart) -> Seq<Seq<char>> {
    parts_upto(path, part, path.len() as int)
}

/// The path of a rule that has none of its own.
pub open spec fn full_path(property: Seq<char>, path: Option<Seq<Seq<char>>>) -> Seq<Seq<char>> {
    match path {
        Some(p) => p,
        None => seq![property],
    }
}

/// The rule of a declaration whose conditions are in its path.
#[verifier::opaque]
pub open spec fn path_rule(
    property: Seq<char>,
    value: PreRuleValueModel,
    path: Seq<Seq<char>>,
    options: ResolvedOptions,
) -> Result<RuleModel, ErrorModel> {
    compiled_rule(
        property,
        value,
        parts_of(path, PathPart::Pseudo),
        parts_of(path, PathPart::AtRule),
        parts_of(path, PathPart::Const),
        options,
    )
}

/// Compiled rules with their paths.
pub type CompiledModel = Seq<(RuleModel, Seq<Seq<char>>)>;

/// The compiled rules, with their paths, of a rule.
pub open spec fn compiled(rule: PreRuleModel, options: ResolvedOptions) -> Result<
    CompiledModel,
    ErrorModel,
>
    decreases rule, 0int,
{
    match rule {
        PreRuleModel::Null => Ok(Seq::empty()),
        PreRuleModel::Rule(property, value, path) => match path_rule(
            property,
            value,
            full_path(property, path),
            options,
        ) {
            Ok(r) => Ok(seq![(r, full_path(property, path))]),
            Err(e) => Err(e),
        },
        PreRuleModel::Rules(rules) => compiled_upto(rules, options, rules.len() as int),
    }
}

/// The compiled rules of the first `k` rules.
pub open spec fn compiled_upto(
    rules: Seq<PreRuleModel>,
    options: ResolvedOptions,
    k: int,
) -> Result<CompiledModel, ErrorModel>
    decreases rules, k,
{
    if k <= 0 || k > rules.len() {
        Ok(Seq::empty())
    } else {
        match compiled_upto(rules, options, k - 1) {
            Err(e) => Err(e),
            Ok(done) => match compiled(rules[k - 1], options) {
                Ok(more) => Ok(done + more),
                Err(e) => Err(e),
            },
        }
    }
}

proof fn lemma_compiled_failure(
    rules: Seq<PreRuleModel>,
    options: ResolvedOptions,
    i: int,
    k: int,
)
    requires
        0 <= i <= k <= rules.len(),
        compiled_upto(rules, options, i) is Err,
    ensures
        compiled_upto(rules, options, k) == compiled_upto(rules, options, i),
    decreases k,
{
    if i < k {
        lemma_compiled_failure(rules, options, i, k - 1);
    }
}

/// What compiled rules with their paths are, mathematically.
pub open spec fn compiled_models(v: Seq<(StylexRule, Vec<String>)>) -> CompiledModel {
    Seq::new(v.len(), |i: int| (v[i].0.model(), texts(v[i].1@)))
}

/// What compiling gives, mathematically.
pub open spec fn compiled_result(r: Result<Vec<(StylexRule, Vec<String>)>, StylexError>) -> Result<
    CompiledModel,
    ErrorModel,
> {
    match r {
        Ok(v) => Ok(compiled_models(v@)),
        Err(e) => Err(e.model()),
    }
}

fn stands_for(key: &str, part: PathPart) -> (r: bool)
    ensures
        r == stands_for_part(key@, part),
{
    match part {
        PathPart::Pseudo => starts_with(key, ":") || starts_with(key, "["),
        PathPart::AtRule => starts_with(key, "@"),
        PathPart::Const => starts_with(key, "var(--"),
    }
}

fn keys_for(path: &Vec<String>, part: PathPart) -> (r: Vec<&str>)
    ensures
        str_texts(r@) == parts_of(texts(path@), part),
{
    let ghost all = texts(path@);
    let mut out: Vec<&str> = Vec::new();
    proof {
        assert(str_texts(out@) =~= Seq::<Seq<char>>::empty());
    }
    let mut i: usize = 0;
    while i < path.len()
        invariant
            all == texts(path@),
            i <= path@.len(),
            str_texts(out@) == parts_upto(all, part, i as int),
        decreases path@.len() - i,
    {
        assert(all[i as int] == path@[i as int]@);
        if stands_for(path[i].as_str(), part) {
            let ghost before = str_texts(out@);
            out.push(path[i].as_str());
            proof {
                assert(str_texts(out@) =~= before.push(all[i as int]));
            }
        }
        i += 1;
    }
    out
}

fn compile_at(
    property: &str,
    value: &PreRuleValue,
    path: &Vec<String>,
    options: &ResolvedOptions,
) -> (r: Result<StylexRule, StylexError>)
    ensures
        rule_outcome(r) == path_rule(property@, value.model(), texts(path@), *options),
{
    proof {
        reveal(path_rule);
    }
    let pseudos = keys_for(path, PathPart::Pseudo);
    let at_rules = keys_for(path, PathPart::AtRule);
    let consts = keys_for(path, PathPart::Const);
    convert_style_to_class_name(property, value, &pseudos, &at_rules, &consts, options)
}

impl PreRule {
    /// Compiles the rule: the rules of a set in their order, each with its path.
    pub fn for_each_compiled(&self, options: &ResolvedOptions) -> (r: Result<
        Vec<(StylexRule, Vec<String>)>,
        StylexError,
    >)
        ensures
            compiled_result(r) == compiled(self.model(), *options),
        decreases self,
    {
        match self {
            PreRule::Null => {
                let out: Vec<(StylexRule, Vec<String>)> = Vec::new();
                proof {
                    assert(compiled_models(out@) =~= Seq::<(RuleModel, Seq<Seq<char>>)>::empty());
                }
                Ok(out)
            },
            PreRule::Rule { property, value, key_path } => {
                let path = match key_path {
                    Some(p) => copy_texts(p),
                    None => {
                        let mut p: Vec<String> = Vec::new();
                        p.push(property.clone());
                        proof {
                            assert(texts(p@) =~= seq![property@]);
                        }
                        p
                    },
                };
                match compile_at(property.as_str(), value, &path, options) {
                    Ok(rule) => {
                        let ghost m = rule.model();
                        let ghost pm = texts(path@);
                        let mut out: Vec<(StylexRule, Vec<String>)> = Vec::new();
                        out.push((rule, path));
                        proof {
                            assert(compiled_models(out@) =~= seq![(m, pm)]);
                        }
                        Ok(out)
                    },
                    Err(e) => Err(e),
                }
            },
            PreRule::Rules(rules) => {
                let ghost all = self.model()->Rules_0;
                let mut out: Vec<(StylexRule, Vec<String>)> = Vec::new();
                proof {
                    assert(compiled_models(out@) =~= Seq::<(RuleModel, Seq<Seq<char>>)>::empty());
                }
                let mut i: usize = 0;
                while i < rules.len()
                    invariant
                        *self == PreRule::Rules(*rules),
                        all == self.model()->Rules_0,
                        i <= rules@.len(),
                        compiled_upto(all, *options, i as int) == Ok::<CompiledModel, ErrorModel>(
                            compiled_models(out@),
                        ),
                    decreases rules@.len() - i,
                {
                    proof {
                        assert(decreases_to!(*self => self->Rules_0));
                        assert(decreases_to!(*rules => rules@[i as int]));
                        assert(all[i as int] == rules@[i as int].model());
                    }
                    match rules[i].for_each_compiled(options) {
                        Ok(more) => {
                            let ghost before = compiled_models(out@);
                            let ghost mm = compiled_models(more@);
                            let mut more = more;
                            out.append(&mut more);
                            proof {
                                assert(compiled_models(out@) =~= before + mm);
                            }
                        },
                        Err(e) => {
                            proof {
                                lemma_compiled_failure(all, *options, i + 1, all.len() as int);
                            }
                            return Err(e);
                        },
                    }
                    i += 1;
                }
                Ok(out)
            },
        }
    }
}

/// The value of a property under a condition is flattened like the only entry of a
/// style there.
pub proof fn values_flatten_like_single_entries(
    key: Seq<char>,
    v: Val,
    path: Seq<Seq<char>>,
    options: ResolvedOptions,
)
    requires
        path.len() > 0,
        unwrapped(key) == key,
        !condition_key(key),
    ensures
        value_rules(key, v, path, options) == styles_upto(seq![(key, v)], path, options, 1),
{
    let e = seq![(key, v)];
    let none = Seq::<(Seq<char>, PreRuleModel)>::empty();
    assert(styles_upto(e, path, options, 0) == Ok::<FlatModel, ErrorModel>(none));
    assert(e[0] == (key, v));
    match entry_rules(key, v, path, options) {
        Ok(flat) => {
            assert(none + flat =~= flat);
        },
        Err(_) => {},
    }
}

/// Whether a rule is no set, or a set of two rules or more that are none.
pub open spec fn flat_rule(rule: PreRuleModel) -> bool {
    match rule {
        PreRuleModel::Rules(rules) => rules.len() >= 2 && forall|i: int|
            0 <= i < rules.len() ==> !((#[trigger] rules[i]) is Rules),
        _ => true,
    }
}

proof fn lemma_spread_flat(rules: Seq<PreRuleModel>, k: int)
    requires
        0 <= k <= rules.len(),
        forall|i: int| 0 <= i < rules.len() ==> flat_rule(#[trigger] rules[i]),
    ensures
        forall|i: int|
            0 <= i < spread_upto(rules, k).len() ==> !((#[trigger] spread_upto(rules, k)[i]) is Rules),
    decreases k,
{
    if k > 0 {
        lemma_spread_flat(rules, k - 1);
        assert(flat_rule(rules[k - 1]));
        let done = spread_upto(rules, k - 1);
        let now = spread_upto(rules, k);
        assert forall|i: int| 0 <= i < now.len() implies !((#[trigger] now[i]) is Rules) by {
            if i < done.len() {
                assert(now[i] == done[i]);
            } else if let PreRuleModel::Rules(inner) = rules[k - 1] {
                assert(now[i] == inner[i - done.len()]);
            }
        }
    }
}

/// A set of rules holds no sets: those that it was made of are spread out.
pub proof fn sets_are_flat(rules: Seq<PreRuleModel>)
    requires
        forall|i: int| 0 <= i < rules.len() ==> flat_rule(#[trigger] rules[i]),
    ensures
        flat_rule(set_of(rules)),
{
    lemma_spread_flat(rules, rules.len() as int);
}

} // verus!
