//! Fallback positions of anchored elements.

use crate::errors::{
    non_style_object_model, position_try_property_model, type_crash_model, ErrorModel, StylexError,
};
use crate::hash::{hash, hash_text, utf16, utf16_units};
use crate::jsrt::{decode_units, sort_texts, sorted_texts, text_of_units, Collation};
use crate::number::{decimal, decimal_text, JsNumber};
use crate::options::ResolvedOptions;
use crate::rules::{plain_rule, RuleModel, StylexRule};
use crate::shared::dashify::{dashify, dashify_text};
use crate::shared::flatten::{scalar_of_val, ScalarModel, StyleScalar};
use crate::shared::generate_rule::{scalar_declared, transform_scalar};
use crate::shared::resolution::{
    expanded, flat_map_expanded_shorthands, pair_models, ExpandedPair, PairModel,
};
use crate::shared::rtl::{generate_ltr, generate_rtl, ltr_pair, rtl_pair, RtlContext};
use crate::text::{concat3, concat5, is_listed, listed, str_eq, str_texts, texts};
use crate::value::{
    find_key, item_keys, keys_of, lemma_find_key, position_of, put, put_item, put_text, text_pairs,
    value_of, EvalValue, JsObjectMap, Val,
};
use vstd::prelude::*;

verus! {

/// The properties that a fallback position takes.
pub const VALID_POSITION_TRY_PROPERTIES: [&'static str; 40] = [
    "anchorName",
    "positionAnchor",
    "positionArea",
    "top",
    "right",
    "bottom",
    "left",
    "inset",
    "insetBlock",
    "insetBlockEnd",
    "insetBlockStart",
    "insetInline",
    "insetInlineEnd",
    "insetInlineStart",
    "margin",
    "marginBlock",
    "marginBlockEnd",
    "marginBlockStart",
    "marginInline",
    "marginInlineEnd",
    "marginInlineStart",
    "marginTop",
    "marginBottom",
    "marginLeft",
    "marginRight",
    "width",
    "height",
    "minWidth",
    "minHeight",
    "maxWidth",
    "maxHeight",
    "blockSize",
    "inlineSize",
    "minBlockSize",
    "minInlineSize",
    "maxBlockSize",
    "maxInlineSize",
    "alignSelf",
    "justifySelf",
    "placeSelf",
];

/// Declarations in order, mathematically.
pub type TextsModel = Seq<(Seq<char>, Seq<char>)>;

/// Values of declarations in order, mathematically.
pub type ScalarsModel = Seq<(Seq<char>, ScalarModel)>;

/// The values after the first `k` declarations of a shorthand were set, but for
/// those without a value.
pub open spec fn with_declared(e: ScalarsModel, pairs: Seq<PairModel>, k: int) -> ScalarsModel
    decreases k,
{
    if k <= 0 {
        e
    } else {
        let done = with_declared(e, pairs, k - 1);
        match pairs[k - 1].1 {
            Some(ScalarModel::Str(s)) => put(done, pairs[k - 1].0, ScalarModel::Str(s)),
            Some(ScalarModel::Num(n)) => put(done, pairs[k - 1].0, ScalarModel::Num(n)),
            _ => done,
        }
    }
}

/// The declarations that an entry of a style stands for.
#[verifier::opaque]
pub open spec fn entry_pairs(key: Seq<char>, v: Val, options: ResolvedOptions) -> Result<
    Seq<PairModel>,
    ErrorModel,
> {
    expanded(
        key,
        scalar_of_val(v),
        v is Arr,
        options.style_resolution,
        options.property_validation_mode,
    )
}

/// The values that the first `k` entries of a style declare.
pub open spec fn expanded_upto(
    e: Seq<(Seq<char>, Val)>,
    options: ResolvedOptions,
    k: int,
) -> Result<ScalarsModel, ErrorModel>
    decreases k,
{
    if k <= 0 {
        Ok(Seq::empty())
    } else {
        match expanded_upto(e, options, k - 1) {
            Err(x) => Err(x),
            Ok(done) => match entry_pairs(e[k - 1].0, e[k - 1].1, options) {
                Ok(pairs) => Ok(with_declared(done, pairs, pairs.len() as int)),
                Err(x) => Err(x),
            },
        }
    }
}

/// The first `k` values under their CSS names.
pub open spec fn dashed_upto(e: ScalarsModel, k: int) -> ScalarsModel
    decreases k,
{
    if k <= 0 {
        Seq::empty()
    } else {
        put(dashed_upto(e, k - 1), dashify_text(e[k - 1].0), e[k - 1].1)
    }
}

/// The texts of the first `k` values.
pub open spec fn written_upto(e: ScalarsModel, rem: bool, k: int) -> Result<TextsModel, ErrorModel>
    decreases k,
{
    if k <= 0 {
        Ok(Seq::empty())
    } else {
        match written_upto(e, rem, k - 1) {
            Err(x) => Err(x),
            Ok(done) => match scalar_declared(e[k - 1].0, e[k - 1].1, rem) {
                Ok(t) => Ok(put(done, e[k - 1].0, t)),
                Err(x) => Err(x),
            },
        }
    }
}

/// The declarations of a plain style. Only texts and numbers count; the values are
/// written under the CSS names.
pub open spec fn style_texts(e: Seq<(Seq<char>, Val)>, options: ResolvedOptions) -> Result<
    TextsModel,
    ErrorModel,
> {
    match expanded_upto(e, options, e.len() as int) {
        Err(x) => Err(x),
        Ok(values) => {
            let dashed = dashed_upto(values, values.len() as int);
            written_upto(dashed, options.enable_font_size_px_to_rem, dashed.len() as int)
        },
    }
}

/// What declarations or an error are, mathematically.
pub open spec fn texts_outcome(r: Result<Vec<(String, String)>, StylexError>) -> Result<
    TextsModel,
    ErrorModel,
> {
    match r {
        Ok(v) => Ok(text_pairs(v@)),
        Err(e) => Err(e.model()),
    }
}

/// What values of declarations are, mathematically.
pub open spec fn scalar_pairs(v: Seq<(String, StyleScalar)>) -> ScalarsModel {
    Seq::new(v.len(), |i: int| (v[i].0@, v[i].1.model()))
}

fn put_scalar(items: &mut Vec<(String, StyleScalar)>, key: String, value: StyleScalar)
    ensures
        scalar_pairs(final(items)@) == put(scalar_pairs(old(items)@), key@, value.model()),
{
    let ghost before = scalar_pairs(items@);
    proof {
        assert(keys_of(before) =~= item_keys(items@));
    }
    put_item(items, key, value);
    proof {
        assert(scalar_pairs(items@) =~= put(before, key@, value.model()));
    }
}

fn expand_entry(key: &str, value: &EvalValue, options: &ResolvedOptions) -> (r: Result<
    Vec<ExpandedPair>,
    StylexError,
>)
    ensures
        crate::shared::resolution::pairs_result(r) == entry_pairs(key@, value.model(), *options),
{
    proof {
        reveal(entry_pairs);
    }
    let scalar = match value {
        EvalValue::Str(s) => Some(StyleScalar::Str(s.clone())),
        EvalValue::Num(n) => Some(StyleScalar::Num(*n)),
        _ => None,
    };
    let is_array = match value {
        EvalValue::Arr(_) => true,
        _ => false,
    };
    flat_map_expanded_shorthands(key, scalar, is_array, options)
}

fn expand_styles(styles: &JsObjectMap, options: &ResolvedOptions) -> (r: Result<
    Vec<(String, StyleScalar)>,
    StylexError,
>)
    ensures
        match r {
            Ok(v) => expanded_upto(styles.pairs(), *options, styles.pairs().len() as int) == Ok::<
                ScalarsModel,
                ErrorModel,
            >(scalar_pairs(v@)),
            Err(x) => expanded_upto(styles.pairs(), *options, styles.pairs().len() as int) == Err::<
                ScalarsModel,
                ErrorModel,
            >(x.model()),
        },
{
    let ghost e = styles.pairs();
    let mut out: Vec<(String, StyleScalar)> = Vec::new();
    proof {
        assert(scalar_pairs(out@) =~= Seq::<(Seq<char>, ScalarModel)>::empty());
    }
    let mut i: usize = 0;
    while i < styles.items.len()
        invariant
            e == styles.pairs(),
            i <= styles.items@.len(),
            expanded_upto(e, *options, i as int) == Ok::<ScalarsModel, ErrorModel>(
                scalar_pairs(out@),
            ),
        decreases styles.items@.len() - i,
    {
        let (key, value) = &styles.items[i];
        assert(e[i as int] == (key@, value.model()));
        let pairs = match expand_entry(key.as_str(), value, options) {
            Ok(v) => v,
            Err(x) => {
                proof {
                    lemma_expanded_failure(e, *options, i + 1, e.len() as int);
                }
                return Err(x);
            },
        };
        let ghost start = scalar_pairs(out@);
        let ghost ps = pair_models(pairs@);
        let mut j: usize = 0;
        while j < pairs.len()
            invariant
                ps == pair_models(pairs@),
                j <= pairs@.len(),
                scalar_pairs(out@) == with_declared(start, ps, j as int),
            decreases pairs@.len() - j,
        {
            let (property, v) = &pairs[j];
            assert(ps[j as int] == (property@, crate::shared::flatten::opt_scalar(*v)));
            match v {
                Some(StyleScalar::Str(s)) => {
                    put_scalar(&mut out, property.clone(), StyleScalar::Str(s.clone()));
                },
                Some(StyleScalar::Num(n)) => {
                    put_scalar(&mut out, property.clone(), StyleScalar::Num(*n));
                },
                _ => {},
            }
            j += 1;
        }
        i += 1;
    }
    Ok(out)
}

proof fn lemma_expanded_failure(
    e: Seq<(Seq<char>, Val)>,
    options: ResolvedOptions,
    i: int,
    k: int,
)
    requires
        0 <= i <= k,
        expanded_upto(e, options, i) is Err,
    ensures
        expanded_upto(e, options, k) == expanded_upto(e, options, i),
    decreases k,
{
    if i < k {
        lemma_expanded_failure(e, options, i, k - 1);
    }
}

proof fn lemma_written_failure(e: ScalarsModel, rem: bool, i: int, k: int)
    requires
        0 <= i <= k,
        written_upto(e, rem, i) is Err,
    ensures
        written_upto(e, rem, k) == written_upto(e, rem, i),
    decreases k,
{
    if i < k {
        lemma_written_failure(e, rem, i, k - 1);
    }
}

/// Gives the declarations of a plain style.
pub fn expand_dashify_transform(styles: &JsObjectMap, options: &ResolvedOptions) -> (r: Result<
    Vec<(String, String)>,
    StylexError,
>)
    ensures
        texts_outcome(r) == style_texts(styles.pairs(), *options),
{
    let values = match expand_styles(styles, options) {
        Ok(v) => v,
        Err(x) => {
            return Err(x);
        },
    };
    let ghost vs = scalar_pairs(values@);
    let mut dashed: Vec<(String, StyleScalar)> = Vec::new();
    proof {
        assert(scalar_pairs(dashed@) =~= Seq::<(Seq<char>, ScalarModel)>::empty());
    }
    let mut i: usize = 0;
    while i < values.len()
        invariant
            vs == scalar_pairs(values@),
            i <= values@.len(),
            scalar_pairs(dashed@) == dashed_upto(vs, i as int),
        decreases values@.len() - i,
    {
        let (key, value) = &values[i];
        assert(vs[i as int] == (key@, value.model()));
        put_scalar(&mut dashed, dashify(key.as_str()), value.clone());
        i += 1;
    }
    let ghost ds = scalar_pairs(dashed@);
    let ghost rem = options.enable_font_size_px_to_rem;
    proof {
        assert(vs.len() == values@.len());
    }
    let mut out: Vec<(String, String)> = Vec::new();
    proof {
        assert(text_pairs(out@) =~= Seq::<(Seq<char>, Seq<char>)>::empty());
    }
    i = 0;
    while i < dashed.len()
        invariant
            ds == scalar_pairs(dashed@),
            rem == options.enable_font_size_px_to_rem,
            i <= dashed@.len(),
            style_texts(styles.pairs(), *options) == written_upto(ds, rem, ds.len() as int),
            written_upto(ds, rem, i as int) == Ok::<TextsModel, ErrorModel>(text_pairs(out@)),
        decreases dashed@.len() - i,
    {
        let (key, value) = &dashed[i];
        assert(ds[i as int] == (key@, value.model()));
        match transform_scalar(key.as_str(), value, options.enable_font_size_px_to_rem) {
            Ok(t) => {
                put_text(&mut out, key.clone(), t);
            },
            Err(x) => {
                proof {
                    lemma_written_failure(ds, rem, i + 1, ds.len() as int);
                }
                return Err(x);
            },
        }
        i += 1;
    }
    Ok(out)
}

/// Two declarations of a key: one of its name and one of its value.
pub open spec fn doubled(key: Seq<char>, p: (Seq<char>, Seq<char>)) -> Seq<char> {
    key + ":"@ + p.0 + ";"@ + key + ":"@ + p.1 + ";"@
}

/// The declarations of the first `k` keys from left to right.
pub open spec fn position_ltr(e: TextsModel, keys: Seq<Seq<char>>, k: int) -> Seq<char>
    decreases k,
{
    if k <= 0 {
        Seq::empty()
    } else {
        position_ltr(e, keys, k - 1) + doubled(
            keys[k - 1],
            ltr_pair(keys[k - 1], value_of(e, keys[k - 1])->0, RtlContext::default_context()),
        )
    }
}

/// The declarations of a key from right to left.
pub open spec fn turned_or_plain(key: Seq<char>, value: Seq<char>) -> Seq<char> {
    match rtl_pair(key, value, RtlContext::default_context()) {
        Some(p) => doubled(key, p),
        None => key + ":"@ + value + ";"@,
    }
}

/// The declarations of the first `k` keys from right to left.
pub open spec fn position_rtl(e: TextsModel, keys: Seq<Seq<char>>, k: int) -> Seq<char>
    decreases k,
{
    if k <= 0 {
        Seq::empty()
    } else {
        position_rtl(e, keys, k - 1) + turned_or_plain(keys[k - 1], value_of(e, keys[k - 1])->0)
    }
}

/// The rule of declarations in both directions.
pub open spec fn position_rule(name: Seq<char>, ltr: Seq<char>, rtl: Seq<char>) -> RuleModel {
    plain_rule(
        name,
        "@position-try "@ + name + " {"@ + ltr + "}"@,
        if ltr == rtl {
            None
        } else {
            Some("@position-try "@ + name + " {"@ + rtl + "}"@)
        },
        JsNumber::natural(0),
    )
}

/// The name and the rule of a fallback position.
pub open spec fn position_output(e: Seq<(Seq<char>, Val)>, options: ResolvedOptions) -> Result<
    (Seq<char>, RuleModel),
    ErrorModel,
> {
    match style_texts(e, options) {
        Err(x) => Err(x),
        Ok(t) => {
            let keys = sorted_texts(keys_of(t), Collation::Units);
            let ltr = position_ltr(t, keys, keys.len() as int);
            let rtl = position_rtl(t, keys, keys.len() as int);
            let name = "--"@ + options.class_name_prefix@ + hash_text(ltr);
            Ok((name, position_rule(name, ltr, rtl)))
        },
    }
}

/// What a name and its rule, or an error, are, mathematically.
pub open spec fn named_rule(r: Result<(String, StylexRule), StylexError>) -> Result<
    (Seq<char>, RuleModel),
    ErrorModel,
> {
    match r {
        Ok(p) => Ok((p.0@, p.1.model())),
        Err(e) => Err(e.model()),
    }
}

/// Whether all keys are in a table.
pub open spec fn all_listed(e: Seq<(Seq<char>, Val)>, table: Seq<&'static str>) -> bool {
    forall|i: int| 0 <= i < e.len() ==> listed((#[trigger] e[i]).0, table)
}

/// The name and the rule of a fallback position, with its properties checked.
pub open spec fn position_checked(v: Val, options: ResolvedOptions) -> Result<
    (Seq<char>, RuleModel),
    ErrorModel,
> {
    match v {
        Val::Obj(m) => if all_listed(m.entries, VALID_POSITION_TRY_PROPERTIES@) {
            position_output(m.entries, options)
        } else {
            Err(position_try_property_model())
        },
        _ => Err(non_style_object_model("positionTry"@)),
    }
}

/// The first `k` entries set anew.
pub open spec fn reset_upto(e: Seq<(Seq<char>, Val)>, k: int) -> Seq<(Seq<char>, Val)>
    decreases k,
{
    if k <= 0 {
        Seq::empty()
    } else {
        put(reset_upto(e, k - 1), e[k - 1].0, e[k - 1].1)
    }
}

/// The first `k` values under their positions.
pub open spec fn indexed_upto(v: Seq<Val>, k: int) -> Seq<(Seq<char>, Val)>
    decreases k,
{
    if k <= 0 {
        Seq::empty()
    } else {
        put(indexed_upto(v, k - 1), decimal((k - 1) as nat), v[k - 1])
    }
}

/// The units of a text as texts.
pub open spec fn unit_values(s: Seq<char>) -> Seq<Val> {
    Seq::new(utf16(s).len(), |i: int| Val::Str(text_of_units(seq![utf16(s)[i]], 0)))
}

/// The entries of a value as ECMAScript lists them, if it can.
pub open spec fn js_entries(v: Val) -> Option<Seq<(Seq<char>, Val)>> {
    match v {
        Val::Obj(m) => Some(reset_upto(m.entries, m.entries.len() as int)),
        Val::Arr(items) => Some(indexed_upto(items, items.len() as int)),
        Val::Str(s) => Some(indexed_upto(unit_values(s), unit_values(s).len() as int)),
        Val::Null | Val::Undefined => None,
        _ => Some(Seq::empty()),
    }
}

/// Gives the entries of a value as ECMAScript lists them.
pub fn object_entries_js(value: &EvalValue, crash_context: &str) -> (r: Result<
    JsObjectMap,
    StylexError,
>)
    ensures
        match r {
            Ok(m) => js_entries(value.model()) == Some(m.pairs()),
            Err(x) => js_entries(value.model()) is None && x.model() == type_crash_model(
                crash_context@,
            ),
        },
{
    let mut out = JsObjectMap::new();
    match value {
        EvalValue::Obj(map) => {
            let ghost e = map.pairs();
            let mut i: usize = 0;
            while i < map.items.len()
                invariant
                    e == map.pairs(),
                    i <= map.items@.len(),
                    out.pairs() == reset_upto(e, i as int),
                decreases map.items@.len() - i,
            {
                assert(e[i as int] == (map.items@[i as int].0@, map.items@[i as int].1.model()));
                out.set(map.items[i].0.as_str(), map.items[i].1.clone());
                i += 1;
            }
        },
        EvalValue::Arr(items) => {
            let ghost all = value.model()->Arr_0;
            let mut i: usize = 0;
            while i < items.len()
                invariant
                    *value == EvalValue::Arr(*items),
                    all == value.model()->Arr_0,
                    i <= items@.len(),
                    out.pairs() == indexed_upto(all, i as int),
                decreases items@.len() - i,
            {
                assert(all[i as int] == items@[i as int].model());
                out.insert(decimal_text(i as u64), items[i].clone());
                i += 1;
            }
        },
        EvalValue::Str(s) => {
            let units = utf16_units(s.as_str());
            let ghost all = unit_values(s@);
            let mut i: usize = 0;
            while i < units.len()
                invariant
                    units@ == utf16(s@),
                    all == unit_values(s@),
                    i <= units@.len(),
                    out.pairs() == indexed_upto(all, i as int),
                decreases units@.len() - i,
            {
                let one: [u16; 1] = [units[i]];
                proof {
                    assert(one@ =~= seq![units@[i as int]]);
                }
                out.insert(decimal_text(i as u64), EvalValue::Str(decode_units(&one)));
                i += 1;
            }
        },
        EvalValue::Null => {
            return Err(StylexError::upstream_type_crash(crash_context));
        },
        EvalValue::Undefined => {
            return Err(StylexError::upstream_type_crash(crash_context));
        },
        _ => {},
    }
    Ok(out)
}

/// Whether all keys of an object are in a table.
pub fn keys_are_listed(obj: &JsObjectMap, table: &[&'static str]) -> (r: bool)
    ensures
        r == all_listed(obj.pairs(), table@),
{
    let ghost e = obj.pairs();
    let mut i: usize = 0;
    while i < obj.items.len()
        invariant
            e == obj.pairs(),
            i <= obj.items@.len(),
            forall|j: int| 0 <= j < i ==> listed((#[trigger] e[j]).0, table@),
        decreases obj.items@.len() - i,
    {
        assert(e[i as int].0 == obj.items@[i as int].0@);
        if !is_listed(obj.items[i].0.as_str(), table) {
            return false;
        }
        i += 1;
    }
    true
}

/// Gives the name and the rule of a fallback position.
pub fn position_try(styles: &EvalValue, options: &ResolvedOptions) -> (r: Result<
    (String, StylexRule),
    StylexError,
>)
    ensures
        named_rule(r) == position_checked(styles.model(), *options),
{
    let map = match styles {
        EvalValue::Obj(map) => map,
        _ => {
            return Err(StylexError::non_style_object("positionTry"));
        },
    };
    if !keys_are_listed(map, &VALID_POSITION_TRY_PROPERTIES) {
        return Err(StylexError::position_try_invalid_property());
    }
    position_try_impl(map, options)
}

/// Gives the name and the rule of a fallback position whose properties are not
/// checked.
pub fn position_try_shared(styles: &EvalValue, options: &ResolvedOptions) -> (r: Result<
    (String, StylexRule),
    StylexError,
>)
    ensures
        named_rule(r) == match js_entries(styles.model()) {
            Some(e) => position_output(e, *options),
            None => Err::<(Seq<char>, RuleModel), ErrorModel>(
                type_crash_model("a nullish positionTry() argument"@),
            ),
        },
{
    match object_entries_js(styles, "a nullish positionTry() argument") {
        Ok(m) => position_try_impl(&m, options),
        Err(x) => Err(x),
    }
}

fn push_doubled(out: &mut String, key: &str, name: &str, value: &str)
    ensures
        final(out)@ == old(out)@ + doubled(key@, (name@, value@)),
{
    let ghost before = out@;
    out.append(key);
    out.append(":");
    out.append(name);
    out.append(";");
    out.append(key);
    out.append(":");
    out.append(value);
    out.append(";");
    proof {
        assert(out@ =~= before + doubled(key@, (name@, value@)));
    }
}

fn position_try_impl(styles: &JsObjectMap, options: &ResolvedOptions) -> (r: Result<
    (String, StylexRule),
    StylexError,
>)
    ensures
        named_rule(r) == position_output(styles.pairs(), *options),
{
    let decls = match expand_dashify_transform(styles, options) {
        Ok(v) => v,
        Err(x) => {
            return Err(x);
        },
    };
    let ghost t = text_pairs(decls@);
    let mut names: Vec<&str> = Vec::new();
    let mut i: usize = 0;
    while i < decls.len()
        invariant
            i <= decls@.len(),
            names@.len() == i,
            forall|j: int| 0 <= j < i ==> (#[trigger] names@[j])@ == decls@[j].0@,
        decreases decls@.len() - i,
    {
        names.push(decls[i].0.as_str());
        i += 1;
    }
    proof {
        assert(str_texts(names@) =~= keys_of(t));
        assert(keys_of(t) =~= item_keys(decls@));
    }
    let keys = sort_texts(&names, Collation::Units);
    let ghost sorted = str_texts(keys@);
    let mut ltr = String::new();
    let mut rtl = String::new();
    i = 0;
    while i < keys.len()
        invariant
            t == text_pairs(decls@),
            keys_of(t) == item_keys(decls@),
            sorted == str_texts(keys@),
            sorted == sorted_texts(keys_of(t), Collation::Units),
            i <= keys@.len(),
            ltr@ == position_ltr(t, sorted, i as int),
            rtl@ == position_rtl(t, sorted, i as int),
        decreases keys@.len() - i,
    {
        let key = keys[i];
        assert(sorted[i as int] == key@);
        let at: usize = position_of(&decls, key);
        proof {
            crate::jsrt::sorting_is_sorting(keys_of(t), Collation::Units);
            lemma_sorted_found(keys_of(t), sorted, i as int);
            lemma_find_key(keys_of(t), key@, 0);
        }
        let value = decls[at].1.as_str();
        assert(value_of(t, key@) == Some(value@));
        let (lk, lv) = generate_ltr(key, value, RtlContext::defaults());
        push_doubled(&mut ltr, key, lk.as_str(), lv.as_str());
        match generate_rtl(key, value, RtlContext::defaults()) {
            Some((rk, rv)) => {
                push_doubled(&mut rtl, key, rk.as_str(), rv.as_str());
            },
            None => {
                let ghost before = rtl@;
                rtl.append(key);
                rtl.append(":");
                rtl.append(value);
                rtl.append(";");
                proof {
                    assert(rtl@ =~= before + (key@ + ":"@ + value@ + ";"@));
                }
            },
        }
        i += 1;
    }
    let name = concat3("--", options.class_name_prefix.as_str(), hash(ltr.as_str()).as_str());
    let ltr_rule = concat5("@position-try ", name.as_str(), " {", ltr.as_str(), "}");
    let rtl_rule = if str_eq(ltr.as_str(), rtl.as_str()) {
        None
    } else {
        Some(concat5("@position-try ", name.as_str(), " {", rtl.as_str(), "}"))
    };
    let rule = StylexRule::plain(name.clone(), ltr_rule, rtl_rule, JsNumber::from_int(0));
    Ok((name, rule))
}

/// What was sorted is found among what it was sorted from.
pub proof fn lemma_sorted_found(keys: Seq<Seq<char>>, sorted: Seq<Seq<char>>, i: int)
    requires
        0 <= i < sorted.len(),
        sorted.to_multiset() == keys.to_multiset(),
    ensures
        find_key(keys, sorted[i], 0) < keys.len(),
{
    sorted.to_multiset_ensures();
    keys.to_multiset_ensures();
    assert(sorted.to_multiset().count(sorted[i]) > 0) by {
        assert(sorted.contains(sorted[i]));
    }
    assert(keys.contains(sorted[i]));
    lemma_find_key(keys, sorted[i], 0);
}

} // verus!
