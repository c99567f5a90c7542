//! Themes: other values for the variables of a group.

use crate::errors::{
    non_style_object_model, said, theme_without_group_model, type_crash_model, ErrorCode,
    ErrorModel, StylexError,
};
use crate::hash::{hash, hash_text};
use crate::jsrt::{
    foreign_from, slice_finds_the_middle, slice_utf16, sliced, sort_texts, sorted_texts,
    sorting_is_sorting, unverified_collation_char, Collation,
};
use crate::number::JsNumber;
use crate::options::ResolvedOptions;
use crate::rules::{plain_rule, rule_models, RuleModel, StylexRule};
use crate::shared::define_consts::{const_key, export_id};
use crate::shared::define_vars::{
    call_entries, entries_of_call, group_class, group_text, name_group, owned_js,
};
use crate::shared::dev_naming::{basename, file_or_unknown, name_stem, opt_str, path_basename, stem};
use crate::shared::generate_rule::text_result;
use crate::shared::position_try::lemma_sorted_found;
use crate::shared::types::{as_css_type_js, css_type_of};
use crate::shared::vars_utils::{
    collect_vars_by_at_rule, collected, collection_models, group_priority, inside_group,
    priority_for_at_rule, wrap_with_at_rules, CollectionModel,
};
use crate::text::{
    chars_of, concat2, concat3, concat5, concat_strings, concat_texts, debug_char,
    debug_char_text, debug_string, debug_text, has_prefix, str_eq, str_texts, texts,
};
use crate::value::{
    item_keys, keys_of, lemma_find_key, opt_text, position_of, put, value_of, EvalValue,
    JsObjectMap, JsValue, ProxyModel, Val, VarGroupProxy,
};
use vstd::prelude::*;

verus! {

/// What a theme compiles to.
#[derive(Debug, PartialEq)]
pub struct CreateThemeOutput {
    /// The class names of the theme under the name of its group.
    pub js_output: JsObjectMap,
    /// One rule for each group of declarations.
    pub rules: Vec<StylexRule>,
}

/// What a theme compiles to, mathematically.
#[verifier::ext_equal]
pub struct ThemeModel {
    pub entries: Seq<(Seq<char>, Val)>,
    pub rules: Seq<RuleModel>,
}

/// What a compiled theme or an error is, mathematically.
pub open spec fn theme_result(r: Result<CreateThemeOutput, StylexError>) -> Result<
    ThemeModel,
    ErrorModel,
> {
    match r {
        Ok(o) => Ok(ThemeModel { entries: o.js_output.pairs(), rules: rule_models(o.rules@) }),
        Err(e) => Err(e.model()),
    }
}

/// The double nearest to four tenths.
pub const FOUR_TENTHS: u64 = 0x3fd9_9999_9999_999a;

/// The name of the group that a theme is for.
pub open spec fn theme_group(theme: Val) -> Option<Seq<char>> {
    match theme {
        Val::Proxy(p) => Some(p.var_group_hash),
        Val::Obj(m) => match value_of(m.entries, "__varGroupHash__"@) {
            Some(Val::Str(s)) => if s.len() > 0 {
                Some(s)
            } else {
                None
            },
            _ => None,
        },
        _ => None,
    }
}

/// The name of a variable: what stands inside the reference to it.
pub open spec fn theme_var_name(theme: Val, key: Seq<char>) -> Result<Seq<char>, ErrorModel> {
    match theme {
        Val::Proxy(p) => if key == "__varGroupHash__"@ {
            Ok(sliced(p.var_group_hash, 6))
        } else if key == "__IS_PROXY"@ || key == "toString"@ {
            Err(type_crash_model("a proxy trap value without .slice in createTheme"@))
        } else {
            Ok(sliced(p.reference(key), 6))
        },
        Val::Obj(m) => match value_of(m.entries, key) {
            Some(Val::Str(s)) => Ok(sliced(s, 6)),
            None | Some(Val::Undefined) => Err(
                said(
                    ErrorCode::NonStaticValue,
                    "Cannot read properties of undefined (reading 'slice')"@,
                ),
            ),
            _ => Err(type_crash_model("a non-string theme variable in createTheme"@)),
        },
        _ => Err(theme_without_group_model()),
    }
}

/// The value that a theme gives to a variable, without its CSS type.
pub open spec fn bare_value(v: Val) -> Val {
    match css_type_of(v) {
        Some((_, inner)) => inner,
        None => v,
    }
}

/// The declarations of a theme after those of the keys from `i` on were added.
pub open spec fn theme_from(
    theme: Val,
    e: Seq<(Seq<char>, Val)>,
    keys: Seq<Seq<char>>,
    i: int,
    c: CollectionModel,
) -> Result<CollectionModel, ErrorModel>
    decreases keys.len() - i,
{
    if i < 0 || i >= keys.len() {
        Ok(c)
    } else {
        match theme_var_name(theme, keys[i]) {
            Err(x) => Err(x),
            Ok(name) => {
                let (after, error) = collected(
                    keys[i],
                    name,
                    bare_value(value_of(e, keys[i])->0),
                    c,
                    Seq::empty(),
                );
                match error {
                    Some(x) => Err(x),
                    None => theme_from(theme, e, keys, i + 1, after),
                }
            },
        }
    }
}

/// The error for the first group, from the `i`th on, whose place in the order is not
/// known.
pub open spec fn order_error(keys: Seq<Seq<char>>, i: int) -> Option<ErrorModel>
    decreases keys.len() - i,
{
    if i < 0 || i >= keys.len() {
        None
    } else {
        match foreign_from(keys[i], 0) {
            Some(c) => Some(
                said(
                    ErrorCode::UnsupportedApi,
                    "createTheme() cannot sort at-rule "@ + debug_text(keys[i]) + ": "@
                        + debug_char_text(c)
                        + " is outside the pinned collation alphabet and the order feeds the theme hash"@,
                ),
            ),
            None => order_error(keys, i + 1),
        }
    }
}

/// Those of the first `k` keys that are not `default`.
pub open spec fn others_upto(keys: Seq<Seq<char>>, k: int) -> Seq<Seq<char>>
    decreases k,
{
    if k <= 0 {
        Seq::empty()
    } else if keys[k - 1] == "default"@ {
        others_upto(keys, k - 1)
    } else {
        others_upto(keys, k - 1).push(keys[k - 1])
    }
}

/// The groups in the order of the theme: the default group, then the others as a
/// dictionary has them.
pub open spec fn theme_order(keys: Seq<Seq<char>>) -> Seq<Seq<char>> {
    let first = if keys.contains("default"@) {
        seq!["default"@]
    } else {
        Seq::empty()
    };
    first + sorted_texts(others_upto(keys, keys.len() as int), Collation::Dictionary)
}

/// The declarations of a group.
pub open spec fn group_declarations(c: CollectionModel, key: Seq<char>) -> Seq<char> {
    match value_of(c, key) {
        Some(d) => concat_texts(d),
        None => Seq::empty(),
    }
}

/// The text of the first `k` groups that the class name rests on.
pub open spec fn hashed_groups(c: CollectionModel, order: Seq<Seq<char>>, k: int) -> Seq<char>
    decreases k,
{
    if k <= 0 {
        Seq::empty()
    } else {
        hashed_groups(c, order, k - 1) + inside_group(
            group_declarations(c, order[k - 1]),
            order[k - 1],
        )
    }
}

/// The rule of a group of a theme.
pub open spec fn theme_rule(class: Seq<char>, key: Seq<char>, decls: Seq<char>) -> RuleModel {
    plain_rule(
        group_class(class, key),
        group_text("."@ + class + ", ."@ + class + ":root{"@ + decls + "}"@, key),
        None,
        (JsNumber { bits: FOUR_TENTHS }).plus_spec(group_priority(key).over_spec(10)),
    )
}

/// The entries of the compiled object of a theme.
pub open spec fn theme_entries(class: Seq<char>, group: Seq<char>) -> Seq<(Seq<char>, Val)> {
    put(
        put(Seq::empty(), group, Val::Str(class + " "@ + group)),
        "$$css"@,
        Val::Bool(true),
    )
}

/// What a theme compiles to.
pub open spec fn theme_output(theme: Val, overrides: Val, options: ResolvedOptions) -> Result<
    ThemeModel,
    ErrorModel,
> {
    match call_entries(overrides) {
        None => Err(non_style_object_model("createTheme"@)),
        Some(e) => match theme_group(theme) {
            None => Err(theme_without_group_model()),
            Some(group) => {
                let keys = sorted_texts(keys_of(e), Collation::Units);
                match theme_from(theme, e, keys, 0, Seq::empty()) {
                    Err(x) => Err(x),
                    Ok(c) => match order_error(keys_of(c), 0) {
                        Some(x) => Err(x),
                        None => {
                            let order = theme_order(keys_of(c));
                            let class = options.class_name_prefix@ + hash_text(
                                hashed_groups(c, order, order.len() as int),
                            );
                            Ok(
                                ThemeModel {
                                    entries: theme_entries(class, group),
                                    rules: Seq::new(
                                        order.len(),
                                        |i: int|
                                            theme_rule(
                                                class,
                                                order[i],
                                                group_declarations(c, order[i]),
                                            ),
                                    ),
                                },
                            )
                        },
                    },
                }
            },
        },
    }
}

fn group_of(theme_vars: &JsValue) -> (r: Option<String>)
    ensures
        opt_text(r) == theme_group(theme_vars.model()),
{
    match theme_vars {
        JsValue::Proxy(proxy) => Some(proxy.var_group_hash.clone()),
        JsValue::Obj(obj) => match obj.get("__varGroupHash__") {
            Some(JsValue::Str(s)) => {
                let n: usize = chars_of(s.as_str()).len();
                if n > 0 {
                    Some(s.clone())
                } else {
                    None
                }
            },
            _ => None,
        },
        _ => None,
    }
}

fn theme_var_name_hash(theme_vars: &JsValue, key: &str) -> (r: Result<String, StylexError>)
    ensures
        text_result(r) == theme_var_name(theme_vars.model(), key@),
{
    match theme_vars {
        JsValue::Proxy(proxy) => {
            if str_eq(key, "__varGroupHash__") {
                Ok(slice_utf16(proxy.var_group_hash.as_str(), 6))
            } else if str_eq(key, "__IS_PROXY") || str_eq(key, "toString") {
                Err(
                    StylexError::upstream_type_crash(
                        "a proxy trap value without .slice in createTheme",
                    ),
                )
            } else {
                Ok(slice_utf16(proxy.resolve_key(key).as_str(), 6))
            }
        },
        JsValue::Obj(obj) => match obj.get(key) {
            Some(JsValue::Str(s)) => Ok(slice_utf16(s.as_str(), 6)),
            None => Err(
                StylexError::new(
                    ErrorCode::NonStaticValue,
                    "Cannot read properties of undefined (reading 'slice')",
                ),
            ),
            Some(JsValue::Undefined) => Err(
                StylexError::new(
                    ErrorCode::NonStaticValue,
                    "Cannot read properties of undefined (reading 'slice')",
                ),
            ),
            Some(_) => Err(
                StylexError::upstream_type_crash("a non-string theme variable in createTheme"),
            ),
        },
        _ => Err(StylexError::theme_without_var_group()),
    }
}

fn collect_theme(theme_vars: &JsValue, entries: &Vec<(String, JsValue)>) -> (r: Result<
    Vec<(String, Vec<String>)>,
    StylexError,
>)
    ensures
        match r {
            Ok(c) => theme_from(
                theme_vars.model(),
                owned_js(entries@),
                sorted_texts(keys_of(owned_js(entries@)), Collation::Units),
                0,
                Seq::empty(),
            ) == Ok::<CollectionModel, ErrorModel>(collection_models(c@)),
            Err(x) => theme_from(
                theme_vars.model(),
                owned_js(entries@),
                sorted_texts(keys_of(owned_js(entries@)), Collation::Units),
                0,
                Seq::empty(),
            ) == Err::<CollectionModel, ErrorModel>(x.model()),
        },
{
    let ghost e = owned_js(entries@);
    let ghost theme = theme_vars.model();
    let mut names: Vec<&str> = Vec::new();
    let mut i: usize = 0;
    while i < entries.len()
        invariant
            i <= entries@.len(),
            names@.len() == i,
            forall|j: int| 0 <= j < i ==> (#[trigger] names@[j])@ == entries@[j].0@,
        decreases entries@.len() - i,
    {
        names.push(entries[i].0.as_str());
        i += 1;
    }
    proof {
        assert(str_texts(names@) =~= keys_of(e));
        assert(keys_of(e) =~= item_keys(entries@));
    }
    let keys = sort_texts(&names, Collation::Units);
    let ghost sorted = str_texts(keys@);
    let mut c: Vec<(String, Vec<String>)> = Vec::new();
    let none: Vec<String> = Vec::new();
    proof {
        assert(collection_models(c@) =~= Seq::<(Seq<char>, Seq<Seq<char>>)>::empty());
        assert(texts(none@) =~= Seq::<Seq<char>>::empty());
    }
    i = 0;
    while i < keys.len()
        invariant
            e == owned_js(entries@),
            theme == theme_vars.model(),
            keys_of(e) == item_keys(entries@),
            sorted == str_texts(keys@),
            sorted == sorted_texts(keys_of(e), Collation::Units),
            texts(none@) == Seq::<Seq<char>>::empty(),
            i <= keys@.len(),
            theme_from(theme, e, sorted, 0, Seq::empty()) == theme_from(
                theme,
                e,
                sorted,
                i as int,
                collection_models(c@),
            ),
        decreases keys@.len() - i,
    {
        let key = keys[i];
        assert(sorted[i as int] == key@);
        let at: usize = position_of(entries, key);
        proof {
            sorting_is_sorting(keys_of(e), Collation::Units);
            lemma_sorted_found(keys_of(e), sorted, i as int);
            lemma_find_key(keys_of(e), key@, 0);
        }
        let raw = &entries[at].1;
        assert(value_of(e, key@) == Some(raw.model()));
        let value = match as_css_type_js(raw) {
            Some((_, inner)) => inner,
            None => raw.clone(),
        };
        let name = match theme_var_name_hash(theme_vars, key) {
            Ok(n) => n,
            Err(x) => {
                return Err(x);
            },
        };
        match collect_vars_by_at_rule(key, name.as_str(), &value, &mut c, &none) {
            Ok(_) => {},
            Err(x) => {
                return Err(x);
            },
        }
        i += 1;
    }
    Ok(c)
}

fn check_order(c: &Vec<(String, Vec<String>)>) -> (r: Option<StylexError>)
    ensures
        match r {
            Some(x) => order_error(keys_of(collection_models(c@)), 0) == Some(x.model()),
            None => order_error(keys_of(collection_models(c@)), 0) is None,
        },
{
    let ghost keys = keys_of(collection_models(c@));
    let mut i: usize = 0;
    while i < c.len()
        invariant
            keys == keys_of(collection_models(c@)),
            i <= c@.len(),
            order_error(keys, 0) == order_error(keys, i as int),
        decreases c@.len() - i,
    {
        let key = c[i].0.as_str();
        assert(keys[i as int] == key@);
        if let Some(ch) = unverified_collation_char(key) {
            let shown = debug_string(key);
            let shown_char = debug_char(ch);
            let message = concat5(
                "createTheme() cannot sort at-rule ",
                shown.as_str(),
                ": ",
                shown_char.as_str(),
                " is outside the pinned collation alphabet and the order feeds the theme hash",
            );
            return Some(StylexError::new(ErrorCode::UnsupportedApi, message.as_str()));
        }
        i += 1;
    }
    None
}

fn order_groups<'c>(c: &'c Vec<(String, Vec<String>)>) -> (r: Vec<&'c str>)
    ensures
        str_texts(r@) == theme_order(keys_of(collection_models(c@))),
{
    let ghost keys = keys_of(collection_models(c@));
    let mut others: Vec<&'c str> = Vec::new();
    let mut has_default = false;
    proof {
        assert(str_texts(others@) =~= Seq::<Seq<char>>::empty());
    }
    let mut i: usize = 0;
    while i < c.len()
        invariant
            keys == keys_of(collection_models(c@)),
            i <= c@.len(),
            str_texts(others@) == others_upto(keys, i as int),
            has_default == exists|j: int| 0 <= j < i && #[trigger] keys[j] == "default"@,
        decreases c@.len() - i,
    {
        let key = c[i].0.as_str();
        assert(keys[i as int] == key@);
        if str_eq(key, "default") {
            has_default = true;
        } else {
            let ghost before = str_texts(others@);
            others.push(key);
            proof {
                assert(str_texts(others@) =~= before.push(key@));
            }
        }
        i += 1;
    }
    proof {
        assert(keys.len() == c@.len());
        assert(has_default == keys.contains("default"@));
    }
    let sorted = sort_texts(&others, Collation::Dictionary);
    let mut out: Vec<&'c str> = Vec::new();
    if has_default {
        out.push("default");
    }
    let ghost first = str_texts(out@);
    proof {
        if has_default {
            assert(first =~= seq!["default"@]);
        } else {
            assert(first =~= Seq::<Seq<char>>::empty());
        }
    }
    let ghost len = out@.len();
    let ghost start = out@;
    i = 0;
    while i < sorted.len()
        invariant
            i <= sorted@.len(),
            len == start.len(),
            out@.len() == len + i,
            forall|j: int| 0 <= j < len ==> #[trigger] out@[j] == start[j],
            forall|j: int| len <= j < len + i ==> #[trigger] out@[j] == sorted@[j - len],
        decreases sorted@.len() - i,
    {
        out.push(sorted[i]);
        i += 1;
    }
    proof {
        assert(str_texts(out@) =~= first + str_texts(sorted@));
    }
    out
}

fn declarations_of(c: &Vec<(String, Vec<String>)>, key: &str) -> (r: String)
    ensures
        r@ == group_declarations(collection_models(c@), key@),
{
    let at: usize = position_of(c, key);
    proof {
        assert(keys_of(collection_models(c@)) =~= item_keys(c@));
        lemma_find_key(item_keys(c@), key@, 0);
    }
    if at < c.len() {
        assert(collection_models(c@)[at as int].1 == texts(c@[at as int].1@));
        concat_strings(&c[at].1)
    } else {
        String::new()
    }
}

fn make_theme_rule(class: &str, key: &str, decls: &str) -> (r: StylexRule)
    ensures
        r.model() == theme_rule(class@, key@, decls@),
{
    let mut body = concat5(".", class, ", .", class, ":root{");
    body.append(decls);
    body.append("}");
    let (name, ltr) = name_group(class, key, body.as_str());
    let priority = JsNumber { bits: FOUR_TENTHS }.plus(priority_for_at_rule(key).over(10));
    StylexRule::plain(name, ltr, None, priority)
}

/// Compiles a theme.
pub fn create_theme(theme_vars: &JsValue, overrides: &JsValue, options: &ResolvedOptions) -> (r: Result<
    CreateThemeOutput,
    StylexError,
>)
    ensures
        theme_result(r) == theme_output(theme_vars.model(), overrides.model(), *options),
        r is Ok ==> r->Ok_0.js_output.model().css is None,
{
    let entries = match entries_of_call(overrides) {
        Some(v) => v,
        None => {
            return Err(StylexError::non_style_object("createTheme"));
        },
    };
    let group = match group_of(theme_vars) {
        Some(g) => g,
        None => {
            return Err(StylexError::theme_without_var_group());
        },
    };
    let c = match collect_theme(theme_vars, &entries) {
        Ok(c) => c,
        Err(x) => {
            return Err(x);
        },
    };
    if let Some(x) = check_order(&c) {
        return Err(x);
    }
    let ghost cm = collection_models(c@);
    let order = order_groups(&c);
    let ghost om = str_texts(order@);
    let mut hashed = String::new();
    let mut i: usize = 0;
    while i < order.len()
        invariant
            cm == collection_models(c@),
            om == str_texts(order@),
            i <= order@.len(),
            hashed@ == hashed_groups(cm, om, i as int),
        decreases order@.len() - i,
    {
        assert(om[i as int] == order@[i as int]@);
        let decls = declarations_of(&c, order[i]);
        hashed.append(wrap_with_at_rules(decls.as_str(), order[i]).as_str());
        i += 1;
    }
    proof {
        assert(om.len() == order@.len());
    }
    let class = concat2(options.class_name_prefix.as_str(), hash(hashed.as_str()).as_str());
    let mut rules: Vec<StylexRule> = Vec::new();
    i = 0;
    while i < order.len()
        invariant
            cm == collection_models(c@),
            om == str_texts(order@),
            i <= order@.len(),
            rules@.len() == i,
            forall|j: int|
                0 <= j < i ==> (#[trigger] rules@[j]).model() == theme_rule(
                    class@,
                    om[j],
                    group_declarations(cm, om[j]),
                ),
        decreases order@.len() - i,
    {
        assert(om[i as int] == order@[i as int]@);
        let decls = declarations_of(&c, order[i]);
        rules.push(make_theme_rule(class.as_str(), order[i], decls.as_str()));
        i += 1;
    }
    let mut js_output = JsObjectMap::new();
    let names = concat3(class.as_str(), " ", group.as_str());
    js_output.insert(group, EvalValue::Str(names));
    js_output.set("$$css", EvalValue::Bool(true));
    proof {
        assert(rule_models(rules@) =~= Seq::new(
            om.len(),
            |i: int| theme_rule(class@, om[i], group_declarations(cm, om[i])),
        ));
    }
    Ok(CreateThemeOutput { js_output, rules })
}

/// The entries after the first `k` of `more` were set.
pub open spec fn set_upto(
    e: Seq<(Seq<char>, Val)>,
    more: Seq<(Seq<char>, Val)>,
    k: int,
) -> Seq<(Seq<char>, Val)>
    decreases k,
{
    if k <= 0 {
        e
    } else {
        put(set_upto(e, more, k - 1), more[k - 1].0, more[k - 1].1)
    }
}

/// The entries of a theme with its name in development.
pub open spec fn theme_dev_entries(
    e: Seq<(Seq<char>, Val)>,
    filename: Option<Seq<char>>,
    var_name: Seq<char>,
    options: ResolvedOptions,
) -> Seq<(Seq<char>, Val)> {
    let class = stem(basename(file_or_unknown(filename))) + "__"@ + var_name;
    let first = put(Seq::empty(), class, Val::Str(class));
    if options.test {
        put(first, "$$css"@, Val::Bool(true))
    } else if options.dev {
        set_upto(first, e, e.len() as int)
    } else {
        e
    }
}

/// Gives a theme its name in development. Without development it stays as it is.
pub fn apply_theme_dev_naming(
    js_output: JsObjectMap,
    filename: Option<&str>,
    var_name: &str,
    options: &ResolvedOptions,
) -> (r: JsObjectMap)
    ensures
        r.pairs() == theme_dev_entries(js_output.pairs(), opt_str(filename), var_name@, *options),
        !options.test && !options.dev ==> r == js_output,
        options.test || options.dev ==> r.model().css is None,
{
    if !options.test && !options.dev {
        return js_output;
    }
    let file = match filename {
        Some(f) => f,
        None => "UnknownFile",
    };
    let class = concat3(
        name_stem(path_basename(file).as_str()).as_str(),
        "__",
        var_name,
    );
    let mut out = JsObjectMap::new();
    out.insert(class.clone(), EvalValue::Str(class));
    if options.test {
        out.set("$$css", EvalValue::Bool(true));
        return out;
    }
    let ghost e = js_output.pairs();
    let ghost first = out.pairs();
    let mut i: usize = 0;
    while i < js_output.items.len()
        invariant
            e == js_output.pairs(),
            i <= js_output.items@.len(),
            out.pairs() == set_upto(first, e, i as int),
            out.model().css is None,
        decreases js_output.items@.len() - i,
    {
        assert(e[i as int] == (js_output.items@[i as int].0@, js_output.items@[i as int].1.model()));
        out.set(js_output.items[i].0.as_str(), js_output.items[i].1.clone());
        i += 1;
    }
    out
}

/// A theme names exactly the variables that the exporting file declares: the name
/// that a theme reads off a group is the name that the declaration of the group has.
pub proof fn theme_names_are_declared_names(
    group: VarGroupProxy,
    key: Seq<char>,
    file: Seq<char>,
    export: Seq<char>,
    options: ResolvedOptions,
)
    requires
        group.model() == (ProxyModel {
            file_name: file,
            export_name: export,
            class_name_prefix: options.class_name_prefix@,
            debug_names: options.debug && options.enable_debug_class_names,
            var_group_hash: options.class_name_prefix@ + hash_text(file + "//"@ + export),
        }),
        key != "__varGroupHash__"@,
        key != "__IS_PROXY"@,
        key != "toString"@,
    ensures
        theme_var_name(Val::Proxy(group.model()), key) == Ok::<Seq<char>, ErrorModel>(
            const_key(key, export_id(file, export), options),
        ),
{
    reveal_strlit("var(--");
    reveal_strlit("var(");
    reveal_strlit("--");
    reveal_strlit(")");
    let p = group.model();
    let name = const_key(key, export_id(file, export), options);
    slice_finds_the_middle("var(--"@, name, ")"@);
    if has_prefix(key, "--"@) {
        assert(key =~= "--"@ + name);
        assert("var("@ + key + ")"@ =~= "var(--"@ + name + ")"@);
    } else {
        assert(p.reference(key) == "var(--"@ + name + ")"@);
    }
}

} // verus!
