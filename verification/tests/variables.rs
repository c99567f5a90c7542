use stylex::errors::ErrorCode;
use stylex::json::Json;
use stylex::number::JsNumber;
use stylex::options::ResolvedOptions;
use stylex::shared::create_theme::{apply_theme_dev_naming, create_theme};
use stylex::shared::define_consts::{define_consts, var_safe_key};
use stylex::shared::define_vars::{define_vars, define_vars_core, ArrowOutcome};
use stylex::shared::nested::{
    define_consts_nested, flatten_nested_consts_config, flatten_nested_overrides_config,
    flatten_nested_string_config, flatten_nested_vars_config, nest_define_vars_js_output,
    unflatten_object, EVALUATED_FN_SOURCE,
};
use stylex::shared::types::create_css_type;
use stylex::shared::var_cycles::assert_no_define_vars_cycles;
use stylex::shared::vars_utils::{
    collect_vars_by_at_rule, es_ordered_entries, get_default_value, priority_for_at_rule,
    wrap_with_at_rules,
};
use stylex::value::{
    from_eval_value, to_eval_value, Callable, EvalValue, JsObj, JsObjectMap, JsValue,
    StylexCallable, VarGroupProxy,
};

fn num(x: f64) -> JsNumber {
    JsNumber { bits: x.to_bits() }
}

fn float(x: JsNumber) -> f64 {
    f64::from_bits(x.bits)
}

fn s(v: &str) -> EvalValue {
    EvalValue::Str(v.to_string())
}

fn js(v: &str) -> JsValue {
    JsValue::Str(v.to_string())
}

fn map(entries: &[(&str, EvalValue)]) -> JsObjectMap {
    let mut out = JsObjectMap::new();
    for (k, v) in entries {
        out.set(k, v.clone());
    }
    out
}

fn obj(entries: &[(&str, EvalValue)]) -> EvalValue {
    EvalValue::Obj(map(entries))
}

fn jobj(entries: &[(&str, JsValue)]) -> JsValue {
    let mut out = JsObj::default();
    for (k, v) in entries {
        out.insert((*k).to_string(), v.clone());
    }
    JsValue::object(out)
}

fn flat_pairs(map: &JsObjectMap) -> Vec<(String, EvalValue)> {
    map.entries()
        .iter()
        .map(|(k, v)| (k.to_string(), v.clone()))
        .collect()
}

fn probe_proxy() -> VarGroupProxy {
    VarGroupProxy::new(
        "probe-pkg:src/tokens.stylex.ts".to_string(),
        "vars".to_string(),
        &ResolvedOptions::default(),
    )
}

#[test]
fn cross_file_basic_matches_oracle() {
    let options = ResolvedOptions::default();
    let proxy = JsValue::proxy(probe_proxy());
    let out = create_theme(
        &proxy,
        &jobj(&[("accent", js("rebeccapurple")), ("gap", js("12px"))]),
        &options,
    )
    .unwrap();
    assert_eq!(out.rules.len(), 1);
    assert_eq!(out.rules[0].class_name, "xxlf0b4");
    assert_eq!(
        out.rules[0].ltr,
        ".xxlf0b4, .xxlf0b4:root{--x15glzcj:rebeccapurple;--x1e9wu2u:12px;}"
    );
    assert!(float(out.rules[0].priority) == 0.5);
    assert_eq!(out.js_output.get("xf9pnhg"), Some(&s("xxlf0b4 xf9pnhg")));
    assert_eq!(out.js_output.get("$$css"), Some(&EvalValue::Bool(true)));
}

#[test]
fn empty_and_all_null_overrides_hash_the_empty_string() {
    let options = ResolvedOptions::default();
    let proxy = JsValue::proxy(probe_proxy());
    let empty = create_theme(&proxy, &jobj(&[]), &options).unwrap();
    assert!(empty.rules.is_empty());
    assert_eq!(empty.js_output.get("xf9pnhg"), Some(&s("xph554m xf9pnhg")));
    let all_null = create_theme(&proxy, &jobj(&[("accent", JsValue::Null)]), &options).unwrap();
    assert_eq!(
        all_null.js_output.get("xf9pnhg"),
        empty.js_output.get("xf9pnhg")
    );
}

#[test]
fn missing_var_group_hash_is_rejected() {
    let options = ResolvedOptions::default();
    let err = create_theme(&JsValue::object(JsObj::default()), &jobj(&[]), &options).unwrap_err();
    assert_eq!(
        err.message,
        "Can only override variables theme created with defineVars()."
    );
    let err = create_theme(&js("nope"), &jobj(&[]), &options).unwrap_err();
    assert_eq!(err.code, ErrorCode::ThemeWithoutVarGroup);
}

#[test]
fn same_file_map_lookup_and_unknown_key() {
    let options = ResolvedOptions::default();
    let mut vars = JsObj::default();
    vars.insert("accent".to_string(), js("var(--xx91c37)"));
    vars.insert("__varGroupHash__".to_string(), js("x7tlvcs"));
    let theme_vars = JsValue::object(vars);
    let out = create_theme(&theme_vars, &jobj(&[("accent", js("green"))]), &options).unwrap();
    assert_eq!(out.rules[0].class_name, "x7u453x");
    assert_eq!(
        out.rules[0].ltr,
        ".x7u453x, .x7u453x:root{--xx91c37:green;}"
    );
    let err = create_theme(&theme_vars, &jobj(&[("missing", js("green"))]), &options).unwrap_err();
    assert_eq!(
        err.message,
        "Cannot read properties of undefined (reading 'slice')"
    );
}

#[test]
fn dev_and_test_naming() {
    let dev_options = ResolvedOptions {
        dev: true,
        debug: true,
        ..ResolvedOptions::default()
    };
    let mut js = JsObjectMap::new();
    js.set("x7tlvcs", s("x7u453x x7tlvcs"));
    js.set("$$css", EvalValue::Bool(true));
    let dev = apply_theme_dev_naming(
        js.clone(),
        Some("/fix/src/both.stylex.ts"),
        "myT",
        &dev_options,
    );
    assert_eq!(dev.keys(), vec!["both__myT", "x7tlvcs", "$$css"]);
    assert_eq!(dev.get("both__myT"), Some(&s("both__myT")));

    let test_options = ResolvedOptions {
        test: true,
        ..ResolvedOptions::default()
    };
    let test = apply_theme_dev_naming(js.clone(), Some("/x/theme.ts"), "myTheme", &test_options);
    assert_eq!(test.keys(), vec!["theme__myTheme", "$$css"]);

    let plain = apply_theme_dev_naming(js.clone(), None, "t", &ResolvedOptions::default());
    assert_eq!(plain, js);
}

#[test]
fn a_theme_declares_the_names_of_the_variables() {
    let options = ResolvedOptions::default();
    let declared = define_vars(
        &jobj(&[("accent", js("red")), ("gap", js("1px"))]),
        &vec![],
        "probe-pkg:src/tokens.stylex.ts",
        "vars",
        &options,
    )
    .unwrap();
    assert_eq!(declared.js_output.get("accent"), Some(&s("var(--x15glzcj)")));
    assert_eq!(declared.js_output.get("gap"), Some(&s("var(--x1e9wu2u)")));
    assert_eq!(
        declared.js_output.get("__varGroupHash__"),
        Some(&s("xf9pnhg"))
    );
    assert_eq!(declared.rules.len(), 1);
    assert_eq!(
        declared.rules[0].ltr,
        ":root, .xf9pnhg{--x15glzcj:red;--x1e9wu2u:1px;}"
    );
    let proxy = probe_proxy();
    assert_eq!(proxy.resolve_key("accent"), "var(--x15glzcj)");
    assert_eq!(proxy.var_group_hash, "xf9pnhg");
}

#[test]
fn typed_variables_get_a_property_rule() {
    let options = ResolvedOptions::default();
    let created = create_css_type("length", &[EvalValue::Num(num(4.0))]).unwrap();
    let out = define_vars(
        &jobj(&[("gap", from_eval_value(&created))]),
        &vec![],
        "probe-pkg:src/tokens.stylex.ts",
        "vars",
        &options,
    )
    .unwrap();
    assert_eq!(out.rules.len(), 2);
    assert_eq!(
        out.rules[0].ltr,
        "@property --x1e9wu2u { syntax: \"<length>\"; inherits: true; initial-value: 4px }"
    );
}

#[test]
fn functions_among_the_variables_are_checked() {
    let options = ResolvedOptions::default();
    let arrow = |key: u32| JsValue::Callable(Callable::Arrow(key));
    let call = |entries: &[(&str, JsValue)], arrows: Vec<ArrowOutcome>| {
        define_vars(&jobj(entries), &arrows, "f.stylex.ts", "v", &options)
    };
    let outcome = |key: u32, deps: &[&str], result: Option<JsValue>| ArrowOutcome {
        key,
        param_count: 0,
        deps: deps.iter().map(|d| d.to_string()).collect(),
        result,
    };
    let good = call(
        &[("a", js("red")), ("b", arrow(0))],
        vec![outcome(0, &["a"], Some(js("blue")))],
    )
    .unwrap();
    assert!(good.rules[0].ltr.contains(":blue;"));
    let err = call(
        &[("a", arrow(0)), ("b", arrow(1))],
        vec![
            outcome(0, &["b"], Some(js("x"))),
            outcome(1, &["a"], Some(js("y"))),
        ],
    )
    .unwrap_err();
    assert_eq!(err.code, ErrorCode::CyclicDefineVarsReference);
    let err = call(
        &[("a", arrow(0))],
        vec![outcome(0, &["missing"], Some(js("x")))],
    )
    .unwrap_err();
    assert_eq!(err.code, ErrorCode::UnknownDefineVarsReference);
    let err = define_vars(&js("x"), &vec![], "f.stylex.ts", "v", &options).unwrap_err();
    assert_eq!(err.code, ErrorCode::NonStyleObject);
}

#[test]
fn conditions_of_variables_make_groups() {
    let options = ResolvedOptions::default();
    let out = define_vars_core(
        &vec![(
            "a".to_string(),
            jobj(&[("default", js("1px")), ("@media print", js("2px"))]),
        )],
        "f.stylex.ts",
        "v",
        &options,
    )
    .unwrap();
    assert_eq!(out.rules.len(), 2);
    assert!(out.rules[1].ltr.starts_with("@media print{:root, ."));
    assert!(float(out.rules[0].priority) < float(out.rules[1].priority));
}

#[test]
fn define_consts_basic_output_matches_oracle() {
    let options = ResolvedOptions::default();
    let input = obj(&[("bg", s("red")), ("size", EvalValue::Num(num(12.0)))]);
    let out = define_consts(&input, "tokens.stylex.ts", "colors", &options).unwrap();
    assert_eq!(
        EvalValue::Obj(out.js_output.clone()).to_json(),
        input.to_json()
    );
    assert_eq!(out.rules.len(), 2);
    assert_eq!(out.rules[0].class_name, "xjvywqn");
    assert_eq!(out.rules[0].const_key.as_deref(), Some("xjvywqn"));
    assert_eq!(out.rules[0].const_val, Some(Json::Str("red".to_string())));
    assert_eq!(out.rules[0].ltr, "");
    assert_eq!(out.rules[0].rtl, None);
    assert!(float(out.rules[0].priority) == 0.0);
    assert_eq!(out.rules[1].class_name, "xont6ws");
    assert_eq!(out.rules[1].const_val.as_ref().unwrap().text(), "12");
}

#[test]
fn custom_property_keys_skip_hashing() {
    let options = ResolvedOptions::default();
    let out = define_consts(
        &obj(&[("--already", s("x")), ("--", s("y"))]),
        "tokens.stylex.ts",
        "c",
        &options,
    )
    .unwrap();
    assert_eq!(out.rules[0].class_name, "already");
    assert_eq!(out.rules[1].class_name, "");
}

#[test]
fn var_safe_key_rules() {
    assert_eq!(var_safe_key("myColor"), "myColor");
    assert_eq!(var_safe_key("2xl"), "_2xl");
    assert_eq!(var_safe_key("foo-bar"), "foo_bar");
    assert_eq!(var_safe_key("ké y"), "k__y");
    assert_eq!(var_safe_key("a😀b"), "a__b");
}

#[test]
fn non_object_rejected_and_arrays_pass() {
    let options = ResolvedOptions::default();
    let err = define_consts(&s("x"), "tokens.stylex.ts", "c", &options).unwrap_err();
    assert_eq!(err.message, "defineConsts() can only accept an object.");
    let out = define_consts(
        &EvalValue::Arr(vec![s("a"), s("b")]),
        "t.stylex.ts",
        "c",
        &options,
    )
    .unwrap();
    assert_eq!(out.js_output.keys(), vec!["0", "1"]);
}

#[test]
fn at_rule_grouping_helpers_match_oracle() {
    assert_eq!(
        wrap_with_at_rules(
            ":root, .x{--a:1;}",
            "@media (max-width: 600px)__$$__@supports (display: grid)"
        ),
        "@supports (display: grid){@media (max-width: 600px){:root, .x{--a:1;}}}"
    );
    assert!(float(priority_for_at_rule("default")) == 1.0);
    assert!(float(priority_for_at_rule("@media print")) == 2.0);
    assert!(float(priority_for_at_rule("@media a__$$__@supports b")) == 3.0);
}

#[test]
fn collect_skips_null_and_opaque_values() {
    let mut collection = Vec::new();
    collect_vars_by_at_rule("a", "xh", &JsValue::Null, &mut collection, &vec![]).unwrap();
    collect_vars_by_at_rule("a", "xh", &JsValue::Bool(true), &mut collection, &vec![]).unwrap();
    collect_vars_by_at_rule("a", "xh", &JsValue::Undefined, &mut collection, &vec![]).unwrap();
    collect_vars_by_at_rule(
        "a",
        "xh",
        &JsValue::Callable(Callable::Opaque),
        &mut collection,
        &vec![],
    )
    .unwrap();
    assert!(collection.is_empty());
    let err = collect_vars_by_at_rule("a", "xh", &JsValue::array(vec![]), &mut collection, &vec![])
        .unwrap_err();
    assert_eq!(err.message, "Array is not supported in defineVars");
}

#[test]
fn missing_default_messages() {
    let mut obj = JsObj::default();
    obj.insert("@media print".to_string(), JsValue::Str("x".to_string()));
    let mut collection = Vec::new();
    let err = collect_vars_by_at_rule(
        "gap",
        "xh",
        &JsValue::object(obj.clone()),
        &mut collection,
        &vec![],
    )
    .unwrap_err();
    assert_eq!(
        err.message,
        "Default value is not defined for gap variable."
    );
    let err = get_default_value(&JsValue::object(obj)).unwrap_err();
    assert_eq!(err.message, "Default value is not defined for variable.");
    assert_eq!(get_default_value(&JsValue::Null).unwrap(), None);
    assert_eq!(
        get_default_value(&JsValue::Num(num(4.0)))
            .unwrap()
            .as_deref(),
        Some("4")
    );
    let err = get_default_value(&JsValue::Bool(true)).unwrap_err();
    assert_eq!(err.message, "Invalid value in defineVars");
}

#[test]
fn cycle_error_text_matches_oracle() {
    let dep_map = vec![
        ("a".to_string(), vec!["b".to_string()]),
        ("b".to_string(), vec!["c".to_string()]),
        ("c".to_string(), vec!["a".to_string()]),
    ];
    let err = assert_no_define_vars_cycles(&dep_map).unwrap_err();
    assert_eq!(
        err.message,
        "Cyclic same-group references in defineVars() are not allowed: a -> b -> c -> a."
    );
    let self_cycle = vec![("a".to_string(), vec!["a".to_string()])];
    let err = assert_no_define_vars_cycles(&self_cycle).unwrap_err();
    assert_eq!(
        err.message,
        "Cyclic same-group references in defineVars() are not allowed: a -> a."
    );
    let ok = vec![
        ("x".to_string(), vec!["y".to_string()]),
        ("y".to_string(), vec![]),
    ];
    assert!(assert_no_define_vars_cycles(&ok).is_ok());
}

#[test]
fn es_ordered_entries_reorders_index_keys() {
    let mut obj = JsObj::default();
    obj.insert("b".to_string(), js("1"));
    obj.insert("2".to_string(), js("2"));
    obj.insert("05".to_string(), js("3"));
    let keys: Vec<&str> = es_ordered_entries(&obj)
        .into_iter()
        .map(|(k, _)| k)
        .collect();
    assert_eq!(keys, vec!["2", "b", "05"]);
}

#[test]
fn consts_flatten_drops_non_scalars_and_recurses_default_groups() {
    let input = obj(&[(
        "a",
        obj(&[
            ("b", EvalValue::Null),
            ("c", EvalValue::Bool(true)),
            ("d", EvalValue::Arr(vec![s("x")])),
            ("e", s("kept")),
            ("f", EvalValue::Num(num(5.0))),
            ("g", obj(&[("default", s("x")), ("hovered", s("y"))])),
        ]),
    )]);
    let flat = flatten_nested_consts_config(&input).unwrap();
    assert_eq!(
        flat_pairs(&flat),
        vec![
            ("a.e".to_string(), s("kept")),
            ("a.f".to_string(), EvalValue::Num(num(5.0))),
            ("a.g.default".to_string(), s("x")),
            ("a.g.hovered".to_string(), s("y")),
        ]
    );
}

#[test]
fn vars_flatten_leaf_detection() {
    let cond = jobj(&[("default", js("blue")), ("@media x", js("dark"))]);
    let input = jobj(&[
        ("num", JsValue::Num(num(5.0))),
        ("b", jobj(&[("c", cond.clone())])),
        ("mixed", jobj(&[("default", js("a")), ("hovered", js("b"))])),
        (
            "und",
            jobj(&[("default", JsValue::Undefined), ("x", js("y"))]),
        ),
    ]);
    let flat = flatten_nested_vars_config(&input).unwrap();
    assert_eq!(
        flat_pairs(&flat),
        vec![
            (
                "b.c".to_string(),
                obj(&[("default", s("blue")), ("@media x", s("dark"))])
            ),
            ("mixed.default".to_string(), s("a")),
            ("mixed.hovered".to_string(), s("b")),
            ("und.x".to_string(), s("y")),
        ]
    );
}

#[test]
fn to_vars_config_value_reorders_default_first_and_string_coerces() {
    let leaf = jobj(&[
        (
            "@media x",
            JsValue::array(vec![JsValue::Num(num(1.0)), js("x")]),
        ),
        ("default", JsValue::Num(num(5.0))),
    ]);
    let flat = flatten_nested_vars_config(&jobj(&[("c", leaf)])).unwrap();
    assert_eq!(
        flat.get("c"),
        Some(&obj(&[("default", s("5")), ("@media x", s("1,x"))]))
    );
}

#[test]
fn dot_keys_are_rejected_at_any_depth() {
    let err = flatten_nested_consts_config(&obj(&[("a.b", s("x"))])).unwrap_err();
    assert_eq!(
        err.message,
        "Key \"a.b\" must not contain the \".\" character. Use nested objects instead of dots in key names. See: https://www.designtokens.org/tr/drafts/format/#character-restrictions"
    );
    let err = flatten_nested_vars_config(&jobj(&[("a", jobj(&[("b.c", js("x"))]))])).unwrap_err();
    assert!(err.message.starts_with("Key \"b.c\""));
    let err = flatten_nested_consts_config(&obj(&[("a.b", EvalValue::Null)])).unwrap_err();
    assert_eq!(err.code, ErrorCode::NestedKeySeparator);
}

#[test]
fn unflatten_rebuilds_and_keeps_special_keys() {
    let flat = map(&[
        ("button.primary.bg", s("var(--x1)")),
        ("button.secondary.bg", s("var(--x2)")),
        ("flat", s("var(--x3)")),
        ("__varGroupHash__", s("xh")),
    ]);
    let nested = unflatten_object(&flat);
    assert_eq!(
        flat_pairs(&nested),
        vec![
            (
                "button".to_string(),
                obj(&[
                    ("primary", obj(&[("bg", s("var(--x1)"))])),
                    ("secondary", obj(&[("bg", s("var(--x2)"))])),
                ])
            ),
            ("flat".to_string(), s("var(--x3)")),
            ("__varGroupHash__".to_string(), s("xh")),
        ]
    );
}

#[test]
fn unflatten_conflict_quirks_mirror_upstream() {
    let flat = map(&[("a.b", s("1")), ("a", s("2")), ("a.c", s("3"))]);
    let nested = unflatten_object(&flat);
    assert_eq!(flat_pairs(&nested), vec![("a".to_string(), s("2"))]);
    let flat = map(&[("a", s("1")), ("a.b", s("2"))]);
    let nested = unflatten_object(&flat);
    assert_eq!(
        flat_pairs(&nested),
        vec![("a".to_string(), obj(&[("b", s("2"))]))]
    );
}

#[test]
fn nest_define_vars_js_output_appends_hash_last() {
    let flat = map(&[("__varGroupHash__", s("xh")), ("a.b", s("var(--x1)"))]);
    let nested = nest_define_vars_js_output(&flat);
    assert_eq!(
        flat_pairs(&nested),
        vec![
            ("a".to_string(), obj(&[("b", s("var(--x1)"))])),
            ("__varGroupHash__".to_string(), s("xh")),
        ]
    );
}

fn live_css_type(kind: &str, value: JsValue) -> JsValue {
    let created = create_css_type(kind, &[to_eval_value(&value)]).unwrap();
    from_eval_value(&created)
}

#[test]
fn css_type_leaves_keep_or_unwrap_by_variant() {
    let css = live_css_type("color", js("red"));
    let flat = flatten_nested_vars_config(&jobj(&[("a", jobj(&[("b", css.clone())]))])).unwrap();
    assert_eq!(
        flat_pairs(&flat),
        vec![("a.b".to_string(), to_eval_value(&css))]
    );
    let flat = flatten_nested_overrides_config(&jobj(&[("a", css)])).unwrap();
    assert_eq!(flat_pairs(&flat), vec![("a".to_string(), s("red"))]);
}

#[test]
fn css_type_in_conditional_leaf_never_leaks_the_brand() {
    let leaf = jobj(&[
        ("default", js("blue")),
        (
            "@media print",
            live_css_type("length", JsValue::Num(num(4.0))),
        ),
    ]);
    let flat = flatten_nested_vars_config(&jobj(&[("c", leaf)])).unwrap();
    assert_eq!(
        flat.get("c"),
        Some(&obj(&[
            ("default", s("blue")),
            (
                "@media print",
                obj(&[
                    ("default", s("")),
                    ("value", s("4px")),
                    ("syntax", s("<length>")),
                ])
            ),
        ]))
    );
}

#[test]
fn proto_keys_drop_like_the_oracle_evaluator() {
    let flat =
        flatten_nested_vars_config(&jobj(&[("__proto__", js("red")), ("ok", js("blue"))])).unwrap();
    assert_eq!(flat_pairs(&flat), vec![("ok".to_string(), s("blue"))]);
    let flat = flatten_nested_vars_config(&jobj(&[
        ("__proto__", jobj(&[("x", js("red"))])),
        ("ok", js("blue")),
    ]))
    .unwrap();
    assert_eq!(flat_pairs(&flat), vec![("ok".to_string(), s("blue"))]);
    let flat = flatten_nested_vars_config(&jobj(&[
        ("a", jobj(&[("__proto__", jobj(&[("b", js("red"))]))])),
        ("ok", js("blue")),
    ]))
    .unwrap();
    assert_eq!(flat_pairs(&flat), vec![("ok".to_string(), s("blue"))]);
    let leaf = jobj(&[
        ("default", JsValue::Num(num(1.0))),
        ("__proto__", js("x")),
        ("@media print", js("y")),
    ]);
    let flat = flatten_nested_vars_config(&jobj(&[("c", leaf)])).unwrap();
    assert_eq!(
        flat.get("c"),
        Some(&obj(&[("default", s("1")), ("@media print", s("y"))]))
    );
    let flat =
        flatten_nested_consts_config(&obj(&[("__proto__", s("red")), ("ok", s("blue"))])).unwrap();
    assert_eq!(flat_pairs(&flat), vec![("ok".to_string(), s("blue"))]);
    let flat =
        flatten_nested_string_config(&obj(&[("__proto__", s("v")), ("ok", s("w"))])).unwrap();
    assert_eq!(flat_pairs(&flat), vec![("ok".to_string(), s("w"))]);
}

#[test]
fn unflatten_proto_writes_are_ordinary_object_sets() {
    let flat = map(&[("__proto__", s("1")), ("ok", s("2"))]);
    assert_eq!(
        flat_pairs(&unflatten_object(&flat)),
        vec![("ok".to_string(), s("2"))]
    );
    let flat = map(&[("__proto__.x", s("1")), ("ok", s("2"))]);
    assert_eq!(
        flat_pairs(&unflatten_object(&flat)),
        vec![("ok".to_string(), s("2"))]
    );
    let flat = map(&[("a.__proto__.b", s("1")), ("a.c", s("2"))]);
    assert_eq!(
        flat_pairs(&unflatten_object(&flat)),
        vec![("a".to_string(), obj(&[("c", s("2"))]))]
    );
}

#[test]
fn callable_leaves_string_coerce_like_the_oracle() {
    let arrow = JsValue::Callable(Callable::Arrow(0));
    let leaf = jobj(&[("default", arrow.clone()), ("@media print", js("blue"))]);
    let flat = flatten_nested_vars_config(&jobj(&[("c", leaf)])).unwrap();
    assert_eq!(
        flat.get("c"),
        Some(&obj(&[
            ("default", s(EVALUATED_FN_SOURCE)),
            ("@media print", s("blue")),
        ]))
    );
    let flat =
        flatten_nested_vars_config(&jobj(&[("c", arrow.clone()), ("ok", js("blue"))])).unwrap();
    assert_eq!(flat_pairs(&flat), vec![("ok".to_string(), s("blue"))]);
    let leaf = jobj(&[(
        "default",
        JsValue::array(vec![JsValue::Num(num(1.0)), arrow.clone()]),
    )]);
    let flat = flatten_nested_vars_config(&jobj(&[("c", leaf)])).unwrap();
    assert_eq!(
        flat.get("c"),
        Some(&obj(&[("default", s(&format!("1,{EVALUATED_FN_SOURCE}")))]))
    );
    let leaf = jobj(&[("default", arrow), ("@media print", js("x"))]);
    let flat = flatten_nested_overrides_config(&jobj(&[("c", leaf)])).unwrap();
    assert_eq!(
        flat.get("c"),
        Some(&obj(&[
            ("default", s(EVALUATED_FN_SOURCE)),
            ("@media print", s("x")),
        ]))
    );
}

#[test]
fn stylex_callables_split_types_texts_from_undefined() {
    let color = JsValue::Callable(Callable::Stylex(StylexCallable::Types("color".into())));
    let leaf = jobj(&[("default", color), ("@media print", js("blue"))]);
    let flat = flatten_nested_vars_config(&jobj(&[("c", leaf)])).unwrap();
    assert_eq!(
        flat.get("c"),
        Some(&obj(&[
            (
                "default",
                s("create(value) {\n    return new Color(value);\n  }")
            ),
            ("@media print", s("blue")),
        ]))
    );
    let kf = JsValue::Callable(Callable::Stylex(StylexCallable::Keyframes));
    let leaf = jobj(&[("default", kf), ("@media print", js("blue"))]);
    let flat = flatten_nested_vars_config(&jobj(&[("c", leaf)])).unwrap();
    assert_eq!(
        flat_pairs(&flat),
        vec![("c.@media print".to_string(), s("blue"))]
    );
}

#[test]
fn nested_constants_compile_under_their_paths() {
    let options = ResolvedOptions::default();
    let input = obj(&[("a", obj(&[("b", s("red"))])), ("c", s("blue"))]);
    let out = define_consts_nested(&input, "tokens.stylex.ts", "colors", &options).unwrap();
    assert_eq!(EvalValue::Obj(out.js_output), input);
    assert_eq!(out.rules.len(), 2);
    assert_ne!(out.rules[0].class_name, out.rules[1].class_name);
}

#[test]
fn nested_constants_come_back_as_they_were() {
    let options = ResolvedOptions::default();
    let input = obj(&[
        ("1", obj(&[("x", s("a")), ("0", s("b"))])),
        ("2", s("c")),
        ("deep", obj(&[("er", obj(&[("still", s("d"))])), ("10", s("e"))])),
        ("last", EvalValue::Num(num(1.5))),
    ]);
    let flat = flatten_nested_consts_config(&input).unwrap();
    assert_eq!(
        flat.keys(),
        vec!["2", "1.0", "1.x", "deep.10", "deep.er.still", "last"]
    );
    assert_eq!(EvalValue::Obj(unflatten_object(&flat)), input);
    let out = define_consts_nested(&input, "t.stylex.ts", "c", &options).unwrap();
    assert_eq!(EvalValue::Obj(out.js_output), input);
}

#[test]
fn the_order_of_overrides_does_not_count() {
    let options = ResolvedOptions::default();
    let proxy = JsValue::proxy(probe_proxy());
    let a = [("accent", js("red")), ("gap", js("1px")), ("10", js("x"))];
    let b = [("10", js("x")), ("gap", js("1px")), ("accent", js("red"))];
    assert_eq!(
        create_theme(&proxy, &jobj(&a), &options).unwrap(),
        create_theme(&proxy, &jobj(&b), &options).unwrap()
    );
}

#[test]
fn functions_are_copied_as_they_are() {
    for function in [
        StylexCallable::Types("length".to_string()),
        StylexCallable::Keyframes,
        StylexCallable::PositionTry,
        StylexCallable::ViewTransitionClass,
        StylexCallable::FirstThatWorks,
        StylexCallable::When,
        StylexCallable::DefaultMarker,
    ] {
        let value = JsValue::Callable(Callable::Stylex(function));
        assert_eq!(value.clone(), value);
    }
}
