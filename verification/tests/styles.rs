use stylex::errors::ErrorCode;
use stylex::json::Json;
use stylex::number::JsNumber;
use stylex::options::ResolvedOptions;
use stylex::rules::{non_finite_from_tag, non_finite_to_tag, StylexRule};
use stylex::shared::create::{
    compile_atom, compile_namespaces, dedupe_last_wins, minified_display_key, push_new_rules,
    CreateContext,
};
use stylex::shared::dev_naming::{
    convert_to_test_styles, create_short_filename, namespace_to_dev_class_name, relative_between,
    DebugPathInfo,
};
use stylex::shared::dynamic::{
    compile_dynamic_namespace, has_explicit_nullish_fallback, inherit_rules,
    inline_style_for_leaf, is_length_unit_prop, is_safe_to_skip_null_check, is_time_unit_prop,
    placeholder_var_names, ClassPart, DynamicFn, Expr, InlineStyle, Span,
};
use stylex::shared::flatten::{
    flatten_raw_style_object, unwrap_var_key, validate_namespace, PreRule, PreRuleValue,
    StyleScalar,
};
use stylex::shared::keyframes::keyframes;
use stylex::shared::markers::{
    default_marker_class_name, default_marker_object, define_marker_id, define_marker_object,
};
use stylex::shared::media_order::{dfs_can_change, dfs_process_map, media_order_transform};
use stylex::shared::media_query::{
    is_media_key, last_media_query_wins_transform, MediaQuery, MediaQueryError,
};
use stylex::shared::position_try::{position_try, position_try_shared};
use stylex::shared::transform_value::get_number_suffix;
use stylex::shared::types::{as_css_type, create_css_type, types_member_source, TYPES_MEMBERS};
use stylex::shared::view_transition::view_transition_class;
use stylex::shared::when::{coerce_to_string, resolve_marker_class, when_selector, WhenRelation};
use stylex::value::{EvalValue, JsObjectMap};

fn num(x: f64) -> JsNumber {
    JsNumber { bits: x.to_bits() }
}

fn float(x: JsNumber) -> f64 {
    f64::from_bits(x.bits)
}

fn s(v: &str) -> EvalValue {
    EvalValue::Str(v.to_string())
}

fn n(x: f64) -> EvalValue {
    EvalValue::Num(num(x))
}

fn map(entries: &[(&str, EvalValue)]) -> JsObjectMap {
    let mut out = JsObjectMap::new();
    for (k, v) in entries {
        out.set(k, v.clone());
    }
    out
}

fn obj(entries: &[(&str, EvalValue)]) -> EvalValue {
    EvalValue::Obj(map(entries))
}

fn json_obj(entries: &[(&str, Json)]) -> Json {
    Json::Obj(
        entries
            .iter()
            .map(|(k, v)| ((*k).to_string(), v.clone()))
            .collect(),
    )
}

fn json_str(v: &str) -> Json {
    Json::Str(v.to_string())
}

fn to_json(m: &JsObjectMap) -> Json {
    EvalValue::Obj(m.clone()).to_json()
}

#[test]
fn tagged_const_val_round_trips_through_metadata_tuples() {
    for (x, tag) in [
        (f64::INFINITY, "Infinity"),
        (f64::NEG_INFINITY, "-Infinity"),
        (f64::NAN, "NaN"),
    ] {
        let tagged = non_finite_to_tag(num(x)).unwrap();
        assert_eq!(tagged, json_obj(&[("__jsnum", json_str(tag))]));
        let rule = StylexRule {
            class_name: "xc".into(),
            ltr: "".into(),
            rtl: None,
            const_key: Some("xc".into()),
            const_val: Some(tagged.clone()),
            priority: num(0.0),
        };
        let round = StylexRule::from_metadata_tuple(&rule.to_metadata_tuple()).unwrap();
        assert_eq!(round.const_val, Some(tagged.clone()));
        let decoded = float(non_finite_from_tag(&tagged).unwrap());
        assert!(decoded.is_nan() == x.is_nan() && (x.is_nan() || decoded == x));
    }
    assert_eq!(non_finite_to_tag(num(1.5)), None);
    assert_eq!(
        non_finite_from_tag(&json_obj(&[("__jsnum", json_str("1"))])),
        None
    );
    assert_eq!(non_finite_from_tag(&json_str("Infinity")), None);
}

#[test]
fn metadata_tuples_that_are_no_rules_are_refused() {
    assert!(StylexRule::from_metadata_tuple(&Json::Null).is_err());
    assert!(StylexRule::from_metadata_tuple(&Json::Arr(vec![json_str("x")])).is_err());
    let rule = StylexRule::plain(
        "x1".to_string(),
        ".x1{color:red}".to_string(),
        Some(".x1{color:blue}".to_string()),
        num(3000.0),
    );
    let round = StylexRule::from_metadata_tuple(&rule.to_metadata_tuple()).unwrap();
    assert_eq!(round, rule);
}

#[test]
fn minimal_namespace_compiles_to_known_answers() {
    let namespaces = map(&[(
        "a",
        obj(&[("color", s("blue")), ("backgroundColor", s("red"))]),
    )]);
    let options = ResolvedOptions::default();
    let ctx = CreateContext::new(&options);
    let out = compile_namespaces(&namespaces, &ctx, false).unwrap();
    assert_eq!(
        to_json(&out.compiled),
        json_obj(&[(
            "a",
            json_obj(&[
                ("kMwMTN", json_str("xju2f9n")),
                ("kWkggS", json_str("xrkmrrc")),
                ("$$css", Json::Bool(true)),
            ])
        )])
    );
    assert_eq!(out.rules.len(), 2);
    assert_eq!(out.rules[0].ltr, ".xju2f9n{color:blue}");
    assert_eq!(out.rules[1].ltr, ".xrkmrrc{background-color:red}");
}

#[test]
fn non_object_namespace_errors() {
    let namespaces = map(&[("a", EvalValue::Null)]);
    let options = ResolvedOptions::default();
    let ctx = CreateContext::new(&options);
    let err = compile_namespaces(&namespaces, &ctx, false).unwrap_err();
    assert_eq!(err.message, "A StyleX namespace must be an object.");
}

#[test]
fn a_rule_shared_by_namespaces_comes_out_once() {
    let namespaces = map(&[
        ("a", obj(&[("color", s("red"))])),
        ("b", obj(&[("color", s("red")), ("width", n(10.0))])),
    ]);
    let options = ResolvedOptions::default();
    let ctx = CreateContext::new(&options);
    let out = compile_namespaces(&namespaces, &ctx, true).unwrap();
    let names: Vec<&str> = out.rules.iter().map(|r| r.class_name.as_str()).collect();
    assert_eq!(names.len(), 2);
    assert_eq!(names[0], "x1e2nbdu");
    assert_eq!(out.class_paths.len(), 2);

    let mut rules = Vec::new();
    let decls: Vec<(StylexRule, Vec<String>)> = vec![
        (out.rules[0].clone(), vec![]),
        (out.rules[0].clone(), vec![]),
        (out.rules[1].clone(), vec![]),
    ];
    push_new_rules(&mut rules, &decls);
    push_new_rules(&mut rules, &decls);
    assert_eq!(rules, out.rules);
}

#[test]
fn an_atom_compiles_like_a_namespace_of_one_declaration() {
    let options = ResolvedOptions::default();
    let ctx = CreateContext::new(&options);
    let out = compile_atom("color", "red", &ctx).unwrap();
    assert_eq!(out.rules.len(), 1);
    assert_eq!(out.rules[0].ltr, ".x1e2nbdu{color:red}");
    let Some(EvalValue::Obj(inner)) = out.compiled.get("__inline__") else {
        panic!("the declaration has its object");
    };
    assert_eq!(inner.get("kMwMTN"), Some(&s("x1e2nbdu")));
}

#[test]
fn conditions_compile_to_one_class_each() {
    let namespaces = map(&[(
        "a",
        obj(&[(
            "color",
            obj(&[
                ("default", s("red")),
                (":hover", s("blue")),
                ("@media print", EvalValue::Null),
            ]),
        )]),
    )]);
    let options = ResolvedOptions::default();
    let ctx = CreateContext::new(&options);
    let out = compile_namespaces(&namespaces, &ctx, false).unwrap();
    assert_eq!(out.rules.len(), 2);
    assert_eq!(out.rules[0].class_name, "x1e2nbdu");
    assert_eq!(
        out.rules[1].ltr,
        format!(".{}:hover{{color:blue}}", out.rules[1].class_name)
    );
    assert_eq!(float(out.rules[1].priority), 3130.0);
}

#[test]
fn the_last_declaration_of_a_key_wins() {
    let flattened = vec![
        ("color".to_string(), PreRule::Null),
        ("width".to_string(), PreRule::Null),
        (
            "color".to_string(),
            PreRule::Rule {
                property: "color".to_string(),
                value: PreRuleValue::Single(StyleScalar::Str("red".to_string())),
                key_path: None,
            },
        ),
    ];
    let kept = dedupe_last_wins(flattened);
    let keys: Vec<&str> = kept.iter().map(|(k, _)| k.as_str()).collect();
    assert_eq!(keys.len(), 2);
    let color = kept.iter().find(|(k, _)| k == "color").unwrap();
    assert!(matches!(color.1, PreRule::Rule { .. }));
}

#[test]
fn keys_are_minified_by_their_hash() {
    assert_eq!(minified_display_key("color", false), "kMwMTN");
    assert_eq!(minified_display_key("backgroundColor", false), "kWkggS");
    assert_eq!(minified_display_key("color", true), "color-kMwMTN");
}

#[test]
fn namespaces_hold_known_values_only() {
    assert!(validate_namespace(&obj(&[("color", s("red"))])).is_ok());
    assert_eq!(
        validate_namespace(&s("red")).unwrap_err().code,
        ErrorCode::IllegalNamespaceValue
    );
    assert_eq!(
        validate_namespace(&obj(&[("color", EvalValue::Bool(true))]))
            .unwrap_err()
            .code,
        ErrorCode::IllegalPropValue
    );
    assert_eq!(
        validate_namespace(&obj(&[("color", EvalValue::Arr(vec![obj(&[])]))]))
            .unwrap_err()
            .code,
        ErrorCode::IllegalPropArrayValue
    );
    assert_eq!(
        validate_namespace(&obj(&[("color", obj(&[("hover", s("red"))]))]))
            .unwrap_err()
            .code,
        ErrorCode::InvalidPseudoOrAtRule
    );
}

#[test]
fn styles_flatten_to_their_longhands() {
    let options = ResolvedOptions::default();
    let flat =
        flatten_raw_style_object(&map(&[("marginStart", s("1px")), ("color", s("red"))]), &options)
            .unwrap();
    let keys: Vec<&str> = flat.iter().map(|(k, _)| k.as_str()).collect();
    assert_eq!(keys, vec!["marginInlineStart", "color"]);
}

#[test]
fn dev_class_names() {
    assert_eq!(
        namespace_to_dev_class_name("root", Some("styles"), "/fake/root/pins.ts"),
        "pins__styles.root"
    );
    assert_eq!(
        namespace_to_dev_class_name("a", None, "/fake/root/pins.ts"),
        "pins__a"
    );
    assert_eq!(
        namespace_to_dev_class_name("weird ns$!name", Some("styles"), "/fake/root/pins.ts"),
        "pins__styles.weirdnsname"
    );
    assert_eq!(
        namespace_to_dev_class_name("0", Some("styles"), "/fake/root/pins.ts"),
        "pins__styles.0"
    );
}

#[test]
fn short_filename_branches() {
    let plain = DebugPathInfo::default();
    assert_eq!(
        create_short_filename("/fake/root/pins.ts", &plain),
        "root/pins.ts"
    );
    assert_eq!(create_short_filename("pins.ts", &plain), "pins.ts");

    let rooted = DebugPathInfo {
        root_dir: Some("/fake".to_string()),
        ..DebugPathInfo::default()
    };
    assert_eq!(
        create_short_filename("/fake/deep/nested/dir/pins.ts", &rooted),
        "deep/nested/dir/pins.ts"
    );
    let rooted_outside = DebugPathInfo {
        root_dir: Some("/fake/other".to_string()),
        ..DebugPathInfo::default()
    };
    assert_eq!(
        create_short_filename("/fake/deep/pins.ts", &rooted_outside),
        "../deep/pins.ts"
    );

    let pkg = DebugPathInfo {
        file_package: Some(("fixture-pkg".to_string(), "/tmp/x/fixture-pkg".to_string())),
        ..DebugPathInfo::default()
    };
    assert_eq!(
        create_short_filename("/tmp/x/fixture-pkg/src/thing.ts", &pkg),
        "fixture-pkg:src/thing.ts"
    );
    let same_pkg = DebugPathInfo {
        cwd_package_name: Some("fixture-pkg".to_string()),
        ..pkg
    };
    assert_eq!(
        create_short_filename("/tmp/x/fixture-pkg/src/thing.ts", &same_pkg),
        "src/thing.ts"
    );

    assert_eq!(
        create_short_filename("/fake/proj/node_modules/some-lib/dist/x.ts", &plain),
        "some-lib:dist/x.ts"
    );
    let rooted = DebugPathInfo {
        root_dir: Some("/fake".to_string()),
        ..DebugPathInfo::default()
    };
    assert_eq!(
        create_short_filename("/fake/proj/node_modules/some-lib/dist/x.ts", &rooted),
        "some-lib:proj/node_modules/some-lib/dist/x.ts"
    );
}

#[test]
fn short_filename_haste_arm() {
    let haste = DebugPathInfo {
        is_haste: true,
        ..DebugPathInfo::default()
    };
    assert_eq!(
        create_short_filename("/html/js/components/Foo.react.js", &haste),
        "Foo.react.js"
    );
    let in_package = DebugPathInfo {
        file_package: Some(("fixture-pkg".to_string(), "/tmp/x/fixture-pkg".to_string())),
        ..haste
    };
    assert_eq!(
        create_short_filename("/tmp/x/fixture-pkg/src/Foo.js", &in_package),
        "fixture-pkg:src/Foo.js"
    );
}

#[test]
fn the_way_between_two_places_leads_up_and_down() {
    assert_eq!(relative_between("/a/b", "/a/c/d"), "../c/d");
    assert_eq!(relative_between("/a", "/a/c"), "c");
}

#[test]
fn test_styles_keep_the_name_of_the_namespace() {
    let compiled = map(&[("root", obj(&[("kMwMTN", s("x1")), ("$$css", EvalValue::Bool(true))]))]);
    let out = convert_to_test_styles(&compiled, Some("styles"), Some("/x/pins.ts"));
    assert_eq!(
        out.get("root"),
        Some(&obj(&[
            ("pins__styles.root", s("pins__styles.root")),
            ("$$css", EvalValue::Bool(true)),
        ]))
    );
}

#[test]
fn wrapper_unit_pins() {
    let unit = |prop: &str| {
        if is_time_unit_prop(prop) || is_length_unit_prop(prop) {
            get_number_suffix(prop)
        } else {
            ""
        }
    };
    assert_eq!(unit("width"), "px");
    assert_eq!(unit("animationDuration"), "ms");
    assert_eq!(unit("tabSize"), "");
    assert_eq!(unit("opacity"), "");
    assert_eq!(unit("color"), "");
    assert_eq!(unit("strokeWidth"), "");
}

#[test]
fn placeholder_var_name_scan_matches_regex() {
    assert_eq!(
        placeholder_var_names(".x{width:var(--x-width)}"),
        vec!["--x-width"]
    );
    assert_eq!(
        placeholder_var_names(".x{width:var(--x-a, 10px)}"),
        vec!["--x-a"]
    );
    assert_eq!(
        placeholder_var_names(".x{margin:var(--x-a) var(--x-b)}"),
        vec!["--x-a", "--x-b"]
    );
    assert!(placeholder_var_names(".x{color:var(--other)}").is_empty());
    assert!(placeholder_var_names(".x{color:var(--x-)}").is_empty());
}

fn inline(path: &[&str]) -> InlineStyle {
    InlineStyle {
        key_path: path.iter().map(|s| s.to_string()).collect(),
        span: Span { start: 0, end: 0 },
        unit: String::new(),
        has_nullish_fallback: false,
        safe_to_skip_null_check: false,
    }
}

#[test]
fn inherit_rules_dedupe_and_pseudo_element_inherit() {
    let fns = vec![
        (
            "a".to_string(),
            DynamicFn {
                params: vec!["w".to_string()],
                inline_styles: vec![("--x-width".to_string(), inline(&["width"]))],
            },
        ),
        (
            "b".to_string(),
            DynamicFn {
                params: vec!["w".to_string()],
                inline_styles: vec![
                    ("--x-width".to_string(), inline(&["width"])),
                    ("--x-abc".to_string(), inline(&["::before", "width"])),
                ],
            },
        ),
    ];
    let rules = inherit_rules(&fns);
    assert_eq!(rules.len(), 2);
    assert_eq!(
        rules[0].ltr,
        "@property --x-width { syntax: \"*\"; inherits: false;}"
    );
    assert_eq!(
        rules[1].ltr,
        "@property --x-abc { syntax: \"*\"; inherits: true;}"
    );
    assert!(rules.iter().all(|r| float(r.priority) == 0.0));
}

#[test]
fn a_dynamic_namespace_guards_the_class_of_its_variable() {
    let options = ResolvedOptions::default();
    let ctx = CreateContext::new(&options);
    let span = Span { start: 10, end: 11 };
    let (name, style) = inline_style_for_leaf(
        &Expr::Identifier("w".to_string()),
        span,
        &vec![],
        "width",
    );
    assert_eq!(name, "--x-width");
    assert_eq!(style.unit, "px");
    let mut dynamic = DynamicFn::default();
    dynamic.params.push("w".to_string());
    dynamic.insert_inline(name, style);
    let namespaces = map(&[(
        "a",
        obj(&[("width", s("var(--x-width)")), ("color", s("red"))]),
    )]);
    let out = compile_namespaces(&namespaces, &ctx, true).unwrap();
    let Some(EvalValue::Obj(ns)) = out.compiled.get("a") else {
        panic!("the namespace is compiled");
    };
    let compiled =
        compile_dynamic_namespace(ns, &out.class_paths[0].1, &dynamic, &out.rules, &options);
    assert!(compiled.has_container());
    assert_eq!(compiled.params, vec!["w"]);
    assert_eq!(compiled.inline_vars.len(), 1);
    assert_eq!(compiled.inline_vars[0].var_name, "--x-width");
    assert_eq!(compiled.inline_vars[0].unit, "px");
    assert_eq!(compiled.inline_vars[0].expr, span);
    assert_eq!(compiled.conditional_props.len(), 1);
    assert!(compiled.conditional_props[0]
        .1
        .iter()
        .any(|p| matches!(p, ClassPart::Guarded { expr, .. } if *expr == span)));
    assert_eq!(compiled.css_tag, EvalValue::Bool(true));
}

#[test]
fn expressions_that_are_never_nullish_need_no_guard() {
    assert!(is_safe_to_skip_null_check(&Expr::Template));
    assert!(is_safe_to_skip_null_check(&Expr::NumberLiteral));
    assert!(!is_safe_to_skip_null_check(&Expr::Identifier("a".to_string())));
    assert!(is_safe_to_skip_null_check(&Expr::Conditional(
        Box::new(Expr::StringLiteral),
        Box::new(Expr::Template),
    )));
    assert!(!is_safe_to_skip_null_check(&Expr::Conditional(
        Box::new(Expr::StringLiteral),
        Box::new(Expr::NullLiteral),
    )));
    assert!(has_explicit_nullish_fallback(&Expr::NullLiteral));
    assert!(!has_explicit_nullish_fallback(&Expr::Template));
}

#[test]
fn unwrap_var_key_matches_upstream_regex() {
    assert_eq!(unwrap_var_key("var(--abc)"), "--abc");
    assert_eq!(unwrap_var_key("var(--abc123)"), "--abc123");
    assert_eq!(unwrap_var_key("var(--myVar)"), "var(--myVar)");
    assert_eq!(unwrap_var_key("var(--abc"), "var(--abc");
    assert_eq!(unwrap_var_key("var(--)"), "var(--)");
    assert_eq!(unwrap_var_key("xxvar(--ab)yy"), "r(--ab)y");
    assert_eq!(unwrap_var_key("color"), "color");
}

fn deep_rebuild(source: &JsObjectMap, depth: usize) -> JsObjectMap {
    let mut result = JsObjectMap::new();
    for (key, val) in source.entries().iter().filter(|(key, _)| key != "__proto__") {
        let processed = match val {
            EvalValue::Obj(inner) => EvalValue::Obj(deep_rebuild(inner, depth + 1)),
            other => other.clone(),
        };
        result.set(key, processed);
    }
    if depth >= 1 {
        let media_keys: Vec<String> = result
            .keys()
            .into_iter()
            .filter(|k| is_media_key(k))
            .collect();
        if !media_keys.is_empty() {
            let rewritten = last_media_query_wins_transform(&media_keys).expect("valid fixture");
            for (old_key, new_key) in media_keys.iter().zip(rewritten) {
                let value = result.remove(old_key).expect("collected from map");
                result.insert(new_key, value);
            }
        }
    }
    result
}

#[test]
fn dfs_process_map_shares_unchangeable_subtrees() {
    let hover = map(&[
        ("color", s("blue")),
        (":focus", obj(&[("color", s("green"))])),
    ]);
    let media = map(&[
        ("color", s("a")),
        ("@media (min-width: 900px)", obj(&[("color", s("b"))])),
        ("@media (min-width: 700px)", obj(&[("color", s("c"))])),
        ("__proto__", obj(&[("inherited", s("x"))])),
    ]);
    let root = map(&[
        ("color", s("red")),
        (":hover", EvalValue::Obj(hover.clone())),
        ("@media (min-width: 600px)", EvalValue::Obj(media.clone())),
        ("__proto__", obj(&[("inherited", s("y"))])),
    ]);
    assert!(dfs_can_change(&root, 0));
    let processed = dfs_process_map(&root, 0).expect("fixture transforms");
    assert_eq!(processed, deep_rebuild(&root, 0));
    assert!(!processed.contains_key("__proto__"));

    let Some(EvalValue::Obj(shared)) = processed.get(":hover") else {
        panic!(":hover survives");
    };
    assert_eq!(shared, &hover);

    let Some(EvalValue::Obj(rebuilt)) = processed.get("@media (min-width: 600px)") else {
        panic!("depth-0 media key stays verbatim");
    };
    assert_ne!(rebuilt, &media);
    assert!(!rebuilt.contains_key("__proto__"));
    assert_eq!(
        rebuilt.keys(),
        vec!["color", "@media not all", "@media (min-width: 700px)"]
    );
}

#[test]
fn media_order_is_asked_for_by_the_options() {
    let style = map(&[(
        "color",
        obj(&[
            ("default", s("a")),
            ("@media (max-width: 900px)", s("b")),
            ("@media (max-width: 500px)", s("c")),
        ]),
    )]);
    let off = ResolvedOptions {
        enable_media_query_order: false,
        ..ResolvedOptions::default()
    };
    assert_eq!(media_order_transform(&style, &off).unwrap(), None);
    let on = ResolvedOptions {
        enable_media_query_order: true,
        ..ResolvedOptions::default()
    };
    let Some(out) = media_order_transform(&style, &on).unwrap() else {
        panic!("the queries are put in order");
    };
    let Some(EvalValue::Obj(color)) = out.get("color") else {
        panic!("the property stays");
    };
    assert_eq!(
        color.keys(),
        vec![
            "default",
            "@media (min-width: 500.01px) and (max-width: 900px)",
            "@media (max-width: 500px)",
        ]
    );
    let plain = map(&[("color", s("red"))]);
    assert_eq!(media_order_transform(&plain, &on).unwrap(), None);
    assert!(!dfs_can_change(&plain, 0));
}

#[test]
fn earlier_media_queries_give_way_to_later_ones() {
    let keys = vec![
        "@media (min-width: 900px)".to_string(),
        "@media (min-width: 700px)".to_string(),
    ];
    assert_eq!(
        last_media_query_wins_transform(&keys).unwrap(),
        vec!["@media not all", "@media (min-width: 700px)"]
    );
    let one = vec!["@media print".to_string()];
    assert_eq!(
        last_media_query_wins_transform(&one).unwrap(),
        vec!["@media print"]
    );
    assert!(is_media_key("@media print"));
    assert!(!is_media_key("@supports (a: b)"));
}

#[test]
fn media_queries_print_in_their_one_form() {
    let print = |q: &str| MediaQuery::parse(q).map(|m| m.to_text());
    assert_eq!(print("@media print").unwrap(), "@media print");
    assert_eq!(
        print("@media screen and (min-width: 100px)").unwrap(),
        "@media (screen) and (min-width: 100px)"
    );
    assert!(print("@media (min-width").is_err());
    let err = print("@media (min-width: 1px").unwrap_err();
    assert!(matches!(err, MediaQueryError::Syntax(_)));
    assert_eq!(err.to_text(), "Invalid media query syntax.");
}

#[test]
fn basic_frames_match_oracle() {
    let frames = obj(&[
        ("from", obj(&[("opacity", n(0.0))])),
        ("to", obj(&[("opacity", n(1.0))])),
    ]);
    let options = ResolvedOptions::default();
    let (name, rule) = keyframes(&frames, &options).unwrap();
    assert_eq!(name, "x18re5ia-B");
    assert_eq!(
        rule.ltr,
        "@keyframes x18re5ia-B{from{opacity:0;}to{opacity:1;}}"
    );
    assert_eq!(rule.rtl, None);
    assert!(float(rule.priority) == 0.0);
}

#[test]
fn rtl_emitted_only_when_different() {
    let options = ResolvedOptions::default();
    let frames = obj(&[
        ("from", obj(&[("float", s("inline-start"))])),
        ("to", obj(&[("float", s("inline-end"))])),
    ]);
    let (_, rule) = keyframes(&frames, &options).unwrap();
    assert_eq!(
        rule.ltr,
        "@keyframes x1uod70n-B{from{float:left;}to{float:right;}}"
    );
    assert_eq!(
        rule.rtl.as_deref(),
        Some("@keyframes x1uod70n-B{from{float:right;}to{float:left;}}")
    );
}

#[test]
fn frame_validation() {
    let options = ResolvedOptions::default();
    let err = keyframes(&s("x"), &options).unwrap_err();
    assert_eq!(err.message, "keyframes() can only accept an object.");
    let err = keyframes(&obj(&[("from", s("x"))]), &options).unwrap_err();
    assert_eq!(
        err.message,
        "Every frame within a keyframes() call must be an object."
    );
    let err = keyframes(&obj(&[("from", EvalValue::Null)]), &options).unwrap_err();
    assert_eq!(err.code, ErrorCode::UpstreamTypeError);
}

#[test]
fn oracle_pinned_objects() {
    let options = ResolvedOptions::default();
    assert_eq!(
        to_json(&default_marker_object(&options)),
        json_obj(&[
            ("x-default-marker", json_str("x-default-marker")),
            ("$$css", Json::Bool(true)),
        ])
    );
    let prefixed = ResolvedOptions {
        class_name_prefix: "pfx".to_string(),
        ..ResolvedOptions::default()
    };
    assert_eq!(default_marker_class_name(&prefixed), "pfx-default-marker");
    assert_eq!(
        to_json(&define_marker_object("tokens.stylex.ts", "marker", &options)),
        json_obj(&[("xleysvp", json_str("xleysvp")), ("$$css", Json::Bool(true))])
    );
    assert_eq!(
        define_marker_id("tokens.stylex.ts", "marker", &prefixed),
        "pfxleysvp"
    );
}

#[test]
fn position_try_basic_output_matches_oracle() {
    let options = ResolvedOptions::default();
    let styles = obj(&[("width", n(100.0)), ("top", n(0.0))]);
    let (name, rule) = position_try(&styles, &options).unwrap();
    assert_eq!(name, "--x1cy0vnv");
    assert_eq!(
        rule.ltr,
        "@position-try --x1cy0vnv {top:top;top:0;width:width;width:100px;}"
    );
    assert_eq!(
        rule.rtl.as_deref(),
        Some("@position-try --x1cy0vnv {top:0;width:100px;}")
    );
    assert!(float(rule.priority) == 0.0);
    assert_eq!(rule.const_key, None);
    assert_eq!(position_try_shared(&styles, &options).unwrap(), (name, rule));
}

#[test]
fn empty_styles_have_no_rtl() {
    let options = ResolvedOptions::default();
    let (name, rule) = position_try(&obj(&[]), &options).unwrap();
    assert_eq!(name, "--xph554m");
    assert_eq!(rule.ltr, "@position-try --xph554m {}");
    assert_eq!(rule.rtl, None);
}

#[test]
fn position_try_validation_errors() {
    let options = ResolvedOptions::default();
    let err = position_try(&s("x"), &options).unwrap_err();
    assert_eq!(err.message, "positionTry() can only accept an object.");
    let err = position_try(&EvalValue::Arr(vec![s("x")]), &options).unwrap_err();
    assert_eq!(err.message, "positionTry() can only accept an object.");
    let err = position_try(&obj(&[("color", s("red"))]), &options).unwrap_err();
    assert_eq!(err.code, ErrorCode::PositionTryInvalidProperty);
    let err = position_try(&obj(&[("position-anchor", s("--x"))]), &options).unwrap_err();
    assert_eq!(err.code, ErrorCode::PositionTryInvalidProperty);
}

fn value_of(kind: &str, arg: EvalValue) -> EvalValue {
    let EvalValue::Obj(map) = create_css_type(kind, &[arg]).unwrap() else {
        panic!("expected object");
    };
    map.get("value").unwrap().clone()
}

#[test]
fn syntax_strings_cover_all_kinds() {
    let expected = [
        ("angle", "<angle>"),
        ("color", "<color>"),
        ("url", "<url>"),
        ("image", "<image>"),
        ("integer", "<integer>"),
        ("lengthPercentage", "<length-percentage>"),
        ("length", "<length>"),
        ("percentage", "<percentage>"),
        ("number", "<number>"),
        ("resolution", "<resolution>"),
        ("time", "<time>"),
        ("transformFunction", "<transform-function>"),
        ("transformList", "<transform-list>"),
    ];
    assert_eq!(TYPES_MEMBERS.len(), expected.len());
    for (kind, syntax) in expected {
        let created = create_css_type(kind, &[s("x")]).unwrap();
        let css = as_css_type(&created).unwrap();
        assert_eq!(css.syntax, syntax, "{kind}");
        assert!(types_member_source(kind).is_some());
    }
    assert_eq!(types_member_source("none"), None);
}

#[test]
fn number_conversions_match_oracle() {
    assert_eq!(value_of("length", n(0.0)), s("0"));
    assert_eq!(value_of("length", n(5.0)), s("5px"));
    assert_eq!(value_of("lengthPercentage", n(0.5)), s("0.5px"));
    assert_eq!(value_of("percentage", n(0.0)), s("0"));
    assert_eq!(value_of("percentage", n(0.07)), s("7.000000000000001%"));
    assert_eq!(value_of("integer", n(1.5)), s("1.5"));
    assert_eq!(value_of("number", n(0.0)), s("0"));
    assert_eq!(value_of("angle", n(45.0)), n(45.0));
    assert_eq!(value_of("time", n(500.0)), n(500.0));
    assert_eq!(value_of("percentage", s("50%")), s("50%"));
}

#[test]
fn nullish_values_are_not_css_types() {
    let created = create_css_type("color", &[EvalValue::Null]).unwrap();
    assert!(as_css_type(&created).is_none());
    let none = create_css_type("color", &[]).unwrap();
    assert!(as_css_type(&none).is_none());
    let err = create_css_type("length", &[EvalValue::Null]).unwrap_err();
    assert_eq!(err.code, ErrorCode::UpstreamTypeError);
}

#[test]
fn nested_objects_convert_recursively() {
    let inner = obj(&[
        ("default", n(0.5)),
        ("@media (min-width: 900px)", n(0.75)),
    ]);
    let value = value_of("percentage", inner);
    let EvalValue::Obj(map) = value else {
        panic!("expected object");
    };
    assert_eq!(map.get("default"), Some(&s("50%")));
    assert_eq!(map.get("@media (min-width: 900px)"), Some(&s("75%")));
}

#[test]
fn view_transition_basic_output_matches_oracle() {
    let options = ResolvedOptions::default();
    let styles = obj(&[
        ("group", obj(&[("transitionProperty", s("none"))])),
        ("imagePair", obj(&[("borderRadius", n(16.0))])),
        ("old", obj(&[("animationDuration", s("0.5s"))])),
        ("new", obj(&[("animationTimingFunction", s("ease-out"))])),
    ]);
    let (name, rule) = view_transition_class(&styles, &options).unwrap();
    assert_eq!(name, "xchu1hv");
    assert_eq!(
        rule.ltr,
        "::view-transition-group(*.xchu1hv){transition-property:none;}::view-transition-image-pair(*.xchu1hv){border-radius:16px;}::view-transition-old(*.xchu1hv){animation-duration:.5s;}::view-transition-new(*.xchu1hv){animation-timing-function:ease-out;}"
    );
    assert_eq!(rule.rtl, None);
    assert!(float(rule.priority) == 1.0);
}

#[test]
fn key_order_changes_hash() {
    let options = ResolvedOptions::default();
    let styles = obj(&[
        ("new", obj(&[("animationTimingFunction", s("ease-out"))])),
        ("old", obj(&[("animationDuration", s("0.5s"))])),
    ]);
    let (name, _) = view_transition_class(&styles, &options).unwrap();
    assert_eq!(name, "x1ujng0t");
}

#[test]
fn weird_style_values() {
    let options = ResolvedOptions::default();
    let (name, rule) = view_transition_class(&obj(&[("group", s("ab"))]), &options).unwrap();
    assert_eq!(name, "xw9mpwj");
    assert_eq!(rule.ltr, "::view-transition-group(*.xw9mpwj){0:a;1:b;}");
    let (name, rule) = view_transition_class(&obj(&[("group", n(5.0))]), &options).unwrap();
    assert_eq!(name, "x1od172d");
    assert_eq!(rule.ltr, "::view-transition-group(*.x1od172d){}");
    let err = view_transition_class(&obj(&[("group", EvalValue::Null)]), &options).unwrap_err();
    assert_eq!(err.code, ErrorCode::UpstreamTypeError);
}

#[test]
fn view_transition_validation_errors() {
    let options = ResolvedOptions::default();
    let err = view_transition_class(&s("x"), &options).unwrap_err();
    assert_eq!(
        err.message,
        "viewTransitionClass() can only accept an object."
    );
    let err = view_transition_class(&obj(&[("groups", obj(&[]))]), &options).unwrap_err();
    assert_eq!(err.code, ErrorCode::ViewTransitionClassInvalidProperty);
}

#[test]
fn five_shapes_with_default_marker() {
    let o = ResolvedOptions::default();
    let cases = [
        (WhenRelation::Ancestor, ":where(.x-default-marker:hover *)"),
        (
            WhenRelation::Descendant,
            ":where(:has(.x-default-marker:hover))",
        ),
        (
            WhenRelation::SiblingBefore,
            ":where(.x-default-marker:hover ~ *)",
        ),
        (
            WhenRelation::SiblingAfter,
            ":where(:has(~ .x-default-marker:hover))",
        ),
        (
            WhenRelation::AnySibling,
            ":where(.x-default-marker:hover ~ *, :has(~ .x-default-marker:hover))",
        ),
    ];
    for (relation, expected) in cases {
        assert_eq!(
            when_selector(relation, ":hover", None, &o).unwrap(),
            expected
        );
    }
}

#[test]
fn marker_resolution() {
    let o = ResolvedOptions::default();
    assert_eq!(resolve_marker_class(Some(&s("my-marker")), &o), "my-marker");
    assert_eq!(resolve_marker_class(None, &o), "x-default-marker");
    assert_eq!(
        resolve_marker_class(Some(&EvalValue::Null), &o),
        "x-default-marker"
    );
    let marker = obj(&[("xleysvp", s("xleysvp")), ("$$css", EvalValue::Bool(true))]);
    assert_eq!(resolve_marker_class(Some(&marker), &o), "xleysvp");
    assert_eq!(resolve_marker_class(Some(&obj(&[])), &o), "default-marker");
    assert_eq!(resolve_marker_class(Some(&n(5.0)), &o), "default-marker");
    let css_only = obj(&[("$$css", EvalValue::Bool(true))]);
    assert_eq!(resolve_marker_class(Some(&css_only), &o), "default-marker");
}

#[test]
fn validation_messages() {
    let o = ResolvedOptions::default();
    let err = when_selector(WhenRelation::Ancestor, "hover", None, &o).unwrap_err();
    assert_eq!(
        err.message,
        "Pseudo selector must start with \":\" or \"[\""
    );
    let err = when_selector(WhenRelation::Ancestor, "::before", None, &o).unwrap_err();
    assert_eq!(
        err.message,
        "Pseudo selector cannot start with \"::\" (pseudo-elements are not supported)"
    );
    let err = when_selector(WhenRelation::Ancestor, "[data-open", None, &o).unwrap_err();
    assert_eq!(err.message, "Attribute selector must end with \"]\"");
    assert!(when_selector(WhenRelation::Ancestor, ":", None, &o).is_ok());
    assert!(when_selector(WhenRelation::Ancestor, "[]", None, &o).is_ok());
}

#[test]
fn relations_have_their_names() {
    assert_eq!(
        WhenRelation::from_name("ancestor"),
        Some(WhenRelation::Ancestor)
    );
    assert_eq!(
        WhenRelation::from_name("anySibling"),
        Some(WhenRelation::AnySibling)
    );
    assert_eq!(WhenRelation::from_name("parent"), None);
    assert_eq!(coerce_to_string(&n(1.5)), "1.5");
    assert_eq!(
        coerce_to_string(&EvalValue::Arr(vec![s("a"), EvalValue::Null, n(2.0)])),
        ""
    );
}

#[test]
fn breakpoints_are_bounded_by_the_next_ones() {
    let rewrite = |keys: &[&str]| {
        last_media_query_wins_transform(&keys.iter().map(|k| k.to_string()).collect()).unwrap()
    };
    assert_eq!(
        rewrite(&[
            "@media (max-width: 1440px)",
            "@media (max-width: 1024px)",
            "@media (max-width: 768px)",
        ]),
        vec![
            "@media (min-width: 1024.01px) and (max-width: 1440px)",
            "@media (min-width: 768.01px) and (max-width: 1024px)",
            "@media (max-width: 768px)",
        ]
    );
    assert_eq!(
        rewrite(&[
            "@media (min-width: 768px)",
            "@media (min-width: 1024px)",
            "@media (min-width: 1440px)",
        ]),
        vec![
            "@media (min-width: 768px) and (max-width: 1023.99px)",
            "@media (min-width: 1024px) and (max-width: 1439.99px)",
            "@media (min-width: 1440px)",
        ]
    );
}

#[test]
fn media_queries_of_all_forms_are_read() {
    let print = |q: &str| MediaQuery::parse(q).map(|m| m.to_text());
    for (query, text) in [
        ("@media not screen", "@media not screen"),
        ("@media only print", "@media only print"),
        ("@media screen, print", "@media (screen), (print)"),
        ("@media (color)", "@media (color)"),
        (
            "@media (orientation: landscape)",
            "@media (orientation: landscape)",
        ),
        (
            "@media (aspect-ratio: 16 / 9)",
            "@media (aspect-ratio: 16 / 9)",
        ),
        ("@media (width >= 600px)", "@media (min-width: 600px)"),
        (
            "@media (600px < width <= 900px)",
            "@media (min-width: 600.01px) and (max-width: 900px)",
        ),
        (
            "@media not (min-width: 10px)",
            "@media (not (min-width: 10px))",
        ),
    ] {
        assert_eq!(print(query).as_deref(), Ok(text), "{query}");
    }
    assert!(matches!(
        print("@media (min-width: 1\u{e9})"),
        Err(MediaQueryError::Unverified { .. })
    ));
    assert_eq!(
        print("@media (min-width: \\31 px)").unwrap_err().to_text(),
        "unverified media query form: @media (min-width: \\31 px)"
    );
}

#[test]
fn priorities_that_are_not_finite_are_refused() {
    for priority in [f64::NAN, f64::INFINITY, f64::NEG_INFINITY] {
        let rule = StylexRule::plain("x1".to_string(), ".x1{}".to_string(), None, num(priority));
        let Json::Arr(tuple) = rule.to_metadata_tuple() else {
            panic!("expected an array");
        };
        assert_eq!(tuple[2], Json::Null);
        assert_eq!(
            StylexRule::from_metadata_tuple(&Json::Arr(tuple)).unwrap_err(),
            "priority must be a number"
        );
    }
    assert!(StylexRule::from_metadata_tuple(&Json::Arr(vec![
        json_str("x1"),
        Json::Obj(vec![("ltr".to_string(), json_str("x"))]),
        Json::Double(num(f64::INFINITY)),
    ]))
    .is_err());
}

#[test]
fn class_names_in_the_output_have_rules() {
    let options = ResolvedOptions {
        dev: true,
        enable_dev_class_names: true,
        ..ResolvedOptions::default()
    };
    let mut ctx = CreateContext::new(&options);
    ctx.filename = Some("/a/b.js".to_string());
    let namespaces = map(&[
        ("a", obj(&[("color", s("red")), ("margin", s("1px")), ("padding", EvalValue::Null)])),
        ("b", obj(&[("color", s("red")), (":hover", obj(&[("color", s("blue"))]))])),
    ]);
    let out = compile_namespaces(&namespaces, &ctx, false).unwrap();
    let mut found = 0;
    for (_, namespace) in out.compiled.entries() {
        let EvalValue::Obj(namespace) = namespace else {
            panic!("expected an object");
        };
        for (key, value) in namespace.entries() {
            if key == "$$css" {
                continue;
            }
            match value {
                EvalValue::Null => {}
                EvalValue::Str(text) if text == key => {}
                EvalValue::Str(text) => {
                    for class in text.split(' ') {
                        assert!(out.rules.iter().any(|rule| rule.class_name == class), "{class}");
                        found += 1;
                    }
                }
                other => panic!("{other:?}"),
            }
        }
    }
    assert!(found >= 4);
}
