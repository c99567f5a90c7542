use stylex::errors::ErrorCode;
use stylex::number::JsNumber;
use stylex::options::{
    PropertyValidationMode, ResolvedOptions, StyleResolution,
};
use stylex::shared::css_value;
use stylex::shared::css_value::{parse, unit, Dimension, Kind, Node, NodeModel, NodeVisitor};
use stylex::shared::dashify::{dashed_key, dashify, sanitize_dev_class_name};
use stylex::shared::fallbacks::variable_fallbacks;
use stylex::shared::flatten::{PreRuleValue, StyleScalar};
use stylex::shared::generate_rule::{convert_style_to_class_name, css_value_error};
use stylex::shared::memo::{encode_memo_key, ConvertMemo};
use stylex::shared::normalize_value::{js_parse_float, normalize_value, CssValueError};
use stylex::shared::priorities::get_priority;
use stylex::shared::pseudo_sort::{sort_at_rules, sort_pseudos};
use stylex::shared::resolution::{flat_map_expanded_shorthands, LOGICAL_START_VAR};
use stylex::shared::rtl::{generate_ltr, generate_rtl, RtlContext};
use stylex::shared::split_css_value::split_value;
use stylex::shared::transform_value::{
    get_number_suffix, transform_value_num, transform_value_str,
};

fn num(x: f64) -> JsNumber {
    JsNumber { bits: x.to_bits() }
}

fn float(x: JsNumber) -> f64 {
    f64::from_bits(x.bits)
}

fn roundtrip(input: &str) -> String {
    css_value::stringify(&parse(input))
}

#[test]
fn roundtrips_preserve_source() {
    for input in [
        "1px solid red",
        "  1px   solid   red  ",
        "calc( 100% - 10px )",
        "calc(100%/3)",
        "url( ./a.png )",
        "url(data:image/png;base64,iVBOR)",
        "url(\"a b.png\")",
        "var(--x, 10px)",
        "\"say \\\"hi\\\"\"",
        "'a' \"b\"",
        "U+0025-00FF",
        "translateX(0px) translateY(0px)",
        "16 / 9",
        "16/9",
        "/* c */ 10px",
        "rgb(255 0 0 / 0.5)",
    ] {
        assert_eq!(roundtrip(input), input, "roundtrip({input:?})");
    }
}

#[test]
fn unclosed_string_and_function() {
    let nodes = parse("\"abc");
    assert_eq!(nodes.len(), 1);
    assert!(nodes[0].unclosed);
    assert_eq!(nodes[0].kind, Kind::Str);
    assert_eq!(css_value::stringify(&nodes), "\"abc");

    let nodes = parse("calc(100%");
    assert_eq!(nodes.len(), 1);
    assert!(nodes[0].unclosed);
    assert_eq!(nodes[0].kind, Kind::Func);
    assert_eq!(css_value::stringify(&nodes), "calc(100%");
}

#[test]
fn whitespace_before_div_becomes_before() {
    let nodes = parse("a , b");
    let div = nodes.iter().find(|n| n.kind == Kind::Div).unwrap();
    assert_eq!(div.before, " ");
    assert_eq!(div.after, " ");
}

#[test]
fn slash_whitespace_after_closed_function_stays_space() {
    let nodes = parse("calc(10px) 2px / 3px");
    let kinds: Vec<Kind> = nodes.iter().map(|n| n.kind).collect();
    assert_eq!(
        kinds,
        vec![
            Kind::Func,
            Kind::Space,
            Kind::Word,
            Kind::Space,
            Kind::Div,
            Kind::Word
        ]
    );
    let div = &nodes[4];
    assert_eq!(div.before, "");
}

#[test]
fn unit_matches_reference_behavior() {
    assert_eq!(
        unit("500ms"),
        Some(Dimension {
            number: "500",
            unit: "ms"
        })
    );
    assert_eq!(
        unit(".5.5px"),
        Some(Dimension {
            number: ".5",
            unit: ".5px"
        })
    );
    assert_eq!(
        unit("1e-7px"),
        Some(Dimension {
            number: "1e-7",
            unit: "px"
        })
    );
    assert_eq!(
        unit("-0px"),
        Some(Dimension {
            number: "-0",
            unit: "px"
        })
    );
    assert_eq!(unit("Infinityms"), None);
    assert_eq!(unit("px"), None);
    assert_eq!(unit(""), None);
    assert_eq!(
        unit("5e"),
        Some(Dimension {
            number: "5",
            unit: "e"
        })
    );
}

#[test]
fn dashify_basics() {
    assert_eq!(dashify("backgroundColor"), "background-color");
    assert_eq!(dashify("WebkitTransform"), "-webkit-transform");
    assert_eq!(dashify("backgroundURL"), "background-url");
    assert_eq!(dashify("notARealProp"), "not-areal-prop");
}

#[test]
fn custom_property_passthrough() {
    assert_eq!(dashed_key("--customProp"), "--customProp");
    assert_eq!(dashify("--customProp"), "--custom-prop");
    assert_eq!(dashed_key("borderTopColor"), "border-top-color");
}

#[test]
fn sanitizer_strips_disallowed() {
    assert_eq!(
        sanitize_dev_class_name("My File__s.a b?c\u{2192}d"),
        "MyFile__s.abcd"
    );
    assert_eq!(sanitize_dev_class_name(""), "");
}

fn v(items: &[&str]) -> Vec<String> {
    items.iter().map(|s| s.to_string()).collect()
}

#[test]
fn oracle_pinned_shapes() {
    assert_eq!(
        variable_fallbacks(&v(&["var(--a)", "red"])).unwrap(),
        v(&["var(--a)", "red"])
    );
    assert_eq!(
        variable_fallbacks(&v(&["red", "var(--a)", "var(--b)", "blue"])).unwrap(),
        v(&["var(--b,var(--a,red))", "blue"])
    );
    assert_eq!(
        variable_fallbacks(&v(&["red", "blue", "var(--a)", "var(--b)"])).unwrap(),
        v(&["var(--b,var(--a,red))", "var(--b,var(--a,blue))"])
    );
    assert_eq!(
        variable_fallbacks(&v(&["var(--a)", "var(--b)"])).unwrap(),
        v(&["var(--b,var(--a))"])
    );
    assert_eq!(
        variable_fallbacks(&v(&["var(--a)"])).unwrap(),
        v(&["var(--a)"])
    );
}

#[test]
fn non_contiguous_vars_throw() {
    let err = variable_fallbacks(&v(&["var(--a)", "red", "var(--b)"])).unwrap_err();
    assert_eq!(err.code, ErrorCode::NonContiguousVars);
    assert_eq!(
        err.message,
        "All variables passed to firstThatWorks() must be contiguous."
    );
}

#[test]
fn known_answer_color_red() {
    let decl = convert_style_to_class_name(
        "color",
        &PreRuleValue::Single(StyleScalar::Str("red".to_string())),
        &[],
        &[],
        &[],
        &ResolvedOptions::default(),
    )
    .unwrap();
    assert_eq!(decl.class_name, "x1e2nbdu");
    assert_eq!(decl.ltr, ".x1e2nbdu{color:red}");
    assert_eq!(decl.rtl, None);
    assert_eq!(float(decl.priority), 3000.0);
}

#[test]
fn thumb_and_where_selector_shapes() {
    let decl = convert_style_to_class_name(
        "width",
        &PreRuleValue::Single(StyleScalar::Num(num(16.0))),
        &[":hover", "::thumb"],
        &[],
        &[],
        &ResolvedOptions::default(),
    )
    .unwrap();
    assert_eq!(
        decl.ltr,
        format!(
            ".{c}:hover::-webkit-slider-thumb, .{c}:hover::-moz-range-thumb, .{c}:hover::-ms-thumb{{width:16px}}",
            c = decl.class_name
        )
    );
    assert_eq!(float(decl.priority), 9130.0);

    let decl = convert_style_to_class_name(
        "color",
        &PreRuleValue::Single(StyleScalar::Str("blue".to_string())),
        &[":where(.x-default-marker:hover *)"],
        &[],
        &[],
        &ResolvedOptions::default(),
    )
    .unwrap();
    assert_eq!(decl.class_name, "xobp4yc");
    assert_eq!(
        decl.ltr,
        ".xobp4yc.xobp4yc:where(.x-default-marker:hover *){color:blue}"
    );
    assert_eq!(float(decl.priority), 3011.3);
}

#[test]
fn at_rules_wrap_the_rule_and_repeat_the_class() {
    let decl = convert_style_to_class_name(
        "color",
        &PreRuleValue::Single(StyleScalar::Str("red".to_string())),
        &[],
        &["@supports (color: red)", "@media print"],
        &[],
        &ResolvedOptions::default(),
    )
    .unwrap();
    let c = &decl.class_name;
    assert_eq!(
        decl.ltr,
        format!("@supports (color: red){{@media print{{.{c}.{c}.{c}{{color:red}}}}}}")
    );
    assert_eq!(float(decl.priority), 3230.0);
}

#[test]
fn a_logical_property_gives_a_rule_for_each_direction() {
    let decl = convert_style_to_class_name(
        "float",
        &PreRuleValue::Single(StyleScalar::Str("inline-start".to_string())),
        &[],
        &[],
        &[],
        &ResolvedOptions::default(),
    )
    .unwrap();
    let c = &decl.class_name;
    assert_eq!(decl.ltr, format!(".{c}{{float:left}}"));
    assert_eq!(decl.rtl, Some(format!(".{c}{{float:right}}")));
}

#[test]
fn error_messages_match_upstream() {
    assert_eq!(
        normalize_value("calc(", "width", false),
        Err(CssValueError::UnclosedFunction)
    );
    assert_eq!(
        normalize_value("\"abc", "width", false),
        Err(CssValueError::UnclosedString)
    );
    assert_eq!(
        CssValueError::UnclosedFunction.to_text(),
        "Rule contains an unclosed function"
    );
    assert_eq!(
        CssValueError::UnclosedString.to_text(),
        "Rule contains an unclosed string"
    );
    assert_eq!(
        css_value_error(CssValueError::UnclosedFunction).code,
        ErrorCode::UnclosedFunction
    );
    assert_eq!(
        css_value_error(CssValueError::UnclosedString).code,
        ErrorCode::UnclosedString
    );
    assert_eq!(
        css_value_error(CssValueError::EmptyValue).code,
        ErrorCode::EmptyValue
    );
}

#[test]
fn mid_value_important_reproduces_upstream_throw() {
    assert_eq!(
        normalize_value("a !important b", "width", false),
        Err(CssValueError::EmptyValue)
    );
    assert_eq!(
        normalize_value("1px !important 2px", "margin", false),
        Err(CssValueError::EmptyValue)
    );
    assert_eq!(
        normalize_value("1px !important !important", "width", false),
        Err(CssValueError::EmptyValue)
    );
    assert_eq!(
        normalize_value("1px !important", "margin", false).unwrap(),
        "1px!important"
    );
    assert_eq!(
        normalize_value("!important 1px", "width", false).unwrap(),
        "!important 1px"
    );
}

#[test]
fn empty_and_whitespace_only_error() {
    assert_eq!(
        normalize_value("", "width", false),
        Err(CssValueError::EmptyValue)
    );
    assert_eq!(
        normalize_value(" ", "width", false),
        Err(CssValueError::EmptyValue)
    );
}

#[test]
fn js_parse_float_prefix_semantics() {
    let parse = |s: &str| js_parse_float(s).map(float);
    assert_eq!(parse("500ms"), Some(500.0));
    assert_eq!(parse(".5em"), Some(0.5));
    assert_eq!(parse("+.5"), Some(0.5));
    assert_eq!(parse("-0px"), Some(-0.0));
    assert!(parse("-0px").unwrap().is_sign_negative());
    assert_eq!(parse("5.e3"), Some(5000.0));
    assert_eq!(parse("5e"), Some(5.0));
    assert_eq!(parse("5e+"), Some(5.0));
    assert_eq!(parse("1e-7px"), Some(1e-7));
    assert_eq!(parse("Infinityms"), Some(f64::INFINITY));
    assert_eq!(parse("-Infinity"), Some(f64::NEG_INFINITY));
    assert_eq!(parse("solid"), None);
    assert_eq!(parse(".e3"), None);
    assert_eq!(parse("0x10"), Some(0.0));
}

fn rem(value: &str) -> String {
    normalize_value(value, "fontSize", true).unwrap()
}

#[test]
fn font_size_px_to_rem_divides_by_sixteen() {
    assert_eq!(rem("24px"), "1.5rem");
    assert_eq!(rem("+24px"), "1.5rem");
    assert_eq!(rem("-24px"), "-1.5rem");
    assert_eq!(rem("24px 12px"), "1.5rem 0.75rem");
    assert_eq!(rem("1.25rem"), "1.25rem");
    assert_eq!(rem("inherit"), "inherit");
    assert_eq!(normalize_value("24px", "fontSize", false).unwrap(), "24px");
    for key in ["font-size", "fontSizeAdjust", "--fontSize", "font"] {
        assert_eq!(normalize_value("24px", key, true).unwrap(), "24px", "{key}");
    }
}

#[test]
fn font_size_px_to_rem_runs_after_the_other_normalizers() {
    assert_eq!(rem("0.5px"), "0.03125rem");
    assert_eq!(rem("0px"), "0");
    assert_eq!(normalize_value("0", "fontSize", true).unwrap(), "0");
    assert_eq!(rem("0x10px"), "0");
}

#[test]
fn font_size_px_to_rem_number_formatting_matches_js() {
    assert_eq!(rem("-0px"), "0rem");
    assert_eq!(rem("5e-324px"), "0rem");
    assert_eq!(rem("1e-7px"), "6.25e-9rem");
    assert_eq!(rem("1.6e-6px"), "1e-7rem");
    assert_eq!(rem("1e-6px"), "6.25e-8rem");
    assert_eq!(rem("0.000001px"), "6.25e-8rem");
    assert_eq!(rem("0.0000001px"), "6.25e-9rem");
    assert_eq!(rem("1e21px"), "62500000000000000000rem");
    assert_eq!(rem("1e300px"), "6.25e+298rem");
    assert_eq!(
        rem("1.7976931348623157e308px"),
        "1.1235582092889473e+307rem"
    );
    assert_eq!(
        rem("123456789012345678901234567890px"),
        "7.716049313271605e+27rem"
    );
    assert_eq!(rem("0.30000000000000004px"), "0.018750000000000003rem");
}

#[test]
fn font_size_px_to_rem_walks_functions_and_skips_non_px_words() {
    assert_eq!(rem("calc(100% - 24px)"), "calc(100% - 1.5rem)");
    assert_eq!(rem("clamp(12px, 2vw, 24px)"), "clamp(0.75rem,2vw,1.5rem)");
    assert_eq!(rem("url(24px)"), "url(1.5rem)");
    assert_eq!(rem("attr(24px)"), "attr(1.5rem)");
    assert_eq!(rem("'24px'"), "'24px'");
    for value in [
        "1PX",
        "1Px",
        "px",
        "-px",
        ".px",
        "1.px",
        "--24px",
        "24pxx",
        "24 px",
        "Infinitypx",
        "NaNpx",
        "24px!important",
    ] {
        assert_eq!(rem(value), value, "{value}");
    }
}

#[test]
fn camel_case_values_dashify_for_gated_keys_only() {
    assert_eq!(
        normalize_value("marginTop, opacity", "transitionProperty", false).unwrap(),
        "margin-top,opacity"
    );
    assert_eq!(
        normalize_value("WebkitFilter", "willChange", false).unwrap(),
        "-webkit-filter"
    );
    assert_eq!(
        normalize_value("--customProp", "willChange", false).unwrap(),
        "--customProp"
    );
    assert_eq!(
        normalize_value("marginTop", "color", false).unwrap(),
        "marginTop"
    );
}

#[test]
fn spot_values() {
    let get = |k: &str| float(get_priority(k));
    assert_eq!(get("--anything"), 1.0);
    assert_eq!(get("@supports (display: grid)"), 30.0);
    assert_eq!(get("@media (min-width: 600px)"), 200.0);
    assert_eq!(get("@container (min-width: 100px)"), 300.0);
    assert_eq!(get(":hover"), 130.0);
    assert_eq!(get(":focusWithin"), 140.0);
    assert_eq!(get(":focus-within"), 40.0);
    assert_eq!(get("::before"), 5000.0);
    assert_eq!(get(":hover:active"), 300.0);
    assert_eq!(get("::before:hover"), 5130.0);
    assert_eq!(get(":nth-child(2n)"), 60.0);
    assert_eq!(get(":hover:nth-child(2n)"), 40.0);
    assert_eq!(get("[data-open]"), 3000.0);
    assert_eq!(get("margin"), 1000.0);
    assert_eq!(get("margin-inline"), 2000.0);
    assert_eq!(get("margin-inline-start"), 3000.0);
    assert_eq!(get("margin-top"), 4000.0);
    assert_eq!(get("unknown-prop"), 3000.0);
}

#[test]
fn relational_shapes() {
    let m = "x-default-marker";
    let get = |k: String| float(get_priority(&k));
    assert_eq!(get(format!(":where(.{m}:hover *)")), 11.3);
    assert_eq!(get(format!(":where(:has(.{m}:checked))")), 16.01);
    assert_eq!(get(format!(":where(.{m}:focus ~ *)")), 31.5);
    assert_eq!(get(format!(":where(:has(~ .{m}:active))")), 41.7);
    assert_eq!(
        get(format!(":where(.{m}:hover ~ *, :has(~ .{m}:hover))")),
        21.3
    );
    assert_eq!(get(format!(":where(.{m}[data-open] *)")), 40.0);
}

fn strs<'a>(items: &[&'a str]) -> Vec<&'a str> {
    items.to_vec()
}

#[test]
fn classes_sort_elements_are_barriers() {
    assert_eq!(
        sort_pseudos(&strs(&[":hover", "::before", ":active"])).unwrap(),
        strs(&[":hover", "::before", ":active"])
    );
    assert_eq!(
        sort_pseudos(&strs(&[":hover", ":active"])).unwrap(),
        strs(&[":active", ":hover"])
    );
    assert_eq!(
        sort_pseudos(&strs(&[":b", ":a", "::x", ":d", ":c"])).unwrap(),
        strs(&[":a", ":b", "::x", ":c", ":d"])
    );
}

#[test]
fn default_comes_first() {
    assert_eq!(
        sort_pseudos(&strs(&[":hover", "default", ":active"])).unwrap(),
        strs(&["default", ":active", ":hover"])
    );
}

#[test]
fn short_inputs_pass_through() {
    assert_eq!(sort_pseudos(&[]).unwrap(), Vec::<String>::new());
    assert_eq!(sort_pseudos(&strs(&[":hover"])).unwrap(), strs(&[":hover"]));
}

#[test]
fn unverified_chars_error_only_in_sorted_runs() {
    let err = sort_pseudos(&strs(&["[data-a]", "[data-🐱]"])).unwrap_err();
    assert!(err.to_text().contains("pinned collation alphabet"));
        assert_eq!(sort_pseudos(&strs(&["[data-🐱]"])).unwrap(), strs(&["[data-🐱]"]));
    assert_eq!(
        sort_pseudos(&strs(&["[data-🐱]", "::before", ":hover"])).unwrap(),
        strs(&["[data-🐱]", "::before", ":hover"])
    );
}

#[test]
fn at_rules_sort_by_code_unit() {
    assert_eq!(
        sort_at_rules(&strs(&["@supports x", "@media y", "@Media z"])),
        strs(&["@Media z", "@media y", "@supports x"])
    );
}

fn s(v: &str) -> StyleScalar {
    StyleScalar::Str(v.to_string())
}

fn expand(key: &str, value: &str, options: &ResolvedOptions) -> Vec<(String, String)> {
    flat_map_expanded_shorthands(key, Some(s(value)), false, options)
        .unwrap()
        .into_iter()
        .map(|(k, v)| {
            (
                k,
                match v {
                    Some(StyleScalar::Str(text)) => text,
                    Some(other) => format!("{other:?}"),
                    None => "null".to_string(),
                },
            )
        })
        .collect()
}

fn legacy_options() -> ResolvedOptions {
    ResolvedOptions {
        style_resolution: StyleResolution::LegacyExpandShorthands,
        ..ResolvedOptions::default()
    }
}

fn application_order() -> ResolvedOptions {
    ResolvedOptions {
        style_resolution: StyleResolution::ApplicationOrder,
        ..ResolvedOptions::default()
    }
}

fn pair(k: &str, v: &str) -> (String, String) {
    (k.to_string(), v.to_string())
}

#[test]
fn aliases_rewrite_and_pass_value_through() {
    let opts = ResolvedOptions::default();
    assert_eq!(
        expand("marginStart", "1px", &opts),
        vec![pair("marginInlineStart", "1px")]
    );
    assert_eq!(
        expand("insetBlockStart", "1px", &opts),
        vec![pair("top", "1px")]
    );
    assert_eq!(expand("color", "red", &opts), vec![pair("color", "red")]);
    assert_eq!(
        expand("var(--myVar)", "1px", &opts),
        vec![pair("--myVar", "1px")]
    );
    assert_eq!(
        expand("var(--abc", "1px", &opts),
        vec![pair("var(--abc", "1px")]
    );
}

#[test]
fn banned_shorthands_drop_silently_and_throw_in_throw_mode() {
    let silent = ResolvedOptions::default();
    assert!(expand("border", "1px", &silent).is_empty());
    let throw = ResolvedOptions {
        property_validation_mode: PropertyValidationMode::Throw,
        ..ResolvedOptions::default()
    };
    let err =
        flat_map_expanded_shorthands("borderStart", Some(s("1px")), false, &throw).unwrap_err();
    assert_eq!(err.code, ErrorCode::BannedShorthand);
    assert_eq!(
        err.message,
        "borderInlineStart is not supported. Use borderInlineStartWidth, borderInlineStartStyle and borderInlineStartColor instead."
    );
}

#[test]
fn warn_mode_drops_exactly_like_silent() {
    let warn = ResolvedOptions {
        property_validation_mode: PropertyValidationMode::Warn,
        ..ResolvedOptions::default()
    };
    let silent = ResolvedOptions::default();
    for key in ["border", "borderStart", "all", "listStyle", "animation"] {
        assert_eq!(
            flat_map_expanded_shorthands(key, Some(s("1px")), false, &warn).unwrap(),
            flat_map_expanded_shorthands(key, Some(s("1px")), false, &silent).unwrap(),
            "key: {key}"
        );
    }
    assert_eq!(
        flat_map_expanded_shorthands("marginStart", Some(s("1px")), true, &warn)
            .unwrap_err()
            .code,
        ErrorCode::ShorthandFallback
    );
}

#[test]
fn shorthand_with_array_value_throws_regardless_of_mode() {
    let opts = ResolvedOptions::default();
    let err =
        flat_map_expanded_shorthands("marginStart", Some(s("1px")), true, &opts).unwrap_err();
    assert_eq!(err.code, ErrorCode::ShorthandFallback);
    assert_eq!(
        flat_map_expanded_shorthands("color", Some(s("red")), true, &opts).unwrap(),
        vec![("color".to_string(), Some(s("red")))]
    );
}

#[test]
fn application_order_keeps_the_shorthand_and_punches_the_longhands() {
    let opts = application_order();
    assert_eq!(
        expand("gridGap", "1px", &opts),
        vec![
            pair("gap", "1px"),
            pair("rowGap", "null"),
            pair("columnGap", "null"),
        ]
    );
    assert_eq!(
        expand("border", "1px", &opts),
        expand("border", "1px", &opts)
    );
    assert_eq!(expand("border", "1px", &opts)[0].0, "border");
    assert!(expand("all", "initial", &opts).is_empty());
    let throw = ResolvedOptions {
        property_validation_mode: PropertyValidationMode::Throw,
        ..application_order()
    };
    assert_eq!(
        flat_map_expanded_shorthands("all", Some(s("initial")), false, &throw)
            .unwrap_err()
            .code,
        ErrorCode::BannedShorthand
    );
    assert_eq!(
        flat_map_expanded_shorthands("animation", Some(s("a 1s")), false, &throw)
            .unwrap()
            .len(),
        14
    );
}

#[test]
fn legacy_splits_values_and_punches_nulls() {
    let opts = legacy_options();
    assert_eq!(
        expand("margin", "1px 2px 3px 4px", &opts),
        vec![
            pair("marginTop", "1px"),
            pair("marginInlineEnd", "2px"),
            pair("marginBottom", "3px"),
            pair("marginInlineStart", "4px"),
        ]
    );
    assert_eq!(
        expand("start", "1px", &opts),
        vec![
            pair("insetInlineStart", "1px"),
            pair("left", "null"),
            pair("right", "null"),
        ]
    );
    assert_eq!(expand("insetInline", "1px", &opts).len(), 6);
    assert_eq!(
        expand("borderRadius", "10px / 20px", &opts),
        vec![
            pair("borderStartStartRadius", "10px"),
            pair("borderStartEndRadius", "20px"),
            pair("borderEndEndRadius", "10px"),
            pair("borderEndStartRadius", "20px"),
        ]
    );
    assert_eq!(
        expand("float", "start", &opts),
        vec![pair("float", LOGICAL_START_VAR)]
    );
    assert_eq!(expand("clear", "left", &opts), vec![pair("clear", "left")]);
    let throw = ResolvedOptions {
        property_validation_mode: PropertyValidationMode::Throw,
        ..legacy_options()
    };
    assert_eq!(
        expand("all", "initial", &throw),
        vec![pair("all", "initial")]
    );
    assert_eq!(expand("borderTop", "1px", &throw)[0].0, "borderTop");
}

#[test]
fn legacy_empty_value_yields_undefined_longhands() {
    let opts = legacy_options();
    let pairs = flat_map_expanded_shorthands("margin", Some(s("   ")), false, &opts).unwrap();
    assert_eq!(pairs.len(), 4);
    assert!(pairs
        .iter()
        .all(|(_, v)| *v == Some(StyleScalar::Undefined)));
    let nulled = flat_map_expanded_shorthands("margin", None, false, &opts).unwrap();
    assert!(nulled.iter().all(|(_, v)| v.is_none()));
}

#[test]
fn contain_intrinsic_size_folds_auto() {
    let opts = legacy_options();
    assert_eq!(
        expand("containIntrinsicSize", "auto 10px auto 20px", &opts),
        vec![
            pair("containIntrinsicWidth", "auto 10px"),
            pair("containIntrinsicHeight", "auto 20px"),
        ]
    );
    assert_eq!(
        expand("containIntrinsicSize", "10px auto 20px", &opts),
        vec![
            pair("containIntrinsicWidth", "10px"),
            pair("containIntrinsicHeight", "auto 20px"),
        ]
    );
}

#[test]
fn list_style_parses_and_throws() {
    let opts = legacy_options();
    assert_eq!(
        expand(
            "listStyle",
            "outside \"+\" linear-gradient(90deg, white 100%)",
            &opts
        ),
        vec![
            pair("listStyleType", "\"+\""),
            pair("listStylePosition", "outside"),
            pair("listStyleImage", "linear-gradient(90deg,white 100%)"),
        ]
    );
    assert_eq!(
        expand("listStyle", "none none", &opts),
        vec![
            pair("listStyleType", "none"),
            pair("listStylePosition", "null"),
            pair("listStyleImage", "none"),
        ]
    );
    assert_eq!(
        expand("listStyle", "inherit", &opts),
        vec![
            pair("listStyleType", "inherit"),
            pair("listStylePosition", "inherit"),
            pair("listStyleImage", "inherit"),
        ]
    );
    let numeric = flat_map_expanded_shorthands(
        "listStyle",
        Some(StyleScalar::Num(num(5.0))),
        false,
        &opts,
    )
    .unwrap();
    assert!(numeric.iter().all(|(_, v)| v.is_none()));
    assert!(expand("listStyle", "none inherit", &opts).is_empty());
    let throw = ResolvedOptions {
        property_validation_mode: PropertyValidationMode::Throw,
        ..legacy_options()
    };
    let err = flat_map_expanded_shorthands("listStyle", Some(s("none inherit")), false, &throw)
        .unwrap_err();
    assert_eq!(
        err.message,
        "invalid \"listStyle\" value of \"\"none inherit\"\""
    );
    let err = flat_map_expanded_shorthands("listStyle", Some(s("square circle")), false, &throw)
        .unwrap_err();
    assert_eq!(
        err.message,
        "invalid \"listStyle\" value of \"square circle\""
    );
}

fn legacy(polyfill: bool) -> RtlContext {
    RtlContext {
        style_resolution: StyleResolution::LegacyExpandShorthands,
        enable_logical_styles_polyfill: polyfill,
        enable_legacy_value_flipping: false,
    }
}

fn flipping() -> RtlContext {
    RtlContext {
        enable_legacy_value_flipping: true,
        ..RtlContext::defaults()
    }
}

#[test]
fn oracle_pinned_pairs() {
    let d = RtlContext::defaults();
    assert_eq!(
        generate_ltr("margin-start", "10px", d),
        pair("margin-left", "10px")
    );
    assert_eq!(
        generate_rtl("margin-start", "10px", d),
        Some(pair("margin-right", "10px"))
    );
    assert_eq!(
        generate_ltr("float", "inline-start", d),
        pair("float", "left")
    );
    assert_eq!(
        generate_rtl("float", "inline-start", d),
        Some(pair("float", "right"))
    );
    assert_eq!(generate_ltr("float", "left", d), pair("float", "left"));
    assert_eq!(generate_rtl("float", "left", d), None);
    assert_eq!(
        generate_ltr("background-position", "start top", d),
        pair("background-position", "left top")
    );
    assert_eq!(
        generate_rtl("background-position", "start top", d),
        Some(pair("background-position", "right top"))
    );
    assert_eq!(generate_rtl("background-position", "left top", d), None);
    assert_eq!(generate_rtl("cursor", "e-resize", d), None);
    assert_eq!(generate_rtl("margin-inline-start", "1px", d), None);
    assert_eq!(
        generate_ltr("margin-inline-start", "1px", d),
        pair("margin-inline-start", "1px")
    );
}

#[test]
fn legacy_polyfill_gates_every_rtl_rule() {
    assert_eq!(
        generate_ltr("margin-inline-start", "1px", legacy(false)),
        pair("margin-inline-start", "1px")
    );
    assert_eq!(
        generate_rtl("margin-inline-start", "1px", legacy(false)),
        None
    );
    assert_eq!(
        generate_ltr("margin-start", "1px", legacy(false)),
        pair("margin-start", "1px")
    );
    assert_eq!(generate_rtl("margin-start", "1px", legacy(false)), None);
    assert_eq!(
        generate_ltr("background-position", "start top", legacy(false)),
        pair("background-position", "start top")
    );

    assert_eq!(
        generate_ltr("border-start-start-radius", "1px", legacy(true)),
        pair("border-top-left-radius", "1px")
    );
    assert_eq!(
        generate_rtl("border-start-start-radius", "1px", legacy(true)),
        Some(pair("border-top-right-radius", "1px"))
    );
    assert_eq!(
        generate_ltr("border-start-width", "1px", legacy(true)),
        pair("border-left-width", "1px")
    );
    assert_eq!(
        generate_ltr("background-position", "insetInlineStart 0", legacy(true)),
        pair("background-position", "left 0")
    );
    assert_eq!(
        generate_rtl("background-position", "insetInlineStart 0", legacy(true)),
        None
    );
}

#[test]
fn legacy_value_flipping_is_gated_by_the_polyfill() {
    let leg_flip = RtlContext {
        enable_legacy_value_flipping: true,
        ..legacy(false)
    };
    assert_eq!(generate_rtl("cursor", "e-resize", leg_flip), None);
    let leg_flip_poly = RtlContext {
        enable_logical_styles_polyfill: true,
        ..leg_flip
    };
    assert_eq!(
        generate_rtl("cursor", "e-resize", leg_flip_poly),
        Some(pair("cursor", "w-resize"))
    );
}

#[test]
fn cursor_and_shadow_flips() {
    let f = flipping();
    let rtl = |k: &str, v: &str| generate_rtl(k, v, f).map(|(_, v)| v);
    assert_eq!(rtl("cursor", "nesw-resize").as_deref(), Some("nwse-resize"));
    assert_eq!(rtl("cursor", "n-resize"), None);
    assert_eq!(rtl("cursor", "E-resize"), None);
    assert_eq!(rtl("cursor", "url(a.png),e-resize"), None);
    assert_eq!(generate_ltr("cursor", "e-resize", f).1, "e-resize");

    assert_eq!(
        rtl("box-shadow", "1px 1px #000").as_deref(),
        Some("-1px 1px #000")
    );
    assert_eq!(
        rtl("text-shadow", "1px 1px #000").as_deref(),
        Some("-1px 1px #000")
    );
    assert_eq!(
        rtl("box-shadow", "-1px -1px #000").as_deref(),
        Some("1px -1px #000")
    );
    assert_eq!(
        rtl("box-shadow", "inset 1px 1px #000").as_deref(),
        Some("inset -1px 1px #000")
    );
    assert_eq!(rtl("box-shadow", "0 1px 2px #000"), None);
    assert_eq!(
        rtl("box-shadow", "0px 1px 2px #000").as_deref(),
        Some("-0px 1px 2px #000")
    );
    assert_eq!(rtl("box-shadow", "none"), None);
    assert_eq!(rtl("box-shadow", "var(--shadow)"), None);
    assert_eq!(
        rtl("box-shadow", "1px 1px / 2px 2px").as_deref(),
        Some("-1px 1px,-2px 2px")
    );
    assert_eq!(rtl("box-shadow", "1px : 2px").as_deref(), Some("-1px,-2px"));
    assert_eq!(
        rtl("box-shadow", "1px 1px red,,").as_deref(),
        Some("-1px 1px red")
    );
    assert_eq!(
        rtl("box-shadow", "1px 1px #000,,2px 2px red").as_deref(),
        Some("-1px 1px #000,-2px 2px red")
    );
    assert_eq!(
        rtl("box-shadow", "1px 1px hsl(0 0% 0% / 50%)").as_deref(),
        Some("-1px 1px hsl(0 0% 0% / 50%)")
    );
    assert_eq!(
        rtl("box-shadow", "min(1px,2px) 1px red").as_deref(),
        Some("min(1px,2px) -1px red")
    );
    assert_eq!(
        rtl("box-shadow", "var(--a,1px 1px red)").as_deref(),
        Some("var(--a,1px -1px red)")
    );
    assert_eq!(
        rtl("box-shadow", "calc(1px + 2px) 1px red").as_deref(),
        Some("calc(1px -+ 2px) 1px red")
    );
    assert_eq!(rtl("box-shadow", ".px 1px").as_deref(), Some(".px -1px"));
    assert_eq!(
        rtl("box-shadow", "- 1px 1px").as_deref(),
        Some("- -1px 1px")
    );
    assert_eq!(rtl("box-shadow", "+1px 1px").as_deref(), Some("-+1px 1px"));
    assert_eq!(rtl("box-shadow", ".5px 1px").as_deref(), Some("-.5px 1px"));
    assert_eq!(
        rtl("box-shadow", "1px 1px red /* c */").as_deref(),
        Some("-1px 1px red /* c */")
    );
    assert_eq!(
        rtl("box-shadow", "none,1px 1px red").as_deref(),
        Some("none,-1px 1px red")
    );
}

fn split(v: &str) -> Vec<String> {
    split_value(Some(&StyleScalar::Str(v.to_string())))
        .into_iter()
        .map(|p| match p {
            Some(StyleScalar::Str(s)) => s,
            other => format!("{other:?}"),
        })
        .collect()
}

#[test]
fn oracle_pinned_splits() {
    assert_eq!(split("1px 2px"), vec!["1px", "2px"]);
    assert_eq!(split("  1px 2px  "), vec!["1px", "2px"]);
    assert_eq!(split("1px,2px"), vec!["1px", "2px"]);
    assert_eq!(split("1px 2px / 3px 4px"), vec!["1px", "2px", "3px", "4px"]);
    assert_eq!(
        split("calc(1px + 2px) min(1px, 2px)"),
        vec!["calc(1px + 2px)", "min(1px,2px)"]
    );
    assert_eq!(split("calc(1px + 2px"), vec!["calc(1px + 2px)"]);
    assert_eq!(split("var(--a, 1px) 2px"), vec!["var(--a,1px)", "2px"]);
    assert_eq!(split("'a' \"b\""), vec!["'a'", "\"b\""]);
    assert!(split("").is_empty());
    assert!(split("   ").is_empty());
}

#[test]
fn important_suffixing() {
    assert_eq!(
        split("1px 2px !IMPORTANT"),
        vec!["1px !important", "2px !important"]
    );
    assert_eq!(split("!important"), vec!["!important"]);
    assert_eq!(
        split("1px !important 2px"),
        vec!["1px", "!important", "2px"]
    );
}

#[test]
fn non_strings_pass_through() {
    assert_eq!(split_value(None), vec![None]);
    assert_eq!(
        split_value(Some(&StyleScalar::Num(num(5.0)))),
        vec![Some(StyleScalar::Num(num(5.0)))]
    );
    assert_eq!(
        split_value(Some(&StyleScalar::Undefined)),
        vec![Some(StyleScalar::Undefined)]
    );
}

#[test]
fn number_suffix_rules() {
    assert_eq!(get_number_suffix("width"), "px");
    assert_eq!(get_number_suffix("opacity"), "");
    assert_eq!(get_number_suffix("--anything"), "");
    assert_eq!(get_number_suffix("transitionDuration"), "ms");
    assert_eq!(get_number_suffix("transition-duration"), "px");
}

#[test]
fn negative_zero_prints_unsigned() {
    assert_eq!(num(-0.0).text(), "0");
    assert_eq!(transform_value_num("width", num(-0.0), false).unwrap(), "0");
}

#[test]
fn content_wraps_number_output() {
    assert_eq!(
        transform_value_num("content", num(5.0), false).unwrap(),
        "\"5px\""
    );
    assert_eq!(
        transform_value_str("content", "hello", false).unwrap(),
        "\"hello\""
    );
    assert_eq!(
        transform_value_str("content", "attr(href)", false).unwrap(),
        "attr(href)"
    );
}

#[test]
fn a_memory_gives_what_the_compiler_gives() {
    let options = ResolvedOptions::default();
    let value = |v: &str| PreRuleValue::Single(StyleScalar::Str(v.to_string()));
    let mut memo = ConvertMemo::new();
    for _ in 0..2 {
        for text in ["red", "blue", "\"a"] {
            assert_eq!(
                memo.convert("color", &value(text), &[":hover"], &[], &[], &options),
                convert_style_to_class_name(
                    "color",
                    &value(text),
                    &[":hover"],
                    &[],
                    &[],
                    &options
                )
            );
        }
    }
    assert_eq!(memo.entries.len(), 2);
}

#[test]
fn keys_of_declarations_differ() {
    let options = ResolvedOptions::default();
    let flipped = ResolvedOptions {
        enable_legacy_value_flipping: true,
        ..ResolvedOptions::default()
    };
    let text = |v: &str| StyleScalar::Str(v.to_string());
    let key = |p: &str, v: PreRuleValue, a: &[&str], b: &[&str], o: &ResolvedOptions| {
        encode_memo_key(p, &v, a, b, &[], o)
    };
    let keys = [
        key("ab", PreRuleValue::Single(text("c")), &[], &[], &options),
        key("ab", PreRuleValue::Single(text("c")), &[], &[], &flipped),
        key("a", PreRuleValue::Single(text("bc")), &[], &[], &options),
        key("ab", PreRuleValue::Multi(vec![text("c")]), &[], &[], &options),
        key("ab", PreRuleValue::Single(StyleScalar::Num(num(1.0))), &[], &[], &options),
        key("ab", PreRuleValue::Single(StyleScalar::Undefined), &[], &[], &options),
        key("ab", PreRuleValue::Single(text("c")), &["x", "y"], &[], &options),
        key("ab", PreRuleValue::Single(text("c")), &["x"], &["y"], &options),
        key("ab", PreRuleValue::Single(text("c")), &["xy"], &[], &options),
    ];
    assert_eq!(keys[0], "rdpgf1:x|2:ab|Ss1:c|||");
    for i in 0..keys.len() {
        for j in 0..i {
            assert_ne!(keys[i], keys[j]);
        }
    }
}

#[test]
fn at_rules_in_any_order_give_one_class() {
    let options = ResolvedOptions::default();
    let value = PreRuleValue::Single(StyleScalar::Str("red".to_string()));
    let rule = |at: &[&str]| {
        convert_style_to_class_name("color", &value, &[], at, &[], &options).unwrap()
    };
    assert_eq!(
        rule(&["@media print", "@supports (a: b)"]),
        rule(&["@supports (a: b)", "@media print"])
    );
}

#[test]
fn values_print_back_unless_a_comment_closes_itself() {
    for text in ["", "a(b, 'c", "/* x", "url( a b", "f(g(1px /**/ 2px", "a / b:c", "\"x\\\"", "calc(1px*2)"] {
        assert_eq!(css_value::stringify(&parse(text)), text);
    }
    assert_eq!(css_value::stringify(&parse("/*/")), "/**/");
}

/// Replaces the children of functions named `old`, and notes what it sees.
struct Replacing {
    seen: Vec<String>,
}

impl NodeVisitor for Replacing {
    // The descriptions serve proofs alone and are never called.
    fn seen(self, _n: NodeModel) -> Self {
        self
    }

    fn edited(self, n: NodeModel) -> NodeModel {
        n
    }

    fn visit(&mut self, node: &mut Node) {
        self.seen.push(node.value.clone());
        if node.value == "old" {
            node.value = "new".to_string();
            node.nodes = parse("x g(y)");
        } else if node.value == "drop" {
            node.kind = Kind::Word;
        }
    }
}

#[test]
fn a_walk_goes_over_the_children_that_the_walker_leaves() {
    let mut visitor = Replacing { seen: vec![] };
    let mut nodes = parse("a old(b) drop(c) d");
    css_value::walk(&mut nodes, &mut visitor);
    assert_eq!(visitor.seen, ["a", " ", "old", "x", " ", "g", "y", " ", "drop", " ", "d"]);
    assert_eq!(css_value::stringify(&nodes), "a new(x g(y)) drop d");
}

#[test]
fn turned_declarations_are_given_only_where_they_differ() {
    let flipping = RtlContext {
        enable_legacy_value_flipping: true,
        ..RtlContext::defaults()
    };
    for (key, value, given) in [
        ("margin-start", "1px", true),
        ("float", "inline-end", true),
        ("float", "left", false),
        ("background-position", "top start", true),
        ("background-position", "top insetInlineStart", false),
        ("cursor", "nesw-resize", true),
        ("cursor", "pointer", false),
        ("box-shadow", "0 1px red", false),
        ("box-shadow", "2px 1px red", true),
    ] {
        let turned = generate_rtl(key, value, flipping);
        assert_eq!(turned.is_some(), given, "{key}: {value}");
        assert_ne!(turned, Some(generate_ltr(key, value, flipping)));
    }
}

#[test]
fn keys_count_bytes() {
    let options = ResolvedOptions::default();
    let text = |s: &str| StyleScalar::Str(s.to_string());
    assert_eq!(
        encode_memo_key("é", &PreRuleValue::Single(text("€")), &["😀"], &[], &["x"], &options),
        "rdpgf1:x|2:é|Ss3:€|4:😀||1:x"
    );
    assert_eq!(
        encode_memo_key(
            "a",
            &PreRuleValue::Multi(vec![StyleScalar::Num(num(1.0)), StyleScalar::Undefined, text("")]),
            &[],
            &["b", "cd"],
            &[],
            &options
        ),
        "rdpgf1:x|1:a|Mn3ff0000000000000us0:||1:b2:cd|"
    );
}

#[test]
fn nodes_stand_in_a_row() {
    for text in ["1px  solid,red", "a( b ) /*/ 'é'", " x / y ", "url( a ) €", "calc(1px*2)", ""] {
        let nodes = parse(text);
        let mut end = 0;
        for node in &nodes {
            assert_eq!(node.source_index, end, "{text}");
            end = node.source_end_index;
        }
        assert_eq!(end, text.len(), "{text}");
    }
    // A backslash at the end counts for the character that it lacks.
    assert_eq!(parse("a\\").last().unwrap().source_end_index, 3);
}
