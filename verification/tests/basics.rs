use stylex::errors::{banned_shorthand_message, ErrorCode, StylexError};
use stylex::hash::{create_short_hash, hash, murmur_hash};
use stylex::json::Json;
use stylex::jsrt::{decode_units, slice_utf16, sort_texts, Collation};
use stylex::number::{parse_float_prefix, JsNumber};
use stylex::options::{
    resolve_options, CompilerOptions, ImportSource, ModuleResolutionType, PropertyValidationMode,
    ResolvedOptions, StyleResolution,
};
use stylex::text::{join, split, split_text};
use stylex::value::{EvalValue, JsObjectMap};

fn num(x: f64) -> JsNumber {
    JsNumber { bits: x.to_bits() }
}

fn float(x: JsNumber) -> f64 {
    f64::from_bits(x.bits)
}

fn json_obj(entries: &[(&str, Json)]) -> Json {
    Json::Obj(
        entries
            .iter()
            .map(|(k, v)| ((*k).to_string(), v.clone()))
            .collect(),
    )
}

fn json_str(v: &str) -> Json {
    Json::Str(v.to_string())
}

#[test]
fn hashes_have_known_values() {
    assert_eq!(murmur_hash(""), 1_540_447_798);
    assert_eq!(hash("<>colorrednull"), "1e2nbdu");
    assert_eq!(create_short_hash("<>color"), "MwMTN");
}

#[test]
fn numbers_print_in_their_shortest_form() {
    for (x, text) in [
        (0.1, "0.1"),
        (-0.0, "0"),
        (100.0, "100"),
        (1e21, "1e+21"),
        (1.5e-7, "1.5e-7"),
        (123456789.125, "123456789.125"),
        (5e-324, "5e-324"),
        (1.7976931348623157e308, "1.7976931348623157e+308"),
        (9007199254740993.0, "9007199254740992"),
        (f64::NAN, "NaN"),
        (f64::INFINITY, "Infinity"),
        (f64::NEG_INFINITY, "-Infinity"),
    ] {
        assert_eq!(num(x).text(), text);
    }
}

#[test]
fn arithmetic_rounds_like_doubles() {
    for (a, b) in [
        (0.1, 0.2),
        (1e308, 1e308),
        (-1.5, 1.5),
        (1e-300, 1e300),
        (5e-324, -5e-324),
        (3011.3, 0.01),
    ] {
        assert_eq!(float(num(a).plus(num(b))).to_bits(), (a + b).to_bits());
        assert_eq!(num(a).less(num(b)), a < b);
    }
    for x in [0.07, 1.0, -3.3, 1e-320, 1e300, 0.0] {
        assert_eq!(float(num(x).over(16)).to_bits(), (x / 16.0).to_bits());
        assert_eq!(float(num(x).scaled(100)).to_bits(), (x * 100.0).to_bits());
        assert_eq!(float(num(x).negated()).to_bits(), (-x).to_bits());
        assert_eq!(float(num(x).whole()), x.trunc());
    }
    assert!(num(-0.0).equals(num(0.0)));
    assert!(!num(f64::NAN).equals(num(f64::NAN)));
    assert_eq!(float(JsNumber::from_int(16)), 16.0);
}

#[test]
fn prefixes_of_texts_are_read_as_numbers() {
    for (text, x) in [
        ("0.1", 0.1),
        ("2.2250738585072011e-308x", 2.2250738585072011e-308),
        ("9007199254740993", 9007199254740993.0),
        ("1e400", f64::INFINITY),
        ("-1.5e3px", -1500.0),
        ("123456789012345678901234567890", 1.2345678901234568e29),
    ] {
        assert_eq!(parse_float_prefix(text).map(float), Some(x), "{text}");
    }
    assert_eq!(parse_float_prefix("px"), None);
}

#[test]
fn json_texts_are_compact() {
    let v = json_obj(&[
        ("a\n\"", Json::Arr(vec![Json::Null, Json::Bool(true)])),
        ("n", Json::Number("1.50".to_string())),
        ("d", Json::Double(num(2.5))),
        ("s", json_str("\u{1}é")),
    ]);
    assert_eq!(
        v.text(),
        "{\"a\\n\\\"\":[null,true],\"n\":1.50,\"d\":2.5,\"s\":\"\\u0001é\"}"
    );
    assert_eq!(v.get("n"), Some(&Json::Number("1.50".to_string())));
    assert_eq!(v.get("missing"), None);
}

#[test]
fn code_units_spell_texts() {
    assert_eq!(decode_units(&[0x61, 0xd83d, 0xde00, 0x62]), "a😀b");
    assert_eq!(decode_units(&[0xd83d, 0x62]), "\u{fffd}b");
    assert_eq!(slice_utf16("a😀b)", 3), "b");
    assert_eq!(slice_utf16("a😀b)", 2), "\u{fffd}b");
    assert_eq!(slice_utf16("ab", 5), "");
}

#[test]
fn texts_sort_by_code_unit() {
    assert_eq!(
        sort_texts(&["b", "\u{e000}", "😀", "B"], Collation::Units),
        vec!["B", "b", "😀", "\u{e000}"]
    );
}

#[test]
fn split_texts_join_again() {
    let parts = split_text("a__$$__b__$$__", "__$$__");
    assert_eq!(parts, vec!["a", "b", ""]);
    assert_eq!(join(&parts, "__$$__"), "a__$$__b__$$__");
    assert_eq!(split("a.b", '.'), vec!["a", "b"]);
}

#[test]
fn objects_keep_indices_first_and_other_keys_as_they_came() {
    let mut m = JsObjectMap::new();
    for key in ["b", "10", "a", "2", "01"] {
        m.set(key, EvalValue::Str(key.to_string()));
    }
    assert_eq!(m.keys(), vec!["2", "10", "b", "a", "01"]);
    m.set("b", EvalValue::Null);
    assert_eq!(m.keys(), vec!["2", "10", "b", "a", "01"]);
    assert_eq!(m.get("b"), Some(&EvalValue::Null));
    assert_eq!(m.get("a"), Some(&EvalValue::Str("a".to_string())));
    assert_eq!(m.remove("10"), Some(EvalValue::Str("10".to_string())));
    assert_eq!(m.len(), 4);
}

#[test]
fn no_options_give_the_defaults() {
    let resolved = resolve_options(&CompilerOptions::default()).unwrap();
    assert_eq!(resolved, ResolvedOptions::default());
    assert_eq!(resolved.class_name_prefix, "x");
    assert_eq!(
        resolved.style_resolution,
        StyleResolution::PropertySpecificity
    );
    assert_eq!(
        resolved.property_validation_mode,
        PropertyValidationMode::Silent
    );
    assert_eq!(
        CompilerOptions::from_json(&json_obj(&[]))
            .unwrap()
            .resolve()
            .unwrap(),
        resolved
    );
}

#[test]
fn options_are_read_by_their_names() {
    let raw = CompilerOptions::from_json(&json_obj(&[
        ("dev", Json::Bool(true)),
        ("classNamePrefix", json_str("p")),
        ("styleResolution", json_str("application-order")),
        (
            "importSources",
            Json::Arr(vec![
                json_str("@x/y"),
                json_obj(&[("from", json_str("z")), ("as", json_str("css"))]),
            ]),
        ),
        (
            "unstable_moduleResolution",
            json_obj(&[
                ("type", json_str("commonJS")),
                ("rootDir", json_str("/r")),
            ]),
        ),
    ]))
    .unwrap();
    let resolved = raw.resolve().unwrap();
    assert!(resolved.dev);
    assert_eq!(resolved.class_name_prefix, "p");
    assert_eq!(resolved.style_resolution, StyleResolution::ApplicationOrder);
    assert!(resolved.is_import_source("@x/y"));
    assert_eq!(resolved.import_as("z"), Some("css"));
    assert_eq!(resolved.import_as("@x/y"), None);
    assert!(resolved
        .import_sources
        .contains(&ImportSource::Plain("@x/y".to_string())));
    let modules = resolved.unstable_module_resolution.unwrap();
    assert_eq!(modules.kind, ModuleResolutionType::CommonJs);
    assert_eq!(modules.root_dir.as_deref(), Some("/r"));
    assert_eq!(modules.consts_file_extension(), ".stylex.const");
}

#[test]
fn wrong_options_are_refused() {
    let err = CompilerOptions::from_json(&json_obj(&[("noSuchOption", Json::Null)])).unwrap_err();
    assert_eq!(err.code, ErrorCode::UnknownOption);
    let err = CompilerOptions::from_json(&Json::Bool(true)).unwrap_err();
    assert_eq!(err.code, ErrorCode::InvalidOptionValue);
    let raw = CompilerOptions::from_json(&json_obj(&[("dev", json_str("yes"))])).unwrap();
    assert_eq!(
        raw.resolve().unwrap_err().code,
        ErrorCode::InvalidOptionValue
    );
}

#[test]
fn errors_carry_their_messages() {
    assert_eq!(
        StylexError::unsupported_api("stylex.types").code,
        ErrorCode::UnsupportedApi
    );
    assert_eq!(
        StylexError::unsupported_option("x").code,
        ErrorCode::UnsupportedOption
    );
    assert_eq!(
        StylexError::non_static_value("create").code,
        ErrorCode::NonStaticValue
    );
    assert_eq!(
        StylexError::duplicate_conditional().code,
        ErrorCode::DuplicateConditional
    );
    assert_eq!(
        StylexError::invalid_define_vars_function_value().code,
        ErrorCode::InvalidDefineVarsFunctionValue
    );
    let err = StylexError::new(ErrorCode::EmptyValue, "m");
    assert_eq!(err.to_text(), "m");
    assert!(banned_shorthand_message("border").is_some());
    assert!(banned_shorthand_message("color").is_none());
}

#[test]
fn haste_has_no_root_directory() {
    let raw = CompilerOptions::from_json(&json_obj(&[
        (
            "unstable_moduleResolution",
            json_obj(&[("type", json_str("haste")), ("rootDir", json_str("/r"))]),
        ),
        ("env", json_obj(&[("a", Json::Number("1".to_string()))])),
    ]))
    .unwrap();
    let resolved = raw.resolve().unwrap();
    let modules = resolved.unstable_module_resolution.unwrap();
    assert_eq!(modules.kind, ModuleResolutionType::Haste);
    assert_eq!(modules.root_dir, None);
    let EvalValue::Obj(env) = resolved.env else {
        panic!("the environment is an object");
    };
    assert_eq!(env.get("a"), Some(&EvalValue::Num(num(1.0))));
    let wrong = CompilerOptions::from_json(&json_obj(&[("env", json_str("x"))])).unwrap();
    assert_eq!(
        wrong.resolve().unwrap_err().message,
        "Expected (options.env) to be an object, but got `\"x\"`."
    );
}

#[test]
fn printed_numbers_are_read_back() {
    for x in [
        0.0,
        0.1,
        -2.5,
        1e-7,
        123456.789,
        1e21,
        -4.35e-300,
        5e-324,
        1.7976931348623157e308,
        9007199254740993.0,
        f64::INFINITY,
        f64::NEG_INFINITY,
    ] {
        assert_eq!(parse_float_prefix(&num(x).text()), Some(num(x)));
    }
}

fn notices_of(entries: &[(&str, Json)]) -> (bool, Vec<String>) {
    let raw = CompilerOptions::from_json(&json_obj(entries)).unwrap();
    let (resolved, notices) = raw.resolve_with_notices();
    assert_eq!(resolved.is_ok(), raw.resolve().is_ok());
    (resolved.is_ok(), notices)
}

#[test]
fn options_that_are_set_aside_are_named() {
    assert_eq!(notices_of(&[]), (true, vec![]));
    assert_eq!(
        notices_of(&[
            ("unstable_moduleResolution", json_str("haste")),
            ("aliases", json_obj(&[("@", json_str("src")), ("~", Json::Bool(true))])),
        ]),
        (
            true,
            vec![
                "[fru] Expected (options.unstable_moduleResolution) to be an object, but got `\"haste\"`; using the default".to_string(),
                "[fru] Expected (options.aliases) to be a map of string to string or string[], but got `{\"@\":\"src\",\"~\":true}`. Ignoring every alias.".to_string(),
            ]
        )
    );
    assert_eq!(
        notices_of(&[("unstable_moduleResolution", json_obj(&[]))]),
        (
            true,
            vec!["[fru] Expected (options.unstable_moduleResolution.type) to be a string, but got `null`; using the default".to_string()]
        )
    );
    assert_eq!(
        notices_of(&[("unstable_moduleResolution", json_obj(&[("type", json_str("amd"))]))]),
        (
            true,
            vec!["[fru] Expected (options.unstable_moduleResolution.type) to be one of \"commonJS\" | \"haste\" | \"custom\" | \"experimental_crossFileParsing\", but got `\"amd\"`; using the default".to_string()]
        )
    );
    assert_eq!(
        notices_of(&[(
            "unstable_moduleResolution",
            json_obj(&[
                ("type", json_str("commonJS")),
                ("themeFileExtension", Json::Bool(false)),
            ])
        )]),
        (
            true,
            vec!["[fru] Expected (options.unstable_moduleResolution.themeFileExtension) to be a string, but got `false`; using the default".to_string()]
        )
    );
    // Nothing is said after an error.
    assert_eq!(
        notices_of(&[
            ("dev", json_str("yes")),
            ("unstable_moduleResolution", json_str("haste")),
        ]),
        (false, vec![])
    );
    assert_eq!(
        notices_of(&[
            ("unstable_moduleResolution", json_str("haste")),
            ("env", json_str("x")),
            ("aliases", Json::Bool(true)),
        ])
        .1
        .len(),
        1
    );
    assert_eq!(
        notices_of(&[
            ("aliases", Json::Bool(true)),
            ("debugFilePath", json_str("x")),
        ]),
        (
            false,
            vec!["[fru] Expected (options.aliases) to be a map of string to string or string[], but got `true`. Ignoring every alias.".to_string()]
        )
    );
}

#[test]
fn doubles_in_json_keep_their_point() {
    for (x, text) in [
        (1.0, "1.0"),
        (0.0, "0.0"),
        (-0.0, "-0.0"),
        (43210.1, "43210.1"),
        (-5942736479622170.0, "-5942736479622170.0"),
        (1e15, "1000000000000000.0"),
        (0.00001, "0.00001"),
        (0.000001, "1e-6"),
        (1e16, "1e+16"),
        (3.439070283483335e35, "3.439070283483335e+35"),
        (6.62607015e-34, "6.62607015e-34"),
        (5e-324, "5e-324"),
    ] {
        assert_eq!(Json::Double(num(x)).text(), text);
        assert_eq!(serde_json::to_string(&x).unwrap(), text);
    }
    assert_eq!(Json::Double(num(f64::NAN)).text(), "null");
    assert_eq!(serde_json::to_string(&f64::NAN).unwrap(), "null");
}

#[test]
fn options_given_as_null_are_absent() {
    let nulls = CompilerOptions::from_json(&json_obj(&[
        ("dev", Json::Null),
        ("env", Json::Null),
        ("aliases", Json::Null),
        ("include", Json::Null),
        ("unstable_moduleResolution", Json::Null),
        ("sxPropName", Json::Null),
    ]))
    .unwrap();
    let (resolved, notices) = nulls.resolve_with_notices();
    let absent = CompilerOptions::from_json(&json_obj(&[])).unwrap();
    assert_eq!(resolved.unwrap(), absent.resolve().unwrap());
    assert!(notices.is_empty());
}

#[test]
fn each_set_of_options_has_its_own_text() {
    let text = |entries: &[(&str, Json)]| {
        let raw = CompilerOptions::from_json(&json_obj(entries)).unwrap();
        raw.resolve().unwrap().cache_repr
    };
    assert_eq!(text(&[]), ResolvedOptions::default().cache_repr);
    assert_eq!(text(&[("dev", Json::Bool(false))]), text(&[]));
    let texts = [
        text(&[]),
        text(&[("dev", Json::Bool(true))]),
        text(&[("test", Json::Bool(true))]),
        text(&[("classNamePrefix", json_str("y"))]),
        text(&[("sxPropName", Json::Bool(false))]),
        text(&[("sxPropName", json_str("css"))]),
        text(&[("styleResolution", json_str("application-order"))]),
        text(&[("env", json_obj(&[("a", json_str("b"))]))]),
        text(&[("env", json_obj(&[("a", Json::Arr(vec![json_str("b")]))]))]),
        text(&[("env", json_obj(&[("ab", json_str(""))]))]),
        text(&[("env", json_obj(&[("a", Json::Number("1".to_string()))]))]),
        text(&[("importSources", Json::Arr(vec![json_str("z")]))]),
        text(&[("aliases", json_obj(&[]))]),
        text(&[("aliases", json_obj(&[("@", json_str("src"))]))]),
        text(&[("runtimeInjection", Json::Bool(true))]),
        text(&[("unstable_moduleResolution", json_obj(&[("type", json_str("haste"))]))]),
    ];
    for i in 0..texts.len() {
        for j in 0..i {
            assert_ne!(texts[i], texts[j], "{i} {j}");
        }
    }
}

#[test]
fn the_text_of_options_is_what_debug_prints() {
    let printed = |entries: &[(&str, Json)]| {
        let raw = CompilerOptions::from_json(&json_obj(entries)).unwrap();
        let mut options = raw.resolve().unwrap();
        let text = std::mem::take(&mut options.cache_repr);
        assert_eq!(text, format!("{options:?}"));
        text
    };
    let text = printed(&[]);
    assert!(text.starts_with("ResolvedOptions { class_name_prefix: \"x\", dev: false, debug: false, "));
    assert!(text.contains(
        "sx_prop_name: Some(\"sx\"), env: Obj(JsObjectMap { items: [], css: None }), import_sources: [Plain(\"@stylexjs/stylex\"), Plain(\"stylex\")], runtime_injection: None, style_resolution: PropertySpecificity, "
    ));
    assert!(text.ends_with("aliases: None, rewrite_aliases: false, cache_repr: \"\" }"));
    printed(&[
        ("dev", Json::Bool(true)),
        ("classNamePrefix", json_str("a\"\\\n\u{301}é😀")),
        ("sxPropName", Json::Bool(false)),
        (
            "env",
            json_obj(&[
                ("a", Json::Number("1.5".to_string())),
                ("b", Json::Arr(vec![Json::Null, Json::Bool(true), json_str("c, d")])),
                ("e", json_obj(&[("f", json_obj(&[]))])),
            ]),
        ),
        (
            "importSources",
            Json::Arr(vec![
                json_str("z"),
                json_obj(&[("from", json_str("m")), ("as", json_str("css"))]),
            ]),
        ),
        (
            "runtimeInjection",
            json_obj(&[("from", json_str("m")), ("as", json_str("inject"))]),
        ),
        ("styleResolution", json_str("legacy-expand-shorthands")),
        ("propertyValidationMode", json_str("throw")),
        (
            "unstable_moduleResolution",
            json_obj(&[("type", json_str("commonJS")), ("rootDir", json_str("/r"))]),
        ),
        (
            "aliases",
            json_obj(&[
                ("@", json_str("src")),
                ("~", Json::Arr(vec![json_str("a"), json_str("b")])),
            ]),
        ),
        ("rewriteAliases", Json::Bool(true)),
    ]);
}
