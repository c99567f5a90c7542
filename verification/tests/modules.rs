use stylex::file_memo::{hash_file, Stamp, Stamped};
use stylex::json::Json;
use stylex::module_names::{
    add_file_extension, gen_file_based_identifier, get_relative_path, is_theme_specifier,
    matches_file_suffix, node_basename, node_extname, possible_aliased_paths,
    possible_file_paths,
};
use stylex::module_resolution::{
    canonical_file_path, import_path_resolver, js_name_string, nearest_package,
    pattern_key_compare, resolve_import, rewritten_import_source, Answer, Facts, Manifest, MemoFs,
    Query, ResolveConfig,
};
use stylex::options::{
    ModuleResolution, ModuleResolutionType, ResolvedOptions, THEME_FILE_EXTENSION,
};
use stylex::paths::{normalize_path, path_relative};
use stylex::url_paths::{
    has_deprecated_segment, is_js_array_index, node_path_join, parse_package_name, parses_as_url,
    percent_decode_path,
};

#[test]
fn probe_order_is_raw_then_each_extension() {
    assert_eq!(
        possible_file_paths("./a.stylex"),
        vec![
            "./a.stylex",
            "./a.stylex.js",
            "./a.stylex.ts",
            "./a.stylex.tsx",
            "./a.stylex.jsx",
            "./a.stylex.mjs",
            "./a.stylex.cjs",
        ]
    );
    assert_eq!(
        possible_file_paths("./a.stylex.js")[..3],
        ["./a.stylex.js", "./a.stylex.js", "./a.stylex.ts"].map(String::from)
    );
    assert_eq!(possible_file_paths("./a.stylex.cjs")[0], "./a.stylex.cjs");
    assert_eq!(possible_file_paths("./a.stylex.cjs")[1], "./a.stylex.js");
}

fn alias_map(aliases: &[(&str, &[&str])]) -> Vec<(String, Vec<String>)> {
    aliases
        .iter()
        .map(|(k, v)| {
            (
                (*k).to_string(),
                v.iter().map(|s| (*s).to_string()).collect(),
            )
        })
        .collect()
}

fn expansions(specifier: &str, aliases: &[(&str, &[&str])]) -> Vec<String> {
    possible_aliased_paths(specifier, Some(&alias_map(aliases)))
}

#[test]
fn alias_expansion_order_and_capture() {
    assert_eq!(
        expansions(
            "@lib/c.stylex",
            &[("@lib/*", &["/a/*", "/b/*"]), ("@x", &["/z"])]
        ),
        ["@lib/c.stylex", "/a/c.stylex", "/b/c.stylex"]
    );
    assert_eq!(
        expansions("@lib/c.stylex", &[("@lib", &["/a"])]),
        ["@lib/c.stylex"]
    );
    assert_eq!(
        expansions("~c.stylex", &[("~*.stylex", &["/a/*.stylex.ts"])])[1],
        "/a/c.stylex.ts"
    );
    assert_eq!(
        expansions("@x/c.stylex", &[("*", &["/a/*"])])[1],
        "/a/@x/c.stylex"
    );
    assert_eq!(
        expansions("@a/c.stylex", &[("@a/*.stylex*", &["/a/*.stylex.ts"])])[1],
        "/a/c.stylex.ts"
    );
    assert_eq!(
        expansions("@d/d.stylex", &[("@d/*", &["/l/*/*"])])[1],
        "/l/d.stylex/d.stylex"
    );
    assert_eq!(
        expansions(
            "@lib/c.stylex",
            &[("@lib/c.stylex*c.stylex", &["/alt/*c.stylex"])]
        )[1],
        "/alt/c.stylex"
    );
    assert_eq!(expansions("@lib/c.stylex", &[]), ["@lib/c.stylex"]);
    assert_eq!(
        possible_aliased_paths("@lib/c.stylex", None),
        ["@lib/c.stylex"]
    );
}

#[test]
fn relative_paths_for_rewritten_sources() {
    let rel = |from: &str, to: &str| get_relative_path(from, to);
    assert_eq!(
        rel("/r/src/input.ts", "/r/lib/c.stylex.ts"),
        "../lib/c.stylex.ts"
    );
    assert_eq!(
        rel("/r/src/input.ts", "/r/src/c.stylex.ts"),
        "./c.stylex.ts"
    );
    assert_eq!(rel("/r/src/input.ts", "/r/lib"), "../lib");
}

#[test]
fn root_placeholder_joins_like_node() {
    assert_eq!(node_path_join("/r", "lib/c.ts"), "/r/lib/c.ts");
    assert_eq!(node_path_join("/r", "/lib/c.ts"), "/r/lib/c.ts");
    assert_eq!(node_path_join("/r/", "lib/deep/../c.ts"), "/r/lib/c.ts");
}

#[test]
fn suffix_matching() {
    assert!(matches_file_suffix(".stylex", "foo.stylex"));
    assert!(matches_file_suffix(".stylex", "foo.stylex.ts"));
    assert!(matches_file_suffix(".stylex", "a/b/foo.stylex.mjs"));
    assert!(!matches_file_suffix(".stylex", "foo.stylex.const.ts"));
    assert!(!matches_file_suffix(".stylex", "foostylex.ts"));
    assert!(matches_file_suffix(".stylex.const", "foo.stylex.const.ts"));
    assert!(is_theme_specifier("./x.stylex", THEME_FILE_EXTENSION));
    assert!(is_theme_specifier(
        "./x.stylex.const.js",
        THEME_FILE_EXTENSION
    ));
    assert!(is_theme_specifier(
        "./x.transformed.js",
        THEME_FILE_EXTENSION
    ));
    assert!(!is_theme_specifier("./helpers", THEME_FILE_EXTENSION));
    assert!(!is_theme_specifier("./helpers.ts", THEME_FILE_EXTENSION));
}

#[test]
fn suffix_matching_under_a_configured_extension() {
    assert!(matches_file_suffix("cssvars", "src/defaultcssvars.js"));
    assert!(matches_file_suffix("", "src/whatever.ts"));
    assert!(matches_file_suffix("/vars", "src/theme/vars.ts"));
    assert!(!matches_file_suffix(".css", "src/tokens.css.mts"));
    assert!(!matches_file_suffix(".css", "src/tokens.CSS.ts"));
    assert!(!matches_file_suffix(".css", "src/tokensXcssY.ts"));
    assert!(is_theme_specifier("./tokens.css", ".css"));
    assert!(is_theme_specifier("./tokens.css.const", ".css"));
    assert!(is_theme_specifier("./tokens.transformed", ".css"));
    assert!(!is_theme_specifier("./tokens.stylex", ".css"));
}

#[test]
fn file_based_identifier() {
    assert_eq!(
        gen_file_based_identifier("pkg:src/t.stylex.ts", "colors", None),
        "pkg:src/t.stylex.ts//colors"
    );
    assert_eq!(
        gen_file_based_identifier("pkg:t.stylex.ts", "colors", Some("accent")),
        "pkg:t.stylex.ts//colors.accent"
    );
    assert_eq!(
        gen_file_based_identifier("f", "e", Some("button.primary")),
        "f//e.button.primary"
    );
}

fn to_json(v: &serde_json::Value) -> Json {
    match v {
        serde_json::Value::Null => Json::Null,
        serde_json::Value::Bool(b) => Json::Bool(*b),
        serde_json::Value::Number(n) => Json::Number(n.to_string()),
        serde_json::Value::String(s) => Json::Str(s.clone()),
        serde_json::Value::Array(v) => Json::Arr(v.iter().map(to_json).collect()),
        serde_json::Value::Object(m) => {
            Json::Obj(m.iter().map(|(k, v)| (k.clone(), to_json(v))).collect())
        }
    }
}

/// A disk in memory: files with their contents.
struct Disk {
    files: Vec<(String, String)>,
}

fn folded(path: &str) -> String {
    let mut names: Vec<&str> = Vec::new();
    for name in path.split('/') {
        match name {
            "" | "." => {}
            ".." => {
                names.pop();
            }
            other => names.push(other),
        }
    }
    format!("/{}", names.join("/"))
}

impl Disk {
    fn new(root: &str, files: &[(&str, &str)]) -> Disk {
        Disk {
            files: files
                .iter()
                .map(|(name, text)| (format!("{root}/{name}"), (*text).to_string()))
                .collect(),
        }
    }

    fn text(&self, path: &str) -> Option<&str> {
        let path = folded(path);
        self.files
            .iter()
            .find(|(name, _)| *name == path)
            .map(|(_, text)| text.as_str())
    }

    fn write(&mut self, path: &str, text: &str) {
        self.files.retain(|(name, _)| name != path);
        self.files.push((path.to_string(), text.to_string()));
    }

    fn is_dir(&self, path: &str) -> bool {
        let dir = format!("{}/", folded(path).trim_end_matches('/'));
        self.files.iter().any(|(name, _)| name.starts_with(&dir))
    }

    fn answer(&self, query: &Query) -> Answer {
        match query {
            Query::IsFile(p) => Answer::Flag(self.text(p).is_some()),
            Query::Exists(p) => Answer::Flag(self.text(p).is_some() || self.is_dir(p)),
            Query::IsDir(p) => Answer::Flag(self.is_dir(p)),
            Query::Manifest(p) => {
                Answer::Manifest(match self.text(&format!("{p}/package.json")) {
                    None => Manifest::Missing,
                    Some(text) => match serde_json::from_str::<serde_json::Value>(text) {
                        Ok(v) => Manifest::Parsed(to_json(&v)),
                        Err(_) => Manifest::Malformed,
                    },
                })
            }
            Query::RealPath(p) => Answer::Path(folded(p)),
        }
    }

    fn ask<T>(&self, memo: &mut MemoFs, f: impl Fn(&Facts) -> Result<T, Query>) -> T {
        memo.begin();
        loop {
            match f(&memo.facts) {
                Ok(v) => return v,
                Err(query) => {
                    let answer = self.answer(&query);
                    memo.learn(&query, answer);
                }
            }
        }
    }

    fn resolve(&self, root: &str, importer: &str, specifier: &str) -> Option<String> {
        let mut memo = MemoFs::snapshot();
        let config = ResolveConfig {
            aliases: None,
            root_dir: None,
        };
        let importer = format!("{root}/{importer}");
        self.ask(&mut memo, |facts| {
            resolve_import(facts, specifier, &importer, config)
        })
        .map(|p| path_relative(root, &p))
    }
}

fn node_fixture() -> Disk {
    Disk::new(
        "/work/node",
        &[
            (
                "package.json",
                r##"{"name":"self-pkg","exports":{"./self.stylex":"./src/self.stylex.js"},"imports":{"#tok/*":"./src/hashed/*.js","#hash/*.stylex":"./src/hashed/*.stylex.js"}}"##,
            ),
            ("src/self.stylex.js", ""),
            ("src/hashed/deep.stylex.js", ""),
            (
                "node_modules/design-tokens/package.json",
                r#"{"name":"design-tokens","exports":{"./theme.stylex":"./out/theme.stylex.js","./pat/*.stylex":"./out/pat-*.stylex.js","./cond.stylex":{"browser":"./out/browser.js","node":"./out/node.js","default":"./out/default.js"},"./blocked.stylex":null}}"#,
            ),
            ("node_modules/design-tokens/out/theme.stylex.js", ""),
            ("node_modules/design-tokens/out/pat-deep.stylex.js", ""),
            ("node_modules/design-tokens/out/node.js", ""),
            ("node_modules/design-tokens/out/default.js", ""),
            (
                "node_modules/plain-tokens/package.json",
                r#"{"name":"plain-tokens"}"#,
            ),
            ("node_modules/plain-tokens/lib/theme.stylex.js", ""),
            (
                "node_modules/tokens.stylex/package.json",
                r#"{"name":"tokens.stylex","main":"lib/entry"}"#,
            ),
            ("node_modules/tokens.stylex/lib/entry.js", ""),
        ],
    )
}

#[test]
fn node_package_resolution() {
    let disk = node_fixture();
    let resolve = |spec: &str| disk.resolve("/work/node", "src/input.ts", spec);
    assert_eq!(
        resolve("design-tokens/theme.stylex").as_deref(),
        Some("node_modules/design-tokens/out/theme.stylex.js")
    );
    assert_eq!(
        resolve("design-tokens/pat/deep.stylex").as_deref(),
        Some("node_modules/design-tokens/out/pat-deep.stylex.js")
    );
    assert_eq!(
        resolve("design-tokens/cond.stylex").as_deref(),
        Some("node_modules/design-tokens/out/node.js")
    );
    assert_eq!(resolve("design-tokens/blocked.stylex"), None);
    assert_eq!(resolve("design-tokens/missing.stylex"), None);
    assert_eq!(
        resolve("plain-tokens/lib/theme.stylex").as_deref(),
        Some("node_modules/plain-tokens/lib/theme.stylex.js")
    );
    assert_eq!(
        resolve("tokens.stylex").as_deref(),
        Some("node_modules/tokens.stylex/lib/entry.js")
    );
    assert_eq!(
        resolve("self-pkg/self.stylex").as_deref(),
        Some("src/self.stylex.js")
    );
    assert_eq!(
        resolve("#tok/deep.stylex").as_deref(),
        Some("src/hashed/deep.stylex.js")
    );
    assert_eq!(resolve("#hash/deep.stylex"), None);
}

fn hostile_fixture() -> Disk {
    let mut files: Vec<(&str, &str)> = vec![
        (
            "package.json",
            r##"{"name":"hostile-root","imports":{"#tok/*":"./src/hashed/*.js","#url":"https://example.com/x.js","#bare":"sealed/tokens/x.stylex","#barestar/*":"sealed/tokens/*.stylex","#arr/*":[null,"./src/hashed/*.js"],"#dead/*.stylex":"./src/hashed/*.stylex.js"}}"##,
        ),
        ("src/input.ts", ""),
        ("src/hashed/deep.stylex.js", ""),
        ("src/hashed/x.js", ""),
        ("src/esc.js", ""),
        ("src/esc%2fx.stylex.js", ""),
        ("src/.hidden.stylex.js", ""),
        (
            "node_modules/sealed/package.json",
            r#"{"name":"sealed","exports":{
                    "./tokens/*.stylex":"./public/*.stylex.js",
                    "./arrnull.stylex":[null,"./ok.stylex.js"],
                    "./arrbad.stylex":["bad-no-dot-slash","./ok.stylex.js"],
                    "./arrempty.stylex":[],
                    "./arrnested.stylex":[[],"./ok.stylex.js"],
                    "./arrmiss.stylex":["./gone.stylex.js","./ok.stylex.js"],
                    "./multistar/*.stylex":"./out/*-*.stylex.js",
                    "./nested.stylex":{"node":{"unknown":"./inner.stylex.js"},"default":"./default.stylex.js"},
                    "./nesteddef.stylex":{"node":{"unknown":"./inner.stylex.js","default":"./innerdef.stylex.js"},"default":"./default.stylex.js"},
                    "./num.stylex":{"0":"./zero.stylex.js","default":"./default.stylex.js"},
                    "./numarr.stylex":[{"0":"./zero.stylex.js"},"./ok.stylex.js"],
                    "./badtarget.stylex":"./../escape.stylex.js",
                    "./nmtarget.stylex":"./node_modules/inner.stylex.js",
                    "./dslash.stylex":".//ok.stylex.js",
                    "./dotseg.stylex":"./././ok.stylex.js",
                    "./urltarget.stylex":"file:///etc/passwd",
                    "./numtarget.stylex":[42,"./ok.stylex.js"]
                }}"#,
        ),
    ];
    for f in [
        "node_modules/sealed/public/x.stylex.js",
        "node_modules/sealed/public/a%2fb.stylex.js",
        "node_modules/sealed/public/a\\b.stylex.js",
        "node_modules/sealed/public/a/b.stylex.js",
        "node_modules/sealed/ok.stylex.js",
        "node_modules/sealed/out/deep-deep.stylex.js",
        "node_modules/sealed/default.stylex.js",
        "node_modules/sealed/inner.stylex.js",
        "node_modules/sealed/innerdef.stylex.js",
        "node_modules/sealed/zero.stylex.js",
        "node_modules/sealed/private.stylex.js",
        "node_modules/sealed/node_modules/inner.stylex.js",
        "node_modules/escape.stylex.js",
    ] {
        files.push((f, ""));
    }
    files.push(("node_modules/badjson/package.json", "{ nope"));
    files.push(("node_modules/badjson/lib/x.stylex.js", ""));
    files.push(("node_modules/badjson/index.js", ""));
    files.push(("node_modules/plain/lib/x.stylex.js", ""));
    files.push(("node_modules/plain/index.js", ""));
    files.push(("scoped/package.json", "{ also nope"));
    files.push(("scoped/input.ts", ""));
    Disk::new("/work/hostile", &files)
}

#[test]
fn exports_invalid_segments_reject() {
    let disk = hostile_fixture();
    let resolve = |spec: &str| disk.resolve("/work/hostile", "src/input.ts", spec);
    assert_eq!(
        resolve("sealed/tokens/x.stylex").as_deref(),
        Some("node_modules/sealed/public/x.stylex.js")
    );
    assert_eq!(resolve("sealed/tokens/../private.stylex"), None);
    assert_eq!(resolve("sealed/tokens/%2e%2e/private.stylex"), None);
    assert_eq!(resolve("sealed/tokens/%2E%2E/private.stylex"), None);
    assert_eq!(resolve("sealed/tokens/./x.stylex"), None);
    assert_eq!(resolve("sealed/tokens/node_modules/x.stylex"), None);
    assert_eq!(resolve("sealed/tokens/NoDe_MoDuLeS/x.stylex"), None);
    assert_eq!(resolve("sealed/tokens/%6eode_modules/x.stylex"), None);
    assert_eq!(resolve("sealed/tokens/..\\private.stylex"), None);
    assert_eq!(resolve("sealed/tokens/a%2fb.stylex"), None);
    assert_eq!(resolve("sealed/tokens/a%5Cb.stylex"), None);
    assert_eq!(resolve("./esc%2fx.stylex"), None);
    assert_eq!(
        resolve("sealed/tokens/a\\b.stylex").as_deref(),
        Some("node_modules/sealed/public/a/b.stylex.js")
    );
    assert_eq!(resolve("sealed/badtarget.stylex"), None);
    assert_eq!(resolve("sealed/nmtarget.stylex"), None);
    assert_eq!(resolve("sealed/dotseg.stylex"), None);
    assert_eq!(
        resolve("sealed/dslash.stylex").as_deref(),
        Some("node_modules/sealed/ok.stylex.js")
    );
    assert_eq!(resolve("sealed/urltarget.stylex"), None);
    assert_eq!(
        resolve("plain/lib/x.stylex").as_deref(),
        Some("node_modules/plain/lib/x.stylex.js")
    );
    assert_eq!(
        resolve("plain/lib/../lib/x.stylex").as_deref(),
        Some("node_modules/plain/lib/x.stylex.js")
    );
    assert_eq!(
        resolve("plain/lib/../../escape.stylex").as_deref(),
        Some("node_modules/escape.stylex.js")
    );
    assert_eq!(resolve(".hidden.stylex"), None);
}

#[test]
fn exports_result_algebra() {
    let disk = hostile_fixture();
    let resolve = |spec: &str| disk.resolve("/work/hostile", "src/input.ts", spec);
    assert_eq!(
        resolve("sealed/arrnull.stylex").as_deref(),
        Some("node_modules/sealed/ok.stylex.js")
    );
    assert_eq!(
        resolve("sealed/arrbad.stylex").as_deref(),
        Some("node_modules/sealed/ok.stylex.js")
    );
    assert_eq!(
        resolve("sealed/arrnested.stylex").as_deref(),
        Some("node_modules/sealed/ok.stylex.js")
    );
    assert_eq!(
        resolve("sealed/numtarget.stylex").as_deref(),
        Some("node_modules/sealed/ok.stylex.js")
    );
    assert_eq!(resolve("sealed/arrempty.stylex"), None);
    assert_eq!(resolve("sealed/arrmiss.stylex"), None);
    assert_eq!(
        resolve("sealed/multistar/deep.stylex").as_deref(),
        Some("node_modules/sealed/out/deep-deep.stylex.js")
    );
    assert_eq!(resolve("sealed/nested.stylex"), None);
    assert_eq!(
        resolve("sealed/nesteddef.stylex").as_deref(),
        Some("node_modules/sealed/innerdef.stylex.js")
    );
    assert_eq!(resolve("sealed/num.stylex"), None);
    assert_eq!(resolve("sealed/numarr.stylex"), None);
    assert_eq!(resolve("badjson/lib/x.stylex"), None);
    assert_eq!(resolve("badjson"), None);
    assert_eq!(
        resolve("plain").as_deref(),
        Some("node_modules/plain/index.js")
    );
}

#[test]
fn imports_algebra_and_malformed_scope() {
    let disk = hostile_fixture();
    let resolve = |spec: &str| disk.resolve("/work/hostile", "src/input.ts", spec);
    assert_eq!(
        resolve("#tok/deep.stylex").as_deref(),
        Some("src/hashed/deep.stylex.js")
    );
    assert_eq!(resolve("#tok/../esc"), None);
    assert_eq!(resolve("#tok/x/"), None);
    assert_eq!(resolve("#url"), None);
    assert_eq!(
        resolve("#bare").as_deref(),
        Some("node_modules/sealed/public/x.stylex.js")
    );
    assert_eq!(
        resolve("#barestar/x").as_deref(),
        Some("node_modules/sealed/public/x.stylex.js")
    );
    assert_eq!(resolve("#arr/x").as_deref(), Some("src/hashed/x.js"));
    assert_eq!(resolve("#dead/deep.stylex"), None);
    let scoped = |spec: &str| disk.resolve("/work/hostile", "scoped/input.ts", spec);
    assert_eq!(scoped("sealed/tokens/x.stylex"), None);
    assert_eq!(scoped("#tok/deep.stylex"), None);
}

fn url_fixture() -> Disk {
    let mut files: Vec<(&str, &str)> = vec![(
        "package.json",
        r##"{"name":"r5-root","imports":{"#x*é":"./src/star/*.stylex.js","#y*":"./src/star/*.stylex.js","#q*":"./src/star/*.stylex.js?mode=theme","#é*":"./src/star/*.stylex.js","#bool.stylex":["bad-bool","./src/fallback.stylex.js"],"#num.stylex":["bad-num","./src/fallback.stylex.js"]}}"##,
    )];
    for f in [
        "src/input.ts",
        "src/star/foo.stylex.stylex.js",
        "src/star/*foo.stylex.stylex.js",
        "src/star/-theme.stylex.js",
        "src/fallback.stylex.js",
        "src/x%20.stylex.js",
        "src/x .stylex.js",
        "src/only-enc%21.stylex.js",
        "src/pct é.stylex.js",
        "src/q.stylex",
        "node_modules/bad-bool/index.js",
        "node_modules/bad-num/index.js",
        "node_modules/qexp/out/q.stylex.js",
        "node_modules/qexp/out/deep.stylex.js",
        "node_modules/qexp/out/sp ace.stylex.js",
        "node_modules/qexp/out/q%2g.stylex.js",
        "node_modules/qexp/escape.stylex.js",
    ] {
        files.push((f, ""));
    }
    files.push((
        "node_modules/bad-bool/package.json",
        r#"{"name":"bad-bool","exports":true}"#,
    ));
    files.push((
        "node_modules/bad-num/package.json",
        r#"{"name":"bad-num","exports":42}"#,
    ));
    files.push((
        "node_modules/qexp/package.json",
        r##"{"name":"qexp","exports":{
                    "./q.stylex":"./out/q.stylex.js?mode=x",
                    "./frag.stylex":"./out/q.stylex.js#frag",
                    "./qstar/*.stylex":"./out/*.stylex.js?v=*",
                    "./enc/*.stylex":"./out/*.stylex.js",
                    "./malformed.stylex":"./out/q%2g.stylex.js",
                    "./encdot/*.stylex":"./out/%2e%2e/*.stylex.js"
                }}"##,
    ));
    Disk::new("/work/urls", &files)
}

#[test]
fn r5_unicode_imports_keys() {
    let disk = url_fixture();
    let resolve = |spec: &str| disk.resolve("/work/urls", "src/input.ts", spec);
    assert_eq!(resolve("#xfoo.stylex"), None);
    assert_eq!(
        resolve("#x*foo.stylexé").as_deref(),
        Some("src/star/*foo.stylex.stylex.js")
    );
    assert_eq!(
        resolve("#yfoo.stylex").as_deref(),
        Some("src/star/foo.stylex.stylex.js")
    );
    assert_eq!(
        resolve("#éfoo.stylex").as_deref(),
        Some("src/star/foo.stylex.stylex.js")
    );
}

#[test]
fn r5_file_url_semantics() {
    let disk = url_fixture();
    let resolve = |spec: &str| disk.resolve("/work/urls", "src/input.ts", spec);
    assert_eq!(
        resolve("./x%20.stylex").as_deref(),
        Some("src/x .stylex.js")
    );
    assert_eq!(resolve("./x .stylex").as_deref(), Some("src/x .stylex.js"));
    assert_eq!(resolve("./only-enc%21.stylex"), None);
    assert_eq!(
        resolve("./pct%20é.stylex").as_deref(),
        Some("src/pct é.stylex.js")
    );
    assert_eq!(
        resolve("./q.stylex?mode=theme").as_deref(),
        Some("src/q.stylex")
    );
    assert_eq!(resolve("./q.stylex#frag").as_deref(), Some("src/q.stylex"));
    assert_eq!(resolve("./q%2g.stylex"), None);
    assert_eq!(resolve("./x%2G.stylex"), None);
    assert_eq!(
        resolve("./star/%2e%2e/q.stylex").as_deref(),
        Some("src/q.stylex")
    );
    assert_eq!(
        resolve("qexp/q.stylex").as_deref(),
        Some("node_modules/qexp/out/q.stylex.js")
    );
    assert_eq!(
        resolve("qexp/frag.stylex").as_deref(),
        Some("node_modules/qexp/out/q.stylex.js")
    );
    assert_eq!(
        resolve("qexp/qstar/deep.stylex").as_deref(),
        Some("node_modules/qexp/out/deep.stylex.js")
    );
    assert_eq!(
        resolve("qexp/enc/sp%20ace.stylex").as_deref(),
        Some("node_modules/qexp/out/sp ace.stylex.js")
    );
    assert_eq!(
        resolve("#q-theme").as_deref(),
        Some("src/star/-theme.stylex.js")
    );
    assert_eq!(resolve("qexp/enc/deep.stylex?x"), None);
    assert_eq!(resolve("qexp/malformed.stylex"), None);
    assert_eq!(resolve("qexp/encdot/deep.stylex"), None);
}

#[test]
fn r5_primitive_exports_roots_are_fatal() {
    let disk = url_fixture();
    let resolve = |spec: &str| disk.resolve("/work/urls", "src/input.ts", spec);
    assert_eq!(resolve("#bool.stylex"), None);
    assert_eq!(resolve("#num.stylex"), None);
    assert_eq!(resolve("bad-bool"), None);
    assert_eq!(resolve("bad-bool/sub.stylex"), None);
}

#[test]
fn segment_and_key_helpers() {
    assert!(has_deprecated_segment(".."));
    assert!(has_deprecated_segment("a/../b"));
    assert!(has_deprecated_segment("a/%2e%2E/b"));
    assert!(has_deprecated_segment("%2e."));
    assert!(has_deprecated_segment("a\\..\\b"));
    assert!(has_deprecated_segment("x/node_modules/y"));
    assert!(has_deprecated_segment("x/NODE_MODULES/y"));
    assert!(has_deprecated_segment("x/%6eode_modul%65s/y"));
    assert!(!has_deprecated_segment("a//b"));
    assert!(!has_deprecated_segment("a/.b/b"));
    assert!(!has_deprecated_segment("a/..b/b"));
    assert!(!has_deprecated_segment("a/node_modulesx/b"));
    assert!(!has_deprecated_segment("a/%2f/b"));
    assert!(is_js_array_index("0"));
    assert!(is_js_array_index("42"));
    assert!(is_js_array_index("1.5"));
    assert!(!is_js_array_index("01"));
    assert!(!is_js_array_index("-1"));
    assert!(!is_js_array_index("0x10"));
    assert!(!is_js_array_index(" 1"));
    assert!(!is_js_array_index("4294967295"));
    assert!(is_js_array_index("4294967294"));
    assert!(!is_js_array_index("default"));
    assert!(!is_js_array_index("NaN"));
    assert!(!is_js_array_index("Infinity"));
    assert!(parses_as_url("https://example.com/x.js"));
    assert!(parses_as_url("file:///etc/passwd"));
    assert!(parses_as_url("a:"));
    assert!(!parses_as_url("1a:b"));
    assert!(!parses_as_url("a/b:c"));
    assert!(!parses_as_url("no-colon"));
}

#[test]
fn relative_paths() {
    let rel = |a: &str, b: &str| path_relative(a, b);
    assert_eq!(rel("/a/b", "/a/b/c/d.ts"), "c/d.ts");
    assert_eq!(rel("/a/b", "/a/x/d.ts"), "../x/d.ts");
    assert_eq!(rel("/a/b/c", "/a"), "../..");
    assert_eq!(normalize_path("/a/b/../c/./d.ts"), "/a/c/d.ts");
}

fn memo_fixture() -> Disk {
    Disk::new(
        "/work/memo",
        &[
            ("package.json", r#"{"name":"root-pkg"}"#),
            ("pkg/package.json", r#"{"name":"nested-pkg"}"#),
            ("pkg/src/a/one.ts", ""),
            ("pkg/src/b/two.ts", ""),
            ("pkg/src/b/tokens.stylex.ts", ""),
            ("other/deep/three.ts", ""),
        ],
    )
}

fn package_of(disk: &Disk, memo: &mut MemoFs, file: &str) -> Option<(String, String)> {
    disk.ask(memo, |facts| nearest_package(facts, file, None))
}

#[test]
fn memo_snapshot_matches_std_and_fills_every_visited_level() {
    let disk = memo_fixture();
    let mut memo = MemoFs::snapshot();
    for rel in [
        "pkg/src/a/one.ts",
        "pkg/src/b/two.ts",
        "other/deep/three.ts",
        "pkg/src/a/one.ts",
    ] {
        let file = format!("/work/memo/{rel}");
        assert_eq!(
            package_of(&disk, &mut memo, &file),
            package_of(&disk, &mut MemoFs::live(), &file)
        );
    }
    let manifests = &memo.facts.manifests;
    for dir in ["pkg/src/a", "pkg/src", "pkg", "other/deep", "other"] {
        assert!(
            manifests
                .iter()
                .any(|(d, _)| *d == format!("/work/memo/{dir}")),
            "{dir} not filled"
        );
    }
    assert_eq!(
        manifests
            .iter()
            .filter(|(d, _)| d.starts_with("/work/memo"))
            .count(),
        7
    );
}

#[test]
fn memo_snapshot_freezes_while_live_revalidates_edits_and_new_manifests() {
    let mut disk = memo_fixture();
    let mut snapshot = MemoFs::snapshot();
    let mut live = MemoFs::live();
    let file = "/work/memo/pkg/src/a/one.ts";
    let before = Some(("nested-pkg".to_string(), "/work/memo/pkg".to_string()));
    assert_eq!(package_of(&disk, &mut snapshot, file), before);
    assert_eq!(package_of(&disk, &mut live, file), before);

    disk.write(
        "/work/memo/pkg/package.json",
        r#"{"name":"nested-pkg-renamed"}"#,
    );
    assert_eq!(package_of(&disk, &mut snapshot, file), before);
    assert_eq!(
        package_of(&disk, &mut live, file),
        Some((
            "nested-pkg-renamed".to_string(),
            "/work/memo/pkg".to_string()
        ))
    );

    disk.write("/work/memo/pkg/src/package.json", r#"{"name":"src-pkg"}"#);
    assert_eq!(package_of(&disk, &mut snapshot, file), before);
    assert_eq!(
        package_of(&disk, &mut live, file),
        Some(("src-pkg".to_string(), "/work/memo/pkg/src".to_string()))
    );

    disk.write("/work/memo/pkg/src/package.json", "{");
    assert_eq!(package_of(&disk, &mut live, file), None);
    assert_eq!(package_of(&disk, &mut snapshot, file), before);

    snapshot.invalidate_all();
    assert_eq!(package_of(&disk, &mut snapshot, file), None);
}

#[test]
fn memo_keys_by_spelling_so_found_dirs_keep_the_callers_spelling() {
    let disk = memo_fixture();
    let mut memo = MemoFs::snapshot();
    let plain = package_of(&disk, &mut memo, "/work/memo/pkg/src/a/one.ts");
    let doubled = package_of(&disk, &mut memo, "/work/memo//pkg/src/a/one.ts");
    assert_eq!(plain.unwrap().1, "/work/memo/pkg");
    assert_eq!(doubled.unwrap().1, "/work/memo//pkg");
}

#[test]
fn memo_snapshot_resolve_is_keyed_by_importer_dir_and_config() {
    let disk = memo_fixture();
    let mut memo = MemoFs::snapshot();
    let with_root = ResolveConfig {
        aliases: None,
        root_dir: Some("/work/memo"),
    };
    let plain = ResolveConfig {
        aliases: None,
        root_dir: None,
    };
    let a = "/work/memo/pkg/src/b/two.ts";
    let b = "/work/memo/pkg/src/b/other.ts";
    let expected = Some("/work/memo/pkg/src/b/tokens.stylex.ts".to_string());
    for (importer, config) in [(a, with_root), (b, with_root), (b, plain)] {
        assert_eq!(
            disk.ask(&mut memo, |facts| resolve_import(
                facts,
                "./tokens.stylex",
                importer,
                config
            )),
            expected
        );
    }
}

#[test]
fn the_search_for_a_package_ends_at_its_bound() {
    let disk = memo_fixture();
    let ask = |stop: Option<&str>| {
        disk.ask(&mut MemoFs::snapshot(), |facts| {
            nearest_package(facts, "/work/memo/other/deep/three.ts", stop)
        })
    };
    assert_eq!(
        ask(None),
        Some(("root-pkg".to_string(), "/work/memo".to_string()))
    );
    assert_eq!(
        ask(Some("/work/memo")),
        Some(("root-pkg".to_string(), "/work/memo".to_string()))
    );
    assert_eq!(ask(Some("/work/memo/other")), None);
}

#[test]
fn an_unknown_fact_is_asked_for() {
    let facts = Facts::new();
    assert_eq!(
        nearest_package(&facts, "/a/b.ts", None),
        Err(Query::Manifest("/a".to_string()))
    );
}

#[test]
fn files_get_names_that_do_not_depend_on_the_place_of_the_project() {
    let disk = memo_fixture();
    let name = |file: &str, root: Option<&str>| {
        disk.ask(&mut MemoFs::snapshot(), |facts| {
            canonical_file_path(facts, file, root, None)
        })
    };
    assert_eq!(
        name("/work/memo/pkg/src/b/tokens.stylex.ts", None),
        "nested-pkg:src/b/tokens.stylex.ts"
    );
    assert_eq!(
        name("/elsewhere/tokens.stylex.ts", Some("/elsewhere")),
        "tokens.stylex.ts"
    );
}

#[test]
fn imports_of_variables_resolve_to_canonical_names() {
    let disk = memo_fixture();
    let options = ResolvedOptions {
        unstable_module_resolution: Some(ModuleResolution {
            kind: ModuleResolutionType::CommonJs,
            root_dir: Some("/work/memo".to_string()),
            theme_file_extension: ".stylex".to_string(),
        }),
        ..ResolvedOptions::default()
    };
    let resolve = |specifier: &str, file: Option<&str>| {
        disk.ask(&mut MemoFs::snapshot(), |facts| {
            import_path_resolver(facts, specifier, file, &options, None)
        })
    };
    assert_eq!(
        resolve("./tokens.stylex", Some("/work/memo/pkg/src/b/two.ts")).as_deref(),
        Some("nested-pkg:src/b/tokens.stylex.ts")
    );
    assert_eq!(
        resolve("./helpers", Some("/work/memo/pkg/src/b/two.ts")),
        None
    );
    assert_eq!(resolve("./tokens.stylex", None), None);
}

#[test]
fn aliased_imports_are_rewritten() {
    let disk = memo_fixture();
    let options = ResolvedOptions {
        rewrite_aliases: true,
        aliases: Some(alias_map(&[("@b/*", &["/work/memo/pkg/src/b/*"])])),
        ..ResolvedOptions::default()
    };
    let rewritten = disk.ask(&mut MemoFs::snapshot(), |facts| {
        rewritten_import_source(
            facts,
            "@b/tokens.stylex",
            "/work/memo/pkg/src/a/one.ts",
            &options,
        )
    });
    assert_eq!(rewritten.as_deref(), Some("../b/tokens.stylex"));
}

#[test]
fn names_of_packages_are_texts() {
    assert_eq!(js_name_string(&Json::Obj(vec![])), "undefined");
    assert_eq!(
        js_name_string(&Json::Obj(vec![(
            "name".to_string(),
            Json::Number("1.50".to_string())
        )])),
        "1.5"
    );
    assert_eq!(
        parse_package_name("@scope/name/sub"),
        Some(("@scope/name".to_string(), "./sub".to_string()))
    );
    assert_eq!(parse_package_name("@scope"), None);
    assert!(pattern_key_compare("./a/b/*", "./a/*") < 0);
}

#[test]
fn escapes_are_decoded_where_they_spell_text() {
    assert_eq!(percent_decode_path("a%20b").as_deref(), Some("a b"));
    assert_eq!(percent_decode_path("%C3%A9").as_deref(), Some("é"));
    assert_eq!(percent_decode_path("%C3"), None);
    assert_eq!(percent_decode_path("%2g"), None);
}

#[test]
fn names_and_extensions_of_paths() {
    assert_eq!(node_basename("/a/b.ts"), "b.ts");
    assert_eq!(node_extname("/a/b.stylex.ts"), ".ts");
    assert_eq!(node_extname("/a/.b"), "");
    assert_eq!(add_file_extension("./x", "/a/b.ts"), "./x.ts");
    assert_eq!(add_file_extension("./x.js", "/a/b.ts"), "./x.js");
}

#[test]
fn files_are_hashed_by_their_contents() {
    assert_eq!(
        hash_file(Some(&vec![])).as_deref(),
        Some("af1349b9f5f9a1a6a0404dea36dcc9499bcb25c9adc112b7cc9a93cae41f3262")
    );
    assert_ne!(hash_file(Some(&vec![1])), hash_file(Some(&vec![])));
    assert_eq!(hash_file(None), None);
}

#[test]
fn stamps_decide_what_a_live_memory_recalls() {
    let stamp = |len: u64| {
        Some(Stamp {
            modified: Some((1, 2)),
            len,
        })
    };
    let mut live: Stamped<u8> = Stamped::new(true);
    live.learn("/a", stamp(1), 7);
    assert_eq!(live.recall("/a", stamp(1)), Some(&7));
    assert_eq!(live.recall("/a", stamp(2)), None);
    assert_eq!(live.recall("/b", stamp(1)), None);
    live.learn("/a", stamp(2), 8);
    assert_eq!(live.recall("/a", stamp(2)), Some(&8));
    let mut snapshot: Stamped<u8> = Stamped::new(false);
    snapshot.learn("/a", stamp(1), 7);
    assert_eq!(snapshot.recall("/a", stamp(2)), Some(&7));
    snapshot.forget();
    assert_eq!(snapshot.recall("/a", stamp(1)), None);
}

#[test]
fn haste_names_are_the_specifiers() {
    let options = ResolvedOptions {
        unstable_module_resolution: Some(ModuleResolution {
            kind: ModuleResolutionType::Haste,
            root_dir: None,
            theme_file_extension: ".stylex".to_string(),
        }),
        ..ResolvedOptions::default()
    };
    let facts = Facts::new();
    assert_eq!(
        import_path_resolver(&facts, "tokens.stylex", Some("/a/b.ts"), &options, None),
        Ok(Some("tokens.stylex.ts".to_string()))
    );
    assert_eq!(
        import_path_resolver(&facts, "helpers", Some("/a/b.ts"), &options, None),
        Ok(None)
    );
}

#[test]
fn double_dots_stop_at_the_root() {
    assert_eq!(normalize_path("/../a"), "/a");
    assert_eq!(normalize_path("/a/../../b/."), "/b");
    assert_eq!(normalize_path("/.."), "/");
    assert_eq!(normalize_path("../../x"), "../../x");
    assert_eq!(normalize_path("a/../../x"), "../x");
    assert_eq!(normalize_path("a/.."), "");
    assert_eq!(node_path_join("/", "../x"), "/x");
    assert_eq!(node_path_join("/a", "../../x"), "/x");
    assert_eq!(path_relative("/../a", "/a/b"), "b");
}

#[test]
fn import_sources_lead_to_the_file() {
    for (from, to) in [
        ("/r/src/a.ts", "/r/lib/b.ts"),
        ("/r/a.ts", "/r/.hidden/b.ts"),
        ("/r/a.ts", "/r"),
        ("/a.ts", "/x/../b.ts"),
        ("/r/../s/a.ts", "/s/b.ts"),
    ] {
        let source = get_relative_path(from, to);
        assert!(source.starts_with('.'), "{source}");
        let dir = from.rsplit_once('/').unwrap().0;
        assert_eq!(
            normalize_path(&format!("{dir}/{source}")),
            normalize_path(to),
            "{from} {to}"
        );
    }
    assert_eq!(get_relative_path("/r/a.ts", "/r"), "./");
}
