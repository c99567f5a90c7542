//! Namespaces of styles compiled to class names and rules.

use crate::errors::{ErrorModel, StylexError};
use crate::hash::{create_short_hash, short_hash_text};
use crate::number::{decimal, decimal_text};
use crate::options::{ModuleResolution, ModuleResolutionType, ResolvedOptions};
use crate::rules::{rule_models, RuleModel, StylexRule};
use crate::shared::dashify::{sanitize_dev_class_name, sanitized};
use crate::shared::dev_naming::{
    convert_to_test_styles, create_short_filename, dev_class_prefix, dev_prefix, file_or_unknown,
    opt_pair, opt_str, short_filename, test_styles_upto, DebugPathInfo,
};
use crate::shared::flatten::{
    compiled, compiled_models, copy_texts, flat_models, flat_result, flatten_raw_style_object,
    flattened, namespace_error, validate_namespace, CompiledModel, FlatModel, PreRule,
    PreRuleModel,
};
use crate::shared::media_order::{can_change, media_order_transform, ordered};
use crate::text::{
    chars_of, concat2, concat3, has_prefix, join, join_texts, starts_with, str_eq, texts,
};
use crate::value::{
    append_put, item_keys, keys_of, lemma_find_key, opt_text, position_of, put, value_of, EvalValue,
    JsObjectMap, ObjModel, Val,
};
use vstd::prelude::*;

verus! {

/// What a call sees besides its argument.
#[derive(Debug)]
pub struct CreateContext<'a> {
    pub options: &'a ResolvedOptions,
    /// The absolute name of the source file.
    pub filename: Option<String>,
    /// The working directory.
    pub cwd: String,
    /// The variable that the result is assigned to.
    pub var_name: Option<String>,
    /// The source line of each namespace.
    pub namespace_lines: Option<Vec<(String, u32)>>,
    /// The name and the directory of the nearest package above the file.
    pub file_package: Option<(String, String)>,
    /// The name of the nearest package above the working directory.
    pub cwd_package_name: Option<String>,
}

impl<'a> CreateContext<'a> {
    /// A context in which nothing but the options is known.
    pub fn new(options: &'a ResolvedOptions) -> (r: CreateContext<'a>)
        ensures
            r.options == options,
            r.filename is None,
            r.cwd@ == Seq::<char>::empty(),
            r.var_name is None,
            r.namespace_lines is None,
            r.file_package is None,
            r.cwd_package_name is None,
    {
        CreateContext {
            options,
            filename: None,
            cwd: String::new(),
            var_name: None,
            namespace_lines: None,
            file_package: None,
            cwd_package_name: None,
        }
    }
}

/// The paths of class names.
pub type ClassPathsInNamespace = Vec<(String, Vec<String>)>;

/// The paths of class names, mathematically.
pub type PathsModel = Seq<(Seq<char>, Seq<Seq<char>>)>;

/// What namespaces compile to.
#[derive(Debug, PartialEq)]
pub struct CreateOutput {
    /// The compiled object of each namespace.
    pub compiled: JsObjectMap,
    /// The rules, each class name once.
    pub rules: Vec<StylexRule>,
    /// The paths of the class names of each namespace, where they were asked for.
    pub class_paths: Vec<(String, ClassPathsInNamespace)>,
}

/// What namespaces compile to, mathematically.
#[verifier::ext_equal]
pub struct OutputModel {
    pub compiled: Seq<(Seq<char>, Val)>,
    pub rules: Seq<RuleModel>,
    pub class_paths: Seq<(Seq<char>, PathsModel)>,
}

/// What the paths of class names are, mathematically.
pub open spec fn path_models(v: Seq<(String, Vec<String>)>) -> PathsModel {
    Seq::new(v.len(), |i: int| (v[i].0@, texts(v[i].1@)))
}

/// What the paths of the class names of namespaces are, mathematically.
pub open spec fn class_path_models(v: Seq<(String, ClassPathsInNamespace)>) -> Seq<
    (Seq<char>, PathsModel),
> {
    Seq::new(v.len(), |i: int| (v[i].0@, path_models(v[i].1@)))
}

impl CreateOutput {
    /// What the output is, mathematically.
    pub open spec fn model(self) -> OutputModel {
        OutputModel {
            compiled: self.compiled.pairs(),
            rules: rule_models(self.rules@),
            class_paths: class_path_models(self.class_paths@),
        }
    }
}

/// What compiling namespaces gives, mathematically.
pub open spec fn output_result(r: Result<CreateOutput, StylexError>) -> Result<
    OutputModel,
    ErrorModel,
> {
    match r {
        Ok(o) => Ok(o.model()),
        Err(e) => Err(e.model()),
    }
}

/// The namespace of a single declaration.
pub const INLINE_NAMESPACE: &'static str = "__inline__";

/// Those of the first `k` rules whose key does not come again.
pub open spec fn last_upto(flat: FlatModel, k: int) -> FlatModel
    decreases k,
{
    if k <= 0 {
        Seq::empty()
    } else if exists|j: int| k <= j < flat.len() && (#[trigger] flat[j]).0 == flat[k - 1].0 {
        last_upto(flat, k - 1)
    } else {
        last_upto(flat, k - 1).push(flat[k - 1])
    }
}

/// The last rule of each key, in order.
pub open spec fn last_of_each(flat: FlatModel) -> FlatModel {
    last_upto(flat, flat.len() as int)
}

/// The key of a rule in the compiled object.
pub open spec fn display_key(key: Seq<char>, options: ResolvedOptions) -> Seq<char> {
    if options.enable_minified_keys && !has_prefix(key, "--"@) {
        minified_key(key, options.debug)
    } else {
        key
    }
}

/// The short form of a key.
pub open spec fn minified_key(key: Seq<char>, debug: bool) -> Seq<char> {
    let hash = "k"@ + short_hash_text("<>"@ + key);
    if debug {
        key + "-"@ + hash
    } else {
        hash
    }
}

/// The class names of the first `k` rules, each once.
pub open spec fn names_upto(v: CompiledModel, k: int) -> Seq<Seq<char>>
    decreases k,
{
    if k <= 0 {
        Seq::empty()
    } else {
        let done = names_upto(v, k - 1);
        if done.contains(v[k - 1].0.class_name) {
            done
        } else {
            done.push(v[k - 1].0.class_name)
        }
    }
}

/// The value of a key in the compiled object: the class names, or `null`.
pub open spec fn names_value(v: CompiledModel) -> Val {
    let joined = join_texts(names_upto(v, v.len() as int), " "@);
    if joined.len() == 0 {
        Val::Null
    } else {
        Val::Str(joined)
    }
}

/// Whether a class name has a rule.
pub open spec fn has_class(rules: Seq<RuleModel>, class: Seq<char>) -> bool {
    exists|i: int| 0 <= i < rules.len() && (#[trigger] rules[i]).class_name == class
}

/// The rules, and those of the first `k` compiled ones whose class name has none.
pub open spec fn with_new(rules: Seq<RuleModel>, v: CompiledModel, k: int) -> Seq<RuleModel>
    decreases k,
{
    if k <= 0 {
        rules
    } else {
        let done = with_new(rules, v, k - 1);
        if has_class(done, v[k - 1].0.class_name) {
            done
        } else {
            done.push(v[k - 1].0)
        }
    }
}

/// The paths after those of the first `k` compiled rules were set.
pub open spec fn with_paths(paths: PathsModel, v: CompiledModel, k: int) -> PathsModel
    decreases k,
{
    if k <= 0 {
        paths
    } else {
        append_put(with_paths(paths, v, k - 1), v[k - 1].0.class_name, v[k - 1].1)
    }
}

/// What the keys of a namespace have compiled to so far.
#[verifier::ext_equal]
pub struct KeysModel {
    pub entries: Seq<(Seq<char>, Val)>,
    pub paths: PathsModel,
    pub rules: Seq<RuleModel>,
}

/// What stands after one more key with its compiled rules.
pub open spec fn with_key_rules(
    s: KeysModel,
    key: Seq<char>,
    v: CompiledModel,
    options: ResolvedOptions,
    need_paths: bool,
) -> KeysModel {
    KeysModel {
        entries: put(s.entries, display_key(key, options), names_value(v)),
        paths: if need_paths {
            with_paths(s.paths, v, v.len() as int)
        } else {
            s.paths
        },
        rules: with_new(s.rules, v, v.len() as int),
    }
}

/// What stands after the first `k` keys.
pub open spec fn keys_upto(
    start: KeysModel,
    flat: FlatModel,
    options: ResolvedOptions,
    need_paths: bool,
    k: int,
) -> Result<KeysModel, ErrorModel>
    decreases k,
{
    if k <= 0 {
        Ok(start)
    } else {
        match keys_upto(start, flat, options, need_paths, k - 1) {
            Err(e) => Err(e),
            Ok(s) => match compiled(flat[k - 1].1, options) {
                Ok(v) => Ok(with_key_rules(s, flat[k - 1].0, v, options, need_paths)),
                Err(e) => Err(e),
            },
        }
    }
}

/// The style of a namespace after its media queries were put in order.
pub open spec fn media_ordered(m: ObjModel, options: ResolvedOptions) -> Result<
    ObjModel,
    ErrorModel,
> {
    if options.enable_media_query_order && can_change(m, false) {
        ordered(m, false)
    } else {
        Ok(m)
    }
}

/// The rules of a namespace, one for each key.
pub open spec fn namespace_rules(v: Val, options: ResolvedOptions) -> Result<
    FlatModel,
    ErrorModel,
> {
    match namespace_error(v, Seq::empty()) {
        Some(e) => Err(e),
        None => match media_ordered(v->Obj_0, options) {
            Err(e) => Err(e),
            Ok(m) => match flattened(m, options) {
                Err(e) => Err(e),
                Ok(flat) => Ok(last_of_each(flat)),
            },
        },
    }
}

/// What development adds to compiled namespaces.
#[verifier::ext_equal]
pub struct ShapeModel {
    /// The start of the class names of namespaces.
    pub prefix: Option<Seq<char>>,
    /// The source lines of namespaces and the short name of the source file.
    pub debug: Option<(Seq<(Seq<char>, u32)>, Seq<char>)>,
}

/// The entries that a namespace starts with: its class name in development.
pub open spec fn first_entries(shape: ShapeModel, namespace: Seq<char>) -> Seq<(Seq<char>, Val)> {
    match shape.prefix {
        Some(p) => put(
            Seq::empty(),
            sanitized(p + namespace),
            Val::Str(sanitized(p + namespace)),
        ),
        None => Seq::empty(),
    }
}

/// The mark that a namespace is compiled: its source place, where it is known.
pub open spec fn css_mark(shape: ShapeModel, namespace: Seq<char>) -> Val {
    match shape.debug {
        Some((lines, file)) => match value_of(lines, namespace) {
            Some(line) => if line > 0 && file.len() > 0 {
                Val::Str(file + ":"@ + decimal(line as nat))
            } else {
                Val::Bool(true)
            },
            None => Val::Bool(true),
        },
        None => Val::Bool(true),
    }
}

/// What stands after one more namespace.
pub open spec fn with_namespace(
    s: OutputModel,
    name: Seq<char>,
    v: Val,
    options: ResolvedOptions,
    shape: ShapeModel,
    need_paths: bool,
) -> Result<OutputModel, ErrorModel> {
    if name == "__proto__"@ {
        Ok(s)
    } else {
        match namespace_rules(v, options) {
            Err(e) => Err(e),
            Ok(flat) => {
                let start = KeysModel {
                    entries: first_entries(shape, name),
                    paths: Seq::empty(),
                    rules: s.rules,
                };
                match keys_upto(start, flat, options, need_paths, flat.len() as int) {
                    Err(e) => Err(e),
                    Ok(done) => Ok(
                        OutputModel {
                            compiled: put(
                                s.compiled,
                                name,
                                Val::Obj(
                                    ObjModel {
                                        entries: put(
                                            done.entries,
                                            "$$css"@,
                                            css_mark(shape, name),
                                        ),
                                        css: None,
                                    },
                                ),
                            ),
                            rules: done.rules,
                            class_paths: if need_paths {
                                s.class_paths.push((name, done.paths))
                            } else {
                                s.class_paths
                            },
                        },
                    ),
                }
            },
        }
    }
}

/// What nothing compiles to.
pub open spec fn no_output() -> OutputModel {
    OutputModel { compiled: Seq::empty(), rules: Seq::empty(), class_paths: Seq::empty() }
}

/// What the first `k` namespaces compile to.
pub open spec fn namespaces_upto(
    e: Seq<(Seq<char>, Val)>,
    options: ResolvedOptions,
    shape: ShapeModel,
    need_paths: bool,
    k: int,
) -> Result<OutputModel, ErrorModel>
    decreases k,
{
    if k <= 0 {
        Ok(no_output())
    } else {
        match namespaces_upto(e, options, shape, need_paths, k - 1) {
            Err(x) => Err(x),
            Ok(s) => with_namespace(s, e[k - 1].0, e[k - 1].1, options, shape, need_paths),
        }
    }
}

/// What namespaces compile to.
pub open spec fn core_output(
    e: Seq<(Seq<char>, Val)>,
    options: ResolvedOptions,
    shape: ShapeModel,
    need_paths: bool,
) -> Result<OutputModel, ErrorModel> {
    namespaces_upto(e, options, shape, need_paths, e.len() as int)
}

/// The source lines of namespaces, mathematically.
pub open spec fn line_models(v: Seq<(String, u32)>) -> Seq<(Seq<char>, u32)> {
    Seq::new(v.len(), |i: int| (v[i].0@, v[i].1))
}

/// The start of class names that the context gives.
pub open spec fn context_prefix(ctx: CreateContext<'_>, var_name: Option<Seq<char>>) -> Option<
    Seq<char>,
> {
    if ctx.options.dev && ctx.options.enable_dev_class_names {
        Some(dev_prefix(var_name, file_or_unknown(opt_text(ctx.filename))))
    } else {
        None
    }
}

/// The root directory of module resolution.
pub open spec fn resolution_root(o: Option<ModuleResolution>) -> Option<Seq<char>> {
    match o {
        Some(m) => opt_text(m.root_dir),
        None => None,
    }
}

/// Whether modules are resolved by name alone.
pub open spec fn is_haste(o: Option<ModuleResolution>) -> bool {
    o is Some && o->0.kind == ModuleResolutionType::Haste
}

/// What development adds in the given context.
pub open spec fn context_shape(ctx: CreateContext<'_>) -> ShapeModel {
    ShapeModel {
        prefix: context_prefix(ctx, opt_text(ctx.var_name)),
        debug: if ctx.options.debug && ctx.options.enable_debug_data_prop
            && ctx.namespace_lines is Some && ctx.filename is Some {
            Some(
                (
                    line_models(ctx.namespace_lines->0@),
                    short_filename(
                        ctx.filename->0@,
                        opt_pair(ctx.file_package),
                        opt_text(ctx.cwd_package_name),
                        resolution_root(ctx.options.unstable_module_resolution),
                        is_haste(ctx.options.unstable_module_resolution),
                    ),
                ),
            )
        } else {
            None
        },
    }
}

/// What namespaces compile to in the given context.
pub open spec fn create_output(
    e: Seq<(Seq<char>, Val)>,
    ctx: CreateContext<'_>,
    need_paths: bool,
) -> Result<OutputModel, ErrorModel> {
    match core_output(e, *ctx.options, context_shape(ctx), need_paths) {
        Err(x) => Err(x),
        Ok(o) => if ctx.options.test {
            Ok(
                OutputModel {
                    compiled: test_styles_upto(
                        o.compiled,
                        opt_text(ctx.var_name),
                        opt_text(ctx.filename),
                        o.compiled.len() as int,
                    ),
                    rules: o.rules,
                    class_paths: o.class_paths,
                },
            )
        } else {
            Ok(o)
        },
    }
}

/// The one namespace of a single declaration.
pub open spec fn inline_entries(property: Seq<char>, value: Seq<char>) -> Seq<(Seq<char>, Val)> {
    put(
        Seq::empty(),
        INLINE_NAMESPACE@,
        Val::Obj(
            ObjModel { entries: put(Seq::empty(), property, Val::Str(value)), css: None },
        ),
    )
}

struct DevShape<'a> {
    dev_prefix: Option<String>,
    debug: Option<(&'a Vec<(String, u32)>, String)>,
}

impl<'a> DevShape<'a> {
    spec fn model(self) -> ShapeModel {
        ShapeModel {
            prefix: opt_text(self.dev_prefix),
            debug: match self.debug {
                Some(d) => Some((line_models(d.0@), d.1@)),
                None => None,
            },
        }
    }

    fn dev_class(&self, namespace: &str) -> (r: Option<String>)
        ensures
            opt_text(r) == match self.model().prefix {
                Some(p) => Some(sanitized(p + namespace@)),
                None => None,
            },
    {
        match &self.dev_prefix {
            Some(p) => Some(
                sanitize_dev_class_name(concat2(p.as_str(), namespace).as_str()),
            ),
            None => None,
        }
    }

    fn css_marker(&self, namespace: &str) -> (r: EvalValue)
        ensures
            r.model() == css_mark(self.model(), namespace@),
    {
        if let Some((lines, file)) = &self.debug {
            let at: usize = position_of(lines, namespace);
            proof {
                assert(keys_of(line_models(lines@)) =~= item_keys(lines@));
                lemma_find_key(item_keys(lines@), namespace@, 0);
            }
            if at < lines.len() {
                let line: u32 = lines[at].1;
                assert(line_models(lines@)[at as int].1 == line);
                let n: usize = chars_of(file.as_str()).len();
                if line > 0 && n > 0 {
                    return EvalValue::Str(
                        concat3(file.as_str(), ":", decimal_text(line as u64).as_str()),
                    );
                }
            }
        }
        EvalValue::Bool(true)
    }
}

fn dev_prefix_for(ctx: &CreateContext<'_>, var_name: Option<&str>) -> (r: Option<String>)
    ensures
        opt_text(r) == context_prefix(*ctx, opt_str(var_name)),
{
    if ctx.options.dev && ctx.options.enable_dev_class_names {
        let file = match &ctx.filename {
            Some(f) => f.as_str(),
            None => "UnknownFile",
        };
        Some(dev_class_prefix(var_name, file))
    } else {
        None
    }
}

/// Keeps the last rule of each key.
pub fn dedupe_last_wins(flattened: Vec<(String, PreRule)>) -> (r: Vec<(String, PreRule)>)
    ensures
        flat_models(r@) == last_of_each(flat_models(flattened@)),
{
    let ghost all = flat_models(flattened@);
    let mut rest = flattened;
    let mut out: Vec<(String, PreRule)> = Vec::new();
    let ghost mut k: int = 0;
    proof {
        assert(flat_models(out@) =~= Seq::<(Seq<char>, PreRuleModel)>::empty());
    }
    while rest.len() > 0
        invariant
            0 <= k <= all.len(),
            flat_models(rest@) == all.skip(k),
            flat_models(out@) == last_upto(all, k),
        decreases rest@.len(),
    {
        let ghost before = flat_models(rest@);
        let (key, rule) = rest.remove(0);
        proof {
            assert(flat_models(rest@) =~= before.skip(1));
            assert(before.skip(1) =~= all.skip(k + 1));
            assert(all[k] == before[0]);
        }
        let at: usize = position_of(&rest, key.as_str());
        proof {
            lemma_find_key(item_keys(rest@), key@, 0);
            if at < rest@.len() {
                assert(all[k + 1 + at].0 == flat_models(rest@)[at as int].0);
                assert(all[k + 1 + at].0 == all[k].0);
            } else {
                assert forall|j: int| k + 1 <= j < all.len() implies (#[trigger] all[j]).0
                    != all[k].0 by {
                    assert(all[j] == flat_models(rest@)[j - (k + 1)]);
                    assert(item_keys(rest@)[j - (k + 1)] == all[j].0);
                }
            }
        }
        if at >= rest.len() {
            let ghost done = flat_models(out@);
            out.push((key, rule));
            proof {
                assert(flat_models(out@) =~= done.push(all[k]));
            }
        }
        proof {
            k = k + 1;
        }
    }
    proof {
        assert(flat_models(rest@).len() == 0);
        assert(k == all.len());
    }
    out
}

/// Gives the short form of a key.
pub fn minified_display_key(key: &str, debug: bool) -> (r: String)
    ensures
        r@ == minified_key(key@, debug),
{
    let hash = concat2("k", create_short_hash(concat2("<>", key).as_str()).as_str());
    if debug {
        concat3(key, "-", hash.as_str())
    } else {
        hash
    }
}

fn key_shown(key: &str, options: &ResolvedOptions) -> (r: String)
    ensures
        r@ == display_key(key@, *options),
{
    if options.enable_minified_keys && !starts_with(key, "--") {
        minified_display_key(key, options.debug)
    } else {
        key.to_owned()
    }
}

fn names_of(decls: &Vec<(StylexRule, Vec<String>)>) -> (r: EvalValue)
    ensures
        r.model() == names_value(compiled_models(decls@)),
{
    let ghost all = compiled_models(decls@);
    let mut names: Vec<String> = Vec::new();
    proof {
        assert(texts(names@) =~= Seq::<Seq<char>>::empty());
    }
    let mut i: usize = 0;
    while i < decls.len()
        invariant
            all == compiled_models(decls@),
            i <= decls@.len(),
            texts(names@) == names_upto(all, i as int),
        decreases decls@.len() - i,
    {
        assert(all[i as int].0.class_name == decls@[i as int].0.class_name@);
        let class = decls[i].0.class_name.as_str();
        let mut seen = false;
        let mut j: usize = 0;
        while j < names.len()
            invariant
                j <= names@.len(),
                seen == exists|k: int| 0 <= k < j && (#[trigger] names@[k])@ == class@,
            decreases names@.len() - j,
        {
            if str_eq(names[j].as_str(), class) {
                seen = true;
            }
            j += 1;
        }
        proof {
            if seen {
                let k = choose|k: int| 0 <= k < names@.len() && (#[trigger] names@[k])@ == class@;
                assert(texts(names@)[k] == class@);
            } else if texts(names@).contains(class@) {
                let k = choose|k: int| 0 <= k < names@.len() && texts(names@)[k] == class@;
                assert(names@[k]@ == class@);
            }
        }
        if !seen {
            let ghost done = texts(names@);
            names.push(class.to_owned());
            proof {
                assert(texts(names@) =~= done.push(class@));
            }
        }
        i += 1;
    }
    proof {
        assert(all.len() == decls@.len());
    }
    let joined = join(&names, " ");
    let n: usize = chars_of(joined.as_str()).len();
    if n == 0 {
        EvalValue::Null
    } else {
        EvalValue::Str(joined)
    }
}

fn put_paths(paths: &mut ClassPathsInNamespace, decls: &Vec<(StylexRule, Vec<String>)>)
    ensures
        path_models(final(paths)@) == with_paths(
            path_models(old(paths)@),
            compiled_models(decls@),
            decls@.len() as int,
        ),
{
    let ghost all = compiled_models(decls@);
    let ghost start = path_models(paths@);
    let mut i: usize = 0;
    while i < decls.len()
        invariant
            all == compiled_models(decls@),
            i <= decls@.len(),
            path_models(paths@) == with_paths(start, all, i as int),
        decreases decls@.len() - i,
    {
        let ghost before = path_models(paths@);
        let class = decls[i].0.class_name.as_str();
        let path = copy_texts(&decls[i].1);
        let ghost pm = texts(path@);
        assert(all[i as int] == (decls@[i as int].0.model(), pm));
        let at: usize = position_of(paths, class);
        proof {
            assert(keys_of(before) =~= item_keys(paths@));
            lemma_find_key(item_keys(paths@), class@, 0);
        }
        if at < paths.len() {
            let gone = paths.remove(at);
            paths.insert(at, (gone.0, path));
            proof {
                assert(path_models(paths@) =~= before.update(at as int, (before[at as int].0, pm)));
            }
        } else {
            paths.push((class.to_owned(), path));
            proof {
                assert(path_models(paths@) =~= before.push((class@, pm)));
            }
        }
        i += 1;
    }
}

/// Adds those compiled rules whose class name has none.
pub fn push_new_rules(rules: &mut Vec<StylexRule>, decls: &Vec<(StylexRule, Vec<String>)>)
    ensures
        rule_models(final(rules)@) == with_new(
            rule_models(old(rules)@),
            compiled_models(decls@),
            decls@.len() as int,
        ),
{
    let ghost all = compiled_models(decls@);
    let ghost start = rule_models(rules@);
    let mut i: usize = 0;
    while i < decls.len()
        invariant
            all == compiled_models(decls@),
            i <= decls@.len(),
            rule_models(rules@) == with_new(start, all, i as int),
        decreases decls@.len() - i,
    {
        let ghost before = rule_models(rules@);
        let class = decls[i].0.class_name.as_str();
        assert(all[i as int].0 == decls@[i as int].0.model());
        let seen = class_is_known(rules, class);
        if !seen {
            rules.push(decls[i].0.clone());
            proof {
                assert(rule_models(rules@) =~= before.push(all[i as int].0));
            }
        }
        i += 1;
    }
}

fn class_is_known(rules: &Vec<StylexRule>, class: &str) -> (r: bool)
    ensures
        r == has_class(rule_models(rules@), class@),
{
    let mut j: usize = 0;
    while j < rules.len()
        invariant
            j <= rules@.len(),
            forall|k: int| 0 <= k < j ==> (#[trigger] rules@[k]).class_name@ != class@,
        decreases rules@.len() - j,
    {
        if str_eq(rules[j].class_name.as_str(), class) {
            assert(rule_models(rules@)[j as int].class_name == class@);
            return true;
        }
        j += 1;
    }
    proof {
        assert forall|k: int| 0 <= k < rules@.len() implies (#[trigger] rule_models(
            rules@,
        )[k]).class_name != class@ by {
            assert(rules@[k].class_name@ != class@);
        }
    }
    false
}

fn rules_of_namespace(namespace: &EvalValue, options: &ResolvedOptions) -> (r: Result<
    Vec<(String, PreRule)>,
    StylexError,
>)
    ensures
        flat_result(r) == namespace_rules(namespace.model(), *options),
{
    match validate_namespace(namespace) {
        Ok(_) => {},
        Err(e) => {
            return Err(e);
        },
    }
    let style = match namespace {
        EvalValue::Obj(m) => m,
        _ => {
            proof {
                assert(namespace_error(namespace.model(), Seq::empty()) is Some);
            }
            return Err(StylexError::illegal_namespace_value());
        },
    };
    let changed = match media_order_transform(style, options) {
        Ok(m) => m,
        Err(e) => {
            return Err(e);
        },
    };
    let flat = match &changed {
        Some(m) => flatten_raw_style_object(m, options),
        None => flatten_raw_style_object(style, options),
    };
    match flat {
        Ok(v) => Ok(dedupe_last_wins(v)),
        Err(e) => Err(e),
    }
}

proof fn lemma_keys_failure(
    start: KeysModel,
    flat: FlatModel,
    options: ResolvedOptions,
    need: bool,
    i: int,
    k: int,
)
    requires
        0 <= i <= k,
        keys_upto(start, flat, options, need, i) is Err,
    ensures
        keys_upto(start, flat, options, need, k) == keys_upto(start, flat, options, need, i),
    decreases k,
{
    if i < k {
        lemma_keys_failure(start, flat, options, need, i, k - 1);
    }
}

proof fn lemma_namespaces_failure(
    e: Seq<(Seq<char>, Val)>,
    options: ResolvedOptions,
    shape: ShapeModel,
    need: bool,
    i: int,
    k: int,
)
    requires
        0 <= i <= k,
        namespaces_upto(e, options, shape, need, i) is Err,
    ensures
        namespaces_upto(e, options, shape, need, k) == namespaces_upto(
            e,
            options,
            shape,
            need,
            i,
        ),
    decreases k,
{
    if i < k {
        lemma_namespaces_failure(e, options, shape, need, i, k - 1);
    }
}

fn compile_keys(
    first: JsObjectMap,
    flat: &Vec<(String, PreRule)>,
    options: &ResolvedOptions,
    need_class_paths: bool,
    rules: &mut Vec<StylexRule>,
) -> (r: Result<(JsObjectMap, ClassPathsInNamespace), StylexError>)
    requires
        first.model().css is None,
    ensures
        match r {
            Ok((obj, paths)) => obj.model().css is None && keys_upto(
                KeysModel {
                    entries: first.pairs(),
                    paths: Seq::empty(),
                    rules: rule_models(old(rules)@),
                },
                flat_models(flat@),
                *options,
                need_class_paths,
                flat@.len() as int,
            ) == Ok::<KeysModel, ErrorModel>(
                KeysModel {
                    entries: obj.pairs(),
                    paths: path_models(paths@),
                    rules: rule_models(final(rules)@),
                },
            ),
            Err(e) => keys_upto(
                KeysModel {
                    entries: first.pairs(),
                    paths: Seq::empty(),
                    rules: rule_models(old(rules)@),
                },
                flat_models(flat@),
                *options,
                need_class_paths,
                flat@.len() as int,
            ) == Err::<KeysModel, ErrorModel>(e.model()),
        },
{
    let ghost start = KeysModel {
        entries: first.pairs(),
        paths: Seq::empty(),
        rules: rule_models(rules@),
    };
    let ghost all = flat_models(flat@);
    let mut obj = first;
    let mut paths: ClassPathsInNamespace = Vec::new();
    proof {
        assert(path_models(paths@) =~= Seq::<(Seq<char>, Seq<Seq<char>>)>::empty());
    }
    let mut i: usize = 0;
    while i < flat.len()
        invariant
            start == (KeysModel {
                entries: first.pairs(),
                paths: Seq::empty(),
                rules: rule_models(old(rules)@),
            }),
            all == flat_models(flat@),
            i <= flat@.len(),
            obj.model().css is None,
            keys_upto(start, all, *options, need_class_paths, i as int) == Ok::<
                KeysModel,
                ErrorModel,
            >(
                KeysModel {
                    entries: obj.pairs(),
                    paths: path_models(paths@),
                    rules: rule_models(rules@),
                },
            ),
        decreases flat@.len() - i,
    {
        assert(all[i as int] == (flat@[i as int].0@, flat@[i as int].1.model()));
        let shown = key_shown(flat[i].0.as_str(), options);
        let decls = match flat[i].1.for_each_compiled(options) {
            Ok(v) => v,
            Err(e) => {
                proof {
                    lemma_keys_failure(
                        start,
                        all,
                        *options,
                        need_class_paths,
                        i + 1,
                        all.len() as int,
                    );
                }
                return Err(e);
            },
        };
        assert(compiled_models(decls@).len() == decls@.len());
        if need_class_paths {
            put_paths(&mut paths, &decls);
        }
        obj.insert(shown, names_of(&decls));
        push_new_rules(rules, &decls);
        i += 1;
    }
    Ok((obj, paths))
}

fn compile_namespaces_core(
    namespaces: &JsObjectMap,
    options: &ResolvedOptions,
    need_class_paths: bool,
    shape: &DevShape<'_>,
) -> (r: Result<CreateOutput, StylexError>)
    ensures
        output_result(r) == core_output(
            namespaces.pairs(),
            *options,
            shape.model(),
            need_class_paths,
        ),
        r is Ok ==> r->Ok_0.compiled.model().css is None,
{
    let ghost e = namespaces.pairs();
    let ghost sm = shape.model();
    let mut out = CreateOutput {
        compiled: JsObjectMap::new(),
        rules: Vec::new(),
        class_paths: Vec::new(),
    };
    proof {
        assert(out.model() =~= no_output());
    }
    let mut i: usize = 0;
    while i < namespaces.items.len()
        invariant
            e == namespaces.pairs(),
            sm == shape.model(),
            i <= namespaces.items@.len(),
            out.compiled.model().css is None,
            namespaces_upto(e, *options, sm, need_class_paths, i as int) == Ok::<
                OutputModel,
                ErrorModel,
            >(out.model()),
        decreases namespaces.items@.len() - i,
    {
        let (name, value) = &namespaces.items[i];
        assert(e[i as int] == (name@, value.model()));
        out = match add_namespace(out, name.as_str(), value, options, need_class_paths, shape) {
            Ok(o) => o,
            Err(x) => {
                proof {
                    lemma_namespaces_failure(
                        e,
                        *options,
                        sm,
                        need_class_paths,
                        i + 1,
                        e.len() as int,
                    );
                }
                return Err(x);
            },
        };
        i += 1;
    }
    Ok(out)
}

fn add_namespace(
    start: CreateOutput,
    name: &str,
    value: &EvalValue,
    options: &ResolvedOptions,
    need_class_paths: bool,
    shape: &DevShape<'_>,
) -> (r: Result<CreateOutput, StylexError>)
    requires
        start.compiled.model().css is None,
    ensures
        output_result(r) == with_namespace(
            start.model(),
            name@,
            value.model(),
            *options,
            shape.model(),
            need_class_paths,
        ),
        r is Ok ==> r->Ok_0.compiled.model().css is None,
{
    if str_eq(name, "__proto__") {
        return Ok(start);
    }
    let ghost sm = start.model();
    let flat = match rules_of_namespace(value, options) {
        Ok(v) => v,
        Err(e) => {
            return Err(e);
        },
    };
    assert(flat_models(flat@).len() == flat@.len());
    let mut first = JsObjectMap::new();
    if let Some(class) = shape.dev_class(name) {
        first.insert(class.clone(), EvalValue::Str(class.clone()));
    }
    proof {
        assert(first.pairs() == first_entries(shape.model(), name@));
    }
    let mut compiled = start.compiled;
    let mut rules = start.rules;
    let mut class_paths = start.class_paths;
    match compile_keys(first, &flat, options, need_class_paths, &mut rules) {
        Err(e) => Err(e),
        Ok((done, paths)) => {
            let mut obj = done;
            obj.set("$$css", shape.css_marker(name));
            let ghost om = obj.model();
            let ghost pm = path_models(paths@);
            compiled.set(name, EvalValue::Obj(obj));
            if need_class_paths {
                let ghost before = class_path_models(class_paths@);
                class_paths.push((name.to_owned(), paths));
                proof {
                    assert(class_path_models(class_paths@) =~= before.push((name@, pm)));
                }
            }
            let out = CreateOutput { compiled, rules, class_paths };
            proof {
                assert(om =~= ObjModel { entries: om.entries, css: None });
            }
            Ok(out)
        },
    }
}

/// Compiles a single declaration. Its object never carries a source place.
pub fn compile_atom(property: &str, value: &str, ctx: &CreateContext<'_>) -> (r: Result<
    CreateOutput,
    StylexError,
>)
    ensures
        output_result(r) == core_output(
            inline_entries(property@, value@),
            *ctx.options,
            ShapeModel { prefix: context_prefix(*ctx, None), debug: None },
            false,
        ),
        r is Ok ==> r->Ok_0.compiled.model().css is None,
{
    let mut raw = JsObjectMap::new();
    raw.set(property, EvalValue::Str(value.to_owned()));
    let mut namespaces = JsObjectMap::new();
    proof {
        assert(raw.model() =~= ObjModel {
            entries: put(Seq::empty(), property@, Val::Str(value@)),
            css: None,
        });
    }
    namespaces.set(INLINE_NAMESPACE, EvalValue::Obj(raw));
    let shape = DevShape { dev_prefix: dev_prefix_for(ctx, None), debug: None };
    compile_namespaces_core(&namespaces, ctx.options, false, &shape)
}

/// Compiles namespaces of styles.
pub fn compile_namespaces(
    namespaces: &JsObjectMap,
    ctx: &CreateContext<'_>,
    need_class_paths: bool,
) -> (r: Result<CreateOutput, StylexError>)
    ensures
        output_result(r) == create_output(namespaces.pairs(), *ctx, need_class_paths),
        r is Ok ==> r->Ok_0.compiled.model().css is None,
{
    let options = ctx.options;
    let var_name = match &ctx.var_name {
        Some(v) => Some(v.as_str()),
        None => None,
    };
    let filename = match &ctx.filename {
        Some(f) => Some(f.as_str()),
        None => None,
    };
    let debug = match (&ctx.namespace_lines, &ctx.filename) {
        (Some(lines), Some(file)) => {
            if options.debug && options.enable_debug_data_prop {
                let info = debug_path_info(ctx);
                Some((lines, create_short_filename(file.as_str(), &info)))
            } else {
                None
            }
        },
        _ => None,
    };
    let shape = DevShape { dev_prefix: dev_prefix_for(ctx, var_name), debug };
    proof {
        assert(shape.model() == context_shape(*ctx));
    }
    match compile_namespaces_core(namespaces, options, need_class_paths, &shape) {
        Err(e) => Err(e),
        Ok(out) => {
            if options.test {
                let compiled = convert_to_test_styles(&out.compiled, var_name, filename);
                Ok(CreateOutput { compiled, rules: out.rules, class_paths: out.class_paths })
            } else {
                Ok(out)
            }
        },
    }
}

fn debug_path_info(ctx: &CreateContext<'_>) -> (r: DebugPathInfo)
    ensures
        opt_pair(r.file_package) == opt_pair(ctx.file_package),
        opt_text(r.cwd_package_name) == opt_text(ctx.cwd_package_name),
        opt_text(r.root_dir) == resolution_root(ctx.options.unstable_module_resolution),
        r.is_haste == is_haste(ctx.options.unstable_module_resolution),
{
    let file_package = match &ctx.file_package {
        Some((name, dir)) => Some((name.clone(), dir.clone())),
        None => None,
    };
    let cwd_package_name = match &ctx.cwd_package_name {
        Some(name) => Some(name.clone()),
        None => None,
    };
    let mut root_dir = None;
    let mut haste = false;
    if let Some(m) = &ctx.options.unstable_module_resolution {
        if let Some(root) = &m.root_dir {
            root_dir = Some(root.clone());
        }
        haste = match m.kind {
            ModuleResolutionType::Haste => true,
            _ => false,
        };
    }
    DebugPathInfo { file_package, cwd_package_name, root_dir, is_haste: haste }
}

/// Whether no two rules have the same class name.
pub open spec fn distinct_classes(rules: Seq<RuleModel>) -> bool {
    forall|i: int, j: int|
        0 <= i < j < rules.len() ==> (#[trigger] rules[i]).class_name != (
        #[trigger] rules[j]).class_name
}

proof fn lemma_with_new(rules: Seq<RuleModel>, v: CompiledModel, k: int)
    requires
        0 <= k <= v.len(),
        distinct_classes(rules),
    ensures
        distinct_classes(with_new(rules, v, k)),
        rules.len() <= with_new(rules, v, k).len(),
        with_new(rules, v, k).take(rules.len() as int) == rules,
        forall|j: int| 0 <= j < k ==> has_class(with_new(rules, v, k), (#[trigger] v[j]).0.class_name),
    decreases k,
{
    if k > 0 {
        lemma_with_new(rules, v, k - 1);
        let done = with_new(rules, v, k - 1);
        let now = with_new(rules, v, k);
        if !has_class(done, v[k - 1].0.class_name) {
            assert(now.take(rules.len() as int) =~= done.take(rules.len() as int));
            assert(now[done.len() as int].class_name == v[k - 1].0.class_name);
            assert forall|j: int| 0 <= j < k implies has_class(
                now,
                (#[trigger] v[j]).0.class_name,
            ) by {
                if j < k - 1 {
                    assert(has_class(done, v[j].0.class_name));
                    let i = choose|i: int|
                        0 <= i < done.len() && (#[trigger] done[i]).class_name
                            == v[j].0.class_name;
                    assert(now[i] == done[i]);
                }
            }
        }
    } else {
        assert(rules.take(rules.len() as int) =~= rules);
    }
}

/// New rules go behind the old ones, which stay; after that every class name has
/// exactly one rule.
pub proof fn rules_are_never_doubled(rules: Seq<RuleModel>, v: CompiledModel)
    requires
        distinct_classes(rules),
    ensures
        distinct_classes(with_new(rules, v, v.len() as int)),
        with_new(rules, v, v.len() as int).take(rules.len() as int) == rules,
        forall|j: int|
            0 <= j < v.len() ==> has_class(
                with_new(rules, v, v.len() as int),
                (#[trigger] v[j]).0.class_name,
            ),
{
    lemma_with_new(rules, v, v.len() as int);
}

proof fn lemma_keys_distinct(
    start: KeysModel,
    flat: FlatModel,
    options: ResolvedOptions,
    need: bool,
    k: int,
)
    requires
        0 <= k <= flat.len(),
        distinct_classes(start.rules),
    ensures
        keys_upto(start, flat, options, need, k) is Ok ==> distinct_classes(
            keys_upto(start, flat, options, need, k)->Ok_0.rules,
        ),
    decreases k,
{
    if k > 0 {
        lemma_keys_distinct(start, flat, options, need, k - 1);
        if keys_upto(start, flat, options, need, k) is Ok {
            let s = keys_upto(start, flat, options, need, k - 1)->Ok_0;
            let v = compiled(flat[k - 1].1, options)->Ok_0;
            lemma_with_new(s.rules, v, v.len() as int);
        }
    }
}

/// However many namespaces are compiled, no two rules of the output have the same
/// class name.
pub proof fn output_rules_are_distinct(
    e: Seq<(Seq<char>, Val)>,
    options: ResolvedOptions,
    shape: ShapeModel,
    need_paths: bool,
    k: int,
)
    requires
        0 <= k <= e.len(),
    ensures
        namespaces_upto(e, options, shape, need_paths, k) is Ok ==> distinct_classes(
            namespaces_upto(e, options, shape, need_paths, k)->Ok_0.rules,
        ),
    decreases k,
{
    if k > 0 {
        output_rules_are_distinct(e, options, shape, need_paths, k - 1);
        if namespaces_upto(e, options, shape, need_paths, k) is Ok {
            let s = namespaces_upto(e, options, shape, need_paths, k - 1)->Ok_0;
            if e[k - 1].0 != "__proto__"@ {
                let flat = namespace_rules(e[k - 1].1, options)->Ok_0;
                let start = KeysModel {
                    entries: first_entries(shape, e[k - 1].0),
                    paths: Seq::empty(),
                    rules: s.rules,
                };
                lemma_keys_distinct(start, flat, options, need_paths, flat.len() as int);
            }
        }
    }
}

proof fn lemma_last(flat: FlatModel, k: int)
    requires
        0 <= k <= flat.len(),
    ensures
        forall|i: int, j: int|
            0 <= i < j < last_upto(flat, k).len() ==> (#[trigger] last_upto(flat, k)[i]).0 != (
            #[trigger] last_upto(flat, k)[j]).0,
        forall|i: int|
            0 <= i < last_upto(flat, k).len() ==> exists|j: int|
                0 <= j < k && (#[trigger] flat[j]) == #[trigger] last_upto(flat, k)[i] && forall|
                    l: int,
                |
                    j < l < flat.len() ==> (#[trigger] flat[l]).0 != flat[j].0,
        forall|j: int|
            0 <= j < k && (forall|l: int|
                j < l < flat.len() ==> (#[trigger] flat[l]).0 != flat[j].0) ==> last_upto(
                flat,
                k,
            ).contains(#[trigger] flat[j]),
    decreases k,
{
    if k > 0 {
        lemma_last(flat, k - 1);
        let done = last_upto(flat, k - 1);
        let now = last_upto(flat, k);
        if exists|j: int| k <= j < flat.len() && (#[trigger] flat[j]).0 == flat[k - 1].0 {
        } else {
            assert(now == done.push(flat[k - 1]));
            assert forall|i: int| 0 <= i < done.len() implies (#[trigger] now[i]).0
                != flat[k - 1].0 by {
                assert(now[i] == done[i]);
            }
            assert forall|i: int| 0 <= i < now.len() implies exists|j: int|
                0 <= j < k && (#[trigger] flat[j]) == #[trigger] now[i] && forall|l: int|
                    j < l < flat.len() ==> (#[trigger] flat[l]).0 != flat[j].0 by {
                if i < done.len() {
                    assert(now[i] == done[i]);
                } else {
                    assert(flat[k - 1] == now[i]);
                }
            }
            assert forall|j: int|
                0 <= j < k && (forall|l: int|
                    j < l < flat.len() ==> (#[trigger] flat[l]).0 != flat[j].0) implies now.contains(
            #[trigger] flat[j]) by {
                if j < k - 1 {
                    assert(done.contains(flat[j]));
                    let i = choose|i: int| 0 <= i < done.len() && done[i] == flat[j];
                    assert(now[i] == flat[j]);
                } else {
                    assert(now[done.len() as int] == flat[j]);
                }
            }
        }
    }
}

/// Of several rules with one key the last stays, and nothing else goes.
pub proof fn last_rule_of_a_key_stays(flat: FlatModel)
    ensures
        forall|i: int, j: int|
            0 <= i < j < last_of_each(flat).len() ==> (#[trigger] last_of_each(flat)[i]).0 != (
            #[trigger] last_of_each(flat)[j]).0,
        forall|i: int|
            0 <= i < last_of_each(flat).len() ==> exists|j: int|
                0 <= j < flat.len() && (#[trigger] flat[j]) == #[trigger] last_of_each(flat)[i]
                    && forall|l: int| j < l < flat.len() ==> (#[trigger] flat[l]).0 != flat[j].0,
        forall|j: int|
            0 <= j < flat.len() && (forall|l: int|
                j < l < flat.len() ==> (#[trigger] flat[l]).0 != flat[j].0) ==> last_of_each(
                flat,
            ).contains(#[trigger] flat[j]),
{
    lemma_last(flat, flat.len() as int);
}

} // verus!
