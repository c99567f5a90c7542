//! Compiler options: raw JSON in, checked options out.

use crate::errors::{said, unsupported_option_model, ErrorCode, ErrorModel, StylexError};
use crate::json::{json_text, member, Json, JsonModel};
use crate::number::{decimal, decimal_text, float_prefix, parse_float_prefix, JsNumber};
use crate::options_repr::{
    capture_options, options_repr, same_options, same_options_have_one_text,
};
use crate::text::{concat2, concat3, is_listed, listed, str_eq, texts};
use crate::value::{opt_text, put, EvalValue, JsObjectMap, ObjModel, Val};
use vstd::prelude::*;

verus! {

/// Options as they were given; nothing about them has been checked.
#[derive(Debug, PartialEq)]
pub struct CompilerOptions {
    pub dev: Option<Json>,
    pub test: Option<Json>,
    pub debug: Option<Json>,
    pub class_name_prefix: Option<Json>,
    pub import_sources: Option<Json>,
    pub runtime_injection: Option<Json>,
    pub style_resolution: Option<Json>,
    pub property_validation_mode: Option<Json>,
    pub unstable_module_resolution: Option<Json>,
    pub treeshake_compensation: Option<Json>,
    pub sx_prop_name: Option<Json>,
    pub enable_debug_class_names: Option<Json>,
    pub enable_debug_data_prop: Option<Json>,
    pub enable_dev_class_names: Option<Json>,
    pub enable_font_size_px_to_rem: Option<Json>,
    pub enable_inlined_conditional_merge: Option<Json>,
    pub enable_media_query_order: Option<Json>,
    pub enable_minified_keys: Option<Json>,
    pub enable_legacy_value_flipping: Option<Json>,
    pub enable_logical_styles_polyfill: Option<Json>,
    pub enable_ltr_rtl_comments: Option<Json>,
    pub aliases: Option<Json>,
    pub rewrite_aliases: Option<Json>,
    pub debug_file_path: Option<Json>,
    pub env: Option<Json>,
    pub included: Option<Json>,
    pub excluded: Option<Json>,
}

/// The names of the options that are read.
pub const OPTION_NAMES: [&'static str; 29] = [
    "dev",
    "test",
    "debug",
    "classNamePrefix",
    "importSources",
    "runtimeInjection",
    "styleResolution",
    "propertyValidationMode",
    "unstable_moduleResolution",
    "treeshakeCompensation",
    "sxPropName",
    "enableDebugClassNames",
    "enableDebugDataProp",
    "enableDevClassNames",
    "enableFontSizePxToRem",
    "enableInlinedConditionalMerge",
    "enableMediaQueryOrder",
    "enableMinifiedKeys",
    "enableLegacyValueFlipping",
    "enableLogicalStylesPolyfill",
    "enableLTRRTLComments",
    "aliases",
    "rewriteAliases",
    "debugFilePath",
    "env",
    "include",
    "exclude",
    "definedStylexCSSVariables",
    "useLayers",
];

#[derive(Debug, Clone, Copy, PartialEq, Eq, Structural)]
#[non_exhaustive]
pub enum StyleResolution {
    PropertySpecificity,
    ApplicationOrder,
    LegacyExpandShorthands,
}

#[derive(Debug, Clone, Copy, PartialEq, Eq, Structural)]
#[non_exhaustive]
pub enum PropertyValidationMode {
    Silent,
    Warn,
    Throw,
}

#[derive(Debug, Clone, Copy, PartialEq, Eq, Structural)]
#[non_exhaustive]
pub enum ModuleResolutionType {
    CommonJs,
    Haste,
}

/// How modules are named. `root_dir` is never there under haste.
#[derive(Debug, PartialEq, Eq)]
pub struct ModuleResolution {
    pub kind: ModuleResolutionType,
    pub root_dir: Option<String>,
    pub theme_file_extension: String,
}

impl ModuleResolution {
    /// The suffix of files that define constants.
    pub fn consts_file_extension(&self) -> (r: String)
        ensures
            r@ == self.theme_file_extension@ + ".const"@,
    {
        concat2(self.theme_file_extension.as_str(), ".const")
    }
}

/// Aliases in the order of their declaration, each with its targets.
pub type AliasMap = Vec<(String, Vec<String>)>;

/// One source that the style calls are imported from. `Aliased` names the export
/// that carries all of them.
#[derive(Debug, PartialEq, Eq)]
pub enum ImportSource {
    Plain(String),
    Aliased { from: String, as_name: String },
}

/// What an import source is, mathematically.
#[verifier::ext_equal]
pub enum ImportSourceModel {
    Plain(Seq<char>),
    Aliased(Seq<char>, Seq<char>),
}

impl ImportSource {
    /// What the source is, mathematically.
    pub open spec fn model(self) -> ImportSourceModel {
        match self {
            ImportSource::Plain(s) => ImportSourceModel::Plain(s@),
            ImportSource::Aliased { from, as_name } => ImportSourceModel::Aliased(from@, as_name@),
        }
    }

    /// The module that is imported from.
    pub open spec fn specifier(self) -> Seq<char> {
        match self {
            ImportSource::Plain(s) => s@,
            ImportSource::Aliased { from, as_name } => from@,
        }
    }

    /// The module that is imported from.
    pub fn from_specifier(&self) -> (r: &str)
        ensures
            r@ == self.specifier(),
    {
        match self {
            ImportSource::Plain(s) => s.as_str(),
            ImportSource::Aliased { from, .. } => from.as_str(),
        }
    }
}

/// The module and the export that injects styles at run time; no name stands for
/// the default export.
#[derive(Debug, PartialEq, Eq)]
pub struct RuntimeInjection {
    pub from: String,
    pub as_name: Option<String>,
}

/// The module that injects styles where the options name none.
pub const DEFAULT_INJECT_PATH: &'static str = "@stylexjs/stylex/lib/stylex-inject";

/// The suffix of files that define themes, where the options name none.
pub const THEME_FILE_EXTENSION: &'static str = ".stylex";

/// Checked options.
#[derive(Debug, PartialEq)]
pub struct ResolvedOptions {
    pub class_name_prefix: String,
    pub dev: bool,
    pub debug: bool,
    pub test: bool,
    pub enable_debug_class_names: bool,
    pub enable_debug_data_prop: bool,
    pub enable_dev_class_names: bool,
    pub enable_font_size_px_to_rem: bool,
    pub enable_inlined_conditional_merge: bool,
    pub enable_media_query_order: bool,
    pub enable_minified_keys: bool,
    pub enable_legacy_value_flipping: bool,
    pub enable_logical_styles_polyfill: bool,
    pub enable_ltr_rtl_comments: bool,
    pub sx_prop_name: Option<String>,
    pub env: EvalValue,
    pub import_sources: Vec<ImportSource>,
    pub runtime_injection: Option<RuntimeInjection>,
    pub style_resolution: StyleResolution,
    pub property_validation_mode: PropertyValidationMode,
    pub treeshake_compensation: bool,
    pub unstable_module_resolution: Option<ModuleResolution>,
    pub aliases: Option<AliasMap>,
    pub rewrite_aliases: bool,
    /// One text for every other field, made when the options are checked: keys of caches
    /// read it.
    pub cache_repr: String,
}

/// The first alias for `source` among the import sources from `i` on.
pub open spec fn alias_from(v: Seq<ImportSource>, source: Seq<char>, i: int) -> Option<Seq<char>>
    decreases v.len() - i,
{
    if i >= v.len() || i < 0 {
        None
    } else {
        match v[i] {
            ImportSource::Aliased { from, as_name } if from@ == source => Some(as_name@),
            _ => alias_from(v, source, i + 1),
        }
    }
}

impl ResolvedOptions {
    /// Whether the style calls may be imported from `source`.
    pub fn is_import_source(&self, source: &str) -> (r: bool)
        ensures
            r == exists|i: int|
                0 <= i < self.import_sources@.len() && #[trigger] self.import_sources@[i].specifier()
                    == source@,
    {
        let mut i: usize = 0;
        while i < self.import_sources.len()
            invariant
                i <= self.import_sources@.len(),
                forall|j: int|
                    0 <= j < i ==> #[trigger] self.import_sources@[j].specifier() != source@,
            decreases self.import_sources@.len() - i,
        {
            if str_eq(self.import_sources[i].from_specifier(), source) {
                return true;
            }
            i += 1;
        }
        false
    }

    /// The export that carries the style calls of `source`, if one is named.
    pub fn import_as(&self, source: &str) -> (r: Option<&str>)
        ensures
            r is Some == alias_from(self.import_sources@, source@, 0) is Some,
            r is Some ==> r->0@ == alias_from(self.import_sources@, source@, 0)->0,
    {
        let mut i: usize = 0;
        while i < self.import_sources.len()
            invariant
                i <= self.import_sources@.len(),
                alias_from(self.import_sources@, source@, 0) == alias_from(
                    self.import_sources@,
                    source@,
                    i as int,
                ),
            decreases self.import_sources@.len() - i,
        {
            match &self.import_sources[i] {
                ImportSource::Aliased { from, as_name } => {
                    if str_eq(from.as_str(), source) {
                        return Some(as_name.as_str());
                    }
                },
                _ => {},
            }
            i += 1;
        }
        None
    }

    /// The module of the import source at `index`, if there is one.
    pub fn import_source_at(&self, index: usize) -> (r: Option<&str>)
        ensures
            r is Some == (index < self.import_sources@.len()),
            r is Some ==> r->0@ == self.import_sources@[index as int].specifier(),
    {
        if index < self.import_sources.len() {
            Some(self.import_sources[index].from_specifier())
        } else {
            None
        }
    }
}

/// What was given for an option: an explicit null counts as nothing.
pub open spec fn given(o: Option<Json>) -> Option<JsonModel> {
    match o {
        Some(v) => match v.model() {
            JsonModel::Null => None,
            m => Some(m),
        },
        None => None,
    }
}

/// The error for a value of the wrong kind.
pub open spec fn invalid_model(name: Seq<char>, got: JsonModel, expected: Seq<char>) -> ErrorModel {
    said(
        ErrorCode::InvalidOptionValue,
        "Expected ("@ + name + ") to be "@ + expected + ", but got `"@ + json_text(got) + "`."@,
    )
}

/// The error of a boolean option, if what was given is no boolean.
pub open spec fn bool_error(name: Seq<char>, o: Option<Json>) -> Option<ErrorModel> {
    match given(o) {
        None => None,
        Some(JsonModel::Bool(_)) => None,
        Some(v) => Some(invalid_model(name, v, "a boolean"@)),
    }
}

/// The value of a boolean option.
pub open spec fn bool_value(o: Option<Json>, default: bool) -> bool {
    match given(o) {
        Some(JsonModel::Bool(b)) => b,
        _ => default,
    }
}

/// The error of an option that is not supported, if anything was given for it.
pub open spec fn absent_error(name: Seq<char>, o: Option<Json>) -> Option<ErrorModel> {
    if given(o) is Some {
        Some(unsupported_option_model(name))
    } else {
        None
    }
}

/// The first error from `i` on.
pub open spec fn first_error(s: Seq<Option<ErrorModel>>, i: int) -> Option<ErrorModel>
    decreases s.len() - i,
{
    if i < 0 || i >= s.len() {
        None
    } else if s[i] is Some {
        s[i]
    } else {
        first_error(s, i + 1)
    }
}

/// One import source as given, if it is well formed.
pub open spec fn import_source_of(v: JsonModel) -> Option<ImportSourceModel> {
    match v {
        JsonModel::Str(s) => Some(ImportSourceModel::Plain(s)),
        JsonModel::Obj(_) => match (member(v, "from"@), member(v, "as"@)) {
            (Some(JsonModel::Str(from)), Some(JsonModel::Str(as_name))) => Some(
                ImportSourceModel::Aliased(from, as_name),
            ),
            _ => None,
        },
        _ => None,
    }
}

/// The error of the first import source from `i` on that is not well formed.
pub open spec fn import_item_error(items: Seq<JsonModel>, i: int) -> Option<ErrorModel>
    decreases items.len() - i,
{
    if i < 0 || i >= items.len() {
        None
    } else if import_source_of(items[i]) is None {
        Some(
            invalid_model(
                "options.importSources[]"@,
                items[i],
                "a string or an object with string `from` and `as`"@,
            ),
        )
    } else {
        import_item_error(items, i + 1)
    }
}

/// The error of the import sources, if what was given is not well formed.
pub open spec fn import_error(o: Option<Json>) -> Option<ErrorModel> {
    match given(o) {
        None => None,
        Some(JsonModel::Arr(items)) => import_item_error(items, 0),
        Some(v) => Some(invalid_model("options.importSources"@, v, "an array"@)),
    }
}

/// The import sources: the two that are always there, then those given.
pub open spec fn import_value(o: Option<Json>) -> Seq<ImportSourceModel> {
    let own = seq![
        ImportSourceModel::Plain("@stylexjs/stylex"@),
        ImportSourceModel::Plain("stylex"@),
    ];
    match given(o) {
        Some(JsonModel::Arr(items)) => own + Seq::new(
            items.len(),
            |i: int| import_source_of(items[i])->0,
        ),
        _ => own,
    }
}

/// The run-time injection: a value of the wrong kind turns it off.
pub open spec fn injection_value(o: Option<Json>) -> Option<(Seq<char>, Option<Seq<char>>)> {
    match given(o) {
        Some(JsonModel::Bool(true)) => Some((DEFAULT_INJECT_PATH@, None)),
        Some(JsonModel::Str(s)) => Some((s, None)),
        Some(v) => match (member(v, "from"@), member(v, "as"@)) {
            (Some(JsonModel::Str(from)), Some(JsonModel::Str(as_name))) => Some(
                (from, Some(as_name)),
            ),
            _ => None,
        },
        None => None,
    }
}

/// The view of an injection.
pub open spec fn injection_model(o: Option<RuntimeInjection>) -> Option<
    (Seq<char>, Option<Seq<char>>),
> {
    match o {
        Some(r) => Some((r.from@, opt_text(r.as_name))),
        None => None,
    }
}

/// The error of the property name for styles.
pub open spec fn sx_error(o: Option<Json>) -> Option<ErrorModel> {
    match given(o) {
        None | Some(JsonModel::Str(_)) | Some(JsonModel::Bool(false)) => None,
        Some(v) => Some(invalid_model("options.sxPropName"@, v, "a string or the literal false"@)),
    }
}

/// The property name for styles; `false` gives none.
pub open spec fn sx_value(o: Option<Json>) -> Option<Seq<char>> {
    match given(o) {
        None => Some("sx"@),
        Some(JsonModel::Str(s)) => Some(s),
        _ => None,
    }
}

/// The error of the class name prefix.
pub open spec fn prefix_error(o: Option<Json>) -> Option<ErrorModel> {
    match given(o) {
        None | Some(JsonModel::Str(_)) => None,
        Some(v) => Some(invalid_model("options.classNamePrefix"@, v, "a string"@)),
    }
}

/// The class name prefix.
pub open spec fn prefix_value(o: Option<Json>) -> Seq<char> {
    match given(o) {
        Some(JsonModel::Str(s)) => s,
        _ => "x"@,
    }
}

/// The way in which shorthands are resolved, if it is a known one.
pub open spec fn style_resolution_of(o: Option<Json>) -> Option<StyleResolution> {
    match given(o) {
        None => Some(StyleResolution::PropertySpecificity),
        Some(JsonModel::Str(s)) => if s == "property-specificity"@ {
            Some(StyleResolution::PropertySpecificity)
        } else if s == "application-order"@ {
            Some(StyleResolution::ApplicationOrder)
        } else if s == "legacy-expand-shorthands"@ {
            Some(StyleResolution::LegacyExpandShorthands)
        } else {
            None
        },
        _ => None,
    }
}

/// The error of the way in which shorthands are resolved.
pub open spec fn style_resolution_error(o: Option<Json>) -> Option<ErrorModel> {
    if style_resolution_of(o) is Some {
        None
    } else {
        Some(
            invalid_model(
                "options.styleResolution"@,
                given(o)->0,
                "one of \"application-order\" | \"property-specificity\" | \"legacy-expand-shorthands\""@,
            ),
        )
    }
}

/// What is done about properties that are refused, if it is a known way.
pub open spec fn validation_of(o: Option<Json>) -> Option<PropertyValidationMode> {
    match given(o) {
        None => Some(PropertyValidationMode::Silent),
        Some(JsonModel::Str(s)) => if s == "silent"@ {
            Some(PropertyValidationMode::Silent)
        } else if s == "throw"@ {
            Some(PropertyValidationMode::Throw)
        } else if s == "warn"@ {
            Some(PropertyValidationMode::Warn)
        } else {
            None
        },
        _ => None,
    }
}

/// The error of what is done about properties that are refused.
pub open spec fn validation_error(o: Option<Json>) -> Option<ErrorModel> {
    if validation_of(o) is Some {
        None
    } else {
        Some(
            invalid_model(
                "options.propertyValidationMode"@,
                given(o)->0,
                "one of \"throw\" | \"warn\" | \"silent\""@,
            ),
        )
    }
}

/// How modules are named, as given: a kind, a root and a suffix.
pub open spec fn resolution_model(o: Option<ModuleResolution>) -> Option<
    (ModuleResolutionType, Option<Seq<char>>, Seq<char>),
> {
    match o {
        Some(r) => Some((r.kind, opt_text(r.root_dir), r.theme_file_extension@)),
        None => None,
    }
}

/// How modules are named: values of the wrong kind give nothing, but for a root
/// directory that is no string, and kinds that are not supported.
pub open spec fn resolution_of(o: Option<Json>) -> Result<
    Option<(ModuleResolutionType, Option<Seq<char>>, Seq<char>)>,
    ErrorModel,
> {
    let v = given(o)->0;
    if !(given(o) is Some && v is Obj) {
        Ok(None)
    } else {
        match member(v, "type"@) {
            Some(JsonModel::Str(ty)) => {
                let suffix = match member(v, "themeFileExtension"@) {
                    None | Some(JsonModel::Null) => Some(THEME_FILE_EXTENSION@),
                    Some(JsonModel::Str(s)) => Some(s),
                    Some(_) => None,
                };
                if ty == "custom"@ || ty == "experimental_crossFileParsing"@ {
                    Err(
                        unsupported_option_model(
                            "unstable_moduleResolution.type: \""@ + ty + "\""@,
                        ),
                    )
                } else if ty != "commonJS"@ && ty != "haste"@ {
                    Ok(None)
                } else if suffix is None {
                    Ok(None)
                } else if ty == "haste"@ {
                    Ok(Some((ModuleResolutionType::Haste, None, suffix->0)))
                } else {
                    match member(v, "rootDir"@) {
                        Some(JsonModel::Str(s)) => Ok(
                            Some((ModuleResolutionType::CommonJs, Some(s), suffix->0)),
                        ),
                        None | Some(JsonModel::Null) => Ok(
                            Some((ModuleResolutionType::CommonJs, None, suffix->0)),
                        ),
                        Some(other) => Err(
                            invalid_model(
                                "options.unstable_moduleResolution.rootDir"@,
                                other,
                                "a string"@,
                            ),
                        ),
                    }
                }
            },
            _ => Ok(None),
        }
    }
}

/// What is said where a value is set aside for the default.
pub open spec fn default_notice(name: Seq<char>, got: JsonModel, expected: Seq<char>) -> Seq<char> {
    "[fru] Expected ("@ + name + ") to be "@ + expected + ", but got `"@ + json_text(got)
        + "`; using the default"@
}

/// What is said about how modules are to be named, where that is set aside.
pub open spec fn resolution_notice(o: Option<Json>) -> Option<Seq<char>> {
    match given(o) {
        None => None,
        Some(v) => if !(v is Obj) {
            Some(default_notice("options.unstable_moduleResolution"@, v, "an object"@))
        } else {
            match member(v, "type"@) {
                Some(JsonModel::Str(ty)) => if ty == "custom"@ || ty
                    == "experimental_crossFileParsing"@ {
                    None
                } else if ty != "commonJS"@ && ty != "haste"@ {
                    Some(
                        default_notice(
                            "options.unstable_moduleResolution.type"@,
                            JsonModel::Str(ty),
                            "one of \"commonJS\" | \"haste\" | \"custom\" | \"experimental_crossFileParsing\""@,
                        ),
                    )
                } else {
                    match member(v, "themeFileExtension"@) {
                        None | Some(JsonModel::Null) | Some(JsonModel::Str(_)) => None,
                        Some(other) => Some(
                            default_notice(
                                "options.unstable_moduleResolution.themeFileExtension"@,
                                other,
                                "a string"@,
                            ),
                        ),
                    }
                },
                other => Some(
                    default_notice(
                        "options.unstable_moduleResolution.type"@,
                        match other {
                            Some(ty) => ty,
                            None => JsonModel::Null,
                        },
                        "a string"@,
                    ),
                ),
            }
        },
    }
}

/// What is said about aliases that are discarded.
pub open spec fn aliases_notice(o: Option<Json>) -> Option<Seq<char>> {
    if given(o) is Some && aliases_value(o) is None {
        Some(
            "[fru] Expected (options.aliases) to be a map of string to string or string[], but got `"@
                + json_text(given(o)->0) + "`. Ignoring every alias."@,
        )
    } else {
        None
    }
}

/// Whether the first `k` checks find no error.
pub open spec fn clear_before(s: Seq<Option<ErrorModel>>, k: int) -> bool {
    forall|i: int| 0 <= i < k ==> (#[trigger] s[i]) is None
}

/// A notice as a list of none or one.
pub open spec fn notice_list(o: Option<Seq<char>>) -> Seq<Seq<char>> {
    match o {
        Some(s) => seq![s],
        None => Seq::empty(),
    }
}

/// The value that JSON stands for.
pub open spec fn value_of_json(v: JsonModel) -> Val
    decreases v, 0int,
{
    match v {
        JsonModel::Null => Val::Null,
        JsonModel::Bool(b) => Val::Bool(b),
        JsonModel::Number(n) => Val::Num(
            match float_prefix(n) {
                Some(x) => x,
                None => JsNumber { bits: 0 },
            },
        ),
        JsonModel::Double(x) => Val::Num(x),
        JsonModel::Str(s) => Val::Str(s),
        JsonModel::Arr(items) => Val::Arr(
            Seq::new(
                items.len(),
                |i: int|
                    if 0 <= i < items.len() {
                        value_of_json(items[i])
                    } else {
                        arbitrary()
                    },
            ),
        ),
        JsonModel::Obj(entries) => Val::Obj(
            ObjModel { entries: entries_of_json(entries, entries.len() as int), css: None },
        ),
    }
}

/// The first `k` entries of a JSON object, set one after the other.
pub open spec fn entries_of_json(entries: Seq<(Seq<char>, JsonModel)>, k: int) -> Seq<
    (Seq<char>, Val),
>
    decreases entries, k,
{
    if k <= 0 || k > entries.len() {
        Seq::empty()
    } else {
        put(entries_of_json(entries, k - 1), entries[k - 1].0, value_of_json(entries[k - 1].1))
    }
}

/// The error of the environment.
pub open spec fn env_error(o: Option<Json>) -> Option<ErrorModel> {
    match given(o) {
        None | Some(JsonModel::Obj(_)) => None,
        Some(v) => Some(invalid_model("options.env"@, v, "an object"@)),
    }
}

/// The environment.
pub open spec fn env_value(o: Option<Json>) -> Val {
    match given(o) {
        Some(v) => value_of_json(v),
        None => Val::Obj(ObjModel { entries: Seq::empty(), css: None }),
    }
}

/// The targets of one alias, if they are well formed.
pub open spec fn alias_targets(v: JsonModel) -> Option<Seq<Seq<char>>> {
    match v {
        JsonModel::Str(s) => Some(seq![s]),
        JsonModel::Arr(items) => if forall|i: int| 0 <= i < items.len() ==> (#[trigger] items[i]) is Str {
            Some(Seq::new(items.len(), |i: int| items[i]->Str_0))
        } else {
            None
        },
        _ => None,
    }
}

/// The entries that aliases are read from: those of an object, or the items of an
/// array by their index.
pub open spec fn alias_entries(v: JsonModel) -> Option<Seq<(Seq<char>, JsonModel)>> {
    match v {
        JsonModel::Obj(entries) => Some(entries),
        JsonModel::Arr(items) => Some(
            Seq::new(items.len(), |i: int| (decimal(i as nat), items[i])),
        ),
        _ => None,
    }
}

/// The aliases: one that is not well formed discards them all.
pub open spec fn aliases_value(o: Option<Json>) -> Option<Seq<(Seq<char>, Seq<Seq<char>>)>> {
    match given(o) {
        None => None,
        Some(v) => match alias_entries(v) {
            None => None,
            Some(entries) => if forall|i: int|
                0 <= i < entries.len() ==> alias_targets(#[trigger] entries[i].1) is Some {
                Some(
                    Seq::new(
                        entries.len(),
                        |i: int| (entries[i].0, alias_targets(entries[i].1)->0),
                    ),
                )
            } else {
                None
            },
        },
    }
}

/// The views of aliases.
pub open spec fn alias_model(m: Seq<(String, Vec<String>)>) -> Seq<(Seq<char>, Seq<Seq<char>>)> {
    Seq::new(m.len(), |i: int| (m[i].0@, texts(m[i].1@)))
}

/// The views of import sources.
pub open spec fn import_models(v: Seq<ImportSource>) -> Seq<ImportSourceModel> {
    Seq::new(v.len(), |i: int| v[i].model())
}

impl CompilerOptions {
    /// The errors of the options, in the order in which they are looked for.
    pub open spec fn checks(self) -> Seq<Option<ErrorModel>> {
        seq![
            bool_error("options.dev"@, self.dev),
            bool_error("options.debug"@, self.debug),
            bool_error("options.enableDebugClassNames"@, self.enable_debug_class_names),
            bool_error("options.enableDebugDataProp"@, self.enable_debug_data_prop),
            bool_error("options.enableDevClassNames"@, self.enable_dev_class_names),
            bool_error("options.enableFontSizePxToRem"@, self.enable_font_size_px_to_rem),
            bool_error(
                "options.enableInlinedConditionalMerge"@,
                self.enable_inlined_conditional_merge,
            ),
            bool_error("options.enableMinifiedKeys"@, self.enable_minified_keys),
            bool_error("options.enableMediaQueryOrder"@, self.enable_media_query_order),
            bool_error("options.enableLegacyValueFlipping"@, self.enable_legacy_value_flipping),
            bool_error("options.enableLogicalStylesPolyfill"@, self.enable_logical_styles_polyfill),
            bool_error("options.enableLTRRTLComments"@, self.enable_ltr_rtl_comments),
            if bool_value(self.enable_ltr_rtl_comments, false) {
                Some(unsupported_option_model("enableLTRRTLComments: true"@))
            } else {
                None
            },
            sx_error(self.sx_prop_name),
            bool_error("options.test"@, self.test),
            prefix_error(self.class_name_prefix),
            import_error(self.import_sources),
            style_resolution_error(self.style_resolution),
            validation_error(self.property_validation_mode),
            match resolution_of(self.unstable_module_resolution) {
                Ok(_) => None,
                Err(e) => Some(e),
            },
            bool_error("options.treeshakeCompensation"@, self.treeshake_compensation),
            env_error(self.env),
            absent_error("debugFilePath"@, self.debug_file_path),
            absent_error("include"@, self.included),
            absent_error("exclude"@, self.excluded),
        ]
    }

    /// What is said while the options are checked: nothing is said any more once an
    /// error was found.
    pub open spec fn notices(self) -> Seq<Seq<char>> {
        let naming = if clear_before(self.checks(), 19) {
            notice_list(resolution_notice(self.unstable_module_resolution))
        } else {
            Seq::empty()
        };
        let aliases = if clear_before(self.checks(), 22) {
            notice_list(aliases_notice(self.aliases))
        } else {
            Seq::empty()
        };
        naming + aliases
    }

    /// Whether `o` holds what the options stand for.
    pub open spec fn stands_for(self, o: ResolvedOptions) -> bool {
        let dev = bool_value(self.dev, false);
        let debug = bool_value(self.debug, dev);
        &&& o.dev == dev
        &&& o.debug == debug
        &&& o.test == bool_value(self.test, false)
        &&& o.enable_debug_class_names == bool_value(self.enable_debug_class_names, false)
        &&& o.enable_debug_data_prop == bool_value(self.enable_debug_data_prop, debug)
        &&& o.enable_dev_class_names == bool_value(self.enable_dev_class_names, dev)
        &&& o.enable_font_size_px_to_rem == bool_value(self.enable_font_size_px_to_rem, false)
        &&& o.enable_inlined_conditional_merge == bool_value(
            self.enable_inlined_conditional_merge,
            true,
        )
        &&& o.enable_media_query_order == bool_value(self.enable_media_query_order, true)
        &&& o.enable_minified_keys == bool_value(self.enable_minified_keys, true)
        &&& o.enable_legacy_value_flipping == bool_value(self.enable_legacy_value_flipping, false)
        &&& o.enable_logical_styles_polyfill == bool_value(
            self.enable_logical_styles_polyfill,
            false,
        )
        &&& !o.enable_ltr_rtl_comments
        &&& opt_text(o.sx_prop_name) == sx_value(self.sx_prop_name)
        &&& o.env.model() == env_value(self.env)
        &&& import_models(o.import_sources@) == import_value(self.import_sources)
        &&& injection_model(o.runtime_injection) == injection_value(self.runtime_injection)
        &&& Some(o.style_resolution) == style_resolution_of(self.style_resolution)
        &&& Some(o.property_validation_mode) == validation_of(self.property_validation_mode)
        &&& o.treeshake_compensation == bool_value(self.treeshake_compensation, false)
        &&& resolution_of(self.unstable_module_resolution) == Ok::<_, ErrorModel>(
            resolution_model(o.unstable_module_resolution),
        )
        &&& o.aliases is Some == aliases_value(self.aliases) is Some
        &&& o.aliases is Some ==> alias_model(o.aliases->0@) == aliases_value(self.aliases)->0
        &&& o.rewrite_aliases == (given(self.rewrite_aliases) == Some(JsonModel::Bool(true)))
        &&& o.class_name_prefix@ == prefix_value(self.class_name_prefix)
        &&& o.cache_repr@ == options_repr(o)
    }
}

fn present(o: &Option<Json>) -> (r: Option<&Json>)
    ensures
        r is Some == given(*o) is Some,
        r is Some ==> r->0.model() == given(*o)->0,
{
    match o {
        Some(v) => {
            match v {
                Json::Null => None,
                _ => Some(v),
            }
        },
        None => None,
    }
}

fn invalid_value(name: &str, got: &Json, expected: &str) -> (r: StylexError)
    ensures
        r.model() == invalid_model(name@, got.model(), expected@),
{
    let mut m = concat3("Expected (", name, ") to be ");
    m.append(expected);
    m.append(", but got `");
    m.append(got.text().as_str());
    m.append("`.");
    StylexError { code: ErrorCode::InvalidOptionValue, message: m }
}

fn bool_opt(name: &str, o: &Option<Json>, default: bool) -> (r: Result<bool, StylexError>)
    ensures
        match r {
            Ok(b) => bool_error(name@, *o) is None && b == bool_value(*o, default),
            Err(e) => bool_error(name@, *o) == Some(e.model()),
        },
{
    match present(o) {
        None => Ok(default),
        Some(v) => {
            match v {
                Json::Bool(b) => Ok(*b),
                _ => Err(invalid_value(name, v, "a boolean")),
            }
        },
    }
}

fn text_of(v: Option<&Json>) -> (r: Option<String>)
    ensures
        opt_text(r) == match v {
            Some(j) => match j.model() {
                JsonModel::Str(s) => Some(s),
                _ => None,
            },
            None => None,
        },
{
    match v {
        Some(Json::Str(s)) => Some(s.clone()),
        _ => None,
    }
}

fn import_source(v: &Json) -> (r: Option<ImportSource>)
    ensures
        r is Some == import_source_of(v.model()) is Some,
        r is Some ==> r->0.model() == import_source_of(v.model())->0,
{
    match v {
        Json::Str(s) => Some(ImportSource::Plain(s.clone())),
        Json::Obj(_) => {
            match (text_of(v.get("from")), text_of(v.get("as"))) {
                (Some(from), Some(as_name)) => Some(ImportSource::Aliased { from, as_name }),
                _ => None,
            }
        },
        _ => None,
    }
}

fn resolve_import_sources(o: &Option<Json>) -> (r: Result<Vec<ImportSource>, StylexError>)
    ensures
        match r {
            Ok(v) => import_error(*o) is None && import_models(v@) == import_value(*o),
            Err(e) => import_error(*o) == Some(e.model()),
        },
{
    let mut out: Vec<ImportSource> = Vec::new();
    out.push(ImportSource::Plain("@stylexjs/stylex".to_owned()));
    out.push(ImportSource::Plain("stylex".to_owned()));
    let ghost own = seq![
        ImportSourceModel::Plain("@stylexjs/stylex"@),
        ImportSourceModel::Plain("stylex"@),
    ];
    proof {
        assert(import_models(out@) =~= own);
    }
    match present(o) {
        None => Ok(out),
        Some(v) => {
            match v {
                Json::Arr(items) => {
                    let ghost all = v.model()->Arr_0;
                    let ghost rest = Seq::new(all.len(), |i: int| import_source_of(all[i])->0);
                    let mut i: usize = 0;
                    proof {
                        assert(own + rest.take(0) =~= own);
                    }
                    while i < items.len()
                        invariant
                            *v == Json::Arr(*items),
                            all == v.model()->Arr_0,
                            i <= items@.len(),
                            rest == Seq::new(all.len(), |i: int| import_source_of(all[i])->0),
                            import_models(out@) == own + rest.take(i as int),
                            import_item_error(all, 0) == import_item_error(all, i as int),
                            given(*o) == Some(v.model()),
                        decreases items@.len() - i,
                    {
                        let ghost before = import_models(out@);
                        match import_source(&items[i]) {
                            Some(s) => {
                                out.push(s);
                                proof {
                                    assert(import_models(out@) =~= before.push(s.model()));
                                    assert(import_models(out@) =~= own + rest.take(i as int + 1));
                                }
                            },
                            None => {
                                return Err(
                                    invalid_value(
                                        "options.importSources[]",
                                        &items[i],
                                        "a string or an object with string `from` and `as`",
                                    ),
                                );
                            },
                        }
                        i += 1;
                    }
                    proof {
                        assert(rest.take(i as int) =~= rest);
                    }
                    Ok(out)
                },
                _ => Err(invalid_value("options.importSources", v, "an array")),
            }
        },
    }
}

fn resolve_injection(o: &Option<Json>) -> (r: Option<RuntimeInjection>)
    ensures
        injection_model(r) == injection_value(*o),
{
    match present(o) {
        None => None,
        Some(v) => {
            match v {
                Json::Bool(true) => Some(
                    RuntimeInjection { from: DEFAULT_INJECT_PATH.to_owned(), as_name: None },
                ),
                Json::Str(s) => Some(RuntimeInjection { from: s.clone(), as_name: None }),
                _ => {
                    match (text_of(v.get("from")), text_of(v.get("as"))) {
                        (Some(from), Some(as_name)) => Some(
                            RuntimeInjection { from, as_name: Some(as_name) },
                        ),
                        _ => None,
                    }
                },
            }
        },
    }
}

fn resolve_style_resolution(o: &Option<Json>) -> (r: Result<StyleResolution, StylexError>)
    ensures
        match r {
            Ok(v) => Some(v) == style_resolution_of(*o),
            Err(e) => style_resolution_error(*o) == Some(e.model()),
        },
{
    match present(o) {
        None => Ok(StyleResolution::PropertySpecificity),
        Some(v) => {
            if let Json::Str(s) = v {
                if str_eq(s.as_str(), "property-specificity") {
                    return Ok(StyleResolution::PropertySpecificity);
                }
                if str_eq(s.as_str(), "application-order") {
                    return Ok(StyleResolution::ApplicationOrder);
                }
                if str_eq(s.as_str(), "legacy-expand-shorthands") {
                    return Ok(StyleResolution::LegacyExpandShorthands);
                }
            }
            Err(
                invalid_value(
                    "options.styleResolution",
                    v,
                    "one of \"application-order\" | \"property-specificity\" | \"legacy-expand-shorthands\"",
                ),
            )
        },
    }
}

fn resolve_validation(o: &Option<Json>) -> (r: Result<PropertyValidationMode, StylexError>)
    ensures
        match r {
            Ok(v) => Some(v) == validation_of(*o),
            Err(e) => validation_error(*o) == Some(e.model()),
        },
{
    match present(o) {
        None => Ok(PropertyValidationMode::Silent),
        Some(v) => {
            if let Json::Str(s) = v {
                if str_eq(s.as_str(), "silent") {
                    return Ok(PropertyValidationMode::Silent);
                }
                if str_eq(s.as_str(), "throw") {
                    return Ok(PropertyValidationMode::Throw);
                }
                if str_eq(s.as_str(), "warn") {
                    return Ok(PropertyValidationMode::Warn);
                }
            }
            Err(
                invalid_value(
                    "options.propertyValidationMode",
                    v,
                    "one of \"throw\" | \"warn\" | \"silent\"",
                ),
            )
        },
    }
}

fn resolve_module_resolution(o: &Option<Json>) -> (r: Result<Option<ModuleResolution>, StylexError>)
    ensures
        match r {
            Ok(m) => resolution_of(*o) == Ok::<_, ErrorModel>(resolution_model(m)),
            Err(e) => resolution_of(*o) == Err::<
                Option<(ModuleResolutionType, Option<Seq<char>>, Seq<char>)>,
                ErrorModel,
            >(e.model()),
        },
{
    let v = match present(o) {
        None => {
            return Ok(None);
        },
        Some(v) => v,
    };
    match v {
        Json::Obj(_) => {},
        _ => {
            return Ok(None);
        },
    }
    let ty = match text_of(v.get("type")) {
        Some(s) => s,
        None => {
            return Ok(None);
        },
    };
    if str_eq(ty.as_str(), "custom") || str_eq(ty.as_str(), "experimental_crossFileParsing") {
        let name = concat3("unstable_moduleResolution.type: \"", ty.as_str(), "\"");
        return Err(StylexError::unsupported_option(name.as_str()));
    }
    let common = str_eq(ty.as_str(), "commonJS");
    if !common && !str_eq(ty.as_str(), "haste") {
        return Ok(None);
    }
    let theme_file_extension = match v.get("themeFileExtension") {
        None | Some(Json::Null) => THEME_FILE_EXTENSION.to_owned(),
        Some(Json::Str(s)) => s.clone(),
        Some(_) => {
            return Ok(None);
        },
    };
    if !common {
        return Ok(
            Some(
                ModuleResolution {
                    kind: ModuleResolutionType::Haste,
                    root_dir: None,
                    theme_file_extension,
                },
            ),
        );
    }
    proof {
        reveal_strlit("commonJS");
        reveal_strlit("haste");
    }
    let root_dir = match v.get("rootDir") {
        Some(Json::Str(s)) => Some(s.clone()),
        None | Some(Json::Null) => None,
        Some(other) => {
            return Err(
                invalid_value("options.unstable_moduleResolution.rootDir", other, "a string"),
            );
        },
    };
    Ok(Some(ModuleResolution { kind: ModuleResolutionType::CommonJs, root_dir, theme_file_extension }))
}

impl EvalValue {
    /// The value that JSON stands for.
    pub fn from_json(v: &Json) -> (r: EvalValue)
        ensures
            r.model() == value_of_json(v.model()),
        decreases v,
    {
        match v {
            Json::Null => EvalValue::Null,
            Json::Bool(b) => EvalValue::Bool(*b),
            Json::Number(n) => EvalValue::Num(
                match parse_float_prefix(n.as_str()) {
                    Some(x) => x,
                    None => JsNumber { bits: 0 },
                },
            ),
            Json::Double(x) => EvalValue::Num(*x),
            Json::Str(s) => EvalValue::Str(s.clone()),
            Json::Arr(items) => {
                let mut out: Vec<EvalValue> = Vec::new();
                let mut i: usize = 0;
                while i < items.len()
                    invariant
                        *v == Json::Arr(*items),
                        i <= items@.len(),
                        out@.len() == i,
                        forall|j: int|
                            0 <= j < i ==> #[trigger] out@[j].model() == value_of_json(
                                items@[j].model(),
                            ),
                    decreases items@.len() - i,
                {
                    proof {
                        assert(decreases_to!(*v => v->Arr_0));
                        assert(decreases_to!(*items => items@[i as int]));
                    }
                    out.push(EvalValue::from_json(&items[i]));
                    i += 1;
                }
                let r = EvalValue::Arr(out);
                proof {
                    let m = value_of_json(v.model());
                    assert forall|j: int| 0 <= j < items@.len() implies r.model()->Arr_0[j]
                        == m->Arr_0[j] by {
                        assert(out@[j].model() == value_of_json(items@[j].model()));
                    }
                    assert(r.model()->Arr_0 =~= m->Arr_0);
                }
                r
            },
            Json::Obj(items) => {
                let ghost all = v.model()->Obj_0;
                let mut out = JsObjectMap::new();
                let mut i: usize = 0;
                while i < items.len()
                    invariant
                        *v == Json::Obj(*items),
                        all == v.model()->Obj_0,
                        i <= items@.len(),
                        out.pairs() == entries_of_json(all, i as int),
                        out.model().css is None,
                    decreases items@.len() - i,
                {
                    proof {
                        assert(decreases_to!(*v => v->Obj_0));
                        assert(decreases_to!(*items => items@[i as int]));
                    }
                    let x = EvalValue::from_json(&items[i].1);
                    out.insert(items[i].0.clone(), x);
                    i += 1;
                }
                EvalValue::Obj(out)
            },
        }
    }
}

fn alias_values(v: &Json) -> (r: Option<Vec<String>>)
    ensures
        r is Some == alias_targets(v.model()) is Some,
        r is Some ==> texts(r->0@) == alias_targets(v.model())->0,
{
    match v {
        Json::Str(s) => {
            let mut out: Vec<String> = Vec::new();
            out.push(s.clone());
            proof {
                assert(texts(out@) =~= seq![s@]);
            }
            Some(out)
        },
        Json::Arr(items) => {
            let ghost all = v.model()->Arr_0;
            let mut out: Vec<String> = Vec::new();
            let mut i: usize = 0;
            while i < items.len()
                invariant
                    *v == Json::Arr(*items),
                    all == v.model()->Arr_0,
                    i <= items@.len(),
                    out@.len() == i,
                    forall|j: int|
                        0 <= j < i ==> (#[trigger] all[j]) is Str && out@[j]@ == all[j]->Str_0,
                decreases items@.len() - i,
            {
                assert(all[i as int] == items@[i as int].model());
                match &items[i] {
                    Json::Str(s) => {
                        out.push(s.clone());
                    },
                    _ => {
                        assert(!(all[i as int] is Str));
                        return None;
                    },
                }
                i += 1;
            }
            proof {
                assert(texts(out@) =~= Seq::new(all.len(), |i: int| all[i]->Str_0));
            }
            Some(out)
        },
        _ => None,
    }
}

fn resolve_aliases(o: &Option<Json>) -> (r: Option<AliasMap>)
    ensures
        r is Some == aliases_value(*o) is Some,
        r is Some ==> alias_model(r->0@) == aliases_value(*o)->0,
{
    let v = match present(o) {
        None => {
            return None;
        },
        Some(v) => v,
    };
    let ghost entries = alias_entries(v.model())->0;
    let mut out: Vec<(String, Vec<String>)> = Vec::new();
    match v {
        Json::Obj(items) => {
            let mut i: usize = 0;
            while i < items.len()
                invariant
                    *v == Json::Obj(*items),
                    given(*o) == Some(v.model()),
                    alias_entries(v.model()) == Some(entries),
                    i <= items@.len(),
                    out@.len() == i,
                    forall|j: int|
                        0 <= j < i ==> alias_targets(#[trigger] entries[j].1) is Some && out@[j].0@
                            == entries[j].0 && texts(out@[j].1@) == alias_targets(entries[j].1)->0,
                decreases items@.len() - i,
            {
                match alias_values(&items[i].1) {
                    Some(targets) => {
                        out.push((items[i].0.clone(), targets));
                    },
                    None => {
                        assert(alias_targets(entries[i as int].1) is None);
                        return None;
                    },
                }
                i += 1;
            }
        },
        Json::Arr(items) => {
            let mut i: usize = 0;
            while i < items.len()
                invariant
                    *v == Json::Arr(*items),
                    given(*o) == Some(v.model()),
                    alias_entries(v.model()) == Some(entries),
                    i <= items@.len(),
                    out@.len() == i,
                    forall|j: int|
                        0 <= j < i ==> alias_targets(#[trigger] entries[j].1) is Some && out@[j].0@
                            == entries[j].0 && texts(out@[j].1@) == alias_targets(entries[j].1)->0,
                decreases items@.len() - i,
            {
                match alias_values(&items[i]) {
                    Some(targets) => {
                        out.push((decimal_text(i as u64), targets));
                    },
                    None => {
                        assert(alias_targets(entries[i as int].1) is None);
                        return None;
                    },
                }
                i += 1;
            }
        },
        _ => {
            return None;
        },
    }
    proof {
        assert(alias_model(out@) =~= aliases_value(*o)->0);
    }
    Some(out)
}

fn say_default(name: &str, got: &Json, expected: &str) -> (r: String)
    ensures
        r@ == default_notice(name@, got.model(), expected@),
{
    let mut m = concat3("[fru] Expected (", name, ") to be ");
    m.append(expected);
    m.append(", but got `");
    m.append(got.text().as_str());
    m.append("`; using the default");
    m
}

fn note_resolution(o: &Option<Json>) -> (r: Option<String>)
    ensures
        opt_text(r) == resolution_notice(*o),
{
    let v = match present(o) {
        None => {
            return None;
        },
        Some(v) => v,
    };
    match v {
        Json::Obj(_) => {},
        _ => {
            return Some(say_default("options.unstable_moduleResolution", v, "an object"));
        },
    }
    let given_type = v.get("type");
    let ty = match given_type {
        Some(Json::Str(s)) => s,
        Some(other) => {
            return Some(say_default("options.unstable_moduleResolution.type", other, "a string"));
        },
        None => {
            return Some(
                say_default("options.unstable_moduleResolution.type", &Json::Null, "a string"),
            );
        },
    };
    if str_eq(ty.as_str(), "custom") || str_eq(ty.as_str(), "experimental_crossFileParsing") {
        return None;
    }
    if !str_eq(ty.as_str(), "commonJS") && !str_eq(ty.as_str(), "haste") {
        return Some(
            say_default(
                "options.unstable_moduleResolution.type",
                &Json::Str(ty.clone()),
                "one of \"commonJS\" | \"haste\" | \"custom\" | \"experimental_crossFileParsing\"",
            ),
        );
    }
    match v.get("themeFileExtension") {
        None | Some(Json::Null) | Some(Json::Str(_)) => None,
        Some(other) => Some(
            say_default("options.unstable_moduleResolution.themeFileExtension", other, "a string"),
        ),
    }
}

fn note_aliases(o: &Option<Json>, aliases: &Option<AliasMap>) -> (r: Option<String>)
    requires
        aliases is Some == aliases_value(*o) is Some,
    ensures
        opt_text(r) == aliases_notice(*o),
{
    match present(o) {
        Some(v) => {
            if aliases.is_some() {
                None
            } else {
                Some(
                    concat3(
                        "[fru] Expected (options.aliases) to be a map of string to string or string[], but got `",
                        v.text().as_str(),
                        "`. Ignoring every alias.",
                    ),
                )
            }
        },
        None => None,
    }
}

fn push_notice(notices: &mut Vec<String>, notice: Option<String>)
    ensures
        texts(final(notices)@) == texts(old(notices)@) + notice_list(opt_text(notice)),
{
    let ghost before = texts(notices@);
    match notice {
        Some(s) => {
            notices.push(s);
            proof {
                assert(texts(notices@) =~= before + seq![s@]);
            }
        },
        None => {
            proof {
                assert(before + Seq::empty() =~= before);
            }
        },
    }
}

impl CompilerOptions {
    /// Checks the options. The first error in the order of the checks is reported;
    /// without one the options hold what was given, or their defaults.
    pub fn resolve(&self) -> (r: Result<ResolvedOptions, StylexError>)
        ensures
            match r {
                Ok(o) => first_error(self.checks(), 0) is None && self.stands_for(o),
                Err(e) => first_error(self.checks(), 0) == Some(e.model()),
            },
    {
        let mut notices: Vec<String> = Vec::new();
        self.resolve_into(&mut notices)
    }

    /// Checks the options as `resolve` does, and gives what is to be said about values
    /// that were set aside.
    pub fn resolve_with_notices(&self) -> (r: (Result<ResolvedOptions, StylexError>, Vec<String>))
        ensures
            match r.0 {
                Ok(o) => first_error(self.checks(), 0) is None && self.stands_for(o),
                Err(e) => first_error(self.checks(), 0) == Some(e.model()),
            },
            texts(r.1@) == self.notices(),
    {
        let mut notices: Vec<String> = Vec::new();
        let result = self.resolve_into(&mut notices);
        proof {
            assert(texts(notices@) =~= self.notices());
        }
        (result, notices)
    }

    #[verifier::rlimit(90)]
    fn resolve_into(&self, notices: &mut Vec<String>) -> (r: Result<ResolvedOptions, StylexError>)
        requires
            old(notices)@.len() == 0,
        ensures
            match r {
                Ok(o) => first_error(self.checks(), 0) is None && self.stands_for(o),
                Err(e) => first_error(self.checks(), 0) == Some(e.model()),
            },
            texts(final(notices)@) =~= self.notices(),
    {
        proof {
            reveal_with_fuel(first_error, 27);
        }
        let ghost checks = self.checks();
        let dev = match bool_opt("options.dev", &self.dev, false) {
            Ok(b) => b,
            Err(e) => {
                return Err(e);
            },
        };
        let debug = match bool_opt("options.debug", &self.debug, dev) {
            Ok(b) => b,
            Err(e) => {
                return Err(e);
            },
        };
        let enable_debug_class_names = match bool_opt(
            "options.enableDebugClassNames",
            &self.enable_debug_class_names,
            false,
        ) {
            Ok(b) => b,
            Err(e) => {
                return Err(e);
            },
        };
        let enable_debug_data_prop = match bool_opt(
            "options.enableDebugDataProp",
            &self.enable_debug_data_prop,
            debug,
        ) {
            Ok(b) => b,
            Err(e) => {
                return Err(e);
            },
        };
        let enable_dev_class_names = match bool_opt(
            "options.enableDevClassNames",
            &self.enable_dev_class_names,
            dev,
        ) {
            Ok(b) => b,
            Err(e) => {
                return Err(e);
            },
        };
        let enable_font_size_px_to_rem = match bool_opt(
            "options.enableFontSizePxToRem",
            &self.enable_font_size_px_to_rem,
            false,
        ) {
            Ok(b) => b,
            Err(e) => {
                return Err(e);
            },
        };
        let enable_inlined_conditional_merge = match bool_opt(
            "options.enableInlinedConditionalMerge",
            &self.enable_inlined_conditional_merge,
            true,
        ) {
            Ok(b) => b,
            Err(e) => {
                return Err(e);
            },
        };
        let enable_minified_keys = match bool_opt(
            "options.enableMinifiedKeys",
            &self.enable_minified_keys,
            true,
        ) {
            Ok(b) => b,
            Err(e) => {
                return Err(e);
            },
        };
        let enable_media_query_order = match bool_opt(
            "options.enableMediaQueryOrder",
            &self.enable_media_query_order,
            true,
        ) {
            Ok(b) => b,
            Err(e) => {
                return Err(e);
            },
        };
        let enable_legacy_value_flipping = match bool_opt(
            "options.enableLegacyValueFlipping",
            &self.enable_legacy_value_flipping,
            false,
        ) {
            Ok(b) => b,
            Err(e) => {
                return Err(e);
            },
        };
        let enable_logical_styles_polyfill = match bool_opt(
            "options.enableLogicalStylesPolyfill",
            &self.enable_logical_styles_polyfill,
            false,
        ) {
            Ok(b) => b,
            Err(e) => {
                return Err(e);
            },
        };
        let enable_ltr_rtl_comments = match bool_opt(
            "options.enableLTRRTLComments",
            &self.enable_ltr_rtl_comments,
            false,
        ) {
            Ok(b) => b,
            Err(e) => {
                return Err(e);
            },
        };
        if enable_ltr_rtl_comments {
            return Err(StylexError::unsupported_option("enableLTRRTLComments: true"));
        }
        let sx_prop_name = match present(&self.sx_prop_name) {
            None => Some("sx".to_owned()),
            Some(Json::Str(s)) => Some(s.clone()),
            Some(Json::Bool(false)) => None,
            Some(other) => {
                return Err(
                    invalid_value("options.sxPropName", other, "a string or the literal false"),
                );
            },
        };
        let test = match bool_opt("options.test", &self.test, false) {
            Ok(b) => b,
            Err(e) => {
                return Err(e);
            },
        };
        let runtime_injection = resolve_injection(&self.runtime_injection);
        let class_name_prefix = match present(&self.class_name_prefix) {
            None => "x".to_owned(),
            Some(Json::Str(s)) => s.clone(),
            Some(other) => {
                return Err(invalid_value("options.classNamePrefix", other, "a string"));
            },
        };
        let import_sources = match resolve_import_sources(&self.import_sources) {
            Ok(v) => v,
            Err(e) => {
                return Err(e);
            },
        };
        let style_resolution = match resolve_style_resolution(&self.style_resolution) {
            Ok(v) => v,
            Err(e) => {
                return Err(e);
            },
        };
        let property_validation_mode = match resolve_validation(&self.property_validation_mode) {
            Ok(v) => v,
            Err(e) => {
                return Err(e);
            },
        };
        let unstable_module_resolution = match resolve_module_resolution(
            &self.unstable_module_resolution,
        ) {
            Ok(v) => v,
            Err(e) => {
                return Err(e);
            },
        };
        push_notice(notices, note_resolution(&self.unstable_module_resolution));
        let treeshake_compensation = match bool_opt(
            "options.treeshakeCompensation",
            &self.treeshake_compensation,
            false,
        ) {
            Ok(b) => b,
            Err(e) => {
                return Err(e);
            },
        };
        let env = match present(&self.env) {
            None => EvalValue::Obj(JsObjectMap::new()),
            Some(v) => {
                match v {
                    Json::Obj(_) => EvalValue::from_json(v),
                    _ => {
                        return Err(invalid_value("options.env", v, "an object"));
                    },
                }
            },
        };
        let aliases = resolve_aliases(&self.aliases);
        push_notice(notices, note_aliases(&self.aliases, &aliases));
        let rewrite_aliases = match present(&self.rewrite_aliases) {
            Some(Json::Bool(true)) => true,
            _ => false,
        };
        if present(&self.debug_file_path).is_some() {
            return Err(StylexError::unsupported_option("debugFilePath"));
        }
        if present(&self.included).is_some() {
            return Err(StylexError::unsupported_option("include"));
        }
        if present(&self.excluded).is_some() {
            return Err(StylexError::unsupported_option("exclude"));
        }
        Ok(
            captured(
                ResolvedOptions {
                    class_name_prefix,
                    dev,
                    debug,
                    test,
                    enable_debug_class_names,
                    enable_debug_data_prop,
                    enable_dev_class_names,
                    enable_font_size_px_to_rem,
                    enable_inlined_conditional_merge,
                    enable_media_query_order,
                    enable_minified_keys,
                    enable_legacy_value_flipping,
                    enable_logical_styles_polyfill,
                    enable_ltr_rtl_comments,
                    sx_prop_name,
                    env,
                    import_sources,
                    runtime_injection,
                    style_resolution,
                    property_validation_mode,
                    treeshake_compensation,
                    unstable_module_resolution,
                    aliases,
                    rewrite_aliases,
                    cache_repr: String::new(),
                },
            ),
        )
    }
}

/// Checks the options.
pub fn resolve_options(raw: &CompilerOptions) -> (r: Result<ResolvedOptions, StylexError>)
    ensures
        match r {
            Ok(o) => first_error(raw.checks(), 0) is None && raw.stands_for(o),
            Err(e) => first_error(raw.checks(), 0) == Some(e.model()),
        },
{
    raw.resolve()
}

/// The value of the last of the first `k` entries with key `name`.
pub open spec fn last_value(entries: Seq<(Seq<char>, JsonModel)>, name: Seq<char>, k: int) -> Option<
    JsonModel,
>
    decreases k,
{
    if k <= 0 {
        None
    } else if entries[k - 1].0 == name {
        Some(entries[k - 1].1)
    } else {
        last_value(entries, name, k - 1)
    }
}

/// The first key from `i` on that names no option.
pub open spec fn unknown_key(entries: Seq<(Seq<char>, JsonModel)>, i: int) -> Option<Seq<char>>
    decreases entries.len() - i,
{
    if i < 0 || i >= entries.len() {
        None
    } else if listed(entries[i].0, OPTION_NAMES@) {
        unknown_key(entries, i + 1)
    } else {
        Some(entries[i].0)
    }
}

/// What was given for one option.
pub open spec fn slot(v: JsonModel, name: Seq<char>) -> Option<JsonModel> {
    match v {
        JsonModel::Obj(entries) => last_value(entries, name, entries.len() as int),
        _ => None,
    }
}

/// The view of an optional JSON value.
pub open spec fn opt_json(o: Option<Json>) -> Option<JsonModel> {
    match o {
        Some(v) => Some(v.model()),
        None => None,
    }
}

/// Why a JSON value is no set of options, if it is none.
pub open spec fn options_error(v: JsonModel) -> Option<ErrorModel> {
    match v {
        JsonModel::Null => None,
        JsonModel::Obj(entries) => match unknown_key(entries, 0) {
            Some(k) => Some(said(ErrorCode::UnknownOption, "Unknown option \""@ + k + "\"."@)),
            None => None,
        },
        _ => Some(
            said(
                ErrorCode::InvalidOptionValue,
                "Expected the @stylexjs/babel-plugin options to be an object, but got `"@
                    + json_text(v) + "`."@,
            ),
        ),
    }
}

impl CompilerOptions {
    /// Whether each option holds what `v` gives for its name.
    pub open spec fn holds(self, v: JsonModel) -> bool {
        &&& opt_json(self.dev) == slot(v, "dev"@)
        &&& opt_json(self.test) == slot(v, "test"@)
        &&& opt_json(self.debug) == slot(v, "debug"@)
        &&& opt_json(self.class_name_prefix) == slot(v, "classNamePrefix"@)
        &&& opt_json(self.import_sources) == slot(v, "importSources"@)
        &&& opt_json(self.runtime_injection) == slot(v, "runtimeInjection"@)
        &&& opt_json(self.style_resolution) == slot(v, "styleResolution"@)
        &&& opt_json(self.property_validation_mode) == slot(v, "propertyValidationMode"@)
        &&& opt_json(self.unstable_module_resolution) == slot(v, "unstable_moduleResolution"@)
        &&& opt_json(self.treeshake_compensation) == slot(v, "treeshakeCompensation"@)
        &&& opt_json(self.sx_prop_name) == slot(v, "sxPropName"@)
        &&& opt_json(self.enable_debug_class_names) == slot(v, "enableDebugClassNames"@)
        &&& opt_json(self.enable_debug_data_prop) == slot(v, "enableDebugDataProp"@)
        &&& opt_json(self.enable_dev_class_names) == slot(v, "enableDevClassNames"@)
        &&& opt_json(self.enable_font_size_px_to_rem) == slot(v, "enableFontSizePxToRem"@)
        &&& opt_json(self.enable_inlined_conditional_merge) == slot(
            v,
            "enableInlinedConditionalMerge"@,
        )
        &&& opt_json(self.enable_media_query_order) == slot(v, "enableMediaQueryOrder"@)
        &&& opt_json(self.enable_minified_keys) == slot(v, "enableMinifiedKeys"@)
        &&& opt_json(self.enable_legacy_value_flipping) == slot(v, "enableLegacyValueFlipping"@)
        &&& opt_json(self.enable_logical_styles_polyfill) == slot(v, "enableLogicalStylesPolyfill"@)
        &&& opt_json(self.enable_ltr_rtl_comments) == slot(v, "enableLTRRTLComments"@)
        &&& opt_json(self.aliases) == slot(v, "aliases"@)
        &&& opt_json(self.rewrite_aliases) == slot(v, "rewriteAliases"@)
        &&& opt_json(self.debug_file_path) == slot(v, "debugFilePath"@)
        &&& opt_json(self.env) == slot(v, "env"@)
        &&& opt_json(self.included) == slot(v, "include"@)
        &&& opt_json(self.excluded) == slot(v, "exclude"@)
    }

    fn of_object(v: &Json) -> (r: CompilerOptions)
        ensures
            r.holds(v.model()),
    {
        CompilerOptions {
            dev: given_for(v, "dev"),
            test: given_for(v, "test"),
            debug: given_for(v, "debug"),
            class_name_prefix: given_for(v, "classNamePrefix"),
            import_sources: given_for(v, "importSources"),
            runtime_injection: given_for(v, "runtimeInjection"),
            style_resolution: given_for(v, "styleResolution"),
            property_validation_mode: given_for(v, "propertyValidationMode"),
            unstable_module_resolution: given_for(v, "unstable_moduleResolution"),
            treeshake_compensation: given_for(v, "treeshakeCompensation"),
            sx_prop_name: given_for(v, "sxPropName"),
            enable_debug_class_names: given_for(v, "enableDebugClassNames"),
            enable_debug_data_prop: given_for(v, "enableDebugDataProp"),
            enable_dev_class_names: given_for(v, "enableDevClassNames"),
            enable_font_size_px_to_rem: given_for(v, "enableFontSizePxToRem"),
            enable_inlined_conditional_merge: given_for(v, "enableInlinedConditionalMerge"),
            enable_media_query_order: given_for(v, "enableMediaQueryOrder"),
            enable_minified_keys: given_for(v, "enableMinifiedKeys"),
            enable_legacy_value_flipping: given_for(v, "enableLegacyValueFlipping"),
            enable_logical_styles_polyfill: given_for(v, "enableLogicalStylesPolyfill"),
            enable_ltr_rtl_comments: given_for(v, "enableLTRRTLComments"),
            aliases: given_for(v, "aliases"),
            rewrite_aliases: given_for(v, "rewriteAliases"),
            debug_file_path: given_for(v, "debugFilePath"),
            env: given_for(v, "env"),
            included: given_for(v, "include"),
            excluded: given_for(v, "exclude"),
        }
    }

    /// Reads options from JSON: an object with known keys, or null for none.
    pub fn from_json(value: &Json) -> (r: Result<CompilerOptions, StylexError>)
        ensures
            match r {
                Ok(o) => options_error(value.model()) is None && o.holds(value.model()),
                Err(e) => options_error(value.model()) == Some(e.model()),
            },
    {
        match value {
            Json::Null => Ok(CompilerOptions::of_object(value)),
            Json::Obj(items) => {
                let ghost all = value.model()->Obj_0;
                let mut i: usize = 0;
                while i < items.len()
                    invariant
                        *value == Json::Obj(*items),
                        all == value.model()->Obj_0,
                        i <= items@.len(),
                        unknown_key(all, 0) == unknown_key(all, i as int),
                    decreases items@.len() - i,
                {
                    if !is_listed(items[i].0.as_str(), &OPTION_NAMES) {
                        return Err(StylexError::unknown_option(items[i].0.as_str()));
                    }
                    i += 1;
                }
                Ok(CompilerOptions::of_object(value))
            },
            _ => {
                let m = concat3(
                    "Expected the @stylexjs/babel-plugin options to be an object, but got `",
                    value.text().as_str(),
                    "`.",
                );
                Err(StylexError { code: ErrorCode::InvalidOptionValue, message: m })
            },
        }
    }
}

fn given_for(v: &Json, name: &str) -> (r: Option<Json>)
    ensures
        opt_json(r) == slot(v.model(), name@),
{
    match v {
        Json::Obj(items) => {
            let ghost all = v.model()->Obj_0;
            let mut i: usize = items.len();
            while i > 0
                invariant
                    *v == Json::Obj(*items),
                    all == v.model()->Obj_0,
                    i <= items@.len(),
                    last_value(all, name@, all.len() as int) == last_value(all, name@, i as int),
                decreases i,
            {
                i -= 1;
                if str_eq(items[i].0.as_str(), name) {
                    return Some(items[i].1.clone());
                }
            }
            None
        },
        _ => None,
    }
}

impl Default for CompilerOptions {
    fn default() -> (r: CompilerOptions)
        ensures
            r.holds(JsonModel::Null),
    {
        CompilerOptions::of_object(&Json::Null)
    }
}

/// Checked options with their one text.
fn captured(o: ResolvedOptions) -> (r: ResolvedOptions)
    ensures
        same_options(r, o),
        r.cache_repr@ == options_repr(r),
{
    let cache_repr = capture_options(&o);
    let r = ResolvedOptions { cache_repr, ..o };
    proof {
        same_options_have_one_text(r, o);
    }
    r
}

impl Default for ResolvedOptions {
    fn default() -> (r: ResolvedOptions)
        ensures
            forall|raw: CompilerOptions|
                #[trigger] raw.holds(JsonModel::Null) ==> raw.stands_for(r),
    {
        let mut import_sources: Vec<ImportSource> = Vec::new();
        import_sources.push(ImportSource::Plain("@stylexjs/stylex".to_owned()));
        import_sources.push(ImportSource::Plain("stylex".to_owned()));
        proof {
            assert(import_models(import_sources@) =~= seq![
                ImportSourceModel::Plain("@stylexjs/stylex"@),
                ImportSourceModel::Plain("stylex"@),
            ]);
        }
        captured(
            ResolvedOptions {
                class_name_prefix: "x".to_owned(),
                dev: false,
                debug: false,
                test: false,
                enable_debug_class_names: false,
                enable_debug_data_prop: false,
                enable_dev_class_names: false,
                enable_font_size_px_to_rem: false,
                enable_inlined_conditional_merge: true,
                enable_media_query_order: true,
                enable_minified_keys: true,
                enable_legacy_value_flipping: false,
                enable_logical_styles_polyfill: false,
                enable_ltr_rtl_comments: false,
                sx_prop_name: Some("sx".to_owned()),
                env: EvalValue::Obj(JsObjectMap::new()),
                import_sources,
                runtime_injection: None,
                style_resolution: StyleResolution::PropertySpecificity,
                property_validation_mode: PropertyValidationMode::Silent,
                treeshake_compensation: false,
                unstable_module_resolution: None,
                aliases: None,
                rewrite_aliases: false,
                cache_repr: String::new(),
            },
        )
    }
}

/// Options without anything given always resolve.
pub proof fn empty_options_resolve(raw: CompilerOptions)
    requires
        raw.holds(JsonModel::Null),
    ensures
        first_error(raw.checks(), 0) is None,
{
    reveal_with_fuel(first_error, 27);
}

/// Options that were checked have an object for their environment, and no root
/// directory under haste.
pub proof fn checked_options_are_in_order(raw: CompilerOptions, o: ResolvedOptions)
    requires
        first_error(raw.checks(), 0) is None,
        raw.stands_for(o),
    ensures
        o.env is Obj,
        match o.unstable_module_resolution {
            Some(m) => m.kind == ModuleResolutionType::Haste ==> m.root_dir is None,
            None => true,
        },
{
    reveal_with_fuel(first_error, 27);
}

} // verus!
