//! The text of checked options, as `{:?}` prints them.

use crate::number::{decimal, decimal_text};
use crate::options::{
    alias_model, import_models, injection_model, resolution_model, AliasMap, ImportSource,
    ImportSourceModel, ModuleResolution, ModuleResolutionType, PropertyValidationMode,
    ResolvedOptions, RuntimeInjection, StyleResolution,
};
use crate::text::{concat3, debug_string, debug_text, texts};
use crate::value::{opt_text, EvalValue, ObjModel, Val};
use vstd::prelude::*;

verus! {

/// A way to put texts in quotes.
pub type Quotes = spec_fn(Seq<char>) -> Seq<char>;

/// The way in which `{:?}` puts texts in quotes.
pub open spec fn debug_quotes() -> Quotes {
    |s: Seq<char>| debug_text(s)
}

/// Pieces from the `i`th on, one behind the other.
pub open spec fn pieces_from(v: Seq<Seq<char>>, i: int) -> Seq<char>
    decreases v.len() - i,
{
    if i < 0 || i >= v.len() {
        Seq::empty()
    } else {
        v[i] + pieces_from(v, i + 1)
    }
}

/// Pieces one behind the other.
pub open spec fn pieces(v: Seq<Seq<char>>) -> Seq<char> {
    pieces_from(v, 0)
}

/// The items of a list from the `i`th on, and its closing bracket.
pub open spec fn list_from(v: Seq<Seq<char>>, i: int) -> Seq<char>
    decreases v.len() - i,
{
    if i < 0 || i >= v.len() {
        "]"@
    } else if i == 0 {
        v[i] + list_from(v, i + 1)
    } else {
        ", "@ + (v[i] + list_from(v, i + 1))
    }
}

/// A list.
pub open spec fn shown_list(v: Seq<Seq<char>>) -> Seq<char> {
    "["@ + list_from(v, 0)
}

/// What may be there or not.
pub open spec fn shown_some(o: Option<Seq<char>>) -> Seq<char> {
    match o {
        Some(c) => pieces(seq!["Some("@, c, ")"@]),
        None => "None"@,
    }
}

/// An optional text.
pub open spec fn shown_opt(o: Option<Seq<char>>, q: Quotes) -> Seq<char> {
    match o {
        Some(s) => shown_some(Some(q(s))),
        None => shown_some(None),
    }
}

/// A switch.
#[verifier::opaque]
pub open spec fn shown_bool(b: bool) -> Seq<char> {
    if b {
        "true"@
    } else {
        "false"@
    }
}

/// A value.
pub open spec fn shown_value(v: Val, q: Quotes) -> Seq<char>
    decreases v, 1int,
{
    match v {
        Val::Undefined => "Undefined"@,
        Val::Null => "Null"@,
        Val::Bool(b) => pieces(seq!["Bool("@, shown_bool(b), ")"@]),
        Val::Num(n) => pieces(
            seq!["Num(JsNumber { bits: "@, decimal(n.bits as nat) + " "@, "})"@],
        ),
        Val::Str(s) => pieces(seq!["Str("@, q(s), ")"@]),
        Val::Arr(items) => pieces(
            seq!["Arr("@, shown_list(shown_items(items, items.len() as int, q)), ")"@],
        ),
        Val::Obj(m) => pieces(seq!["Obj("@, shown_object(m, q), ")"@]),
        Val::Proxy(_) | Val::Callable(_) => Seq::empty(),
    }
}

/// An object.
pub open spec fn shown_object(m: ObjModel, q: Quotes) -> Seq<char>
    decreases m, 0int,
{
    pieces(
        seq![
            "JsObjectMap { items: "@,
            shown_list(shown_entries(m.entries, m.entries.len() as int, q)),
            ", css: "@,
            shown_opt(m.css, q),
            " }"@,
        ],
    )
}

/// The first `k` items of an array.
pub open spec fn shown_items(items: Seq<Val>, k: int, q: Quotes) -> Seq<Seq<char>>
    decreases items, k,
{
    if k <= 0 || k > items.len() {
        Seq::empty()
    } else {
        shown_items(items, k - 1, q).push(shown_value(items[k - 1], q))
    }
}

/// The first `k` entries of an object.
pub open spec fn shown_entries(e: Seq<(Seq<char>, Val)>, k: int, q: Quotes) -> Seq<Seq<char>>
    decreases e, k,
{
    if k <= 0 || k > e.len() {
        Seq::empty()
    } else {
        shown_entries(e, k - 1, q).push(shown_pair(q(e[k - 1].0), shown_value(e[k - 1].1, q)))
    }
}

/// A pair.
pub open spec fn shown_pair(a: Seq<char>, b: Seq<char>) -> Seq<char> {
    pieces(seq!["("@, a, ", "@, b, ")"@])
}

/// An import source.
pub open spec fn shown_import(s: ImportSourceModel, q: Quotes) -> Seq<char> {
    match s {
        ImportSourceModel::Plain(from) => pieces(seq!["Plain("@, q(from), ")"@]),
        ImportSourceModel::Aliased(from, as_name) => pieces(
            seq!["Aliased { from: "@, q(from), ", as_name: "@, q(as_name), " }"@],
        ),
    }
}

/// Import sources.
pub open spec fn shown_imports(v: Seq<ImportSourceModel>, q: Quotes) -> Seq<char> {
    shown_list(Seq::new(v.len(), |i: int| shown_import(v[i], q)))
}

/// The run-time injection.
pub open spec fn shown_injection(o: Option<(Seq<char>, Option<Seq<char>>)>, q: Quotes) -> Seq<char> {
    match o {
        Some((from, as_name)) => shown_some(
            Some(
                pieces(
                    seq![
                        "RuntimeInjection { from: "@,
                        q(from),
                        ", as_name: "@,
                        shown_opt(as_name, q),
                        " }"@,
                    ],
                ),
            ),
        ),
        None => shown_some(None),
    }
}

/// The kind of names that modules have.
pub open spec fn shown_kind(kind: ModuleResolutionType) -> Seq<char> {
    match kind {
        ModuleResolutionType::CommonJs => "CommonJs"@,
        ModuleResolutionType::Haste => "Haste"@,
    }
}

/// How modules are named.
pub open spec fn shown_naming(
    o: Option<(ModuleResolutionType, Option<Seq<char>>, Seq<char>)>,
    q: Quotes,
) -> Seq<char> {
    match o {
        Some((kind, root, suffix)) => shown_some(
            Some(
                pieces(
                    seq![
                        "ModuleResolution { kind: "@,
                        shown_kind(kind),
                        ", root_dir: "@,
                        shown_opt(root, q),
                        ", theme_file_extension: "@,
                        q(suffix),
                        " }"@,
                    ],
                ),
            ),
        ),
        None => shown_some(None),
    }
}

/// Texts in quotes.
pub open spec fn quoted(v: Seq<Seq<char>>, q: Quotes) -> Seq<Seq<char>> {
    Seq::new(v.len(), |i: int| q(v[i]))
}

/// One alias with its targets.
pub open spec fn shown_alias(a: (Seq<char>, Seq<Seq<char>>), q: Quotes) -> Seq<char> {
    shown_pair(q(a.0), shown_list(quoted(a.1, q)))
}

/// The view of optional aliases.
pub open spec fn opt_aliases(o: Option<AliasMap>) -> Option<Seq<(Seq<char>, Seq<Seq<char>>)>> {
    match o {
        Some(m) => Some(alias_model(m@)),
        None => None,
    }
}

/// The aliases.
pub open spec fn shown_aliases(
    o: Option<Seq<(Seq<char>, Seq<Seq<char>>)>>,
    q: Quotes,
) -> Seq<char> {
    match o {
        Some(v) => shown_some(
            Some(shown_list(Seq::new(v.len(), |i: int| shown_alias(v[i], q)))),
        ),
        None => shown_some(None),
    }
}

/// The way in which shorthands are resolved.
pub open spec fn shown_resolution(r: StyleResolution) -> Seq<char> {
    match r {
        StyleResolution::PropertySpecificity => "PropertySpecificity"@,
        StyleResolution::ApplicationOrder => "ApplicationOrder"@,
        StyleResolution::LegacyExpandShorthands => "LegacyExpandShorthands"@,
    }
}

/// What is done about properties that are refused.
pub open spec fn shown_validation(m: PropertyValidationMode) -> Seq<char> {
    match m {
        PropertyValidationMode::Silent => "Silent"@,
        PropertyValidationMode::Warn => "Warn"@,
        PropertyValidationMode::Throw => "Throw"@,
    }
}

/// The prefix and the options about development.
pub open spec fn development_pieces(o: ResolvedOptions, q: Quotes) -> Seq<Seq<char>> {
    seq![
        "ResolvedOptions { class_name_prefix: "@,
        q(o.class_name_prefix@),
        ", dev: "@,
        shown_bool(o.dev),
        ", debug: "@,
        shown_bool(o.debug),
        ", test: "@,
        shown_bool(o.test),
        ", enable_debug_class_names: "@,
        shown_bool(o.enable_debug_class_names),
        ", enable_debug_data_prop: "@,
        shown_bool(o.enable_debug_data_prop),
        ", enable_dev_class_names: "@,
        shown_bool(o.enable_dev_class_names),
    ]
}

/// The options about values and the order of rules.
pub open spec fn value_pieces(o: ResolvedOptions, q: Quotes) -> Seq<Seq<char>> {
    seq![
        ", enable_font_size_px_to_rem: "@,
        shown_bool(o.enable_font_size_px_to_rem),
        ", enable_inlined_conditional_merge: "@,
        shown_bool(o.enable_inlined_conditional_merge),
        ", enable_media_query_order: "@,
        shown_bool(o.enable_media_query_order),
        ", enable_minified_keys: "@,
        shown_bool(o.enable_minified_keys),
        ", enable_legacy_value_flipping: "@,
        shown_bool(o.enable_legacy_value_flipping),
        ", enable_logical_styles_polyfill: "@,
        shown_bool(o.enable_logical_styles_polyfill),
        ", enable_ltr_rtl_comments: "@,
        shown_bool(o.enable_ltr_rtl_comments),
    ]
}

/// The property name, the environment and what is imported.
pub open spec fn source_pieces(o: ResolvedOptions, q: Quotes) -> Seq<Seq<char>> {
    seq![
        ", sx_prop_name: "@,
        shown_opt(opt_text(o.sx_prop_name), q),
        ", env: "@,
        shown_value(o.env.model(), q),
        ", import_sources: "@,
        shown_imports(import_models(o.import_sources@), q),
        ", runtime_injection: "@,
        shown_injection(injection_model(o.runtime_injection), q),
    ]
}

/// The modes, the names of modules and the aliases.
pub open spec fn mode_pieces(o: ResolvedOptions, q: Quotes) -> Seq<Seq<char>> {
    seq![
        ", style_resolution: "@,
        shown_resolution(o.style_resolution),
        ", property_validation_mode: "@,
        shown_validation(o.property_validation_mode),
        ", treeshake_compensation: "@,
        shown_bool(o.treeshake_compensation),
        ", unstable_module_resolution: "@,
        shown_naming(resolution_model(o.unstable_module_resolution), q),
        ", aliases: "@,
        shown_aliases(opt_aliases(o.aliases), q),
        ", rewrite_aliases: "@,
        shown_bool(o.rewrite_aliases),
    ]
}

/// The text of checked options, with their texts in the given quotes.
pub open spec fn shown_options(o: ResolvedOptions, q: Quotes) -> Seq<char> {
    pieces(
        seq![
            pieces(development_pieces(o, q)),
            pieces(value_pieces(o, q)),
            pieces(source_pieces(o, q)),
            pieces(mode_pieces(o, q)),
            ", cache_repr: "@,
            q(Seq::empty()),
            " }"@,
        ],
    )
}

/// The text of checked options, as `{:?}` prints them where they hold no text of their own
/// yet.
pub open spec fn options_repr(o: ResolvedOptions) -> Seq<char> {
    shown_options(o, debug_quotes())
}

fn put_pieces(v: &Vec<String>) -> (r: String)
    ensures
        r@ == pieces(texts(v@)),
{
    let ghost all = texts(v@);
    let mut out = String::new();
    let mut i: usize = 0;
    proof {
        assert(out@ + pieces_from(all, 0) =~= pieces(all));
    }
    while i < v.len()
        invariant
            i <= v@.len(),
            all == texts(v@),
            out@ + pieces_from(all, i as int) == pieces(all),
        decreases v@.len() - i,
    {
        let ghost before = out@;
        out.append(v[i].as_str());
        proof {
            assert(all[i as int] == v@[i as int]@);
            assert(out@ + pieces_from(all, i + 1) =~= before + pieces_from(all, i as int));
        }
        i += 1;
    }
    proof {
        assert(all.len() == v@.len());
        assert(out@ + pieces_from(all, i as int) =~= out@);
    }
    out
}

fn put_list(v: &Vec<String>) -> (r: String)
    ensures
        r@ == shown_list(texts(v@)),
{
    let ghost all = texts(v@);
    let mut out = "[".to_owned();
    let mut i: usize = 0;
    while i < v.len()
        invariant
            i <= v@.len(),
            all == texts(v@),
            out@ + list_from(all, i as int) == shown_list(all),
        decreases v@.len() - i,
    {
        let ghost before = out@;
        if i > 0 {
            out.append(", ");
        }
        out.append(v[i].as_str());
        proof {
            assert(all[i as int] == v@[i as int]@);
            assert(out@ + list_from(all, i + 1) =~= before + list_from(all, i as int));
        }
        i += 1;
    }
    proof {
        assert(all.len() == v@.len());
    }
    out.append("]");
    out
}

fn three(a: &str, b: &str, c: &str) -> (r: String)
    ensures
        r@ == pieces(seq![a@, b@, c@]),
{
    let r = concat3(a, b, c);
    proof {
        reveal_with_fuel(pieces_from, 4);
        assert(r@ =~= pieces(seq![a@, b@, c@]));
    }
    r
}

fn five(a: &str, b: &str, c: &str, d: &str, e: &str) -> (r: String)
    ensures
        r@ == pieces(seq![a@, b@, c@, d@, e@]),
{
    let mut r = concat3(a, b, c);
    r.append(d);
    r.append(e);
    proof {
        reveal_with_fuel(pieces_from, 6);
        assert(r@ =~= pieces(seq![a@, b@, c@, d@, e@]));
    }
    r
}

fn show_some(s: &str) -> (r: String)
    ensures
        r@ == shown_some(Some(s@)),
{
    three("Some(", s, ")")
}

fn show_none() -> (r: String)
    ensures
        r@ == shown_some(None),
{
    "None".to_owned()
}

fn show_opt(o: &Option<String>) -> (r: String)
    ensures
        r@ == shown_opt(opt_text(*o), debug_quotes()),
{
    match o {
        Some(s) => show_some(debug_string(s.as_str()).as_str()),
        None => show_none(),
    }
}

fn show_bool(b: bool) -> (r: String)
    ensures
        r@ == shown_bool(b),
{
    proof {
        reveal(shown_bool);
    }
    if b {
        "true".to_owned()
    } else {
        "false".to_owned()
    }
}

fn show_pair(a: &str, b: &str) -> (r: String)
    ensures
        r@ == shown_pair(a@, b@),
{
    five("(", a, ", ", b, ")")
}

pub(crate) proof fn lemma_items(items: Seq<Val>, k: int, q: Quotes)
    requires
        0 <= k <= items.len(),
    ensures
        shown_items(items, k, q).len() == k,
        forall|i: int|
            0 <= i < k ==> #[trigger] shown_items(items, k, q)[i] == shown_value(items[i], q),
    decreases k,
{
    if k > 0 {
        lemma_items(items, k - 1, q);
    }
}

pub(crate) proof fn lemma_entries(e: Seq<(Seq<char>, Val)>, k: int, q: Quotes)
    requires
        0 <= k <= e.len(),
    ensures
        shown_entries(e, k, q).len() == k,
        forall|i: int|
            0 <= i < k ==> #[trigger] shown_entries(e, k, q)[i] == shown_pair(
                q(e[i].0),
                shown_value(e[i].1, q),
            ),
    decreases k,
{
    if k > 0 {
        lemma_entries(e, k - 1, q);
    }
}

fn show_value(v: &EvalValue) -> (r: String)
    ensures
        r@ == shown_value(v.model(), debug_quotes()),
    decreases v,
{
    match v {
        EvalValue::Undefined => "Undefined".to_owned(),
        EvalValue::Null => "Null".to_owned(),
        EvalValue::Bool(b) => three("Bool(", show_bool(*b).as_str(), ")"),
        EvalValue::Num(n) => {
            let mut bits = decimal_text(n.bits);
            bits.append(" ");
            three("Num(JsNumber { bits: ", bits.as_str(), "})")
        },
        EvalValue::Str(s) => three("Str(", debug_string(s.as_str()).as_str(), ")"),
        EvalValue::Arr(items) => {
            let ghost q = debug_quotes();
            let ghost m = v.model()->Arr_0;
            let mut out: Vec<String> = Vec::new();
            let mut i: usize = 0;
            while i < items.len()
                invariant
                    *v == EvalValue::Arr(*items),
                    q == debug_quotes(),
                    m == v.model()->Arr_0,
                    m.len() == items@.len(),
                    i <= items@.len(),
                    out@.len() == i,
                    forall|j: int| 0 <= j < i ==> (#[trigger] out@[j])@ == shown_value(m[j], q),
                decreases items@.len() - i,
            {
                proof {
                    assert(decreases_to!(*v => v->Arr_0));
                    assert(decreases_to!(*items => items@[i as int]));
                    assert(m[i as int] == items@[i as int].model());
                }
                out.push(show_value(&items[i]));
                i += 1;
            }
            proof {
                lemma_items(m, m.len() as int, q);
                assert(texts(out@) =~= shown_items(m, m.len() as int, q));
            }
            three("Arr(", put_list(&out).as_str(), ")")
        },
        EvalValue::Obj(obj) => {
            let ghost q = debug_quotes();
            let ghost m = obj.model();
            let ghost e = m.entries;
            let mut out: Vec<String> = Vec::new();
            let mut i: usize = 0;
            while i < obj.items.len()
                invariant
                    *v == EvalValue::Obj(*obj),
                    q == debug_quotes(),
                    e == obj.model().entries,
                    e.len() == obj.items@.len(),
                    i <= obj.items@.len(),
                    out@.len() == i,
                    forall|j: int|
                        0 <= j < i ==> (#[trigger] out@[j])@ == shown_pair(
                            q(e[j].0),
                            shown_value(e[j].1, q),
                        ),
                decreases obj.items@.len() - i,
            {
                proof {
                    assert(decreases_to!(*v => v->Obj_0));
                    assert(decreases_to!(*obj => obj.items));
                    assert(decreases_to!(obj.items => obj.items@[i as int]));
                    assert(e[i as int] == (
                        obj.items@[i as int].0@,
                        obj.items@[i as int].1.model(),
                    ));
                }
                let value = show_value(&obj.items[i].1);
                let key = debug_string(obj.items[i].0.as_str());
                out.push(show_pair(key.as_str(), value.as_str()));
                i += 1;
            }
            proof {
                lemma_entries(e, e.len() as int, q);
                assert(texts(out@) =~= shown_entries(e, e.len() as int, q));
                assert(v.model() == Val::Obj(m));
            }
            let object = five(
                "JsObjectMap { items: ",
                put_list(&out).as_str(),
                ", css: ",
                show_opt(&obj.css).as_str(),
                " }",
            );
            three("Obj(", object.as_str(), ")")
        },
    }
}

fn show_imports(v: &Vec<ImportSource>) -> (r: String)
    ensures
        r@ == shown_imports(import_models(v@), debug_quotes()),
{
    let ghost q = debug_quotes();
    let ghost m = import_models(v@);
    let mut out: Vec<String> = Vec::new();
    let mut i: usize = 0;
    while i < v.len()
        invariant
            q == debug_quotes(),
            m == import_models(v@),
            i <= v@.len(),
            out@.len() == i,
            forall|j: int| 0 <= j < i ==> (#[trigger] out@[j])@ == shown_import(m[j], q),
        decreases v@.len() - i,
    {
        assert(m[i as int] == v@[i as int].model());
        out.push(
            match &v[i] {
                ImportSource::Plain(from) => three(
                    "Plain(",
                    debug_string(from.as_str()).as_str(),
                    ")",
                ),
                ImportSource::Aliased { from, as_name } => five(
                    "Aliased { from: ",
                    debug_string(from.as_str()).as_str(),
                    ", as_name: ",
                    debug_string(as_name.as_str()).as_str(),
                    " }",
                ),
            },
        );
        i += 1;
    }
    proof {
        assert(texts(out@) =~= Seq::new(m.len(), |i: int| shown_import(m[i], q)));
    }
    put_list(&out)
}

fn show_injection(o: &Option<RuntimeInjection>) -> (r: String)
    ensures
        r@ == shown_injection(injection_model(*o), debug_quotes()),
{
    match o {
        Some(x) => show_some(
            five(
                "RuntimeInjection { from: ",
                debug_string(x.from.as_str()).as_str(),
                ", as_name: ",
                show_opt(&x.as_name).as_str(),
                " }",
            ).as_str(),
        ),
        None => show_none(),
    }
}

fn show_naming(o: &Option<ModuleResolution>) -> (r: String)
    ensures
        r@ == shown_naming(resolution_model(*o), debug_quotes()),
{
    match o {
        Some(x) => {
            let mut v: Vec<String> = Vec::new();
            v.push("ModuleResolution { kind: ".to_owned());
            v.push(
                match x.kind {
                    ModuleResolutionType::CommonJs => "CommonJs".to_owned(),
                    ModuleResolutionType::Haste => "Haste".to_owned(),
                },
            );
            v.push(", root_dir: ".to_owned());
            v.push(show_opt(&x.root_dir));
            v.push(", theme_file_extension: ".to_owned());
            v.push(debug_string(x.theme_file_extension.as_str()));
            v.push(" }".to_owned());
            proof {
                assert(texts(v@) =~= seq![
                    "ModuleResolution { kind: "@,
                    shown_kind(x.kind),
                    ", root_dir: "@,
                    shown_opt(opt_text(x.root_dir), debug_quotes()),
                    ", theme_file_extension: "@,
                    debug_text(x.theme_file_extension@),
                    " }"@,
                ]);
            }
            show_some(put_pieces(&v).as_str())
        },
        None => show_none(),
    }
}

fn show_texts(v: &Vec<String>) -> (r: String)
    ensures
        r@ == shown_list(quoted(texts(v@), debug_quotes())),
{
    let mut out: Vec<String> = Vec::new();
    let mut i: usize = 0;
    while i < v.len()
        invariant
            i <= v@.len(),
            out@.len() == i,
            forall|j: int| 0 <= j < i ==> (#[trigger] out@[j])@ == debug_text(v@[j]@),
        decreases v@.len() - i,
    {
        out.push(debug_string(v[i].as_str()));
        i += 1;
    }
    proof {
        assert(texts(out@) =~= quoted(texts(v@), debug_quotes()));
    }
    put_list(&out)
}

fn show_aliases(o: &Option<AliasMap>) -> (r: String)
    ensures
        r@ == shown_aliases(opt_aliases(*o), debug_quotes()),
{
    match o {
        Some(v) => {
            let ghost q = debug_quotes();
            let ghost m = alias_model(v@);
            let mut out: Vec<String> = Vec::new();
            let mut i: usize = 0;
            while i < v.len()
                invariant
                    q == debug_quotes(),
                    m == alias_model(v@),
                    i <= v@.len(),
                    out@.len() == i,
                    forall|j: int| 0 <= j < i ==> (#[trigger] out@[j])@ == shown_alias(m[j], q),
                decreases v@.len() - i,
            {
                assert(m[i as int] == (v@[i as int].0@, texts(v@[i as int].1@)));
                let name = debug_string(v[i].0.as_str());
                out.push(show_pair(name.as_str(), show_texts(&v[i].1).as_str()));
                i += 1;
            }
            proof {
                assert(texts(out@) =~= Seq::new(m.len(), |i: int| shown_alias(m[i], q)));
            }
            show_some(put_list(&out).as_str())
        },
        None => show_none(),
    }
}

fn show_resolution(r: StyleResolution) -> (t: String)
    ensures
        t@ == shown_resolution(r),
{
    match r {
        StyleResolution::PropertySpecificity => "PropertySpecificity".to_owned(),
        StyleResolution::ApplicationOrder => "ApplicationOrder".to_owned(),
        StyleResolution::LegacyExpandShorthands => "LegacyExpandShorthands".to_owned(),
    }
}

fn show_validation(m: PropertyValidationMode) -> (t: String)
    ensures
        t@ == shown_validation(m),
{
    match m {
        PropertyValidationMode::Silent => "Silent".to_owned(),
        PropertyValidationMode::Warn => "Warn".to_owned(),
        PropertyValidationMode::Throw => "Throw".to_owned(),
    }
}

fn show_development_pieces(o: &ResolvedOptions) -> (r: String)
    ensures
        r@ == pieces(development_pieces(*o, debug_quotes())),
{
    let mut v: Vec<String> = Vec::new();
    v.push("ResolvedOptions { class_name_prefix: ".to_owned());
    v.push(debug_string(o.class_name_prefix.as_str()));
    v.push(", dev: ".to_owned());
    v.push(show_bool(o.dev));
    v.push(", debug: ".to_owned());
    v.push(show_bool(o.debug));
    v.push(", test: ".to_owned());
    v.push(show_bool(o.test));
    v.push(", enable_debug_class_names: ".to_owned());
    v.push(show_bool(o.enable_debug_class_names));
    v.push(", enable_debug_data_prop: ".to_owned());
    v.push(show_bool(o.enable_debug_data_prop));
    v.push(", enable_dev_class_names: ".to_owned());
    v.push(show_bool(o.enable_dev_class_names));
    proof {
        assert(texts(v@) =~= development_pieces(*o, debug_quotes()));
    }
    put_pieces(&v)
}

fn show_value_pieces(o: &ResolvedOptions) -> (r: String)
    ensures
        r@ == pieces(value_pieces(*o, debug_quotes())),
{
    let mut v: Vec<String> = Vec::new();
    v.push(", enable_font_size_px_to_rem: ".to_owned());
    v.push(show_bool(o.enable_font_size_px_to_rem));
    v.push(", enable_inlined_conditional_merge: ".to_owned());
    v.push(show_bool(o.enable_inlined_conditional_merge));
    v.push(", enable_media_query_order: ".to_owned());
    v.push(show_bool(o.enable_media_query_order));
    v.push(", enable_minified_keys: ".to_owned());
    v.push(show_bool(o.enable_minified_keys));
    v.push(", enable_legacy_value_flipping: ".to_owned());
    v.push(show_bool(o.enable_legacy_value_flipping));
    v.push(", enable_logical_styles_polyfill: ".to_owned());
    v.push(show_bool(o.enable_logical_styles_polyfill));
    v.push(", enable_ltr_rtl_comments: ".to_owned());
    v.push(show_bool(o.enable_ltr_rtl_comments));
    proof {
        assert(texts(v@) =~= value_pieces(*o, debug_quotes()));
    }
    put_pieces(&v)
}

fn show_source_pieces(o: &ResolvedOptions) -> (r: String)
    ensures
        r@ == pieces(source_pieces(*o, debug_quotes())),
{
    let mut v: Vec<String> = Vec::new();
    v.push(", sx_prop_name: ".to_owned());
    v.push(show_opt(&o.sx_prop_name));
    v.push(", env: ".to_owned());
    v.push(show_value(&o.env));
    v.push(", import_sources: ".to_owned());
    v.push(show_imports(&o.import_sources));
    v.push(", runtime_injection: ".to_owned());
    v.push(show_injection(&o.runtime_injection));
    proof {
        assert(texts(v@) =~= source_pieces(*o, debug_quotes()));
    }
    put_pieces(&v)
}

fn show_mode_pieces(o: &ResolvedOptions) -> (r: String)
    ensures
        r@ == pieces(mode_pieces(*o, debug_quotes())),
{
    let mut v: Vec<String> = Vec::new();
    v.push(", style_resolution: ".to_owned());
    v.push(show_resolution(o.style_resolution));
    v.push(", property_validation_mode: ".to_owned());
    v.push(show_validation(o.property_validation_mode));
    v.push(", treeshake_compensation: ".to_owned());
    v.push(show_bool(o.treeshake_compensation));
    v.push(", unstable_module_resolution: ".to_owned());
    v.push(show_naming(&o.unstable_module_resolution));
    v.push(", aliases: ".to_owned());
    v.push(show_aliases(&o.aliases));
    v.push(", rewrite_aliases: ".to_owned());
    v.push(show_bool(o.rewrite_aliases));
    proof {
        assert(texts(v@) =~= mode_pieces(*o, debug_quotes()));
    }
    put_pieces(&v)
}

/// Gives the text of checked options.
pub fn capture_options(o: &ResolvedOptions) -> (r: String)
    ensures
        r@ == options_repr(*o),
{
    let ghost q = debug_quotes();
    let mut v: Vec<String> = Vec::new();
    v.push(show_development_pieces(o));
    v.push(show_value_pieces(o));
    v.push(show_source_pieces(o));
    v.push(show_mode_pieces(o));
    v.push(", cache_repr: ".to_owned());
    v.push(debug_string(""));
    v.push(" }".to_owned());
    proof {
        reveal_strlit("");
        assert(""@ =~= Seq::<char>::empty());
        assert(texts(v@) =~= seq![
            pieces(development_pieces(*o, q)),
            pieces(value_pieces(*o, q)),
            pieces(source_pieces(*o, q)),
            pieces(mode_pieces(*o, q)),
            ", cache_repr: "@,
            q(Seq::empty()),
            " }"@,
        ]);
    }
    put_pieces(&v)
}

/// Whether two sets of checked options hold the same, whatever text they carry.
pub open spec fn same_options(a: ResolvedOptions, b: ResolvedOptions) -> bool {
    &&& a.class_name_prefix@ == b.class_name_prefix@
    &&& a.dev == b.dev
    &&& a.debug == b.debug
    &&& a.test == b.test
    &&& a.enable_debug_class_names == b.enable_debug_class_names
    &&& a.enable_debug_data_prop == b.enable_debug_data_prop
    &&& a.enable_dev_class_names == b.enable_dev_class_names
    &&& a.enable_font_size_px_to_rem == b.enable_font_size_px_to_rem
    &&& a.enable_inlined_conditional_merge == b.enable_inlined_conditional_merge
    &&& a.enable_media_query_order == b.enable_media_query_order
    &&& a.enable_minified_keys == b.enable_minified_keys
    &&& a.enable_legacy_value_flipping == b.enable_legacy_value_flipping
    &&& a.enable_logical_styles_polyfill == b.enable_logical_styles_polyfill
    &&& a.enable_ltr_rtl_comments == b.enable_ltr_rtl_comments
    &&& opt_text(a.sx_prop_name) == opt_text(b.sx_prop_name)
    &&& a.env.model() == b.env.model()
    &&& import_models(a.import_sources@) == import_models(b.import_sources@)
    &&& injection_model(a.runtime_injection) == injection_model(b.runtime_injection)
    &&& a.style_resolution == b.style_resolution
    &&& a.property_validation_mode == b.property_validation_mode
    &&& a.treeshake_compensation == b.treeshake_compensation
    &&& resolution_model(a.unstable_module_resolution) == resolution_model(b.unstable_module_resolution)
    &&& opt_aliases(a.aliases) == opt_aliases(b.aliases)
    &&& a.rewrite_aliases == b.rewrite_aliases
}

proof fn lemma_development_follows(a: ResolvedOptions, b: ResolvedOptions, q: Quotes)
    requires
        same_options(a, b),
    ensures
        development_pieces(a, q) == development_pieces(b, q),
{
}

proof fn lemma_value_follows(a: ResolvedOptions, b: ResolvedOptions, q: Quotes)
    requires
        same_options(a, b),
    ensures
        value_pieces(a, q) == value_pieces(b, q),
{
}

proof fn lemma_source_follows(a: ResolvedOptions, b: ResolvedOptions, q: Quotes)
    requires
        same_options(a, b),
    ensures
        source_pieces(a, q) == source_pieces(b, q),
{
}

proof fn lemma_mode_follows(a: ResolvedOptions, b: ResolvedOptions, q: Quotes)
    requires
        same_options(a, b),
    ensures
        mode_pieces(a, q) == mode_pieces(b, q),
{
}

/// Options that hold the same have the same text.
pub proof fn same_options_have_one_text(a: ResolvedOptions, b: ResolvedOptions)
    requires
        same_options(a, b),
    ensures
        options_repr(a) == options_repr(b),
{
    lemma_text_follows(a, b, debug_quotes());
}

pub(crate) proof fn lemma_text_follows(a: ResolvedOptions, b: ResolvedOptions, q: Quotes)
    requires
        same_options(a, b),
    ensures
        shown_options(a, q) == shown_options(b, q),
{
    lemma_development_follows(a, b, q);
    lemma_value_follows(a, b, q);
    lemma_source_follows(a, b, q);
    lemma_mode_follows(a, b, q);
}

} // verus!
