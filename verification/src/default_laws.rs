//! What options are where nothing is given, and what may be given for them.

use crate::json::{Json, JsonModel};
use crate::options::{
    first_error, given, import_item_error, import_models, import_source_of, resolution_of,
    CompilerOptions, ImportSourceModel, PropertyValidationMode, ResolvedOptions, StyleResolution,
};
use vstd::prelude::*;

verus! {

/// Whether nothing was given for an option.
pub open spec fn unsaid(o: Option<Json>) -> bool {
    match o {
        None => true,
        Some(v) => v.model() is Null,
    }
}

/// Whether an option was given.
pub open spec fn said_to_be(o: Option<Json>, v: JsonModel) -> bool {
    o matches Some(g) && g.model() == v
}

/// Whether an option was given as a text.
pub open spec fn spoken(o: Option<Json>, s: Seq<char>) -> bool {
    said_to_be(o, JsonModel::Str(s))
}

/// Whether an option was given as a list.
pub open spec fn enumerated(o: Option<Json>, items: Seq<JsonModel>) -> bool {
    said_to_be(o, JsonModel::Arr(items))
}

/// Whether an option is `b`: as it was given, or by default.
pub open spec fn switched(o: Option<Json>, default: bool, b: bool) -> bool {
    &&& unsaid(o) ==> b == default
    &&& said_to_be(o, JsonModel::Bool(true)) ==> b
    &&& said_to_be(o, JsonModel::Bool(false)) ==> !b
}

/// Switches are as they were given. Where nothing was given they are off, but for merging
/// conditions inline, ordering media queries and keeping keys short, which are on, and but for
/// what debugging and development bring with them.
pub proof fn switches_follow_what_is_given(raw: CompilerOptions, o: ResolvedOptions)
    requires
        raw.stands_for(o),
    ensures
        switched(raw.dev, false, o.dev),
        switched(raw.debug, o.dev, o.debug),
        switched(raw.test, false, o.test),
        switched(raw.enable_debug_class_names, false, o.enable_debug_class_names),
        switched(raw.enable_debug_data_prop, o.debug, o.enable_debug_data_prop),
        switched(raw.enable_dev_class_names, o.dev, o.enable_dev_class_names),
        switched(raw.enable_font_size_px_to_rem, false, o.enable_font_size_px_to_rem),
        switched(raw.enable_inlined_conditional_merge, true, o.enable_inlined_conditional_merge),
        switched(raw.enable_media_query_order, true, o.enable_media_query_order),
        switched(raw.enable_minified_keys, true, o.enable_minified_keys),
        switched(raw.enable_legacy_value_flipping, false, o.enable_legacy_value_flipping),
        switched(raw.enable_logical_styles_polyfill, false, o.enable_logical_styles_polyfill),
        switched(raw.treeshake_compensation, false, o.treeshake_compensation),
        switched(raw.rewrite_aliases, false, o.rewrite_aliases),
{
}

/// Ways and names are those that were given, each by its own word. Where nothing was given,
/// classes are prefixed with `x`, styles are given by `sx`, the more specific property wins and
/// refused properties are passed over in silence.
pub proof fn words_choose_their_ways(raw: CompilerOptions, o: ResolvedOptions)
    requires
        raw.stands_for(o),
    ensures
        unsaid(raw.class_name_prefix) ==> o.class_name_prefix@ == "x"@,
        forall|s: Seq<char>|
            #[trigger] spoken(raw.class_name_prefix, s) ==> o.class_name_prefix@ == s,
        unsaid(raw.sx_prop_name) ==> o.sx_prop_name is Some && o.sx_prop_name->0@ == "sx"@,
        forall|s: Seq<char>|
            #[trigger] spoken(raw.sx_prop_name, s) ==> o.sx_prop_name is Some
                && o.sx_prop_name->0@ == s,
        said_to_be(raw.sx_prop_name, JsonModel::Bool(false)) ==> o.sx_prop_name is None,
        o.style_resolution == StyleResolution::PropertySpecificity <==> unsaid(raw.style_resolution)
            || said_to_be(raw.style_resolution, JsonModel::Str("property-specificity"@)),
        o.style_resolution == StyleResolution::ApplicationOrder <==> said_to_be(
            raw.style_resolution,
            JsonModel::Str("application-order"@),
        ),
        o.style_resolution == StyleResolution::LegacyExpandShorthands <==> said_to_be(
            raw.style_resolution,
            JsonModel::Str("legacy-expand-shorthands"@),
        ),
        o.property_validation_mode == PropertyValidationMode::Silent <==> unsaid(
            raw.property_validation_mode,
        ) || said_to_be(raw.property_validation_mode, JsonModel::Str("silent"@)),
        o.property_validation_mode == PropertyValidationMode::Throw <==> said_to_be(
            raw.property_validation_mode,
            JsonModel::Str("throw"@),
        ),
        o.property_validation_mode == PropertyValidationMode::Warn <==> said_to_be(
            raw.property_validation_mode,
            JsonModel::Str("warn"@),
        ),
{
    reveal_strlit("property-specificity");
    reveal_strlit("application-order");
    reveal_strlit("legacy-expand-shorthands");
    reveal_strlit("silent");
    reveal_strlit("throw");
    reveal_strlit("warn");
    assert("property-specificity"@.len() == 20 && "application-order"@.len() == 17);
    assert("legacy-expand-shorthands"@.len() == 24);
    assert("silent"@.len() == 6 && "throw"@.len() == 5 && "warn"@.len() == 4);
}

/// Styles come from both names of the library and from every further source that was given, in
/// its order.
pub proof fn sources_are_added(raw: CompilerOptions, o: ResolvedOptions)
    requires
        raw.stands_for(o),
    ensures
        import_models(o.import_sources@).len() >= 2,
        import_models(o.import_sources@)[0] == ImportSourceModel::Plain("@stylexjs/stylex"@),
        import_models(o.import_sources@)[1] == ImportSourceModel::Plain("stylex"@),
        unsaid(raw.import_sources) ==> o.import_sources@.len() == 2,
        forall|items: Seq<JsonModel>, i: int|
            #![trigger enumerated(raw.import_sources, items), items[i]]
            enumerated(raw.import_sources, items) && 0 <= i < items.len() ==> {
                &&& o.import_sources@.len() == items.len() + 2
                &&& items[i] matches JsonModel::Str(s) ==> import_models(o.import_sources@)[i + 2]
                    == ImportSourceModel::Plain(s)
            },
{
}

/// Whether a switch is one.
pub open spec fn switch(o: Option<Json>) -> bool {
    unsaid(o) || said_to_be(o, JsonModel::Bool(true)) || said_to_be(o, JsonModel::Bool(false))
}

/// Whether an option is a text.
pub open spec fn worded(o: Option<Json>) -> bool {
    unsaid(o) || (o matches Some(g) && g.model() is Str)
}

/// Whether what was given can be given.
pub open spec fn acceptable(raw: CompilerOptions) -> bool {
    &&& switch(raw.dev) && switch(raw.debug) && switch(raw.test)
    &&& switch(raw.enable_debug_class_names) && switch(raw.enable_debug_data_prop)
    &&& switch(raw.enable_dev_class_names) && switch(raw.enable_font_size_px_to_rem)
    &&& switch(raw.enable_inlined_conditional_merge) && switch(raw.enable_minified_keys)
    &&& switch(raw.enable_media_query_order) && switch(raw.enable_legacy_value_flipping)
    &&& switch(raw.enable_logical_styles_polyfill) && switch(raw.treeshake_compensation)
    &&& switch(raw.enable_ltr_rtl_comments) && !said_to_be(
        raw.enable_ltr_rtl_comments,
        JsonModel::Bool(true),
    )
    &&& worded(raw.sx_prop_name) || said_to_be(raw.sx_prop_name, JsonModel::Bool(false))
    &&& worded(raw.class_name_prefix)
    &&& unsaid(raw.import_sources) || (raw.import_sources matches Some(g) && g.model() matches JsonModel::Arr(
        items,
    ) && forall|i: int| 0 <= i < items.len() ==> import_source_of(#[trigger] items[i]) is Some)
    &&& unsaid(raw.style_resolution) || said_to_be(
        raw.style_resolution,
        JsonModel::Str("property-specificity"@),
    ) || said_to_be(raw.style_resolution, JsonModel::Str("application-order"@)) || said_to_be(
        raw.style_resolution,
        JsonModel::Str("legacy-expand-shorthands"@),
    )
    &&& unsaid(raw.property_validation_mode) || said_to_be(
        raw.property_validation_mode,
        JsonModel::Str("silent"@),
    ) || said_to_be(raw.property_validation_mode, JsonModel::Str("throw"@)) || said_to_be(
        raw.property_validation_mode,
        JsonModel::Str("warn"@),
    )
    &&& resolution_of(raw.unstable_module_resolution) is Ok
    &&& unsaid(raw.env) || (raw.env matches Some(g) && g.model() is Obj)
    &&& unsaid(raw.debug_file_path) && unsaid(raw.included) && unsaid(raw.excluded)
}

proof fn lemma_items(items: Seq<JsonModel>, i: int)
    requires
        0 <= i,
    ensures
        import_item_error(items, i) is None <==> forall|j: int|
            i <= j < items.len() ==> import_source_of(#[trigger] items[j]) is Some,
    decreases items.len() - i,
{
    if i < items.len() {
        lemma_items(items, i + 1);
        if import_source_of(items[i]) is Some {
            if import_item_error(items, i + 1) is None {
                assert forall|j: int| i <= j < items.len() implies import_source_of(
                    #[trigger] items[j],
                ) is Some by {
                    assert(j == i || i + 1 <= j);
                }
            }
        }
    }
}

proof fn lemma_all_clear(raw: CompilerOptions, i: int)
    requires
        0 <= i <= raw.checks().len(),
    ensures
        first_error(raw.checks(), i) is None <==> forall|j: int|
            i <= j < raw.checks().len() ==> (#[trigger] raw.checks()[j]) is None,
    decreases raw.checks().len() - i,
{
    let s = raw.checks();
    if i < s.len() {
        lemma_all_clear(raw, i + 1);
        if s[i] is None && first_error(s, i + 1) is None {
            assert forall|j: int| i <= j < s.len() implies (#[trigger] s[j]) is None by {
                assert(j == i || i + 1 <= j);
            }
        }
    }
}

/// Options are refused exactly where one of them is not of its kind, or is one that is not
/// supported.
pub proof fn options_of_other_kinds_are_refused(raw: CompilerOptions)
    ensures
        first_error(raw.checks(), 0) is None <==> acceptable(raw),
{
    let s = raw.checks();
    lemma_all_clear(raw, 0);
    match given(raw.import_sources) {
        Some(JsonModel::Arr(items)) => {
            lemma_items(items, 0);
        },
        _ => {},
    }
    assert(s.len() == 25);
    if first_error(s, 0) is None {
        assert(s[0] is None && s[1] is None && s[2] is None && s[3] is None && s[4] is None);
        assert(s[5] is None && s[6] is None && s[7] is None && s[8] is None && s[9] is None);
        assert(s[10] is None && s[11] is None && s[12] is None && s[13] is None && s[14] is None);
        assert(s[15] is None && s[16] is None && s[17] is None && s[18] is None && s[19] is None);
        assert(s[20] is None && s[21] is None && s[22] is None && s[23] is None && s[24] is None);
    }
    if acceptable(raw) {
        assert(s[0] is None && s[1] is None && s[2] is None && s[3] is None && s[4] is None);
        assert(s[5] is None && s[6] is None && s[7] is None && s[8] is None && s[9] is None);
        assert(s[10] is None && s[11] is None && s[12] is None && s[13] is None && s[14] is None);
        assert(s[15] is None && s[16] is None && s[17] is None && s[18] is None && s[19] is None);
        assert(s[20] is None && s[21] is None && s[22] is None && s[23] is None && s[24] is None);
    }
}

} // verus!
