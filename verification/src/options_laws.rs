//! What does not count in the options that are given.

use crate::json::Json;
use crate::options::{
    absent_error, aliases_notice, aliases_value, bool_error, bool_value, env_error, env_value,
    given, import_error, import_value, injection_value, prefix_error, prefix_value,
    resolution_notice, resolution_of, style_resolution_error, style_resolution_of, sx_error,
    sx_value, validation_error, validation_of, CompilerOptions, ResolvedOptions,
};
use crate::options_repr::{same_options, same_options_have_one_text};
use vstd::prelude::*;

verus! {

/// An option without an explicit null.
pub open spec fn without_null(o: Option<Json>) -> Option<Json> {
    match o {
        Some(Json::Null) => None,
        _ => o,
    }
}

impl CompilerOptions {
    /// The options without those that are given as null.
    pub open spec fn without_nulls(self) -> CompilerOptions {
        CompilerOptions {
            dev: without_null(self.dev),
            test: without_null(self.test),
            debug: without_null(self.debug),
            class_name_prefix: without_null(self.class_name_prefix),
            import_sources: without_null(self.import_sources),
            runtime_injection: without_null(self.runtime_injection),
            style_resolution: without_null(self.style_resolution),
            property_validation_mode: without_null(self.property_validation_mode),
            unstable_module_resolution: without_null(self.unstable_module_resolution),
            treeshake_compensation: without_null(self.treeshake_compensation),
            sx_prop_name: without_null(self.sx_prop_name),
            enable_debug_class_names: without_null(self.enable_debug_class_names),
            enable_debug_data_prop: without_null(self.enable_debug_data_prop),
            enable_dev_class_names: without_null(self.enable_dev_class_names),
            enable_font_size_px_to_rem: without_null(self.enable_font_size_px_to_rem),
            enable_inlined_conditional_merge: without_null(self.enable_inlined_conditional_merge),
            enable_media_query_order: without_null(self.enable_media_query_order),
            enable_minified_keys: without_null(self.enable_minified_keys),
            enable_legacy_value_flipping: without_null(self.enable_legacy_value_flipping),
            enable_logical_styles_polyfill: without_null(self.enable_logical_styles_polyfill),
            enable_ltr_rtl_comments: without_null(self.enable_ltr_rtl_comments),
            aliases: without_null(self.aliases),
            rewrite_aliases: without_null(self.rewrite_aliases),
            debug_file_path: without_null(self.debug_file_path),
            env: without_null(self.env),
            included: without_null(self.included),
            excluded: without_null(self.excluded),
        }
    }

    /// Whether the same is given for every option.
    pub open spec fn gives_the_same(self, other: CompilerOptions) -> bool {
        &&& given(self.dev) == given(other.dev)
        &&& given(self.test) == given(other.test)
        &&& given(self.debug) == given(other.debug)
        &&& given(self.class_name_prefix) == given(other.class_name_prefix)
        &&& given(self.import_sources) == given(other.import_sources)
        &&& given(self.runtime_injection) == given(other.runtime_injection)
        &&& given(self.style_resolution) == given(other.style_resolution)
        &&& given(self.property_validation_mode) == given(other.property_validation_mode)
        &&& given(self.unstable_module_resolution) == given(other.unstable_module_resolution)
        &&& given(self.treeshake_compensation) == given(other.treeshake_compensation)
        &&& given(self.sx_prop_name) == given(other.sx_prop_name)
        &&& given(self.enable_debug_class_names) == given(other.enable_debug_class_names)
        &&& given(self.enable_debug_data_prop) == given(other.enable_debug_data_prop)
        &&& given(self.enable_dev_class_names) == given(other.enable_dev_class_names)
        &&& given(self.enable_font_size_px_to_rem) == given(other.enable_font_size_px_to_rem)
        &&& given(self.enable_inlined_conditional_merge) == given(other.enable_inlined_conditional_merge)
        &&& given(self.enable_media_query_order) == given(other.enable_media_query_order)
        &&& given(self.enable_minified_keys) == given(other.enable_minified_keys)
        &&& given(self.enable_legacy_value_flipping) == given(other.enable_legacy_value_flipping)
        &&& given(self.enable_logical_styles_polyfill) == given(other.enable_logical_styles_polyfill)
        &&& given(self.enable_ltr_rtl_comments) == given(other.enable_ltr_rtl_comments)
        &&& given(self.aliases) == given(other.aliases)
        &&& given(self.rewrite_aliases) == given(other.rewrite_aliases)
        &&& given(self.debug_file_path) == given(other.debug_file_path)
        &&& given(self.env) == given(other.env)
        &&& given(self.included) == given(other.included)
        &&& given(self.excluded) == given(other.excluded)
    }
}

proof fn lemma_switch(a: Option<Json>, b: Option<Json>)
    requires
        given(a) == given(b),
    ensures
        forall|name: Seq<char>| #[trigger] bool_error(name, a) == bool_error(name, b),
        forall|default: bool| #[trigger] bool_value(a, default) == bool_value(b, default),
        forall|name: Seq<char>| #[trigger] absent_error(name, a) == absent_error(name, b),
{
}

proof fn lemma_texts(a: Option<Json>, b: Option<Json>)
    requires
        given(a) == given(b),
    ensures
        sx_error(a) == sx_error(b),
        sx_value(a) == sx_value(b),
        prefix_error(a) == prefix_error(b),
        prefix_value(a) == prefix_value(b),
        style_resolution_of(a) == style_resolution_of(b),
        style_resolution_error(a) == style_resolution_error(b),
        validation_of(a) == validation_of(b),
        validation_error(a) == validation_error(b),
{
}

proof fn lemma_groups(a: Option<Json>, b: Option<Json>)
    requires
        given(a) == given(b),
    ensures
        import_error(a) == import_error(b),
        import_value(a) == import_value(b),
        injection_value(a) == injection_value(b),
        env_error(a) == env_error(b),
        env_value(a) == env_value(b),
{
}

proof fn lemma_names(a: Option<Json>, b: Option<Json>)
    requires
        given(a) == given(b),
    ensures
        resolution_of(a) == resolution_of(b),
        resolution_notice(a) == resolution_notice(b),
        aliases_value(a) == aliases_value(b),
        aliases_notice(a) == aliases_notice(b),
{
}

#[verifier::rlimit(60)]
proof fn lemma_same_checks(a: CompilerOptions, b: CompilerOptions)
    requires
        a.gives_the_same(b),
    ensures
        a.checks() == b.checks(),
        a.notices() == b.notices(),
{
    lemma_switch(a.dev, b.dev);
    lemma_switch(a.test, b.test);
    lemma_switch(a.debug, b.debug);
    lemma_texts(a.class_name_prefix, b.class_name_prefix);
    lemma_groups(a.import_sources, b.import_sources);
    lemma_groups(a.runtime_injection, b.runtime_injection);
    lemma_texts(a.style_resolution, b.style_resolution);
    lemma_texts(a.property_validation_mode, b.property_validation_mode);
    lemma_names(a.unstable_module_resolution, b.unstable_module_resolution);
    lemma_switch(a.treeshake_compensation, b.treeshake_compensation);
    lemma_texts(a.sx_prop_name, b.sx_prop_name);
    lemma_switch(a.enable_debug_class_names, b.enable_debug_class_names);
    lemma_switch(a.enable_debug_data_prop, b.enable_debug_data_prop);
    lemma_switch(a.enable_dev_class_names, b.enable_dev_class_names);
    lemma_switch(a.enable_font_size_px_to_rem, b.enable_font_size_px_to_rem);
    lemma_switch(a.enable_inlined_conditional_merge, b.enable_inlined_conditional_merge);
    lemma_switch(a.enable_media_query_order, b.enable_media_query_order);
    lemma_switch(a.enable_minified_keys, b.enable_minified_keys);
    lemma_switch(a.enable_legacy_value_flipping, b.enable_legacy_value_flipping);
    lemma_switch(a.enable_logical_styles_polyfill, b.enable_logical_styles_polyfill);
    lemma_switch(a.enable_ltr_rtl_comments, b.enable_ltr_rtl_comments);
    lemma_names(a.aliases, b.aliases);
    lemma_switch(a.rewrite_aliases, b.rewrite_aliases);
    lemma_switch(a.debug_file_path, b.debug_file_path);
    lemma_groups(a.env, b.env);
    lemma_switch(a.included, b.included);
    lemma_switch(a.excluded, b.excluded);
    assert(a.checks() =~= b.checks());
}

#[verifier::rlimit(60)]
proof fn lemma_same_outcome(a: CompilerOptions, b: CompilerOptions, o: ResolvedOptions)
    requires
        a.gives_the_same(b),
    ensures
        a.stands_for(o) == b.stands_for(o),
{
    lemma_switch(a.dev, b.dev);
    lemma_switch(a.test, b.test);
    lemma_switch(a.debug, b.debug);
    lemma_texts(a.class_name_prefix, b.class_name_prefix);
    lemma_groups(a.import_sources, b.import_sources);
    lemma_groups(a.runtime_injection, b.runtime_injection);
    lemma_texts(a.style_resolution, b.style_resolution);
    lemma_texts(a.property_validation_mode, b.property_validation_mode);
    lemma_names(a.unstable_module_resolution, b.unstable_module_resolution);
    lemma_switch(a.treeshake_compensation, b.treeshake_compensation);
    lemma_texts(a.sx_prop_name, b.sx_prop_name);
    lemma_switch(a.enable_debug_class_names, b.enable_debug_class_names);
    lemma_switch(a.enable_debug_data_prop, b.enable_debug_data_prop);
    lemma_switch(a.enable_dev_class_names, b.enable_dev_class_names);
    lemma_switch(a.enable_font_size_px_to_rem, b.enable_font_size_px_to_rem);
    lemma_switch(a.enable_inlined_conditional_merge, b.enable_inlined_conditional_merge);
    lemma_switch(a.enable_media_query_order, b.enable_media_query_order);
    lemma_switch(a.enable_minified_keys, b.enable_minified_keys);
    lemma_switch(a.enable_legacy_value_flipping, b.enable_legacy_value_flipping);
    lemma_switch(a.enable_logical_styles_polyfill, b.enable_logical_styles_polyfill);
    lemma_switch(a.enable_ltr_rtl_comments, b.enable_ltr_rtl_comments);
    lemma_names(a.aliases, b.aliases);
    lemma_switch(a.rewrite_aliases, b.rewrite_aliases);
    lemma_switch(a.debug_file_path, b.debug_file_path);
    lemma_groups(a.env, b.env);
    lemma_switch(a.included, b.included);
    lemma_switch(a.excluded, b.excluded);
}

proof fn lemma_null(o: Option<Json>)
    ensures
        given(without_null(o)) == given(o),
{
}

proof fn lemma_without_nulls(raw: CompilerOptions)
    ensures
        raw.without_nulls().gives_the_same(raw),
{
    lemma_null(raw.dev);
    lemma_null(raw.test);
    lemma_null(raw.debug);
    lemma_null(raw.class_name_prefix);
    lemma_null(raw.import_sources);
    lemma_null(raw.runtime_injection);
    lemma_null(raw.style_resolution);
    lemma_null(raw.property_validation_mode);
    lemma_null(raw.unstable_module_resolution);
    lemma_null(raw.treeshake_compensation);
    lemma_null(raw.sx_prop_name);
    lemma_null(raw.enable_debug_class_names);
    lemma_null(raw.enable_debug_data_prop);
    lemma_null(raw.enable_dev_class_names);
    lemma_null(raw.enable_font_size_px_to_rem);
    lemma_null(raw.enable_inlined_conditional_merge);
    lemma_null(raw.enable_media_query_order);
    lemma_null(raw.enable_minified_keys);
    lemma_null(raw.enable_legacy_value_flipping);
    lemma_null(raw.enable_logical_styles_polyfill);
    lemma_null(raw.enable_ltr_rtl_comments);
    lemma_null(raw.aliases);
    lemma_null(raw.rewrite_aliases);
    lemma_null(raw.debug_file_path);
    lemma_null(raw.env);
    lemma_null(raw.included);
    lemma_null(raw.excluded);
}

proof fn lemma_null_outcomes(raw: CompilerOptions)
    ensures
        forall|o: ResolvedOptions| #[trigger] raw.without_nulls().stands_for(o) == raw.stands_for(o),
{
    lemma_without_nulls(raw);
    let other = raw.without_nulls();
    assert forall|o: ResolvedOptions| #[trigger] other.stands_for(o) == raw.stands_for(o) by {
        lemma_same_outcome(other, raw, o);
    }
}

/// An option that is given as null reads as one that is absent: the same errors are found,
/// the same is said and the same options come out.
#[verifier::rlimit(60)]
pub proof fn null_reads_as_absent(raw: CompilerOptions)
    ensures
        raw.without_nulls().checks() == raw.checks(),
        raw.without_nulls().notices() == raw.notices(),
        forall|o: ResolvedOptions| #[trigger] raw.without_nulls().stands_for(o) == raw.stands_for(o),
{
    lemma_without_nulls(raw);
    lemma_same_checks(raw.without_nulls(), raw);
    lemma_null_outcomes(raw);
}

proof fn lemma_one_outcome(raw: CompilerOptions, a: ResolvedOptions, b: ResolvedOptions)
    requires
        raw.stands_for(a),
        raw.stands_for(b),
    ensures
        same_options(a, b),
{
}

/// The text of checked options rests on what was given alone.
pub proof fn texts_follow_what_is_given(
    raw: CompilerOptions,
    a: ResolvedOptions,
    b: ResolvedOptions,
)
    requires
        raw.stands_for(a),
        raw.stands_for(b),
    ensures
        a.cache_repr@ == b.cache_repr@,
{
    lemma_one_outcome(raw, a, b);
    same_options_have_one_text(a, b);
}

} // verus!
