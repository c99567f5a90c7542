//! Style values, rules and the calls that produce them.

pub mod create;
pub mod create_laws;
pub mod create_theme;
pub mod amount_laws;
pub mod css_value;
pub mod dashify;
pub mod define_consts;
pub mod define_vars;
pub mod dev_naming;
pub mod direction_laws;
pub mod dynamic;
pub mod dynamic_laws;
pub mod fallback_laws;
pub mod fallbacks;
pub mod flatten;
pub mod for_in;
pub mod frame_laws;
pub mod generate_rule;
pub mod grammar_laws;
pub mod group_laws;
pub mod keyframes;
pub mod markers;
pub mod media_grammar;
pub mod media_laws;
pub mod media_normal;
pub mod media_order;
pub mod media_query;
pub mod memo;
pub mod name_laws;
pub mod nested;
pub mod nested_laws;
pub mod normalize_value;
pub mod position_try;
pub mod priorities;
pub mod pseudo_sort;
pub mod rank_laws;
pub mod resolution;
pub mod rtl;
pub mod rule_laws;
pub mod rtl_laws;
pub mod side_laws;
pub mod split_css_value;
pub mod style_laws;
pub mod theme_laws;
pub mod transform_value;
pub mod types;
pub mod types_laws;
pub mod unit_laws;
pub mod var_cycles;
pub mod variable_laws;
pub mod vars_utils;
pub mod view_transition;
pub mod weight_laws;
pub mod when;
