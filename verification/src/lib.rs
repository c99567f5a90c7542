//! Compile-time logic of an atomic CSS compiler.

pub mod bignat;
pub mod default_laws;
pub mod errors;
pub mod export_laws;
pub mod file_memo;
pub mod hash;
pub mod json;
pub mod jsrt;
pub mod lookup_laws;
pub mod module_names;
pub mod module_resolution;
pub mod number;
pub mod number_laws;
pub mod options;
pub mod options_laws;
pub mod options_repr;
pub mod options_text_laws;
pub mod package_laws;
pub mod path_laws;
pub mod paths;
pub mod resolution_laws;
pub mod rules;
pub mod scope_builder;
pub mod scope_laws;
pub mod scope_walk;
pub mod scopes;
pub mod shared;
pub mod sum_laws;
pub mod text;
pub mod text_laws;
pub mod url_paths;
pub mod value;
