//! Class names that mark elements for relational selectors.

use crate::hash::{hash, hash_text};
use crate::options::ResolvedOptions;
use crate::text::{concat2, concat3};
use crate::value::{put, EvalValue, JsObjectMap, ObjModel, Val};
use vstd::prelude::*;

verus! {

/// The class name of the marker that every file has.
pub open spec fn default_marker(prefix: Seq<char>) -> Seq<char> {
    prefix + "-default-marker"@
}

/// The class name of a marker that a file exports.
pub open spec fn marker_id(file: Seq<char>, export: Seq<char>, prefix: Seq<char>) -> Seq<char> {
    prefix + hash_text(file + "//"@ + export)
}

/// The compiled object of a marker.
pub open spec fn marker_entries(id: Seq<char>) -> Seq<(Seq<char>, Val)> {
    put(put(Seq::empty(), id, Val::Str(id)), "$$css"@, Val::Bool(true))
}

/// Gives the class name of the marker that every file has.
pub fn default_marker_class_name(options: &ResolvedOptions) -> (r: String)
    ensures
        r@ == default_marker(options.class_name_prefix@),
{
    concat2(options.class_name_prefix.as_str(), "-default-marker")
}

/// Gives the object of the marker that every file has.
pub fn default_marker_object(options: &ResolvedOptions) -> (r: JsObjectMap)
    ensures
        r.model() == (ObjModel {
            entries: marker_entries(default_marker(options.class_name_prefix@)),
            css: None,
        }),
{
    self_map_object(default_marker_class_name(options))
}

/// Gives the class name of a marker that a file exports.
pub fn define_marker_id(
    canonical_file_name: &str,
    export_name: &str,
    options: &ResolvedOptions,
) -> (r: String)
    ensures
        r@ == marker_id(canonical_file_name@, export_name@, options.class_name_prefix@),
{
    let id = concat3(canonical_file_name, "//", export_name);
    concat2(options.class_name_prefix.as_str(), hash(id.as_str()).as_str())
}

/// Gives the object of a marker that a file exports.
pub fn define_marker_object(
    canonical_file_name: &str,
    export_name: &str,
    options: &ResolvedOptions,
) -> (r: JsObjectMap)
    ensures
        r.model() == (ObjModel {
            entries: marker_entries(
                marker_id(canonical_file_name@, export_name@, options.class_name_prefix@),
            ),
            css: None,
        }),
{
    self_map_object(define_marker_id(canonical_file_name, export_name, options))
}

fn self_map_object(id: String) -> (r: JsObjectMap)
    ensures
        r.model() == (ObjModel { entries: marker_entries(id@), css: None }),
{
    let mut obj = JsObjectMap::new();
    obj.insert(id.clone(), EvalValue::Str(id.clone()));
    obj.set("$$css", EvalValue::Bool(true));
    obj
}

} // verus!
