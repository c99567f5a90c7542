//! Selectors for elements by their relation to a marked element.

use crate::errors::{said, ErrorCode, ErrorModel, StylexError};
use crate::options::ResolvedOptions;
use crate::shared::generate_rule::text_result;
use crate::shared::markers::{default_marker, default_marker_class_name, marker_entries};
use crate::text::{
    concat2, concat3, concat5, ends_with, has_prefix, has_suffix, starts_with, str_eq,
};
use crate::value::{keys_of, lemma_find_key, put, value_of, EvalValue, Val};
use vstd::prelude::*;

verus! {

/// How an element stands to the marked one.
#[derive(Debug, Clone, Copy, PartialEq, Eq)]
pub enum WhenRelation {
    Ancestor,
    Descendant,
    SiblingBefore,
    SiblingAfter,
    AnySibling,
}

/// The relation of the given name.
pub open spec fn relation_of(name: Seq<char>) -> Option<WhenRelation> {
    if name == "ancestor"@ {
        Some(WhenRelation::Ancestor)
    } else if name == "descendant"@ {
        Some(WhenRelation::Descendant)
    } else if name == "siblingBefore"@ {
        Some(WhenRelation::SiblingBefore)
    } else if name == "siblingAfter"@ {
        Some(WhenRelation::SiblingAfter)
    } else if name == "anySibling"@ {
        Some(WhenRelation::AnySibling)
    } else {
        None
    }
}

impl WhenRelation {
    /// Gives the relation of the given name.
    pub fn from_name(name: &str) -> (r: Option<WhenRelation>)
        ensures
            r == relation_of(name@),
    {
        if str_eq(name, "ancestor") {
            Some(WhenRelation::Ancestor)
        } else if str_eq(name, "descendant") {
            Some(WhenRelation::Descendant)
        } else if str_eq(name, "siblingBefore") {
            Some(WhenRelation::SiblingBefore)
        } else if str_eq(name, "siblingAfter") {
            Some(WhenRelation::SiblingAfter)
        } else if str_eq(name, "anySibling") {
            Some(WhenRelation::AnySibling)
        } else {
            None
        }
    }
}

/// The first key, from `i` on, that does not mark the object as compiled.
pub open spec fn other_key(keys: Seq<Seq<char>>, i: int) -> Option<Seq<char>>
    decreases keys.len() - i,
{
    if i < 0 || i >= keys.len() {
        None
    } else if keys[i] != "$$css"@ {
        Some(keys[i])
    } else {
        other_key(keys, i + 1)
    }
}

/// The text of a value inside a template.
pub open spec fn coerced(v: Val) -> Seq<char> {
    match v {
        Val::Str(s) => s,
        Val::Num(n) => n.text_spec(),
        Val::Bool(true) => "true"@,
        Val::Bool(false) => "false"@,
        Val::Null => "null"@,
        Val::Undefined => "undefined"@,
        Val::Obj(_) => "[object Object]"@,
        _ => ""@,
    }
}

/// The class name of a marker that is given by an object.
pub open spec fn object_marker(e: Seq<(Seq<char>, Val)>) -> Seq<char> {
    if value_of(e, "$$css"@) == Some(Val::Bool(true)) && other_key(keys_of(e), 0) is Some {
        other_key(keys_of(e), 0)->0
    } else {
        match value_of(e, "classNamePrefix"@) {
            Some(p) => if p is Null || p is Undefined {
                "default-marker"@
            } else {
                coerced(p) + "-default-marker"@
            },
            None => "default-marker"@,
        }
    }
}

/// The class name of a marker.
pub open spec fn marker_class(marker: Option<Val>, prefix: Seq<char>) -> Seq<char> {
    match marker {
        None | Some(Val::Null) | Some(Val::Undefined) => default_marker(prefix),
        Some(Val::Str(s)) => s,
        Some(Val::Obj(m)) => object_marker(m.entries),
        _ => "default-marker"@,
    }
}

/// What is wrong with a selector of a marked element, if anything is.
pub open spec fn selector_error(pseudo: Seq<char>) -> Option<ErrorModel> {
    if !(has_prefix(pseudo, ":"@) || has_prefix(pseudo, "["@)) {
        Some(
            said(
                ErrorCode::InvalidWhenSelector,
                "Pseudo selector must start with \":\" or \"[\""@,
            ),
        )
    } else if has_prefix(pseudo, "::"@) {
        Some(
            said(
                ErrorCode::InvalidWhenSelector,
                "Pseudo selector cannot start with \"::\" (pseudo-elements are not supported)"@,
            ),
        )
    } else if has_prefix(pseudo, "["@) && !has_suffix(pseudo, "]"@) {
        Some(
            said(ErrorCode::InvalidWhenSelector, "Attribute selector must end with \"]\""@),
        )
    } else {
        None
    }
}

/// The selector of an element by its relation to a marked one.
pub open spec fn relation_selector(relation: WhenRelation, marked: Seq<char>) -> Seq<char> {
    match relation {
        WhenRelation::Ancestor => ":where(."@ + marked + " *)"@,
        WhenRelation::Descendant => ":where(:has(."@ + marked + "))"@,
        WhenRelation::SiblingBefore => ":where(."@ + marked + " ~ *)"@,
        WhenRelation::SiblingAfter => ":where(:has(~ ."@ + marked + "))"@,
        WhenRelation::AnySibling => ":where(."@ + marked + " ~ *, :has(~ ."@ + marked + "))"@,
    }
}

/// What an optional reference to a value is, mathematically.
pub open spec fn opt_val(o: Option<&EvalValue>) -> Option<Val> {
    match o {
        Some(v) => Some(v.model()),
        None => None,
    }
}

/// Gives the selector of an element by its relation to a marked one.
pub fn when_selector(
    relation: WhenRelation,
    pseudo: &str,
    marker: Option<&EvalValue>,
    options: &ResolvedOptions,
) -> (r: Result<String, StylexError>)
    ensures
        text_result(r) == match selector_error(pseudo@) {
            Some(e) => Err::<Seq<char>, ErrorModel>(e),
            None => Ok(
                relation_selector(
                    relation,
                    marker_class(opt_val(marker), options.class_name_prefix@) + pseudo@,
                ),
            ),
        },
{
    if !(starts_with(pseudo, ":") || starts_with(pseudo, "[")) {
        return Err(
            StylexError::invalid_when_selector("Pseudo selector must start with \":\" or \"[\""),
        );
    }
    if starts_with(pseudo, "::") {
        return Err(
            StylexError::invalid_when_selector(
                "Pseudo selector cannot start with \"::\" (pseudo-elements are not supported)",
            ),
        );
    }
    if starts_with(pseudo, "[") && !ends_with(pseudo, "]") {
        return Err(StylexError::invalid_when_selector("Attribute selector must end with \"]\""));
    }
    let marked = concat2(resolve_marker_class(marker, options).as_str(), pseudo);
    let m = marked.as_str();
    Ok(
        match relation {
            WhenRelation::Ancestor => concat3(":where(.", m, " *)"),
            WhenRelation::Descendant => concat3(":where(:has(.", m, "))"),
            WhenRelation::SiblingBefore => concat3(":where(.", m, " ~ *)"),
            WhenRelation::SiblingAfter => concat3(":where(:has(~ .", m, "))"),
            WhenRelation::AnySibling => concat5(":where(.", m, " ~ *, :has(~ .", m, "))"),
        },
    )
}

/// Gives the class name of a marker.
pub fn resolve_marker_class(marker: Option<&EvalValue>, options: &ResolvedOptions) -> (r: String)
    ensures
        r@ == marker_class(opt_val(marker), options.class_name_prefix@),
{
    let obj = match marker {
        None => {
            return default_marker_class_name(options);
        },
        Some(EvalValue::Null) => {
            return default_marker_class_name(options);
        },
        Some(EvalValue::Undefined) => {
            return default_marker_class_name(options);
        },
        Some(EvalValue::Str(s)) => {
            return s.clone();
        },
        Some(EvalValue::Obj(obj)) => obj,
        _ => {
            return "default-marker".to_owned();
        },
    };
    let compiled = match obj.get("$$css") {
        Some(EvalValue::Bool(b)) => *b,
        _ => false,
    };
    if compiled {
        let ghost keys = keys_of(obj.pairs());
        let mut i: usize = 0;
        while i < obj.items.len()
            invariant
                keys == keys_of(obj.pairs()),
                value_of(obj.pairs(), "$$css"@) == Some(Val::Bool(true)),
                i <= obj.items@.len(),
                marker is Some,
                *(marker->0) == EvalValue::Obj(*obj),
                other_key(keys, 0) == other_key(keys, i as int),
            decreases obj.items@.len() - i,
        {
            assert(keys[i as int] == obj.items@[i as int].0@);
            if !str_eq(obj.items[i].0.as_str(), "$$css") {
                return obj.items[i].0.clone();
            }
            i += 1;
        }
    }
    match obj.get("classNamePrefix") {
        Some(EvalValue::Null) => "default-marker".to_owned(),
        Some(EvalValue::Undefined) => "default-marker".to_owned(),
        Some(p) => concat2(coerce_to_string(p).as_str(), "-default-marker"),
        None => "default-marker".to_owned(),
    }
}

/// Gives the text of a value inside a template.
pub fn coerce_to_string(value: &EvalValue) -> (r: String)
    ensures
        r@ == coerced(value.model()),
{
    match value {
        EvalValue::Str(s) => s.clone(),
        EvalValue::Num(n) => n.text(),
        EvalValue::Bool(b) => {
            if *b {
                "true".to_owned()
            } else {
                "false".to_owned()
            }
        },
        EvalValue::Null => "null".to_owned(),
        EvalValue::Undefined => "undefined".to_owned(),
        EvalValue::Obj(_) => "[object Object]".to_owned(),
        EvalValue::Arr(_) => "".to_owned(),
    }
}

/// A marker's object stands for its class name, unless that name spells the mark of
/// a compiled object.
pub proof fn marker_object_gives_its_class(id: Seq<char>)
    requires
        id != "$$css"@,
    ensures
        object_marker(marker_entries(id)) == id,
{
    let first = put(Seq::<(Seq<char>, Val)>::empty(), id, Val::Str(id));
    let e = marker_entries(id);
    reveal_strlit("$$css");
    assert(keys_of(Seq::<(Seq<char>, Val)>::empty()) =~= Seq::<Seq<char>>::empty());
    assert(first =~= seq![(id, Val::Str(id))]);
    lemma_find_key(keys_of(first), "$$css"@, 0);
    assert(keys_of(first)[0] == id);
    assert("$$css"@[0] == '$');
    assert(crate::value::array_index_of("$$css"@) is None) by {
        assert(!crate::text::digit("$$css"@[0]));
    }
    assert(e =~= seq![(id, Val::Str(id)), ("$$css"@, Val::Bool(true))]);
    assert(keys_of(e)[0] == id);
    assert(keys_of(e)[1] == "$$css"@);
    lemma_find_key(keys_of(e), "$$css"@, 0);
    assert(other_key(keys_of(e), 0) == Some(id));
}

} // verus!
