//! Values with a CSS type.

use crate::errors::{said, type_crash_model, ErrorCode, ErrorModel, StylexError};
use crate::number::{decimal, decimal_text, JsNumber};
use crate::text::{concat2, lookup, paired, str_eq};
use crate::value::{
    put, put_keeps_others, put_then_read, value_of, EvalValue, JsObjectMap, JsValue, ObjModel, Val,
};
use vstd::prelude::*;

verus! {

/// The names of the CSS types.
pub const TYPES_MEMBERS: [&'static str; 13] = [
    "angle",
    "color",
    "url",
    "image",
    "integer",
    "lengthPercentage",
    "length",
    "percentage",
    "number",
    "resolution",
    "time",
    "transformFunction",
    "transformList",
];

/// The syntax of each CSS type.
pub const SYNTAXES: [(&'static str, &'static str); 13] = [
    ("angle", "<angle>"),
    ("color", "<color>"),
    ("url", "<url>"),
    ("image", "<image>"),
    ("integer", "<integer>"),
    ("lengthPercentage", "<length-percentage>"),
    ("length", "<length>"),
    ("percentage", "<percentage>"),
    ("number", "<number>"),
    ("resolution", "<resolution>"),
    ("time", "<time>"),
    ("transformFunction", "<transform-function>"),
    ("transformList", "<transform-list>"),
];

/// The source text of the function that makes a value of each CSS type.
pub const SOURCES: [(&'static str, &'static str); 13] = [
    ("angle", "create(value) {\n    return new Angle(value);\n  }"),
    ("color", "create(value) {\n    return new Color(value);\n  }"),
    ("url", "create(value) {\n    return new Url(value);\n  }"),
    ("image", "create(value) {\n    return new Image(value);\n  }"),
    (
        "integer",
        "create(value) {\n    return new Integer(convertNumberToStringUsing(String)(value));\n  }",
    ),
    (
        "lengthPercentage",
        "createLength(value) {\n    return new LengthPercentage(convertNumberToLength(value));\n  }",
    ),
    ("length", "create(value) {\n    return new Length(convertNumberToLength(value));\n  }"),
    (
        "percentage",
        "create(value) {\n    return new Percentage(convertNumberToPercentage(value));\n  }",
    ),
    ("number", "create(value) {\n    return new Num(convertNumberToBareString(value));\n  }"),
    ("resolution", "create(value) {\n    return new Resolution(value);\n  }"),
    ("time", "create(value) {\n    return new Time(value);\n  }"),
    ("transformFunction", "create(value) {\n    return new TransformFunction(value);\n  }"),
    ("transformList", "create(value) {\n    return new TransformList(value);\n  }"),
];

/// A value with its CSS type.
#[derive(Debug, PartialEq)]
pub struct CssType {
    pub syntax: String,
    pub value: EvalValue,
}

impl Clone for CssType {
    fn clone(&self) -> (r: Self)
        ensures
            r.syntax@ == self.syntax@,
            r.value.model() == self.value.model(),
    {
        CssType { syntax: self.syntax.clone(), value: self.value.clone() }
    }
}

/// How a CSS type writes numbers.
#[derive(Debug, Clone, Copy, PartialEq, Eq)]
pub enum Conversion {
    Raw,
    Bare,
    Length,
    Percentage,
}

/// How the CSS type of the given name writes numbers.
pub open spec fn conversion_of(kind: Seq<char>) -> Conversion {
    if kind == "integer"@ || kind == "number"@ {
        Conversion::Bare
    } else if kind == "lengthPercentage"@ || kind == "length"@ {
        Conversion::Length
    } else if kind == "percentage"@ {
        Conversion::Percentage
    } else {
        Conversion::Raw
    }
}

/// A number as a CSS type writes it.
pub open spec fn number_written(n: JsNumber, c: Conversion) -> Seq<char> {
    match c {
        Conversion::Length => if !n.nan() && n.magnitude() == 0 {
            "0"@
        } else {
            n.text_spec() + "px"@
        },
        Conversion::Percentage => if !n.nan() && n.magnitude() == 0 {
            "0"@
        } else {
            n.scaled_spec(100).text_spec() + "%"@
        },
        _ => n.text_spec(),
    }
}

/// The error for `null` in a type that writes numbers.
pub open spec fn null_error() -> ErrorModel {
    type_crash_model("a null value inside a numeric types.* wrapper"@)
}

/// A value with its numbers written as a CSS type writes them.
pub open spec fn converted(v: Val, c: Conversion) -> Result<Val, ErrorModel>
    decreases v, 0int,
{
    if c == Conversion::Raw {
        Ok(v)
    } else {
        match v {
            Val::Num(n) => Ok(Val::Str(number_written(n, c))),
            Val::Null => Err(null_error()),
            Val::Obj(m) => match entries_converted(m.entries, c, m.entries.len() as int) {
                Ok(e) => Ok(Val::Obj(ObjModel { entries: e, css: None })),
                Err(x) => Err(x),
            },
            Val::Arr(items) => match items_converted(items, c, items.len() as int) {
                Ok(e) => Ok(Val::Obj(ObjModel { entries: e, css: None })),
                Err(x) => Err(x),
            },
            _ => Ok(v),
        }
    }
}

/// The first `k` entries with their numbers written as a CSS type writes them.
pub open spec fn entries_converted(e: Seq<(Seq<char>, Val)>, c: Conversion, k: int) -> Result<
    Seq<(Seq<char>, Val)>,
    ErrorModel,
>
    decreases e, k,
{
    if k <= 0 || k > e.len() {
        Ok(Seq::empty())
    } else {
        match entries_converted(e, c, k - 1) {
            Err(x) => Err(x),
            Ok(done) => match converted(e[k - 1].1, c) {
                Ok(v) => Ok(put(done, e[k - 1].0, v)),
                Err(x) => Err(x),
            },
        }
    }
}

/// The first `k` items, under their positions, with their numbers written as a CSS
/// type writes them.
pub open spec fn items_converted(v: Seq<Val>, c: Conversion, k: int) -> Result<
    Seq<(Seq<char>, Val)>,
    ErrorModel,
>
    decreases v, k,
{
    if k <= 0 || k > v.len() {
        Ok(Seq::empty())
    } else {
        match items_converted(v, c, k - 1) {
            Err(x) => Err(x),
            Ok(done) => match converted(v[k - 1], c) {
                Ok(x) => Ok(put(done, decimal((k - 1) as nat), x)),
                Err(x) => Err(x),
            },
        }
    }
}

proof fn lemma_entries_failure(e: Seq<(Seq<char>, Val)>, c: Conversion, i: int, k: int)
    requires
        0 <= i <= k <= e.len(),
        entries_converted(e, c, i) is Err,
    ensures
        entries_converted(e, c, k) == entries_converted(e, c, i),
    decreases k,
{
    if i < k {
        lemma_entries_failure(e, c, i, k - 1);
    }
}

proof fn lemma_items_failure(v: Seq<Val>, c: Conversion, i: int, k: int)
    requires
        0 <= i <= k <= v.len(),
        items_converted(v, c, i) is Err,
    ensures
        items_converted(v, c, k) == items_converted(v, c, i),
    decreases k,
{
    if i < k {
        lemma_items_failure(v, c, i, k - 1);
    }
}

/// The object of a value with a CSS type.
pub open spec fn typed(value: Val, syntax: Seq<char>) -> Val {
    Val::Obj(
        ObjModel {
            entries: put(put(Seq::empty(), "value"@, value), "syntax"@, Val::Str(syntax)),
            css: Some(syntax),
        },
    )
}

/// What the function that makes values of a CSS type gives.
pub open spec fn css_type_made(kind: Seq<char>, arg: Val) -> Result<Val, ErrorModel> {
    match paired(kind, SYNTAXES@) {
        None => Err(said(ErrorCode::UnsupportedApi, "types.*"@ + " is not supported."@)),
        Some(syntax) => match converted(arg, conversion_of(kind)) {
            Ok(v) => Ok(typed(v, syntax)),
            Err(x) => Err(x),
        },
    }
}

/// What a value or an error is, mathematically.
pub open spec fn value_result(r: Result<EvalValue, StylexError>) -> Result<Val, ErrorModel> {
    match r {
        Ok(v) => Ok(v.model()),
        Err(e) => Err(e.model()),
    }
}

/// The syntax and the value of an object with a CSS type.
pub open spec fn css_type_of(v: Val) -> Option<(Seq<char>, Val)> {
    match v {
        Val::Obj(m) => if m.css is None {
            None
        } else {
            match (value_of(m.entries, "syntax"@), value_of(m.entries, "value"@)) {
                (Some(Val::Str(s)), Some(inner)) => if inner is Null || inner is Undefined {
                    None
                } else {
                    Some((s, inner))
                },
                _ => None,
            }
        },
        _ => None,
    }
}

fn conversion(kind: &str) -> (r: Conversion)
    ensures
        r == conversion_of(kind@),
{
    if str_eq(kind, "integer") || str_eq(kind, "number") {
        Conversion::Bare
    } else if str_eq(kind, "lengthPercentage") || str_eq(kind, "length") {
        Conversion::Length
    } else if str_eq(kind, "percentage") {
        Conversion::Percentage
    } else {
        Conversion::Raw
    }
}

fn write_number(n: JsNumber, c: Conversion) -> (r: String)
    ensures
        r@ == number_written(n, c),
{
    match c {
        Conversion::Length => {
            if !n.is_nan() && n.is_zero() {
                "0".to_owned()
            } else {
                concat2(n.text().as_str(), "px")
            }
        },
        Conversion::Percentage => {
            if !n.is_nan() && n.is_zero() {
                "0".to_owned()
            } else {
                concat2(n.scaled(100).text().as_str(), "%")
            }
        },
        _ => n.text(),
    }
}

/// Makes a value of the CSS type of the given name.
pub fn create_css_type(kind: &str, args: &[EvalValue]) -> (r: Result<EvalValue, StylexError>)
    ensures
        value_result(r) == css_type_made(
            kind@,
            if args@.len() > 0 {
                args@[0].model()
            } else {
                Val::Undefined
            },
        ),
{
    let syntax = match lookup(kind, &SYNTAXES) {
        Some(s) => s,
        None => {
            return Err(StylexError::unsupported_api("types.*"));
        },
    };
    let raw = if args.len() > 0 {
        args[0].clone()
    } else {
        EvalValue::Undefined
    };
    let value = match convert(&raw, conversion(kind)) {
        Ok(v) => v,
        Err(e) => {
            return Err(e);
        },
    };
    let mut obj = JsObjectMap::new();
    obj.set("value", value);
    obj.set("syntax", EvalValue::Str(syntax.to_owned()));
    obj.set_css_type(syntax.to_owned());
    Ok(EvalValue::Obj(obj))
}

fn convert(value: &EvalValue, c: Conversion) -> (r: Result<EvalValue, StylexError>)
    ensures
        value_result(r) == converted(value.model(), c),
    decreases value,
{
    match c {
        Conversion::Raw => {
            return Ok(value.clone());
        },
        _ => {},
    }
    match value {
        EvalValue::Num(n) => Ok(EvalValue::Str(write_number(*n, c))),
        EvalValue::Null => Err(
            StylexError::upstream_type_crash("a null value inside a numeric types.* wrapper"),
        ),
        EvalValue::Obj(map) => {
            let ghost e = map.pairs();
            let mut out = JsObjectMap::new();
            let mut i: usize = 0;
            while i < map.items.len()
                invariant
                    *value == EvalValue::Obj(*map),
                    e == map.pairs(),
                    c != Conversion::Raw,
                    i <= map.items@.len(),
                    out.model().css is None,
                    entries_converted(e, c, i as int) == Ok::<Seq<(Seq<char>, Val)>, ErrorModel>(
                        out.pairs(),
                    ),
                decreases map.items@.len() - i,
            {
                proof {
                    assert(decreases_to!(*value => value->Obj_0));
                    assert(decreases_to!(*map => map.items));
                    assert(decreases_to!(map.items => map.items@[i as int]));
                    assert(e[i as int] == (
                        map.items@[i as int].0@,
                        map.items@[i as int].1.model(),
                    ));
                }
                match convert(&map.items[i].1, c) {
                    Ok(v) => {
                        out.set(map.items[i].0.as_str(), v);
                    },
                    Err(x) => {
                        proof {
                            lemma_entries_failure(e, c, i + 1, e.len() as int);
                        }
                        return Err(x);
                    },
                }
                i += 1;
            }
            proof {
                assert(out.model() =~= ObjModel { entries: out.pairs(), css: None });
            }
            Ok(EvalValue::Obj(out))
        },
        EvalValue::Arr(items) => {
            let ghost all = value.model()->Arr_0;
            let mut out = JsObjectMap::new();
            let mut i: usize = 0;
            while i < items.len()
                invariant
                    *value == EvalValue::Arr(*items),
                    all == value.model()->Arr_0,
                    c != Conversion::Raw,
                    i <= items@.len(),
                    out.model().css is None,
                    items_converted(all, c, i as int) == Ok::<Seq<(Seq<char>, Val)>, ErrorModel>(
                        out.pairs(),
                    ),
                decreases items@.len() - i,
            {
                proof {
                    assert(decreases_to!(*value => value->Arr_0));
                    assert(decreases_to!(*items => items@[i as int]));
                    assert(all[i as int] == items@[i as int].model());
                }
                match convert(&items[i], c) {
                    Ok(v) => {
                        out.insert(decimal_text(i as u64), v);
                    },
                    Err(x) => {
                        proof {
                            lemma_items_failure(all, c, i + 1, all.len() as int);
                        }
                        return Err(x);
                    },
                }
                i += 1;
            }
            proof {
                assert(out.model() =~= ObjModel { entries: out.pairs(), css: None });
            }
            Ok(EvalValue::Obj(out))
        },
        _ => Ok(value.clone()),
    }
}

/// Gives the source text of the function that makes values of a CSS type.
pub fn types_member_source(kind: &str) -> (r: Option<&'static str>)
    ensures
        match r {
            Some(s) => paired(kind@, SOURCES@) == Some(s@),
            None => paired(kind@, SOURCES@) is None,
        },
{
    lookup(kind, &SOURCES)
}

/// Gives the CSS type of a value that has one.
pub fn as_css_type(value: &EvalValue) -> (r: Option<CssType>)
    ensures
        match r {
            Some(t) => css_type_of(value.model()) == Some((t.syntax@, t.value.model())),
            None => css_type_of(value.model()) is None,
        },
{
    let map = match value {
        EvalValue::Obj(map) => map,
        _ => {
            return None;
        },
    };
    if map.css.is_none() {
        assert(map.model().css is None);
        return None;
    }
    match (map.get("syntax"), map.get("value")) {
        (Some(EvalValue::Str(syntax)), Some(inner)) => match inner {
            EvalValue::Null => None,
            EvalValue::Undefined => None,
            _ => Some(CssType { syntax: syntax.clone(), value: inner.clone() }),
        },
        _ => None,
    }
}

/// Gives the CSS type of a value of the evaluator that has one.
pub fn as_css_type_js(value: &JsValue) -> (r: Option<(String, JsValue)>)
    ensures
        match r {
            Some(t) => css_type_of(value.model()) == Some((t.0@, t.1.model())),
            None => css_type_of(value.model()) is None,
        },
{
    let obj = match value {
        JsValue::Obj(obj) => obj,
        _ => {
            return None;
        },
    };
    if obj.css.is_none() {
        assert(obj.model().css is None);
        return None;
    }
    match (obj.get("syntax"), obj.get("value")) {
        (Some(JsValue::Str(syntax)), Some(inner)) => match inner {
            JsValue::Null => None,
            JsValue::Undefined => None,
            _ => Some((syntax.clone(), inner.clone())),
        },
        _ => None,
    }
}

/// What was made as a CSS type is one, with the syntax of its name, unless it is
/// `null` or undefined.
pub proof fn made_types_are_types(kind: Seq<char>, arg: Val)
    requires
        css_type_made(kind, arg) is Ok,
        !(converted(arg, conversion_of(kind))->Ok_0 is Null),
        !(converted(arg, conversion_of(kind))->Ok_0 is Undefined),
    ensures
        css_type_of(css_type_made(kind, arg)->Ok_0) == Some(
            (paired(kind, SYNTAXES@)->0, converted(arg, conversion_of(kind))->Ok_0),
        ),
{
    let syntax = paired(kind, SYNTAXES@)->0;
    let v = converted(arg, conversion_of(kind))->Ok_0;
    let none = Seq::<(Seq<char>, Val)>::empty();
    reveal_strlit("value");
    reveal_strlit("syntax");
    assert("value"@[0] != "syntax"@[0]);
    put_then_read(none, "value"@, v);
    put_then_read(put(none, "value"@, v), "syntax"@, Val::Str(syntax));
    put_keeps_others(put(none, "value"@, v), "syntax"@, Val::Str(syntax), "value"@);
}

} // verus!
