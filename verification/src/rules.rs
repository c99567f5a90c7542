//! Compiled rules and their metadata.

use crate::json::{member, Json, JsonModel};
use crate::number::{float_prefix, parse_float_prefix, JsNumber, INFINITE};
use crate::text::str_eq;
use crate::value::{find_key, keys_of, opt_text, EvalValue, JsObjectMap, Val};
use vstd::prelude::*;

verus! {

/// One compiled rule.
#[derive(Debug, PartialEq)]
pub struct StylexRule {
    pub class_name: String,
    pub ltr: String,
    pub rtl: Option<String>,
    pub const_key: Option<String>,
    pub const_val: Option<Json>,
    pub priority: JsNumber,
}

/// What a rule is, mathematically.
#[verifier::ext_equal]
pub struct RuleModel {
    pub class_name: Seq<char>,
    pub ltr: Seq<char>,
    pub rtl: Option<Seq<char>>,
    pub const_key: Option<Seq<char>>,
    pub const_val: Option<JsonModel>,
    pub priority: JsNumber,
}

/// The view of an optional JSON value.
pub open spec fn opt_json(o: Option<Json>) -> Option<JsonModel> {
    match o {
        Some(v) => Some(v.model()),
        None => None,
    }
}

/// What a sequence of rules is, mathematically.
pub open spec fn rule_models(v: Seq<StylexRule>) -> Seq<RuleModel> {
    Seq::new(v.len(), |i: int| v[i].model())
}

/// A rule without constants.
pub open spec fn plain_rule(
    class_name: Seq<char>,
    ltr: Seq<char>,
    rtl: Option<Seq<char>>,
    priority: JsNumber,
) -> RuleModel {
    RuleModel { class_name, ltr, rtl, const_key: None, const_val: None, priority }
}

/// The mark for a number that JSON cannot carry.
pub open spec fn tag_of(x: JsNumber) -> Option<JsonModel> {
    if x.finite() {
        None
    } else {
        Some(JsonModel::Obj(seq![("__jsnum"@, JsonModel::Str(x.text_spec()))]))
    }
}

/// Marks a number that JSON cannot carry.
pub fn non_finite_to_tag(x: JsNumber) -> (r: Option<Json>)
    ensures
        opt_json(r) == tag_of(x),
{
    if x.is_finite() {
        return None;
    }
    let mut entries: Vec<(String, Json)> = Vec::new();
    entries.push(("__jsnum".to_owned(), Json::Str(x.text())));
    let r = Json::Obj(entries);
    proof {
        reveal_with_fuel(Json::model, 3);
        assert(r.model()->Obj_0 =~= seq![("__jsnum"@, JsonModel::Str(x.text_spec()))]);
    }
    Some(r)
}

/// Bits that hold no number.
pub const NOT_A_NUMBER: u64 = 0x7ff8_0000_0000_0000;

/// The number that a mark stands for.
pub open spec fn tagged(v: JsonModel) -> Option<JsNumber> {
    match v {
        JsonModel::Obj(entries) => if entries.len() == 1 {
            match member(v, "__jsnum"@) {
                Some(JsonModel::Str(s)) => if s == "Infinity"@ {
                    Some(JsNumber::of(false, INFINITE as int))
                } else if s == "-Infinity"@ {
                    Some(JsNumber::of(true, INFINITE as int))
                } else if s == "NaN"@ {
                    Some(JsNumber { bits: NOT_A_NUMBER })
                } else {
                    None
                },
                _ => None,
            }
        } else {
            None
        },
        _ => None,
    }
}

/// Gives the number that a mark stands for.
pub fn non_finite_from_tag(v: &Json) -> (r: Option<JsNumber>)
    ensures
        r == tagged(v.model()),
{
    match v {
        Json::Obj(entries) => {
            if entries.len() != 1 {
                return None;
            }
        },
        _ => {
            return None;
        },
    }
    match v.get("__jsnum") {
        Some(Json::Str(s)) => {
            if str_eq(s.as_str(), "Infinity") {
                Some(JsNumber { bits: INFINITE })
            } else if str_eq(s.as_str(), "-Infinity") {
                Some(JsNumber { bits: 0xfff0_0000_0000_0000 })
            } else if str_eq(s.as_str(), "NaN") {
                Some(JsNumber { bits: NOT_A_NUMBER })
            } else {
                None
            }
        },
        _ => None,
    }
}

/// A number that JSON cannot carry comes back from its mark; all that hold no
/// number come back as one of them.
pub proof fn tag_then_untag(x: JsNumber)
    requires
        !x.finite(),
    ensures
        tagged(tag_of(x)->0) is Some,
        !x.nan() ==> tagged(tag_of(x)->0) == Some(x),
        x.nan() ==> tagged(tag_of(x)->0)->0.nan(),
{
    let v = tag_of(x)->0;
    let entries = v->Obj_0;
    assert(keys_of(entries)[0] == "__jsnum"@);
    reveal_with_fuel(find_key, 2);
    assert(member(v, "__jsnum"@) == Some(JsonModel::Str(x.text_spec())));
    reveal_strlit("NaN");
    reveal_strlit("Infinity");
    reveal_strlit("-Infinity");
    reveal_strlit("-");
    if x.nan() {
        assert("NaN"@.len() != "Infinity"@.len());
        assert("NaN"@.len() != "-Infinity"@.len());
    } else if x.negative() {
        assert("-"@ + "Infinity"@ =~= "-Infinity"@);
        assert("-Infinity"@.len() != "Infinity"@.len());
    }
}

impl StylexRule {
    /// What the rule is, mathematically.
    pub open spec fn model(self) -> RuleModel {
        RuleModel {
            class_name: self.class_name@,
            ltr: self.ltr@,
            rtl: opt_text(self.rtl),
            const_key: opt_text(self.const_key),
            const_val: opt_json(self.const_val),
            priority: self.priority,
        }
    }

    /// A rule without constants.
    pub fn plain(class_name: String, ltr: String, rtl: Option<String>, priority: JsNumber) -> (r:
        StylexRule)
        ensures
            r.model() == plain_rule(class_name@, ltr@, opt_text(rtl), priority),
    {
        StylexRule { class_name, ltr, rtl, const_key: None, const_val: None, priority }
    }
}

impl Clone for StylexRule {
    fn clone(&self) -> (r: Self)
        ensures
            r.model() == self.model(),
    {
        StylexRule {
            class_name: self.class_name.clone(),
            ltr: self.ltr.clone(),
            rtl: match &self.rtl {
                Some(s) => Some(s.clone()),
                None => None,
            },
            const_key: match &self.const_key {
                Some(s) => Some(s.clone()),
                None => None,
            },
            const_val: match &self.const_val {
                Some(v) => Some(v.clone()),
                None => None,
            },
            priority: self.priority,
        }
    }
}

/// The entry of a string under a name, if there is one.
pub open spec fn text_entry(name: Seq<char>, s: Option<Seq<char>>) -> Seq<(Seq<char>, JsonModel)> {
    match s {
        Some(t) => seq![(name, JsonModel::Str(t))],
        None => Seq::empty(),
    }
}

/// The body of the metadata of a rule.
pub open spec fn body_of(r: RuleModel) -> Seq<(Seq<char>, JsonModel)> {
    seq![("ltr"@, JsonModel::Str(r.ltr))] + text_entry("rtl"@, r.rtl) + text_entry(
        "constKey"@,
        r.const_key,
    ) + match r.const_val {
        Some(v) => seq![("constVal"@, v)],
        None => Seq::empty(),
    }
}

/// A number in JSON, which has none that is not finite.
pub open spec fn json_number(x: JsNumber) -> JsonModel {
    if x.finite() {
        JsonModel::Double(x)
    } else {
        JsonModel::Null
    }
}

/// The metadata of a rule: its class, its body and its priority.
pub open spec fn metadata_of(r: RuleModel) -> JsonModel {
    JsonModel::Arr(
        seq![
            JsonModel::Str(r.class_name),
            JsonModel::Obj(body_of(r)),
            json_number(r.priority),
        ],
    )
}

/// The number that JSON holds, if it holds one.
pub open spec fn number_of(v: JsonModel) -> Option<JsNumber> {
    match v {
        JsonModel::Number(n) => float_prefix(n),
        JsonModel::Double(x) => if x.finite() {
            Some(x)
        } else {
            None
        },
        _ => None,
    }
}

/// A string or nothing: `None` for what is neither.
pub open spec fn optional_text(v: Option<JsonModel>) -> Option<Option<Seq<char>>> {
    match v {
        None | Some(JsonModel::Null) => Some(None),
        Some(JsonModel::Str(s)) => Some(Some(s)),
        Some(_) => None,
    }
}

/// The rule that metadata stands for, or why it stands for none.
pub open spec fn rule_of(v: JsonModel) -> Result<RuleModel, Seq<char>> {
    match v {
        JsonModel::Arr(t) => if t.len() != 3 {
            Err("expected a 3-tuple"@)
        } else if !(t[0] is Str) {
            Err("className must be a string"@)
        } else if !(t[1] is Obj) {
            Err("rule body must be an object"@)
        } else if !(member(t[1], "ltr"@) matches Some(JsonModel::Str(_))) {
            Err("ltr must be a string"@)
        } else if optional_text(member(t[1], "rtl"@)) is None {
            Err("rtl must be a string or null"@)
        } else if optional_text(member(t[1], "constKey"@)) is None {
            Err("constKey must be a string or null"@)
        } else if number_of(t[2]) is None {
            Err("priority must be a number"@)
        } else {
            Ok(
                RuleModel {
                    class_name: t[0]->Str_0,
                    ltr: member(t[1], "ltr"@)->0->Str_0,
                    rtl: optional_text(member(t[1], "rtl"@))->0,
                    const_key: optional_text(member(t[1], "constKey"@))->0,
                    const_val: member(t[1], "constVal"@),
                    priority: number_of(t[2])->0,
                },
            )
        },
        _ => Err("expected a 3-tuple"@),
    }
}

/// The view of a rule or a message.
pub open spec fn rule_result(r: Result<StylexRule, String>) -> Result<RuleModel, Seq<char>> {
    match r {
        Ok(rule) => Ok(rule.model()),
        Err(m) => Err(m@),
    }
}

fn text_or_nothing(v: Option<&Json>) -> (r: Option<Option<String>>)
    ensures
        r is Some == optional_text(
            match v {
                Some(j) => Some(j.model()),
                None => None,
            },
        ) is Some,
        r is Some ==> opt_text(r->0) == optional_text(
            match v {
                Some(j) => Some(j.model()),
                None => None,
            },
        )->0,
{
    match v {
        None | Some(Json::Null) => Some(None),
        Some(Json::Str(s)) => Some(Some(s.clone())),
        Some(_) => None,
    }
}

impl StylexRule {
    /// Reads a rule from its metadata.
    pub fn from_metadata_tuple(v: &Json) -> (r: Result<StylexRule, String>)
        ensures
            rule_result(r) == rule_of(v.model()),
    {
        let tuple = match v {
            Json::Arr(items) => {
                if items.len() != 3 {
                    return Err("expected a 3-tuple".to_owned());
                }
                items
            },
            _ => {
                return Err("expected a 3-tuple".to_owned());
            },
        };
        let ghost t = v.model()->Arr_0;
        assert(t[0] == tuple@[0].model() && t[1] == tuple@[1].model() && t[2] == tuple@[2].model());
        let class_name = match &tuple[0] {
            Json::Str(s) => s.clone(),
            _ => {
                return Err("className must be a string".to_owned());
            },
        };
        let body = &tuple[1];
        match body {
            Json::Obj(_) => {},
            _ => {
                return Err("rule body must be an object".to_owned());
            },
        }
        let ltr = match body.get("ltr") {
            Some(Json::Str(s)) => s.clone(),
            _ => {
                return Err("ltr must be a string".to_owned());
            },
        };
        let rtl = match text_or_nothing(body.get("rtl")) {
            Some(s) => s,
            None => {
                return Err("rtl must be a string or null".to_owned());
            },
        };
        let const_key = match text_or_nothing(body.get("constKey")) {
            Some(s) => s,
            None => {
                return Err("constKey must be a string or null".to_owned());
            },
        };
        let const_val = match body.get("constVal") {
            Some(j) => Some(j.clone()),
            None => None,
        };
        let priority = match &tuple[2] {
            Json::Number(n) => {
                match parse_float_prefix(n.as_str()) {
                    Some(x) => x,
                    None => {
                        return Err("priority must be a number".to_owned());
                    },
                }
            },
            Json::Double(x) => {
                if !x.is_finite() {
                    return Err("priority must be a number".to_owned());
                }
                *x
            },
            _ => {
                return Err("priority must be a number".to_owned());
            },
        };
        Ok(StylexRule { class_name, ltr, rtl, const_key, const_val, priority })
    }

    /// Writes the metadata of the rule.
    pub fn to_metadata_tuple(&self) -> (r: Json)
        ensures
            r.model() == metadata_of(self.model()),
    {
        let mut body: Vec<(String, Json)> = Vec::new();
        body.push(("ltr".to_owned(), Json::Str(self.ltr.clone())));
        if let Some(rtl) = &self.rtl {
            body.push(("rtl".to_owned(), Json::Str(rtl.clone())));
        }
        if let Some(key) = &self.const_key {
            body.push(("constKey".to_owned(), Json::Str(key.clone())));
        }
        if let Some(v) = &self.const_val {
            body.push(("constVal".to_owned(), v.clone()));
        }
        let ghost written = body@;
        let mut tuple: Vec<Json> = Vec::new();
        tuple.push(Json::Str(self.class_name.clone()));
        let b = Json::Obj(body);
        proof {
            reveal_with_fuel(Json::model, 4);
            assert(b.model()->Obj_0 =~= body_of(self.model()));
        }
        tuple.push(b);
        tuple.push(
            if self.priority.is_finite() {
                Json::Double(self.priority)
            } else {
                Json::Null
            },
        );
        let r = Json::Arr(tuple);
        proof {
            let m = self.model();
            assert(r.model()->Arr_0 =~= seq![
                JsonModel::Str(m.class_name),
                JsonModel::Obj(body_of(m)),
                json_number(m.priority),
            ]);
        }
        r
    }
}

/// A rule comes back from its metadata as it was, unless its priority is no finite number:
/// then the metadata is refused.
pub proof fn metadata_round_trip(r: RuleModel)
    ensures
        rule_of(metadata_of(r)) == if r.priority.finite() {
            Ok::<RuleModel, Seq<char>>(r)
        } else {
            Err("priority must be a number"@)
        },
{
    let b = body_of(r);
    let keys = keys_of(b);
    let v = JsonModel::Obj(b);
    reveal_strlit("ltr");
    reveal_strlit("rtl");
    reveal_strlit("constKey");
    reveal_strlit("constVal");
    assert("ltr"@[0] == 'l' && "rtl"@[0] == 'r');
    assert("constKey"@[5] == 'K' && "constVal"@[5] == 'V');
    assert("ltr"@ != "rtl"@);
    assert("ltr"@.len() == 3 && "rtl"@.len() == 3 && "constKey"@.len() == 8 && "constVal"@.len()
        == 8);
    assert("constKey"@ != "constVal"@);
    reveal_with_fuel(find_key, 6);
    assert(keys[0] == "ltr"@);
    assert(member(v, "ltr"@) == Some(JsonModel::Str(r.ltr)));
    if r.rtl is Some {
        assert(keys[1] == "rtl"@);
    }
    assert(optional_text(member(v, "rtl"@)) == Some(r.rtl));
    assert(optional_text(member(v, "constKey"@)) == Some(r.const_key));
    assert(member(v, "constVal"@) == r.const_val);
}

/// The JSON of a value: numbers by their text, those that JSON cannot carry by
/// their mark, and nothing at all as null.
pub open spec fn json_of_value(v: Val) -> JsonModel
    decreases v, 0int,
{
    match v {
        Val::Bool(b) => JsonModel::Bool(b),
        Val::Num(n) => match tag_of(n) {
            Some(t) => t,
            None => JsonModel::Number(n.text_spec()),
        },
        Val::Str(s) => JsonModel::Str(s),
        Val::Arr(items) => JsonModel::Arr(
            Seq::new(
                items.len(),
                |i: int|
                    if 0 <= i < items.len() {
                        json_of_value(items[i])
                    } else {
                        arbitrary()
                    },
            ),
        ),
        Val::Obj(m) => JsonModel::Obj(
            Seq::new(
                m.entries.len(),
                |i: int|
                    if 0 <= i < m.entries.len() {
                        (m.entries[i].0, json_of_value(m.entries[i].1))
                    } else {
                        arbitrary()
                    },
            ),
        ),
        _ => JsonModel::Null,
    }
}

impl EvalValue {
    /// Gives the JSON of the value.
    pub fn to_json(&self) -> (r: Json)
        ensures
            r.model() == json_of_value(self.model()),
        decreases self,
    {
        match self {
            EvalValue::Undefined => Json::Null,
            EvalValue::Null => Json::Null,
            EvalValue::Bool(b) => Json::Bool(*b),
            EvalValue::Num(n) => {
                match non_finite_to_tag(*n) {
                    Some(t) => t,
                    None => Json::Number(n.text()),
                }
            },
            EvalValue::Str(s) => Json::Str(s.clone()),
            EvalValue::Arr(items) => {
                let mut out: Vec<Json> = Vec::new();
                let mut i: usize = 0;
                while i < items.len()
                    invariant
                        *self == EvalValue::Arr(*items),
                        i <= items@.len(),
                        out@.len() == i,
                        forall|j: int|
                            0 <= j < i ==> #[trigger] out@[j].model() == json_of_value(
                                items@[j].model(),
                            ),
                    decreases items@.len() - i,
                {
                    proof {
                        assert(decreases_to!(*self => self->Arr_0));
                        assert(decreases_to!(*items => items@[i as int]));
                    }
                    out.push(items[i].to_json());
                    i += 1;
                }
                let r = Json::Arr(out);
                proof {
                    let m = json_of_value(self.model());
                    assert forall|j: int| 0 <= j < items@.len() implies r.model()->Arr_0[j]
                        == m->Arr_0[j] by {
                        assert(out@[j].model() == json_of_value(items@[j].model()));
                    }
                    assert(r.model()->Arr_0 =~= m->Arr_0);
                }
                r
            },
            EvalValue::Obj(map) => {
                let mut out: Vec<(String, Json)> = Vec::new();
                let mut i: usize = 0;
                while i < map.items.len()
                    invariant
                        *self == EvalValue::Obj(*map),
                        i <= map.items@.len(),
                        out@.len() == i,
                        forall|j: int|
                            0 <= j < i ==> (#[trigger] out@[j]).1.model() == json_of_value(
                                map.items@[j].1.model(),
                            ) && out@[j].0@ == map.items@[j].0@,
                    decreases map.items@.len() - i,
                {
                    proof {
                        assert(decreases_to!(*self => self->Obj_0));
                        assert(decreases_to!(*map => map.items));
                        assert(decreases_to!(map.items => map.items@[i as int]));
                    }
                    let item = (map.items[i].0.clone(), map.items[i].1.to_json());
                    out.push(item);
                    i += 1;
                }
                let r = Json::Obj(out);
                proof {
                    let m = json_of_value(self.model());
                    reveal_with_fuel(EvalValue::model, 2);
                    reveal_with_fuel(JsObjectMap::model, 2);
                    assert(self.model()->Obj_0 == map.model());
                    assert forall|j: int| 0 <= j < map.items@.len() implies r.model()->Obj_0[j]
                        == m->Obj_0[j] by {
                        assert(out@[j].1.model() == json_of_value(map.items@[j].1.model()));
                        assert(self.model()->Obj_0.entries[j] == (
                            map.items@[j].0@,
                            map.items@[j].1.model(),
                        ));
                    }
                    assert(r.model()->Obj_0 =~= m->Obj_0);
                }
                r
            },
        }
    }
}

} // verus!
