//! JSON values as the options and the rule metadata carry them.

use crate::number::JsNumber;
use crate::text::concat3;
use crate::value::position_of;
use vstd::prelude::*;

verus! {

/// A JSON value. A number that was read is kept by its text, one that was computed
/// as a double; the keys of an object are in the order of the source.
#[derive(Debug, PartialEq)]
pub enum Json {
    Null,
    Bool(bool),
    Number(String),
    Double(JsNumber),
    Str(String),
    Arr(Vec<Json>),
    Obj(Vec<(String, Json)>),
}

/// What a JSON value is, mathematically.
#[verifier::ext_equal]
pub enum JsonModel {
    Null,
    Bool(bool),
    Number(Seq<char>),
    Double(JsNumber),
    Str(Seq<char>),
    Arr(Seq<JsonModel>),
    Obj(Seq<(Seq<char>, JsonModel)>),
}

impl Json {
    /// What the value is, mathematically.
    pub open spec fn model(self) -> JsonModel
        decreases self,
    {
        match self {
            Json::Null => JsonModel::Null,
            Json::Bool(b) => JsonModel::Bool(b),
            Json::Number(n) => JsonModel::Number(n@),
            Json::Double(x) => JsonModel::Double(x),
            Json::Str(s) => JsonModel::Str(s@),
            Json::Arr(v) => JsonModel::Arr(
                Seq::new(
                    v@.len(),
                    |i: int|
                        if 0 <= i < v@.len() {
                            v@[i].model()
                        } else {
                            arbitrary()
                        },
                ),
            ),
            Json::Obj(v) => JsonModel::Obj(
                Seq::new(
                    v@.len(),
                    |i: int|
                        if 0 <= i < v@.len() {
                            (v@[i].0@, v@[i].1.model())
                        } else {
                            arbitrary()
                        },
                ),
            ),
        }
    }
}

/// What `serde_json::to_string` prints for a string.
pub uninterp spec fn json_string(s: Seq<char>) -> Seq<char>;

/// Whether no character of a text is escaped in JSON.
pub open spec fn json_plain(s: Seq<char>) -> bool {
    forall|i: int| 0 <= i < s.len() ==> (#[trigger] s[i]) as u32 >= 32 && s[i] != '"' && s[i] != '\\'
}

/// `serde_json::to_string` on a string: the JSON string with its escapes. A text
/// without control characters, quotes and backslashes is only put in quotes.
#[verifier::external_body]
pub(crate) fn json_quoted(s: &str) -> (r: String)
    ensures
        r@ == json_string(s@),
        json_plain(s@) ==> r@ == seq!['"'] + s@ + seq!['"'],
{
    serde_json::to_string(s).unwrap_or_else(|_| format!("\"{s}\""))
}

/// The compact JSON text of a value.
pub open spec fn json_text(v: JsonModel) -> Seq<char>
    decreases v, 0int,
{
    match v {
        JsonModel::Null => "null"@,
        JsonModel::Bool(b) => if b {
            "true"@
        } else {
            "false"@
        },
        JsonModel::Number(n) => n,
        JsonModel::Double(x) => x.json_spec(),
        JsonModel::Str(s) => json_string(s),
        JsonModel::Arr(items) => "["@ + items_text(items, items.len() as int) + "]"@,
        JsonModel::Obj(entries) => "{"@ + entries_text(entries, entries.len() as int) + "}"@,
    }
}

/// The compact JSON texts of the first `k` items, with commas between.
pub open spec fn items_text(items: Seq<JsonModel>, k: int) -> Seq<char>
    decreases items, k,
{
    if k <= 0 || k > items.len() {
        Seq::empty()
    } else if k == 1 {
        json_text(items[0])
    } else {
        items_text(items, k - 1) + ","@ + json_text(items[k - 1])
    }
}

/// The compact JSON texts of the first `k` entries, with commas between.
pub open spec fn entries_text(entries: Seq<(Seq<char>, JsonModel)>, k: int) -> Seq<char>
    decreases entries, k,
{
    if k <= 0 || k > entries.len() {
        Seq::empty()
    } else {
        let e = entries[k - 1];
        let own = json_string(e.0) + ":"@ + json_text(e.1);
        if k == 1 {
            own
        } else {
            entries_text(entries, k - 1) + ","@ + own
        }
    }
}

/// The value of a key of an object.
pub open spec fn member(v: JsonModel, k: Seq<char>) -> Option<JsonModel> {
    match v {
        JsonModel::Obj(entries) => crate::value::value_of(entries, k),
        _ => None,
    }
}

impl Json {
    /// The compact JSON text.
    pub fn text(&self) -> (r: String)
        ensures
            r@ == json_text(self.model()),
        decreases self,
    {
        match self {
            Json::Null => "null".to_owned(),
            Json::Bool(b) => {
                if *b {
                    "true".to_owned()
                } else {
                    "false".to_owned()
                }
            },
            Json::Number(n) => n.clone(),
            Json::Double(x) => x.json_text(),
            Json::Str(s) => json_quoted(s.as_str()),
            Json::Arr(items) => {
                let ghost all = self.model()->Arr_0;
                let mut out = "[".to_owned();
                let ghost open = out@;
                let mut inner = String::new();
                let mut i: usize = 0;
                while i < items.len()
                    invariant
                        *self == Json::Arr(*items),
                        all == self.model()->Arr_0,
                        i <= items@.len(),
                        inner@ == items_text(all, i as int),
                    decreases items@.len() - i,
                {
                    proof {
                        assert(decreases_to!(*self => self->Arr_0));
                        assert(decreases_to!(*items => items@[i as int]));
                    }
                    let t = items[i].text();
                    if i == 0 {
                        inner = t;
                    } else {
                        inner.append(",");
                        inner.append(t.as_str());
                    }
                    i += 1;
                }
                out.append(inner.as_str());
                out.append("]");
                out
            },
            Json::Obj(items) => {
                let ghost all = self.model()->Obj_0;
                let mut out = "{".to_owned();
                let mut inner = String::new();
                let mut i: usize = 0;
                while i < items.len()
                    invariant
                        *self == Json::Obj(*items),
                        all == self.model()->Obj_0,
                        i <= items@.len(),
                        inner@ == entries_text(all, i as int),
                    decreases items@.len() - i,
                {
                    proof {
                        assert(decreases_to!(*self => self->Obj_0));
                        assert(decreases_to!(*items => items@[i as int]));
                    }
                    let v = items[i].1.text();
                    let t = concat3(json_quoted(items[i].0.as_str()).as_str(), ":", v.as_str());
                    if i == 0 {
                        inner = t;
                    } else {
                        inner.append(",");
                        inner.append(t.as_str());
                    }
                    i += 1;
                }
                out.append(inner.as_str());
                out.append("}");
                out
            },
        }
    }

    /// The value of a key of an object.
    pub fn get(&self, key: &str) -> (r: Option<&Json>)
        ensures
            r is Some == member(self.model(), key@) is Some,
            r is Some ==> r->0.model() == member(self.model(), key@)->0,
    {
        match self {
            Json::Obj(items) => {
                let at: usize = position_of(items, key);
                proof {
                    assert(crate::value::keys_of(self.model()->Obj_0)
                        =~= crate::value::item_keys(items@));
                }
                if at < items.len() {
                    Some(&items[at].1)
                } else {
                    None
                }
            },
            _ => None,
        }
    }
}

impl Clone for Json {
    fn clone(&self) -> (r: Self)
        ensures
            r.model() == self.model(),
    {
        copy_json(self)
    }
}

fn copy_json(v: &Json) -> (r: Json)
    ensures
        r.model() == v.model(),
    decreases v,
{
    match v {
        Json::Null => Json::Null,
        Json::Bool(b) => Json::Bool(*b),
        Json::Number(n) => Json::Number(n.clone()),
        Json::Double(x) => Json::Double(*x),
        Json::Str(s) => Json::Str(s.clone()),
        Json::Arr(items) => {
            let mut out: Vec<Json> = Vec::new();
            let mut i: usize = 0;
            while i < items.len()
                invariant
                    *v == Json::Arr(*items),
                    i <= items@.len(),
                    out@.len() == i,
                    forall|j: int| 0 <= j < i ==> #[trigger] out@[j].model() == items@[j].model(),
                decreases items@.len() - i,
            {
                proof {
                    assert(decreases_to!(*v => v->Arr_0));
                    assert(decreases_to!(*items => items@[i as int]));
                }
                out.push(copy_json(&items[i]));
                i += 1;
            }
            let r = Json::Arr(out);
            proof {
                assert forall|j: int| 0 <= j < items@.len() implies r.model()->Arr_0[j]
                    == v.model()->Arr_0[j] by {
                    assert(out@[j].model() == items@[j].model());
                }
                assert(r.model()->Arr_0 =~= v.model()->Arr_0);
            }
            r
        },
        Json::Obj(items) => {
            let mut out: Vec<(String, Json)> = Vec::new();
            let mut i: usize = 0;
            while i < items.len()
                invariant
                    *v == Json::Obj(*items),
                    i <= items@.len(),
                    out@.len() == i,
                    forall|j: int|
                        0 <= j < i ==> (#[trigger] out@[j]).1.model() == items@[j].1.model()
                            && out@[j].0@ == items@[j].0@,
                decreases items@.len() - i,
            {
                proof {
                    assert(decreases_to!(*v => v->Obj_0));
                    assert(decreases_to!(*items => items@[i as int]));
                }
                let item = (items[i].0.clone(), copy_json(&items[i].1));
                out.push(item);
                i += 1;
            }
            let r = Json::Obj(out);
            proof {
                assert(r.model()->Obj_0 =~= v.model()->Obj_0);
            }
            r
        },
    }
}

} // verus!
