//! Constants that a file exports.

use crate::errors::{non_style_object_model, type_crash_model, ErrorModel, StylexError};
use crate::hash::{hash, hash_text, utf16, utf16_units};
use crate::number::{decimal, decimal_text, JsNumber};
use crate::options::ResolvedOptions;
use crate::rules::{json_of_value, rule_models, RuleModel, StylexRule};
use crate::text::{
    char_count, chars_of, concat2, concat3, digit, has_prefix, is_alnum, is_digit, letter, piece,
    starts_with,
};
use crate::value::{put, EvalValue, JsObjectMap, Val};
use vstd::prelude::*;

verus! {

/// What constants compile to.
#[derive(Debug, PartialEq)]
pub struct DefineConstsOutput {
    /// The constants themselves.
    pub js_output: JsObjectMap,
    /// One rule for each constant.
    pub rules: Vec<StylexRule>,
}

/// What constants compile to, mathematically.
#[verifier::ext_equal]
pub struct ConstsModel {
    pub entries: Seq<(Seq<char>, Val)>,
    pub rules: Seq<RuleModel>,
}

/// A unit as the name of a variable has it.
pub open spec fn safe_unit(u: u16) -> char {
    if ('0' as u16 <= u && u <= '9' as u16) || ('a' as u16 <= u && u <= 'z' as u16) || ('A' as u16
        <= u && u <= 'Z' as u16) {
        u as u8 as char
    } else {
        '_'
    }
}

/// A key as the name of a variable has it: a leading digit gets an underscore before
/// it, and every unit that is no ASCII letter or digit becomes one.
pub open spec fn safe_key(key: Seq<char>) -> Seq<char> {
    let units = utf16(
        if key.len() > 0 && digit(key[0]) {
            "_"@ + key
        } else {
            key
        },
    );
    Seq::new(units.len(), |i: int| safe_unit(units[i]))
}

/// The name of a variable or a constant that a file exports.
pub open spec fn hashed_key(
    key: Seq<char>,
    export_id: Seq<char>,
    options: ResolvedOptions,
) -> Seq<char> {
    let name = options.class_name_prefix@ + hash_text(export_id + "."@ + key);
    if options.debug && options.enable_debug_class_names {
        safe_key(key) + "-"@ + name
    } else {
        name
    }
}

/// The key of a constant.
pub open spec fn const_key(key: Seq<char>, export_id: Seq<char>, options: ResolvedOptions) -> Seq<
    char,
> {
    if has_prefix(key, "--"@) {
        key.skip(2)
    } else {
        hashed_key(key, export_id, options)
    }
}

/// The rule of a constant.
pub open spec fn const_rule(key: Seq<char>, v: Val) -> RuleModel {
    RuleModel {
        class_name: key,
        ltr: Seq::empty(),
        rtl: None,
        const_key: Some(key),
        const_val: Some(json_of_value(v)),
        priority: JsNumber::natural(0),
    }
}

/// The entries of an object or an array.
pub open spec fn object_entries(v: Val) -> Option<Seq<(Seq<char>, Val)>> {
    match v {
        Val::Obj(m) => Some(m.entries),
        Val::Arr(items) => Some(
            Seq::new(items.len(), |i: int| (decimal(i as nat), items[i])),
        ),
        _ => None,
    }
}

/// What the first `k` constants compile to.
pub open spec fn consts_upto(
    e: Seq<(Seq<char>, Val)>,
    export_id: Seq<char>,
    options: ResolvedOptions,
    k: int,
) -> Result<ConstsModel, ErrorModel>
    decreases k,
{
    if k <= 0 {
        Ok(ConstsModel { entries: Seq::empty(), rules: Seq::empty() })
    } else {
        match consts_upto(e, export_id, options, k - 1) {
            Err(x) => Err(x),
            Ok(done) => if e[k - 1].1 is Undefined {
                Err(type_crash_model("an undefined defineConsts value"@))
            } else {
                Ok(
                    ConstsModel {
                        entries: put(done.entries, e[k - 1].0, e[k - 1].1),
                        rules: done.rules.push(
                            const_rule(const_key(e[k - 1].0, export_id, options), e[k - 1].1),
                        ),
                    },
                )
            },
        }
    }
}

/// The name of an export in its file.
pub open spec fn export_id(file: Seq<char>, export: Seq<char>) -> Seq<char> {
    file + "//"@ + export
}

/// What constants compile to.
pub open spec fn consts_output(
    v: Val,
    file: Seq<char>,
    export: Seq<char>,
    options: ResolvedOptions,
) -> Result<ConstsModel, ErrorModel> {
    match object_entries(v) {
        None => Err(non_style_object_model("defineConsts"@)),
        Some(e) => consts_upto(e, export_id(file, export), options, e.len() as int),
    }
}

/// What compiled constants or an error are, mathematically.
pub open spec fn consts_result(r: Result<DefineConstsOutput, StylexError>) -> Result<
    ConstsModel,
    ErrorModel,
> {
    match r {
        Ok(o) => Ok(
            ConstsModel { entries: o.js_output.pairs(), rules: rule_models(o.rules@) },
        ),
        Err(e) => Err(e.model()),
    }
}

/// Gives a key as the name of a variable has it.
pub fn var_safe_key(key: &str) -> (r: String)
    ensures
        r@ == safe_key(key@),
{
    let s = chars_of(key);
    let prefixed = if s.len() > 0 && is_digit(s[0]) {
        concat2("_", key)
    } else {
        key.to_owned()
    };
    let units = utf16_units(prefixed.as_str());
    let mut out = String::new();
    let mut i: usize = 0;
    while i < units.len()
        invariant
            i <= units@.len(),
            out@.len() == i,
            forall|j: int| 0 <= j < i ==> #[trigger] out@[j] == safe_unit(units@[j]),
        decreases units@.len() - i,
    {
        let u: u16 = units[i];
        let c = if u < 0x80 {
            (u as u8) as char
        } else {
            '_'
        };
        let safe = if is_alnum(c) {
            c
        } else {
            '_'
        };
        out.push(safe);
        i += 1;
    }
    proof {
        assert(out@ =~= safe_key(key@));
    }
    out
}

/// Gives the name of a variable or a constant that a file exports.
pub fn exported_key(key: &str, export_id: &str, options: &ResolvedOptions) -> (r: String)
    ensures
        r@ == hashed_key(key@, export_id@, *options),
{
    let id = hash(concat3(export_id, ".", key).as_str());
    let name = concat2(options.class_name_prefix.as_str(), id.as_str());
    if options.debug && options.enable_debug_class_names {
        concat3(var_safe_key(key).as_str(), "-", name.as_str())
    } else {
        name
    }
}

proof fn lemma_consts_failure(
    e: Seq<(Seq<char>, Val)>,
    export_id: Seq<char>,
    options: ResolvedOptions,
    i: int,
    k: int,
)
    requires
        0 <= i <= k,
        consts_upto(e, export_id, options, i) is Err,
    ensures
        consts_upto(e, export_id, options, k) == consts_upto(e, export_id, options, i),
    decreases k,
{
    if i < k {
        lemma_consts_failure(e, export_id, options, i, k - 1);
    }
}

fn entries_of(value: &EvalValue) -> (r: Option<Vec<(String, EvalValue)>>)
    ensures
        match r {
            Some(v) => object_entries(value.model()) == Some(owned_entries(v@)),
            None => object_entries(value.model()) is None,
        },
{
    let mut out: Vec<(String, EvalValue)> = Vec::new();
    match value {
        EvalValue::Obj(map) => {
            let ghost e = map.pairs();
            let mut i: usize = 0;
            while i < map.items.len()
                invariant
                    e == map.pairs(),
                    i <= map.items@.len(),
                    out@.len() == i,
                    forall|j: int|
                        0 <= j < i ==> (#[trigger] out@[j]).0@ == e[j].0 && out@[j].1.model()
                            == e[j].1,
                decreases map.items@.len() - i,
            {
                assert(e[i as int] == (map.items@[i as int].0@, map.items@[i as int].1.model()));
                out.push((map.items[i].0.clone(), map.items[i].1.clone()));
                i += 1;
            }
            proof {
                assert(owned_entries(out@) =~= e);
            }
            Some(out)
        },
        EvalValue::Arr(items) => {
            let ghost all = value.model()->Arr_0;
            let mut i: usize = 0;
            while i < items.len()
                invariant
                    *value == EvalValue::Arr(*items),
                    all == value.model()->Arr_0,
                    i <= items@.len(),
                    out@.len() == i,
                    forall|j: int|
                        0 <= j < i ==> (#[trigger] out@[j]).0@ == decimal(j as nat)
                            && out@[j].1.model() == all[j],
                decreases items@.len() - i,
            {
                assert(all[i as int] == items@[i as int].model());
                out.push((decimal_text(i as u64), items[i].clone()));
                i += 1;
            }
            proof {
                assert(owned_entries(out@) =~= object_entries(value.model())->0);
            }
            Some(out)
        },
        _ => None,
    }
}

/// Gives the key of a constant.
pub fn name_const(key: &str, export_id: &str, options: &ResolvedOptions) -> (r: String)
    ensures
        r@ == const_key(key@, export_id@, *options),
{
    if starts_with(key, "--") {
        let s = chars_of(key);
        let n: usize = char_count(&s);
        proof {
            reveal_strlit("--");
        }
        let rest = piece(&s, 2, n);
        proof {
            assert(rest@ =~= key@.skip(2));
        }
        rest
    } else {
        exported_key(key, export_id, options)
    }
}

fn make_const_rule(name: &str, value: &EvalValue) -> (r: StylexRule)
    ensures
        r.model() == const_rule(name@, value.model()),
{
    let rule = StylexRule {
        class_name: name.to_owned(),
        ltr: String::new(),
        rtl: None,
        const_key: Some(name.to_owned()),
        const_val: Some(value.to_json()),
        priority: JsNumber::from_int(0),
    };
    proof {
        assert(rule.model() =~= const_rule(name@, value.model()));
    }
    rule
}

/// What owned entries are, mathematically.
pub open spec fn owned_entries(v: Seq<(String, EvalValue)>) -> Seq<(Seq<char>, Val)> {
    Seq::new(v.len(), |i: int| (v[i].0@, v[i].1.model()))
}

/// Compiles the constants that a file exports.
pub fn define_consts(
    constants: &EvalValue,
    canonical_file_name: &str,
    export_name: &str,
    options: &ResolvedOptions,
) -> (r: Result<DefineConstsOutput, StylexError>)
    ensures
        consts_result(r) == consts_output(
            constants.model(),
            canonical_file_name@,
            export_name@,
            *options,
        ),
        r is Ok ==> r->Ok_0.js_output.model().css is None,
{
    let entries = match entries_of(constants) {
        Some(v) => v,
        None => {
            return Err(StylexError::non_style_object("defineConsts"));
        },
    };
    let id = concat3(canonical_file_name, "//", export_name);
    let ghost e = owned_entries(entries@);
    let mut js_output = JsObjectMap::new();
    let mut rules: Vec<StylexRule> = Vec::new();
    proof {
        assert(rule_models(rules@) =~= Seq::<RuleModel>::empty());
    }
    let mut i: usize = 0;
    while i < entries.len()
        invariant
            e == owned_entries(entries@),
            object_entries(constants.model()) == Some(e),
            js_output.model().css is None,
            id@ == export_id(canonical_file_name@, export_name@),
            i <= entries@.len(),
            consts_upto(e, id@, *options, i as int) == Ok::<ConstsModel, ErrorModel>(
                ConstsModel { entries: js_output.pairs(), rules: rule_models(rules@) },
            ),
        decreases entries@.len() - i,
    {
        let (key, value) = &entries[i];
        assert(e[i as int] == (key@, value.model()));
        if let EvalValue::Undefined = value {
            proof {
                lemma_consts_failure(e, id@, *options, i + 1, e.len() as int);
            }
            return Err(StylexError::upstream_type_crash("an undefined defineConsts value"));
        }
        let name = name_const(key.as_str(), id.as_str(), options);
        let ghost before = rule_models(rules@);
        js_output.set(key.as_str(), value.clone());
        rules.push(make_const_rule(name.as_str(), value));
        proof {
            assert(rule_models(rules@) =~= before.push(const_rule(name@, value.model())));
        }
        i += 1;
    }
    Ok(DefineConstsOutput { js_output, rules })
}

} // verus!
