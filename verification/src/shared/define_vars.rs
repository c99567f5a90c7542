//! Variables that a file exports.

use crate::errors::{
    array_in_define_vars_model, define_vars_function_model, define_vars_value_model,
    missing_default_model, non_static_value_model, non_style_object_model, said, ErrorCode,
    ErrorModel, StylexError,
};
use crate::hash::{hash, hash_text};
use crate::number::{decimal, decimal_text, JsNumber};
use crate::options::ResolvedOptions;
use crate::rules::{plain_rule, rule_models, RuleModel, StylexRule};
use crate::shared::define_consts::{const_key, export_id, name_const};
use crate::shared::flatten::{copy_texts, encloses, fails_as};
use crate::shared::for_in::{
    lemma_as_object_size, lemma_entry_smaller, total_size, val_size,
};
use crate::shared::types::{as_css_type_js, css_type_of};
use crate::shared::var_cycles::{
    assert_no_define_vars_cycles, cycle_error, deps_models, DepsModel,
};
use crate::shared::vars_utils::{
    collect_vars_by_at_rule, collected, collection_models, default_of,
    es_ordered_entries, get_default_value, group_priority, inside_group, js_entry_models,
    lacks_default, priority_for_at_rule, wrap_with_at_rules, CollectionModel,
};
use crate::text::{
    concat2, concat3, concat5, concat_strings, concat_texts, str_eq, texts,
};
use crate::value::{
    append_put, as_object, as_object_upto, item_keys, keys_of, lemma_find_key, opt_text,
    position_of, put, put_item, Callable, CallableModel, EvalValue, JsObj, JsObjectMap, JsValue,
    ObjModel, Val,
};
use vstd::prelude::*;

verus! {

/// What variables compile to.
#[derive(Debug, PartialEq)]
pub struct DefineVarsOutput {
    /// The references to the variables, and the name of their group.
    pub js_output: JsObjectMap,
    /// The rules of typed variables, then those of the groups.
    pub rules: Vec<StylexRule>,
}

/// What variables compile to, mathematically.
#[verifier::ext_equal]
pub struct VarsModel {
    pub entries: Seq<(Seq<char>, Val)>,
    pub rules: Seq<RuleModel>,
}

/// What compiled variables or an error are, mathematically.
pub open spec fn vars_result(r: Result<DefineVarsOutput, StylexError>) -> Result<
    VarsModel,
    ErrorModel,
> {
    match r {
        Ok(o) => Ok(VarsModel { entries: o.js_output.pairs(), rules: rule_models(o.rules@) }),
        Err(e) => Err(e.model()),
    }
}

/// The entries of an object after a key was set the ordinary way: `__proto__` makes
/// no entry.
pub open spec fn keyed_put<T>(e: Seq<(Seq<char>, T)>, k: Seq<char>, v: T) -> Seq<(Seq<char>, T)> {
    if k == "__proto__"@ {
        e
    } else {
        put(e, k, v)
    }
}

/// Typed variables: the default and the syntax of each.
pub type TypedModel = Seq<(Seq<char>, (Option<Seq<char>>, Seq<char>))>;

/// What stands after variables were named.
#[verifier::ext_equal]
pub struct NamedModel {
    pub entries: Seq<(Seq<char>, Val)>,
    pub typed: TypedModel,
    /// The key, the name and the value of each variable.
    pub vars: Seq<(Seq<char>, Seq<char>, Val)>,
}

/// What stands after one more variable was named.
pub open spec fn with_var(
    s: NamedModel,
    key: Seq<char>,
    v: Val,
    id: Seq<char>,
    options: ResolvedOptions,
) -> Result<NamedModel, ErrorModel> {
    let name = const_key(key, id, options);
    let entries = put(s.entries, key, Val::Str("var(--"@ + name + ")"@));
    match css_type_of(v) {
        None => Ok(NamedModel { entries, typed: s.typed, vars: s.vars.push((key, name, v)) }),
        Some((syntax, inner)) => match default_of(inner) {
            Err(e) => Err(e),
            Ok(d) => Ok(
                NamedModel {
                    entries,
                    typed: keyed_put(s.typed, name, (d, syntax)),
                    vars: s.vars.push((key, name, inner)),
                },
            ),
        },
    }
}

/// What stands after the first `k` variables were named.
pub open spec fn named_upto(
    e: Seq<(Seq<char>, Val)>,
    id: Seq<char>,
    options: ResolvedOptions,
    k: int,
) -> Result<NamedModel, ErrorModel>
    decreases k,
{
    if k <= 0 {
        Ok(NamedModel { entries: Seq::empty(), typed: Seq::empty(), vars: Seq::empty() })
    } else {
        match named_upto(e, id, options, k - 1) {
            Err(x) => Err(x),
            Ok(s) => with_var(s, e[k - 1].0, e[k - 1].1, id, options),
        }
    }
}

/// The declarations of variables from `i` on, and the first error.
pub open spec fn declared_from(
    vars: Seq<(Seq<char>, Seq<char>, Val)>,
    i: int,
    c: CollectionModel,
) -> (CollectionModel, Option<ErrorModel>)
    decreases vars.len() - i,
{
    if i < 0 || i >= vars.len() {
        (c, None)
    } else {
        let (after, error) = collected(vars[i].0, vars[i].1, vars[i].2, c, Seq::empty());
        if error is Some {
            (after, error)
        } else {
            declared_from(vars, i + 1, after)
        }
    }
}

/// The part of a rule that gives the default of a typed variable.
pub open spec fn initial_part(d: Option<Seq<char>>) -> Seq<char> {
    match d {
        Some(t) => " initial-value: "@ + t,
        None => Seq::empty(),
    }
}

/// The rule of a typed variable.
pub open spec fn property_rule(name: Seq<char>, d: Option<Seq<char>>, syntax: Seq<char>) -> RuleModel {
    plain_rule(
        name,
        "@property --"@ + name + " { syntax: \""@ + syntax + "\"; inherits: true;"@ + initial_part(
            d,
        ) + " }"@,
        None,
        JsNumber::natural(0),
    )
}

/// The rules after those of the first `k` typed variables were set.
pub open spec fn typed_rules(t: TypedModel, k: int) -> Seq<(Seq<char>, RuleModel)>
    decreases k,
{
    if k <= 0 {
        Seq::empty()
    } else {
        keyed_put(
            typed_rules(t, k - 1),
            t[k - 1].0,
            property_rule(t[k - 1].0, t[k - 1].1.0, t[k - 1].1.1),
        )
    }
}

/// The class name of a group: the default group has the name of all groups.
pub open spec fn group_class(group: Seq<char>, key: Seq<char>) -> Seq<char> {
    if key == "default"@ {
        group
    } else {
        group + "-"@ + hash_text(key)
    }
}

/// The text of a group: the default group stands under no at-rule.
pub open spec fn group_text(body: Seq<char>, key: Seq<char>) -> Seq<char> {
    if key == "default"@ {
        body
    } else {
        inside_group(body, key)
    }
}

/// The rule of a group of declarations.
pub open spec fn group_rule(group: Seq<char>, key: Seq<char>, decls: Seq<Seq<char>>) -> RuleModel {
    plain_rule(
        group_class(group, key),
        group_text(":root, ."@ + group + "{"@ + concat_texts(decls) + "}"@, key),
        None,
        group_priority(key).over_spec(10),
    )
}

/// The rules after those of the first `k` groups were set.
pub open spec fn with_groups(
    rules: Seq<(Seq<char>, RuleModel)>,
    c: CollectionModel,
    group: Seq<char>,
    k: int,
) -> Seq<(Seq<char>, RuleModel)>
    decreases k,
{
    if k <= 0 {
        rules
    } else {
        let done = with_groups(rules, c, group, k - 1);
        keyed_put(
            done,
            group_class(group, c[k - 1].0),
            group_rule(group, c[k - 1].0, c[k - 1].1),
        )
    }
}

/// The values of entries.
pub open spec fn values_of<T>(e: Seq<(Seq<char>, T)>) -> Seq<T> {
    Seq::new(e.len(), |i: int| e[i].1)
}

/// What variables compile to.
pub open spec fn vars_output(
    e: Seq<(Seq<char>, Val)>,
    file: Seq<char>,
    export: Seq<char>,
    options: ResolvedOptions,
) -> Result<VarsModel, ErrorModel> {
    let id = export_id(file, export);
    let group = options.class_name_prefix@ + hash_text(id);
    match named_upto(e, id, options, e.len() as int) {
        Err(x) => Err(x),
        Ok(s) => match declared_from(s.vars, 0, Seq::empty()) {
            (_, Some(x)) => Err(x),
            (c, None) => {
                let typed = typed_rules(s.typed, s.typed.len() as int);
                let arranged = as_object(c);
                let rules = with_groups(typed, arranged, group, arranged.len() as int);
                Ok(
                    VarsModel {
                        entries: put(s.entries, "__varGroupHash__"@, Val::Str(group)),
                        rules: values_of(rules),
                    },
                )
            },
        },
    }
}

proof fn lemma_named_failure(
    e: Seq<(Seq<char>, Val)>,
    id: Seq<char>,
    options: ResolvedOptions,
    i: int,
    k: int,
)
    requires
        0 <= i <= k,
        named_upto(e, id, options, i) is Err,
    ensures
        named_upto(e, id, options, k) == named_upto(e, id, options, i),
    decreases k,
{
    if i < k {
        lemma_named_failure(e, id, options, i, k - 1);
    }
}

/// What owned entries of the evaluator are, mathematically.
pub open spec fn owned_js(v: Seq<(String, JsValue)>) -> Seq<(Seq<char>, Val)> {
    Seq::new(v.len(), |i: int| (v[i].0@, v[i].1.model()))
}

struct Named {
    js_output: JsObjectMap,
    typed: Vec<(String, (Option<String>, String))>,
    vars: Vec<(String, String, JsValue)>,
}

spec fn typed_models(v: Seq<(String, (Option<String>, String))>) -> TypedModel {
    Seq::new(v.len(), |i: int| (v[i].0@, (opt_text(v[i].1.0), v[i].1.1@)))
}

spec fn var_models(v: Seq<(String, String, JsValue)>) -> Seq<(Seq<char>, Seq<char>, Val)> {
    Seq::new(v.len(), |i: int| (v[i].0@, v[i].1@, v[i].2.model()))
}

impl Named {
    spec fn model(self) -> NamedModel {
        NamedModel {
            entries: self.js_output.pairs(),
            typed: typed_models(self.typed@),
            vars: var_models(self.vars@),
        }
    }
}

fn put_typed(
    typed: &mut Vec<(String, (Option<String>, String))>,
    name: &str,
    default: Option<String>,
    syntax: String,
)
    ensures
        typed_models(final(typed)@) == keyed_put(
            typed_models(old(typed)@),
            name@,
            (opt_text(default), syntax@),
        ),
{
    if str_eq(name, "__proto__") {
        return ;
    }
    let ghost before = typed_models(typed@);
    proof {
        assert(keys_of(before) =~= item_keys(typed@));
    }
    put_item(typed, name.to_owned(), (default, syntax));
    proof {
        assert(typed_models(typed@) =~= put(before, name@, (opt_text(default), syntax@)));
    }
}

fn name_var(start: Named, key: &str, value: &JsValue, id: &str, options: &ResolvedOptions) -> (r: Result<
    Named,
    StylexError,
>)
    ensures
        match r {
            Ok(n) => with_var(start.model(), key@, value.model(), id@, *options) == Ok::<
                NamedModel,
                ErrorModel,
            >(n.model()),
            Err(x) => with_var(start.model(), key@, value.model(), id@, *options) == Err::<
                NamedModel,
                ErrorModel,
            >(x.model()),
        },
        r is Ok ==> r->Ok_0.js_output.model().css == start.js_output.model().css,
{
    let name = name_const(key, id, options);
    let mut js_output = start.js_output;
    let mut typed = start.typed;
    let mut vars = start.vars;
    let ghost vm = var_models(vars@);
    let css_value = match as_css_type_js(value) {
        Some((syntax, inner)) => {
            match get_default_value(&inner) {
                Ok(d) => {
                    put_typed(&mut typed, name.as_str(), d, syntax);
                },
                Err(x) => {
                    return Err(x);
                },
            }
            inner
        },
        None => value.clone(),
    };
    let ghost cv = css_value.model();
    js_output.set(key, EvalValue::Str(concat3("var(--", name.as_str(), ")")));
    vars.push((key.to_owned(), name, css_value));
    proof {
        assert(var_models(vars@) =~= vm.push((key@, name@, cv)));
    }
    Ok(Named { js_output, typed, vars })
}

/// What rules under keys are, mathematically.
spec fn keyed_rules(v: Seq<(String, StylexRule)>) -> Seq<(Seq<char>, RuleModel)> {
    Seq::new(v.len(), |i: int| (v[i].0@, v[i].1.model()))
}

fn put_rule(rules: &mut Vec<(String, StylexRule)>, key: &str, rule: StylexRule)
    ensures
        keyed_rules(final(rules)@) == keyed_put(keyed_rules(old(rules)@), key@, rule.model()),
{
    if str_eq(key, "__proto__") {
        return ;
    }
    let ghost before = keyed_rules(rules@);
    let ghost m = rule.model();
    proof {
        assert(keys_of(before) =~= item_keys(rules@));
    }
    put_item(rules, key.to_owned(), rule);
    proof {
        assert(keyed_rules(rules@) =~= put(before, key@, m));
    }
}

fn make_property_rule(name: &str, default: &Option<String>, syntax: &str) -> (r: StylexRule)
    ensures
        r.model() == property_rule(name@, opt_text(*default), syntax@),
{
    let mut ltr = concat5("@property --", name, " { syntax: \"", syntax, "\"; inherits: true;");
    if let Some(t) = default {
        ltr.append(concat2(" initial-value: ", t.as_str()).as_str());
    }
    ltr.append(" }");
    proof {
        assert(ltr@ =~= "@property --"@ + name@ + " { syntax: \""@ + syntax@
            + "\"; inherits: true;"@ + initial_part(opt_text(*default)) + " }"@);
    }
    StylexRule::plain(name.to_owned(), ltr, None, JsNumber::from_int(0))
}

/// Gives the class name and the text of a group of declarations.
pub fn name_group(group: &str, key: &str, body: &str) -> (r: (String, String))
    ensures
        r.0@ == group_class(group@, key@),
        r.1@ == group_text(body@, key@),
{
    if str_eq(key, "default") {
        (group.to_owned(), body.to_owned())
    } else {
        (concat3(group, "-", hash(key).as_str()), wrap_with_at_rules(body, key))
    }
}

fn make_group_rule(group: &str, key: &str, decls: &Vec<String>) -> (r: StylexRule)
    ensures
        r.model() == group_rule(group@, key@, texts(decls@)),
{
    let body = concat5(":root, .", group, "{", concat_strings(decls).as_str(), "}");
    let (class, ltr) = name_group(group, key, body.as_str());
    StylexRule::plain(class, ltr, None, priority_for_at_rule(key).over(10))
}

fn arrange(c: &Vec<(String, Vec<String>)>) -> (r: Vec<(String, Vec<String>)>)
    ensures
        collection_models(r@) == as_object(collection_models(c@)),
{
    let ghost all = collection_models(c@);
    let mut out: Vec<(String, Vec<String>)> = Vec::new();
    proof {
        assert(collection_models(out@) =~= Seq::<(Seq<char>, Seq<Seq<char>>)>::empty());
    }
    let mut i: usize = 0;
    while i < c.len()
        invariant
            all == collection_models(c@),
            i <= c@.len(),
            collection_models(out@) == as_object_upto(all, i as int),
        decreases c@.len() - i,
    {
        assert(all[i as int] == (c@[i as int].0@, texts(c@[i as int].1@)));
        let ghost before = collection_models(out@);
        let decls = copy_texts(&c[i].1);
        let ghost ds = texts(decls@);
        proof {
            assert(keys_of(before) =~= item_keys(out@));
        }
        put_item(&mut out, c[i].0.clone(), decls);
        proof {
            assert(collection_models(out@) =~= put(before, all[i as int].0, ds));
        }
        i += 1;
    }
    proof {
        assert(all.len() == c@.len());
    }
    out
}

fn rules_of(typed: &Vec<(String, (Option<String>, String))>, c: &Vec<(String, Vec<String>)>, group: &str) -> (r:
    Vec<StylexRule>)
    ensures
        rule_models(r@) == ({
            let rules = typed_rules(typed_models(typed@), typed@.len() as int);
            let arranged = as_object(collection_models(c@));
            values_of(with_groups(rules, arranged, group@, arranged.len() as int))
        }),
{
    let ghost ts = typed_models(typed@);
    let mut merged: Vec<(String, StylexRule)> = Vec::new();
    proof {
        assert(keyed_rules(merged@) =~= Seq::<(Seq<char>, RuleModel)>::empty());
    }
    let mut i: usize = 0;
    while i < typed.len()
        invariant
            ts == typed_models(typed@),
            i <= typed@.len(),
            keyed_rules(merged@) == typed_rules(ts, i as int),
        decreases typed@.len() - i,
    {
        let (name, (default, syntax)) = &typed[i];
        assert(ts[i as int] == (name@, (opt_text(*default), syntax@)));
        let rule = make_property_rule(name.as_str(), default, syntax.as_str());
        put_rule(&mut merged, name.as_str(), rule);
        i += 1;
    }
    let arranged = arrange(c);
    let ghost gs = collection_models(arranged@);
    let ghost start = keyed_rules(merged@);
    i = 0;
    while i < arranged.len()
        invariant
            gs == collection_models(arranged@),
            i <= arranged@.len(),
            keyed_rules(merged@) == with_groups(start, gs, group@, i as int),
        decreases arranged@.len() - i,
    {
        let (key, decls) = &arranged[i];
        assert(gs[i as int] == (key@, texts(decls@)));
        let rule = make_group_rule(group, key.as_str(), decls);
        let class = rule.class_name.clone();
        put_rule(&mut merged, class.as_str(), rule);
        i += 1;
    }
    let ghost done = keyed_rules(merged@);
    let mut out: Vec<StylexRule> = Vec::new();
    i = 0;
    while i < merged.len()
        invariant
            done == keyed_rules(merged@),
            i <= merged@.len(),
            out@.len() == i,
            forall|j: int| 0 <= j < i ==> (#[trigger] out@[j]).model() == done[j].1,
        decreases merged@.len() - i,
    {
        assert(done[i as int].1 == merged@[i as int].1.model());
        out.push(merged[i].1.clone());
        i += 1;
    }
    proof {
        assert(gs.len() == arranged@.len());
        assert(rule_models(out@) =~= values_of(done));
    }
    out
}

/// Compiles variables whose values are already normal.
pub fn define_vars_core(
    normalized: &Vec<(String, JsValue)>,
    canonical_file_name: &str,
    export_name: &str,
    options: &ResolvedOptions,
) -> (r: Result<DefineVarsOutput, StylexError>)
    ensures
        vars_result(r) == vars_output(
            owned_js(normalized@),
            canonical_file_name@,
            export_name@,
            *options,
        ),
        r is Ok ==> r->Ok_0.js_output.model().css is None,
{
    let id = concat3(canonical_file_name, "//", export_name);
    let group = concat2(options.class_name_prefix.as_str(), hash(id.as_str()).as_str());
    let ghost e = owned_js(normalized@);
    let mut named = Named { js_output: JsObjectMap::new(), typed: Vec::new(), vars: Vec::new() };
    proof {
        assert(named.model() =~= NamedModel {
            entries: Seq::empty(),
            typed: Seq::empty(),
            vars: Seq::empty(),
        });
    }
    let mut i: usize = 0;
    while i < normalized.len()
        invariant
            e == owned_js(normalized@),
            id@ == export_id(canonical_file_name@, export_name@),
            i <= normalized@.len(),
            named.js_output.model().css is None,
            named_upto(e, id@, *options, i as int) == Ok::<NamedModel, ErrorModel>(named.model()),
        decreases normalized@.len() - i,
    {
        let (key, value) = &normalized[i];
        assert(e[i as int] == (key@, value.model()));
        named = match name_var(named, key.as_str(), value, id.as_str(), options) {
            Ok(n) => n,
            Err(x) => {
                proof {
                    lemma_named_failure(e, id@, *options, i + 1, e.len() as int);
                }
                return Err(x);
            },
        };
        i += 1;
    }
    let ghost vs = var_models(named.vars@);
    let mut collection: Vec<(String, Vec<String>)> = Vec::new();
    let none: Vec<String> = Vec::new();
    proof {
        assert(collection_models(collection@) =~= Seq::<(Seq<char>, Seq<Seq<char>>)>::empty());
        assert(texts(none@) =~= Seq::<Seq<char>>::empty());
    }
    i = 0;
    while i < named.vars.len()
        invariant
            vs == var_models(named.vars@),
            texts(none@) == Seq::<Seq<char>>::empty(),
            e == owned_js(normalized@),
            id@ == export_id(canonical_file_name@, export_name@),
            named_upto(e, id@, *options, e.len() as int) == Ok::<NamedModel, ErrorModel>(
                named.model(),
            ),
            i <= named.vars@.len(),
            named.js_output.model().css is None,
            declared_from(vs, 0, Seq::empty()) == declared_from(
                vs,
                i as int,
                collection_models(collection@),
            ),
        decreases named.vars@.len() - i,
    {
        let (key, name, value) = &named.vars[i];
        assert(vs[i as int] == (key@, name@, value.model()));
        match collect_vars_by_at_rule(
            key.as_str(),
            name.as_str(),
            value,
            &mut collection,
            &none,
        ) {
            Ok(_) => {},
            Err(x) => {
                return Err(x);
            },
        }
        i += 1;
    }
    let rules = rules_of(&named.typed, &collection, group.as_str());
    let mut js_output = named.js_output;
    js_output.set("__varGroupHash__", EvalValue::Str(group));
    proof {
        assert(typed_models(named.typed@).len() == named.typed@.len());
    }
    Ok(DefineVarsOutput { js_output, rules })
}

/// What the call of a function without arguments gave.
#[derive(Debug, PartialEq)]
pub struct ArrowOutcome {
    /// The function, as a value names it.
    pub key: u32,
    /// How many parameters it has.
    pub param_count: usize,
    /// The variables of its group that it refers to.
    pub deps: Vec<String>,
    /// Its result, if the result is known.
    pub result: Option<JsValue>,
}

/// What the call of a function gave, mathematically.
#[verifier::ext_equal]
pub struct ArrowModel {
    pub key: u32,
    pub param_count: usize,
    pub deps: Seq<Seq<char>>,
    pub result: Option<Val>,
}

impl ArrowOutcome {
    /// What the outcome is, mathematically.
    pub open spec fn model(self) -> ArrowModel {
        ArrowModel {
            key: self.key,
            param_count: self.param_count,
            deps: texts(self.deps@),
            result: match self.result {
                Some(v) => Some(v.model()),
                None => None,
            },
        }
    }
}

/// What outcomes are, mathematically.
pub open spec fn arrow_models(v: Seq<ArrowOutcome>) -> Seq<ArrowModel> {
    Seq::new(v.len(), |i: int| v[i].model())
}

/// The first outcome of a function from `i` on, or the number of outcomes.
pub open spec fn arrow_at(arrows: Seq<ArrowModel>, key: u32, i: int) -> int
    decreases arrows.len() - i,
{
    if i < 0 || i >= arrows.len() {
        arrows.len() as int
    } else if arrows[i].key == key {
        i
    } else {
        arrow_at(arrows, key, i + 1)
    }
}

/// The references after the first `k` of `more` were added, each once.
pub open spec fn with_deps(deps: Seq<Seq<char>>, more: Seq<Seq<char>>, k: int) -> Seq<Seq<char>>
    decreases k,
{
    if k <= 0 {
        deps
    } else {
        let done = with_deps(deps, more, k - 1);
        if done.contains(more[k - 1]) {
            done
        } else {
            done.push(more[k - 1])
        }
    }
}

/// What an object without keys is.
pub open spec fn empty_object() -> Val {
    Val::Obj(ObjModel { entries: Seq::empty(), css: None })
}

/// The value of a variable with its functions called, and the references that were
/// met on the way. What a function gave may name those before it only.
pub open spec fn normal_value(
    v: Val,
    root: Seq<char>,
    arrows: Seq<ArrowModel>,
    deps: Seq<Seq<char>>,
    allow_css_type: bool,
) -> (Seq<Seq<char>>, Result<Val, ErrorModel>)
    decreases arrows.len(), val_size(v), 0int,
    via normal_value_decreases
{
    match v {
        Val::Callable(CallableModel::Arrow(key)) => {
            let at = arrow_at(arrows, key, 0);
            if at < 0 || at >= arrows.len() {
                (deps, Err(non_static_value_model("defineVars"@)))
            } else if arrows[at].param_count != 0 {
                (deps, Err(define_vars_function_model()))
            } else {
                let all = with_deps(deps, arrows[at].deps, arrows[at].deps.len() as int);
                match arrows[at].result {
                    None => (all, Err(non_static_value_model("defineVars"@))),
                    Some(r) => if r is Callable {
                        (all, Err(define_vars_function_model()))
                    } else if css_type_of(r) is Some {
                        (all, Ok(r))
                    } else {
                        normal_value(r, root, arrows.take(at), all, false)
                    },
                }
            }
        },
        Val::Callable(CallableModel::Opaque) => (
            deps,
            Err(non_static_value_model("defineVars"@)),
        ),
        Val::Callable(_) => (deps, Err(define_vars_function_model())),
        Val::Str(_) | Val::Num(_) | Val::Null => (deps, Ok(v)),
        Val::Arr(_) => (deps, Err(array_in_define_vars_model())),
        Val::Obj(m) => if css_type_of(v) is Some {
            if allow_css_type {
                (deps, Ok(v))
            } else {
                (deps, Err(define_vars_function_model()))
            }
        } else if lacks_default(m.entries) {
            (deps, Err(missing_default_model(Some(root))))
        } else {
            match normal_entries(as_object(m.entries), 0, root, arrows, deps, Seq::empty()) {
                (all, Ok(e)) => (all, Ok(Val::Obj(ObjModel { entries: e, css: None }))),
                (all, Err(x)) => (all, Err(x)),
            }
        },
        Val::Proxy(_) => (deps, Ok(empty_object())),
        _ => (deps, Err(define_vars_value_model())),
    }
}

#[via_fn]
proof fn normal_value_decreases(
    v: Val,
    root: Seq<char>,
    arrows: Seq<ArrowModel>,
    deps: Seq<Seq<char>>,
    allow_css_type: bool,
) {
    match v {
        Val::Obj(m) => {
            lemma_as_object_size(m.entries, m.entries.len() as int);
        },
        _ => {},
    }
}

/// The entries of a value from `i` on with their functions called, behind those that
/// are done.
pub open spec fn normal_entries(
    e: Seq<(Seq<char>, Val)>,
    i: int,
    root: Seq<char>,
    arrows: Seq<ArrowModel>,
    deps: Seq<Seq<char>>,
    done: Seq<(Seq<char>, Val)>,
) -> (Seq<Seq<char>>, Result<Seq<(Seq<char>, Val)>, ErrorModel>)
    decreases arrows.len(), total_size(e), e.len() - i,
    via normal_entries_decreases
{
    if i < 0 || i >= e.len() {
        (deps, Ok(done))
    } else {
        match normal_value(e[i].1, root, arrows, deps, false) {
            (all, Ok(v)) => normal_entries(
                e,
                i + 1,
                root,
                arrows,
                all,
                append_put(done, e[i].0, v),
            ),
            (all, Err(x)) => (all, Err(x)),
        }
    }
}

#[via_fn]
proof fn normal_entries_decreases(
    e: Seq<(Seq<char>, Val)>,
    i: int,
    root: Seq<char>,
    arrows: Seq<ArrowModel>,
    deps: Seq<Seq<char>>,
    done: Seq<(Seq<char>, Val)>,
) {
    if 0 <= i < e.len() {
        lemma_entry_smaller(e, i);
    }
}

/// What a value of the evaluator or an error is, mathematically.
pub open spec fn js_result(r: Result<JsValue, StylexError>) -> Result<Val, ErrorModel> {
    match r {
        Ok(v) => Ok(v.model()),
        Err(e) => Err(e.model()),
    }
}

fn add_deps(deps: &mut Vec<String>, more: &Vec<String>)
    ensures
        texts(final(deps)@) == with_deps(
            texts(old(deps)@),
            texts(more@),
            more@.len() as int,
        ),
{
    let ghost ms = texts(more@);
    let ghost start = texts(deps@);
    let mut i: usize = 0;
    while i < more.len()
        invariant
            ms == texts(more@),
            i <= more@.len(),
            texts(deps@) == with_deps(start, ms, i as int),
        decreases more@.len() - i,
    {
        assert(ms[i as int] == more@[i as int]@);
        if !encloses(deps, more[i].as_str()) {
            let ghost before = texts(deps@);
            deps.push(more[i].clone());
            proof {
                assert(texts(deps@) =~= before.push(ms[i as int]));
            }
        }
        i += 1;
    }
}

/// Gives the value of a variable with its functions called. Only the first `known`
/// outcomes count.
fn normalize_value(
    value: &JsValue,
    root_key: &str,
    arrows: &Vec<ArrowOutcome>,
    known: usize,
    deps: &mut Vec<String>,
    allow_css_type: bool,
) -> (r: Result<JsValue, StylexError>)
    requires
        known <= arrows@.len(),
    ensures
        (texts(final(deps)@), js_result(r)) == normal_value(
            value.model(),
            root_key@,
            arrow_models(arrows@).take(known as int),
            texts(old(deps)@),
            allow_css_type,
        ),
    decreases known, val_size(value.model()),
{
    let ghost am = arrow_models(arrows@).take(known as int);
    match value {
        JsValue::Callable(Callable::Arrow(key)) => {
            let mut at: usize = 0;
            while at < known && arrows[at].key != *key
                invariant
                    known <= arrows@.len(),
                    am == arrow_models(arrows@).take(known as int),
                    at <= known,
                    arrow_at(am, *key, 0) == arrow_at(am, *key, at as int),
                decreases known - at,
            {
                assert(am[at as int] == arrows@[at as int].model());
                at += 1;
            }
            if at >= known {
                return Err(StylexError::non_static_value("defineVars"));
            }
            proof {
                assert(am[at as int] == arrows@[at as int].model());
                assert(am.take(at as int) =~= arrow_models(arrows@).take(at as int));
            }
            let arrow = &arrows[at];
            if arrow.param_count != 0 {
                return Err(StylexError::invalid_define_vars_function_value());
            }
            add_deps(deps, &arrow.deps);
            proof {
                assert(texts(arrow.deps@).len() == arrow.deps@.len());
            }
            match &arrow.result {
                None => Err(StylexError::non_static_value("defineVars")),
                Some(result) => {
                    if let JsValue::Callable(_) = result {
                        return Err(StylexError::invalid_define_vars_function_value());
                    }
                    if as_css_type_js(result).is_some() {
                        return Ok(result.clone());
                    }
                    normalize_value(result, root_key, arrows, at, deps, false)
                },
            }
        },
        JsValue::Callable(Callable::Stylex(_)) => Err(
            StylexError::invalid_define_vars_function_value(),
        ),
        JsValue::Callable(Callable::Opaque) => Err(StylexError::non_static_value("defineVars")),
        JsValue::Str(_) => Ok(value.clone()),
        JsValue::Num(_) => Ok(value.clone()),
        JsValue::Null => Ok(value.clone()),
        JsValue::Arr(_) => Err(StylexError::array_in_define_vars()),
        JsValue::Obj(obj) => {
            if as_css_type_js(value).is_some() {
                return if allow_css_type {
                    Ok(value.clone())
                } else {
                    Err(StylexError::invalid_define_vars_function_value())
                };
            }
            let missing = match obj.get("default") {
                None => true,
                Some(JsValue::Undefined) => true,
                _ => false,
            };
            if missing {
                return Err(StylexError::missing_default_value(Some(root_key)));
            }
            proof {
                lemma_as_object_size(obj.pairs(), obj.pairs().len() as int);
            }
            match normalize_entries(obj, root_key, arrows, known, deps) {
                Ok(out) => {
                    proof {
                        assert(out.model() =~= ObjModel { entries: out.pairs(), css: None });
                    }
                    Ok(JsValue::Obj(out))
                },
                Err(x) => Err(x),
            }
        },
        JsValue::Proxy(_) => {
            let none = JsObj::new();
            proof {
                assert(none.model() =~= empty_object()->Obj_0);
            }
            Ok(JsValue::Obj(none))
        },
        JsValue::Undefined => Err(StylexError::invalid_define_vars_value()),
        JsValue::Bool(_) => Err(StylexError::invalid_define_vars_value()),
    }
}

fn normalize_entries(
    obj: &JsObj,
    root_key: &str,
    arrows: &Vec<ArrowOutcome>,
    known: usize,
    deps: &mut Vec<String>,
) -> (r: Result<JsObj, StylexError>)
    requires
        known <= arrows@.len(),
    ensures
        match r {
            Ok(out) => out.model().css is None && (
                texts(final(deps)@),
                Ok::<Seq<(Seq<char>, Val)>, ErrorModel>(out.pairs()),
            ) == normal_entries(
                as_object(obj.pairs()),
                0,
                root_key@,
                arrow_models(arrows@).take(known as int),
                texts(old(deps)@),
                Seq::empty(),
            ),
            Err(x) => (
                texts(final(deps)@),
                Err::<Seq<(Seq<char>, Val)>, ErrorModel>(x.model()),
            ) == normal_entries(
                as_object(obj.pairs()),
                0,
                root_key@,
                arrow_models(arrows@).take(known as int),
                texts(old(deps)@),
                Seq::empty(),
            ),
        },
    decreases known, total_size(as_object(obj.pairs())),
{
    let ghost am = arrow_models(arrows@).take(known as int);
    let entries = es_ordered_entries(obj);
    let ghost e = as_object(obj.pairs());
    let ghost start = texts(deps@);
    let mut out = JsObj::new();
    let mut i: usize = 0;
    while i < entries.len()
        invariant
            known <= arrows@.len(),
            am == arrow_models(arrows@).take(known as int),
            e == as_object(obj.pairs()),
            e == js_entry_models(entries@),
            start == texts(old(deps)@),
            i <= entries@.len(),
            out.model().css is None,
            normal_entries(e, 0, root_key@, am, start, Seq::empty()) == normal_entries(
                e,
                i as int,
                root_key@,
                am,
                texts(deps@),
                out.pairs(),
            ),
        decreases entries@.len() - i,
    {
        let (k, v) = entries[i];
        proof {
            assert(e[i as int] == (k@, v.model()));
            lemma_entry_smaller(e, i as int);
        }
        match normalize_value(v, root_key, arrows, known, deps, false) {
            Ok(x) => {
                out.insert(k.to_owned(), x);
            },
            Err(x) => {
                return Err(x);
            },
        }
        i += 1;
    }
    Ok(out)
}

/// The entries of the argument of a call, if it has entries.
pub open spec fn call_entries(v: Val) -> Option<Seq<(Seq<char>, Val)>> {
    match v {
        Val::Obj(m) => Some(as_object(m.entries)),
        Val::Arr(items) => Some(
            Seq::new(items.len(), |i: int| (decimal(i as nat), items[i])),
        ),
        Val::Proxy(_) => Some(Seq::empty()),
        _ => None,
    }
}

/// The normal values of the first `k` variables, and their references.
pub open spec fn normal_upto(e: Seq<(Seq<char>, Val)>, arrows: Seq<ArrowModel>, k: int) -> Result<
    (Seq<(Seq<char>, Val)>, DepsModel),
    ErrorModel,
>
    decreases k,
{
    if k <= 0 {
        Ok((Seq::empty(), Seq::empty()))
    } else {
        match normal_upto(e, arrows, k - 1) {
            Err(x) => Err(x),
            Ok((vars, deps)) => match normal_value(
                e[k - 1].1,
                e[k - 1].0,
                arrows,
                Seq::empty(),
                true,
            ) {
                (ds, Ok(v)) => Ok((vars.push((e[k - 1].0, v)), deps.push((e[k - 1].0, ds)))),
                (_, Err(x)) => Err(x),
            },
        }
    }
}

/// The first reference of a variable, from the `i`th on, that no variable has.
pub open spec fn unknown_from(keys: Seq<Seq<char>>, deps: Seq<Seq<char>>, i: int) -> Option<Seq<char>>
    decreases deps.len() - i,
{
    if i < 0 || i >= deps.len() {
        None
    } else if deps[i] != "__varGroupHash__"@ && !keys.contains(deps[i]) {
        Some(deps[i])
    } else {
        unknown_from(keys, deps, i + 1)
    }
}

/// The error for the first reference, from the `i`th variable on, that no variable
/// has.
pub open spec fn unknown_error(keys: Seq<Seq<char>>, map: DepsModel, i: int) -> Option<ErrorModel>
    decreases map.len() - i,
{
    if i < 0 || i >= map.len() {
        None
    } else {
        match unknown_from(keys, map[i].1, 0) {
            Some(dep) => Some(
                said(
                    ErrorCode::UnknownDefineVarsReference,
                    "Variable \""@ + map[i].0 + "\" refers to the unknown variable \""@ + dep
                        + "\" of its group."@,
                ),
            ),
            None => unknown_error(keys, map, i + 1),
        }
    }
}

/// What the variables that a file exports compile to.
pub open spec fn define_vars_output(
    v: Val,
    arrows: Seq<ArrowModel>,
    file: Seq<char>,
    export: Seq<char>,
    options: ResolvedOptions,
) -> Result<VarsModel, ErrorModel> {
    match call_entries(v) {
        None => Err(non_style_object_model("defineVars"@)),
        Some(e) => match normal_upto(e, arrows, e.len() as int) {
            Err(x) => Err(x),
            Ok((vars, deps)) => match unknown_error(keys_of(vars), deps, 0) {
                Some(x) => Err(x),
                None => match cycle_error(deps) {
                    Some(x) => Err(x),
                    None => vars_output(vars, file, export, options),
                },
            },
        },
    }
}

/// Gives the entries of the argument of a call, if it has entries.
pub fn entries_of_call(value: &JsValue) -> (r: Option<Vec<(String, JsValue)>>)
    ensures
        match r {
            Some(v) => call_entries(value.model()) == Some(owned_js(v@)),
            None => call_entries(value.model()) is None,
        },
{
    let mut out: Vec<(String, JsValue)> = Vec::new();
    match value {
        JsValue::Obj(obj) => {
            let entries = es_ordered_entries(obj);
            let ghost e = js_entry_models(entries@);
            let mut i: usize = 0;
            while i < entries.len()
                invariant
                    e == js_entry_models(entries@),
                    i <= entries@.len(),
                    out@.len() == i,
                    forall|j: int|
                        0 <= j < i ==> (#[trigger] out@[j]).0@ == e[j].0 && out@[j].1.model()
                            == e[j].1,
                decreases entries@.len() - i,
            {
                let (k, v) = entries[i];
                assert(e[i as int] == (k@, v.model()));
                out.push((k.to_owned(), v.clone()));
                i += 1;
            }
            proof {
                assert(owned_js(out@) =~= e);
            }
            Some(out)
        },
        JsValue::Arr(items) => {
            let ghost all = value.model()->Arr_0;
            let mut i: usize = 0;
            while i < items.len()
                invariant
                    *value == JsValue::Arr(*items),
                    all == value.model()->Arr_0,
                    i <= items@.len(),
                    out@.len() == i,
                    forall|j: int|
                        0 <= j < i ==> (#[trigger] out@[j]).0@ == decimal(j as nat)
                            && out@[j].1.model() == all[j],
                decreases items@.len() - i,
            {
                assert(all[i as int] == items@[i as int].model());
                out.push((decimal_text(i as u64), items[i].clone()));
                i += 1;
            }
            proof {
                assert(owned_js(out@) =~= call_entries(value.model())->0);
            }
            Some(out)
        },
        JsValue::Proxy(_) => {
            proof {
                assert(owned_js(out@) =~= Seq::<(Seq<char>, Val)>::empty());
            }
            Some(out)
        },
        _ => None,
    }
}

proof fn lemma_normal_failure(
    e: Seq<(Seq<char>, Val)>,
    arrows: Seq<ArrowModel>,
    i: int,
    k: int,
)
    requires
        0 <= i <= k,
        normal_upto(e, arrows, i) is Err,
    ensures
        normal_upto(e, arrows, k) == normal_upto(e, arrows, i),
    decreases k,
{
    if i < k {
        lemma_normal_failure(e, arrows, i, k - 1);
    }
}

fn check_references(vars: &Vec<(String, JsValue)>, map: &Vec<(String, Vec<String>)>) -> (r: Result<
    (),
    StylexError,
>)
    ensures
        fails_as(r, unknown_error(keys_of(owned_js(vars@)), deps_models(map@), 0)),
{
    let ghost keys = keys_of(owned_js(vars@));
    let ghost m = deps_models(map@);
    let mut i: usize = 0;
    while i < map.len()
        invariant
            keys == keys_of(owned_js(vars@)),
            m == deps_models(map@),
            i <= map@.len(),
            unknown_error(keys, m, 0) == unknown_error(keys, m, i as int),
        decreases map@.len() - i,
    {
        let (key, deps) = &map[i];
        let ghost ds = texts(deps@);
        assert(m[i as int] == (key@, ds));
        let mut j: usize = 0;
        while j < deps.len()
            invariant
                keys == keys_of(owned_js(vars@)),
                i < map@.len(),
                m == deps_models(map@),
                m[i as int] == (key@, ds),
                unknown_error(keys, m, 0) == unknown_error(keys, m, i as int),
                ds == texts(deps@),
                j <= deps@.len(),
                unknown_from(keys, ds, 0) == unknown_from(keys, ds, j as int),
            decreases deps@.len() - j,
        {
            let dep = deps[j].as_str();
            assert(ds[j as int] == dep@);
            let at: usize = position_of(vars, dep);
            proof {
                assert(keys =~= item_keys(vars@));
                lemma_find_key(keys, dep@, 0);
                if at < vars@.len() {
                    assert(keys[at as int] == dep@);
                }
            }
            if !str_eq(dep, "__varGroupHash__") && at >= vars.len() {
                return Err(StylexError::unknown_define_vars_reference(key.as_str(), dep));
            }
            j += 1;
        }
        i += 1;
    }
    Ok(())
}

/// Compiles the variables that a file exports. `arrows` says what the functions among
/// the values gave, each behind those that its result names.
pub fn define_vars(
    value: &JsValue,
    arrows: &Vec<ArrowOutcome>,
    canonical_file_name: &str,
    export_name: &str,
    options: &ResolvedOptions,
) -> (r: Result<DefineVarsOutput, StylexError>)
    ensures
        vars_result(r) == define_vars_output(
            value.model(),
            arrow_models(arrows@),
            canonical_file_name@,
            export_name@,
            *options,
        ),
        r is Ok ==> r->Ok_0.js_output.model().css is None,
{
    let entries = match entries_of_call(value) {
        Some(v) => v,
        None => {
            return Err(StylexError::non_style_object("defineVars"));
        },
    };
    let ghost e = owned_js(entries@);
    let ghost am = arrow_models(arrows@);
    proof {
        assert(am.take(arrows@.len() as int) =~= am);
    }
    let mut vars: Vec<(String, JsValue)> = Vec::new();
    let mut map: Vec<(String, Vec<String>)> = Vec::new();
    proof {
        assert(owned_js(vars@) =~= Seq::<(Seq<char>, Val)>::empty());
        assert(deps_models(map@) =~= Seq::<(Seq<char>, Seq<Seq<char>>)>::empty());
    }
    let mut i: usize = 0;
    while i < entries.len()
        invariant
            e == owned_js(entries@),
            am == arrow_models(arrows@),
            am.take(arrows@.len() as int) == am,
            call_entries(value.model()) == Some(e),
            i <= entries@.len(),
            normal_upto(e, am, i as int) == Ok::<
                (Seq<(Seq<char>, Val)>, DepsModel),
                ErrorModel,
            >((owned_js(vars@), deps_models(map@))),
        decreases entries@.len() - i,
    {
        let (key, v) = &entries[i];
        assert(e[i as int] == (key@, v.model()));
        let mut deps: Vec<String> = Vec::new();
        proof {
            assert(texts(deps@) =~= Seq::<Seq<char>>::empty());
        }
        match normalize_value(v, key.as_str(), arrows, arrows.len(), &mut deps, true) {
            Ok(x) => {
                let ghost vm = owned_js(vars@);
                let ghost dm = deps_models(map@);
                let ghost xm = x.model();
                let ghost ds = texts(deps@);
                vars.push((key.clone(), x));
                map.push((key.clone(), deps));
                proof {
                    assert(owned_js(vars@) =~= vm.push((key@, xm)));
                    assert(deps_models(map@) =~= dm.push((key@, ds)));
                }
            },
            Err(x) => {
                proof {
                    lemma_normal_failure(e, am, i + 1, e.len() as int);
                }
                return Err(x);
            },
        }
        i += 1;
    }
    match check_references(&vars, &map) {
        Ok(_) => {},
        Err(x) => {
            return Err(x);
        },
    }
    match assert_no_define_vars_cycles(&map) {
        Ok(_) => {},
        Err(x) => {
            return Err(x);
        },
    }
    define_vars_core(&vars, canonical_file_name, export_name, options)
}

} // verus!
