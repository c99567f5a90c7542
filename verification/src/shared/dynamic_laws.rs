//! What calls give styles: which values may be missing, and which classes depend on them.

use crate::options::ResolvedOptions;
use crate::rules::RuleModel;
use crate::shared::dynamic::{
    all_paths_upto, class_parts, classes_in, dynamic_output, inherit_rule, never_nullish,
    value_place, with_key, with_keys, DynamicModel, ExprModel, InlineModel, Lookup, PartModel,
};
use crate::text::has_prefix;
use crate::value::Val;
use vstd::prelude::*;

verus! {

/// What an expression can come to, as far as operators ask: `null` or undefined, something else
/// that counts as false, or something that counts as true.
pub enum Outcome {
    Missing,
    False,
    True,
}

/// Whether an expression may come to something. Operators on numbers give numbers and texts, and
/// `void` gives undefined; nothing is known of names and of calls.
pub open spec fn may_be(e: ExprModel, o: Outcome) -> bool
    decreases e,
{
    match e {
        ExprModel::Template
        | ExprModel::StringLiteral
        | ExprModel::NumberLiteral
        | ExprModel::BoolLiteral => !(o is Missing),
        ExprModel::NullLiteral => o is Missing,
        ExprModel::Binary(_) => !(o is Missing),
        ExprModel::Unary(op) => if op == "void"@ {
            o is Missing
        } else {
            !(o is Missing)
        },
        ExprModel::Conditional(a, b) => may_be(*a, o) || may_be(*b, o),
        ExprModel::Logical(op, a, b) => if op == "??"@ {
            (!(o is Missing) && may_be(*a, o)) || (may_be(*a, Outcome::Missing) && may_be(*b, o))
        } else if op == "||"@ {
            (o is True && may_be(*a, o)) || ((may_be(*a, Outcome::Missing) || may_be(
                *a,
                Outcome::False,
            )) && may_be(*b, o))
        } else if op == "&&"@ {
            (!(o is True) && may_be(*a, o)) || (may_be(*a, Outcome::True) && may_be(*b, o))
        } else {
            true
        },
        ExprModel::Paren(a) => may_be(*a, o),
        _ => true,
    }
}

/// Whether no choice between two values by their truth leaves the second open.
pub open spec fn seconds_are_there(e: ExprModel) -> bool
    decreases e,
{
    match e {
        ExprModel::Conditional(a, b) => seconds_are_there(*a) && seconds_are_there(*b),
        ExprModel::Logical(op, a, b) => seconds_are_there(*a) && seconds_are_there(*b) && (op == "||"@
            ==> never_nullish(*b)),
        ExprModel::Paren(a) => seconds_are_there(*a),
        _ => true,
    }
}

/// A value whose check for `null` is left out is never `null` or undefined.
pub proof fn unchecked_values_are_there(e: ExprModel)
    requires
        never_nullish(e),
        seconds_are_there(e),
    ensures
        !may_be(e, Outcome::Missing),
    decreases e,
{
    reveal_strlit("void");
    reveal_strlit("-");
    reveal_strlit("+");
    reveal_strlit("??");
    reveal_strlit("||");
    reveal_strlit("&&");
    assert("void"@.len() == 4 && "-"@.len() == 1 && "+"@.len() == 1);
    assert("??"@[0] == '?' && "||"@[0] == '|' && "&&"@[0] == '&');
    match e {
        ExprModel::Conditional(a, b) => {
            unchecked_values_are_there(*a);
            unchecked_values_are_there(*b);
        },
        ExprModel::Logical(op, a, b) => {
            if op == "??"@ {
                if never_nullish(*a) {
                    unchecked_values_are_there(*a);
                } else {
                    unchecked_values_are_there(*b);
                }
            } else if op == "||"@ {
                unchecked_values_are_there(*b);
            } else {
                unchecked_values_are_there(*a);
                unchecked_values_are_there(*b);
            }
        },
        ExprModel::Paren(a) => {
            unchecked_values_are_there(*a);
        },
        _ => {},
    }
}

/// A class depends on a value exactly where that value may be missing: it is guarded by it there,
/// and stands alone everywhere else. Classes have a space between.
pub proof fn missing_values_guard_their_classes(classes: Seq<Seq<char>>, l: Lookup, i: int)
    requires
        0 <= i < classes.len(),
    ensures
        ({
            let text = if i + 1 < classes.len() {
                classes[i] + " "@
            } else {
                classes[i]
            };
            class_parts(classes, l).len() == classes.len() && class_parts(classes, l)[i] == match value_place(
                classes[i],
                l.class_paths,
                l.places,
                l.styles,
                l.rules,
            ) {
                Some(p) if !l.styles[p].1.safe => PartModel::Guarded(text, l.styles[p].1.span),
                _ => PartModel::Lit(text),
            }
        }),
{
}

/// Whether a key has its classes in what a function compiles to: alone where none of them depends
/// on a value, and by parts where one does.
pub open spec fn has_classes(out: DynamicModel, key: Seq<char>, v: Val, l: Lookup) -> bool {
    let parts = class_parts(classes_in(v), l);
    if forall|i: int| 0 <= i < parts.len() ==> (#[trigger] parts[i]) is Lit {
        out.static_props.contains((key, Seq::new(parts.len(), |i: int| parts[i]->Lit_0)))
    } else {
        out.conditional_props.contains((key, parts))
    }
}

proof fn lemma_with_key(s: DynamicModel, key: Seq<char>, v: Val, l: Lookup)
    ensures
        key != "$$css"@ ==> has_classes(with_key(s, key, v, l), key, v, l),
        forall|k: Seq<char>, w: Val| #[trigger]
            has_classes(s, k, w, l) ==> has_classes(with_key(s, key, v, l), k, w, l),
{
    let out = with_key(s, key, v, l);
    let parts = class_parts(classes_in(v), l);
    let plain = (key, Seq::new(parts.len(), |i: int| parts[i]->Lit_0));
    if key != "$$css"@ {
        if crate::shared::dynamic::all_literal(parts) {
            assert(out.static_props.last() == plain);
            assert(out.static_props[s.static_props.len() as int] == plain);
        } else {
            assert(out.conditional_props.last() == (key, parts));
            assert(out.conditional_props[s.conditional_props.len() as int] == (key, parts));
        }
    }
    assert forall|k: Seq<char>, w: Val| #[trigger] has_classes(s, k, w, l) implies has_classes(
        out,
        k,
        w,
        l,
    ) by {
        let own = class_parts(classes_in(w), l);
        if forall|i: int| 0 <= i < own.len() ==> (#[trigger] own[i]) is Lit {
            let x = (k, Seq::new(own.len(), |i: int| own[i]->Lit_0));
            let j = choose|j: int| 0 <= j < s.static_props.len() && s.static_props[j] == x;
            assert(out.static_props[j] == x);
        } else {
            let x = (k, own);
            let j = choose|j: int| 0 <= j < s.conditional_props.len() && s.conditional_props[j] == x;
            assert(out.conditional_props[j] == x);
        }
    }
}

proof fn lemma_with_keys(s: DynamicModel, e: Seq<(Seq<char>, Val)>, l: Lookup, k: int, i: int)
    requires
        0 <= i < k <= e.len(),
        e[i].0 != "$$css"@,
    ensures
        has_classes(with_keys(s, e, l, k), e[i].0, e[i].1, l),
    decreases k,
{
    let before = with_keys(s, e, l, k - 1);
    lemma_with_key(before, e[k - 1].0, e[k - 1].1, l);
    if i < k - 1 {
        lemma_with_keys(s, e, l, k - 1, i);
    }
}

/// Every key of a style that a call gives values to has its classes in what the function compiles
/// to.
pub proof fn keys_keep_their_classes(
    e: Seq<(Seq<char>, Val)>,
    class_paths: Seq<(Seq<char>, Seq<Seq<char>>)>,
    params: Seq<Seq<char>>,
    styles: Seq<(Seq<char>, InlineModel)>,
    rules: Seq<RuleModel>,
    options: ResolvedOptions,
    i: int,
)
    requires
        0 <= i < e.len(),
        e[i].0 != "$$css"@,
    ensures
        ({
            let l = Lookup {
                class_paths,
                places: all_paths_upto(styles, options, styles.len() as int),
                styles,
                rules,
            };
            has_classes(
                dynamic_output(e, class_paths, params, styles, rules, options),
                e[i].0,
                e[i].1,
                l,
            )
        }),
{
    let l = Lookup {
        class_paths,
        places: all_paths_upto(styles, options, styles.len() as int),
        styles,
        rules,
    };
    let start = DynamicModel {
        params,
        static_props: Seq::empty(),
        conditional_props: Seq::empty(),
        css_tag: Val::Bool(true),
        inline_vars: Seq::new(
            styles.len(),
            |i: int| (styles[i].0, styles[i].1.unit, styles[i].1.span),
        ),
    };
    lemma_with_keys(start, e, l, e.len() as int, i);
}

/// The variable of a value is handed down exactly where a pseudo-element has to see it.
pub proof fn pseudo_elements_see_their_variables(name: Seq<char>, style: InlineModel, i: int)
    ensures
        0 <= i < style.key_path.len() && has_prefix(style.key_path[i], "::"@) ==> inherit_rule(
            name,
            style,
        ).ltr == "@property "@ + name + " { syntax: \"*\"; inherits: "@ + "true"@ + ";}"@,
        (forall|j: int|
            0 <= j < style.key_path.len() ==> !has_prefix(#[trigger] style.key_path[j], "::"@))
            ==> inherit_rule(name, style).ltr == "@property "@ + name
            + " { syntax: \"*\"; inherits: "@ + "false"@ + ";}"@,
        inherit_rule(name, style).class_name == name,
        inherit_rule(name, style).rtl is None,
{
}

} // verus!
