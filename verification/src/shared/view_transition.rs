//! Classes of view transitions.

use crate::errors::{
    non_style_object_model, type_crash_model, view_transition_property_model, ErrorModel,
    StylexError,
};
use crate::hash::{hash, hash_text};
use crate::number::JsNumber;
use crate::options::ResolvedOptions;
use crate::rules::{plain_rule, RuleModel, StylexRule};
use crate::shared::dashify::{dashify, dashify_text};
use crate::shared::keyframes::{declarations_text, write_declarations};
use crate::shared::position_try::{
    all_listed, expand_dashify_transform, js_entries, keys_are_listed, named_rule,
    object_entries_js, style_texts, TextsModel,
};
use crate::text::concat2;
use crate::value::{text_pairs, EvalValue, Val};
use vstd::prelude::*;

verus! {

/// The parts of a view transition that a class can style.
pub const VALID_VIEW_TRANSITION_CLASS_PROPERTIES: [&'static str; 4] = [
    "group",
    "imagePair",
    "old",
    "new",
];

/// The selectors of the first `k` parts with their declarations.
pub open spec fn parts_upto(e: Seq<(Seq<char>, Val)>, options: ResolvedOptions, k: int) -> Result<
    TextsModel,
    ErrorModel,
>
    decreases k,
{
    if k <= 0 {
        Ok(Seq::empty())
    } else {
        match parts_upto(e, options, k - 1) {
            Err(x) => Err(x),
            Ok(done) => match js_entries(e[k - 1].1) {
                None => Err(type_crash_model("a nullish viewTransitionClass style value"@)),
                Some(style) => match style_texts(style, options) {
                    Err(x) => Err(x),
                    Ok(t) => Ok(
                        done.push(
                            (
                                "::view-transition-"@ + dashify_text(e[k - 1].0),
                                declarations_text(t, t.len() as int),
                            ),
                        ),
                    ),
                },
            },
        }
    }
}

/// The rules of the first `k` parts.
pub open spec fn parts_css(parts: TextsModel, class: Seq<char>, k: int) -> Seq<char>
    decreases k,
{
    if k <= 0 {
        Seq::empty()
    } else {
        parts_css(parts, class, k - 1) + parts[k - 1].0 + "(*."@ + class + "){"@ + parts[k - 1].1
            + "}"@
    }
}

/// The name and the rule of a class of view transitions.
pub open spec fn transition_class(v: Val, options: ResolvedOptions) -> Result<
    (Seq<char>, RuleModel),
    ErrorModel,
> {
    match v {
        Val::Obj(m) => if !all_listed(m.entries, VALID_VIEW_TRANSITION_CLASS_PROPERTIES@) {
            Err(view_transition_property_model())
        } else {
            match parts_upto(m.entries, options, m.entries.len() as int) {
                Err(x) => Err(x),
                Ok(parts) => {
                    let class = options.class_name_prefix@ + hash_text(
                        declarations_text(parts, parts.len() as int),
                    );
                    Ok(
                        (
                            class,
                            plain_rule(
                                class,
                                parts_css(parts, class, parts.len() as int),
                                None,
                                JsNumber::natural(1),
                            ),
                        ),
                    )
                },
            }
        },
        _ => Err(non_style_object_model("viewTransitionClass"@)),
    }
}

proof fn lemma_parts_failure(e: Seq<(Seq<char>, Val)>, options: ResolvedOptions, i: int, k: int)
    requires
        0 <= i <= k,
        parts_upto(e, options, i) is Err,
    ensures
        parts_upto(e, options, k) == parts_upto(e, options, i),
    decreases k,
{
    if i < k {
        lemma_parts_failure(e, options, i, k - 1);
    }
}

/// Gives the name and the rule of a class of view transitions.
pub fn view_transition_class(styles: &EvalValue, options: &ResolvedOptions) -> (r: Result<
    (String, StylexRule),
    StylexError,
>)
    ensures
        named_rule(r) == transition_class(styles.model(), *options),
{
    let map = match styles {
        EvalValue::Obj(map) => map,
        _ => {
            return Err(StylexError::non_style_object("viewTransitionClass"));
        },
    };
    if !keys_are_listed(map, &VALID_VIEW_TRANSITION_CLASS_PROPERTIES) {
        return Err(StylexError::view_transition_class_invalid_property());
    }
    let ghost e = map.pairs();
    let mut parts: Vec<(String, String)> = Vec::new();
    proof {
        assert(text_pairs(parts@) =~= Seq::<(Seq<char>, Seq<char>)>::empty());
    }
    let mut i: usize = 0;
    while i < map.items.len()
        invariant
            e == map.pairs(),
            styles.model() == Val::Obj(map.model()),
            all_listed(e, VALID_VIEW_TRANSITION_CLASS_PROPERTIES@),
            i <= map.items@.len(),
            parts_upto(e, *options, i as int) == Ok::<TextsModel, ErrorModel>(text_pairs(parts@)),
        decreases map.items@.len() - i,
    {
        let (key, style) = &map.items[i];
        assert(e[i as int] == (key@, style.model()));
        let entries = match object_entries_js(style, "a nullish viewTransitionClass style value") {
            Ok(m) => m,
            Err(x) => {
                proof {
                    lemma_parts_failure(e, *options, i + 1, e.len() as int);
                }
                return Err(x);
            },
        };
        let decls = match expand_dashify_transform(&entries, options) {
            Ok(v) => v,
            Err(x) => {
                proof {
                    lemma_parts_failure(e, *options, i + 1, e.len() as int);
                }
                return Err(x);
            },
        };
        proof {
            assert(text_pairs(decls@).len() == decls@.len());
        }
        let selector = concat2("::view-transition-", dashify(key.as_str()).as_str());
        let body = write_declarations(&decls);
        let ghost before = text_pairs(parts@);
        parts.push((selector, body));
        proof {
            assert(text_pairs(parts@) =~= before.push((selector@, body@)));
        }
        i += 1;
    }
    let ghost ps = text_pairs(parts@);
    proof {
        assert(ps.len() == parts@.len());
    }
    let recipe = write_declarations(&parts);
    let class = concat2(options.class_name_prefix.as_str(), hash(recipe.as_str()).as_str());
    let mut css = String::new();
    i = 0;
    while i < parts.len()
        invariant
            ps == text_pairs(parts@),
            i <= parts@.len(),
            css@ == parts_css(ps, class@, i as int),
        decreases parts@.len() - i,
    {
        assert(ps[i as int] == (parts@[i as int].0@, parts@[i as int].1@));
        css.append(parts[i].0.as_str());
        css.append("(*.");
        css.append(class.as_str());
        css.append("){");
        css.append(parts[i].1.as_str());
        css.append("}");
        i += 1;
    }
    let rule = StylexRule::plain(class.clone(), css, None, JsNumber::from_int(1));
    Ok((class, rule))
}

} // verus!
