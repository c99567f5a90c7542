//! Animations.

use crate::errors::{
    non_object_keyframe_model, non_style_object_model, type_crash_model, ErrorModel, StylexError,
};
use crate::hash::{hash, hash_text};
use crate::number::JsNumber;
use crate::options::ResolvedOptions;
use crate::rules::{plain_rule, RuleModel, StylexRule};
use crate::shared::position_try::{expand_dashify_transform, named_rule, style_texts, TextsModel};
use crate::shared::rtl::{generate_ltr, generate_rtl, ltr_pair, rtl_pair, RtlContext};
use crate::text::{concat2, concat3, concat5, str_eq};
use crate::value::{put, put_text, text_pairs, EvalValue, JsObjectMap, Val};
use vstd::prelude::*;

verus! {

/// Which way the declarations of a frame are written.
#[derive(Debug, Clone, Copy, PartialEq, Eq)]
pub enum Side {
    /// From left to right.
    Ltr,
    /// From right to left.
    Rtl,
}

/// A declaration of a frame.
pub open spec fn frame_pair(key: Seq<char>, value: Seq<char>, side: Side, ctx: RtlContext) -> (
    Seq<char>,
    Seq<char>,
) {
    match side {
        Side::Ltr => ltr_pair(key, value, ctx),
        Side::Rtl => match rtl_pair(key, value, ctx) {
            Some(p) => p,
            None => (key, value),
        },
    }
}

/// The first `k` declarations of a frame.
pub open spec fn frame_upto(e: TextsModel, side: Side, ctx: RtlContext, k: int) -> TextsModel
    decreases k,
{
    if k <= 0 {
        Seq::empty()
    } else {
        let p = frame_pair(e[k - 1].0, e[k - 1].1, side, ctx);
        put(frame_upto(e, side, ctx, k - 1), p.0, p.1)
    }
}

/// The text of the first `k` declarations.
pub open spec fn declarations_text(e: TextsModel, k: int) -> Seq<char>
    decreases k,
{
    if k <= 0 {
        Seq::empty()
    } else {
        declarations_text(e, k - 1) + e[k - 1].0 + ":"@ + e[k - 1].1 + ";"@
    }
}

/// The text of a frame.
pub open spec fn frame_text(name: Seq<char>, e: TextsModel, side: Side, ctx: RtlContext) -> Seq<
    char,
> {
    let decls = frame_upto(e, side, ctx, e.len() as int);
    name + "{"@ + declarations_text(decls, decls.len() as int) + "}"@
}

/// The frames of an animation: from left to right, from right to left, and as they
/// are without options.
#[verifier::ext_equal]
pub struct FramesModel {
    pub ltr: Seq<char>,
    pub rtl: Seq<char>,
    pub stable: Seq<char>,
}

/// The texts of the first `k` frames.
pub open spec fn frames_upto(e: Seq<(Seq<char>, Val)>, options: ResolvedOptions, k: int) -> Result<
    FramesModel,
    ErrorModel,
>
    decreases k,
{
    if k <= 0 {
        Ok(FramesModel { ltr: Seq::empty(), rtl: Seq::empty(), stable: Seq::empty() })
    } else {
        match frames_upto(e, options, k - 1) {
            Err(x) => Err(x),
            Ok(done) => match e[k - 1].1 {
                Val::Obj(m) => match style_texts(m.entries, options) {
                    Err(x) => Err(x),
                    Ok(t) => {
                        let name = e[k - 1].0;
                        let ctx = RtlContext::context_of(options);
                        Ok(
                            FramesModel {
                                ltr: done.ltr + frame_text(name, t, Side::Ltr, ctx),
                                rtl: done.rtl + frame_text(name, t, Side::Rtl, ctx),
                                stable: done.stable + frame_text(
                                    name,
                                    t,
                                    Side::Ltr,
                                    RtlContext::default_context(),
                                ),
                            },
                        )
                    },
                },
                _ => Err(type_crash_model("a null keyframes frame"@)),
            },
        }
    }
}

/// Whether every frame is an object or `null`.
pub open spec fn frames_valid(e: Seq<(Seq<char>, Val)>) -> bool {
    forall|i: int| 0 <= i < e.len() ==> (#[trigger] e[i]).1 is Obj || e[i].1 is Null
}

/// The rule of an animation.
pub open spec fn animation_rule(name: Seq<char>, f: FramesModel) -> RuleModel {
    plain_rule(
        name,
        "@keyframes "@ + name + "{"@ + f.ltr + "}"@,
        if f.ltr == f.rtl {
            None
        } else {
            Some("@keyframes "@ + name + "{"@ + f.rtl + "}"@)
        },
        JsNumber::natural(0),
    )
}

/// The name and the rule of an animation. The name rests on the frames as they are
/// without options.
pub open spec fn animation(v: Val, options: ResolvedOptions) -> Result<
    (Seq<char>, RuleModel),
    ErrorModel,
> {
    match v {
        Val::Obj(m) => if !frames_valid(m.entries) {
            Err(non_object_keyframe_model())
        } else {
            match frames_upto(m.entries, options, m.entries.len() as int) {
                Err(x) => Err(x),
                Ok(f) => {
                    let name = options.class_name_prefix@ + hash_text("<>"@ + f.stable) + "-B"@;
                    Ok((name, animation_rule(name, f)))
                },
            }
        },
        _ => Err(non_style_object_model("keyframes"@)),
    }
}

proof fn lemma_frames_failure(
    e: Seq<(Seq<char>, Val)>,
    options: ResolvedOptions,
    i: int,
    k: int,
)
    requires
        0 <= i <= k,
        frames_upto(e, options, i) is Err,
    ensures
        frames_upto(e, options, k) == frames_upto(e, options, i),
    decreases k,
{
    if i < k {
        lemma_frames_failure(e, options, i, k - 1);
    }
}

/// Gives the text of declarations.
pub fn write_declarations(decls: &Vec<(String, String)>) -> (r: String)
    ensures
        r@ == declarations_text(text_pairs(decls@), decls@.len() as int),
{
    let ghost e = text_pairs(decls@);
    let mut out = String::new();
    let mut i: usize = 0;
    while i < decls.len()
        invariant
            e == text_pairs(decls@),
            i <= decls@.len(),
            out@ == declarations_text(e, i as int),
        decreases decls@.len() - i,
    {
        assert(e[i as int] == (decls@[i as int].0@, decls@[i as int].1@));
        out.append(decls[i].0.as_str());
        out.append(":");
        out.append(decls[i].1.as_str());
        out.append(";");
        i += 1;
    }
    out
}

fn write_frame(name: &str, decls: &Vec<(String, String)>, side: Side, ctx: RtlContext) -> (r: String)
    ensures
        r@ == frame_text(name@, text_pairs(decls@), side, ctx),
{
    let ghost e = text_pairs(decls@);
    let mut out: Vec<(String, String)> = Vec::new();
    proof {
        assert(text_pairs(out@) =~= Seq::<(Seq<char>, Seq<char>)>::empty());
    }
    let mut i: usize = 0;
    while i < decls.len()
        invariant
            e == text_pairs(decls@),
            i <= decls@.len(),
            text_pairs(out@) == frame_upto(e, side, ctx, i as int),
        decreases decls@.len() - i,
    {
        assert(e[i as int] == (decls@[i as int].0@, decls@[i as int].1@));
        let key = decls[i].0.as_str();
        let value = decls[i].1.as_str();
        let (k, v) = match side {
            Side::Ltr => generate_ltr(key, value, ctx),
            Side::Rtl => match generate_rtl(key, value, ctx) {
                Some(p) => p,
                None => (key.to_owned(), value.to_owned()),
            },
        };
        put_text(&mut out, k, v);
        i += 1;
    }
    proof {
        assert(e.len() == decls@.len());
        assert(text_pairs(out@).len() == out@.len());
    }
    let body = write_declarations(&out);
    crate::text::concat4(name, "{", body.as_str(), "}")
}

fn frames_are_valid(map: &JsObjectMap) -> (r: bool)
    ensures
        r == frames_valid(map.pairs()),
{
    let ghost e = map.pairs();
    let mut i: usize = 0;
    while i < map.items.len()
        invariant
            e == map.pairs(),
            i <= map.items@.len(),
            forall|j: int| 0 <= j < i ==> (#[trigger] e[j]).1 is Obj || e[j].1 is Null,
        decreases map.items@.len() - i,
    {
        assert(e[i as int].1 == map.items@[i as int].1.model());
        match &map.items[i].1 {
            EvalValue::Obj(_) => {},
            EvalValue::Null => {},
            _ => {
                return false;
            },
        }
        i += 1;
    }
    true
}

/// Gives the name and the rule of an animation.
pub fn keyframes(frames: &EvalValue, options: &ResolvedOptions) -> (r: Result<
    (String, StylexRule),
    StylexError,
>)
    ensures
        named_rule(r) == animation(frames.model(), *options),
{
    let map = match frames {
        EvalValue::Obj(map) => map,
        _ => {
            return Err(StylexError::non_style_object("keyframes"));
        },
    };
    if !frames_are_valid(map) {
        return Err(StylexError::non_object_keyframe());
    }
    let ghost e = map.pairs();
    let ctx = RtlContext::of(options);
    let mut ltr = String::new();
    let mut rtl = String::new();
    let mut stable = String::new();
    let mut i: usize = 0;
    while i < map.items.len()
        invariant
            e == map.pairs(),
            frames.model() == Val::Obj(map.model()),
            frames_valid(e),
            ctx == RtlContext::context_of(*options),
            i <= map.items@.len(),
            frames_upto(e, *options, i as int) == Ok::<FramesModel, ErrorModel>(
                FramesModel { ltr: ltr@, rtl: rtl@, stable: stable@ },
            ),
        decreases map.items@.len() - i,
    {
        assert(e[i as int] == (map.items@[i as int].0@, map.items@[i as int].1.model()));
        let frame = match &map.items[i].1 {
            EvalValue::Obj(frame) => frame,
            _ => {
                proof {
                    lemma_frames_failure(e, *options, i + 1, e.len() as int);
                }
                return Err(StylexError::upstream_type_crash("a null keyframes frame"));
            },
        };
        let decls = match expand_dashify_transform(frame, options) {
            Ok(v) => v,
            Err(x) => {
                proof {
                    lemma_frames_failure(e, *options, i + 1, e.len() as int);
                }
                return Err(x);
            },
        };
        let name = map.items[i].0.as_str();
        ltr.append(write_frame(name, &decls, Side::Ltr, ctx).as_str());
        rtl.append(write_frame(name, &decls, Side::Rtl, ctx).as_str());
        stable.append(write_frame(name, &decls, Side::Ltr, RtlContext::defaults()).as_str());
        i += 1;
    }
    let name = concat3(
        options.class_name_prefix.as_str(),
        hash(concat2("<>", stable.as_str()).as_str()).as_str(),
        "-B",
    );
    let ltr_rule = concat5("@keyframes ", name.as_str(), "{", ltr.as_str(), "}");
    let rtl_rule = if str_eq(ltr.as_str(), rtl.as_str()) {
        None
    } else {
        Some(concat5("@keyframes ", name.as_str(), "{", rtl.as_str(), "}"))
    };
    let rule = StylexRule::plain(name.clone(), ltr_rule, rtl_rule, JsNumber::from_int(0));
    Ok((name, rule))
}

/// The frames that the name of an animation rests on do not depend on the options
/// that turn declarations round.
pub proof fn name_is_the_same_in_both_directions(
    e: Seq<(Seq<char>, Val)>,
    a: ResolvedOptions,
    b: ResolvedOptions,
    k: int,
)
    requires
        0 <= k <= e.len(),
        frames_upto(e, a, k) is Ok,
        frames_upto(e, b, k) is Ok,
        a.style_resolution == b.style_resolution,
        a.property_validation_mode == b.property_validation_mode,
        a.enable_font_size_px_to_rem == b.enable_font_size_px_to_rem,
    ensures
        frames_upto(e, a, k)->Ok_0.stable == frames_upto(e, b, k)->Ok_0.stable,
    decreases k,
{
    if k > 0 {
        name_is_the_same_in_both_directions(e, a, b, k - 1);
        match e[k - 1].1 {
            Val::Obj(m) => {
                lemma_same_texts(m.entries, a, b, m.entries.len() as int);
            },
            _ => {},
        }
    }
}

proof fn lemma_same_texts(
    e: Seq<(Seq<char>, Val)>,
    a: ResolvedOptions,
    b: ResolvedOptions,
    k: int,
)
    requires
        a.style_resolution == b.style_resolution,
        a.property_validation_mode == b.property_validation_mode,
    ensures
        crate::shared::position_try::expanded_upto(e, a, k)
            == crate::shared::position_try::expanded_upto(e, b, k),
    decreases k,
{
    reveal(crate::shared::position_try::entry_pairs);
    if k > 0 {
        lemma_same_texts(e, a, b, k - 1);
    }
}

/// An animation has a rule for lines from right to left only where it differs from the
/// other one.
pub proof fn turned_rule_differs(v: Val, options: ResolvedOptions)
    requires
        animation(v, options) is Ok,
        animation(v, options)->Ok_0.1.rtl is Some,
    ensures
        animation(v, options)->Ok_0.1.rtl->0 != animation(v, options)->Ok_0.1.ltr,
{
    let (name, rule) = animation(v, options)->Ok_0;
    if let Val::Obj(m) = v {
        let f = frames_upto(m.entries, options, m.entries.len() as int)->Ok_0;
        let a = "@keyframes "@ + name + "{"@ + f.ltr + "}"@;
        let b = "@keyframes "@ + name + "{"@ + f.rtl + "}"@;
        let k = ("@keyframes "@ + name + "{"@).len() as int;
        reveal_strlit("}");
        if a == b {
            assert(a.len() == b.len());
            assert(f.ltr =~= a.subrange(k, a.len() - 1));
            assert(f.rtl =~= b.subrange(k, b.len() - 1));
        }
    }
}

} // verus!
