//! What the rules of animations, view transitions and fallback positions say.

use crate::jsrt::{sorted_texts, Collation};
use crate::number::JsNumber;
use crate::options::ResolvedOptions;
use crate::shared::dashify::dashify_text;
use crate::shared::keyframes::{
    animation, declarations_text, frame_text, frame_upto, frames_upto, Side,
};
use crate::shared::position_try::{
    doubled, js_entries, position_ltr, position_output, position_rtl, style_texts, turned_or_plain,
};
use crate::shared::rtl::{ltr_pair, rtl_pair, RtlContext};
use crate::shared::view_transition::{parts_css, parts_upto, transition_class};
use crate::value::{find_key, keys_of, lemma_find_key, lemma_slot, put, slot_of, value_of, Val};
use vstd::prelude::*;

verus! {

/// Texts one behind the other.
pub open spec fn strung(blocks: Seq<Seq<char>>) -> Seq<char>
    decreases blocks.len(),
{
    if blocks.len() == 0 {
        Seq::empty()
    } else {
        strung(blocks.drop_last()) + blocks.last()
    }
}

/// A declaration.
pub open spec fn declaration(key: Seq<char>, value: Seq<char>) -> Seq<char> {
    key + ":"@ + value + ";"@
}

/// Declarations, in their order.
pub open spec fn declarations(e: Seq<(Seq<char>, Seq<char>)>) -> Seq<Seq<char>> {
    Seq::new(e.len(), |i: int| declaration(e[i].0, e[i].1))
}

/// A block of declarations behind its name.
pub open spec fn named_block(name: Seq<char>, e: Seq<(Seq<char>, Seq<char>)>) -> Seq<char> {
    name + "{"@ + strung(declarations(e)) + "}"@
}

proof fn lemma_declared(e: Seq<(Seq<char>, Seq<char>)>, k: int)
    requires
        0 <= k <= e.len(),
    ensures
        declarations_text(e, k) == strung(declarations(e).take(k)),
    decreases k,
{
    let all = declarations(e);
    if k > 0 {
        lemma_declared(e, k - 1);
        assert(all.take(k).drop_last() =~= all.take(k - 1));
        assert(all.take(k).last() == declaration(e[k - 1].0, e[k - 1].1));
        assert(declarations_text(e, k) =~= declarations_text(e, k - 1) + declaration(
            e[k - 1].0,
            e[k - 1].1,
        ));
    }
}

proof fn lemma_all_declared(e: Seq<(Seq<char>, Seq<char>)>)
    ensures
        declarations_text(e, e.len() as int) == strung(declarations(e)),
{
    lemma_declared(e, e.len() as int);
    assert(declarations(e).take(e.len() as int) =~= declarations(e));
}

pub(crate) proof fn lemma_put<T>(e: Seq<(Seq<char>, T)>, k: Seq<char>, v: T)
    ensures
        put(e, k, v).contains((k, v)),
        forall|x: (Seq<char>, T)| #[trigger]
            put(e, k, v).contains(x) ==> x == (k, v) || e.contains(x),
        forall|x: (Seq<char>, T)| #[trigger]
            e.contains(x) && x.0 != k ==> put(e, k, v).contains(x),
{
    let keys = keys_of(e);
    let after = put(e, k, v);
    lemma_find_key(keys, k, 0);
    lemma_slot(keys, k);
    let i = find_key(keys, k, 0);
    let s = slot_of(keys, k);
    if i < e.len() {
        assert(e[i].0 == keys[i]);
        assert(after[i] == (k, v));
        assert forall|x: (Seq<char>, T)| #[trigger] after.contains(x) implies x == (k, v)
            || e.contains(x) by {
            let j = choose|j: int| 0 <= j < after.len() && after[j] == x;
            if j != i {
                assert(e[j] == x);
            }
        }
        assert forall|x: (Seq<char>, T)| #[trigger] e.contains(x) && x.0 != k implies after.contains(
            x,
        ) by {
            let j = choose|j: int| 0 <= j < e.len() && e[j] == x;
            assert(after[j] == x);
        }
    } else {
        assert(after[s] == (k, v));
        assert forall|x: (Seq<char>, T)| #[trigger] after.contains(x) implies x == (k, v)
            || e.contains(x) by {
            let j = choose|j: int| 0 <= j < after.len() && after[j] == x;
            if j < s {
                assert(e[j] == x);
            } else if j > s {
                assert(e[j - 1] == x);
            }
        }
        assert forall|x: (Seq<char>, T)| #[trigger] e.contains(x) && x.0 != k implies after.contains(
            x,
        ) by {
            let j = choose|j: int| 0 <= j < e.len() && e[j] == x;
            if j < s {
                assert(after[j] == x);
            } else {
                assert(after[j + 1] == x);
            }
        }
    }
}

/// A declaration in one of the writing directions; where none is given from right to left, it
/// stays as it is.
pub open spec fn directed(p: (Seq<char>, Seq<char>), rtl: bool, ctx: RtlContext) -> (
    Seq<char>,
    Seq<char>,
) {
    if !rtl {
        ltr_pair(p.0, p.1, ctx)
    } else {
        match rtl_pair(p.0, p.1, ctx) {
            Some(q) => q,
            None => p,
        }
    }
}

/// Declarations in one of the writing directions.
pub open spec fn all_directed(e: Seq<(Seq<char>, Seq<char>)>, rtl: bool, ctx: RtlContext) -> Seq<
    (Seq<char>, Seq<char>),
> {
    Seq::new(e.len(), |i: int| directed(e[i], rtl, ctx))
}

/// Whether the declaration at `l` is among those that are left, and is for the property of the one
/// at `j` that it follows or is.
pub open spec fn stays_for(
    given: Seq<(Seq<char>, Seq<char>)>,
    out: Seq<(Seq<char>, Seq<char>)>,
    j: int,
    l: int,
) -> bool {
    j <= l < given.len() && out.contains(given[l]) && given[l].0 == given[j].0
}

/// Whether the property of a declaration is still declared, by it or a later one.
pub open spec fn still_declared(
    given: Seq<(Seq<char>, Seq<char>)>,
    out: Seq<(Seq<char>, Seq<char>)>,
    j: int,
) -> bool {
    exists|l: int| stays_for(given, out, j, l)
}

/// Whether declarations are those given: none but them, and of those of one property the last.
pub open spec fn last_of_each(
    given: Seq<(Seq<char>, Seq<char>)>,
    out: Seq<(Seq<char>, Seq<char>)>,
) -> bool {
    &&& forall|i: int| 0 <= i < out.len() ==> given.contains(#[trigger] out[i])
    &&& forall|j: int| 0 <= j < given.len() ==> #[trigger] still_declared(given, out, j)
}

spec fn put_upto(given: Seq<(Seq<char>, Seq<char>)>, k: int) -> Seq<(Seq<char>, Seq<char>)>
    decreases k,
{
    if k <= 0 {
        Seq::empty()
    } else {
        put(put_upto(given, k - 1), given[k - 1].0, given[k - 1].1)
    }
}

proof fn lemma_one_more(
    given: Seq<(Seq<char>, Seq<char>)>,
    before: Seq<(Seq<char>, Seq<char>)>,
    p: (Seq<char>, Seq<char>),
)
    requires
        last_of_each(given, before),
    ensures
        last_of_each(given.push(p), put(before, p.0, p.1)),
{
    let all = given.push(p);
    let out = put(before, p.0, p.1);
    let n = given.len() as int;
    lemma_put(before, p.0, p.1);
    assert(p == (p.0, p.1));
    assert(all[n] == p);
    assert forall|i: int| 0 <= i < out.len() implies all.contains(#[trigger] out[i]) by {
        let x = out[i];
        assert(out.contains(x));
        if x != p {
            assert(before.contains(x));
            let j = choose|j: int| 0 <= j < before.len() && before[j] == x;
            assert(given.contains(before[j]));
            let l = choose|l: int| 0 <= l < given.len() && given[l] == x;
            assert(all[l] == x);
        }
    }
    assert forall|j: int| 0 <= j < all.len() implies #[trigger] still_declared(all, out, j) by {
        if j == n {
            assert(stays_for(all, out, j, n));
        } else {
            assert(still_declared(given, before, j));
            let l = choose|l: int| stays_for(given, before, j, l);
            assert(all[l] == given[l] && all[j] == given[j]);
            if given[l].0 == p.0 {
                assert(stays_for(all, out, j, n));
            } else {
                assert(before.contains(given[l]));
                assert(stays_for(all, out, j, l));
            }
        }
    }
}

proof fn lemma_put_upto(given: Seq<(Seq<char>, Seq<char>)>, k: int)
    requires
        0 <= k <= given.len(),
    ensures
        last_of_each(given.take(k), put_upto(given, k)),
    decreases k,
{
    if k > 0 {
        lemma_put_upto(given, k - 1);
        lemma_one_more(given.take(k - 1), put_upto(given, k - 1), given[k - 1]);
        assert(given.take(k - 1).push(given[k - 1]) =~= given.take(k));
    }
}

proof fn lemma_last_of_each(given: Seq<(Seq<char>, Seq<char>)>)
    ensures
        last_of_each(given, put_upto(given, given.len() as int)),
{
    lemma_put_upto(given, given.len() as int);
    assert(given.take(given.len() as int) =~= given);
}

proof fn lemma_frame(given: Seq<(Seq<char>, Seq<char>)>, side: Side, ctx: RtlContext, k: int)
    requires
        0 <= k <= given.len(),
    ensures
        frame_upto(given, side, ctx, k) == put_upto(all_directed(given, side is Rtl, ctx), k),
    decreases k,
{
    if k > 0 {
        lemma_frame(given, side, ctx, k - 1);
    }
}

/// Whether a text is the frame of a name, with the declarations of a style in one direction.
#[verifier::opaque]
pub open spec fn frame_says(
    text: Seq<char>,
    name: Seq<char>,
    style: Seq<(Seq<char>, Seq<char>)>,
    rtl: bool,
    ctx: RtlContext,
) -> bool {
    exists|decls: Seq<(Seq<char>, Seq<char>)>|
        last_of_each(all_directed(style, rtl, ctx), decls) && text == #[trigger] named_block(
            name,
            decls,
        )
}

proof fn lemma_frame_says(
    name: Seq<char>,
    style: Seq<(Seq<char>, Seq<char>)>,
    side: Side,
    ctx: RtlContext,
)
    ensures
        frame_says(frame_text(name, style, side, ctx), name, style, side is Rtl, ctx),
{
    let decls = frame_upto(style, side, ctx, style.len() as int);
    lemma_frame(style, side, ctx, style.len() as int);
    lemma_last_of_each(all_directed(style, side is Rtl, ctx));
    lemma_all_declared(decls);
    reveal(frame_says);
    assert(frame_text(name, style, side, ctx) == named_block(name, decls));
}

/// Whether texts are the frames of an animation in one direction, in their order.
pub open spec fn frames_say(
    blocks: Seq<Seq<char>>,
    e: Seq<(Seq<char>, Val)>,
    k: int,
    rtl: bool,
    options: ResolvedOptions,
) -> bool {
    &&& blocks.len() == k
    &&& forall|i: int|
        0 <= i < k ==> ((#[trigger] e[i]).1 matches Val::Obj(m) && style_texts(m.entries, options) is Ok
            && frame_says(
            blocks[i],
            e[i].0,
            style_texts(m.entries, options)->Ok_0,
            rtl,
            RtlContext::context_of(options),
        ))
}

proof fn lemma_frames(e: Seq<(Seq<char>, Val)>, options: ResolvedOptions, k: int) -> (r: (
    Seq<Seq<char>>,
    Seq<Seq<char>>,
))
    requires
        0 <= k <= e.len(),
        frames_upto(e, options, k) is Ok,
    ensures
        frames_say(r.0, e, k, false, options),
        frames_say(r.1, e, k, true, options),
        frames_upto(e, options, k)->Ok_0.ltr == strung(r.0),
        frames_upto(e, options, k)->Ok_0.rtl == strung(r.1),
    decreases k,
{
    if k <= 0 {
        (Seq::empty(), Seq::empty())
    } else {
        let (l, r) = lemma_frames(e, options, k - 1);
        let m = e[k - 1].1->Obj_0;
        let t = style_texts(m.entries, options)->Ok_0;
        let ctx = RtlContext::context_of(options);
        let name = e[k - 1].0;
        let a = l.push(frame_text(name, t, Side::Ltr, ctx));
        let b = r.push(frame_text(name, t, Side::Rtl, ctx));
        lemma_frame_says(name, t, Side::Ltr, ctx);
        lemma_frame_says(name, t, Side::Rtl, ctx);
        assert(a.drop_last() =~= l);
        assert(b.drop_last() =~= r);
        (a, b)
    }
}

/// An animation is ruled by its frames in their order, each with what it declares, in both
/// directions; the rule from right to left is left out where the two are the same.
pub proof fn animations_say_their_frames(v: Val, options: ResolvedOptions)
    requires
        animation(v, options) is Ok,
    ensures
        v matches Val::Obj(m) && exists|l: Seq<Seq<char>>, r: Seq<Seq<char>>|
            {
                let (name, rule) = animation(v, options)->Ok_0;
                let n = m.entries.len() as int;
                &&& frames_say(l, m.entries, n, false, options)
                &&& frames_say(r, m.entries, n, true, options)
                &&& rule.class_name == name
                &&& rule.ltr == "@keyframes "@ + name + "{"@ + #[trigger] strung(l) + "}"@
                &&& rule.rtl == (if strung(l) == #[trigger] strung(r) {
                    None
                } else {
                    Some("@keyframes "@ + name + "{"@ + strung(r) + "}"@)
                })
                &&& rule.priority == JsNumber::natural(0)
            },
{
    let m = v->Obj_0;
    let (l, r) = lemma_frames(m.entries, options, m.entries.len() as int);
    assert(frames_say(l, m.entries, m.entries.len() as int, false, options));
}

/// The rule of one part of a view transition.
pub open spec fn transition_block(
    key: Seq<char>,
    class: Seq<char>,
    style: Seq<(Seq<char>, Seq<char>)>,
) -> Seq<char> {
    named_block("::view-transition-"@ + dashify_text(key) + "(*."@ + class + ")"@, style)
}

/// The declarations of one part of a view transition.
pub open spec fn part_style(v: Val, options: ResolvedOptions) -> Seq<(Seq<char>, Seq<char>)> {
    style_texts(js_entries(v)->0, options)->Ok_0
}

proof fn lemma_transition(e: Seq<(Seq<char>, Val)>, options: ResolvedOptions, class: Seq<char>, k: int)
    requires
        0 <= k <= e.len(),
        parts_upto(e, options, k) is Ok,
    ensures
        ({
            let parts = parts_upto(e, options, k)->Ok_0;
            &&& parts.len() == k
            &&& parts_css(parts, class, k) == strung(
                Seq::new(
                    k as nat,
                    |i: int| transition_block(e[i].0, class, part_style(e[i].1, options)),
                ),
            )
        }),
    decreases k,
{
    let blocks = Seq::new(
        k as nat,
        |i: int| transition_block(e[i].0, class, part_style(e[i].1, options)),
    );
    if k > 0 {
        lemma_transition(e, options, class, k - 1);
        let before = parts_upto(e, options, k - 1)->Ok_0;
        let parts = parts_upto(e, options, k)->Ok_0;
        let style = part_style(e[k - 1].1, options);
        lemma_all_declared(style);
        lemma_css_prefix(before, parts, class, k - 1);
        assert(blocks.drop_last() =~= Seq::new(
            (k - 1) as nat,
            |i: int| transition_block(e[i].0, class, part_style(e[i].1, options)),
        ));
        let head = "::view-transition-"@ + dashify_text(e[k - 1].0);
        assert(parts[k - 1] == (head, strung(declarations(style))));
        reveal_strlit("(*.");
        reveal_strlit("){");
        reveal_strlit(")");
        reveal_strlit("{");
        assert("){"@ =~= ")"@ + "{"@);
        assert(blocks.last() =~= head + "(*."@ + class + "){"@ + strung(declarations(style)) + "}"@);
        assert(parts_css(parts, class, k) =~= parts_css(parts, class, k - 1) + blocks.last());
    } else {
        assert(blocks =~= Seq::empty());
    }
}

proof fn lemma_css_prefix(
    a: Seq<(Seq<char>, Seq<char>)>,
    b: Seq<(Seq<char>, Seq<char>)>,
    class: Seq<char>,
    k: int,
)
    requires
        0 <= k <= a.len() <= b.len(),
        a.is_prefix_of(b),
    ensures
        parts_css(a, class, k) == parts_css(b, class, k),
    decreases k,
{
    if k > 0 {
        lemma_css_prefix(a, b, class, k - 1);
        assert(a[k - 1] == b[k - 1]);
    }
}

/// The class of a view transition is ruled by its parts in their order: each part of the
/// transitions of that class has what is declared for it.
pub proof fn transitions_say_their_parts(v: Val, options: ResolvedOptions)
    requires
        transition_class(v, options) is Ok,
    ensures
        v matches Val::Obj(m) && {
            let (class, rule) = transition_class(v, options)->Ok_0;
            let e = m.entries;
            &&& rule.class_name == class
            &&& rule.ltr == strung(
                Seq::new(
                    e.len(),
                    |i: int| transition_block(e[i].0, class, part_style(e[i].1, options)),
                ),
            )
            &&& rule.rtl is None
            &&& rule.priority == JsNumber::natural(1)
        },
{
    let m = v->Obj_0;
    let (class, rule) = transition_class(v, options)->Ok_0;
    lemma_transition(m.entries, options, class, m.entries.len() as int);
}

/// The declarations of one key of a fallback position.
pub open spec fn position_block(key: Seq<char>, value: Seq<char>, rtl: bool) -> Seq<char> {
    let ctx = RtlContext::default_context();
    if rtl && rtl_pair(key, value, ctx) is None {
        declaration(key, value)
    } else {
        let p = directed((key, value), rtl, ctx);
        declaration(key, p.0) + declaration(key, p.1)
    }
}

/// The declarations of all keys of a fallback position, in the order of their names.
pub open spec fn position_blocks(t: Seq<(Seq<char>, Seq<char>)>, rtl: bool) -> Seq<Seq<char>> {
    let keys = sorted_texts(keys_of(t), Collation::Units);
    Seq::new(keys.len(), |i: int| position_block(keys[i], value_of(t, keys[i])->0, rtl))
}

proof fn lemma_doubled(key: Seq<char>, p: (Seq<char>, Seq<char>))
    ensures
        doubled(key, p) == declaration(key, p.0) + declaration(key, p.1),
{
    assert(doubled(key, p) =~= declaration(key, p.0) + declaration(key, p.1));
}

proof fn lemma_position(t: Seq<(Seq<char>, Seq<char>)>, k: int)
    requires
        0 <= k <= sorted_texts(keys_of(t), Collation::Units).len(),
    ensures
        ({
            let keys = sorted_texts(keys_of(t), Collation::Units);
            &&& position_ltr(t, keys, k) == strung(position_blocks(t, false).take(k))
            &&& position_rtl(t, keys, k) == strung(position_blocks(t, true).take(k))
        }),
    decreases k,
{
    let keys = sorted_texts(keys_of(t), Collation::Units);
    let l = position_blocks(t, false);
    let r = position_blocks(t, true);
    if k > 0 {
        lemma_position(t, k - 1);
        assert(l.take(k).drop_last() =~= l.take(k - 1));
        assert(r.take(k).drop_last() =~= r.take(k - 1));
        let key = keys[k - 1];
        let value = value_of(t, key)->0;
        let ctx = RtlContext::default_context();
        lemma_doubled(key, ltr_pair(key, value, ctx));
        assert(l.take(k).last() == position_block(key, value, false));
        assert(r.take(k).last() == position_block(key, value, true));
        match rtl_pair(key, value, ctx) {
            Some(p) => {
                lemma_doubled(key, p);
            },
            None => {},
        }
        assert(turned_or_plain(key, value) == position_block(key, value, true));
    }
}

/// A fallback position is ruled by its declarations in the order of their names, in both
/// directions; the rule from right to left is left out where the two are the same.
pub proof fn positions_say_their_declarations(e: Seq<(Seq<char>, Val)>, options: ResolvedOptions)
    requires
        position_output(e, options) is Ok,
    ensures
        style_texts(e, options) matches Ok(t) && {
            let (name, rule) = position_output(e, options)->Ok_0;
            let l = strung(position_blocks(t, false));
            let r = strung(position_blocks(t, true));
            &&& rule.class_name == name
            &&& rule.ltr == "@position-try "@ + name + " {"@ + l + "}"@
            &&& rule.rtl == (if l == r {
                None
            } else {
                Some("@position-try "@ + name + " {"@ + r + "}"@)
            })
            &&& rule.priority == JsNumber::natural(0)
        },
{
    let t = style_texts(e, options)->Ok_0;
    let n = sorted_texts(keys_of(t), Collation::Units).len() as int;
    lemma_position(t, n);
    assert(position_blocks(t, false).take(n) =~= position_blocks(t, false));
    assert(position_blocks(t, true).take(n) =~= position_blocks(t, true));
}

} // verus!
