//! Shorthand properties and the longhands that they stand for.

use crate::errors::{said, ErrorCode, ErrorModel, StylexError, BANNED_SHORTHANDS};
use crate::json::{json_quoted, json_string};
use crate::options::{PropertyValidationMode, ResolvedOptions, StyleResolution};
use crate::shared::fallbacks::var_value;
use crate::shared::flatten::{copy_scalar, opt_scalar, scalar_models, ScalarModel, StyleScalar};
use crate::shared::split_css_value::{split_scalar, split_value};
use crate::text::{
    chars_of, concat2, concat3, contains, ends_with, has_part, is_listed, listed, lookup, paired,
    piece, split, split_at_char, starts_with, str_eq, texts,
};
use vstd::prelude::*;

verus! {

/// One declaration of a shorthand: the property and its value, where no value
/// unsets what was declared before.
pub type ExpandedPair = (String, Option<StyleScalar>);

/// What a declaration of a shorthand is, mathematically.
pub type PairModel = (Seq<char>, Option<ScalarModel>);

/// What declarations of a shorthand are, mathematically.
pub open spec fn pair_models(v: Seq<ExpandedPair>) -> Seq<PairModel> {
    Seq::new(v.len(), |i: int| (v[i].0@, opt_scalar(v[i].1)))
}

/// The value of `float` and `clear` at the start of the line.
pub const LOGICAL_START_VAR: &'static str = "var(--stylex-logical-start)";

/// The value of `float` and `clear` at the end of the line.
pub const LOGICAL_END_VAR: &'static str = "var(--stylex-logical-end)";

/// The values that stand for a whole `listStyle`.
pub const LIST_STYLE_GLOBALS: [&'static str; 4] = ["inherit", "initial", "revert", "unset"];

/// Properties that stand for another one.
pub const ALIASES: [(&'static str, &'static str); 50] = [
    ("blockSize", "height"),
    ("inlineSize", "width"),
    ("minBlockSize", "minHeight"),
    ("minInlineSize", "minWidth"),
    ("maxBlockSize", "maxHeight"),
    ("maxInlineSize", "maxWidth"),
    ("borderHorizontalWidth", "borderInlineWidth"),
    ("borderHorizontalStyle", "borderInlineStyle"),
    ("borderHorizontalColor", "borderInlineColor"),
    ("borderVerticalWidth", "borderBlockWidth"),
    ("borderVerticalStyle", "borderBlockStyle"),
    ("borderVerticalColor", "borderBlockColor"),
    ("borderBlockStartColor", "borderTopColor"),
    ("borderBlockEndColor", "borderBottomColor"),
    ("borderBlockStartStyle", "borderTopStyle"),
    ("borderBlockEndStyle", "borderBottomStyle"),
    ("borderBlockStartWidth", "borderTopWidth"),
    ("borderBlockEndWidth", "borderBottomWidth"),
    ("borderStartColor", "borderInlineStartColor"),
    ("borderEndColor", "borderInlineEndColor"),
    ("borderStartStyle", "borderInlineStartStyle"),
    ("borderEndStyle", "borderInlineEndStyle"),
    ("borderStartWidth", "borderInlineStartWidth"),
    ("borderEndWidth", "borderInlineEndWidth"),
    ("borderTopStartRadius", "borderStartStartRadius"),
    ("borderTopEndRadius", "borderStartEndRadius"),
    ("borderBottomStartRadius", "borderEndStartRadius"),
    ("borderBottomEndRadius", "borderEndEndRadius"),
    ("containIntrinsicBlockSize", "containIntrinsicHeight"),
    ("containIntrinsicInlineSize", "containIntrinsicWidth"),
    ("marginBlockStart", "marginTop"),
    ("marginBlockEnd", "marginBottom"),
    ("marginStart", "marginInlineStart"),
    ("marginEnd", "marginInlineEnd"),
    ("marginHorizontal", "marginInline"),
    ("marginVertical", "marginBlock"),
    ("overflowBlock", "overflowY"),
    ("overflowInline", "overflowX"),
    ("paddingBlockStart", "paddingTop"),
    ("paddingBlockEnd", "paddingBottom"),
    ("paddingStart", "paddingInlineStart"),
    ("paddingEnd", "paddingInlineEnd"),
    ("paddingHorizontal", "paddingInline"),
    ("paddingVertical", "paddingBlock"),
    ("scrollMarginBlockStart", "scrollMarginTop"),
    ("scrollMarginBlockEnd", "scrollMarginBottom"),
    ("insetBlockStart", "top"),
    ("insetBlockEnd", "bottom"),
    ("start", "insetInlineStart"),
    ("end", "insetInlineEnd"),
];

/// Shorthands with the property that keeps the value, then the longhands that it
/// unsets, with spaces between.
pub const APPLICATION_ORDER: [(&'static str, &'static str); 175] = [
    (
        "animation",
        "animation animationComposition animationName animationDuration animationTimingFunction animationDelay animationIterationCount animationDirection animationFillMode animationPlayState animationRange animationRangeEnd animationRangeStart animationTimeline",
    ),
    (
        "background",
        "background backgroundAttachment backgroundClip backgroundColor backgroundImage backgroundOrigin backgroundPosition backgroundPositionX backgroundPositionY backgroundRepeat backgroundSize",
    ),
    (
        "border",
        "border borderWidth borderInlineWidth borderInlineStartWidth borderLeftWidth borderInlineEndWidth borderRightWidth borderBlockWidth borderTopWidth borderBottomWidth borderStyle borderInlineStyle borderInlineStartStyle borderLeftStyle borderInlineEndStyle borderRightStyle borderBlockStyle borderTopStyle borderBottomStyle borderColor borderInlineColor borderInlineStartColor borderLeftColor borderInlineEndColor borderRightColor borderBlockColor borderTopColor borderBottomColor",
    ),
    (
        "borderBlock",
        "borderBlock borderBlockWidth borderTopWidth borderBottomWidth borderBlockStyle borderTopStyle borderBottomStyle borderBlockColor borderTopColor borderBottomColor",
    ),
    (
        "borderInline",
        "borderInline borderInlineWidth borderInlineStartWidth borderLeftWidth borderInlineEndWidth borderRightWidth borderInlineStyle borderInlineStartStyle borderLeftStyle borderInlineEndStyle borderRightStyle borderInlineColor borderInlineStartColor borderLeftColor borderInlineEndColor borderRightColor",
    ),
    (
        "margin",
        "margin marginInline marginInlineStart marginLeft marginInlineEnd marginRight marginBlock marginTop marginBottom",
    ),
    (
        "padding",
        "padding paddingInline paddingStart paddingLeft paddingEnd paddingRight paddingBlock paddingTop paddingBottom",
    ),
    (
        "font",
        "font fontFamily fontSize fontStretch fontStyle fontVariant fontVariantAlternates fontVariantCaps fontVariantEastAsian fontVariantEmoji fontVariantLigatures fontVariantNumeric fontVariantPosition fontWeight lineHeight",
    ),
    (
        "grid",
        "grid gridTemplate gridTemplateAreas gridTemplateColumns gridTemplateRows gridAutoRows gridAutoColumns gridAutoFlow",
    ),
    ("gridTemplate", "gridTemplate gridTemplateAreas gridTemplateColumns gridTemplateRows"),
    (
        "gridArea",
        "gridArea gridRow gridRowStart gridRowEnd gridColumn gridColumnStart gridColumnEnd",
    ),
    ("inset", "inset insetInline insetInlineStart insetInlineEnd left right insetBlock top bottom"),
    (
        "scrollMargin",
        "scrollMargin scrollMarginBlock scrollMarginTop scrollMarginBottom scrollMarginInline scrollMarginInlineStart scrollMarginInlineEnd scrollMarginLeft scrollMarginRight",
    ),
    (
        "scrollPadding",
        "scrollPadding scrollPaddingBlock scrollPaddingTop scrollPaddingBottom scrollPaddingInline scrollPaddingInlineStart scrollPaddingInlineEnd scrollPaddingLeft scrollPaddingRight",
    ),
    ("animationRange", "animationRange animationRangeEnd animationRangeStart"),
    ("scrollTimeline", "scrollTimeline scrollTimelineName scrollTimelineAxis"),
    ("backgroundPosition", "backgroundPosition backgroundPositionX backgroundPositionY"),
    (
        "borderColor",
        "borderColor borderInlineColor borderInlineStartColor borderLeftColor borderInlineEndColor borderRightColor borderBlockColor borderTopColor borderBottomColor",
    ),
    (
        "borderStyle",
        "borderStyle borderInlineStyle borderInlineStartStyle borderLeftStyle borderInlineEndStyle borderRightStyle borderBlockStyle borderTopStyle borderBottomStyle",
    ),
    (
        "borderWidth",
        "borderWidth borderInlineWidth borderInlineStartWidth borderLeftWidth borderInlineEndWidth borderRightWidth borderBlockWidth borderTopWidth borderBottomWidth",
    ),
    ("borderBlockStart", "borderTop borderTopWidth borderTopStyle borderTopColor"),
    ("borderTop", "borderTop borderTopWidth borderTopStyle borderTopColor"),
    ("borderBlockEnd", "borderBottom borderBottomWidth borderBottomStyle borderBottomColor"),
    ("borderBottom", "borderBottom borderBottomWidth borderBottomStyle borderBottomColor"),
    (
        "borderInlineColor",
        "borderInlineColor borderInlineStartColor borderLeftColor borderInlineEndColor borderRightColor",
    ),
    (
        "borderInlineStyle",
        "borderInlineStyle borderInlineStartStyle borderLeftStyle borderInlineEndStyle borderRightStyle",
    ),
    (
        "borderInlineWidth",
        "borderInlineWidth borderInlineStartWidth borderLeftWidth borderInlineEndWidth borderRightWidth",
    ),
    (
        "borderInlineStart",
        "borderInlineStart borderInlineStartWidth borderLeftWidth borderRightWidth borderInlineStartStyle borderLeftStyle borderRightStyle borderInlineStartColor borderLeftColor borderRightColor",
    ),
    (
        "borderLeft",
        "borderLeft borderLeftWidth borderInlineStartWidth borderInlineEndWidth borderLeftStyle borderInlineStartStyle borderInlineEndStyle borderLeftColor borderInlineStartColor borderInlineEndColor",
    ),
    (
        "borderInlineEnd",
        "borderInlineEnd borderInlineEndWidth borderLeftWidth borderRightWidth borderInlineEndStyle borderLeftStyle borderRightStyle borderInlineEndColor borderLeftColor borderRightColor",
    ),
    (
        "borderRight",
        "borderRight borderRightWidth borderInlineStartWidth borderInlineEndWidth borderRightStyle borderInlineStartStyle borderInlineEndStyle borderRightColor borderInlineStartColor borderInlineEndColor",
    ),
    (
        "borderImage",
        "borderImage borderImageOutset borderImageRepeat borderImageSlice borderImageSource borderImageWidth",
    ),
    (
        "borderRadius",
        "borderRadius borderStartStartRadius borderStartEndRadius borderEndStartRadius borderEndEndRadius borderTopLeftRadius borderTopRightRadius borderBottomLeftRadius borderBottomRightRadius",
    ),
    (
        "cornerShape",
        "cornerShape cornerStartStartShape cornerStartEndShape cornerEndStartShape cornerEndEndShape cornerTopLeftShape cornerTopRightShape cornerBottomLeftShape cornerBottomRightShape",
    ),
    ("outline", "outline outlineColor outlineOffset outlineStyle outlineWidth"),
    ("gridGap", "gap rowGap columnGap"),
    ("gap", "gap rowGap columnGap"),
    ("placeContent", "placeContent alignContent justifyContent"),
    ("placeItems", "placeItems alignItems justifyItems"),
    ("placeSelf", "placeSelf alignSelf justifySelf"),
    ("marginBlock", "marginBlock marginTop marginBottom"),
    ("marginInline", "marginInline marginInlineStart marginLeft marginInlineEnd marginRight"),
    ("paddingBlock", "paddingBlock paddingTop paddingBottom"),
    ("paddingInline", "paddingInline paddingStart paddingLeft paddingEnd paddingRight"),
    ("columns", "columns columnCount columnWidth"),
    ("columnRule", "columnRule columnRuleColor columnRuleStyle columnRuleWidth"),
    ("containIntrinsicSize", "containIntrinsicSize containIntrinsicWidth containIntrinsicHeight"),
    ("container", "container containerName containerType"),
    ("flex", "flex flexGrow flexShrink flexBasis"),
    ("flexFlow", "flexFlow flexDirection flexWrap"),
    (
        "fontVariant",
        "fontVariant fontVariantAlternates fontVariantCaps fontVariantEastAsian fontVariantEmoji fontVariantLigatures fontVariantNumeric fontVariantPosition",
    ),
    ("gridRow", "gridRow gridRowStart gridRowEnd"),
    ("gridColumn", "gridColumn gridColumnStart gridColumnEnd"),
    ("listStyle", "listStyle listStyleImage listStylePosition listStyleType"),
    (
        "mask",
        "mask maskClip maskComposite maskImage maskMode maskOrigin maskPosition maskRepeat maskSize",
    ),
    (
        "maskBorder",
        "maskBorder maskBorderMode maskBorderOutset maskBorderRepeat maskBorderSlice maskBorderSource maskBorderWidth",
    ),
    ("offset", "offset offsetAnchor offsetDistance offsetPath offsetPosition offsetRotate"),
    ("overflow", "overflow overflowX overflowY"),
    ("insetBlock", "insetBlock top bottom"),
    ("insetInline", "insetInline insetInlineStart insetInlineEnd left right"),
    ("scrollMarginBlock", "scrollMarginBlock scrollMarginTop scrollMarginBottom"),
    (
        "scrollMarginInline",
        "scrollMarginInline scrollMarginInlineStart scrollMarginInlineEnd scrollMarginLeft scrollMarginRight",
    ),
    ("scrollPaddingBlock", "scrollPaddingBlock scrollPaddingTop scrollPaddingBottom"),
    (
        "scrollPaddingInline",
        "scrollPaddingInline scrollPaddingInlineStart scrollPaddingInlineEnd scrollPaddingLeft scrollPaddingRight",
    ),
    ("scrollSnapType", "scrollSnapType scrollSnapTypeX scrollSnapTypeY"),
    (
        "textDecoration",
        "textDecoration textDecorationColor textDecorationLine textDecorationStyle textDecorationThickness",
    ),
    ("textEmphasis", "textEmphasis textEmphasisColor textEmphasisStyle"),
    (
        "transition",
        "transition transitionBehavior transitionDelay transitionDuration transitionProperty transitionTimingFunction",
    ),
    ("borderBlockColor", "borderBlockColor borderTopColor borderBottomColor"),
    ("borderBlockWidth", "borderBlockWidth borderTopWidth borderBottomWidth"),
    ("borderBlockStartColor", "borderTopColor"),
    ("borderBlockStartStyle", "borderTopStyle"),
    ("borderBlockStartWidth", "borderTopWidth"),
    ("borderBlockEndColor", "borderBottomColor"),
    ("borderBlockEndStyle", "borderBottomStyle"),
    ("borderBlockEndWidth", "borderBottomWidth"),
    ("borderInlineStartColor", "borderInlineStartColor borderLeftColor borderRightColor"),
    ("borderInlineStartStyle", "borderInlineStartStyle borderLeftStyle borderRightStyle"),
    ("borderInlineStartWidth", "borderInlineStartWidth borderLeftWidth borderRightWidth"),
    ("borderInlineEndColor", "borderInlineEndColor borderLeftColor borderRightColor"),
    ("borderInlineEndStyle", "borderInlineEndStyle borderLeftStyle borderRightStyle"),
    ("borderInlineEndWidth", "borderInlineEndWidth borderLeftWidth borderRightWidth"),
    ("borderStartEndRadius", "borderStartEndRadius borderTopLeftRadius borderTopRightRadius"),
    ("borderStartStartRadius", "borderStartStartRadius borderTopLeftRadius borderTopRightRadius"),
    ("borderEndEndRadius", "borderEndEndRadius borderBottomLeftRadius borderBottomRightRadius"),
    ("borderEndStartRadius", "borderEndStartRadius borderBottomLeftRadius borderBottomRightRadius"),
    ("cornerStartStartShape", "cornerStartStartShape cornerTopLeftShape cornerTopRightShape"),
    ("cornerStartEndShape", "cornerStartEndShape cornerTopLeftShape cornerTopRightShape"),
    ("cornerEndStartShape", "cornerEndStartShape cornerBottomLeftShape cornerBottomRightShape"),
    ("cornerEndEndShape", "cornerEndEndShape cornerBottomLeftShape cornerBottomRightShape"),
    ("gridRowGap", "rowGap"),
    ("gridColumnGap", "columnGap"),
    ("blockSize", "height"),
    ("inlineSize", "width"),
    ("maxBlockSize", "maxHeight"),
    ("maxInlineSize", "maxWidth"),
    ("minBlockSize", "minHeight"),
    ("minInlineSize", "minWidth"),
    ("marginBlockStart", "marginTop"),
    ("marginBlockEnd", "marginBottom"),
    ("marginInlineStart", "marginInlineStart marginLeft marginRight"),
    ("marginInlineEnd", "marginInlineEnd marginLeft marginRight"),
    ("paddingBlockStart", "paddingTop"),
    ("paddingBlockEnd", "paddingBottom"),
    ("paddingInlineStart", "paddingInlineStart paddingLeft paddingRight"),
    ("paddingInlineEnd", "paddingInlineEnd paddingLeft paddingRight"),
    ("containIntrinsicBlockSize", "containIntrinsicHeight"),
    ("containIntrinsicInlineSize", "containIntrinsicWidth"),
    ("overflowBlock", "overflowY"),
    ("overflowInline", "overflowX"),
    ("insetBlockStart", "top"),
    ("insetBlockEnd", "bottom"),
    ("insetInlineStart", "insetInlineStart left right"),
    ("insetInlineEnd", "insetInlineEnd left right"),
    ("scrollMarginBlockStart", "scrollMarginTop"),
    ("scrollMarginBlockEnd", "scrollMarginBottom"),
    ("scrollMarginInlineStart", "scrollMarginInlineStart scrollMarginLeft scrollMarginRight"),
    ("scrollMarginInlineEnd", "scrollMarginInlineEnd scrollMarginLeft scrollMarginRight"),
    ("scrollPaddingInlineStart", "scrollPaddingInlineStart scrollPaddingLeft scrollPaddingRight"),
    ("scrollPaddingInlineEnd", "scrollPaddingInlineEnd scrollPaddingLeft scrollPaddingRight"),
    ("borderLeftColor", "borderLeftColor borderInlineStartColor borderInlineEndColor"),
    ("borderLeftStyle", "borderLeftStyle borderInlineStartStyle borderInlineEndStyle"),
    ("borderLeftWidth", "borderLeftWidth borderInlineStartWidth borderInlineEndWidth"),
    ("borderRightColor", "borderRightColor borderInlineStartColor borderInlineEndColor"),
    ("borderRightStyle", "borderRightStyle borderInlineStartStyle borderInlineEndStyle"),
    ("borderRightWidth", "borderRightWidth borderInlineStartWidth borderInlineEndWidth"),
    ("borderTopLeftRadius", "borderTopLeftRadius borderStartStartRadius borderStartEndRadius"),
    ("borderTopRightRadius", "borderTopRightRadius borderStartStartRadius borderStartEndRadius"),
    ("borderBottomLeftRadius", "borderBottomLeftRadius borderEndStartRadius borderEndEndRadius"),
    ("borderBottomRightRadius", "borderBottomRightRadius borderEndStartRadius borderEndEndRadius"),
    ("cornerTopLeftShape", "cornerTopLeftShape cornerStartStartShape cornerStartEndShape"),
    ("cornerTopRightShape", "cornerTopRightShape cornerStartStartShape cornerStartEndShape"),
    ("cornerBottomLeftShape", "cornerBottomLeftShape cornerEndStartShape cornerEndEndShape"),
    ("cornerBottomRightShape", "cornerBottomRightShape cornerEndStartShape cornerEndEndShape"),
    ("marginLeft", "marginLeft marginInlineStart marginInlineEnd"),
    ("marginRight", "marginRight marginInlineStart marginInlineEnd"),
    ("paddingLeft", "paddingLeft paddingInlineStart paddingInlineEnd"),
    ("paddingRight", "paddingRight paddingInlineStart paddingInlineEnd"),
    ("left", "left insetInlineStart insetInlineEnd"),
    ("right", "right insetInlineStart insetInlineEnd"),
    ("scrollMarginLeft", "scrollMarginLeft scrollMarginInlineStart scrollMarginInlineEnd"),
    ("scrollMarginRight", "scrollMarginRight scrollMarginInlineStart scrollMarginInlineEnd"),
    ("scrollPaddingLeft", "scrollPaddingLeft scrollPaddingInlineStart scrollPaddingInlineEnd"),
    ("scrollPaddingRight", "scrollPaddingRight scrollPaddingInlineStart scrollPaddingInlineEnd"),
    (
        "borderHorizontal",
        "borderInline borderInlineWidth borderInlineStartWidth borderLeftWidth borderInlineEndWidth borderRightWidth borderInlineStyle borderInlineStartStyle borderLeftStyle borderInlineEndStyle borderRightStyle borderInlineColor borderInlineStartColor borderLeftColor borderInlineEndColor borderRightColor",
    ),
    (
        "borderVertical",
        "borderBlock borderBlockWidth borderTopWidth borderBottomWidth borderBlockStyle borderTopStyle borderBottomStyle borderBlockColor borderTopColor borderBottomColor",
    ),
    (
        "borderEnd",
        "borderInlineEnd borderInlineEndWidth borderLeftWidth borderRightWidth borderInlineEndStyle borderLeftStyle borderRightStyle borderInlineEndColor borderLeftColor borderRightColor",
    ),
    (
        "borderStart",
        "borderInlineStart borderInlineStartWidth borderLeftWidth borderRightWidth borderInlineStartStyle borderLeftStyle borderRightStyle borderInlineStartColor borderLeftColor borderRightColor",
    ),
    (
        "borderHorizontalWidth",
        "borderInlineWidth borderInlineStartWidth borderLeftWidth borderInlineEndWidth borderRightWidth",
    ),
    (
        "borderHorizontalStyle",
        "borderInlineStyle borderInlineStartStyle borderLeftStyle borderInlineEndStyle borderRightStyle",
    ),
    (
        "borderHorizontalColor",
        "borderInlineColor borderInlineStartColor borderLeftColor borderInlineEndColor borderRightColor",
    ),
    ("borderVerticalWidth", "borderBlockWidth borderTopWidth borderBottomWidth"),
    ("borderVerticalStyle", "borderBlockStyle borderTopStyle borderBottomStyle"),
    ("borderVerticalColor", "borderBlockColor borderTopColor borderBottomColor"),
    ("borderStartColor", "borderInlineStartColor borderLeftColor borderRightColor"),
    ("borderEndColor", "borderInlineEndColor borderLeftColor borderRightColor"),
    ("borderStartStyle", "borderInlineStartStyle borderLeftStyle borderRightStyle"),
    ("borderEndStyle", "borderInlineEndStyle borderLeftStyle borderRightStyle"),
    ("borderStartWidth", "borderInlineStartWidth borderLeftWidth borderRightWidth"),
    ("borderEndWidth", "borderInlineEndWidth borderLeftWidth borderRightWidth"),
    ("borderTopStartRadius", "borderStartStartRadius"),
    ("borderTopEndRadius", "borderStartEndRadius"),
    ("borderBottomStartRadius", "borderEndStartRadius"),
    ("borderBottomEndRadius", "borderEndEndRadius"),
    ("marginStart", "marginInlineStart marginLeft marginRight"),
    ("marginEnd", "marginInlineEnd marginLeft marginRight"),
    ("marginHorizontal", "marginInline marginInlineStart marginLeft marginInlineEnd marginRight"),
    ("marginVertical", "marginBlock marginTop marginBottom"),
    ("paddingStart", "paddingInlineStart paddingLeft paddingRight"),
    ("paddingEnd", "paddingInlineEnd paddingLeft paddingRight"),
    ("paddingHorizontal", "paddingInline paddingStart paddingLeft paddingEnd paddingRight"),
    ("paddingVertical", "paddingBlock paddingTop paddingBottom"),
    ("start", "insetInlineStart left right"),
    ("end", "insetInlineEnd left right"),
    ("borderBlockStyle", "borderBlockStyle borderTopStyle borderBottomStyle"),
];

/// Shorthands of four sides, with the longhands of the top, the end, the bottom and
/// the start.
pub const QUADS: [(&'static str, &'static str); 7] = [
    ("borderColor", "borderTopColor borderInlineEndColor borderBottomColor borderInlineStartColor"),
    ("borderStyle", "borderTopStyle borderInlineEndStyle borderBottomStyle borderInlineStartStyle"),
    ("borderWidth", "borderTopWidth borderInlineEndWidth borderBottomWidth borderInlineStartWidth"),
    (
        "borderRadius",
        "borderStartStartRadius borderStartEndRadius borderEndEndRadius borderEndStartRadius",
    ),
    ("inset", "top insetInlineEnd bottom insetInlineStart"),
    ("margin", "marginTop marginInlineEnd marginBottom marginInlineStart"),
    ("padding", "paddingTop paddingInlineEnd paddingBottom paddingInlineStart"),
];

/// Shorthands that hand their whole value to each longhand.
pub const SAMES: [(&'static str, &'static str); 45] = [
    ("border", "borderTop borderInlineEnd borderBottom borderInlineStart"),
    ("borderHorizontal", "borderInlineStart borderInlineEnd"),
    ("borderVertical", "borderTop borderBottom"),
    ("borderHorizontalColor", "borderInlineStartColor borderInlineEndColor"),
    ("borderInlineColor", "borderInlineStartColor borderInlineEndColor"),
    ("borderHorizontalStyle", "borderInlineStartStyle borderInlineEndStyle"),
    ("borderInlineStyle", "borderInlineStartStyle borderInlineEndStyle"),
    ("borderHorizontalWidth", "borderInlineStartWidth borderInlineEndWidth"),
    ("borderInlineWidth", "borderInlineStartWidth borderInlineEndWidth"),
    ("borderVerticalColor", "borderTopColor borderBottomColor"),
    ("borderBlockColor", "borderTopColor borderBottomColor"),
    ("borderVerticalStyle", "borderTopStyle borderBottomStyle"),
    ("borderBlockStyle", "borderTopStyle borderBottomStyle"),
    ("borderVerticalWidth", "borderTopWidth borderBottomWidth"),
    ("borderBlockWidth", "borderTopWidth borderBottomWidth"),
    ("insetBlockStart", "top"),
    ("marginBlockStart", "marginTop"),
    ("paddingBlockStart", "paddingTop"),
    ("insetBlockEnd", "bottom"),
    ("marginBlockEnd", "marginBottom"),
    ("paddingBlockEnd", "paddingBottom"),
    ("blockSize", "height"),
    ("inlineSize", "width"),
    ("minBlockSize", "minHeight"),
    ("minInlineSize", "minWidth"),
    ("maxBlockSize", "maxHeight"),
    ("maxInlineSize", "maxWidth"),
    ("borderStart", "borderInlineStart"),
    ("borderEnd", "borderInlineEnd"),
    ("borderBlockStartWidth", "borderTopWidth"),
    ("borderBlockStartStyle", "borderTopStyle"),
    ("borderBlockStartColor", "borderTopColor"),
    ("borderBlockEndWidth", "borderBottomWidth"),
    ("borderBlockEndStyle", "borderBottomStyle"),
    ("borderBlockEndColor", "borderBottomColor"),
    ("borderTopStartRadius", "borderStartStartRadius"),
    ("borderTopEndRadius", "borderStartEndRadius"),
    ("borderBottomStartRadius", "borderEndStartRadius"),
    ("borderBottomEndRadius", "borderEndEndRadius"),
    ("gridRowGap", "rowGap"),
    ("gridColumnGap", "columnGap"),
    ("overflowBlock", "overflowY"),
    ("overflowInline", "overflowX"),
    ("scrollMarginBlockStart", "scrollMarginTop"),
    ("scrollMarginBlockEnd", "scrollMarginBottom"),
];

/// Shorthands of two longhands.
pub const DUOS: [(&'static str, &'static str); 8] = [
    ("insetBlock", "top bottom"),
    ("gap", "rowGap columnGap"),
    ("gridGap", "rowGap columnGap"),
    ("marginVertical", "marginTop marginBottom"),
    ("marginBlock", "marginTop marginBottom"),
    ("overflow", "overflowX overflowY"),
    ("paddingVertical", "paddingTop paddingBottom"),
    ("paddingBlock", "paddingTop paddingBottom"),
];

/// Properties that unset two others, behind the property that keeps the value.
pub const PUNCHED: [(&'static str, &'static str); 14] = [
    ("start", "insetInlineStart left right"),
    ("insetInlineStart", "insetInlineStart left right"),
    ("end", "insetInlineEnd left right"),
    ("insetInlineEnd", "insetInlineEnd left right"),
    ("left", "left insetInlineStart insetInlineEnd"),
    ("right", "right insetInlineStart insetInlineEnd"),
    ("marginStart", "marginInlineStart marginLeft marginRight"),
    ("marginEnd", "marginInlineEnd marginLeft marginRight"),
    ("marginLeft", "marginLeft marginInlineStart marginInlineEnd"),
    ("marginRight", "marginRight marginInlineStart marginInlineEnd"),
    ("paddingStart", "paddingInlineStart paddingLeft paddingRight"),
    ("paddingEnd", "paddingInlineEnd paddingLeft paddingRight"),
    ("paddingLeft", "paddingLeft paddingInlineStart paddingInlineEnd"),
    ("paddingRight", "paddingRight paddingInlineStart paddingInlineEnd"),
];

/// Shorthands of a start and an end, behind which come the two properties that each
/// of them unsets.
pub const PUNCHED_PAIRS: [(&'static str, &'static str); 5] = [
    ("insetInline", "insetInlineStart insetInlineEnd left right"),
    ("marginHorizontal", "marginInlineStart marginInlineEnd marginLeft marginRight"),
    ("marginInline", "marginInlineStart marginInlineEnd marginLeft marginRight"),
    ("paddingHorizontal", "paddingInlineStart paddingInlineEnd paddingLeft paddingRight"),
    ("paddingInline", "paddingInlineStart paddingInlineEnd paddingLeft paddingRight"),
];

/// A key without the brackets of a variable round it.
pub open spec fn bare_key(key: Seq<char>) -> Seq<char> {
    if var_value(key) {
        key.subrange(4, key.len() - 1)
    } else {
        key
    }
}

fn bare_key_of(key: &str) -> (r: String)
    ensures
        r@ == bare_key(key@),
{
    if starts_with(key, "var(") && ends_with(key, ")") {
        let s = chars_of(key);
        proof {
            lemma_var_key(key@);
        }
        piece(&s, 4, s.len() - 1)
    } else {
        key.to_owned()
    }
}

proof fn lemma_var_key(key: Seq<char>)
    requires
        var_value(key),
    ensures
        key.len() >= 5,
{
    reveal_strlit("var(");
    reveal_strlit(")");
    if key.len() == 4 {
        assert(key.subrange(0, 4)[3] == '(');
        assert(key.subrange(3, 4)[0] == ')');
    }
}

/// The part at `i`, or the mark of a missing one.
pub open spec fn part_at(parts: Seq<Option<ScalarModel>>, i: int) -> Option<ScalarModel> {
    if 0 <= i < parts.len() {
        parts[i]
    } else {
        Some(ScalarModel::Undefined)
    }
}

/// A part, or what stands for it where it is missing.
pub open spec fn part_or(v: Option<ScalarModel>, fallback: Option<ScalarModel>) -> Option<
    ScalarModel,
> {
    if v == Some(ScalarModel::Undefined) {
        fallback
    } else {
        v
    }
}

/// The four sides of a box: the top, the end, the bottom and the start.
pub open spec fn box_sides(parts: Seq<Option<ScalarModel>>) -> Seq<Option<ScalarModel>> {
    let t = part_at(parts, 0);
    let r = part_or(part_at(parts, 1), t);
    let b = part_or(part_at(parts, 2), t);
    let l = part_or(part_at(parts, 3), r);
    seq![t, r, b, l]
}

/// The two sides of a pair.
pub open spec fn two_sides(parts: Seq<Option<ScalarModel>>) -> Seq<Option<ScalarModel>> {
    let a = part_at(parts, 0);
    seq![a, part_or(part_at(parts, 1), a)]
}

/// Names with their values, as far as both go.
pub open spec fn zipped(names: Seq<Seq<char>>, values: Seq<Option<ScalarModel>>) -> Seq<PairModel> {
    Seq::new(
        if names.len() < values.len() {
            names.len()
        } else {
            values.len()
        },
        |i: int| (names[i], values[i]),
    )
}

/// The words of a row of a table.
pub open spec fn words(row: Seq<char>) -> Seq<Seq<char>> {
    split_at_char(row, ' ')
}

/// The first name with the value, the others without one.
pub open spec fn first_keeps(names: Seq<Seq<char>>, value: Option<ScalarModel>) -> Seq<PairModel> {
    Seq::new(
        names.len(),
        |i: int|
            (
                names[i],
                if i == 0 {
                    value
                } else {
                    None
                },
            ),
    )
}

/// A start and an end, each of which unsets the two sides.
pub open spec fn punched_pair(names: Seq<Seq<char>>, sides: Seq<Option<ScalarModel>>) -> Seq<
    PairModel,
> {
    if names.len() == 4 {
        seq![
            (names[0], sides[0]),
            (names[2], None),
            (names[3], None),
            (names[1], sides[1]),
            (names[2], None),
            (names[3], None),
        ]
    } else {
        Seq::empty()
    }
}

/// The value of `float` or `clear` by the direction of the line.
pub open spec fn logical_float(value: Option<ScalarModel>) -> Option<ScalarModel> {
    match value {
        Some(ScalarModel::Str(s)) => if s == "inline-start"@ || s == "start"@ {
            Some(ScalarModel::Str(LOGICAL_START_VAR@))
        } else if s == "inline-end"@ || s == "end"@ {
            Some(ScalarModel::Str(LOGICAL_END_VAR@))
        } else {
            value
        },
        _ => value,
    }
}

/// A part as text.
pub open spec fn part_text(v: Option<ScalarModel>) -> Seq<char> {
    match v {
        Some(ScalarModel::Str(s)) => s,
        Some(ScalarModel::Num(n)) => n.text_spec(),
        Some(ScalarModel::Undefined) => "undefined"@,
        None => "null"@,
    }
}

/// The first `k` parts, where `auto` takes the part behind it.
pub open spec fn auto_folded(parts: Seq<Option<ScalarModel>>, k: int) -> Seq<Option<ScalarModel>>
    decreases k,
{
    if k <= 0 {
        Seq::empty()
    } else {
        let done = auto_folded(parts, k - 1);
        let part = parts[k - 1];
        let takes = done.len() > 0 && done.last() == Some(ScalarModel::Str("auto"@))
            && part is Some && part != Some(ScalarModel::Undefined);
        if takes {
            done.drop_last().push(Some(ScalarModel::Str("auto "@ + part_text(part))))
        } else {
            done.push(part)
        }
    }
}

/// Whether a part is a type of list marker: a name, or text in quotes on one line.
pub open spec fn marker_type(part: Seq<char>) -> bool {
    ||| part.len() > 0 && forall|i: int|
        0 <= i < part.len() ==> (('a' <= #[trigger] part[i] <= 'z') || part[i] == '-')
    ||| part.len() >= 2 && (part[0] == '"' || part[0] == '\'') && part.last() == part[0] && forall|
        i: int,
    |
        1 <= i < part.len() - 1 ==> !line_end(#[trigger] part[i])
}

/// Whether a character ends a line.
pub open spec fn line_end(c: char) -> bool {
    c == '\n' || c == '\r' || c == '\u{2028}' || c == '\u{2029}'
}

/// What the parts of a list style have been taken for so far.
#[verifier::ext_equal]
pub struct ListParts {
    pub kind: Option<Seq<char>>,
    pub position: Option<Seq<char>>,
    pub image: Option<Seq<char>>,
    pub rest: Seq<Seq<char>>,
}

/// The parts from `i` on, each taken for a position, a type, or something else. An
/// error says whether its value is quoted twice.
pub open spec fn list_parts(parts: Seq<Option<ScalarModel>>, i: int, found: ListParts) -> Result<
    ListParts,
    bool,
>
    decreases parts.len() - i,
{
    if i < 0 || i >= parts.len() {
        Ok(found)
    } else {
        match parts[i] {
            Some(ScalarModel::Str(part)) => if listed(part, LIST_STYLE_GLOBALS@) || has_part(
                part,
                "var(--"@,
            ) {
                Err(true)
            } else if part == "inside"@ || part == "outside"@ {
                if found.position is Some {
                    Err(false)
                } else {
                    list_parts(parts, i + 1, ListParts { position: Some(part), ..found })
                }
            } else if part != "none"@ && marker_type(part) {
                if found.kind is Some {
                    Err(false)
                } else {
                    list_parts(parts, i + 1, ListParts { kind: Some(part), ..found })
                }
            } else {
                list_parts(parts, i + 1, ListParts { rest: found.rest.push(part), ..found })
            },
            _ => list_parts(parts, i + 1, found),
        }
    }
}

/// The parts that are left from `i` on: the first `none` is a type where there is
/// none yet, anything else an image.
pub open spec fn list_rest(rest: Seq<Seq<char>>, i: int, found: ListParts) -> Result<ListParts, bool>
    decreases rest.len() - i,
{
    if i < 0 || i >= rest.len() {
        Ok(found)
    } else if rest[i] == "none"@ && found.kind is None {
        list_rest(rest, i + 1, ListParts { kind: Some(rest[i]), ..found })
    } else if found.image is Some {
        Err(false)
    } else {
        list_rest(rest, i + 1, ListParts { image: Some(rest[i]), ..found })
    }
}

/// Nothing found yet.
pub open spec fn no_parts() -> ListParts {
    ListParts { kind: None, position: None, image: None, rest: Seq::empty() }
}

/// The value of one part of a list style.
pub open spec fn cell(v: Option<Seq<char>>) -> Option<ScalarModel> {
    match v {
        Some(s) => Some(ScalarModel::Str(s)),
        None => None,
    }
}

/// The declarations of a list style.
pub open spec fn list_pairs(
    kind: Option<ScalarModel>,
    position: Option<ScalarModel>,
    image: Option<ScalarModel>,
) -> Seq<PairModel> {
    seq![("listStyleType"@, kind), ("listStylePosition"@, position), ("listStyleImage"@, image)]
}

/// The error of a list style.
pub open spec fn list_error(value: ScalarModel, doubled: bool) -> ErrorModel {
    let json = match value {
        ScalarModel::Str(s) => json_string(s),
        ScalarModel::Num(n) => n.text_spec(),
        ScalarModel::Undefined => "undefined"@,
    };
    said(
        ErrorCode::InvalidListStyle,
        "invalid \"listStyle\" value of "@ + if doubled {
            "\""@ + json + "\""@
        } else {
            json
        },
    )
}

/// The declarations of a list style, or why there are none.
pub open spec fn list_style_pairs(value: Option<ScalarModel>) -> Result<Seq<PairModel>, ErrorModel> {
    match value {
        None => Ok(list_pairs(None, None, None)),
        Some(v) => {
            let parts = split_scalar(value);
            let one = parts[0];
            if parts.len() == 1 && one is Some && one->0 is Str && listed(
                one->0->Str_0,
                LIST_STYLE_GLOBALS@,
            ) {
                Ok(list_pairs(one, one, one))
            } else {
                match list_parts(parts, 0, no_parts()) {
                    Err(doubled) => Err(list_error(v, doubled)),
                    Ok(found) => match list_rest(found.rest, 0, found) {
                        Err(doubled) => Err(list_error(v, doubled)),
                        Ok(all) => Ok(
                            list_pairs(cell(all.kind), cell(all.position), cell(all.image)),
                        ),
                    },
                }
            }
        },
    }
}

/// The declarations of a legacy shorthand, if the key is one.
pub open spec fn legacy_pairs(key: Seq<char>, value: Option<ScalarModel>) -> Option<
    Result<Seq<PairModel>, ErrorModel>,
> {
    let parts = split_scalar(value);
    if paired(key, QUADS@) is Some {
        Some(Ok(zipped(words(paired(key, QUADS@)->0), box_sides(parts))))
    } else if paired(key, SAMES@) is Some {
        let names = words(paired(key, SAMES@)->0);
        Some(Ok(Seq::new(names.len(), |i: int| (names[i], value))))
    } else if paired(key, DUOS@) is Some {
        Some(Ok(zipped(words(paired(key, DUOS@)->0), two_sides(parts))))
    } else if paired(key, PUNCHED@) is Some {
        Some(Ok(first_keeps(words(paired(key, PUNCHED@)->0), value)))
    } else if paired(key, PUNCHED_PAIRS@) is Some {
        Some(Ok(punched_pair(words(paired(key, PUNCHED_PAIRS@)->0), two_sides(parts))))
    } else if key == "containIntrinsicSize"@ {
        Some(
            Ok(
                zipped(
                    seq!["containIntrinsicWidth"@, "containIntrinsicHeight"@],
                    two_sides(auto_folded(parts, parts.len() as int)),
                ),
            ),
        )
    } else if key == "listStyle"@ {
        Some(list_style_pairs(value))
    } else if key == "float"@ || key == "clear"@ {
        Some(Ok(seq![(key, logical_float(value))]))
    } else {
        None
    }
}

/// The error for values to fall back on under a shorthand.
pub open spec fn fallback_error() -> ErrorModel {
    said(
        ErrorCode::ShorthandFallback,
        "Cannot use fallbacks for shorthands. Use the expansion instead."@,
    )
}

/// What is done about a shorthand that is refused.
pub open spec fn refused(key: Seq<char>, mode: PropertyValidationMode) -> Result<
    Seq<PairModel>,
    ErrorModel,
> {
    match mode {
        PropertyValidationMode::Throw => Err(
            said(ErrorCode::BannedShorthand, paired(key, BANNED_SHORTHANDS@)->0),
        ),
        _ => Ok(Seq::empty()),
    }
}

/// The declarations that a property stands for. No declarations drop the property.
pub open spec fn expanded(
    raw: Seq<char>,
    value: Option<ScalarModel>,
    is_array: bool,
    resolution: StyleResolution,
    mode: PropertyValidationMode,
) -> Result<Seq<PairModel>, ErrorModel> {
    let key = bare_key(raw);
    match resolution {
        StyleResolution::PropertySpecificity => if paired(key, BANNED_SHORTHANDS@) is Some {
            if is_array {
                Err(fallback_error())
            } else {
                refused(key, mode)
            }
        } else if paired(key, ALIASES@) is Some {
            if is_array {
                Err(fallback_error())
            } else {
                Ok(seq![(paired(key, ALIASES@)->0, value)])
            }
        } else {
            Ok(seq![(key, value)])
        },
        StyleResolution::ApplicationOrder => if key == "all"@ {
            if is_array {
                Err(fallback_error())
            } else {
                refused(key, mode)
            }
        } else if paired(key, APPLICATION_ORDER@) is Some {
            if is_array {
                Err(fallback_error())
            } else {
                Ok(first_keeps(words(paired(key, APPLICATION_ORDER@)->0), value))
            }
        } else {
            Ok(seq![(key, value)])
        },
        StyleResolution::LegacyExpandShorthands => match legacy_pairs(key, value) {
            None => Ok(seq![(key, value)]),
            Some(pairs) => if is_array {
                Err(fallback_error())
            } else {
                match pairs {
                    Ok(p) => Ok(p),
                    Err(e) => match mode {
                        PropertyValidationMode::Throw => Err(e),
                        _ => Ok(Seq::empty()),
                    },
                }
            },
        },
    }
}

/// The view of declarations or an error.
pub open spec fn pairs_result(r: Result<Vec<ExpandedPair>, StylexError>) -> Result<
    Seq<PairModel>,
    ErrorModel,
> {
    match r {
        Ok(v) => Ok(pair_models(v@)),
        Err(e) => Err(e.model()),
    }
}

fn one_pair(key: &str, value: Option<StyleScalar>) -> (r: Vec<ExpandedPair>)
    ensures
        pair_models(r@) == seq![(key@, opt_scalar(value))],
{
    let mut out: Vec<ExpandedPair> = Vec::new();
    out.push((key.to_owned(), value));
    proof {
        assert(pair_models(out@) =~= seq![(key@, opt_scalar(value))]);
    }
    out
}

fn is_missing(v: &Option<StyleScalar>) -> (r: bool)
    ensures
        r == (opt_scalar(*v) == Some(ScalarModel::Undefined)),
{
    match v {
        Some(StyleScalar::Undefined) => true,
        _ => false,
    }
}

fn at(parts: &Vec<Option<StyleScalar>>, index: usize) -> (r: Option<StyleScalar>)
    ensures
        opt_scalar(r) == part_at(scalar_models(parts@), index as int),
{
    if index < parts.len() {
        copy_scalar(&parts[index])
    } else {
        Some(StyleScalar::Undefined)
    }
}

fn or(value: Option<StyleScalar>, fallback: &Option<StyleScalar>) -> (r: Option<StyleScalar>)
    ensures
        opt_scalar(r) == part_or(opt_scalar(value), opt_scalar(*fallback)),
{
    if is_missing(&value) {
        copy_scalar(fallback)
    } else {
        value
    }
}

fn box_values(parts: &Vec<Option<StyleScalar>>) -> (r: Vec<Option<StyleScalar>>)
    ensures
        scalar_models(r@) == box_sides(scalar_models(parts@)),
        r@.len() == 4,
{
    let t = at(parts, 0);
    let right = or(at(parts, 1), &t);
    let b = or(at(parts, 2), &t);
    let l = or(at(parts, 3), &right);
    let mut out: Vec<Option<StyleScalar>> = Vec::new();
    out.push(t);
    out.push(right);
    out.push(b);
    out.push(l);
    proof {
        assert(scalar_models(out@) =~= box_sides(scalar_models(parts@)));
    }
    out
}

fn pair_values(parts: &Vec<Option<StyleScalar>>) -> (r: Vec<Option<StyleScalar>>)
    ensures
        scalar_models(r@) == two_sides(scalar_models(parts@)),
        r@.len() == 2,
{
    let a = at(parts, 0);
    let b = or(at(parts, 1), &a);
    let mut out: Vec<Option<StyleScalar>> = Vec::new();
    out.push(a);
    out.push(b);
    proof {
        assert(scalar_models(out@) =~= two_sides(scalar_models(parts@)));
    }
    out
}

fn zip_pairs(names: &Vec<String>, values: &Vec<Option<StyleScalar>>) -> (r: Vec<ExpandedPair>)
    ensures
        pair_models(r@) == zipped(texts(names@), scalar_models(values@)),
{
    let mut out: Vec<ExpandedPair> = Vec::new();
    let mut i: usize = 0;
    while i < names.len() && i < values.len()
        invariant
            i <= names@.len(),
            i <= values@.len(),
            out@.len() == i,
            forall|j: int|
                0 <= j < i ==> (#[trigger] out@[j]).0@ == names@[j]@ && opt_scalar(out@[j].1)
                    == opt_scalar(values@[j]),
        decreases names@.len() - i,
    {
        out.push((names[i].clone(), copy_scalar(&values[i])));
        i += 1;
    }
    proof {
        assert(pair_models(out@) =~= zipped(texts(names@), scalar_models(values@)));
    }
    out
}

fn keep_first(names: &Vec<String>, value: &Option<StyleScalar>) -> (r: Vec<ExpandedPair>)
    ensures
        pair_models(r@) == first_keeps(texts(names@), opt_scalar(*value)),
{
    let mut out: Vec<ExpandedPair> = Vec::new();
    let mut i: usize = 0;
    while i < names.len()
        invariant
            i <= names@.len(),
            out@.len() == i,
            forall|j: int|
                0 <= j < i ==> (#[trigger] out@[j]).0@ == names@[j]@ && opt_scalar(out@[j].1)
                    == if j == 0 {
                    opt_scalar(*value)
                } else {
                    None
                },
        decreases names@.len() - i,
    {
        let v = if i == 0 {
            copy_scalar(value)
        } else {
            None
        };
        out.push((names[i].clone(), v));
        i += 1;
    }
    proof {
        assert(pair_models(out@) =~= first_keeps(texts(names@), opt_scalar(*value)));
    }
    out
}

fn same_for_all(names: &Vec<String>, value: &Option<StyleScalar>) -> (r: Vec<ExpandedPair>)
    ensures
        pair_models(r@) == Seq::new(
            texts(names@).len(),
            |i: int| (texts(names@)[i], opt_scalar(*value)),
        ),
{
    let mut out: Vec<ExpandedPair> = Vec::new();
    let mut i: usize = 0;
    while i < names.len()
        invariant
            i <= names@.len(),
            out@.len() == i,
            forall|j: int|
                0 <= j < i ==> (#[trigger] out@[j]).0@ == names@[j]@ && opt_scalar(out@[j].1)
                    == opt_scalar(*value),
        decreases names@.len() - i,
    {
        out.push((names[i].clone(), copy_scalar(value)));
        i += 1;
    }
    proof {
        assert(pair_models(out@) =~= Seq::new(
            texts(names@).len(),
            |i: int| (texts(names@)[i], opt_scalar(*value)),
        ));
    }
    out
}

fn punch_pair(names: &Vec<String>, sides: &Vec<Option<StyleScalar>>) -> (r: Vec<ExpandedPair>)
    requires
        sides@.len() == 2,
    ensures
        pair_models(r@) == punched_pair(texts(names@), scalar_models(sides@)),
{
    let mut out: Vec<ExpandedPair> = Vec::new();
    if names.len() == 4 {
        out.push((names[0].clone(), copy_scalar(&sides[0])));
        out.push((names[2].clone(), None));
        out.push((names[3].clone(), None));
        out.push((names[1].clone(), copy_scalar(&sides[1])));
        out.push((names[2].clone(), None));
        out.push((names[3].clone(), None));
    }
    proof {
        assert(pair_models(out@) =~= punched_pair(texts(names@), scalar_models(sides@)));
    }
    out
}

fn logical_float_value(value: &Option<StyleScalar>) -> (r: Option<StyleScalar>)
    ensures
        opt_scalar(r) == logical_float(opt_scalar(*value)),
{
    match value {
        Some(StyleScalar::Str(s)) => {
            if str_eq(s.as_str(), "inline-start") || str_eq(s.as_str(), "start") {
                return Some(StyleScalar::Str(LOGICAL_START_VAR.to_owned()));
            }
            if str_eq(s.as_str(), "inline-end") || str_eq(s.as_str(), "end") {
                return Some(StyleScalar::Str(LOGICAL_END_VAR.to_owned()));
            }
            copy_scalar(value)
        },
        _ => copy_scalar(value),
    }
}

fn scalar_text(v: &Option<StyleScalar>) -> (r: String)
    ensures
        r@ == part_text(opt_scalar(*v)),
{
    match v {
        Some(StyleScalar::Str(s)) => s.clone(),
        Some(StyleScalar::Num(n)) => n.text(),
        Some(StyleScalar::Undefined) => "undefined".to_owned(),
        None => "null".to_owned(),
    }
}

fn fold_auto(parts: &Vec<Option<StyleScalar>>) -> (r: Vec<Option<StyleScalar>>)
    ensures
        scalar_models(r@) == auto_folded(scalar_models(parts@), parts@.len() as int),
{
    let ghost all = scalar_models(parts@);
    let mut folded: Vec<Option<StyleScalar>> = Vec::new();
    let mut i: usize = 0;
    proof {
        assert(scalar_models(folded@) =~= Seq::<Option<ScalarModel>>::empty());
    }
    while i < parts.len()
        invariant
            all == scalar_models(parts@),
            i <= parts@.len(),
            scalar_models(folded@) == auto_folded(all, i as int),
        decreases parts@.len() - i,
    {
        let ghost before = scalar_models(folded@);
        assert(all[i as int] == opt_scalar(parts@[i as int]));
        let after_auto = if folded.len() > 0 {
            assert(before.last() == opt_scalar(folded@.last()));
            match &folded[folded.len() - 1] {
                Some(StyleScalar::Str(s)) => str_eq(s.as_str(), "auto"),
                _ => false,
            }
        } else {
            false
        };
        if after_auto && parts[i].is_some() && !is_missing(&parts[i]) {
            let joined = concat2("auto ", scalar_text(&parts[i]).as_str());
            folded.pop();
            folded.push(Some(StyleScalar::Str(joined)));
            proof {
                assert(scalar_models(folded@) =~= before.drop_last().push(
                    Some(ScalarModel::Str("auto "@ + part_text(all[i as int]))),
                ));
            }
        } else {
            folded.push(copy_scalar(&parts[i]));
            proof {
                assert(scalar_models(folded@) =~= before.push(all[i as int]));
            }
        }
        i += 1;
    }
    folded
}

fn is_list_style_type(part: &str) -> (r: bool)
    ensures
        r == marker_type(part@),
{
    let s = chars_of(part);
    let mut plain = s.len() > 0;
    let mut i: usize = 0;
    while i < s.len() && plain
        invariant
            s@ == part@,
            i <= s@.len(),
            plain ==> s@.len() > 0 && forall|j: int|
                0 <= j < i ==> (('a' <= #[trigger] s@[j] <= 'z') || s@[j] == '-'),
            !plain ==> s@.len() == 0 || exists|j: int|
                0 <= j < s@.len() && !(('a' <= #[trigger] s@[j] <= 'z') || s@[j] == '-'),
        decreases s@.len() - i,
    {
        if !(('a' <= s[i] && s[i] <= 'z') || s[i] == '-') {
            plain = false;
        }
        i += 1;
    }
    if plain {
        return true;
    }
    if s.len() < 2 || !(s[0] == '"' || s[0] == '\'') || s[s.len() - 1] != s[0] {
        return false;
    }
    let mut k: usize = 1;
    while k < s.len() - 1
        invariant
            s@ == part@,
            s@.len() >= 2,
            1 <= k <= s@.len() - 1,
            forall|j: int| 1 <= j < k ==> !line_end(#[trigger] s@[j]),
            !(s@.len() > 0 && forall|j: int|
                0 <= j < s@.len() ==> (('a' <= #[trigger] s@[j] <= 'z') || s@[j] == '-')),
        decreases s@.len() - k,
    {
        let c = s[k];
        if c == '\n' || c == '\r' || c == '\u{2028}' || c == '\u{2029}' {
            assert(line_end(s@[k as int]));
            return false;
        }
        k += 1;
    }
    true
}

fn list_style_error(value: &StyleScalar, doubled_quotes: bool) -> (r: StylexError)
    ensures
        r.model() == list_error(value.model(), doubled_quotes),
{
    let json = match value {
        StyleScalar::Str(s) => json_quoted(s.as_str()),
        StyleScalar::Num(n) => n.text(),
        StyleScalar::Undefined => "undefined".to_owned(),
    };
    if doubled_quotes {
        StylexError::invalid_list_style(concat3("\"", json.as_str(), "\"").as_str())
    } else {
        StylexError::invalid_list_style(json.as_str())
    }
}

fn cell_of(v: &Option<String>) -> (r: Option<StyleScalar>)
    ensures
        opt_scalar(r) == cell(crate::value::opt_text(*v)),
{
    match v {
        Some(s) => Some(StyleScalar::Str(s.clone())),
        None => None,
    }
}

fn make_list_pairs(
    kind: Option<StyleScalar>,
    position: Option<StyleScalar>,
    image: Option<StyleScalar>,
) -> (r: Vec<ExpandedPair>)
    ensures
        pair_models(r@) == list_pairs(opt_scalar(kind), opt_scalar(position), opt_scalar(image)),
{
    let mut out: Vec<ExpandedPair> = Vec::new();
    out.push(("listStyleType".to_owned(), kind));
    out.push(("listStylePosition".to_owned(), position));
    out.push(("listStyleImage".to_owned(), image));
    proof {
        assert(pair_models(out@) =~= list_pairs(
            opt_scalar(kind),
            opt_scalar(position),
            opt_scalar(image),
        ));
    }
    out
}

/// What the parts of a list style have been taken for.
struct Found {
    kind: Option<String>,
    position: Option<String>,
    image: Option<String>,
    rest: Vec<String>,
}

impl Found {
    spec fn parts(self) -> ListParts {
        ListParts {
            kind: crate::value::opt_text(self.kind),
            position: crate::value::opt_text(self.position),
            image: crate::value::opt_text(self.image),
            rest: texts(self.rest@),
        }
    }
}

fn take_parts(parts: &Vec<Option<StyleScalar>>) -> (r: Result<Found, bool>)
    ensures
        match r {
            Ok(f) => list_parts(scalar_models(parts@), 0, no_parts()) == Ok::<ListParts, bool>(
                f.parts(),
            ),
            Err(d) => list_parts(scalar_models(parts@), 0, no_parts()) == Err::<ListParts, bool>(d),
        },
{
    let ghost all = scalar_models(parts@);
    let mut kind: Option<String> = None;
    let mut position: Option<String> = None;
    let mut rest: Vec<String> = Vec::new();
    let mut i: usize = 0;
    let ghost mut found = no_parts();
    proof {
        assert(texts(rest@) =~= Seq::<Seq<char>>::empty());
    }
    while i < parts.len()
        invariant
            all == scalar_models(parts@),
            i <= parts@.len(),
            found == (ListParts {
                kind: crate::value::opt_text(kind),
                position: crate::value::opt_text(position),
                image: None,
                rest: texts(rest@),
            }),
            list_parts(all, 0, no_parts()) == list_parts(all, i as int, found),
        decreases parts@.len() - i,
    {
        assert(all[i as int] == opt_scalar(parts@[i as int]));
        if let Some(StyleScalar::Str(s)) = &parts[i] {
            let part = s.as_str();
            if is_listed(part, &LIST_STYLE_GLOBALS) || contains(part, "var(--") {
                return Err(true);
            }
            if str_eq(part, "inside") || str_eq(part, "outside") {
                if position.is_some() {
                    return Err(false);
                }
                position = Some(s.clone());
                proof {
                    found = ListParts { position: Some(part@), ..found };
                }
            } else if !str_eq(part, "none") && is_list_style_type(part) {
                if kind.is_some() {
                    return Err(false);
                }
                kind = Some(s.clone());
                proof {
                    found = ListParts { kind: Some(part@), ..found };
                }
            } else {
                let ghost before = texts(rest@);
                rest.push(s.clone());
                proof {
                    assert(texts(rest@) =~= before.push(part@));
                    found = ListParts { rest: before.push(part@), ..found };
                }
            }
        }
        i += 1;
    }
    Ok(Found { kind, position, image: None, rest })
}

fn take_rest(found: Found) -> (r: Result<Found, bool>)
    ensures
        match r {
            Ok(f) => list_rest(found.parts().rest, 0, found.parts()) == Ok::<ListParts, bool>(
                f.parts(),
            ),
            Err(d) => list_rest(found.parts().rest, 0, found.parts()) == Err::<ListParts, bool>(d),
        },
{
    let ghost start = found.parts();
    let rest = found.rest;
    let position = found.position;
    let mut kind = found.kind;
    let mut image = found.image;
    let ghost all = texts(rest@);
    let ghost mut cur = start;
    let mut i: usize = 0;
    while i < rest.len()
        invariant
            all == texts(rest@),
            start == found.parts(),
            start.rest == all,
            i <= rest@.len(),
            cur == (ListParts {
                kind: crate::value::opt_text(kind),
                position: crate::value::opt_text(position),
                image: crate::value::opt_text(image),
                rest: all,
            }),
            list_rest(all, 0, start) == list_rest(all, i as int, cur),
        decreases rest@.len() - i,
    {
        assert(all[i as int] == rest@[i as int]@);
        if str_eq(rest[i].as_str(), "none") && kind.is_none() {
            kind = Some(rest[i].clone());
            proof {
                cur = ListParts { kind: Some(all[i as int]), ..cur };
            }
        } else {
            if image.is_some() {
                return Err(false);
            }
            image = Some(rest[i].clone());
            proof {
                cur = ListParts { image: Some(all[i as int]), ..cur };
            }
        }
        i += 1;
    }
    Ok(Found { kind, position, image, rest })
}

fn list_style(value: &Option<StyleScalar>) -> (r: Result<Vec<ExpandedPair>, StylexError>)
    ensures
        pairs_result(r) == list_style_pairs(opt_scalar(*value)),
{
    let v = match value {
        None => {
            return Ok(make_list_pairs(None, None, None));
        },
        Some(v) => v,
    };
    let parts = split_value(Some(v));
    let ghost all = scalar_models(parts@);
    if parts.len() == 1 {
        assert(all[0] == opt_scalar(parts@[0]));
        if let Some(StyleScalar::Str(only)) = &parts[0] {
            if is_listed(only.as_str(), &LIST_STYLE_GLOBALS) {
                return Ok(
                    make_list_pairs(
                        copy_scalar(&parts[0]),
                        copy_scalar(&parts[0]),
                        copy_scalar(&parts[0]),
                    ),
                );
            }
        }
    }
    let found = match take_parts(&parts) {
        Ok(f) => f,
        Err(doubled) => {
            return Err(list_style_error(v, doubled));
        },
    };
    match take_rest(found) {
        Ok(f) => Ok(make_list_pairs(cell_of(&f.kind), cell_of(&f.position), cell_of(&f.image))),
        Err(doubled) => Err(list_style_error(v, doubled)),
    }
}

fn legacy_expansion(key: &str, value: &Option<StyleScalar>) -> (r: Option<
    Result<Vec<ExpandedPair>, StylexError>,
>)
    ensures
        r is Some == legacy_pairs(key@, opt_scalar(*value)) is Some,
        r is Some ==> pairs_result(r->0) == legacy_pairs(key@, opt_scalar(*value))->0,
{
    let parts = match value {
        Some(v) => split_value(Some(v)),
        None => split_value(None),
    };
    if let Some(row) = lookup(key, &QUADS) {
        return Some(Ok(zip_pairs(&split(row, ' '), &box_values(&parts))));
    }
    if let Some(row) = lookup(key, &SAMES) {
        return Some(Ok(same_for_all(&split(row, ' '), value)));
    }
    if let Some(row) = lookup(key, &DUOS) {
        return Some(Ok(zip_pairs(&split(row, ' '), &pair_values(&parts))));
    }
    if let Some(row) = lookup(key, &PUNCHED) {
        return Some(Ok(keep_first(&split(row, ' '), value)));
    }
    if let Some(row) = lookup(key, &PUNCHED_PAIRS) {
        return Some(Ok(punch_pair(&split(row, ' '), &pair_values(&parts))));
    }
    if str_eq(key, "containIntrinsicSize") {
        let mut names: Vec<String> = Vec::new();
        names.push("containIntrinsicWidth".to_owned());
        names.push("containIntrinsicHeight".to_owned());
        proof {
            assert(texts(names@) =~= seq!["containIntrinsicWidth"@, "containIntrinsicHeight"@]);
        }
        return Some(Ok(zip_pairs(&names, &pair_values(&fold_auto(&parts)))));
    }
    if str_eq(key, "listStyle") {
        return Some(list_style(value));
    }
    if str_eq(key, "float") || str_eq(key, "clear") {
        return Some(Ok(one_pair(key, logical_float_value(value))));
    }
    None
}

fn refuse(key: &str, options: &ResolvedOptions) -> (r: Result<Vec<ExpandedPair>, StylexError>)
    requires
        paired(key@, BANNED_SHORTHANDS@) is Some,
    ensures
        pairs_result(r) == refused(key@, options.property_validation_mode),
{
    match options.property_validation_mode {
        PropertyValidationMode::Throw => Err(StylexError::banned_shorthand(key).unwrap()),
        _ => {
            let out: Vec<ExpandedPair> = Vec::new();
            proof {
                assert(pair_models(out@) =~= Seq::<PairModel>::empty());
            }
            Ok(out)
        },
    }
}

/// Gives the declarations that a property stands for. No declarations drop the
/// property.
pub fn flat_map_expanded_shorthands(
    key: &str,
    value: Option<StyleScalar>,
    value_is_array: bool,
    options: &ResolvedOptions,
) -> (r: Result<Vec<ExpandedPair>, StylexError>)
    ensures
        pairs_result(r) == expanded(
            key@,
            opt_scalar(value),
            value_is_array,
            options.style_resolution,
            options.property_validation_mode,
        ),
{
    let bare = bare_key_of(key);
    match options.style_resolution {
        StyleResolution::PropertySpecificity => {
            if lookup(bare.as_str(), &BANNED_SHORTHANDS).is_some() {
                if value_is_array {
                    return Err(StylexError::shorthand_fallback());
                }
                return refuse(bare.as_str(), options);
            }
            match lookup(bare.as_str(), &ALIASES) {
                Some(target) => {
                    if value_is_array {
                        return Err(StylexError::shorthand_fallback());
                    }
                    Ok(one_pair(target, value))
                },
                None => Ok(one_pair(bare.as_str(), value)),
            }
        },
        StyleResolution::ApplicationOrder => {
            if str_eq(bare.as_str(), "all") {
                if value_is_array {
                    return Err(StylexError::shorthand_fallback());
                }
                proof {
                    assert(BANNED_SHORTHANDS@[0].0@ == "all"@);
                    reveal_with_fuel(crate::text::paired_from, 2);
                }
                return refuse(bare.as_str(), options);
            }
            match lookup(bare.as_str(), &APPLICATION_ORDER) {
                Some(row) => {
                    if value_is_array {
                        return Err(StylexError::shorthand_fallback());
                    }
                    Ok(keep_first(&split(row, ' '), &value))
                },
                None => Ok(one_pair(bare.as_str(), value)),
            }
        },
        StyleResolution::LegacyExpandShorthands => {
            match legacy_expansion(bare.as_str(), &value) {
                None => Ok(one_pair(bare.as_str(), value)),
                Some(pairs) => {
                    if value_is_array {
                        return Err(StylexError::shorthand_fallback());
                    }
                    match pairs {
                        Ok(p) => Ok(p),
                        Err(e) => {
                            match options.property_validation_mode {
                                PropertyValidationMode::Throw => Err(e),
                                _ => {
                                    let out: Vec<ExpandedPair> = Vec::new();
                                    proof {
                                        assert(pair_models(out@) =~= Seq::<PairModel>::empty());
                                    }
                                    Ok(out)
                                },
                            }
                        },
                    }
                },
            }
        },
    }
}

/// Warnings drop a property exactly where silence does.
pub proof fn warn_drops_like_silent(
    key: Seq<char>,
    value: Option<ScalarModel>,
    is_array: bool,
    resolution: StyleResolution,
)
    ensures
        expanded(key, value, is_array, resolution, PropertyValidationMode::Warn) == expanded(
            key,
            value,
            is_array,
            resolution,
            PropertyValidationMode::Silent,
        ),
{
}

/// Values to fall back on are refused under a shorthand whatever is done about
/// properties that are refused.
pub proof fn fallbacks_are_refused_in_every_mode(
    key: Seq<char>,
    value: Option<ScalarModel>,
    resolution: StyleResolution,
    mode: PropertyValidationMode,
    other: PropertyValidationMode,
)
    ensures
        expanded(key, value, true, resolution, mode) == expanded(
            key,
            value,
            true,
            resolution,
            other,
        ),
{
}

/// In the order of application a property keeps its value in the first declaration
/// that it stands for, and unsets all others.
pub proof fn only_the_first_keeps_the_value(
    key: Seq<char>,
    value: Option<ScalarModel>,
    is_array: bool,
    mode: PropertyValidationMode,
)
    requires
        expanded(key, value, is_array, StyleResolution::ApplicationOrder, mode) is Ok,
    ensures
        ({
            let pairs = expanded(
                key,
                value,
                is_array,
                StyleResolution::ApplicationOrder,
                mode,
            )->Ok_0;
            &&& pairs.len() > 0 ==> pairs[0].1 == value
            &&& forall|i: int| 0 < i < pairs.len() ==> (#[trigger] pairs[i]).1 is None
        }),
{
}

} // verus!
