//! Style values to the text of a declaration.

use crate::number::JsNumber;
use crate::shared::normalize_value::{normalize_value, normalized, result_text, CssValueError};
use crate::text::{
    chars_of, concat2, concat3, contains, has_part, has_prefix, is_listed, listed, starts_with,
    str_eq, trim_js, trimmed_js,
};
use vstd::prelude::*;

verus! {

/// The functions that make a value of `content` stand without quotes.
pub const CONTENT_FUNCTIONS: [&'static str; 7] = [
    "attr(",
    "counter(",
    "counters(",
    "url(",
    "linear-gradient(",
    "image-set(",
    "var(--",
];

/// The keywords that stand without quotes in `content`.
pub const CONTENT_KEYWORDS: [&'static str; 11] = [
    "normal",
    "none",
    "open-quote",
    "close-quote",
    "no-open-quote",
    "no-close-quote",
    "inherit",
    "initial",
    "revert",
    "revert-layer",
    "unset",
];

/// The properties whose numbers are milliseconds.
pub const TIME_PROPERTIES: [&'static str; 5] = [
    "animationDelay",
    "animationDuration",
    "transitionDelay",
    "transitionDuration",
    "voiceDuration",
];

/// The properties whose numbers have no unit.
pub const UNITLESS_PROPERTIES: [&'static str; 46] = [
    "WebkitLineClamp",
    "animationIterationCount",
    "aspectRatio",
    "borderImageOutset",
    "borderImageSlice",
    "borderImageWidth",
    "counterSet",
    "counterReset",
    "columnCount",
    "flex",
    "flexGrow",
    "flexShrink",
    "flexOrder",
    "gridRow",
    "gridRowStart",
    "gridRowEnd",
    "gridColumn",
    "gridColumnStart",
    "gridColumnEnd",
    "gridArea",
    "fontWeight",
    "hyphenateLimitChars",
    "lineClamp",
    "lineHeight",
    "maskBorderOutset",
    "maskBorderSlice",
    "maskBorderWidth",
    "opacity",
    "order",
    "orphans",
    "tabSize",
    "widows",
    "zIndex",
    "fillOpacity",
    "floodOpacity",
    "rotate",
    "scale",
    "shapeImageThreshold",
    "stopOpacity",
    "strokeDasharray",
    "strokeDashoffset",
    "strokeMiterlimit",
    "strokeOpacity",
    "strokeWidth",
    "mathDepth",
    "zoom",
];

/// Whether the values of a property are generated text.
pub open spec fn content_like(key: Seq<char>) -> bool {
    key == "content"@ || key == "hyphenateCharacter"@ || key == "hyphenate-character"@
}

/// Whether one of the content functions stands in the text.
pub open spec fn has_content_function(s: Seq<char>) -> bool {
    exists|i: int|
        0 <= i < CONTENT_FUNCTIONS@.len() && has_part(s, #[trigger] CONTENT_FUNCTIONS@[i]@)
}

/// How often a character stands among the first `k`.
pub open spec fn count_upto(s: Seq<char>, c: char, k: int) -> nat
    decreases k,
{
    if k <= 0 {
        0
    } else {
        count_upto(s, c, k - 1) + if s[k - 1] == c {
            1nat
        } else {
            0
        }
    }
}

/// Generated text as it stands in a declaration: functions, keywords and text with
/// two quotes stay, everything else is put in quotes.
pub open spec fn content_text(value: Seq<char>) -> Seq<char> {
    let val = trimmed_js(value);
    let quoted = count_upto(val, '"', val.len() as int) >= 2 || count_upto(
        val,
        '\'',
        val.len() as int,
    ) >= 2;
    if has_content_function(val) || listed(val, CONTENT_KEYWORDS@) || quoted {
        val
    } else {
        "\""@ + val + "\""@
    }
}

/// The text of a declaration for a text.
pub open spec fn transformed(key: Seq<char>, value: Seq<char>, rem: bool) -> Result<
    Seq<char>,
    CssValueError,
> {
    if content_like(key) {
        Ok(content_text(value))
    } else {
        normalized(value, key, rem)
    }
}

/// What stands behind a bare number.
pub open spec fn number_suffix(key: Seq<char>) -> Seq<char> {
    if listed(key, UNITLESS_PROPERTIES@) || has_prefix(key, "--"@) {
        ""@
    } else if listed(key, TIME_PROPERTIES@) {
        "ms"@
    } else {
        "px"@
    }
}

/// A number to four places behind the point.
pub open spec fn four_places(n: JsNumber) -> JsNumber {
    n.scaled_spec(10000).whole_spec().over_spec(10000)
}

/// The text of a declaration for a number.
pub open spec fn transformed_num(key: Seq<char>, n: JsNumber, rem: bool) -> Result<
    Seq<char>,
    CssValueError,
> {
    transformed(key, four_places(n).text_spec() + number_suffix(key), rem)
}

fn calls_content_function(s: &str) -> (r: bool)
    ensures
        r == has_content_function(s@),
{
    let table = CONTENT_FUNCTIONS;
    let mut i: usize = 0;
    while i < 7
        invariant
            i <= 7,
            table == CONTENT_FUNCTIONS,
            table@.len() == 7,
            forall|j: int| 0 <= j < i ==> !has_part(s@, #[trigger] CONTENT_FUNCTIONS@[j]@),
        decreases 7 - i,
    {
        if contains(s, table[i]) {
            assert(has_part(s@, CONTENT_FUNCTIONS@[i as int]@));
            return true;
        }
        i += 1;
    }
    false
}

fn two_of(s: &str, c: char) -> (r: bool)
    ensures
        r == (count_upto(s@, c, s@.len() as int) >= 2),
{
    let v = chars_of(s);
    let mut n: u8 = 0;
    let mut i: usize = 0;
    while i < v.len()
        invariant
            v@ == s@,
            i <= v@.len(),
            n <= 2,
            n < 2 ==> n == count_upto(s@, c, i as int),
            n == 2 ==> count_upto(s@, c, i as int) >= 2,
        decreases v@.len() - i,
    {
        if v[i] == c && n < 2 {
            n += 1;
        }
        i += 1;
    }
    n == 2
}

fn transform_content_like(value: &str) -> (r: String)
    ensures
        r@ == content_text(value@),
{
    let val = trim_js(value);
    if calls_content_function(val.as_str()) || is_listed(val.as_str(), &CONTENT_KEYWORDS) || two_of(
        val.as_str(),
        '"',
    ) || two_of(val.as_str(), '\'') {
        val
    } else {
        concat3("\"", val.as_str(), "\"")
    }
}

/// Gives the text of a declaration for a text.
pub fn transform_value_str(key: &str, value: &str, font_size_px_to_rem: bool) -> (r: Result<
    String,
    CssValueError,
>)
    ensures
        result_text(r) == transformed(key@, value@, font_size_px_to_rem),
{
    if str_eq(key, "content") || str_eq(key, "hyphenateCharacter") || str_eq(
        key,
        "hyphenate-character",
    ) {
        return Ok(transform_content_like(value));
    }
    normalize_value(value, key, font_size_px_to_rem)
}

/// Gives the text of a declaration for a number.
pub fn transform_value_num(key: &str, value: JsNumber, font_size_px_to_rem: bool) -> (r: Result<
    String,
    CssValueError,
>)
    ensures
        result_text(r) == transformed_num(key@, value, font_size_px_to_rem),
{
    let rounded = value.scaled(10000).whole().over(10000);
    let text = concat2(rounded.text().as_str(), get_number_suffix(key));
    transform_value_str(key, text.as_str(), font_size_px_to_rem)
}

/// Gives what stands behind a bare number.
pub fn get_number_suffix(key: &str) -> (r: &'static str)
    ensures
        r@ == number_suffix(key@),
{
    if is_listed(key, &UNITLESS_PROPERTIES) || starts_with(key, "--") {
        ""
    } else if is_listed(key, &TIME_PROPERTIES) {
        "ms"
    } else {
        "px"
    }
}

} // verus!
