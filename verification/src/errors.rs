//! Errors of the style calls: a code and a message.

use crate::text::{concat2, concat3, concat5, lookup, paired};
use vstd::prelude::*;

verus! {

#[derive(Debug, Clone, Copy, PartialEq, Eq, Structural)]
pub enum ErrorCode {
    ArrayInDefineVars,
    BannedShorthand,
    CyclicDefineVarsReference,
    DuplicateConditional,
    EmptyValue,
    IllegalNamespaceValue,
    IllegalPropArrayValue,
    IllegalPropValue,
    InvalidDefineVarsFunctionValue,
    InvalidDefineVarsValue,
    InvalidListStyle,
    InvalidMediaQuerySyntax,
    InvalidOptionValue,
    InvalidPseudoOrAtRule,
    InvalidWhenSelector,
    MissingDefaultValue,
    NestedKeySeparator,
    NonContiguousVars,
    NonObjectKeyframe,
    NonStaticValue,
    NonStyleObject,
    PositionTryInvalidProperty,
    ShorthandFallback,
    ThemeWithoutVarGroup,
    UnclosedFunction,
    UnclosedString,
    UnknownDefineVarsReference,
    UnknownOption,
    UnsupportedApi,
    UnsupportedOption,
    UpstreamTypeError,
    ViewTransitionClassInvalidProperty,
}

/// Why a style call was refused.
#[derive(Debug, PartialEq, Eq)]
pub struct StylexError {
    pub code: ErrorCode,
    pub message: String,
}

/// What an error says: its code and its message.
pub struct ErrorModel {
    pub code: ErrorCode,
    pub message: Seq<char>,
}

/// The shorthands that are refused where each property stands for itself, with
/// what is said of each.
pub const BANNED_SHORTHANDS: [(&'static str, &'static str); 18] = [
    ("all", "all is not supported"),
    ("animation", "animation is not supported"),
    (
        "background",
        "background is not supported. Use background-color, border-image etc. instead.",
    ),
    ("border", "border is not supported. Use border-width, border-style and border-color instead."),
    (
        "borderInline",
        "borderInline is not supported. Use borderInlineWidth, borderInlineStyle and borderInlineColor instead.",
    ),
    (
        "borderHorizontal",
        "borderInline is not supported. Use borderInlineWidth, borderInlineStyle and borderInlineColor instead.",
    ),
    (
        "borderBlock",
        "borderBlock is not supported. Use borderBlockWidth, borderBlockStyle and borderBlockColor instead.",
    ),
    (
        "borderVertical",
        "borderBlock is not supported. Use borderBlockWidth, borderBlockStyle and borderBlockColor instead.",
    ),
    (
        "borderTop",
        "borderTop is not supported. Use borderTopWidth, borderTopStyle and borderTopColor instead.",
    ),
    (
        "borderBlockStart",
        "borderTop is not supported. Use borderTopWidth, borderTopStyle and borderTopColor instead.",
    ),
    (
        "borderInlineEnd",
        "borderInlineEnd is not supported. Use borderInlineEndWidth, borderInlineEndStyle and borderInlineEndColor instead.",
    ),
    (
        "borderEnd",
        "borderInlineEnd is not supported. Use borderInlineEndWidth, borderInlineEndStyle and borderInlineEndColor instead.",
    ),
    (
        "borderRight",
        "`borderRight` is not supported. You could use `borderRightWidth`, `borderRightStyle` and `borderRightColor`, but it is preferable to use `borderInlineEndWidth`, `borderInlineEndStyle` and `borderInlineEndColor`.",
    ),
    (
        "borderBottom",
        "borderBottom is not supported. Use borderBottomWidth, borderBottomStyle and borderBottomColor instead.",
    ),
    (
        "borderBlockEnd",
        "borderBottom is not supported. Use borderBottomWidth, borderBottomStyle and borderBottomColor instead.",
    ),
    (
        "borderInlineStart",
        "borderInlineStart is not supported. Use borderInlineStartWidth, borderInlineStartStyle and borderInlineStartColor instead.",
    ),
    (
        "borderStart",
        "borderInlineStart is not supported. Use borderInlineStartWidth, borderInlineStartStyle and borderInlineStartColor instead.",
    ),
    (
        "borderLeft",
        "`borderLeft` is not supported. You could use `borderLeftWidth`, `borderLeftStyle` and `borderLeftColor`, but it is preferable to use `borderInlineStartWidth`, `borderInlineStartStyle` and `borderInlineStartColor`.",
    ),
];

/// What is said of a shorthand that is refused, if it is.
pub fn banned_shorthand_message(key: &str) -> (r: Option<&'static str>)
    ensures
        r is Some == paired(key@, BANNED_SHORTHANDS@) is Some,
        r is Some ==> r->0@ == paired(key@, BANNED_SHORTHANDS@)->0,
{
    lookup(key, &BANNED_SHORTHANDS)
}

/// The error with the given code and message.
pub open spec fn said(code: ErrorCode, message: Seq<char>) -> ErrorModel {
    ErrorModel { code, message }
}

/// The error for a condition inside itself.
pub open spec fn duplicate_conditional_model() -> ErrorModel {
    said(
        ErrorCode::DuplicateConditional,
        "The same pseudo selector or at-rule cannot be used more than once."@,
    )
}

/// The error for a namespace that is no object.
pub open spec fn illegal_namespace_model() -> ErrorModel {
    said(
        ErrorCode::IllegalNamespaceValue,
        "A StyleX namespace must be an object."@,
    )
}

/// The error for an array that holds more than strings and numbers.
pub open spec fn illegal_prop_array_model() -> ErrorModel {
    said(
        ErrorCode::IllegalPropArrayValue,
        "A style array value can only contain strings or numbers."@,
    )
}

/// The error for a value that no property takes.
pub open spec fn illegal_prop_model() -> ErrorModel {
    said(
        ErrorCode::IllegalPropValue,
        "A style value can only contain an array, string or number."@,
    )
}

/// The error for a key that is no condition.
pub open spec fn invalid_condition_model() -> ErrorModel {
    said(ErrorCode::InvalidPseudoOrAtRule, "Invalid pseudo or at-rule."@)
}

/// The error for a frame that is no object.
pub open spec fn non_object_keyframe_model() -> ErrorModel {
    said(
        ErrorCode::NonObjectKeyframe,
        "Every frame within a keyframes() call must be an object."@,
    )
}

/// The error for a `var()` that follows on another value.
pub open spec fn non_contiguous_vars_model() -> ErrorModel {
    said(
        ErrorCode::NonContiguousVars,
        "All variables passed to firstThatWorks() must be contiguous."@,
    )
}

/// The error for an array as the value of a variable.
pub open spec fn array_in_define_vars_model() -> ErrorModel {
    said(
        ErrorCode::ArrayInDefineVars,
        "Array is not supported in defineVars"@,
    )
}

/// The error for a function whose result is no value of a variable.
pub open spec fn define_vars_function_model() -> ErrorModel {
    said(
        ErrorCode::InvalidDefineVarsFunctionValue,
        "Function values in defineVars() must take no arguments and return a plain value."@,
    )
}

/// The error for what is no value of a variable.
pub open spec fn define_vars_value_model() -> ErrorModel {
    said(ErrorCode::InvalidDefineVarsValue, "Invalid value in defineVars"@)
}

/// The error for a property that no fallback position takes.
pub open spec fn position_try_property_model() -> ErrorModel {
    said(
        ErrorCode::PositionTryInvalidProperty,
        "Invalid property in `positionTry()` call. It may only contain, positionAnchor, positionArea, inset properties (top, left, insetInline etc.), margin properties, size properties (height, inlineSize, etc.), and self-alignment properties (alignSelf, justifySelf, placeSelf)"@,
    )
}

/// The error for a theme of what is no group of variables.
pub open spec fn theme_without_group_model() -> ErrorModel {
    said(
        ErrorCode::ThemeWithoutVarGroup,
        "Can only override variables theme created with defineVars()."@,
    )
}

/// The error for a property that no view transition takes.
pub open spec fn view_transition_property_model() -> ErrorModel {
    said(
        ErrorCode::ViewTransitionClassInvalidProperty,
        "Invalid property in `viewTransitionClass()` call. It may only contain group, imagePair, old, and new properties"@,
    )
}

/// The error for an argument that is no object.
pub open spec fn non_style_object_model(name: Seq<char>) -> ErrorModel {
    said(ErrorCode::NonStyleObject, name + "() can only accept an object."@)
}

/// The error for an argument that is not known at compile time.
pub open spec fn non_static_value_model(name: Seq<char>) -> ErrorModel {
    said(
        ErrorCode::NonStaticValue,
        "Only static values are allowed inside of a "@ + name + "() call."@,
    )
}

/// The error for an input on which a property would be read of nothing.
pub open spec fn type_crash_model(context: Seq<char>) -> ErrorModel {
    said(ErrorCode::UpstreamTypeError, "TypeError on "@ + context)
}

/// The error for a variable without a default value.
pub open spec fn missing_default_model(key: Option<Seq<char>>) -> ErrorModel {
    said(
        ErrorCode::MissingDefaultValue,
        match key {
            Some(k) => "Default value is not defined for "@ + k + " variable."@,
            None => "Default value is not defined for variable."@,
        },
    )
}

/// The error for a dot in a key of a nested configuration.
pub open spec fn nested_key_model(key: Seq<char>) -> ErrorModel {
    said(
        ErrorCode::NestedKeySeparator,
        "Key \""@ + key
            + "\" must not contain the \".\" character. Use nested objects instead of dots in key names. See: https://www.designtokens.org/tr/drafts/format/#character-restrictions"@,
    )
}

/// The error for an option that is not supported.
pub open spec fn unsupported_option_model(name: Seq<char>) -> ErrorModel {
    said(ErrorCode::UnsupportedOption, "Option "@ + name + " is not supported."@)
}

impl StylexError {
    /// What the error says.
    pub open spec fn model(self) -> ErrorModel {
        ErrorModel { code: self.code, message: self.message@ }
    }

    pub fn new(code: ErrorCode, message: &str) -> (r: StylexError)
        ensures
            r.model() == said(code, message@),
    {
        StylexError { code, message: message.to_owned() }
    }

    /// The message.
    pub fn to_text(&self) -> (r: String)
        ensures
            r@ == self.message@,
    {
        self.message.clone()
    }

    pub fn array_in_define_vars() -> (r: StylexError)
        ensures
            r.model() == array_in_define_vars_model(),
    {
        StylexError::new(ErrorCode::ArrayInDefineVars, "Array is not supported in defineVars")
    }

    /// The error for a shorthand that is refused, if it is.
    pub fn banned_shorthand(key: &str) -> (r: Option<StylexError>)
        ensures
            r is Some == paired(key@, BANNED_SHORTHANDS@) is Some,
            r is Some ==> r->0.model() == said(
                ErrorCode::BannedShorthand,
                paired(key@, BANNED_SHORTHANDS@)->0,
            ),
    {
        match banned_shorthand_message(key) {
            Some(m) => Some(StylexError::new(ErrorCode::BannedShorthand, m)),
            None => None,
        }
    }

    pub fn cyclic_define_vars_reference(path: &str) -> (r: StylexError)
        ensures
            r.model() == said(
                ErrorCode::CyclicDefineVarsReference,
                "Cyclic same-group references in defineVars() are not allowed: "@ + path@ + "."@,
            ),
    {
        let m = concat3(
            "Cyclic same-group references in defineVars() are not allowed: ",
            path,
            ".",
        );
        StylexError { code: ErrorCode::CyclicDefineVarsReference, message: m }
    }

    pub fn duplicate_conditional() -> (r: StylexError)
        ensures
            r.model() == duplicate_conditional_model(),
    {
        StylexError::new(
            ErrorCode::DuplicateConditional,
            "The same pseudo selector or at-rule cannot be used more than once.",
        )
    }

    pub fn empty_value() -> (r: StylexError)
        ensures
            r.model() == said(ErrorCode::EmptyValue, "Cannot normalize an empty value"@),
    {
        StylexError::new(ErrorCode::EmptyValue, "Cannot normalize an empty value")
    }

    pub fn illegal_namespace_value() -> (r: StylexError)
        ensures
            r.model() == illegal_namespace_model(),
    {
        StylexError::new(ErrorCode::IllegalNamespaceValue, "A StyleX namespace must be an object.")
    }

    pub fn illegal_prop_array_value() -> (r: StylexError)
        ensures
            r.model() == illegal_prop_array_model(),
    {
        StylexError::new(
            ErrorCode::IllegalPropArrayValue,
            "A style array value can only contain strings or numbers.",
        )
    }

    pub fn illegal_prop_value() -> (r: StylexError)
        ensures
            r.model() == illegal_prop_model(),
    {
        StylexError::new(
            ErrorCode::IllegalPropValue,
            "A style value can only contain an array, string or number.",
        )
    }

    pub fn invalid_define_vars_function_value() -> (r: StylexError)
        ensures
            r.model() == define_vars_function_model(),
    {
        StylexError::new(
            ErrorCode::InvalidDefineVarsFunctionValue,
            "Function values in defineVars() must take no arguments and return a plain value.",
        )
    }

    pub fn invalid_define_vars_value() -> (r: StylexError)
        ensures
            r.model() == define_vars_value_model(),
    {
        StylexError::new(ErrorCode::InvalidDefineVarsValue, "Invalid value in defineVars")
    }

    pub fn invalid_list_style(json: &str) -> (r: StylexError)
        ensures
            r.model() == said(
                ErrorCode::InvalidListStyle,
                "invalid \"listStyle\" value of "@ + json@,
            ),
    {
        let m = concat2("invalid \"listStyle\" value of ", json);
        StylexError { code: ErrorCode::InvalidListStyle, message: m }
    }

    pub fn invalid_media_query_syntax() -> (r: StylexError)
        ensures
            r.model() == said(
                ErrorCode::InvalidMediaQuerySyntax,
                "Invalid media query syntax."@,
            ),
    {
        StylexError::new(ErrorCode::InvalidMediaQuerySyntax, "Invalid media query syntax.")
    }

    pub fn invalid_pseudo_or_at_rule() -> (r: StylexError)
        ensures
            r.model() == invalid_condition_model(),
    {
        StylexError::new(ErrorCode::InvalidPseudoOrAtRule, "Invalid pseudo or at-rule.")
    }

    pub fn invalid_when_selector(message: &str) -> (r: StylexError)
        ensures
            r.model() == said(ErrorCode::InvalidWhenSelector, message@),
    {
        StylexError::new(ErrorCode::InvalidWhenSelector, message)
    }

    pub fn missing_default_value(key: Option<&str>) -> (r: StylexError)
        ensures
            r.model() == missing_default_model(
                match key {
                    Some(k) => Some(k@),
                    None => None,
                },
            ),
    {
        match key {
            Some(k) => {
                let m = concat3("Default value is not defined for ", k, " variable.");
                StylexError { code: ErrorCode::MissingDefaultValue, message: m }
            },
            None => StylexError::new(
                ErrorCode::MissingDefaultValue,
                "Default value is not defined for variable.",
            ),
        }
    }

    pub fn nested_key_contains_separator(key: &str) -> (r: StylexError)
        ensures
            r.model() == nested_key_model(key@),
    {
        let m = concat3(
            "Key \"",
            key,
            "\" must not contain the \".\" character. Use nested objects instead of dots in key names. See: https://www.designtokens.org/tr/drafts/format/#character-restrictions",
        );
        StylexError { code: ErrorCode::NestedKeySeparator, message: m }
    }

    pub fn non_contiguous_vars() -> (r: StylexError)
        ensures
            r.model() == non_contiguous_vars_model(),
    {
        StylexError::new(
            ErrorCode::NonContiguousVars,
            "All variables passed to firstThatWorks() must be contiguous.",
        )
    }

    pub fn non_object_keyframe() -> (r: StylexError)
        ensures
            r.model() == non_object_keyframe_model(),
    {
        StylexError::new(
            ErrorCode::NonObjectKeyframe,
            "Every frame within a keyframes() call must be an object.",
        )
    }

    pub fn non_static_value(name: &str) -> (r: StylexError)
        ensures
            r.model() == non_static_value_model(name@),
    {
        let m = concat3("Only static values are allowed inside of a ", name, "() call.");
        StylexError { code: ErrorCode::NonStaticValue, message: m }
    }

    pub fn non_style_object(name: &str) -> (r: StylexError)
        ensures
            r.model() == non_style_object_model(name@),
    {
        let m = concat2(name, "() can only accept an object.");
        StylexError { code: ErrorCode::NonStyleObject, message: m }
    }

    pub fn position_try_invalid_property() -> (r: StylexError)
        ensures
            r.model() == position_try_property_model(),
    {
        StylexError::new(
            ErrorCode::PositionTryInvalidProperty,
            "Invalid property in `positionTry()` call. It may only contain, positionAnchor, positionArea, inset properties (top, left, insetInline etc.), margin properties, size properties (height, inlineSize, etc.), and self-alignment properties (alignSelf, justifySelf, placeSelf)",
        )
    }

    pub fn shorthand_fallback() -> (r: StylexError)
        ensures
            r.model() == said(
                ErrorCode::ShorthandFallback,
                "Cannot use fallbacks for shorthands. Use the expansion instead."@,
            ),
    {
        StylexError::new(
            ErrorCode::ShorthandFallback,
            "Cannot use fallbacks for shorthands. Use the expansion instead.",
        )
    }

    pub fn theme_without_var_group() -> (r: StylexError)
        ensures
            r.model() == theme_without_group_model(),
    {
        StylexError::new(
            ErrorCode::ThemeWithoutVarGroup,
            "Can only override variables theme created with defineVars().",
        )
    }

    pub fn unclosed_function() -> (r: StylexError)
        ensures
            r.model() == said(
                ErrorCode::UnclosedFunction,
                "Rule contains an unclosed function"@,
            ),
    {
        StylexError::new(ErrorCode::UnclosedFunction, "Rule contains an unclosed function")
    }

    pub fn unclosed_string() -> (r: StylexError)
        ensures
            r.model() == said(ErrorCode::UnclosedString, "Rule contains an unclosed string"@),
    {
        StylexError::new(ErrorCode::UnclosedString, "Rule contains an unclosed string")
    }

    pub fn unknown_define_vars_reference(key: &str, dep: &str) -> (r: StylexError)
        ensures
            r.model() == said(
                ErrorCode::UnknownDefineVarsReference,
                "Variable \""@ + key@ + "\" refers to the unknown variable \""@ + dep@
                    + "\" of its group."@,
            ),
    {
        let m = concat5(
            "Variable \"",
            key,
            "\" refers to the unknown variable \"",
            dep,
            "\" of its group.",
        );
        StylexError { code: ErrorCode::UnknownDefineVarsReference, message: m }
    }

    pub fn unknown_option(key: &str) -> (r: StylexError)
        ensures
            r.model() == said(ErrorCode::UnknownOption, "Unknown option \""@ + key@ + "\"."@),
    {
        let m = concat3("Unknown option \"", key, "\".");
        StylexError { code: ErrorCode::UnknownOption, message: m }
    }

    pub fn unsupported_api(name: &str) -> (r: StylexError)
        ensures
            r.model() == said(ErrorCode::UnsupportedApi, name@ + " is not supported."@),
    {
        let m = concat2(name, " is not supported.");
        StylexError { code: ErrorCode::UnsupportedApi, message: m }
    }

    pub fn unsupported_option(name: &str) -> (r: StylexError)
        ensures
            r.model() == unsupported_option_model(name@),
    {
        let m = concat3("Option ", name, " is not supported.");
        StylexError { code: ErrorCode::UnsupportedOption, message: m }
    }

    pub fn upstream_type_crash(context: &str) -> (r: StylexError)
        ensures
            r.model() == type_crash_model(context@),
    {
        let m = concat2("TypeError on ", context);
        StylexError { code: ErrorCode::UpstreamTypeError, message: m }
    }

    pub fn view_transition_class_invalid_property() -> (r: StylexError)
        ensures
            r.model() == view_transition_property_model(),
    {
        StylexError::new(
            ErrorCode::ViewTransitionClassInvalidProperty,
            "Invalid property in `viewTransitionClass()` call. It may only contain group, imagePair, old, and new properties",
        )
    }
}

} // verus!
