//! Namespaces that are functions: rules over variables that each call sets.

use crate::hash::{hash, hash_text};
use crate::number::{decimal, decimal_text, JsNumber};
use crate::options::{ResolvedOptions, StyleResolution};
use crate::rules::{plain_rule, rule_models, RuleModel, StylexRule};
use crate::shared::define_vars::values_of;
use crate::shared::flatten::{copy_texts, opt_scalar, ScalarModel, StyleScalar};
use crate::shared::resolution::{
    expanded, flat_map_expanded_shorthands, pair_models, PairModel,
};
use crate::shared::transform_value::{get_number_suffix, number_suffix};
use crate::text::{
    at_pos, char_count, chars_of, concat2, concat3, concat4, concat5, find_char, find_part,
    first_place, has_prefix, is_listed, join, join_texts, listed, next_char, piece, split,
    split_at_char, stands_at, starts_with, str_eq, texts,
};
use crate::value::{
    append_put, find_key, item_keys, keys_of, lemma_find_key, position_of, value_of, EvalValue,
    JsObjectMap, Val,
};
use vstd::prelude::*;

verus! {

/// A place in the source.
#[derive(Debug, Clone, Copy, PartialEq, Eq)]
pub struct Span {
    pub start: u32,
    pub end: u32,
}

/// What counts of an expression of the source.
#[derive(Debug, PartialEq)]
pub enum Expr {
    Template,
    StringLiteral,
    NumberLiteral,
    BoolLiteral,
    NullLiteral,
    Identifier(String),
    /// An operation with two operands, by its operator.
    Binary(String),
    /// An operation with one operand, by its operator.
    Unary(String),
    Conditional(Box<Expr>, Box<Expr>),
    Logical(String, Box<Expr>, Box<Expr>),
    Paren(Box<Expr>),
    Other,
}

/// What counts of an expression, mathematically.
#[verifier::ext_equal]
pub enum ExprModel {
    Template,
    StringLiteral,
    NumberLiteral,
    BoolLiteral,
    NullLiteral,
    Identifier(Seq<char>),
    Binary(Seq<char>),
    Unary(Seq<char>),
    Conditional(Box<ExprModel>, Box<ExprModel>),
    Logical(Seq<char>, Box<ExprModel>, Box<ExprModel>),
    Paren(Box<ExprModel>),
    Other,
}

impl Expr {
    /// What the expression is, mathematically.
    pub open spec fn model(self) -> ExprModel
        decreases self,
    {
        match self {
            Expr::Template => ExprModel::Template,
            Expr::StringLiteral => ExprModel::StringLiteral,
            Expr::NumberLiteral => ExprModel::NumberLiteral,
            Expr::BoolLiteral => ExprModel::BoolLiteral,
            Expr::NullLiteral => ExprModel::NullLiteral,
            Expr::Identifier(s) => ExprModel::Identifier(s@),
            Expr::Binary(s) => ExprModel::Binary(s@),
            Expr::Unary(s) => ExprModel::Unary(s@),
            Expr::Conditional(a, b) => ExprModel::Conditional(
                Box::new(a.model()),
                Box::new(b.model()),
            ),
            Expr::Logical(s, a, b) => ExprModel::Logical(
                s@,
                Box::new(a.model()),
                Box::new(b.model()),
            ),
            Expr::Paren(a) => ExprModel::Paren(Box::new(a.model())),
            Expr::Other => ExprModel::Other,
        }
    }
}

/// Whether an expression is certainly neither `null` nor undefined.
pub open spec fn never_nullish(e: ExprModel) -> bool
    decreases e,
{
    match e {
        ExprModel::Template
        | ExprModel::StringLiteral
        | ExprModel::NumberLiteral
        | ExprModel::BoolLiteral => true,
        ExprModel::Binary(op) => op == "+"@ || op == "-"@ || op == "*"@ || op == "/"@ || op == "%"@
            || op == "**"@,
        ExprModel::Unary(op) => op == "-"@ || op == "+"@,
        ExprModel::Conditional(a, b) => never_nullish(*a) && never_nullish(*b),
        ExprModel::Logical(op, a, b) => if op == "??"@ || op == "||"@ {
            never_nullish(*a) || never_nullish(*b)
        } else if op == "&&"@ {
            never_nullish(*a) && never_nullish(*b)
        } else {
            false
        },
        ExprModel::Paren(a) => never_nullish(*a),
        _ => false,
    }
}

/// Whether an expression spells out `null` or undefined as a possible result.
pub open spec fn names_nullish(e: ExprModel) -> bool
    decreases e,
{
    match e {
        ExprModel::NullLiteral => true,
        ExprModel::Identifier(name) => name == "undefined"@,
        ExprModel::Unary(op) => op == "void"@,
        ExprModel::Conditional(a, b) => names_nullish(*a) || names_nullish(*b),
        ExprModel::Logical(_, a, b) => names_nullish(*a) || names_nullish(*b),
        ExprModel::Paren(a) => names_nullish(*a),
        _ => false,
    }
}

/// Whether an expression is certainly neither `null` nor undefined.
pub fn is_safe_to_skip_null_check(expr: &Expr) -> (r: bool)
    ensures
        r == never_nullish(expr.model()),
    decreases expr,
{
    match expr {
        Expr::Template => true,
        Expr::StringLiteral => true,
        Expr::NumberLiteral => true,
        Expr::BoolLiteral => true,
        Expr::Binary(op) => str_eq(op.as_str(), "+") || str_eq(op.as_str(), "-") || str_eq(
            op.as_str(),
            "*",
        ) || str_eq(op.as_str(), "/") || str_eq(op.as_str(), "%") || str_eq(op.as_str(), "**"),
        Expr::Unary(op) => str_eq(op.as_str(), "-") || str_eq(op.as_str(), "+"),
        Expr::Conditional(a, b) => is_safe_to_skip_null_check(a) && is_safe_to_skip_null_check(b),
        Expr::Logical(op, a, b) => {
            if str_eq(op.as_str(), "??") || str_eq(op.as_str(), "||") {
                is_safe_to_skip_null_check(a) || is_safe_to_skip_null_check(b)
            } else if str_eq(op.as_str(), "&&") {
                is_safe_to_skip_null_check(a) && is_safe_to_skip_null_check(b)
            } else {
                false
            }
        },
        Expr::Paren(a) => is_safe_to_skip_null_check(a),
        _ => false,
    }
}

/// Whether an expression spells out `null` or undefined as a possible result.
pub fn has_explicit_nullish_fallback(expr: &Expr) -> (r: bool)
    ensures
        r == names_nullish(expr.model()),
    decreases expr,
{
    match expr {
        Expr::NullLiteral => true,
        Expr::Identifier(name) => str_eq(name.as_str(), "undefined"),
        Expr::Unary(op) => str_eq(op.as_str(), "void"),
        Expr::Conditional(a, b) => has_explicit_nullish_fallback(a)
            || has_explicit_nullish_fallback(b),
        Expr::Logical(_, a, b) => has_explicit_nullish_fallback(a)
            || has_explicit_nullish_fallback(b),
        Expr::Paren(a) => has_explicit_nullish_fallback(a),
        _ => false,
    }
}

/// A value that each call sets through a variable.
#[derive(Debug, PartialEq)]
pub struct InlineStyle {
    pub key_path: Vec<String>,
    /// The place of the expression without its brackets.
    pub span: Span,
    /// What stands behind a bare number.
    pub unit: String,
    pub has_nullish_fallback: bool,
    pub safe_to_skip_null_check: bool,
}

/// A value that each call sets through a variable, mathematically.
#[verifier::ext_equal]
pub struct InlineModel {
    pub key_path: Seq<Seq<char>>,
    pub span: Span,
    pub unit: Seq<char>,
    pub nullish: bool,
    pub safe: bool,
}

impl InlineStyle {
    /// What the value is, mathematically.
    pub open spec fn model(self) -> InlineModel {
        InlineModel {
            key_path: texts(self.key_path@),
            span: self.span,
            unit: self.unit@,
            nullish: self.has_nullish_fallback,
            safe: self.safe_to_skip_null_check,
        }
    }
}

impl Clone for InlineStyle {
    fn clone(&self) -> (r: Self)
        ensures
            r.model() == self.model(),
    {
        InlineStyle {
            key_path: copy_texts(&self.key_path),
            span: self.span,
            unit: self.unit.clone(),
            has_nullish_fallback: self.has_nullish_fallback,
            safe_to_skip_null_check: self.safe_to_skip_null_check,
        }
    }
}

/// A namespace that is a function.
#[derive(Debug, PartialEq)]
pub struct DynamicFn {
    pub params: Vec<String>,
    /// The values that each call sets, under the names of their variables.
    pub inline_styles: Vec<(String, InlineStyle)>,
}

/// What values under the names of their variables are, mathematically.
pub open spec fn inline_models(v: Seq<(String, InlineStyle)>) -> Seq<(Seq<char>, InlineModel)> {
    Seq::new(v.len(), |i: int| (v[i].0@, v[i].1.model()))
}

impl Default for DynamicFn {
    fn default() -> (r: Self)
        ensures
            r.params@.len() == 0,
            r.inline_styles@.len() == 0,
    {
        DynamicFn { params: Vec::new(), inline_styles: Vec::new() }
    }
}

impl DynamicFn {
    /// Sets the value of a variable; one that is there keeps its place.
    pub fn insert_inline(&mut self, var_name: String, style: InlineStyle)
        ensures
            inline_models(final(self).inline_styles@) == append_put(
                inline_models(old(self).inline_styles@),
                var_name@,
                style.model(),
            ),
            final(self).params == old(self).params,
    {
        let ghost before = inline_models(self.inline_styles@);
        let ghost m = style.model();
        let at: usize = position_of(&self.inline_styles, var_name.as_str());
        proof {
            assert(keys_of(before) =~= item_keys(self.inline_styles@));
            lemma_find_key(keys_of(before), var_name@, 0);
        }
        if at < self.inline_styles.len() {
            let gone = self.inline_styles.remove(at);
            self.inline_styles.insert(at, (gone.0, style));
            proof {
                assert(inline_models(self.inline_styles@) =~= before.update(
                    at as int,
                    (before[at as int].0, m),
                ));
            }
        } else {
            self.inline_styles.push((var_name, style));
            proof {
                assert(inline_models(self.inline_styles@) =~= before.push((var_name@, m)));
            }
        }
    }
}

/// Whether a key is a pseudo or an at-rule.
pub open spec fn conditional(key: Seq<char>) -> bool {
    has_prefix(key, ":"@) || has_prefix(key, "@"@)
}

/// The first key, from `i` on, that names a property.
pub open spec fn property_in(path: Seq<Seq<char>>, i: int, otherwise: Seq<char>) -> Seq<char>
    decreases path.len() - i,
{
    if i < 0 || i >= path.len() {
        otherwise
    } else if !conditional(path[i]) && path[i] != "default"@ {
        path[i]
    } else {
        property_in(path, i + 1, otherwise)
    }
}

/// The properties whose bare numbers are times.
pub const TIME_PROPERTIES: [&'static str; 5] = [
    "animationDelay",
    "animationDuration",
    "transitionDelay",
    "transitionDuration",
    "voiceDuration",
];

/// The properties whose bare numbers are lengths.
pub const LENGTH_PROPERTIES: [&'static str; 146] = [
    "backgroundPositionX",
    "backgroundPositionY",
    "blockSize",
    "borderBlockEndWidth",
    "borderBlockStartWidth",
    "borderBlockWidth",
    "borderVerticalWidth",
    "borderBottomLeftRadius",
    "borderBottomRightRadius",
    "borderBottomWidth",
    "borderEndEndRadius",
    "borderEndStartRadius",
    "borderInlineEndWidth",
    "borderEndWidth",
    "borderInlineStartWidth",
    "borderStartWidth",
    "borderInlineWidth",
    "borderHorizontalWidth",
    "borderLeftWidth",
    "borderRightWidth",
    "borderSpacing",
    "borderStartEndRadius",
    "borderStartStartRadius",
    "borderTopLeftRadius",
    "borderTopRightRadius",
    "borderTopWidth",
    "bottom",
    "columnGap",
    "columnRuleWidth",
    "columnWidth",
    "containIntrinsicBlockSize",
    "containIntrinsicHeight",
    "containIntrinsicInlineSize",
    "containIntrinsicWidth",
    "flexBasis",
    "fontSize",
    "fontSmooth",
    "height",
    "inlineSize",
    "insetBlockEnd",
    "insetBlockStart",
    "insetInlineEnd",
    "insetInlineStart",
    "left",
    "letterSpacing",
    "marginBlockEnd",
    "marginBlockStart",
    "marginBottom",
    "marginInlineEnd",
    "marginEnd",
    "marginInlineStart",
    "marginStart",
    "marginLeft",
    "marginRight",
    "marginTop",
    "maxBlockSize",
    "maxHeight",
    "maxInlineSize",
    "maxWidth",
    "minBlockSize",
    "minHeight",
    "minInlineSize",
    "minWidth",
    "offsetDistance",
    "outlineOffset",
    "outlineWidth",
    "overflowClipMargin",
    "paddingBlockEnd",
    "paddingBlockStart",
    "paddingBottom",
    "paddingInlineEnd",
    "paddingEnd",
    "paddingInlineStart",
    "paddingStart",
    "paddingLeft",
    "paddingRight",
    "paddingTop",
    "perspective",
    "right",
    "rowGap",
    "scrollMarginBlockEnd",
    "scrollMarginBlockStart",
    "scrollMarginBottom",
    "scrollMarginInlineEnd",
    "scrollMarginInlineStart",
    "scrollMarginLeft",
    "scrollMarginRight",
    "scrollMarginTop",
    "scrollPaddingBlockEnd",
    "scrollPaddingBlockStart",
    "scrollPaddingBottom",
    "scrollPaddingInlineEnd",
    "scrollPaddingInlineStart",
    "scrollPaddingLeft",
    "scrollPaddingRight",
    "scrollPaddingTop",
    "scrollSnapMarginBottom",
    "scrollSnapMarginLeft",
    "scrollSnapMarginRight",
    "scrollSnapMarginTop",
    "shapeMargin",
    "tabSize",
    "textDecorationThickness",
    "textIndent",
    "textUnderlineOffset",
    "top",
    "transformOrigin",
    "translate",
    "verticalAlign",
    "width",
    "wordSpacing",
    "border",
    "borderBlock",
    "borderBlockEnd",
    "borderBlockStart",
    "borderBottom",
    "borderLeft",
    "borderRadius",
    "borderRight",
    "borderTop",
    "borderWidth",
    "columnRule",
    "containIntrinsicSize",
    "gap",
    "inset",
    "insetBlock",
    "insetInline",
    "margin",
    "marginBlock",
    "marginVertical",
    "marginInline",
    "marginHorizontal",
    "offset",
    "outline",
    "padding",
    "paddingBlock",
    "paddingVertical",
    "paddingInline",
    "paddingHorizontal",
    "scrollMargin",
    "scrollMarginBlock",
    "scrollMarginInline",
    "scrollPadding",
    "scrollPaddingBlock",
    "scrollPaddingInline",
    "scrollSnapMargin",
];

/// Whether bare numbers of a property are times.
pub fn is_time_unit_prop(key: &str) -> (r: bool)
    ensures
        r == listed(key@, TIME_PROPERTIES@),
{
    is_listed(key, &TIME_PROPERTIES)
}

/// Whether bare numbers of a property are lengths.
pub fn is_length_unit_prop(key: &str) -> (r: bool)
    ensures
        r == listed(key@, LENGTH_PROPERTIES@),
{
    is_listed(key, &LENGTH_PROPERTIES)
}

/// What stands behind a bare number that a call gives to a property.
pub open spec fn inline_unit(property: Seq<char>) -> Seq<char> {
    if listed(property, TIME_PROPERTIES@) || listed(property, LENGTH_PROPERTIES@) {
        number_suffix(property)
    } else {
        Seq::empty()
    }
}

/// The name of the variable of a value.
pub open spec fn inline_var(path: Seq<Seq<char>>, key: Seq<char>) -> Seq<char> {
    if path.len() == 0 {
        "--x-"@ + key
    } else {
        "--x-"@ + hash_text(join_texts(path.push(key), "_"@))
    }
}

/// Gives the variable of a value that each call sets, and what counts of the value.
/// `span` is the place of the expression without its brackets.
pub fn inline_style_for_leaf(expr: &Expr, span: Span, key_path: &Vec<String>, key: &str) -> (r: (
    String,
    InlineStyle,
))
    ensures
        r.0@ == inline_var(texts(key_path@), key@),
        r.1.model() == (InlineModel {
            key_path: texts(key_path@).push(key@),
            span,
            unit: inline_unit(property_in(texts(key_path@).push(key@), 0, key@)),
            nullish: names_nullish(expr.model()),
            safe: never_nullish(expr.model()),
        }),
{
    let mut full = copy_texts(key_path);
    full.push(key.to_owned());
    let ghost path = texts(full@);
    proof {
        assert(path =~= texts(key_path@).push(key@));
    }
    let var_name = if key_path.len() == 0 {
        concat2("--x-", key)
    } else {
        concat2("--x-", hash(join(&full, "_").as_str()).as_str())
    };
    let unit = unit_of(&full, key);
    let style = InlineStyle {
        key_path: full,
        span,
        unit,
        has_nullish_fallback: has_explicit_nullish_fallback(expr),
        safe_to_skip_null_check: is_safe_to_skip_null_check(expr),
    };
    (var_name, style)
}

fn unit_of(full: &Vec<String>, key: &str) -> (r: String)
    ensures
        r@ == inline_unit(property_in(texts(full@), 0, key@)),
{
    let ghost path = texts(full@);
    let mut i: usize = 0;
    while i < full.len() && (starts_with(full[i].as_str(), ":") || starts_with(
        full[i].as_str(),
        "@",
    ) || str_eq(full[i].as_str(), "default"))
        invariant
            path == texts(full@),
            i <= full@.len(),
            property_in(path, 0, key@) == property_in(path, i as int, key@),
        decreases full@.len() - i,
    {
        assert(path[i as int] == full@[i as int]@);
        i += 1;
    }
    let property = if i < full.len() {
        assert(path[i as int] == full@[i as int]@);
        full[i].as_str()
    } else {
        key
    };
    if is_time_unit_prop(property) || is_length_unit_prop(property) {
        get_number_suffix(property).to_owned()
    } else {
        String::new()
    }
}

/// A part of the class names of a key.
#[derive(Debug, PartialEq)]
pub enum ClassPart {
    /// Class names as they are.
    Lit(String),
    /// Class names that count only where an expression is neither `null` nor
    /// undefined.
    Guarded { lit: String, expr: Span },
}

/// A part of the class names of a key, mathematically.
#[verifier::ext_equal]
pub enum PartModel {
    Lit(Seq<char>),
    Guarded(Seq<char>, Span),
}

impl ClassPart {
    /// What the part is, mathematically.
    pub open spec fn model(self) -> PartModel {
        match self {
            ClassPart::Lit(s) => PartModel::Lit(s@),
            ClassPart::Guarded { lit, expr } => PartModel::Guarded(lit@, expr),
        }
    }
}

/// A variable that each call sets.
#[derive(Debug, PartialEq)]
pub struct InlineVar {
    pub var_name: String,
    /// What stands behind a bare number.
    pub unit: String,
    pub expr: Span,
}

/// What a function compiles to.
#[derive(Debug, PartialEq)]
pub struct DynamicCompiled {
    pub params: Vec<String>,
    /// The keys whose class names are always the same.
    pub static_props: Vec<(String, Vec<String>)>,
    /// The keys whose class names depend on the call.
    pub conditional_props: Vec<(String, Vec<ClassPart>)>,
    pub css_tag: EvalValue,
    pub inline_vars: Vec<InlineVar>,
}

/// What a function compiles to, mathematically.
#[verifier::ext_equal]
pub struct DynamicModel {
    pub params: Seq<Seq<char>>,
    pub static_props: Seq<(Seq<char>, Seq<Seq<char>>)>,
    pub conditional_props: Seq<(Seq<char>, Seq<PartModel>)>,
    pub css_tag: Val,
    pub inline_vars: Seq<(Seq<char>, Seq<char>, Span)>,
}

/// What parts are, mathematically.
pub open spec fn part_models(v: Seq<ClassPart>) -> Seq<PartModel> {
    Seq::new(v.len(), |i: int| v[i].model())
}

/// What keys with texts are, mathematically.
pub open spec fn static_models(v: Seq<(String, Vec<String>)>) -> Seq<(Seq<char>, Seq<Seq<char>>)> {
    Seq::new(v.len(), |i: int| (v[i].0@, texts(v[i].1@)))
}

/// What keys with parts are, mathematically.
pub open spec fn conditional_models(v: Seq<(String, Vec<ClassPart>)>) -> Seq<
    (Seq<char>, Seq<PartModel>),
> {
    Seq::new(v.len(), |i: int| (v[i].0@, part_models(v[i].1@)))
}

/// What variables are, mathematically.
pub open spec fn inline_var_models(v: Seq<InlineVar>) -> Seq<(Seq<char>, Seq<char>, Span)> {
    Seq::new(v.len(), |i: int| (v[i].var_name@, v[i].unit@, v[i].expr))
}

impl DynamicCompiled {
    /// What the compiled function is, mathematically.
    pub open spec fn model(self) -> DynamicModel {
        DynamicModel {
            params: texts(self.params@),
            static_props: static_models(self.static_props@),
            conditional_props: conditional_models(self.conditional_props@),
            css_tag: self.css_tag.model(),
            inline_vars: inline_var_models(self.inline_vars@),
        }
    }

    /// Whether there are class names at all.
    pub fn has_container(&self) -> (r: bool)
        ensures
            r == (self.model().static_props.len() > 0 || self.model().conditional_props.len() > 0),
    {
        self.static_props.len() > 0 || self.conditional_props.len() > 0
    }
}

/// Where the variable names in a rule that start at or after `from` are, and what
/// they are.
pub open spec fn placeholders(s: Seq<char>, from: int) -> Seq<Seq<char>>
    decreases
            if from < s.len() {
                s.len() - from
            } else {
                0
            },
{
    let at = first_place(s, "var("@, from);
    let after = at + 4;
    if from < 0 || at < from || at >= s.len() {
        Seq::empty()
    } else {
        let comma = next_char(s, ',', after);
        let close = next_char(s, ')', after);
        let end = if comma < close {
            comma
        } else {
            close
        };
        if at_pos(s, "--x-"@, after) && end > after + 4 && after < close < s.len() {
            seq![s.subrange(after, end)] + placeholders(s, close + 1)
        } else {
            placeholders(s, after)
        }
    }
}

/// Gives the names of the variables in a rule that calls set.
pub fn placeholder_var_names(rule: &str) -> (r: Vec<String>)
    ensures
        texts(r@) == placeholders(rule@, 0),
{
    let s = chars_of(rule);
    let n: usize = char_count(&s);
    let open = chars_of("var(");
    let mark = chars_of("--x-");
    proof {
        reveal_strlit("var(");
        reveal_strlit("--x-");
    }
    let mut out: Vec<String> = Vec::new();
    let mut from: usize = 0;
    let mut at: usize = find_part(&s, &open, 0);
    proof {
        assert(texts(out@) + placeholders(s@, 0) =~= placeholders(s@, 0));
    }
    while at < n
        invariant
            s@ == rule@,
            open@ == "var("@,
            open@.len() == 4,
            mark@ == "--x-"@,
            mark@.len() == 4,
            n == s@.len(),
            4 * n <= isize::MAX,
            from <= at <= n,
            at == first_place(s@, open@, from as int),
            at < n ==> at_pos(s@, open@, at as int),
            texts(out@) + placeholders(s@, from as int) == placeholders(s@, 0),
        decreases n - at,
    {
        let after: usize = at + 4;
        let comma: usize = find_char(&s, ',', after);
        let close: usize = find_char(&s, ')', after);
        let end: usize = if comma < close {
            comma
        } else {
            close
        };
        if after < n && stands_at(&s, &mark, after) && end > after + 4 && after < close && close
            < n {
            let ghost before = texts(out@);
            let ghost rest = placeholders(s@, close + 1);
            out.push(piece(&s, after, end));
            proof {
                assert(placeholders(s@, from as int) == seq![
                    s@.subrange(after as int, end as int),
                ] + rest);
                assert(texts(out@) + rest =~= before + placeholders(s@, from as int));
            }
            from = close + 1;
        } else {
            from = after;
        }
        at = find_part(&s, &open, from);
    }
    proof {
        assert(placeholders(s@, from as int) =~= Seq::<Seq<char>>::empty());
        assert(texts(out@) =~= placeholders(s@, 0));
    }
    out
}

/// How many leading keys of a path lead to the property.
pub open spec fn leading(path: Seq<Seq<char>>, i: int) -> int
    decreases path.len() - i,
{
    if i < 0 || i >= path.len() {
        path.len() as int
    } else if !conditional(path[i]) {
        i + 1
    } else {
        leading(path, i + 1)
    }
}

/// The key that a value is looked up by: its path up to the property.
pub open spec fn lookup_key(path: Seq<Seq<char>>) -> Seq<char> {
    join_texts(path.take(leading(path, 0)), "_"@)
}

fn truncated_key(key_path: &Vec<String>) -> (r: String)
    ensures
        r@ == lookup_key(texts(key_path@)),
{
    let ghost path = texts(key_path@);
    let mut end: usize = 0;
    while end < key_path.len() && (starts_with(key_path[end].as_str(), ":") || starts_with(
        key_path[end].as_str(),
        "@",
    ))
        invariant
            path == texts(key_path@),
            end <= key_path@.len(),
            leading(path, 0) == leading(path, end as int),
        decreases key_path@.len() - end,
    {
        assert(path[end as int] == key_path@[end as int]@);
        end += 1;
    }
    if end < key_path.len() {
        assert(path[end as int] == key_path@[end as int]@);
        end += 1;
    }
    let mut out: Vec<String> = Vec::new();
    let mut i: usize = 0;
    while i < end
        invariant
            i <= end <= key_path@.len(),
            out@.len() == i,
            forall|j: int| 0 <= j < i ==> (#[trigger] out@[j])@ == key_path@[j]@,
        decreases end - i,
    {
        out.push(key_path[i].clone());
        i += 1;
    }
    proof {
        assert(texts(out@) =~= path.take(end as int));
    }
    join(&out, "_")
}

/// The path of a value after its property was expanded to another key.
pub open spec fn moved_path(path: Seq<char>, key: Seq<char>, new_key: Seq<char>) -> Seq<char> {
    if path == key {
        new_key
    } else if has_prefix(path, key + "_"@) {
        new_key + "_"@ + path.skip((key + "_"@).len() as int)
    } else {
        let at = first_place(path, "_"@ + key, 0);
        if at < path.len() {
            path.take(at) + ("_"@ + new_key) + path.skip(at + ("_"@ + key).len())
        } else {
            path
        }
    }
}

fn move_path(path: &str, key: &str, new_key: &str) -> (r: String)
    ensures
        r@ == moved_path(path@, key@, new_key@),
{
    if str_eq(path, key) {
        return new_key.to_owned();
    }
    let s = chars_of(path);
    let n: usize = char_count(&s);
    let lead = concat2(key, "_");
    if starts_with(path, lead.as_str()) {
        let skip: usize = char_count(&chars_of(lead.as_str()));
        let rest = piece(&s, skip, n);
        proof {
            assert(rest@ =~= path@.skip((key@ + "_"@).len() as int));
        }
        return concat3(new_key, "_", rest.as_str());
    }
    let inner = chars_of(concat2("_", key).as_str());
    let m: usize = char_count(&inner);
    let at: usize = find_part(&s, &inner, 0);
    if at < n {
        let before = piece(&s, 0, at);
        let after = piece(&s, at + m, n);
        proof {
            assert(before@ =~= path@.take(at as int));
            assert(after@ =~= path@.skip(at + ("_"@ + key@).len()));
        }
        let out = concat4(before.as_str(), "_", new_key, after.as_str());
        proof {
            assert(out@ =~= moved_path(path@, key@, new_key@));
        }
        out
    } else {
        path.to_owned()
    }
}

/// The paths that the value at `index` is found under, from the first `k` of the
/// declarations that its property stands for.
pub open spec fn moved_upto(
    path: Seq<char>,
    key: Seq<char>,
    pairs: Seq<PairModel>,
    index: int,
    k: int,
) -> Seq<(Seq<char>, int)>
    decreases k,
{
    if k <= 0 {
        Seq::empty()
    } else {
        let done = moved_upto(path, key, pairs, index, k - 1);
        match pairs[k - 1].1 {
            Some(ScalarModel::Str(_)) => done.push((moved_path(path, key, pairs[k - 1].0), index)),
            _ => done,
        }
    }
}

/// The declarations that the property of the value at `index` stands for.
#[verifier::opaque]
pub open spec fn stand_ins(key: Seq<char>, index: int, options: ResolvedOptions) -> Option<
    Seq<PairModel>,
> {
    match expanded(
        key,
        Some(ScalarModel::Str("p"@ + decimal(index as nat))),
        false,
        options.style_resolution,
        options.property_validation_mode,
    ) {
        Ok(pairs) => Some(pairs),
        Err(_) => None,
    }
}

/// The paths that the value at `index` is found under.
pub open spec fn paths_of(style: InlineModel, index: int, options: ResolvedOptions) -> Seq<
    (Seq<char>, int),
> {
    let path = join_texts(style.key_path, "_"@);
    if options.style_resolution == StyleResolution::LegacyExpandShorthands {
        let key = lookup_key(style.key_path);
        match stand_ins(key, index, options) {
            Some(pairs) => moved_upto(path, key, pairs, index, pairs.len() as int),
            None => Seq::empty(),
        }
    } else {
        seq![(path, index)]
    }
}

/// The paths that the first `k` values are found under.
pub open spec fn all_paths_upto(
    styles: Seq<(Seq<char>, InlineModel)>,
    options: ResolvedOptions,
    k: int,
) -> Seq<(Seq<char>, int)>
    decreases k,
{
    if k <= 0 {
        Seq::empty()
    } else {
        all_paths_upto(styles, options, k - 1) + paths_of(styles[k - 1].1, k - 1, options)
    }
}

/// What paths with the positions of their values are, mathematically.
pub open spec fn path_places(v: Seq<(String, usize)>) -> Seq<(Seq<char>, int)> {
    Seq::new(v.len(), |i: int| (v[i].0@, v[i].1 as int))
}

fn add_paths(out: &mut Vec<(String, usize)>, style: &InlineStyle, index: usize, options: &ResolvedOptions)
    ensures
        path_places(final(out)@) == path_places(old(out)@) + paths_of(
            style.model(),
            index as int,
            *options,
        ),
{
    let ghost start = path_places(out@);
    let path = join(&style.key_path, "_");
    match options.style_resolution {
        StyleResolution::LegacyExpandShorthands => {
            proof {
                reveal(stand_ins);
            }
            let key = truncated_key(&style.key_path);
            let placeholder = StyleScalar::Str(
                concat2("p", decimal_text(index as u64).as_str()),
            );
            match flat_map_expanded_shorthands(key.as_str(), Some(placeholder), false, options) {
                Ok(pairs) => {
                    let ghost ps = pair_models(pairs@);
                    let mut j: usize = 0;
                    proof {
                        assert(start + moved_upto(path@, key@, ps, index as int, 0) =~= start);
                    }
                    while j < pairs.len()
                        invariant
                            ps == pair_models(pairs@),
                            j <= pairs@.len(),
                            path_places(out@) == start + moved_upto(
                                path@,
                                key@,
                                ps,
                                index as int,
                                j as int,
                            ),
                        decreases pairs@.len() - j,
                    {
                        let (new_key, value) = &pairs[j];
                        assert(ps[j as int] == (new_key@, opt_scalar(*value)));
                        if let Some(StyleScalar::Str(_)) = value {
                            let ghost before = path_places(out@);
                            let moved = move_path(path.as_str(), key.as_str(), new_key.as_str());
                            out.push((moved, index));
                            proof {
                                assert(path_places(out@) =~= before.push((moved@, index as int)));
                                assert(path_places(out@) =~= start + moved_upto(
                                    path@,
                                    key@,
                                    ps,
                                    index as int,
                                    j + 1,
                                ));
                            }
                        }
                        j += 1;
                    }
                },
                Err(_) => {
                    proof {
                        assert(start + Seq::<(Seq<char>, int)>::empty() =~= start);
                    }
                },
            }
        },
        _ => {
            out.push((path, index));
            proof {
                assert(path_places(out@) =~= start + seq![(path@, index as int)]);
            }
        },
    }
}

fn dynamic_paths(fn_def: &DynamicFn, options: &ResolvedOptions) -> (r: Vec<(String, usize)>)
    ensures
        path_places(r@) == all_paths_upto(
            inline_models(fn_def.inline_styles@),
            *options,
            fn_def.inline_styles@.len() as int,
        ),
        forall|i: int| 0 <= i < r@.len() ==> (#[trigger] r@[i]).1 < fn_def.inline_styles@.len(),
{
    let ghost styles = inline_models(fn_def.inline_styles@);
    let mut out: Vec<(String, usize)> = Vec::new();
    proof {
        assert(path_places(out@) =~= Seq::<(Seq<char>, int)>::empty());
    }
    let mut i: usize = 0;
    while i < fn_def.inline_styles.len()
        invariant
            styles == inline_models(fn_def.inline_styles@),
            i <= fn_def.inline_styles@.len(),
            path_places(out@) == all_paths_upto(styles, *options, i as int),
        decreases fn_def.inline_styles@.len() - i,
    {
        assert(styles[i as int].1 == fn_def.inline_styles@[i as int].1.model());
        add_paths(&mut out, &fn_def.inline_styles[i].1, i, options);
        i += 1;
    }
    proof {
        let n = fn_def.inline_styles@.len() as int;
        lemma_places(styles, *options, n);
        assert forall|k: int| 0 <= k < out@.len() implies (#[trigger] out@[k]).1 < n by {
            assert(path_places(out@)[k].1 == out@[k].1);
        }
    }
    out
}

proof fn lemma_moved_places(
    path: Seq<char>,
    key: Seq<char>,
    pairs: Seq<PairModel>,
    index: int,
    k: int,
)
    ensures
        forall|i: int|
            0 <= i < moved_upto(path, key, pairs, index, k).len() ==> (#[trigger] moved_upto(
                path,
                key,
                pairs,
                index,
                k,
            )[i]).1 == index,
    decreases k,
{
    if k > 0 {
        lemma_moved_places(path, key, pairs, index, k - 1);
        let done = moved_upto(path, key, pairs, index, k - 1);
        let all = moved_upto(path, key, pairs, index, k);
        assert forall|i: int| 0 <= i < all.len() implies (#[trigger] all[i]).1 == index by {
            if i < done.len() {
                assert(all[i] == done[i]);
            }
        }
    }
}

proof fn lemma_places(styles: Seq<(Seq<char>, InlineModel)>, options: ResolvedOptions, k: int)
    requires
        0 <= k,
    ensures
        forall|i: int|
            0 <= i < all_paths_upto(styles, options, k).len() ==> 0 <= (#[trigger] all_paths_upto(
                styles,
                options,
                k,
            )[i]).1 < k,
    decreases k,
{
    if k > 0 {
        lemma_places(styles, options, k - 1);
        let style = styles[k - 1].1;
        if options.style_resolution == StyleResolution::LegacyExpandShorthands {
            let key = lookup_key(style.key_path);
            if let Some(pairs) = stand_ins(key, k - 1, options) {
                lemma_moved_places(
                    join_texts(style.key_path, "_"@),
                    key,
                    pairs,
                    k - 1,
                    pairs.len() as int,
                );
            }
        }
        let done = all_paths_upto(styles, options, k - 1);
        let more = paths_of(style, k - 1, options);
        let all = all_paths_upto(styles, options, k);
        assert forall|i: int| 0 <= i < all.len() implies 0 <= (#[trigger] all[i]).1 < k by {
            if i < done.len() {
                assert(all[i] == done[i]);
            } else {
                assert(all[i] == more[i - done.len()]);
            }
        }
    }
}

/// The first value, from the `i`th on, that spells out `null` or undefined and whose
/// variable has the given name.
pub open spec fn nullish_place(
    styles: Seq<(Seq<char>, InlineModel)>,
    name: Seq<char>,
    i: int,
) -> Option<int>
    decreases styles.len() - i,
{
    if i < 0 || i >= styles.len() {
        None
    } else if styles[i].1.nullish && styles[i].0 == name {
        Some(i)
    } else {
        nullish_place(styles, name, i + 1)
    }
}

/// The first such value for one of the names from the `i`th on.
pub open spec fn nullish_in(
    styles: Seq<(Seq<char>, InlineModel)>,
    names: Seq<Seq<char>>,
    i: int,
) -> Option<int>
    decreases names.len() - i,
{
    if i < 0 || i >= names.len() {
        None
    } else {
        match nullish_place(styles, names[i], 0) {
            Some(p) => Some(p),
            None => nullish_in(styles, names, i + 1),
        }
    }
}

/// The first rule, from the `i`th on, of a class name.
pub open spec fn rule_place(rules: Seq<RuleModel>, class: Seq<char>, i: int) -> Option<int>
    decreases rules.len() - i,
{
    if i < 0 || i >= rules.len() {
        None
    } else if rules[i].class_name == class {
        Some(i)
    } else {
        rule_place(rules, class, i + 1)
    }
}

/// The value that a class name depends on, by its position: the one at the path of
/// the class name, or one that the rule of the class name uses and that may be
/// `null` or undefined.
pub open spec fn value_place(
    class: Seq<char>,
    class_paths: Seq<(Seq<char>, Seq<Seq<char>>)>,
    places: Seq<(Seq<char>, int)>,
    styles: Seq<(Seq<char>, InlineModel)>,
    rules: Seq<RuleModel>,
) -> Option<int> {
    let at_path = match value_of(class_paths, class) {
        Some(path) => value_of(places, join_texts(path, "_"@)),
        None => None,
    };
    match at_path {
        Some(p) => Some(p),
        None => match rule_place(rules, class, 0) {
            Some(i) => nullish_in(styles, placeholders(rules[i].ltr, 0), 0),
            None => None,
        },
    }
}

/// A class name, with a space behind it where another one follows.
pub open spec fn spaced(class: Seq<char>, last: bool) -> Seq<char> {
    if last {
        class
    } else {
        class + " "@
    }
}

/// The part of a class name.
pub open spec fn class_part(
    lit: Seq<char>,
    place: Option<int>,
    styles: Seq<(Seq<char>, InlineModel)>,
) -> PartModel {
    match place {
        Some(p) => if styles[p].1.safe {
            PartModel::Lit(lit)
        } else {
            PartModel::Guarded(lit, styles[p].1.span)
        },
        None => PartModel::Lit(lit),
    }
}

/// What the lookups of class names rest on.
#[verifier::ext_equal]
pub struct Lookup {
    pub class_paths: Seq<(Seq<char>, Seq<Seq<char>>)>,
    pub places: Seq<(Seq<char>, int)>,
    pub styles: Seq<(Seq<char>, InlineModel)>,
    pub rules: Seq<RuleModel>,
}

/// The parts of the class names of a key.
pub open spec fn class_parts(classes: Seq<Seq<char>>, l: Lookup) -> Seq<PartModel> {
    Seq::new(
        classes.len(),
        |i: int|
            class_part(
                spaced(classes[i], i == classes.len() - 1),
                value_place(classes[i], l.class_paths, l.places, l.styles, l.rules),
                l.styles,
            ),
    )
}

/// The class names in the value of a key.
pub open spec fn classes_in(v: Val) -> Seq<Seq<char>> {
    match v {
        Val::Str(s) => split_at_char(s, ' '),
        _ => Seq::empty(),
    }
}

/// Whether all parts are class names as they are.
pub open spec fn all_literal(parts: Seq<PartModel>) -> bool {
    forall|i: int| 0 <= i < parts.len() ==> (#[trigger] parts[i]) is Lit
}

/// What stands after one more key.
pub open spec fn with_key(s: DynamicModel, key: Seq<char>, v: Val, l: Lookup) -> DynamicModel {
    let parts = class_parts(classes_in(v), l);
    if key == "$$css"@ {
        DynamicModel { css_tag: v, ..s }
    } else if all_literal(parts) {
        DynamicModel {
            static_props: s.static_props.push(
                (key, Seq::new(parts.len(), |i: int| parts[i]->Lit_0)),
            ),
            ..s
        }
    } else {
        DynamicModel { conditional_props: s.conditional_props.push((key, parts)), ..s }
    }
}

/// What stands after the first `k` keys.
pub open spec fn with_keys(s: DynamicModel, e: Seq<(Seq<char>, Val)>, l: Lookup, k: int) -> DynamicModel
    decreases k,
{
    if k <= 0 {
        s
    } else {
        with_key(with_keys(s, e, l, k - 1), e[k - 1].0, e[k - 1].1, l)
    }
}

/// What a function compiles to.
pub open spec fn dynamic_output(
    e: Seq<(Seq<char>, Val)>,
    class_paths: Seq<(Seq<char>, Seq<Seq<char>>)>,
    params: Seq<Seq<char>>,
    styles: Seq<(Seq<char>, InlineModel)>,
    rules: Seq<RuleModel>,
    options: ResolvedOptions,
) -> DynamicModel {
    let l = Lookup {
        class_paths,
        places: all_paths_upto(styles, options, styles.len() as int),
        styles,
        rules,
    };
    let start = DynamicModel {
        params,
        static_props: Seq::empty(),
        conditional_props: Seq::empty(),
        css_tag: Val::Bool(true),
        inline_vars: Seq::new(
            styles.len(),
            |i: int| (styles[i].0, styles[i].1.unit, styles[i].1.span),
        ),
    };
    with_keys(start, e, l, e.len() as int)
}

fn find_nullish(styles: &Vec<(String, InlineStyle)>, name: &str) -> (r: Option<usize>)
    ensures
        match r {
            Some(i) => nullish_place(inline_models(styles@), name@, 0) == Some(i as int) && i
                < styles@.len(),
            None => nullish_place(inline_models(styles@), name@, 0) is None,
        },
{
    let ghost all = inline_models(styles@);
    let mut i: usize = 0;
    while i < styles.len()
        invariant
            all == inline_models(styles@),
            i <= styles@.len(),
            nullish_place(all, name@, 0) == nullish_place(all, name@, i as int),
        decreases styles@.len() - i,
    {
        assert(all[i as int] == (styles@[i as int].0@, styles@[i as int].1.model()));
        if styles[i].1.has_nullish_fallback && str_eq(styles[i].0.as_str(), name) {
            return Some(i);
        }
        i += 1;
    }
    None
}

fn find_value(
    class: &str,
    class_paths: &Vec<(String, Vec<String>)>,
    places: &Vec<(String, usize)>,
    styles: &Vec<(String, InlineStyle)>,
    rules: &Vec<StylexRule>,
) -> (r: Option<usize>)
    requires
        forall|i: int| 0 <= i < places@.len() ==> (#[trigger] places@[i]).1 < styles@.len(),
    ensures
        match r {
            Some(i) => value_place(
                class@,
                static_models(class_paths@),
                path_places(places@),
                inline_models(styles@),
                rule_models(rules@),
            ) == Some(i as int) && i < styles@.len(),
            None => value_place(
                class@,
                static_models(class_paths@),
                path_places(places@),
                inline_models(styles@),
                rule_models(rules@),
            ) is None,
        },
{
    let at: usize = position_of(class_paths, class);
    proof {
        assert(keys_of(static_models(class_paths@)) =~= item_keys(class_paths@));
        lemma_find_key(item_keys(class_paths@), class@, 0);
        assert(keys_of(path_places(places@)) =~= item_keys(places@));
    }
    if at < class_paths.len() {
        let path = join(&class_paths[at].1, "_");
        let place: usize = position_of(places, path.as_str());
        proof {
            assert(static_models(class_paths@)[at as int].1 == texts(class_paths@[at as int].1@));
            lemma_find_key(item_keys(places@), path@, 0);
        }
        if place < places.len() {
            return Some(places[place].1);
        }
    }
    let ghost rs = rule_models(rules@);
    let mut i: usize = 0;
    while i < rules.len() && !str_eq(rules[i].class_name.as_str(), class)
        invariant
            rs == rule_models(rules@),
            i <= rules@.len(),
            rule_place(rs, class@, 0) == rule_place(rs, class@, i as int),
        decreases rules@.len() - i,
    {
        assert(rs[i as int].class_name == rules@[i as int].class_name@);
        i += 1;
    }
    if i >= rules.len() {
        return None;
    }
    proof {
        assert(rs[i as int].class_name == rules@[i as int].class_name@);
        assert(rs[i as int].ltr == rules@[i as int].ltr@);
    }
    let names = placeholder_var_names(rules[i].ltr.as_str());
    find_nullish_in(styles, &names)
}

fn find_nullish_in(styles: &Vec<(String, InlineStyle)>, names: &Vec<String>) -> (r: Option<usize>)
    ensures
        match r {
            Some(i) => nullish_in(inline_models(styles@), texts(names@), 0) == Some(i as int) && i
                < styles@.len(),
            None => nullish_in(inline_models(styles@), texts(names@), 0) is None,
        },
{
    let ghost all = inline_models(styles@);
    let ghost ns = texts(names@);
    let mut k: usize = 0;
    while k < names.len()
        invariant
            all == inline_models(styles@),
            ns == texts(names@),
            k <= names@.len(),
            nullish_in(all, ns, 0) == nullish_in(all, ns, k as int),
        decreases names@.len() - k,
    {
        assert(ns[k as int] == names@[k as int]@);
        let found = find_nullish(styles, names[k].as_str());
        if found.is_some() {
            return found;
        }
        k += 1;
    }
    None
}

struct Lookups<'a> {
    class_paths: &'a Vec<(String, Vec<String>)>,
    places: Vec<(String, usize)>,
    styles: &'a Vec<(String, InlineStyle)>,
    rules: &'a Vec<StylexRule>,
}

impl<'a> Lookups<'a> {
    spec fn model(self) -> Lookup {
        Lookup {
            class_paths: static_models(self.class_paths@),
            places: path_places(self.places@),
            styles: inline_models(self.styles@),
            rules: rule_models(self.rules@),
        }
    }

    spec fn valid(self) -> bool {
        forall|i: int|
            0 <= i < self.places@.len() ==> (#[trigger] self.places@[i]).1 < self.styles@.len()
    }

    fn parts(&self, classes: &Vec<String>) -> (r: (Vec<ClassPart>, bool))
        requires
            self.valid(),
        ensures
            part_models(r.0@) == class_parts(texts(classes@), self.model()),
            r.1 == all_literal(part_models(r.0@)),
    {
        let ghost cs = texts(classes@);
        let ghost l = self.model();
        let ghost want = class_parts(cs, l);
        let mut out: Vec<ClassPart> = Vec::new();
        let mut literal = true;
        let mut i: usize = 0;
        while i < classes.len()
            invariant
                self.valid(),
                cs == texts(classes@),
                l == self.model(),
                want == class_parts(cs, l),
                i <= classes@.len(),
                out@.len() == i,
                forall|j: int| 0 <= j < i ==> (#[trigger] out@[j]).model() == want[j],
                literal == forall|j: int| 0 <= j < i ==> (#[trigger] want[j]) is Lit,
            decreases classes@.len() - i,
        {
            let class = classes[i].as_str();
            assert(cs[i as int] == class@);
            let lit = if i == classes.len() - 1 {
                class.to_owned()
            } else {
                concat2(class, " ")
            };
            let found = find_value(
                class,
                self.class_paths,
                &self.places,
                self.styles,
                self.rules,
            );
            let mut part = ClassPart::Lit(lit.clone());
            if let Some(p) = found {
                assert(l.styles[p as int].1 == self.styles@[p as int].1.model());
                if !self.styles[p].1.safe_to_skip_null_check {
                    part = ClassPart::Guarded { lit, expr: self.styles[p].1.span };
                    literal = false;
                }
            }
            proof {
                assert(part.model() == want[i as int]);
            }
            out.push(part);
            i += 1;
        }
        proof {
            assert(part_models(out@) =~= want);
        }
        (out, literal)
    }
}

fn literals(parts: &Vec<ClassPart>) -> (r: Vec<String>)
    requires
        all_literal(part_models(parts@)),
    ensures
        texts(r@) == Seq::new(parts@.len(), |i: int| part_models(parts@)[i]->Lit_0),
{
    let ghost ps = part_models(parts@);
    let mut out: Vec<String> = Vec::new();
    let mut i: usize = 0;
    while i < parts.len()
        invariant
            ps == part_models(parts@),
            all_literal(ps),
            i <= parts@.len(),
            out@.len() == i,
            forall|j: int| 0 <= j < i ==> (#[trigger] out@[j])@ == ps[j]->Lit_0,
        decreases parts@.len() - i,
    {
        assert(ps[i as int] == parts@[i as int].model());
        assert(ps[i as int] is Lit);
        match &parts[i] {
            ClassPart::Lit(s) => {
                out.push(s.clone());
            },
            ClassPart::Guarded { lit, .. } => {
                out.push(lit.clone());
            },
        }
        i += 1;
    }
    proof {
        assert(texts(out@) =~= Seq::new(parts@.len(), |i: int| ps[i]->Lit_0));
    }
    out
}

fn make_inline_vars(styles: &Vec<(String, InlineStyle)>) -> (r: Vec<InlineVar>)
    ensures
        inline_var_models(r@) == Seq::new(
            styles@.len(),
            |i: int|
                (
                    inline_models(styles@)[i].0,
                    inline_models(styles@)[i].1.unit,
                    inline_models(styles@)[i].1.span,
                ),
        ),
{
    let ghost all = inline_models(styles@);
    let mut out: Vec<InlineVar> = Vec::new();
    let mut i: usize = 0;
    while i < styles.len()
        invariant
            all == inline_models(styles@),
            i <= styles@.len(),
            out@.len() == i,
            forall|j: int|
                0 <= j < i ==> (#[trigger] out@[j]).var_name@ == all[j].0 && out@[j].unit@
                    == all[j].1.unit && out@[j].expr == all[j].1.span,
        decreases styles@.len() - i,
    {
        assert(all[i as int] == (styles@[i as int].0@, styles@[i as int].1.model()));
        out.push(
            InlineVar {
                var_name: styles[i].0.clone(),
                unit: styles[i].1.unit.clone(),
                expr: styles[i].1.span,
            },
        );
        i += 1;
    }
    proof {
        assert(inline_var_models(out@) =~= Seq::new(
            styles@.len(),
            |i: int| (all[i].0, all[i].1.unit, all[i].1.span),
        ));
    }
    out
}

fn add_key(start: DynamicCompiled, key: &str, value: &EvalValue, l: &Lookups<'_>) -> (r:
    DynamicCompiled)
    requires
        l.valid(),
    ensures
        r.model() == with_key(start.model(), key@, value.model(), l.model()),
{
    let ghost sm = start.model();
    let mut out = start;
    if str_eq(key, "$$css") {
        out.css_tag = value.clone();
        proof {
            assert(out.model() =~= with_key(sm, key@, value.model(), l.model()));
        }
        return out;
    }
    let classes = match value {
        EvalValue::Str(s) => split(s.as_str(), ' '),
        _ => Vec::new(),
    };
    proof {
        assert(texts(classes@) =~= classes_in(value.model()));
    }
    let (parts, literal) = l.parts(&classes);
    let ghost pm = part_models(parts@);
    if literal {
        let texts_of = literals(&parts);
        let ghost tm = texts(texts_of@);
        out.static_props.push((key.to_owned(), texts_of));
        proof {
            assert(static_models(out.static_props@) =~= sm.static_props.push((key@, tm)));
            assert(out.model() =~= with_key(sm, key@, value.model(), l.model()));
        }
    } else {
        out.conditional_props.push((key.to_owned(), parts));
        proof {
            assert(conditional_models(out.conditional_props@) =~= sm.conditional_props.push(
                (key@, pm),
            ));
            assert(out.model() =~= with_key(sm, key@, value.model(), l.model()));
        }
    }
    out
}

/// Compiles a namespace that is a function.
pub fn compile_dynamic_namespace(
    compiled_ns: &JsObjectMap,
    class_paths: &Vec<(String, Vec<String>)>,
    fn_def: &DynamicFn,
    injected_lookup: &Vec<StylexRule>,
    options: &ResolvedOptions,
) -> (r: DynamicCompiled)
    ensures
        r.model() == dynamic_output(
            compiled_ns.pairs(),
            static_models(class_paths@),
            texts(fn_def.params@),
            inline_models(fn_def.inline_styles@),
            rule_models(injected_lookup@),
            *options,
        ),
{
    let places = dynamic_paths(fn_def, options);
    let l = Lookups { class_paths, places, styles: &fn_def.inline_styles, rules: injected_lookup };
    let ghost lm = l.model();
    let ghost e = compiled_ns.pairs();
    let mut out = DynamicCompiled {
        params: copy_texts(&fn_def.params),
        static_props: Vec::new(),
        conditional_props: Vec::new(),
        css_tag: EvalValue::Bool(true),
        inline_vars: make_inline_vars(&fn_def.inline_styles),
    };
    let ghost start = out.model();
    proof {
        let styles = inline_models(fn_def.inline_styles@);
        assert(start =~= DynamicModel {
            params: texts(fn_def.params@),
            static_props: Seq::empty(),
            conditional_props: Seq::empty(),
            css_tag: Val::Bool(true),
            inline_vars: Seq::new(
                styles.len(),
                |i: int| (styles[i].0, styles[i].1.unit, styles[i].1.span),
            ),
        });
    }
    let mut i: usize = 0;
    while i < compiled_ns.items.len()
        invariant
            l.valid(),
            lm == l.model(),
            e == compiled_ns.pairs(),
            i <= compiled_ns.items@.len(),
            out.model() == with_keys(start, e, lm, i as int),
        decreases compiled_ns.items@.len() - i,
    {
        let (key, value) = &compiled_ns.items[i];
        assert(e[i as int] == (key@, value.model()));
        out = add_key(out, key.as_str(), value, &l);
        i += 1;
    }
    out
}

/// Whether a path leads to a pseudo-element.
pub open spec fn in_pseudo_element(path: Seq<Seq<char>>) -> bool {
    exists|i: int| 0 <= i < path.len() && has_prefix(#[trigger] path[i], "::"@)
}

/// The rule that declares a variable. Pseudo-elements see variables by inheritance
/// only.
pub open spec fn inherit_rule(name: Seq<char>, style: InlineModel) -> RuleModel {
    let inherits = if in_pseudo_element(style.key_path) {
        "true"@
    } else {
        "false"@
    };
    plain_rule(
        name,
        "@property "@ + name + " { syntax: \"*\"; inherits: "@ + inherits + ";}"@,
        None,
        JsNumber::natural(0),
    )
}

/// The rules after those of the first `k` variables were set.
pub open spec fn with_inherits(
    rules: Seq<(Seq<char>, RuleModel)>,
    styles: Seq<(Seq<char>, InlineModel)>,
    k: int,
) -> Seq<(Seq<char>, RuleModel)>
    decreases k,
{
    if k <= 0 {
        rules
    } else {
        append_put(
            with_inherits(rules, styles, k - 1),
            styles[k - 1].0,
            inherit_rule(styles[k - 1].0, styles[k - 1].1),
        )
    }
}

/// The values of each function.
pub open spec fn fn_models(v: Seq<(String, DynamicFn)>) -> Seq<Seq<(Seq<char>, InlineModel)>> {
    Seq::new(v.len(), |i: int| inline_models(v[i].1.inline_styles@))
}

/// The rules of the variables of the first `k` functions.
pub open spec fn inherits_upto(fns: Seq<Seq<(Seq<char>, InlineModel)>>, k: int) -> Seq<
    (Seq<char>, RuleModel),
>
    decreases k,
{
    if k <= 0 {
        Seq::empty()
    } else {
        with_inherits(inherits_upto(fns, k - 1), fns[k - 1], fns[k - 1].len() as int)
    }
}

fn make_inherit_rule(name: &str, style: &InlineStyle) -> (r: StylexRule)
    ensures
        r.model() == inherit_rule(name@, style.model()),
{
    let ghost path = texts(style.key_path@);
    let mut inherits = false;
    let mut i: usize = 0;
    while i < style.key_path.len()
        invariant
            path == texts(style.key_path@),
            i <= style.key_path@.len(),
            inherits == exists|j: int| 0 <= j < i && has_prefix(#[trigger] path[j], "::"@),
        decreases style.key_path@.len() - i,
    {
        assert(path[i as int] == style.key_path@[i as int]@);
        if starts_with(style.key_path[i].as_str(), "::") {
            inherits = true;
        }
        i += 1;
    }
    proof {
        assert(path.len() == style.key_path@.len());
        assert(inherits == in_pseudo_element(path));
    }
    let word = if inherits {
        "true"
    } else {
        "false"
    };
    let ltr = concat5(
        "@property ",
        name,
        " { syntax: \"*\"; inherits: ",
        word,
        ";}",
    );
    StylexRule::plain(name.to_owned(), ltr, None, JsNumber::from_int(0))
}

spec fn named_rules(v: Seq<(String, StylexRule)>) -> Seq<(Seq<char>, RuleModel)> {
    Seq::new(v.len(), |i: int| (v[i].0@, v[i].1.model()))
}

fn put_named(rules: &mut Vec<(String, StylexRule)>, name: &str, rule: StylexRule)
    ensures
        named_rules(final(rules)@) == append_put(named_rules(old(rules)@), name@, rule.model()),
{
    let ghost before = named_rules(rules@);
    let ghost m = rule.model();
    let at: usize = position_of(rules, name);
    proof {
        assert(keys_of(before) =~= item_keys(rules@));
        lemma_find_key(keys_of(before), name@, 0);
    }
    if at < rules.len() {
        let gone = rules.remove(at);
        rules.insert(at, (gone.0, rule));
        proof {
            assert(named_rules(rules@) =~= before.update(at as int, (before[at as int].0, m)));
        }
    } else {
        rules.push((name.to_owned(), rule));
        proof {
            assert(named_rules(rules@) =~= before.push((name@, m)));
        }
    }
}

/// Gives the rules that declare the variables of functions, each once.
pub fn inherit_rules(fns: &Vec<(String, DynamicFn)>) -> (r: Vec<StylexRule>)
    ensures
        rule_models(r@) == values_of(inherits_upto(fn_models(fns@), fns@.len() as int)),
{
    let ghost all = fn_models(fns@);
    let mut rules: Vec<(String, StylexRule)> = Vec::new();
    proof {
        assert(named_rules(rules@) =~= Seq::<(Seq<char>, RuleModel)>::empty());
    }
    let mut i: usize = 0;
    while i < fns.len()
        invariant
            all == fn_models(fns@),
            i <= fns@.len(),
            named_rules(rules@) == inherits_upto(all, i as int),
        decreases fns@.len() - i,
    {
        let styles = &fns[i].1.inline_styles;
        let ghost sm = inline_models(styles@);
        let ghost start = named_rules(rules@);
        assert(all[i as int] == sm);
        let mut j: usize = 0;
        while j < styles.len()
            invariant
                sm == inline_models(styles@),
                j <= styles@.len(),
                named_rules(rules@) == with_inherits(start, sm, j as int),
            decreases styles@.len() - j,
        {
            assert(sm[j as int] == (styles@[j as int].0@, styles@[j as int].1.model()));
            let name = styles[j].0.as_str();
            put_named(&mut rules, name, make_inherit_rule(name, &styles[j].1));
            j += 1;
        }
        i += 1;
    }
    let ghost done = named_rules(rules@);
    let mut out: Vec<StylexRule> = Vec::new();
    i = 0;
    while i < rules.len()
        invariant
            done == named_rules(rules@),
            i <= rules@.len(),
            out@.len() == i,
            forall|j: int| 0 <= j < i ==> (#[trigger] out@[j]).model() == done[j].1,
        decreases rules@.len() - i,
    {
        assert(done[i as int].1 == rules@[i as int].1.model());
        out.push(rules[i].1.clone());
        i += 1;
    }
    proof {
        assert(rule_models(out@) =~= values_of(done));
    }
    out
}

/// Whether names are distinct, and each rule is that of its name.
pub open spec fn own_rules(r: Seq<(Seq<char>, RuleModel)>) -> bool {
    &&& forall|i: int, j: int| 0 <= i < j < r.len() ==> (#[trigger] r[i]).0 != (#[trigger] r[j]).0
    &&& forall|i: int| 0 <= i < r.len() ==> (#[trigger] r[i]).1.class_name == r[i].0
}

proof fn lemma_with_inherits(
    rules: Seq<(Seq<char>, RuleModel)>,
    styles: Seq<(Seq<char>, InlineModel)>,
    k: int,
)
    requires
        own_rules(rules),
        k <= styles.len(),
    ensures
        own_rules(with_inherits(rules, styles, k)),
    decreases k,
{
    if k > 0 {
        lemma_with_inherits(rules, styles, k - 1);
        let done = with_inherits(rules, styles, k - 1);
        lemma_find_key(keys_of(done), styles[k - 1].0, 0);
        let at = find_key(keys_of(done), styles[k - 1].0, 0);
        let now = with_inherits(rules, styles, k);
        assert forall|i: int, j: int| 0 <= i < j < now.len() implies (#[trigger] now[i]).0 != (
        #[trigger] now[j]).0 by {
            assert(i < done.len());
            assert(keys_of(done)[i] == done[i].0);
            if j < done.len() {
                assert(keys_of(done)[j] == done[j].0);
            }
        }
    }
}

proof fn lemma_inherits(fns: Seq<Seq<(Seq<char>, InlineModel)>>, k: int)
    requires
        k <= fns.len(),
    ensures
        own_rules(inherits_upto(fns, k)),
    decreases k,
{
    if k > 0 {
        lemma_inherits(fns, k - 1);
        lemma_with_inherits(inherits_upto(fns, k - 1), fns[k - 1], fns[k - 1].len() as int);
    }
}

/// Each variable is declared once, whatever functions set it.
pub proof fn variables_are_declared_once(fns: Seq<Seq<(Seq<char>, InlineModel)>>)
    ensures
        own_rules(inherits_upto(fns, fns.len() as int)),
{
    lemma_inherits(fns, fns.len() as int);
}

} // verus!
