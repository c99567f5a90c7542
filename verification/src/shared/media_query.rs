//! Media queries: reading, bringing to one form, and printing.

use crate::errors::{said, ErrorCode, ErrorModel, StylexError};
use crate::number::JsNumber;
use crate::shared::media_grammar::{media_query_at, tokenize, tokens_from, Parser};
use crate::shared::media_normal::{normalize, normalized_rule};
use crate::text::{char_count, chars_of, concat2, concat3, concat5, has_prefix, starts_with, texts};
use vstd::prelude::*;

verus! {

/// Why a media query could not be read.
#[derive(Debug, PartialEq)]
pub enum MediaQueryError {
    Syntax(StylexError),
    /// A form that is refused because its printed form is not known.
    Unverified { input: String },
}

/// What an error says, mathematically.
#[verifier::ext_equal]
pub enum MediaErrorModel {
    Syntax(ErrorModel),
    Unverified(Seq<char>),
}

impl MediaQueryError {
    /// What the error says, mathematically.
    pub open spec fn model(self) -> MediaErrorModel {
        match self {
            MediaQueryError::Syntax(e) => MediaErrorModel::Syntax(e.model()),
            MediaQueryError::Unverified { input } => MediaErrorModel::Unverified(input@),
        }
    }

    fn syntax() -> (r: MediaQueryError)
        ensures
            r.model() == syntax_error(),
    {
        MediaQueryError::Syntax(StylexError::invalid_media_query_syntax())
    }

    /// The message of the error.
    pub fn to_text(&self) -> (r: String)
        ensures
            r@ == match self.model() {
                MediaErrorModel::Syntax(e) => e.message,
                MediaErrorModel::Unverified(s) => "unverified media query form: "@ + s,
            },
    {
        match self {
            MediaQueryError::Syntax(e) => e.to_text(),
            MediaQueryError::Unverified { input } => concat2(
                "unverified media query form: ",
                input.as_str(),
            ),
        }
    }
}

/// The error for a query that does not follow the grammar.
pub open spec fn syntax_error() -> MediaErrorModel {
    MediaErrorModel::Syntax(
        said(ErrorCode::InvalidMediaQuerySyntax, "Invalid media query syntax."@),
    )
}

/// Whether the key of a style is a media query that takes part in the order.
pub fn is_media_key(key: &str) -> (r: bool)
    ensures
        r == has_prefix(key@, "@media "@),
{
    starts_with(key, "@media ")
}

/// The value of a media feature.
#[derive(Debug, PartialEq)]
pub enum MediaRuleValue {
    Length { value: JsNumber, unit: String },
    Number(JsNumber),
    Str(String),
    Fraction(JsNumber, JsNumber),
}

/// A condition of a media query.
#[derive(Debug, PartialEq)]
pub enum MediaQueryRule {
    Keyword { key: String, not: bool, only: bool },
    WordRule(String),
    Pair { key: String, value: MediaRuleValue },
    Not(Box<MediaQueryRule>),
    And(Vec<MediaQueryRule>),
    Or(Vec<MediaQueryRule>),
}

/// What the value of a media feature is, mathematically.
#[verifier::ext_equal]
pub enum FeatureModel {
    Length(JsNumber, Seq<char>),
    Number(JsNumber),
    Str(Seq<char>),
    Fraction(JsNumber, JsNumber),
}

/// What a condition of a media query is, mathematically.
#[verifier::ext_equal]
pub enum MediaModel {
    Keyword(Seq<char>, bool, bool),
    WordRule(Seq<char>),
    Pair(Seq<char>, FeatureModel),
    Not(Box<MediaModel>),
    And(Seq<MediaModel>),
    Or(Seq<MediaModel>),
}

impl MediaRuleValue {
    /// What the value is, mathematically.
    pub open spec fn model(self) -> FeatureModel {
        match self {
            MediaRuleValue::Length { value, unit } => FeatureModel::Length(value, unit@),
            MediaRuleValue::Number(n) => FeatureModel::Number(n),
            MediaRuleValue::Str(s) => FeatureModel::Str(s@),
            MediaRuleValue::Fraction(a, b) => FeatureModel::Fraction(a, b),
        }
    }

    fn copy(&self) -> (r: MediaRuleValue)
        ensures
            r.model() == self.model(),
    {
        match self {
            MediaRuleValue::Length { value, unit } => MediaRuleValue::Length {
                value: *value,
                unit: unit.clone(),
            },
            MediaRuleValue::Number(n) => MediaRuleValue::Number(*n),
            MediaRuleValue::Str(s) => MediaRuleValue::Str(s.clone()),
            MediaRuleValue::Fraction(a, b) => MediaRuleValue::Fraction(*a, *b),
        }
    }
}

impl MediaQueryRule {
    /// What the condition is, mathematically.
    pub open spec fn model(self) -> MediaModel
        decreases self,
    {
        match self {
            MediaQueryRule::Keyword { key, not, only } => MediaModel::Keyword(key@, not, only),
            MediaQueryRule::WordRule(key) => MediaModel::WordRule(key@),
            MediaQueryRule::Pair { key, value } => MediaModel::Pair(key@, value.model()),
            MediaQueryRule::Not(inner) => MediaModel::Not(Box::new(inner.model())),
            MediaQueryRule::And(v) => MediaModel::And(
                Seq::new(
                    v@.len(),
                    |i: int|
                        if 0 <= i < v@.len() {
                            v@[i].model()
                        } else {
                            arbitrary()
                        },
                ),
            ),
            MediaQueryRule::Or(v) => MediaModel::Or(
                Seq::new(
                    v@.len(),
                    |i: int|
                        if 0 <= i < v@.len() {
                            v@[i].model()
                        } else {
                            arbitrary()
                        },
                ),
            ),
        }
    }
}

/// What conditions are, mathematically.
pub open spec fn media_models(v: Seq<MediaQueryRule>) -> Seq<MediaModel> {
    Seq::new(v.len(), |i: int| v[i].model())
}

impl Clone for MediaQueryRule {
    fn clone(&self) -> (r: Self)
        ensures
            r.model() == self.model(),
    {
        copy_rule(self)
    }
}

fn copy_rule(rule: &MediaQueryRule) -> (r: MediaQueryRule)
    ensures
        r.model() == rule.model(),
    decreases rule,
{
    match rule {
        MediaQueryRule::Keyword { key, not, only } => MediaQueryRule::Keyword {
            key: key.clone(),
            not: *not,
            only: *only,
        },
        MediaQueryRule::WordRule(key) => MediaQueryRule::WordRule(key.clone()),
        MediaQueryRule::Pair { key, value } => MediaQueryRule::Pair {
            key: key.clone(),
            value: value.copy(),
        },
        MediaQueryRule::Not(inner) => MediaQueryRule::Not(Box::new(copy_rule(inner))),
        MediaQueryRule::And(v) => {
            proof {
                assert(decreases_to!(*rule => rule->And_0));
            }
            let out = copy_rules(v);
            let r = MediaQueryRule::And(out);
            proof {
                assert(r.model()->And_0 =~= media_models(out@));
                assert(rule.model()->And_0 =~= media_models(v@));
            }
            r
        },
        MediaQueryRule::Or(v) => {
            proof {
                assert(decreases_to!(*rule => rule->Or_0));
            }
            let out = copy_rules(v);
            let r = MediaQueryRule::Or(out);
            proof {
                assert(r.model()->Or_0 =~= media_models(out@));
                assert(rule.model()->Or_0 =~= media_models(v@));
            }
            r
        },
    }
}

fn copy_rules(v: &Vec<MediaQueryRule>) -> (r: Vec<MediaQueryRule>)
    ensures
        media_models(r@) == media_models(v@),
        r@.len() == v@.len(),
    decreases v,
{
    let mut out: Vec<MediaQueryRule> = Vec::new();
    let mut i: usize = 0;
    while i < v.len()
        invariant
            i <= v@.len(),
            out@.len() == i,
            forall|j: int| 0 <= j < i ==> #[trigger] out@[j].model() == v@[j].model(),
        decreases v@.len() - i,
    {
        proof {
            assert(decreases_to!(*v => v@[i as int]));
        }
        out.push(copy_rule(&v[i]));
        i += 1;
    }
    proof {
        assert(media_models(out@) =~= media_models(v@));
    }
    out
}

/// The text of a condition.
pub open spec fn rule_text(rule: MediaModel, top: bool) -> Seq<char>
    decreases rule, 0int,
{
    match rule {
        MediaModel::Keyword(key, not, only) => {
            let prefix = if not {
                "not "@
            } else if only {
                "only "@
            } else {
                ""@
            };
            if top || not || only {
                prefix + key
            } else {
                "("@ + key + ")"@
            }
        },
        MediaModel::WordRule(key) => "("@ + key + ")"@,
        MediaModel::Pair(key, value) => "("@ + key + ": "@ + feature_text(value) + ")"@,
        MediaModel::Not(inner) => match *inner {
            MediaModel::And(_) | MediaModel::Or(_) | MediaModel::Not(_) => "(not ("@ + rule_text(
                *inner,
                false,
            ) + "))"@,
            _ => "(not "@ + rule_text(*inner, false) + ")"@,
        },
        MediaModel::And(rules) => and_text(rules, rules.len() as int),
        MediaModel::Or(rules) => {
            let n = valid_count(rules, rules.len() as int);
            if n == 0 {
                "not all"@
            } else if n == 1 {
                only_text(rules, top, rules.len() as int)
            } else {
                or_text(rules, top, rules.len() as int)
            }
        },
    }
}

/// The text of a value.
pub open spec fn feature_text(v: FeatureModel) -> Seq<char> {
    match v {
        FeatureModel::Length(n, unit) => n.text_spec() + unit,
        FeatureModel::Number(n) => n.text_spec(),
        FeatureModel::Str(s) => s,
        FeatureModel::Fraction(a, b) => a.text_spec() + " / "@ + b.text_spec(),
    }
}

/// The texts of the first `k` conditions that must all hold.
pub open spec fn and_text(rules: Seq<MediaModel>, k: int) -> Seq<char>
    decreases rules, k,
{
    if k <= 0 || k > rules.len() {
        Seq::empty()
    } else if k == 1 {
        rule_text(rules[0], false)
    } else {
        and_text(rules, k - 1) + " and "@ + rule_text(rules[k - 1], false)
    }
}

/// Whether a condition is an empty choice.
pub open spec fn empty_choice(rule: MediaModel) -> bool {
    rule matches MediaModel::Or(inner) && inner.len() == 0
}

/// How many of the first `k` conditions are no empty choice.
pub open spec fn valid_count(rules: Seq<MediaModel>, k: int) -> nat
    decreases k,
{
    if k <= 0 {
        0
    } else {
        valid_count(rules, k - 1) + if empty_choice(rules[k - 1]) {
            0nat
        } else {
            1
        }
    }
}

/// The text of the last of the first `k` conditions that is no empty choice.
pub open spec fn only_text(rules: Seq<MediaModel>, top: bool, k: int) -> Seq<char>
    decreases rules, k,
{
    if k <= 0 || k > rules.len() {
        Seq::empty()
    } else if empty_choice(rules[k - 1]) {
        only_text(rules, top, k - 1)
    } else {
        rule_text(rules[k - 1], top)
    }
}

/// The text of one condition of a choice, where `inner` is its own text.
pub open spec fn branch_text(rule: MediaModel, inner: Seq<char>, top: bool) -> Seq<char> {
    if (rule is And || rule is Or) && !top {
        "("@ + inner + ")"@
    } else {
        inner
    }
}

/// What stands between the conditions of a choice.
pub open spec fn choice_mark(top: bool) -> Seq<char> {
    if top {
        ", "@
    } else {
        " or "@
    }
}

/// The texts of those of the first `k` conditions of a choice that are no empty
/// choice.
pub open spec fn or_text(rules: Seq<MediaModel>, top: bool, k: int) -> Seq<char>
    decreases rules, k,
{
    if k <= 0 || k > rules.len() {
        Seq::empty()
    } else if empty_choice(rules[k - 1]) {
        or_text(rules, top, k - 1)
    } else if valid_count(rules, k - 1) == 0 {
        branch_text(rules[k - 1], rule_text(rules[k - 1], false), top)
    } else {
        or_text(rules, top, k - 1) + choice_mark(top) + branch_text(
            rules[k - 1],
            rule_text(rules[k - 1], false),
            top,
        )
    }
}

fn print_feature(v: &MediaRuleValue) -> (r: String)
    ensures
        r@ == feature_text(v.model()),
{
    match v {
        MediaRuleValue::Length { value, unit } => concat2(value.text().as_str(), unit.as_str()),
        MediaRuleValue::Number(n) => n.text(),
        MediaRuleValue::Str(s) => s.clone(),
        MediaRuleValue::Fraction(a, b) => concat3(a.text().as_str(), " / ", b.text().as_str()),
    }
}

fn is_empty_choice(rule: &MediaQueryRule) -> (r: bool)
    ensures
        r == empty_choice(rule.model()),
{
    match rule {
        MediaQueryRule::Or(v) => v.len() == 0,
        _ => false,
    }
}

fn rule_to_string(rule: &MediaQueryRule, is_top_level: bool) -> (r: String)
    ensures
        r@ == rule_text(rule.model(), is_top_level),
    decreases rule,
{
    match rule {
        MediaQueryRule::Keyword { key, not, only } => {
            let prefix = if *not {
                "not "
            } else if *only {
                "only "
            } else {
                ""
            };
            if is_top_level || *not || *only {
                concat2(prefix, key.as_str())
            } else {
                concat3("(", key.as_str(), ")")
            }
        },
        MediaQueryRule::WordRule(key) => concat3("(", key.as_str(), ")"),
        MediaQueryRule::Pair { key, value } => concat5(
            "(",
            key.as_str(),
            ": ",
            print_feature(value).as_str(),
            ")",
        ),
        MediaQueryRule::Not(inner) => {
            proof {
                assert(decreases_to!(*rule => rule->Not_0));
            }
            let text = rule_to_string(inner, false);
            match **inner {
                MediaQueryRule::And(_) | MediaQueryRule::Or(_) | MediaQueryRule::Not(_) => concat3(
                    "(not (",
                    text.as_str(),
                    "))",
                ),
                _ => concat3("(not ", text.as_str(), ")"),
            }
        },
        MediaQueryRule::And(v) => {
            let ghost all = rule.model()->And_0;
            let mut out = String::new();
            let mut i: usize = 0;
            while i < v.len()
                invariant
                    *rule == MediaQueryRule::And(*v),
                    all == rule.model()->And_0,
                    i <= v@.len(),
                    out@ == and_text(all, i as int),
                decreases v@.len() - i,
            {
                proof {
                    assert(decreases_to!(*rule => rule->And_0));
                    assert(decreases_to!(*v => v@[i as int]));
                    assert(all[i as int] == v@[i as int].model());
                }
                let t = rule_to_string(&v[i], false);
                if i == 0 {
                    out = t;
                } else {
                    out.append(" and ");
                    out.append(t.as_str());
                }
                i += 1;
            }
            out
        },
        MediaQueryRule::Or(v) => {
            let ghost all = rule.model()->Or_0;
            let mut count: u8 = 0;
            let mut i: usize = 0;
            while i < v.len()
                invariant
                    *rule == MediaQueryRule::Or(*v),
                    all == rule.model()->Or_0,
                    i <= v@.len(),
                    count <= 2,
                    count < 2 ==> valid_count(all, i as int) == count,
                    count == 2 ==> valid_count(all, i as int) >= 2,
                decreases v@.len() - i,
            {
                assert(all[i as int] == v@[i as int].model());
                if !is_empty_choice(&v[i]) && count < 2 {
                    count += 1;
                }
                i += 1;
            }
            if count == 0 {
                return "not all".to_owned();
            }
            if count == 1 {
                let mut k: usize = v.len();
                while k > 0
                    invariant
                        *rule == MediaQueryRule::Or(*v),
                        all == rule.model()->Or_0,
                        k <= v@.len(),
                        valid_count(all, all.len() as int) == 1,
                        rule_text(rule.model(), is_top_level) == only_text(
                            all,
                            is_top_level,
                            k as int,
                        ),
                    decreases k,
                {
                    k -= 1;
                    assert(all[k as int] == v@[k as int].model());
                    if !is_empty_choice(&v[k]) {
                        proof {
                            assert(decreases_to!(*rule => rule->Or_0));
                            assert(decreases_to!(*v => v@[k as int]));
                        }
                        return rule_to_string(&v[k], is_top_level);
                    }
                }
                return String::new();
            }
            let mut out = String::new();
            let mut some = false;
            i = 0;
            while i < v.len()
                invariant
                    *rule == MediaQueryRule::Or(*v),
                    all == rule.model()->Or_0,
                    i <= v@.len(),
                    some == (valid_count(all, i as int) > 0),
                    out@ == or_text(all, is_top_level, i as int),
                decreases v@.len() - i,
            {
                assert(all[i as int] == v@[i as int].model());
                if !is_empty_choice(&v[i]) {
                    proof {
                        assert(decreases_to!(*rule => rule->Or_0));
                        assert(decreases_to!(*v => v@[i as int]));
                    }
                    let inner = rule_to_string(&v[i], false);
                    let nested = match &v[i] {
                        MediaQueryRule::And(_) | MediaQueryRule::Or(_) => true,
                        _ => false,
                    };
                    let t = if nested && !is_top_level {
                        concat3("(", inner.as_str(), ")")
                    } else {
                        inner
                    };
                    if some {
                        if is_top_level {
                            out.append(", ");
                        } else {
                            out.append(" or ");
                        }
                        out.append(t.as_str());
                    } else {
                        out = t;
                    }
                    some = true;
                }
                i += 1;
            }
            out
        },
    }
}

/// A media query in its one form.
#[derive(Debug, PartialEq)]
pub struct MediaQuery {
    pub queries: MediaQueryRule,
}

/// Whether a character may stand in a media query.
pub open spec fn readable(c: char) -> bool {
    (c as u32) < 0x80 && c != '\\' && c != '\0'
}

/// What a media query is read as: the condition, in its one form.
#[verifier::opaque]
pub open spec fn query_read(input: Seq<char>) -> Result<MediaModel, MediaErrorModel> {
    if exists|i: int| 0 <= i < input.len() && !readable(#[trigger] input[i]) {
        Err(MediaErrorModel::Unverified(input))
    } else {
        let tokens = tokens_from(input, 0);
        match media_query_at(tokens, 0) {
            Some((rule, end)) => if end == tokens.len() {
                Ok(normalized_rule(rule))
            } else {
                Err(syntax_error())
            },
            None => Err(syntax_error()),
        }
    }
}

/// The text of a media query.
pub open spec fn query_text(rule: MediaModel) -> Seq<char> {
    "@media "@ + rule_text(rule, true)
}

impl MediaQuery {
    /// The media query of a condition.
    pub fn new(rule: MediaQueryRule) -> (r: MediaQuery)
        ensures
            r.queries.model() == normalized_rule(rule.model()),
    {
        MediaQuery { queries: normalize(rule) }
    }

    /// Reads a media query.
    pub fn parse(input: &str) -> (r: Result<MediaQuery, MediaQueryError>)
        ensures
            match r {
                Ok(q) => query_read(input@) == Ok::<MediaModel, MediaErrorModel>(q.queries.model()),
                Err(e) => query_read(input@) == Err::<MediaModel, MediaErrorModel>(e.model()),
            },
    {
        proof {
            reveal(query_read);
        }
        let s = chars_of(input);
        let n: usize = char_count(&s);
        let mut i: usize = 0;
        while i < n
            invariant
                s@ == input@,
                n == s@.len(),
                i <= n,
                forall|j: int| 0 <= j < i ==> readable(#[trigger] s@[j]),
            decreases n - i,
        {
            if s[i] as u32 >= 0x80 || s[i] == '\\' || s[i] == '\0' {
                proof {
                    reveal(query_read);
                    assert(!readable(input@[i as int]));
                }
                return Err(MediaQueryError::Unverified { input: input.to_owned() });
            }
            i += 1;
        }
        let tokens = tokenize(input);
        let parser = Parser::new(&tokens);
        match parser.media_query() {
            Some((rule, end)) => {
                if end == tokens.len() {
                    Ok(MediaQuery::new(rule))
                } else {
                    Err(MediaQueryError::syntax())
                }
            },
            None => Err(MediaQueryError::syntax()),
        }
    }

    /// The text of the media query.
    pub fn to_text(&self) -> (r: String)
        ensures
            r@ == query_text(self.queries.model()),
    {
        concat2("@media ", rule_to_string(&self.queries, true).as_str())
    }
}

impl Clone for MediaQuery {
    fn clone(&self) -> (r: Self)
        ensures
            r.queries.model() == self.queries.model(),
    {
        MediaQuery { queries: self.queries.clone() }
    }
}

/// The denials of all conditions from `from` on.
pub open spec fn denials(rules: Seq<MediaModel>, from: int) -> Seq<MediaModel> {
    Seq::new(
        if 0 <= from <= rules.len() {
            (rules.len() - from) as nat
        } else {
            0
        },
        |j: int| MediaModel::Not(Box::new(rules[from + j])),
    )
}

/// A condition that holds only where none of the denied ones does.
pub open spec fn narrowed(rule: MediaModel, no: Seq<MediaModel>) -> MediaModel {
    match rule {
        MediaModel::Or(branches) => MediaModel::Or(
            Seq::new(branches.len(), |k: int| MediaModel::And(seq![branches[k]] + no)),
        ),
        other => MediaModel::And(seq![other] + no),
    }
}

/// The condition of sibling `i`, which gives way to every later sibling.
pub open spec fn giving_way(rules: Seq<MediaModel>, i: int) -> MediaModel {
    if i + 1 >= rules.len() {
        rules[i]
    } else {
        normalized_rule(narrowed(rules[i], denials(rules, i + 1)))
    }
}

/// The first of `keys`, from `i` on, that cannot be read.
pub open spec fn first_unread(keys: Seq<Seq<char>>, i: int) -> Option<MediaErrorModel>
    decreases keys.len() - i,
{
    if i < 0 || i >= keys.len() {
        None
    } else {
        match query_read(keys[i]) {
            Ok(_) => first_unread(keys, i + 1),
            Err(e) => Some(e),
        }
    }
}

/// The conditions of media queries that can all be read.
pub open spec fn queries_read(keys: Seq<Seq<char>>) -> Seq<MediaModel> {
    Seq::new(keys.len(), |i: int| query_read(keys[i])->Ok_0)
}

/// The keys of sibling media queries, rewritten so that of two that hold the later
/// one decides.
pub open spec fn last_wins(keys: Seq<Seq<char>>) -> Result<Seq<Seq<char>>, MediaErrorModel> {
    match first_unread(keys, 0) {
        Some(e) => Err(e),
        None => {
            let rules = queries_read(keys);
            Ok(Seq::new(keys.len(), |i: int| query_text(giving_way(rules, i))))
        },
    }
}

/// What the rewriting of sibling keys gives, mathematically.
pub open spec fn rewritten(r: Result<Vec<String>, MediaQueryError>) -> Result<
    Seq<Seq<char>>,
    MediaErrorModel,
> {
    match r {
        Ok(v) => Ok(texts(v@)),
        Err(e) => Err(e.model()),
    }
}

fn narrow(rule: &MediaQueryRule, no: &Vec<MediaQueryRule>) -> (r: MediaQueryRule)
    ensures
        r.model() == MediaModel::And(seq![rule.model()] + media_models(no@)),
{
    let mut branch: Vec<MediaQueryRule> = Vec::new();
    branch.push(copy_rule(rule));
    let mut j: usize = 0;
    while j < no.len()
        invariant
            j <= no@.len(),
            branch@.len() == j + 1,
            branch@[0].model() == rule.model(),
            forall|k: int| 0 <= k < j ==> #[trigger] branch@[k + 1].model() == no@[k].model(),
        decreases no@.len() - j,
    {
        let ghost before = branch@;
        branch.push(copy_rule(&no[j]));
        proof {
            assert forall|k: int| 0 <= k < j + 1 implies #[trigger] branch@[k + 1].model()
                == no@[k].model() by {
                if k < j {
                    assert(branch@[k + 1] == before[k + 1]);
                }
            }
        }
        j += 1;
    }
    let r = MediaQueryRule::And(branch);
    proof {
        let want = seq![rule.model()] + media_models(no@);
        assert forall|k: int| 0 <= k < want.len() implies r.model()->And_0[k] == want[k] by {
            if k > 0 {
                assert(branch@[(k - 1) + 1].model() == no@[k - 1].model());
            }
        }
        assert(r.model()->And_0 =~= want);
    }
    r
}

fn narrow_choice(rule: &MediaQueryRule, no: &Vec<MediaQueryRule>) -> (r: MediaQueryRule)
    ensures
        r.model() == narrowed(rule.model(), media_models(no@)),
{
    let ghost ds = media_models(no@);
    match rule {
        MediaQueryRule::Or(branches) => {
            let mut all: Vec<MediaQueryRule> = Vec::new();
            let mut b: usize = 0;
            while b < branches.len()
                invariant
                    b <= branches@.len(),
                    all@.len() == b,
                    media_models(no@) == ds,
                    forall|j: int|
                        0 <= j < b ==> #[trigger] all@[j].model() == MediaModel::And(
                            seq![branches@[j].model()] + ds,
                        ),
                decreases branches@.len() - b,
            {
                all.push(narrow(&branches[b], no));
                b += 1;
            }
            let c = MediaQueryRule::Or(all);
            proof {
                let want = narrowed(rule.model(), ds)->Or_0;
                assert(rule.model()->Or_0 =~= media_models(branches@));
                assert forall|j: int| 0 <= j < all@.len() implies c.model()->Or_0[j] == want[j] by {
                    assert(c.model()->Or_0[j] == all@[j].model());
                }
                assert(c.model()->Or_0 =~= want);
            }
            c
        },
        other => narrow(other, no),
    }
}

fn deny_from(queries: &Vec<MediaQuery>, from: usize, rules: Ghost<Seq<MediaModel>>) -> (r: Vec<
    MediaQueryRule,
>)
    requires
        from <= queries@.len(),
        queries@.len() == rules@.len(),
        forall|j: int|
            0 <= j < queries@.len() ==> #[trigger] queries@[j].queries.model() == rules@[j],
    ensures
        media_models(r@) == denials(rules@, from as int),
{
    let mut no: Vec<MediaQueryRule> = Vec::new();
    let mut k: usize = from;
    while k < queries.len()
        invariant
            queries@.len() == rules@.len(),
            from <= k <= queries@.len(),
            no@.len() == k - from,
            forall|j: int|
                0 <= j < queries@.len() ==> #[trigger] queries@[j].queries.model() == rules@[j],
            forall|j: int|
                0 <= j < no@.len() ==> #[trigger] no@[j].model() == MediaModel::Not(
                    Box::new(rules@[from + j]),
                ),
        decreases queries@.len() - k,
    {
        assert(queries@[k as int].queries.model() == rules@[k as int]);
        let q = copy_rule(&queries[k].queries);
        let denial = MediaQueryRule::Not(Box::new(q));
        assert(denial.model() == MediaModel::Not(Box::new(rules@[k as int])));
        no.push(denial);
        k += 1;
    }
    proof {
        assert(media_models(no@) =~= denials(rules@, from as int));
    }
    no
}

/// Rewrites the keys of sibling media queries: each earlier one gives way to every
/// later one, and all are printed in their one form.
pub fn last_media_query_wins_transform(sibling_keys: &Vec<String>) -> (r: Result<
    Vec<String>,
    MediaQueryError,
>)
    ensures
        rewritten(r) == last_wins(texts(sibling_keys@)),
{
    let ghost keys = texts(sibling_keys@);
    let ghost rules = queries_read(keys);
    let n: usize = sibling_keys.len();
    let mut queries: Vec<MediaQuery> = Vec::new();
    let mut i: usize = 0;
    while i < n
        invariant
            keys == texts(sibling_keys@),
            rules == queries_read(keys),
            n == sibling_keys@.len(),
            i <= n,
            queries@.len() == i,
            first_unread(keys, 0) == first_unread(keys, i as int),
            forall|j: int| 0 <= j < i ==> #[trigger] queries@[j].queries.model() == rules[j],
        decreases n - i,
    {
        assert(keys[i as int] == sibling_keys@[i as int]@);
        match MediaQuery::parse(sibling_keys[i].as_str()) {
            Ok(q) => {
                assert(rules[i as int] == q.queries.model());
                queries.push(q);
            },
            Err(e) => {
                return Err(e);
            },
        }
        i += 1;
    }
    let mut out: Vec<String> = Vec::new();
    i = 0;
    while i < n
        invariant
            keys == texts(sibling_keys@),
            rules == queries_read(keys),
            n == sibling_keys@.len(),
            n == queries@.len(),
            n == rules.len(),
            i <= n,
            out@.len() == i,
            forall|j: int| 0 <= j < n ==> #[trigger] queries@[j].queries.model() == rules[j],
            forall|j: int| 0 <= j < i ==> #[trigger] out@[j]@ == query_text(giving_way(rules, j)),
        decreases n - i,
    {
        assert(queries@[i as int].queries.model() == rules[i as int]);
        if i + 1 == n {
            out.push(queries[i].to_text());
        } else {
            let no = deny_from(&queries, i + 1, Ghost(rules));
            let combined = narrow_choice(&queries[i].queries, &no);
            out.push(MediaQuery::new(combined).to_text());
        }
        i += 1;
    }
    proof {
        assert(texts(out@) =~= last_wins(keys)->Ok_0);
    }
    Ok(out)
}

/// However many media queries stand together, the rewriting gives as many keys, and
/// the last is the only one that keeps its condition as it was.
pub proof fn last_sibling_keeps_its_condition(keys: Seq<Seq<char>>)
    requires
        keys.len() > 0,
        last_wins(keys) is Ok,
    ensures
        last_wins(keys)->Ok_0.len() == keys.len(),
        query_read(keys.last()) is Ok,
        last_wins(keys)->Ok_0.last() == query_text(query_read(keys.last())->Ok_0),
{
    lemma_all_read(keys, 0, keys.len() - 1);
}

proof fn lemma_all_read(keys: Seq<Seq<char>>, i: int, j: int)
    requires
        0 <= i <= j < keys.len(),
        first_unread(keys, i) is None,
    ensures
        query_read(keys[j]) is Ok,
    decreases j - i,
{
    if i < j {
        lemma_all_read(keys, i + 1, j);
    }
}

/// Whether a condition holds where `truth` says which single features hold.
pub open spec fn holds(m: MediaModel, truth: spec_fn(MediaModel) -> bool) -> bool
    decreases m,
{
    match m {
        MediaModel::And(all) => forall|i: int|
            0 <= i < all.len() ==> holds(#[trigger] all[i], truth),
        MediaModel::Or(any) => exists|i: int|
            0 <= i < any.len() && holds(#[trigger] any[i], truth),
        MediaModel::Not(inner) => !holds(*inner, truth),
        feature => truth(feature),
    }
}

proof fn lemma_all_hold(all: Seq<MediaModel>, truth: spec_fn(MediaModel) -> bool)
    ensures
        holds(MediaModel::And(all), truth) == forall|i: int|
            0 <= i < all.len() ==> holds(#[trigger] all[i], truth),
{
    let m = MediaModel::And(all);
    if holds(m, truth) {
        assert forall|i: int| 0 <= i < all.len() implies holds(#[trigger] all[i], truth) by {
            assert(m->And_0[i] == all[i]);
        }
    }
    if forall|i: int| 0 <= i < all.len() ==> holds(#[trigger] all[i], truth) {
        assert forall|i: int| 0 <= i < m->And_0.len() implies holds(#[trigger] m->And_0[i], truth) by {
            assert(holds(all[i], truth));
        }
        assert(holds(m, truth));
    }
}

proof fn lemma_denied(
    rule: MediaModel,
    rules: Seq<MediaModel>,
    from: int,
    truth: spec_fn(MediaModel) -> bool,
)
    requires
        0 <= from <= rules.len(),
    ensures
        holds(MediaModel::And(seq![rule] + denials(rules, from)), truth) <==> holds(rule, truth)
            && forall|j: int| from <= j < rules.len() ==> !holds(#[trigger] rules[j], truth),
{
    let no = denials(rules, from);
    let all = seq![rule] + no;
    lemma_all_hold(all, truth);
    if holds(MediaModel::And(all), truth) {
        assert(holds(all[0], truth));
        assert forall|j: int| from <= j < rules.len() implies !holds(#[trigger] rules[j], truth) by {
            assert(all[j - from + 1] == no[j - from]);
            assert(holds(all[j - from + 1], truth));
        }
    }
    if holds(rule, truth) && forall|j: int|
        from <= j < rules.len() ==> !holds(#[trigger] rules[j], truth) {
        assert forall|i: int| 0 <= i < all.len() implies holds(#[trigger] all[i], truth) by {
            if i > 0 {
                assert(all[i] == no[i - 1]);
                assert(!holds(rules[from + i - 1], truth));
            }
        }
    }
}

/// A sibling that was narrowed holds exactly where it held and no later sibling does.
pub proof fn earlier_siblings_give_way(
    rules: Seq<MediaModel>,
    i: int,
    truth: spec_fn(MediaModel) -> bool,
)
    requires
        0 <= i < rules.len(),
    ensures
        holds(narrowed(rules[i], denials(rules, i + 1)), truth) <==> holds(rules[i], truth)
            && forall|j: int| i < j < rules.len() ==> !holds(#[trigger] rules[j], truth),
{
    let no = denials(rules, i + 1);
    match rules[i] {
        MediaModel::Or(branches) => {
            let out = narrowed(rules[i], no)->Or_0;
            assert forall|k: int| 0 <= k < branches.len() implies (holds(#[trigger] out[k], truth)
                <==> holds(branches[k], truth) && forall|j: int|
                i < j < rules.len() ==> !holds(#[trigger] rules[j], truth)) by {
                assert(out[k] == MediaModel::And(seq![branches[k]] + no));
                lemma_denied(branches[k], rules, i + 1, truth);
            }
            if holds(narrowed(rules[i], no), truth) {
                let k = choose|k: int| 0 <= k < out.len() && holds(#[trigger] out[k], truth);
                assert(holds(branches[k], truth));
            }
            if holds(rules[i], truth) && forall|j: int|
                i < j < rules.len() ==> !holds(#[trigger] rules[j], truth) {
                let k = choose|k: int|
                    0 <= k < branches.len() && holds(#[trigger] branches[k], truth);
                assert(holds(out[k], truth));
            }
        },
        other => {
            lemma_denied(other, rules, i + 1, truth);
        },
    }
}

} // verus!
