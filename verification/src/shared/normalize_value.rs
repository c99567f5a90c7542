//! The one spelling that each value is brought to before it is hashed.

use crate::number::{float_prefix, parse_float_prefix, JsNumber};
use crate::shared::css_value::{
    dimension, models, nodes_text, parse, parse_nodes, steady_walks_end, stringify, swept, unit,
    walk, Kind, Node, NodeModel, NodeVisitor,
};
use crate::shared::dashify::{dashify, dashify_text};
use crate::text::{
    at_pos, chars_of, concat2, has_prefix, piece, stands_at, starts_with, str_eq, string_of,
};
use vstd::prelude::*;

verus! {

/// Why a value cannot be brought to its spelling.
#[derive(Debug, Clone, Copy, PartialEq, Eq, Structural)]
pub enum CssValueError {
    UnclosedFunction,
    UnclosedString,
    EmptyValue,
}

impl CssValueError {
    /// The message of the error.
    pub fn to_text(&self) -> (r: String)
        ensures
            r@ == match *self {
                CssValueError::UnclosedFunction => "Rule contains an unclosed function"@,
                CssValueError::UnclosedString => "Rule contains an unclosed string"@,
                CssValueError::EmptyValue => "Cannot normalize an empty value"@,
            },
    {
        match self {
            CssValueError::UnclosedFunction => "Rule contains an unclosed function".to_owned(),
            CssValueError::UnclosedString => "Rule contains an unclosed string".to_owned(),
            CssValueError::EmptyValue => "Cannot normalize an empty value".to_owned(),
        }
    }
}

/// Whether the node, or one under it, is of the kind and lacks its closing mark.
pub open spec fn unclosed_in(n: NodeModel, kind: Kind) -> bool
    decreases n,
{
    ||| n.kind == kind && n.unclosed
    ||| n.kind == Kind::Func && exists|i: int|
        0 <= i < n.nodes.len() && unclosed_in(#[trigger] n.nodes[i], kind)
}

/// Whether one of the nodes, or one under them, is of the kind and lacks its
/// closing mark.
pub open spec fn has_unclosed(nodes: Seq<NodeModel>, kind: Kind) -> bool {
    exists|i: int| 0 <= i < nodes.len() && unclosed_in(#[trigger] nodes[i], kind)
}

fn detect_unclosed(nodes: &Vec<Node>, kind: Kind) -> (r: bool)
    ensures
        r == has_unclosed(models(nodes@), kind),
    decreases nodes,
{
    let ghost all = models(nodes@);
    let mut i: usize = 0;
    while i < nodes.len()
        invariant
            all == models(nodes@),
            i <= nodes@.len(),
            forall|j: int| 0 <= j < i ==> !unclosed_in(#[trigger] all[j], kind),
        decreases nodes@.len() - i,
    {
        let node = &nodes[i];
        proof {
            assert(all[i as int] == node.model());
            assert(node.model().nodes =~= models(node.nodes@));
            assert(decreases_to!(*nodes => nodes@[i as int]));
        }
        if node.kind == kind && node.unclosed {
            return true;
        }
        if node.kind == Kind::Func {
            if detect_unclosed(&node.nodes, kind) {
                return true;
            }
        }
        i += 1;
    }
    false
}

/// The node with its white space brought to one form.
pub open spec fn spaced(n: NodeModel) -> NodeModel
    decreases n,
{
    match n.kind {
        Kind::Space => NodeModel { value: " "@, ..n },
        Kind::Div => if n.value == ","@ {
            NodeModel { before: Seq::empty(), after: Seq::empty(), ..n }
        } else {
            NodeModel { before: " "@, after: " "@, ..n }
        },
        Kind::Func => NodeModel {
            before: Seq::empty(),
            after: Seq::empty(),
            nodes: Seq::new(
                n.nodes.len(),
                |i: int|
                    if 0 <= i < n.nodes.len() {
                        spaced(n.nodes[i])
                    } else {
                        arbitrary()
                    },
            ),
            ..n
        },
        _ => n,
    }
}

/// The nodes with their white space brought to one form.
pub open spec fn all_spaced(nodes: Seq<NodeModel>) -> Seq<NodeModel> {
    Seq::new(nodes.len(), |i: int| spaced(nodes[i]))
}

/// The nodes without white space at either end, if any are left.
pub open spec fn trimmed(nodes: Seq<NodeModel>) -> Option<Seq<NodeModel>> {
    if nodes.len() == 0 {
        None
    } else {
        let a = if nodes[0].kind == Kind::Space {
            nodes.drop_first()
        } else {
            nodes
        };
        if a.len() == 0 {
            None
        } else if a.last().kind == Kind::Space {
            Some(a.drop_last())
        } else {
            Some(a)
        }
    }
}

/// Whether `!important` stands at `i` with white space before it.
pub open spec fn important_at(nodes: Seq<NodeModel>, i: int) -> bool {
    0 < i < nodes.len() && nodes[i].kind == Kind::Word && nodes[i].value == "!important"@ && nodes[i
        - 1].kind == Kind::Space
}

/// The nodes with their white space brought to one form. There is no such form of
/// nothing, nor where `!important` stands behind white space before the end; at
/// the end the white space before it goes.
pub open spec fn whitespace_normalized(nodes: Seq<NodeModel>) -> Option<Seq<NodeModel>> {
    match trimmed(nodes) {
        None => None,
        Some(a) => if exists|i: int| i < a.len() - 1 && #[trigger] important_at(a, i) {
            None
        } else if important_at(a, a.len() - 1) {
            Some(all_spaced(a).remove(a.len() - 2))
        } else {
            Some(all_spaced(a))
        },
    }
}

fn space_node(node: &mut Node)
    ensures
        final(node).model() == spaced(old(node).model()),
    decreases *old(node),
{
    let ghost before = node.model();
    match node.kind {
        Kind::Space => {
            node.value = " ".to_owned();
            proof {
                assert(node.model().nodes =~= before.nodes);
            }
        },
        Kind::Div => {
            if str_eq(node.value.as_str(), ",") {
                node.before = String::new();
                node.after = String::new();
            } else {
                node.before = " ".to_owned();
                node.after = " ".to_owned();
            }
            proof {
                assert(node.model().nodes =~= before.nodes);
            }
        },
        Kind::Func => {
            node.before = String::new();
            node.after = String::new();
            proof {
                assert(decreases_to!(*old(node) => old(node).nodes));
                assert(decreases_to!(old(node).nodes => old(node).nodes@));
            }
            space_nodes(&mut node.nodes);
            proof {
                assert(before.nodes =~= models(old(node).nodes@));
                assert(node.model().nodes =~= models(node.nodes@));
                assert(node.model().nodes =~= spaced(before).nodes);
            }
        },
        _ => {},
    }
}

fn space_nodes(nodes: &mut Vec<Node>)
    ensures
        models(final(nodes)@) == all_spaced(models(old(nodes)@)),
    decreases old(nodes)@,
{
    let ghost orig = nodes@;
    let mut i: usize = 0;
    while i < nodes.len()
        invariant
            i <= nodes@.len(),
            nodes@.len() == orig.len(),
            orig == old(nodes)@,
            forall|j: int| i <= j < nodes@.len() ==> nodes@[j] == orig[j],
            forall|j: int| 0 <= j < i ==> #[trigger] nodes@[j].model() == spaced(orig[j].model()),
        decreases nodes@.len() - i,
    {
        let mut node = nodes.remove(i);
        proof {
            assert(node == orig[i as int]);
            assert(decreases_to!(orig => orig[i as int]));
        }
        space_node(&mut node);
        nodes.insert(i, node);
        i += 1;
    }
    proof {
        assert(models(nodes@) =~= all_spaced(models(orig)));
    }
}

fn is_important_at(nodes: &Vec<Node>, i: usize) -> (r: bool)
    ensures
        r == important_at(models(nodes@), i as int),
{
    if i == 0 || i >= nodes.len() {
        return false;
    }
    nodes[i].kind == Kind::Word && str_eq(nodes[i].value.as_str(), "!important") && nodes[i - 1].kind
        == Kind::Space
}

fn normalize_whitespace(nodes: &mut Vec<Node>) -> (r: bool)
    ensures
        r == whitespace_normalized(models(old(nodes)@)) is Some,
        r ==> models(final(nodes)@) == whitespace_normalized(models(old(nodes)@))->0,
{
    let ghost orig = models(nodes@);
    if nodes.len() == 0 {
        return false;
    }
    if nodes[0].kind == Kind::Space {
        nodes.remove(0);
        proof {
            assert(models(nodes@) =~= orig.drop_first());
        }
    }
    let ghost head = models(nodes@);
    if nodes.len() == 0 {
        return false;
    }
    if nodes[nodes.len() - 1].kind == Kind::Space {
        nodes.pop();
        proof {
            assert(models(nodes@) =~= head.drop_last());
        }
    }
    let ghost a = models(nodes@);
    assert(trimmed(orig) == Some(a));
    let max: usize = nodes.len();
    let mut i: usize = 0;
    while i < max && i < max - 1
        invariant
            max == nodes@.len(),
            trimmed(models(old(nodes)@)) == Some(a),
            a == models(nodes@),
            max > 0 ==> i <= max - 1,
            forall|j: int| j < i ==> !#[trigger] important_at(a, j),
        decreases max - i,
    {
        if is_important_at(nodes, i) {
            return false;
        }
        i += 1;
    }
    let ends = max > 0 && is_important_at(nodes, max - 1);
    space_nodes(nodes);
    if ends {
        let ghost all = models(nodes@);
        nodes.remove(max - 2);
        proof {
            assert(models(nodes@) =~= all.remove(max - 2));
        }
    }
    true
}

/// The bits of ten.
pub const TEN: u64 = 0x4024_0000_0000_0000;

/// The bits of one.
pub const ONE: u64 = 0x3ff0_0000_0000_0000;

/// The bits of zero.
pub const ZERO: u64 = 0;

/// Bits that hold no number.
pub const NOT_A_NUMBER: u64 = 0x7ff8_0000_0000_0000;

/// Ten milliseconds and more become seconds.
pub struct Timings;

impl NodeVisitor for Timings {
    open spec fn seen(self, n: NodeModel) -> Self {
        self
    }

    open spec fn edited(self, n: NodeModel) -> NodeModel {
        match (float_prefix(n.value), dimension(n.value)) {
            (Some(x), Some(d)) => if n.kind == Kind::Word && d.1 == "ms"@ && !x.below(JsNumber { bits: TEN }) {
                NodeModel { value: x.over_spec(1000).text_spec() + "s"@, ..n }
            } else {
                n
            },
            _ => n,
        }
    }

    fn visit(&mut self, node: &mut Node) {
        let ghost before = node.model();
        if node.kind != Kind::Word {
            return;
        }
        let value = node.value.clone();
        match (parse_float_prefix(value.as_str()), unit(value.as_str())) {
            (Some(x), Some(d)) => {
                if str_eq(d.unit, "ms") && !x.less(JsNumber { bits: TEN }) {
                    node.value = concat2(x.over(1000).text().as_str(), "s");
                    proof {
                        assert(node.model().nodes =~= before.nodes);
                    }
                }
            },
            _ => {},
        }
    }
}

/// Zeros lose their unit, but for those of angles, times, fractions and
/// percentages, and those inside the function that ends at `end_function`.
pub struct ZeroDimensions {
    pub end_function: usize,
}

/// The units of angles.
pub const ANGLES: [&'static str; 4] = ["deg", "grad", "turn", "rad"];

impl ZeroDimensions {
    /// The end of the protected function, seen from `n`.
    pub open spec fn end_at(self, n: NodeModel) -> int {
        let end = if n.kind == Kind::Func && self.end_function == 0 {
            n.source_end_index
        } else {
            self.end_function as int
        };
        if end > 0 && n.source_index > end {
            0
        } else {
            end
        }
    }
}

impl NodeVisitor for ZeroDimensions {
    open spec fn seen(self, n: NodeModel) -> Self {
        ZeroDimensions { end_function: self.end_at(n) as usize }
    }

    open spec fn edited(self, n: NodeModel) -> NodeModel {
        match dimension(n.value) {
            Some(d) => if n.kind == Kind::Word && d.0 == "0"@ {
                NodeModel {
                    value: if crate::text::listed(d.1, ANGLES@) {
                        "0deg"@
                    } else if d.1 == "ms"@ || d.1 == "s"@ {
                        "0s"@
                    } else if d.1 == "fr"@ {
                        "0fr"@
                    } else if d.1 == "%"@ {
                        "0%"@
                    } else if self.end_at(n) == 0 {
                        "0"@
                    } else {
                        n.value
                    },
                    ..n
                }
            } else {
                n
            },
            None => n,
        }
    }

    fn visit(&mut self, node: &mut Node) {
        let ghost before = node.model();
        if node.kind == Kind::Func && self.end_function == 0 {
            self.end_function = node.source_end_index;
        }
        if self.end_function > 0 && node.source_index > self.end_function {
            self.end_function = 0;
        }
        if node.kind != Kind::Word {
            return;
        }
        let value = node.value.clone();
        match unit(value.as_str()) {
            Some(d) => {
                if !str_eq(d.number, "0") {
                    return;
                }
                if crate::text::is_listed(d.unit, &ANGLES) {
                    node.value = "0deg".to_owned();
                } else if str_eq(d.unit, "ms") || str_eq(d.unit, "s") {
                    node.value = "0s".to_owned();
                } else if str_eq(d.unit, "fr") {
                    node.value = "0fr".to_owned();
                } else if str_eq(d.unit, "%") {
                    node.value = "0%".to_owned();
                } else if self.end_function == 0 {
                    node.value = "0".to_owned();
                }
                proof {
                    assert(node.model().nodes =~= before.nodes);
                }
            },
            None => {},
        }
    }
}

/// The first position at or after `from` where `p` stands, or the length of `s`.
pub open spec fn first_at(s: Seq<char>, p: Seq<char>, from: int) -> int
    decreases s.len() - from,
{
    if from >= s.len() {
        s.len() as int
    } else if at_pos(s, p, from) {
        from
    } else {
        first_at(s, p, from + 1)
    }
}

/// The text with its first `0.` as `.`.
pub open spec fn without_leading_zero(s: Seq<char>) -> Seq<char> {
    let i = first_at(s, "0."@, 0);
    if i < s.len() {
        s.take(i) + "."@ + s.skip(i + 2)
    } else {
        s
    }
}

fn drop_leading_zero(text: &str) -> (r: String)
    ensures
        r@ == without_leading_zero(text@),
{
    let s = chars_of(text);
    let p = chars_of("0.");
    let mut i: usize = 0;
    proof {
        reveal_strlit("0.");
    }
    while i < s.len()
        invariant
            s@ == text@,
            p@ == "0."@,
            p@.len() == 2,
            i <= s@.len(),
            first_at(s@, p@, 0) == first_at(s@, p@, i as int),
        decreases s@.len() - i,
    {
        if stands_at(&s, &p, i) {
            let mut out = piece(&s, 0, i);
            out.append(".");
            out.append(piece(&s, i + 2, s.len()).as_str());
            proof {
                assert(s@.subrange(0, i as int) =~= s@.take(i as int));
                assert(s@.subrange(i as int + 2, s@.len() as int) =~= s@.skip(i as int + 2));
            }
            return out;
        }
        i += 1;
    }
    string_of(&s)
}

/// The unit of a text, where it has one.
pub open spec fn unit_text(s: Seq<char>) -> Seq<char> {
    match dimension(s) {
        Some(d) => d.1,
        None => Seq::empty(),
    }
}

/// Numbers from zero up to one lose the zero before the point.
pub struct LeadingZero;

impl NodeVisitor for LeadingZero {
    open spec fn seen(self, n: NodeModel) -> Self {
        self
    }

    open spec fn edited(self, n: NodeModel) -> NodeModel {
        match float_prefix(n.value) {
            Some(x) => if n.kind == Kind::Word && !x.nan() && !x.below(JsNumber { bits: ZERO }) && x.below(JsNumber { bits: ONE }) {
                NodeModel {
                    value: without_leading_zero(x.text_spec()) + unit_text(n.value),
                    ..n
                }
            } else {
                n
            },
            None => n,
        }
    }

    fn visit(&mut self, node: &mut Node) {
        let ghost before = node.model();
        if node.kind != Kind::Word {
            return;
        }
        let value = node.value.clone();
        match parse_float_prefix(value.as_str()) {
            Some(x) => {
                if !x.is_nan() && !x.less(JsNumber { bits: ZERO }) && x.less(JsNumber { bits: ONE }) {
                    let own = match unit(value.as_str()) {
                        Some(d) => d.unit.to_owned(),
                        None => String::new(),
                    };
                    let number = drop_leading_zero(x.text().as_str());
                    node.value = concat2(number.as_str(), own.as_str());
                    proof {
                        assert(node.model().nodes =~= before.nodes);
                    }
                }
            },
            None => {},
        }
    }
}

/// Empty strings get double quotes.
pub struct Quotes;

impl NodeVisitor for Quotes {
    open spec fn seen(self, n: NodeModel) -> Self {
        self
    }

    open spec fn edited(self, n: NodeModel) -> NodeModel {
        if n.kind == Kind::Str && n.value.len() == 0 {
            NodeModel { quote: 34, ..n }
        } else {
            n
        }
    }

    fn visit(&mut self, node: &mut Node) {
        let ghost before = node.model();
        if node.kind == Kind::Str && node.value.as_str().is_empty() {
            node.quote = 34;
            proof {
                assert(node.model().nodes =~= before.nodes);
            }
        }
    }
}

/// Pixels become sixteenths of the root font size.
pub struct FontSize;

impl NodeVisitor for FontSize {
    open spec fn seen(self, n: NodeModel) -> Self {
        self
    }

    open spec fn edited(self, n: NodeModel) -> NodeModel {
        match dimension(n.value) {
            Some(d) => if n.kind == Kind::Word && d.1 == "px"@ {
                let x = match float_prefix(d.0) {
                    Some(x) => x,
                    None => JsNumber { bits: NOT_A_NUMBER },
                };
                NodeModel { value: x.over_spec(16).text_spec() + "rem"@, ..n }
            } else {
                n
            },
            None => n,
        }
    }

    fn visit(&mut self, node: &mut Node) {
        let ghost before = node.model();
        if node.kind != Kind::Word {
            return;
        }
        let value = node.value.clone();
        match unit(value.as_str()) {
            Some(d) => {
                if str_eq(d.unit, "px") {
                    let x = match parse_float_prefix(d.number) {
                        Some(x) => x,
                        None => JsNumber { bits: NOT_A_NUMBER },
                    };
                    node.value = concat2(x.over(16).text().as_str(), "rem");
                    proof {
                        assert(node.model().nodes =~= before.nodes);
                    }
                }
            },
            None => {},
        }
    }
}

/// A word in camel case as a word with dashes.
pub open spec fn dashed_word(n: NodeModel) -> NodeModel {
    if n.kind == Kind::Word && !has_prefix(n.value, "--"@) {
        NodeModel { value: dashify_text(n.value), ..n }
    } else {
        n
    }
}

/// Whether the value of a property holds names of properties.
pub open spec fn holds_names(key: Seq<char>) -> bool {
    key == "transitionProperty"@ || key == "willChange"@
}

/// The nodes after words in camel case have become words with dashes.
pub open spec fn names_dashed(nodes: Seq<NodeModel>, key: Seq<char>) -> Seq<NodeModel> {
    if holds_names(key) {
        Seq::new(nodes.len(), |i: int| dashed_word(nodes[i]))
    } else {
        nodes
    }
}

fn convert_camel_case_values(nodes: &mut Vec<Node>, key: &str)
    ensures
        models(final(nodes)@) == names_dashed(models(old(nodes)@), key@),
{
    if !str_eq(key, "transitionProperty") && !str_eq(key, "willChange") {
        return;
    }
    let ghost orig = nodes@;
    let mut i: usize = 0;
    while i < nodes.len()
        invariant
            i <= nodes@.len(),
            nodes@.len() == orig.len(),
            forall|j: int| i <= j < nodes@.len() ==> nodes@[j] == orig[j],
            forall|j: int|
                0 <= j < i ==> #[trigger] nodes@[j].model() == dashed_word(orig[j].model()),
        decreases nodes@.len() - i,
    {
        let mut node = nodes.remove(i);
        let ghost before = node.model();
        if node.kind == Kind::Word && !starts_with(node.value.as_str(), "--") {
            node.value = dashify(node.value.as_str());
        }
        proof {
            assert(node.model().nodes =~= before.nodes);
            assert(node.model() == dashed_word(before));
        }
        nodes.insert(i, node);
        i += 1;
    }
    proof {
        assert(models(nodes@) =~= names_dashed(models(orig), key@));
    }
}

/// The nodes after every rule has been applied to them.
pub open spec fn normalized_nodes(nodes: Seq<NodeModel>, key: Seq<char>, rem: bool) -> Seq<NodeModel> {
    let a = swept(Timings, nodes).1;
    let b = if has_prefix(key, "--"@) {
        a
    } else {
        swept(ZeroDimensions { end_function: 0 }, a).1
    };
    let c = swept(LeadingZero, b).1;
    let d = swept(Quotes, c).1;
    let e = names_dashed(d, key);
    if rem && key == "fontSize"@ {
        swept(FontSize, e).1
    } else {
        e
    }
}

/// The one spelling of a value, or why there is none.
pub open spec fn normalized(value: Seq<char>, key: Seq<char>, rem: bool) -> Result<
    Seq<char>,
    CssValueError,
> {
    let nodes = parse_nodes(value);
    if has_unclosed(nodes, Kind::Func) {
        Err(CssValueError::UnclosedFunction)
    } else if has_unclosed(nodes, Kind::Str) {
        Err(CssValueError::UnclosedString)
    } else {
        match whitespace_normalized(nodes) {
            None => Err(CssValueError::EmptyValue),
            Some(a) => Ok(nodes_text(normalized_nodes(a, key, rem))),
        }
    }
}

/// The view of a text or an error.
pub open spec fn result_text(r: Result<String, CssValueError>) -> Result<Seq<char>, CssValueError> {
    match r {
        Ok(s) => Ok(s@),
        Err(e) => Err(e),
    }
}

/// Brings a value to its one spelling.
pub fn normalize_value(value: &str, key: &str, font_size_px_to_rem: bool) -> (r: Result<
    String,
    CssValueError,
>)
    ensures
        result_text(r) == normalized(value@, key@, font_size_px_to_rem),
{
    let mut nodes = parse(value);
    if detect_unclosed(&nodes, Kind::Func) {
        return Err(CssValueError::UnclosedFunction);
    }
    if detect_unclosed(&nodes, Kind::Str) {
        return Err(CssValueError::UnclosedString);
    }
    if !normalize_whitespace(&mut nodes) {
        return Err(CssValueError::EmptyValue);
    }
    proof {
        steady_walks_end(Timings, models(nodes@));
    }
    walk(&mut nodes, &mut Timings);
    if !starts_with(key, "--") {
        proof {
            steady_walks_end(ZeroDimensions { end_function: 0 }, models(nodes@));
        }
        walk(&mut nodes, &mut ZeroDimensions { end_function: 0 });
    }
    proof {
        steady_walks_end(LeadingZero, models(nodes@));
    }
    walk(&mut nodes, &mut LeadingZero);
    proof {
        steady_walks_end(Quotes, models(nodes@));
    }
    walk(&mut nodes, &mut Quotes);
    convert_camel_case_values(&mut nodes, key);
    if font_size_px_to_rem && str_eq(key, "fontSize") {
        proof {
            steady_walks_end(FontSize, models(nodes@));
        }
        walk(&mut nodes, &mut FontSize);
    }
    Ok(stringify(&nodes))
}

/// Reads the number at the start of a text as `parseFloat` does.
pub fn js_parse_float(s: &str) -> (r: Option<JsNumber>)
    ensures
        r == float_prefix(s@),
{
    parse_float_prefix(s)
}

} // verus!
