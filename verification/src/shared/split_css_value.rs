//! A value cut into the parts that a shorthand hands to its longhands.

use crate::shared::css_value::{models, parse, parse_nodes, Kind, Node, NodeModel};
use crate::shared::flatten::{opt_scalar, opt_scalar_ref, scalar_models, ScalarModel, StyleScalar};
use crate::text::{
    ascii_lower, ascii_lower_char, chars_of, concat2, texts, trim_unicode, trimmed_unicode,
};
use vstd::prelude::*;

verus! {

/// A node printed without padding, and closed where its mark was missing.
pub open spec fn printed(n: NodeModel) -> Seq<char>
    decreases n, 0int,
{
    match n.kind {
        Kind::Str => (seq![n.quote as char] + n.value).push(n.quote as char),
        Kind::Func => (n.value.push('(') + printed_upto(n.nodes, n.nodes.len() as int)).push(')'),
        _ => n.value,
    }
}

/// The first `k` nodes printed, one behind the other.
pub open spec fn printed_upto(nodes: Seq<NodeModel>, k: int) -> Seq<char>
    decreases nodes, k,
{
    if k <= 0 || k > nodes.len() {
        Seq::empty()
    } else {
        printed_upto(nodes, k - 1) + printed(nodes[k - 1])
    }
}

fn print_node(node: &Node) -> (r: String)
    ensures
        r@ == printed(node.model()),
    decreases node,
{
    match node.kind {
        Kind::Str => {
            let mut out = String::new();
            out.push(node.quote as char);
            out.append(node.value.as_str());
            out.push(node.quote as char);
            proof {
                assert(out@ =~= printed(node.model()));
            }
            out
        },
        Kind::Func => {
            let mut out = node.value.clone();
            out.push('(');
            let ghost head = out@;
            let ghost kids = node.model().nodes;
            let mut i: usize = 0;
            proof {
                assert(head + printed_upto(kids, 0) =~= head);
            }
            while i < node.nodes.len()
                invariant
                    i <= node.nodes@.len(),
                    kids == node.model().nodes,
                    out@ == head + printed_upto(kids, i as int),
                decreases node.nodes@.len() - i,
            {
                let t = print_node(&node.nodes[i]);
                out.append(t.as_str());
                i += 1;
                proof {
                    assert(out@ =~= head + printed_upto(kids, i as int));
                }
            }
            out.push(')');
            out
        },
        _ => node.value.clone(),
    }
}

/// The printed parts of the first `k` nodes, without spaces and dividers.
pub open spec fn parts_upto(nodes: Seq<NodeModel>, k: int) -> Seq<Seq<char>>
    decreases k,
{
    if k <= 0 {
        Seq::empty()
    } else if nodes[k - 1].kind == Kind::Space || nodes[k - 1].kind == Kind::Div {
        parts_upto(nodes, k - 1)
    } else {
        parts_upto(nodes, k - 1).push(printed(nodes[k - 1]))
    }
}

/// Whether a part says that the value is important.
pub open spec fn is_important(part: Seq<char>) -> bool {
    ascii_lower(part) == "!important"@
}

/// The parts of a text: an `!important` behind them goes to each of them.
pub open spec fn split_text(raw: Seq<char>) -> Seq<Seq<char>> {
    let nodes = parse_nodes(trimmed_unicode(raw));
    let parts = parts_upto(nodes, nodes.len() as int);
    if parts.len() > 1 && is_important(parts.last()) {
        Seq::new((parts.len() - 1) as nat, |i: int| parts[i] + " !important"@)
    } else {
        parts
    }
}

/// The parts of a value: only a text has more than itself.
pub open spec fn split_scalar(value: Option<ScalarModel>) -> Seq<Option<ScalarModel>> {
    match value {
        Some(ScalarModel::Str(raw)) => {
            let parts = split_text(raw);
            Seq::new(parts.len(), |i: int| Some(ScalarModel::Str(parts[i])))
        },
        _ => seq![value],
    }
}

fn says_important(part: &str) -> (r: bool)
    ensures
        r == is_important(part@),
{
    let s = chars_of(part);
    let want = chars_of("!important");
    if s.len() != want.len() {
        proof {
            assert(ascii_lower(part@).len() != "!important"@.len());
        }
        return false;
    }
    let mut i: usize = 0;
    while i < s.len()
        invariant
            s@ == part@,
            want@ == "!important"@,
            s@.len() == want@.len(),
            i <= s@.len(),
            forall|j: int| 0 <= j < i ==> ascii_lower_char(#[trigger] s@[j]) == want@[j],
        decreases s@.len() - i,
    {
        let c = s[i];
        let low = if 'A' <= c && c <= 'Z' {
            (c as u8 + 32) as char
        } else {
            c
        };
        if low != want[i] {
            proof {
                assert(ascii_lower(part@)[i as int] != want@[i as int]);
            }
            return false;
        }
        i += 1;
    }
    proof {
        assert(ascii_lower(part@) =~= "!important"@);
    }
    true
}

/// Cuts a value into its parts.
pub fn split_value(value: Option<&StyleScalar>) -> (r: Vec<Option<StyleScalar>>)
    ensures
        scalar_models(r@) == split_scalar(opt_scalar_ref(value)),
{
    let raw = match value {
        Some(StyleScalar::Str(raw)) => raw,
        Some(other) => {
            let mut out: Vec<Option<StyleScalar>> = Vec::new();
            out.push(Some(other.clone()));
            proof {
                assert(scalar_models(out@) =~= seq![opt_scalar_ref(value)]);
            }
            return out;
        },
        None => {
            let mut out: Vec<Option<StyleScalar>> = Vec::new();
            out.push(None);
            proof {
                assert(scalar_models(out@) =~= seq![opt_scalar_ref(value)]);
            }
            return out;
        },
    };
    let nodes = parse(trim_unicode(raw.as_str()).as_str());
    let ghost all = models(nodes@);
    let mut parts: Vec<String> = Vec::new();
    let mut i: usize = 0;
    proof {
        assert(texts(parts@) =~= Seq::<Seq<char>>::empty());
    }
    while i < nodes.len()
        invariant
            all == models(nodes@),
            i <= nodes@.len(),
            texts(parts@) == parts_upto(all, i as int),
        decreases nodes@.len() - i,
    {
        let ghost before = texts(parts@);
        assert(all[i as int] == nodes@[i as int].model());
        if nodes[i].kind != Kind::Space && nodes[i].kind != Kind::Div {
            parts.push(print_node(&nodes[i]));
            proof {
                assert(texts(parts@) =~= before.push(printed(all[i as int])));
            }
        }
        i += 1;
    }
    let ghost found = texts(parts@);
    let important = if parts.len() > 1 {
        assert(found.last() == parts@.last()@);
        says_important(parts[parts.len() - 1].as_str())
    } else {
        false
    };
    let count: usize = if important {
        parts.len() - 1
    } else {
        parts.len()
    };
    let mut out: Vec<Option<StyleScalar>> = Vec::new();
    let mut k: usize = 0;
    while k < count
        invariant
            k <= count <= parts@.len(),
            found == texts(parts@),
            out@.len() == k,
            forall|j: int|
                0 <= j < k ==> opt_scalar(#[trigger] out@[j]) == Some(
                    ScalarModel::Str(
                        if important {
                            found[j] + " !important"@
                        } else {
                            found[j]
                        },
                    ),
                ),
        decreases count - k,
    {
        assert(found[k as int] == parts@[k as int]@);
        let t = if important {
            concat2(parts[k].as_str(), " !important")
        } else {
            parts[k].clone()
        };
        out.push(Some(StyleScalar::Str(t)));
        k += 1;
    }
    proof {
        assert(scalar_models(out@) =~= split_scalar(opt_scalar_ref(value)));
    }
    out
}

} // verus!
