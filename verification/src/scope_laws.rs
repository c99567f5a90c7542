//! What the walk over the syntax of a module never undoes.

use crate::scope_builder::{entered_block, type_parameter_scope, var_target};
use crate::scope_walk::{
    ambient_flags, declaring, declaring_names, declaring_own, declaring_vars, flagged,
    function_flags, function_scope, in_node, in_scope, instantiates, named_decl, named_flags,
    new_symbol, noted, out_of_node, out_of_scope, purpose, resolved_since, used, variable_flags,
    walked, walked_upto, with_module, Syntax, Visited, NAMESPACE_SCOPE, STRICT_SCOPE,
};
use crate::scopes::{
    DeclModel, ModuleData, ReferenceModel, SymbolModel, BLOCK_SCOPED_VARIABLE, CATCH_VARIABLE,
    CLASS, FUNCTION_SCOPED_VARIABLE, IMPORT, MEMBER_WRITE_TARGET, NAMESPACE, NAMESPACE_MODULE,
    READ, READ_WRITE, TYPE, TYPE_PARAMETER, VALUE_AS_TYPE, VALUE_MODULE, WRITE,
};
use crate::shared::dynamic::Span;
use crate::text::texts;
use vstd::prelude::*;

verus! {

/// Whether the uses that wait are distinct and refer to nothing yet.
pub open spec fn waiting(refs: Seq<ReferenceModel>, pending: Seq<int>) -> bool {
    &&& forall|i: int|
        0 <= i < pending.len() ==> 0 <= #[trigger] pending[i] < refs.len()
            && refs[pending[i]].symbol is None
    &&& forall|i: int, j: int|
        0 <= i < j < pending.len() ==> #[trigger] pending[i] != #[trigger] pending[j]
}

/// Whether the uses that wait in a state are distinct and refer to nothing yet.
pub open spec fn in_wait(w: Visited) -> bool {
    waiting(w.walk.module.refs, w.walk.pending)
}

/// Whether uses that referred to a symbol are as they were.
pub open spec fn settled(a: Seq<ReferenceModel>, b: Seq<ReferenceModel>) -> bool {
    &&& a.len() <= b.len()
    &&& forall|i: int| 0 <= i < a.len() && (#[trigger] a[i]).symbol is Some ==> b[i] == a[i]
}

/// Whether a later state keeps what was found, and its waiting uses are in order.
pub open spec fn keeps(a: Visited, b: Visited) -> bool {
    in_wait(b) && settled(a.walk.module.refs, b.walk.module.refs)
}

proof fn lemma_then(a: Visited, b: Visited, c: Visited)
    requires
        keeps(a, b),
        keeps(b, c),
    ensures
        keeps(a, c),
{
    let x = a.walk.module.refs;
    let y = b.walk.module.refs;
    let z = c.walk.module.refs;
    assert forall|i: int| 0 <= i < x.len() && (#[trigger] x[i]).symbol is Some implies z[i]
        == x[i] by {
        assert(y[i] == x[i]);
    }
}

proof fn lemma_resolving(
    m: ModuleData,
    pending: Seq<int>,
    i: int,
    left: Seq<int>,
)
    requires
        0 <= i <= pending.len(),
        waiting(m.refs, left + pending.skip(i)),
    ensures
        ({
            let (n, rest) = m.resolved_from(pending, i, left);
            waiting(n.refs, rest) && settled(m.refs, n.refs) && rest.len() >= left.len()
        }),
    decreases pending.len() - i,
{
    let all = left + pending.skip(i);
    if i < pending.len() {
        let p = pending[i];
        assert(all[left.len() as int] == p);
        match m.target_of(p) {
            Some(s) => {
                let n = m.referring(p, s);
                let now = left + pending.skip(i + 1);
                assert forall|j: int| 0 <= j < now.len() implies 0 <= #[trigger] now[j] < n.refs.len()
                    && n.refs[now[j]].symbol is None by {
                    let k = if j < left.len() {
                        j
                    } else {
                        j + 1
                    };
                    assert(all[k] == now[j]);
                    if k < left.len() {
                        assert(all[k] != all[left.len() as int]);
                    } else {
                        assert(all[left.len() as int] != all[k]);
                    }
                }
                assert forall|a: int, b: int| 0 <= a < b < now.len() implies #[trigger] now[a]
                    != #[trigger] now[b] by {
                    let x = if a < left.len() {
                        a
                    } else {
                        a + 1
                    };
                    let y = if b < left.len() {
                        b
                    } else {
                        b + 1
                    };
                    assert(all[x] == now[a] && all[y] == now[b]);
                }
                lemma_resolving(n, pending, i + 1, left);
                let last = n.resolved_from(pending, i + 1, left).0.refs;
                assert forall|j: int|
                    0 <= j < m.refs.len() && (#[trigger] m.refs[j]).symbol is Some implies last[j]
                    == m.refs[j] by {
                    assert(j != p);
                    assert(n.refs[j] == m.refs[j]);
                }
            },
            None => {
                assert(left.push(p) + pending.skip(i + 1) =~= all);
                lemma_resolving(m, pending, i + 1, left.push(p));
            },
        }
    } else {
        assert(all =~= left);
    }
}

proof fn lemma_resolved(w: Visited, checkpoint: int)
    requires
        in_wait(w),
        0 <= checkpoint <= w.walk.pending.len(),
    ensures
        keeps(w, resolved_since(w, checkpoint)),
        resolved_since(w, checkpoint).walk.pending.len() >= checkpoint,
{
    let p = w.walk.pending;
    assert(p.take(checkpoint) + p.skip(checkpoint) =~= p);
    lemma_resolving(w.walk.module, p, checkpoint, p.take(checkpoint));
}

proof fn lemma_used(w: Visited, name: Seq<char>, span: Span)
    requires
        in_wait(w),
    ensures
        keeps(w, used(w, name, span)),
{
    let h = used(w, name, span);
    let refs = h.walk.module.refs;
    let pending = h.walk.pending;
    let old_refs = w.walk.module.refs;
    assert forall|i: int| 0 <= i < pending.len() implies 0 <= #[trigger] pending[i] < refs.len()
        && refs[pending[i]].symbol is None by {
        if i < w.walk.pending.len() {
            assert(pending[i] == w.walk.pending[i]);
            assert(refs[pending[i]] == old_refs[pending[i]]);
        }
    }
    assert forall|i: int, j: int| 0 <= i < j < pending.len() implies #[trigger] pending[i]
        != #[trigger] pending[j] by {
        assert(pending[i] == w.walk.pending[i]);
        if j < w.walk.pending.len() {
            assert(pending[j] == w.walk.pending[j]);
        }
    }
}

proof fn lemma_declared_refs(
    m: ModuleData,
    scope: int,
    names: Seq<Seq<char>>,
    s: SymbolModel,
    k: int,
)
    ensures
        m.declared_upto(scope, names, s, k).refs == m.refs,
    decreases k,
{
    if k > 0 {
        lemma_declared_refs(m, scope, names, s, k - 1);
    }
}

proof fn lemma_hoisted_refs(m: ModuleData, way: Seq<int>, name: Seq<char>, symbol: int, k: int)
    ensures
        m.hoisted_upto(way, name, symbol, k).refs == m.refs,
    decreases k,
{
    if k > 0 {
        lemma_hoisted_refs(m, way, name, symbol, k - 1);
    }
}

proof fn lemma_vars_refs(
    m: ModuleData,
    way: Seq<int>,
    target: int,
    names: Seq<Seq<char>>,
    s: SymbolModel,
    k: int,
)
    ensures
        m.with_vars(way, target, names, s, k).refs == m.refs,
    decreases k,
{
    if k > 0 {
        lemma_vars_refs(m, way, target, names, s, k - 1);
        let n = m.with_vars(way, target, names, s, k - 1);
        let t = SymbolModel { name: names[k - 1], ..s };
        let at = n.first_declaring(way, t.name, 0);
        let (o, symbol) = if at < way.len() {
            (n.merged(way[at], target, t.name), n.declared_before(way[at], t.name)->0)
        } else {
            n.declared(target, t)
        };
        lemma_hoisted_refs(o, way, t.name, symbol, way.len() as int);
    }
}

proof fn lemma_all(w: Visited, v: Vec<Syntax>, ambient: bool, k: int)
    requires
        in_wait(w),
        0 <= k <= v@.len(),
    ensures
        keeps(w, walked_upto(w, v, ambient, k)),
        w.walk.pending.len() <= walked_upto(w, v, ambient, k).walk.pending.len(),
    decreases v, k,
{
    if k > 0 {
        lemma_all(w, v, ambient, k - 1);
        let mid = walked_upto(w, v, ambient, k - 1);
        lemma_part(mid, v@[k - 1], ambient);
        lemma_then(w, mid, walked(mid, v@[k - 1], ambient));
    }
}

proof fn lemma_more(w: Visited, mid: Visited, v: Vec<Syntax>, ambient: bool)
    requires
        keeps(w, mid),
        w.walk.pending.len() <= mid.walk.pending.len(),
    ensures
        keeps(w, walked_upto(mid, v, ambient, v@.len() as int)),
        mid.walk.pending.len() <= walked_upto(
            mid,
            v,
            ambient,
            v@.len() as int,
        ).walk.pending.len(),
    decreases v, v@.len() + 1,
{
    lemma_all(mid, v, ambient, v@.len() as int);
    lemma_then(w, mid, walked_upto(mid, v, ambient, v@.len() as int));
}

proof fn lemma_part(w: Visited, s: Syntax, ambient: bool)
    requires
        in_wait(w),
    ensures
        keeps(w, walked(w, s, ambient)),
        w.walk.pending.len() <= walked(w, s, ambient).walk.pending.len(),
    decreases s, 2int,
{
    match s {
        Syntax::Plain { node, parts } | Syntax::Export { node, parts, .. } => {
            lemma_more(w, in_node(w, node), parts, ambient);
        },
        Syntax::Scoped { node, before, flags, parts, after } => {
            let a = in_node(w, node);
            lemma_more(w, a, before, ambient);
            let b = in_scope(walked_upto(a, before, ambient, before@.len() as int), flags);
            lemma_more(w, b, parts, ambient);
            let c = out_of_scope(walked_upto(b, parts, ambient, parts@.len() as int));
            lemma_more(w, c, after, ambient);
        },
        Syntax::Block { node, parts } => {
            let a = in_node(w, node);
            lemma_more(w, Visited { walk: entered_block(a.walk), ..a }, parts, ambient);
        },
        Syntax::Ambient { declare, parts } => {
            lemma_more(w, w, parts, ambient || declare);
        },
        Syntax::Reference { name, span } => {
            lemma_used(w, name@, span);
        },
        Syntax::NamespaceReference { name, span } => {
            lemma_used(flagged(w, w.flags | NAMESPACE), name@, span);
        },
        Syntax::Marked { used_as, parts } => {
            lemma_more(w, flagged(w, purpose(used_as, w.flags)), parts, ambient);
        },
        Syntax::Site { node, parts } => {
            lemma_more(w, noted(in_node(w, node)), parts, ambient);
        },
        Syntax::Target { parts } => {
            let a = if w.flags & WRITE != 0 {
                w
            } else {
                flagged(w, WRITE)
            };
            lemma_more(w, a, parts, ambient);
        },
        Syntax::Qualified { .. }
        | Syntax::Member { .. }
        | Syntax::Update { .. }
        | Syntax::Unary { .. }
        | Syntax::Assignment { .. }
        | Syntax::Conditional { .. }
        | Syntax::TargetProperty { .. } => {
            lemma_expression(w, s, ambient);
        },
        Syntax::Declarator { .. }
        | Syntax::Parameter { .. }
        | Syntax::CatchParameter { .. }
        | Syntax::ImportSpecifier { .. }
        | Syntax::ImportEquals { .. } => {
            lemma_binding(w, s, ambient);
        },
        Syntax::Function { .. } => {
            lemma_function(w, s, ambient);
        },
        Syntax::Class { .. } | Syntax::ClassMember { .. } => {
            lemma_class(w, s, ambient);
        },
        Syntax::Namespace { .. }
        | Syntax::Named { .. }
        | Syntax::TypeParameter { .. }
        | Syntax::MappedType { .. } => {
            lemma_type(w, s, ambient);
        },
    }
}

proof fn lemma_expression(w: Visited, s: Syntax, ambient: bool)
    requires
        in_wait(w),
        s is Qualified || s is Member || s is Update || s is Unary || s is Assignment
            || s is Conditional || s is TargetProperty,
    ensures
        keeps(w, walked(w, s, ambient)),
        w.walk.pending.len() <= walked(w, s, ambient).walk.pending.len(),
    decreases s, 1int,
{
    match s {
        Syntax::Qualified { node, left } => {
            let flags = if w.flags == 0 {
                READ | TYPE | NAMESPACE
            } else {
                w.flags | NAMESPACE
            };
            lemma_more(w, flagged(in_node(w, node), flags), left, ambient);
        },
        Syntax::Member { node, private, object, key } => {
            let flags = if w.flags & WRITE != 0 {
                READ | MEMBER_WRITE_TARGET
            } else {
                w.flags
            };
            let a = in_node(flagged(w, flags), node);
            let b = if private {
                a
            } else {
                noted(a)
            };
            lemma_more(w, b, object, ambient);
            let c = walked_upto(b, object, ambient, object@.len() as int);
            lemma_more(w, flagged(c, c.flags & !MEMBER_WRITE_TARGET), key, ambient);
        },
        Syntax::Update { node, target } => {
            lemma_more(w, flagged(in_node(w, node), READ_WRITE), target, ambient);
        },
        Syntax::Unary { node, delete_member, argument } => {
            let a = in_node(w, node);
            let b = if delete_member {
                flagged(a, WRITE)
            } else {
                a
            };
            lemma_more(w, b, argument, ambient);
        },
        Syntax::Assignment { node, compound, to, value } => {
            let a = in_node(w, node);
            let b = if compound {
                flagged(a, READ_WRITE)
            } else {
                a
            };
            lemma_more(w, b, to, ambient);
            lemma_more(w, walked_upto(b, to, ambient, to@.len() as int), value, ambient);
        },
        Syntax::Conditional { node, test, branches } => {
            let a = in_node(w, node);
            let t = flagged(a, a.flags & !MEMBER_WRITE_TARGET);
            lemma_more(w, t, test, ambient);
            let b = walked_upto(t, test, ambient, test@.len() as int);
            lemma_more(w, flagged(b, a.flags), branches, ambient);
        },
        Syntax::TargetProperty { node, name, span, init } => {
            let a = flagged(in_node(w, node), WRITE);
            lemma_used(a, name@, span);
            lemma_then(w, a, used(a, name@, span));
            lemma_more(w, used(a, name@, span), init, ambient);
        },
        _ => {},
    }
}

proof fn lemma_binding(w: Visited, s: Syntax, ambient: bool)
    requires
        in_wait(w),
        s is Declarator || s is Parameter || s is CatchParameter || s is ImportSpecifier
            || s is ImportEquals,
    ensures
        keeps(w, walked(w, s, ambient)),
        w.walk.pending.len() <= walked(w, s, ambient).walk.pending.len(),
    decreases s, 1int,
{
    match s {
        Syntax::Declarator { node, variable, declare, head, names, parts } => {
            let a = in_node(w, node);
            let t = SymbolModel {
                var_for_head: head && variable is Var,
                ..new_symbol(
                    Seq::empty(),
                    variable_flags(variable, declare),
                    node.span,
                    DeclModel::Declarator(node.span),
                )
            };
            let n = texts(names@);
            let m = a.walk.module;
            lemma_declared_refs(m, a.walk.current, n, t, n.len() as int);
            lemma_vars_refs(
                m,
                m.passed(a.walk.current),
                var_target(a.walk),
                n,
                t,
                n.len() as int,
            );
            let b = if variable is Var {
                declaring_vars(a, n, t)
            } else {
                declaring_names(a, n, t)
            };
            lemma_more(w, b, parts, ambient);
        },
        Syntax::Parameter { node, names, pattern, parts } => {
            let decl = match pattern {
                Some(p) => DeclModel::Param(p@),
                None => DeclModel::Other,
            };
            let a = in_node(w, node);
            let t = new_symbol(Seq::empty(), FUNCTION_SCOPED_VARIABLE, node.span, decl);
            let n = texts(names@);
            lemma_declared_refs(a.walk.module, a.walk.current, n, t, n.len() as int);
            lemma_more(w, declaring_names(a, n, t), parts, ambient);
        },
        Syntax::CatchParameter { node, clause, ident, names, parts } => {
            let a = in_node(w, node);
            let n = texts(names@);
            let t = new_symbol(
                Seq::empty(),
                BLOCK_SCOPED_VARIABLE | CATCH_VARIABLE,
                clause,
                DeclModel::Catch,
            );
            lemma_declared_refs(a.walk.module, a.walk.current, n, t, n.len() as int);
            let b = match ident {
                Some(x) => with_module(
                    a,
                    a.walk.module.with_new_symbol(
                        a.walk.current,
                        new_symbol(
                            x@,
                            FUNCTION_SCOPED_VARIABLE | CATCH_VARIABLE,
                            clause,
                            DeclModel::Catch,
                        ),
                    ),
                ),
                None => declaring_names(a, n, t),
            };
            lemma_more(w, b, parts, ambient);
            let c = walked_upto(b, parts, ambient, parts@.len() as int);
            lemma_resolved(c, b.walk.pending.len() as int);
            lemma_then(w, c, resolved_since(c, b.walk.pending.len() as int));
        },
        Syntax::ImportEquals { node, name, type_only, reference } => {
            let a = declaring(
                in_node(w, node),
                new_symbol(name@, IMPORT, node.span, DeclModel::Other),
            );
            let flags = if type_only {
                TYPE
            } else {
                READ | TYPE
            };
            lemma_more(w, flagged(a, flags), reference, ambient);
        },
        _ => {},
    }
}

/// The state inside a function, before the walk over its signature.
pub open spec fn in_function(w: Visited, s: Syntax) -> Visited {
    match s {
        Syntax::Function { node, form, own_name, declaration, declare, async_or_generator, .. } => {
            let t = new_symbol(
                Seq::empty(),
                function_flags(declaration, declare, async_or_generator),
                node.span,
                DeclModel::Function(!declaration),
            );
            let a = in_node(w, node);
            if declaration {
                in_scope(declaring_own(a, own_name, t), function_scope(form))
            } else {
                declaring_own(in_scope(a, function_scope(form)), own_name, t)
            }
        },
        _ => w,
    }
}

/// The state inside a function, before the walk over its body.
pub open spec fn before_body(w: Visited, s: Syntax, ambient: bool) -> Visited {
    match s {
        Syntax::Function { declare, has_parameter, has_return_type, signature, .. } => {
            let b = in_function(w, s);
            let c = walked_upto(b, signature, ambient || declare, signature@.len() as int);
            if has_parameter || has_return_type {
                resolved_since(c, b.walk.pending.len() as int)
            } else {
                c
            }
        },
        _ => w,
    }
}

proof fn lemma_signature(w: Visited, s: Syntax, ambient: bool)
    requires
        in_wait(w),
        s is Function,
    ensures
        keeps(w, before_body(w, s, ambient)),
        w.walk.pending.len() <= before_body(w, s, ambient).walk.pending.len(),
    decreases s, 0int,
{
    if let Syntax::Function { declare, signature, .. } = s {
        let b = in_function(w, s);
        lemma_more(w, b, signature, ambient || declare);
        let c = walked_upto(b, signature, ambient || declare, signature@.len() as int);
        lemma_resolved(c, b.walk.pending.len() as int);
        lemma_then(w, c, resolved_since(c, b.walk.pending.len() as int));
    }
}

proof fn lemma_function(w: Visited, s: Syntax, ambient: bool)
    requires
        in_wait(w),
        s is Function,
    ensures
        keeps(w, walked(w, s, ambient)),
        keeps(before_body(w, s, ambient), walked(w, s, ambient)),
        w.walk.pending.len() <= walked(w, s, ambient).walk.pending.len(),
    decreases s, 1int,
{
    if let Syntax::Function { declare, body, .. } = s {
        lemma_signature(w, s, ambient);
        let d = before_body(w, s, ambient);
        lemma_more(d, d, body, ambient || declare);
        let e = walked_upto(d, body, ambient || declare, body@.len() as int);
        lemma_then(w, d, e);
        assert(walked(w, s, ambient) == out_of_node(out_of_scope(e)));
    }
}

proof fn lemma_class(w: Visited, s: Syntax, ambient: bool)
    requires
        in_wait(w),
        s is Class || s is ClassMember,
    ensures
        keeps(w, walked(w, s, ambient)),
        w.walk.pending.len() <= walked(w, s, ambient).walk.pending.len(),
    decreases s, 1int,
{
    match s {
        Syntax::Class {
            node,
            own_name,
            declaration,
            declare,
            decorators,
            type_parameters,
            heritage,
            parts,
        } => {
            let inner = ambient || declare;
            let t = new_symbol(
                Seq::empty(),
                ambient_flags(CLASS, declare),
                node.span,
                DeclModel::Class(!declaration),
            );
            let a = in_node(w, node);
            let b = if declaration {
                declaring_own(a, own_name, t)
            } else {
                a
            };
            lemma_more(w, b, decorators, ambient);
            let c = in_scope(
                walked_upto(b, decorators, ambient, decorators@.len() as int),
                STRICT_SCOPE,
            );
            let d = if declaration {
                c
            } else {
                declaring_own(c, own_name, t)
            };
            lemma_more(w, d, type_parameters, inner);
            let e = walked_upto(d, type_parameters, inner, type_parameters@.len() as int);
            match heritage {
                Some(h) => {
                    let g = if inner {
                        flagged(e, VALUE_AS_TYPE)
                    } else {
                        e
                    };
                    lemma_more(w, g, h.0, inner);
                    let x = flagged(walked_upto(g, h.0, inner, h.0@.len() as int), 0);
                    lemma_more(w, x, h.1, inner);
                    let y = walked_upto(x, h.1, inner, h.1@.len() as int);
                    lemma_more(w, y, parts, inner);
                },
                None => {
                    lemma_more(w, e, parts, inner);
                },
            }
        },
        Syntax::ClassMember { node, declare, decorators, computed, is_abstract, key, parts } => {
            let inner = ambient || declare;
            let z = in_node(w, node);
            lemma_more(w, z, decorators, ambient);
            let a = walked_upto(z, decorators, ambient, decorators@.len() as int);
            let b = if computed && (is_abstract || inner) {
                flagged(a, VALUE_AS_TYPE)
            } else {
                a
            };
            lemma_more(w, b, key, inner);
            let c = walked_upto(b, key, inner, key@.len() as int);
            lemma_more(w, flagged(c, 0), parts, inner);
        },
        _ => {},
    }
}

proof fn lemma_type(w: Visited, s: Syntax, ambient: bool)
    requires
        in_wait(w),
        s is Namespace || s is Named || s is TypeParameter || s is MappedType,
    ensures
        keeps(w, walked(w, s, ambient)),
        w.walk.pending.len() <= walked(w, s, ambient).walk.pending.len(),
    decreases s, 1int,
{
    match s {
        Syntax::Namespace { node, name, declare, block, body } => {
            let inner = ambient || declare;
            let flags = if instantiates(s) {
                VALUE_MODULE
            } else {
                NAMESPACE_MODULE
            };
            let a = declaring(
                in_node(w, node),
                new_symbol(name@, ambient_flags(flags, declare), node.span, DeclModel::Other),
            );
            let b = in_scope(a, NAMESPACE_SCOPE);
            match block {
                Some(n) => {
                    lemma_more(w, in_node(b, n), body, inner);
                },
                None => {
                    lemma_more(w, b, body, inner);
                },
            }
        },
        Syntax::Named { node, what, name, declare, parts } => {
            let inner = ambient || declare;
            let a = declaring(
                in_node(w, node),
                new_symbol(name@, named_flags(what, declare), node.span, named_decl(what)),
            );
            lemma_more(w, a, parts, inner);
            lemma_more(w, in_scope(a, 0), parts, inner);
        },
        Syntax::TypeParameter { node, name, parts } => {
            let a = in_node(w, node);
            let b = with_module(
                a,
                a.walk.module.declared(
                    type_parameter_scope(a.walk),
                    new_symbol(name@, TYPE_PARAMETER, node.span, DeclModel::Other),
                ).0,
            );
            lemma_more(w, b, parts, ambient);
        },
        Syntax::MappedType { node, name, parts } => {
            let a = declaring(
                in_scope(in_node(w, node), 0),
                new_symbol(name@, TYPE_PARAMETER, node.span, DeclModel::Other),
            );
            lemma_more(w, a, parts, ambient);
        },
        _ => {},
    }
}

/// A use of a name that refers to a symbol refers to it for good, whatever comes in
/// the walk after it.
pub proof fn found_symbols_stay(w: Visited, s: Syntax, ambient: bool, i: int)
    requires
        in_wait(w),
        0 <= i < w.walk.module.refs.len(),
        w.walk.module.refs[i].symbol is Some,
    ensures
        walked(w, s, ambient).walk.module.refs[i] == w.walk.module.refs[i],
{
    lemma_part(w, s, ambient);
}

/// What a use in the parameters of a function refers to is decided before the body of
/// the function: its declarations are not seen there.
pub proof fn parameters_do_not_see_the_body(w: Visited, s: Syntax, ambient: bool, i: int)
    requires
        in_wait(w),
        s is Function,
        0 <= i < before_body(w, s, ambient).walk.module.refs.len(),
        before_body(w, s, ambient).walk.module.refs[i].symbol is Some,
    ensures
        walked(w, s, ambient).walk.module.refs[i] == before_body(w, s, ambient).walk.module.refs[i],
{
    lemma_function(w, s, ambient);
}

} // verus!
