//! The walk over the syntax of a module that finds its scopes, the names that it
//! declares and the uses of names.

use crate::scope_builder::{
    copy_ancestor, entered, entered_block, finished, left, type_parameter_scope, var_target,
    with_site, with_use, Ancestor, Builder, WalkData,
};
use crate::scopes::{
    DeclModel, DeclSite, ModuleData, ScopeData, ScopeModel, Site, Symbol, SymbolModel, AMBIENT,
    ASYNC_OR_GENERATOR, BLOCK_SCOPED_VARIABLE, CATCH_VARIABLE, CLASS, CONST_ENUM, CONST_VARIABLE,
    ENUM_MEMBER, FUNCTION, FUNCTION_EXPRESSION, FUNCTION_SCOPED_VARIABLE, IMPORT, INTERFACE,
    MEMBER_WRITE_TARGET, NAMESPACE, NAMESPACE_MODULE, READ, READ_WRITE, REGULAR_ENUM, TOP_SCOPE,
    TYPE, TYPE_ALIAS, TYPE_IMPORT, TYPE_PARAMETER, VALUE_AS_TYPE, VALUE_MODULE, WRITE,
};
use crate::shared::dynamic::Span;
use crate::text::texts;
use vstd::prelude::*;

verus! {

/// A scope whose code is strict.
pub const STRICT_SCOPE: u16 = 0x1;

/// The scope of a function.
pub const FUNCTION_SCOPE: u16 = 0x4;

/// The scope of an arrow function.
pub const ARROW_SCOPE: u16 = 0xc;

/// The scope of a namespace.
pub const NAMESPACE_SCOPE: u16 = 0x20;

/// The scope of a constructor.
pub const CONSTRUCTOR_SCOPE: u16 = 0x44;

/// The scope of a getter.
pub const GETTER_SCOPE: u16 = 0x84;

/// The scope of a setter.
pub const SETTER_SCOPE: u16 = 0x104;

/// How variables are declared.
#[derive(Debug, Clone, Copy, PartialEq, Eq)]
pub enum VariableKind {
    Var,
    Let,
    Const,
    Using,
    AwaitUsing,
}

/// What kind of function a function is.
#[derive(Debug, Clone, Copy, PartialEq, Eq)]
pub enum FunctionKind {
    Plain,
    Arrow,
    Constructor,
    Getter,
    Setter,
}

/// What the names in a part of the syntax are used for.
#[derive(Debug, Clone, Copy, PartialEq, Eq)]
pub enum Use {
    /// They are exported.
    Exported { type_only: bool },
    /// They name a type.
    TypeName,
    /// Their types are asked for.
    TypeQuery,
    /// They stand in the key of a signature.
    Key { computed: bool },
}

/// What an import gives a name to.
#[derive(Debug, Clone, Copy, PartialEq, Eq)]
pub enum ImportKind {
    Named { type_only: bool },
    Default,
    Namespace,
}

/// What a declaration gives a name to.
#[derive(Debug, Clone, Copy, PartialEq, Eq)]
pub enum NamedKind {
    Interface,
    TypeAlias,
    Enum { constant: bool },
    EnumMember,
}

/// What counts of the syntax of a module. The parts of a node are in the order of the
/// walk.
#[derive(Debug, PartialEq)]
pub enum Syntax {
    /// A node without rules of its own.
    Plain { node: Ancestor, parts: Vec<Syntax> },
    /// A node with a scope for some of its parts.
    Scoped {
        node: Ancestor,
        before: Vec<Syntax>,
        flags: u16,
        parts: Vec<Syntax>,
        after: Vec<Syntax>,
    },
    /// A block of statements.
    Block { node: Ancestor, parts: Vec<Syntax> },
    /// Parts that may be declared only.
    Ambient { declare: bool, parts: Vec<Syntax> },
    /// A use of a name.
    Reference { name: String, span: Span },
    /// A use of the name of a namespace.
    NamespaceReference { name: String, span: Span },
    /// A name inside a namespace.
    Qualified { node: Ancestor, left: Vec<Syntax> },
    /// Parts whose names are used for a purpose.
    Marked { used_as: Use, parts: Vec<Syntax> },
    /// A call or an element.
    Site { node: Ancestor, parts: Vec<Syntax> },
    /// A member of an object. The site of a private one is not noted.
    Member { node: Ancestor, private: bool, object: Vec<Syntax>, key: Vec<Syntax> },
    /// An increment or a decrement.
    Update { node: Ancestor, target: Vec<Syntax> },
    /// An operation with one operand. `delete_member` says that it deletes a member.
    Unary { node: Ancestor, delete_member: bool, argument: Vec<Syntax> },
    /// An assignment. A compound one reads what it writes.
    Assignment { node: Ancestor, compound: bool, to: Vec<Syntax>, value: Vec<Syntax> },
    /// A condition with its two branches.
    Conditional { node: Ancestor, test: Vec<Syntax>, branches: Vec<Syntax> },
    /// What an assignment assigns to.
    Target { parts: Vec<Syntax> },
    /// A name in a pattern that an assignment assigns to.
    TargetProperty { node: Ancestor, name: String, span: Span, init: Vec<Syntax> },
    /// A declarator with the names that it declares. `head` says that it is the first
    /// in the head of a loop over a collection.
    Declarator {
        node: Ancestor,
        variable: VariableKind,
        declare: bool,
        head: bool,
        names: Vec<String>,
        parts: Vec<Syntax>,
    },
    /// A function.
    Function {
        node: Ancestor,
        form: FunctionKind,
        own_name: Option<String>,
        declaration: bool,
        declare: bool,
        async_or_generator: bool,
        has_parameter: bool,
        has_return_type: bool,
        signature: Vec<Syntax>,
        body: Vec<Syntax>,
    },
    /// A class.
    Class {
        node: Ancestor,
        own_name: Option<String>,
        declaration: bool,
        declare: bool,
        decorators: Vec<Syntax>,
        type_parameters: Vec<Syntax>,
        heritage: Option<(Vec<Syntax>, Vec<Syntax>)>,
        parts: Vec<Syntax>,
    },
    /// A method or a property of a class.
    ClassMember {
        node: Ancestor,
        declare: bool,
        decorators: Vec<Syntax>,
        computed: bool,
        is_abstract: bool,
        key: Vec<Syntax>,
        parts: Vec<Syntax>,
    },
    /// A parameter with the names that it declares and the type of its pattern; one
    /// that takes the rest has no type.
    Parameter {
        node: Ancestor,
        names: Vec<String>,
        pattern: Option<String>,
        parts: Vec<Syntax>,
    },
    /// The parameter of a `catch`: a name, or a pattern with names.
    CatchParameter {
        node: Ancestor,
        clause: Span,
        ident: Option<String>,
        names: Vec<String>,
        parts: Vec<Syntax>,
    },
    /// A name that is imported. `of_types` says that all of the import are types.
    ImportSpecifier { node: Ancestor, import: ImportKind, of_types: bool, name: String },
    /// A name for a module or for a part of a namespace.
    ImportEquals { node: Ancestor, name: String, type_only: bool, reference: Vec<Syntax> },
    /// A namespace, with the node of its block if it has one.
    Namespace {
        node: Ancestor,
        name: String,
        declare: bool,
        block: Option<Ancestor>,
        body: Vec<Syntax>,
    },
    /// A declaration of a type or an enum, or a member of an enum.
    Named {
        node: Ancestor,
        what: NamedKind,
        name: String,
        declare: bool,
        parts: Vec<Syntax>,
    },
    /// A parameter that is a type.
    TypeParameter { node: Ancestor, name: String, parts: Vec<Syntax> },
    /// A type that is mapped over the keys of another.
    MappedType { node: Ancestor, name: String, parts: Vec<Syntax> },
    /// An export of a declaration.
    Export { node: Ancestor, default: bool, parts: Vec<Syntax> },
}

/// The state of the walk, with what the next use of a name is for.
#[verifier::ext_equal]
pub struct Visited {
    pub walk: WalkData,
    pub flags: u8,
}

/// The state inside a node.
pub open spec fn in_node(w: Visited, node: Ancestor) -> Visited {
    Visited {
        walk: WalkData {
            stack: w.walk.stack.push(node.model()),
            top_start: if w.walk.stack.len() == 1 {
                node.span.start
            } else {
                w.walk.top_start
            },
            ..w.walk
        },
        ..w
    }
}

/// The state outside of the node that the walk is in.
pub open spec fn out_of_node(w: Visited) -> Visited {
    Visited { walk: WalkData { stack: w.walk.stack.drop_last(), ..w.walk }, ..w }
}

/// The state inside a new scope.
pub open spec fn in_scope(w: Visited, flags: u16) -> Visited {
    Visited { walk: entered(w.walk, flags), ..w }
}

/// The state outside of the scope that the walk is in.
pub open spec fn out_of_scope(w: Visited) -> Visited {
    Visited { walk: left(w.walk), ..w }
}

/// The state with another purpose of the next use of a name.
pub open spec fn flagged(w: Visited, flags: u8) -> Visited {
    Visited { flags, ..w }
}

/// The state after a site was noted.
pub open spec fn noted(w: Visited) -> Visited {
    Visited { walk: with_site(w.walk), ..w }
}

/// The state after a name was used for the purpose at hand.
pub open spec fn used(w: Visited, name: Seq<char>, span: Span) -> Visited {
    Visited { walk: with_use(w.walk, name, span, w.flags), flags: 0 }
}

/// The state with another module.
pub open spec fn with_module(w: Visited, module: ModuleData) -> Visited {
    Visited { walk: WalkData { module, ..w.walk }, ..w }
}

/// The state after a name was declared in the current scope.
pub open spec fn declaring(w: Visited, s: SymbolModel) -> Visited {
    with_module(w, w.walk.module.declared(w.walk.current, s).0)
}

/// The state after names were declared in the current scope.
pub open spec fn declaring_names(w: Visited, names: Seq<Seq<char>>, s: SymbolModel) -> Visited {
    with_module(
        w,
        w.walk.module.declared_upto(w.walk.current, names, s, names.len() as int),
    )
}

/// The state after names of a `var` were declared.
pub open spec fn declaring_vars(w: Visited, names: Seq<Seq<char>>, s: SymbolModel) -> Visited {
    with_module(
        w,
        w.walk.module.with_vars(
            w.walk.module.passed(w.walk.current),
            var_target(w.walk),
            names,
            s,
            names.len() as int,
        ),
    )
}

/// The state after the uses since the first `checkpoint` ones were resolved.
pub open spec fn resolved_since(w: Visited, checkpoint: int) -> Visited {
    let p = w.walk.pending;
    let (m, rest) = w.walk.module.resolved_from(p, checkpoint, p.take(checkpoint));
    Visited { walk: WalkData { module: m, pending: rest, ..w.walk }, ..w }
}

/// A name that was just declared.
pub open spec fn new_symbol(name: Seq<char>, flags: u32, span: Span, decl: DeclModel) -> SymbolModel {
    SymbolModel {
        name,
        flags,
        span,
        decl,
        redeclared: false,
        var_for_head: false,
        violated: false,
        mutated: false,
    }
}

/// The flags with that of a declaration without a body, if it is one.
pub open spec fn ambient_flags(flags: u32, declare: bool) -> u32 {
    if declare {
        flags | AMBIENT
    } else {
        flags
    }
}

/// What the names of a declarator are.
pub open spec fn variable_flags(kind: VariableKind, declare: bool) -> u32 {
    ambient_flags(
        match kind {
            VariableKind::Var => FUNCTION_SCOPED_VARIABLE,
            VariableKind::Let => BLOCK_SCOPED_VARIABLE,
            _ => BLOCK_SCOPED_VARIABLE | CONST_VARIABLE,
        },
        declare,
    )
}

/// What the name of a function is.
pub open spec fn function_flags(declaration: bool, declare: bool, async_or_generator: bool) -> u32 {
    let a = ambient_flags(FUNCTION, declare);
    let b = if declaration {
        a
    } else {
        a | FUNCTION_EXPRESSION
    };
    if async_or_generator {
        b | ASYNC_OR_GENERATOR
    } else {
        b
    }
}

/// What the name of a declaration is.
pub open spec fn named_flags(kind: NamedKind, declare: bool) -> u32 {
    ambient_flags(
        match kind {
            NamedKind::Interface => INTERFACE,
            NamedKind::TypeAlias => TYPE_ALIAS,
            NamedKind::Enum { constant } => if constant {
                CONST_ENUM
            } else {
                REGULAR_ENUM
            },
            NamedKind::EnumMember => ENUM_MEMBER,
        },
        declare,
    )
}

/// How the name of a declaration is declared.
pub open spec fn named_decl(kind: NamedKind) -> DeclModel {
    if kind is Enum {
        DeclModel::Enum
    } else {
        DeclModel::Other
    }
}

/// What an imported name is.
pub open spec fn import_flags(kind: ImportKind, of_types: bool) -> u32 {
    if of_types || kind == (ImportKind::Named { type_only: true }) {
        TYPE_IMPORT
    } else {
        IMPORT
    }
}

/// How an imported name is declared.
pub open spec fn import_decl(kind: ImportKind) -> DeclModel {
    match kind {
        ImportKind::Named { type_only } => DeclModel::NamedImport,
        ImportKind::Default => DeclModel::DefaultImport,
        ImportKind::Namespace => DeclModel::NamespaceImport,
    }
}

/// What the scope of a function is.
pub open spec fn function_scope(kind: FunctionKind) -> u16 {
    match kind {
        FunctionKind::Plain => FUNCTION_SCOPE,
        FunctionKind::Arrow => ARROW_SCOPE,
        FunctionKind::Constructor => CONSTRUCTOR_SCOPE,
        FunctionKind::Getter => GETTER_SCOPE,
        FunctionKind::Setter => SETTER_SCOPE,
    }
}

/// What a use in a part with a purpose is for.
pub open spec fn purpose(u: Use, flags: u8) -> u8 {
    match u {
        Use::Exported { type_only } => if type_only {
            TYPE
        } else {
            READ | TYPE
        },
        Use::TypeName => TYPE,
        Use::TypeQuery => VALUE_AS_TYPE,
        Use::Key { computed } => if computed {
            VALUE_AS_TYPE
        } else {
            flags
        },
    }
}

/// Whether a purpose ends with its part.
pub open spec fn purpose_ends(u: Use) -> bool {
    u is TypeQuery || u is Key
}

/// Whether a statement in a namespace makes it more than a namespace of types.
pub open spec fn instantiates(s: Syntax) -> bool
    decreases s,
{
    match s {
        Syntax::Named { what, .. } => !(what is Interface || what is TypeAlias),
        Syntax::ImportEquals { .. } => false,
        Syntax::Namespace { body, .. } => exists|i: int|
            0 <= i < body@.len() && instantiates(#[trigger] body@[i]),
        Syntax::Export { default, parts, .. } => if parts@.len() == 0 {
            true
        } else {
            match parts@[0] {
                Syntax::Named { what, .. } => !(what is Interface || (!default
                    && what is TypeAlias)),
                Syntax::Namespace { .. } => default || instantiates(parts@[0]),
                _ => true,
            }
        },
        _ => true,
    }
}

/// The state after the name of a function or a class was declared, if it has one.
pub open spec fn declaring_own(w: Visited, name: Option<String>, s: SymbolModel) -> Visited {
    match name {
        Some(n) => declaring(w, SymbolModel { name: n@, ..s }),
        None => w,
    }
}

/// The state after the walk over the first `k` parts. `ambient` says that they are
/// declared only.
pub open spec fn walked_upto(w: Visited, v: Vec<Syntax>, ambient: bool, k: int) -> Visited
    decreases v, k,
{
    if k <= 0 || k > v@.len() {
        w
    } else {
        walked(walked_upto(w, v, ambient, k - 1), v@[k - 1], ambient)
    }
}

/// The state after the walk over a part of the syntax.
pub open spec fn walked(w: Visited, s: Syntax, ambient: bool) -> Visited
    decreases s, 0int,
{
    match s {
        Syntax::Plain { node, parts } | Syntax::Export { node, parts, .. } => out_of_node(
            walked_upto(in_node(w, node), parts, ambient, parts@.len() as int),
        ),
        Syntax::Scoped { node, before, flags, parts, after } => {
            let a = walked_upto(in_node(w, node), before, ambient, before@.len() as int);
            let b = walked_upto(in_scope(a, flags), parts, ambient, parts@.len() as int);
            out_of_node(walked_upto(out_of_scope(b), after, ambient, after@.len() as int))
        },
        Syntax::Block { node, parts } => {
            let a = in_node(w, node);
            let b = Visited { walk: entered_block(a.walk), ..a };
            out_of_node(out_of_scope(walked_upto(b, parts, ambient, parts@.len() as int)))
        },
        Syntax::Ambient { declare, parts } => walked_upto(
            w,
            parts,
            ambient || declare,
            parts@.len() as int,
        ),
        Syntax::Reference { name, span } => used(w, name@, span),
        Syntax::NamespaceReference { name, span } => used(
            flagged(w, w.flags | NAMESPACE),
            name@,
            span,
        ),
        Syntax::Qualified { node, left } => {
            let flags = if w.flags == 0 {
                READ | TYPE | NAMESPACE
            } else {
                w.flags | NAMESPACE
            };
            let a = flagged(in_node(w, node), flags);
            out_of_node(walked_upto(a, left, ambient, left@.len() as int))
        },
        Syntax::Marked { used_as, parts } => {
            let a = flagged(w, purpose(used_as, w.flags));
            let b = walked_upto(a, parts, ambient, parts@.len() as int);
            if purpose_ends(used_as) {
                flagged(b, 0)
            } else {
                b
            }
        },
        Syntax::Site { node, parts } => out_of_node(
            walked_upto(noted(in_node(w, node)), parts, ambient, parts@.len() as int),
        ),
        Syntax::Member { node, private, object, key } => {
            let flags = if w.flags & WRITE != 0 {
                READ | MEMBER_WRITE_TARGET
            } else {
                w.flags
            };
            let a = in_node(flagged(w, flags), node);
            let b = if private {
                a
            } else {
                noted(a)
            };
            let c = walked_upto(b, object, ambient, object@.len() as int);
            let d = walked_upto(
                flagged(c, c.flags & !MEMBER_WRITE_TARGET),
                key,
                ambient,
                key@.len() as int,
            );
            flagged(out_of_node(d), 0)
        },
        Syntax::Update { node, target } => out_of_node(
            walked_upto(
                flagged(in_node(w, node), READ_WRITE),
                target,
                ambient,
                target@.len() as int,
            ),
        ),
        Syntax::Unary { node, delete_member, argument } => {
            let a = in_node(w, node);
            let b = if delete_member {
                flagged(a, WRITE)
            } else {
                a
            };
            out_of_node(walked_upto(b, argument, ambient, argument@.len() as int))
        },
        Syntax::Assignment { node, compound, to, value } => {
            let a = in_node(w, node);
            let b = if compound {
                flagged(a, READ_WRITE)
            } else {
                a
            };
            let c = walked_upto(b, to, ambient, to@.len() as int);
            out_of_node(walked_upto(c, value, ambient, value@.len() as int))
        },
        Syntax::Conditional { node, test, branches } => {
            let a = in_node(w, node);
            let b = walked_upto(
                flagged(a, a.flags & !MEMBER_WRITE_TARGET),
                test,
                ambient,
                test@.len() as int,
            );
            out_of_node(
                walked_upto(flagged(b, a.flags), branches, ambient, branches@.len() as int),
            )
        },
        Syntax::Target { parts } => {
            let a = if w.flags & WRITE != 0 {
                w
            } else {
                flagged(w, WRITE)
            };
            walked_upto(a, parts, ambient, parts@.len() as int)
        },
        Syntax::TargetProperty { node, name, span, init } => out_of_node(
            walked_upto(
                used(flagged(in_node(w, node), WRITE), name@, span),
                init,
                ambient,
                init@.len() as int,
            ),
        ),
        Syntax::Declarator { node, variable, declare, head, names, parts } => {
            let a = in_node(w, node);
            let s = SymbolModel {
                var_for_head: head && variable is Var,
                ..new_symbol(
                    Seq::empty(),
                    variable_flags(variable, declare),
                    node.span,
                    DeclModel::Declarator(node.span),
                )
            };
            let b = if variable is Var {
                declaring_vars(a, texts(names@), s)
            } else {
                declaring_names(a, texts(names@), s)
            };
            out_of_node(walked_upto(b, parts, ambient, parts@.len() as int))
        },
        Syntax::Function {
            node,
            form,
            own_name,
            declaration,
            declare,
            async_or_generator,
            has_parameter,
            has_return_type,
            signature,
            body,
        } => {
            let inner = ambient || declare;
            let s = new_symbol(
                Seq::empty(),
                function_flags(declaration, declare, async_or_generator),
                node.span,
                DeclModel::Function(!declaration),
            );
            let a = in_node(w, node);
            let b = if declaration {
                in_scope(declaring_own(a, own_name, s), function_scope(form))
            } else {
                declaring_own(in_scope(a, function_scope(form)), own_name, s)
            };
            let c = walked_upto(b, signature, inner, signature@.len() as int);
            let d = if has_parameter || has_return_type {
                resolved_since(c, b.walk.pending.len() as int)
            } else {
                c
            };
            out_of_node(out_of_scope(walked_upto(d, body, inner, body@.len() as int)))
        },
        Syntax::Class {
            node,
            own_name,
            declaration,
            declare,
            decorators,
            type_parameters,
            heritage,
            parts,
        } => {
            let inner = ambient || declare;
            let s = new_symbol(
                Seq::empty(),
                ambient_flags(CLASS, declare),
                node.span,
                DeclModel::Class(!declaration),
            );
            let a = in_node(w, node);
            let b = if declaration {
                declaring_own(a, own_name, s)
            } else {
                a
            };
            let c = in_scope(
                walked_upto(b, decorators, ambient, decorators@.len() as int),
                STRICT_SCOPE,
            );
            let d = if declaration {
                c
            } else {
                declaring_own(c, own_name, s)
            };
            let e = walked_upto(d, type_parameters, inner, type_parameters@.len() as int);
            let f = match heritage {
                Some(h) => {
                    let g = if inner {
                        flagged(e, VALUE_AS_TYPE)
                    } else {
                        e
                    };
                    walked_upto(
                        flagged(walked_upto(g, h.0, inner, h.0@.len() as int), 0),
                        h.1,
                        inner,
                        h.1@.len() as int,
                    )
                },
                None => e,
            };
            out_of_node(out_of_scope(walked_upto(f, parts, inner, parts@.len() as int)))
        },
        Syntax::ClassMember { node, declare, decorators, computed, is_abstract, key, parts } => {
            let inner = ambient || declare;
            let a = walked_upto(in_node(w, node), decorators, ambient, decorators@.len() as int);
            let b = if computed && (is_abstract || inner) {
                flagged(a, VALUE_AS_TYPE)
            } else {
                a
            };
            let c = walked_upto(b, key, inner, key@.len() as int);
            out_of_node(walked_upto(flagged(c, 0), parts, inner, parts@.len() as int))
        },
        Syntax::Parameter { node, names, pattern, parts } => {
            let decl = match pattern {
                Some(p) => DeclModel::Param(p@),
                None => DeclModel::Other,
            };
            let a = declaring_names(
                in_node(w, node),
                texts(names@),
                new_symbol(Seq::empty(), FUNCTION_SCOPED_VARIABLE, node.span, decl),
            );
            out_of_node(walked_upto(a, parts, ambient, parts@.len() as int))
        },
        Syntax::CatchParameter { node, clause, ident, names, parts } => {
            let a = in_node(w, node);
            let b = match ident {
                Some(n) => with_module(
                    a,
                    a.walk.module.with_new_symbol(
                        a.walk.current,
                        new_symbol(
                            n@,
                            FUNCTION_SCOPED_VARIABLE | CATCH_VARIABLE,
                            clause,
                            DeclModel::Catch,
                        ),
                    ),
                ),
                None => declaring_names(
                    a,
                    texts(names@),
                    new_symbol(
                        Seq::empty(),
                        BLOCK_SCOPED_VARIABLE | CATCH_VARIABLE,
                        clause,
                        DeclModel::Catch,
                    ),
                ),
            };
            let c = walked_upto(b, parts, ambient, parts@.len() as int);
            out_of_node(resolved_since(c, b.walk.pending.len() as int))
        },
        Syntax::ImportSpecifier { node, import, of_types, name } => out_of_node(
            declaring(
                in_node(w, node),
                new_symbol(name@, import_flags(import, of_types), node.span, import_decl(import)),
            ),
        ),
        Syntax::ImportEquals { node, name, type_only, reference } => {
            let a = declaring(
                in_node(w, node),
                new_symbol(name@, IMPORT, node.span, DeclModel::Other),
            );
            let flags = if type_only {
                TYPE
            } else {
                READ | TYPE
            };
            let b = walked_upto(flagged(a, flags), reference, ambient, reference@.len() as int);
            out_of_node(flagged(b, 0))
        },
        Syntax::Namespace { node, name, declare, block, body } => {
            let inner = ambient || declare;
            let flags = if instantiates(s) {
                VALUE_MODULE
            } else {
                NAMESPACE_MODULE
            };
            let a = declaring(
                in_node(w, node),
                new_symbol(name@, ambient_flags(flags, declare), node.span, DeclModel::Other),
            );
            let b = in_scope(a, NAMESPACE_SCOPE);
            let c = match block {
                Some(n) => out_of_node(
                    walked_upto(in_node(b, n), body, inner, body@.len() as int),
                ),
                None => walked_upto(b, body, inner, body@.len() as int),
            };
            out_of_node(out_of_scope(c))
        },
        Syntax::Named { node, what, name, declare, parts } => {
            let inner = ambient || declare;
            let a = declaring(
                in_node(w, node),
                new_symbol(name@, named_flags(what, declare), node.span, named_decl(what)),
            );
            if what is Interface || what is TypeAlias {
                out_of_node(
                    out_of_scope(walked_upto(in_scope(a, 0), parts, inner, parts@.len() as int)),
                )
            } else {
                out_of_node(walked_upto(a, parts, inner, parts@.len() as int))
            }
        },
        Syntax::TypeParameter { node, name, parts } => {
            let a = in_node(w, node);
            let b = with_module(
                a,
                a.walk.module.declared(
                    type_parameter_scope(a.walk),
                    new_symbol(name@, TYPE_PARAMETER, node.span, DeclModel::Other),
                ).0,
            );
            out_of_node(walked_upto(b, parts, ambient, parts@.len() as int))
        },
        Syntax::MappedType { node, name, parts } => {
            let a = declaring(
                in_scope(in_node(w, node), 0),
                new_symbol(name@, TYPE_PARAMETER, node.span, DeclModel::Other),
            );
            out_of_node(out_of_scope(walked_upto(a, parts, ambient, parts@.len() as int)))
        },
    }
}

/// Whether the scopes that there were have the same parents still.
pub open spec fn scopes_stay(a: Visited, b: Visited) -> bool {
    &&& a.walk.module.scopes.len() <= b.walk.module.scopes.len()
    &&& forall|i: int|
        0 <= i < a.walk.module.scopes.len() ==> (#[trigger] b.walk.module.scopes[i]).parent
            == a.walk.module.scopes[i].parent
}

/// Whether the walk is where it was, and no use that waited was lost.
pub open spec fn in_place(a: Visited, b: Visited) -> bool {
    &&& b.walk.stack == a.walk.stack
    &&& b.walk.current == a.walk.current
    &&& a.walk.pending.len() <= b.walk.pending.len()
    &&& scopes_stay(a, b)
}

struct Walker {
    builder: Builder,
    flags: u8,
}

impl Walker {
    spec fn state(self) -> Visited {
        Visited { walk: self.builder.data(), flags: self.flags }
    }

    spec fn valid(self) -> bool {
        self.builder.valid()
    }

    fn enter(&mut self, node: &Ancestor)
        requires
            old(self).valid(),
        ensures
            final(self).valid(),
            final(self).state() == in_node(old(self).state(), *node),
    {
        self.builder.enter_node(copy_ancestor(node));
    }

    fn leave(&mut self)
        requires
            old(self).valid(),
            old(self).state().walk.stack.len() > 0,
        ensures
            final(self).valid(),
            final(self).state() == out_of_node(old(self).state()),
    {
        self.builder.leave_node();
    }

    fn open(&mut self, flags: u16)
        requires
            old(self).valid(),
        ensures
            final(self).valid(),
            final(self).state() == in_scope(old(self).state(), flags),
            scopes_stay(old(self).state(), final(self).state()),
            final(self).state().walk.module.scopes[final(self).state().walk.current].parent == Some(
                old(self).state().walk.current,
            ),
    {
        self.builder.enter_scope(flags);
    }

    fn close(&mut self)
        requires
            old(self).valid(),
            old(self).state().walk.module.scopes[old(self).state().walk.current].parent is Some,
        ensures
            final(self).valid(),
            final(self).state() == out_of_scope(old(self).state()),
    {
        self.builder.leave_scope();
    }

    fn use_name(&mut self, name: &str, span: Span)
        requires
            old(self).valid(),
        ensures
            final(self).valid(),
            final(self).state() == used(old(self).state(), name@, span),
            in_place(old(self).state(), final(self).state()),
    {
        let id: usize = self.builder.add_reference(name.to_owned(), span, self.flags);
        self.flags = 0;
    }

    fn note_site(&mut self)
        requires
            old(self).valid(),
        ensures
            final(self).valid(),
            final(self).state() == noted(old(self).state()),
            in_place(old(self).state(), final(self).state()),
    {
        let id: usize = self.builder.push_site();
    }

    fn declare(&mut self, name: &str, flags: u32, span: Span, decl: DeclSite)
        requires
            old(self).valid(),
        ensures
            final(self).valid(),
            final(self).state() == declaring(
                old(self).state(),
                new_symbol(name@, flags, span, decl.model()),
            ),
            in_place(old(self).state(), final(self).state()),
    {
        let id: usize = self.builder.declare(make_symbol(name, flags, span, decl));
    }

    fn declare_own(&mut self, name: &Option<String>, flags: u32, span: Span, decl: DeclSite)
        requires
            old(self).valid(),
        ensures
            final(self).valid(),
            final(self).state() == declaring_own(
                old(self).state(),
                *name,
                new_symbol(Seq::empty(), flags, span, decl.model()),
            ),
            in_place(old(self).state(), final(self).state()),
    {
        if let Some(n) = name {
            self.declare(n.as_str(), flags, span, decl);
        }
    }

    fn declare_names(&mut self, names: &Vec<String>, flags: u32, span: Span, decl: DeclSite)
        requires
            old(self).valid(),
        ensures
            final(self).valid(),
            final(self).state() == declaring_names(
                old(self).state(),
                texts(names@),
                new_symbol(Seq::empty(), flags, span, decl.model()),
            ),
            in_place(old(self).state(), final(self).state()),
    {
        proof {
            reveal_strlit("");
            assert(""@ =~= Seq::<char>::empty());
        }
        let symbol = make_symbol("", flags, span, decl);
        self.builder.declare_names(names, &symbol);
    }

    fn settle(&mut self, checkpoint: usize)
        requires
            old(self).valid(),
            checkpoint <= old(self).state().walk.pending.len(),
        ensures
            final(self).valid(),
            final(self).state() == resolved_since(old(self).state(), checkpoint as int),
            final(self).state().walk.stack == old(self).state().walk.stack,
            final(self).state().walk.current == old(self).state().walk.current,
            final(self).state().walk.pending.len() >= checkpoint,
            scopes_stay(old(self).state(), final(self).state()),
    {
        self.builder.resolve_pending_from(checkpoint);
    }

    fn visit_all(&mut self, v: &Vec<Syntax>, ambient: bool)
        requires
            old(self).valid(),
        ensures
            final(self).valid(),
            final(self).state() == walked_upto(old(self).state(), *v, ambient, v@.len() as int),
            in_place(old(self).state(), final(self).state()),
        decreases v, 0int,
    {
        let ghost before = self.state();
        let mut i: usize = 0;
        while i < v.len()
            invariant
                before == old(self).state(),
                i <= v@.len(),
                self.valid(),
                self.state() == walked_upto(before, *v, ambient, i as int),
                in_place(before, self.state()),
            decreases v@.len() - i,
        {
            assert(decreases_to!(v => v@[i as int]));
            self.visit(&v[i], ambient);
            i += 1;
        }
    }

    fn visit(&mut self, s: &Syntax, ambient: bool)
        requires
            old(self).valid(),
        ensures
            final(self).valid(),
            final(self).state() == walked(old(self).state(), *s, ambient),
            in_place(old(self).state(), final(self).state()),
        decreases s, 2int,
    {
        match s {
            Syntax::Reference { name, span } => self.use_name(name.as_str(), *span),
            Syntax::NamespaceReference { name, span } => {
                self.flags = self.flags | NAMESPACE;
                self.use_name(name.as_str(), *span);
            },
            Syntax::Ambient { declare, parts } => self.visit_all(parts, ambient || *declare),
            Syntax::Marked { used_as, parts } => {
                self.flags = make_purpose(*used_as, self.flags);
                self.visit_all(parts, ambient);
                match used_as {
                    Use::TypeQuery => {
                        self.flags = 0;
                    },
                    Use::Key { computed } => {
                        self.flags = 0;
                    },
                    _ => {},
                }
            },
            Syntax::Target { parts } => {
                if self.flags & WRITE == 0 {
                    self.flags = WRITE;
                }
                self.visit_all(parts, ambient);
            },
            Syntax::Plain { .. }
            | Syntax::Export { .. }
            | Syntax::Scoped { .. }
            | Syntax::Block { .. }
            | Syntax::Site { .. } => self.visit_node(s, ambient),
            Syntax::Qualified { .. }
            | Syntax::Member { .. }
            | Syntax::Update { .. }
            | Syntax::Unary { .. }
            | Syntax::Assignment { .. }
            | Syntax::Conditional { .. }
            | Syntax::TargetProperty { .. } => self.visit_expression(s, ambient),
            Syntax::Declarator { .. }
            | Syntax::Parameter { .. }
            | Syntax::CatchParameter { .. }
            | Syntax::ImportSpecifier { .. }
            | Syntax::ImportEquals { .. } => self.visit_binding(s, ambient),
            Syntax::Function { .. } => self.visit_function(s, ambient),
            Syntax::Class { .. } => self.visit_class(s, ambient),
            Syntax::ClassMember { .. } => self.visit_class_member(s, ambient),
            Syntax::Namespace { .. } => self.visit_namespace(s, ambient),
            Syntax::Named { .. } | Syntax::TypeParameter { .. } | Syntax::MappedType { .. } => {
                self.visit_type(s, ambient)
            },
        }
    }

    fn visit_node(&mut self, s: &Syntax, ambient: bool)
        requires
            old(self).valid(),
            s is Plain || s is Export || s is Scoped || s is Block || s is Site,
        ensures
            final(self).valid(),
            final(self).state() == walked(old(self).state(), *s, ambient),
            in_place(old(self).state(), final(self).state()),
        decreases s, 1int,
    {
        let ghost start = self.state();
        match s {
            Syntax::Plain { node, parts } | Syntax::Export { node, parts, .. } => {
                self.enter(node);
                self.visit_all(parts, ambient);
                self.leave();
            },
            Syntax::Scoped { node, before, flags, parts, after } => {
                self.enter(node);
                self.visit_all(before, ambient);
                self.open(*flags);
                self.visit_all(parts, ambient);
                self.close();
                self.visit_all(after, ambient);
                self.leave();
            },
            Syntax::Block { node, parts } => {
                self.enter(node);
                self.open_block();
                self.visit_all(parts, ambient);
                self.close();
                self.leave();
            },
            Syntax::Site { node, parts } => {
                self.enter(node);
                self.note_site();
                self.visit_all(parts, ambient);
                self.leave();
            },
            _ => {},
        }
        assert(self.state().walk.stack =~= start.walk.stack);
    }

    fn visit_expression(&mut self, s: &Syntax, ambient: bool)
        requires
            old(self).valid(),
            s is Qualified || s is Member || s is Update || s is Unary || s is Assignment
                || s is Conditional || s is TargetProperty,
        ensures
            final(self).valid(),
            final(self).state() == walked(old(self).state(), *s, ambient),
            in_place(old(self).state(), final(self).state()),
        decreases s, 1int,
    {
        let ghost start = self.state();
        match s {
            Syntax::Qualified { node, left } => {
                self.enter(node);
                self.flags = if self.flags == 0 {
                    READ | TYPE | NAMESPACE
                } else {
                    self.flags | NAMESPACE
                };
                self.visit_all(left, ambient);
                self.leave();
            },
            Syntax::Member { node, private, object, key } => {
                if self.flags & WRITE != 0 {
                    self.flags = READ | MEMBER_WRITE_TARGET;
                }
                self.enter(node);
                if !*private {
                    self.note_site();
                }
                self.visit_all(object, ambient);
                self.flags = self.flags & !MEMBER_WRITE_TARGET;
                self.visit_all(key, ambient);
                self.leave();
                self.flags = 0;
            },
            Syntax::Update { node, target } => {
                self.enter(node);
                self.flags = READ_WRITE;
                self.visit_all(target, ambient);
                self.leave();
            },
            Syntax::Unary { node, delete_member, argument } => {
                self.enter(node);
                if *delete_member {
                    self.flags = WRITE;
                }
                self.visit_all(argument, ambient);
                self.leave();
            },
            Syntax::Assignment { node, compound, to, value } => {
                self.enter(node);
                if *compound {
                    self.flags = READ_WRITE;
                }
                self.visit_all(to, ambient);
                self.visit_all(value, ambient);
                self.leave();
            },
            Syntax::Conditional { node, test, branches } => {
                self.enter(node);
                let saved: u8 = self.flags;
                self.flags = self.flags & !MEMBER_WRITE_TARGET;
                self.visit_all(test, ambient);
                self.flags = saved;
                self.visit_all(branches, ambient);
                self.leave();
            },
            Syntax::TargetProperty { node, name, span, init } => {
                self.enter(node);
                self.flags = WRITE;
                self.use_name(name.as_str(), *span);
                self.visit_all(init, ambient);
                self.leave();
            },
            _ => {},
        }
        assert(self.state().walk.stack =~= start.walk.stack);
    }

    fn visit_binding(&mut self, s: &Syntax, ambient: bool)
        requires
            old(self).valid(),
            s is Declarator || s is Parameter || s is CatchParameter || s is ImportSpecifier
                || s is ImportEquals,
        ensures
            final(self).valid(),
            final(self).state() == walked(old(self).state(), *s, ambient),
            in_place(old(self).state(), final(self).state()),
        decreases s, 1int,
    {
        let ghost start = self.state();
        match s {
            Syntax::Declarator { node, variable, declare, head, names, parts } => {
                self.enter(node);
                self.bind_declarator(node.span, *variable, *declare, *head, names);
                self.visit_all(parts, ambient);
                self.leave();
            },
            Syntax::Parameter { node, names, pattern, parts } => {
                self.enter(node);
                let decl = match pattern {
                    Some(p) => DeclSite::Param(p.clone()),
                    None => DeclSite::Other,
                };
                self.declare_names(names, FUNCTION_SCOPED_VARIABLE, node.span, decl);
                self.visit_all(parts, ambient);
                self.leave();
            },
            Syntax::CatchParameter { node, clause, ident, names, parts } => {
                self.enter(node);
                match ident {
                    Some(n) => {
                        let flags: u32 = FUNCTION_SCOPED_VARIABLE | CATCH_VARIABLE;
                        let symbol = make_symbol(n.as_str(), flags, *clause, DeclSite::Catch);
                        let id: usize = self.builder.create(symbol);
                    },
                    None => {
                        let flags: u32 = BLOCK_SCOPED_VARIABLE | CATCH_VARIABLE;
                        self.declare_names(names, flags, *clause, DeclSite::Catch);
                    },
                }
                let checkpoint: usize = self.builder.pending.len();
                self.visit_all(parts, ambient);
                self.settle(checkpoint);
                self.leave();
            },
            Syntax::ImportSpecifier { node, import, of_types, name } => {
                self.enter(node);
                let flags: u32 = make_import_flags(*import, *of_types);
                self.declare(name.as_str(), flags, node.span, make_import_decl(*import));
                self.leave();
            },
            Syntax::ImportEquals { node, name, type_only, reference } => {
                self.enter(node);
                self.declare(name.as_str(), IMPORT, node.span, DeclSite::Other);
                self.flags = if *type_only {
                    TYPE
                } else {
                    READ | TYPE
                };
                self.visit_all(reference, ambient);
                self.flags = 0;
                self.leave();
            },
            _ => {},
        }
        assert(self.state().walk.stack =~= start.walk.stack);
    }

    fn visit_function(&mut self, s: &Syntax, ambient: bool)
        requires
            old(self).valid(),
            s is Function,
        ensures
            final(self).valid(),
            final(self).state() == walked(old(self).state(), *s, ambient),
            in_place(old(self).state(), final(self).state()),
        decreases s, 1int,
    {
        let ghost start = self.state();
        if let Syntax::Function {
            node,
            form,
            own_name,
            declaration,
            declare,
            async_or_generator,
            has_parameter,
            has_return_type,
            signature,
            body,
        } = s {
            let inner = ambient || *declare;
            let flags: u32 = make_function_flags(*declaration, *declare, *async_or_generator);
            self.enter(node);
            if *declaration {
                self.declare_own(
                    own_name,
                    flags,
                    node.span,
                    DeclSite::Function { expression: false },
                );
                self.open(make_function_scope(*form));
            } else {
                self.open(make_function_scope(*form));
                self.declare_own(
                    own_name,
                    flags,
                    node.span,
                    DeclSite::Function { expression: true },
                );
            }
            let checkpoint: usize = self.builder.pending.len();
            self.visit_all(signature, inner);
            if *has_parameter || *has_return_type {
                self.settle(checkpoint);
            }
            self.visit_all(body, inner);
            self.close();
            self.leave();
        }
        assert(self.state().walk.stack =~= start.walk.stack);
    }

    fn visit_class(&mut self, s: &Syntax, ambient: bool)
        requires
            old(self).valid(),
            s is Class,
        ensures
            final(self).valid(),
            final(self).state() == walked(old(self).state(), *s, ambient),
            in_place(old(self).state(), final(self).state()),
        decreases s, 1int,
    {
        let ghost start = self.state();
        if let Syntax::Class {
            node,
            own_name,
            declaration,
            declare,
            decorators,
            type_parameters,
            heritage,
            parts,
        } = s {
            let inner = ambient || *declare;
            let flags: u32 = make_ambient_flags(CLASS, *declare);
            self.enter(node);
            if *declaration {
                self.declare_own(
                    own_name,
                    flags,
                    node.span,
                    DeclSite::Class { expression: false },
                );
            }
            self.visit_all(decorators, ambient);
            self.open(STRICT_SCOPE);
            if !*declaration {
                self.declare_own(
                    own_name,
                    flags,
                    node.span,
                    DeclSite::Class { expression: true },
                );
            }
            self.visit_all(type_parameters, inner);
            if let Some(h) = heritage {
                if inner {
                    self.flags = VALUE_AS_TYPE;
                }
                self.visit_all(&h.0, inner);
                self.flags = 0;
                self.visit_all(&h.1, inner);
            }
            self.visit_all(parts, inner);
            self.close();
            self.leave();
        }
        assert(self.state().walk.stack =~= start.walk.stack);
    }

    fn visit_class_member(&mut self, s: &Syntax, ambient: bool)
        requires
            old(self).valid(),
            s is ClassMember,
        ensures
            final(self).valid(),
            final(self).state() == walked(old(self).state(), *s, ambient),
            in_place(old(self).state(), final(self).state()),
        decreases s, 1int,
    {
        let ghost start = self.state();
        if let Syntax::ClassMember {
            node,
            declare,
            decorators,
            computed,
            is_abstract,
            key,
            parts,
        } = s {
            let inner = ambient || *declare;
            self.enter(node);
            self.visit_all(decorators, ambient);
            if *computed && (*is_abstract || inner) {
                self.flags = VALUE_AS_TYPE;
            }
            self.visit_all(key, inner);
            self.flags = 0;
            self.visit_all(parts, inner);
            self.leave();
        }
        assert(self.state().walk.stack =~= start.walk.stack);
    }

    fn visit_namespace(&mut self, s: &Syntax, ambient: bool)
        requires
            old(self).valid(),
            s is Namespace,
        ensures
            final(self).valid(),
            final(self).state() == walked(old(self).state(), *s, ambient),
            in_place(old(self).state(), final(self).state()),
        decreases s, 1int,
    {
        let ghost start = self.state();
        if let Syntax::Namespace { node, name, declare, block, body } = s {
            let inner = ambient || *declare;
            let flags: u32 = if statement_instantiates(s) {
                VALUE_MODULE
            } else {
                NAMESPACE_MODULE
            };
            self.enter(node);
            self.declare(
                name.as_str(),
                make_ambient_flags(flags, *declare),
                node.span,
                DeclSite::Other,
            );
            self.open(NAMESPACE_SCOPE);
            let ghost opened = self.state();
            match block {
                Some(n) => {
                    self.enter(n);
                    self.visit_all(body, inner);
                    self.leave();
                    assert(self.state().walk.stack =~= opened.walk.stack);
                },
                None => self.visit_all(body, inner),
            }
            self.close();
            self.leave();
        }
        assert(self.state().walk.stack =~= start.walk.stack);
    }

    fn visit_type(&mut self, s: &Syntax, ambient: bool)
        requires
            old(self).valid(),
            s is Named || s is TypeParameter || s is MappedType,
        ensures
            final(self).valid(),
            final(self).state() == walked(old(self).state(), *s, ambient),
            in_place(old(self).state(), final(self).state()),
        decreases s, 1int,
    {
        let ghost start = self.state();
        match s {
            Syntax::Named { node, what, name, declare, parts } => {
                let inner = ambient || *declare;
                self.enter(node);
                let flags: u32 = make_named_flags(*what, *declare);
                let (decl, scoped) = match what {
                    NamedKind::Interface => (DeclSite::Other, true),
                    NamedKind::TypeAlias => (DeclSite::Other, true),
                    NamedKind::Enum { constant } => (DeclSite::Enum, false),
                    NamedKind::EnumMember => (DeclSite::Other, false),
                };
                self.declare(name.as_str(), flags, node.span, decl);
                if scoped {
                    self.open(0);
                    self.visit_all(parts, inner);
                    self.close();
                } else {
                    self.visit_all(parts, inner);
                }
                self.leave();
            },
            Syntax::TypeParameter { node, name, parts } => {
                self.enter(node);
                let symbol = make_symbol(
                    name.as_str(),
                    TYPE_PARAMETER,
                    node.span,
                    DeclSite::Other,
                );
                let id: usize = self.builder.declare_type_parameter(symbol);
                self.visit_all(parts, ambient);
                self.leave();
            },
            Syntax::MappedType { node, name, parts } => {
                self.enter(node);
                self.open(0);
                self.declare(name.as_str(), TYPE_PARAMETER, node.span, DeclSite::Other);
                self.visit_all(parts, ambient);
                self.close();
                self.leave();
            },
            _ => {},
        }
        assert(self.state().walk.stack =~= start.walk.stack);
    }

    fn open_block(&mut self)
        requires
            old(self).valid(),
        ensures
            final(self).valid(),
            final(self).state() == (Visited {
                walk: entered_block(old(self).state().walk),
                ..old(self).state()
            }),
            scopes_stay(old(self).state(), final(self).state()),
            final(self).state().walk.module.scopes[final(self).state().walk.current].parent == Some(
                old(self).state().walk.current,
            ),
    {
        self.builder.enter_block();
    }

    fn bind_declarator(
        &mut self,
        span: Span,
        variable: VariableKind,
        declare: bool,
        head: bool,
        names: &Vec<String>,
    )
        requires
            old(self).valid(),
        ensures
            final(self).valid(),
            ({
                let s = SymbolModel {
                    var_for_head: head && variable is Var,
                    ..new_symbol(
                        Seq::empty(),
                        variable_flags(variable, declare),
                        span,
                        DeclModel::Declarator(span),
                    )
                };
                final(self).state() == if variable is Var {
                    declaring_vars(old(self).state(), texts(names@), s)
                } else {
                    declaring_names(old(self).state(), texts(names@), s)
                }
            }),
            in_place(old(self).state(), final(self).state()),
    {
        proof {
            reveal_strlit("");
            assert(""@ =~= Seq::<char>::empty());
        }
        let (flags, is_var): (u32, bool) = match variable {
            VariableKind::Var => (FUNCTION_SCOPED_VARIABLE, true),
            VariableKind::Let => (BLOCK_SCOPED_VARIABLE, false),
            _ => (BLOCK_SCOPED_VARIABLE | CONST_VARIABLE, false),
        };
        let mut symbol = make_symbol(
            "",
            make_ambient_flags(flags, declare),
            span,
            DeclSite::Declarator(span),
        );
        symbol.var_for_head = head && is_var;
        if is_var {
            self.builder.bind_var(names, &symbol);
        } else {
            self.builder.declare_names(names, &symbol);
        }
    }
}

fn make_ambient_flags(flags: u32, declare: bool) -> (r: u32)
    ensures
        r == ambient_flags(flags, declare),
{
    if declare {
        flags | AMBIENT
    } else {
        flags
    }
}

fn make_function_flags(declaration: bool, declare: bool, async_or_generator: bool) -> (r: u32)
    ensures
        r == function_flags(declaration, declare, async_or_generator),
{
    let mut flags: u32 = make_ambient_flags(FUNCTION, declare);
    if !declaration {
        flags = flags | FUNCTION_EXPRESSION;
    }
    if async_or_generator {
        flags = flags | ASYNC_OR_GENERATOR;
    }
    flags
}

fn make_function_scope(form: FunctionKind) -> (r: u16)
    ensures
        r == function_scope(form),
{
    match form {
        FunctionKind::Plain => FUNCTION_SCOPE,
        FunctionKind::Arrow => ARROW_SCOPE,
        FunctionKind::Constructor => CONSTRUCTOR_SCOPE,
        FunctionKind::Getter => GETTER_SCOPE,
        FunctionKind::Setter => SETTER_SCOPE,
    }
}

fn make_named_flags(what: NamedKind, declare: bool) -> (r: u32)
    ensures
        r == named_flags(what, declare),
{
    let flags: u32 = match what {
        NamedKind::Interface => INTERFACE,
        NamedKind::TypeAlias => TYPE_ALIAS,
        NamedKind::Enum { constant } => {
            if constant {
                CONST_ENUM
            } else {
                REGULAR_ENUM
            }
        },
        NamedKind::EnumMember => ENUM_MEMBER,
    };
    make_ambient_flags(flags, declare)
}

fn make_import_flags(import: ImportKind, of_types: bool) -> (r: u32)
    ensures
        r == import_flags(import, of_types),
{
    let typed = match import {
        ImportKind::Named { type_only } => type_only,
        _ => false,
    };
    if of_types || typed {
        TYPE_IMPORT
    } else {
        IMPORT
    }
}

fn make_import_decl(import: ImportKind) -> (r: DeclSite)
    ensures
        r.model() == import_decl(import),
{
    match import {
        ImportKind::Named { type_only } => DeclSite::NamedImport,
        ImportKind::Default => DeclSite::DefaultImport,
        ImportKind::Namespace => DeclSite::NamespaceImport,
    }
}

fn make_purpose(used_as: Use, flags: u8) -> (r: u8)
    ensures
        r == purpose(used_as, flags),
{
    match used_as {
        Use::Exported { type_only } => {
            if type_only {
                TYPE
            } else {
                READ | TYPE
            }
        },
        Use::TypeName => TYPE,
        Use::TypeQuery => VALUE_AS_TYPE,
        Use::Key { computed } => {
            if computed {
                VALUE_AS_TYPE
            } else {
                flags
            }
        },
    }
}

/// Whether a statement in a namespace makes it more than a namespace of types.
pub fn statement_instantiates(s: &Syntax) -> (r: bool)
    ensures
        r == instantiates(*s),
    decreases s,
{
    match s {
        Syntax::Named { what, .. } => match what {
            NamedKind::Interface => false,
            NamedKind::TypeAlias => false,
            _ => true,
        },
        Syntax::ImportEquals { .. } => false,
        Syntax::Namespace { body, .. } => {
            let mut i: usize = 0;
            while i < body.len()
                invariant
                    i <= body@.len(),
                    s is Namespace,
                    body == &s->Namespace_body,
                    forall|j: int| 0 <= j < i ==> !instantiates(#[trigger] body@[j]),
                decreases body@.len() - i,
            {
                assert(decreases_to!(*s => s->Namespace_body));
                assert(decreases_to!(s->Namespace_body => body@[i as int]));
                if statement_instantiates(&body[i]) {
                    return true;
                }
                i += 1;
            }
            false
        },
        Syntax::Export { default, parts, .. } => {
            if parts.len() == 0 {
                return true;
            }
            assert(decreases_to!(*s => s->Export_parts));
            assert(decreases_to!(s->Export_parts => parts@[0]));
            match &parts[0] {
                Syntax::Named { what, .. } => match what {
                    NamedKind::Interface => false,
                    NamedKind::TypeAlias => *default,
                    _ => true,
                },
                Syntax::Namespace { .. } => *default || statement_instantiates(&parts[0]),
                _ => true,
            }
        },
        _ => true,
    }
}

/// What the walk starts with.
pub open spec fn nothing_visited() -> Visited {
    Visited {
        walk: WalkData {
            module: ModuleData {
                scopes: seq![
                    ScopeData {
                        parent: None,
                        flags: TOP_SCOPE,
                        bindings: Seq::empty(),
                        hoisted: Seq::empty(),
                    },
                ],
                symbols: Seq::empty(),
                refs: Seq::empty(),
                sites: seq![Site { scope: 0, top_stmt_start: 0, program_level: false }],
                unresolved: Seq::empty(),
            },
            current: 0,
            stack: Seq::empty(),
            top_start: 0,
            pending: Seq::empty(),
        },
        flags: 0,
    }
}

/// The scopes, the symbols and the references of a module.
pub open spec fn module_scopes(program: Ancestor, statements: Vec<Syntax>) -> ModuleData {
    let a = in_node(nothing_visited(), program);
    finished(walked_upto(a, statements, false, statements@.len() as int).walk).module
}

impl ScopeModel {
    /// Finds the scopes of a module. `program` is the node of the module itself.
    pub fn build(program: &Ancestor, statements: &Vec<Syntax>) -> (r: ScopeModel)
        ensures
            r.data() == module_scopes(*program, *statements),
            r.data().valid(),
    {
        let mut walker = Walker { builder: Builder::new(), flags: 0 };
        walker.enter(program);
        walker.visit_all(statements, false);
        walker.builder.resolve_all();
        walker.builder.model
    }
}

fn make_symbol(name: &str, flags: u32, span: Span, decl: DeclSite) -> (r: Symbol)
    ensures
        r.model() == new_symbol(name@, flags, span, decl.model()),
{
    Symbol {
        name: name.to_owned(),
        flags,
        span,
        decl,
        redeclared: false,
        var_for_head: false,
        violated: false,
        mutated: false,
    }
}

} // verus!
