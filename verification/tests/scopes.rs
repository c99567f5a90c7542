use stylex::scope_builder::{
    can_refer, is_array_mutator, is_object_mutator, Ancestor, AncestorKind, Builder,
};
use stylex::scope_walk::{
    statement_instantiates, FunctionKind, ImportKind, NamedKind, Syntax, Use, VariableKind,
};
use stylex::scopes::{
    BindingDecl, DeclSite, RefParent, ScopeBackend, ScopeModel, Symbol, BLOCK_SCOPED_VARIABLE, CATCH_SCOPE,
    CONST_VARIABLE, FUNCTION, FUNCTION_SCOPED_VARIABLE, IMPORT, INTERFACE, READ, TYPE, TYPE_IMPORT, VAR_SCOPE,
    WRITE,
};
use stylex::shared::dynamic::Span;

fn span(start: u32, end: u32) -> Span {
    Span { start, end }
}

fn node(kind: AncestorKind, place: Span) -> Ancestor {
    Ancestor {
        kind,
        span: place,
        function_like: false,
        statement: false,
        exporting: false,
    }
}

fn program() -> Ancestor {
    Ancestor {
        exporting: true,
        ..node(AncestorKind::Other, span(0, 1000))
    }
}

fn statement(place: Span) -> Ancestor {
    Ancestor {
        statement: true,
        ..node(AncestorKind::Other, place)
    }
}

fn function(place: Span) -> Ancestor {
    Ancestor {
        function_like: true,
        ..statement(place)
    }
}

fn symbol(name: &str, flags: u32, place: Span, decl: DeclSite) -> Symbol {
    Symbol {
        name: name.to_string(),
        flags,
        span: place,
        decl,
        redeclared: false,
        var_for_head: false,
        violated: false,
        mutated: false,
    }
}

fn constant(name: &str, place: Span) -> Symbol {
    symbol(
        name,
        BLOCK_SCOPED_VARIABLE | CONST_VARIABLE,
        place,
        DeclSite::Declarator(place),
    )
}

#[test]
fn the_setting_selects_the_analysis() {
    assert_eq!(ScopeBackend::of_setting(Some("1")), ScopeBackend::Native);
    assert_eq!(ScopeBackend::of_setting(Some("0")), ScopeBackend::Oxc);
    assert_eq!(ScopeBackend::of_setting(None), ScopeBackend::Oxc);
}

/// `const a = 1; function f(a) { a; b; } a;`
fn shadowed() -> (Builder, usize, usize) {
    let mut b = Builder::new();
    b.enter_node(program());
    b.enter_node(statement(span(0, 12)));
    b.declare(constant("a", span(6, 11)));
    b.leave_node();
    b.enter_node(function(span(13, 40)));
    b.declare(symbol(
        "f",
        FUNCTION,
        span(13, 40),
        DeclSite::Function { expression: false },
    ));
    b.enter_scope(VAR_SCOPE);
    b.declare(symbol(
        "a",
        FUNCTION_SCOPED_VARIABLE,
        span(24, 25),
        DeclSite::Param("Identifier".to_string()),
    ));
    b.add_reference("a".to_string(), span(30, 31), READ);
    b.add_reference("b".to_string(), span(33, 34), READ);
    let inner = b.push_site();
    b.leave_scope();
    b.leave_node();
    b.enter_node(statement(span(41, 43)));
    b.add_reference("a".to_string(), span(41, 42), READ);
    let outer = b.push_site();
    b.leave_node();
    b.leave_node();
    b.resolve_all();
    (b, inner, outer)
}

#[test]
fn references_find_the_nearest_declaration() {
    let (b, inner, outer) = shadowed();
    let m = &b.model;
    let root = m.root_binding("a").unwrap();
    assert_eq!(m.symbol_of(Some(2)), Some(root));
    assert_ne!(m.symbol_of(Some(0)), Some(root));
    assert!(m.symbol_of(Some(0)).is_some());
    assert_eq!(m.symbol_of(Some(1)), None);
    assert_eq!(m.symbol_of(None), None);
    assert!(!m.resolves_to_root_binding(inner, "a"));
    assert!(m.resolves_to_root_binding(outer, "a"));
    assert!(m.any_binding_at(inner, "f"));
    assert!(!m.any_binding_at(inner, "b"));
    assert!(m.uid_name_taken("b"));
    assert!(m.uid_name_taken("f"));
    assert!(!m.uid_name_taken("g"));
}

#[test]
fn sites_know_their_statement() {
    let (b, inner, outer) = shadowed();
    assert!(!b.model.is_program_level(inner));
    assert!(b.model.is_program_level(outer));
    assert_eq!(b.model.program_statement_start(inner), 13);
    assert_eq!(b.model.program_statement_start(outer), 41);
}

#[test]
fn bindings_are_described_by_their_declarations() {
    let (b, _, _) = shadowed();
    let m = &b.model;
    let info = m.binding_info(m.root_binding("a").unwrap());
    assert_eq!(info.decl, BindingDecl::Declarator(span(6, 11)));
    assert_eq!(info.span, span(6, 11));
    let info = m.binding_info(m.root_binding("f").unwrap());
    assert_eq!(
        info.decl,
        BindingDecl::Opaque("FunctionDeclaration".to_string())
    );
}

#[test]
fn starts_of_references_are_listed_in_order() {
    let (b, _, _) = shadowed();
    let names = vec!["a".to_string(), "b".to_string()];
    let all = vec![true; b.model.refs.len()];
    assert_eq!(
        b.model.reference_starts_where(&names, &all),
        vec![30, 33, 41]
    );
    let last = vec![false, false, true];
    assert_eq!(b.model.reference_starts_where(&names, &last), vec![41]);
}

#[test]
fn writes_violate_constness() {
    let mut b = Builder::new();
    b.enter_node(program());
    b.declare(constant("a", span(0, 5)));
    b.declare(constant("b", span(6, 9)));
    b.add_reference("a".to_string(), span(10, 11), WRITE);
    b.add_reference("b".to_string(), span(12, 13), READ);
    b.leave_node();
    b.resolve_all();
    let a = b.model.root_binding("a").unwrap();
    let other = b.model.root_binding("b").unwrap();
    assert_eq!(b.model.constness(a).0, true);
    assert_eq!(b.model.constness(other), (false, false));
}

#[test]
fn a_write_to_a_member_changes_the_object() {
    let mut b = Builder::new();
    b.enter_node(program());
    b.declare(constant("a", span(0, 5)));
    b.enter_node(node(
        AncestorKind::Assignment { left: span(10, 13) },
        span(10, 17),
    ));
    b.enter_node(node(
        AncestorKind::Member {
            object: span(10, 11),
            property: Some("x".to_string()),
        },
        span(10, 13),
    ));
    b.add_reference("a".to_string(), span(10, 11), READ);
    b.leave_node();
    b.leave_node();
    b.leave_node();
    b.resolve_all();
    assert_eq!(
        b.model.refs[0].parent,
        RefParent::Member {
            property: Some("x".to_string())
        }
    );
    let a = b.model.root_binding("a").unwrap();
    assert_eq!(b.model.constness(a), (false, true));
}

#[test]
fn vars_belong_to_the_function_around_them() {
    let mut b = Builder::new();
    b.enter_node(program());
    b.enter_node(function(span(0, 50)));
    b.enter_scope(VAR_SCOPE);
    b.enter_block();
    b.bind_var(
        &vec!["v".to_string()],
        &symbol(
            "v",
            FUNCTION_SCOPED_VARIABLE,
            span(20, 25),
            DeclSite::Declarator(span(20, 25)),
        ),
    );
    let inside = b.current_scope;
    b.leave_scope();
    let around = b.current_scope;
    b.leave_scope();
    b.leave_node();
    b.leave_node();
    b.resolve_all();
    assert!(b.model.get_binding(around, "v").is_some());
    assert_eq!(
        b.model.find_binding(inside, "v"),
        b.model.get_binding(around, "v")
    );
    assert_eq!(b.model.root_binding("v"), None);
}

#[test]
fn scopes_are_left_where_they_were_entered() {
    let mut b = Builder::new();
    let before = b.current_scope;
    b.enter_scope(VAR_SCOPE);
    assert_ne!(b.current_scope, before);
    b.leave_scope();
    assert_eq!(b.current_scope, before);
}

#[test]
fn types_and_values_are_referred_to_apart() {
    assert!(can_refer(READ, CONST_VARIABLE | BLOCK_SCOPED_VARIABLE));
    assert!(!can_refer(READ, INTERFACE));
    assert!(can_refer(TYPE, INTERFACE));
    assert!(!can_refer(TYPE, FUNCTION));
    assert!(can_refer(READ, IMPORT));
    assert!(can_refer(TYPE, TYPE_IMPORT));
}

fn reference(name: &str, start: u32) -> Syntax {
    Syntax::Reference {
        name: name.to_string(),
        span: span(start, start + 1),
    }
}

fn declarator(name: &str, variable: VariableKind, place: Span, parts: Vec<Syntax>) -> Syntax {
    Syntax::Declarator {
        node: node(AncestorKind::Other, place),
        variable,
        declare: false,
        head: false,
        names: vec![name.to_string()],
        parts,
    }
}

fn named_function(name: &str, place: Span, signature: Vec<Syntax>, body: Vec<Syntax>) -> Syntax {
    Syntax::Function {
        node: function(place),
        form: FunctionKind::Plain,
        own_name: Some(name.to_string()),
        declaration: true,
        declare: false,
        async_or_generator: false,
        has_parameter: !signature.is_empty(),
        has_return_type: false,
        signature,
        body,
    }
}

fn parameter(name: &str, place: Span, parts: Vec<Syntax>) -> Syntax {
    Syntax::Parameter {
        node: node(AncestorKind::Other, place),
        names: vec![name.to_string()],
        pattern: Some("Identifier".to_string()),
        parts,
    }
}

/// `const y = 1; function f(x = y) { var y; y; }`
#[test]
fn parameters_do_not_see_the_declarations_of_the_body() {
    let m = ScopeModel::build(
        &program(),
        &vec![
            declarator("y", VariableKind::Const, span(0, 5), vec![]),
            named_function(
                "f",
                span(10, 60),
                vec![parameter("x", span(20, 25), vec![reference("y", 24)])],
                vec![
                    declarator("y", VariableKind::Var, span(30, 35), vec![]),
                    reference("y", 40),
                ],
            ),
        ],
    );
    let outer = m.root_binding("y").unwrap();
    assert_eq!(m.symbol_of(Some(0)), Some(outer));
    assert_ne!(m.symbol_of(Some(1)), Some(outer));
    assert!(m.symbol_of(Some(1)).is_some());
    assert_eq!(
        m.binding_info(m.root_binding("f").unwrap()).decl,
        BindingDecl::Opaque("FunctionDeclaration".to_string())
    );
}

/// `let a; a += 1; a.b = 2; delete a.c;`
#[test]
fn targets_of_assignments_are_written() {
    let member = |start: u32| Syntax::Member {
        node: node(
            AncestorKind::Member {
                object: span(start, start + 1),
                property: Some("b".to_string()),
            },
            span(start, start + 3),
        ),
        private: false,
        object: vec![reference("a", start)],
        key: vec![],
    };
    let assignment = |start: u32, end: u32, compound: bool, to: Syntax| Syntax::Assignment {
        node: node(
            AncestorKind::Assignment {
                left: span(start, end),
            },
            span(start, end + 4),
        ),
        compound,
        to: vec![Syntax::Target { parts: vec![to] }],
        value: vec![],
    };
    let declared = |parts: Vec<Syntax>| {
        let mut all = vec![declarator("a", VariableKind::Let, span(0, 5), vec![])];
        all.extend(parts);
        let m = ScopeModel::build(&program(), &all);
        let a = m.root_binding("a").unwrap();
        m.constness(a)
    };
    assert_eq!(declared(vec![reference("a", 10)]), (false, false));
    assert_eq!(
        declared(vec![assignment(10, 11, true, reference("a", 10))]),
        (true, false)
    );
    assert_eq!(
        declared(vec![assignment(10, 13, false, member(10))]),
        (false, true)
    );
    let deleted = Syntax::Unary {
        node: node(AncestorKind::Unary { delete: true }, span(9, 13)),
        delete_member: true,
        argument: vec![member(10)],
    };
    assert_eq!(declared(vec![deleted]), (false, true));
}

/// `for (var i of l) {} try {} catch (e) { e; }`
#[test]
fn heads_of_loops_and_catches_bind_their_names() {
    let head = Syntax::Declarator {
        node: node(AncestorKind::Other, span(5, 10)),
        variable: VariableKind::Var,
        declare: false,
        head: true,
        names: vec!["i".to_string()],
        parts: vec![],
    };
    let m = ScopeModel::build(
        &program(),
        &vec![
            Syntax::Scoped {
                node: statement(span(0, 20)),
                before: vec![],
                flags: 0,
                parts: vec![head],
                after: vec![],
            },
            Syntax::Scoped {
                node: node(AncestorKind::Other, span(30, 60)),
                before: vec![],
                flags: CATCH_SCOPE,
                parts: vec![
                    Syntax::CatchParameter {
                        node: node(AncestorKind::Other, span(36, 37)),
                        clause: span(30, 60),
                        ident: Some("e".to_string()),
                        names: vec!["e".to_string()],
                        parts: vec![],
                    },
                    Syntax::Block {
                        node: statement(span(40, 60)),
                        parts: vec![reference("e", 45)],
                    },
                ],
                after: vec![],
            },
        ],
    );
    assert_eq!(m.constness(m.root_binding("i").unwrap()), (true, false));
    assert_eq!(m.root_binding("e"), None);
    let e = m.symbol_of(Some(0)).unwrap();
    assert_eq!(
        m.binding_info(e).decl,
        BindingDecl::Opaque("CatchClause".to_string())
    );
    assert_eq!(m.binding_info(e).span, span(30, 60));
}

/// `import type { T } from 'm'; import d from 'm'; export { T }; d; T;`
#[test]
fn imports_of_types_are_no_values() {
    let specifier = |import: ImportKind, of_types: bool, name: &str, start: u32| {
        Syntax::ImportSpecifier {
            node: node(AncestorKind::Other, span(start, start + 1)),
            import,
            of_types,
            name: name.to_string(),
        }
    };
    let m = ScopeModel::build(
        &program(),
        &vec![
            specifier(ImportKind::Named { type_only: false }, true, "T", 0),
            specifier(ImportKind::Default, false, "d", 5),
            Syntax::Marked {
                used_as: Use::Exported { type_only: false },
                parts: vec![reference("T", 20)],
            },
            reference("d", 30),
            reference("T", 40),
        ],
    );
    let t = m.root_binding("T").unwrap();
    assert_eq!(m.symbol_of(Some(0)), Some(t));
    assert_eq!(m.symbol_of(Some(1)), m.root_binding("d"));
    assert_eq!(m.symbol_of(Some(2)), None);
    assert!(m.uid_name_taken("T"));
    assert_eq!(m.binding_info(t).decl, BindingDecl::NamedImport);
}

#[test]
fn namespaces_of_types_are_not_instantiated() {
    let named = |what: NamedKind| Syntax::Named {
        node: statement(span(5, 10)),
        what,
        name: "N".to_string(),
        declare: false,
        parts: vec![],
    };
    let namespace = |body: Vec<Syntax>| Syntax::Namespace {
        node: statement(span(0, 20)),
        name: "M".to_string(),
        declare: false,
        block: None,
        body,
    };
    assert!(!statement_instantiates(&namespace(vec![named(
        NamedKind::Interface
    )])));
    assert!(statement_instantiates(&namespace(vec![
        named(NamedKind::TypeAlias),
        named(NamedKind::Enum { constant: false }),
    ])));
    assert!(!statement_instantiates(&namespace(vec![namespace(vec![])])));
    let export = |parts: Vec<Syntax>| Syntax::Export {
        node: statement(span(3, 20)),
        default: false,
        parts,
    };
    assert!(!statement_instantiates(&export(vec![named(
        NamedKind::TypeAlias
    )])));
    assert!(statement_instantiates(&export(vec![reference("a", 9)])));
}

#[test]
fn calls_that_change_what_they_are_given() {
    let name = |s: &str| Some(s.to_string());
    assert!(is_array_mutator(&name("push")));
    assert!(is_array_mutator(&name("copyWithin")));
    assert!(!is_array_mutator(&name("map")));
    assert!(!is_array_mutator(&None));
    let method = |a: &str, b: &str| Some((a.to_string(), b.to_string()));
    assert!(is_object_mutator(&method("Object", "assign")));
    assert!(is_object_mutator(&method("Object", "setPrototypeOf")));
    assert!(!is_object_mutator(&method("Object", "keys")));
    assert!(!is_object_mutator(&method("Reflect", "defineProperty")));
    assert!(!is_object_mutator(&None));
}

#[test]
fn a_call_of_an_array_method_changes_the_array() {
    for (property, changed) in [("push", true), ("slice", false)] {
        let mut b = Builder::new();
        b.enter_node(program());
        b.declare(constant("a", span(0, 5)));
        b.enter_node(node(
            AncestorKind::Call {
                callee: span(10, 16),
                first_argument: None,
                method: Some(("a".to_string(), property.to_string())),
            },
            span(10, 18),
        ));
        b.enter_node(node(
            AncestorKind::Member {
                object: span(10, 11),
                property: Some(property.to_string()),
            },
            span(10, 16),
        ));
        b.add_reference("a".to_string(), span(10, 11), READ);
        b.leave_node();
        b.leave_node();
        b.leave_node();
        b.resolve_all();
        let a = b.model.root_binding("a").unwrap();
        assert_eq!(b.model.constness(a), (false, changed));
    }
}

#[test]
fn a_method_of_object_changes_its_first_argument() {
    for (name, changed) in [("assign", true), ("keys", false)] {
        let mut b = Builder::new();
        b.enter_node(program());
        b.declare(constant("a", span(0, 5)));
        b.enter_node(node(
            AncestorKind::Call {
                callee: span(10, 23),
                first_argument: Some(span(24, 25)),
                method: Some(("Object".to_string(), name.to_string())),
            },
            span(10, 26),
        ));
        b.add_reference("a".to_string(), span(24, 25), READ);
        b.leave_node();
        b.leave_node();
        b.resolve_all();
        let a = b.model.root_binding("a").unwrap();
        assert_eq!(b.model.constness(a), (false, changed));
    }
}
