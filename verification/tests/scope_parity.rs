use oxc_allocator::Allocator;
use oxc_ast::ast::{
    ArrowFunctionExpression, AssignmentExpression, AssignmentTargetPropertyIdentifier,
    BigIntLiteral, BindingIdentifier, BindingPattern, BooleanLiteral, CallExpression, CatchClause,
    CatchParameter, Class, ClassElement, ComputedMemberExpression, ConditionalExpression,
    DebuggerStatement, Directive, EmptyStatement, ExportDefaultDeclarationKind,
    ExportNamedDeclaration, Expression, ForInStatement, ForOfStatement, ForStatementLeft,
    FormalParameter, FormalParameterRest, Function, Hashbang, IdentifierName, IdentifierReference,
    ImportDeclaration, ImportDefaultSpecifier, ImportNamespaceSpecifier, ImportSpecifier,
    JSXEmptyExpression, JSXIdentifier, JSXOpeningElement, JSXText, LabelIdentifier,
    MethodDefinition, MethodDefinitionKind, NullLiteral, NumericLiteral, PrivateFieldExpression,
    PrivateIdentifier, Program, PropertyDefinition, RegExpLiteral, SimpleAssignmentTarget,
    StaticMemberExpression, StringLiteral, Super, TSClassImplements, TSEnumDeclaration,
    TSEnumMember, TSEnumMemberName, TSExportAssignment, TSExternalModuleDeclaration,
    TSGlobalDeclaration, TSImportEqualsDeclaration, TSInterfaceDeclaration, TSInterfaceHeritage,
    TSMappedType, TSMethodSignature, TSModuleBlock, TSModuleReference, TSNamespaceDeclaration,
    TSNamespaceDeclarationBody, TSPropertySignature, TSTypeAliasDeclaration, TSTypeParameter,
    TSTypeQuery, TSTypeReference, TemplateElement, ThisExpression, VariableDeclaration,
    VariableDeclarationKind, VariableDeclarator,
};
use oxc_ast::AstKind;
use oxc_ast_visit::{walk, Visit};
use oxc_parser::Parser;
use oxc_semantic::{Semantic, SemanticBuilder};
use oxc_span::{GetSpan, SourceType};
use oxc_str::Ident;
use oxc_syntax::node::NodeId;
use oxc_syntax::operator::UnaryOperator;
use oxc_syntax::reference::ReferenceId;
use oxc_syntax::scope::{ScopeFlags, ScopeId};
use oxc_syntax::symbol::SymbolId;
use std::cell::Cell;
use std::collections::BTreeSet;
use stylex::scope_builder::{is_array_mutator, is_object_mutator, Ancestor, AncestorKind};
use stylex::scope_walk::{FunctionKind, ImportKind, NamedKind, Syntax, Use, VariableKind};
use stylex::scopes::{BindingDecl, RefParent, ScopeModel};
use stylex::shared::dynamic::Span as Place;

fn place(span: oxc_span::Span) -> Place {
    Place {
        start: span.start,
        end: span.end,
    }
}

fn is_export(kind: AstKind<'_>) -> bool {
    matches!(
        kind,
        AstKind::ExportDeclaration(_)
            | AstKind::ExportNamedDeclaration(_)
            | AstKind::ExportFromDeclaration(_)
            | AstKind::ExportDefaultDeclaration(_)
            | AstKind::ExportAllDeclaration(_)
    )
}

fn is_statement(kind: AstKind<'_>) -> bool {
    match kind {
        AstKind::Function(function) => function.is_declaration(),
        AstKind::Class(class) => class.is_declaration(),
        AstKind::BlockStatement(_)
        | AstKind::EmptyStatement(_)
        | AstKind::ExpressionStatement(_)
        | AstKind::IfStatement(_)
        | AstKind::DoWhileStatement(_)
        | AstKind::WhileStatement(_)
        | AstKind::ForStatement(_)
        | AstKind::ForInStatement(_)
        | AstKind::ForOfStatement(_)
        | AstKind::ContinueStatement(_)
        | AstKind::BreakStatement(_)
        | AstKind::ReturnStatement(_)
        | AstKind::WithStatement(_)
        | AstKind::SwitchStatement(_)
        | AstKind::LabeledStatement(_)
        | AstKind::ThrowStatement(_)
        | AstKind::TryStatement(_)
        | AstKind::DebuggerStatement(_)
        | AstKind::VariableDeclaration(_)
        | AstKind::ImportDeclaration(_)
        | AstKind::TSEnumDeclaration(_)
        | AstKind::TSTypeAliasDeclaration(_)
        | AstKind::TSInterfaceDeclaration(_)
        | AstKind::TSExternalModuleDeclaration(_)
        | AstKind::TSNamespaceDeclaration(_)
        | AstKind::TSGlobalDeclaration(_)
        | AstKind::TSImportEqualsDeclaration(_)
        | AstKind::TSExportAssignment(_)
        | AstKind::TSNamespaceExportDeclaration(_) => true,
        other => is_export(other),
    }
}

/// The names of an object and its method, where such a method is called.
fn method_of(callee: &Expression<'_>) -> Option<(String, String)> {
    match callee {
        Expression::StaticMemberExpression(member) => match &member.object {
            Expression::Identifier(object) => {
                Some((object.name.to_string(), member.property.name.to_string()))
            }
            _ => None,
        },
        _ => None,
    }
}

fn ancestor_kind(kind: AstKind<'_>) -> AncestorKind {
    match kind {
        AstKind::ParenthesizedExpression(_) => AncestorKind::Paren,
        AstKind::StaticMemberExpression(member) => AncestorKind::Member {
            object: place(member.object.span()),
            property: Some(member.property.name.to_string()),
        },
        AstKind::ComputedMemberExpression(member) => AncestorKind::Member {
            object: place(member.object.span()),
            property: None,
        },
        AstKind::PrivateFieldExpression(member) => AncestorKind::Member {
            object: place(member.object.span()),
            property: None,
        },
        AstKind::AssignmentExpression(assignment) => AncestorKind::Assignment {
            left: place(assignment.left.span()),
        },
        AstKind::UpdateExpression(_) => AncestorKind::Update,
        AstKind::UnaryExpression(unary) => AncestorKind::Unary {
            delete: unary.operator == UnaryOperator::Delete,
        },
        AstKind::CallExpression(call) => AncestorKind::Call {
            callee: place(call.callee.span()),
            first_argument: call
                .arguments
                .first()
                .and_then(|argument| argument.as_expression())
                .map(|argument| place(argument.span())),
            method: method_of(&call.callee),
        },
        AstKind::TSInferType(_) => AncestorKind::Infer,
        _ => AncestorKind::Other,
    }
}

fn ancestor(kind: AstKind<'_>) -> Ancestor {
    Ancestor {
        kind: ancestor_kind(kind),
        span: place(kind.span()),
        function_like: kind.is_function_like(),
        statement: is_statement(kind),
        exporting: matches!(kind, AstKind::Program(_)) || is_export(kind),
    }
}

fn bound_names(pattern: &BindingPattern<'_>, names: &mut Vec<String>) {
    match pattern {
        BindingPattern::BindingIdentifier(ident) => names.push(ident.name.to_string()),
        BindingPattern::ObjectPattern(object) => {
            for property in &object.properties {
                bound_names(&property.value, names);
            }
            if let Some(rest) = &object.rest {
                bound_names(&rest.argument, names);
            }
        }
        BindingPattern::ArrayPattern(array) => {
            for element in array.elements.iter().flatten() {
                bound_names(element, names);
            }
            if let Some(rest) = &array.rest {
                bound_names(&rest.argument, names);
            }
        }
        BindingPattern::AssignmentPattern(assignment) => bound_names(&assignment.left, names),
    }
}

fn names_of(pattern: &BindingPattern<'_>) -> Vec<String> {
    let mut names = Vec::new();
    bound_names(pattern, &mut names);
    names
}

fn pattern_type(pattern: &BindingPattern<'_>) -> String {
    match pattern {
        BindingPattern::BindingIdentifier(_) => "Identifier",
        BindingPattern::ObjectPattern(_) => "ObjectPattern",
        BindingPattern::ArrayPattern(_) => "ArrayPattern",
        BindingPattern::AssignmentPattern(_) => "AssignmentPattern",
    }
    .to_string()
}

fn variable_kind(kind: VariableDeclarationKind) -> VariableKind {
    match kind {
        VariableDeclarationKind::Var => VariableKind::Var,
        VariableDeclarationKind::Let => VariableKind::Let,
        VariableDeclarationKind::Const => VariableKind::Const,
        VariableDeclarationKind::Using => VariableKind::Using,
        VariableDeclarationKind::AwaitUsing => VariableKind::AwaitUsing,
    }
}

fn head_of(left: &ForStatementLeft<'_>) -> Option<Place> {
    match left {
        ForStatementLeft::VariableDeclaration(declaration) => declaration
            .declarations
            .first()
            .map(|declarator| place(declarator.span)),
        _ => None,
    }
}

fn member_name(id: &TSEnumMemberName<'_>) -> String {
    match id {
        TSEnumMemberName::Identifier(ident) => ident.name.to_string(),
        TSEnumMemberName::String(lit) | TSEnumMemberName::ComputedString(lit) => {
            lit.value.to_string()
        }
        TSEnumMemberName::ComputedTemplateString(template) => template
            .quasis
            .first()
            .map(|quasi| quasi.value.cooked.unwrap_or(quasi.value.raw).to_string())
            .unwrap_or_default(),
    }
}

/// A node whose parts are being collected.
struct Open {
    node: Ancestor,
    before: Vec<Syntax>,
    flags: Option<u16>,
    inside: Vec<Syntax>,
}

struct Converter {
    open: Vec<Open>,
    parts: Vec<Vec<Syntax>>,
    references: usize,
    sites: usize,
    variables: Vec<(VariableKind, bool)>,
    head: Option<Place>,
    import_of_types: bool,
    clause: Place,
    abstract_member: bool,
}

impl Converter {
    fn new() -> Converter {
        Converter {
            open: Vec::new(),
            parts: vec![Vec::new()],
            references: 0,
            sites: 1,
            variables: Vec::new(),
            head: None,
            import_of_types: false,
            clause: Place { start: 0, end: 0 },
            abstract_member: false,
        }
    }

    fn push(&mut self, syntax: Syntax) {
        if let Some(parts) = self.parts.last_mut() {
            parts.push(syntax);
        }
    }

    fn group(&mut self, visit: impl FnOnce(&mut Self)) -> Vec<Syntax> {
        self.parts.push(Vec::new());
        visit(self);
        self.parts.pop().unwrap_or_default()
    }

    fn taken(&mut self) -> Vec<Syntax> {
        self.parts.last_mut().map(std::mem::take).unwrap_or_default()
    }

    fn tag_site(&mut self, cell: &Cell<NodeId>) {
        cell.set(NodeId::from_usize(self.sites));
        self.sites += 1;
    }

    fn reference(&mut self, ident: &IdentifierReference<'_>) -> (String, Place) {
        ident
            .reference_id
            .set(Some(ReferenceId::from_usize(self.references)));
        self.references += 1;
        (ident.name.to_string(), place(ident.span))
    }

    fn marked(&mut self, visit: impl FnOnce(&mut Self)) {
        let mut walked = self.group(visit);
        if let Some(Syntax::Plain { node, parts }) = walked.pop() {
            self.push(Syntax::Plain {
                node,
                parts: vec![Syntax::Marked {
                    used_as: Use::TypeName,
                    parts,
                }],
            });
        }
    }

    fn specifier(&mut self, node: Ancestor, import: ImportKind, name: String) {
        let of_types = self.import_of_types;
        self.push(Syntax::ImportSpecifier {
            node,
            import,
            of_types,
            name,
        });
    }

    fn function<'a>(&mut self, func: &Function<'a>, form: FunctionKind) {
        let node = ancestor(AstKind::Function(<Converter as Visit<'a>>::alloc(self, func)));
        let signature = self.group(|c| {
            if let Some(type_parameters) = &func.type_parameters {
                c.visit_ts_type_parameter_declaration(type_parameters);
            }
            if let Some(this_param) = &func.this_param {
                c.visit_ts_this_parameter(this_param);
            }
            c.visit_formal_parameters(&func.params);
            if let Some(return_type) = &func.return_type {
                c.visit_ts_type_annotation(return_type);
            }
        });
        let body = self.group(|c| {
            if let Some(body) = &func.body {
                c.visit_function_body(body);
            }
        });
        self.push(Syntax::Function {
            node,
            form,
            own_name: func.id.as_ref().map(|id| id.name.to_string()),
            declaration: func.is_declaration(),
            declare: func.declare,
            async_or_generator: func.generator,
            has_parameter: func.params.has_parameter(),
            has_return_type: func.return_type.is_some(),
            signature,
            body,
        });
    }
}

impl<'a> Visit<'a> for Converter {
    fn enter_node(&mut self, kind: AstKind<'a>) {
        match kind {
            AstKind::CallExpression(call) => self.tag_site(&call.node_id),
            AstKind::JSXOpeningElement(element) => self.tag_site(&element.node_id),
            _ => {}
        }
        self.open.push(Open {
            node: ancestor(kind),
            before: Vec::new(),
            flags: None,
            inside: Vec::new(),
        });
        self.parts.push(Vec::new());
    }

    fn leave_node(&mut self, kind: AstKind<'a>) {
        let parts = self.parts.pop().unwrap_or_default();
        let Some(open) = self.open.pop() else {
            return;
        };
        let node = open.node;
        let syntax = match (kind, open.flags) {
            (AstKind::BlockStatement(_), _) => Syntax::Block {
                node,
                parts: open.inside,
            },
            (AstKind::CallExpression(_) | AstKind::JSXOpeningElement(_), _) => {
                Syntax::Site { node, parts }
            }
            (AstKind::UpdateExpression(_), _) => Syntax::Update {
                node,
                target: parts,
            },
            (AstKind::UnaryExpression(unary), _) => Syntax::Unary {
                node,
                delete_member: unary.operator == UnaryOperator::Delete
                    && unary.argument.is_member_expression(),
                argument: parts,
            },
            (AstKind::ExportDeclaration(_), _) => Syntax::Export {
                node,
                default: false,
                parts,
            },
            (AstKind::ExportDefaultDeclaration(_), _) => Syntax::Export {
                node,
                default: true,
                parts,
            },
            (AstKind::TSQualifiedName(_), _) => Syntax::Qualified { node, left: parts },
            (_, None) => Syntax::Plain { node, parts },
            (_, Some(flags)) => Syntax::Scoped {
                node,
                before: open.before,
                flags,
                parts: open.inside,
                after: parts,
            },
        };
        self.push(syntax);
    }

    fn enter_scope(&mut self, flags: ScopeFlags, _scope_id: &Cell<Option<ScopeId>>) {
        let before = self.taken();
        if let Some(open) = self.open.last_mut() {
            open.before = before;
            open.flags = Some(flags.bits());
        }
    }

    fn leave_scope(&mut self) {
        let inside = self.taken();
        if let Some(open) = self.open.last_mut() {
            open.inside = inside;
        }
    }

    fn visit_identifier_name(&mut self, _: &IdentifierName<'a>) {}
    fn visit_binding_identifier(&mut self, _: &BindingIdentifier<'a>) {}
    fn visit_label_identifier(&mut self, _: &LabelIdentifier<'a>) {}
    fn visit_private_identifier(&mut self, _: &PrivateIdentifier<'a>) {}
    fn visit_this_expression(&mut self, _: &ThisExpression) {}
    fn visit_super(&mut self, _: &Super) {}
    fn visit_boolean_literal(&mut self, _: &BooleanLiteral) {}
    fn visit_null_literal(&mut self, _: &NullLiteral) {}
    fn visit_numeric_literal(&mut self, _: &NumericLiteral<'a>) {}
    fn visit_string_literal(&mut self, _: &StringLiteral<'a>) {}
    fn visit_big_int_literal(&mut self, _: &BigIntLiteral<'a>) {}
    fn visit_reg_exp_literal(&mut self, _: &RegExpLiteral<'a>) {}
    fn visit_template_element(&mut self, _: &TemplateElement<'a>) {}
    fn visit_jsx_text(&mut self, _: &JSXText<'a>) {}
    fn visit_jsx_identifier(&mut self, _: &JSXIdentifier<'a>) {}
    fn visit_jsx_empty_expression(&mut self, _: &JSXEmptyExpression) {}
    fn visit_empty_statement(&mut self, _: &EmptyStatement) {}
    fn visit_debugger_statement(&mut self, _: &DebuggerStatement) {}
    fn visit_directive(&mut self, _: &Directive<'a>) {}
    fn visit_hashbang(&mut self, _: &Hashbang<'a>) {}

    fn visit_identifier_reference(&mut self, ident: &IdentifierReference<'a>) {
        let (name, span) = self.reference(ident);
        self.push(Syntax::Reference { name, span });
    }

    fn visit_static_member_expression(&mut self, it: &StaticMemberExpression<'a>) {
        let node = ancestor(AstKind::StaticMemberExpression(self.alloc(it)));
        self.tag_site(&it.node_id);
        let object = self.group(|c| c.visit_expression(&it.object));
        self.push(Syntax::Member {
            node,
            private: false,
            object,
            key: Vec::new(),
        });
    }

    fn visit_computed_member_expression(&mut self, it: &ComputedMemberExpression<'a>) {
        let node = ancestor(AstKind::ComputedMemberExpression(self.alloc(it)));
        self.tag_site(&it.node_id);
        let object = self.group(|c| c.visit_expression(&it.object));
        let key = self.group(|c| c.visit_expression(&it.expression));
        self.push(Syntax::Member {
            node,
            private: false,
            object,
            key,
        });
    }

    fn visit_private_field_expression(&mut self, it: &PrivateFieldExpression<'a>) {
        let node = ancestor(AstKind::PrivateFieldExpression(self.alloc(it)));
        let object = self.group(|c| c.visit_expression(&it.object));
        self.push(Syntax::Member {
            node,
            private: true,
            object,
            key: Vec::new(),
        });
    }

    fn visit_assignment_expression(&mut self, expr: &AssignmentExpression<'a>) {
        let node = ancestor(AstKind::AssignmentExpression(self.alloc(expr)));
        let to = self.group(|c| c.visit_assignment_target(&expr.left));
        let value = self.group(|c| c.visit_expression(&expr.right));
        self.push(Syntax::Assignment {
            node,
            compound: !expr.operator.is_assign(),
            to,
            value,
        });
    }

    fn visit_conditional_expression(&mut self, expr: &ConditionalExpression<'a>) {
        let node = ancestor(AstKind::ConditionalExpression(self.alloc(expr)));
        let test = self.group(|c| c.visit_expression(&expr.test));
        let branches = self.group(|c| {
            c.visit_expression(&expr.consequent);
            c.visit_expression(&expr.alternate);
        });
        self.push(Syntax::Conditional {
            node,
            test,
            branches,
        });
    }

    fn visit_simple_assignment_target(&mut self, it: &SimpleAssignmentTarget<'a>) {
        let parts = self.group(|c| walk::walk_simple_assignment_target(c, it));
        self.push(Syntax::Target { parts });
    }

    fn visit_assignment_target_property_identifier(
        &mut self,
        it: &AssignmentTargetPropertyIdentifier<'a>,
    ) {
        let node = ancestor(AstKind::AssignmentTargetPropertyIdentifier(self.alloc(it)));
        let (name, span) = self.reference(&it.binding);
        let init = self.group(|c| {
            if let Some(init) = &it.init {
                c.visit_expression(init);
            }
        });
        self.push(Syntax::TargetProperty {
            node,
            name,
            span,
            init,
        });
    }

    fn visit_export_default_declaration_kind(&mut self, it: &ExportDefaultDeclarationKind<'a>) {
        match it {
            ExportDefaultDeclarationKind::Identifier(ident) => {
                let parts = self.group(|c| c.visit_identifier_reference(ident));
                self.push(Syntax::Marked {
                    used_as: Use::Exported { type_only: false },
                    parts,
                });
            }
            other => walk::walk_export_default_declaration_kind(self, other),
        }
    }

    fn visit_export_named_declaration(&mut self, it: &ExportNamedDeclaration<'a>) {
        let node = ancestor(AstKind::ExportNamedDeclaration(self.alloc(it)));
        let parts = self.group(|c| {
            for specifier in &it.specifiers {
                let type_only = it.export_kind.is_type() || specifier.export_kind.is_type();
                let parts = c.group(|c| c.visit_export_specifier(specifier));
                c.push(Syntax::Marked {
                    used_as: Use::Exported { type_only },
                    parts,
                });
            }
        });
        self.push(Syntax::Plain { node, parts });
    }

    fn visit_ts_export_assignment(&mut self, it: &TSExportAssignment<'a>) {
        let node = ancestor(AstKind::TSExportAssignment(self.alloc(it)));
        let mut parts = self.group(|c| c.visit_expression(&it.expression));
        if it.expression.is_identifier_reference() {
            parts = vec![Syntax::Marked {
                used_as: Use::Exported { type_only: false },
                parts,
            }];
        }
        self.push(Syntax::Plain { node, parts });
    }

    fn visit_ts_type_query(&mut self, it: &TSTypeQuery<'a>) {
        let node = ancestor(AstKind::TSTypeQuery(self.alloc(it)));
        let parts = self.group(|c| {
            c.visit_ts_type_query_expr_name(&it.expr_name);
            if let Some(type_arguments) = &it.type_arguments {
                c.visit_ts_type_parameter_instantiation(type_arguments);
            }
        });
        self.push(Syntax::Plain {
            node,
            parts: vec![Syntax::Marked {
                used_as: Use::TypeQuery,
                parts,
            }],
        });
    }

    fn visit_ts_property_signature(&mut self, it: &TSPropertySignature<'a>) {
        let node = ancestor(AstKind::TSPropertySignature(self.alloc(it)));
        let parts = self.group(|c| {
            c.visit_property_key(&it.key);
            if let Some(type_annotation) = &it.type_annotation {
                c.visit_ts_type_annotation(type_annotation);
            }
        });
        self.push(Syntax::Plain {
            node,
            parts: vec![Syntax::Marked {
                used_as: Use::Key {
                    computed: it.key.is_expression(),
                },
                parts,
            }],
        });
    }

    fn visit_ts_method_signature(&mut self, it: &TSMethodSignature<'a>) {
        let node = ancestor(AstKind::TSMethodSignature(self.alloc(it)));
        let key = self.group(|c| c.visit_property_key(&it.key));
        let mut parts = vec![Syntax::Marked {
            used_as: Use::Key {
                computed: it.computed,
            },
            parts: key,
        }];
        parts.extend(self.group(|c| {
            if let Some(type_parameters) = &it.type_parameters {
                c.visit_ts_type_parameter_declaration(type_parameters);
            }
            if let Some(this_param) = &it.this_param {
                c.visit_ts_this_parameter(this_param);
            }
            c.visit_formal_parameters(&it.params);
            if let Some(return_type) = &it.return_type {
                c.visit_ts_type_annotation(return_type);
            }
        }));
        self.push(Syntax::Scoped {
            node,
            before: Vec::new(),
            flags: 0,
            parts,
            after: Vec::new(),
        });
    }

    fn visit_class_element(&mut self, it: &ClassElement<'a>) {
        self.abstract_member = it.is_abstract();
        walk::walk_class_element(self, it);
    }

    fn visit_method_definition(&mut self, it: &MethodDefinition<'a>) {
        let is_abstract = self.abstract_member;
        let node = ancestor(AstKind::MethodDefinition(self.alloc(it)));
        let decorators = self.group(|c| c.visit_decorators(&it.decorators));
        let key = self.group(|c| c.visit_property_key(&it.key));
        let form = match it.kind {
            MethodDefinitionKind::Get => FunctionKind::Getter,
            MethodDefinitionKind::Set => FunctionKind::Setter,
            MethodDefinitionKind::Constructor => FunctionKind::Constructor,
            MethodDefinitionKind::Method => FunctionKind::Plain,
        };
        let parts = self.group(|c| c.function(&it.value, form));
        self.push(Syntax::ClassMember {
            node,
            declare: false,
            decorators,
            computed: it.computed,
            is_abstract,
            key,
            parts,
        });
    }

    fn visit_property_definition(&mut self, it: &PropertyDefinition<'a>) {
        let is_abstract = self.abstract_member;
        let node = ancestor(AstKind::PropertyDefinition(self.alloc(it)));
        let decorators = self.group(|c| c.visit_decorators(&it.decorators));
        let key = self.group(|c| c.visit_property_key(&it.key));
        let parts = self.group(|c| {
            if let Some(type_annotation) = &it.type_annotation {
                c.visit_ts_type_annotation(type_annotation);
            }
            if let Some(value) = &it.value {
                c.visit_expression(value);
            }
        });
        self.push(Syntax::ClassMember {
            node,
            declare: it.declare,
            decorators,
            computed: it.computed,
            is_abstract,
            key,
            parts,
        });
    }

    fn visit_ts_interface_heritage(&mut self, it: &TSInterfaceHeritage<'a>) {
        self.marked(|c| walk::walk_ts_interface_heritage(c, it));
    }

    fn visit_ts_class_implements(&mut self, it: &TSClassImplements<'a>) {
        self.marked(|c| walk::walk_ts_class_implements(c, it));
    }

    fn visit_ts_type_reference(&mut self, it: &TSTypeReference<'a>) {
        self.marked(|c| walk::walk_ts_type_reference(c, it));
    }

    fn visit_class(&mut self, it: &Class<'a>) {
        let node = ancestor(AstKind::Class(self.alloc(it)));
        let decorators = self.group(|c| c.visit_decorators(&it.decorators));
        let type_parameters = self.group(|c| {
            if let Some(type_parameters) = &it.type_parameters {
                c.visit_ts_type_parameter_declaration(type_parameters);
            }
        });
        let heritage = it.heritage.as_ref().map(|heritage| {
            let expression = self.group(|c| c.visit_expression(&heritage.expression));
            let arguments = self.group(|c| {
                if let Some(type_arguments) = &heritage.type_arguments {
                    c.visit_ts_type_parameter_instantiation(type_arguments);
                }
            });
            (expression, arguments)
        });
        let parts = self.group(|c| {
            c.visit_ts_class_implements_list(&it.implements);
            c.visit_class_body(&it.body);
        });
        self.push(Syntax::Class {
            node,
            own_name: it.id.as_ref().map(|id| id.name.to_string()),
            declaration: it.is_declaration(),
            declare: it.declare,
            decorators,
            type_parameters,
            heritage,
            parts,
        });
    }

    fn visit_function(&mut self, it: &Function<'a>, _flags: ScopeFlags) {
        self.function(it, FunctionKind::Plain);
    }

    fn visit_arrow_function_expression(&mut self, it: &ArrowFunctionExpression<'a>) {
        let node = ancestor(AstKind::ArrowFunctionExpression(self.alloc(it)));
        let signature = self.group(|c| {
            if let Some(type_parameters) = &it.type_parameters {
                c.visit_ts_type_parameter_declaration(type_parameters);
            }
            c.visit_formal_parameters(&it.params);
            if let Some(return_type) = &it.return_type {
                c.visit_ts_type_annotation(return_type);
            }
        });
        let body = self.group(|c| c.visit_arrow_function_body(&it.body));
        self.push(Syntax::Function {
            node,
            form: FunctionKind::Arrow,
            own_name: None,
            declaration: false,
            declare: false,
            async_or_generator: false,
            has_parameter: it.params.has_parameter(),
            has_return_type: it.return_type.is_some(),
            signature,
            body,
        });
    }

    fn visit_formal_parameter(&mut self, it: &FormalParameter<'a>) {
        let node = ancestor(AstKind::FormalParameter(self.alloc(it)));
        let parts = self.group(|c| {
            c.visit_decorators(&it.decorators);
            c.visit_binding_pattern(&it.pattern);
            if let Some(type_annotation) = &it.type_annotation {
                c.visit_ts_type_annotation(type_annotation);
            }
            if let Some(initializer) = &it.initializer {
                c.visit_expression(initializer);
            }
        });
        self.push(Syntax::Parameter {
            node,
            names: names_of(&it.pattern),
            pattern: Some(pattern_type(&it.pattern)),
            parts,
        });
    }

    fn visit_formal_parameter_rest(&mut self, it: &FormalParameterRest<'a>) {
        let node = ancestor(AstKind::FormalParameterRest(self.alloc(it)));
        let parts = self.group(|c| {
            c.visit_decorators(&it.decorators);
            c.visit_binding_rest_element(&it.rest);
            if let Some(type_annotation) = &it.type_annotation {
                c.visit_ts_type_annotation(type_annotation);
            }
        });
        self.push(Syntax::Parameter {
            node,
            names: names_of(&it.rest.argument),
            pattern: None,
            parts,
        });
    }

    fn visit_catch_clause(&mut self, it: &CatchClause<'a>) {
        self.clause = place(it.span);
        walk::walk_catch_clause(self, it);
    }

    fn visit_catch_parameter(&mut self, it: &CatchParameter<'a>) {
        let node = ancestor(AstKind::CatchParameter(self.alloc(it)));
        let clause = self.clause;
        let ident = match &it.pattern {
            BindingPattern::BindingIdentifier(ident) => Some(ident.name.to_string()),
            _ => None,
        };
        let parts = self.group(|c| {
            c.visit_binding_pattern(&it.pattern);
            if let Some(type_annotation) = &it.type_annotation {
                c.visit_ts_type_annotation(type_annotation);
            }
        });
        self.push(Syntax::CatchParameter {
            node,
            clause,
            ident,
            names: names_of(&it.pattern),
            parts,
        });
    }

    fn visit_for_in_statement(&mut self, it: &ForInStatement<'a>) {
        self.head = head_of(&it.left);
        walk::walk_for_in_statement(self, it);
    }

    fn visit_for_of_statement(&mut self, it: &ForOfStatement<'a>) {
        self.head = head_of(&it.left);
        walk::walk_for_of_statement(self, it);
    }

    fn visit_variable_declaration(&mut self, it: &VariableDeclaration<'a>) {
        self.variables.push((variable_kind(it.kind), it.declare));
        let parts = self.group(|c| walk::walk_variable_declaration(c, it));
        self.variables.pop();
        self.push(Syntax::Ambient {
            declare: it.declare,
            parts,
        });
    }

    fn visit_variable_declarator(&mut self, it: &VariableDeclarator<'a>) {
        let node = ancestor(AstKind::VariableDeclarator(self.alloc(it)));
        let (variable, declare) = *self
            .variables
            .last()
            .expect("declarator outside a declaration");
        let head = self.head == Some(place(it.span));
        let parts = self.group(|c| {
            c.visit_binding_pattern(&it.id);
            if let Some(type_annotation) = &it.type_annotation {
                c.visit_ts_type_annotation(type_annotation);
            }
            if let Some(init) = &it.init {
                c.visit_expression(init);
            }
        });
        self.push(Syntax::Declarator {
            node,
            variable,
            declare,
            head,
            names: names_of(&it.id),
            parts,
        });
    }

    fn visit_import_declaration(&mut self, it: &ImportDeclaration<'a>) {
        let node = ancestor(AstKind::ImportDeclaration(self.alloc(it)));
        self.import_of_types = it.import_kind.is_type();
        let parts = self.group(|c| {
            if let Some(specifiers) = &it.specifiers {
                for specifier in specifiers {
                    c.visit_import_declaration_specifier(specifier);
                }
            }
        });
        self.push(Syntax::Plain { node, parts });
    }

    fn visit_import_specifier(&mut self, it: &ImportSpecifier<'a>) {
        let node = ancestor(AstKind::ImportSpecifier(self.alloc(it)));
        let import = ImportKind::Named {
            type_only: it.import_kind.is_type(),
        };
        self.specifier(node, import, it.local.name.to_string());
    }

    fn visit_import_default_specifier(&mut self, it: &ImportDefaultSpecifier<'a>) {
        let node = ancestor(AstKind::ImportDefaultSpecifier(self.alloc(it)));
        self.specifier(node, ImportKind::Default, it.local.name.to_string());
    }

    fn visit_import_namespace_specifier(&mut self, it: &ImportNamespaceSpecifier<'a>) {
        let node = ancestor(AstKind::ImportNamespaceSpecifier(self.alloc(it)));
        self.specifier(node, ImportKind::Namespace, it.local.name.to_string());
    }

    fn visit_ts_import_equals_declaration(&mut self, it: &TSImportEqualsDeclaration<'a>) {
        let node = ancestor(AstKind::TSImportEqualsDeclaration(self.alloc(it)));
        let reference = self.group(|c| c.visit_ts_module_reference(&it.module_reference));
        self.push(Syntax::ImportEquals {
            node,
            name: it.id.name.to_string(),
            type_only: it.import_kind.is_type(),
            reference,
        });
    }

    fn visit_ts_module_reference(&mut self, it: &TSModuleReference<'a>) {
        match it {
            TSModuleReference::IdentifierReference(ident) => {
                let (name, span) = self.reference(ident);
                self.push(Syntax::NamespaceReference { name, span });
            }
            other => walk::walk_ts_module_reference(self, other),
        }
    }

    fn visit_ts_external_module_declaration(&mut self, it: &TSExternalModuleDeclaration<'a>) {
        let parts = self.group(|c| walk::walk_ts_external_module_declaration(c, it));
        self.push(Syntax::Ambient {
            declare: it.declare,
            parts,
        });
    }

    fn visit_ts_global_declaration(&mut self, it: &TSGlobalDeclaration<'a>) {
        let parts = self.group(|c| walk::walk_ts_global_declaration(c, it));
        self.push(Syntax::Ambient {
            declare: it.declare,
            parts,
        });
    }

    fn visit_ts_namespace_declaration(&mut self, it: &TSNamespaceDeclaration<'a>) {
        let node = ancestor(AstKind::TSNamespaceDeclaration(self.alloc(it)));
        let (block, body) = match &it.body {
            TSNamespaceDeclarationBody::TSNamespaceDeclaration(inner) => {
                (None, self.group(|c| c.visit_ts_namespace_declaration(inner)))
            }
            TSNamespaceDeclarationBody::TSModuleBlock(block) => {
                let inner = ancestor(AstKind::TSModuleBlock(self.alloc(&**block)));
                let body = self.group(|c| c.visit_statements(&block.body));
                (Some(inner), body)
            }
        };
        self.push(Syntax::Namespace {
            node,
            name: it.id.name.to_string(),
            declare: it.declare,
            block,
            body,
        });
    }

    fn visit_ts_type_alias_declaration(&mut self, it: &TSTypeAliasDeclaration<'a>) {
        let node = ancestor(AstKind::TSTypeAliasDeclaration(self.alloc(it)));
        let parts = self.group(|c| {
            if let Some(type_parameters) = &it.type_parameters {
                c.visit_ts_type_parameter_declaration(type_parameters);
            }
            c.visit_ts_type(&it.type_annotation);
        });
        self.push(Syntax::Named {
            node,
            what: NamedKind::TypeAlias,
            name: it.id.name.to_string(),
            declare: it.declare,
            parts,
        });
    }

    fn visit_ts_interface_declaration(&mut self, it: &TSInterfaceDeclaration<'a>) {
        let node = ancestor(AstKind::TSInterfaceDeclaration(self.alloc(it)));
        let parts = self.group(|c| {
            if let Some(type_parameters) = &it.type_parameters {
                c.visit_ts_type_parameter_declaration(type_parameters);
            }
            c.visit_ts_interface_heritages(&it.extends);
            c.visit_ts_interface_body(&it.body);
        });
        self.push(Syntax::Named {
            node,
            what: NamedKind::Interface,
            name: it.id.name.to_string(),
            declare: it.declare,
            parts,
        });
    }

    fn visit_ts_enum_declaration(&mut self, it: &TSEnumDeclaration<'a>) {
        let node = ancestor(AstKind::TSEnumDeclaration(self.alloc(it)));
        let parts = self.group(|c| c.visit_ts_enum_body(&it.body));
        self.push(Syntax::Named {
            node,
            what: NamedKind::Enum {
                constant: false,
            },
            name: it.id.name.to_string(),
            declare: it.declare,
            parts,
        });
    }

    fn visit_ts_enum_member(&mut self, it: &TSEnumMember<'a>) {
        let node = ancestor(AstKind::TSEnumMember(self.alloc(it)));
        let parts = self.group(|c| {
            c.visit_ts_enum_member_name(&it.id);
            if let Some(initializer) = &it.initializer {
                c.visit_expression(initializer);
            }
        });
        self.push(Syntax::Named {
            node,
            what: NamedKind::EnumMember,
            name: member_name(&it.id),
            declare: false,
            parts,
        });
    }

    fn visit_ts_type_parameter(&mut self, it: &TSTypeParameter<'a>) {
        let node = ancestor(AstKind::TSTypeParameter(self.alloc(it)));
        let parts = self.group(|c| {
            if let Some(constraint) = &it.constraint {
                c.visit_ts_type(constraint);
            }
            if let Some(default) = &it.default {
                c.visit_ts_type(default);
            }
        });
        self.push(Syntax::TypeParameter {
            node,
            name: it.name.name.to_string(),
            parts,
        });
    }

    fn visit_ts_mapped_type(&mut self, it: &TSMappedType<'a>) {
        let node = ancestor(AstKind::TSMappedType(self.alloc(it)));
        let parts = self.group(|c| {
            c.visit_ts_type(&it.constraint);
            if let Some(name_type) = &it.name_type {
                c.visit_ts_type(name_type);
            }
            if let Some(type_annotation) = &it.type_annotation {
                c.visit_ts_type(type_annotation);
            }
        });
        self.push(Syntax::MappedType {
            node,
            name: it.key.name.to_string(),
            parts,
        });
    }
}

fn build_scopes(program: &Program<'_>) -> ScopeModel {
    let mut converter = Converter::new();
    let statements = converter.group(|c| c.visit_statements(&program.body));
    let node = Ancestor {
        kind: AncestorKind::Other,
        span: place(program.span),
        function_like: false,
        statement: false,
        exporting: true,
    };
    ScopeModel::build(&node, &statements)
}

const PROBES: [&str; 7] = [
    "stylex", "_stylex", "_temp", "_styles", "_inject", "React", "x",
];

struct Collector<'a> {
    refs: Vec<&'a IdentifierReference<'a>>,
    sites: Vec<(&'a Cell<NodeId>, u32)>,
}

impl<'a> Visit<'a> for Collector<'a> {
    fn visit_identifier_reference(&mut self, it: &IdentifierReference<'a>) {
        self.refs.push(self.alloc(it));
    }

    fn visit_call_expression(&mut self, it: &CallExpression<'a>) {
        let it = self.alloc(it);
        self.sites.push((&it.node_id, it.span.start));
        walk::walk_call_expression(self, it);
    }

    fn visit_static_member_expression(&mut self, it: &StaticMemberExpression<'a>) {
        let it = self.alloc(it);
        self.sites.push((&it.node_id, it.span.start));
        walk::walk_static_member_expression(self, it);
    }

    fn visit_computed_member_expression(&mut self, it: &ComputedMemberExpression<'a>) {
        let it = self.alloc(it);
        self.sites.push((&it.node_id, it.span.start));
        walk::walk_computed_member_expression(self, it);
    }

    fn visit_jsx_opening_element(&mut self, it: &JSXOpeningElement<'a>) {
        let it = self.alloc(it);
        self.sites.push((&it.node_id, it.span.start));
        walk::walk_jsx_opening_element(self, it);
    }
}

fn label(decl: &BindingDecl) -> String {
    match decl {
        BindingDecl::Declarator(_) => "VariableDeclarator".to_string(),
        BindingDecl::NamedImport => "NamedImport".to_string(),
        BindingDecl::DefaultImport => "DefaultImport".to_string(),
        BindingDecl::NamespaceImport => "NamespaceImport".to_string(),
        BindingDecl::Opaque(text) => text.clone(),
    }
}

fn sampled(names: &[String]) -> Vec<&String> {
    names
        .iter()
        .step_by(names.len().div_ceil(40).max(1))
        .collect()
}

/// What the library says of a program, as sorted lines. The references and sites of the
/// program are numbered as the model numbers them.
fn native_lines(model: &ScopeModel, collector: &Collector<'_>, names: &[String]) -> Vec<String> {
    let mut lines = Vec::new();
    let binding = |symbol: usize| {
        let info = model.binding_info(symbol);
        let (violated, mutated) = model.constness(symbol);
        format!(
            "{} {}..{} violated={} mutated={}",
            label(&info.decl),
            info.span.start,
            info.span.end,
            violated,
            mutated
        )
    };
    for id in &collector.refs {
        let reference = id.reference_id.get().map(|r| r.index());
        lines.push(format!(
            "ref {}@{} -> {:?}",
            id.name,
            id.span.start,
            model.symbol_of(reference).map(binding)
        ));
    }
    for (index, symbol) in model.symbols.iter().enumerate() {
        let info = model.binding_info(index);
        lines.push(format!(
            "symbol {} {} {}..{}",
            symbol.name,
            label(&info.decl),
            info.span.start,
            info.span.end
        ));
    }
    let keep = vec![true; model.refs.len()];
    lines.push(format!(
        "starts {:?}",
        model.reference_starts_where(&names.to_vec(), &keep)
    ));
    for reference in &model.refs {
        lines.push(format!("parent {} {:?}", reference.name, reference.parent));
    }
    for name in names {
        lines.push(format!(
            "uid {name} taken={} root={}",
            model.uid_name_taken(name),
            model.root_binding(name).is_some()
        ));
    }
    for (cell, start) in &collector.sites {
        let site = cell.get().index();
        lines.push(format!(
            "site @{start} program_level={} stmt={}",
            model.is_program_level(site),
            model.program_statement_start(site)
        ));
        for name in sampled(names) {
            lines.push(format!(
                "site @{start} {name} any={} root={}",
                model.any_binding_at(site, name),
                model.resolves_to_root_binding(site, name)
            ));
        }
    }
    lines.sort();
    lines
}

fn declared_as(semantic: &Semantic<'_>, symbol: SymbolId) -> (String, Place) {
    let nodes = semantic.nodes();
    let id = semantic.scoping().symbol_declaration(symbol);
    let kind = nodes.kind(id);
    let text = match kind {
        AstKind::VariableDeclarator(_) => "VariableDeclarator".to_string(),
        AstKind::ImportSpecifier(_) => "NamedImport".to_string(),
        AstKind::ImportDefaultSpecifier(_) => "DefaultImport".to_string(),
        AstKind::ImportNamespaceSpecifier(_) => "NamespaceImport".to_string(),
        AstKind::FormalParameter(param) => pattern_type(&param.pattern),
        AstKind::CatchParameter(_) => {
            return (
                "CatchClause".to_string(),
                place(nodes.parent_kind(id).span()),
            );
        }
        AstKind::Function(function) if function.is_declaration() => {
            "FunctionDeclaration".to_string()
        }
        AstKind::Function(_) => "FunctionExpression".to_string(),
        AstKind::Class(class) if class.is_declaration() => "ClassDeclaration".to_string(),
        AstKind::Class(_) => "ClassExpression".to_string(),
        AstKind::TSEnumDeclaration(_) => "TSEnumDeclaration".to_string(),
        _ => "Identifier".to_string(),
    };
    (text, place(kind.span()))
}

/// The kinds of the nodes around a node, without those that the walk leaves out.
fn around<'a>(semantic: &Semantic<'a>, id: NodeId) -> Vec<AstKind<'a>> {
    semantic.nodes().ancestor_kinds(id).collect()
}

fn parent_of(semantic: &Semantic<'_>, id: NodeId) -> (RefParent, bool) {
    let kinds = around(semantic, id);
    let mut child = place(semantic.nodes().kind(id).span());
    let mut i = 0;
    while i < kinds.len() && matches!(kinds[i], AstKind::ParenthesizedExpression(_)) {
        child = place(kinds[i].span());
        i += 1;
    }
    if i == kinds.len() {
        return (RefParent::Other, false);
    }
    match ancestor_kind(kinds[i]) {
        AncestorKind::Member { object, property } => {
            let mutating = is_array_mutator(&property);
            let info = RefParent::Member { property };
            if object != child {
                return (info, false);
            }
            let mut member = place(kinds[i].span());
            let mut j = i + 1;
            while j < kinds.len() && matches!(kinds[j], AstKind::ParenthesizedExpression(_)) {
                member = place(kinds[j].span());
                j += 1;
            }
            if j == kinds.len() {
                return (info, false);
            }
            let mutation = match ancestor_kind(kinds[j]) {
                AncestorKind::Assignment { left } => left == member,
                AncestorKind::Update => true,
                AncestorKind::Unary { delete } => delete,
                AncestorKind::Call { callee, .. } => callee == member && mutating,
                _ => false,
            };
            (info, mutation)
        }
        AncestorKind::Call {
            first_argument,
            method,
            ..
        } => (
            RefParent::Other,
            first_argument == Some(child) && is_object_mutator(&method),
        ),
        _ => (RefParent::Other, false),
    }
}

fn heads_a_loop(semantic: &Semantic<'_>, symbol: SymbolId) -> bool {
    let nodes = semantic.nodes();
    let id = semantic.scoping().symbol_declaration(symbol);
    let AstKind::VariableDeclarator(declarator) = nodes.kind(id) else {
        return false;
    };
    let mut kinds = nodes.ancestor_kinds(id);
    let (Some(AstKind::VariableDeclaration(declaration)), Some(parent)) =
        (kinds.next(), kinds.next())
    else {
        return false;
    };
    let first = declaration
        .declarations
        .first()
        .is_some_and(|d| d.span == declarator.span);
    let left = match parent {
        AstKind::ForInStatement(it) => it.left.span(),
        AstKind::ForOfStatement(it) => it.left.span(),
        _ => return false,
    };
    first && declaration.kind == VariableDeclarationKind::Var && left == declaration.span
}

/// What the analysis of the parser says of a program, as sorted lines.
fn oxc_lines(semantic: &Semantic<'_>, collector: &Collector<'_>, names: &[String]) -> Vec<String> {
    let scoping = semantic.scoping();
    let nodes = semantic.nodes();
    let mut lines = Vec::new();
    let binding = |symbol: SymbolId| {
        let (text, span) = declared_as(semantic, symbol);
        let references: Vec<_> = scoping.get_resolved_references(symbol).collect();
        let violated = !scoping.symbol_redeclarations(symbol).is_empty()
            || references.iter().any(|r| r.is_write())
            || heads_a_loop(semantic, symbol);
        let mutated = references
            .iter()
            .any(|r| !r.is_write() && parent_of(semantic, r.node_id()).1);
        format!(
            "{text} {}..{} violated={violated} mutated={mutated}",
            span.start, span.end
        )
    };
    let mut starts: Vec<u32> = Vec::new();
    for id in &collector.refs {
        let reference = scoping.get_reference(id.reference_id.get().expect("a reference"));
        lines.push(format!(
            "ref {}@{} -> {:?}",
            id.name,
            id.span.start,
            reference.symbol_id().map(binding)
        ));
        lines.push(format!(
            "parent {} {:?}",
            id.name,
            parent_of(semantic, reference.node_id()).0
        ));
        if names.iter().any(|n| id.name == n.as_str()) {
            starts.push(id.span.start);
        }
    }
    starts.sort_unstable();
    lines.push(format!("starts {starts:?}"));
    for symbol in scoping.symbol_ids() {
        let (text, span) = declared_as(semantic, symbol);
        lines.push(format!(
            "symbol {} {text} {}..{}",
            scoping.symbol_name(symbol),
            span.start,
            span.end
        ));
    }
    for name in names {
        let ident = Ident::from(name.as_str());
        let taken = scoping.root_unresolved_references().contains_key(&ident)
            || scoping.symbol_names().any(|n| n == name.as_str());
        lines.push(format!(
            "uid {name} taken={taken} root={}",
            scoping.get_root_binding(ident).is_some()
        ));
    }
    for (cell, start) in &collector.sites {
        let id = cell.get();
        let scope = nodes.get_node(id).scope_id();
        let mut kinds = around(semantic, id);
        kinds.insert(0, nodes.kind(id));
        let hidden = (0..kinds.len()).any(|i| {
            kinds[i].is_function_like()
                || (is_statement(kinds[i])
                    && !kinds
                        .get(i + 1)
                        .is_some_and(|p| matches!(p, AstKind::Program(_)) || is_export(*p)))
        });
        let top = kinds
            .iter()
            .rev()
            .find(|k| !matches!(k, AstKind::Program(_)))
            .map_or(0, |k| k.span().start);
        lines.push(format!(
            "site @{start} program_level={} stmt={top}",
            !hidden
        ));
        for name in sampled(names) {
            let ident = Ident::from(name.as_str());
            let found = scoping.find_binding(scope, ident);
            let root = scoping.get_root_binding(ident);
            lines.push(format!(
                "site @{start} {name} any={} root={}",
                found.is_some(),
                root.is_some() && found == root
            ));
        }
    }
    lines.sort();
    lines
}

/// The lines in which the two analyses differ.
fn diff_backends(source: &str) -> Vec<String> {
    let allocator = Allocator::default();
    let ret = Parser::new(&allocator, source, SourceType::tsx()).parse();
    if ret.panicked || ret.diagnostics.has_errors() {
        return Vec::new();
    }
    let program = &ret.program;
    let mut collector = Collector {
        refs: Vec::new(),
        sites: Vec::new(),
    };
    collector.visit_program(program);
    let semantic = SemanticBuilder::new()
        .with_build_nodes(true)
        .build(program)
        .semantic;
    let mut names: BTreeSet<String> = collector.refs.iter().map(|r| r.name.to_string()).collect();
    names.extend(semantic.scoping().symbol_names().map(str::to_string));
    names.extend(PROBES.iter().map(|p| p.to_string()));
    let names: Vec<String> = names.into_iter().collect();
    let expected: BTreeSet<String> = oxc_lines(&semantic, &collector, &names)
        .into_iter()
        .collect();
    let model = build_scopes(program);
    let actual: BTreeSet<String> = native_lines(&model, &collector, &names)
        .into_iter()
        .collect();
    let mut out: Vec<String> = expected
        .difference(&actual)
        .map(|line| format!("oxc only:    {line}"))
        .collect();
    out.extend(
        actual
            .difference(&expected)
            .map(|line| format!("native only: {line}")),
    );
    out
}

fn assert_parity(label: &str, source: &str) {
    let diff = diff_backends(source);
    assert!(diff.is_empty(), "{label}:\n{}", diff.join("\n"));
}

/// No difference must mean agreement, not that nothing was asked.
#[test]
fn harness_records_every_query_kind() {
    let source = "import * as stylex from '@stylexjs/stylex'; const s = stylex.create({});\n\
function f() { return stylex.props(s.a); }";
    let allocator = Allocator::default();
    let ret = Parser::new(&allocator, source, SourceType::tsx()).parse();
    let mut collector = Collector {
        refs: Vec::new(),
        sites: Vec::new(),
    };
    collector.visit_program(&ret.program);
    let model = build_scopes(&ret.program);
    let names = vec!["stylex".to_string(), "s".to_string()];
    let lines = native_lines(&model, &collector, &names);
    let has = |prefix: &str| lines.iter().any(|l| l.starts_with(prefix));
    assert!(
        has("ref stylex@54 -> Some(\"NamespaceImport 7..18"),
        "{lines:#?}"
    );
    assert!(has("symbol s VariableDeclarator 50..71"), "{lines:#?}");
    assert!(
        has("parent stylex Member { property: Some(\"create\") }"),
        "{lines:#?}"
    );
    assert!(has("uid stylex taken=true root=true"), "{lines:#?}");
    assert!(has("site @54 program_level=true stmt=44"), "{lines:#?}");
    assert!(
        lines.iter().any(|l| l.contains("program_level=false")),
        "{lines:#?}"
    );
    assert!(
        lines.iter().any(|l| l.contains(" s any=true root=true")),
        "{lines:#?}"
    );
}

#[test]
fn native_matches_oxc_on_binding_shapes() {
    let snippets: [(&str, &str); 24] = [
        (
            "var hoisting",
            "{ var a = 1; } { var a = 2; } function f() { { var b; } var b; b; } a; b;",
        ),
        (
            "catch clauses",
            "try {} catch (e) { var e; e; } try {} catch ({ m }) { m; } try {} catch { x; }",
        ),
        (
            "function expression name",
            "const f = function n(n) { return n; }; (function g(g) {}); f; n;",
        ),
        (
            "params before body",
            "function f(a = b, { c } = d) { var b, d; a; c; } const g = (p = q) => { let q; p; };",
        ),
        (
            "class shapes",
            "class A extends B { static x = A; [k]() {} } const C = class D extends A {}; D; new A();",
        ),
        (
            "ts declarations",
            "type T = number; interface I { x: T } enum E { A, B = A } namespace N { export const v = 1; } declare const d: E; N.v; E.A; d;",
        ),
        (
            "type-only references",
            "const v = 1; type Q = typeof v; type R = v; let w: Q; import type { TT } from './t'; TT; w;",
        ),
        (
            "exports",
            "const a = 1, b = 2; export { a, b as c }; export default a; export type { T }; type T = 1;",
        ),
        (
            "writes",
            "let a = 1, b = 2, c = 3, d = {}, e = []; a = 2; b += 1; c++; d.x = 1; e.push(1); [a, b] = [b, a]; ({ a } = d); for (a of e) {} for (b in d) {}",
        ),
        (
            "mutations through parens",
            "const u = {}; (u).x = 1; const v = {}; Object.assign((v), {}); const w = {}; Object.assign((w as any), {}); const q = []; (q)[\"x\"] = 1; delete (u).y; (v.z)++;",
        ),
        (
            "member keys",
            "const o = {}, k = 'a'; o[k] = 1; o[k]; o.k; this[k] = 2; (o ? k : o).x = 1;",
        ),
        (
            "jsx",
            "import * as React from 'react'; import { Foo } from './f'; const el = <Foo.Bar a={x} {...rest}><div>{y}</div></Foo.Bar>; <foo />; <this.Comp />;",
        ),
        (
            "nested statements",
            "if (a) f(); else { g(); } for (;;) h(); while (x) { i(); } label: j(); switch (k) { case 1: l(); } try { m(); } finally { n(); }",
        ),
        (
            "stylex shapes",
            "import * as stylex from '@stylexjs/stylex'; const s = stylex.create({ a: { color: 'red' } }); function C() { const t = stylex.create({}); return <div {...stylex.props(s.a, t)} />; }",
        ),
        (
            "shadowed stylex",
            "import * as stylex from '@stylexjs/stylex'; function f(stylex) { stylex.create({}); } { const stylex = 1; stylex.create({}); }",
        ),
        (
            "labels and breaks",
            "outer: for (const a of b) { inner: for (const c of d) { if (c) break outer; continue inner; } }",
        ),
        (
            "generators and async",
            "async function* g() { yield await p; } const h = async () => { for await (const x of y) {} };",
        ),
        (
            "destructuring params",
            "function f({ a, b: [c, ...d] }, ...rest) { a; c; d; rest; } const g = ([p, { q = r }]) => p + q;",
        ),
        (
            "type params",
            "function f<T extends U, V = T>(a: T): V { return a as any; } type M<K extends string> = { [P in K]: P }; type C<X> = X extends infer R ? R : never;",
        ),
        (
            "declare contexts",
            "declare class A extends B {} declare module 'm' { export const x: number; } declare global { interface Window { w: 1 } } abstract class Q { abstract [k](): void; declare [j]: 1; }",
        ),
        (
            "import equals",
            "import fs = require('fs'); import n = N.M; namespace N { export namespace M {} } fs; n;",
        ),
        (
            "template and tagged",
            "const t = `${a} ${b.c}`; tag`x${d}`; const { [e]: f } = g;",
        ),
        (
            "switch scope",
            "switch (x) { case y: { let z = 1; z; } default: let w; w; } let v; v;",
        ),
        (
            "enum member names",
            "enum E { 'a b' = 1, [`c`] = 2, D } E['a b'];",
        ),
    ];
    for (label, source) in snippets {
        assert_parity(label, source);
    }
}

#[test]
fn declarations_of_a_body_are_not_seen_by_its_parameters() {
    let source = "const b = 1; function f(a = b) { var b; return b; } b;";
    let allocator = Allocator::default();
    let ret = Parser::new(&allocator, source, SourceType::tsx()).parse();
    assert!(!ret.panicked);
    let model = build_scopes(&ret.program);
    let outer = model.root_binding("b").unwrap();
    let symbols: Vec<Option<usize>> = model
        .refs
        .iter()
        .filter(|r| r.name == "b")
        .map(|r| r.symbol)
        .collect();
    assert_eq!(symbols.len(), 3);
    assert_eq!(symbols[0], Some(outer));
    assert_ne!(symbols[1], Some(outer));
    assert_eq!(symbols[2], Some(outer));
}
