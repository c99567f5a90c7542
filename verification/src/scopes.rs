//! Bindings, scopes and references of a module, built from the events of one walk
//! through its syntax tree.

use crate::shared::dynamic::Span;
use crate::shared::flatten::encloses;
use crate::text::{str_eq, texts};
use crate::value::{
    item_keys, keys_of, lemma_find_key, opt_text, position_of, value_of,
};
use vstd::prelude::*;

verus! {

/// Which analysis of scopes is used.
#[derive(Debug, Clone, Copy, PartialEq, Eq)]
pub enum ScopeBackend {
    Oxc,
    Native,
}

impl ScopeBackend {
    /// The analysis that a setting selects: `1` selects the one of this library.
    pub fn of_setting(setting: Option<&str>) -> (r: ScopeBackend)
        ensures
            r == match setting {
                Some(s) => if s@ == "1"@ {
                    ScopeBackend::Native
                } else {
                    ScopeBackend::Oxc
                },
                None => ScopeBackend::Oxc,
            },
    {
        match setting {
            Some(s) => {
                if str_eq(s, "1") {
                    ScopeBackend::Native
                } else {
                    ScopeBackend::Oxc
                }
            },
            None => ScopeBackend::Oxc,
        }
    }
}

/// A `var` or a parameter.
pub const FUNCTION_SCOPED_VARIABLE: u32 = 0x1;

/// A `let` or a `const`.
pub const BLOCK_SCOPED_VARIABLE: u32 = 0x2;

/// A `const`.
pub const CONST_VARIABLE: u32 = 0x4;

/// A class.
pub const CLASS: u32 = 0x8;

/// The parameter of a `catch`.
pub const CATCH_VARIABLE: u32 = 0x10;

/// A function.
pub const FUNCTION: u32 = 0x20;

/// An import.
pub const IMPORT: u32 = 0x40;

/// An import of a type.
pub const TYPE_IMPORT: u32 = 0x80;

/// A name for a type.
pub const TYPE_ALIAS: u32 = 0x100;

/// An interface.
pub const INTERFACE: u32 = 0x200;

/// An enum.
pub const REGULAR_ENUM: u32 = 0x400;

/// A `const enum`.
pub const CONST_ENUM: u32 = 0x800;

/// A member of an enum.
pub const ENUM_MEMBER: u32 = 0x1000;

/// A parameter that is a type.
pub const TYPE_PARAMETER: u32 = 0x2000;

/// A namespace of types.
pub const NAMESPACE_MODULE: u32 = 0x4000;

/// A namespace with values.
pub const VALUE_MODULE: u32 = 0x8000;

/// A declaration without a definition.
pub const AMBIENT: u32 = 0x1_0000;

/// The name of a function expression.
pub const FUNCTION_EXPRESSION: u32 = 0x2_0000;

/// A function that is a coroutine.
pub const ASYNC_OR_GENERATOR: u32 = 0x4_0000;

/// What is a value: variables, classes, functions, enums, their members, and
/// namespaces with values.
pub const VALUES: u32 = 0x9c2b;

/// What is a value or an import.
pub const VALUES_AND_IMPORTS: u32 = 0x9c6b;

/// What a type may refer to: types, imports, and namespaces.
pub const FOR_TYPES: u32 = 0xffc8;

/// What the type of a value may refer to: values, imports, and imports of types.
pub const FOR_TYPES_OF_VALUES: u32 = 0x9ceb;

/// What stands before the dot of a qualified name: namespaces, enums, and imports.
pub const FOR_QUALIFIERS: u32 = 0xccc0;

/// A reference that reads.
pub const READ: u8 = 0x1;

/// A reference that writes.
pub const WRITE: u8 = 0x2;

/// A reference by a type.
pub const TYPE: u8 = 0x4;

/// A reference to a value by a type.
pub const VALUE_AS_TYPE: u8 = 0x8;

/// A reference that stands before the dot of a qualified name.
pub const NAMESPACE: u8 = 0x10;

/// A reference to an object whose member is written.
pub const MEMBER_WRITE_TARGET: u8 = 0x20;

/// A reference that reads or writes.
pub const READ_WRITE: u8 = 0x3;

/// The scopes that `var` belongs to: the module, functions, static blocks and
/// namespaces.
pub const VAR_SCOPE: u16 = 0x36;

/// The scope of a `catch`.
pub const CATCH_SCOPE: u16 = 0x200;

/// The scope of a conditional type.
pub const CONDITIONAL_SCOPE: u16 = 0x800;

/// The scope of the module.
pub const TOP_SCOPE: u16 = 0x2;

/// How a name is declared. A declarator is known by its place.
#[derive(Debug, PartialEq)]
pub enum DeclSite {
    Declarator(Span),
    NamedImport,
    DefaultImport,
    NamespaceImport,
    /// A parameter, with the type of its pattern.
    Param(String),
    Catch,
    Function { expression: bool },
    Class { expression: bool },
    Enum,
    Other,
}

/// How a name is declared, mathematically.
#[verifier::ext_equal]
pub enum DeclModel {
    Declarator(Span),
    NamedImport,
    DefaultImport,
    NamespaceImport,
    Param(Seq<char>),
    Catch,
    Function(bool),
    Class(bool),
    Enum,
    Other,
}

impl DeclSite {
    /// What the declaration is, mathematically.
    pub open spec fn model(self) -> DeclModel {
        match self {
            DeclSite::Declarator(s) => DeclModel::Declarator(s),
            DeclSite::NamedImport => DeclModel::NamedImport,
            DeclSite::DefaultImport => DeclModel::DefaultImport,
            DeclSite::NamespaceImport => DeclModel::NamespaceImport,
            DeclSite::Param(s) => DeclModel::Param(s@),
            DeclSite::Catch => DeclModel::Catch,
            DeclSite::Function { expression } => DeclModel::Function(expression),
            DeclSite::Class { expression } => DeclModel::Class(expression),
            DeclSite::Enum => DeclModel::Enum,
            DeclSite::Other => DeclModel::Other,
        }
    }
}

impl Clone for DeclSite {
    fn clone(&self) -> (r: Self)
        ensures
            r.model() == self.model(),
    {
        match self {
            DeclSite::Declarator(s) => DeclSite::Declarator(*s),
            DeclSite::NamedImport => DeclSite::NamedImport,
            DeclSite::DefaultImport => DeclSite::DefaultImport,
            DeclSite::NamespaceImport => DeclSite::NamespaceImport,
            DeclSite::Param(s) => DeclSite::Param(s.clone()),
            DeclSite::Catch => DeclSite::Catch,
            DeclSite::Function { expression } => DeclSite::Function { expression: *expression },
            DeclSite::Class { expression } => DeclSite::Class { expression: *expression },
            DeclSite::Enum => DeclSite::Enum,
            DeclSite::Other => DeclSite::Other,
        }
    }
}

/// A declared name.
#[derive(Debug, PartialEq)]
pub struct Symbol {
    pub name: String,
    pub flags: u32,
    /// The place of the declaring node.
    pub span: Span,
    pub decl: DeclSite,
    pub redeclared: bool,
    /// Whether it is the variable of a `for` loop over a collection.
    pub var_for_head: bool,
    pub violated: bool,
    pub mutated: bool,
}

/// A declared name, mathematically.
#[verifier::ext_equal]
pub struct SymbolModel {
    pub name: Seq<char>,
    pub flags: u32,
    pub span: Span,
    pub decl: DeclModel,
    pub redeclared: bool,
    pub var_for_head: bool,
    pub violated: bool,
    pub mutated: bool,
}

impl Symbol {
    /// What the declared name is, mathematically.
    pub open spec fn model(self) -> SymbolModel {
        SymbolModel {
            name: self.name@,
            flags: self.flags,
            span: self.span,
            decl: self.decl.model(),
            redeclared: self.redeclared,
            var_for_head: self.var_for_head,
            violated: self.violated,
            mutated: self.mutated,
        }
    }
}

/// What a reference stands in.
#[derive(Debug, PartialEq)]
pub enum RefParent {
    /// A member, by its name where the name is known.
    Member { property: Option<String> },
    Other,
}

/// What a reference stands in, mathematically.
#[verifier::ext_equal]
pub enum ParentModel {
    Member(Option<Seq<char>>),
    Other,
}

impl RefParent {
    /// What the parent is, mathematically.
    pub open spec fn model(self) -> ParentModel {
        match self {
            RefParent::Member { property } => ParentModel::Member(opt_text(property)),
            RefParent::Other => ParentModel::Other,
        }
    }
}

/// A use of a name.
#[derive(Debug, PartialEq)]
pub struct Reference {
    pub name: String,
    pub start: u32,
    pub scope: usize,
    pub flags: u8,
    pub symbol: Option<usize>,
    pub parent: RefParent,
    pub mutation: bool,
}

/// A use of a name, mathematically.
#[verifier::ext_equal]
pub struct ReferenceModel {
    pub name: Seq<char>,
    pub start: u32,
    pub scope: int,
    pub flags: u8,
    pub symbol: Option<int>,
    pub parent: ParentModel,
    pub mutation: bool,
}

/// The view of an optional index.
pub open spec fn opt_index(o: Option<usize>) -> Option<int> {
    match o {
        Some(i) => Some(i as int),
        None => None,
    }
}

impl Reference {
    /// What the use is, mathematically.
    pub open spec fn model(self) -> ReferenceModel {
        ReferenceModel {
            name: self.name@,
            start: self.start,
            scope: self.scope as int,
            flags: self.flags,
            symbol: opt_index(self.symbol),
            parent: self.parent.model(),
            mutation: self.mutation,
        }
    }
}

/// A scope.
#[derive(Debug, PartialEq)]
pub struct Scope {
    pub parent: Option<usize>,
    pub flags: u16,
    pub bindings: Vec<(String, usize)>,
    /// The names of `var` that passed through the scope.
    pub hoisted: Vec<(String, usize)>,
}

/// Names with the symbols that they stand for, mathematically.
pub type NamesModel = Seq<(Seq<char>, int)>;

/// A scope, mathematically.
#[verifier::ext_equal]
pub struct ScopeData {
    pub parent: Option<int>,
    pub flags: u16,
    pub bindings: NamesModel,
    pub hoisted: NamesModel,
}

/// What names with their symbols are, mathematically.
pub open spec fn name_models(v: Seq<(String, usize)>) -> NamesModel {
    Seq::new(v.len(), |i: int| (v[i].0@, v[i].1 as int))
}

impl Scope {
    /// What the scope is, mathematically.
    pub open spec fn model(self) -> ScopeData {
        ScopeData {
            parent: opt_index(self.parent),
            flags: self.flags,
            bindings: name_models(self.bindings@),
            hoisted: name_models(self.hoisted@),
        }
    }
}

/// Where a call, a member or an element stands.
#[derive(Debug, Clone, Copy, PartialEq, Eq)]
pub struct Site {
    pub scope: usize,
    pub top_stmt_start: u32,
    pub program_level: bool,
}

/// Scopes, symbols and references of a module.
#[derive(Debug, PartialEq)]
pub struct ScopeModel {
    pub scopes: Vec<Scope>,
    pub symbols: Vec<Symbol>,
    pub refs: Vec<Reference>,
    pub sites: Vec<Site>,
    pub root_unresolved: Vec<usize>,
}

/// Scopes, symbols and references of a module, mathematically.
#[verifier::ext_equal]
pub struct ModuleData {
    pub scopes: Seq<ScopeData>,
    pub symbols: Seq<SymbolModel>,
    pub refs: Seq<ReferenceModel>,
    pub sites: Seq<Site>,
    pub unresolved: Seq<int>,
}

/// What scopes are, mathematically.
pub open spec fn scope_models(v: Seq<Scope>) -> Seq<ScopeData> {
    Seq::new(v.len(), |i: int| v[i].model())
}

/// What symbols are, mathematically.
pub open spec fn symbol_models(v: Seq<Symbol>) -> Seq<SymbolModel> {
    Seq::new(v.len(), |i: int| v[i].model())
}

/// What references are, mathematically.
pub open spec fn reference_models(v: Seq<Reference>) -> Seq<ReferenceModel> {
    Seq::new(v.len(), |i: int| v[i].model())
}

/// What indices are, mathematically.
pub open spec fn index_models(v: Seq<usize>) -> Seq<int> {
    Seq::new(v.len(), |i: int| v[i] as int)
}

/// Whether all names stand for symbols that there are.
pub open spec fn names_valid(v: NamesModel, symbols: nat) -> bool {
    forall|i: int| 0 <= i < v.len() ==> 0 <= (#[trigger] v[i]).1 < symbols
}

/// Whether a scope is in order: its parent comes before it, its names stand for
/// symbols that there are, and `var` does not pass through a scope that it belongs to.
pub open spec fn scope_valid(s: ScopeData, at: int, symbols: nat) -> bool {
    &&& match s.parent {
        Some(p) => 0 <= p < at,
        None => at == 0,
    }
    &&& names_valid(s.bindings, symbols)
    &&& names_valid(s.hoisted, symbols)
    &&& s.flags & VAR_SCOPE != 0 ==> s.hoisted.len() == 0
}

/// Whether a reference is in order.
pub open spec fn reference_valid(r: ReferenceModel, scopes: nat, symbols: nat) -> bool {
    &&& 0 <= r.scope < scopes
    &&& match r.symbol {
        Some(s) => 0 <= s < symbols,
        None => true,
    }
}

impl ModuleData {
    /// Whether all that refers to a scope, a symbol or a reference refers to one that
    /// there is.
    pub open spec fn valid(self) -> bool {
        &&& self.scopes.len() > 0
        &&& forall|i: int|
            0 <= i < self.scopes.len() ==> scope_valid(
                #[trigger] self.scopes[i],
                i,
                self.symbols.len(),
            )
        &&& forall|i: int|
            0 <= i < self.refs.len() ==> reference_valid(
                #[trigger] self.refs[i],
                self.scopes.len(),
                self.symbols.len(),
            )
        &&& forall|i: int|
            0 <= i < self.sites.len() ==> (#[trigger] self.sites[i]).scope < self.scopes.len()
        &&& forall|i: int|
            0 <= i < self.unresolved.len() ==> 0 <= #[trigger] self.unresolved[i] < self.refs.len()
    }

    /// The symbol that a name stands for in a scope itself.
    pub open spec fn binding(self, scope: int, name: Seq<char>) -> Option<int> {
        value_of(self.scopes[scope].bindings, name)
    }

    /// The symbol that a name stands for in a scope or the nearest one around it.
    pub open spec fn visible(self, scope: int, name: Seq<char>) -> Option<int>
        decreases scope,
    {
        match self.binding(scope, name) {
            Some(s) => Some(s),
            None => match self.scopes[scope].parent {
                Some(p) => if 0 <= p < scope {
                    self.visible(p, name)
                } else {
                    None
                },
                None => None,
            },
        }
    }
}

/// Gives the symbol that a name stands for.
pub fn symbol_named(v: &Vec<(String, usize)>, name: &str) -> (r: Option<usize>)
    ensures
        opt_index(r) == value_of(name_models(v@), name@),
        r is Some ==> exists|i: int| 0 <= i < v@.len() && (#[trigger] v@[i]).1 == r->0,
{
    let at: usize = position_of(v, name);
    proof {
        assert(keys_of(name_models(v@)) =~= item_keys(v@));
        lemma_find_key(item_keys(v@), name@, 0);
    }
    if at < v.len() {
        Some(v[at].1)
    } else {
        None
    }
}

/// How a binding is declared, as the evaluator sees it.
#[derive(Debug, PartialEq)]
pub enum BindingDecl {
    Declarator(Span),
    NamedImport,
    DefaultImport,
    NamespaceImport,
    /// The type of the node that declares the binding.
    Opaque(String),
}

/// How a binding is declared, mathematically.
#[verifier::ext_equal]
pub enum BindingDeclModel {
    Declarator(Span),
    NamedImport,
    DefaultImport,
    NamespaceImport,
    Opaque(Seq<char>),
}

/// A binding as the evaluator sees it.
#[derive(Debug, PartialEq)]
pub struct BindingInfo {
    pub decl: BindingDecl,
    pub span: Span,
}

impl BindingDecl {
    /// What the declaration is, mathematically.
    pub open spec fn model(self) -> BindingDeclModel {
        match self {
            BindingDecl::Declarator(s) => BindingDeclModel::Declarator(s),
            BindingDecl::NamedImport => BindingDeclModel::NamedImport,
            BindingDecl::DefaultImport => BindingDeclModel::DefaultImport,
            BindingDecl::NamespaceImport => BindingDeclModel::NamespaceImport,
            BindingDecl::Opaque(s) => BindingDeclModel::Opaque(s@),
        }
    }
}

/// How a declaration looks to the evaluator.
pub open spec fn seen_as(d: DeclModel) -> BindingDeclModel {
    match d {
        DeclModel::Declarator(s) => BindingDeclModel::Declarator(s),
        DeclModel::NamedImport => BindingDeclModel::NamedImport,
        DeclModel::DefaultImport => BindingDeclModel::DefaultImport,
        DeclModel::NamespaceImport => BindingDeclModel::NamespaceImport,
        DeclModel::Param(s) => BindingDeclModel::Opaque(s),
        DeclModel::Catch => BindingDeclModel::Opaque("CatchClause"@),
        DeclModel::Function(true) => BindingDeclModel::Opaque("FunctionExpression"@),
        DeclModel::Function(false) => BindingDeclModel::Opaque("FunctionDeclaration"@),
        DeclModel::Class(true) => BindingDeclModel::Opaque("ClassExpression"@),
        DeclModel::Class(false) => BindingDeclModel::Opaque("ClassDeclaration"@),
        DeclModel::Enum => BindingDeclModel::Opaque("TSEnumDeclaration"@),
        DeclModel::Other => BindingDeclModel::Opaque("Identifier"@),
    }
}

impl ScopeModel {
    /// What the module is, mathematically.
    pub open spec fn data(self) -> ModuleData {
        ModuleData {
            scopes: scope_models(self.scopes@),
            symbols: symbol_models(self.symbols@),
            refs: reference_models(self.refs@),
            sites: self.sites@,
            unresolved: index_models(self.root_unresolved@),
        }
    }

    /// Gives the symbol that a name stands for in a scope itself.
    pub fn get_binding(&self, scope: usize, name: &str) -> (r: Option<usize>)
        requires
            self.data().valid(),
            scope < self.data().scopes.len(),
        ensures
            opt_index(r) == self.data().binding(scope as int, name@),
            r is Some ==> r->0 < self.data().symbols.len(),
    {
        assert(self.data().scopes[scope as int] == self.scopes@[scope as int].model());
        let r = symbol_named(&self.scopes[scope].bindings, name);
        proof {
            let s = self.data().scopes[scope as int];
            assert(scope_valid(s, scope as int, self.data().symbols.len()));
            if r is Some {
                let v = self.scopes@[scope as int].bindings@;
                let i = choose|i: int| 0 <= i < v.len() && (#[trigger] v[i]).1 == r->0;
                assert(s.bindings[i].1 == v[i].1);
            }
        }
        r
    }

    /// Gives the symbol that a name stands for in a scope or the nearest one around it.
    pub fn find_binding(&self, scope: usize, name: &str) -> (r: Option<usize>)
        requires
            self.data().valid(),
            scope < self.data().scopes.len(),
        ensures
            opt_index(r) == self.data().visible(scope as int, name@),
            r is Some ==> r->0 < self.data().symbols.len(),
    {
        let mut at: usize = scope;
        loop
            invariant
                self.data().valid(),
                at < self.data().scopes.len(),
                self.data().visible(scope as int, name@) == self.data().visible(at as int, name@),
            decreases at,
        {
            if let Some(s) = self.get_binding(at, name) {
                return Some(s);
            }
            proof {
                assert(self.data().scopes[at as int] == self.scopes@[at as int].model());
                assert(scope_valid(
                    self.data().scopes[at as int],
                    at as int,
                    self.data().symbols.len(),
                ));
            }
            match self.scopes[at].parent {
                Some(p) => {
                    at = p;
                },
                None => {
                    return None;
                },
            }
        }
    }

    /// Gives the symbol of a reference, if it is known.
    pub fn symbol_of(&self, reference: Option<usize>) -> (r: Option<usize>)
        ensures
            opt_index(r) == match reference {
                Some(i) => if i < self.data().refs.len() {
                    self.data().refs[i as int].symbol
                } else {
                    None
                },
                None => None,
            },
    {
        match reference {
            Some(i) => {
                if i < self.refs.len() {
                    assert(self.data().refs[i as int] == self.refs@[i as int].model());
                    self.refs[i].symbol
                } else {
                    None
                }
            },
            None => None,
        }
    }

    /// Gives whether a symbol is assigned or declared again, and whether it is changed.
    pub fn constness(&self, symbol: usize) -> (r: (bool, bool))
        requires
            symbol < self.data().symbols.len(),
        ensures
            ({
                let s = self.data().symbols[symbol as int];
                r == (s.redeclared || s.var_for_head || s.violated, s.mutated)
            }),
    {
        assert(self.data().symbols[symbol as int] == self.symbols@[symbol as int].model());
        let s = &self.symbols[symbol];
        (s.redeclared || s.var_for_head || s.violated, s.mutated)
    }

    /// Gives a symbol as the evaluator sees it.
    pub fn binding_info(&self, symbol: usize) -> (r: BindingInfo)
        requires
            symbol < self.data().symbols.len(),
        ensures
            r.decl.model() == seen_as(self.data().symbols[symbol as int].decl),
            r.span == self.data().symbols[symbol as int].span,
    {
        assert(self.data().symbols[symbol as int] == self.symbols@[symbol as int].model());
        let s = &self.symbols[symbol];
        let decl = match &s.decl {
            DeclSite::Declarator(span) => BindingDecl::Declarator(*span),
            DeclSite::NamedImport => BindingDecl::NamedImport,
            DeclSite::DefaultImport => BindingDecl::DefaultImport,
            DeclSite::NamespaceImport => BindingDecl::NamespaceImport,
            DeclSite::Param(pattern) => BindingDecl::Opaque(pattern.clone()),
            DeclSite::Catch => BindingDecl::Opaque("CatchClause".to_owned()),
            DeclSite::Function { expression } => {
                if *expression {
                    BindingDecl::Opaque("FunctionExpression".to_owned())
                } else {
                    BindingDecl::Opaque("FunctionDeclaration".to_owned())
                }
            },
            DeclSite::Class { expression } => {
                if *expression {
                    BindingDecl::Opaque("ClassExpression".to_owned())
                } else {
                    BindingDecl::Opaque("ClassDeclaration".to_owned())
                }
            },
            DeclSite::Enum => BindingDecl::Opaque("TSEnumDeclaration".to_owned()),
            DeclSite::Other => BindingDecl::Opaque("Identifier".to_owned()),
        };
        BindingInfo { decl, span: s.span }
    }

    /// Gives the symbol that a name stands for in the module itself.
    pub fn root_binding(&self, name: &str) -> (r: Option<usize>)
        requires
            self.data().valid(),
        ensures
            opt_index(r) == self.data().binding(0, name@),
    {
        self.get_binding(0, name)
    }

    /// Whether a name is used without a declaration, or declared anywhere.
    pub fn uid_name_taken(&self, name: &str) -> (r: bool)
        requires
            self.data().valid(),
        ensures
            r == name_taken(self.data(), name@),
    {
        let ghost d = self.data();
        let mut i: usize = 0;
        while i < self.root_unresolved.len()
            invariant
                d == self.data(),
                d.valid(),
                i <= self.root_unresolved@.len(),
                forall|j: int|
                    0 <= j < i ==> d.refs[#[trigger] d.unresolved[j]].name != name@,
            decreases self.root_unresolved@.len() - i,
        {
            let at: usize = self.root_unresolved[i];
            proof {
                assert(d.unresolved[i as int] == at);
                assert(d.refs[at as int] == self.refs@[at as int].model());
            }
            if str_eq(self.refs[at].name.as_str(), name) {
                assert(d.refs[d.unresolved[i as int]].name == name@);
                return true;
            }
            i += 1;
        }
        i = 0;
        while i < self.symbols.len()
            invariant
                d == self.data(),
                i <= self.symbols@.len(),
                forall|j: int| 0 <= j < i ==> (#[trigger] d.symbols[j]).name != name@,
            decreases self.symbols@.len() - i,
        {
            assert(d.symbols[i as int] == self.symbols@[i as int].model());
            if str_eq(self.symbols[i].name.as_str(), name) {
                assert(d.symbols[i as int].name == name@);
                return true;
            }
            i += 1;
        }
        false
    }

    /// Gives where names are used, of the uses that `keep` selects by their positions
    /// among the references, in order.
    pub fn reference_starts_where(&self, names: &Vec<String>, keep: &Vec<bool>) -> (r: Vec<u32>)
        requires
            keep@.len() == self.data().refs.len(),
        ensures
            r@ == starts_upto(self.data().refs, texts(names@), keep@, keep@.len() as int),
    {
        let ghost d = self.data();
        let ghost ns = texts(names@);
        let mut out: Vec<u32> = Vec::new();
        let mut i: usize = 0;
        while i < self.refs.len()
            invariant
                d == self.data(),
                ns == texts(names@),
                keep@.len() == self.refs@.len(),
                i <= self.refs@.len(),
                out@ == starts_upto(d.refs, ns, keep@, i as int),
            decreases self.refs@.len() - i,
        {
            assert(d.refs[i as int] == self.refs@[i as int].model());
            if keep[i] && encloses(names, self.refs[i].name.as_str()) {
                insert_start(&mut out, self.refs[i].start);
            }
            i += 1;
        }
        out
    }

    /// Whether a name at a site stands for what it stands for in the module itself.
    pub fn resolves_to_root_binding(&self, site: usize, name: &str) -> (r: bool)
        requires
            self.data().valid(),
            site < self.data().sites.len(),
        ensures
            r == (self.data().binding(0, name@) is Some && self.data().visible(
                self.data().sites[site as int].scope as int,
                name@,
            ) == self.data().binding(0, name@)),
    {
        assert(self.data().sites[site as int].scope < self.data().scopes.len());
        match (self.get_binding(0, name), self.find_binding(self.sites[site].scope, name)) {
            (Some(a), Some(b)) => a == b,
            _ => false,
        }
    }

    /// Whether a name at a site stands for anything.
    pub fn any_binding_at(&self, site: usize, name: &str) -> (r: bool)
        requires
            self.data().valid(),
            site < self.data().sites.len(),
        ensures
            r == self.data().visible(self.data().sites[site as int].scope as int, name@) is Some,
    {
        assert(self.data().sites[site as int].scope < self.data().scopes.len());
        self.find_binding(self.sites[site].scope, name).is_some()
    }

    /// Whether a site stands in no function and no nested statement.
    pub fn is_program_level(&self, site: usize) -> (r: bool)
        requires
            site < self.data().sites.len(),
        ensures
            r == self.data().sites[site as int].program_level,
    {
        self.sites[site].program_level
    }

    /// Gives where the statement of the module that a site stands in starts.
    pub fn program_statement_start(&self, site: usize) -> (r: u32)
        requires
            site < self.data().sites.len(),
        ensures
            r == self.data().sites[site as int].top_stmt_start,
    {
        self.sites[site].top_stmt_start
    }
}

/// Whether a name is used without a declaration, or declared anywhere.
pub open spec fn name_taken(d: ModuleData, name: Seq<char>) -> bool {
    (exists|i: int|
        0 <= i < d.unresolved.len() && d.refs[#[trigger] d.unresolved[i]].name == name) || (exists|
        i: int,
    |
        0 <= i < d.symbols.len() && (#[trigger] d.symbols[i]).name == name)
}

/// Where a start belongs among starts in order: behind those that are not greater.
pub open spec fn start_place(v: Seq<u32>, x: u32, k: int) -> int
    decreases k,
{
    if 0 < k <= v.len() && v[k - 1] > x {
        start_place(v, x, k - 1)
    } else {
        k
    }
}

/// The starts, in order, of those of the first `k` uses that are kept and have one of
/// the names.
pub open spec fn starts_upto(
    refs: Seq<ReferenceModel>,
    names: Seq<Seq<char>>,
    keep: Seq<bool>,
    k: int,
) -> Seq<u32>
    decreases k,
{
    if k <= 0 {
        Seq::empty()
    } else {
        let done = starts_upto(refs, names, keep, k - 1);
        let r = refs[k - 1];
        if keep[k - 1] && names.contains(r.name) {
            done.insert(start_place(done, r.start, done.len() as int), r.start)
        } else {
            done
        }
    }
}

fn insert_start(v: &mut Vec<u32>, x: u32)
    ensures
        final(v)@ == old(v)@.insert(start_place(old(v)@, x, old(v)@.len() as int), x),
{
    let ghost before = v@;
    let mut k: usize = v.len();
    while k > 0 && v[k - 1] > x
        invariant
            v@ == before,
            k <= v@.len(),
            start_place(before, x, before.len() as int) == start_place(before, x, k as int),
        decreases k,
    {
        k -= 1;
    }
    v.insert(k, x);
}

/// Whether starts are in order.
pub open spec fn starts_ordered(v: Seq<u32>) -> bool {
    forall|i: int, j: int| 0 <= i < j < v.len() ==> v[i] <= v[j]
}

proof fn lemma_place(v: Seq<u32>, x: u32, k: int)
    requires
        starts_ordered(v),
        0 <= k <= v.len(),
        forall|i: int| k <= i < v.len() ==> v[i] > x,
    ensures
        0 <= start_place(v, x, k) <= v.len(),
        starts_ordered(v.insert(start_place(v, x, k), x)),
    decreases k,
{
    if k > 0 && v[k - 1] > x {
        lemma_place(v, x, k - 1);
    } else {
        let w = v.insert(k, x);
        assert forall|i: int, j: int| 0 <= i < j < w.len() implies w[i] <= w[j] by {
            if j < k {
                assert(w[i] == v[i] && w[j] == v[j]);
            } else if i < k {
                assert(w[i] == v[i]);
                if i < k - 1 {
                    assert(v[i] <= v[k - 1]);
                }
            } else if i > k {
                assert(w[i] == v[i - 1] && w[j] == v[j - 1]);
            }
        }
    }
}

/// The uses of names are given in the order of the source.
pub proof fn starts_are_in_order(
    refs: Seq<ReferenceModel>,
    names: Seq<Seq<char>>,
    keep: Seq<bool>,
    k: int,
)
    requires
        0 <= k <= refs.len(),
        keep.len() == refs.len(),
    ensures
        starts_ordered(starts_upto(refs, names, keep, k)),
    decreases k,
{
    if k > 0 {
        starts_are_in_order(refs, names, keep, k - 1);
        let done = starts_upto(refs, names, keep, k - 1);
        lemma_place(done, refs[k - 1].start, done.len() as int);
    }
}

} // verus!
