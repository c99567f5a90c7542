//! The walk that builds scopes: what each event of the walk does.

use crate::scopes::{
    name_models, opt_index, reference_models, scope_models, scope_valid, symbol_models,
    symbol_named, ModuleData, NamesModel, ParentModel, RefParent, Reference, ReferenceModel, Scope,
    ScopeData, ScopeModel, Site, Symbol, SymbolModel, CATCH_SCOPE, CONDITIONAL_SCOPE,
    FOR_QUALIFIERS, FOR_TYPES, FOR_TYPES_OF_VALUES, FUNCTION_EXPRESSION, NAMESPACE, READ,
    READ_WRITE, TOP_SCOPE, TYPE, VALUES_AND_IMPORTS, VALUE_AS_TYPE, VAR_SCOPE, WRITE,
};
use crate::scopes::{index_models, names_valid, reference_valid};
use crate::shared::dynamic::Span;
use crate::text::{is_listed, listed, str_eq, texts};
use crate::value::{
    append_put, find_key, item_keys, keys_of, lemma_find_key, opt_text, position_of, removed,
    value_of,
};
use vstd::prelude::*;

verus! {

/// The methods that change the array they are called on.
pub const MUTATING_ARRAY_METHODS: [&'static str; 9] = [
    "push",
    "pop",
    "shift",
    "unshift",
    "splice",
    "sort",
    "reverse",
    "fill",
    "copyWithin",
];

/// The methods of `Object` that change their first argument.
pub const OBJECT_MUTATORS: [&'static str; 4] = [
    "assign",
    "defineProperty",
    "defineProperties",
    "setPrototypeOf",
];

/// Whether a call of a member changes the array that it belongs to.
pub open spec fn changes_array(property: Option<Seq<char>>) -> bool {
    property is Some && listed(property->0, MUTATING_ARRAY_METHODS@)
}

/// Whether a call of a method, given by the name of its object and its own, changes the
/// first argument.
pub open spec fn changes_argument(method: Option<(Seq<char>, Seq<char>)>) -> bool {
    match method {
        Some((object, name)) => object == "Object"@ && listed(name, OBJECT_MUTATORS@),
        None => false,
    }
}

/// Whether a call of a member changes the array that it belongs to.
pub fn is_array_mutator(property: &Option<String>) -> (r: bool)
    ensures
        r == changes_array(opt_text(*property)),
{
    match property {
        Some(p) => is_listed(p.as_str(), &MUTATING_ARRAY_METHODS),
        None => false,
    }
}

/// Whether a call of a method changes the first argument.
pub fn is_object_mutator(method: &Option<(String, String)>) -> (r: bool)
    ensures
        r == changes_argument(opt_names(*method)),
{
    match method {
        Some((object, name)) => str_eq(object.as_str(), "Object") && is_listed(
            name.as_str(),
            &OBJECT_MUTATORS,
        ),
        None => false,
    }
}

/// The view of an optional pair of names.
pub open spec fn opt_names(o: Option<(String, String)>) -> Option<(Seq<char>, Seq<char>)> {
    match o {
        Some(p) => Some((p.0@, p.1@)),
        None => None,
    }
}

/// What kind of node a reference may stand in.
#[derive(Debug, PartialEq)]
pub enum AncestorKind {
    Paren,
    /// A member, with the place of its object, and its name where that is known.
    Member { object: Span, property: Option<String> },
    /// An assignment, with the place of its left side.
    Assignment { left: Span },
    Update,
    Unary { delete: bool },
    /// A call, with the places of what is called and of its first argument, and the names
    /// of an object and its method where such a method is called.
    Call { callee: Span, first_argument: Option<Span>, method: Option<(String, String)> },
    /// The type that a conditional type infers.
    Infer,
    Other,
}

/// What kind of node a reference may stand in, mathematically.
#[verifier::ext_equal]
pub enum KindModel {
    Paren,
    Member(Span, Option<Seq<char>>),
    Assignment(Span),
    Update,
    Unary(bool),
    Call(Span, Option<Span>, Option<(Seq<char>, Seq<char>)>),
    Infer,
    Other,
}

impl AncestorKind {
    /// What the kind is, mathematically.
    pub open spec fn model(self) -> KindModel {
        match self {
            AncestorKind::Paren => KindModel::Paren,
            AncestorKind::Member { object, property } => KindModel::Member(
                object,
                opt_text(property),
            ),
            AncestorKind::Assignment { left } => KindModel::Assignment(left),
            AncestorKind::Update => KindModel::Update,
            AncestorKind::Unary { delete } => KindModel::Unary(delete),
            AncestorKind::Call { callee, first_argument, method } => KindModel::Call(
                callee,
                first_argument,
                opt_names(method),
            ),
            AncestorKind::Infer => KindModel::Infer,
            AncestorKind::Other => KindModel::Other,
        }
    }
}

/// A node that the walk is in.
#[derive(Debug, PartialEq)]
pub struct Ancestor {
    pub kind: AncestorKind,
    pub span: Span,
    /// Whether it is a function.
    pub function_like: bool,
    /// Whether it is a statement.
    pub statement: bool,
    /// Whether it is the module or an export.
    pub exporting: bool,
}

/// A node that the walk is in, mathematically.
#[verifier::ext_equal]
pub struct NodeData {
    pub kind: KindModel,
    pub span: Span,
    pub function_like: bool,
    pub statement: bool,
    pub exporting: bool,
}

impl Ancestor {
    /// What the node is, mathematically.
    pub open spec fn model(self) -> NodeData {
        NodeData {
            kind: self.kind.model(),
            span: self.span,
            function_like: self.function_like,
            statement: self.statement,
            exporting: self.exporting,
        }
    }
}

/// What nodes are, mathematically.
pub open spec fn node_models(v: Seq<Ancestor>) -> Seq<NodeData> {
    Seq::new(v.len(), |i: int| v[i].model())
}

/// Whether the node at `i` hides what is in it from the module: functions do, and
/// statements that stand neither in the module itself nor in an export.
pub open spec fn hides(stack: Seq<NodeData>, i: int) -> bool {
    stack[i].function_like || (stack[i].statement && !(i > 0 && stack[i - 1].exporting))
}

/// How many of the first `k` nodes hide what is in them.
pub open spec fn hiding_upto(stack: Seq<NodeData>, k: int) -> nat
    decreases k,
{
    if k <= 0 {
        0
    } else {
        hiding_upto(stack, k - 1) + if hides(stack, k - 1) {
            1nat
        } else {
            0
        }
    }
}

/// The number of nodes outside the brackets around what stands in the first `i` nodes,
/// and the place of the outermost bracket.
pub open spec fn outside_brackets(stack: Seq<NodeData>, i: int, span: Span) -> (int, Span)
    decreases i,
{
    if 0 < i <= stack.len() && stack[i - 1].kind is Paren {
        outside_brackets(stack, i - 1, stack[i - 1].span)
    } else {
        (i, span)
    }
}

/// Whether a node changes the object of a member at the given place in it.
pub open spec fn changes_member(kind: KindModel, member: Span, mutating: bool) -> bool {
    match kind {
        KindModel::Assignment(left) => left == member,
        KindModel::Update => true,
        KindModel::Unary(delete) => delete,
        KindModel::Call(callee, _, _) => callee == member && mutating,
        _ => false,
    }
}

/// What a reference at the given place stands in, and whether it is changed there.
pub open spec fn parent_at(stack: Seq<NodeData>, span: Span) -> (ParentModel, bool) {
    let (i, child) = outside_brackets(stack, stack.len() as int, span);
    if i <= 0 {
        (ParentModel::Other, false)
    } else {
        match stack[i - 1].kind {
            KindModel::Member(object, property) => {
                let (j, member) = outside_brackets(stack, i - 1, stack[i - 1].span);
                let changed = object == child && j > 0 && changes_member(
                    stack[j - 1].kind,
                    member,
                    changes_array(property),
                );
                (ParentModel::Member(property), changed)
            },
            KindModel::Call(_, first, method) => (
                ParentModel::Other,
                first == Some(child) && changes_argument(method),
            ),
            _ => (ParentModel::Other, false),
        }
    }
}

/// A name with the symbol that it is set to stand for in a scope.
pub open spec fn bound(s: ScopeData, name: Seq<char>, symbol: int) -> ScopeData {
    ScopeData { bindings: append_put(s.bindings, name, symbol), ..s }
}

/// A scope without a name.
pub open spec fn unbound(s: ScopeData, name: Seq<char>) -> ScopeData {
    ScopeData { bindings: removed(s.bindings, name), ..s }
}

/// A scope that a `var` passed through.
pub open spec fn passed_by(s: ScopeData, name: Seq<char>, symbol: int) -> ScopeData {
    ScopeData { hoisted: append_put(s.hoisted, name, symbol), ..s }
}

impl ModuleData {
    /// The module with one scope replaced.
    pub open spec fn with_scope(self, i: int, s: ScopeData) -> ModuleData {
        ModuleData { scopes: self.scopes.update(i, s), ..self }
    }

    /// The module with one symbol replaced.
    pub open spec fn with_symbol(self, i: int, s: SymbolModel) -> ModuleData {
        ModuleData { symbols: self.symbols.update(i, s), ..self }
    }

    /// The module with a new symbol that a name of a scope stands for.
    pub open spec fn with_new_symbol(self, scope: int, s: SymbolModel) -> ModuleData {
        ModuleData { symbols: self.symbols.push(s), ..self }.with_scope(
            scope,
            bound(self.scopes[scope], s.name, self.symbols.len() as int),
        )
    }

    /// The symbol that a declaration of a name in a scope declares again. The name of
    /// a function expression is hidden, not declared again.
    pub open spec fn declared_before(self, scope: int, name: Seq<char>) -> Option<int> {
        let found = match self.binding(scope, name) {
            Some(s) => Some(s),
            None => value_of(self.scopes[scope].hoisted, name),
        };
        match found {
            Some(s) => if self.symbols[s].flags & FUNCTION_EXPRESSION != 0 {
                None
            } else {
                Some(s)
            },
            None => None,
        }
    }

    /// The module after a name was declared in a scope, and its symbol.
    pub open spec fn declared(self, scope: int, s: SymbolModel) -> (ModuleData, int) {
        match self.declared_before(scope, s.name) {
            Some(i) => (
                self.with_symbol(
                    i,
                    SymbolModel {
                        redeclared: true,
                        flags: self.symbols[i].flags | s.flags,
                        ..self.symbols[i]
                    },
                ),
                i,
            ),
            None => (self.with_new_symbol(scope, s), self.symbols.len() as int),
        }
    }

    /// The module after the first `k` names were declared in a scope.
    pub open spec fn declared_upto(
        self,
        scope: int,
        names: Seq<Seq<char>>,
        s: SymbolModel,
        k: int,
    ) -> ModuleData
        decreases k,
    {
        if k <= 0 {
            self
        } else {
            self.declared_upto(scope, names, s, k - 1).declared(
                scope,
                SymbolModel { name: names[k - 1], ..s },
            ).0
        }
    }

    /// The nearest scope, from the given one outwards, that `var` belongs to.
    pub open spec fn var_scope(self, scope: int) -> Option<int>
        decreases scope,
    {
        if self.scopes[scope].flags & VAR_SCOPE != 0 {
            Some(scope)
        } else {
            match self.scopes[scope].parent {
                Some(p) => if 0 <= p < scope {
                    self.var_scope(p)
                } else {
                    None
                },
                None => None,
            }
        }
    }

    /// The scopes that a `var` passes through from the given one outwards.
    pub open spec fn passed(self, scope: int) -> Seq<int>
        decreases scope,
    {
        if self.scopes[scope].flags & VAR_SCOPE != 0 {
            Seq::empty()
        } else {
            match self.scopes[scope].parent {
                Some(p) => if 0 <= p < scope {
                    seq![scope] + self.passed(p)
                } else {
                    seq![scope]
                },
                None => seq![scope],
            }
        }
    }

    /// The first of the scopes from the `i`th on that declares a name, or their number.
    pub open spec fn first_declaring(self, scopes: Seq<int>, name: Seq<char>, i: int) -> int
        decreases scopes.len() - i,
    {
        if i < 0 || i >= scopes.len() {
            scopes.len() as int
        } else if self.declared_before(scopes[i], name) is Some {
            i
        } else {
            self.first_declaring(scopes, name, i + 1)
        }
    }

    /// The module after a `var` that one of the scopes on its way declares was merged
    /// with that declaration.
    pub open spec fn merged(self, scope: int, target: int, name: Seq<char>) -> ModuleData {
        let i = self.declared_before(scope, name)->0;
        let marked = self.with_symbol(i, SymbolModel { redeclared: true, ..self.symbols[i] });
        if self.binding(target, name) is Some {
            marked
        } else {
            let gone = marked.with_scope(scope, unbound(marked.scopes[scope], name));
            gone.with_scope(target, bound(gone.scopes[target], name, i))
        }
    }

    /// The module after a name passed through the first `k` scopes.
    pub open spec fn hoisted_upto(
        self,
        scopes: Seq<int>,
        name: Seq<char>,
        symbol: int,
        k: int,
    ) -> ModuleData
        decreases k,
    {
        if k <= 0 {
            self
        } else {
            let done = self.hoisted_upto(scopes, name, symbol, k - 1);
            done.with_scope(
                scopes[k - 1],
                passed_by(done.scopes[scopes[k - 1]], name, symbol),
            )
        }
    }

    /// The module after a `var` was declared: in its scope, unless a scope on its way
    /// declares the name, and with its name noted in all scopes on its way.
    pub open spec fn with_var(self, way: Seq<int>, target: int, s: SymbolModel) -> ModuleData {
        let at = self.first_declaring(way, s.name, 0);
        let (m, symbol) = if at < way.len() {
            (self.merged(way[at], target, s.name), self.declared_before(way[at], s.name)->0)
        } else {
            self.declared(target, s)
        };
        m.hoisted_upto(way, s.name, symbol, way.len() as int)
    }

    /// The module after the first `k` names of a `var` were declared.
    pub open spec fn with_vars(
        self,
        way: Seq<int>,
        target: int,
        names: Seq<Seq<char>>,
        s: SymbolModel,
        k: int,
    ) -> ModuleData
        decreases k,
    {
        if k <= 0 {
            self
        } else {
            self.with_vars(way, target, names, s, k - 1).with_var(
                way,
                target,
                SymbolModel { name: names[k - 1], ..s },
            )
        }
    }

    /// The nearest scope of a conditional type, or the given scope.
    pub open spec fn conditional_scope(self, scope: int) -> Option<int>
        decreases scope,
    {
        if self.scopes[scope].flags & CONDITIONAL_SCOPE != 0 {
            Some(scope)
        } else {
            match self.scopes[scope].parent {
                Some(p) => if 0 <= p < scope {
                    self.conditional_scope(p)
                } else {
                    None
                },
                None => None,
            }
        }
    }
}

/// Whether a reference may refer to a symbol.
pub open spec fn may_refer(r: u8, s: u32) -> bool {
    if r & NAMESPACE != 0 && r & VALUE_AS_TYPE == 0 && s & FOR_QUALIFIERS == 0 {
        false
    } else {
        (r & READ_WRITE != 0 && s & VALUES_AND_IMPORTS != 0) || (r & TYPE != 0 && s & FOR_TYPES
            != 0) || (r & VALUE_AS_TYPE != 0 && s & FOR_TYPES_OF_VALUES != 0)
    }
}

/// What a reference is once it refers to a symbol: of a value, or of a type alone.
pub open spec fn settled_flags(r: u8, s: u32) -> u8 {
    if (s & VALUES_AND_IMPORTS != 0 && r & READ_WRITE != 0) || (r & NAMESPACE != 0 && r & READ
        != 0) {
        r & !TYPE
    } else {
        TYPE
    }
}

impl ModuleData {
    /// The symbol that a reference in a scope refers to: that of the nearest scope
    /// whose symbol it may refer to.
    pub open spec fn referent(self, scope: int, name: Seq<char>, flags: u8) -> Option<int>
        decreases scope,
    {
        let here = self.binding(scope, name);
        if here is Some && may_refer(flags, self.symbols[here->0].flags) {
            here
        } else {
            match self.scopes[scope].parent {
                Some(p) => if 0 <= p < scope {
                    self.referent(p, name, flags)
                } else {
                    None
                },
                None => None,
            }
        }
    }

    /// The module after a reference was found to refer to a symbol.
    pub open spec fn referring(self, reference: int, symbol: int) -> ModuleData {
        let r = self.refs[reference];
        let s = self.symbols[symbol];
        let flags = settled_flags(r.flags, s.flags);
        let writes = flags & WRITE != 0;
        ModuleData {
            refs: self.refs.update(
                reference,
                ReferenceModel { flags, symbol: Some(symbol), ..r },
            ),
            symbols: self.symbols.update(
                symbol,
                SymbolModel {
                    violated: s.violated || writes,
                    mutated: s.mutated || (!writes && r.mutation),
                    ..s
                },
            ),
            ..self
        }
    }

    /// The symbol that a reference refers to.
    pub open spec fn target_of(self, reference: int) -> Option<int> {
        let r = self.refs[reference];
        self.referent(r.scope, r.name, r.flags)
    }

    /// The module after the references from the `i`th on were resolved, and those that
    /// refer to nothing.
    pub open spec fn resolved_from(self, pending: Seq<int>, i: int, left: Seq<int>) -> (
        ModuleData,
        Seq<int>,
    )
        decreases pending.len() - i,
    {
        if i < 0 || i >= pending.len() {
            (self, left)
        } else {
            match self.target_of(pending[i]) {
                Some(s) => self.referring(pending[i], s).resolved_from(pending, i + 1, left),
                None => self.resolved_from(pending, i + 1, left.push(pending[i])),
            }
        }
    }
}

/// Gives a copy of a node.
pub fn copy_ancestor(node: &Ancestor) -> (r: Ancestor)
    ensures
        r.model() == node.model(),
{
    let kind = match &node.kind {
        AncestorKind::Paren => AncestorKind::Paren,
        AncestorKind::Member { object, property } => AncestorKind::Member {
            object: *object,
            property: match property {
                Some(p) => Some(p.clone()),
                None => None,
            },
        },
        AncestorKind::Assignment { left } => AncestorKind::Assignment { left: *left },
        AncestorKind::Update => AncestorKind::Update,
        AncestorKind::Unary { delete } => AncestorKind::Unary { delete: *delete },
        AncestorKind::Call { callee, first_argument, method } => AncestorKind::Call {
            callee: *callee,
            first_argument: *first_argument,
            method: match method {
                Some((object, name)) => Some((object.clone(), name.clone())),
                None => None,
            },
        },
        AncestorKind::Infer => AncestorKind::Infer,
        AncestorKind::Other => AncestorKind::Other,
    };
    Ancestor {
        kind,
        span: node.span,
        function_like: node.function_like,
        statement: node.statement,
        exporting: node.exporting,
    }
}

/// The state of the walk.
pub struct Builder {
    pub model: ScopeModel,
    pub current_scope: usize,
    pub stack: Vec<Ancestor>,
    pub top_stmt_start: u32,
    pub pending: Vec<usize>,
}

/// The state of the walk, mathematically.
#[verifier::ext_equal]
pub struct WalkData {
    pub module: ModuleData,
    pub current: int,
    pub stack: Seq<NodeData>,
    pub top_start: u32,
    pub pending: Seq<int>,
}

impl WalkData {
    /// Whether the state is in order.
    pub open spec fn valid(self) -> bool {
        &&& self.module.valid()
        &&& 0 <= self.current < self.module.scopes.len()
        &&& forall|i: int|
            0 <= i < self.pending.len() ==> 0 <= #[trigger] self.pending[i]
                < self.module.refs.len()
    }
}

impl Builder {
    /// What the state is, mathematically.
    pub open spec fn data(self) -> WalkData {
        WalkData {
            module: self.model.data(),
            current: self.current_scope as int,
            stack: node_models(self.stack@),
            top_start: self.top_stmt_start,
            pending: index_models(self.pending@),
        }
    }

    /// Whether the state is in order.
    pub open spec fn valid(self) -> bool {
        self.data().valid()
    }
}

fn upsert(v: &mut Vec<(String, usize)>, name: &str, symbol: usize)
    ensures
        name_models(final(v)@) == append_put(name_models(old(v)@), name@, symbol as int),
{
    let ghost before = name_models(v@);
    let at: usize = position_of(v, name);
    proof {
        assert(keys_of(before) =~= item_keys(v@));
        lemma_find_key(keys_of(before), name@, 0);
    }
    if at < v.len() {
        let gone = v.remove(at);
        v.insert(at, (gone.0, symbol));
        proof {
            assert(name_models(v@) =~= before.update(
                at as int,
                (before[at as int].0, symbol as int),
            ));
        }
    } else {
        v.push((name.to_owned(), symbol));
        proof {
            assert(name_models(v@) =~= before.push((name@, symbol as int)));
        }
    }
}

fn drop_name(v: &mut Vec<(String, usize)>, name: &str)
    ensures
        name_models(final(v)@) == removed(name_models(old(v)@), name@),
{
    let ghost before = name_models(v@);
    let at: usize = position_of(v, name);
    proof {
        assert(keys_of(before) =~= item_keys(v@));
        lemma_find_key(keys_of(before), name@, 0);
    }
    if at < v.len() {
        let gone = v.remove(at);
        proof {
            assert(name_models(v@) =~= before.remove(at as int));
        }
    }
}

proof fn lemma_put_valid(v: NamesModel, name: Seq<char>, symbol: int, symbols: nat)
    requires
        names_valid(v, symbols),
        0 <= symbol < symbols,
    ensures
        names_valid(append_put(v, name, symbol), symbols),
{
    let w = append_put(v, name, symbol);
    let at = find_key(keys_of(v), name, 0);
    lemma_find_key(keys_of(v), name, 0);
    assert forall|i: int| 0 <= i < w.len() implies 0 <= (#[trigger] w[i]).1 < symbols by {
        if at < v.len() {
            if i != at {
                assert(w[i] == v[i]);
            }
        } else if i < v.len() {
            assert(w[i] == v[i]);
        }
    }
}

proof fn lemma_removed_valid(v: NamesModel, name: Seq<char>, symbols: nat)
    requires
        names_valid(v, symbols),
    ensures
        names_valid(removed(v, name), symbols),
{
    let w = removed(v, name);
    let at = find_key(keys_of(v), name, 0);
    lemma_find_key(keys_of(v), name, 0);
    assert forall|i: int| 0 <= i < w.len() implies 0 <= (#[trigger] w[i]).1 < symbols by {
        if at < v.len() {
            if i < at {
                assert(w[i] == v[i]);
            } else {
                assert(w[i] == v[i + 1]);
            }
        } else {
            assert(w[i] == v[i]);
        }
    }
}

proof fn lemma_scope_replaced(m: ModuleData, i: int, s: ScopeData)
    requires
        m.valid(),
        0 <= i < m.scopes.len(),
        scope_valid(s, i, m.symbols.len()),
    ensures
        m.with_scope(i, s).valid(),
{
    let n = m.with_scope(i, s);
    assert forall|j: int| 0 <= j < n.scopes.len() implies scope_valid(
        #[trigger] n.scopes[j],
        j,
        n.symbols.len(),
    ) by {
        if j != i {
            assert(n.scopes[j] == m.scopes[j]);
        }
    }
    assert forall|j: int| 0 <= j < n.refs.len() implies reference_valid(
        #[trigger] n.refs[j],
        n.scopes.len(),
        n.symbols.len(),
    ) by {
        assert(n.refs[j] == m.refs[j]);
    }
}

proof fn lemma_symbol_replaced(m: ModuleData, i: int, s: SymbolModel)
    requires
        m.valid(),
        0 <= i < m.symbols.len(),
    ensures
        m.with_symbol(i, s).valid(),
{
    let n = m.with_symbol(i, s);
    assert forall|j: int| 0 <= j < n.scopes.len() implies scope_valid(
        #[trigger] n.scopes[j],
        j,
        n.symbols.len(),
    ) by {
        assert(n.scopes[j] == m.scopes[j]);
    }
    assert forall|j: int| 0 <= j < n.refs.len() implies reference_valid(
        #[trigger] n.refs[j],
        n.scopes.len(),
        n.symbols.len(),
    ) by {
        assert(n.refs[j] == m.refs[j]);
    }
}

proof fn lemma_symbol_added(m: ModuleData, s: SymbolModel)
    requires
        m.valid(),
    ensures
        (ModuleData { symbols: m.symbols.push(s), ..m }).valid(),
{
    let n = ModuleData { symbols: m.symbols.push(s), ..m };
    assert forall|j: int| 0 <= j < n.scopes.len() implies scope_valid(
        #[trigger] n.scopes[j],
        j,
        n.symbols.len(),
    ) by {
        let x = m.scopes[j];
        assert(scope_valid(x, j, m.symbols.len()));
    }
    assert forall|j: int| 0 <= j < n.refs.len() implies reference_valid(
        #[trigger] n.refs[j],
        n.scopes.len(),
        n.symbols.len(),
    ) by {
        assert(reference_valid(m.refs[j], m.scopes.len(), m.symbols.len()));
    }
}

fn bind_name(model: &mut ScopeModel, scope: usize, name: &str, symbol: usize)
    requires
        old(model).data().valid(),
        scope < old(model).data().scopes.len(),
        symbol < old(model).data().symbols.len(),
    ensures
        final(model).data().valid(),
        final(model).data() == old(model).data().with_scope(
            scope as int,
            bound(old(model).data().scopes[scope as int], name@, symbol as int),
        ),
{
    let ghost before = model.data();
    let mut s = model.scopes.remove(scope);
    let ghost sm = s.model();
    proof {
        assert(before.scopes[scope as int] == sm);
        assert(scope_valid(sm, scope as int, before.symbols.len()));
        lemma_put_valid(sm.bindings, name@, symbol as int, before.symbols.len());
    }
    upsert(&mut s.bindings, name, symbol);
    let ghost now = s.model();
    model.scopes.insert(scope, s);
    proof {
        assert(now =~= bound(sm, name@, symbol as int));
        assert(scope_models(model.scopes@) =~= before.scopes.update(scope as int, now));
        assert(model.data() =~= before.with_scope(scope as int, now));
        lemma_scope_replaced(before, scope as int, now);
    }
}

fn unbind_name(model: &mut ScopeModel, scope: usize, name: &str)
    requires
        old(model).data().valid(),
        scope < old(model).data().scopes.len(),
    ensures
        final(model).data().valid(),
        final(model).data() == old(model).data().with_scope(
            scope as int,
            unbound(old(model).data().scopes[scope as int], name@),
        ),
{
    let ghost before = model.data();
    let mut s = model.scopes.remove(scope);
    let ghost sm = s.model();
    proof {
        assert(before.scopes[scope as int] == sm);
        assert(scope_valid(sm, scope as int, before.symbols.len()));
        lemma_removed_valid(sm.bindings, name@, before.symbols.len());
    }
    drop_name(&mut s.bindings, name);
    let ghost now = s.model();
    model.scopes.insert(scope, s);
    proof {
        assert(now =~= unbound(sm, name@));
        assert(scope_models(model.scopes@) =~= before.scopes.update(scope as int, now));
        assert(model.data() =~= before.with_scope(scope as int, now));
        lemma_scope_replaced(before, scope as int, now);
    }
}

fn note_hoisted(model: &mut ScopeModel, scope: usize, name: &str, symbol: usize)
    requires
        old(model).data().valid(),
        scope < old(model).data().scopes.len(),
        old(model).data().scopes[scope as int].flags & VAR_SCOPE == 0,
        symbol < old(model).data().symbols.len(),
    ensures
        final(model).data().valid(),
        final(model).data() == old(model).data().with_scope(
            scope as int,
            passed_by(old(model).data().scopes[scope as int], name@, symbol as int),
        ),
{
    let ghost before = model.data();
    let mut s = model.scopes.remove(scope);
    let ghost sm = s.model();
    proof {
        assert(before.scopes[scope as int] == sm);
        assert(scope_valid(sm, scope as int, before.symbols.len()));
        lemma_put_valid(sm.hoisted, name@, symbol as int, before.symbols.len());
    }
    upsert(&mut s.hoisted, name, symbol);
    let ghost now = s.model();
    model.scopes.insert(scope, s);
    proof {
        assert(now =~= passed_by(sm, name@, symbol as int));
        assert(scope_models(model.scopes@) =~= before.scopes.update(scope as int, now));
        assert(model.data() =~= before.with_scope(scope as int, now));
        lemma_scope_replaced(before, scope as int, now);
    }
}

/// Marks a symbol as declared again, and adds to what it is.
fn mark_redeclared(model: &mut ScopeModel, symbol: usize, flags: u32)
    requires
        old(model).data().valid(),
        symbol < old(model).data().symbols.len(),
    ensures
        final(model).data().valid(),
        final(model).data() == old(model).data().with_symbol(
            symbol as int,
            SymbolModel {
                redeclared: true,
                flags: old(model).data().symbols[symbol as int].flags | flags,
                ..old(model).data().symbols[symbol as int]
            },
        ),
{
    let ghost before = model.data();
    let mut s = model.symbols.remove(symbol);
    let ghost sm = s.model();
    proof {
        assert(before.symbols[symbol as int] == sm);
    }
    s.redeclared = true;
    s.flags = s.flags | flags;
    let ghost now = s.model();
    model.symbols.insert(symbol, s);
    proof {
        assert(now =~= SymbolModel { redeclared: true, flags: sm.flags | flags, ..sm });
        assert(symbol_models(model.symbols@) =~= before.symbols.update(symbol as int, now));
        assert(model.data() =~= before.with_symbol(symbol as int, now));
        lemma_symbol_replaced(before, symbol as int, now);
    }
}

fn check_redeclaration(model: &ScopeModel, scope: usize, name: &str) -> (r: Option<usize>)
    requires
        model.data().valid(),
        scope < model.data().scopes.len(),
    ensures
        opt_index(r) == model.data().declared_before(scope as int, name@),
        r is Some ==> r->0 < model.data().symbols.len(),
{
    let ghost d = model.data();
    let found = match model.get_binding(scope, name) {
        Some(s) => Some(s),
        None => {
            proof {
                assert(d.scopes[scope as int] == model.scopes@[scope as int].model());
                assert(scope_valid(d.scopes[scope as int], scope as int, d.symbols.len()));
            }
            let r = symbol_named(&model.scopes[scope].hoisted, name);
            proof {
                if r is Some {
                    let v = model.scopes@[scope as int].hoisted@;
                    let i = choose|i: int| 0 <= i < v.len() && (#[trigger] v[i]).1 == r->0;
                    assert(d.scopes[scope as int].hoisted[i].1 == v[i].1);
                }
            }
            r
        },
    };
    match found {
        Some(s) => {
            assert(d.symbols[s as int] == model.symbols@[s as int].model());
            if model.symbols[s].flags & FUNCTION_EXPRESSION != 0 {
                None
            } else {
                Some(s)
            }
        },
        None => None,
    }
}

fn add_symbol(model: &mut ScopeModel, scope: usize, symbol: Symbol) -> (r: usize)
    requires
        old(model).data().valid(),
        scope < old(model).data().scopes.len(),
    ensures
        final(model).data().valid(),
        final(model).data() == old(model).data().with_new_symbol(scope as int, symbol.model()),
        r == old(model).data().symbols.len(),
{
    let ghost before = model.data();
    let ghost sm = symbol.model();
    let id: usize = model.symbols.len();
    let name = symbol.name.clone();
    model.symbols.push(symbol);
    proof {
        assert(symbol_models(model.symbols@) =~= before.symbols.push(sm));
        assert(model.data() =~= ModuleData { symbols: before.symbols.push(sm), ..before });
        lemma_symbol_added(before, sm);
    }
    bind_name(model, scope, name.as_str(), id);
    id
}

fn declare_in(model: &mut ScopeModel, scope: usize, symbol: Symbol) -> (r: usize)
    requires
        old(model).data().valid(),
        scope < old(model).data().scopes.len(),
    ensures
        final(model).data().valid(),
        (final(model).data(), r as int) == old(model).data().declared(
            scope as int,
            symbol.model(),
        ),
        r < final(model).data().symbols.len(),
        same_kinds(old(model).data(), final(model).data()),
        final(model).data().symbols.len() >= old(model).data().symbols.len(),
        final(model).data().refs == old(model).data().refs,
{
    match check_redeclaration(model, scope, symbol.name.as_str()) {
        Some(s) => {
            mark_redeclared(model, s, symbol.flags);
            s
        },
        None => add_symbol(model, scope, symbol),
    }
}

fn copy_symbol(s: &Symbol, name: &str) -> (r: Symbol)
    ensures
        r.model() == (SymbolModel { name: name@, ..s.model() }),
{
    Symbol {
        name: name.to_owned(),
        flags: s.flags,
        span: s.span,
        decl: s.decl.clone(),
        redeclared: s.redeclared,
        var_for_head: s.var_for_head,
        violated: s.violated,
        mutated: s.mutated,
    }
}

fn merge_var(model: &mut ScopeModel, scope: usize, target: usize, name: &str, symbol: usize)
    requires
        old(model).data().valid(),
        scope < old(model).data().scopes.len(),
        target < old(model).data().scopes.len(),
        old(model).data().declared_before(scope as int, name@) == Some(symbol as int),
        symbol < old(model).data().symbols.len(),
    ensures
        final(model).data().valid(),
        final(model).data() == old(model).data().merged(scope as int, target as int, name@),
        final(model).data().symbols.len() == old(model).data().symbols.len(),
        same_kinds(old(model).data(), final(model).data()),
        final(model).data().refs == old(model).data().refs,
{
    let ghost before = model.data();
    let ghost sm = before.symbols[symbol as int];
    proof {
        assert(sm.flags | 0 == sm.flags) by (bit_vector);
    }
    mark_redeclared(model, symbol, 0);
    proof {
        assert(SymbolModel { redeclared: true, flags: sm.flags | 0, ..sm } =~= SymbolModel {
            redeclared: true,
            ..sm
        });
    }
    if model.get_binding(target, name).is_none() {
        unbind_name(model, scope, name);
        bind_name(model, target, name, symbol);
    }
}

/// Whether `var` may pass through a scope.
pub open spec fn passable(m: ModuleData, scope: int) -> bool {
    0 <= scope < m.scopes.len() && m.scopes[scope].flags & VAR_SCOPE == 0
}

/// Whether `var` may pass through all of the scopes.
pub open spec fn all_passable(m: ModuleData, way: Seq<int>) -> bool {
    forall|i: int| 0 <= i < way.len() ==> passable(m, #[trigger] way[i])
}

/// Whether two modules have scopes of the same kinds.
pub open spec fn same_kinds(a: ModuleData, b: ModuleData) -> bool {
    a.scopes.len() == b.scopes.len() && forall|i: int|
        0 <= i < a.scopes.len() ==> (#[trigger] b.scopes[i]).flags == a.scopes[i].flags
            && b.scopes[i].parent == a.scopes[i].parent
}

fn bind_var_name(model: &mut ScopeModel, way: &Vec<usize>, target: usize, symbol: Symbol)
    requires
        old(model).data().valid(),
        target < old(model).data().scopes.len(),
        all_passable(old(model).data(), index_models(way@)),
    ensures
        final(model).data().valid(),
        final(model).data() == old(model).data().with_var(
            index_models(way@),
            target as int,
            symbol.model(),
        ),
        same_kinds(old(model).data(), final(model).data()),
        final(model).data().refs == old(model).data().refs,
{
    let ghost before = model.data();
    let ghost sm = symbol.model();
    let ghost ws = index_models(way@);
    let name = symbol.name.clone();
    let mut at: usize = 0;
    let mut found: Option<usize> = None;
    while at < way.len() && found.is_none()
        invariant
            model.data() == before,
            before.valid(),
            ws == index_models(way@),
            sm == symbol.model(),
            name@ == sm.name,
            at <= way@.len(),
            all_passable(before, ws),
            before.first_declaring(ws, sm.name, 0) == before.first_declaring(
                ws,
                sm.name,
                at as int,
            ),
            found is Some ==> at < way@.len() && before.declared_before(ws[at as int], sm.name)
                == Some(found->0 as int) && found->0 < before.symbols.len(),
        decreases
                way@.len() - at + if found is None {
                    1int
                } else {
                    0
                },
    {
        assert(ws[at as int] == way@[at as int]);
        assert(passable(before, ws[at as int]));
        found = check_redeclaration(model, way[at], name.as_str());
        if found.is_none() {
            at += 1;
        }
    }
    let id: usize = match found {
        Some(s) => {
            assert(ws[at as int] == way@[at as int]);
            assert(passable(before, ws[at as int]));
            merge_var(model, way[at], target, name.as_str(), s);
            s
        },
        None => declare_in(model, target, symbol),
    };
    let ghost base = model.data();
    proof {
        assert(same_kinds(before, base));
    }
    let mut k: usize = 0;
    while k < way.len()
        invariant
            ws == index_models(way@),
            name@ == sm.name,
            k <= way@.len(),
            model.data().valid(),
            same_kinds(before, model.data()),
            model.data().symbols.len() == base.symbols.len(),
            model.data().refs == before.refs,
            id < base.symbols.len(),
            all_passable(before, ws),
            model.data() == base.hoisted_upto(ws, sm.name, id as int, k as int),
        decreases way@.len() - k,
    {
        assert(ws[k as int] == way@[k as int]);
        assert(passable(before, ws[k as int]));
        assert(model.data().scopes[ws[k as int]].flags == before.scopes[ws[k as int]].flags);
        note_hoisted(model, way[k], name.as_str(), id);
        k += 1;
    }
    proof {
        assert(ws.len() == way@.len());
    }
}

fn var_way(model: &ScopeModel, scope: usize) -> (r: (Vec<usize>, usize))
    requires
        model.data().valid(),
        scope < model.data().scopes.len(),
    ensures
        index_models(r.0@) == model.data().passed(scope as int),
        r.1 == match model.data().var_scope(scope as int) {
            Some(t) => t,
            None => scope as int,
        },
        r.1 < model.data().scopes.len(),
        all_passable(model.data(), index_models(r.0@)),
{
    let ghost d = model.data();
    let mut way: Vec<usize> = Vec::new();
    let mut at: usize = scope;
    proof {
        assert(index_models(way@) + d.passed(scope as int) =~= d.passed(scope as int));
    }
    loop
        invariant
            d == model.data(),
            d.valid(),
            at < d.scopes.len(),
            scope < d.scopes.len(),
            all_passable(d, index_models(way@)),
            d.var_scope(scope as int) == d.var_scope(at as int),
            index_models(way@) + d.passed(at as int) == d.passed(scope as int),
        decreases at,
    {
        proof {
            assert(d.scopes[at as int] == model.scopes@[at as int].model());
            assert(scope_valid(d.scopes[at as int], at as int, d.symbols.len()));
        }
        let ghost before = index_models(way@);
        if model.scopes[at].flags & VAR_SCOPE != 0 {
            proof {
                assert(before + d.passed(at as int) =~= before);
            }
            return (way, at);
        }
        way.push(at);
        proof {
            assert(index_models(way@) =~= before.push(at as int));
        }
        match model.scopes[at].parent {
            Some(p) => {
                proof {
                    assert(index_models(way@) =~= before.push(at as int));
                    assert(before + (seq![at as int] + d.passed(p as int)) =~= before.push(
                        at as int,
                    ) + d.passed(p as int));
                }
                at = p;
            },
            None => {
                proof {
                    assert(index_models(way@) =~= before + seq![at as int]);
                }
                return (way, scope);
            },
        }
    }
}

fn find_referent(model: &ScopeModel, scope: usize, name: &str, flags: u8) -> (r: Option<usize>)
    requires
        model.data().valid(),
        scope < model.data().scopes.len(),
    ensures
        opt_index(r) == model.data().referent(scope as int, name@, flags),
        r is Some ==> r->0 < model.data().symbols.len(),
{
    let ghost d = model.data();
    let mut at: usize = scope;
    loop
        invariant
            d == model.data(),
            d.valid(),
            at < d.scopes.len(),
            d.referent(scope as int, name@, flags) == d.referent(at as int, name@, flags),
        decreases at,
    {
        if let Some(s) = model.get_binding(at, name) {
            assert(d.symbols[s as int] == model.symbols@[s as int].model());
            if can_refer(flags, model.symbols[s].flags) {
                return Some(s);
            }
        }
        proof {
            assert(d.scopes[at as int] == model.scopes@[at as int].model());
            assert(scope_valid(d.scopes[at as int], at as int, d.symbols.len()));
        }
        match model.scopes[at].parent {
            Some(p) => {
                at = p;
            },
            None => {
                return None;
            },
        }
    }
}

/// Whether a reference may refer to a symbol.
pub fn can_refer(r: u8, s: u32) -> (out: bool)
    ensures
        out == may_refer(r, s),
{
    if r & NAMESPACE != 0 && r & VALUE_AS_TYPE == 0 && s & FOR_QUALIFIERS == 0 {
        false
    } else {
        (r & READ_WRITE != 0 && s & VALUES_AND_IMPORTS != 0) || (r & TYPE != 0 && s & FOR_TYPES
            != 0) || (r & VALUE_AS_TYPE != 0 && s & FOR_TYPES_OF_VALUES != 0)
    }
}

proof fn lemma_referring_valid(m: ModuleData, reference: int, symbol: int)
    requires
        m.valid(),
        0 <= reference < m.refs.len(),
        0 <= symbol < m.symbols.len(),
    ensures
        m.referring(reference, symbol).valid(),
{
    let n = m.referring(reference, symbol);
    assert forall|j: int| 0 <= j < n.scopes.len() implies scope_valid(
        #[trigger] n.scopes[j],
        j,
        n.symbols.len(),
    ) by {
        assert(n.scopes[j] == m.scopes[j]);
    }
    assert forall|j: int| 0 <= j < n.refs.len() implies reference_valid(
        #[trigger] n.refs[j],
        n.scopes.len(),
        n.symbols.len(),
    ) by {
        assert(reference_valid(m.refs[j], m.scopes.len(), m.symbols.len()));
    }
}

fn refer(model: &mut ScopeModel, reference: usize, symbol: usize)
    requires
        old(model).data().valid(),
        reference < old(model).data().refs.len(),
        symbol < old(model).data().symbols.len(),
    ensures
        final(model).data().valid(),
        final(model).data() == old(model).data().referring(reference as int, symbol as int),
{
    let ghost before = model.data();
    let mut r = model.refs.remove(reference);
    let mut s = model.symbols.remove(symbol);
    let ghost rm = r.model();
    let ghost sm = s.model();
    proof {
        assert(before.refs[reference as int] == rm);
        assert(before.symbols[symbol as int] == sm);
        lemma_referring_valid(before, reference as int, symbol as int);
    }
    let flags: u8 = if (s.flags & VALUES_AND_IMPORTS != 0 && r.flags & READ_WRITE != 0) || (r.flags
        & NAMESPACE != 0 && r.flags & READ != 0) {
        r.flags & !TYPE
    } else {
        TYPE
    };
    r.flags = flags;
    r.symbol = Some(symbol);
    if flags & WRITE != 0 {
        s.violated = true;
    } else if r.mutation {
        s.mutated = true;
    }
    let ghost rn = r.model();
    let ghost sn = s.model();
    model.refs.insert(reference, r);
    model.symbols.insert(symbol, s);
    proof {
        let want = before.referring(reference as int, symbol as int);
        assert(reference_models(model.refs@) =~= before.refs.update(reference as int, rn));
        assert(symbol_models(model.symbols@) =~= before.symbols.update(symbol as int, sn));
        assert(want.refs[reference as int] =~= rn);
        assert(want.symbols[symbol as int] =~= sn);
        assert(model.data() =~= want);
    }
}

impl Builder {
    /// The start of a walk: the scope of the module, and one site that stands for none.
    pub fn new() -> (r: Builder)
        ensures
            r.valid(),
            r.data() == (WalkData {
                module: ModuleData {
                    scopes: seq![
                        ScopeData {
                            parent: None,
                            flags: TOP_SCOPE,
                            bindings: Seq::empty(),
                            hoisted: Seq::empty(),
                        },
                    ],
                    symbols: Seq::empty(),
                    refs: Seq::empty(),
                    sites: seq![Site { scope: 0, top_stmt_start: 0, program_level: false }],
                    unresolved: Seq::empty(),
                },
                current: 0,
                stack: Seq::empty(),
                top_start: 0,
                pending: Seq::empty(),
            }),
    {
        let mut scopes: Vec<Scope> = Vec::new();
        let top = Scope {
            parent: None,
            flags: TOP_SCOPE,
            bindings: Vec::new(),
            hoisted: Vec::new(),
        };
        let ghost tm = top.model();
        proof {
            assert(tm.bindings =~= Seq::<(Seq<char>, int)>::empty());
            assert(tm.hoisted =~= Seq::<(Seq<char>, int)>::empty());
        }
        scopes.push(top);
        let mut sites: Vec<Site> = Vec::new();
        sites.push(Site { scope: 0, top_stmt_start: 0, program_level: false });
        let r = Builder {
            model: ScopeModel {
                scopes,
                symbols: Vec::new(),
                refs: Vec::new(),
                sites,
                root_unresolved: Vec::new(),
            },
            current_scope: 0,
            stack: Vec::new(),
            top_stmt_start: 0,
            pending: Vec::new(),
        };
        proof {
            let d = r.data();
            assert(d.module.scopes =~= seq![tm]);
            assert(d.module.symbols =~= Seq::<SymbolModel>::empty());
            assert(d.module.refs =~= Seq::<ReferenceModel>::empty());
            assert(d.module.sites =~= seq![
                Site { scope: 0, top_stmt_start: 0, program_level: false },
            ]);
            assert(d.module.unresolved =~= Seq::<int>::empty());
            assert(d.stack =~= Seq::<NodeData>::empty());
            assert(d.pending =~= Seq::<int>::empty());
        }
        r
    }

    /// The walk enters a node.
    pub fn enter_node(&mut self, node: Ancestor)
        requires
            old(self).valid(),
        ensures
            final(self).valid(),
            final(self).data() == (WalkData {
                stack: old(self).data().stack.push(node.model()),
                top_start: if old(self).data().stack.len() == 1 {
                    node.span.start
                } else {
                    old(self).data().top_start
                },
                ..old(self).data()
            }),
    {
        let ghost before = self.data();
        let ghost nm = node.model();
        let n: usize = self.stack.len();
        if n == 1 {
            self.top_stmt_start = node.span.start;
        }
        self.stack.push(node);
        proof {
            assert(node_models(self.stack@) =~= before.stack.push(nm));
        }
    }

    /// The walk leaves the node that it is in.
    pub fn leave_node(&mut self)
        requires
            old(self).valid(),
            old(self).data().stack.len() > 0,
        ensures
            final(self).valid(),
            final(self).data() == (WalkData {
                stack: old(self).data().stack.drop_last(),
                ..old(self).data()
            }),
    {
        let ghost before = self.data();
        let gone = self.stack.pop();
        proof {
            assert(node_models(self.stack@) =~= before.stack.drop_last());
        }
    }

    /// The walk enters a scope.
    pub fn enter_scope(&mut self, flags: u16)
        requires
            old(self).valid(),
        ensures
            final(self).valid(),
            final(self).data() == entered(old(self).data(), flags),
    {
        let ghost before = self.data();
        let id: usize = self.model.scopes.len();
        let scope = Scope {
            parent: Some(self.current_scope),
            flags,
            bindings: Vec::new(),
            hoisted: Vec::new(),
        };
        let ghost sm = scope.model();
        self.model.scopes.push(scope);
        self.current_scope = id;
        proof {
            assert(sm =~= ScopeData {
                parent: Some(before.current),
                flags,
                bindings: Seq::empty(),
                hoisted: Seq::empty(),
            });
            assert(scope_models(self.model.scopes@) =~= before.module.scopes.push(sm));
            assert(self.data() =~= entered(before, flags));
            lemma_entered_valid(before, flags);
        }
    }

    /// The walk leaves the scope that it is in.
    pub fn leave_scope(&mut self)
        requires
            old(self).valid(),
            old(self).data().module.scopes[old(self).data().current].parent is Some,
        ensures
            final(self).valid(),
            final(self).data() == left(old(self).data()),
    {
        let ghost before = self.data();
        proof {
            let i = before.current;
            assert(before.module.scopes[i] == self.model.scopes@[i].model());
            assert(scope_valid(before.module.scopes[i], i, before.module.symbols.len()));
        }
        if let Some(p) = self.model.scopes[self.current_scope].parent {
            self.current_scope = p;
        }
        proof {
            assert(self.data() =~= left(before));
        }
    }

    /// The walk enters the scope of a block. The block of a `catch` takes over the
    /// names of the `catch`.
    pub fn enter_block(&mut self)
        requires
            old(self).valid(),
        ensures
            final(self).valid(),
            final(self).data() == entered_block(old(self).data()),
    {
        let ghost before = self.data();
        let parent: usize = self.current_scope;
        self.enter_scope(0);
        let ghost inner = self.data();
        proof {
            assert(before.module.scopes[parent as int] == inner.module.scopes[parent as int]);
            assert(inner.module.scopes[parent as int] == self.model.scopes@[parent as int].model());
        }
        if self.model.scopes[parent].flags & CATCH_SCOPE != 0 {
            let block: usize = self.current_scope;
            let mut p = self.model.scopes.remove(parent);
            let ghost pm = p.model();
            let names = p.bindings;
            let ghost nm = name_models(names@);
            p.bindings = Vec::new();
            let ghost pn = p.model();
            self.model.scopes.insert(parent, p);
            let ghost middle = self.model.scopes@;
            proof {
                assert(pn =~= ScopeData { bindings: Seq::empty(), ..pm });
                assert(scope_models(middle) =~= inner.module.scopes.update(parent as int, pn));
                assert(scope_models(middle)[block as int] == middle[block as int].model());
            }
            let mut b = self.model.scopes.remove(block);
            let ghost bm = b.model();
            b.bindings = names;
            let ghost bn = b.model();
            self.model.scopes.insert(block, b);
            proof {
                assert(bn =~= ScopeData { bindings: nm, ..bm });
                assert(scope_models(self.model.scopes@) =~= scope_models(middle).update(
                    block as int,
                    bn,
                ));
                let first = inner.module.with_scope(parent as int, pn);
                assert(scope_valid(pm, parent as int, inner.module.symbols.len()));
                lemma_scope_replaced(inner.module, parent as int, pn);
                assert(scope_valid(
                    inner.module.scopes[block as int],
                    block as int,
                    inner.module.symbols.len(),
                ));
                lemma_scope_replaced(first, block as int, bn);
                assert(self.data() =~= entered_block(before));
            }
        }
    }

    /// A name is created in the current scope, whatever it stood for before.
    pub fn create(&mut self, symbol: Symbol) -> (r: usize)
        requires
            old(self).valid(),
        ensures
            final(self).valid(),
            same_kinds(old(self).data().module, final(self).data().module),
            final(self).data() == (WalkData {
                module: old(self).data().module.with_new_symbol(
                    old(self).data().current,
                    symbol.model(),
                ),
                ..old(self).data()
            }),
            r == old(self).data().module.symbols.len(),
    {
        let ghost before = self.data();
        let r: usize = add_symbol(&mut self.model, self.current_scope, symbol);
        proof {
            assert(self.data().pending == before.pending);
            assert(self.data().module.refs == before.module.refs);
        }
        r
    }

    /// A name is declared in the current scope.
    pub fn declare(&mut self, symbol: Symbol) -> (r: usize)
        requires
            old(self).valid(),
        ensures
            final(self).valid(),
            same_kinds(old(self).data().module, final(self).data().module),
            ({
                let (m, i) = old(self).data().module.declared(
                    old(self).data().current,
                    symbol.model(),
                );
                final(self).data() == (WalkData { module: m, ..old(self).data() }) && r == i
            }),
    {
        declare_in(&mut self.model, self.current_scope, symbol)
    }

    /// A parameter that is a type is declared: the one that a conditional type infers
    /// in the scope of the nearest conditional type, another in the current scope.
    pub fn declare_type_parameter(&mut self, symbol: Symbol) -> (r: usize)
        requires
            old(self).valid(),
        ensures
            final(self).valid(),
            same_kinds(old(self).data().module, final(self).data().module),
            ({
                let (m, i) = old(self).data().module.declared(
                    type_parameter_scope(old(self).data()),
                    symbol.model(),
                );
                final(self).data() == (WalkData { module: m, ..old(self).data() }) && r == i
            }),
    {
        let ghost before = self.data();
        let n: usize = self.stack.len();
        let inferred = n >= 2 && match &self.stack[n - 2].kind {
            AncestorKind::Infer => true,
            _ => false,
        };
        proof {
            if n >= 2 {
                assert(before.stack[n - 2] == self.stack@[n - 2].model());
            }
        }
        let scope: usize = if inferred {
            match find_conditional(&self.model, self.current_scope) {
                Some(s) => s,
                None => self.current_scope,
            }
        } else {
            self.current_scope
        };
        declare_in(&mut self.model, scope, symbol)
    }

    /// The names of a pattern are declared in the current scope. `symbol` says how; its
    /// own name does not count.
    pub fn declare_names(&mut self, names: &Vec<String>, symbol: &Symbol)
        requires
            old(self).valid(),
        ensures
            final(self).valid(),
            same_kinds(old(self).data().module, final(self).data().module),
            final(self).data() == (WalkData {
                module: old(self).data().module.declared_upto(
                    old(self).data().current,
                    texts(names@),
                    symbol.model(),
                    names@.len() as int,
                ),
                ..old(self).data()
            }),
    {
        let ghost before = self.data();
        let ghost ns = texts(names@);
        let mut i: usize = 0;
        while i < names.len()
            invariant
                before == old(self).data(),
                ns == texts(names@),
                i <= names@.len(),
                self.valid(),
                same_kinds(before.module, self.data().module),
                self.data() == (WalkData {
                    module: before.module.declared_upto(
                        before.current,
                        ns,
                        symbol.model(),
                        i as int,
                    ),
                    ..before
                }),
            decreases names@.len() - i,
        {
            assert(ns[i as int] == names@[i as int]@);
            let s = copy_symbol(symbol, names[i].as_str());
            let id: usize = self.declare(s);
            i += 1;
        }
    }

    /// The names of a `var` are declared: in the nearest scope that `var` belongs to,
    /// unless a scope on the way declares them. `symbol` says how; its own name does
    /// not count.
    pub fn bind_var(&mut self, names: &Vec<String>, symbol: &Symbol)
        requires
            old(self).valid(),
        ensures
            final(self).valid(),
            same_kinds(old(self).data().module, final(self).data().module),
            final(self).data() == (WalkData {
                module: old(self).data().module.with_vars(
                    old(self).data().module.passed(old(self).data().current),
                    var_target(old(self).data()),
                    texts(names@),
                    symbol.model(),
                    names@.len() as int,
                ),
                ..old(self).data()
            }),
    {
        let ghost before = self.data();
        let ghost ns = texts(names@);
        let (way, target) = var_way(&self.model, self.current_scope);
        let ghost ws = index_models(way@);
        let mut i: usize = 0;
        while i < names.len()
            invariant
                before == old(self).data(),
                ns == texts(names@),
                ws == index_models(way@),
                target < before.module.scopes.len(),
                all_passable(before.module, ws),
                i <= names@.len(),
                self.valid(),
                same_kinds(before.module, self.data().module),
                self.data() == (WalkData {
                    module: before.module.with_vars(
                        ws,
                        target as int,
                        ns,
                        symbol.model(),
                        i as int,
                    ),
                    ..before
                }),
            decreases names@.len() - i,
        {
            assert(ns[i as int] == names@[i as int]@);
            let s = copy_symbol(symbol, names[i].as_str());
            let ghost now = self.data();
            proof {
                assert forall|j: int| 0 <= j < ws.len() implies passable(
                    now.module,
                    #[trigger] ws[j],
                ) by {
                    assert(passable(before.module, ws[j]));
                    assert(now.module.scopes[ws[j]].flags == before.module.scopes[ws[j]].flags);
                }
            }
            bind_var_name(&mut self.model, &way, target, s);
            proof {
                assert(self.data().pending == now.pending);
                assert(self.data().module.refs == now.module.refs);
            }
            i += 1;
        }
    }

    /// A name is used.
    pub fn add_reference(&mut self, name: String, span: Span, flags: u8) -> (r: usize)
        requires
            old(self).valid(),
        ensures
            final(self).valid(),
            final(self).data() == with_use(old(self).data(), name@, span, flags),
            r == old(self).data().module.refs.len(),
    {
        let ghost before = self.data();
        let (parent, mutation) = self.reference_parent(span);
        let id: usize = self.model.refs.len();
        let reference = Reference {
            name,
            start: span.start,
            scope: self.current_scope,
            flags: if flags == 0 {
                READ
            } else {
                flags
            },
            symbol: None,
            parent,
            mutation,
        };
        let ghost rm = reference.model();
        self.model.refs.push(reference);
        self.pending.push(id);
        proof {
            let want = with_use(before, name@, span, flags);
            assert(reference_models(self.model.refs@) =~= before.module.refs.push(rm));
            assert(index_models(self.pending@) =~= before.pending.push(id as int));
            assert(self.data().module =~= want.module);
            assert(self.data() =~= want);
            let m = self.data().module;
            assert forall|j: int| 0 <= j < m.refs.len() implies reference_valid(
                #[trigger] m.refs[j],
                m.scopes.len(),
                m.symbols.len(),
            ) by {
                if j < before.module.refs.len() {
                    assert(m.refs[j] == before.module.refs[j]);
                }
            }
            assert forall|j: int| 0 <= j < m.scopes.len() implies scope_valid(
                #[trigger] m.scopes[j],
                j,
                m.symbols.len(),
            ) by {
                assert(m.scopes[j] == before.module.scopes[j]);
            }
        }
        id
    }

    /// Gives what a reference at the given place stands in, and whether it is changed
    /// there.
    pub fn reference_parent(&self, span: Span) -> (r: (RefParent, bool))
        ensures
            (r.0.model(), r.1) == parent_at(self.data().stack, span),
    {
        let ghost st = self.data().stack;
        let n: usize = self.stack.len();
        let (i, child) = skip_brackets(&self.stack, n, span);
        if i == 0 {
            return (RefParent::Other, false);
        }
        let node = &self.stack[i - 1];
        assert(st[i - 1] == self.stack@[i - 1].model());
        match &node.kind {
            AncestorKind::Member { object, property } => {
                let (j, member) = skip_brackets(&self.stack, i - 1, node.span);
                let name = match property {
                    Some(p) => Some(p.clone()),
                    None => None,
                };
                let mut changed = false;
                if same_span(*object, child) && j > 0 {
                    assert(st[j - 1] == self.stack@[j - 1].model());
                    changed =
                    match &self.stack[j - 1].kind {
                        AncestorKind::Assignment { left } => same_span(*left, member),
                        AncestorKind::Update => true,
                        AncestorKind::Unary { delete } => *delete,
                        AncestorKind::Call { callee, .. } => same_span(*callee, member)
                            && is_array_mutator(property),
                        _ => false,
                    };
                }
                (RefParent::Member { property: name }, changed)
            },
            AncestorKind::Call { first_argument, method, .. } => {
                let first = match first_argument {
                    Some(a) => same_span(*a, child),
                    None => false,
                };
                (RefParent::Other, first && is_object_mutator(method))
            },
            _ => (RefParent::Other, false),
        }
    }

    fn is_hidden(&self) -> (r: bool)
        ensures
            r == (hiding_upto(self.data().stack, self.data().stack.len() as int) > 0),
    {
        let ghost st = self.data().stack;
        let mut i: usize = 0;
        while i < self.stack.len()
            invariant
                st == self.data().stack,
                i <= self.stack@.len(),
                hiding_upto(st, i as int) == 0,
            decreases self.stack@.len() - i,
        {
            let exported = i > 0 && self.stack[i - 1].exporting;
            let node = &self.stack[i];
            proof {
                assert(st[i as int] == self.stack@[i as int].model());
                if i > 0 {
                    assert(st[i - 1] == self.stack@[i - 1].model());
                }
            }
            if node.function_like || (node.statement && !exported) {
                proof {
                    lemma_hiding_grows(st, i + 1, st.len() as int);
                }
                return true;
            }
            i += 1;
        }
        false
    }

    /// A call, a member or an element is met: its site is noted.
    pub fn push_site(&mut self) -> (r: usize)
        requires
            old(self).valid(),
        ensures
            final(self).valid(),
            final(self).data() == with_site(old(self).data()),
            r == old(self).data().module.sites.len(),
    {
        let ghost before = self.data();
        let id: usize = self.model.sites.len();
        self.model.sites.push(
            Site {
                scope: self.current_scope,
                top_stmt_start: self.top_stmt_start,
                program_level: !self.is_hidden(),
            },
        );
        proof {
            let want = with_site(before);
            assert(self.data().module =~= want.module);
            assert(self.data() =~= want);
            let m = self.data().module;
            assert forall|j: int| 0 <= j < m.scopes.len() implies scope_valid(
                #[trigger] m.scopes[j],
                j,
                m.symbols.len(),
            ) by {
                assert(m.scopes[j] == before.module.scopes[j]);
            }
            assert forall|j: int| 0 <= j < m.refs.len() implies reference_valid(
                #[trigger] m.refs[j],
                m.scopes.len(),
                m.symbols.len(),
            ) by {
                assert(m.refs[j] == before.module.refs[j]);
            }
            assert forall|j: int| 0 <= j < m.sites.len() implies (#[trigger] m.sites[j]).scope
                < m.scopes.len() by {
                if j < before.module.sites.len() {
                    assert(m.sites[j] == before.module.sites[j]);
                }
            }
        }
        id
    }

    /// Resolves the references that were met since the given one, in the scopes that
    /// are open now. Those that refer to nothing yet stay.
    pub fn resolve_pending_from(&mut self, checkpoint: usize)
        requires
            old(self).valid(),
            checkpoint <= old(self).data().pending.len(),
        ensures
            final(self).valid(),
            same_kinds(old(self).data().module, final(self).data().module),
            final(self).data().pending.len() >= checkpoint,
            ({
                let p = old(self).data().pending;
                let (m, left) = old(self).data().module.resolved_from(
                    p,
                    checkpoint as int,
                    p.take(checkpoint as int),
                );
                final(self).data() == (WalkData { module: m, pending: left, ..old(self).data() })
            }),
    {
        let ghost before = self.data();
        let ghost all = before.pending;
        let mut left: Vec<usize> = Vec::new();
        let mut k: usize = 0;
        while k < checkpoint
            invariant
                k <= checkpoint <= self.pending@.len(),
                all == index_models(self.pending@),
                self.data() == before,
                index_models(left@) == all.take(k as int),
                left@.len() == k,
                before.valid(),
                all == before.pending,
                forall|j: int|
                    0 <= j < left@.len() ==> #[trigger] left@[j] < before.module.refs.len(),
            decreases checkpoint - k,
        {
            let ghost kept = index_models(left@);
            proof {
                assert(all[k as int] == self.pending@[k as int]);
                assert(0 <= before.pending[k as int] < before.module.refs.len());
            }
            left.push(self.pending[k]);
            proof {
                assert(index_models(left@) =~= kept.push(all[k as int]));
                assert(all.take(k as int).push(all[k as int]) =~= all.take(k + 1));
            }
            k += 1;
        }
        let ghost first = all.take(checkpoint as int);
        let mut i: usize = checkpoint;
        while i < self.pending.len()
            invariant
                all == index_models(self.pending@),
                checkpoint <= i <= self.pending@.len(),
                before.valid(),
                all == before.pending,
                self.data() == (WalkData { module: self.data().module, ..before }),
                self.data().module.valid(),
                same_kinds(before.module, self.data().module),
                left@.len() >= checkpoint,
                self.data().module.refs.len() == before.module.refs.len(),
                before.module.resolved_from(all, checkpoint as int, first)
                    == self.data().module.resolved_from(all, i as int, index_models(left@)),
                forall|j: int|
                    0 <= j < left@.len() ==> #[trigger] left@[j] < before.module.refs.len(),
            decreases self.pending@.len() - i,
        {
            let reference: usize = self.pending[i];
            let ghost now = self.data().module;
            proof {
                assert(all[i as int] == reference);
                assert(0 <= before.pending[i as int] < before.module.refs.len());
                assert(now.refs[reference as int] == self.model.refs@[reference as int].model());
                assert(reference_valid(
                    now.refs[reference as int],
                    now.scopes.len(),
                    now.symbols.len(),
                ));
            }
            let r = &self.model.refs[reference];
            match find_referent(&self.model, r.scope, r.name.as_str(), r.flags) {
                Some(s) => {
                    refer(&mut self.model, reference, s);
                },
                None => {
                    let ghost kept = index_models(left@);
                    left.push(reference);
                    proof {
                        assert(index_models(left@) =~= kept.push(reference as int));
                    }
                },
            }
            i += 1;
        }
        self.pending = left;
        proof {
            assert forall|j: int| 0 <= j < self.data().pending.len() implies 0
                <= #[trigger] self.data().pending[j] < self.data().module.refs.len() by {
                assert(left@[j] < before.module.refs.len());
            }
        }
    }

    /// Resolves all references that are left, at the end of the walk. Those that refer
    /// to nothing are kept as such.
    pub fn resolve_all(&mut self)
        requires
            old(self).valid(),
        ensures
            final(self).valid(),
            final(self).data() == finished(old(self).data()),
    {
        let ghost before = self.data();
        self.resolve_pending_from(0);
        let ghost middle = self.data();
        proof {
            assert(before.pending.take(0) =~= Seq::<int>::empty());
        }
        let mut rest: Vec<usize> = Vec::new();
        let mut i: usize = 0;
        while i < self.pending.len()
            invariant
                middle.valid(),
                i <= self.pending@.len(),
                self.data().pending == middle.pending,
                self.data().current == middle.current,
                self.data().stack == middle.stack,
                self.data().top_start == middle.top_start,
                self.data().module == (ModuleData {
                    unresolved: middle.module.unresolved + middle.pending.take(i as int),
                    ..middle.module
                }),
                forall|j: int|
                    0 <= j < self.data().module.unresolved.len() ==> 0
                        <= #[trigger] self.data().module.unresolved[j] < middle.module.refs.len(),
            decreases self.pending@.len() - i,
        {
            let ghost now = self.data().module;
            let x: usize = self.pending[i];
            proof {
                assert(middle.pending[i as int] == x);
            }
            self.model.root_unresolved.push(x);
            proof {
                assert(index_models(self.model.root_unresolved@) =~= now.unresolved.push(x as int));
                assert(self.data().module.unresolved =~= middle.module.unresolved
                    + middle.pending.take(i + 1));
                assert forall|j: int| 0 <= j < self.data().module.unresolved.len() implies 0
                    <= #[trigger] self.data().module.unresolved[j] < middle.module.refs.len() by {
                    if j < now.unresolved.len() {
                        assert(self.data().module.unresolved[j] == now.unresolved[j]);
                    }
                }
            }
            i += 1;
        }
        self.pending = rest;
        proof {
            assert(middle.pending.take(middle.pending.len() as int) =~= middle.pending);
            assert(index_models(self.pending@) =~= Seq::<int>::empty());
            let m = self.data().module;
            assert forall|j: int| 0 <= j < m.scopes.len() implies scope_valid(
                #[trigger] m.scopes[j],
                j,
                m.symbols.len(),
            ) by {
                assert(m.scopes[j] == middle.module.scopes[j]);
            }
            assert forall|j: int| 0 <= j < m.refs.len() implies reference_valid(
                #[trigger] m.refs[j],
                m.scopes.len(),
                m.symbols.len(),
            ) by {
                assert(m.refs[j] == middle.module.refs[j]);
            }
            assert(self.data() =~= finished(before));
        }
    }
}

/// Whether two places are the same.
pub fn same_span(a: Span, b: Span) -> (r: bool)
    ensures
        r == (a == b),
{
    a.start == b.start && a.end == b.end
}

fn skip_brackets(stack: &Vec<Ancestor>, from: usize, span: Span) -> (r: (usize, Span))
    requires
        from <= stack@.len(),
    ensures
        (r.0 as int, r.1) == outside_brackets(node_models(stack@), from as int, span),
        r.0 <= from,
{
    let ghost st = node_models(stack@);
    let mut i: usize = from;
    let mut at = span;
    while i > 0
        invariant
            st == node_models(stack@),
            i <= from <= stack@.len(),
            outside_brackets(st, from as int, span) == outside_brackets(st, i as int, at),
        decreases i,
    {
        assert(st[i - 1] == stack@[i - 1].model());
        match &stack[i - 1].kind {
            AncestorKind::Paren => {
                at = stack[i - 1].span;
                i -= 1;
            },
            _ => {
                return (i, at);
            },
        }
    }
    (i, at)
}

fn find_conditional(model: &ScopeModel, scope: usize) -> (r: Option<usize>)
    requires
        model.data().valid(),
        scope < model.data().scopes.len(),
    ensures
        opt_index(r) == model.data().conditional_scope(scope as int),
        r is Some ==> r->0 < model.data().scopes.len(),
{
    let ghost d = model.data();
    let mut at: usize = scope;
    loop
        invariant
            d == model.data(),
            d.valid(),
            at < d.scopes.len(),
            d.conditional_scope(scope as int) == d.conditional_scope(at as int),
        decreases at,
    {
        proof {
            assert(d.scopes[at as int] == model.scopes@[at as int].model());
            assert(scope_valid(d.scopes[at as int], at as int, d.symbols.len()));
        }
        if model.scopes[at].flags & CONDITIONAL_SCOPE != 0 {
            return Some(at);
        }
        match model.scopes[at].parent {
            Some(p) => {
                at = p;
            },
            None => {
                return None;
            },
        }
    }
}

/// The state after the walk entered a scope.
pub open spec fn entered(w: WalkData, flags: u16) -> WalkData {
    WalkData {
        module: ModuleData {
            scopes: w.module.scopes.push(
                ScopeData {
                    parent: Some(w.current),
                    flags,
                    bindings: Seq::empty(),
                    hoisted: Seq::empty(),
                },
            ),
            ..w.module
        },
        current: w.module.scopes.len() as int,
        ..w
    }
}

/// The state after the walk left a scope.
pub open spec fn left(w: WalkData) -> WalkData {
    WalkData { current: w.module.scopes[w.current].parent->0, ..w }
}

/// The state after the walk entered the scope of a block.
pub open spec fn entered_block(w: WalkData) -> WalkData {
    let inner = entered(w, 0);
    if w.module.scopes[w.current].flags & CATCH_SCOPE != 0 {
        let names = w.module.scopes[w.current].bindings;
        let emptied = inner.module.with_scope(
            w.current,
            ScopeData { bindings: Seq::empty(), ..w.module.scopes[w.current] },
        );
        WalkData {
            module: emptied.with_scope(
                inner.current,
                ScopeData { bindings: names, ..emptied.scopes[inner.current] },
            ),
            ..inner
        }
    } else {
        inner
    }
}

/// The scope that a `var` in the current one belongs to.
pub open spec fn var_target(w: WalkData) -> int {
    match w.module.var_scope(w.current) {
        Some(t) => t,
        None => w.current,
    }
}

/// The scope that a parameter that is a type belongs to.
pub open spec fn type_parameter_scope(w: WalkData) -> int {
    let n = w.stack.len();
    if n >= 2 && w.stack[n - 2].kind is Infer {
        match w.module.conditional_scope(w.current) {
            Some(s) => s,
            None => w.current,
        }
    } else {
        w.current
    }
}

/// The state after a name was used. A use that says nothing of itself reads.
pub open spec fn with_use(w: WalkData, name: Seq<char>, span: Span, flags: u8) -> WalkData {
    let (parent, mutation) = parent_at(w.stack, span);
    WalkData {
        module: ModuleData {
            refs: w.module.refs.push(
                ReferenceModel {
                    name,
                    start: span.start,
                    scope: w.current,
                    flags: if flags == 0 {
                        READ
                    } else {
                        flags
                    },
                    symbol: None,
                    parent,
                    mutation,
                },
            ),
            ..w.module
        },
        pending: w.pending.push(w.module.refs.len() as int),
        ..w
    }
}

/// The state after a site was noted.
pub open spec fn with_site(w: WalkData) -> WalkData {
    WalkData {
        module: ModuleData {
            sites: w.module.sites.push(
                Site {
                    scope: w.current as usize,
                    top_stmt_start: w.top_start,
                    program_level: hiding_upto(w.stack, w.stack.len() as int) == 0,
                },
            ),
            ..w.module
        },
        ..w
    }
}

/// The state at the end of the walk.
pub open spec fn finished(w: WalkData) -> WalkData {
    let (m, rest) = w.module.resolved_from(w.pending, 0, Seq::empty());
    WalkData {
        module: ModuleData { unresolved: m.unresolved + rest, ..m },
        pending: Seq::empty(),
        ..w
    }
}

proof fn lemma_entered_valid(w: WalkData, flags: u16)
    requires
        w.valid(),
    ensures
        entered(w, flags).valid(),
{
    let m = entered(w, flags).module;
    assert forall|j: int| 0 <= j < m.scopes.len() implies scope_valid(
        #[trigger] m.scopes[j],
        j,
        m.symbols.len(),
    ) by {
        if j < w.module.scopes.len() {
            assert(m.scopes[j] == w.module.scopes[j]);
        }
    }
    assert forall|j: int| 0 <= j < m.refs.len() implies reference_valid(
        #[trigger] m.refs[j],
        m.scopes.len(),
        m.symbols.len(),
    ) by {
        assert(reference_valid(w.module.refs[j], w.module.scopes.len(), w.module.symbols.len()));
    }
}

proof fn lemma_hiding_grows(a: Seq<NodeData>, i: int, k: int)
    requires
        0 <= i <= k <= a.len(),
    ensures
        hiding_upto(a, i) <= hiding_upto(a, k),
    decreases k,
{
    if i < k {
        lemma_hiding_grows(a, i, k - 1);
    }
}

/// To enter a scope and to leave it again leads back to the scope that the walk was
/// in, and changes no scope that was there.
pub proof fn scopes_are_left_as_entered(w: WalkData, flags: u16)
    requires
        w.valid(),
    ensures
        left(entered(w, flags)).current == w.current,
        left(entered(w, flags)).module.scopes.take(w.module.scopes.len() as int) == w.module.scopes,
{
    let after = left(entered(w, flags));
    assert(after.module.scopes.take(w.module.scopes.len() as int) =~= w.module.scopes);
}

/// A reference refers to the nearest symbol of its name, where it may refer to it.
pub proof fn nearest_symbol_is_referred_to(m: ModuleData, scope: int, name: Seq<char>, flags: u8)
    requires
        m.valid(),
        0 <= scope < m.scopes.len(),
        m.visible(scope, name) is Some,
        may_refer(flags, m.symbols[m.visible(scope, name)->0].flags),
    ensures
        m.referent(scope, name, flags) == m.visible(scope, name),
    decreases scope,
{
    assert(scope_valid(m.scopes[scope], scope, m.symbols.len()));
    if m.binding(scope, name) is None {
        if let Some(p) = m.scopes[scope].parent {
            nearest_symbol_is_referred_to(m, p, name, flags);
        }
    }
}

proof fn lemma_put_found(v: NamesModel, name: Seq<char>, symbol: int)
    ensures
        value_of(append_put(v, name, symbol), name) == Some(symbol),
{
    let w = append_put(v, name, symbol);
    lemma_find_key(keys_of(v), name, 0);
    lemma_find_key(keys_of(w), name, 0);
    let at = find_key(keys_of(v), name, 0);
    let now = find_key(keys_of(w), name, 0);
    if at < v.len() {
        assert(keys_of(w) =~= keys_of(v));
    } else {
        assert(keys_of(w)[v.len() as int] == name);
        if now < v.len() {
            assert(keys_of(w)[now] == keys_of(v)[now]);
        }
    }
}

proof fn lemma_hoisting_keeps(
    m: ModuleData,
    way: Seq<int>,
    name: Seq<char>,
    symbol: int,
    target: int,
    k: int,
)
    requires
        0 <= target < m.scopes.len(),
        all_passable(m, way),
        0 <= k <= way.len(),
    ensures
        m.hoisted_upto(way, name, symbol, k).scopes.len() == m.scopes.len(),
        m.hoisted_upto(way, name, symbol, k).scopes[target].bindings == m.scopes[target].bindings,
    decreases k,
{
    if k > 0 {
        lemma_hoisting_keeps(m, way, name, symbol, target, k - 1);
        assert(passable(m, way[k - 1]));
    }
}

/// The name of a `var` stands for a symbol in the scope that the `var` belongs to.
pub proof fn var_names_reach_their_scope(m: ModuleData, way: Seq<int>, target: int, s: SymbolModel)
    requires
        m.valid(),
        0 <= target < m.scopes.len(),
        m.scopes[target].flags & VAR_SCOPE != 0,
        all_passable(m, way),
    ensures
        m.with_var(way, target, s).binding(target, s.name) is Some,
{
    assert(scope_valid(m.scopes[target], target, m.symbols.len()));
    lemma_find_key(keys_of(m.scopes[target].hoisted), s.name, 0);
    let at = m.first_declaring(way, s.name, 0);
    lemma_first_declaring(m, way, s.name, 0);
    let (n, symbol) = if at < way.len() {
        (m.merged(way[at], target, s.name), m.declared_before(way[at], s.name)->0)
    } else {
        m.declared(target, s)
    };
    if at < way.len() {
        assert(passable(m, way[at]));
        if m.binding(target, s.name) is None {
            let i = m.declared_before(way[at], s.name)->0;
            let marked = m.with_symbol(i, SymbolModel { redeclared: true, ..m.symbols[i] });
            let gone = marked.with_scope(way[at], unbound(marked.scopes[way[at]], s.name));
            lemma_put_found(gone.scopes[target].bindings, s.name, i);
        }
    } else if m.declared_before(target, s.name) is None {
        lemma_put_found(m.scopes[target].bindings, s.name, m.symbols.len() as int);
    }
    assert(n.binding(target, s.name) is Some);
    assert(same_kinds(m, n));
    assert(all_passable(n, way)) by {
        assert forall|i: int| 0 <= i < way.len() implies passable(n, #[trigger] way[i]) by {
            assert(passable(m, way[i]));
            assert(n.scopes[way[i]].flags == m.scopes[way[i]].flags);
        }
    }
    lemma_hoisting_keeps(n, way, s.name, symbol, target, way.len() as int);
}

proof fn lemma_first_declaring(m: ModuleData, way: Seq<int>, name: Seq<char>, i: int)
    requires
        0 <= i <= way.len(),
    ensures
        i <= m.first_declaring(way, name, i) <= way.len(),
        m.first_declaring(way, name, i) < way.len() ==> m.declared_before(
            way[m.first_declaring(way, name, i)],
            name,
        ) is Some,
    decreases way.len() - i,
{
    if i < way.len() && m.declared_before(way[i], name) is None {
        lemma_first_declaring(m, way, name, i + 1);
    }
}

} // verus!
