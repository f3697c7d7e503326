//! Semantic algebra of syntax kinds: which kinds may be reordered without
//! changing meaning, canonical names for scoped declarations, and the
//! mapping of parser node kinds to semantic kinds.

use vstd::prelude::*;
use vstd::string::*;
use crate::text::{decimal, str_eq, u64_to_decimal};

verus! {

/// Whether reordering the children of a node can change its meaning.
#[derive(Debug, Clone, Copy, PartialEq, Eq, Structural)]
pub enum Commutativity {
    OrderSensitive,
    OrderInsensitive,
    Hybrid,
}

impl Commutativity {
    pub fn is_order_sensitive(&self) -> (r: bool)
        ensures
            r == (*self == Commutativity::OrderSensitive),
    {
        matches!(self, Commutativity::OrderSensitive)
    }

    pub fn is_order_insensitive(&self) -> (r: bool)
        ensures
            r == (*self == Commutativity::OrderInsensitive),
    {
        matches!(self, Commutativity::OrderInsensitive)
    }

    pub fn is_hybrid(&self) -> (r: bool)
        ensures
            r == (*self == Commutativity::Hybrid),
    {
        matches!(self, Commutativity::Hybrid)
    }
}

/// The semantic category of a syntax node.
#[derive(Debug, Clone, Copy, PartialEq, Eq, Structural)]
pub enum SemanticKind {
    Function,
    Method,
    Class,
    Struct,
    Enum,
    Trait,
    Impl,
    Module,
    Constant,
    Variable,
    Field,
    Parameter,
    Block,
    Statement,
    Expression,
    Type,
    Import,
    Use,
    Call,
    Macro,
    Attribute,
    Guard,
    Loop,
    Match,
    Other,
}

/// Errors of semantic analysis.
#[derive(Debug, Clone)]
pub enum SemanticError {
    UnknownNodeKind(String),
    ScopeOverflow,
    UndefinedIdentifier(String),
}

/// The message of a semantic error.
pub open spec fn semantic_error_message(e: SemanticError) -> Seq<char> {
    match e {
        SemanticError::UnknownNodeKind(k) => "Unknown tree-sitter node kind: "@ + k@,
        SemanticError::ScopeOverflow => "Scope overflow: maximum nesting depth exceeded"@,
        SemanticError::UndefinedIdentifier(n) => "Identifier not found in scope: "@ + n@,
    }
}

impl SemanticError {
    /// The human-readable message of the error.
    pub fn to_string(&self) -> (r: String)
        ensures
            r@ == semantic_error_message(*self),
    {
        match self {
            SemanticError::UnknownNodeKind(k) => {
                let mut m = String::from_str("Unknown tree-sitter node kind: ");
                m.append(k.as_str());
                m
            },
            SemanticError::ScopeOverflow => String::from_str("Scope overflow: maximum nesting depth exceeded"),
            SemanticError::UndefinedIdentifier(n) => {
                let mut m = String::from_str("Identifier not found in scope: ");
                m.append(n.as_str());
                m
            },
        }
    }
}

/// Where a node sits: how deeply nested, and whether inside a loop, a
/// match or a macro.
#[derive(Debug, Clone, Copy, PartialEq, Eq, Structural)]
pub struct ScopeContext {
    pub depth: usize,
    pub in_loop: bool,
    pub in_match: bool,
    pub in_macro: bool,
}

impl Default for ScopeContext {
    fn default() -> (r: Self)
        ensures
            r == (ScopeContext { depth: 0, in_loop: false, in_match: false, in_macro: false }),
    {
        ScopeContext { depth: 0, in_loop: false, in_match: false, in_macro: false }
    }
}

impl ScopeContext {
    /// The top-level context.
    pub fn new() -> (r: Self)
        ensures
            r == (ScopeContext { depth: 0, in_loop: false, in_match: false, in_macro: false }),
    {
        ScopeContext { depth: 0, in_loop: false, in_match: false, in_macro: false }
    }

    /// The context one block deeper.
    pub fn enter_block(&mut self) -> (r: Self)
        requires
            old(self).depth < usize::MAX,
        ensures
            r == (ScopeContext { depth: (old(self).depth + 1) as usize, ..*old(self) }),
            *final(self) == *old(self),
    {
        let mut new = *self;
        new.depth = new.depth + 1;
        new
    }

    /// The context of a loop body, one level deeper.
    pub fn enter_loop(&mut self) -> (r: Self)
        requires
            old(self).depth < usize::MAX,
        ensures
            r == (ScopeContext { depth: (old(self).depth + 1) as usize, in_loop: true, ..*old(self) }),
            *final(self) == *old(self),
    {
        let mut new = *self;
        new.in_loop = true;
        new.depth = new.depth + 1;
        new
    }

    /// The context of a match arm, one level deeper.
    pub fn enter_match(&mut self) -> (r: Self)
        requires
            old(self).depth < usize::MAX,
        ensures
            r == (ScopeContext { depth: (old(self).depth + 1) as usize, in_match: true, ..*old(self) }),
            *final(self) == *old(self),
    {
        let mut new = *self;
        new.in_match = true;
        new.depth = new.depth + 1;
        new
    }

    /// The context of a macro body, at the same depth.
    pub fn enter_macro(&mut self) -> (r: Self)
        ensures
            r == (ScopeContext { in_macro: true, ..*old(self) }),
            *final(self) == *old(self),
    {
        let mut new = *self;
        new.in_macro = true;
        new
    }
}

/// The bindings of one scope: the last binding of a name wins.
pub open spec fn scope_map(v: Seq<(String, String)>) -> Map<Seq<char>, Seq<char>>
    decreases v.len(),
{
    if v.len() == 0 {
        Map::empty()
    } else {
        scope_map(v.drop_last()).insert(v.last().0@, v.last().1@)
    }
}

/// The bindings of every scope, outermost first.
pub open spec fn scope_maps(s: Seq<Vec<(String, String)>>) -> Seq<Map<Seq<char>, Seq<char>>> {
    s.map_values(|v: Vec<(String, String)>| scope_map(v@))
}

/// The canonical name a name resolves to: its binding in the innermost
/// scope that binds it.
pub open spec fn resolve_in(scopes: Seq<Map<Seq<char>, Seq<char>>>, name: Seq<char>) -> Option<Seq<char>>
    decreases scopes.len(),
{
    if scopes.len() == 0 {
        None
    } else if scopes.last().contains_key(name) {
        Some(scopes.last()[name])
    } else {
        resolve_in(scopes.drop_last(), name)
    }
}

/// The scopes after binding `name` to `canonical` in the innermost one;
/// with no scope, nothing is bound.
pub open spec fn bind_innermost(scopes: Seq<Map<Seq<char>, Seq<char>>>, name: Seq<char>, canonical: Seq<char>) -> Seq<Map<Seq<char>, Seq<char>>> {
    if scopes.len() == 0 {
        scopes
    } else {
        scopes.update(scopes.len() - 1, scopes.last().insert(name, canonical))
    }
}

proof fn lemma_scope_map_last_match(v: Seq<(String, String)>, name: Seq<char>, k: int)
    requires
        0 <= k < v.len(),
        v[k].0@ == name,
        forall|j: int| k < j < v.len() ==> v[j].0@ != name,
    ensures
        scope_map(v).contains_key(name),
        scope_map(v)[name] == v[k].1@,
    decreases v.len(),
{
    if k < v.len() - 1 {
        lemma_scope_map_last_match(v.drop_last(), name, k);
    }
}

proof fn lemma_scope_map_no_match(v: Seq<(String, String)>, name: Seq<char>)
    requires
        forall|j: int| 0 <= j < v.len() ==> v[j].0@ != name,
    ensures
        !scope_map(v).contains_key(name),
    decreases v.len(),
{
    if v.len() > 0 {
        lemma_scope_map_no_match(v.drop_last(), name);
    }
}

/// The canonical binding of `name` in one scope, if any.
fn lookup_scope(v: &Vec<(String, String)>, name: &str) -> (r: Option<String>)
    ensures
        match r {
            Some(c) => scope_map(v@).contains_key(name@) && scope_map(v@)[name@] == c@,
            None => !scope_map(v@).contains_key(name@),
        },
{
    let mut k: usize = v.len();
    while k > 0
        invariant
            k <= v@.len(),
            forall|j: int| k <= j < v@.len() ==> v@[j].0@ != name@,
        decreases k,
    {
        k = k - 1;
        if str_eq(v[k].0.as_str(), name) {
            proof { lemma_scope_map_last_match(v@, name@, k as int); }
            return Some(v[k].1.clone());
        }
    }
    proof { lemma_scope_map_no_match(v@, name@); }
    None
}

/// Canonical naming of declarations across nested scopes.
#[derive(Debug, Clone)]
pub struct CafContext {
    scopes: Vec<Vec<(String, String)>>,
    var_counter: usize,
    func_counter: usize,
    type_counter: usize,
    pub in_loop: bool,
    pub in_match: bool,
    pub in_macro: bool,
}

/// The canonical name `prefix` followed by a counter.
pub open spec fn canonical_name(prefix: Seq<char>, n: nat) -> Seq<char> {
    prefix + decimal(n)
}

impl Default for CafContext {
    /// A context with no scope at all and every counter at zero.
    fn default() -> (r: Self)
        ensures
            r.spec_scopes() == Seq::<Map<Seq<char>, Seq<char>>>::empty(),
            r.spec_var_counter() == 0,
            r.spec_func_counter() == 0,
            r.spec_type_counter() == 0,
            !r.spec_in_loop() && !r.spec_in_match() && !r.spec_in_macro(),
    {
        let r = CafContext {
            scopes: Vec::new(),
            var_counter: 0,
            func_counter: 0,
            type_counter: 0,
            in_loop: false,
            in_match: false,
            in_macro: false,
        };
        assert(r.spec_scopes() =~= Seq::<Map<Seq<char>, Seq<char>>>::empty());
        r
    }
}

impl CafContext {
    /// The bindings of every scope, outermost first.
    pub closed spec fn spec_scopes(&self) -> Seq<Map<Seq<char>, Seq<char>>> {
        scope_maps(self.scopes@)
    }

    pub closed spec fn spec_in_loop(&self) -> bool {
        self.in_loop
    }

    pub closed spec fn spec_in_match(&self) -> bool {
        self.in_match
    }

    pub closed spec fn spec_in_macro(&self) -> bool {
        self.in_macro
    }

    pub closed spec fn spec_var_counter(&self) -> usize {
        self.var_counter
    }

    pub closed spec fn spec_func_counter(&self) -> usize {
        self.func_counter
    }

    pub closed spec fn spec_type_counter(&self) -> usize {
        self.type_counter
    }

    /// A context with one empty scope and every counter at zero.
    pub fn new() -> (r: Self)
        ensures
            r.spec_scopes() == seq![Map::<Seq<char>, Seq<char>>::empty()],
            r.spec_var_counter() == 0,
            r.spec_func_counter() == 0,
            r.spec_type_counter() == 0,
            !r.spec_in_loop() && !r.spec_in_match() && !r.spec_in_macro(),
    {
        let mut scopes: Vec<Vec<(String, String)>> = Vec::new();
        scopes.push(Vec::new());
        let r = Self {
            scopes,
            var_counter: 0,
            func_counter: 0,
            type_counter: 0,
            in_loop: false,
            in_match: false,
            in_macro: false,
        };
        assert(r.spec_scopes() =~= seq![Map::<Seq<char>, Seq<char>>::empty()]);
        r
    }

    /// Opens a new innermost scope.
    pub fn push_scope(&mut self)
        ensures
            final(self).spec_scopes() == old(self).spec_scopes().push(Map::empty()),
            final(self).spec_var_counter() == old(self).spec_var_counter(),
            final(self).spec_func_counter() == old(self).spec_func_counter(),
            final(self).spec_type_counter() == old(self).spec_type_counter(),
            final(self).spec_in_loop() == old(self).spec_in_loop(),
            final(self).spec_in_match() == old(self).spec_in_match(),
            final(self).spec_in_macro() == old(self).spec_in_macro(),
    {
        self.scopes.push(Vec::new());
        assert(self.spec_scopes() =~= old(self).spec_scopes().push(Map::empty()));
    }

    /// Closes the innermost scope, unless it is the only one.
    pub fn pop_scope(&mut self)
        ensures
            final(self).spec_scopes() == if old(self).spec_scopes().len() > 1 {
                old(self).spec_scopes().drop_last()
            } else {
                old(self).spec_scopes()
            },
            final(self).spec_var_counter() == old(self).spec_var_counter(),
            final(self).spec_func_counter() == old(self).spec_func_counter(),
            final(self).spec_type_counter() == old(self).spec_type_counter(),
            final(self).spec_in_loop() == old(self).spec_in_loop(),
            final(self).spec_in_match() == old(self).spec_in_match(),
            final(self).spec_in_macro() == old(self).spec_in_macro(),
    {
        if self.scopes.len() > 1 {
            self.scopes.pop();
            assert(self.spec_scopes() =~= old(self).spec_scopes().drop_last());
        }
    }

    fn bind(&mut self, name: &str, canonical: &String)
        ensures
            final(self).spec_scopes() == bind_innermost(old(self).spec_scopes(), name@, canonical@),
            final(self).spec_var_counter() == old(self).spec_var_counter(),
            final(self).spec_func_counter() == old(self).spec_func_counter(),
            final(self).spec_type_counter() == old(self).spec_type_counter(),
            final(self).spec_in_loop() == old(self).spec_in_loop(),
            final(self).spec_in_match() == old(self).spec_in_match(),
            final(self).spec_in_macro() == old(self).spec_in_macro(),
    {
        let n = self.scopes.len();
        if n > 0 {
            let mut last = self.scopes.pop().unwrap();
            let ghost before = last@;
            last.push((String::from_str(name), canonical.clone()));
            assert(last@.drop_last() =~= before);
            self.scopes.push(last);
            assert(self.spec_scopes() =~= bind_innermost(old(self).spec_scopes(), name@, canonical@));
        }
    }

    /// Declares a variable: it gets the next name `$V_n` in the innermost
    /// scope.
    pub fn declare_var(&mut self, name: &str) -> (r: String)
        requires
            old(self).spec_var_counter() < usize::MAX,
        ensures
            r@ == canonical_name("$V_"@, old(self).spec_var_counter() as nat),
            final(self).spec_scopes() == bind_innermost(old(self).spec_scopes(), name@, r@),
            final(self).spec_var_counter() == old(self).spec_var_counter() + 1,
            final(self).spec_func_counter() == old(self).spec_func_counter(),
            final(self).spec_type_counter() == old(self).spec_type_counter(),
            final(self).spec_in_loop() == old(self).spec_in_loop(),
            final(self).spec_in_match() == old(self).spec_in_match(),
            final(self).spec_in_macro() == old(self).spec_in_macro(),
    {
        let mut scoped = String::from_str("$V_");
        let d = u64_to_decimal(self.var_counter as u64);
        scoped.append(d.as_str());
        self.var_counter = self.var_counter + 1;
        self.bind(name, &scoped);
        scoped
    }

    /// Declares a function: it gets the next name `$F_n` in the innermost
    /// scope.
    pub fn declare_func(&mut self, name: &str) -> (r: String)
        requires
            old(self).spec_func_counter() < usize::MAX,
        ensures
            r@ == canonical_name("$F_"@, old(self).spec_func_counter() as nat),
            final(self).spec_scopes() == bind_innermost(old(self).spec_scopes(), name@, r@),
            final(self).spec_var_counter() == old(self).spec_var_counter(),
            final(self).spec_func_counter() == old(self).spec_func_counter() + 1,
            final(self).spec_type_counter() == old(self).spec_type_counter(),
            final(self).spec_in_loop() == old(self).spec_in_loop(),
            final(self).spec_in_match() == old(self).spec_in_match(),
            final(self).spec_in_macro() == old(self).spec_in_macro(),
    {
        let mut scoped = String::from_str("$F_");
        let d = u64_to_decimal(self.func_counter as u64);
        scoped.append(d.as_str());
        self.func_counter = self.func_counter + 1;
        self.bind(name, &scoped);
        scoped
    }

    /// Declares a type: it gets the next name `$T_n` in the innermost scope.
    pub fn declare_type(&mut self, name: &str) -> (r: String)
        requires
            old(self).spec_type_counter() < usize::MAX,
        ensures
            r@ == canonical_name("$T_"@, old(self).spec_type_counter() as nat),
            final(self).spec_scopes() == bind_innermost(old(self).spec_scopes(), name@, r@),
            final(self).spec_var_counter() == old(self).spec_var_counter(),
            final(self).spec_func_counter() == old(self).spec_func_counter(),
            final(self).spec_type_counter() == old(self).spec_type_counter() + 1,
            final(self).spec_in_loop() == old(self).spec_in_loop(),
            final(self).spec_in_match() == old(self).spec_in_match(),
            final(self).spec_in_macro() == old(self).spec_in_macro(),
    {
        let mut scoped = String::from_str("$T_");
        let d = u64_to_decimal(self.type_counter as u64);
        scoped.append(d.as_str());
        self.type_counter = self.type_counter + 1;
        self.bind(name, &scoped);
        scoped
    }

    /// The canonical name of `name`, from the innermost scope that binds it.
    pub fn resolve(&self, name: &str) -> (r: Option<String>)
        ensures
            crate::base::opt_view(r) == resolve_in(self.spec_scopes(), name@),
    {
        let mut k: usize = self.scopes.len();
        assert(self.spec_scopes().take(k as int) =~= self.spec_scopes());
        while k > 0
            invariant
                k <= self.scopes@.len(),
                resolve_in(self.spec_scopes(), name@) == resolve_in(self.spec_scopes().take(k as int), name@),
            decreases k,
        {
            let found = lookup_scope(&self.scopes[k - 1], name);
            let ghost pre = self.spec_scopes().take(k as int);
            assert(pre.drop_last() =~= self.spec_scopes().take(k - 1));
            assert(pre.last() == scope_map(self.scopes@[k - 1]@));
            match found {
                Some(c) => {
                    return Some(c);
                },
                None => {},
            }
            k = k - 1;
        }
        None
    }

    /// The number of open scopes.
    pub fn depth(&self) -> (r: usize)
        ensures
            r == self.spec_scopes().len(),
    {
        self.scopes.len()
    }

    /// The scope context this naming context stands in.
    pub fn scope_context(&self) -> (r: ScopeContext)
        ensures
            r == (ScopeContext {
                depth: self.spec_scopes().len() as usize,
                in_loop: self.spec_in_loop(),
                in_match: self.spec_in_match(),
                in_macro: self.spec_in_macro(),
            }),
    {
        ScopeContext { depth: self.depth(), in_loop: self.in_loop, in_match: self.in_match, in_macro: self.in_macro }
    }

    /// Enters a loop body: marks the loop and opens a scope.
    pub fn enter_loop(&mut self)
        ensures
            final(self).spec_in_loop(),
            final(self).spec_scopes() == old(self).spec_scopes().push(Map::empty()),
            final(self).spec_in_match() == old(self).spec_in_match(),
            final(self).spec_in_macro() == old(self).spec_in_macro(),
            final(self).spec_var_counter() == old(self).spec_var_counter(),
            final(self).spec_func_counter() == old(self).spec_func_counter(),
            final(self).spec_type_counter() == old(self).spec_type_counter(),
    {
        self.in_loop = true;
        self.push_scope();
    }

    /// Enters a match arm: marks the match and opens a scope.
    pub fn enter_match(&mut self)
        ensures
            final(self).spec_in_match(),
            final(self).spec_scopes() == old(self).spec_scopes().push(Map::empty()),
            final(self).spec_in_loop() == old(self).spec_in_loop(),
            final(self).spec_in_macro() == old(self).spec_in_macro(),
            final(self).spec_var_counter() == old(self).spec_var_counter(),
            final(self).spec_func_counter() == old(self).spec_func_counter(),
            final(self).spec_type_counter() == old(self).spec_type_counter(),
    {
        self.in_match = true;
        self.push_scope();
    }

    /// Enters a macro body: marks the macro, in the same scope.
    pub fn enter_macro(&mut self)
        ensures
            final(self).spec_in_macro(),
            final(self).spec_scopes() == old(self).spec_scopes(),
            final(self).spec_in_loop() == old(self).spec_in_loop(),
            final(self).spec_in_match() == old(self).spec_in_match(),
            final(self).spec_var_counter() == old(self).spec_var_counter(),
            final(self).spec_func_counter() == old(self).spec_func_counter(),
            final(self).spec_type_counter() == old(self).spec_type_counter(),
    {
        self.in_macro = true;
    }
}

/// The top-level scope context.
pub open spec fn top_scope() -> ScopeContext {
    ScopeContext { depth: 0, in_loop: false, in_match: false, in_macro: false }
}

/// The scope context a naming context stands in: as deep as its scopes,
/// with its flags.
pub open spec fn scope_context_of(c: CafContext) -> ScopeContext {
    ScopeContext {
        depth: c.spec_scopes().len() as usize,
        in_loop: c.spec_in_loop(),
        in_match: c.spec_in_match(),
        in_macro: c.spec_in_macro(),
    }
}

/// The commutativity of a node kind's children in a language, in a context.
pub trait AlgebraResolver {
    /// The resolver may answer `c` for a node kind in a language and a
    /// context; a resolver that says nothing more allows any answer.
    open spec fn spec_resolves(&self, kind: Seq<char>, language: Seq<char>, context: ScopeContext, c: Commutativity) -> bool {
        true
    }

    fn resolve(&self, node_kind: &str, language: &str, context: &ScopeContext) -> (r: Commutativity)
        ensures
            self.spec_resolves(node_kind@, language@, *context, r);
}

/// The Rust table: node kind and commutativity.
pub open spec fn rust_entries() -> Seq<(&'static str, Commutativity)> {
    seq![
        ("function_item", Commutativity::OrderInsensitive),
        ("struct_item", Commutativity::OrderInsensitive),
        ("enum_item", Commutativity::OrderInsensitive),
        ("trait_item", Commutativity::OrderInsensitive),
        ("impl_item", Commutativity::OrderInsensitive),
        ("mod_item", Commutativity::OrderInsensitive),
        ("const_item", Commutativity::OrderInsensitive),
        ("static_item", Commutativity::OrderInsensitive),
        ("use_declaration", Commutativity::OrderInsensitive),
        ("extern_crate_declaration", Commutativity::OrderInsensitive),
        ("field_declaration", Commutativity::OrderInsensitive),
        ("variant", Commutativity::OrderInsensitive),
        ("attribute_item", Commutativity::OrderInsensitive),
        ("block", Commutativity::OrderSensitive),
        ("expression_statement", Commutativity::OrderSensitive),
        ("let_declaration", Commutativity::OrderSensitive),
        ("assignment_expression", Commutativity::OrderSensitive),
        ("call_expression", Commutativity::OrderSensitive),
        ("method_call_expression", Commutativity::OrderSensitive),
        ("return_expression", Commutativity::OrderSensitive),
        ("if_expression", Commutativity::OrderSensitive),
        ("match_expression", Commutativity::OrderSensitive),
        ("loop_expression", Commutativity::OrderSensitive),
        ("for_expression", Commutativity::OrderSensitive),
        ("while_expression", Commutativity::OrderSensitive),
        ("break_expression", Commutativity::OrderSensitive),
        ("continue_expression", Commutativity::OrderSensitive),
        ("binary_expression", Commutativity::Hybrid),
        ("unary_expression", Commutativity::Hybrid),
        ("closure_expression", Commutativity::Hybrid),
        ("primitive_type", Commutativity::OrderInsensitive),
        ("generic_type", Commutativity::OrderInsensitive),
        ("tuple_type", Commutativity::OrderInsensitive),
        ("array_type", Commutativity::OrderInsensitive),
        ("reference_type", Commutativity::OrderInsensitive),
        ("pointer_type", Commutativity::OrderInsensitive),
        ("macro_invocation", Commutativity::OrderSensitive),
        ("macro_definition", Commutativity::OrderInsensitive),
        ("parameters", Commutativity::OrderSensitive),
        ("parameter", Commutativity::OrderSensitive),
        ("self_parameter", Commutativity::OrderSensitive)
    ]
}

/// The Python table: node kind and commutativity.
pub open spec fn python_entries() -> Seq<(&'static str, Commutativity)> {
    seq![
        ("function_definition", Commutativity::OrderInsensitive),
        ("async_function_definition", Commutativity::OrderInsensitive),
        ("class_definition", Commutativity::OrderInsensitive),
        ("decorated_definition", Commutativity::OrderInsensitive),
        ("import_statement", Commutativity::OrderInsensitive),
        ("import_from_statement", Commutativity::OrderInsensitive),
        ("global_statement", Commutativity::OrderInsensitive),
        ("attribute", Commutativity::OrderInsensitive),
        ("block", Commutativity::OrderSensitive),
        ("expression_statement", Commutativity::OrderSensitive),
        ("assignment", Commutativity::OrderSensitive),
        ("augmented_assignment", Commutativity::OrderSensitive),
        ("return_statement", Commutativity::OrderSensitive),
        ("raise_statement", Commutativity::OrderSensitive),
        ("assert_statement", Commutativity::OrderSensitive),
        ("if_statement", Commutativity::OrderSensitive),
        ("for_statement", Commutativity::OrderSensitive),
        ("while_statement", Commutativity::OrderSensitive),
        ("try_statement", Commutativity::OrderSensitive),
        ("with_statement", Commutativity::OrderSensitive),
        ("match_statement", Commutativity::OrderSensitive),
        ("call", Commutativity::OrderSensitive),
        ("parameters", Commutativity::OrderSensitive),
        ("parameter", Commutativity::OrderSensitive),
        ("default_parameter", Commutativity::OrderSensitive),
        ("positional_separator", Commutativity::OrderSensitive),
        ("keyword_separator", Commutativity::OrderSensitive),
        ("decorator", Commutativity::OrderInsensitive),
        ("binary_operator", Commutativity::Hybrid),
        ("unary_operator", Commutativity::Hybrid),
        ("lambda", Commutativity::Hybrid)
    ]
}

/// The commutativity a table gives a kind; a kind it does not list is
/// order sensitive.
pub open spec fn table_lookup(t: Seq<(&'static str, Commutativity)>, kind: Seq<char>) -> Commutativity
    decreases t.len(),
{
    if t.len() == 0 {
        Commutativity::OrderSensitive
    } else if t.last().0@ == kind {
        t.last().1
    } else {
        table_lookup(t.drop_last(), kind)
    }
}

/// The commutativity of a Rust node kind.
pub open spec fn rust_commutativity(kind: Seq<char>) -> Commutativity {
    table_lookup(rust_entries(), kind)
}

/// The commutativity of a Python node kind.
pub open spec fn python_commutativity(kind: Seq<char>) -> Commutativity {
    table_lookup(python_entries(), kind)
}

fn lookup_table(t: &Vec<(&'static str, Commutativity)>, kind: &str) -> (r: Commutativity)
    ensures
        r == table_lookup(t@, kind@),
{
    let mut k: usize = t.len();
    assert(t@.take(k as int) =~= t@);
    while k > 0
        invariant
            k <= t@.len(),
            table_lookup(t@, kind@) == table_lookup(t@.take(k as int), kind@),
        decreases k,
    {
        let ghost pre = t@.take(k as int);
        assert(pre.drop_last() =~= t@.take(k - 1));
        if str_eq(t[k - 1].0, kind) {
            return t[k - 1].1;
        }
        k = k - 1;
    }
    Commutativity::OrderSensitive
}

/// The commutativity of each node kind, per language.
pub struct CommutativityTable {
    rust: Vec<(&'static str, Commutativity)>,
    python: Vec<(&'static str, Commutativity)>,
}

impl CommutativityTable {
    #[verifier::type_invariant]
    spec fn holds_the_tables(&self) -> bool {
        &&& self.rust@ == rust_entries()
        &&& self.python@ == python_entries()
    }

    /// The Rust table held.
    pub closed spec fn spec_rust_entries(&self) -> Seq<(&'static str, Commutativity)> {
        self.rust@
    }

    /// The Python table held.
    pub closed spec fn spec_python_entries(&self) -> Seq<(&'static str, Commutativity)> {
        self.python@
    }

    /// The built-in tables.
    pub fn new() -> (r: Self)
        ensures
            r.spec_rust_entries() == rust_entries(),
            r.spec_python_entries() == python_entries(),
    {
        let rust: Vec<(&'static str, Commutativity)> = vec![
            ("function_item", Commutativity::OrderInsensitive),
            ("struct_item", Commutativity::OrderInsensitive),
            ("enum_item", Commutativity::OrderInsensitive),
            ("trait_item", Commutativity::OrderInsensitive),
            ("impl_item", Commutativity::OrderInsensitive),
            ("mod_item", Commutativity::OrderInsensitive),
            ("const_item", Commutativity::OrderInsensitive),
            ("static_item", Commutativity::OrderInsensitive),
            ("use_declaration", Commutativity::OrderInsensitive),
            ("extern_crate_declaration", Commutativity::OrderInsensitive),
            ("field_declaration", Commutativity::OrderInsensitive),
            ("variant", Commutativity::OrderInsensitive),
            ("attribute_item", Commutativity::OrderInsensitive),
            ("block", Commutativity::OrderSensitive),
            ("expression_statement", Commutativity::OrderSensitive),
            ("let_declaration", Commutativity::OrderSensitive),
            ("assignment_expression", Commutativity::OrderSensitive),
            ("call_expression", Commutativity::OrderSensitive),
            ("method_call_expression", Commutativity::OrderSensitive),
            ("return_expression", Commutativity::OrderSensitive),
            ("if_expression", Commutativity::OrderSensitive),
            ("match_expression", Commutativity::OrderSensitive),
            ("loop_expression", Commutativity::OrderSensitive),
            ("for_expression", Commutativity::OrderSensitive),
            ("while_expression", Commutativity::OrderSensitive),
            ("break_expression", Commutativity::OrderSensitive),
            ("continue_expression", Commutativity::OrderSensitive),
            ("binary_expression", Commutativity::Hybrid),
            ("unary_expression", Commutativity::Hybrid),
            ("closure_expression", Commutativity::Hybrid),
            ("primitive_type", Commutativity::OrderInsensitive),
            ("generic_type", Commutativity::OrderInsensitive),
            ("tuple_type", Commutativity::OrderInsensitive),
            ("array_type", Commutativity::OrderInsensitive),
            ("reference_type", Commutativity::OrderInsensitive),
            ("pointer_type", Commutativity::OrderInsensitive),
            ("macro_invocation", Commutativity::OrderSensitive),
            ("macro_definition", Commutativity::OrderInsensitive),
            ("parameters", Commutativity::OrderSensitive),
            ("parameter", Commutativity::OrderSensitive),
            ("self_parameter", Commutativity::OrderSensitive)
        ];
        let python: Vec<(&'static str, Commutativity)> = vec![
            ("function_definition", Commutativity::OrderInsensitive),
            ("async_function_definition", Commutativity::OrderInsensitive),
            ("class_definition", Commutativity::OrderInsensitive),
            ("decorated_definition", Commutativity::OrderInsensitive),
            ("import_statement", Commutativity::OrderInsensitive),
            ("import_from_statement", Commutativity::OrderInsensitive),
            ("global_statement", Commutativity::OrderInsensitive),
            ("attribute", Commutativity::OrderInsensitive),
            ("block", Commutativity::OrderSensitive),
            ("expression_statement", Commutativity::OrderSensitive),
            ("assignment", Commutativity::OrderSensitive),
            ("augmented_assignment", Commutativity::OrderSensitive),
            ("return_statement", Commutativity::OrderSensitive),
            ("raise_statement", Commutativity::OrderSensitive),
            ("assert_statement", Commutativity::OrderSensitive),
            ("if_statement", Commutativity::OrderSensitive),
            ("for_statement", Commutativity::OrderSensitive),
            ("while_statement", Commutativity::OrderSensitive),
            ("try_statement", Commutativity::OrderSensitive),
            ("with_statement", Commutativity::OrderSensitive),
            ("match_statement", Commutativity::OrderSensitive),
            ("call", Commutativity::OrderSensitive),
            ("parameters", Commutativity::OrderSensitive),
            ("parameter", Commutativity::OrderSensitive),
            ("default_parameter", Commutativity::OrderSensitive),
            ("positional_separator", Commutativity::OrderSensitive),
            ("keyword_separator", Commutativity::OrderSensitive),
            ("decorator", Commutativity::OrderInsensitive),
            ("binary_operator", Commutativity::Hybrid),
            ("unary_operator", Commutativity::Hybrid),
            ("lambda", Commutativity::Hybrid)
        ];
        assert(rust@ =~= rust_entries());
        assert(python@ =~= python_entries());
        Self { rust, python }
    }

    /// The commutativity of a Rust node kind; unlisted kinds are order
    /// sensitive.
    pub fn get_rust(&self, kind: &str) -> (r: Commutativity)
        ensures
            r == rust_commutativity(kind@),
    {
        proof { use_type_invariant(self); }
        lookup_table(&self.rust, kind)
    }

    /// The commutativity of a Python node kind; unlisted kinds are order
    /// sensitive.
    pub fn get_python(&self, kind: &str) -> (r: Commutativity)
        ensures
            r == python_commutativity(kind@),
    {
        proof { use_type_invariant(self); }
        lookup_table(&self.python, kind)
    }
}

impl Default for CommutativityTable {
    fn default() -> (r: Self) {
        Self::new()
    }
}

/// The resolution of the default resolver: the language's table (other
/// languages are order sensitive), with a break inside a loop order
/// sensitive.
pub open spec fn default_resolution(kind: Seq<char>, language: Seq<char>, context: ScopeContext) -> Commutativity {
    let base = if language == "rust"@ {
        rust_commutativity(kind)
    } else if language == "python"@ {
        python_commutativity(kind)
    } else {
        Commutativity::OrderSensitive
    };
    if context.in_macro && base == Commutativity::OrderSensitive {
        Commutativity::OrderSensitive
    } else if context.in_loop && kind == "break_expression"@ {
        Commutativity::OrderSensitive
    } else {
        base
    }
}

/// The resolver backed by the built-in tables.
pub struct DefaultAlgebraResolver {
    table: CommutativityTable,
}

impl DefaultAlgebraResolver {
    pub fn new() -> (r: Self) {
        Self { table: CommutativityTable::new() }
    }
}

impl Default for DefaultAlgebraResolver {
    fn default() -> (r: Self) {
        Self::new()
    }
}

impl AlgebraResolver for DefaultAlgebraResolver {
    /// The only answer is the default resolution.
    open spec fn spec_resolves(&self, kind: Seq<char>, language: Seq<char>, context: ScopeContext, c: Commutativity) -> bool {
        c == default_resolution(kind, language, context)
    }

    fn resolve(&self, node_kind: &str, language: &str, context: &ScopeContext) -> (r: Commutativity)
        ensures
            r == default_resolution(node_kind@, language@, *context),
    {
        let base = if str_eq(language, "rust") {
            self.table.get_rust(node_kind)
        } else if str_eq(language, "python") {
            self.table.get_python(node_kind)
        } else {
            Commutativity::OrderSensitive
        };
        if context.in_macro && base.is_order_sensitive() {
            return Commutativity::OrderSensitive;
        }
        if context.in_loop && str_eq(node_kind, "break_expression") {
            return Commutativity::OrderSensitive;
        }
        base
    }
}

/// The semantic kind of a parser node kind.
pub open spec fn semantic_kind_of(k: Seq<char>) -> SemanticKind {
    if k == "function_item"@ || k == "function_definition"@ {
        SemanticKind::Function
    } else if k == "method_declaration"@ || k == "method_definition"@ {
        SemanticKind::Method
    } else if k == "class_definition"@ {
        SemanticKind::Class
    } else if k == "struct_item"@ {
        SemanticKind::Struct
    } else if k == "enum_item"@ {
        SemanticKind::Enum
    } else if k == "trait_item"@ {
        SemanticKind::Trait
    } else if k == "impl_item"@ {
        SemanticKind::Impl
    } else if k == "mod_item"@ || k == "module"@ {
        SemanticKind::Module
    } else if k == "const_item"@ || k == "constant"@ {
        SemanticKind::Constant
    } else if k == "variable_declarator"@ || k == "assignment_target"@ {
        SemanticKind::Variable
    } else if k == "field_declaration"@ || k == "attribute"@ {
        SemanticKind::Field
    } else if k == "parameter"@ || k == "parameters"@ {
        SemanticKind::Parameter
    } else if k == "block"@ || k == "statement_block"@ {
        SemanticKind::Block
    } else if k == "expression_statement"@ || k == "statement"@ {
        SemanticKind::Statement
    } else if k == "identifier"@ {
        SemanticKind::Variable
    } else if k == "type_identifier"@ || k == "primitive_type"@ || k == "generic_type"@ {
        SemanticKind::Type
    } else if k == "import_statement"@ || k == "import_from_statement"@ {
        SemanticKind::Import
    } else if k == "use_statement"@ || k == "use_declaration"@ {
        SemanticKind::Use
    } else if k == "call_expression"@ || k == "call"@ {
        SemanticKind::Call
    } else if k == "macro_invocation"@ || k == "macro_definition"@ {
        SemanticKind::Macro
    } else if k == "attribute_item"@ || k == "decorator"@ {
        SemanticKind::Attribute
    } else if k == "match_expression"@ || k == "match_case"@ {
        SemanticKind::Match
    } else if k == "for_expression"@ || k == "while_expression"@ || k == "loop_expression"@ {
        SemanticKind::Loop
    } else {
        SemanticKind::Other
    }
}

impl SemanticKind {
    /// Maps a parser node kind to its semantic kind.
    pub fn from_tree_sitter(kind: &str) -> (r: Self)
        ensures
            r == semantic_kind_of(kind@),
    {
        if str_eq(kind, "function_item") || str_eq(kind, "function_definition") {
            SemanticKind::Function
        } else if str_eq(kind, "method_declaration") || str_eq(kind, "method_definition") {
            SemanticKind::Method
        } else if str_eq(kind, "class_definition") {
            SemanticKind::Class
        } else if str_eq(kind, "struct_item") {
            SemanticKind::Struct
        } else if str_eq(kind, "enum_item") {
            SemanticKind::Enum
        } else if str_eq(kind, "trait_item") {
            SemanticKind::Trait
        } else if str_eq(kind, "impl_item") {
            SemanticKind::Impl
        } else if str_eq(kind, "mod_item") || str_eq(kind, "module") {
            SemanticKind::Module
        } else if str_eq(kind, "const_item") || str_eq(kind, "constant") {
            SemanticKind::Constant
        } else if str_eq(kind, "variable_declarator") || str_eq(kind, "assignment_target") {
            SemanticKind::Variable
        } else if str_eq(kind, "field_declaration") || str_eq(kind, "attribute") {
            SemanticKind::Field
        } else if str_eq(kind, "parameter") || str_eq(kind, "parameters") {
            SemanticKind::Parameter
        } else if str_eq(kind, "block") || str_eq(kind, "statement_block") {
            SemanticKind::Block
        } else if str_eq(kind, "expression_statement") || str_eq(kind, "statement") {
            SemanticKind::Statement
        } else if str_eq(kind, "identifier") {
            SemanticKind::Variable
        } else if str_eq(kind, "type_identifier") || str_eq(kind, "primitive_type") || str_eq(kind, "generic_type") {
            SemanticKind::Type
        } else if str_eq(kind, "import_statement") || str_eq(kind, "import_from_statement") {
            SemanticKind::Import
        } else if str_eq(kind, "use_statement") || str_eq(kind, "use_declaration") {
            SemanticKind::Use
        } else if str_eq(kind, "call_expression") || str_eq(kind, "call") {
            SemanticKind::Call
        } else if str_eq(kind, "macro_invocation") || str_eq(kind, "macro_definition") {
            SemanticKind::Macro
        } else if str_eq(kind, "attribute_item") || str_eq(kind, "decorator") {
            SemanticKind::Attribute
        } else if str_eq(kind, "match_expression") || str_eq(kind, "match_case") {
            SemanticKind::Match
        } else if str_eq(kind, "for_expression") || str_eq(kind, "while_expression") || str_eq(kind, "loop_expression") {
            SemanticKind::Loop
        } else {
            SemanticKind::Other
        }
    }
}

} // verus!
