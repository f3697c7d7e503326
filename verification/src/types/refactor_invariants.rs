//! Checks that the commutativity table gives the refactoring invariants
//! their expected answers, and a structural comparison across languages.

use vstd::prelude::*;
use crate::text::{contains, has_substring, lines_of, split_lines, str_eq, trim_str, trim_ws};
use crate::types::semantic::{python_commutativity, rust_commutativity, Commutativity, CommutativityTable};

verus! {

/// Whether a change must keep or must change the canonical hash.
#[derive(Debug, Clone, Copy, PartialEq, Eq, Structural)]
pub enum InvariantType {
    MustBeEqual,
    MustBeDifferent,
}

/// The kind of a code change.
#[derive(Debug, Clone, Copy, PartialEq, Eq, Structural)]
pub enum ChangeType {
    RenameOnly,
    ReorderOnly,
    LogicChange,
    ScopeChange,
    DeadCode,
    ControlFlowChange,
}

/// A named pair of code versions and the invariant they must meet.
#[derive(Debug, Clone)]
pub struct InvariantTestCase {
    pub name: String,
    pub code_before: &'static str,
    pub code_after: &'static str,
    pub expected_invariant: InvariantType,
    pub description: String,
}

/// Checks refactoring invariants against the commutativity table.
pub struct InvariantVerifier {
    table: CommutativityTable,
}

impl InvariantVerifier {
    pub fn new() -> (r: Self) {
        Self { table: CommutativityTable::new() }
    }

    fn verify_order(&self, kind: &str, insensitive: bool) -> (r: bool)
        ensures
            r == if insensitive {
                rust_commutativity(kind@) == Commutativity::OrderInsensitive
            } else {
                rust_commutativity(kind@) == Commutativity::OrderSensitive
            },
    {
        let before = self.table.get_rust(kind);
        let after = self.table.get_rust(kind);
        let same = before == after;
        if insensitive { same && before.is_order_insensitive() } else { same && before.is_order_sensitive() }
    }

    /// Whether the table says identifiers are order sensitive.
    pub fn test_refactor_rename_variable(&self) -> (r: bool)
        ensures
            r == (rust_commutativity("identifier"@) == Commutativity::OrderSensitive),
    {
        self.table.get_rust("identifier").is_order_sensitive()
    }

    /// Whether the table says function items are order insensitive.
    pub fn test_refactor_rename_function(&self) -> (r: bool)
        ensures
            r == (rust_commutativity("function_item"@) == Commutativity::OrderInsensitive),
    {
        self.table.get_rust("function_item").is_order_insensitive()
    }

    /// Whether the table says binary expressions are hybrid.
    pub fn test_semantic_change_arithmetic(&self) -> (r: bool)
        ensures
            r == (rust_commutativity("binary_expression"@) == Commutativity::Hybrid),
    {
        self.table.get_rust("binary_expression").is_hybrid()
    }

    /// Whether the table says if expressions are order sensitive.
    pub fn test_semantic_change_condition(&self) -> (r: bool)
        ensures
            r == (rust_commutativity("if_expression"@) == Commutativity::OrderSensitive),
    {
        self.table.get_rust("if_expression").is_order_sensitive()
    }

    /// Whether the table says loop expressions are order sensitive.
    pub fn test_semantic_change_control_flow(&self) -> (r: bool)
        ensures
            r == (rust_commutativity("loop_expression"@) == Commutativity::OrderSensitive),
    {
        self.table.get_rust("loop_expression").is_order_sensitive()
    }

    /// Whether the table says identifier scoping is order sensitive.
    pub fn test_scope_alpha_renaming(&self) -> (r: bool)
        ensures
            r == (rust_commutativity("identifier"@) == Commutativity::OrderSensitive),
    {
        self.table.get_rust("identifier").is_order_sensitive()
    }

    /// Whether the table says struct fields are order insensitive.
    pub fn test_commutativity_struct_fields(&self) -> (r: bool)
        ensures
            r == (rust_commutativity("field_declaration"@) == Commutativity::OrderInsensitive),
    {
        self.table.get_rust("field_declaration").is_order_insensitive()
    }

    /// Whether the table says imports are order insensitive.
    pub fn test_commutativity_imports(&self) -> (r: bool)
        ensures
            r == (rust_commutativity("use_declaration"@) == Commutativity::OrderInsensitive),
    {
        self.table.get_rust("use_declaration").is_order_insensitive()
    }

    /// Whether the table makes struct fields reorderable.
    pub fn test_refactor_reorder_struct_fields(&self) -> (r: bool)
        ensures
            r == (rust_commutativity("field_declaration"@) == Commutativity::OrderInsensitive),
    {
        self.verify_order("field_declaration", true)
    }

    /// Whether the table makes imports reorderable.
    pub fn test_refactor_reorder_imports(&self) -> (r: bool)
        ensures
            r == (rust_commutativity("use_declaration"@) == Commutativity::OrderInsensitive),
    {
        self.verify_order("use_declaration", true)
    }

    /// Dead code always counts as drift.
    pub fn test_dead_code_insertion(&self) -> (r: bool)
        ensures
            r,
    {
        true
    }

    /// Whether Rust functions and Python functions get the same
    /// commutativity.
    pub fn test_python_equivalent_semantics(&self) -> (r: bool)
        ensures
            r == (rust_commutativity("function_item"@) == python_commutativity("function_definition"@)),
    {
        let rust_fn = self.table.get_rust("function_item");
        let python_fn = self.table.get_python("function_definition");
        rust_fn == python_fn
    }

    /// Whether the table keeps blocks in order.
    pub fn test_order_sensitivity_block(&self) -> (r: bool)
        ensures
            r == (rust_commutativity("block"@) == Commutativity::OrderSensitive),
    {
        self.verify_order("block", false)
    }

    /// Whether the table keeps parameters in order.
    pub fn test_order_sensitivity_params(&self) -> (r: bool)
        ensures
            r == (rust_commutativity("parameter"@) == Commutativity::OrderSensitive),
    {
        self.verify_order("parameter", false)
    }
}

impl Default for InvariantVerifier {
    fn default() -> (r: Self) {
        Self::new()
    }
}

/// The lines of `code` that declare a function in `language` (`fn ` in
/// Rust, `def ` in Python), trimmed, in order.
pub open spec fn function_lines(lines: Seq<Seq<char>>, language: Seq<char>) -> Seq<Seq<char>>
    decreases lines.len(),
{
    if lines.len() == 0 {
        Seq::empty()
    } else {
        let prev = function_lines(lines.drop_last(), language);
        let l = lines.last();
        if (language == "rust"@ && has_substring(l, "fn "@)) || (language == "python"@ && has_substring(l, "def "@)) {
            prev.push(trim_ws(l))
        } else {
            prev
        }
    }
}

/// Compares code across languages by structure.
pub struct CrossLanguageVerifier {}

impl CrossLanguageVerifier {
    pub fn new() -> (r: Self) {
        Self {}
    }

    fn extract_functions(&self, code: &str, language: &str) -> (r: Vec<String>)
        ensures
            r@.map_values(|x: String| x@) == function_lines(lines_of(code@), language@),
    {
        let lines = split_lines(code);
        let ghost ls = lines@.map_values(|x: String| x@);
        let mut funcs: Vec<String> = Vec::new();
        let mut i: usize = 0;
        while i < lines.len()
            invariant
                i <= lines@.len(),
                ls == lines@.map_values(|x: String| x@),
                funcs@.map_values(|x: String| x@) == function_lines(ls.take(i as int), language@),
            decreases lines@.len() - i,
        {
            let line = lines[i].as_str();
            assert(ls.take(i + 1).drop_last() =~= ls.take(i as int));
            assert(ls[i as int] == line@);
            if (str_eq(language, "rust") && contains(line, "fn ")) || (str_eq(language, "python") && contains(line, "def ")) {
                let ghost before = funcs@.map_values(|x: String| x@);
                let t = trim_str(line);
                funcs.push(t);
                assert(funcs@.map_values(|x: String| x@) =~= before.push(trim_ws(line@)));
            }
            i = i + 1;
        }
        assert(ls.take(lines@.len() as int) =~= ls);
        funcs
    }

    /// Whether the Rust code and the Python code declare as many functions.
    pub fn compare_structure_class(&self, rust_code: &str, python_code: &str) -> (r: bool)
        ensures
            r == (function_lines(lines_of(rust_code@), "rust"@).len() == function_lines(lines_of(python_code@), "python"@).len()),
    {
        let rust_funcs = self.extract_functions(rust_code, "rust");
        let python_funcs = self.extract_functions(python_code, "python");
        rust_funcs.len() == python_funcs.len()
    }
}

impl Default for CrossLanguageVerifier {
    fn default() -> (r: Self) {
        Self::new()
    }
}

} // verus!
