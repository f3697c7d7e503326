//! Symbol kinds and definitions.

use vstd::prelude::*;

verus! {

/// The kind of a symbol.
#[derive(Debug, Clone, PartialEq)]
pub enum SymbolKind {
    Function,
    Method,
    Class,
    Struct,
    Enum,
    Trait,
    Module,
    Constant,
    Variable,
    Interface,
    Other(String),
}

/// A symbol's name, kind and namespace.
#[derive(Debug, Clone)]
pub struct SymbolDefinition {
    pub name: String,
    pub kind: SymbolKind,
    pub namespace: Vec<String>,
}

} // verus!
