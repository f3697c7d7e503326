//! Transport records of the symbol dependency graph.

use vstd::prelude::*;
use crate::types::symbol::SymbolKind;
use crate::types::symbol_id::SymbolId;

verus! {

/// The analysis state of a symbol.
#[derive(Debug, Clone, Copy, PartialEq, Eq, Structural)]
pub enum SymbolState {
    /// Signature parsed, body pending.
    Discovered,
    /// Mapped to a node of the syntax tree.
    Bound,
    /// Dependencies in both directions resolved.
    Validated,
    /// Structure or dependencies changed; to be recomputed.
    Dirty,
    /// Gone from the tree; kept one generation to broadcast invalidation.
    Tombstoned,
}

/// How one symbol depends on another.
#[derive(Debug, Clone, Copy, PartialEq, Eq, Hash, Structural)]
pub enum DependencyKind {
    /// A change of signature or layout invalidates dependents.
    SignatureRef,
    /// A change of body does not invalidate dependents.
    CallEdge,
    /// A module relationship.
    ModuleImport,
    /// An alias.
    ReExport,
}

/// A dependency on a target symbol.
#[derive(Debug, Clone, PartialEq, Eq, Hash)]
pub struct DependencyEdge {
    pub target: SymbolId,
    pub kind: DependencyKind,
}

/// A snapshot of the graph.
#[derive(Debug, Clone)]
pub struct SymbolGraphDTO {
    pub nodes: Vec<SymbolNodeDTO>,
}

/// A symbol with its state and its edges in both directions.
#[derive(Debug, Clone)]
pub struct SymbolNodeDTO {
    pub symbol: SymbolId,
    pub state: SymbolState,
    pub dependencies: Vec<DependencyEdge>,
    pub dependents: Vec<SymbolId>,
    pub language: String,
    pub kind: SymbolKind,
    pub fq_name: String,
}

} // verus!
