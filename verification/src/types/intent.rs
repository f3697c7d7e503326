//! Architectural intent attached to structural nodes.

use vstd::prelude::*;

verus! {

/// The architectural invariant a node is meant to keep.
#[derive(Debug, Clone, PartialEq)]
pub enum IntentInvariant {
    AppendOnly,
    DeterministicOrdering,
    ThreadSafe,
    NoSideEffects,
    Idempotent,
    ZeroAllocation,
    Stateless,
    Custom(String),
}

/// The kind of an architectural constraint.
#[derive(Debug, Clone, PartialEq)]
pub enum ConstraintKind {
    MustImport(String),
    MustNotImport(String),
    MustExtend(String),
    MustBeSealed,
    MustBeStateless,
}

/// A constraint on architectural relationships.
#[derive(Debug, Clone, PartialEq)]
pub struct Constraint {
    pub kind: ConstraintKind,
    pub description: String,
}

/// The intent overlay of a node: its invariant, why, further constraints,
/// an owner and free metadata.
#[derive(Debug, Clone)]
pub struct IntentOverlay {
    pub invariant: IntentInvariant,
    pub reason: String,
    pub constraints: Vec<Constraint>,
    pub owner: Option<String>,
    pub metadata: Vec<(String, String)>,
}

} // verus!
