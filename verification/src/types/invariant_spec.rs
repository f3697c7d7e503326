//! Machine-checkable architectural contracts and their results.

use vstd::prelude::*;
use crate::types::intent::IntentInvariant;
use crate::types::symbol::SymbolKind;

verus! {

/// An architectural invariant.
#[derive(Debug, Clone)]
pub struct InvariantSpec {
    pub id: String,
    pub description: String,
    pub rule: InvariantRule,
    pub scope: InvariantScope,
}

/// The rule of an invariant.
#[derive(Debug, Clone)]
pub enum InvariantRule {
    NodeCountMin(usize),
    RequiredKind(SymbolKind),
    RequiredIntent(IntentInvariant),
    CrossLanguageParity(String),
    HashStability,
}

/// Where an invariant applies.
#[derive(Debug, Clone)]
pub enum InvariantScope {
    Global,
    Language(String),
    Module(String),
}

/// The outcome of checking one invariant.
#[derive(Debug, Clone)]
pub struct InvariantResult {
    pub spec_id: String,
    pub passed: bool,
    pub message: String,
}

/// The outcomes of a check.
#[derive(Debug, Clone)]
pub struct InvariantReport {
    pub total: usize,
    pub passed: usize,
    pub failed: usize,
    pub results: Vec<InvariantResult>,
}

} // verus!
