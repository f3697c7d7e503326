//! What the client reports.

use vstd::prelude::*;
use std::time::SystemTime;
use crate::base::ResourceId;
use crate::pek::PEKError;

verus! {

#[verifier::external_type_specification]
#[verifier::external_body]
pub struct ExJsonError(serde_json::Error);

/// Admission counters.
#[derive(Debug, Clone, Copy, PartialEq, Eq, Structural)]
pub struct StatsSnapshot {
    pub admitted: u64,
    pub rejected: u64,
    pub advisory_warnings: u64,
}

/// Why a client call failed.
#[derive(Debug)]
pub enum VantageError {
    MutationRejected(PEKError),
    ResourceNotFound(ResourceId),
    EpochError(String),
    QueryError(String),
    ConfigError(String),
    SerializationError(serde_json::Error),
    Internal(String),
}

/// One revision of a resource's history.
#[derive(Debug)]
pub struct HistoryEntry {
    pub sequence: u64,
    pub resource_id: ResourceId,
    pub mutation_id: String,
    pub actor: String,
    pub timestamp: SystemTime,
    pub payload: Option<String>,
}

impl Clone for HistoryEntry {
    fn clone(&self) -> (r: Self)
        ensures
            r == *self,
    {
        HistoryEntry {
            sequence: self.sequence,
            resource_id: self.resource_id.clone(),
            mutation_id: self.mutation_id.clone(),
            actor: self.actor.clone(),
            timestamp: self.timestamp,
            payload: match &self.payload {
                Some(p) => Some(p.clone()),
                None => None,
            },
        }
    }
}

} // verus!
