//! Vantage: a verified knowledge-runtime kernel.
//!
//! Proof-gated mutation admission, a temporal resource index with atomic
//! transactions, epoch lifecycle and elections, trust policies, and the
//! structural engine (commutativity tables, canonical scopes, incremental
//! dirty tracking, identity hashing).

pub mod base;
pub mod benchmark;
pub mod client;
pub mod clock;
pub mod laws;
pub mod metrics;
pub mod node;
pub mod pek;
pub mod prn;
pub mod runtime;
pub mod trust;
pub mod tx;
pub mod types;
pub mod vfp;
pub mod text;
