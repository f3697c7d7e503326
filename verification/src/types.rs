//! The structural engine: semantic algebra, canonical forms, incremental
//! rebuilds and identity hashing.

pub mod semantic;
pub mod symbol_id;
pub mod semantic_role;
pub mod version;
pub mod collision;
pub mod identity_anchor;
pub mod hash;
pub mod node_id;
pub mod caf;
pub mod node_stamp;
pub mod role_resolver;
pub mod incremental;
pub mod refactor_invariants;
pub mod manifest;
pub mod introspection;
pub mod symbol;
pub mod graph;
pub mod edge;
pub mod uir;
pub mod drift_graph;
pub mod signal;
pub mod intent;
pub mod invariant_spec;
pub mod telemetry;
pub mod arena;
pub mod dirty_propagation;
