//! What the engine says about itself: its operating envelope and the
//! capabilities it offers.

use vstd::prelude::*;
use crate::text::str_eq;

verus! {

/// The engine's operating envelope.
#[derive(Debug, Clone, Copy)]
pub struct SystemEnvelope {
    pub version: &'static str,
    pub safe_node_limit: u32,
    pub nonlinear_boundary: u32,
    pub deterministic: bool,
    pub zero_copy: bool,
    pub o_n_log_n_guarantee: bool,
}

impl SystemEnvelope {
    /// The envelope of this version: up to 500 nodes safely, a nonlinear
    /// boundary at 2500, deterministic, zero-copy and O(n log n).
    pub fn current() -> (r: Self)
        ensures
            r.version@ == "v1.2.4"@,
            r.safe_node_limit == 500,
            r.nonlinear_boundary == 2500,
            r.deterministic,
            r.zero_copy,
            r.o_n_log_n_guarantee,
    {
        Self {
            version: "v1.2.4",
            safe_node_limit: 500,
            nonlinear_boundary: 2500,
            deterministic: true,
            zero_copy: true,
            o_n_log_n_guarantee: true,
        }
    }
}

impl Default for SystemEnvelope {
    fn default() -> (r: Self)
        ensures
            r.version@ == "v1.2.4"@,
            r.safe_node_limit == 500,
            r.nonlinear_boundary == 2500,
    {
        Self::current()
    }
}

/// A capability: its name, what it takes and gives, the invariants it
/// keeps and a help text.
#[derive(Debug, Clone, Copy)]
pub struct CapabilityDescriptor {
    pub name: &'static str,
    pub inputs: &'static [&'static str],
    pub outputs: &'static [&'static str],
    pub invariants: &'static [&'static str],
    pub help: &'static str,
}

/// A component that describes itself.
pub trait VantageIntrospect {
    fn capability_name() -> &'static str;
    fn input_schema() -> &'static str;
    fn output_schema() -> &'static str;
    fn invariants() -> &'static [&'static str];
    fn help_text() -> &'static str;
}

/// The capabilities, in a fixed order.
pub struct VantageCapabilityRegistry {
    pub entries: Vec<CapabilityDescriptor>,
}

/// The first entry named `name`, if any.
pub open spec fn capability_index(entries: Seq<CapabilityDescriptor>, name: Seq<char>) -> Option<int>
    decreases entries.len(),
{
    if entries.len() == 0 {
        None
    } else {
        match capability_index(entries.drop_last(), name) {
            Some(i) => Some(i),
            None => if entries.last().name@ == name { Some(entries.len() - 1) } else { None },
        }
    }
}

proof fn lemma_capability_index(entries: Seq<CapabilityDescriptor>, name: Seq<char>, k: int)
    requires
        0 <= k <= entries.len(),
        forall|j: int| 0 <= j < k ==> (#[trigger] entries[j]).name@ != name,
    ensures
        k < entries.len() && entries[k].name@ == name ==> capability_index(entries, name) == Some(k),
        k == entries.len() ==> capability_index(entries, name) is None,
    decreases entries.len(),
{
    if entries.len() > 0 {
        if k < entries.len() {
            if k < entries.len() - 1 {
                lemma_capability_index(entries.drop_last(), name, k);
            } else {
                lemma_capability_index(entries.drop_last(), name, k);
            }
        } else {
            lemma_capability_index(entries.drop_last(), name, k - 1);
        }
    }
}

impl VantageCapabilityRegistry {
    /// The registry of the engine's built-in capabilities.
    pub fn builtin() -> (r: Self)
        ensures
            r.entries@.len() == 8,
    {
        let entries: Vec<CapabilityDescriptor> = vec![
            CapabilityDescriptor {
                name: "dirty_propagation",
                inputs: &["NodeId"],
                outputs: &["DirtySet"],
                invariants: &["O(depth)", "no global state", "short-circuit safe"],
                help: "Propagates dirty status from leaf nodes up to root. Short-circuits on first dirty node encountered.",
            },
            CapabilityDescriptor {
                name: "symbol_dependency_graph",
                inputs: &["SourceCode", "Language"],
                outputs: &["SymbolGraphDTO"],
                invariants: &["deterministic", "bipartite identity"],
                help: "Extracts symbol dependency graph from source code using Bipartite Identity (NodeId/SymbolId).",
            },
            CapabilityDescriptor {
                name: "incremental_parse",
                inputs: &["SourceCode", "PreviousState"],
                outputs: &["IncrementalState"],
                invariants: &["O(depth) on edit", "cache preservation"],
                help: "Incremental AST parsing with dirty region tracking and cache reuse.",
            },
            CapabilityDescriptor {
                name: "triple_hash",
                inputs: &["SourceCode"],
                outputs: &["StructuralHash", "SemanticHash", "NormalizedHash"],
                invariants: &["CRLF normalization", "deterministic"],
                help: "Triple hash system: structural (any change), semantic (whitespace invariant), normalized (rename invariant).",
            },
            CapabilityDescriptor {
                name: "drift_detection",
                inputs: &["BaselineSignals", "CurrentSignals"],
                outputs: &["DriftReport"],
                invariants: &["normalized_hash alignment", "false negative prevention"],
                help: "Detects structural and semantic drift between baseline and current signals.",
            },
            CapabilityDescriptor {
                name: "invariant_enforcement",
                inputs: &["CognitiveSignal", "InvariantRule"],
                outputs: &["Verdict"],
                invariants: &["deterministic", "no false positives"],
                help: "Enforces cognitive invariants on parsed signals using claim \u{2192} verdict pipeline.",
            },
            CapabilityDescriptor {
                name: "tombstone_eviction",
                inputs: &["DepNode"],
                outputs: &["Generation"],
                invariants: &["one-generation retention", "invalidation broadcast"],
                help: "Graceful eviction: tombstones retained for one generation before automatic removal.",
            },
            CapabilityDescriptor {
                name: "blast_radius_control",
                inputs: &["SymbolHash"],
                outputs: &["SignatureHash", "BodyHash"],
                invariants: &["independent hashing", "sub-millisecond re-analysis"],
                help: "Splits hash into signature (affects dependents) and body (local only) for incremental re-analysis.",
            },
        ];
        Self { entries }
    }

    /// Every capability, in registry order.
    pub fn list(&self) -> (r: &[CapabilityDescriptor])
        ensures
            r@ == self.entries@,
    {
        self.entries.as_slice()
    }

    /// The first capability named `name`, if any.
    pub fn get(&self, name: &str) -> (r: Option<&CapabilityDescriptor>)
        ensures
            match capability_index(self.entries@, name@) {
                Some(i) => r == Some(&self.entries@[i]),
                None => r is None,
            },
    {
        let mut i: usize = 0;
        while i < self.entries.len()
            invariant
                i <= self.entries@.len(),
                forall|j: int| 0 <= j < i ==> (#[trigger] self.entries@[j]).name@ != name@,
            decreases self.entries@.len() - i,
        {
            if str_eq(self.entries[i].name, name) {
                proof { lemma_capability_index(self.entries@, name@, i as int); }
                return Some(&self.entries[i]);
            }
            i = i + 1;
        }
        proof { lemma_capability_index(self.entries@, name@, i as int); }
        None
    }
}

} // verus!
