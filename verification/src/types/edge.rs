//! Structural edge types exchanged with the graph consumer.

use vstd::prelude::*;

verus! {

/// The kind of a structural edge.
#[derive(Debug, Clone, Copy, PartialEq, Eq, Structural)]
pub enum EdgeType {
    /// `import a.b`.
    Imports,
    /// `from a.b import c`.
    FromImport,
    /// Class inheritance.
    Inherits,
    /// A call whose target is not resolved.
    CallsUnresolved,
    /// A call resolved to its target.
    CallsResolved,
}

/// The wire name of an edge kind.
pub open spec fn edge_type_name(e: EdgeType) -> Seq<char> {
    match e {
        EdgeType::Imports => "IMPORTS"@,
        EdgeType::FromImport => "FROM_IMPORT"@,
        EdgeType::Inherits => "INHERITS"@,
        EdgeType::CallsUnresolved => "CALLS_UNRESOLVED"@,
        EdgeType::CallsResolved => "CALLS_RESOLVED"@,
    }
}

impl EdgeType {
    /// The wire name of the edge kind.
    pub fn as_str(&self) -> (r: &'static str)
        ensures
            r@ == edge_type_name(*self),
    {
        match self {
            EdgeType::Imports => "IMPORTS",
            EdgeType::FromImport => "FROM_IMPORT",
            EdgeType::Inherits => "INHERITS",
            EdgeType::CallsUnresolved => "CALLS_UNRESOLVED",
            EdgeType::CallsResolved => "CALLS_RESOLVED",
        }
    }
}

} // verus!
