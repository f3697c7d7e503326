//! The unified representation of a program's structure: languages,
//! visibilities, and the nodes and edges of the graph every parser
//! produces.

use vstd::prelude::*;
use crate::text::str_eq;
use crate::types::edge::EdgeType;
use crate::types::intent::IntentOverlay;
use crate::types::symbol::SymbolKind;
use crate::types::symbol_id::SymbolId;

verus! {

/// A language the engine extracts structure from.
#[derive(Debug, Clone, Copy, PartialEq, Eq, Hash, Structural)]
pub enum Language {
    Rust,
    Python,
    Ruby,
    JavaScript,
    TypeScript,
    Tsx,
}

/// The language of a file extension.
pub open spec fn language_of_extension(ext: Seq<char>) -> Option<Language> {
    if ext == "rs"@ {
        Some(Language::Rust)
    } else if ext == "py"@ {
        Some(Language::Python)
    } else if ext == "rb"@ {
        Some(Language::Ruby)
    } else if ext == "js"@ || ext == "jsx"@ {
        Some(Language::JavaScript)
    } else if ext == "ts"@ {
        Some(Language::TypeScript)
    } else if ext == "tsx"@ {
        Some(Language::Tsx)
    } else {
        None
    }
}

/// The name of a language.
pub open spec fn language_name(l: Language) -> Seq<char> {
    match l {
        Language::Rust => "rust"@,
        Language::Python => "python"@,
        Language::Ruby => "ruby"@,
        Language::JavaScript => "javascript"@,
        Language::TypeScript => "typescript"@,
        Language::Tsx => "tsx"@,
    }
}

impl Language {
    /// The language of a file extension, if it is one of them.
    pub fn from_extension(ext: &str) -> (r: Option<Self>)
        ensures
            r == language_of_extension(ext@),
    {
        if str_eq(ext, "rs") {
            Some(Language::Rust)
        } else if str_eq(ext, "py") {
            Some(Language::Python)
        } else if str_eq(ext, "rb") {
            Some(Language::Ruby)
        } else if str_eq(ext, "js") || str_eq(ext, "jsx") {
            Some(Language::JavaScript)
        } else if str_eq(ext, "ts") {
            Some(Language::TypeScript)
        } else if str_eq(ext, "tsx") {
            Some(Language::Tsx)
        } else {
            None
        }
    }

    /// The name of the language.
    pub fn as_str(&self) -> (r: &'static str)
        ensures
            r@ == language_name(*self),
    {
        match self {
            Language::Rust => "rust",
            Language::Python => "python",
            Language::Ruby => "ruby",
            Language::JavaScript => "javascript",
            Language::TypeScript => "typescript",
            Language::Tsx => "tsx",
        }
    }
}

/// The visibility of a symbol.
#[derive(Debug, Clone, Copy, PartialEq, Eq, Hash, Structural)]
pub enum Visibility {
    Public,
    Private,
    Internal,
    Exported,
}

/// An edge of the unified graph: the symbol it leads to and its kind.
#[derive(Debug, Clone, PartialEq)]
pub struct UnifiedEdge {
    pub target: SymbolId,
    pub kind: EdgeType,
}

/// A node of the unified graph: its identity, name, language, kind,
/// visibility, outgoing edges, where it stands, its hashes and the intent
/// attached to it, if any.
#[derive(Debug, Clone)]
pub struct UnifiedNode {
    pub id: SymbolId,
    pub fq_name: String,
    pub language: Language,
    pub kind: SymbolKind,
    pub visibility: Visibility,
    pub dependencies: Vec<UnifiedEdge>,
    pub file: String,
    pub line: u32,
    pub structural_hash: String,
    pub normalized_hash: String,
    pub intent: Option<IntentOverlay>,
}

/// The graph of one extraction pass over one language.
#[derive(Debug, Clone)]
pub struct UnifiedGraph {
    pub nodes: Vec<UnifiedNode>,
    pub source_language: Language,
}

} // verus!
