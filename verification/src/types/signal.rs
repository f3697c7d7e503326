//! Where a signal comes from.

use vstd::prelude::*;

verus! {

/// A span of a source file.
#[derive(Debug, Clone)]
pub struct SourceLocation {
    pub file: String,
    /// One-based.
    pub start_line: u32,
    /// Zero-based.
    pub start_col: u32,
    /// One-based.
    pub end_line: u32,
    /// Zero-based.
    pub end_col: u32,
    pub byte_start: usize,
    pub byte_end: usize,
}

/// The parser that produced a signal.
#[derive(Debug, Clone)]
pub struct Origin {
    pub parser: String,
    pub version: String,
}

} // verus!
