//! Locations and excerpts of source text.

use vstd::prelude::*;

verus! {

/// A position within a named source file.
#[derive(Eq, PartialEq, Clone, Debug)]
pub struct FilePosition {
    pub file_path: String,
    pub index: usize,
    pub line: usize,
    pub column: usize,
}

/// A fragment of source text together with where it came from.
#[derive(Eq, PartialEq, Clone, Debug)]
pub struct SourceSnippit {
    pub snippit: String,
    pub position: FilePosition,
}

} // verus!
