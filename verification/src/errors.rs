//! Error taxonomy for grid input.
//!
//! Structural and parse errors abort the whole extraction run: no document
//! may be produced from malformed source data.

use vstd::prelude::*;

verus! {

/// Why a spreadsheet grid was rejected.
#[derive(Clone, Copy, Debug, PartialEq, Eq, Structural)]
pub enum InputError {
    /// The grid has too few rows to hold the header row.
    MalformedInput,
    /// The header row has no buyer-marker cell, so no buyer column can be
    /// located.
    MissingMarker,
    /// The cell at this row and column had to be numeric but is not, or
    /// holds a number that cannot be represented.
    InvalidCell { row: usize, col: usize },
}

} // verus!
