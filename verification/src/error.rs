//! The ways in which a CUE sheet can be wrong.

use vstd::prelude::*;

verus! {

/// Why a CUE sheet, or a piece of its text, was rejected.
#[derive(Debug, Clone, Copy, PartialEq, Eq, Structural)]
pub enum CueError {
    /// A line, a timestamp or a number is malformed.
    Format,
    /// Something the sheet must contain is absent or out of place.
    MissingData,
    /// A track type is not one of the recognised ones.
    Type,
}

} // verus!
