//! Errors reported at the library's boundary, before any search runs.

use vstd::prelude::*;

verus! {

/// A boundary error: either the textual cube state was malformed, or the
/// requested move-count window was empty. No error originates inside the
/// move algebra or the search itself.
#[derive(Clone, Copy, PartialEq, Eq, Structural, Debug)]
pub enum SolveError {
    /// The input string has the wrong length or a character outside the
    /// six-symbol face-color alphabet.
    MalformedState,
    /// The requested bounds have `min_moves > max_moves`.
    InvalidBounds,
}

} // verus!
