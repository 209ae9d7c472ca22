//! Errors that the solver reports instead of aborting.
use vstd::prelude::*;

verus! {

/// What can go wrong when reading input or choosing a guess.
#[derive(Debug, Clone, Copy, PartialEq, Eq, Structural)]
pub enum SolverError {
    /// A clue marker other than `x`, `b`, `g` or `y`, or a clue line shorter than five markers.
    InvalidClueCharacter,
    /// The word list ends in a record with fewer than five letters, or is empty.
    TruncatedWordList,
    /// A word of the list holds a byte that is not a lowercase ASCII letter.
    InvalidWordCharacter,
    /// No candidate is left to choose from.
    ExhaustedCandidatePool,
}

} // verus!
