//! Errors of configuration building.
use vstd::prelude::*;

verus! {

/// Why a speaker configuration could not be built.
#[derive(Clone, Debug, PartialEq)]
pub enum VBAPError {
    /// Fewer speakers than the resolved mode needs (2 in 2D, 3 in 3D).
    InsufficientSpeakers {
        /// Number of speakers provided.
        provided: usize,
        /// Fewest speakers that the mode works with.
        required: usize,
    },
    /// No speaker pair or triplet survived selection.
    InvalidConfiguration(String),
}

} // verus!
