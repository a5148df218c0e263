//! Panning modes and their resolution.
use vstd::prelude::*;

verus! {

/// Panning mode for gain computation.
#[derive(Clone, Copy, Debug, PartialEq, Eq, Structural)]
pub enum PanningMode {
    /// Panning over speaker pairs in the horizontal plane.
    TwoD,
    /// Panning over speaker triplets on the full sphere.
    ThreeD,
}

/// Dimension requested by the caller.
#[derive(Clone, Copy, Debug, PartialEq, Eq, Structural)]
pub enum Dimension {
    /// Three dimensions when any speaker is elevated, else two.
    Auto,
    /// Two dimensions, whatever the elevations.
    Force2D,
    /// Three dimensions, whatever the elevations.
    Force3D,
}

impl Default for Dimension {
    fn default() -> (r: Dimension)
        ensures
            r == Dimension::Auto,
    {
        Dimension::Auto
    }
}

/// The mode that a request resolves to.
pub open spec fn resolved_mode(dimension: Dimension, any_elevated: bool) -> PanningMode {
    match dimension {
        Dimension::Auto => if any_elevated {
            PanningMode::ThreeD
        } else {
            PanningMode::TwoD
        },
        Dimension::Force2D => PanningMode::TwoD,
        Dimension::Force3D => PanningMode::ThreeD,
    }
}

/// The number of speakers in one group of a mode, which is also the fewest
/// speakers that the mode can work with.
pub open spec fn group_size(mode: PanningMode) -> nat {
    match mode {
        PanningMode::TwoD => 2,
        PanningMode::ThreeD => 3,
    }
}

/// Resolves the requested dimension against whether any speaker is elevated.
pub fn resolve_mode(dimension: Dimension, any_elevated: bool) -> (r: PanningMode)
    ensures
        r == resolved_mode(dimension, any_elevated),
{
    match dimension {
        Dimension::Auto => if any_elevated {
            PanningMode::ThreeD
        } else {
            PanningMode::TwoD
        },
        Dimension::Force2D => PanningMode::TwoD,
        Dimension::Force3D => PanningMode::ThreeD,
    }
}

/// The fewest speakers that a mode needs.
pub fn min_speakers(mode: PanningMode) -> (r: usize)
    ensures
        r == group_size(mode),
{
    match mode {
        PanningMode::TwoD => 2,
        PanningMode::ThreeD => 3,
    }
}

} // verus!
