//! Vector Base Amplitude Panning: the combinatorial core.
//!
//! Speaker directions live on the unit sphere. The floating-point geometry
//! (trigonometry, cross products, determinants) is evaluated by the caller and
//! handed to this library as plain facts: an ordering key per angle and one
//! boolean per geometric predicate. From those facts the library resolves the
//! panning mode, validates the speaker count, selects the speaker pairs or
//! triplets that tile the listening space, and picks the group that encloses a
//! source direction best.
use vstd::prelude::*;

pub mod config;
pub mod error;
pub mod geometry;
pub mod layout;
pub mod order;
pub mod panner;
pub mod presets;
pub mod topology;
