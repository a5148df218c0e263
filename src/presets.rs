//! Standard speaker layouts, as (azimuth, elevation) in whole degrees.
//!
//! Azimuth 0 is front centre, positive azimuth is to the left, negative to the
//! right; elevation 0 is the horizontal plane, positive elevation is above.
use vstd::prelude::*;

verus! {

/// Stereo: left and right at 30 degrees.
pub const STEREO: [(i32, i32); 2] = [(30, 0), (-30, 0)];

/// Wide stereo: left and right at 60 degrees.
pub const STEREO_WIDE: [(i32, i32); 2] = [(60, 0), (-60, 0)];

/// Left, centre, right.
pub const LCR: [(i32, i32); 3] = [(30, 0), (0, 0), (-30, 0)];

/// Quadraphonic (4.0): front left, front right, rear left, rear right.
pub const QUAD: [(i32, i32); 4] = [(45, 0), (-45, 0), (135, 0), (-135, 0)];

/// 5.0 surround (ITU-R BS.775): L, R, C, Ls, Rs.
pub const SURROUND_5_0: [(i32, i32); 5] = [(30, 0), (-30, 0), (0, 0), (110, 0), (-110, 0)];

/// 5.1 surround: the 5.0 layout; the LFE channel is not spatialised.
pub const SURROUND_5_1: [(i32, i32); 5] = SURROUND_5_0;

/// 7.0 surround: L, R, C, side surrounds, rear surrounds.
pub const SURROUND_7_0: [(i32, i32); 7] = [
    (30, 0),
    (-30, 0),
    (0, 0),
    (90, 0),
    (-90, 0),
    (150, 0),
    (-150, 0),
];

/// 7.1 surround: the 7.0 layout; the LFE channel is not spatialised.
pub const SURROUND_7_1: [(i32, i32); 7] = SURROUND_7_0;

/// Dolby Atmos 7.1.4: the 7.0 base layer and four overhead speakers.
pub const ATMOS_7_1_4: [(i32, i32); 11] = [
    (30, 0),
    (-30, 0),
    (0, 0),
    (90, 0),
    (-90, 0),
    (150, 0),
    (-150, 0),
    (45, 45),
    (-45, 45),
    (135, 45),
    (-135, 45),
];

/// Dolby Atmos 5.1.4: the 5.0 base layer and four overhead speakers.
pub const ATMOS_5_1_4: [(i32, i32); 9] = [
    (30, 0),
    (-30, 0),
    (0, 0),
    (110, 0),
    (-110, 0),
    (45, 45),
    (-45, 45),
    (135, 45),
    (-135, 45),
];

/// Dolby Atmos 9.1.6: a 7.0 base with front wides, and six overhead speakers.
pub const ATMOS_9_1_6: [(i32, i32); 15] = [
    (30, 0),
    (-30, 0),
    (0, 0),
    (60, 0),
    (-60, 0),
    (90, 0),
    (-90, 0),
    (150, 0),
    (-150, 0),
    (30, 45),
    (-30, 45),
    (90, 45),
    (-90, 45),
    (150, 45),
    (-150, 45),
];

/// Auro-3D 9.1: the 5.0 base layer and four height speakers at 30 degrees.
pub const AURO_9_1: [(i32, i32); 9] = [
    (30, 0),
    (-30, 0),
    (0, 0),
    (110, 0),
    (-110, 0),
    (30, 30),
    (-30, 30),
    (110, 30),
    (-110, 30),
];

/// Six speakers in a horizontal ring.
pub const HEXAGON: [(i32, i32); 6] = [(0, 0), (60, 0), (120, 0), (180, 0), (-120, 0), (-60, 0)];

/// Eight speakers in a horizontal ring.
pub const OCTAGON: [(i32, i32); 8] = [
    (0, 0),
    (45, 0),
    (90, 0),
    (135, 0),
    (180, 0),
    (-135, 0),
    (-90, 0),
    (-45, 0),
];

} // verus!
