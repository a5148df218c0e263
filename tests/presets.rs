use vbap::presets::{
    ATMOS_5_1_4, ATMOS_7_1_4, ATMOS_9_1_6, AURO_9_1, HEXAGON, LCR, OCTAGON, QUAD, STEREO,
    STEREO_WIDE, SURROUND_5_0, SURROUND_5_1, SURROUND_7_0, SURROUND_7_1,
};

#[test]
fn test_preset_lengths() {
    assert_eq!(STEREO.len(), 2);
    assert_eq!(LCR.len(), 3);
    assert_eq!(QUAD.len(), 4);
    assert_eq!(SURROUND_5_0.len(), 5);
    assert_eq!(SURROUND_7_0.len(), 7);
    assert_eq!(ATMOS_7_1_4.len(), 11);
}

#[test]
fn test_atmos_has_elevation() {
    let has_elevated = ATMOS_7_1_4.iter().any(|(_, ele)| *ele != 0);
    assert!(has_elevated);
}

#[test]
fn presets_other_lengths_and_aliases() {
    assert_eq!(STEREO_WIDE, [(60, 0), (-60, 0)]);
    assert_eq!(SURROUND_5_1, SURROUND_5_0);
    assert_eq!(SURROUND_7_1, SURROUND_7_0);
    assert_eq!(ATMOS_5_1_4.len(), 9);
    assert_eq!(ATMOS_9_1_6.len(), 15);
    assert_eq!(AURO_9_1.len(), 9);
    assert_eq!(HEXAGON.len(), 6);
    assert_eq!(OCTAGON.len(), 8);
    assert_eq!(ATMOS_7_1_4.iter().filter(|(_, ele)| *ele != 0).count(), 4);
    assert!(HEXAGON.iter().chain(OCTAGON.iter()).all(|(_, ele)| *ele == 0));
}
