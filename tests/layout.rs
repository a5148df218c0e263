use vbap::config::{resolve_mode, Dimension, PanningMode};
use vbap::error::VBAPError;
use vbap::geometry::SpeakerGeometry;
use vbap::layout::{build_layout, SpeakerLayout};
use vbap::presets::{ATMOS_7_1_4, STEREO, SURROUND_5_1};
use vbap::topology::{choose_speaker_pairs, choose_speaker_triplets};

fn empty_geometry(n: usize) -> SpeakerGeometry {
    SpeakerGeometry {
        elevated: vec![false; n],
        azimuth_key: vec![0; n],
        pair_usable: vec![vec![false; n]; n],
        distance_key: vec![vec![0; n]; n],
        triple_spread: vec![vec![vec![false; n]; n]; n],
        triple_invertible: vec![vec![vec![false; n]; n]; n],
        arcs_cross: vec![vec![vec![vec![false; n]; n]; n]; n],
        inside: vec![vec![vec![vec![false; n]; n]; n]; n],
    }
}

/// Horizontal separation of two whole-degree azimuths, in degrees.
fn separation(a: i32, b: i32) -> i32 {
    let d = (a - b).rem_euclid(360);
    d.min(360 - d)
}

/// Facts of a layout in whole degrees: azimuth order, elevation, pairs that
/// are 5 to 175 degrees apart; every triple spread and invertible, no arcs
/// crossing, no speaker inside another triangle.
fn degree_geometry(speakers: &[(i32, i32)]) -> SpeakerGeometry {
    let n = speakers.len();
    let mut g = empty_geometry(n);
    for (s, &(azi, ele)) in speakers.iter().enumerate() {
        g.elevated[s] = ele != 0;
        g.azimuth_key[s] = azi as i64;
    }
    for a in 0..n {
        for b in 0..n {
            let sep = separation(speakers[a].0, speakers[b].0);
            g.pair_usable[a][b] = a != b && (5..=175).contains(&sep);
            g.distance_key[a][b] = sep as i64;
            for c in 0..n {
                g.triple_spread[a][b][c] = true;
                g.triple_invertible[a][b][c] = true;
            }
        }
    }
    g
}

fn ok(r: Result<SpeakerLayout, VBAPError>) -> SpeakerLayout {
    match r {
        Ok(layout) => layout,
        Err(e) => panic!("layout failed: {:?}", e),
    }
}

#[test]
fn test_build_stereo() {
    let config = ok(build_layout(Dimension::Auto, &degree_geometry(&STEREO)));
    assert_eq!(config.num_speakers(), 2);
    assert_eq!(config.mode(), PanningMode::TwoD);
    assert!(!config.groups().is_empty());
}

#[test]
fn test_build_surround_5_1() {
    let config = ok(build_layout(Dimension::Auto, &degree_geometry(&SURROUND_5_1)));
    assert_eq!(config.num_speakers(), 5);
    assert_eq!(config.mode(), PanningMode::TwoD);
}

#[test]
fn test_build_atmos() {
    let config = ok(build_layout(Dimension::Auto, &degree_geometry(&ATMOS_7_1_4)));
    assert_eq!(config.num_speakers(), 11);
    assert_eq!(config.mode(), PanningMode::ThreeD);
}

#[test]
fn test_force_2d() {
    let config = ok(build_layout(Dimension::Force2D, &degree_geometry(&ATMOS_7_1_4)));
    assert_eq!(config.mode(), PanningMode::TwoD);
}

#[test]
fn test_insufficient_speakers() {
    let result = build_layout(Dimension::Auto, &degree_geometry(&[(0, 0)]));
    assert!(matches!(
        result,
        Err(VBAPError::InsufficientSpeakers { provided: 1, .. })
    ));
}

#[test]
fn test_custom_speakers() {
    let config = ok(build_layout(
        Dimension::Auto,
        &degree_geometry(&[(30, 0), (-30, 0), (0, 0)]),
    ));
    assert_eq!(config.num_speakers(), 3);
}

#[test]
fn one_speaker_auto_needs_two() {
    let result = build_layout(Dimension::Auto, &degree_geometry(&[(0, 0)]));
    assert_eq!(
        result.err(),
        Some(VBAPError::InsufficientSpeakers {
            provided: 1,
            required: 2
        })
    );
}

#[test]
fn two_speakers_forced_3d_need_three() {
    let result = build_layout(Dimension::Force3D, &degree_geometry(&STEREO));
    assert_eq!(
        result.err(),
        Some(VBAPError::InsufficientSpeakers {
            provided: 2,
            required: 3
        })
    );
}

#[test]
fn no_speakers_is_insufficient() {
    let result = build_layout(Dimension::Force2D, &empty_geometry(0));
    assert_eq!(
        result.err(),
        Some(VBAPError::InsufficientSpeakers {
            provided: 0,
            required: 2
        })
    );
}

#[test]
fn atmos_auto_is_3d_and_forced_2d_uses_pairs() {
    let g = degree_geometry(&ATMOS_7_1_4);
    let auto = ok(build_layout(Dimension::Auto, &g));
    assert_eq!(auto.mode(), PanningMode::ThreeD);
    assert!(auto.groups().iter().all(|t| t.len() == 3));
    let flat = ok(build_layout(Dimension::Force2D, &g));
    assert_eq!(flat.mode(), PanningMode::TwoD);
    assert_eq!(flat.groups().len(), 11);
    assert!(flat.groups().iter().all(|t| t.len() == 2));
}

#[test]
fn mode_resolution() {
    assert_eq!(resolve_mode(Dimension::Auto, false), PanningMode::TwoD);
    assert_eq!(resolve_mode(Dimension::Auto, true), PanningMode::ThreeD);
    assert_eq!(resolve_mode(Dimension::Force2D, true), PanningMode::TwoD);
    assert_eq!(resolve_mode(Dimension::Force3D, false), PanningMode::ThreeD);
    assert_eq!(Dimension::default(), Dimension::Auto);
}

#[test]
fn pairs_follow_ascending_azimuth_round_the_ring() {
    let g = degree_geometry(&SURROUND_5_1);
    let pairs = choose_speaker_pairs(&g);
    // Sorted by azimuth: Rs(-110), R(-30), C(0), L(30), Ls(110).
    assert_eq!(
        pairs,
        vec![vec![4, 1], vec![1, 2], vec![2, 0], vec![0, 3], vec![3, 4]]
    );
}

#[test]
fn pairs_skip_unusable_and_keep_input_order_on_ties() {
    // Speakers 0 and 2 share an azimuth: the earlier one comes first.
    let speakers = [(10, 0), (100, 0), (10, 0), (-120, 0)];
    let g = degree_geometry(&speakers);
    let pairs = choose_speaker_pairs(&g);
    // Order: 3(-120), 0(10), 2(10), 1(100); the pair 0-2 is 0 degrees apart.
    assert_eq!(pairs, vec![vec![3, 0], vec![2, 1], vec![1, 3]]);
}

#[test]
fn stereo_pairs_both_ways() {
    let pairs = choose_speaker_pairs(&degree_geometry(&STEREO));
    assert_eq!(pairs, vec![vec![1, 0], vec![0, 1]]);
}

#[test]
fn no_usable_pair_is_invalid_configuration() {
    // Two speakers at the same azimuth can not form a pair.
    let result = build_layout(Dimension::Auto, &degree_geometry(&[(20, 0), (20, 0)]));
    assert!(matches!(result, Err(VBAPError::InvalidConfiguration(_))));
}

fn open_tetrahedron() -> SpeakerGeometry {
    let mut g = degree_geometry(&[(0, 0), (120, 0), (-120, 0), (0, 90)]);
    for a in 0..4 {
        for b in 0..4 {
            g.distance_key[a][b] = 10;
        }
    }
    g
}

#[test]
fn triplets_in_lexicographic_order() {
    let t = choose_speaker_triplets(&open_tetrahedron());
    assert_eq!(
        t,
        vec![vec![0, 1, 2], vec![0, 1, 3], vec![0, 2, 3], vec![1, 2, 3]]
    );
}

#[test]
fn crossing_cuts_only_the_longer_edge() {
    let mut g = open_tetrahedron();
    g.arcs_cross[1][3][0][2] = true;
    g.arcs_cross[0][2][1][3] = true;
    g.distance_key[0][2] = 20;
    g.distance_key[1][3] = 5;
    let t = choose_speaker_triplets(&g);
    assert_eq!(t, vec![vec![0, 1, 3], vec![1, 2, 3]]);
}

#[test]
fn crossing_of_equal_edges_cuts_nothing() {
    let mut g = open_tetrahedron();
    g.arcs_cross[1][3][0][2] = true;
    g.arcs_cross[0][2][1][3] = true;
    let t = choose_speaker_triplets(&g);
    assert_eq!(t.len(), 4);
}

#[test]
fn crossing_with_shared_speaker_cuts_nothing() {
    let mut g = open_tetrahedron();
    g.arcs_cross[0][1][0][2] = true;
    g.distance_key[0][2] = 20;
    let t = choose_speaker_triplets(&g);
    assert_eq!(t.len(), 4);
}

#[test]
fn interior_speaker_and_singular_base_drop_triples() {
    let mut g = open_tetrahedron();
    g.inside[0][1][2][3] = true;
    g.inside[0][1][3][1] = true;
    g.triple_invertible[1][2][3] = false;
    g.triple_spread[0][2][3] = false;
    let t = choose_speaker_triplets(&g);
    assert_eq!(t, vec![vec![0, 1, 3]]);
}

#[test]
fn great_circle_speakers_forced_3d_are_invalid() {
    // Five speakers on the horizon: every triple's base is singular.
    let mut g = degree_geometry(&[(0, 0), (72, 0), (144, 0), (-144, 0), (-72, 0)]);
    for a in 0..5 {
        for b in 0..5 {
            for c in 0..5 {
                g.triple_invertible[a][b][c] = false;
            }
        }
    }
    let result = build_layout(Dimension::Force3D, &g);
    assert!(matches!(result, Err(VBAPError::InvalidConfiguration(_))));
}

#[test]
fn a_cut_edge_still_cuts_longer_edges() {
    // Edges 0-1, 2-3, 4-5 grow longer; 0-1 crosses 2-3 and 2-3 crosses 4-5.
    let mut g = degree_geometry(&[(0, 0), (60, 0), (120, 0), (180, 0), (-120, 0), (-60, 0)]);
    for a in 0..6 {
        for b in 0..6 {
            g.distance_key[a][b] = 50;
        }
    }
    g.distance_key[0][1] = 10;
    g.distance_key[2][3] = 20;
    g.distance_key[4][5] = 30;
    g.arcs_cross[0][1][2][3] = true;
    g.arcs_cross[2][3][4][5] = true;
    let t = choose_speaker_triplets(&g);
    assert_eq!(t.len(), 12);
    assert!(t.iter().all(|x| !(x.contains(&2) && x.contains(&3))));
    assert!(t.iter().all(|x| !(x.contains(&4) && x.contains(&5))));
    assert!(t.contains(&vec![0, 1, 2]));
}
