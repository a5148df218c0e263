use vbap::config::Dimension;
use vbap::geometry::SpeakerGeometry;
use vbap::layout::build_layout;
use vbap::panner::{best_group, min_key, select_group, speaker_slots};

#[test]
fn min_key_of_groups() {
    assert_eq!(min_key(&vec![5]), 5);
    assert_eq!(min_key(&vec![3, -2, 7]), -2);
    assert_eq!(min_key(&vec![4, 4]), 4);
}

#[test]
fn best_group_has_largest_minimum() {
    let keys = vec![vec![-5, 9], vec![1, 2], vec![3, -1]];
    assert_eq!(best_group(&keys), 1);
}

#[test]
fn best_group_ties_go_to_first() {
    let keys = vec![vec![-4, 8], vec![2, 7], vec![9, 2], vec![2, 2]];
    assert_eq!(best_group(&keys), 1);
}

#[test]
fn best_group_when_source_is_outside_every_sector() {
    let keys = vec![vec![-9, 1, 1], vec![-3, -2, 5], vec![-7, 4, 4]];
    assert_eq!(best_group(&keys), 1);
}

fn stereo_geometry() -> SpeakerGeometry {
    SpeakerGeometry {
        elevated: vec![false, false],
        azimuth_key: vec![30, -30],
        pair_usable: vec![vec![false, true], vec![true, false]],
        distance_key: vec![vec![0, 60], vec![60, 0]],
        triple_spread: vec![vec![vec![false; 2]; 2]; 2],
        triple_invertible: vec![vec![vec![false; 2]; 2]; 2],
        arcs_cross: vec![vec![vec![vec![false; 2]; 2]; 2]; 2],
        inside: vec![vec![vec![vec![false; 2]; 2]; 2]; 2],
    }
}

#[test]
fn stereo_source_selects_the_enclosing_pair_and_feeds_both_speakers() {
    let layout = build_layout(Dimension::Auto, &stereo_geometry()).unwrap();
    assert_eq!(layout.groups(), &vec![vec![1, 0], vec![0, 1]]);
    // The front source lies inside the pair 0-1 (both raw gains positive)
    // and outside the wrap-around pair 1-0.
    let keys = vec![vec![-3, 2], vec![4, 4]];
    let best = select_group(&layout, &keys);
    assert_eq!(best, 1);
    assert_eq!(speaker_slots(&layout, best), vec![Some(0), Some(1)]);
    assert_eq!(speaker_slots(&layout, 0), vec![Some(1), Some(0)]);
}

#[test]
fn slots_leave_other_speakers_silent() {
    let mut g = SpeakerGeometry {
        elevated: vec![false; 4],
        azimuth_key: vec![0, 90, 180, -90],
        pair_usable: vec![vec![true; 4]; 4],
        distance_key: vec![vec![1; 4]; 4],
        triple_spread: vec![vec![vec![false; 4]; 4]; 4],
        triple_invertible: vec![vec![vec![false; 4]; 4]; 4],
        arcs_cross: vec![vec![vec![vec![false; 4]; 4]; 4]; 4],
        inside: vec![vec![vec![vec![false; 4]; 4]; 4]; 4],
    };
    g.pair_usable[3][0] = false;
    let layout = build_layout(Dimension::Force2D, &g).unwrap();
    // Ring by azimuth: 3(-90), 0(0), 1(90), 2(180); the pair 3-0 is unusable.
    assert_eq!(layout.groups(), &vec![vec![0, 1], vec![1, 2], vec![2, 3]]);
    let slots = speaker_slots(&layout, 2);
    assert_eq!(slots, vec![None, None, Some(0), Some(1)]);
    assert_eq!(slots.iter().filter(|s| s.is_some()).count(), 2);
}
