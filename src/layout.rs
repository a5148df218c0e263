//! The validated result of topology selection.
use vstd::prelude::*;
use crate::config::{group_size, min_speakers, resolve_mode, resolved_mode, Dimension, PanningMode};
use crate::error::VBAPError;
use crate::geometry::SpeakerGeometry;
use crate::topology::{
    choose_speaker_pairs, choose_speaker_triplets, groups_view, groups_well_formed,
    is_pair_selection, is_triplet_selection,
};

verus! {

/// The selection that a mode makes from the geometry.
pub open spec fn is_selection(g: SpeakerGeometry, mode: PanningMode, groups: Seq<Seq<usize>>) -> bool {
    match mode {
        PanningMode::TwoD => is_pair_selection(g, groups),
        PanningMode::ThreeD => is_triplet_selection(g, groups),
    }
}

/// What a layout holds.
pub struct LayoutView {
    pub mode: PanningMode,
    pub num_speakers: nat,
    pub groups: Seq<Seq<usize>>,
}

/// A resolved panning mode and the non-empty list of speaker groups
/// (pairs in 2D, triplets in 3D) that tile the listening space.
#[derive(Clone, Debug)]
pub struct SpeakerLayout {
    mode: PanningMode,
    num_speakers: usize,
    groups: Vec<Vec<usize>>,
}

impl View for SpeakerLayout {
    type V = LayoutView;

    closed spec fn view(&self) -> LayoutView {
        LayoutView {
            mode: self.mode,
            num_speakers: self.num_speakers as nat,
            groups: groups_view(self.groups@),
        }
    }
}

impl SpeakerLayout {
    /// There is at least one group, and each group holds as many distinct
    /// speakers as the mode asks, each a valid speaker index.
    pub open spec fn wf(&self) -> bool {
        &&& self@.groups.len() > 0
        &&& groups_well_formed(self@.groups, group_size(self@.mode), self@.num_speakers)
    }

    /// The resolved panning mode.
    pub fn mode(&self) -> (r: PanningMode)
        ensures
            r == self@.mode,
    {
        self.mode
    }

    /// The number of speakers.
    pub fn num_speakers(&self) -> (r: usize)
        ensures
            r == self@.num_speakers,
    {
        self.num_speakers
    }

    /// The speaker groups, each a list of speaker indices.
    pub fn groups(&self) -> (r: &Vec<Vec<usize>>)
        ensures
            groups_view(r@) == self@.groups,
    {
        &self.groups
    }
}

/// Builds the layout of a speaker set: resolves the mode (3D when forced, or
/// when automatic and some speaker is elevated; else 2D), checks that there
/// are enough speakers for it, and selects the groups. Fails with
/// `InsufficientSpeakers` below 2 speakers in 2D or 3 in 3D, and with
/// `InvalidConfiguration` when no group survives selection.
pub fn build_layout(dimension: Dimension, g: &SpeakerGeometry) -> (r: Result<SpeakerLayout, VBAPError>)
    requires
        g.wf(),
    ensures
        ({
            let mode = resolved_mode(dimension, g.any_elevated());
            match r {
                Ok(layout) => {
                    &&& g.num() >= group_size(mode)
                    &&& layout@.mode == mode
                    &&& layout@.num_speakers == g.num()
                    &&& is_selection(*g, mode, layout@.groups)
                    &&& layout.wf()
                },
                Err(VBAPError::InsufficientSpeakers { provided, required }) => {
                    &&& g.num() < group_size(mode)
                    &&& provided == g.num()
                    &&& required == group_size(mode)
                },
                Err(VBAPError::InvalidConfiguration(_)) => {
                    &&& g.num() >= group_size(mode)
                    &&& is_selection(*g, mode, seq![])
                },
            }
        }),
{
    let n = g.elevated.len();
    let mode = resolve_mode(dimension, g.has_elevation());
    let required = min_speakers(mode);
    if n < required {
        return Err(VBAPError::InsufficientSpeakers { provided: n, required });
    }
    let groups = match mode {
        PanningMode::TwoD => choose_speaker_pairs(g),
        PanningMode::ThreeD => {
            let triplets = choose_speaker_triplets(g);
            proof {
                let gv = groups_view(triplets@);
                assert forall|t: int| 0 <= t < gv.len() implies {
                    &&& (#[trigger] gv[t]).len() == 3
                    &&& forall|x: int| 0 <= x < 3 ==> gv[t][x] < n
                    &&& forall|x: int, y: int| 0 <= x < y < 3 ==> gv[t][x] != gv[t][y]
                } by {
                    assert(gv[t].len() == 3);
                }
            }
            triplets
        },
    };
    if groups.len() == 0 {
        proof {
            assert(groups_view(groups@) =~= seq![]);
        }
        return Err(VBAPError::InvalidConfiguration("no valid speaker pairs/triplets could be formed".to_string()));
    }
    Ok(SpeakerLayout { mode, num_speakers: n, groups })
}

} // verus!
