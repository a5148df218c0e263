//! Choice of the speaker group that pans a source.
//!
//! For each group the caller multiplies the source direction by the group's
//! inverse base, which gives one raw gain per member speaker, and hands the
//! order-preserving keys of those gains to this module.
use vstd::prelude::*;
use crate::config::group_size;
use crate::layout::SpeakerLayout;
use crate::topology::groups_view;
use vstd::set_lib::lemma_len_subset;

verus! {

/// The smallest element of a non-empty sequence.
pub open spec fn min_of(s: Seq<i64>) -> i64
    decreases s.len(),
{
    if s.len() <= 1 {
        s[0]
    } else {
        let m = min_of(s.drop_last());
        if s.last() < m {
            s.last()
        } else {
            m
        }
    }
}

/// The smallest key of a group's raw gains.
pub fn min_key(s: &Vec<i64>) -> (r: i64)
    requires
        s.len() > 0,
    ensures
        r == min_of(s@),
{
    let mut m = s[0];
    let mut i: usize = 1;
    while i < s.len()
        invariant
            s.len() > 0,
            1 <= i <= s.len(),
            m == min_of(s@.subrange(0, i as int)),
        decreases s.len() - i,
    {
        proof {
            assert(s@.subrange(0, i as int + 1).drop_last() =~= s@.subrange(0, i as int));
        }
        if s[i] < m {
            m = s[i];
        }
        i = i + 1;
    }
    assert(s@.subrange(0, s.len() as int) =~= s@);
    m
}

/// `best` is the group whose smallest raw gain is largest, the first such
/// group where several tie.
pub open spec fn is_best_group(gain_keys: Seq<Vec<i64>>, best: int) -> bool {
    &&& 0 <= best < gain_keys.len()
    &&& forall|t: int| 0 <= t < gain_keys.len() ==> min_of((#[trigger] gain_keys[t])@) <= min_of(gain_keys[best]@)
    &&& forall|t: int| 0 <= t < best ==> min_of((#[trigger] gain_keys[t])@) < min_of(gain_keys[best]@)
}

/// Chooses the group that encloses the source best: the one whose smallest
/// raw gain is largest, ties going to the first group.
pub fn best_group(gain_keys: &Vec<Vec<i64>>) -> (r: usize)
    requires
        gain_keys.len() > 0,
        forall|t: int| 0 <= t < gain_keys.len() ==> (#[trigger] gain_keys[t]).len() > 0,
    ensures
        is_best_group(gain_keys@, r as int),
{
    let mut best: usize = 0;
    let mut best_min = min_key(&gain_keys[0]);
    let mut t: usize = 1;
    while t < gain_keys.len()
        invariant
            gain_keys.len() > 0,
            forall|u: int| 0 <= u < gain_keys.len() ==> (#[trigger] gain_keys[u]).len() > 0,
            1 <= t <= gain_keys.len(),
            best < t,
            best_min == min_of(gain_keys[best as int]@),
            forall|u: int| 0 <= u < t ==> min_of((#[trigger] gain_keys[u])@) <= best_min,
            forall|u: int| 0 <= u < best ==> min_of((#[trigger] gain_keys[u])@) < best_min,
        decreases gain_keys.len() - t,
    {
        let m = min_key(&gain_keys[t]);
        if m > best_min {
            best = t;
            best_min = m;
        }
        t = t + 1;
    }
    best
}

/// Chooses the group of a layout that pans the source, from the keys of each
/// group's raw gains. The chosen group has 2 speakers in 2D and 3 in 3D; all
/// other speakers stay silent.
pub fn select_group(layout: &SpeakerLayout, gain_keys: &Vec<Vec<i64>>) -> (r: usize)
    requires
        layout.wf(),
        gain_keys.len() == layout@.groups.len(),
        forall|t: int| 0 <= t < gain_keys.len() ==> (#[trigger] gain_keys[t]).len() == layout@.groups[t].len(),
    ensures
        is_best_group(gain_keys@, r as int),
        r < layout@.groups.len(),
        layout@.groups[r as int].len() == group_size(layout@.mode),
{
    best_group(gain_keys)
}

/// `slots[s]` names the member of `group` that feeds speaker `s`, or is
/// `None` when speaker `s` is not a member and stays silent.
pub open spec fn is_slot_map(group: Seq<usize>, n: nat, slots: Seq<Option<usize>>) -> bool {
    &&& slots.len() == n
    &&& forall|s: int|
        0 <= s < n ==> match #[trigger] slots[s] {
            Some(x) => x < group.len() && group[x as int] == s,
            None => forall|x: int| 0 <= x < group.len() ==> group[x] != s,
        }
}

/// For each speaker of the layout, the member of group `group` that feeds it,
/// if any: where each raw gain of the chosen group is written in the output.
pub fn speaker_slots(layout: &SpeakerLayout, group: usize) -> (r: Vec<Option<usize>>)
    requires
        layout.wf(),
        group < layout@.groups.len(),
    ensures
        is_slot_map(layout@.groups[group as int], layout@.num_speakers, r@),
{
    let groups = layout.groups();
    let members = &groups[group];
    assert(members@ == layout@.groups[group as int]) by {
        assert(groups_view(groups@)[group as int] == groups@[group as int]@);
    }
    let n = layout.num_speakers();
    let mut slots: Vec<Option<usize>> = Vec::new();
    let mut s: usize = 0;
    while s < n
        invariant
            s <= n,
            slots@.len() == s,
            forall|s2: int|
                0 <= s2 < s ==> match #[trigger] slots@[s2] {
                    Some(x) => x < members@.len() && members@[x as int] == s2,
                    None => forall|x: int| 0 <= x < members@.len() ==> members@[x] != s2,
                },
        decreases n - s,
    {
        let mut found: Option<usize> = None;
        let mut x: usize = 0;
        while x < members.len()
            invariant
                x <= members@.len(),
                match found {
                    Some(y) => y < members@.len() && members@[y as int] == s,
                    None => forall|y: int| 0 <= y < x ==> members@[y] != s,
                },
            decreases members@.len() - x,
        {
            if found.is_none() && members[x] == s {
                found = Some(x);
            }
            x = x + 1;
        }
        slots.push(found);
        s = s + 1;
    }
    slots
}

/// The speakers that a slot map feeds.
pub open spec fn active_speakers(slots: Seq<Option<usize>>) -> Set<int> {
    Set::new(|s: int| 0 <= s < slots.len() && slots[s] is Some)
}

/// A source sounds on at most as many speakers as a group has members:
/// 2 in 2D, 3 in 3D.
pub proof fn lemma_active_speakers_bounded(layout: SpeakerLayout, group: int, slots: Seq<Option<usize>>)
    requires
        layout.wf(),
        0 <= group < layout@.groups.len(),
        is_slot_map(layout@.groups[group], layout@.num_speakers, slots),
    ensures
        active_speakers(slots).finite(),
        active_speakers(slots).len() <= group_size(layout@.mode),
{
    let members = layout@.groups[group].map_values(|x: usize| x as int);
    members.lemma_cardinality_of_set();
    assert forall|s: int| #[trigger] active_speakers(slots).contains(s) implies members.to_set().contains(s) by {
        let x = slots[s]->Some_0;
        assert(members[x as int] == s);
    }
    lemma_len_subset(active_speakers(slots), members.to_set());
}

} // verus!
