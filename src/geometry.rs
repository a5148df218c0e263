//! The geometric facts that topology selection reads.
//!
//! Each table entry is the outcome of one floating-point predicate on the
//! speakers' unit direction vectors, evaluated once by the caller.
use vstd::prelude::*;

verus! {

/// Geometric facts about a list of `n` speakers, indexed by speaker position.
#[derive(Clone, Debug)]
pub struct SpeakerGeometry {
    /// `elevated[s]`: speaker `s` lies off the horizontal plane.
    pub elevated: Vec<bool>,
    /// `azimuth_key[s]`: order-preserving key of speaker `s`'s azimuth.
    pub azimuth_key: Vec<i64>,
    /// `pair_usable[a][b]`: `a` and `b` are separated by an angle within the
    /// pair bounds and their 2x2 base is non-singular.
    pub pair_usable: Vec<Vec<bool>>,
    /// `distance_key[a][b]`: order-preserving key of the angle between `a` and `b`.
    pub distance_key: Vec<Vec<i64>>,
    /// `triple_spread[i][j][k]`: the volume-to-perimeter ratio of the triple
    /// is above the minimum (and its perimeter is not zero).
    pub triple_spread: Vec<Vec<Vec<bool>>>,
    /// `triple_invertible[i][j][k]`: the 3x3 base of the triple is non-singular.
    pub triple_invertible: Vec<Vec<Vec<bool>>>,
    /// `arcs_cross[a][b][c][d]`: the great-circle arcs `a`-`b` and `c`-`d` intersect.
    pub arcs_cross: Vec<Vec<Vec<Vec<bool>>>>,
    /// `inside[i][j][k][m]`: speaker `m` lies inside the spherical triangle `i`, `j`, `k`.
    pub inside: Vec<Vec<Vec<Vec<bool>>>>,
}

/// An `n` by `n` table.
pub open spec fn is_square<T>(m: Seq<Vec<T>>, n: nat) -> bool {
    &&& m.len() == n
    &&& forall|a: int| 0 <= a < n ==> (#[trigger] m[a]).len() == n
}

/// An `n` by `n` by `n` table.
pub open spec fn is_cube<T>(m: Seq<Vec<Vec<T>>>, n: nat) -> bool {
    &&& m.len() == n
    &&& forall|a: int| 0 <= a < n ==> is_square((#[trigger] m[a])@, n)
}

/// An `n` by `n` by `n` by `n` table.
pub open spec fn is_hypercube<T>(m: Seq<Vec<Vec<Vec<T>>>>, n: nat) -> bool {
    &&& m.len() == n
    &&& forall|a: int| 0 <= a < n ==> is_cube((#[trigger] m[a])@, n)
}

impl SpeakerGeometry {
    /// Number of speakers.
    pub open spec fn num(&self) -> nat {
        self.elevated@.len()
    }

    /// Every table has one entry per speaker, pair, triple or quadruple.
    pub open spec fn wf(&self) -> bool {
        let n = self.num();
        &&& self.azimuth_key.len() == n
        &&& is_square(self.pair_usable@, n)
        &&& is_square(self.distance_key@, n)
        &&& is_cube(self.triple_spread@, n)
        &&& is_cube(self.triple_invertible@, n)
        &&& is_hypercube(self.arcs_cross@, n)
        &&& is_hypercube(self.inside@, n)
    }

    pub open spec fn is_elevated(&self, s: int) -> bool {
        self.elevated@[s]
    }

    pub open spec fn usable(&self, a: int, b: int) -> bool {
        self.pair_usable@[a]@[b]
    }

    pub open spec fn dist(&self, a: int, b: int) -> i64 {
        self.distance_key@[a]@[b]
    }

    pub open spec fn spread(&self, i: int, j: int, k: int) -> bool {
        self.triple_spread@[i]@[j]@[k]
    }

    pub open spec fn invertible(&self, i: int, j: int, k: int) -> bool {
        self.triple_invertible@[i]@[j]@[k]
    }

    pub open spec fn crosses(&self, a: int, b: int, c: int, d: int) -> bool {
        self.arcs_cross@[a]@[b]@[c]@[d]
    }

    pub open spec fn contains(&self, i: int, j: int, k: int, m: int) -> bool {
        self.inside@[i]@[j]@[k]@[m]
    }

    /// Some speaker lies off the horizontal plane.
    pub open spec fn any_elevated(&self) -> bool {
        exists|s: int| 0 <= s < self.num() && #[trigger] self.is_elevated(s)
    }

    /// Whether some speaker lies off the horizontal plane.
    pub fn has_elevation(&self) -> (r: bool)
        ensures
            r == self.any_elevated(),
    {
        let mut s: usize = 0;
        while s < self.elevated.len()
            invariant
                s <= self.elevated.len(),
                forall|t: int| 0 <= t < s ==> !#[trigger] self.is_elevated(t),
            decreases self.elevated.len() - s,
        {
            if self.elevated[s] {
                assert(self.is_elevated(s as int));
                return true;
            }
            s = s + 1;
        }
        false
    }
}

} // verus!
