//! Selection of the speaker pairs (2D) and triplets (3D) that tile the
//! listening space.
use vstd::prelude::*;
use crate::geometry::SpeakerGeometry;
use vstd::arithmetic::div_mod::{lemma_mod_self_0, lemma_small_mod};
use crate::order::{is_stable_order, lemma_stable_order_distinct, lemma_stable_order_unique, stable_order};

verus! {

/// The index sequences of a list of groups.
pub open spec fn groups_view(groups: Seq<Vec<usize>>) -> Seq<Seq<usize>> {
    groups.map_values(|g: Vec<usize>| g@)
}

/// The usable pairs among the first `count` azimuth neighbours of the ring
/// `order`: position `p` pairs `order[p]` with `order[p + 1]`, the last
/// position wrapping back to the first.
pub open spec fn ring_pairs(g: SpeakerGeometry, order: Seq<usize>, count: nat) -> Seq<Seq<usize>>
    decreases count,
{
    if count == 0 {
        seq![]
    } else {
        let prev = ring_pairs(g, order, (count - 1) as nat);
        let a = order[count - 1];
        let b = order[(count % order.len()) as int];
        if g.usable(a as int, b as int) {
            prev.push(seq![a, b])
        } else {
            prev
        }
    }
}

/// `pairs` is the 2D selection: the speakers sorted stably by azimuth, each
/// joined to its successor round the ring, the unusable pairs left out.
pub open spec fn is_pair_selection(g: SpeakerGeometry, pairs: Seq<Seq<usize>>) -> bool {
    exists|order: Seq<usize>|
        is_stable_order(g.azimuth_key@, order) && pairs == #[trigger] ring_pairs(
            g,
            order,
            order.len(),
        )
}

/// The 2D selection is determined by the geometry: two pair selections of
/// the same speakers are equal.
pub proof fn lemma_pair_selection_unique(g: SpeakerGeometry, p1: Seq<Seq<usize>>, p2: Seq<Seq<usize>>)
    requires
        is_pair_selection(g, p1),
        is_pair_selection(g, p2),
    ensures
        p1 == p2,
{
    let o1 = choose|order: Seq<usize>|
        is_stable_order(g.azimuth_key@, order) && p1 == #[trigger] ring_pairs(g, order, order.len());
    let o2 = choose|order: Seq<usize>|
        is_stable_order(g.azimuth_key@, order) && p2 == #[trigger] ring_pairs(g, order, order.len());
    lemma_stable_order_unique(g.azimuth_key@, o1, o2);
}

/// Each group lists `size` distinct speakers, each below `n`.
pub open spec fn groups_well_formed(groups: Seq<Seq<usize>>, size: nat, n: nat) -> bool {
    forall|t: int|
        0 <= t < groups.len() ==> {
            &&& (#[trigger] groups[t]).len() == size
            &&& forall|x: int| 0 <= x < size ==> groups[t][x] < n
            &&& forall|x: int, y: int| 0 <= x < y < size ==> groups[t][x] != groups[t][y]
        }
}

/// Chooses the 2D speaker pairs: adjacent speakers in ascending azimuth order
/// (ties kept in input order), the last joined back to the first, keeping
/// only the pairs whose geometry is usable.
pub fn choose_speaker_pairs(g: &SpeakerGeometry) -> (r: Vec<Vec<usize>>)
    requires
        g.wf(),
        g.num() >= 2,
    ensures
        is_pair_selection(*g, groups_view(r@)),
        groups_well_formed(groups_view(r@), 2, g.num()),
{
    let n = g.azimuth_key.len();
    let order = stable_order(&g.azimuth_key);
    let mut pairs: Vec<Vec<usize>> = Vec::new();
    let mut p: usize = 0;
    while p < n
        invariant
            g.wf(),
            n == g.num(),
            n >= 2,
            p <= n,
            is_stable_order(g.azimuth_key@, order@),
            groups_view(pairs@) == ring_pairs(*g, order@, p as nat),
            groups_well_formed(groups_view(pairs@), 2, n as nat),
        decreases n - p,
    {
        let a = order[p];
        let next: usize = if p + 1 < n {
            p + 1
        } else {
            0
        };
        let b = order[next];
        proof {
            if p + 1 < n {
                lemma_small_mod((p + 1) as nat, n as nat);
            } else {
                lemma_mod_self_0(n as int);
            }
            assert(next == (p + 1) % (n as int));
            lemma_stable_order_distinct(g.azimuth_key@, order@, p as int, next as int);
        }
        if g.pair_usable[a][b] {
            let mut pair: Vec<usize> = Vec::new();
            pair.push(a);
            pair.push(b);
            let ghost before = pairs@;
            pairs.push(pair);
            proof {
                assert(pairs@ == before.push(pair));
                assert(groups_view(pairs@) =~= groups_view(before).push(pair@));
                assert(pair@ =~= seq![a, b]);
            }
        } else {
        }
        p = p + 1;
    }
    assert(order@.len() == n);
    assert(groups_view(pairs@) == ring_pairs(*g, order@, order@.len()));
    pairs
}

/// The shorter edge `c`-`d` cuts the edge `a`-`b`: the two share no speaker,
/// their arcs cross, and `a`-`b` is strictly longer.
pub open spec fn cuts(g: SpeakerGeometry, c: int, d: int, a: int, b: int) -> bool {
    &&& c != a && c != b && d != a && d != b
    &&& g.crosses(c, d, a, b)
    &&& g.dist(a, b) > g.dist(c, d)
}

/// Edge `a`-`b` is removed by connection pruning: some edge `c`-`d` cuts it.
pub open spec fn is_cut(g: SpeakerGeometry, a: int, b: int) -> bool {
    exists|c: int, d: int| 0 <= c < d < g.num() && #[trigger] cuts(g, c, d, a, b)
}

/// Some speaker other than `i`, `j`, `k` lies inside their spherical triangle.
pub open spec fn has_interior(g: SpeakerGeometry, i: int, j: int, k: int) -> bool {
    exists|m: int| 0 <= m < g.num() && m != i && m != j && m != k && #[trigger] g.contains(i, j, k, m)
}

/// Triple `i < j < k` survives all filters of 3D selection.
pub open spec fn keeps_triple(g: SpeakerGeometry, i: int, j: int, k: int) -> bool {
    &&& g.spread(i, j, k)
    &&& !is_cut(g, i, j)
    &&& !is_cut(g, i, k)
    &&& !is_cut(g, j, k)
    &&& !has_interior(g, i, j, k)
    &&& g.invertible(i, j, k)
}

/// `(a, b, c)` comes before `(i, j, k)` lexicographically.
pub open spec fn lex_before(a: int, b: int, c: int, i: int, j: int, k: int) -> bool {
    a < i || (a == i && (b < j || (b == j && c < k)))
}

/// `groups` is the 3D selection: every kept triple `i < j < k`, each once,
/// in lexicographic order, and nothing else.
pub open spec fn is_triplet_selection(g: SpeakerGeometry, groups: Seq<Seq<usize>>) -> bool {
    &&& forall|t: int|
        0 <= t < groups.len() ==> {
            &&& (#[trigger] groups[t]).len() == 3
            &&& groups[t][0] < groups[t][1] < groups[t][2] < g.num()
            &&& keeps_triple(g, groups[t][0] as int, groups[t][1] as int, groups[t][2] as int)
        }
    &&& forall|i: int, j: int, k: int|
        0 <= i < j < k < g.num() && #[trigger] keeps_triple(g, i, j, k) ==> exists|t: int|
            0 <= t < groups.len() && #[trigger] groups[t] == seq![i as usize, j as usize, k as usize]
    &&& forall|s: int, t: int|
        0 <= s < t < groups.len() ==> lex_before(
            groups[s][0] as int,
            groups[s][1] as int,
            groups[s][2] as int,
            groups[t][0] as int,
            groups[t][1] as int,
            groups[t][2] as int,
        )
}

/// Whether another speaker lies inside the spherical triangle `i`, `j`, `k`.
fn has_interior_speaker(g: &SpeakerGeometry, i: usize, j: usize, k: usize) -> (r: bool)
    requires
        g.wf(),
        i < g.num(),
        j < g.num(),
        k < g.num(),
    ensures
        r == has_interior(*g, i as int, j as int, k as int),
{
    let n = g.elevated.len();
    let mut m: usize = 0;
    while m < n
        invariant
            g.wf(),
            n == g.num(),
            i < n && j < n && k < n,
            m <= n,
            forall|m2: int| 0 <= m2 < m && m2 != i && m2 != j && m2 != k ==> !#[trigger] g.contains(i as int, j as int, k as int, m2),
        decreases n - m,
    {
        if m != i && m != j && m != k && g.inside[i][j][k][m] {
            assert(g.contains(i as int, j as int, k as int, m as int));
            return true;
        }
        m = m + 1;
    }
    false
}

/// `edges` lists pairs `a < b` of the `n` speakers, and `id[a][b]` is the
/// position of edge `a`-`b` in it.
pub open spec fn is_edge_table(n: nat, edges: Seq<(usize, usize)>, id: Seq<Vec<usize>>) -> bool {
    &&& forall|t: int| 0 <= t < edges.len() ==> (#[trigger] edges[t]).0 < edges[t].1 < n
    &&& id.len() == n
    &&& forall|a: int| 0 <= a < n ==> (#[trigger] id[a]).len() == n
    &&& forall|a: int, b: int|
        0 <= a < b < n ==> #[trigger] id[a]@[b] < edges.len() && edges[id[a]@[b] as int] == (
        a as usize,
        b as usize,
    )
}

/// The edges `a < b` of the complete graph on `n` speakers, in lexicographic
/// order, and the position of each.
fn enumerate_edges(n: usize) -> (r: (Vec<(usize, usize)>, Vec<Vec<usize>>))
    ensures
        is_edge_table(n as nat, r.0@, r.1@),
{
    let mut edges: Vec<(usize, usize)> = Vec::new();
    let mut id: Vec<Vec<usize>> = Vec::new();
    let mut a: usize = 0;
    while a < n
        invariant
            a <= n,
            forall|t: int| 0 <= t < edges.len() ==> (#[trigger] edges@[t]).0 < edges@[t].1 < n,
            id@.len() == a,
            forall|a2: int| 0 <= a2 < a ==> (#[trigger] id@[a2]).len() == n,
            forall|a2: int, b2: int|
                0 <= a2 < a && a2 < b2 < n ==> #[trigger] id@[a2]@[b2] < edges.len() && edges@[id@[a2]@[b2] as int]
                    == (a2 as usize, b2 as usize),
        decreases n - a,
    {
        let mut row: Vec<usize> = Vec::new();
        let mut b: usize = 0;
        while b < n
            invariant
                a < n,
                b <= n,
                forall|t: int| 0 <= t < edges.len() ==> (#[trigger] edges@[t]).0 < edges@[t].1 < n,
                id@.len() == a,
                forall|a2: int| 0 <= a2 < a ==> (#[trigger] id@[a2]).len() == n,
                forall|a2: int, b2: int|
                    0 <= a2 < a && a2 < b2 < n ==> #[trigger] id@[a2]@[b2] < edges.len() && edges@[id@[a2]@[b2] as int]
                        == (a2 as usize, b2 as usize),
                row@.len() == b,
                forall|b2: int| a < b2 < b ==> #[trigger] row@[b2] < edges.len() && edges@[row@[b2] as int] == (a, b2 as usize),
            decreases n - b,
        {
            if a < b {
                row.push(edges.len());
                edges.push((a, b));
            } else {
                row.push(0);
            }
            b = b + 1;
        }
        id.push(row);
        proof {
            assert forall|a2: int, b2: int|
                0 <= a2 < a + 1 && a2 < b2 < n implies #[trigger] id@[a2]@[b2] < edges.len() && edges@[id@[a2]@[b2] as int]
                    == (a2 as usize, b2 as usize) by {
                if a2 == a {
                    assert(id@[a2] == row);
                }
            }
        }
        a = a + 1;
    }
    (edges, id)
}

/// The edge at position `s` cuts the edge at position `t`.
pub open spec fn cuts_edge(g: SpeakerGeometry, edges: Seq<(usize, usize)>, s: usize, t: int) -> bool {
    cuts(g, edges[s as int].0 as int, edges[s as int].1 as int, edges[t].0 as int, edges[t].1 as int)
}

/// One of the first `p` edges in `order` cuts the edge at position `t`.
pub open spec fn cut_by_first(g: SpeakerGeometry, edges: Seq<(usize, usize)>, order: Seq<usize>, p: int, t: int) -> bool {
    exists|q: int| 0 <= q < p && #[trigger] cuts_edge(g, edges, order[q], t)
}

/// Position `t` is among the first `q` entries of `order`.
pub open spec fn seen(order: Seq<usize>, q: int, t: int) -> bool {
    exists|q2: int| 0 <= q2 < q && #[trigger] order[q2] == t
}

/// Connection pruning as a greedy pass: edges are taken shortest first (ties
/// in enumeration order), and each marks as disconnected every still
/// connected, strictly longer edge that shares no speaker with it and whose
/// arc crosses its own. `r[t]` tells whether edge `t` stays connected.
fn prune_connections(g: &SpeakerGeometry, edges: &Vec<(usize, usize)>, id: &Vec<Vec<usize>>) -> (r: Vec<bool>)
    requires
        g.wf(),
        is_edge_table(g.num(), edges@, id@),
    ensures
        r@.len() == edges@.len(),
        forall|t: int| 0 <= t < edges@.len() ==> #[trigger] r@[t] == !is_cut(*g, edges@[t].0 as int, edges@[t].1 as int),
{
    let m = edges.len();
    let mut keys: Vec<i64> = Vec::new();
    let mut connected: Vec<bool> = Vec::new();
    let mut t: usize = 0;
    while t < m
        invariant
            g.wf(),
            is_edge_table(g.num(), edges@, id@),
            m == edges.len(),
            t <= m,
            keys@.len() == t,
            connected@.len() == t,
            forall|t2: int| 0 <= t2 < t ==> #[trigger] connected@[t2],
        decreases m - t,
    {
        let (a, b) = edges[t];
        keys.push(g.distance_key[a][b]);
        connected.push(true);
        t = t + 1;
    }
    let order = stable_order(&keys);
    let mut p: usize = 0;
    while p < m
        invariant
            g.wf(),
            is_edge_table(g.num(), edges@, id@),
            m == edges.len(),
            p <= m,
            is_stable_order(keys@, order@),
            keys@.len() == m,
            connected@.len() == m,
            forall|t2: int| 0 <= t2 < m ==> #[trigger] connected@[t2] == !cut_by_first(*g, edges@, order@, p as int, t2),
        decreases m - p,
    {
        let e = order[p];
        let (a, b) = edges[e];
        let mut q: usize = 0;
        while q < m
            invariant
                g.wf(),
                is_edge_table(g.num(), edges@, id@),
                m == edges.len(),
                p < m,
                q <= m,
                is_stable_order(keys@, order@),
                keys@.len() == m,
                e == order@[p as int],
                (a, b) == edges@[e as int],
                connected@.len() == m,
                forall|t2: int|
                    0 <= t2 < m ==> #[trigger] connected@[t2] == (!cut_by_first(*g, edges@, order@, p as int, t2) && !(
                    cuts_edge(*g, edges@, e, t2) && seen(order@, q as int, t2))),
            decreases m - q,
        {
            let f = order[q];
            let (c, d) = edges[f];
            let ghost before = connected@;
            if a == c || a == d || b == c || b == d {
            } else if !connected[f] {
            } else if g.arcs_cross[a][b][c][d] && g.distance_key[c][d] > g.distance_key[a][b] {
                connected.set(f, false);
            }
            proof {
                assert forall|t2: int| 0 <= t2 < m implies #[trigger] connected@[t2] == (!cut_by_first(*g, edges@, order@, p as int, t2) && !(
                    cuts_edge(*g, edges@, e, t2) && seen(order@, q + 1, t2))) by {
                    if t2 == f {
                        assert(order@[q as int] == t2);
                    } else {
                        if seen(order@, q + 1, t2) {
                            let q2 = choose|q2: int| 0 <= q2 < q + 1 && #[trigger] order@[q2] == t2;
                            assert(q2 < q);
                        }
                        assert(connected@[t2] == before[t2]);
                    }
                }
            }
            q = q + 1;
        }
        proof {
            assert forall|t2: int| 0 <= t2 < m implies #[trigger] connected@[t2] == !cut_by_first(*g, edges@, order@, p + 1, t2) by {
                assert(is_stable_order(keys@, order@));
                assert(crate::order::occurs(order@, t2));
                let q2 = choose|q2: int| 0 <= q2 < order@.len() && #[trigger] order@[q2] == t2;
                assert(seen(order@, m as int, t2));
                if cut_by_first(*g, edges@, order@, p + 1, t2) {
                    let q3 = choose|q3: int| 0 <= q3 < p + 1 && #[trigger] cuts_edge(*g, edges@, order@[q3], t2);
                    if q3 < p {
                        assert(cut_by_first(*g, edges@, order@, p as int, t2));
                    }
                }
                if cut_by_first(*g, edges@, order@, p as int, t2) {
                    let q3 = choose|q3: int| 0 <= q3 < p && #[trigger] cuts_edge(*g, edges@, order@[q3], t2);
                    assert(cut_by_first(*g, edges@, order@, p + 1, t2));
                }
                if cuts_edge(*g, edges@, e, t2) {
                    assert(cuts_edge(*g, edges@, order@[p as int], t2));
                    assert(cut_by_first(*g, edges@, order@, p + 1, t2));
                }
            }
        }
        p = p + 1;
    }
    proof {
        assert forall|t2: int| 0 <= t2 < m implies #[trigger] connected@[t2] == !is_cut(*g, edges@[t2].0 as int, edges@[t2].1 as int) by {
            let a2 = edges@[t2].0 as int;
            let b2 = edges@[t2].1 as int;
            if cut_by_first(*g, edges@, order@, m as int, t2) {
                let q3 = choose|q3: int| 0 <= q3 < m && #[trigger] cuts_edge(*g, edges@, order@[q3], t2);
                let s = order@[q3];
                assert(edges@[s as int].0 < edges@[s as int].1 < g.num());
                assert(cuts(*g, edges@[s as int].0 as int, edges@[s as int].1 as int, a2, b2));
            }
            if is_cut(*g, a2, b2) {
                let (c2, d2) = choose|c2: int, d2: int| 0 <= c2 < d2 < g.num() && #[trigger] cuts(*g, c2, d2, a2, b2);
                let s = id@[c2]@[d2];
                assert(edges@[s as int] == (c2 as usize, d2 as usize));
                assert(crate::order::occurs(order@, s as int));
                let q3 = choose|q3: int| 0 <= q3 < order@.len() && #[trigger] order@[q3] == s as int;
                assert(cuts_edge(*g, edges@, order@[q3], t2));
            }
        }
    }
    connected
}

/// The pruning outcome of every edge: `r[a][b]` for `a < b` tells whether
/// `a`-`b` is cut (entries with `a >= b` are unused and false).
fn cut_edges(g: &SpeakerGeometry) -> (r: Vec<Vec<bool>>)
    requires
        g.wf(),
    ensures
        r@.len() == g.num(),
        forall|a: int| 0 <= a < g.num() ==> (#[trigger] r@[a]).len() == g.num(),
        forall|a: int, b: int| 0 <= a < b < g.num() ==> #[trigger] r@[a]@[b] == is_cut(*g, a, b),
{
    let n = g.elevated.len();
    let (edges, id) = enumerate_edges(n);
    let connected = prune_connections(g, &edges, &id);
    let mut rows: Vec<Vec<bool>> = Vec::new();
    let mut a: usize = 0;
    while a < n
        invariant
            g.wf(),
            n == g.num(),
            is_edge_table(g.num(), edges@, id@),
            connected@.len() == edges@.len(),
            forall|t: int| 0 <= t < edges@.len() ==> #[trigger] connected@[t] == !is_cut(*g, edges@[t].0 as int, edges@[t].1 as int),
            a <= n,
            rows@.len() == a,
            forall|a2: int| 0 <= a2 < a ==> (#[trigger] rows@[a2]).len() == n,
            forall|a2: int, b2: int| 0 <= a2 < a && a2 < b2 < n ==> #[trigger] rows@[a2]@[b2] == is_cut(*g, a2, b2),
        decreases n - a,
    {
        let mut row: Vec<bool> = Vec::new();
        let mut b: usize = 0;
        while b < n
            invariant
                g.wf(),
                n == g.num(),
                is_edge_table(g.num(), edges@, id@),
                connected@.len() == edges@.len(),
                forall|t: int| 0 <= t < edges@.len() ==> #[trigger] connected@[t] == !is_cut(*g, edges@[t].0 as int, edges@[t].1 as int),
                a < n,
                b <= n,
                row@.len() == b,
                forall|b2: int| a < b2 < b ==> #[trigger] row@[b2] == is_cut(*g, a as int, b2),
            decreases n - b,
        {
            if a < b {
                let t = id[a][b];
                row.push(!connected[t]);
            } else {
                row.push(false);
            }
            b = b + 1;
        }
        rows.push(row);
        a = a + 1;
    }
    rows
}

/// Invariant of the triple scan at position `(i, j, k)`: `groups` holds the
/// kept triples before the position, in order.
pub open spec fn scanned_before(g: SpeakerGeometry, groups: Seq<Seq<usize>>, i: int, j: int, k: int) -> bool {
    &&& forall|t: int|
        0 <= t < groups.len() ==> {
            &&& (#[trigger] groups[t]).len() == 3
            &&& groups[t][0] < groups[t][1] < groups[t][2] < g.num()
            &&& keeps_triple(g, groups[t][0] as int, groups[t][1] as int, groups[t][2] as int)
            &&& lex_before(groups[t][0] as int, groups[t][1] as int, groups[t][2] as int, i, j, k)
        }
    &&& forall|a: int, b: int, c: int|
        0 <= a < b < c < g.num() && #[trigger] keeps_triple(g, a, b, c) && lex_before(a, b, c, i, j, k)
            ==> exists|t: int|
            0 <= t < groups.len() && #[trigger] groups[t] == seq![a as usize, b as usize, c as usize]
    &&& forall|s: int, t: int|
        0 <= s < t < groups.len() ==> lex_before(
            groups[s][0] as int,
            groups[s][1] as int,
            groups[s][2] as int,
            groups[t][0] as int,
            groups[t][1] as int,
            groups[t][2] as int,
        )
}

/// Chooses the 3D speaker triplets. A triple `i < j < k` is kept when its
/// volume-to-perimeter ratio passes, none of its three edges is cut by
/// connection pruning, no other speaker lies inside its spherical triangle,
/// and its base is invertible. Kept triples come in lexicographic order.
///
/// Connection pruning is the greedy pass of `prune_connections`, shortest
/// edges first. It never asks whether the shorter edge of a crossing is still
/// connected, so the edges it removes are exactly those that some strictly
/// shorter crossing edge cuts (`is_cut`), which is what the contract states.
pub fn choose_speaker_triplets(g: &SpeakerGeometry) -> (r: Vec<Vec<usize>>)
    requires
        g.wf(),
    ensures
        is_triplet_selection(*g, groups_view(r@)),
{
    let n = g.elevated.len();
    let cut = cut_edges(g);
    let mut groups: Vec<Vec<usize>> = Vec::new();
    let mut i: usize = 0;
    while i < n
        invariant
            g.wf(),
            n == g.num(),
            i <= n,
            cut@.len() == n,
            forall|a: int| 0 <= a < n ==> (#[trigger] cut@[a]).len() == n,
            forall|a: int, b: int| 0 <= a < b < n ==> #[trigger] cut@[a]@[b] == is_cut(*g, a, b),
            scanned_before(*g, groups_view(groups@), i as int, 0, 0),
        decreases n - i,
    {
        let mut j: usize = i + 1;
        while j < n
            invariant
                g.wf(),
                n == g.num(),
                i < n,
                i + 1 <= j <= n,
                cut@.len() == n,
                forall|a: int| 0 <= a < n ==> (#[trigger] cut@[a]).len() == n,
                forall|a: int, b: int| 0 <= a < b < n ==> #[trigger] cut@[a]@[b] == is_cut(*g, a, b),
                scanned_before(*g, groups_view(groups@), i as int, j as int, 0),
            decreases n - j,
        {
            let mut k: usize = j + 1;
            while k < n
                invariant
                    g.wf(),
                    n == g.num(),
                    i < j < n,
                    j + 1 <= k <= n,
                    cut@.len() == n,
                    forall|a: int| 0 <= a < n ==> (#[trigger] cut@[a]).len() == n,
                    forall|a: int, b: int| 0 <= a < b < n ==> #[trigger] cut@[a]@[b] == is_cut(*g, a, b),
                    scanned_before(*g, groups_view(groups@), i as int, j as int, k as int),
                decreases n - k,
            {
                let keep = g.triple_spread[i][j][k] && !cut[i][j] && !cut[i][k] && !cut[j][k]
                    && !has_interior_speaker(g, i, j, k) && g.triple_invertible[i][j][k];
                assert(keep == keeps_triple(*g, i as int, j as int, k as int));
                let ghost before = groups_view(groups@);
                if keep {
                    let mut triple: Vec<usize> = Vec::new();
                    triple.push(i);
                    triple.push(j);
                    triple.push(k);
                    let ghost old_groups = groups@;
                    groups.push(triple);
                    proof {
                        assert(groups@ == old_groups.push(triple));
                        assert(groups_view(groups@) =~= before.push(triple@));
                        assert(triple@ =~= seq![i, j, k]);
                        let after = groups_view(groups@);
                        assert(after[before.len() as int] == seq![i, j, k]);
                        assert forall|a: int, b: int, c: int|
                            0 <= a < b < c < g.num() && #[trigger] keeps_triple(*g, a, b, c)
                                && lex_before(a, b, c, i as int, j as int, (k + 1) as int)
                            implies exists|t: int|
                            0 <= t < after.len() && #[trigger] after[t] == seq![a as usize, b as usize, c as usize] by {
                            if lex_before(a, b, c, i as int, j as int, k as int) {
                                let t = choose|t: int| 0 <= t < before.len() && #[trigger] before[t] == seq![a as usize, b as usize, c as usize];
                                assert(after[t] == before[t]);
                            } else {
                                assert(after[before.len() as int] == seq![a as usize, b as usize, c as usize]);
                            }
                        }
                    }
                } else {
                    proof {
                        assert forall|a: int, b: int, c: int|
                            0 <= a < b < c < g.num() && #[trigger] keeps_triple(*g, a, b, c)
                                && lex_before(a, b, c, i as int, j as int, (k + 1) as int)
                            implies lex_before(a, b, c, i as int, j as int, k as int) by {
                            if !lex_before(a, b, c, i as int, j as int, k as int) {
                                assert(a == i && b == j && c == k);
                            }
                        }
                    }
                }
                k = k + 1;
            }
            j = j + 1;
        }
        i = i + 1;
    }
    groups
}

/// Speakers whose directions all lie on one great circle have coplanar
/// direction vectors, so the base of every triple is singular; then the 3D
/// selection is empty, and building in 3D fails with `InvalidConfiguration`.
pub proof fn lemma_singular_triples_select_nothing(g: SpeakerGeometry)
    requires
        g.wf(),
        forall|i: int, j: int, k: int| 0 <= i < j < k < g.num() ==> !#[trigger] g.invertible(i, j, k),
    ensures
        is_triplet_selection(g, seq![]),
        forall|groups: Seq<Seq<usize>>| #[trigger] is_triplet_selection(g, groups) ==> groups.len() == 0,
{
    assert forall|groups: Seq<Seq<usize>>| #[trigger] is_triplet_selection(g, groups) implies groups.len() == 0 by {
        if groups.len() > 0 {
            assert(groups[0].len() == 3);
            assert(keeps_triple(g, groups[0][0] as int, groups[0][1] as int, groups[0][2] as int));
        }
    }
}

/// The 3D selection is determined by the geometry: two triplet selections of
/// the same speakers are equal.
pub proof fn lemma_triplet_selection_unique(g: SpeakerGeometry, s1: Seq<Seq<usize>>, s2: Seq<Seq<usize>>)
    requires
        is_triplet_selection(g, s1),
        is_triplet_selection(g, s2),
    ensures
        s1 == s2,
{
    assert forall|i: int| 0 <= i < s1.len() && i < s2.len() implies s1[i] == s2[i] by {
        lemma_triplet_position(g, s1, s2, i);
    }
    lemma_triplet_missing(g, s1, s2);
    assert forall|i: int| 0 <= i < s2.len() && i < s1.len() implies s2[i] == s1[i] by {
        lemma_triplet_position(g, s1, s2, i);
    }
    lemma_triplet_missing(g, s2, s1);
    assert(s1 =~= s2);
}

/// A triple of `s2` occurs in `s1`.
proof fn lemma_triplet_found(g: SpeakerGeometry, s1: Seq<Seq<usize>>, s2: Seq<Seq<usize>>, j: int) -> (t: int)
    requires
        is_triplet_selection(g, s1),
        is_triplet_selection(g, s2),
        0 <= j < s2.len(),
    ensures
        0 <= t < s1.len(),
        s1[t] == s2[j],
{
    let x = s2[j];
    assert(keeps_triple(g, x[0] as int, x[1] as int, x[2] as int));
    let t = choose|t: int| 0 <= t < s1.len() && #[trigger] s1[t] == seq![x[0], x[1], x[2]];
    assert(x =~= seq![x[0], x[1], x[2]]);
    t
}

/// A selection that agrees with another on their common positions is no
/// shorter than it.
proof fn lemma_triplet_missing(g: SpeakerGeometry, s1: Seq<Seq<usize>>, s2: Seq<Seq<usize>>)
    requires
        is_triplet_selection(g, s1),
        is_triplet_selection(g, s2),
        forall|i: int| 0 <= i < s1.len() && i < s2.len() ==> s1[i] == s2[i],
    ensures
        s2.len() <= s1.len(),
{
    if s1.len() < s2.len() {
        let j = s1.len() as int;
        let t = lemma_triplet_found(g, s1, s2, j);
        assert(s2[t] == s1[t]);
        let x = s2[t];
        assert(lex_before(x[0] as int, x[1] as int, x[2] as int, s2[j][0] as int, s2[j][1] as int, s2[j][2] as int));
    }
}

proof fn lemma_triplet_position(g: SpeakerGeometry, s1: Seq<Seq<usize>>, s2: Seq<Seq<usize>>, i: int)
    requires
        is_triplet_selection(g, s1),
        is_triplet_selection(g, s2),
        0 <= i < s1.len(),
        i < s2.len(),
    ensures
        s1[i] == s2[i],
    decreases i,
{
    let x = s1[i];
    let y = s2[i];
    if x != y {
        assert forall|q: int| 0 <= q < i implies s1[q] == s2[q] by {
            lemma_triplet_position(g, s1, s2, q);
        }
        if lex_before(x[0] as int, x[1] as int, x[2] as int, y[0] as int, y[1] as int, y[2] as int) {
            let j = lemma_triplet_found(g, s2, s1, i);
            if j < i {
                assert(s1[j] == s2[j]);
                assert(lex_before(s1[j][0] as int, s1[j][1] as int, s1[j][2] as int, x[0] as int, x[1] as int, x[2] as int));
            } else if j > i {
                assert(lex_before(y[0] as int, y[1] as int, y[2] as int, s2[j][0] as int, s2[j][1] as int, s2[j][2] as int));
            }
        } else {
            let j = lemma_triplet_found(g, s1, s2, i);
            if j < i {
                assert(s1[j] == s2[j]);
                assert(lex_before(s2[j][0] as int, s2[j][1] as int, s2[j][2] as int, y[0] as int, y[1] as int, y[2] as int));
            } else if j > i {
                assert(lex_before(x[0] as int, x[1] as int, x[2] as int, s1[j][0] as int, s1[j][1] as int, s1[j][2] as int));
            } else {
                assert(x =~= y);
            }
        }
    }
}

} // verus!
