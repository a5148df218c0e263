//! Stable ordering of indices by integer keys.
//!
//! A key stands for a real quantity (an azimuth, an angular distance) in a way
//! that keeps its order, so sorting by the keys sorts by the quantities.
use vstd::prelude::*;

verus! {

/// Index `a` comes before index `b` when its key is smaller, or when the keys
/// are equal and `a` came first in the input.
pub open spec fn precedes(keys: Seq<i64>, a: int, b: int) -> bool {
    keys[a] < keys[b] || (keys[a] == keys[b] && a < b)
}

/// `k` occurs in `order`.
pub open spec fn occurs(order: Seq<usize>, k: int) -> bool {
    exists|i: int| 0 <= i < order.len() && #[trigger] order[i] == k
}

/// `order` lists every index of `keys` once, by ascending key, with equal keys
/// in input order: what a stable sort of `0..keys.len()` by key gives.
pub open spec fn is_stable_order(keys: Seq<i64>, order: Seq<usize>) -> bool {
    &&& order.len() == keys.len()
    &&& forall|i: int| 0 <= i < order.len() ==> order[i] < keys.len()
    &&& forall|k: int| 0 <= k < keys.len() ==> #[trigger] occurs(order, k)
    &&& forall|i: int, j: int|
        0 <= i < j < order.len() ==> #[trigger] precedes(keys, order[i] as int, order[j] as int)
}

/// A stable order holds each index exactly once.
pub proof fn lemma_stable_order_distinct(keys: Seq<i64>, order: Seq<usize>, i: int, j: int)
    requires
        is_stable_order(keys, order),
        0 <= i < order.len(),
        0 <= j < order.len(),
        i != j,
    ensures
        order[i] != order[j],
{
    if i < j {
        assert(precedes(keys, order[i] as int, order[j] as int));
    } else {
        assert(precedes(keys, order[j] as int, order[i] as int));
    }
}

/// The indices `0..keys.len()` sorted stably by their keys.
pub fn stable_order(keys: &Vec<i64>) -> (r: Vec<usize>)
    ensures
        is_stable_order(keys@, r@),
{
    let n = keys.len();
    let mut order: Vec<usize> = Vec::new();
    let mut idx: usize = 0;
    while idx < n
        invariant
            n == keys.len(),
            idx <= n,
            order.len() == idx,
            forall|i: int| 0 <= i < order.len() ==> order[i] < idx,
            forall|k: int| 0 <= k < idx ==> #[trigger] occurs(order@, k),
            forall|i: int, j: int|
                0 <= i < j < order.len() ==> #[trigger] precedes(
                    keys@,
                    order[i] as int,
                    order[j] as int,
                ),
        decreases n - idx,
    {
        let mut p: usize = 0;
        while p < order.len() && keys[order[p]] <= keys[idx]
            invariant
                n == keys.len(),
                idx < n,
                order.len() == idx,
                p <= order.len(),
                forall|i: int| 0 <= i < order.len() ==> order[i] < idx,
                forall|q: int| 0 <= q < p ==> keys@[order[q] as int] <= keys@[idx as int],
            decreases order.len() - p,
        {
            p = p + 1;
        }
        let ghost old_order = order@;
        assert(forall|q: int| p <= q < old_order.len() ==> keys@[old_order[q] as int] > keys@[idx as int]) by {
            if p < old_order.len() {
                assert forall|q: int| p <= q < old_order.len() implies keys@[old_order[q] as int] > keys@[idx as int] by {
                    if q > p {
                        assert(precedes(keys@, old_order[p as int] as int, old_order[q] as int));
                    }
                }
            }
        }
        order.insert(p, idx);
        assert forall|i: int, j: int| 0 <= i < j < order.len() implies #[trigger] precedes(
            keys@,
            order[i] as int,
            order[j] as int,
        ) by {
            if j < p {
                assert(precedes(keys@, old_order[i] as int, old_order[j] as int));
            } else if i > p {
                assert(precedes(keys@, old_order[i - 1] as int, old_order[j - 1] as int));
            } else if i < p && j > p {
                assert(precedes(keys@, old_order[i] as int, old_order[j - 1] as int));
            }
        }
        assert forall|k: int| 0 <= k <= idx implies #[trigger] occurs(order@, k) by {
            if k < idx {
                assert(occurs(old_order, k));
                let i = choose|i: int| 0 <= i < old_order.len() && #[trigger] old_order[i] == k;
                if i < p {
                    assert(order[i] == k);
                } else {
                    assert(order[i + 1] == k);
                }
            } else {
                assert(order[p as int] == k);
            }
        }
        idx = idx + 1;
    }
    order
}

/// The stable order of a list of keys is unique: sorting indices by key,
/// with ties in input order, is deterministic.
pub proof fn lemma_stable_order_unique(keys: Seq<i64>, o1: Seq<usize>, o2: Seq<usize>)
    requires
        is_stable_order(keys, o1),
        is_stable_order(keys, o2),
    ensures
        o1 == o2,
{
    assert forall|i: int| 0 <= i < o1.len() implies o1[i] == o2[i] by {
        lemma_stable_order_position(keys, o1, o2, i);
    }
    assert(o1 =~= o2);
}

proof fn lemma_stable_order_position(keys: Seq<i64>, o1: Seq<usize>, o2: Seq<usize>, i: int)
    requires
        is_stable_order(keys, o1),
        is_stable_order(keys, o2),
        0 <= i < o1.len(),
    ensures
        o1[i] == o2[i],
    decreases i,
{
    let x = o1[i];
    let y = o2[i];
    if x != y {
        assert forall|q: int| 0 <= q < i implies o1[q] == o2[q] by {
            lemma_stable_order_position(keys, o1, o2, q);
        }
        if precedes(keys, x as int, y as int) {
            // x sits in o2 somewhere other than i
            assert(occurs(o2, x as int));
            let j = choose|j: int| 0 <= j < o2.len() && #[trigger] o2[j] == x as int;
            if j < i {
                assert(o1[j] == x);
                lemma_stable_order_distinct(keys, o1, i, j);
            } else {
                assert(j > i);
                assert(precedes(keys, o2[i] as int, o2[j] as int));
            }
        } else {
            assert(occurs(o1, y as int));
            let j = choose|j: int| 0 <= j < o1.len() && #[trigger] o1[j] == y as int;
            if j < i {
                assert(o2[j] == y);
                lemma_stable_order_distinct(keys, o2, i, j);
            } else {
                assert(j > i);
                assert(precedes(keys, o1[i] as int, o1[j] as int));
            }
        }
    }
}

} // verus!
