use vstd::prelude::*;
use crate::satellite::{Satellite, spec_dist, lemma_distance_symmetric};

verus! {

/// The full distance matrix for a satellite list: entry (i, j) is the
/// rounded-down distance between satellites i and j. The matrix is symmetric
/// with a zero diagonal, and the empty list yields an empty matrix. Computed
/// sequentially; the search kernels can be cross-checked against it.
pub fn pairwise_distances(satellites: Vec<Satellite>) -> (r: Vec<Vec<u64>>)
    requires
        forall|k: int| 0 <= k < satellites@.len() ==> (#[trigger] satellites@[k]).wf(),
    ensures
        r@.len() == satellites@.len(),
        forall|i: int| 0 <= i < r@.len() ==> (#[trigger] r@[i])@.len() == satellites@.len(),
        forall|i: int, j: int|
            0 <= i < r@.len() && 0 <= j < r@.len() ==> #[trigger] r@[i]@[j] as int == spec_dist(
                satellites@[i],
                satellites@[j],
            ),
        forall|i: int, j: int|
            0 <= i < r@.len() && 0 <= j < r@.len() ==> #[trigger] r@[i]@[j] == r@[j]@[i],
        forall|i: int| 0 <= i < r@.len() ==> #[trigger] r@[i]@[i] == 0,
{
    let n = satellites.len();
    let mut rows: Vec<Vec<u64>> = Vec::new();
    let mut i: usize = 0;
    while i < n
        invariant
            i <= n,
            n == satellites@.len(),
            forall|k: int| 0 <= k < satellites@.len() ==> (#[trigger] satellites@[k]).wf(),
            rows@.len() == i,
            forall|a: int| 0 <= a < i ==> (#[trigger] rows@[a])@.len() == n,
            forall|a: int, b: int|
                0 <= a < i && 0 <= b < n ==> #[trigger] rows@[a]@[b] as int == spec_dist(
                    satellites@[a],
                    satellites@[b],
                ),
        decreases n - i,
    {
        let mut row: Vec<u64> = Vec::new();
        let mut j: usize = 0;
        while j < n
            invariant
                i < n,
                j <= n,
                n == satellites@.len(),
                forall|k: int| 0 <= k < satellites@.len() ==> (#[trigger] satellites@[k]).wf(),
                row@.len() == j,
                forall|b: int|
                    0 <= b < j ==> #[trigger] row@[b] as int == spec_dist(
                        satellites@[i as int],
                        satellites@[b],
                    ),
            decreases n - j,
        {
            let d = satellites[i].distance_to(&satellites[j]);
            row.push(d);
            j += 1;
        }
        rows.push(row);
        i += 1;
    }
    proof {
        assert forall|a: int, b: int|
            0 <= a < rows@.len() && 0 <= b < rows@.len() implies #[trigger] rows@[a]@[b]
            == rows@[b]@[a] by {
            lemma_distance_symmetric(satellites@[a], satellites@[b]);
        }
        assert forall|a: int| 0 <= a < rows@.len() implies #[trigger] rows@[a]@[a] == 0 by {
            lemma_distance_symmetric(satellites@[a], satellites@[a]);
        }
    }
    rows
}

} // verus!
