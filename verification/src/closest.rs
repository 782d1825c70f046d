use vstd::prelude::*;
use crate::satellite::{Satellite, spec_dist, lemma_dist_bounds};
use rayon::iter::{IntoParallelIterator, ParallelIterator};

verus! {

/// Satellite j is the nearest neighbor of satellite i: no other satellite is
/// closer, and every earlier scan position is strictly farther, so a tie
/// goes to the first index encountered.
pub open spec fn is_closest(s: Seq<Satellite>, i: int, j: int) -> bool {
    &&& 0 <= j < s.len()
    &&& j != i
    &&& forall|k: int|
        0 <= k < s.len() && k != i ==> #[trigger] spec_dist(s[i], s[k]) >= spec_dist(s[i], s[j])
    &&& forall|k: int|
        0 <= k < j && k != i ==> #[trigger] spec_dist(s[i], s[k]) > spec_dist(s[i], s[j])
}

/// The triple reported for satellite i names i, its nearest neighbor, and
/// their distance.
pub open spec fn is_closest_triple(s: Seq<Satellite>, i: int, t: (i32, i32, u64)) -> bool {
    exists|j: int|
        #[trigger] is_closest(s, i, j) && t == (
            s[i].norad_id,
            s[j].norad_id,
            spec_dist(s[i], s[j]) as u64,
        )
}

/// At most one index is the nearest neighbor of i.
pub proof fn lemma_closest_unique(s: Seq<Satellite>, i: int, j1: int, j2: int)
    requires
        is_closest(s, i, j1),
        is_closest(s, i, j2),
    ensures
        j1 == j2,
{
    if j1 < j2 {
        assert(spec_dist(s[i], s[j1]) > spec_dist(s[i], s[j2]));
        assert(spec_dist(s[i], s[j2]) >= spec_dist(s[i], s[j1]));
    }
    if j2 < j1 {
        assert(spec_dist(s[i], s[j2]) > spec_dist(s[i], s[j1]));
        assert(spec_dist(s[i], s[j1]) >= spec_dist(s[i], s[j2]));
    }
}

/// The reported distance for satellite i is the minimum over row i of the
/// pairwise distance matrix, excluding the diagonal.
pub proof fn lemma_closest_is_row_min(s: Seq<Satellite>, i: int, j: int)
    requires
        is_closest(s, i, j),
    ensures
        forall|k: int|
            0 <= k < s.len() && k != i ==> #[trigger] spec_dist(s[i], s[k]) >= spec_dist(
                s[i],
                s[j],
            ),
{
}

/// The nearest neighbor of satellite i, found by an ascending scan of all
/// other indices.
pub fn closest_row(satellites: &Vec<Satellite>, i: usize) -> (r: (i32, i32, u64))
    requires
        forall|k: int| 0 <= k < satellites@.len() ==> (#[trigger] satellites@[k]).wf(),
        satellites@.len() >= 2,
        i < satellites@.len(),
    ensures
        is_closest_triple(satellites@, i as int, r),
{
    let n = satellites.len();
    let mut min_dist: u64 = u64::MAX;
    let mut closest_idx: usize = 0;
    let mut j: usize = 0;
    while j < n
        invariant
            j <= n,
            n == satellites@.len(),
            n >= 2,
            i < n,
            forall|k: int| 0 <= k < satellites@.len() ==> (#[trigger] satellites@[k]).wf(),
            (j as int <= if i == 0 { 1int } else { 0int }) ==> (min_dist == u64::MAX && closest_idx
                == 0),
            (j as int > if i == 0 { 1int } else { 0int }) ==> ({
                &&& closest_idx < j
                &&& closest_idx != i
                &&& min_dist as int == spec_dist(
                    satellites@[i as int],
                    satellites@[closest_idx as int],
                )
                &&& forall|k: int|
                    0 <= k < j && k != i ==> #[trigger] spec_dist(
                        satellites@[i as int],
                        satellites@[k],
                    ) >= min_dist as int
                &&& forall|k: int|
                    0 <= k < closest_idx && k != i ==> #[trigger] spec_dist(
                        satellites@[i as int],
                        satellites@[k],
                    ) > min_dist as int
            }),
        decreases n - j,
    {
        if j != i {
            let dist = satellites[i].distance_to(&satellites[j]);
            proof {
                lemma_dist_bounds(satellites@[i as int], satellites@[j as int]);
            }
            if dist < min_dist {
                min_dist = dist;
                closest_idx = j;
            }
        }
        j += 1;
    }
    proof {
        assert(is_closest(satellites@, i as int, closest_idx as int));
    }
    (satellites[i].norad_id, satellites[closest_idx].norad_id, min_dist)
}

/// Relies on rayon's `into_par_iter`, `map` and `collect` over an index
/// range: an indexed parallel map yields exactly one result per index, in
/// index order. Each result is what `closest_row` returns, and that
/// function's contract is verified.
#[verifier::external_body]
fn par_closest_rows(satellites: &Vec<Satellite>) -> (r: Vec<(i32, i32, u64)>)
    requires
        forall|k: int| 0 <= k < satellites@.len() ==> (#[trigger] satellites@[k]).wf(),
        satellites@.len() >= 2,
    ensures
        r@.len() == satellites@.len(),
        forall|i: int| 0 <= i < r@.len() ==> is_closest_triple(satellites@, i, #[trigger] r@[i]),
{
    (0..satellites.len()).into_par_iter().map(|i| closest_row(satellites, i)).collect()
}

/// For each satellite, its nearest other satellite: one triple per input
/// satellite — its identifier, the nearest one's identifier, and their
/// distance — in input order. Rows are computed by rayon's worker pool, one
/// row per task over the shared read-only list, and assembled back into
/// input order by index. Lists of fewer than two satellites yield an empty
/// result.
pub fn find_closest_approaches(satellites: Vec<Satellite>) -> (r: Vec<(i32, i32, u64)>)
    requires
        forall|k: int| 0 <= k < satellites@.len() ==> (#[trigger] satellites@[k]).wf(),
    ensures
        satellites@.len() < 2 ==> r@.len() == 0,
        satellites@.len() >= 2 ==> r@.len() == satellites@.len(),
        forall|i: int| 0 <= i < r@.len() ==> is_closest_triple(satellites@, i, #[trigger] r@[i]),
{
    if satellites.len() < 2 {
        let empty: Vec<(i32, i32, u64)> = Vec::new();
        return empty;
    }
    par_closest_rows(&satellites)
}

} // verus!
