use vstd::prelude::*;
use crate::satellite::{Satellite, spec_dist, spec_rvel, lemma_dist_bounds};
use rayon::iter::{IntoParallelIterator, ParallelIterator};

verus! {

/// One close-approach result: the two satellites' identifiers (the first one
/// from the lower scan position), their distance and the magnitude of their
/// relative velocity, in scale units (thousandths of a km).
#[derive(Clone, Copy, PartialEq, Eq, Structural, Debug)]
pub struct Conjunction {
    pub norad_id_1: i32,
    pub norad_id_2: i32,
    pub distance_km: u64,
    pub relative_velocity_km_s: u64,
}

/// The record the search reports for the pair at scan positions (i, j).
pub open spec fn conj_of(s: Seq<Satellite>, i: int, j: int) -> Conjunction {
    Conjunction {
        norad_id_1: s[i].norad_id,
        norad_id_2: s[j].norad_id,
        distance_km: spec_dist(s[i], s[j]) as u64,
        relative_velocity_km_s: spec_rvel(s[i], s[j]) as u64,
    }
}

/// The conjunction criterion: strictly below the threshold, so a pair at
/// exactly the threshold is not reported.
pub open spec fn is_close(s: Seq<Satellite>, i: int, j: int, threshold: u64) -> bool {
    spec_dist(s[i], s[j]) < threshold
}

/// The conjunctions of outer index i against inner indices i+1..m, in scan
/// order.
pub open spec fn spec_conj_row(s: Seq<Satellite>, i: int, threshold: u64, m: int) -> Seq<
    Conjunction,
>
    decreases m - i,
{
    if m <= i + 1 {
        Seq::empty()
    } else {
        spec_conj_row(s, i, threshold, m - 1) + if is_close(s, i, m - 1, threshold) {
            seq![conj_of(s, i, m - 1)]
        } else {
            Seq::empty()
        }
    }
}

/// Rows 0..i of the conjunction search, concatenated in outer-index order.
pub open spec fn spec_conjunctions_upto(s: Seq<Satellite>, threshold: u64, i: int) -> Seq<
    Conjunction,
>
    decreases i,
{
    if i <= 0 {
        Seq::empty()
    } else {
        spec_conjunctions_upto(s, threshold, i - 1) + spec_conj_row(
            s,
            i - 1,
            threshold,
            s.len() as int,
        )
    }
}

/// Every conjunction of the list: one record per pair (i, j), i < j by scan
/// position, with distance strictly below the threshold.
pub open spec fn spec_conjunctions(s: Seq<Satellite>, threshold: u64) -> Seq<Conjunction> {
    spec_conjunctions_upto(s, threshold, s.len() as int)
}

/// The rendered one-line summary of a conjunction: a function of the two
/// identifiers, the distance and the relative velocity alone.
pub uninterp spec fn conjunction_summary(id1: int, id2: int, dist: int, rvel: int) -> Seq<char>;

/// Relies on std's `format!` integer rendering: the text it returns is a
/// function of the four values alone.
#[verifier::external_body]
fn format_conjunction_summary(id1: i32, id2: i32, dist: u64, rvel: u64) -> (r: String)
    ensures
        r@ == conjunction_summary(id1 as int, id2 as int, dist as int, rvel as int),
{
    format!("Conjunction({} <-> {}, dist={}m, rel_vel={}m/s)", id1, id2, dist, rvel)
}

impl Conjunction {
    /// Human-readable one-line summary of the record (distances in scale
    /// units).
    pub fn repr(&self) -> (r: String)
        ensures
            r@ == conjunction_summary(
                self.norad_id_1 as int,
                self.norad_id_2 as int,
                self.distance_km as int,
                self.relative_velocity_km_s as int,
            ),
    {
        format_conjunction_summary(
            self.norad_id_1,
            self.norad_id_2,
            self.distance_km,
            self.relative_velocity_km_s,
        )
    }
}

/// The conjunctions of outer index i against all higher inner indices.
pub fn conjunction_row(satellites: &Vec<Satellite>, i: usize, threshold: u64) -> (r: Vec<
    Conjunction,
>)
    requires
        forall|k: int| 0 <= k < satellites@.len() ==> (#[trigger] satellites@[k]).wf(),
        i < satellites@.len(),
    ensures
        r@ == spec_conj_row(satellites@, i as int, threshold, satellites@.len() as int),
{
    let n = satellites.len();
    let mut out: Vec<Conjunction> = Vec::new();
    let mut j: usize = i + 1;
    while j < n
        invariant
            i < satellites@.len(),
            i < j <= n,
            n == satellites@.len(),
            forall|k: int| 0 <= k < satellites@.len() ==> (#[trigger] satellites@[k]).wf(),
            out@ == spec_conj_row(satellites@, i as int, threshold, j as int),
        decreases n - j,
    {
        let dist = satellites[i].distance_to(&satellites[j]);
        if dist < threshold {
            let rvel = satellites[i].relative_velocity(&satellites[j]);
            out.push(
                Conjunction {
                    norad_id_1: satellites[i].norad_id,
                    norad_id_2: satellites[j].norad_id,
                    distance_km: dist,
                    relative_velocity_km_s: rvel,
                },
            );
            proof {
                assert(out@.last() == conj_of(satellites@, i as int, j as int));
            }
        }
        proof {
            assert(out@ =~= spec_conj_row(satellites@, i as int, threshold, j + 1 as int));
        }
        j += 1;
    }
    out
}

/// Relies on rayon's `into_par_iter`, `map` and `collect` over an index
/// range: an indexed parallel map yields exactly one result per index, in
/// index order. Each result is what `conjunction_row` returns, and that
/// function's contract is verified.
#[verifier::external_body]
fn par_conjunction_rows(satellites: &Vec<Satellite>, threshold: u64) -> (r: Vec<Vec<Conjunction>>)
    requires
        forall|k: int| 0 <= k < satellites@.len() ==> (#[trigger] satellites@[k]).wf(),
    ensures
        r@.len() == satellites@.len(),
        forall|i: int|
            0 <= i < r@.len() ==> (#[trigger] r@[i])@ == spec_conj_row(
                satellites@,
                i,
                threshold,
                satellites@.len() as int,
            ),
{
    (0..satellites.len()).into_par_iter().map(|i| conjunction_row(satellites, i, threshold)).collect()
}

/// All close approaches of the list: the pairs (i, j), i < j by scan
/// position, whose distance is strictly below the threshold. The outer index
/// range is scanned by rayon's worker pool, one row per task over the shared
/// read-only list; the per-row results are concatenated in index order by
/// the calling thread. Empty and singleton lists yield an empty result.
pub fn find_conjunctions(satellites: Vec<Satellite>, threshold: u64) -> (r: Vec<Conjunction>)
    requires
        forall|k: int| 0 <= k < satellites@.len() ==> (#[trigger] satellites@[k]).wf(),
    ensures
        r@ == spec_conjunctions(satellites@, threshold),
        satellites@.len() <= 1 ==> r@.len() == 0,
{
    let n = satellites.len();
    if n == 0 {
        let empty: Vec<Conjunction> = Vec::new();
        return empty;
    }
    let rows = par_conjunction_rows(&satellites, threshold);
    let mut out: Vec<Conjunction> = Vec::new();
    let mut i: usize = 0;
    while i < n
        invariant
            i <= n,
            n == satellites@.len(),
            rows@.len() == n,
            forall|a: int|
                0 <= a < rows@.len() ==> (#[trigger] rows@[a])@ == spec_conj_row(
                    satellites@,
                    a,
                    threshold,
                    satellites@.len() as int,
                ),
            out@ == spec_conjunctions_upto(satellites@, threshold, i as int),
        decreases n - i,
    {
        let row = &rows[i];
        let mut j: usize = 0;
        while j < row.len()
            invariant
                i < n,
                n == satellites@.len(),
                rows@.len() == n,
                row == rows@[i as int],
                j <= row@.len(),
                out@ == spec_conjunctions_upto(satellites@, threshold, i as int) + row@.subrange(
                    0,
                    j as int,
                ),
            decreases row@.len() - j,
        {
            out.push(row[j]);
            proof {
                assert(row@.subrange(0, j + 1 as int) =~= row@.subrange(0, j as int).push(
                    row@[j as int],
                ));
            }
            j += 1;
        }
        proof {
            assert(row@.subrange(0, row@.len() as int) =~= row@);
            assert(out@ =~= spec_conjunctions_upto(satellites@, threshold, i + 1 as int));
        }
        i += 1;
    }
    proof {
        if satellites@.len() == 1 {
            assert(spec_conjunctions_upto(satellites@, threshold, 0) =~= Seq::<
                Conjunction,
            >::empty());
            assert(spec_conj_row(satellites@, 0, threshold, 1) =~= Seq::<Conjunction>::empty());
            assert(spec_conjunctions(satellites@, threshold) =~= Seq::<Conjunction>::empty());
        }
    }
    out
}

/// Every record of a row comes from a qualifying pair of that row.
proof fn lemma_row_sound(s: Seq<Satellite>, i: int, threshold: u64, m: int, k: int)
    requires
        0 <= k < spec_conj_row(s, i, threshold, m).len(),
    ensures
        exists|j: int|
            i < j < m && #[trigger] is_close(s, i, j, threshold) && spec_conj_row(
                s,
                i,
                threshold,
                m,
            )[k] == conj_of(s, i, j),
    decreases m - i,
{
    if m <= i + 1 {
        // the row is empty, contradicting the requires
    } else {
        let prefix = spec_conj_row(s, i, threshold, m - 1);
        if k < prefix.len() {
            lemma_row_sound(s, i, threshold, m - 1, k);
            let j = choose|j: int|
                i < j < m - 1 && #[trigger] is_close(s, i, j, threshold) && prefix[k] == conj_of(
                    s,
                    i,
                    j,
                );
            assert(spec_conj_row(s, i, threshold, m)[k] == conj_of(s, i, j));
        } else {
            assert(is_close(s, i, m - 1, threshold));
            assert(spec_conj_row(s, i, threshold, m)[k] == conj_of(s, i, m - 1));
        }
    }
}

/// Every qualifying pair of a row is reported in it.
proof fn lemma_row_complete(s: Seq<Satellite>, i: int, threshold: u64, m: int, j: int)
    requires
        i < j < m,
        is_close(s, i, j, threshold),
    ensures
        spec_conj_row(s, i, threshold, m).contains(conj_of(s, i, j)),
    decreases m - i,
{
    let prefix = spec_conj_row(s, i, threshold, m - 1);
    if j == m - 1 {
        assert(spec_conj_row(s, i, threshold, m)[prefix.len() as int] == conj_of(s, i, j));
    } else {
        lemma_row_complete(s, i, threshold, m - 1, j);
        let k = choose|k: int| 0 <= k < prefix.len() && prefix[k] == conj_of(s, i, j);
        assert(spec_conj_row(s, i, threshold, m)[k] == conj_of(s, i, j));
    }
}

/// Every record of the search's result comes from a qualifying pair.
pub proof fn lemma_conjunctions_sound(s: Seq<Satellite>, threshold: u64, i: int, k: int)
    requires
        0 <= i <= s.len(),
        0 <= k < spec_conjunctions_upto(s, threshold, i).len(),
    ensures
        exists|a: int, b: int|
            0 <= a < b < s.len() && #[trigger] is_close(s, a, b, threshold)
                && spec_conjunctions_upto(s, threshold, i)[k] == conj_of(s, a, b),
    decreases i,
{
    if i <= 0 {
        // empty, contradicting the requires
    } else {
        let prefix = spec_conjunctions_upto(s, threshold, i - 1);
        let row = spec_conj_row(s, i - 1, threshold, s.len() as int);
        if k < prefix.len() {
            lemma_conjunctions_sound(s, threshold, i - 1, k);
            let (a, b) = choose|a: int, b: int|
                0 <= a < b < s.len() && #[trigger] is_close(s, a, b, threshold) && prefix[k]
                    == conj_of(s, a, b);
            assert(spec_conjunctions_upto(s, threshold, i)[k] == conj_of(s, a, b));
        } else {
            let ii = i - 1;
            let kk = k - prefix.len();
            lemma_row_sound(s, ii, threshold, s.len() as int, kk);
            let j = choose|j: int|
                ii < j < s.len() && #[trigger] is_close(s, ii, j, threshold) && row[kk] == conj_of(
                    s,
                    ii,
                    j,
                );
            assert(spec_conjunctions_upto(s, threshold, i)[k] == conj_of(s, ii, j));
        }
    }
}

/// Every qualifying pair (a, b), a < b, is reported once rows 0..i cover a.
proof fn lemma_conjunctions_complete(s: Seq<Satellite>, threshold: u64, i: int, a: int, b: int)
    requires
        0 <= a < b < s.len(),
        a < i <= s.len(),
        is_close(s, a, b, threshold),
    ensures
        spec_conjunctions_upto(s, threshold, i).contains(conj_of(s, a, b)),
    decreases i,
{
    let prefix = spec_conjunctions_upto(s, threshold, i - 1);
    let row = spec_conj_row(s, i - 1, threshold, s.len() as int);
    if a == i - 1 {
        lemma_row_complete(s, a, threshold, s.len() as int, b);
        let k = choose|k: int| 0 <= k < row.len() && row[k] == conj_of(s, a, b);
        assert(spec_conjunctions_upto(s, threshold, i)[prefix.len() + k] == conj_of(s, a, b));
    } else {
        lemma_conjunctions_complete(s, threshold, i - 1, a, b);
        let k = choose|k: int| 0 <= k < prefix.len() && prefix[k] == conj_of(s, a, b);
        assert(spec_conjunctions_upto(s, threshold, i)[k] == conj_of(s, a, b));
    }
}

/// Soundness and completeness of the conjunction search: a pair's record is
/// reported if and only if the pair's distance is strictly below the
/// threshold. No pair at or above the threshold appears.
pub proof fn lemma_conjunctions_iff(s: Seq<Satellite>, threshold: u64)
    requires
        forall|k: int| 0 <= k < s.len() ==> (#[trigger] s[k]).wf(),
    ensures
        forall|i: int, j: int|
            0 <= i < j < s.len() ==> (#[trigger] spec_conjunctions(s, threshold).contains(
                conj_of(s, i, j),
            ) <==> spec_dist(s[i], s[j]) < threshold),
{
    assert forall|i: int, j: int| 0 <= i < j < s.len() implies (#[trigger] spec_conjunctions(
        s,
        threshold,
    ).contains(conj_of(s, i, j)) <==> spec_dist(s[i], s[j]) < threshold) by {
        if spec_dist(s[i], s[j]) < threshold {
            lemma_conjunctions_complete(s, threshold, s.len() as int, i, j);
        }
        if spec_conjunctions(s, threshold).contains(conj_of(s, i, j)) {
            let k = choose|k: int|
                0 <= k < spec_conjunctions(s, threshold).len() && spec_conjunctions(s, threshold)[k]
                    == conj_of(s, i, j);
            lemma_conjunctions_sound(s, threshold, s.len() as int, k);
            let (a, b) = choose|a: int, b: int|
                0 <= a < b < s.len() && #[trigger] is_close(s, a, b, threshold)
                    && spec_conjunctions(s, threshold)[k] == conj_of(s, a, b);
            lemma_dist_bounds(s[i], s[j]);
            lemma_dist_bounds(s[a], s[b]);
            assert(conj_of(s, i, j).distance_km == conj_of(s, a, b).distance_km);
            assert(spec_dist(s[i], s[j]) == spec_dist(s[a], s[b]));
        }
    }
}

} // verus!
