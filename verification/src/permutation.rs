use vstd::prelude::*;
use crate::satellite::{Satellite, spec_dist, lemma_distance_symmetric};
use crate::conjunctions::{
    spec_conjunctions, conj_of, is_close, lemma_conjunctions_iff, lemma_conjunctions_sound,
};

verus! {

/// Two distinct scan positions hold satellites with identifiers a and b at a
/// distance strictly below the threshold.
pub open spec fn has_close_pair(s: Seq<Satellite>, threshold: u64, a: i32, b: i32) -> bool {
    exists|i: int, j: int|
        0 <= i < s.len() && 0 <= j < s.len() && i != j && (#[trigger] s[i]).norad_id == a && (
        #[trigger] s[j]).norad_id == b && spec_dist(s[i], s[j]) < threshold
}

/// The conjunction pairs of a list, keyed by unordered identifiers: (a, b)
/// is in the set exactly when (b, a) is.
pub open spec fn conj_id_pairs(s: Seq<Satellite>, threshold: u64) -> Set<(i32, i32)> {
    Set::new(|p: (i32, i32)| has_close_pair(s, threshold, p.0, p.1))
}

/// An identifier pair is in the pair set iff the conjunction search reports
/// a record carrying it, in one of the two orders. This ties the set to the
/// search's actual output.
pub proof fn lemma_id_pairs_match_search(s: Seq<Satellite>, threshold: u64, a: i32, b: i32)
    requires
        forall|k: int| 0 <= k < s.len() ==> (#[trigger] s[k]).wf(),
    ensures
        conj_id_pairs(s, threshold).contains((a, b)) <==> exists|k: int|
            0 <= k < spec_conjunctions(s, threshold).len() && ({
                let c = #[trigger] spec_conjunctions(s, threshold)[k];
                (c.norad_id_1 == a && c.norad_id_2 == b) || (c.norad_id_1 == b && c.norad_id_2
                    == a)
            }),
{
    let conjs = spec_conjunctions(s, threshold);
    lemma_conjunctions_iff(s, threshold);
    if conj_id_pairs(s, threshold).contains((a, b)) {
        let (i, j) = choose|i: int, j: int|
            0 <= i < s.len() && 0 <= j < s.len() && i != j && (#[trigger] s[i]).norad_id == a && (
            #[trigger] s[j]).norad_id == b && spec_dist(s[i], s[j]) < threshold;
        lemma_distance_symmetric(s[i], s[j]);
        if i < j {
            assert(conjs.contains(conj_of(s, i, j)));
            let k = choose|k: int| 0 <= k < conjs.len() && conjs[k] == conj_of(s, i, j);
            assert(conjs[k].norad_id_1 == a && conjs[k].norad_id_2 == b);
        } else {
            assert(conjs.contains(conj_of(s, j, i)));
            let k = choose|k: int| 0 <= k < conjs.len() && conjs[k] == conj_of(s, j, i);
            assert(conjs[k].norad_id_1 == b && conjs[k].norad_id_2 == a);
        }
    }
    if exists|k: int|
        0 <= k < conjs.len() && ({
            let c = #[trigger] conjs[k];
            (c.norad_id_1 == a && c.norad_id_2 == b) || (c.norad_id_1 == b && c.norad_id_2 == a)
        }) {
        let k = choose|k: int|
            0 <= k < conjs.len() && ({
                let c = #[trigger] conjs[k];
                (c.norad_id_1 == a && c.norad_id_2 == b) || (c.norad_id_1 == b && c.norad_id_2
                    == a)
            });
        lemma_conjunctions_sound(s, threshold, s.len() as int, k);
        let (i, j) = choose|i: int, j: int|
            0 <= i < j < s.len() && #[trigger] is_close(s, i, j, threshold) && conjs[k] == conj_of(
                s,
                i,
                j,
            );
        lemma_distance_symmetric(s[i], s[j]);
        assert(has_close_pair(s, threshold, a, b));
    }
}

/// A value found at some position reappears at some position of any list
/// with the same multiset of elements.
proof fn lemma_perm_has_index(s1: Seq<Satellite>, s2: Seq<Satellite>, i: int)
    requires
        s1.to_multiset() == s2.to_multiset(),
        0 <= i < s1.len(),
    ensures
        exists|i2: int| 0 <= i2 < s2.len() && #[trigger] s2[i2] == s1[i],
{
    broadcast use vstd::seq_lib::group_to_multiset_ensures;

    assert(s1.contains(s1[i]));
    assert(s1.to_multiset().count(s1[i]) > 0);
    assert(s2.to_multiset().count(s1[i]) > 0);
    assert(s2.contains(s1[i]));
}

/// Two distinct positions' values reappear at two distinct positions of any
/// list with the same multiset of elements.
proof fn lemma_perm_has_pair(s1: Seq<Satellite>, s2: Seq<Satellite>, i: int, j: int)
    requires
        s1.to_multiset() == s2.to_multiset(),
        0 <= i < s1.len(),
        0 <= j < s1.len(),
        i != j,
    ensures
        exists|i2: int, j2: int|
            0 <= i2 < s2.len() && 0 <= j2 < s2.len() && i2 != j2 && #[trigger] s2[i2] == s1[i] && (
            #[trigger] s2[j2]) == s1[j],
{
    broadcast use vstd::seq_lib::group_to_multiset_ensures;
    broadcast use vstd::multiset::group_multiset_axioms;

    let x = s1[i];
    let y = s1[j];
    lemma_perm_has_index(s1, s2, i);
    lemma_perm_has_index(s1, s2, j);
    let i2 = choose|i2: int| 0 <= i2 < s2.len() && #[trigger] s2[i2] == x;
    if x == y {
        // x occurs at two distinct positions of s1, hence twice in the
        // multiset, hence at two distinct positions of s2
        s1.remove_ensures(i);
        let jr = if j < i {
            j
        } else {
            j - 1
        };
        assert(s1.remove(i)[jr] == y);
        assert(s1.remove(i).contains(y));
        assert(s1.remove(i).to_multiset().count(y) > 0);
        assert(s1.remove(i).to_multiset() =~= s1.to_multiset().remove(x));
        assert(s1.to_multiset().remove(x).count(y) > 0);
        assert(s1.to_multiset().count(y) >= 2);
        s2.remove_ensures(i2);
        assert(s2.remove(i2).to_multiset() =~= s2.to_multiset().remove(x));
        assert(s2.to_multiset().remove(x).count(y) >= 1);
        assert(s2.remove(i2).to_multiset().count(y) >= 1);
        assert(s2.remove(i2).contains(y));
        let k = choose|k: int| 0 <= k < s2.remove(i2).len() && s2.remove(i2)[k] == y;
        let j2 = if k < i2 {
            k
        } else {
            k + 1
        };
        assert(s2[j2] == y);
        assert(0 <= j2 < s2.len() && i2 != j2 && s2[i2] == x);
    } else {
        let j2 = choose|j2: int| 0 <= j2 < s2.len() && #[trigger] s2[j2] == y;
        assert(i2 != j2 && s2[i2] == x);
    }
}

/// The set of conjunction pairs, keyed by unordered identifiers, is
/// invariant under any permutation of the input list.
pub proof fn lemma_conj_pairs_permutation_invariant(
    s1: Seq<Satellite>,
    s2: Seq<Satellite>,
    threshold: u64,
)
    requires
        s1.to_multiset() == s2.to_multiset(),
    ensures
        conj_id_pairs(s1, threshold) == conj_id_pairs(s2, threshold),
{
    assert forall|p: (i32, i32)| #[trigger]
        conj_id_pairs(s1, threshold).contains(p) implies conj_id_pairs(s2, threshold).contains(
        p,
    ) by {
        lemma_close_pair_carries(s1, s2, threshold, p.0, p.1);
    }
    assert forall|p: (i32, i32)| #[trigger]
        conj_id_pairs(s2, threshold).contains(p) implies conj_id_pairs(s1, threshold).contains(
        p,
    ) by {
        lemma_close_pair_carries(s2, s1, threshold, p.0, p.1);
    }
    assert(conj_id_pairs(s1, threshold) =~= conj_id_pairs(s2, threshold));
}

/// A close pair of identifiers carries over to any reordering of the list.
proof fn lemma_close_pair_carries(
    s1: Seq<Satellite>,
    s2: Seq<Satellite>,
    threshold: u64,
    a: i32,
    b: i32,
)
    requires
        s1.to_multiset() == s2.to_multiset(),
        has_close_pair(s1, threshold, a, b),
    ensures
        has_close_pair(s2, threshold, a, b),
{
    let (i, j) = choose|i: int, j: int|
        0 <= i < s1.len() && 0 <= j < s1.len() && i != j && (#[trigger] s1[i]).norad_id == a && (
        #[trigger] s1[j]).norad_id == b && spec_dist(s1[i], s1[j]) < threshold;
    lemma_perm_has_pair(s1, s2, i, j);
    let (i2, j2) = choose|i2: int, j2: int|
        0 <= i2 < s2.len() && 0 <= j2 < s2.len() && i2 != j2 && #[trigger] s2[i2] == s1[i] && (
        #[trigger] s2[j2]) == s1[j];
    assert(s2[i2].norad_id == a && s2[j2].norad_id == b && spec_dist(s2[i2], s2[j2]) < threshold);
}

} // verus!
