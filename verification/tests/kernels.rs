use orbit_core::closest::find_closest_approaches;
use orbit_core::conjunctions::find_conjunctions;
use orbit_core::pairwise::pairwise_distances;
use orbit_core::satellite::{Satellite, UNITS_PER_KM};

fn sat(id: i32, pos_km: [i64; 3], vel_m_s: [i64; 3]) -> Satellite {
    Satellite::new(
        id,
        vec![
            pos_km[0] * UNITS_PER_KM,
            pos_km[1] * UNITS_PER_KM,
            pos_km[2] * UNITS_PER_KM,
        ],
        vec![vel_m_s[0], vel_m_s[1], vel_m_s[2]],
    )
    .unwrap()
}

#[test]
fn test_conjunction_detection() {
    let satellites = vec![
        sat(1, [7000, 0, 0], [0, 7500, 0]),
        sat(2, [7005, 0, 0], [0, 7500, 0]),
    ];

    let conjunctions = find_conjunctions(satellites, 10 * UNITS_PER_KM as u64);
    assert_eq!(conjunctions.len(), 1);
    assert_eq!(conjunctions[0].norad_id_1, 1);
    assert_eq!(conjunctions[0].norad_id_2, 2);
}

#[test]
fn test_conjunction_record_values() {
    let satellites = vec![
        sat(1, [7000, 0, 0], [0, 7500, 0]),
        sat(2, [7005, 0, 0], [0, 7400, 0]),
    ];

    let conjunctions = find_conjunctions(satellites, 10 * UNITS_PER_KM as u64);
    assert_eq!(conjunctions.len(), 1);
    assert_eq!(conjunctions[0].distance_km, 5 * UNITS_PER_KM as u64);
    assert_eq!(conjunctions[0].relative_velocity_km_s, 100);
}

#[test]
fn test_conjunction_threshold_is_exclusive() {
    let at_threshold = vec![
        sat(1, [0, 0, 0], [0, 0, 0]),
        sat(2, [10, 0, 0], [0, 0, 0]),
    ];
    assert_eq!(
        find_conjunctions(at_threshold, 10 * UNITS_PER_KM as u64).len(),
        0
    );

    let below_threshold = vec![
        sat(1, [0, 0, 0], [0, 0, 0]),
        sat(2, [10, 0, 0], [0, 0, 0]),
    ];
    assert_eq!(
        find_conjunctions(below_threshold, 10 * UNITS_PER_KM as u64 + 1).len(),
        1
    );
}

#[test]
fn test_conjunction_pairs_permutation_invariant() {
    let a = sat(1, [0, 0, 0], [0, 0, 0]);
    let b = sat(2, [5, 0, 0], [0, 0, 0]);
    let c = sat(3, [100_000, 0, 0], [0, 0, 0]);
    let threshold = 10 * UNITS_PER_KM as u64;

    let mut pairs1: Vec<(i32, i32)> = find_conjunctions(vec![a, b, c], threshold)
        .iter()
        .map(|x| {
            let lo = x.norad_id_1.min(x.norad_id_2);
            let hi = x.norad_id_1.max(x.norad_id_2);
            (lo, hi)
        })
        .collect();
    let mut pairs2: Vec<(i32, i32)> = find_conjunctions(vec![c, b, a], threshold)
        .iter()
        .map(|x| {
            let lo = x.norad_id_1.min(x.norad_id_2);
            let hi = x.norad_id_1.max(x.norad_id_2);
            (lo, hi)
        })
        .collect();
    pairs1.sort();
    pairs2.sort();
    assert_eq!(pairs1, vec![(1, 2)]);
    assert_eq!(pairs1, pairs2);
}

#[test]
fn test_pairwise_symmetric_with_zero_diagonal() {
    let satellites = vec![
        sat(1, [0, 0, 0], [0, 0, 0]),
        sat(2, [3, 4, 0], [0, 0, 0]),
        sat(3, [0, 0, 12], [0, 0, 0]),
    ];

    let m = pairwise_distances(satellites);
    assert_eq!(m.len(), 3);
    for i in 0..3 {
        assert_eq!(m[i].len(), 3);
        assert_eq!(m[i][i], 0);
        for j in 0..3 {
            assert_eq!(m[i][j], m[j][i]);
        }
    }
    assert_eq!(m[0][1], 5 * UNITS_PER_KM as u64);
    assert_eq!(m[0][2], 12 * UNITS_PER_KM as u64);
    assert_eq!(m[1][2], 13 * UNITS_PER_KM as u64);
}

#[test]
fn test_pairwise_empty() {
    let m = pairwise_distances(Vec::new());
    assert_eq!(m.len(), 0);
}

#[test]
fn test_closest_one_triple_per_satellite() {
    let satellites = vec![
        sat(1, [0, 0, 0], [0, 0, 0]),
        sat(2, [10, 0, 0], [0, 0, 0]),
        sat(3, [25, 0, 0], [0, 0, 0]),
    ];

    let matrix = pairwise_distances(satellites.clone());
    let triples = find_closest_approaches(satellites);
    assert_eq!(triples.len(), 3);
    assert_eq!(triples[0], (1, 2, 10 * UNITS_PER_KM as u64));
    assert_eq!(triples[1], (2, 1, 10 * UNITS_PER_KM as u64));
    assert_eq!(triples[2], (3, 2, 15 * UNITS_PER_KM as u64));

    // each reported distance is the row minimum of the pairwise matrix,
    // excluding the diagonal
    for (i, t) in triples.iter().enumerate() {
        let row_min = (0..3).filter(|&j| j != i).map(|j| matrix[i][j]).min();
        assert_eq!(Some(t.2), row_min);
    }
}

#[test]
fn test_closest_tie_goes_to_first_index() {
    let satellites = vec![
        sat(1, [0, 0, 0], [0, 0, 0]),
        sat(2, [10, 0, 0], [0, 0, 0]),
        sat(3, [20, 0, 0], [0, 0, 0]),
    ];

    let triples = find_closest_approaches(satellites);
    // the middle satellite is equally close to both ends: the first scan
    // position wins
    assert_eq!(triples[1], (2, 1, 10 * UNITS_PER_KM as u64));
}

#[test]
fn test_empty_and_singleton_inputs() {
    assert_eq!(find_conjunctions(Vec::new(), 1000).len(), 0);
    assert_eq!(find_closest_approaches(Vec::new()).len(), 0);

    let single = vec![sat(1, [7000, 0, 0], [0, 7500, 0])];
    assert_eq!(find_conjunctions(single.clone(), 1000).len(), 0);
    assert_eq!(find_closest_approaches(single).len(), 0);
}

#[test]
fn test_duplicate_ids_are_independent_entries() {
    let satellites = vec![
        sat(5, [0, 0, 0], [0, 0, 0]),
        sat(5, [1, 0, 0], [0, 0, 0]),
        sat(5, [2, 0, 0], [0, 0, 0]),
    ];

    let conjunctions = find_conjunctions(satellites, 10 * UNITS_PER_KM as u64);
    // all three pairs qualify, duplicate identifiers notwithstanding
    assert_eq!(conjunctions.len(), 3);
}

#[test]
fn test_conjunction_repr() {
    let satellites = vec![
        sat(1, [7000, 0, 0], [0, 7500, 0]),
        sat(2, [7005, 0, 0], [0, 7500, 0]),
    ];

    let conjunctions = find_conjunctions(satellites, 10 * UNITS_PER_KM as u64);
    assert_eq!(
        conjunctions[0].repr(),
        "Conjunction(1 <-> 2, dist=5000m, rel_vel=0m/s)"
    );
}
