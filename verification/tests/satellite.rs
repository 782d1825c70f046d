use orbit_core::satellite::{OrbitError, Satellite, UNITS_PER_KM};

fn sat(id: i32, pos_km: [i64; 3], vel_m_s: [i64; 3]) -> Satellite {
    Satellite::new(
        id,
        vec![
            pos_km[0] * UNITS_PER_KM,
            pos_km[1] * UNITS_PER_KM,
            pos_km[2] * UNITS_PER_KM,
        ],
        vec![vel_m_s[0], vel_m_s[1], vel_m_s[2]],
    )
    .unwrap()
}

#[test]
fn test_satellite_distance() {
    let sat1 = sat(1, [7000, 0, 0], [0, 7500, 0]);
    let sat2 = sat(2, [7010, 0, 0], [0, 7500, 0]);

    let dist_km = sat1.distance_to(&sat2) as f64 / UNITS_PER_KM as f64;
    assert!((dist_km - 10.0).abs() < 0.001);
}

#[test]
fn test_distance_and_relative_velocity_exact() {
    let a = sat(1, [7000, 0, 0], [0, 7500, 0]);
    let b = sat(2, [7010, 0, 0], [0, 7500, 0]);

    assert_eq!(a.distance_to(&b), 10 * UNITS_PER_KM as u64);
    assert_eq!(a.relative_velocity(&b), 0);
}

#[test]
fn test_distance_symmetric_and_self_zero() {
    let a = sat(7, [7000, 123, -456], [3, -7500, 11]);
    let b = sat(8, [-6900, 4242, 17], [-1, 2, 3]);

    assert_eq!(a.distance_to(&b), b.distance_to(&a));
    assert_eq!(a.distance_to(&a), 0);
    assert_eq!(b.distance_to(&b), 0);
    assert_eq!(a.relative_velocity(&b), b.relative_velocity(&a));
}

#[test]
fn test_distance_rounds_down() {
    let a = Satellite::new(1, vec![0, 0, 0], vec![0, 0, 0]).unwrap();
    let b = Satellite::new(2, vec![1, 1, 1], vec![0, 0, 0]).unwrap();

    // squared distance 3, so the rounded-down root is 1
    assert_eq!(a.distance_to(&b), 1);
}

#[test]
fn test_pythagorean_distance() {
    let a = sat(1, [0, 0, 0], [0, 0, 0]);
    let b = sat(2, [3, 4, 0], [0, 0, 0]);

    assert_eq!(a.distance_to(&b), 5 * UNITS_PER_KM as u64);
}

#[test]
fn test_altitude_and_speed() {
    let s = sat(25544, [7000, 0, 0], [0, 7500, 0]);

    // 7000 km position norm minus the 6371 km Earth radius
    assert_eq!(s.altitude(), 629 * UNITS_PER_KM);
    assert_eq!(s.speed(), 7500);
}

#[test]
fn test_satellite_repr() {
    let s = sat(25544, [7000, 0, 0], [0, 7500, 0]);

    assert_eq!(s.repr(), "Satellite(norad_id=25544, alt=629000m, speed=7500m/s)");
}

#[test]
fn test_new_rejects_two_component_position() {
    let r = Satellite::new(1, vec![1000, 2000], vec![0, 0, 0]);
    assert!(matches!(r, Err(OrbitError::InvalidArgument)));
}

#[test]
fn test_new_rejects_four_component_velocity() {
    let r = Satellite::new(1, vec![1000, 2000, 3000], vec![0, 0, 0, 0]);
    assert!(matches!(r, Err(OrbitError::InvalidArgument)));
}

#[test]
fn test_new_accepts_three_components() {
    let r = Satellite::new(9, vec![1000, 2000, 3000], vec![4, 5, 6]);
    let s = r.unwrap();
    assert_eq!(s.norad_id, 9);
    assert_eq!(s.position.x, 1000);
    assert_eq!(s.position.y, 2000);
    assert_eq!(s.position.z, 3000);
    assert_eq!(s.velocity.x, 4);
    assert_eq!(s.velocity.y, 5);
    assert_eq!(s.velocity.z, 6);
}
