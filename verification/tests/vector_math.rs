use gradient::vector::{clamp_coord, isqrt, Vec3, COORD_LIMIT, UNIT};

#[test]
fn isqrt_of_small_numbers() {
    assert_eq!(isqrt(0), 0);
    assert_eq!(isqrt(1), 1);
    assert_eq!(isqrt(3), 1);
    assert_eq!(isqrt(4), 2);
    assert_eq!(isqrt(24), 4);
    assert_eq!(isqrt(25), 5);
    assert_eq!(isqrt(26), 5);
}

#[test]
fn isqrt_of_large_numbers() {
    assert_eq!(isqrt(1_000_000_000_000_000_000_000_000_000_000), 1_000_000_000_000_000);
    assert_eq!(isqrt(999_999_999_999_999_999_999_999_999_999), 999_999_999_999_999);
    assert_eq!(isqrt(u128::MAX), u64::MAX);
    assert_eq!(isqrt((u64::MAX as u128) * (u64::MAX as u128)), u64::MAX);
    assert_eq!(isqrt((u64::MAX as u128) * (u64::MAX as u128) - 1), u64::MAX - 1);
}

#[test]
fn isqrt_squares_bracket_the_number() {
    let mut n: u128 = 0;
    while n < 5000 {
        let r = isqrt(n) as u128;
        assert!(r * r <= n && n < (r + 1) * (r + 1));
        n += 1;
    }
}

#[test]
fn distance_is_rounded_down() {
    let a = Vec3::new(0, 0, 0);
    assert_eq!(a.distance_to(Vec3::new(3 * UNIT, 4 * UNIT, 0)), 5000);
    assert_eq!(a.distance_to(Vec3::new(1, 1, 0)), 1);
    assert_eq!(a.distance_to(Vec3::new(1, 1, 1)), 1);
    assert_eq!(a.distance_to(Vec3::new(2, 2, 1)), 3);
    assert_eq!(Vec3::new(-7, 2, 9).distance_to(Vec3::new(-7, 2, 9)), 0);
    assert_eq!(Vec3::new(0, 20_000, 15_000).length_of(), 25_000);
    assert_eq!(Vec3::new(0, 20_000, 25_000).length_of(), 32_015);
}

#[test]
fn distance_between_far_corners_of_the_world() {
    let a = Vec3::new(-2 * COORD_LIMIT, -2 * COORD_LIMIT, -2 * COORD_LIMIT);
    let b = Vec3::new(2 * COORD_LIMIT, 2 * COORD_LIMIT, 2 * COORD_LIMIT);
    assert_eq!(a.distance_to(b), 6_928_203_230_275_509);
    assert_eq!(b.length_squared_of(), 12_000_000_000_000_000_000_000_000_000_000);
}

#[test]
fn clamping_brings_points_into_the_world() {
    assert_eq!(clamp_coord(5), 5);
    assert_eq!(clamp_coord(COORD_LIMIT), COORD_LIMIT);
    assert_eq!(clamp_coord(COORD_LIMIT + 1), COORD_LIMIT);
    assert_eq!(clamp_coord(i64::MIN), -COORD_LIMIT);
    let far = Vec3::new(i64::MAX, -3, i64::MIN);
    assert!(!far.is_in_bounds());
    let near = far.clamp_to_world();
    assert_eq!(near, Vec3::new(COORD_LIMIT, -3, -COORD_LIMIT));
    assert!(near.is_in_bounds());
    let inside = Vec3::new(1, 2, 3);
    assert_eq!(inside.clamp_to_world(), inside);
}

#[test]
fn offset_adds_coordinate_by_coordinate() {
    assert_eq!(Vec3::new(1, 2, 3).offset_by(Vec3::new(10, -20, 30)), Vec3::new(11, -18, 33));
    assert_eq!(Vec3::zero(), Vec3::new(0, 0, 0));
}
