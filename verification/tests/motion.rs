use gradient::config::Config;
use gradient::motion::{adjust, cap_at, limit_speed, steer};
use gradient::vector::{Vec3, COORD_LIMIT};

#[test]
fn steering_pushes_half_a_unit_sideways() {
    let cfg = Config::classic();
    let v = Vec3::new(100, -200, 300);
    assert_eq!(steer(&cfg, v, false, true), Vec3::new(600, -200, 300));
    assert_eq!(steer(&cfg, v, true, false), Vec3::new(-400, -200, 300));
    assert_eq!(steer(&cfg, v, false, false), v);
    assert_eq!(steer(&cfg, v, true, true), v);
}

#[test]
fn steering_at_the_edge_of_the_world() {
    let cfg = Config::classic();
    let v = Vec3::new(COORD_LIMIT, 0, 0);
    assert_eq!(steer(&cfg, v, false, true).x, COORD_LIMIT + 500);
    let w = Vec3::new(-COORD_LIMIT, 0, 0);
    assert_eq!(steer(&cfg, w, true, false).x, -COORD_LIMIT - 500);
}

#[test]
fn cap_grows_in_a_straight_line_with_the_score() {
    let cfg = Config { limit_speed: true, speed_base: 40_000, speed_per_point: 2_000, ..Config::classic() };
    assert!(cfg.is_wf());
    assert_eq!(cap_at(&cfg, 0), 40_000);
    assert_eq!(cap_at(&cfg, 1), 42_000);
    assert_eq!(cap_at(&cfg, 5), 50_000);
    assert_eq!(cap_at(&cfg, 1_000), 2_040_000);
    assert_eq!(cap_at(&cfg, u64::MAX), COORD_LIMIT);
}

#[test]
fn limiting_leaves_slow_velocities_alone() {
    let v = Vec3::new(3_000, 4_000, 0);
    assert_eq!(limit_speed(v, 5_000), v);
    assert_eq!(limit_speed(v, 9_000), v);
    assert_eq!(limit_speed(Vec3::zero(), 0), Vec3::zero());
}

#[test]
fn limiting_scales_fast_velocities_down() {
    let v = Vec3::new(3_000, 4_000, 0);
    assert_eq!(limit_speed(v, 2_500), Vec3::new(1_499, 1_999, 0));
    assert_eq!(limit_speed(v, 4_999), Vec3::new(2_998, 3_998, 0));
    assert_eq!(limit_speed(Vec3::new(-3_000, 0, -4_000), 2_500), Vec3::new(-1_499, 0, -1_999));
    assert_eq!(limit_speed(v, 0), Vec3::zero());
}

#[test]
fn limited_velocity_is_never_longer_than_the_cap() {
    let caps = [0i64, 1, 7, 1_000, 123_456];
    let samples = [
        Vec3::new(1, 1, 1),
        Vec3::new(-50_000, 20_000, 7),
        Vec3::new(999_999, -999_999, 999_999),
        Vec3::new(2 * COORD_LIMIT, -2 * COORD_LIMIT, 2 * COORD_LIMIT),
    ];
    for cap in caps {
        for v in samples {
            let w = limit_speed(v, cap);
            assert!(w.length_squared_of() <= (cap as u128) * (cap as u128));
            assert!(w.x.abs() <= v.x.abs() && w.y.abs() <= v.y.abs() && w.z.abs() <= v.z.abs());
            assert!(w.x.signum() * v.x.signum() >= 0);
        }
    }
}

#[test]
fn adjusting_steers_and_then_limits() {
    let capped = Config { limit_speed: true, speed_base: 2_500, speed_per_point: 2_499, ..Config::classic() };
    let v = Vec3::new(2_500, 4_000, 0);
    assert_eq!(adjust(&capped, v, false, true, 0), Vec3::new(1_499, 1_999, 0));
    assert_eq!(adjust(&capped, v, false, true, 1), Vec3::new(2_998, 3_998, 0));
    assert_eq!(adjust(&capped, v, false, true, 2), Vec3::new(3_000, 4_000, 0));
    let free = Config::classic();
    assert_eq!(adjust(&free, v, false, true, 0), Vec3::new(3_000, 4_000, 0));
    assert_eq!(adjust(&free, v, true, false, 9), Vec3::new(2_000, 4_000, 0));
}
