use gradient::config::{
    Branching, Config, Smoothing, Trigger, CONFIG_LIMIT, DOWNHILL_TILT, HARD_FALL_TOLERANCE,
    MAX_OBSTACLES, MAX_ROLL, SOFT_FALL_TOLERANCE,
};
use gradient::vector::{Vec3, COORD_LIMIT};

#[test]
fn classic_is_the_usual_game() {
    let cfg = Config::classic();
    assert!(cfg.is_wf());
    assert_eq!(cfg.trigger, Trigger::Crossing);
    assert_eq!(cfg.branching, Branching::Double);
    assert_eq!(cfg.smoothing, Smoothing::Adaptive);
    assert_eq!(cfg.platform_size, Vec3::new(10_000, 3_000, 100_000));
    assert_eq!(cfg.origin_platform, Vec3::new(0, -11_500, 0));
    assert_eq!(cfg.drop, 100_000);
    assert_eq!(cfg.lateral_range, 10_000);
    assert!(cfg.follow_ball);
    assert_eq!(cfg.roll_range, 10_000);
    assert_eq!((cfg.min_obstacles, cfg.max_obstacles), (2, 3));
    assert_eq!(cfg.obstacle_lift, 3_000);
    assert_eq!(cfg.obstacle_radius, 1_000);
    assert_eq!(cfg.fall_tolerance, 20_000);
    assert_eq!(cfg.camera_offset, Vec3::new(0, 20_000, 15_000));
    assert_eq!(cfg.steer_step, 500);
    assert!(!cfg.limit_speed);
}

#[test]
fn plain_is_a_bare_single_track() {
    let cfg = Config::plain();
    assert!(cfg.is_wf());
    assert_eq!(
        cfg,
        Config {
            branching: Branching::Single,
            smoothing: Smoothing::Fixed,
            follow_ball: false,
            roll_range: 0,
            min_obstacles: 0,
            max_obstacles: 0,
            ..Config::classic()
        }
    );
}

#[test]
fn named_constants() {
    assert_eq!(SOFT_FALL_TOLERANCE, 20_000);
    assert_eq!(HARD_FALL_TOLERANCE, 1_000_000);
    assert_eq!(DOWNHILL_TILT, 45_000);
    assert_eq!(CONFIG_LIMIT, 1_000_000_000);
    assert_eq!(MAX_OBSTACLES, 64);
    assert_eq!(MAX_ROLL, 180_000);
}

#[test]
fn both_fall_tolerances_are_well_formed() {
    assert!(Config { fall_tolerance: SOFT_FALL_TOLERANCE, ..Config::classic() }.is_wf());
    assert!(Config { fall_tolerance: HARD_FALL_TOLERANCE, ..Config::classic() }.is_wf());
    assert!(Config { fall_tolerance: 0, ..Config::classic() }.is_wf());
    assert!(!Config { fall_tolerance: -1, ..Config::classic() }.is_wf());
}

#[test]
fn ill_formed_configurations_are_told_apart() {
    let good = Config::classic();
    assert!(!Config { platform_size: Vec3::new(0, 3_000, 100_000), ..good }.is_wf());
    assert!(!Config { platform_size: Vec3::new(10_000, 3_000, CONFIG_LIMIT + 1), ..good }.is_wf());
    assert!(!Config { origin_platform: Vec3::new(0, COORD_LIMIT + 1, 0), ..good }.is_wf());
    assert!(!Config { drop: -1, ..good }.is_wf());
    assert!(!Config { lateral_range: -1, ..good }.is_wf());
    assert!(!Config { roll_range: MAX_ROLL + 1, ..good }.is_wf());
    assert!(!Config { min_obstacles: 4, ..good }.is_wf());
    assert!(!Config { min_obstacles: -1, ..good }.is_wf());
    assert!(!Config { max_obstacles: MAX_OBSTACLES + 1, ..good }.is_wf());
    assert!(!Config { obstacle_lift: 2_499, ..good }.is_wf());
    assert!(Config { obstacle_lift: 2_500, ..good }.is_wf());
    assert!(!Config { obstacle_radius: -1, ..good }.is_wf());
    assert!(!Config { camera_offset: Vec3::new(0, 0, CONFIG_LIMIT + 1), ..good }.is_wf());
    assert!(!Config { steer_step: -1, ..good }.is_wf());
    assert!(!Config { speed_base: -1, ..good }.is_wf());
    assert!(!Config { speed_per_point: CONFIG_LIMIT + 1, ..good }.is_wf());
    assert!(!Config { obstacle_lift: i64::MIN, ..good }.is_wf());
}
