use gradient::camera::Camera;
use gradient::config::{Branching, Config, Smoothing, Trigger, HARD_FALL_TOLERANCE};
use gradient::track::{Obstacle, Platform};
use gradient::vector::{Vec3, COORD_LIMIT};
use gradient::world::{
    count_scored, Advance, Ball, Body, Effect, Event, Phase, TickInput, TickReport, World,
};
use rand::rngs::StdRng;
use rand::SeedableRng;

fn at(x: i64, y: i64, z: i64) -> TickInput {
    TickInput {
        ball_position: Vec3::new(x, y, z),
        ball_velocity: Vec3::zero(),
        steer_left: false,
        steer_right: false,
        reset_requested: false,
    }
}

fn by_collision() -> Config {
    Config { trigger: Trigger::Collision, ..Config::plain() }
}

#[test]
fn a_game_begins_with_one_platform_and_no_score() {
    let world = World::new(Config::classic()).unwrap();
    assert!(world.is_wf());
    assert_eq!(world.score(), 0);
    assert_eq!(world.ball, Ball { position: Vec3::zero(), velocity: Vec3::zero(), score: 0 });
    assert_eq!(
        world.platforms,
        vec![Platform { position: Vec3::new(0, -11_500, 0), roll: 0, scored: false }]
    );
    assert!(world.obstacles.is_empty());
    assert_eq!(
        world.camera,
        Camera { position: Vec3::new(0, 20_000, 15_000), offset: Vec3::new(0, 20_000, 15_000) }
    );
    assert_eq!(world.phase, Phase::Running);
}

#[test]
fn there_is_no_game_for_an_ill_formed_configuration() {
    assert!(World::new(Config { drop: -1, ..Config::classic() }).is_none());
    assert!(World::new(Config { min_obstacles: 5, ..Config::classic() }).is_none());
    assert!(World::new(Config::plain()).is_some());
}

#[test]
fn crossing_the_first_platform_scores_and_extends_the_track() {
    let mut rng = StdRng::seed_from_u64(7);
    let mut world = World::new(Config::plain()).unwrap();
    assert_eq!(world.score(), 0);
    assert_eq!(world.platforms.len(), 1);
    let report = world.tick(at(0, 0, -1), &mut rng);
    assert!(!report.reset);
    assert!(!report.fell);
    assert_eq!(report.score, 1);
    assert_eq!(
        report.advance,
        Advance::Extended { credited: 0, first_platform: 1, first_obstacle: 0 }
    );
    assert_eq!(world.score(), 1);
    assert!(world.platforms[0].scored);
    assert_eq!(world.platforms.len(), 2);
    assert_eq!(world.platforms[1].position.z, -100_000);
    assert_eq!(world.platforms[1].position.y, -111_500);
    assert!(world.platforms[1].position.x.abs() <= 10_000);
    assert!(!world.platforms[1].scored);
    assert!(world.obstacles.is_empty());
    assert!(world.is_wf());
}

#[test]
fn a_ball_that_has_not_passed_the_anchor_earns_nothing() {
    let mut rng = StdRng::seed_from_u64(7);
    let mut world = World::new(Config::plain()).unwrap();
    let report = world.tick(at(0, 0, 0), &mut rng);
    assert_eq!(report.advance, Advance::Idle);
    assert_eq!(world.score(), 0);
    assert_eq!(world.platforms.len(), 1);
    assert!(!world.platforms[0].scored);
    let report = world.tick(at(0, 0, 5), &mut rng);
    assert_eq!(report.advance, Advance::Idle);
    assert_eq!(world.score(), 0);
}

#[test]
fn a_platform_is_credited_once_however_long_the_ball_stays_past_it() {
    let mut rng = StdRng::seed_from_u64(1);
    let mut world = World::new(Config::plain()).unwrap();
    for _ in 0..25 {
        world.tick(at(0, 0, -50_000), &mut rng);
    }
    assert_eq!(world.score(), 1);
    assert_eq!(world.platforms.len(), 2);
    assert_eq!(count_scored(&world.platforms), 1);
}

#[test]
fn the_score_never_falls_while_the_ball_rolls_on() {
    let mut rng = StdRng::seed_from_u64(99);
    let mut world = World::new(Config::classic()).unwrap();
    let mut last = 0;
    let mut z: i64 = 0;
    let mut y: i64 = 0;
    for step in 0..400 {
        z -= 7_000;
        y -= 7_000;
        let report = world.tick(at(0, y, z), &mut rng);
        assert!(!report.reset);
        assert!(report.score >= last);
        assert!(report.score <= last + 1);
        assert_eq!(report.score, world.score());
        assert_eq!(world.platforms.len() as u64, 1 + 2 * world.score());
        assert_eq!(count_scored(&world.platforms), world.score());
        if step % 50 == 0 {
            assert!(world.is_wf());
        }
        last = report.score;
    }
    assert_eq!(last, 28);
    assert!(world.is_wf());
}

#[test]
fn a_double_track_follows_the_ball() {
    let mut rng = StdRng::seed_from_u64(5);
    let mut world = World::new(Config::classic()).unwrap();
    let report = world.tick(at(4_000, 0, -1), &mut rng);
    assert_eq!(
        report.advance,
        Advance::Extended { credited: 0, first_platform: 1, first_obstacle: 0 }
    );
    assert_eq!(world.platforms.len(), 3);
    assert!(-16_000 <= world.platforms[1].position.x && world.platforms[1].position.x <= 4_000);
    assert!(4_000 <= world.platforms[2].position.x && world.platforms[2].position.x <= 24_000);
    assert!(4 <= world.obstacles.len() && world.obstacles.len() <= 6);
    for o in &world.obstacles {
        assert!(o.platform == 1 || o.platform == 2);
    }
}

#[test]
fn falling_below_the_tolerance_starts_the_run_over() {
    let mut rng = StdRng::seed_from_u64(7);
    let mut world = World::new(Config::plain()).unwrap();
    world.tick(at(0, 0, -1), &mut rng);
    assert_eq!(world.score(), 1);
    let report = world.tick(at(0, -131_501, -1), &mut rng);
    assert!(report.fell);
    assert!(report.reset);
    assert_eq!(report.score, 0);
    assert_eq!(report.advance, Advance::Idle);
    assert_eq!(report.velocity, Vec3::zero());
    assert_eq!(world.score(), 0);
    assert_eq!(world.platforms.len(), 1);
}

#[test]
fn falling_just_within_the_tolerance_does_not() {
    let mut rng = StdRng::seed_from_u64(7);
    let mut world = World::new(Config::plain()).unwrap();
    world.tick(at(0, 0, -1), &mut rng);
    let report = world.tick(at(0, -131_500, -1), &mut rng);
    assert!(!report.fell);
    assert!(!report.reset);
    let report = world.tick(at(0, -131_499, -1), &mut rng);
    assert!(!report.fell);
    assert!(!report.reset);
    assert_eq!(world.score(), 1);
    assert_eq!(world.platforms.len(), 2);
}

#[test]
fn the_fall_is_measured_from_the_lowest_platform_before_the_tick() {
    let mut rng = StdRng::seed_from_u64(7);
    let mut world = World::new(Config::plain()).unwrap();
    let report = world.tick(at(0, -31_501, -1), &mut rng);
    assert!(report.fell && report.reset);
    assert_eq!(world.platforms.len(), 1);
    let report = world.tick(at(0, -31_500, -1), &mut rng);
    assert!(!report.fell && !report.reset);
    assert_eq!(world.platforms.len(), 2);
}

#[test]
fn has_fallen_tells_the_threshold() {
    let mut world = World::new(Config::plain()).unwrap();
    world.observe_ball(Vec3::new(0, -31_500, 0), Vec3::zero());
    assert!(!world.has_fallen());
    world.observe_ball(Vec3::new(0, -31_501, 0), Vec3::zero());
    assert!(world.has_fallen());
    let mut hard = World::new(Config { fall_tolerance: HARD_FALL_TOLERANCE, ..Config::plain() }).unwrap();
    hard.observe_ball(Vec3::new(0, -1_011_500, 0), Vec3::zero());
    assert!(!hard.has_fallen());
    hard.observe_ball(Vec3::new(0, -1_011_501, 0), Vec3::zero());
    assert!(hard.has_fallen());
}

#[test]
fn starting_over_restores_the_first_state() {
    let mut rng = StdRng::seed_from_u64(21);
    let mut world = World::new(Config::classic()).unwrap();
    let first = World::new(Config::classic()).unwrap();
    let mut z: i64 = 0;
    for _ in 0..60 {
        z -= 30_000;
        world.tick(
            TickInput { ball_velocity: Vec3::new(3, 4, 5), steer_right: true, ..at(100, z, z) },
            &mut rng,
        );
    }
    assert!(world.score() > 5);
    assert!(world.platforms.len() > 10);
    assert!(!world.obstacles.is_empty());
    assert_ne!(world.camera, first.camera);
    let report = world.tick(TickInput { reset_requested: true, ..at(100, z, z) }, &mut rng);
    assert!(report.reset);
    assert_eq!(report.score, 0);
    assert_eq!(world.platforms.len(), 1);
    assert_eq!(world.platforms, first.platforms);
    assert!(world.obstacles.is_empty());
    assert_eq!(world.ball, first.ball);
    assert_eq!(world.camera, first.camera);
    assert_eq!(world.phase, Phase::Running);
    assert_eq!(world.config, first.config);
    assert!(world.is_wf());
}

#[test]
fn reset_works_whatever_the_score_and_the_track() {
    for platforms in 1..6usize {
        for score in [0u64, 1, 17, u64::MAX] {
            let mut world = World::new(Config::classic()).unwrap();
            for k in 1..platforms {
                world.platforms.push(Platform {
                    position: Vec3::new(0, -11_500 - 100_000 * k as i64, -100_000 * k as i64),
                    roll: 0,
                    scored: k % 2 == 0,
                });
                world.obstacles.push(Obstacle { platform: k, along: 0, across: 0, lift: 3_000 });
            }
            world.platforms[0].scored = true;
            world.ball = Ball {
                position: Vec3::new(1, 2, 3),
                velocity: Vec3::new(4, 5, 6),
                score,
            };
            world.camera.position = Vec3::new(9, 9, 9);
            world.phase = Phase::ResetPending;
            world.reset();
            assert_eq!(world.platforms.len(), 1);
            assert_eq!(world.score(), 0);
            assert!(!world.platforms[0].scored);
            assert!(world.obstacles.is_empty());
            assert_eq!(world.ball.velocity, Vec3::zero());
            assert_eq!(world.ball.position, Vec3::zero());
            assert_eq!(world.camera.position, Vec3::new(0, 20_000, 15_000));
            assert_eq!(world.phase, Phase::Running);
            assert!(world.is_wf());
        }
    }
}

#[test]
fn several_requests_in_one_tick_start_over_once() {
    let mut rng = StdRng::seed_from_u64(7);
    let mut world = World::new(Config::plain()).unwrap();
    world.tick(at(0, 0, -1), &mut rng);
    world.request_reset();
    world.request_reset();
    assert_eq!(world.phase, Phase::ResetPending);
    assert_eq!(world.score(), 1);
    let report = world.tick(TickInput { reset_requested: true, ..at(0, -900_000, -1) }, &mut rng);
    assert!(report.reset);
    assert!(report.fell);
    assert_eq!(world.phase, Phase::Running);
    assert_eq!(world.platforms.len(), 1);
    let report = world.tick(at(0, 0, 0), &mut rng);
    assert!(!report.reset);
    assert_eq!(world.phase, Phase::Running);
}

#[test]
fn a_tick_that_starts_over_does_not_score() {
    let mut rng = StdRng::seed_from_u64(7);
    let mut world = World::new(Config::plain()).unwrap();
    let report = world.tick(TickInput { reset_requested: true, ..at(0, 0, -1) }, &mut rng);
    assert!(report.reset);
    assert_eq!(report.advance, Advance::Idle);
    assert_eq!(world.score(), 0);
    assert_eq!(world.platforms.len(), 1);
    assert!(!world.platforms[0].scored);
    let report = world.tick(at(0, 0, 0), &mut rng);
    assert_eq!(report.advance, Advance::Idle);
}

#[test]
fn the_first_platform_can_be_earned_again_after_starting_over() {
    let mut rng = StdRng::seed_from_u64(7);
    let mut world = World::new(Config::plain()).unwrap();
    world.tick(at(0, 0, -1), &mut rng);
    world.tick(TickInput { reset_requested: true, ..at(0, 0, -1) }, &mut rng);
    assert_eq!(world.score(), 0);
    let report = world.tick(at(0, 0, -1), &mut rng);
    assert_eq!(
        report.advance,
        Advance::Extended { credited: 0, first_platform: 1, first_obstacle: 0 }
    );
    assert_eq!(world.score(), 1);
}

#[test]
fn hitting_an_obstacle_starts_over_with_the_next_tick() {
    let mut rng = StdRng::seed_from_u64(5);
    let mut world = World::new(Config::classic()).unwrap();
    world.tick(at(0, 0, -1), &mut rng);
    assert!(world.obstacles.len() >= 4);
    let out = world.on_collision(Body::Ball, Body::Obstacle(2), &mut rng);
    assert_eq!(out, Advance::Idle);
    assert_eq!(world.phase, Phase::ResetPending);
    assert_eq!(world.score(), 1);
    assert_eq!(world.platforms.len(), 3);
    let report = world.tick(at(0, 0, -2), &mut rng);
    assert!(report.reset);
    assert!(!report.fell);
    assert_eq!(world.score(), 0);
    assert_eq!(world.platforms.len(), 1);
    assert!(world.obstacles.is_empty());
}

#[test]
fn an_obstacle_hit_counts_in_either_order() {
    let mut rng = StdRng::seed_from_u64(5);
    let mut world = World::new(Config::classic()).unwrap();
    world.tick(at(0, 0, -1), &mut rng);
    world.on_collision(Body::Obstacle(0), Body::Ball, &mut rng);
    assert_eq!(world.phase, Phase::ResetPending);
}

#[test]
fn collisions_that_name_no_body_of_the_world_are_ignored() {
    let mut rng = StdRng::seed_from_u64(5);
    let mut world = World::new(Config::classic()).unwrap();
    world.tick(at(0, 0, -1), &mut rng);
    let obstacles = world.obstacles.len();
    let before = (world.platforms.clone(), world.obstacles.clone(), world.ball, world.camera);
    for (first, second) in [
        (Body::Ball, Body::Obstacle(obstacles)),
        (Body::Obstacle(usize::MAX), Body::Ball),
        (Body::Ball, Body::Platform(3)),
        (Body::Ball, Body::Unknown),
        (Body::Unknown, Body::Ball),
        (Body::Unknown, Body::Unknown),
        (Body::Ball, Body::Ball),
        (Body::Platform(0), Body::Obstacle(0)),
        (Body::Obstacle(0), Body::Obstacle(1)),
        (Body::Ball, Body::Platform(1)),
    ] {
        assert_eq!(world.on_collision(first, second, &mut rng), Advance::Idle);
        assert_eq!(world.phase, Phase::Running);
    }
    assert_eq!(before, (world.platforms.clone(), world.obstacles.clone(), world.ball, world.camera));
}

#[test]
fn touching_a_platform_scores_in_a_game_that_scores_by_collision() {
    let mut rng = StdRng::seed_from_u64(5);
    let mut world = World::new(by_collision()).unwrap();
    let out = world.on_collision(Body::Ball, Body::Platform(0), &mut rng);
    assert_eq!(out, Advance::Extended { credited: 0, first_platform: 1, first_obstacle: 0 });
    assert_eq!(world.score(), 1);
    assert!(world.platforms[0].scored);
    assert_eq!(world.platforms.len(), 2);
    assert_eq!(world.platforms[1].position.z, -100_000);
    let again = world.on_collision(Body::Ball, Body::Platform(0), &mut rng);
    assert_eq!(again, Advance::Idle);
    assert_eq!(world.score(), 1);
    assert_eq!(world.platforms.len(), 2);
    let next = world.on_collision(Body::Platform(1), Body::Ball, &mut rng);
    assert_eq!(next, Advance::Extended { credited: 1, first_platform: 2, first_obstacle: 0 });
    assert_eq!(world.score(), 2);
    assert_eq!(world.platforms[2].position.z, -200_000);
    assert!(world.is_wf());
}

#[test]
fn crossing_does_not_score_in_a_game_that_scores_by_collision() {
    let mut rng = StdRng::seed_from_u64(5);
    let mut world = World::new(by_collision()).unwrap();
    let report = world.tick(at(0, 0, -50_000), &mut rng);
    assert_eq!(report.advance, Advance::Idle);
    assert_eq!(world.score(), 0);
    assert_eq!(world.score_crossing(&mut rng), Advance::Idle);
    assert_eq!(world.platforms.len(), 1);
}

#[test]
fn a_track_at_the_edge_of_the_world_is_blocked() {
    let mut rng = StdRng::seed_from_u64(5);
    let mut world = World::new(Config::plain()).unwrap();
    world.platforms[0].position.z = -COORD_LIMIT + 99_999;
    assert!(world.is_wf());
    let report = world.tick(at(0, 0, -COORD_LIMIT), &mut rng);
    assert_eq!(report.advance, Advance::Blocked);
    assert_eq!(world.score(), 0);
    assert_eq!(world.platforms.len(), 1);
    assert!(!world.platforms[0].scored);
    world.platforms[0].position.z = -COORD_LIMIT + 100_000;
    let report = world.tick(at(0, 0, -COORD_LIMIT), &mut rng);
    assert_eq!(
        report.advance,
        Advance::Extended { credited: 0, first_platform: 1, first_obstacle: 0 }
    );
    assert_eq!(world.platforms[1].position.z, -COORD_LIMIT);
}

#[test]
fn a_ball_outside_the_world_is_taken_to_its_edge() {
    let mut rng = StdRng::seed_from_u64(5);
    let mut world = World::new(Config { fall_tolerance: 0, ..Config::plain() }).unwrap();
    let report = world.tick(
        TickInput { ball_velocity: Vec3::new(i64::MAX, i64::MIN, 7), ..at(i64::MAX, i64::MAX, i64::MAX) },
        &mut rng,
    );
    assert!(!report.reset);
    assert_eq!(world.ball.position, Vec3::new(COORD_LIMIT, COORD_LIMIT, COORD_LIMIT));
    assert_eq!(world.ball.velocity, Vec3::new(COORD_LIMIT, -COORD_LIMIT, 7));
    assert_eq!(report.velocity, world.ball.velocity);
    assert!(world.is_wf());
}

#[test]
fn a_tick_steers_the_ball() {
    let mut rng = StdRng::seed_from_u64(5);
    let mut world = World::new(Config::plain()).unwrap();
    let report = world.tick(
        TickInput { ball_velocity: Vec3::new(10, 20, 30), steer_left: true, ..at(0, 0, 0) },
        &mut rng,
    );
    assert_eq!(report.velocity, Vec3::new(-490, 20, 30));
    assert_eq!(world.ball.velocity, Vec3::new(-490, 20, 30));
    let report = world.tick(
        TickInput { ball_velocity: Vec3::new(10, 20, 30), steer_right: true, ..at(0, 0, 0) },
        &mut rng,
    );
    assert_eq!(report.velocity, Vec3::new(510, 20, 30));
}

#[test]
fn a_tick_holds_the_ball_to_the_cap_of_its_score() {
    let mut rng = StdRng::seed_from_u64(5);
    let cfg = Config { limit_speed: true, speed_base: 2_500, speed_per_point: 2_499, ..Config::plain() };
    let mut world = World::new(cfg).unwrap();
    let fast = TickInput { ball_velocity: Vec3::new(3_000, 4_000, 0), ..at(0, 0, -1) };
    let report = world.tick(fast, &mut rng);
    assert_eq!(report.velocity, Vec3::new(1_499, 1_999, 0));
    assert_eq!(report.score, 1);
    let report = world.tick(fast, &mut rng);
    assert_eq!(report.velocity, Vec3::new(2_998, 3_998, 0));
}

#[test]
fn a_tick_moves_the_camera_towards_the_ball() {
    let mut rng = StdRng::seed_from_u64(5);
    let mut world = World::new(Config::plain()).unwrap();
    world.tick(at(0, 0, -10_000), &mut rng);
    assert_eq!(world.camera.position, Vec3::new(0, 20_000, 14_500));
    let mut adaptive = World::new(Config { smoothing: Smoothing::Adaptive, ..Config::plain() }).unwrap();
    adaptive.tick(at(0, 0, -10_000), &mut rng);
    assert_eq!(adaptive.camera.position, Vec3::new(0, 20_000, 14_430));
    adaptive.follow_camera();
    assert_eq!(adaptive.camera.position, Vec3::new(0, 20_000, 13_897));
}

#[test]
fn the_same_seed_gives_the_same_game() {
    let mut first = World::new(Config::classic()).unwrap();
    let mut second = World::new(Config::classic()).unwrap();
    let mut first_rng = StdRng::seed_from_u64(314);
    let mut second_rng = StdRng::seed_from_u64(314);
    let mut z: i64 = 0;
    for _ in 0..100 {
        z -= 20_000;
        let a = first.tick(at(z / 7, z, z), &mut first_rng);
        let b = second.tick(at(z / 7, z, z), &mut second_rng);
        assert_eq!(a, b);
    }
    assert!(first.score() > 10);
    assert_eq!(first.platforms, second.platforms);
    assert_eq!(first.obstacles, second.obstacles);
    assert_eq!(first.camera, second.camera);
}

#[test]
fn events_are_handled_as_the_steps_they_name() {
    let mut rng = StdRng::seed_from_u64(5);
    let mut world = World::new(by_collision()).unwrap();
    let effect = world.handle(Event::Collision(Body::Ball, Body::Platform(0)), &mut rng);
    assert_eq!(
        effect,
        Effect::Collided(Advance::Extended { credited: 0, first_platform: 1, first_obstacle: 0 })
    );
    let effect = world.handle(Event::Tick(at(0, 0, -3)), &mut rng);
    assert_eq!(
        effect,
        Effect::Ticked(TickReport {
            velocity: Vec3::zero(),
            advance: Advance::Idle,
            fell: false,
            reset: false,
            score: 1,
        })
    );
}

#[test]
fn ill_formed_worlds_are_told_apart() {
    let good = || {
        let mut rng = StdRng::seed_from_u64(5);
        let mut world = World::new(Config::classic()).unwrap();
        world.tick(at(0, 0, -1), &mut rng);
        world
    };
    assert!(good().is_wf());
    let mut w = good();
    w.platforms.clear();
    assert!(!w.is_wf());
    let mut w = good();
    w.ball.score = 2;
    assert!(!w.is_wf());
    let mut w = good();
    w.platforms[1].scored = true;
    assert!(!w.is_wf());
    let mut w = good();
    w.platforms[2].position.x = COORD_LIMIT + 1;
    assert!(!w.is_wf());
    let mut w = good();
    w.platforms[2].roll = 10_001;
    assert!(!w.is_wf());
    let mut w = good();
    w.obstacles[0].platform = 3;
    assert!(!w.is_wf());
    let mut w = good();
    w.obstacles[0].along = 50_001;
    assert!(!w.is_wf());
    let mut w = good();
    w.obstacles[0].across = -5_001;
    assert!(!w.is_wf());
    let mut w = good();
    w.obstacles[0].lift = 2_999;
    assert!(!w.is_wf());
    let mut w = good();
    w.ball.position.y = -COORD_LIMIT - 1;
    assert!(!w.is_wf());
    let mut w = good();
    w.camera.offset = Vec3::zero();
    assert!(!w.is_wf());
    let mut w = good();
    w.camera.position.z = 2 * COORD_LIMIT + 1;
    assert!(!w.is_wf());
    let mut w = good();
    w.config.branching = Branching::Single;
    assert!(w.is_wf());
    w.config.drop = -1;
    assert!(!w.is_wf());
}
