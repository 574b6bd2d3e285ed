//! The choices a game is set up with: how the track grows, what triggers
//! scoring, how deep a fall ends a run and how the camera follows.

use vstd::prelude::*;
use crate::vector::Vec3;

verus! {

/// The largest size, step or range a configuration may ask for.
pub const CONFIG_LIMIT: i64 = 1_000_000_000;

/// The most obstacles a single platform may carry.
pub const MAX_OBSTACLES: i64 = 64;

/// The largest extra roll of a platform, in thousandths of a degree.
pub const MAX_ROLL: i64 = 180_000;

/// The fixed downhill tilt of every platform about the lateral axis, in
/// thousandths of a degree.
pub const DOWNHILL_TILT: i64 = 45_000;

/// A fall of twenty units below the lowest platform ends the run.
pub const SOFT_FALL_TOLERANCE: i64 = 20_000;

/// A fall of a thousand units below the lowest platform ends the run.
pub const HARD_FALL_TOLERANCE: i64 = 1_000_000;

/// What credits a platform to the score.
#[derive(Clone, Copy, Debug, PartialEq, Eq, Structural)]
pub enum Trigger {
    /// The ball has advanced past the furthest platform.
    Crossing,
    /// The ball has started to touch a platform.
    Collision,
}

/// How many platforms each advancement adds.
#[derive(Clone, Copy, Debug, PartialEq, Eq, Structural)]
pub enum Branching {
    /// One platform ahead.
    Single,
    /// Two platforms side by side.
    Double,
}

/// How fast the camera closes in on its target.
#[derive(Clone, Copy, Debug, PartialEq, Eq, Structural)]
pub enum Smoothing {
    /// A twentieth of the remaining way per tick.
    Fixed,
    /// A twentieth per tick, and more the further the camera is from its
    /// nominal distance to the ball.
    Adaptive,
}

/// Everything that is fixed for the length of a game.
#[derive(Clone, Copy, Debug, PartialEq, Eq, Structural)]
pub struct Config {
    pub trigger: Trigger,
    pub branching: Branching,
    pub smoothing: Smoothing,
    /// Full width (`x`), thickness (`y`) and length (`z`) of a platform. The
    /// length is also the longitudinal step from one platform to the next.
    pub platform_size: Vec3,
    /// Where the first platform lies.
    pub origin_platform: Vec3,
    /// How far each platform lies below the one before it.
    pub drop: i64,
    /// The lateral perturbation of a new platform is drawn from
    /// `[-lateral_range, lateral_range]`.
    pub lateral_range: i64,
    /// Whether new platforms are centred on the ball's lateral position
    /// rather than on the platform before them.
    pub follow_ball: bool,
    /// The extra roll of a new platform is drawn from
    /// `[-roll_range, roll_range]`, in thousandths of a degree.
    pub roll_range: i64,
    /// The fewest obstacles a new platform carries.
    pub min_obstacles: i64,
    /// The most obstacles a new platform carries.
    pub max_obstacles: i64,
    /// Height of an obstacle's centre above the centre of its platform.
    pub obstacle_lift: i64,
    /// Collision radius of an obstacle.
    pub obstacle_radius: i64,
    /// How far below the lowest platform the ball may be before the run ends.
    pub fall_tolerance: i64,
    /// Where the camera wants to be, relative to the ball.
    pub camera_offset: Vec3,
    /// How much one tick of steering changes the lateral velocity.
    pub steer_step: i64,
    /// Whether the ball's speed is capped.
    pub limit_speed: bool,
    /// The cap on the ball's speed while the score is zero.
    pub speed_base: i64,
    /// How much every point of the score raises the cap.
    pub speed_per_point: i64,
}

impl Config {
    /// How many platforms each advancement adds.
    pub open spec fn lanes(self) -> int {
        match self.branching {
            Branching::Single => 1,
            Branching::Double => 2,
        }
    }

    /// The largest lateral distance between a new platform and the point the
    /// new platforms are centred on.
    pub open spec fn reach(self) -> int {
        self.lanes() * self.lateral_range
    }

    /// Whether the configuration is one a game can be played with.
    pub open spec fn wf(self) -> bool {
        &&& 0 < self.platform_size.x <= CONFIG_LIMIT
        &&& 0 < self.platform_size.y <= CONFIG_LIMIT
        &&& 0 < self.platform_size.z <= CONFIG_LIMIT
        &&& self.origin_platform.in_bounds()
        &&& 0 <= self.drop <= CONFIG_LIMIT
        &&& 0 <= self.lateral_range <= CONFIG_LIMIT
        &&& 0 <= self.roll_range <= MAX_ROLL
        &&& 0 <= self.min_obstacles <= self.max_obstacles <= MAX_OBSTACLES
        &&& 0 <= self.obstacle_radius <= CONFIG_LIMIT
        &&& 0 <= self.obstacle_lift <= CONFIG_LIMIT
        &&& self.platform_size.y + 2 * self.obstacle_radius <= 2 * self.obstacle_lift
        &&& 0 <= self.fall_tolerance <= CONFIG_LIMIT
        &&& self.camera_offset.bounded_by(CONFIG_LIMIT as int)
        &&& 0 <= self.steer_step <= CONFIG_LIMIT
        &&& 0 <= self.speed_base <= CONFIG_LIMIT
        &&& 0 <= self.speed_per_point <= CONFIG_LIMIT
    }

    /// Tests at run time what `wf` states.
    pub fn is_wf(&self) -> (b: bool)
        ensures
            b == self.wf(),
    {
        0 < self.platform_size.x && self.platform_size.x <= CONFIG_LIMIT && 0
            < self.platform_size.y && self.platform_size.y <= CONFIG_LIMIT && 0
            < self.platform_size.z && self.platform_size.z <= CONFIG_LIMIT
            && self.origin_platform.is_in_bounds() && 0 <= self.drop && self.drop <= CONFIG_LIMIT
            && 0 <= self.lateral_range && self.lateral_range <= CONFIG_LIMIT && 0
            <= self.roll_range && self.roll_range <= MAX_ROLL && 0 <= self.min_obstacles
            && self.min_obstacles <= self.max_obstacles && self.max_obstacles <= MAX_OBSTACLES
            && 0 <= self.obstacle_radius && self.obstacle_radius <= CONFIG_LIMIT
            && 0 <= self.obstacle_lift && self.obstacle_lift <= CONFIG_LIMIT
            && self.platform_size.y + 2
            * self.obstacle_radius <= 2 * self.obstacle_lift && 0 <= self.fall_tolerance
            && self.fall_tolerance <= CONFIG_LIMIT && within_config(self.camera_offset.x)
            && within_config(self.camera_offset.y) && within_config(self.camera_offset.z) && 0
            <= self.steer_step && self.steer_step <= CONFIG_LIMIT && 0 <= self.speed_base
            && self.speed_base <= CONFIG_LIMIT && 0 <= self.speed_per_point
            && self.speed_per_point <= CONFIG_LIMIT
    }

    /// The value that `classic` returns.
    pub open spec fn classic_spec() -> Config {
        Config {
            trigger: Trigger::Crossing,
            branching: Branching::Double,
            smoothing: Smoothing::Adaptive,
            platform_size: Vec3 { x: 10_000, y: 3_000, z: 100_000 },
            origin_platform: Vec3 { x: 0, y: -11_500i64, z: 0 },
            drop: 100_000,
            lateral_range: 10_000,
            follow_ball: true,
            roll_range: 10_000,
            min_obstacles: 2,
            max_obstacles: 3,
            obstacle_lift: 3_000,
            obstacle_radius: 1_000,
            fall_tolerance: SOFT_FALL_TOLERANCE,
            camera_offset: Vec3 { x: 0, y: 20_000, z: 15_000 },
            steer_step: 500,
            limit_speed: false,
            speed_base: 0,
            speed_per_point: 0,
        }
    }

    /// The value that `plain` returns.
    pub open spec fn plain_spec() -> Config {
        Config {
            branching: Branching::Single,
            smoothing: Smoothing::Fixed,
            follow_ball: false,
            roll_range: 0,
            min_obstacles: 0,
            max_obstacles: 0,
            ..Config::classic_spec()
        }
    }

    /// The game as it is usually played: the ball earns a platform by passing
    /// it, two platforms appear side by side ahead of the ball, each with two
    /// or three obstacles, and the camera catches up faster the further it
    /// has fallen behind.
    pub fn classic() -> (c: Config)
        ensures
            c == Config::classic_spec(),
            c.wf(),
    {
        Config {
            trigger: Trigger::Crossing,
            branching: Branching::Double,
            smoothing: Smoothing::Adaptive,
            platform_size: Vec3 { x: 10_000, y: 3_000, z: 100_000 },
            origin_platform: Vec3 { x: 0, y: -11_500, z: 0 },
            drop: 100_000,
            lateral_range: 10_000,
            follow_ball: true,
            roll_range: 10_000,
            min_obstacles: 2,
            max_obstacles: 3,
            obstacle_lift: 3_000,
            obstacle_radius: 1_000,
            fall_tolerance: SOFT_FALL_TOLERANCE,
            camera_offset: Vec3 { x: 0, y: 20_000, z: 15_000 },
            steer_step: 500,
            limit_speed: false,
            speed_base: 0,
            speed_per_point: 0,
        }
    }

    /// A bare track: one straight line of platforms without obstacles or
    /// roll, each placed within ten units to either side of the one before,
    /// followed by a camera that closes in at a fixed rate.
    pub fn plain() -> (c: Config)
        ensures
            c == Config::plain_spec(),
            c.wf(),
    {
        Config {
            trigger: Trigger::Crossing,
            branching: Branching::Single,
            smoothing: Smoothing::Fixed,
            platform_size: Vec3 { x: 10_000, y: 3_000, z: 100_000 },
            origin_platform: Vec3 { x: 0, y: -11_500, z: 0 },
            drop: 100_000,
            lateral_range: 10_000,
            follow_ball: false,
            roll_range: 0,
            min_obstacles: 0,
            max_obstacles: 0,
            obstacle_lift: 3_000,
            obstacle_radius: 1_000,
            fall_tolerance: SOFT_FALL_TOLERANCE,
            camera_offset: Vec3 { x: 0, y: 20_000, z: 15_000 },
            steer_step: 500,
            limit_speed: false,
            speed_base: 0,
            speed_per_point: 0,
        }
    }
}

/// Whether a size or offset is one a configuration may ask for.
fn within_config(c: i64) -> (b: bool)
    ensures
        b == crate::vector::within(c as int, CONFIG_LIMIT as int),
{
    -CONFIG_LIMIT <= c && c <= CONFIG_LIMIT
}

} // verus!
