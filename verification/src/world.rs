//! The state of a game and the steps that change it: scoring, extending the
//! track, detecting the end of a run, and starting over.

use vstd::prelude::*;
use rand::rngs::StdRng;
use crate::camera::{follow_rate, followed, Camera};
use crate::config::{Config, Trigger};
use crate::motion::{adjust, adjusted};
use crate::track::{
    anchor_index, centre, extend_track, extended, find_anchor, find_lowest_height, has_room,
    lowest_height, room_to_extend, Obstacle, Platform,
};
use crate::vector::{Vec3, COORD_LIMIT};

verus! {

/// The ball the player steers.
#[derive(Clone, Copy, Debug, PartialEq, Eq, Structural)]
pub struct Ball {
    pub position: Vec3,
    pub velocity: Vec3,
    /// How many platforms have been credited since the run began.
    pub score: u64,
}

/// Whether the run goes on or is about to start over.
#[derive(Clone, Copy, Debug, PartialEq, Eq, Structural)]
pub enum Phase {
    Running,
    /// Something has asked for the run to start over; the next tick does it.
    ResetPending,
}

/// One of the two bodies of a collision, as the world knows it.
#[derive(Clone, Copy, Debug, PartialEq, Eq, Structural)]
pub enum Body {
    Ball,
    /// The platform with this index.
    Platform(usize),
    /// The obstacle with this index.
    Obstacle(usize),
    /// A body the world does not know.
    Unknown,
}

/// What became of a chance to score.
#[derive(Clone, Copy, Debug, PartialEq, Eq, Structural)]
pub enum Advance {
    /// Nothing was earned.
    Idle,
    /// A platform was earned, but the world has no room for the platforms
    /// that would follow; nothing was changed.
    Blocked,
    /// A platform was credited and the track extended. The new platforms
    /// and obstacles are those from the given indices on.
    Extended { credited: usize, first_platform: usize, first_obstacle: usize },
}

/// The game as it stands between two steps.
#[derive(Debug)]
pub struct World {
    pub config: Config,
    pub ball: Ball,
    /// The track; the first platform is the one the run begins on.
    pub platforms: Vec<Platform>,
    pub obstacles: Vec<Obstacle>,
    pub camera: Camera,
    pub phase: Phase,
}

/// What a `World` holds, as plain mathematical values.
pub struct State {
    pub config: Config,
    pub ball: Ball,
    pub platforms: Seq<Platform>,
    pub obstacles: Seq<Obstacle>,
    pub camera: Camera,
    pub phase: Phase,
}

impl View for World {
    type V = State;

    open spec fn view(&self) -> State {
        State {
            config: self.config,
            ball: self.ball,
            platforms: self.platforms@,
            obstacles: self.obstacles@,
            camera: self.camera,
            phase: self.phase,
        }
    }
}

/// How many of the platforms have been credited.
pub open spec fn scored_count(platforms: Seq<Platform>) -> nat
    decreases platforms.len(),
{
    if platforms.len() == 0 {
        0
    } else {
        scored_count(platforms.drop_last()) + if platforms.last().scored {
            1nat
        } else {
            0nat
        }
    }
}

/// The platform `p`, credited.
pub open spec fn flagged(p: Platform) -> Platform {
    Platform { scored: true, ..p }
}

/// The platform `p`, not credited.
pub open spec fn cleared(p: Platform) -> Platform {
    Platform { scored: false, ..p }
}

/// The ball as it lies when a run begins.
pub open spec fn ball_at_rest() -> Ball {
    Ball { position: Vec3 { x: 0, y: 0, z: 0 }, velocity: Vec3 { x: 0, y: 0, z: 0 }, score: 0 }
}

impl State {
    /// Whether the state is one a game can be in.
    pub open spec fn wf(self) -> bool {
        &&& self.config.wf()
        &&& self.platforms.len() >= 1
        &&& forall|i: int| 0 <= i < self.platforms.len() ==> (#[trigger] self.platforms[i]).wf(self.config)
        &&& forall|k: int|
            0 <= k < self.obstacles.len() ==> {
                &&& (#[trigger] self.obstacles[k]).platform < self.platforms.len()
                &&& self.obstacles[k].on_platform(self.config)
            }
        &&& self.ball.position.in_bounds()
        &&& self.camera.wf(self.config)
        &&& self.ball.score == scored_count(self.platforms)
    }

    /// The state a game begins in: the ball at rest at the origin, one
    /// platform that is not credited, no obstacle, and the camera at its
    /// offset from the origin.
    pub open spec fn initial(cfg: Config) -> State {
        State {
            config: cfg,
            ball: ball_at_rest(),
            platforms: seq![Platform { position: cfg.origin_platform, roll: 0, scored: false }],
            obstacles: Seq::empty(),
            camera: Camera::initial(cfg),
            phase: Phase::Running,
        }
    }

    /// The state after starting over: the ball at rest at the origin with a
    /// score of zero, the first platform alone and not credited, no obstacle,
    /// and the camera where it stood when the run began.
    pub open spec fn reset(self) -> State {
        State {
            config: self.config,
            ball: ball_at_rest(),
            platforms: seq![cleared(self.platforms[0])],
            obstacles: Seq::empty(),
            camera: Camera::initial(self.config),
            phase: Phase::Running,
        }
    }

    /// The platform that has advanced furthest.
    pub open spec fn anchor(self) -> Platform {
        self.platforms[anchor_index(self.platforms)]
    }

    /// The lateral position that the next platforms are centred on.
    pub open spec fn base_x(self) -> int {
        centre(self.config, self.anchor(), self.ball.position.x as int)
    }

    /// Whether the world has room for the platforms that follow the anchor.
    pub open spec fn can_extend(self) -> bool {
        has_room(self.config, self.anchor(), self.base_x())
    }

    /// Whether the ball has passed the anchor and the anchor is yet to be
    /// credited, in a game that scores by crossing.
    pub open spec fn crossing_due(self) -> bool {
        &&& self.config.trigger == Trigger::Crossing
        &&& self.ball.position.z < self.anchor().position.z
        &&& !self.anchor().scored
    }

    /// Whether the ball is further below the lowest platform than the
    /// configuration tolerates.
    pub open spec fn fallen(self) -> bool {
        self.ball.position.y < lowest_height(self.platforms) - self.config.fall_tolerance
    }

    /// The state once the ball has been seen at `position` with `velocity`.
    pub open spec fn observed(self, position: Vec3, velocity: Vec3) -> State {
        State { ball: Ball { position, velocity, ..self.ball }, ..self }
    }

    /// The state once the camera has followed the ball for one tick.
    pub open spec fn camera_followed(self) -> State {
        State {
            camera: Camera {
                position: followed(
                    self.camera,
                    self.ball.position,
                    follow_rate(self.config, self.camera, self.ball.position),
                ),
                ..self.camera
            },
            ..self
        }
    }

    /// The state once something has asked for the run to start over.
    pub open spec fn with_reset_pending(self) -> State {
        State { phase: Phase::ResetPending, ..self }
    }

    /// Whether `post` is a state that crediting platform `i` may lead to: the
    /// score is one higher, platform `i` is credited, and the track is
    /// extended behind the anchor. All else is as it was.
    pub open spec fn credits(self, i: int, post: State) -> bool {
        &&& post.config == self.config
        &&& post.ball.position == self.ball.position
        &&& post.ball.velocity == self.ball.velocity
        &&& post.ball.score == self.ball.score + 1
        &&& post.camera == self.camera
        &&& post.phase == self.phase
        &&& extended(
            self.config,
            self.anchor(),
            self.base_x(),
            self.platforms.update(i, flagged(self.platforms[i])),
            self.obstacles,
            post.platforms,
            post.obstacles,
        )
    }

    /// Whether `post` and `out` are what crediting platform `i` may leave:
    /// where the world has no room, nothing changes; else the platform is
    /// credited and the track extended.
    pub open spec fn credit_step(self, i: int, post: State, out: Advance) -> bool {
        if !self.can_extend() {
            post == self && out == Advance::Blocked
        } else {
            &&& self.credits(i, post)
            &&& out == (Advance::Extended {
                credited: i as usize,
                first_platform: self.platforms.len() as usize,
                first_obstacle: self.obstacles.len() as usize,
            })
        }
    }
}

/// No more platforms are credited than there are.
pub proof fn lemma_scored_count_bound(platforms: Seq<Platform>)
    ensures
        scored_count(platforms) <= platforms.len(),
    decreases platforms.len(),
{
    if platforms.len() > 0 {
        lemma_scored_count_bound(platforms.drop_last());
    }
}

/// While one platform is yet to be credited, fewer are credited than there
/// are.
pub proof fn lemma_scored_count_below(platforms: Seq<Platform>, i: int)
    requires
        0 <= i < platforms.len(),
        !platforms[i].scored,
    ensures
        scored_count(platforms) < platforms.len(),
    decreases platforms.len(),
{
    if i == platforms.len() - 1 {
        lemma_scored_count_bound(platforms.drop_last());
    } else {
        lemma_scored_count_below(platforms.drop_last(), i);
    }
}

/// Crediting a platform that was not credited adds one to the count.
pub proof fn lemma_scored_count_flag(platforms: Seq<Platform>, i: int)
    requires
        0 <= i < platforms.len(),
        !platforms[i].scored,
    ensures
        scored_count(platforms.update(i, flagged(platforms[i]))) == scored_count(platforms) + 1,
    decreases platforms.len(),
{
    let after = platforms.update(i, flagged(platforms[i]));
    if i == platforms.len() - 1 {
        assert(after.drop_last() =~= platforms.drop_last());
    } else {
        lemma_scored_count_flag(platforms.drop_last(), i);
        assert(after.drop_last() =~= platforms.drop_last().update(
            i,
            flagged(platforms.drop_last()[i]),
        ));
    }
}

/// Platforms that are not credited add nothing to the count, however many
/// are put behind a track.
pub proof fn lemma_scored_count_extended(before: Seq<Platform>, after: Seq<Platform>)
    requires
        before.len() <= after.len(),
        forall|i: int| 0 <= i < before.len() ==> #[trigger] after[i] == before[i],
        forall|k: int| before.len() <= k < after.len() ==> !(#[trigger] after[k]).scored,
    ensures
        scored_count(after) == scored_count(before),
    decreases after.len(),
{
    if after.len() == before.len() {
        assert(after =~= before);
    } else {
        let shorter = after.drop_last();
        assert forall|i: int| 0 <= i < before.len() implies #[trigger] shorter[i] == before[i] by {
            assert(shorter[i] == after[i]);
        }
        assert forall|k: int| before.len() <= k < shorter.len() implies !(#[trigger] shorter[k]).scored by {
            assert(shorter[k] == after[k]);
        }
        lemma_scored_count_extended(before, shorter);
        assert(after.last() == after[after.len() - 1]);
    }
}

/// Counts the platforms that have been credited.
pub fn count_scored(platforms: &Vec<Platform>) -> (n: u64)
    ensures
        n == scored_count(platforms@),
{
    let mut n: u64 = 0;
    let mut k: usize = 0;
    while k < platforms.len()
        invariant
            k <= platforms@.len(),
            n == scored_count(platforms@.subrange(0, k as int)),
        decreases platforms@.len() - k,
    {
        proof {
            lemma_scored_count_bound(platforms@.subrange(0, k as int));
            assert(platforms@.subrange(0, k + 1).drop_last() =~= platforms@.subrange(0, k as int));
        }
        if platforms[k].scored {
            n = n + 1;
        }
        k = k + 1;
    }
    assert(platforms@.subrange(0, k as int) =~= platforms@);
    n
}

/// What one tick is given: the ball as the physics left it, and what the
/// player asks for.
#[derive(Clone, Copy, Debug, PartialEq, Eq, Structural)]
pub struct TickInput {
    pub ball_position: Vec3,
    pub ball_velocity: Vec3,
    pub steer_left: bool,
    pub steer_right: bool,
    pub reset_requested: bool,
}

/// What one tick has done.
#[derive(Clone, Copy, Debug, PartialEq, Eq, Structural)]
pub struct TickReport {
    /// The velocity the ball is to have from now on.
    pub velocity: Vec3,
    /// What became of the chance to score.
    pub advance: Advance,
    /// Whether the ball was found to have fallen off the track.
    pub fell: bool,
    /// Whether the run has started over.
    pub reset: bool,
    /// The score after the tick, for display.
    pub score: u64,
}

impl State {
    /// Whether the run can start over from this state: there is a first
    /// platform, and it lies within the world.
    pub open spec fn resettable(self) -> bool {
        &&& self.config.wf()
        &&& self.platforms.len() >= 1
        &&& self.platforms[0].wf(self.config)
    }

    /// Whether the collision is one between the ball and an obstacle of the
    /// world, in either order.
    pub open spec fn hits_obstacle(self, first: Body, second: Body) -> bool {
        match (first, second) {
            (Body::Ball, Body::Obstacle(k)) => k < self.obstacles.len(),
            (Body::Obstacle(k), Body::Ball) => k < self.obstacles.len(),
            _ => false,
        }
    }

    /// The platform of the world that the ball touches in the collision, in
    /// either order, if it touches one.
    pub open spec fn touched_platform(self, first: Body, second: Body) -> Option<int> {
        match (first, second) {
            (Body::Ball, Body::Platform(i)) => if i < self.platforms.len() {
                Some(i as int)
            } else {
                None
            },
            (Body::Platform(i), Body::Ball) => if i < self.platforms.len() {
                Some(i as int)
            } else {
                None
            },
            _ => None,
        }
    }

    /// Whether `post` and `out` are what a tick's chance to score by
    /// crossing may leave.
    pub open spec fn crossing_step(self, post: State, out: Advance) -> bool {
        if self.crossing_due() {
            self.credit_step(anchor_index(self.platforms), post, out)
        } else {
            post == self && out == Advance::Idle
        }
    }

    /// Whether `post` and `out` are what the start of a collision between
    /// `first` and `second` may leave. The ball on an obstacle asks for the
    /// run to start over. The ball on a platform that is not credited earns
    /// it, in a game that scores by collision. Any other collision, and one
    /// that names a body the world does not hold, changes nothing.
    pub open spec fn collision_step(self, first: Body, second: Body, post: State, out: Advance) -> bool {
        if self.hits_obstacle(first, second) {
            post == self.with_reset_pending() && out == Advance::Idle
        } else if self.config.trigger == Trigger::Collision && self.touched_platform(first, second) is Some
            && !self.platforms[self.touched_platform(first, second)->Some_0].scored {
            self.credit_step(self.touched_platform(first, second)->Some_0, post, out)
        } else {
            post == self && out == Advance::Idle
        }
    }

    /// The state a tick works on: the ball where `input` has it, its
    /// position and velocity brought into the world if they lie outside, its
    /// velocity changed by the steering and held to the cap, and the camera
    /// one tick closer to it.
    pub open spec fn seen(self, input: TickInput) -> State {
        self.observed(
            input.ball_position.nearest_in_world(),
            adjusted(
                self.config,
                input.ball_velocity.nearest_in_world(),
                input.steer_left,
                input.steer_right,
                self.ball.score as int,
            ),
        ).camera_followed()
    }

    /// Whether a tick with `input` starts the run over: a reset is pending,
    /// the player asks for one, or the ball has fallen.
    pub open spec fn reset_due(self, input: TickInput) -> bool {
        self.phase == Phase::ResetPending || input.reset_requested || self.seen(input).fallen()
    }

    /// Whether `post` and `report` are what a tick with `input` may leave.
    /// The camera follows the ball as the tick finds it. A tick that starts
    /// the run over does nothing else; any other tick takes its chance to
    /// score by crossing.
    pub open spec fn tick_step(self, input: TickInput, post: State, report: TickReport) -> bool {
        &&& report.fell == self.seen(input).fallen()
        &&& report.reset == self.reset_due(input)
        &&& report.velocity == post.ball.velocity
        &&& report.score == post.ball.score
        &&& if self.reset_due(input) {
            post == self.seen(input).reset() && report.advance == Advance::Idle
        } else {
            self.seen(input).crossing_step(post, report.advance)
        }
    }
}

impl World {
    /// Sets up a game. There is none for a configuration that is not well
    /// formed.
    pub fn new(cfg: Config) -> (w: Option<World>)
        ensures
            w is Some <==> cfg.wf(),
            w matches Some(world) ==> world@ == State::initial(cfg) && world@.wf(),
    {
        if !cfg.is_wf() {
            return None;
        }
        let mut platforms: Vec<Platform> = Vec::new();
        platforms.push(Platform { position: cfg.origin_platform, roll: 0, scored: false });
        let world = World {
            config: cfg,
            ball: Ball { position: Vec3::zero(), velocity: Vec3::zero(), score: 0 },
            platforms,
            obstacles: Vec::new(),
            camera: Camera::new(&cfg),
            phase: Phase::Running,
        };
        proof {
            assert(world@.platforms =~= State::initial(cfg).platforms);
            assert(world@.obstacles =~= State::initial(cfg).obstacles);
            assert(world@.platforms.drop_last() =~= Seq::<Platform>::empty());
            assert(scored_count(world@.platforms.drop_last()) == 0);
        }
        Some(world)
    }

    /// The score as it stands.
    pub fn score(&self) -> (n: u64)
        ensures
            n == self@.ball.score,
    {
        self.ball.score
    }

    /// Notes where the physics has left the ball.
    pub fn observe_ball(&mut self, position: Vec3, velocity: Vec3)
        requires
            old(self)@.wf(),
            position.in_bounds(),
        ensures
            final(self)@ == old(self)@.observed(position, velocity),
            final(self)@.wf(),
    {
        self.ball.position = position;
        self.ball.velocity = velocity;
    }

    /// Moves the camera one tick closer to the ball.
    pub fn follow_camera(&mut self)
        requires
            old(self)@.wf(),
        ensures
            final(self)@ == old(self)@.camera_followed(),
            final(self)@.wf(),
    {
        let cfg: Config = self.config;
        let ball: Vec3 = self.ball.position;
        self.camera.follow(&cfg, ball);
    }

    /// Asks for the run to start over with the next tick. Asking twice is
    /// asking once.
    pub fn request_reset(&mut self)
        ensures
            final(self)@ == old(self)@.with_reset_pending(),
            old(self)@.wf() ==> final(self)@.wf(),
    {
        self.phase = Phase::ResetPending;
    }

    /// Tells whether the ball has fallen off the track.
    pub fn has_fallen(&self) -> (b: bool)
        requires
            self@.wf(),
        ensures
            b == self@.fallen(),
            b == (self@.ball.position.y < lowest_height(self@.platforms)
                - self@.config.fall_tolerance),
    {
        let lowest: i64 = find_lowest_height(&self.platforms);
        self.ball.position.y < lowest - self.config.fall_tolerance
    }

    /// Starts the run over, whatever the score and however long the track.
    pub fn reset(&mut self)
        requires
            old(self)@.resettable(),
        ensures
            final(self)@ == old(self)@.reset(),
            final(self)@.wf(),
            final(self)@.platforms.len() == 1,
            final(self)@.obstacles.len() == 0,
            final(self)@.ball.score == 0,
    {
        let cfg: Config = self.config;
        self.ball = Ball { position: Vec3::zero(), velocity: Vec3::zero(), score: 0 };
        self.platforms.truncate(1);
        let first: Platform = self.platforms[0];
        self.platforms[0] = Platform { position: first.position, roll: first.roll, scored: false };
        self.obstacles.clear();
        self.camera = Camera::new(&cfg);
        self.phase = Phase::Running;
        proof {
            assert(self@.platforms =~= old(self)@.reset().platforms);
            assert(self@.obstacles =~= old(self)@.reset().obstacles);
            assert(self@.platforms.drop_last() =~= Seq::<Platform>::empty());
            assert(scored_count(self@.platforms.drop_last()) == 0);
        }
    }
}

impl World {
    /// Credits platform `index` and extends the track behind the anchor,
    /// where the world has room for it.
    fn credit(&mut self, index: usize, rng: &mut StdRng) -> (out: Advance)
        requires
            old(self)@.wf(),
            index < old(self)@.platforms.len(),
            !old(self)@.platforms[index as int].scored,
        ensures
            old(self)@.credit_step(index as int, final(self)@, out),
            final(self)@.wf(),
    {
        let cfg: Config = self.config;
        let at: usize = find_anchor(&self.platforms);
        let anchor: Platform = self.platforms[at];
        let base_x: i64 = if cfg.follow_ball {
            self.ball.position.x
        } else {
            anchor.position.x
        };
        if !room_to_extend(&cfg, anchor, base_x) {
            return Advance::Blocked;
        }
        let first_platform: usize = self.platforms.len();
        let first_obstacle: usize = self.obstacles.len();
        let earned: Platform = self.platforms[index];
        proof {
            lemma_scored_count_below(self@.platforms, index as int);
            lemma_scored_count_flag(self@.platforms, index as int);
        }
        self.platforms[index] = Platform {
            position: earned.position,
            roll: earned.roll,
            scored: true,
        };
        self.ball.score = self.ball.score + 1;
        let ghost marked = self@.platforms;
        assert(marked =~= old(self)@.platforms.update(
            index as int,
            flagged(old(self)@.platforms[index as int]),
        ));
        extend_track(&mut self.platforms, &mut self.obstacles, &cfg, anchor, base_x, rng);
        proof {
            let after = self@.platforms;
            lemma_scored_count_extended(marked, after);
            assert forall|i: int| 0 <= i < after.len() implies (#[trigger] after[i]).wf(cfg) by {
                if i < marked.len() {
                    assert(after[i] == marked[i]);
                    assert(old(self)@.platforms[i].wf(cfg));
                }
            }
            assert forall|k: int| 0 <= k < self@.obstacles.len() implies {
                &&& (#[trigger] self@.obstacles[k]).platform < after.len()
                &&& self@.obstacles[k].on_platform(cfg)
            } by {
                if k < old(self)@.obstacles.len() {
                    assert(self@.obstacles[k] == old(self)@.obstacles[k]);
                }
            }
        }
        Advance::Extended { credited: index, first_platform, first_obstacle }
    }

    /// Takes the chance to score by crossing: in a game that scores so, the
    /// anchor is credited once the ball has passed it, and the track is
    /// extended behind it.
    pub fn score_crossing(&mut self, rng: &mut StdRng) -> (out: Advance)
        requires
            old(self)@.wf(),
        ensures
            old(self)@.crossing_step(final(self)@, out),
            final(self)@.wf(),
    {
        match self.config.trigger {
            Trigger::Collision => Advance::Idle,
            Trigger::Crossing => {
                let at: usize = find_anchor(&self.platforms);
                let anchor: Platform = self.platforms[at];
                if self.ball.position.z < anchor.position.z && !anchor.scored {
                    self.credit(at, rng)
                } else {
                    Advance::Idle
                }
            },
        }
    }

    /// Takes in the start of a collision between two bodies.
    pub fn on_collision(&mut self, first: Body, second: Body, rng: &mut StdRng) -> (out: Advance)
        requires
            old(self)@.wf(),
        ensures
            old(self)@.collision_step(first, second, final(self)@, out),
            final(self)@.wf(),
    {
        let other: Body = match (first, second) {
            (Body::Ball, b) => b,
            (a, Body::Ball) => a,
            _ => Body::Unknown,
        };
        match other {
            Body::Obstacle(k) => {
                if k < self.obstacles.len() {
                    self.phase = Phase::ResetPending;
                }
                Advance::Idle
            },
            Body::Platform(i) => {
                match self.config.trigger {
                    Trigger::Crossing => Advance::Idle,
                    Trigger::Collision => {
                        if i < self.platforms.len() && !self.platforms[i].scored {
                            self.credit(i, rng)
                        } else {
                            Advance::Idle
                        }
                    },
                }
            },
            _ => Advance::Idle,
        }
    }

    /// Runs one tick, in this order: the ball is noted where the physics
    /// has left it, its velocity is steered and held to the cap, and the
    /// camera follows it. Then the tick looks for a reason to start over: a
    /// reset that a collision or a caller has left pending, the player's
    /// request, or a fall, measured from the lowest platform of the track as
    /// the tick found it. If there is one, the run starts over and nothing is
    /// scored; the camera has followed the ball to where it was before, and
    /// is then put back where it began. If there is none, the tick takes the
    /// chance to score by crossing.
    pub fn tick(&mut self, input: TickInput, rng: &mut StdRng) -> (report: TickReport)
        requires
            old(self)@.wf(),
        ensures
            old(self)@.tick_step(input, final(self)@, report),
            final(self)@.wf(),
            final(self)@.phase == Phase::Running,
    {
        let cfg: Config = self.config;
        let pending: bool = match self.phase {
            Phase::ResetPending => true,
            Phase::Running => false,
        };
        let position: Vec3 = input.ball_position.clamp_to_world();
        let incoming: Vec3 = input.ball_velocity.clamp_to_world();
        let velocity: Vec3 = adjust(
            &cfg,
            incoming,
            input.steer_left,
            input.steer_right,
            self.ball.score,
        );
        self.observe_ball(position, velocity);
        self.follow_camera();
        assert(self@ == old(self)@.seen(input));
        let fell: bool = self.has_fallen();
        if pending || input.reset_requested || fell {
            self.reset();
            TickReport {
                velocity: Vec3::zero(),
                advance: Advance::Idle,
                fell,
                reset: true,
                score: 0,
            }
        } else {
            let advance: Advance = self.score_crossing(rng);
            TickReport { velocity, advance, fell, reset: false, score: self.ball.score }
        }
    }
}

/// Tests at run time whether every platform is well formed.
fn platforms_wf(platforms: &Vec<Platform>, cfg: &Config) -> (b: bool)
    requires
        cfg.wf(),
    ensures
        b == forall|i: int| 0 <= i < platforms@.len() ==> (#[trigger] platforms@[i]).wf(*cfg),
{
    let mut i: usize = 0;
    while i < platforms.len()
        invariant
            i <= platforms@.len(),
            cfg.wf(),
            forall|j: int| 0 <= j < i ==> (#[trigger] platforms@[j]).wf(*cfg),
        decreases platforms@.len() - i,
    {
        let p: Platform = platforms[i];
        if !(p.position.is_in_bounds() && -cfg.roll_range <= p.roll && p.roll <= cfg.roll_range) {
            assert(!platforms@[i as int].wf(*cfg));
            return false;
        }
        i = i + 1;
    }
    true
}

/// Tests at run time whether every obstacle rests on a platform of a track
/// of `count` platforms.
fn obstacles_wf(obstacles: &Vec<Obstacle>, cfg: &Config, count: usize) -> (b: bool)
    requires
        cfg.wf(),
    ensures
        b == forall|k: int|
            0 <= k < obstacles@.len() ==> {
                &&& (#[trigger] obstacles@[k]).platform < count
                &&& obstacles@[k].on_platform(*cfg)
            },
{
    let half_length: i64 = cfg.platform_size.z / 2;
    let half_width: i64 = cfg.platform_size.x / 2;
    let mut k: usize = 0;
    while k < obstacles.len()
        invariant
            k <= obstacles@.len(),
            half_length == cfg.platform_size.z / 2,
            half_width == cfg.platform_size.x / 2,
            cfg.wf(),
            forall|j: int|
                0 <= j < k ==> {
                    &&& (#[trigger] obstacles@[j]).platform < count
                    &&& obstacles@[j].on_platform(*cfg)
                },
        decreases obstacles@.len() - k,
    {
        let o: Obstacle = obstacles[k];
        if !(o.platform < count && -half_length <= o.along && o.along <= half_length
            && -half_width <= o.across && o.across <= half_width && o.lift == cfg.obstacle_lift
            && 2 * (cfg.obstacle_lift - cfg.obstacle_radius) >= cfg.platform_size.y) {
            assert(!(obstacles@[k as int].platform < count && obstacles@[k as int].on_platform(
                *cfg,
            )));
            return false;
        }
        k = k + 1;
    }
    true
}

impl World {
    /// Tests at run time whether the world is one a game can be in.
    pub fn is_wf(&self) -> (b: bool)
        ensures
            b == self@.wf(),
    {
        if !self.config.is_wf() || self.platforms.len() == 0 {
            return false;
        }
        let cfg: Config = self.config;
        let platforms_ok: bool = platforms_wf(&self.platforms, &cfg);
        let obstacles_ok: bool = obstacles_wf(&self.obstacles, &cfg, self.platforms.len());
        let camera_ok: bool = self.camera.offset == cfg.camera_offset && -2 * COORD_LIMIT
            <= self.camera.position.x && self.camera.position.x <= 2 * COORD_LIMIT && -2
            * COORD_LIMIT <= self.camera.position.y && self.camera.position.y <= 2 * COORD_LIMIT
            && -2 * COORD_LIMIT <= self.camera.position.z && self.camera.position.z <= 2
            * COORD_LIMIT;
        proof {
            assert(self@.platforms == self.platforms@);
            assert(self@.obstacles == self.obstacles@);
            assert(camera_ok == self@.camera.wf(cfg));
        }
        platforms_ok && obstacles_ok && self.ball.position.is_in_bounds() && camera_ok
            && self.ball.score == count_scored(&self.platforms)
    }
}

/// What can happen to a game.
#[derive(Clone, Copy, Debug, PartialEq, Eq, Structural)]
pub enum Event {
    /// A tick of the simulation.
    Tick(TickInput),
    /// Two bodies have started to touch.
    Collision(Body, Body),
}

/// Whether `event` may lead from `pre` to `post`.
pub open spec fn steps(pre: State, event: Event, post: State) -> bool {
    match event {
        Event::Tick(input) => exists|report: TickReport| pre.tick_step(input, post, report),
        Event::Collision(first, second) => exists|out: Advance|
            pre.collision_step(first, second, post, out),
    }
}

/// Whether `event` starts the run over when it meets `pre`.
pub open spec fn starts_over(pre: State, event: Event) -> bool {
    match event {
        Event::Tick(input) => pre.reset_due(input),
        Event::Collision(_, _) => false,
    }
}

/// What an event has done.
#[derive(Clone, Copy, Debug, PartialEq, Eq, Structural)]
pub enum Effect {
    /// What a tick has done.
    Ticked(TickReport),
    /// What became of the chance to score that a collision gave.
    Collided(Advance),
}

impl World {
    /// Takes in one event, whichever it is.
    pub fn handle(&mut self, event: Event, rng: &mut StdRng) -> (effect: Effect)
        requires
            old(self)@.wf(),
        ensures
            steps(old(self)@, event, final(self)@),
            final(self)@.wf(),
            match event {
                Event::Tick(input) => effect matches Effect::Ticked(report) && old(self)@.tick_step(
                    input,
                    final(self)@,
                    report,
                ),
                Event::Collision(first, second) => effect matches Effect::Collided(out) && old(
                    self,
                )@.collision_step(first, second, final(self)@, out),
            },
    {
        match event {
            Event::Tick(input) => {
                let report: TickReport = self.tick(input, rng);
                Effect::Ticked(report)
            },
            Event::Collision(first, second) => {
                let out: Advance = self.on_collision(first, second, rng);
                Effect::Collided(out)
            },
        }
    }
}

} // verus!
