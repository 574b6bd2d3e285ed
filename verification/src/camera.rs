//! The camera that follows the ball: every tick it covers a fraction of the
//! way that is left to its target, the ball's position plus a fixed offset.

use vstd::prelude::*;
use crate::config::{Config, Smoothing};
use crate::vector::{within, Vec3, COORD_LIMIT};

verus! {

/// The denominator of the rate at which the camera closes in when the rate
/// is fixed: a twentieth of the remaining way per tick. The camera turns
/// towards the ball at the same rate under either smoothing.
pub const FIXED_RATE_DEN: i64 = 20;

/// The denominator of an adaptive rate.
pub const ADAPTIVE_RATE_DEN: i64 = 1_000_000;

/// The numerator of an adaptive rate when the camera is at its nominal
/// distance from the ball: a twentieth again.
pub const ADAPTIVE_RATE_BASE: i64 = 50_000;

/// The part of the remaining way that the camera covers in one tick.
#[derive(Clone, Copy, Debug, PartialEq, Eq, Structural)]
pub struct Rate {
    pub num: i64,
    pub den: i64,
}

/// The camera: where it is, and where it wants to be relative to the ball.
#[derive(Clone, Copy, Debug, PartialEq, Eq, Structural)]
pub struct Camera {
    pub position: Vec3,
    pub offset: Vec3,
}

impl Rate {
    /// Whether the rate is a fraction between nothing and the whole way.
    pub open spec fn wf(self) -> bool {
        0 <= self.num <= self.den && 0 < self.den <= ADAPTIVE_RATE_DEN
    }
}

/// The absolute value of a number.
pub open spec fn magnitude(a: int) -> int {
    if a < 0 {
        -a
    } else {
        a
    }
}

/// How far a coordinate moves in one tick when `gap` is left to its target:
/// the fraction `num / den` of the gap, rounded towards zero.
pub open spec fn stride(gap: int, num: int, den: int) -> int {
    if gap >= 0 {
        (gap * num) / den
    } else {
        -((-gap * num) / den)
    }
}

/// Where a coordinate stands after one tick on its way to `target`.
pub open spec fn approach(current: int, target: int, num: int, den: int) -> int {
    current + stride(target - current, num, den)
}

/// The rate at which the camera closes in: a twentieth when the rate is
/// fixed; when it is adaptive, a twentieth and a thousandth more for every
/// unit by which the camera's distance to the ball differs from the length of
/// its offset, and no more than the whole way.
pub open spec fn follow_rate(cfg: Config, camera: Camera, ball: Vec3) -> Rate {
    match cfg.smoothing {
        Smoothing::Fixed => Rate { num: 1, den: FIXED_RATE_DEN },
        Smoothing::Adaptive => {
            let error = magnitude(camera.position.distance(ball) - camera.offset.length());
            if ADAPTIVE_RATE_BASE + error >= ADAPTIVE_RATE_DEN {
                Rate { num: ADAPTIVE_RATE_DEN, den: ADAPTIVE_RATE_DEN }
            } else {
                Rate { num: (ADAPTIVE_RATE_BASE + error) as i64, den: ADAPTIVE_RATE_DEN }
            }
        },
    }
}

/// Where the camera stands after one tick of following the ball at `rate`.
pub open spec fn followed(camera: Camera, ball: Vec3, rate: Rate) -> Vec3 {
    Vec3 {
        x: approach(
            camera.position.x as int,
            ball.x + camera.offset.x,
            rate.num as int,
            rate.den as int,
        ) as i64,
        y: approach(
            camera.position.y as int,
            ball.y + camera.offset.y,
            rate.num as int,
            rate.den as int,
        ) as i64,
        z: approach(
            camera.position.z as int,
            ball.z + camera.offset.z,
            rate.num as int,
            rate.den as int,
        ) as i64,
    }
}

/// Whether `mid` lies between `from` and `to`, ends included.
pub open spec fn between(from: int, mid: int, to: int) -> bool {
    (from <= mid <= to) || (to <= mid <= from)
}

/// One tick never carries a coordinate past its target, nor away from it.
pub proof fn lemma_stride_within_gap(gap: int, num: int, den: int)
    requires
        0 <= num <= den,
        0 < den,
    ensures
        gap >= 0 ==> 0 <= stride(gap, num, den) <= gap,
        gap <= 0 ==> gap <= stride(gap, num, den) <= 0,
{
    let g = magnitude(gap);
    assert(0 <= (g * num) / den <= g) by (nonlinear_arith)
        requires
            0 <= g,
            0 <= num <= den,
            0 < den,
    ;
    if gap < 0 {
        assert(-gap * num == g * num);
    }
}

/// Moves one coordinate a tick closer to `target`.
pub fn approach_coord(current: i64, target: i64, rate: Rate) -> (r: i64)
    requires
        within(current as int, 2 * COORD_LIMIT),
        within(target as int, 2 * COORD_LIMIT),
        rate.wf(),
    ensures
        r == approach(current as int, target as int, rate.num as int, rate.den as int),
        current <= target ==> current <= r <= target,
        target <= current ==> target <= r <= current,
{
    let gap: i128 = (target - current) as i128;
    let num: i128 = rate.num as i128;
    let den: i128 = rate.den as i128;
    proof {
        lemma_stride_within_gap(gap as int, num as int, den as int);
    }
    if gap >= 0 {
        assert(0 <= gap * num <= 4_000_000_000_000_000 * 1_000_000) by (nonlinear_arith)
            requires
                0 <= gap <= 4_000_000_000_000_000,
                0 <= num <= 1_000_000,
        ;
        let step: i128 = (gap * num) / den;
        current + (step as i64)
    } else {
        assert(0 <= (-gap) * num <= 4_000_000_000_000_000 * 1_000_000) by (nonlinear_arith)
            requires
                0 <= -gap <= 4_000_000_000_000_000,
                0 <= num <= 1_000_000,
        ;
        let step: i128 = ((-gap) * num) / den;
        current - (step as i64)
    }
}

impl Camera {
    /// Whether the camera is where following can have brought it.
    pub open spec fn wf(self, cfg: Config) -> bool {
        self.offset == cfg.camera_offset && self.position.bounded_by(2 * COORD_LIMIT)
    }

    /// The camera as it stands when a run begins: at its offset from the
    /// origin.
    pub open spec fn initial(cfg: Config) -> Camera {
        Camera { position: cfg.camera_offset, offset: cfg.camera_offset }
    }

    /// Puts a camera where it stands when a run begins.
    pub fn new(cfg: &Config) -> (c: Camera)
        requires
            cfg.wf(),
        ensures
            c == Camera::initial(*cfg),
            c.wf(*cfg),
    {
        Camera { position: cfg.camera_offset, offset: cfg.camera_offset }
    }

    /// Computes the rate at which the camera closes in this tick.
    pub fn rate(&self, cfg: &Config, ball: Vec3) -> (r: Rate)
        requires
            cfg.wf(),
            self.wf(*cfg),
            ball.in_bounds(),
        ensures
            r == follow_rate(*cfg, *self, ball),
            r.wf(),
    {
        match cfg.smoothing {
            Smoothing::Fixed => Rate { num: 1, den: FIXED_RATE_DEN },
            Smoothing::Adaptive => {
                let actual: u64 = self.position.distance_to(ball);
                let nominal: u64 = self.offset.length_of();
                let error: u64 = if actual >= nominal {
                    actual - nominal
                } else {
                    nominal - actual
                };
                if error >= (ADAPTIVE_RATE_DEN - ADAPTIVE_RATE_BASE) as u64 {
                    Rate { num: ADAPTIVE_RATE_DEN, den: ADAPTIVE_RATE_DEN }
                } else {
                    Rate { num: ADAPTIVE_RATE_BASE + (error as i64), den: ADAPTIVE_RATE_DEN }
                }
            },
        }
    }

    /// Moves the camera one tick closer to its target, the ball's position
    /// plus the offset. No coordinate passes its target.
    pub fn follow(&mut self, cfg: &Config, ball: Vec3)
        requires
            cfg.wf(),
            old(self).wf(*cfg),
            ball.in_bounds(),
        ensures
            final(self).offset == old(self).offset,
            final(self).position == followed(*old(self), ball, follow_rate(*cfg, *old(self), ball)),
            final(self).wf(*cfg),
            between(old(self).position.x as int, final(self).position.x as int, ball.x + old(self).offset.x),
            between(old(self).position.y as int, final(self).position.y as int, ball.y + old(self).offset.y),
            between(old(self).position.z as int, final(self).position.z as int, ball.z + old(self).offset.z),
    {
        let rate: Rate = self.rate(cfg, ball);
        let target: Vec3 = ball.offset_by(self.offset);
        self.position = Vec3 {
            x: approach_coord(self.position.x, target.x, rate),
            y: approach_coord(self.position.y, target.y, rate),
            z: approach_coord(self.position.z, target.z, rate),
        };
    }
}

/// `base` raised to the power `exp`.
pub open spec fn power(base: int, exp: nat) -> int
    decreases exp,
{
    if exp == 0 {
        1
    } else {
        base * power(base, (exp - 1) as nat)
    }
}

/// What is left of a gap to the target after `ticks` ticks at the fixed
/// rate.
pub open spec fn gap_after(gap: int, ticks: nat) -> int
    decreases ticks,
{
    if ticks == 0 {
        gap
    } else {
        let left = gap_after(gap, (ticks - 1) as nat);
        left - stride(left, 1, FIXED_RATE_DEN as int)
    }
}

/// The camera after it has followed a ball that stays in one place for
/// `ticks` ticks at the fixed rate.
pub open spec fn followed_for(camera: Camera, ball: Vec3, ticks: nat) -> Camera
    decreases ticks,
{
    if ticks == 0 {
        camera
    } else {
        let before = followed_for(camera, ball, (ticks - 1) as nat);
        Camera { position: followed(before, ball, Rate { num: 1, den: FIXED_RATE_DEN }), ..before }
    }
}

/// One tick at the fixed rate leaves nineteen twentieths of a gap, rounded
/// up by less than one step, on the side of the target where the gap was.
pub proof fn lemma_gap_one_tick(gap: int)
    ensures
        19 * magnitude(gap) <= 20 * magnitude(gap_after(gap, 1)) <= 19 * magnitude(gap) + 19,
        magnitude(gap_after(gap, 1)) <= magnitude(gap),
        gap >= 0 ==> gap_after(gap, 1) >= 0,
        gap <= 0 ==> gap_after(gap, 1) <= 0,
{
    reveal_with_fuel(gap_after, 2);
    if gap >= 0 {
        assert(gap * 1 == gap);
    } else {
        assert(-gap * 1 == -gap);
    }
}

/// Under the fixed rate the gap to a target that stays in place shrinks
/// geometrically: after `ticks` ticks it is the gap at the start times
/// nineteen twentieths to the power `ticks`, and at most nineteen steps
/// more for what the rounding has left. It never grows and never changes
/// sides, so the camera never passes its target.
pub proof fn lemma_gap_geometric(gap: int, ticks: nat)
    ensures
        power(19, ticks) * magnitude(gap) <= power(20, ticks) * magnitude(gap_after(gap, ticks)),
        power(20, ticks) * magnitude(gap_after(gap, ticks)) <= power(19, ticks) * magnitude(gap)
            + 19 * (power(20, ticks) - power(19, ticks)),
        magnitude(gap_after(gap, ticks)) <= magnitude(gap),
        gap >= 0 ==> gap_after(gap, ticks) >= 0,
        gap <= 0 ==> gap_after(gap, ticks) <= 0,
        1 <= power(19, ticks) <= power(20, ticks),
    decreases ticks,
{
    if ticks == 0 {
        assert(power(19, 0) == 1 && power(20, 0) == 1);
    } else {
        let n = (ticks - 1) as nat;
        lemma_gap_geometric(gap, n);
        let left = gap_after(gap, n);
        lemma_gap_one_tick(left);
        assert(gap_after(left, 1) == gap_after(gap, ticks)) by {
            reveal_with_fuel(gap_after, 2);
        }
        let a = power(19, n);
        let b = power(20, n);
        let g = magnitude(gap);
        let x = magnitude(left);
        let y = magnitude(gap_after(gap, ticks));
        assert(power(19, ticks) == 19 * a);
        assert(power(20, ticks) == 20 * b);
        assert((19 * a) * g <= (20 * b) * y && (20 * b) * y <= (19 * a) * g + 19 * (20 * b - 19
            * a) && 1 <= 19 * a <= 20 * b) by (nonlinear_arith)
            requires
                a * g <= b * x,
                b * x <= a * g + 19 * (b - a),
                19 * x <= 20 * y,
                20 * y <= 19 * x + 19,
                1 <= a <= b,
                0 <= g,
                0 <= x,
                0 <= y,
        ;
    }
}

/// Following a ball that stays in one place at the fixed rate leaves, on
/// every axis, the gap that `gap_after` gives, and never brings the camera
/// further from its target than it was.
pub proof fn lemma_followed_for_gap(camera: Camera, ball: Vec3, ticks: nat)
    requires
        camera.position.bounded_by(2 * COORD_LIMIT),
        camera.offset.bounded_by(COORD_LIMIT as int),
        ball.in_bounds(),
    ensures
        followed_for(camera, ball, ticks).offset == camera.offset,
        ball.x + camera.offset.x - followed_for(camera, ball, ticks).position.x == gap_after(
            ball.x + camera.offset.x - camera.position.x,
            ticks,
        ),
        ball.y + camera.offset.y - followed_for(camera, ball, ticks).position.y == gap_after(
            ball.y + camera.offset.y - camera.position.y,
            ticks,
        ),
        ball.z + camera.offset.z - followed_for(camera, ball, ticks).position.z == gap_after(
            ball.z + camera.offset.z - camera.position.z,
            ticks,
        ),
        followed_for(camera, ball, ticks).position.bounded_by(2 * COORD_LIMIT),
        followed_for(camera, ball, ticks).position.distance_squared(
            Vec3 {
                x: (ball.x + camera.offset.x) as i64,
                y: (ball.y + camera.offset.y) as i64,
                z: (ball.z + camera.offset.z) as i64,
            },
        ) <= camera.position.distance_squared(
            Vec3 {
                x: (ball.x + camera.offset.x) as i64,
                y: (ball.y + camera.offset.y) as i64,
                z: (ball.z + camera.offset.z) as i64,
            },
        ),
    decreases ticks,
{
    let gx = ball.x + camera.offset.x - camera.position.x;
    let gy = ball.y + camera.offset.y - camera.position.y;
    let gz = ball.z + camera.offset.z - camera.position.z;
    if ticks > 0 {
        let n = (ticks - 1) as nat;
        lemma_followed_for_gap(camera, ball, n);
        lemma_gap_geometric(gx, n);
        lemma_gap_geometric(gy, n);
        lemma_gap_geometric(gz, n);
        lemma_gap_one_tick(gap_after(gx, n));
        lemma_gap_one_tick(gap_after(gy, n));
        lemma_gap_one_tick(gap_after(gz, n));
        reveal_with_fuel(gap_after, 2);
    }
    lemma_gap_geometric(gx, ticks);
    lemma_gap_geometric(gy, ticks);
    lemma_gap_geometric(gz, ticks);
    let hx = gap_after(gx, ticks);
    let hy = gap_after(gy, ticks);
    let hz = gap_after(gz, ticks);
    assert(hx * hx <= gx * gx) by (nonlinear_arith)
        requires
            magnitude(hx) <= magnitude(gx),
    ;
    assert(hy * hy <= gy * gy) by (nonlinear_arith)
        requires
            magnitude(hy) <= magnitude(gy),
    ;
    assert(hz * hz <= gz * gz) by (nonlinear_arith)
        requires
            magnitude(hz) <= magnitude(gz),
    ;
    let after = followed_for(camera, ball, ticks).position;
    assert((after.x - (ball.x + camera.offset.x)) * (after.x - (ball.x + camera.offset.x)) == hx
        * hx) by (nonlinear_arith)
        requires
            ball.x + camera.offset.x - after.x == hx,
    ;
    assert((after.y - (ball.y + camera.offset.y)) * (after.y - (ball.y + camera.offset.y)) == hy
        * hy) by (nonlinear_arith)
        requires
            ball.y + camera.offset.y - after.y == hy,
    ;
    assert((after.z - (ball.z + camera.offset.z)) * (after.z - (ball.z + camera.offset.z)) == hz
        * hz) by (nonlinear_arith)
        requires
            ball.z + camera.offset.z - after.z == hz,
    ;
    assert((camera.position.x - (ball.x + camera.offset.x)) * (camera.position.x - (ball.x
        + camera.offset.x)) == gx * gx) by (nonlinear_arith)
        requires
            ball.x + camera.offset.x - camera.position.x == gx,
    ;
    assert((camera.position.y - (ball.y + camera.offset.y)) * (camera.position.y - (ball.y
        + camera.offset.y)) == gy * gy) by (nonlinear_arith)
        requires
            ball.y + camera.offset.y - camera.position.y == gy,
    ;
    assert((camera.position.z - (ball.z + camera.offset.z)) * (camera.position.z - (ball.z
        + camera.offset.z)) == gz * gz) by (nonlinear_arith)
        requires
            ball.z + camera.offset.z - camera.position.z == gz,
    ;
}

} // verus!
