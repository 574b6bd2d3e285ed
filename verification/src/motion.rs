//! What the game does to the ball's velocity: the player's steering and the
//! cap on its speed, which rises with the score.

use vstd::prelude::*;
use crate::camera::{lemma_stride_within_gap, magnitude, stride};
use crate::config::Config;
use crate::vector::{
    is_floor_sqrt, lemma_floor_sqrt_exists, sum_of_squares, within, Vec3, COORD_LIMIT,
};

verus! {

/// The lateral push of one tick of steering: to the right, to the left, or
/// none where both or neither are asked for.
pub open spec fn steered(cfg: Config, velocity: Vec3, left: bool, right: bool) -> Vec3 {
    Vec3 {
        x: (velocity.x + if right && !left {
            cfg.steer_step as int
        } else if left && !right {
            -cfg.steer_step
        } else {
            0
        }) as i64,
        ..velocity
    }
}

/// The cap on the ball's speed at a score: it grows in a straight line with
/// the score, up to the largest speed the world can hold.
pub open spec fn speed_cap(cfg: Config, score: int) -> int {
    let cap = cfg.speed_base + cfg.speed_per_point * score;
    if cap > COORD_LIMIT {
        COORD_LIMIT as int
    } else {
        cap
    }
}

/// A velocity held to a cap: unchanged while it is no longer than the cap;
/// else scaled by the cap over a number greater than its length, each
/// coordinate rounded towards zero.
pub open spec fn limited(velocity: Vec3, cap: int) -> Vec3 {
    if sum_of_squares(velocity.x as int, velocity.y as int, velocity.z as int) <= cap * cap {
        velocity
    } else {
        Vec3 {
            x: stride(velocity.x as int, cap, velocity.length() + 1) as i64,
            y: stride(velocity.y as int, cap, velocity.length() + 1) as i64,
            z: stride(velocity.z as int, cap, velocity.length() + 1) as i64,
        }
    }
}

/// The velocity the ball is to have after a tick: steered, and then held to
/// the cap where the configuration caps the speed.
pub open spec fn adjusted(cfg: Config, velocity: Vec3, left: bool, right: bool, score: int) -> Vec3 {
    let pushed = steered(cfg, velocity, left, right);
    if cfg.limit_speed {
        limited(pushed, speed_cap(cfg, score))
    } else {
        pushed
    }
}

/// Scaling a coordinate down leaves its square no greater, times the square
/// of the divisor, than its old square times the square of the factor.
proof fn lemma_stride_square(c: int, cap: int, den: int)
    requires
        0 <= cap < den,
    ensures
        stride(c, cap, den) * stride(c, cap, den) * (den * den) <= c * c * (cap * cap),
        magnitude(stride(c, cap, den)) <= magnitude(c),
{
    let m = magnitude(c);
    let q = (m * cap) / den;
    lemma_stride_within_gap(c, cap, den);
    assert(stride(c, cap, den) * stride(c, cap, den) == q * q) by (nonlinear_arith)
        requires
            stride(c, cap, den) == q || stride(c, cap, den) == -q,
    ;
    assert(c * c == m * m) by (nonlinear_arith)
        requires
            m == c || m == -c,
    ;
    assert(0 <= q && q * den <= m * cap) by (nonlinear_arith)
        requires
            q == (m * cap) / den,
            0 <= m,
            0 <= cap,
            0 < den,
    ;
    assert(q * q * (den * den) <= m * m * (cap * cap)) by (nonlinear_arith)
        requires
            0 <= q,
            0 <= q * den <= m * cap,
    ;
}

/// A velocity held to a cap is no longer than the cap, and none of its
/// coordinates has grown or changed its sign.
pub proof fn lemma_limited_within_cap(velocity: Vec3, cap: int)
    requires
        0 <= cap,
    ensures
        sum_of_squares(
            limited(velocity, cap).x as int,
            limited(velocity, cap).y as int,
            limited(velocity, cap).z as int,
        ) <= cap * cap,
        magnitude(limited(velocity, cap).x as int) <= magnitude(velocity.x as int),
        magnitude(limited(velocity, cap).y as int) <= magnitude(velocity.y as int),
        magnitude(limited(velocity, cap).z as int) <= magnitude(velocity.z as int),
        velocity.x >= 0 ==> limited(velocity, cap).x >= 0,
        velocity.x <= 0 ==> limited(velocity, cap).x <= 0,
        velocity.y >= 0 ==> limited(velocity, cap).y >= 0,
        velocity.y <= 0 ==> limited(velocity, cap).y <= 0,
        velocity.z >= 0 ==> limited(velocity, cap).z >= 0,
        velocity.z <= 0 ==> limited(velocity, cap).z <= 0,
{
    let total = sum_of_squares(velocity.x as int, velocity.y as int, velocity.z as int);
    let length = velocity.length();
    assert(0 <= total) by (nonlinear_arith)
        requires
            total == velocity.x * velocity.x + velocity.y * velocity.y + velocity.z * velocity.z,
    ;
    lemma_floor_sqrt_exists(total);
    assert(is_floor_sqrt(total, length));
    if total > cap * cap {
        let den = length + 1;
        assert(cap < den) by (nonlinear_arith)
            requires
                cap * cap < total,
                total < den * den,
                0 <= cap,
                0 < den,
        ;
        let x = stride(velocity.x as int, cap, den);
        let y = stride(velocity.y as int, cap, den);
        let z = stride(velocity.z as int, cap, den);
        lemma_stride_square(velocity.x as int, cap, den);
        lemma_stride_square(velocity.y as int, cap, den);
        lemma_stride_square(velocity.z as int, cap, den);
        lemma_stride_within_gap(velocity.x as int, cap, den);
        lemma_stride_within_gap(velocity.y as int, cap, den);
        lemma_stride_within_gap(velocity.z as int, cap, den);
        let (xx, yy, zz) = (x * x, y * y, z * z);
        let (aa, bb, cc) = (
            velocity.x * velocity.x,
            velocity.y * velocity.y,
            velocity.z * velocity.z,
        );
        let dd = den * den;
        let kk = cap * cap;
        assert(xx + yy + zz <= kk) by (nonlinear_arith)
            requires
                xx * dd <= aa * kk,
                yy * dd <= bb * kk,
                zz * dd <= cc * kk,
                aa + bb + cc < dd,
                0 <= kk,
                0 < dd,
        ;
    }
}

/// Changes a velocity by one tick of steering.
pub fn steer(cfg: &Config, velocity: Vec3, left: bool, right: bool) -> (v: Vec3)
    requires
        cfg.wf(),
        within(velocity.x as int, COORD_LIMIT as int),
    ensures
        v == steered(*cfg, velocity, left, right),
{
    let push: i64 = if right && !left {
        cfg.steer_step
    } else if left && !right {
        -cfg.steer_step
    } else {
        0
    };
    Vec3 { x: velocity.x + push, y: velocity.y, z: velocity.z }
}

/// Computes the cap on the ball's speed at a score.
pub fn cap_at(cfg: &Config, score: u64) -> (cap: i64)
    requires
        cfg.wf(),
    ensures
        cap == speed_cap(*cfg, score as int),
        0 <= cap <= COORD_LIMIT,
{
    assert(0 <= cfg.speed_per_point * score <= 1_000_000_000 * 0xffff_ffff_ffff_ffff)
        by (nonlinear_arith)
        requires
            0 <= cfg.speed_per_point <= 1_000_000_000,
            0 <= score <= 0xffff_ffff_ffff_ffff,
    ;
    let rise: i128 = (cfg.speed_per_point as i128) * (score as i128);
    let cap: i128 = (cfg.speed_base as i128) + rise;
    if cap > COORD_LIMIT as i128 {
        COORD_LIMIT
    } else {
        cap as i64
    }
}

/// Scales one coordinate by `cap` over `den`, rounded towards zero.
fn scale_coord(c: i64, cap: i64, den: u64) -> (r: i64)
    requires
        within(c as int, 2 * COORD_LIMIT),
        0 <= cap < den,
        den <= 8 * COORD_LIMIT + 1,
    ensures
        r == stride(c as int, cap as int, den as int),
{
    proof {
        lemma_stride_within_gap(c as int, cap as int, den as int);
    }
    let factor: i128 = cap as i128;
    let divisor: i128 = den as i128;
    if c >= 0 {
        let wide: i128 = c as i128;
        assert(0 <= wide * factor <= 2_000_000_000_000_000 * 8_000_000_000_000_000)
            by (nonlinear_arith)
            requires
                0 <= wide <= 2_000_000_000_000_000,
                0 <= factor <= 8_000_000_000_000_000,
        ;
        ((wide * factor) / divisor) as i64
    } else {
        let wide: i128 = -(c as i128);
        assert(0 <= wide * factor <= 2_000_000_000_000_000 * 8_000_000_000_000_000)
            by (nonlinear_arith)
            requires
                0 <= wide <= 2_000_000_000_000_000,
                0 <= factor <= 8_000_000_000_000_000,
        ;
        assert(-c * cap == wide * factor);
        -(((wide * factor) / divisor) as i64)
    }
}

/// Holds a velocity to a cap.
pub fn limit_speed(velocity: Vec3, cap: i64) -> (v: Vec3)
    requires
        velocity.bounded_by(2 * COORD_LIMIT),
        0 <= cap,
    ensures
        v == limited(velocity, cap as int),
        sum_of_squares(v.x as int, v.y as int, v.z as int) <= cap * cap,
{
    proof {
        lemma_limited_within_cap(velocity, cap as int);
    }
    let total: u128 = velocity.length_squared_of();
    assert(0 <= cap * cap <= 0x7fff_ffff_ffff_ffff * 0x7fff_ffff_ffff_ffff) by (nonlinear_arith)
        requires
            0 <= cap <= 0x7fff_ffff_ffff_ffff,
    ;
    if total <= (cap as u128) * (cap as u128) {
        velocity
    } else {
        let length: u64 = velocity.length_of();
        let den: u64 = length + 1;
        proof {
            lemma_floor_sqrt_exists(total as int);
        }
        assert(cap < den) by (nonlinear_arith)
            requires
                cap * cap < total,
                total < den * den,
                0 <= cap,
                0 < den,
        ;
        Vec3 {
            x: scale_coord(velocity.x, cap, den),
            y: scale_coord(velocity.y, cap, den),
            z: scale_coord(velocity.z, cap, den),
        }
    }
}

/// Computes the velocity the ball is to have after a tick.
pub fn adjust(cfg: &Config, velocity: Vec3, left: bool, right: bool, score: u64) -> (v: Vec3)
    requires
        cfg.wf(),
        velocity.in_bounds(),
    ensures
        v == adjusted(*cfg, velocity, left, right, score as int),
{
    let pushed: Vec3 = steer(cfg, velocity, left, right);
    if cfg.limit_speed {
        limit_speed(pushed, cap_at(cfg, score))
    } else {
        pushed
    }
}

} // verus!
