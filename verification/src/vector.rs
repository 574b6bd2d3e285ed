//! Fixed-point points and displacements in three dimensions.

use vstd::prelude::*;

verus! {

/// How many fixed-point steps make one world unit.
pub const UNIT: i64 = 1000;

/// The largest magnitude a coordinate of the ball or of a platform may have.
pub const COORD_LIMIT: i64 = 1_000_000_000_000_000;

/// A point or displacement; `x` is lateral, `y` is height, `z` runs along the
/// track and decreases as the ball advances.
#[derive(Clone, Copy, Debug, PartialEq, Eq, Structural)]
pub struct Vec3 {
    pub x: i64,
    pub y: i64,
    pub z: i64,
}

/// Whether a single coordinate has a magnitude of at most `limit`.
pub open spec fn within(c: int, limit: int) -> bool {
    -limit <= c <= limit
}

/// `c` brought into `[-limit, limit]`.
pub open spec fn clamped(c: int, limit: int) -> int {
    if c < -limit {
        -limit
    } else if c > limit {
        limit
    } else {
        c
    }
}

/// The sum of the squares of three numbers.
pub open spec fn sum_of_squares(x: int, y: int, z: int) -> int {
    x * x + y * y + z * z
}

/// Whether `r` is the square root of `n`, rounded down.
pub open spec fn is_floor_sqrt(n: int, r: int) -> bool {
    0 <= r && r * r <= n < (r + 1) * (r + 1)
}

/// The square root of `n`, rounded down.
pub open spec fn floor_sqrt(n: int) -> int {
    choose|r: int| is_floor_sqrt(n, r)
}

/// At most one number is the rounded-down square root of `n`, so any number
/// that qualifies is `floor_sqrt(n)`.
pub proof fn lemma_floor_sqrt_unique(n: int, r: int)
    requires
        is_floor_sqrt(n, r),
    ensures
        floor_sqrt(n) == r,
{
    let s = floor_sqrt(n);
    assert(is_floor_sqrt(n, s));
    assert(s == r) by (nonlinear_arith)
        requires
            0 <= r,
            0 <= s,
            r * r <= n,
            n < (r + 1) * (r + 1),
            s * s <= n,
            n < (s + 1) * (s + 1),
    ;
}

/// Every number that is not negative has a square root, rounded down.
pub proof fn lemma_floor_sqrt_exists(n: int)
    requires
        0 <= n,
    ensures
        is_floor_sqrt(n, floor_sqrt(n)),
    decreases n,
{
    if n == 0 {
        assert(is_floor_sqrt(0, 0));
    } else {
        lemma_floor_sqrt_exists(n - 1);
        let r = floor_sqrt(n - 1);
        if (r + 1) * (r + 1) <= n {
            assert(n < (r + 2) * (r + 2)) by (nonlinear_arith)
                requires
                    n - 1 < (r + 1) * (r + 1),
                    0 <= r,
            ;
            assert(is_floor_sqrt(n, r + 1));
        } else {
            assert(is_floor_sqrt(n, r));
        }
    }
}

/// The square root of `n`, rounded down, found by bisection.
pub fn isqrt(n: u128) -> (r: u64)
    ensures
        is_floor_sqrt(n as int, r as int),
        r as int == floor_sqrt(n as int),
{
    let mut lo: u128 = 0;
    let mut hi: u128 = 0x1_0000_0000_0000_0000;
    assert(n < hi * hi) by (nonlinear_arith)
        requires
            hi == 0x1_0000_0000_0000_0000,
            n <= 0xffff_ffff_ffff_ffff_ffff_ffff_ffff_ffff,
    ;
    while hi - lo > 1
        invariant
            lo < hi <= 0x1_0000_0000_0000_0000,
            lo * lo <= n < hi * hi,
        decreases hi - lo,
    {
        let mid: u128 = lo + (hi - lo) / 2;
        assert(mid * mid <= 0xffff_ffff_ffff_ffff * 0xffff_ffff_ffff_ffff) by (nonlinear_arith)
            requires
                mid <= 0xffff_ffff_ffff_ffff,
        ;
        if mid * mid <= n {
            lo = mid;
        } else {
            hi = mid;
        }
    }
    proof {
        lemma_floor_sqrt_unique(n as int, lo as int);
    }
    lo as u64
}

impl Vec3 {
    /// Whether every coordinate has a magnitude of at most `limit`.
    pub open spec fn bounded_by(self, limit: int) -> bool {
        within(self.x as int, limit) && within(self.y as int, limit) && within(
            self.z as int,
            limit,
        )
    }

    /// Whether the point lies within the world.
    pub open spec fn in_bounds(self) -> bool {
        self.bounded_by(COORD_LIMIT as int)
    }

    /// The nearest point that lies within the world.
    pub open spec fn nearest_in_world(self) -> Vec3 {
        Vec3 {
            x: clamped(self.x as int, COORD_LIMIT as int) as i64,
            y: clamped(self.y as int, COORD_LIMIT as int) as i64,
            z: clamped(self.z as int, COORD_LIMIT as int) as i64,
        }
    }

    /// The squared distance between two points.
    pub open spec fn distance_squared(self, other: Vec3) -> int {
        sum_of_squares(self.x - other.x, self.y - other.y, self.z - other.z)
    }

    /// The distance between two points, rounded down.
    pub open spec fn distance(self, other: Vec3) -> int {
        floor_sqrt(self.distance_squared(other))
    }

    /// The length of a displacement, rounded down.
    pub open spec fn length(self) -> int {
        floor_sqrt(sum_of_squares(self.x as int, self.y as int, self.z as int))
    }

    pub fn new(x: i64, y: i64, z: i64) -> (v: Vec3)
        ensures
            v == (Vec3 { x, y, z }),
    {
        Vec3 { x, y, z }
    }

    /// The origin of the world.
    pub fn zero() -> (v: Vec3)
        ensures
            v == (Vec3 { x: 0, y: 0, z: 0 }),
    {
        Vec3 { x: 0, y: 0, z: 0 }
    }

    /// Tests at run time what `in_bounds` states.
    pub fn is_in_bounds(&self) -> (b: bool)
        ensures
            b == self.in_bounds(),
    {
        -COORD_LIMIT <= self.x && self.x <= COORD_LIMIT && -COORD_LIMIT <= self.y && self.y
            <= COORD_LIMIT && -COORD_LIMIT <= self.z && self.z <= COORD_LIMIT
    }

    /// The nearest point that lies within the world: each coordinate is
    /// clamped on its own, and a point already within the world is unchanged.
    pub fn clamp_to_world(self) -> (v: Vec3)
        ensures
            v == self.nearest_in_world(),
            v.in_bounds(),
            self.in_bounds() ==> v == self,
    {
        Vec3 {
            x: clamp_coord(self.x),
            y: clamp_coord(self.y),
            z: clamp_coord(self.z),
        }
    }

    /// The sum of a point and a displacement.
    pub fn offset_by(self, d: Vec3) -> (v: Vec3)
        requires
            self.bounded_by(2 * COORD_LIMIT),
            d.bounded_by(2 * COORD_LIMIT),
        ensures
            v.x == self.x + d.x,
            v.y == self.y + d.y,
            v.z == self.z + d.z,
    {
        Vec3 { x: self.x + d.x, y: self.y + d.y, z: self.z + d.z }
    }

    /// The distance to `other`, rounded down to a whole fixed-point step.
    pub fn distance_to(self, other: Vec3) -> (d: u64)
        requires
            self.bounded_by(2 * COORD_LIMIT),
            other.bounded_by(2 * COORD_LIMIT),
        ensures
            d as int == self.distance(other),
            d <= 8 * COORD_LIMIT,
    {
        let dx: i128 = (self.x - other.x) as i128;
        let dy: i128 = (self.y - other.y) as i128;
        let dz: i128 = (self.z - other.z) as i128;
        let bound: i128 = 4 * (COORD_LIMIT as i128);
        assert(0 <= dx * dx <= bound * bound && 0 <= dy * dy <= bound * bound && 0 <= dz * dz
            <= bound * bound) by (nonlinear_arith)
            requires
                -bound <= dx <= bound,
                -bound <= dy <= bound,
                -bound <= dz <= bound,
        ;
        assert(bound * bound == 16_000_000_000_000_000_000_000_000_000_000) by (nonlinear_arith)
            requires
                bound == 4_000_000_000_000_000,
        ;
        let total: u128 = (dx * dx + dy * dy + dz * dz) as u128;
        let d: u64 = isqrt(total);
        assert(d <= 8 * COORD_LIMIT) by (nonlinear_arith)
            requires
                d * d <= total,
                total <= 48_000_000_000_000_000_000_000_000_000_000,
                COORD_LIMIT == 1_000_000_000_000_000,
        ;
        d
    }

    /// The square of the length of the displacement.
    pub fn length_squared_of(self) -> (n: u128)
        requires
            self.bounded_by(2 * COORD_LIMIT),
        ensures
            n == sum_of_squares(self.x as int, self.y as int, self.z as int),
    {
        let x: i128 = self.x as i128;
        let y: i128 = self.y as i128;
        let z: i128 = self.z as i128;
        let bound: i128 = 2 * (COORD_LIMIT as i128);
        assert(0 <= x * x <= bound * bound && 0 <= y * y <= bound * bound && 0 <= z * z <= bound
            * bound) by (nonlinear_arith)
            requires
                -bound <= x <= bound,
                -bound <= y <= bound,
                -bound <= z <= bound,
        ;
        assert(bound * bound == 4_000_000_000_000_000_000_000_000_000_000) by (nonlinear_arith)
            requires
                bound == 2_000_000_000_000_000,
        ;
        (x * x + y * y + z * z) as u128
    }

    /// The length of the displacement, rounded down to a whole fixed-point step.
    pub fn length_of(self) -> (d: u64)
        requires
            self.bounded_by(2 * COORD_LIMIT),
        ensures
            d as int == self.length(),
            d <= 8 * COORD_LIMIT,
    {
        self.distance_to(Vec3 { x: 0, y: 0, z: 0 })
    }
}

/// One coordinate brought into the world.
pub fn clamp_coord(c: i64) -> (r: i64)
    ensures
        r == clamped(c as int, COORD_LIMIT as int),
        within(r as int, COORD_LIMIT as int),
{
    if c < -COORD_LIMIT {
        -COORD_LIMIT
    } else if c > COORD_LIMIT {
        COORD_LIMIT
    } else {
        c
    }
}

} // verus!
