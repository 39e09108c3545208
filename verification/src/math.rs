//! Fixed-point plane arithmetic: the simulation works on integer coordinates,
//! bounded so that every product and sum stays inside the machine types.

use vstd::prelude::*;

verus! {

/// Largest coordinate the world admits; positions are clamped into
/// `[-COORD_LIMIT, COORD_LIMIT]` on every write.
pub const COORD_LIMIT: i64 = 1_000_000;

/// Largest velocity component a body can carry.
pub const VEL_LIMIT: i64 = 1_000_000;

/// Largest half-extent or radius a collider shape can carry.
pub const SHAPE_LIMIT: i64 = 1_000_000;

/// Truncating division of `a` by a positive `b`, the rounding Rust's own `/`
/// would give (toward zero).
pub open spec fn tdiv(a: int, b: int) -> int {
    if a >= 0 {
        a / b
    } else {
        -((-a) / b)
    }
}

/// Clamp `v` into `[-limit, limit]`.
pub open spec fn clamp_spec(v: int, limit: int) -> int {
    if v < -limit {
        -limit
    } else if v > limit {
        limit
    } else {
        v
    }
}

/// The sign of `v`: `-1`, `0` or `1`.
pub open spec fn sgn(v: int) -> int {
    if v < 0 {
        -1
    } else if v > 0 {
        1
    } else {
        0
    }
}

pub fn clamp(v: i64, limit: i64) -> (r: i64)
    requires
        0 <= limit,
    ensures
        r == clamp_spec(v as int, limit as int),
{
    if v < -limit {
        -limit
    } else if v > limit {
        limit
    } else {
        v
    }
}

/// The sign of `v`, on machine integers.
pub fn sgn_exec(v: i64) -> (r: i64)
    ensures
        r == sgn(v as int),
{
    if v < 0 {
        -1
    } else if v > 0 {
        1
    } else {
        0
    }
}

/// Truncating division on machine integers; `a` is kept away from the very
/// edge of the type so that its magnitude exists.
pub fn div_trunc(a: i64, b: i64) -> (r: i64)
    requires
        b > 0,
        a > i64::MIN,
    ensures
        r == tdiv(a as int, b as int),
{
    if a >= 0 {
        a / b
    } else {
        let m: i64 = -a;
        proof {
            assert(m / b <= m) by (nonlinear_arith)
                requires m >= 0 && b > 0;
        }
        -(m / b)
    }
}

/// Truncating division on wide machine integers.
pub fn div_trunc128(a: i128, b: i128) -> (r: i128)
    requires
        b > 0,
        a > i128::MIN,
    ensures
        r == tdiv(a as int, b as int),
{
    if a >= 0 {
        a / b
    } else {
        let m: i128 = -a;
        proof {
            assert(m / b <= m) by (nonlinear_arith)
                requires m >= 0 && b > 0;
        }
        -(m / b)
    }
}

/// A quotient stays inside any bound whose product with the divisor covers
/// the dividend.
pub proof fn lemma_tdiv_in_bound(a: int, b: int, l: int)
    requires
        b >= 1,
        0 <= l,
        -(l * b) <= a <= l * b,
    ensures
        -l <= tdiv(a, b) <= l,
{
    if a >= 0 {
        assert(0 <= a / b <= l) by (nonlinear_arith)
            requires
                0 <= a <= l * b,
                b >= 1,
        ;
    } else {
        assert(0 <= (-a) / b <= l) by (nonlinear_arith)
            requires
                0 <= -a <= l * b,
                b >= 1,
        ;
    }
}

/// A point or vector of the plane, in fixed-point world units.
#[derive(Clone, Copy, Debug, PartialEq, Eq, Structural)]
pub struct Vec2 {
    pub x: i64,
    pub y: i64,
}

impl Vec2 {
    /// True when both components are bounded by `limit` in magnitude.
    pub open spec fn bounded(self, limit: int) -> bool {
        -limit <= self.x <= limit && -limit <= self.y <= limit
    }

    pub fn new(x: i64, y: i64) -> (r: Vec2)
        ensures
            r.x == x && r.y == y,
    {
        Vec2 { x, y }
    }

    pub open spec fn zero_spec() -> Vec2 {
        Vec2 { x: 0, y: 0 }
    }

    pub fn zero() -> (r: Vec2)
        ensures
            r == Vec2::zero_spec(),
    {
        Vec2 { x: 0, y: 0 }
    }
}

/// Componentwise sum; the casts are identities whenever the inputs are
/// bounded well inside the machine type.
pub open spec fn vadd(a: Vec2, b: Vec2) -> Vec2 {
    Vec2 { x: (a.x + b.x) as i64, y: (a.y + b.y) as i64 }
}

/// Componentwise sum on machine integers.
pub fn vadd_exec(a: Vec2, b: Vec2) -> (r: Vec2)
    requires
        a.bounded(COORD_LIMIT as int),
        b.bounded(COORD_LIMIT as int),
    ensures
        r == vadd(a, b),
        r.bounded(2 * COORD_LIMIT as int),
{
    Vec2 { x: a.x + b.x, y: a.y + b.y }
}

/// The squared distance between two bounded points; always fits far inside
/// `i64` when both are bounded by `COORD_LIMIT + SHAPE_LIMIT`.
pub open spec fn dist_sq(a: Vec2, b: Vec2) -> int {
    (a.x - b.x) * (a.x - b.x) + (a.y - b.y) * (a.y - b.y)
}

/// Squared distance, computed on machine integers.
pub fn dist_sq_exec(a: Vec2, b: Vec2) -> (r: i64)
    requires
        a.bounded(4 * COORD_LIMIT as int),
        b.bounded(4 * COORD_LIMIT as int),
    ensures
        r == dist_sq(a, b),
{
    let dx: i64 = a.x - b.x;
    let dy: i64 = a.y - b.y;
    proof {
        assert(0 <= dx * dx <= 64_000_000_000_000i64) by (nonlinear_arith)
            requires -8_000_000 <= dx <= 8_000_000;
        assert(0 <= dy * dy <= 64_000_000_000_000i64) by (nonlinear_arith)
            requires -8_000_000 <= dy <= 8_000_000;
    }
    dx * dx + dy * dy
}

} // verus!
