//! Pair classification: how near two placed shapes stand. The step and the
//! direct queries both go through `classify_at`, so edge detection and
//! `is_intersecting` agree by construction.

use vstd::prelude::*;

use crate::math::{dist_sq, dist_sq_exec, Vec2, COORD_LIMIT, SHAPE_LIMIT};
use crate::types::{Proximity, Shape};

verus! {

/// Width of the `WithinMargin` band around a pair's touching distance.
pub const PROX_MARGIN: i64 = 8;

pub open spec fn abs_i(v: int) -> int {
    if v < 0 {
        -v
    } else {
        v
    }
}

/// Two circles: compare the squared centre distance with the squared sum of
/// radii, then with the margin band.
pub open spec fn circ_circ(pa: Vec2, r1: int, pb: Vec2, r2: int) -> Proximity {
    let d2 = dist_sq(pa, pb);
    let rr = r1 + r2;
    if d2 <= rr * rr {
        Proximity::Intersecting
    } else if d2 <= (rr + PROX_MARGIN) * (rr + PROX_MARGIN) {
        Proximity::WithinMargin
    } else {
        Proximity::Disjoint
    }
}

/// A circle against a rectangle: measure from the circle's centre to the
/// nearest point of the rectangle.
pub open spec fn circ_rect(pc: Vec2, r: int, pr: Vec2, hw: int, hh: int) -> Proximity {
    let nx = if pc.x < pr.x - hw {
        pr.x - hw
    } else if pc.x > pr.x + hw {
        pr.x + hw
    } else {
        pc.x as int
    };
    let ny = if pc.y < pr.y - hh {
        pr.y - hh
    } else if pc.y > pr.y + hh {
        pr.y + hh
    } else {
        pc.y as int
    };
    let d2 = (pc.x - nx) * (pc.x - nx) + (pc.y - ny) * (pc.y - ny);
    if d2 <= r * r {
        Proximity::Intersecting
    } else if d2 <= (r + PROX_MARGIN) * (r + PROX_MARGIN) {
        Proximity::WithinMargin
    } else {
        Proximity::Disjoint
    }
}

/// Two rectangles: compare the centre offsets with the summed half-extents on
/// each axis.
pub open spec fn rect_rect(pa: Vec2, hw1: int, hh1: int, pb: Vec2, hw2: int, hh2: int) -> Proximity {
    let ox = abs_i(pa.x - pb.x);
    let oy = abs_i(pa.y - pb.y);
    let w = hw1 + hw2;
    let h = hh1 + hh2;
    if ox <= w && oy <= h {
        Proximity::Intersecting
    } else if ox <= w + PROX_MARGIN && oy <= h + PROX_MARGIN {
        Proximity::WithinMargin
    } else {
        Proximity::Disjoint
    }
}

/// How near the shape `sa` placed at `pa` stands to the shape `sb` placed at
/// `pb`; symmetric in its two sides.
pub open spec fn classify_at(pa: Vec2, sa: Shape, pb: Vec2, sb: Shape) -> Proximity {
    match (sa, sb) {
        (Shape::Circle { radius: r1 }, Shape::Circle { radius: r2 }) => circ_circ(
            pa,
            r1 as int,
            pb,
            r2 as int,
        ),
        (Shape::Circle { radius }, Shape::Rect { hw, hh }) => circ_rect(
            pa,
            radius as int,
            pb,
            hw as int,
            hh as int,
        ),
        (Shape::Rect { hw, hh }, Shape::Circle { radius }) => circ_rect(
            pb,
            radius as int,
            pa,
            hw as int,
            hh as int,
        ),
        (Shape::Rect { hw: hw1, hh: hh1 }, Shape::Rect { hw: hw2, hh: hh2 }) => rect_rect(
            pa,
            hw1 as int,
            hh1 as int,
            pb,
            hw2 as int,
            hh2 as int,
        ),
    }
}

/// Classification does not depend on the order of the two sides.
pub proof fn lemma_classify_sym(pa: Vec2, sa: Shape, pb: Vec2, sb: Shape)
    ensures
        classify_at(pa, sa, pb, sb) == classify_at(pb, sb, pa, sa),
{
    assert((pa.x - pb.x) * (pa.x - pb.x) == (pb.x - pa.x) * (pb.x - pa.x)) by (nonlinear_arith);
    assert((pa.y - pb.y) * (pa.y - pb.y) == (pb.y - pa.y) * (pb.y - pa.y)) by (nonlinear_arith);
}

/// Executable counterpart of `classify_at`, for positions inside twice the
/// coordinate bound (a body position plus a collider offset) and well-formed
/// shapes.
pub fn classify_exec(pa: Vec2, sa: Shape, pb: Vec2, sb: Shape) -> (r: Proximity)
    requires
        pa.bounded(2 * COORD_LIMIT as int),
        pb.bounded(2 * COORD_LIMIT as int),
        sa.wf(),
        sb.wf(),
    ensures
        r == classify_at(pa, sa, pb, sb),
{
    match (sa, sb) {
        (Shape::Circle { radius: r1 }, Shape::Circle { radius: r2 }) => {
            classify_circ_circ(pa, r1, pb, r2)
        },
        (Shape::Circle { radius }, Shape::Rect { hw, hh }) => classify_circ_rect(
            pa,
            radius,
            pb,
            hw,
            hh,
        ),
        (Shape::Rect { hw, hh }, Shape::Circle { radius }) => classify_circ_rect(
            pb,
            radius,
            pa,
            hw,
            hh,
        ),
        (Shape::Rect { hw: hw1, hh: hh1 }, Shape::Rect { hw: hw2, hh: hh2 }) => {
            classify_rect_rect(pa, hw1, hh1, pb, hw2, hh2)
        },
    }
}

fn classify_circ_circ(pa: Vec2, r1: i64, pb: Vec2, r2: i64) -> (r: Proximity)
    requires
        pa.bounded(2 * COORD_LIMIT as int),
        pb.bounded(2 * COORD_LIMIT as int),
        0 < r1 <= SHAPE_LIMIT,
        0 < r2 <= SHAPE_LIMIT,
    ensures
        r == circ_circ(pa, r1 as int, pb, r2 as int),
{
    let d2: i64 = dist_sq_exec(pa, pb);
    let rr: i64 = r1 + r2;
    let rm: i64 = rr + PROX_MARGIN;
    proof {
        assert(0 <= rr * rr <= 4_000_000_000_000i64) by (nonlinear_arith)
            requires 0 < rr <= 2_000_000;
        assert(0 <= rm * rm <= 4_100_000_000_000i64) by (nonlinear_arith)
            requires 0 < rm <= 2_000_008;
    }
    if d2 <= rr * rr {
        Proximity::Intersecting
    } else if d2 <= rm * rm {
        Proximity::WithinMargin
    } else {
        Proximity::Disjoint
    }
}

fn classify_circ_rect(pc: Vec2, r: i64, pr: Vec2, hw: i64, hh: i64) -> (res: Proximity)
    requires
        pc.bounded(2 * COORD_LIMIT as int),
        pr.bounded(2 * COORD_LIMIT as int),
        0 < r <= SHAPE_LIMIT,
        0 < hw <= SHAPE_LIMIT,
        0 < hh <= SHAPE_LIMIT,
    ensures
        res == circ_rect(pc, r as int, pr, hw as int, hh as int),
{
    let nx: i64 = if pc.x < pr.x - hw {
        pr.x - hw
    } else if pc.x > pr.x + hw {
        pr.x + hw
    } else {
        pc.x
    };
    let ny: i64 = if pc.y < pr.y - hh {
        pr.y - hh
    } else if pc.y > pr.y + hh {
        pr.y + hh
    } else {
        pc.y
    };
    let d2: i64 = dist_sq_exec(pc, Vec2 { x: nx, y: ny });
    let rm: i64 = r + PROX_MARGIN;
    proof {
        assert(0 <= r * r <= 1_000_000_000_000i64) by (nonlinear_arith)
            requires 0 < r <= 1_000_000;
        assert(0 <= rm * rm <= 1_100_000_000_000i64) by (nonlinear_arith)
            requires 0 < rm <= 1_000_008;
    }
    if d2 <= r * r {
        Proximity::Intersecting
    } else if d2 <= rm * rm {
        Proximity::WithinMargin
    } else {
        Proximity::Disjoint
    }
}

fn classify_rect_rect(pa: Vec2, hw1: i64, hh1: i64, pb: Vec2, hw2: i64, hh2: i64) -> (r: Proximity)
    requires
        pa.bounded(2 * COORD_LIMIT as int),
        pb.bounded(2 * COORD_LIMIT as int),
        0 < hw1 <= SHAPE_LIMIT,
        0 < hh1 <= SHAPE_LIMIT,
        0 < hw2 <= SHAPE_LIMIT,
        0 < hh2 <= SHAPE_LIMIT,
    ensures
        r == rect_rect(pa, hw1 as int, hh1 as int, pb, hw2 as int, hh2 as int),
{
    let dx: i64 = pa.x - pb.x;
    let dy: i64 = pa.y - pb.y;
    let ox: i64 = if dx < 0 {
        -dx
    } else {
        dx
    };
    let oy: i64 = if dy < 0 {
        -dy
    } else {
        dy
    };
    let w: i64 = hw1 + hw2;
    let h: i64 = hh1 + hh2;
    if ox <= w && oy <= h {
        Proximity::Intersecting
    } else if ox <= w + PROX_MARGIN && oy <= h + PROX_MARGIN {
        Proximity::WithinMargin
    } else {
        Proximity::Disjoint
    }
}

} // verus!
