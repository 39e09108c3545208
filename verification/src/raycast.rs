//! Ray queries: entities hit along a ray from a body's location — circle
//! and rectangle colliders alike — ordered by ascending time of impact,
//! bounded by a fixed maximum range.
//!
//! Times of impact are reported in scaled units: the returned `toi` is the
//! ray parameter multiplied by the squared length of the direction vector,
//! rounded down. One query compares every hit against the same direction, so
//! the scaled values order hits exactly as the true times do, up to the
//! rounding of the square root.

use vstd::multiset::Multiset;
use vstd::prelude::*;

use crate::math::{div_trunc128, tdiv, Vec2, COORD_LIMIT, VEL_LIMIT};
use crate::types::{Entity, Shape};
use crate::world::Physics;

verus! {

/// Farthest distance (in world units) a ray reaches.
pub const RAY_RANGE: i64 = 500;

/// Stands for an unbounded end of an axis window: wider than any scaled ray
/// parameter the bounded world can produce.
pub const WINDOW_OPEN: i128 = 100_000_000_000_000_000_000;

/// The integer square root: the largest `r` with `r * r <= v` (and `0` for
/// a negative `v`).
pub open spec fn isqrt_spec(v: int) -> int
    decreases v,
{
    if v <= 0 {
        0
    } else {
        let r = isqrt_spec(v - 1);
        if (r + 1) * (r + 1) <= v {
            r + 1
        } else {
            r
        }
    }
}

/// The integer square root brackets its argument.
pub proof fn lemma_isqrt_bracket(v: int)
    requires
        v >= 0,
    ensures
        isqrt_spec(v) >= 0,
        isqrt_spec(v) * isqrt_spec(v) <= v,
        (isqrt_spec(v) + 1) * (isqrt_spec(v) + 1) > v,
    decreases v,
{
    if v > 0 {
        lemma_isqrt_bracket(v - 1);
        let r = isqrt_spec(v - 1);
        if (r + 1) * (r + 1) <= v {
            assert((r + 2) * (r + 2) > v) by (nonlinear_arith)
                requires
                    r >= 0,
                    (r + 1) * (r + 1) > v - 1,
            ;
        }
    }
}

/// Bracketing determines the root: any `r` with `r * r <= v < (r+1) * (r+1)`
/// is the integer square root.
pub proof fn lemma_isqrt_unique(v: int, r: int)
    requires
        v >= 0,
        r >= 0,
        r * r <= v,
        (r + 1) * (r + 1) > v,
    ensures
        r == isqrt_spec(v),
{
    lemma_isqrt_bracket(v);
    let s = isqrt_spec(v);
    assert(r == s) by (nonlinear_arith)
        requires
            r >= 0,
            s >= 0,
            r * r <= v,
            (r + 1) * (r + 1) > v,
            s * s <= v,
            (s + 1) * (s + 1) > v,
    ;
}

/// The integer square root, by binary search, for values up to `10^26`.
pub fn isqrt128(v: i128) -> (r: i128)
    requires
        0 <= v <= 100_000_000_000_000_000_000_000_000i128,
    ensures
        r == isqrt_spec(v as int),
        0 <= r <= 10_000_000_000_000i128,
{
    let mut lo: i128 = 0;
    let mut hi: i128 = 10_000_000_000_000;
    proof {
        assert((hi + 1) * (hi + 1) > v) by (nonlinear_arith)
            requires
                hi == 10_000_000_000_000i128,
                v <= 100_000_000_000_000_000_000_000_000i128,
        ;
    }
    while lo < hi
        invariant
            0 <= lo <= hi <= 10_000_000_000_000i128,
            lo * lo <= v,
            (hi + 1) * (hi + 1) > v,
        decreases hi - lo,
    {
        let mid = lo + (hi - lo + 1) / 2;
        proof {
            assert(lo < mid <= hi);
            assert(0 <= mid * mid <= 200_000_000_000_000_000_000_000_000i128) by (
            nonlinear_arith)
                requires
                    0 <= mid <= 10_000_000_000_000i128,
            ;
        }
        if mid * mid <= v {
            lo = mid;
        } else {
            hi = mid - 1;
        }
    }
    proof {
        lemma_isqrt_unique(v as int, lo as int);
    }
    lo
}

/// One reported hit: the entity owning the collider, and the scaled time of
/// impact along the ray.
#[derive(Clone, Copy, Debug, PartialEq, Eq, Structural)]
pub struct RayHit {
    pub entity: Entity,
    pub toi: i64,
}

/// The scaled time of impact at which a ray from `o` along `d` first meets
/// the circle of radius `r` at `c`, or `None` when it misses: the ray must
/// reach the circle before leaving it behind and within the fixed range.
pub open spec fn ray_hit_toi(o: Vec2, d: Vec2, c: Vec2, r: int) -> Option<int> {
    let mx = c.x - o.x;
    let my = c.y - o.y;
    let dd = d.x * d.x + d.y * d.y;
    let along = mx * d.x + my * d.y;
    let cross = mx * d.y - my * d.x;
    let disc = r * r * dd - cross * cross;
    if disc >= 0 {
        let sq = isqrt_spec(disc);
        let entry = along - sq;
        let range = RAY_RANGE * isqrt_spec(dd);
        if along + sq >= 0 && entry <= range {
            Some(
                if entry >= 0 {
                    entry
                } else {
                    0
                },
            )
        } else {
            None
        }
    } else {
        None
    }
}

/// The window of scaled ray parameters over which the given axis of the ray
/// `o + t * dv` stays inside `[c - h, c + h]`, or `None` when it never does.
/// Scale: the ray parameter multiplied by `dd`; endpoints are truncated
/// toward zero, and an axis the ray does not move along is unbounded.
pub open spec fn axis_window(o: int, dv: int, c: int, h: int, dd: int) -> Option<(int, int)> {
    if dv == 0 {
        if c - h <= o <= c + h {
            Some((-(WINDOW_OPEN as int), WINDOW_OPEN as int))
        } else {
            None
        }
    } else if dv > 0 {
        Some((tdiv((c - h - o) * dd, dv), tdiv((c + h - o) * dd, dv)))
    } else {
        Some((tdiv((o - c - h) * dd, -dv), tdiv((o - c + h) * dd, -dv)))
    }
}

/// The scaled time of impact at which a ray from `o` along `d` first meets
/// the axis-aligned rectangle of half-extents `(hw, hh)` at `c`, or `None`
/// when it misses: the two axis windows and the ray's forward range must
/// overlap, and the entry is their common start, never behind the origin.
pub open spec fn ray_rect_toi(o: Vec2, d: Vec2, c: Vec2, hw: int, hh: int) -> Option<int> {
    let dd = d.x * d.x + d.y * d.y;
    match axis_window(o.x as int, d.x as int, c.x as int, hw, dd) {
        Some(wx) => match axis_window(o.y as int, d.y as int, c.y as int, hh, dd) {
            Some(wy) => {
                let lo0 = if wx.0 >= wy.0 {
                    wx.0
                } else {
                    wy.0
                };
                let lo = if lo0 >= 0 {
                    lo0
                } else {
                    0
                };
                let hi0 = if wx.1 <= wy.1 {
                    wx.1
                } else {
                    wy.1
                };
                let range = RAY_RANGE * isqrt_spec(dd);
                let hi = if hi0 <= range {
                    hi0
                } else {
                    range
                };
                if lo <= hi {
                    Some(lo)
                } else {
                    None
                }
            },
            None => None,
        },
        None => None,
    }
}

/// The sequence is ordered by ascending time of impact.
pub open spec fn sorted_by_toi(s: Seq<RayHit>) -> bool {
    forall|a: int, b: int| 0 <= a < b < s.len() ==> (#[trigger] s[a]).toi <= (#[trigger] s[b]).toi
}

impl Physics {
    /// The hit a ray from `o` along `d` scores against collider `k`:
    /// colliders standing in the world whose owner is resolvable are
    /// targets, whatever their shape; anything else is passed through.
    pub open spec fn ray_hit_of(self, o: Vec2, d: Vec2, k: int) -> Option<RayHit> {
        if self.live_coll(k) && self.world_pos_of(k) is Some && self.coll_at(k).entity is Some {
            let hit = match self.coll_at(k).shape {
                Shape::Circle { radius } => ray_hit_toi(
                    o,
                    d,
                    self.world_pos_of(k)->0,
                    radius as int,
                ),
                Shape::Rect { hw, hh } => ray_rect_toi(
                    o,
                    d,
                    self.world_pos_of(k)->0,
                    hw as int,
                    hh as int,
                ),
            };
            match hit {
                Some(t) => Some(RayHit { entity: self.coll_at(k).entity->0, toi: t as i64 }),
                None => None,
            }
        } else {
            None
        }
    }

    /// The hits scored against colliders below `n`, in slot order.
    pub open spec fn ray_hits_upto(self, o: Vec2, d: Vec2, n: int) -> Seq<RayHit>
        decreases n,
    {
        if n <= 0 {
            Seq::empty()
        } else {
            let prefix = self.ray_hits_upto(o, d, n - 1);
            match self.ray_hit_of(o, d, n - 1) {
                Some(h) => prefix.push(h),
                None => prefix,
            }
        }
    }

    /// Cast a ray from the handle's body location along `direction`: the
    /// entities whose colliders the ray meets within the fixed range,
    /// ordered by ascending time of impact. Empty when the handle's body is
    /// absent or the direction is zero.
    pub fn ray_cast(&self, handle: &crate::types::PhysicsHandle, direction: Vec2) -> (out: Vec<
        RayHit,
    >)
        requires
            self.wf(),
            direction.bounded(VEL_LIMIT as int),
        ensures
            match self.position_spec(*handle) {
                Some(iso) => {
                    if direction == Vec2::zero_spec() {
                        out@ == Seq::<RayHit>::empty()
                    } else {
                        &&& out@.to_multiset() == self.ray_hits_upto(
                            iso.pos,
                            direction,
                            self.colliders@.len() as int,
                        ).to_multiset()
                        &&& sorted_by_toi(out@)
                    }
                },
                None => out@ == Seq::<RayHit>::empty(),
            },
    {
        let mut found: Vec<RayHit> = Vec::new();
        if direction.x == 0 && direction.y == 0 {
            return found;
        }
        let center = match self.get_position(handle) {
            Some(iso) => iso.pos,
            None => {
                return found;
            },
        };
        let o = center;
        let d = direction;
        let n = self.colliders.len();
        let mut k: usize = 0;
        while k < n
            invariant
                self.wf(),
                k <= n,
                n == self.colliders@.len(),
                o.bounded(COORD_LIMIT as int),
                d.bounded(VEL_LIMIT as int),
                !(d.x == 0 && d.y == 0),
                found@ == self.ray_hits_upto(o, d, k as int),
            decreases n - k,
        {
            if let Some(hit) = self.ray_test_one(o, d, k) {
                found.push(hit);
            }
            k += 1;
        }
        let out = sort_hits(found);
        out
    }

    /// Test the ray against one collider.
    fn ray_test_one(&self, o: Vec2, d: Vec2, k: usize) -> (r: Option<RayHit>)
        requires
            self.wf(),
            (k as int) < self.colliders@.len(),
            o.bounded(COORD_LIMIT as int),
            d.bounded(VEL_LIMIT as int),
            !(d.x == 0 && d.y == 0),
        ensures
            r == self.ray_hit_of(o, d, k as int),
    {
        if let Some(c) = self.world_pos(k) {
            let coll = self.colliders[k].unwrap();
            if let Some(e) = coll.entity {
                proof {
                    assert(self.colliders@[k as int] is Some);
                    assert(self.coll_at(k as int).wf());
                }
                match coll.shape {
                    Shape::Circle { radius } => {
                        return self.ray_test_circle(o, d, c, radius, e);
                    },
                    Shape::Rect { hw, hh } => {
                        return self.ray_test_rect(o, d, c, hw, hh, e);
                    },
                }
            }
        }
        None
    }

    /// The circle case of `ray_test_one`.
    fn ray_test_circle(&self, o: Vec2, d: Vec2, c: Vec2, radius: i64, e: Entity) -> (r: Option<
        RayHit,
    >)
        requires
            o.bounded(COORD_LIMIT as int),
            d.bounded(VEL_LIMIT as int),
            c.bounded(2 * COORD_LIMIT as int),
            0 < radius <= 1_000_000,
        ensures
            r == (match ray_hit_toi(o, d, c, radius as int) {
                Some(t) => Some(RayHit { entity: e, toi: t as i64 }),
                None => None::<RayHit>,
            }),
    {
        let mx: i128 = (c.x - o.x) as i128;
        let my: i128 = (c.y - o.y) as i128;
        let dx: i128 = d.x as i128;
        let dy: i128 = d.y as i128;
        let rr: i128 = radius as i128;
        proof {
            assert({
                &&& 0 <= dx * dx <= 1_000_000_000_000i128
                &&& 0 <= dy * dy <= 1_000_000_000_000i128
                &&& -3_000_000_000_000i128 <= mx * dx <= 3_000_000_000_000i128
                &&& -3_000_000_000_000i128 <= my * dy <= 3_000_000_000_000i128
                &&& -3_000_000_000_000i128 <= mx * dy <= 3_000_000_000_000i128
                &&& -3_000_000_000_000i128 <= my * dx <= 3_000_000_000_000i128
                &&& 0 <= dx * dx + dy * dy <= 2_000_000_000_000i128
                &&& -6_000_000_000_000_000_000i128 <= mx * dx + my * dy
                    <= 6_000_000_000_000_000_000i128
                &&& -6_000_000_000_000_000_000i128 <= mx * dy - my * dx
                    <= 6_000_000_000_000_000_000i128
            }) by (nonlinear_arith)
                requires
                    -3_000_000 <= mx <= 3_000_000,
                    -3_000_000 <= my <= 3_000_000,
                    -1_000_000 <= dx <= 1_000_000,
                    -1_000_000 <= dy <= 1_000_000,
            ;
        }
        let dd: i128 = dx * dx + dy * dy;
        let along: i128 = mx * dx + my * dy;
        let cross: i128 = mx * dy - my * dx;
        proof {
            assert({
                &&& 0 < rr * rr <= 1_000_000_000_000i128
                &&& 0 <= rr * rr * dd <= 2_000_000_000_000_000_000_000_000i128
                &&& 0 <= cross * cross
                    <= 36_000_000_000_000_000_000_000_000_000_000_000_000i128
            }) by (nonlinear_arith)
                requires
                    0 < rr <= 1_000_000,
                    0 <= dd <= 2_000_000_000_000i128,
                    -6_000_000_000_000_000_000i128 <= cross
                        <= 6_000_000_000_000_000_000i128,
            ;
        }
        let disc: i128 = rr * rr * dd - cross * cross;
        if disc >= 0 {
            let sq = isqrt128(disc);
            let entry: i128 = along - sq;
            let rootdd = isqrt128(dd);
            proof {
                lemma_isqrt_bracket(dd as int);
                assert(rootdd <= 2_000_000) by (nonlinear_arith)
                    requires
                        rootdd >= 0,
                        rootdd * rootdd <= dd,
                        (rootdd + 1) * (rootdd + 1) > dd,
                        dd <= 2_000_000_000_000i128,
                ;
            }
            let range: i128 = (RAY_RANGE as i128) * rootdd;
            if along + sq >= 0 && entry <= range {
                let toi: i128 = if entry >= 0 {
                    entry
                } else {
                    0
                };
                return Some(RayHit { entity: e, toi: toi as i64 });
            }
        }
        None
    }

    /// The rectangle case of `ray_test_one`.
    fn ray_test_rect(&self, o: Vec2, d: Vec2, c: Vec2, hw: i64, hh: i64, e: Entity) -> (r: Option<
        RayHit,
    >)
        requires
            o.bounded(COORD_LIMIT as int),
            d.bounded(VEL_LIMIT as int),
            c.bounded(2 * COORD_LIMIT as int),
            0 < hw <= 1_000_000,
            0 < hh <= 1_000_000,
            !(d.x == 0 && d.y == 0),
        ensures
            r == (match ray_rect_toi(o, d, c, hw as int, hh as int) {
                Some(t) => Some(RayHit { entity: e, toi: t as i64 }),
                None => None::<RayHit>,
            }),
    {
        let dx: i128 = d.x as i128;
        let dy: i128 = d.y as i128;
        proof {
            assert({
                &&& 0 <= dx * dx <= 1_000_000_000_000i128
                &&& 0 <= dy * dy <= 1_000_000_000_000i128
                &&& (dx != 0 || dy != 0) ==> 0 < dx * dx + dy * dy
            }) by (nonlinear_arith)
                requires
                    -1_000_000 <= dx <= 1_000_000,
                    -1_000_000 <= dy <= 1_000_000,
            ;
        }
        let dd: i128 = dx * dx + dy * dy;
        let wx = match axis_window_exec(o.x, d.x, c.x, hw, dd) {
            Some(w) => w,
            None => {
                return None;
            },
        };
        let wy = match axis_window_exec(o.y, d.y, c.y, hh, dd) {
            Some(w) => w,
            None => {
                return None;
            },
        };
        let lo0: i128 = if wx.0 >= wy.0 {
            wx.0
        } else {
            wy.0
        };
        let lo: i128 = if lo0 >= 0 {
            lo0
        } else {
            0
        };
        let hi0: i128 = if wx.1 <= wy.1 {
            wx.1
        } else {
            wy.1
        };
        let rootdd = isqrt128(dd);
        proof {
            lemma_isqrt_bracket(dd as int);
            assert(rootdd <= 2_000_000) by (nonlinear_arith)
                requires
                    rootdd >= 0,
                    rootdd * rootdd <= dd,
                    (rootdd + 1) * (rootdd + 1) > dd,
                    dd <= 2_000_000_000_000i128,
            ;
        }
        let range: i128 = (RAY_RANGE as i128) * rootdd;
        let hi: i128 = if hi0 <= range {
            hi0
        } else {
            range
        };
        if lo <= hi {
            return Some(RayHit { entity: e, toi: lo as i64 });
        }
        None
    }
}

/// The executable counterpart of `axis_window`.
fn axis_window_exec(o: i64, dv: i64, c: i64, h: i64, dd: i128) -> (r: Option<(i128, i128)>)
    requires
        -2_000_000 <= o <= 2_000_000,
        -1_000_000 <= dv <= 1_000_000,
        -2_000_000 <= c <= 2_000_000,
        0 < h <= 1_000_000,
        0 < dd <= 2_000_000_000_000i128,
    ensures
        (match axis_window(o as int, dv as int, c as int, h as int, dd as int) {
            Some(w) => r is Some && (r->0).0 == w.0 && (r->0).1 == w.1,
            None => r is None,
        }),
{
    if dv == 0 {
        if c - h <= o && o <= c + h {
            Some((-WINDOW_OPEN, WINDOW_OPEN))
        } else {
            None
        }
    } else if dv > 0 {
        proof {
            lemma_axis_products(c - h - o, c + h - o, dd as int);
        }
        let a: i128 = ((c - h - o) as i128) * dd;
        let b: i128 = ((c + h - o) as i128) * dd;
        Some((div_trunc128(a, dv as i128), div_trunc128(b, dv as i128)))
    } else {
        proof {
            lemma_axis_products(o - c - h, o - c + h, dd as int);
        }
        let a: i128 = ((o - c - h) as i128) * dd;
        let b: i128 = ((o - c + h) as i128) * dd;
        let nd: i128 = -(dv as i128);
        Some((div_trunc128(a, nd), div_trunc128(b, nd)))
    }
}

/// Products of a bounded axis offset with the direction's squared length
/// stay far inside the wide machine type.
proof fn lemma_axis_products(a: int, b: int, dd: int)
    requires
        -5_000_000 <= a <= 5_000_000,
        -5_000_000 <= b <= 5_000_000,
        0 < dd <= 2_000_000_000_000,
    ensures
        -10_000_000_000_000_000_000 <= a * dd <= 10_000_000_000_000_000_000,
        -10_000_000_000_000_000_000 <= b * dd <= 10_000_000_000_000_000_000,
{
    assert({
        &&& -10_000_000_000_000_000_000 <= a * dd <= 10_000_000_000_000_000_000
        &&& -10_000_000_000_000_000_000 <= b * dd <= 10_000_000_000_000_000_000
    }) by (nonlinear_arith)
        requires
            -5_000_000 <= a <= 5_000_000,
            -5_000_000 <= b <= 5_000_000,
            0 < dd <= 2_000_000_000_000,
    ;
}

/// Order the hits by ascending time of impact; the result holds exactly the
/// given hits.
fn sort_hits(hits: Vec<RayHit>) -> (out: Vec<RayHit>)
    ensures
        out@.to_multiset() == hits@.to_multiset(),
        sorted_by_toi(out@),
{
    broadcast use vstd::seq_lib::group_to_multiset_ensures;

    let mut work = hits;
    let mut out: Vec<RayHit> = Vec::new();
    while work.len() > 0
        invariant
            out@.to_multiset().add(work@.to_multiset()) == hits@.to_multiset(),
            sorted_by_toi(out@),
            forall|a: int, b: int|
                0 <= a < out@.len() && 0 <= b < work@.len() ==> (#[trigger] out@[a]).toi <= (
                #[trigger] work@[b]).toi,
        decreases work.len(),
    {
        let n = work.len();
        let mut best: usize = 0;
        let mut m: usize = 1;
        while m < n
            invariant
                n == work@.len(),
                0 < n,
                best < m <= n || (m <= n && best == 0),
                best < n,
                forall|b: int| 0 <= b < m ==> work@[best as int].toi <= (#[trigger] work@[b]).toi,
            decreases n - m,
        {
            if work[m].toi < work[best].toi {
                best = m;
            }
            m += 1;
        }
        let ghost w0 = work@;
        let ghost o0 = out@;
        let picked = work.remove(best);
        out.push(picked);
        proof {
            assert(work@ == w0.remove(best as int));
            assert(out@ == o0.push(picked));
            assert(picked == w0[best as int]);
            vstd::seq_lib::to_multiset_remove::<RayHit>(w0, best as int);
            vstd::seq_lib::to_multiset_build::<RayHit>(o0, picked);
            vstd::seq_lib::to_multiset_contains::<RayHit>(w0, picked);
            assert(w0.contains(picked));
            assert(work@.to_multiset() =~= w0.to_multiset().remove(picked));
            assert(out@.to_multiset() =~= o0.to_multiset().insert(picked));
            assert(w0.to_multiset().count(picked) >= 1);
            assert(out@.to_multiset().add(work@.to_multiset()) =~= hits@.to_multiset());
            assert forall|a: int, b: int|
                0 <= a < out@.len() && 0 <= b < work@.len() implies (#[trigger] out@[a]).toi <= (
            #[trigger] work@[b]).toi by {
                if b < best as int {
                    assert(work@[b] == w0[b]);
                } else {
                    assert(work@[b] == w0[b + 1]);
                }
                if a < o0.len() {
                    assert(out@[a] == o0[a]);
                } else {
                    assert(out@[a] == picked);
                }
            }
        }
    }
    proof {
        assert(work@.to_multiset() =~= Multiset::<RayHit>::empty());
        assert(out@.to_multiset() =~= hits@.to_multiset());
    }
    out
}

} // verus!
