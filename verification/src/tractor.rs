//! The tractor beam: an attraction field at a point that pulls bodies
//! toward it with a strength that falls off with the squared distance, in
//! bands — far bodies feel nothing, mid-range bodies feel a boosted pull
//! and light braking, near bodies feel the plain pull and heavier braking,
//! and bodies at the centre are only braked, hard.

use vstd::prelude::*;

use crate::math::{clamp_spec, dist_sq, dist_sq_exec, div_trunc, tdiv, Vec2, COORD_LIMIT};
use crate::types::{Body, PhysicsHandle, ACCEL_LIMIT};
use crate::world::Physics;

verus! {

/// Squared distance beyond which the beam has no hold.
pub const TRACTOR_RANGE_SQ: i64 = 10_000;

/// Squared distance beyond which the pull is boosted fivefold.
pub const TRACTOR_HEAVY_SQ: i64 = 2_500;

/// Squared distance under which the beam only brakes.
pub const TRACTOR_DEAD_SQ: i64 = 25;

/// Largest strength a beam can carry.
pub const TRACTOR_LIMIT: i64 = 1_000_000_000;

/// The strength the beam exerts at squared distance `d2`: nothing when out
/// of range or in the dead centre, five times `s` in the far band, `s` in
/// the near band.
pub open spec fn tractor_strength(s: int, d2: int) -> int {
    if d2 > TRACTOR_RANGE_SQ {
        0
    } else if d2 > TRACTOR_HEAVY_SQ {
        5 * s
    } else if d2 > TRACTOR_DEAD_SQ {
        s
    } else {
        0
    }
}

/// The braking the beam applies at squared distance `d2`.
pub open spec fn tractor_damp(d2: int) -> int {
    if d2 > TRACTOR_RANGE_SQ {
        0
    } else if d2 > TRACTOR_HEAVY_SQ {
        1
    } else if d2 > TRACTOR_DEAD_SQ {
        5
    } else {
        10
    }
}

/// The queued velocity change one beam application leaves on a body: first
/// the brake against the current velocity, then the pull toward the beam,
/// each clamped as it accumulates.
pub open spec fn tractor_accum(b: Body, center: Vec2, s: int) -> Vec2 {
    let d2 = dist_sq(b.pos, center);
    let damp = tractor_damp(d2);
    let sp = tractor_strength(s, d2);
    let div = if d2 > 0 {
        d2
    } else {
        1
    };
    let a1x = clamp_spec(
        b.accel_accum.x + Physics::dampening_delta(b.vel.x as int, damp),
        ACCEL_LIMIT as int,
    );
    let a1y = clamp_spec(
        b.accel_accum.y + Physics::dampening_delta(b.vel.y as int, damp),
        ACCEL_LIMIT as int,
    );
    Vec2 {
        x: clamp_spec(a1x + tdiv(sp * (center.x - b.pos.x), div), ACCEL_LIMIT as int) as i64,
        y: clamp_spec(a1y + tdiv(sp * (center.y - b.pos.y), div), ACCEL_LIMIT as int) as i64,
    }
}

impl Physics {
    /// Pull one body toward the beam at `center` with strength `strength`:
    /// the handle's body's queued velocity change becomes `tractor_accum`,
    /// and nothing else moves; silently does nothing when the body is
    /// absent.
    pub fn tractor_pull_on(&mut self, handle: &PhysicsHandle, center: Vec2, strength: i64)
        requires
            old(self).wf(),
            center.bounded(COORD_LIMIT as int),
            0 <= strength <= TRACTOR_LIMIT,
        ensures
            final(self).wf(),
            old(self).handle_body_live(*handle) ==> old(self).body_replaced(
                *final(self),
                handle.body->0 as int,
                Body {
                    accel_accum: tractor_accum(
                        old(self).body_at(handle.body->0 as int),
                        center,
                        strength as int,
                    ),
                    ..old(self).body_at(handle.body->0 as int)
                },
            ),
            !old(self).handle_body_live(*handle) ==> *final(self) == *old(self),
    {
        let loc = match self.get_position(handle) {
            Some(iso) => iso.pos,
            None => {
                return ;
            },
        };
        proof {
            assert(old(self).bodies@[handle.body->0 as int] is Some);
            assert(old(self).body_at(handle.body->0 as int).wf());
        }
        let d2 = dist_sq_exec(loc, center);
        proof {
            assert(d2 >= 0) by (nonlinear_arith)
                requires
                    d2 == (loc.x - center.x) * (loc.x - center.x) + (loc.y - center.y) * (loc.y
                        - center.y),
            ;
        }
        let damp: i64 = if d2 > TRACTOR_RANGE_SQ {
            0
        } else if d2 > TRACTOR_HEAVY_SQ {
            1
        } else if d2 > TRACTOR_DEAD_SQ {
            5
        } else {
            10
        };
        self.apply_dampening(handle, damp);
        let sp: i64 = if d2 > TRACTOR_RANGE_SQ {
            0
        } else if d2 > TRACTOR_HEAVY_SQ {
            5 * strength
        } else if d2 > TRACTOR_DEAD_SQ {
            strength
        } else {
            0
        };
        let div: i64 = if d2 > 0 {
            d2
        } else {
            1
        };
        proof {
            if sp != 0 {
                let sdx = center.x - loc.x;
                let sdy = center.y - loc.y;
                assert(d2 == sdx * sdx + sdy * sdy) by (nonlinear_arith)
                    requires
                        d2 == (loc.x - center.x) * (loc.x - center.x) + (loc.y - center.y) * (
                        loc.y - center.y),
                        sdx == center.x - loc.x,
                        sdy == center.y - loc.y,
                ;
                assert(sdx * sdx <= d2 && sdy * sdy <= d2) by (nonlinear_arith)
                    requires
                        d2 == sdx * sdx + sdy * sdy,
                ;
                assert(-101 <= sdx <= 101 && -101 <= sdy <= 101) by (nonlinear_arith)
                    requires
                        sdx * sdx <= d2,
                        sdy * sdy <= d2,
                        d2 <= TRACTOR_RANGE_SQ,
                        TRACTOR_RANGE_SQ == 10_000,
                ;
                assert({
                    &&& -(5 * TRACTOR_LIMIT * 101) <= sp * sdx <= 5 * TRACTOR_LIMIT * 101
                    &&& -(5 * TRACTOR_LIMIT * 101) <= sp * sdy <= 5 * TRACTOR_LIMIT * 101
                }) by (nonlinear_arith)
                    requires
                        0 <= sp <= 5 * TRACTOR_LIMIT,
                        -101 <= sdx <= 101,
                        -101 <= sdy <= 101,
                ;
            }
        }
        let vcx = if sp == 0 {
            0
        } else {
            div_trunc(sp * (center.x - loc.x), div)
        };
        let vcy = if sp == 0 {
            0
        } else {
            div_trunc(sp * (center.y - loc.y), div)
        };
        proof {
            assert(vcx == tdiv(sp * (center.x - loc.x), div as int) && vcy == tdiv(
                sp * (center.y - loc.y),
                div as int,
            )) by {
                if sp == 0 {
                    assert(sp * (center.x - loc.x) == 0) by (nonlinear_arith)
                        requires
                            sp == 0,
                    ;
                    assert(sp * (center.y - loc.y) == 0) by (nonlinear_arith)
                        requires
                            sp == 0,
                    ;
                    assert(tdiv(0, div as int) == 0);
                }
            }
        }
        self.apply_velocity_change(handle, Vec2 { x: vcx, y: vcy });
        proof {
            let i = handle.body->0 as int;
            let ob = old(self).body_at(i);
            assert(self.bodies@ =~= old(self).bodies@.update(
                i,
                Some(
                    Body {
                        accel_accum: tractor_accum(ob, center, strength as int),
                        ..ob
                    },
                ),
            ));
        }
    }
}

/// The body slab after the beam at `center` with strength `s` has pulled
/// the first `k` listed handles, in order: each handle naming a live body
/// has its queued velocity change become `tractor_accum` of that body; a
/// handle with no live body changes nothing.
pub open spec fn tractor_fold(
    bodies: Seq<Option<Body>>,
    targets: Seq<PhysicsHandle>,
    center: Vec2,
    s: int,
    k: int,
) -> Seq<Option<Body>>
    decreases k,
{
    if k <= 0 {
        bodies
    } else {
        let pre = tractor_fold(bodies, targets, center, s, k - 1);
        let h = targets[k - 1];
        if h.body is Some && 0 <= h.body->0 < pre.len() && pre[h.body->0 as int] is Some {
            let b = pre[h.body->0 as int]->0;
            pre.update(
                h.body->0 as int,
                Some(Body { accel_accum: tractor_accum(b, center, s), ..b }),
            )
        } else {
            pre
        }
    }
}

/// The beam pass keeps the slab's length.
pub proof fn lemma_tractor_fold_len(
    bodies: Seq<Option<Body>>,
    targets: Seq<PhysicsHandle>,
    center: Vec2,
    s: int,
    k: int,
)
    ensures
        tractor_fold(bodies, targets, center, s, k).len() == bodies.len(),
    decreases k,
{
    if k > 0 {
        lemma_tractor_fold_len(bodies, targets, center, s, k - 1);
    }
}

/// Pull every listed body toward the beam: the counterpart of running the
/// beam's gravity over all captured objects in one tick. The bodies end
/// exactly as `tractor_fold` says: each listed live body's queued velocity
/// change becomes `tractor_accum`, in list order; nothing else moves.
pub fn tractor_pass(
    phys: &mut Physics,
    center: Vec2,
    strength: i64,
    targets: &Vec<PhysicsHandle>,
)
    requires
        old(phys).wf(),
        center.bounded(COORD_LIMIT as int),
        0 <= strength <= TRACTOR_LIMIT,
    ensures
        final(phys).wf(),
        final(phys).bodies@ == tractor_fold(
            old(phys).bodies@,
            targets@,
            center,
            strength as int,
            targets@.len() as int,
        ),
        final(phys).colliders@ == old(phys).colliders@,
        old(phys).same_logs(*final(phys)),
{
    let m = targets.len();
    let mut t: usize = 0;
    while t < m
        invariant
            t <= m,
            m == targets@.len(),
            phys.wf(),
            center.bounded(COORD_LIMIT as int),
            0 <= strength <= TRACTOR_LIMIT,
            phys.bodies@ == tractor_fold(
                old(phys).bodies@,
                targets@,
                center,
                strength as int,
                t as int,
            ),
            phys.colliders@ == old(phys).colliders@,
            old(phys).same_logs(*phys),
        decreases m - t,
    {
        let h = targets[t];
        let ghost before = phys.bodies@;
        phys.tractor_pull_on(&h, center, strength);
        proof {
            if h.body is Some && 0 <= h.body->0 < before.len() && before[h.body->0 as int]
                is Some {
                assert(phys.bodies@ =~= tractor_fold(
                    old(phys).bodies@,
                    targets@,
                    center,
                    strength as int,
                    t as int + 1,
                ));
            } else {
                assert(phys.bodies@ == before);
            }
        }
        t += 1;
    }
}

} // verus!
