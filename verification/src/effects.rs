//! Dynamic effects: an object such as an explosion is a tagged variant with
//! two states. The initial state applies its one-time effect — an impulse on
//! every body, falling off with the cube of the distance — and then becomes
//! the passive decaying state. The transition happens at most once per
//! object and is never reversed.

use vstd::prelude::*;

use crate::math::{
    clamp_spec, dist_sq, dist_sq_exec, div_trunc128, lemma_tdiv_in_bound, tdiv, Vec2, COORD_LIMIT,
};
use crate::raycast::{isqrt128, isqrt_spec, lemma_isqrt_bracket};
use crate::types::{Body, PhysicsHandle, FORCE_LIMIT};
use crate::world::Physics;

verus! {

/// Distances below this floor count as this floor, so the falloff never
/// divides by a vanishing cube.
pub const EXPLOSION_NEAR: i64 = 10;

/// Largest strength an explosion can carry.
pub const STRENGTH_LIMIT: i64 = 1_000_000_000_000;

/// A one-shot effect object: first combusting (the initial state, whose
/// effect is applied exactly once), then expanding (the passive decaying
/// state). `particles` carries the sprite numbers the host may scatter.
#[derive(Debug, Clone)]
pub enum Explosion {
    Combusting { strength: i64, particles: Vec<usize> },
    Expanding { time: i64 },
}

impl Explosion {
    /// The one-time effect has already been applied.
    pub open spec fn combusted_spec(&self) -> bool {
        !(self is Combusting)
    }

    /// Whether this effect has passed into its passive state.
    pub fn combusted(&self) -> (r: bool)
        ensures
            r == self.combusted_spec(),
    {
        match self {
            Explosion::Combusting { .. } => false,
            _ => true,
        }
    }

    /// What one pass makes of an effect: a combusting effect has spent its
    /// charge and expands; an expanding effect is left alone.
    pub open spec fn after_pass(self) -> Explosion {
        if self is Combusting {
            Explosion::Expanding { time: 0 }
        } else {
            self
        }
    }
}

/// The transition from initial to passive happens at most once and is never
/// reversed: a pass moves every effect into the passive state, and an
/// effect that is already passive is left exactly as it stands, under any
/// number of further passes.
pub proof fn lemma_transition_once(e: Explosion)
    ensures
        e.after_pass().combusted_spec(),
        e.combusted_spec() ==> e.after_pass() == e,
        e.after_pass().after_pass() == e.after_pass(),
{
}

/// The impulse an explosion of strength `s` at `center` gives a body at
/// `loc`, at any distance: along the separation, scaled by `s` over the cube
/// of the distance (floored at the near limit), so its magnitude decays with
/// the square of the distance.
pub open spec fn explosion_impulse(center: Vec2, loc: Vec2, s: int) -> Vec2 {
    let d2 = dist_sq(loc, center);
    let d0 = isqrt_spec(d2);
    let d = if d0 < EXPLOSION_NEAR {
        EXPLOSION_NEAR as int
    } else {
        d0
    };
    Vec2 {
        x: tdiv(s * (loc.x - center.x), d * d * d) as i64,
        y: tdiv(s * (loc.y - center.y), d * d * d) as i64,
    }
}

impl Physics {
    /// Apply one explosion's impulse to one body: the handle's body gains
    /// `explosion_impulse` of its own position, and nothing else changes;
    /// silently does nothing when the body is absent.
    pub fn apply_explosion_impulse(&mut self, handle: &PhysicsHandle, center: Vec2, strength: i64)
        requires
            old(self).wf(),
            center.bounded(COORD_LIMIT as int),
            0 <= strength <= STRENGTH_LIMIT,
        ensures
            final(self).wf(),
            old(self).handle_body_live(*handle) ==> old(self).body_replaced(
                *final(self),
                handle.body->0 as int,
                Body {
                    force_accum: Vec2 {
                        x: clamp_spec(
                            old(self).body_at(handle.body->0 as int).force_accum.x
                                + explosion_impulse(
                                center,
                                old(self).body_at(handle.body->0 as int).pos,
                                strength as int,
                            ).x,
                            FORCE_LIMIT as int,
                        ) as i64,
                        y: clamp_spec(
                            old(self).body_at(handle.body->0 as int).force_accum.y
                                + explosion_impulse(
                                center,
                                old(self).body_at(handle.body->0 as int).pos,
                                strength as int,
                            ).y,
                            FORCE_LIMIT as int,
                        ) as i64,
                    },
                    ..old(self).body_at(handle.body->0 as int)
                },
            ),
            !old(self).handle_body_live(*handle) ==> *final(self) == *old(self),
    {
        let loc = match self.get_position(handle) {
            Some(iso) => iso.pos,
            None => {
                return ;
            },
        };
        proof {
            assert(old(self).bodies@[handle.body->0 as int] is Some);
            assert(old(self).body_at(handle.body->0 as int).wf());
        }
        let d2 = dist_sq_exec(loc, center);
        proof {
            assert(d2 >= 0) by (nonlinear_arith)
                requires
                    d2 == (loc.x - center.x) * (loc.x - center.x) + (loc.y - center.y) * (loc.y
                        - center.y),
            ;
        }
        proof {
            assert(d2 <= 8_000_000_000_000i64) by (nonlinear_arith)
                requires
                    d2 == (loc.x - center.x) * (loc.x - center.x) + (loc.y - center.y) * (loc.y
                        - center.y),
                    -2_000_000 <= loc.x - center.x <= 2_000_000,
                    -2_000_000 <= loc.y - center.y <= 2_000_000,
            ;
        }
        let d0 = isqrt128(d2 as i128);
        proof {
            lemma_isqrt_bracket(d2 as int);
            assert(d0 <= 3_000_000) by (nonlinear_arith)
                requires
                    d0 >= 0,
                    d0 * d0 <= d2,
                    d2 <= 9_000_000_000_000i64,
            ;
        }
        let d: i64 = if d0 < EXPLOSION_NEAR as i128 {
            EXPLOSION_NEAR
        } else {
            d0 as i64
        };
        proof {
            assert(100 <= (d as i128) * (d as i128) <= 9_000_000_000_000i128 && 1_000 <= ((
            d as i128) * (d as i128)) * (d as i128) <= 27_000_000_000_000_000_000i128) by (
            nonlinear_arith)
                requires
                    EXPLOSION_NEAR <= d <= 3_000_000,
                    EXPLOSION_NEAR == 10,
            ;
        }
        let d3: i128 = (d as i128) * (d as i128) * (d as i128);
        proof {
            assert({
                &&& -(STRENGTH_LIMIT as i128 * 2_000_000) <= (strength as i128) * ((loc.x
                    - center.x) as i128) <= STRENGTH_LIMIT as i128 * 2_000_000
                &&& -(STRENGTH_LIMIT as i128 * 2_000_000) <= (strength as i128) * ((loc.y
                    - center.y) as i128) <= STRENGTH_LIMIT as i128 * 2_000_000
            }) by (nonlinear_arith)
                requires
                    0 <= strength <= STRENGTH_LIMIT,
                    -2_000_000 <= loc.x - center.x <= 2_000_000,
                    -2_000_000 <= loc.y - center.y <= 2_000_000,
            ;
        }
        let nx: i128 = (strength as i128) * ((loc.x - center.x) as i128);
        let ny: i128 = (strength as i128) * ((loc.y - center.y) as i128);
        let qx = div_trunc128(nx, d3);
        let qy = div_trunc128(ny, d3);
        proof {
            assert(2_000_000_000_000_000_000int * (d3 as int) >= STRENGTH_LIMIT * 2_000_000) by (
            nonlinear_arith)
                requires
                    d3 >= 1_000,
                    STRENGTH_LIMIT == 1_000_000_000_000i64,
            ;
            lemma_tdiv_in_bound(nx as int, d3 as int, 2_000_000_000_000_000_000int);
            lemma_tdiv_in_bound(ny as int, d3 as int, 2_000_000_000_000_000_000int);
        }
        let imp = Vec2 { x: qx as i64, y: qy as i64 };
        proof {
            assert(imp == explosion_impulse(center, loc, strength as int));
        }
        self.apply_impulse(handle, imp);
    }
}

/// The body slab after one blast at `center` with strength `s` has pushed
/// the first `k` listed handles, in order: each handle naming a live body
/// adds `explosion_impulse` of that body's position to its queued force,
/// clamped; a handle with no live body changes nothing.
pub open spec fn blast_targets_fold(
    bodies: Seq<Option<Body>>,
    targets: Seq<PhysicsHandle>,
    center: Vec2,
    s: int,
    k: int,
) -> Seq<Option<Body>>
    decreases k,
{
    if k <= 0 {
        bodies
    } else {
        let pre = blast_targets_fold(bodies, targets, center, s, k - 1);
        let h = targets[k - 1];
        if h.body is Some && 0 <= h.body->0 < pre.len() && pre[h.body->0 as int] is Some {
            let b = pre[h.body->0 as int]->0;
            pre.update(
                h.body->0 as int,
                Some(
                    Body {
                        force_accum: Vec2 {
                            x: clamp_spec(
                                b.force_accum.x + explosion_impulse(center, b.pos, s).x,
                                FORCE_LIMIT as int,
                            ) as i64,
                            y: clamp_spec(
                                b.force_accum.y + explosion_impulse(center, b.pos, s).y,
                                FORCE_LIMIT as int,
                            ) as i64,
                        },
                        ..b
                    },
                ),
            )
        } else {
            pre
        }
    }
}

/// The body slab after the first `e` effects have spent their charges, in
/// order: each combusting effect blasts every listed handle; a passive
/// effect changes nothing.
pub open spec fn blast_fold(
    bodies: Seq<Option<Body>>,
    explosions: Seq<(Vec2, Explosion)>,
    targets: Seq<PhysicsHandle>,
    e: int,
) -> Seq<Option<Body>>
    decreases e,
{
    if e <= 0 {
        bodies
    } else {
        let pre = blast_fold(bodies, explosions, targets, e - 1);
        if explosions[e - 1].1 is Combusting {
            blast_targets_fold(
                pre,
                targets,
                explosions[e - 1].0,
                explosions[e - 1].1->Combusting_strength as int,
                targets.len() as int,
            )
        } else {
            pre
        }
    }
}

/// One blast keeps the slab's length.
pub proof fn lemma_blast_targets_fold_len(
    bodies: Seq<Option<Body>>,
    targets: Seq<PhysicsHandle>,
    center: Vec2,
    s: int,
    k: int,
)
    ensures
        blast_targets_fold(bodies, targets, center, s, k).len() == bodies.len(),
    decreases k,
{
    if k > 0 {
        lemma_blast_targets_fold_len(bodies, targets, center, s, k - 1);
    }
}

/// The whole pass keeps the slab's length.
pub proof fn lemma_blast_fold_len(
    bodies: Seq<Option<Body>>,
    explosions: Seq<(Vec2, Explosion)>,
    targets: Seq<PhysicsHandle>,
    e: int,
)
    ensures
        blast_fold(bodies, explosions, targets, e).len() == bodies.len(),
    decreases e,
{
    if e > 0 {
        lemma_blast_fold_len(bodies, explosions, targets, e - 1);
        if explosions[e - 1].1 is Combusting {
            lemma_blast_targets_fold_len(
                blast_fold(bodies, explosions, targets, e - 1),
                targets,
                explosions[e - 1].0,
                explosions[e - 1].1->Combusting_strength as int,
                targets.len() as int,
            );
        }
    }
}

/// Run every effect's one-time charge against the listed handles, then move
/// it to the passive state: the bodies end exactly as `blast_fold` says —
/// each combusting effect, in order, adds its impulse to every listed live
/// body's queued force — and each combusting effect becomes expanding and
/// never combusts again.
pub fn explosion_pass(
    phys: &mut Physics,
    explosions: &mut Vec<(Vec2, Explosion)>,
    targets: &Vec<PhysicsHandle>,
)
    requires
        old(phys).wf(),
        forall|e: int|
            0 <= e < old(explosions)@.len() ==> (#[trigger] old(explosions)@[e]).0.bounded(
                COORD_LIMIT as int,
            ) && ((old(explosions)@[e]).1 is Combusting ==> 0 <= (old(explosions)@[e]).1->Combusting_strength <= STRENGTH_LIMIT),
    ensures
        final(phys).wf(),
        final(explosions)@.len() == old(explosions)@.len(),
        forall|e: int|
            0 <= e < old(explosions)@.len() ==> (#[trigger] final(explosions)@[e]).0 == (old(explosions)@[e]).0 && (final(explosions)@[e]).1 == (old(explosions)@[e]).1.after_pass(),
        final(phys).bodies@ == blast_fold(
            old(phys).bodies@,
            old(explosions)@,
            targets@,
            old(explosions)@.len() as int,
        ),
        final(phys).colliders@ == old(phys).colliders@,
        old(phys).same_logs(*final(phys)),
{
    let n = explosions.len();
    let mut e: usize = 0;
    while e < n
        invariant
            e <= n,
            n == explosions@.len(),
            n == old(explosions)@.len(),
            phys.wf(),
            forall|k: int|
                0 <= k < n ==> (#[trigger] old(explosions)@[k]).0.bounded(COORD_LIMIT as int) && ((
                old(explosions)@[k]).1 is Combusting ==> 0 <= (old(explosions)@[k]).1->Combusting_strength <= STRENGTH_LIMIT),
            forall|k: int|
                0 <= k < e ==> (#[trigger] explosions@[k]).0 == (old(explosions)@[k]).0 && (
                explosions@[k]).1 == (old(explosions)@[k]).1.after_pass(),
            forall|k: int| e <= k < n ==> (#[trigger] explosions@[k]) == old(explosions)@[k],
            phys.bodies@ == blast_fold(old(phys).bodies@, old(explosions)@, targets@, e as int),
            phys.colliders@ == old(phys).colliders@,
            old(phys).same_logs(*phys),
        decreases n - e,
    {
        let is_combusting = matches!(explosions[e].1, Explosion::Combusting { .. });
        if is_combusting {
            let center = explosions[e].0;
            let strength = match &explosions[e].1 {
                Explosion::Combusting { strength, .. } => *strength,
                _ => 0,
            };
            let ghost pre = phys.bodies@;
            let m = targets.len();
            let mut t: usize = 0;
            while t < m
                invariant
                    t <= m,
                    m == targets@.len(),
                    phys.wf(),
                    center.bounded(COORD_LIMIT as int),
                    0 <= strength <= STRENGTH_LIMIT,
                    phys.bodies@ == blast_targets_fold(pre, targets@, center, strength as int, t as int),
                    phys.colliders@ == old(phys).colliders@,
                    old(phys).same_logs(*phys),
                decreases m - t,
            {
                let h = targets[t];
                let ghost before = phys.bodies@;
                phys.apply_explosion_impulse(&h, center, strength);
                proof {
                    if h.body is Some && 0 <= h.body->0 < before.len() && before[h.body->0 as int]
                        is Some {
                        assert(phys.bodies@ =~= blast_targets_fold(
                            pre,
                            targets@,
                            center,
                            strength as int,
                            t as int + 1,
                        ));
                    } else {
                        assert(phys.bodies@ == before);
                    }
                }
                t += 1;
            }
            let entry = (center, Explosion::Expanding { time: 0 });
            explosions.set(e, entry);
            proof {
                assert(phys.bodies@ == blast_fold(
                    old(phys).bodies@,
                    old(explosions)@,
                    targets@,
                    e as int + 1,
                ));
            }
        } else {
            proof {
                assert((explosions@[e as int]).1.after_pass() == (explosions@[e as int]).1);
                assert(phys.bodies@ == blast_fold(
                    old(phys).bodies@,
                    old(explosions)@,
                    targets@,
                    e as int + 1,
                ));
            }
        }
        e += 1;
    }
}

} // verus!
