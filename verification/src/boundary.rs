//! The play-field boundary: sensor zones past the edge of the world, and the
//! reintroduction of objects that drift across them — an object touching a
//! boundary is placed back on the rim of the field at a random point, moving
//! inward, at exactly the speed it arrived with.

use vstd::prelude::*;

use crate::asteroid::{kind_of, lookup_kind, AsteroidType};
use crate::entropy::{random_bool, random_u32};
use crate::math::{dist_sq, div_trunc, Vec2, COORD_LIMIT};
use crate::registry::HandleRegistry;
use crate::types::{Body, Entity, PhysicsHandle, PhysicsProximityEvent, Proximity};
use crate::world::Physics;

verus! {

/// The extent of the play field a boundary guards.
#[derive(Clone, Copy, Debug)]
pub struct Boundaries {
    pub width: i64,
    pub height: i64,
}

impl Boundaries {
    pub open spec fn wf(self) -> bool {
        &&& 2 <= self.width <= COORD_LIMIT
        &&& 2 <= self.height <= COORD_LIMIT
    }

    /// Half the width, rounded down.
    pub open spec fn hw(self) -> int {
        self.width as int / 2
    }

    /// Half the height, rounded down.
    pub open spec fn hh(self) -> int {
        self.height as int / 2
    }
}

/// The point lies on the rim of the field: on a vertical edge within the
/// vertical extent, or on a horizontal edge within the horizontal extent.
pub open spec fn on_rim(p: Vec2, b: Boundaries) -> bool {
    ||| ((p.x == b.hw() || p.x == -b.hw()) && -b.hh() <= p.y <= b.hh())
    ||| ((p.y == b.hh() || p.y == -b.hh()) && -b.hw() <= p.x <= b.hw())
}

/// The velocity does not point out of the field across an edge the point
/// lies on: some edge through the point has its inward normal component of
/// the velocity non-negative.
pub open spec fn inward(p: Vec2, v: Vec2, b: Boundaries) -> bool {
    ||| (p.x == b.hw() && v.x <= 0)
    ||| (p.x == -b.hw() && v.x >= 0)
    ||| (p.y == b.hh() && v.y <= 0)
    ||| (p.y == -b.hh() && v.y >= 0)
}

/// Place the handle's body back on a random point of the field's rim,
/// moving inward at exactly the speed it had: whatever the random draws,
/// the body lands on the rim, keeps every non-pose property, its squared
/// speed is preserved exactly (the velocity components are reshuffled by
/// sign and axis, never rescaled), and the new velocity does not point out
/// across the landing edge. Silently does nothing when the body is absent.
pub fn reintroduce(phys: &mut Physics, boundary: &Boundaries, handle: &PhysicsHandle)
    requires
        old(phys).wf(),
        boundary.wf(),
    ensures
        final(phys).wf(),
        final(phys).bodies@.len() == old(phys).bodies@.len(),
        final(phys).colliders@ == old(phys).colliders@,
        old(phys).same_logs(*final(phys)),
        !old(phys).handle_body_live(*handle) ==> *final(phys) == *old(phys),
        old(phys).handle_body_live(*handle) ==> {
            let i = handle.body->0 as int;
            let ob = old(phys).body_at(i);
            &&& (forall|k: int|
                0 <= k < old(phys).bodies@.len() && k != i ==> final(phys).bodies@[k] == old(phys).bodies@[k])
            &&& final(phys).bodies@[i] is Some
            &&& {
                let nb = final(phys).bodies@[i]->0;
                &&& nb == (Body { pos: nb.pos, vel: nb.vel, ..ob })
                &&& on_rim(nb.pos, *boundary)
                &&& dist_sq(nb.vel, Vec2::zero_spec()) == dist_sq(ob.vel, Vec2::zero_spec())
                &&& inward(nb.pos, nb.vel, *boundary)
            }
        },
{
    let hw = div_trunc(boundary.width, 2);
    let hh = div_trunc(boundary.height, 2);
    let live = match phys.get_position(handle) {
        Some(_) => true,
        None => false,
    };
    if !live {
        return ;
    }
    proof {
        assert(old(phys).bodies@[handle.body->0 as int] is Some);
        assert(old(phys).body_at(handle.body->0 as int).wf());
    }

    // A random point of the rim.
    let horizontal_edge = random_bool();
    let positive_side = random_bool();
    let along_w: i64 = (random_u32() % (2 * (hw as u32) + 1)) as i64 - hw;
    let along_h: i64 = (random_u32() % (2 * (hh as u32) + 1)) as i64 - hh;
    let (px, py): (i64, i64) = if horizontal_edge {
        if positive_side {
            (along_w, hh)
        } else {
            (along_w, -hh)
        }
    } else {
        if positive_side {
            (hw, along_h)
        } else {
            (-hw, along_h)
        }
    };
    phys.set_location(handle, px, py);

    // Keep the speed exactly, point it inward: reshuffle the velocity's
    // component magnitudes across the axes and signs, with the component
    // normal to the landing edge made to point into the field.
    let vel = match phys.get_velocity(handle) {
        Some(v) => v,
        None => {
            return ;
        },
    };
    if vel.x != 0 || vel.y != 0 {
        let ax: i64 = if vel.x < 0 {
            -vel.x
        } else {
            vel.x
        };
        let ay: i64 = if vel.y < 0 {
            -vel.y
        } else {
            vel.y
        };
        let swap_axes = random_bool();
        let flip_tangent = random_bool();
        let (m1, m2): (i64, i64) = if swap_axes {
            (ay, ax)
        } else {
            (ax, ay)
        };
        let tangent: i64 = if flip_tangent {
            -m1
        } else {
            m1
        };
        let nv: Vec2 = if horizontal_edge {
            if positive_side {
                Vec2 { x: tangent, y: -m2 }
            } else {
                Vec2 { x: tangent, y: m2 }
            }
        } else {
            if positive_side {
                Vec2 { x: -m2, y: tangent }
            } else {
                Vec2 { x: m2, y: tangent }
            }
        };
        proof {
            assert(tangent * tangent + m2 * m2 == vel.x * vel.x + vel.y * vel.y) by (
            nonlinear_arith)
                requires
                    tangent == m1 || tangent == -m1,
                    (m1 == ax && m2 == ay) || (m1 == ay && m2 == ax),
                    ax == vel.x || ax == -vel.x,
                    ay == vel.y || ay == -vel.y,
            ;
            assert(nv.x * nv.x + nv.y * nv.y == tangent * tangent + m2 * m2) by (nonlinear_arith)
                requires
                    (nv.x == tangent && (nv.y == m2 || nv.y == -m2)) || ((nv.x == m2 || nv.x
                        == -m2) && nv.y == tangent),
            ;
        }
        phys.set_velocity(handle, nv);
    }
    proof {
        let i = handle.body->0 as int;
        let ob = old(phys).body_at(i);
        assert(phys.bodies@[i] is Some);
        let nb = phys.bodies@[i]->0;
        assert(nb == (Body { pos: nb.pos, vel: nb.vel, ..ob }));
        assert(0 <= hw <= COORD_LIMIT / 2 && 0 <= hh <= COORD_LIMIT / 2);
        assert(nb.pos.x == px && nb.pos.y == py);
        assert(on_rim(nb.pos, *boundary));
        assert(dist_sq(nb.vel, Vec2::zero_spec()) == dist_sq(ob.vel, Vec2::zero_spec()));
        assert(inward(nb.pos, nb.vel, *boundary));
        assert(forall|k: int|
            0 <= k < old(phys).bodies@.len() && k != i ==> phys.bodies@[k] == old(phys).bodies@[k]);
    }
}

/// The boundary recorded for entity `e`, if any (first match).
pub open spec fn bound_of(bs: Seq<(Entity, Boundaries)>, e: Entity, n: int) -> Option<Boundaries>
    decreases n,
{
    if n <= 0 {
        None
    } else {
        match bound_of(bs, e, n - 1) {
            Some(b) => Some(b),
            None => {
                if bs[n - 1].0 == e {
                    Some(bs[n - 1].1)
                } else {
                    None
                }
            },
        }
    }
}

proof fn lemma_bound_stable(bs: Seq<(Entity, Boundaries)>, e: Entity, m: int, n: int)
    requires
        m <= n,
        bound_of(bs, e, m) is Some,
    ensures
        bound_of(bs, e, n) == bound_of(bs, e, m),
    decreases n - m,
{
    if m < n {
        lemma_bound_stable(bs, e, m, n - 1);
    }
}

/// Look entity `e`'s boundary up.
pub fn lookup_bound(bounds: &Vec<(Entity, Boundaries)>, e: Entity) -> (r: Option<Boundaries>)
    ensures
        match r {
            Some(b) => Some(b) == bound_of(bounds@, e, bounds@.len() as int),
            None => bound_of(bounds@, e, bounds@.len() as int) is None,
        },
{
    let n = bounds.len();
    let mut t: usize = 0;
    while t < n
        invariant
            t <= n,
            n == bounds@.len(),
            bound_of(bounds@, e, t as int) is None,
        decreases n - t,
    {
        let entry = bounds[t];
        if entry.0.id == e.id {
            proof {
                assert(entry.0 == e);
                assert(bound_of(bounds@, e, t as int + 1) == Some(entry.1));
                lemma_bound_stable(bounds@, e, t as int + 1, bounds@.len() as int);
            }
            return Some(entry.1);
        }
        t += 1;
    }
    None
}

/// The reintroduction a proximity event triggers, if any: the pair just
/// became intersecting, one side resolves to a tracked object and the other
/// to a boundary, and the object's record still carries a handle.
pub open spec fn reintro_decision(
    phys: Physics,
    kinds: Seq<(Entity, AsteroidType)>,
    bounds: Seq<(Entity, Boundaries)>,
    reg: HandleRegistry,
    ev: PhysicsProximityEvent,
) -> Option<(PhysicsHandle, Boundaries)> {
    if ev.new_status is Intersecting {
        match (phys.collider_entity_spec(ev.a as int), phys.collider_entity_spec(ev.b as int)) {
            (Some(ea), Some(eb)) => {
                if kind_of(kinds, ea, kinds.len() as int) is Some && bound_of(
                    bounds,
                    eb,
                    bounds.len() as int,
                ) is Some {
                    reintro_handle(reg, ea, bound_of(bounds, eb, bounds.len() as int)->0)
                } else if kind_of(kinds, eb, kinds.len() as int) is Some && bound_of(
                    bounds,
                    ea,
                    bounds.len() as int,
                ) is Some {
                    reintro_handle(reg, eb, bound_of(bounds, ea, bounds.len() as int)->0)
                } else {
                    None
                }
            },
            _ => None,
        }
    } else {
        None
    }
}

/// The handle the reintroduction uses for entity `e`, when its record still
/// carries one.
pub open spec fn reintro_handle(reg: HandleRegistry, e: Entity, bd: Boundaries) -> Option<
    (PhysicsHandle, Boundaries),
> {
    match reg.find_spec(e, reg.recs@.len() as int) {
        Some(t) => {
            match reg.recs@[t].handle {
                Some(h) => Some((h, bd)),
                None => None,
            }
        },
        None => None,
    }
}

/// The out-of-bounds consumer: for each pair that just started intersecting
/// where one side is a tracked object and the other a boundary, place the
/// object back on that boundary's rim, inward bound at exactly the speed it
/// had. Every body a decision names ends the pass on the rim of one of the
/// boundaries that named it, heading inward, with its squared speed
/// preserved; untouched bodies, all colliders and the logs stand as they
/// were.
pub fn reintroduction_pass(
    phys: &mut Physics,
    reg: &HandleRegistry,
    kinds: &Vec<(Entity, AsteroidType)>,
    bounds: &Vec<(Entity, Boundaries)>,
    events: &Vec<PhysicsProximityEvent>,
)
    requires
        old(phys).wf(),
        forall|m: int| 0 <= m < bounds@.len() ==> (#[trigger] bounds@[m]).1.wf(),
    ensures
        final(phys).wf(),
        final(phys).bodies@.len() == old(phys).bodies@.len(),
        final(phys).colliders@ == old(phys).colliders@,
        old(phys).same_logs(*final(phys)),
        forall|i: int|
            0 <= i < old(phys).bodies@.len() ==> ((#[trigger] final(phys).bodies@[i]) is Some
                <==> old(phys).bodies@[i] is Some) && (final(phys).bodies@[i] is Some ==> final(phys).bodies@[i]->0 == (Body {
                pos: final(phys).bodies@[i]->0.pos,
                vel: final(phys).bodies@[i]->0.vel,
                ..old(phys).bodies@[i]->0
            })),
        forall|i: int|
            0 <= i < old(phys).bodies@.len() && old(phys).bodies@[i] is Some && !(exists|k: int|
                0 <= k < events@.len() && decision_hits(
                    #[trigger] reintro_decision(*old(phys), kinds@, bounds@, *reg, events@[k]),
                    i,
                )) ==> final(phys).bodies@[i] == old(phys).bodies@[i],
        forall|i: int|
            0 <= i < old(phys).bodies@.len() && old(phys).bodies@[i] is Some && (exists|k: int|
                0 <= k < events@.len() && decision_hits(
                    #[trigger] reintro_decision(*old(phys), kinds@, bounds@, *reg, events@[k]),
                    i,
                )) ==> (dist_sq(final(phys).bodies@[i]->0.vel, Vec2::zero_spec()) == dist_sq(
                old(phys).bodies@[i]->0.vel,
                Vec2::zero_spec(),
            ) && (exists|k: int|
                0 <= k < events@.len() && decision_hits(
                    #[trigger] reintro_decision(*old(phys), kinds@, bounds@, *reg, events@[k]),
                    i,
                ) && on_rim(
                    final(phys).bodies@[i]->0.pos,
                    (reintro_decision(*old(phys), kinds@, bounds@, *reg, events@[k])->0).1,
                ) && inward(
                    final(phys).bodies@[i]->0.pos,
                    final(phys).bodies@[i]->0.vel,
                    (reintro_decision(*old(phys), kinds@, bounds@, *reg, events@[k])->0).1,
                ))),
{
    let ghost phys0 = *phys;
    let n = events.len();
    let mut k: usize = 0;
    while k < n
        invariant
            k <= n,
            n == events@.len(),
            phys.wf(),
            forall|m: int| 0 <= m < bounds@.len() ==> (#[trigger] bounds@[m]).1.wf(),
            phys.bodies@.len() == phys0.bodies@.len(),
            phys.colliders@ == phys0.colliders@,
            phys0.same_logs(*phys),
            forall|i: int|
                0 <= i < phys0.bodies@.len() ==> ((#[trigger] phys.bodies@[i]) is Some <==> phys0.bodies@[i]
                    is Some) && (phys.bodies@[i] is Some ==> phys.bodies@[i]->0 == (Body {
                    pos: phys.bodies@[i]->0.pos,
                    vel: phys.bodies@[i]->0.vel,
                    ..phys0.bodies@[i]->0
                })),
            forall|i: int|
                0 <= i < phys0.bodies@.len() && phys0.bodies@[i] is Some && !(exists|w: int|
                    0 <= w < k && decision_hits(
                        #[trigger] reintro_decision(phys0, kinds@, bounds@, *reg, events@[w]),
                        i,
                    )) ==> phys.bodies@[i] == phys0.bodies@[i],
            forall|i: int|
                0 <= i < phys0.bodies@.len() && phys0.bodies@[i] is Some && (exists|w: int|
                    0 <= w < k && decision_hits(
                        #[trigger] reintro_decision(phys0, kinds@, bounds@, *reg, events@[w]),
                        i,
                    )) ==> (dist_sq(phys.bodies@[i]->0.vel, Vec2::zero_spec()) == dist_sq(
                    phys0.bodies@[i]->0.vel,
                    Vec2::zero_spec(),
                ) && (exists|w: int|
                    0 <= w < k && decision_hits(
                        #[trigger] reintro_decision(phys0, kinds@, bounds@, *reg, events@[w]),
                        i,
                    ) && on_rim(
                        phys.bodies@[i]->0.pos,
                        (reintro_decision(phys0, kinds@, bounds@, *reg, events@[w])->0).1,
                    ) && inward(
                        phys.bodies@[i]->0.pos,
                        phys.bodies@[i]->0.vel,
                        (reintro_decision(phys0, kinds@, bounds@, *reg, events@[w])->0).1,
                    ))),
        decreases n - k,
    {
        let ev = events[k];
        let mut acted = false;
        if matches!(ev.new_status, Proximity::Intersecting) {
            let ra = phys.get_collider_entity(ev.a);
            let rb = phys.get_collider_entity(ev.b);
            if let (Some(ea), Some(eb)) = (ra, rb) {
                proof {
                    assert(phys.collider_entity_spec(ev.a as int) == phys0.collider_entity_spec(
                        ev.a as int,
                    ));
                    assert(phys.collider_entity_spec(ev.b as int) == phys0.collider_entity_spec(
                        ev.b as int,
                    ));
                }
                let ka = lookup_kind(kinds, ea);
                let kb = lookup_kind(kinds, eb);
                let ba = lookup_bound(bounds, ea);
                let bb = lookup_bound(bounds, eb);
                let target: Option<(Entity, Boundaries)> = if ka.is_some() && bb.is_some() {
                    Some((ea, bb.unwrap()))
                } else if kb.is_some() && ba.is_some() {
                    Some((eb, ba.unwrap()))
                } else {
                    None
                };
                if let Some((te, bd)) = target {
                    if let Some(t) = reg.find(te) {
                        let rec = reg.recs[t];
                        if let Some(h) = rec.handle {
                            proof {
                                assert(reintro_decision(phys0, kinds@, bounds@, *reg, events@[k as int])
                                    == Some((h, bd)));
                                assert(bd.wf()) by {
                                    lemma_bound_wf(bounds@, te, bounds@.len() as int);
                                    if ka.is_some() && bb.is_some() {
                                        lemma_bound_wf(bounds@, eb, bounds@.len() as int);
                                    } else {
                                        lemma_bound_wf(bounds@, ea, bounds@.len() as int);
                                    }
                                }
                            }
                            reintroduce(phys, &bd, &h);
                            acted = true;
                            proof {
                                if h.body is Some && phys0.live_body(h.body->0 as int) {
                                    assert(decision_hits(
                                        reintro_decision(phys0, kinds@, bounds@, *reg, events@[k as int]),
                                        h.body->0 as int,
                                    ));
                                }
                            }
                        }
                    }
                }
            }
        }
        proof {
            if !acted {
                assert(reintro_decision(phys0, kinds@, bounds@, *reg, events@[k as int]) is None
                    || !((reintro_decision(phys0, kinds@, bounds@, *reg, events@[k as int])->0).0.body
                    is Some));
            }
        }
        k += 1;
    }
}

/// The decision names body slot `i`.
pub open spec fn decision_hits(d: Option<(PhysicsHandle, Boundaries)>, i: int) -> bool {
    d is Some && (d->0).0.body is Some && (d->0).0.body->0 == i
}

/// A boundary found in a well-formed boundary store is well-formed.
proof fn lemma_bound_wf(bs: Seq<(Entity, Boundaries)>, e: Entity, n: int)
    requires
        forall|m: int| 0 <= m < bs.len() ==> (#[trigger] bs[m]).1.wf(),
        n <= bs.len(),
    ensures
        bound_of(bs, e, n) is Some ==> bound_of(bs, e, n)->0.wf(),
    decreases n,
{
    if n > 0 {
        lemma_bound_wf(bs, e, n - 1);
    }
}

} // verus!
