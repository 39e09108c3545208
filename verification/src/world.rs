//! The simulation state: slabs of bodies and colliders addressed by handles,
//! the append-only event logs, and every operation except the step itself.
//!
//! Handles are slot indices; a freed slot stays a tombstone, so a stale
//! handle can only ever read `None`, never another object's data.

use vstd::prelude::*;

use crate::geometry::{classify_at, classify_exec, lemma_classify_sym};
use crate::math::{clamp, clamp_spec, div_trunc, tdiv, vadd, vadd_exec, Vec2, COORD_LIMIT, VEL_LIMIT};
use crate::types::{
    AttachedSensor, Body, BodyDesc, Collider, ColliderDesc, Entity, Iso2, PhysicsContactEvent,
    PhysicsHandle, PhysicsProximityEvent, Proximity, Shape, ACCEL_LIMIT, ANGLE_LIMIT, DAMP_LIMIT,
    FORCE_LIMIT,
};

verus! {

/// The simulation: bodies, colliders, and this run's contact and proximity
/// logs. The logs only ever grow; `contact_tick_start` and `prox_tick_start`
/// mark where the latest tick's entries begin.
pub struct Physics {
    pub bodies: Vec<Option<Body>>,
    pub colliders: Vec<Option<Collider>>,
    pub contacts: Vec<PhysicsContactEvent>,
    pub proximities: Vec<PhysicsProximityEvent>,
    pub contact_tick_start: usize,
    pub prox_tick_start: usize,
}

impl Physics {
    /// Every stored object is well-formed and points inside the slabs, and
    /// the tick marks lie inside the logs.
    pub open spec fn wf(self) -> bool {
        &&& forall|i: int|
            0 <= i < self.bodies@.len() && self.bodies@[i] is Some ==> {
                &&& (#[trigger] self.bodies@[i])->0.wf()
                &&& self.bodies@[i]->0.primary < self.colliders@.len()
            }
        &&& forall|j: int|
            0 <= j < self.colliders@.len() && self.colliders@[j] is Some ==> {
                &&& (#[trigger] self.colliders@[j])->0.wf()
                &&& self.colliders@[j]->0.parent < self.bodies@.len()
            }
        &&& self.contact_tick_start <= self.contacts@.len()
        &&& self.prox_tick_start <= self.proximities@.len()
    }

    /// Slot `i` holds a live body.
    pub open spec fn live_body(self, i: int) -> bool {
        0 <= i < self.bodies@.len() && self.bodies@[i] is Some
    }

    /// The body in slot `i`.
    pub open spec fn body_at(self, i: int) -> Body {
        self.bodies@[i]->0
    }

    /// Slot `j` holds a live collider.
    pub open spec fn live_coll(self, j: int) -> bool {
        0 <= j < self.colliders@.len() && self.colliders@[j] is Some
    }

    /// The collider in slot `j`.
    pub open spec fn coll_at(self, j: int) -> Collider {
        self.colliders@[j]->0
    }

    /// A handle names a live body.
    pub open spec fn handle_body_live(self, h: PhysicsHandle) -> bool {
        h.body is Some && self.live_body(h.body->0 as int)
    }

    /// The world position of collider `j`: its parent body's position plus
    /// its own offset; absent while either half is missing.
    pub open spec fn world_pos_of(self, j: int) -> Option<Vec2> {
        if self.live_coll(j) && self.live_body(self.coll_at(j).parent as int) {
            Some(vadd(self.body_at(self.coll_at(j).parent as int).pos, self.coll_at(j).offset))
        } else {
            None
        }
    }

    /// The logs and their tick marks are the same in `other`.
    pub open spec fn same_logs(self, other: Physics) -> bool {
        &&& other.contacts@ == self.contacts@
        &&& other.proximities@ == self.proximities@
        &&& other.contact_tick_start == self.contact_tick_start
        &&& other.prox_tick_start == self.prox_tick_start
    }

    /// Everything except the body slab is the same in `other`.
    pub open spec fn same_but_bodies(self, other: Physics) -> bool {
        &&& other.colliders@ == self.colliders@
        &&& self.same_logs(other)
    }

    /// Everything except the collider slab is the same in `other`.
    pub open spec fn same_but_colliders(self, other: Physics) -> bool {
        &&& other.bodies@ == self.bodies@
        &&& other.contacts@ == self.contacts@
        &&& other.proximities@ == self.proximities@
        &&& other.contact_tick_start == self.contact_tick_start
        &&& other.prox_tick_start == self.prox_tick_start
    }

    /// `other` is `self` with body slot `i` replaced by `b`.
    pub open spec fn body_replaced(self, other: Physics, i: int, b: Body) -> bool {
        &&& self.same_but_bodies(other)
        &&& other.bodies@ == self.bodies@.update(i, Some(b))
    }

    /// `other` is `self` with collider slot `j` replaced by `c`.
    pub open spec fn collider_replaced(self, other: Physics, j: int, c: Collider) -> bool {
        &&& other.bodies@ == self.bodies@
        &&& self.same_logs(other)
        &&& other.colliders@ == self.colliders@.update(j, Some(c))
    }

    pub fn new() -> (r: Physics)
        ensures
            r.wf(),
            r.bodies@.len() == 0,
            r.colliders@.len() == 0,
            r.contacts@.len() == 0,
            r.proximities@.len() == 0,
            r.contact_tick_start == 0,
            r.prox_tick_start == 0,
    {
        Physics {
            bodies: Vec::new(),
            colliders: Vec::new(),
            contacts: Vec::new(),
            proximities: Vec::new(),
            contact_tick_start: 0,
            prox_tick_start: 0,
        }
    }

    /// Realize a body/collider template pair: a new body at the origin with
    /// the collider attached to it. Always succeeds for well-formed
    /// templates and returns the two fresh handles.
    pub fn spawn(&mut self, body_desc: &BodyDesc, collider_desc: &ColliderDesc) -> (r: (
        usize,
        usize,
    ))
        requires
            old(self).wf(),
            body_desc.wf(),
            collider_desc.wf(),
        ensures
            final(self).wf(),
            r.0 == old(self).bodies@.len(),
            r.1 == old(self).colliders@.len(),
            final(self).bodies@ == old(self).bodies@.push(
                Some(
                    Body {
                        status: body_desc.status,
                        mass: body_desc.mass,
                        damping: body_desc.damping,
                        pos: Vec2::zero_spec(),
                        rot: 0,
                        vel: Vec2::zero_spec(),
                        ang_vel: 0,
                        accel_accum: Vec2::zero_spec(),
                        force_accum: Vec2::zero_spec(),
                        primary: r.1,
                        entity: None,
                    },
                ),
            ),
            final(self).colliders@ == old(self).colliders@.push(
                Some(
                    Collider {
                        shape: collider_desc.shape,
                        sensor: collider_desc.sensor,
                        parent: r.0,
                        offset: Vec2::zero_spec(),
                        entity: None,
                        last_pos: None,
                    },
                ),
            ),
            final(self).contacts@ == old(self).contacts@,
            final(self).proximities@ == old(self).proximities@,
            final(self).contact_tick_start == old(self).contact_tick_start,
            final(self).prox_tick_start == old(self).prox_tick_start,
    {
        let body_handle: usize = self.bodies.len();
        let collider_handle: usize = self.colliders.len();
        let body = Body {
            status: body_desc.status,
            mass: body_desc.mass,
            damping: body_desc.damping,
            pos: Vec2::zero(),
            rot: 0,
            vel: Vec2::zero(),
            ang_vel: 0,
            accel_accum: Vec2::zero(),
            force_accum: Vec2::zero(),
            primary: collider_handle,
            entity: None,
        };
        let collider = Collider {
            shape: collider_desc.shape,
            sensor: collider_desc.sensor,
            parent: body_handle,
            offset: Vec2::zero(),
            entity: None,
            last_pos: None,
        };
        self.bodies.push(Some(body));
        self.colliders.push(Some(collider));
        (body_handle, collider_handle)
    }

    /// Attach a secondary, non-solid collider to an already-spawned parent
    /// body. The parent must exist: calling this before the parent was
    /// realized is an ordering bug, not a runtime condition.
    pub fn add_child_collider(
        &mut self,
        parent_handle: &PhysicsHandle,
        collider_desc: &ColliderDesc,
    ) -> (r: usize)
        requires
            old(self).wf(),
            collider_desc.wf(),
            collider_desc.sensor,
            parent_handle.body is Some,
            old(self).live_body(parent_handle.body->0 as int),
        ensures
            final(self).wf(),
            r == old(self).colliders@.len(),
            old(self).same_but_colliders(*final(self)),
            final(self).colliders@ == old(self).colliders@.push(
                Some(
                    Collider {
                        shape: collider_desc.shape,
                        sensor: true,
                        parent: parent_handle.body->0,
                        offset: Vec2::zero_spec(),
                        entity: None,
                        last_pos: None,
                    },
                ),
            ),
    {
        let parent = parent_handle.body.unwrap();
        let collider_handle: usize = self.colliders.len();
        let collider = Collider {
            shape: collider_desc.shape,
            sensor: true,
            parent,
            offset: Vec2::zero(),
            entity: None,
            last_pos: None,
        };
        self.colliders.push(Some(collider));
        collider_handle
    }

    /// The pose a `get_position` call reports for `h`: the handle's body's
    /// position and rotation, or nothing while the body is absent.
    pub open spec fn position_spec(self, h: PhysicsHandle) -> Option<Iso2> {
        if self.handle_body_live(h) {
            Some(
                Iso2 {
                    pos: self.body_at(h.body->0 as int).pos,
                    rot: self.body_at(h.body->0 as int).rot,
                },
            )
        } else {
            None
        }
    }

    /// Read the pose of the handle's body; `None` when the body is absent.
    pub fn get_position(&self, handle: &PhysicsHandle) -> (r: Option<Iso2>)
        ensures
            r == self.position_spec(*handle),
    {
        if let Some(i) = handle.body {
            if i < self.bodies.len() {
                if let Some(body) = &self.bodies[i] {
                    return Some(Iso2 { pos: body.pos, rot: body.rot });
                }
            }
        }
        None
    }

    /// Read the position of the handle's body; `None` when the body is
    /// absent.
    pub fn get_location(&self, handle: &PhysicsHandle) -> (r: Option<Vec2>)
        ensures
            r == match self.position_spec(*handle) {
                Some(iso) => Some(iso.pos),
                None => None::<Vec2>,
            },
    {
        match self.get_position(handle) {
            Some(iso) => Some(iso.pos),
            None => None,
        }
    }

    /// Move the handle's body to `(x, y)` (clamped into the world bounds),
    /// keeping its rotation; silently does nothing when the body is absent.
    pub fn set_location(&mut self, handle: &PhysicsHandle, x: i64, y: i64)
        requires
            old(self).wf(),
        ensures
            final(self).wf(),
            old(self).handle_body_live(*handle) ==> old(self).body_replaced(
                *final(self),
                handle.body->0 as int,
                Body {
                    pos: Vec2 {
                        x: clamp_spec(x as int, COORD_LIMIT as int) as i64,
                        y: clamp_spec(y as int, COORD_LIMIT as int) as i64,
                    },
                    ..old(self).body_at(handle.body->0 as int)
                },
            ),
            !old(self).handle_body_live(*handle) ==> *final(self) == *old(self),
    {
        if let Some(i) = handle.body {
            if i < self.bodies.len() {
                if let Some(body) = &self.bodies[i] {
                    let nb = Body {
                        pos: Vec2 { x: clamp(x, COORD_LIMIT), y: clamp(y, COORD_LIMIT) },
                        ..*body
                    };
                    self.bodies.set(i, Some(nb));
                }
            }
        }
    }

    /// Turn the handle's body to the given angle (clamped), keeping its
    /// position; silently does nothing when the body is absent.
    pub fn set_rotation(&mut self, handle: &PhysicsHandle, angle: i64)
        requires
            old(self).wf(),
        ensures
            final(self).wf(),
            old(self).handle_body_live(*handle) ==> old(self).body_replaced(
                *final(self),
                handle.body->0 as int,
                Body {
                    rot: clamp_spec(angle as int, ANGLE_LIMIT as int) as i64,
                    ..old(self).body_at(handle.body->0 as int)
                },
            ),
            !old(self).handle_body_live(*handle) ==> *final(self) == *old(self),
    {
        if let Some(i) = handle.body {
            if i < self.bodies.len() {
                if let Some(body) = &self.bodies[i] {
                    let nb = Body { rot: clamp(angle, ANGLE_LIMIT), ..*body };
                    self.bodies.set(i, Some(nb));
                }
            }
        }
    }

    /// Place an attached sensor's collider at offset `(x, y)` from its parent
    /// body (clamped); silently does nothing unless the sensor's handle, its
    /// parent body and its collider are all present.
    pub fn set_sensor_position(&mut self, sensor: &AttachedSensor, x: i64, y: i64)
        requires
            old(self).wf(),
        ensures
            final(self).wf(),
            match sensor.handle {
                Some(h) => {
                    if old(self).live_body(h.0 as int) && old(self).live_coll(h.1 as int) {
                        &&& final(self).bodies@ == old(self).bodies@
                        &&& old(self).same_logs(*final(self))
                        &&& final(self).colliders@ == old(self).colliders@.update(
                            h.1 as int,
                            Some(
                                Collider {
                                    offset: Vec2 {
                                        x: clamp_spec(x as int, COORD_LIMIT as int) as i64,
                                        y: clamp_spec(y as int, COORD_LIMIT as int) as i64,
                                    },
                                    ..old(self).coll_at(h.1 as int)
                                },
                            ),
                        )
                    } else {
                        *final(self) == *old(self)
                    }
                },
                None => *final(self) == *old(self),
            },
    {
        if let Some((bh, ch)) = sensor.handle {
            if bh < self.bodies.len() && ch < self.colliders.len() {
                let body_live = self.bodies[bh].is_some();
                if body_live {
                    if let Some(coll) = &self.colliders[ch] {
                        proof {
                            assert(old(self).colliders@[ch as int] is Some);
                            assert(old(self).colliders@[ch as int]->0.wf());
                        }
                        let nc = Collider {
                            offset: Vec2 { x: clamp(x, COORD_LIMIT), y: clamp(y, COORD_LIMIT) },
                            ..*coll
                        };
                        self.colliders.set(ch, Some(nc));
                        proof {
                            assert forall|j: int|
                                0 <= j < self.colliders@.len() && self.colliders@[j]
                                    is Some implies (#[trigger] self.colliders@[j])->0.wf()
                                && self.colliders@[j]->0.parent < self.bodies@.len() by {
                                if j != ch as int {
                                    assert(self.colliders@[j] == old(self).colliders@[j]);
                                }
                            }
                        }
                    }
                }
            }
        }
    }

    /// Read the linear velocity of the handle's body; `None` when the body
    /// is absent.
    pub fn get_velocity(&mut self, handle: &PhysicsHandle) -> (r: Option<Vec2>)
        ensures
            *final(self) == *old(self),
            r == (if old(self).handle_body_live(*handle) {
                Some(old(self).body_at(handle.body->0 as int).vel)
            } else {
                None::<Vec2>
            }),
    {
        if let Some(i) = handle.body {
            if i < self.bodies.len() {
                if let Some(body) = &self.bodies[i] {
                    return Some(body.vel);
                }
            }
        }
        None
    }

    /// Set the linear velocity of the handle's body (clamped); silently does
    /// nothing when the body is absent.
    pub fn set_velocity(&mut self, handle: &PhysicsHandle, vec: Vec2)
        requires
            old(self).wf(),
        ensures
            final(self).wf(),
            old(self).handle_body_live(*handle) ==> old(self).body_replaced(
                *final(self),
                handle.body->0 as int,
                Body {
                    vel: Vec2 {
                        x: clamp_spec(vec.x as int, VEL_LIMIT as int) as i64,
                        y: clamp_spec(vec.y as int, VEL_LIMIT as int) as i64,
                    },
                    ..old(self).body_at(handle.body->0 as int)
                },
            ),
            !old(self).handle_body_live(*handle) ==> *final(self) == *old(self),
    {
        if let Some(i) = handle.body {
            if i < self.bodies.len() {
                if let Some(body) = &self.bodies[i] {
                    let nb = Body {
                        vel: Vec2 { x: clamp(vec.x, VEL_LIMIT), y: clamp(vec.y, VEL_LIMIT) },
                        ..*body
                    };
                    self.bodies.set(i, Some(nb));
                }
            }
        }
    }

    /// Set the linear damping coefficient of the handle's body (clamped into
    /// its legal range); silently does nothing when the body is absent.
    pub fn set_damping(&mut self, handle: &PhysicsHandle, damping: i64)
        requires
            old(self).wf(),
        ensures
            final(self).wf(),
            old(self).handle_body_live(*handle) ==> old(self).body_replaced(
                *final(self),
                handle.body->0 as int,
                Body {
                    damping: (if damping < 0 {
                        0
                    } else {
                        clamp_spec(damping as int, DAMP_LIMIT as int)
                    }) as i64,
                    ..old(self).body_at(handle.body->0 as int)
                },
            ),
            !old(self).handle_body_live(*handle) ==> *final(self) == *old(self),
    {
        if let Some(i) = handle.body {
            if i < self.bodies.len() {
                if let Some(body) = &self.bodies[i] {
                    let d: i64 = if damping < 0 {
                        0
                    } else {
                        clamp(damping, DAMP_LIMIT)
                    };
                    let nb = Body { damping: d, ..*body };
                    self.bodies.set(i, Some(nb));
                }
            }
        }
    }

    /// Set the angular velocity of the handle's body (clamped); silently
    /// does nothing when the body is absent.
    pub fn set_angular_velocity(&mut self, handle: &PhysicsHandle, rotational: i64)
        requires
            old(self).wf(),
        ensures
            final(self).wf(),
            old(self).handle_body_live(*handle) ==> old(self).body_replaced(
                *final(self),
                handle.body->0 as int,
                Body {
                    ang_vel: clamp_spec(rotational as int, VEL_LIMIT as int) as i64,
                    ..old(self).body_at(handle.body->0 as int)
                },
            ),
            !old(self).handle_body_live(*handle) ==> *final(self) == *old(self),
    {
        if let Some(i) = handle.body {
            if i < self.bodies.len() {
                if let Some(body) = &self.bodies[i] {
                    let nb = Body { ang_vel: clamp(rotational, VEL_LIMIT), ..*body };
                    self.bodies.set(i, Some(nb));
                }
            }
        }
    }

    /// Accumulate a force on the handle's body for the next step (clamped
    /// componentwise); silently does nothing when the body is absent.
    pub fn apply_force(&mut self, handle: &PhysicsHandle, vec: Vec2)
        requires
            old(self).wf(),
        ensures
            final(self).wf(),
            old(self).handle_body_live(*handle) ==> old(self).body_replaced(
                *final(self),
                handle.body->0 as int,
                Body {
                    force_accum: Vec2 {
                        x: clamp_spec(
                            old(self).body_at(handle.body->0 as int).force_accum.x + vec.x,
                            FORCE_LIMIT as int,
                        ) as i64,
                        y: clamp_spec(
                            old(self).body_at(handle.body->0 as int).force_accum.y + vec.y,
                            FORCE_LIMIT as int,
                        ) as i64,
                    },
                    ..old(self).body_at(handle.body->0 as int)
                },
            ),
            !old(self).handle_body_live(*handle) ==> *final(self) == *old(self),
    {
        if let Some(i) = handle.body {
            if i < self.bodies.len() {
                if let Some(body) = &self.bodies[i] {
                    let fx: i64 = sat_add_clamp(body.force_accum.x, vec.x, FORCE_LIMIT);
                    let fy: i64 = sat_add_clamp(body.force_accum.y, vec.y, FORCE_LIMIT);
                    let nb = Body { force_accum: Vec2 { x: fx, y: fy }, ..*body };
                    self.bodies.set(i, Some(nb));
                }
            }
        }
    }

    /// Accumulate an impulse on the handle's body for the next step. With a
    /// unit timestep an impulse and a force change the velocity by the same
    /// amount, so both feed the same accumulator; silently does nothing when
    /// the body is absent.
    pub fn apply_impulse(&mut self, handle: &PhysicsHandle, vec: Vec2)
        requires
            old(self).wf(),
        ensures
            final(self).wf(),
            old(self).handle_body_live(*handle) ==> old(self).body_replaced(
                *final(self),
                handle.body->0 as int,
                Body {
                    force_accum: Vec2 {
                        x: clamp_spec(
                            old(self).body_at(handle.body->0 as int).force_accum.x + vec.x,
                            FORCE_LIMIT as int,
                        ) as i64,
                        y: clamp_spec(
                            old(self).body_at(handle.body->0 as int).force_accum.y + vec.y,
                            FORCE_LIMIT as int,
                        ) as i64,
                    },
                    ..old(self).body_at(handle.body->0 as int)
                },
            ),
            !old(self).handle_body_live(*handle) ==> *final(self) == *old(self),
    {
        self.apply_force(handle, vec)
    }

    /// Accumulate a direct velocity change on the handle's body for the next
    /// step (clamped componentwise); silently does nothing when the body is
    /// absent.
    pub fn apply_velocity_change(&mut self, handle: &PhysicsHandle, vec: Vec2)
        requires
            old(self).wf(),
        ensures
            final(self).wf(),
            old(self).handle_body_live(*handle) ==> old(self).body_replaced(
                *final(self),
                handle.body->0 as int,
                Body {
                    accel_accum: Vec2 {
                        x: clamp_spec(
                            old(self).body_at(handle.body->0 as int).accel_accum.x + vec.x,
                            ACCEL_LIMIT as int,
                        ) as i64,
                        y: clamp_spec(
                            old(self).body_at(handle.body->0 as int).accel_accum.y + vec.y,
                            ACCEL_LIMIT as int,
                        ) as i64,
                    },
                    ..old(self).body_at(handle.body->0 as int)
                },
            ),
            !old(self).handle_body_live(*handle) ==> *final(self) == *old(self),
    {
        if let Some(i) = handle.body {
            if i < self.bodies.len() {
                if let Some(body) = &self.bodies[i] {
                    let ax: i64 = sat_add_clamp(body.accel_accum.x, vec.x, ACCEL_LIMIT);
                    let ay: i64 = sat_add_clamp(body.accel_accum.y, vec.y, ACCEL_LIMIT);
                    let nb = Body { accel_accum: Vec2 { x: ax, y: ay }, ..*body };
                    self.bodies.set(i, Some(nb));
                }
            }
        }
    }

    /// The velocity change a dampening of magnitude `mag` queues against a
    /// current velocity component `v`: `-v * mag / (1 + mag)`, rounded
    /// toward zero.
    pub open spec fn dampening_delta(v: int, mag: int) -> int {
        tdiv(-(v * mag), 1 + mag)
    }

    /// Accumulate a brake against the body's current velocity: each
    /// component is pulled toward zero by `v * mag / (1 + mag)` at the next
    /// step; silently does nothing when the body is absent.
    pub fn apply_dampening(&mut self, handle: &PhysicsHandle, mag: i64)
        requires
            old(self).wf(),
            0 <= mag <= DAMP_LIMIT,
        ensures
            final(self).wf(),
            old(self).handle_body_live(*handle) ==> old(self).body_replaced(
                *final(self),
                handle.body->0 as int,
                Body {
                    accel_accum: Vec2 {
                        x: clamp_spec(
                            old(self).body_at(handle.body->0 as int).accel_accum.x
                                + Self::dampening_delta(
                                old(self).body_at(handle.body->0 as int).vel.x as int,
                                mag as int,
                            ),
                            ACCEL_LIMIT as int,
                        ) as i64,
                        y: clamp_spec(
                            old(self).body_at(handle.body->0 as int).accel_accum.y
                                + Self::dampening_delta(
                                old(self).body_at(handle.body->0 as int).vel.y as int,
                                mag as int,
                            ),
                            ACCEL_LIMIT as int,
                        ) as i64,
                    },
                    ..old(self).body_at(handle.body->0 as int)
                },
            ),
            !old(self).handle_body_live(*handle) ==> *final(self) == *old(self),
    {
        if let Some(i) = handle.body {
            if i < self.bodies.len() {
                if let Some(body) = &self.bodies[i] {
                    proof {
                        lemma_dampening_bounded(body.vel.x as int, mag as int);
                        lemma_dampening_bounded(body.vel.y as int, mag as int);
                    }
                    let dx: i64 = div_trunc(-(body.vel.x * mag), 1 + mag);
                    let dy: i64 = div_trunc(-(body.vel.y * mag), 1 + mag);
                    let ax: i64 = sat_add_clamp(body.accel_accum.x, dx, ACCEL_LIMIT);
                    let ay: i64 = sat_add_clamp(body.accel_accum.y, dy, ACCEL_LIMIT);
                    let nb = Body { accel_accum: Vec2 { x: ax, y: ay }, ..*body };
                    self.bodies.set(i, Some(nb));
                }
            }
        }
    }

    /// Write the owning-entity back-reference into body slot `h`; silently
    /// does nothing when the slot is free.
    pub fn stamp_body_entity(&mut self, h: usize, e: Entity)
        requires
            old(self).wf(),
        ensures
            final(self).wf(),
            old(self).live_body(h as int) ==> old(self).body_replaced(
                *final(self),
                h as int,
                Body { entity: Some(e), ..old(self).body_at(h as int) },
            ),
            !old(self).live_body(h as int) ==> *final(self) == *old(self),
    {
        if h < self.bodies.len() {
            if let Some(body) = &self.bodies[h] {
                let nb = Body { entity: Some(e), ..*body };
                self.bodies.set(h, Some(nb));
            }
        }
    }

    /// Write the owning-entity back-reference into collider slot `h`;
    /// silently does nothing when the slot is free.
    pub fn stamp_collider_entity(&mut self, h: usize, e: Entity)
        requires
            old(self).wf(),
        ensures
            final(self).wf(),
            old(self).live_coll(h as int) ==> old(self).collider_replaced(
                *final(self),
                h as int,
                Collider { entity: Some(e), ..old(self).coll_at(h as int) },
            ),
            !old(self).live_coll(h as int) ==> *final(self) == *old(self),
    {
        if h < self.colliders.len() {
            if let Some(coll) = &self.colliders[h] {
                proof {
                    assert(old(self).colliders@[h as int] is Some);
                    assert(old(self).colliders@[h as int]->0.wf());
                }
                let nc = Collider { entity: Some(e), ..*coll };
                self.colliders.set(h, Some(nc));
                proof {
                    assert forall|j: int|
                        0 <= j < self.colliders@.len() && self.colliders@[j] is Some implies (
                    #[trigger] self.colliders@[j])->0.wf() && self.colliders@[j]->0.parent
                        < self.bodies@.len() by {
                        if j != h as int {
                            assert(self.colliders@[j] == old(self).colliders@[j]);
                        }
                    }
                }
            }
        }
    }

    /// Swap the shape of the handle's collider; silently does nothing when
    /// the collider is absent.
    pub fn change_shape(&mut self, handle: &PhysicsHandle, shape: Shape)
        requires
            old(self).wf(),
            shape.wf(),
        ensures
            final(self).wf(),
            (handle.collider is Some && old(self).live_coll(handle.collider->0 as int)) ==> old(self).collider_replaced(
                *final(self),
                handle.collider->0 as int,
                Collider { shape, ..old(self).coll_at(handle.collider->0 as int) },
            ),
            !(handle.collider is Some && old(self).live_coll(handle.collider->0 as int)) ==> *final(self) == *old(self),
    {
        if let Some(ch) = handle.collider {
            if ch < self.colliders.len() {
                if let Some(coll) = &self.colliders[ch] {
                    proof {
                        assert(old(self).colliders@[ch as int] is Some);
                        assert(old(self).colliders@[ch as int]->0.wf());
                    }
                    let nc = Collider { shape, ..*coll };
                    self.colliders.set(ch, Some(nc));
                    proof {
                        assert forall|j: int|
                            0 <= j < self.colliders@.len() && self.colliders@[j] is Some implies (
                        #[trigger] self.colliders@[j])->0.wf() && self.colliders@[j]->0.parent
                            < self.bodies@.len() by {
                            if j != ch as int {
                                assert(self.colliders@[j] == old(self).colliders@[j]);
                            }
                        }
                    }
                }
            }
        }
    }

    /// The owning entity stamped on body slot `handle`, if any.
    pub open spec fn body_entity_spec(self, handle: int) -> Option<Entity> {
        if self.live_body(handle) {
            self.body_at(handle).entity
        } else {
            None
        }
    }

    /// Resolve a body handle to its owning entity through the engine-side
    /// back-reference; `None` while unbound or freed.
    pub fn get_body_entity(&self, handle: usize) -> (r: Option<Entity>)
        ensures
            r == self.body_entity_spec(handle as int),
    {
        if handle < self.bodies.len() {
            if let Some(body) = &self.bodies[handle] {
                return body.entity;
            }
        }
        None
    }

    /// The owning entity stamped on collider slot `handle`, if any.
    pub open spec fn collider_entity_spec(self, handle: int) -> Option<Entity> {
        if self.live_coll(handle) {
            self.coll_at(handle).entity
        } else {
            None
        }
    }

    /// Resolve a collider handle to its owning entity through the
    /// engine-side back-reference; `None` while unbound or freed.
    pub fn get_collider_entity(&self, handle: usize) -> (r: Option<Entity>)
        ensures
            r == self.collider_entity_spec(handle as int),
    {
        if handle < self.colliders.len() {
            if let Some(coll) = &self.colliders[handle] {
                return coll.entity;
            }
        }
        None
    }

    /// The vector from the first handle's collider to the second's, when
    /// both stand in the world.
    pub open spec fn between_spec(self, h1: PhysicsHandle, h2: PhysicsHandle) -> Option<Vec2> {
        if h1.collider is Some && h2.collider is Some {
            match (self.world_pos_of(h1.collider->0 as int), self.world_pos_of(
                h2.collider->0 as int,
            )) {
                (Some(p1), Some(p2)) => Some(Vec2 { x: (p2.x - p1.x) as i64, y: (p2.y - p1.y) as i64 }),
                _ => None,
            }
        } else {
            None
        }
    }

    /// The vector from `handle1`'s collider to `handle2`'s collider; `None`
    /// while either is absent.
    pub fn get_between(&self, handle1: &PhysicsHandle, handle2: &PhysicsHandle) -> (r: Option<
        Vec2,
    >)
        requires
            self.wf(),
        ensures
            r == self.between_spec(*handle1, *handle2),
    {
        if let (Some(c1), Some(c2)) = (handle1.collider, handle2.collider) {
            if let (Some(p1), Some(p2)) = (self.world_pos(c1), self.world_pos(c2)) {
                return Some(Vec2 { x: p2.x - p1.x, y: p2.y - p1.y });
            }
        }
        None
    }

    /// Compute the world position of collider `j`, when it and its parent
    /// are live.
    pub fn world_pos(&self, j: usize) -> (r: Option<Vec2>)
        requires
            self.wf(),
        ensures
            r == self.world_pos_of(j as int),
            r is Some ==> r->0.bounded(2 * COORD_LIMIT as int),
    {
        if j < self.colliders.len() {
            if let Some(coll) = &self.colliders[j] {
                if let Some(body) = &self.bodies[coll.parent] {
                    return Some(vadd_exec(body.pos, coll.offset));
                }
            }
        }
        None
    }

    /// Whether the two handles' colliders currently overlap: both stand in
    /// the world and their shapes intersect at the current poses.
    pub open spec fn is_intersecting_spec(self, h1: PhysicsHandle, h2: PhysicsHandle) -> bool {
        &&& h1.collider is Some
        &&& h2.collider is Some
        &&& self.world_pos_of(h1.collider->0 as int) is Some
        &&& self.world_pos_of(h2.collider->0 as int) is Some
        &&& classify_at(
            self.world_pos_of(h1.collider->0 as int)->0,
            self.coll_at(h1.collider->0 as int).shape,
            self.world_pos_of(h2.collider->0 as int)->0,
            self.coll_at(h2.collider->0 as int).shape,
        ) == Proximity::Intersecting
    }

    /// True exactly when a live overlapping pair currently exists between
    /// the two handles' colliders; symmetric in its arguments.
    pub fn is_intersecting(&self, handle1: &PhysicsHandle, handle2: &PhysicsHandle) -> (r: bool)
        requires
            self.wf(),
        ensures
            r == self.is_intersecting_spec(*handle1, *handle2),
    {
        if let (Some(c1), Some(c2)) = (handle1.collider, handle2.collider) {
            if let (Some(p1), Some(p2)) = (self.world_pos(c1), self.world_pos(c2)) {
                let s1 = self.colliders[c1].as_ref().unwrap().shape;
                let s2 = self.colliders[c2].as_ref().unwrap().shape;
                return matches!(classify_exec(p1, s1, p2, s2), Proximity::Intersecting);
            }
        }
        false
    }

    /// Overlap is symmetric: what `is_intersecting` reports for `(h1, h2)`
    /// it reports for `(h2, h1)`, for every pair of handles, always.
    pub proof fn lemma_is_intersecting_sym(self, h1: PhysicsHandle, h2: PhysicsHandle)
        ensures
            self.is_intersecting_spec(h1, h2) == self.is_intersecting_spec(h2, h1),
    {
        if h1.collider is Some && h2.collider is Some {
            let j1 = h1.collider->0 as int;
            let j2 = h2.collider->0 as int;
            if self.world_pos_of(j1) is Some && self.world_pos_of(j2) is Some {
                lemma_classify_sym(
                    self.world_pos_of(j1)->0,
                    self.coll_at(j1).shape,
                    self.world_pos_of(j2)->0,
                    self.coll_at(j2).shape,
                );
            }
        }
    }

    /// Collider `k` currently overlaps collider `c0` (both standing in the
    /// world, `k` distinct from `c0`).
    pub open spec fn overlaps(self, c0: int, k: int) -> bool {
        &&& k != c0
        &&& self.world_pos_of(c0) is Some
        &&& self.world_pos_of(k) is Some
        &&& classify_at(
            self.world_pos_of(c0)->0,
            self.coll_at(c0).shape,
            self.world_pos_of(k)->0,
            self.coll_at(k).shape,
        ) == Proximity::Intersecting
    }

    /// The entities owning colliders below `n` that overlap collider `c0`,
    /// in slot order, skipping colliders with no stamped entity.
    pub open spec fn intersections_upto(self, c0: int, n: int) -> Seq<Entity>
        decreases n,
    {
        if n <= 0 {
            Seq::empty()
        } else {
            let prefix = self.intersections_upto(c0, n - 1);
            if self.overlaps(c0, n - 1) && self.coll_at(n - 1).entity is Some {
                prefix.push(self.coll_at(n - 1).entity->0)
            } else {
                prefix
            }
        }
    }

    /// While a collider does not stand in the world, it overlaps nothing.
    pub proof fn lemma_intersections_empty(self, c0: int, n: int)
        requires
            self.world_pos_of(c0) is None,
        ensures
            self.intersections_upto(c0, n) == Seq::<Entity>::empty(),
        decreases n,
    {
        if n > 0 {
            self.lemma_intersections_empty(c0, n - 1);
        }
    }

    /// The entities `get_intersections` reports for `h`.
    pub open spec fn intersections_spec(self, h: PhysicsHandle) -> Seq<Entity> {
        if h.collider is Some {
            self.intersections_upto(h.collider->0 as int, self.colliders@.len() as int)
        } else {
            Seq::empty()
        }
    }

    /// The entities whose colliders currently overlap the handle's
    /// collider, in collider slot order.
    pub fn get_intersections(&self, handle: &PhysicsHandle) -> (found: Vec<Entity>)
        requires
            self.wf(),
        ensures
            found@ == self.intersections_spec(*handle),
    {
        let mut found: Vec<Entity> = Vec::new();
        if let Some(c0) = handle.collider {
            if let Some(p0) = self.world_pos(c0) {
                let s0 = self.colliders[c0].as_ref().unwrap().shape;
                let n = self.colliders.len();
                let mut k: usize = 0;
                while k < n
                    invariant
                        self.wf(),
                        n == self.colliders@.len(),
                        k <= n,
                        handle.collider == Some(c0),
                        self.world_pos_of(c0 as int) == Some(p0),
                        s0 == self.coll_at(c0 as int).shape,
                        p0.bounded(2 * COORD_LIMIT as int),
                        found@ == self.intersections_upto(c0 as int, k as int),
                    decreases n - k,
                {
                    if k != c0 {
                        if let Some(pk) = self.world_pos(k) {
                            let sk = self.colliders[k].as_ref().unwrap().shape;
                            let cls = classify_exec(p0, s0, pk, sk);
                            if matches!(cls, Proximity::Intersecting) {
                                if let Some(coll) = &self.colliders[k] {
                                    if let Some(e) = coll.entity {
                                        found.push(e);
                                    }
                                }
                            }
                        }
                    }
                    k = k + 1;
                }
                return found;
            } else {
                proof {
                    self.lemma_intersections_empty(c0 as int, self.colliders@.len() as int);
                }
            }
        }
        found
    }
}

impl Default for Physics {
    /// An empty world: no bodies, no colliders, empty logs.
    fn default() -> (r: Physics)
        ensures
            r.wf(),
            r.bodies@.len() == 0,
            r.colliders@.len() == 0,
            r.contacts@.len() == 0,
            r.proximities@.len() == 0,
            r.contact_tick_start == 0,
            r.prox_tick_start == 0,
    {
        Physics::new()
    }
}

/// Add, then clamp into `[-limit, limit]`, saturating instead of wrapping.
fn sat_add_clamp(a: i64, b: i64, limit: i64) -> (r: i64)
    requires
        0 <= limit,
        -limit <= a <= limit,
    ensures
        r == clamp_spec(a + b, limit as int),
{
    let s = a.checked_add(b);
    match s {
        Some(v) => clamp(v, limit),
        None => {
            if b > 0 {
                limit
            } else {
                -limit
            }
        },
    }
}

/// A dampening delta never exceeds the velocity it brakes.
proof fn lemma_dampening_bounded(v: int, mag: int)
    requires
        -VEL_LIMIT <= v <= VEL_LIMIT,
        0 <= mag <= DAMP_LIMIT,
    ensures
        -(VEL_LIMIT * DAMP_LIMIT) <= v * mag <= VEL_LIMIT * DAMP_LIMIT,
        -VEL_LIMIT <= Physics::dampening_delta(v, mag) <= VEL_LIMIT,
{
    let q = v * mag;
    let m1 = 1 + mag;
    assert(-(VEL_LIMIT * mag) <= q <= VEL_LIMIT * mag && VEL_LIMIT * mag <= VEL_LIMIT * DAMP_LIMIT)
        by (nonlinear_arith)
        requires
            -VEL_LIMIT <= v <= VEL_LIMIT,
            0 <= mag <= DAMP_LIMIT,
            q == v * mag,
    ;
    if q <= 0 {
        assert(0 <= (-q) / m1 <= VEL_LIMIT) by (nonlinear_arith)
            requires
                0 <= -q <= VEL_LIMIT * mag,
                m1 == 1 + mag,
                0 <= mag,
        ;
    } else {
        assert(0 <= q / m1 <= VEL_LIMIT) by (nonlinear_arith)
            requires
                0 < q <= VEL_LIMIT * mag,
                m1 == 1 + mag,
                0 <= mag,
        ;
    }
}

} // verus!
