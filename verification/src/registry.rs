//! The per-entity records binding host entities to simulation handles, and
//! the three pipelines that run each tick: spawning (realize pending
//! templates, then stamp back-references), synchronization (copy simulated
//! poses back into entity transforms), and deletion (free engine objects
//! whose owning entity has died).

use vstd::prelude::*;

use crate::math::{clamp_spec, Vec2, COORD_LIMIT};
use crate::types::{
    AttachedSensor, Body, Collider, Entity, Iso2, PhysicsDesc, PhysicsHandle,
};
use crate::world::Physics;

verus! {

/// Everything this layer tracks about one host entity: its liveness, its 2D
/// transform, a pending physics template, the realized handle pair, and an
/// optional attached sensor declared against a parent entity.
#[derive(Clone, Copy, Debug)]
pub struct EntityRec {
    pub entity: Entity,
    pub alive: bool,
    pub transform: Option<Iso2>,
    pub desc: Option<PhysicsDesc>,
    pub handle: Option<PhysicsHandle>,
    pub sensor: Option<(Entity, AttachedSensor)>,
}

/// The registry of per-entity records. Each live handle has at most one
/// owning entity, and no two records share an engine slot.
pub struct HandleRegistry {
    pub recs: Vec<EntityRec>,
}

/// The record carries a pending template that one spawning pass must
/// realize: it is alive, has a descriptor, and has no handle yet.
pub open spec fn wants_spawn(r: EntityRec) -> bool {
    r.alive && r.desc is Some && r.handle is None
}

/// The position the spawning pass pushes into a fresh body: the entity's own
/// transform where it has one (the entity is authoritative for the initial
/// pose only), the origin otherwise.
pub open spec fn initial_pos(r: EntityRec) -> Vec2 {
    match r.transform {
        Some(t) => Vec2 {
            x: clamp_spec(t.pos.x as int, COORD_LIMIT as int) as i64,
            y: clamp_spec(t.pos.y as int, COORD_LIMIT as int) as i64,
        },
        None => Vec2::zero_spec(),
    }
}

/// How many records below `n` carry a pending template.
pub open spec fn count_pending(recs: Seq<EntityRec>, n: int) -> int
    decreases n,
{
    if n <= 0 {
        0
    } else {
        count_pending(recs, n - 1) + (if wants_spawn(recs[n - 1]) {
            1int
        } else {
            0int
        })
    }
}

impl HandleRegistry {
    /// Entities are distinct and every stored template is well-formed.
    pub open spec fn wf(self) -> bool {
        &&& forall|a: int, b: int|
            0 <= a < b < self.recs@.len() ==> (#[trigger] self.recs@[a]).entity != (
            #[trigger] self.recs@[b]).entity
        &&& forall|t: int|
            0 <= t < self.recs@.len() ==> {
                &&& ((#[trigger] self.recs@[t]).desc is Some ==> self.recs@[t].desc->0.wf())
                &&& (self.recs@[t].sensor is Some ==> (self.recs@[t].sensor->0).1.collider.wf()
                    && (self.recs@[t].sensor->0).1.collider.sensor)
            }
    }

    /// No two records name the same engine slot: body indices are distinct
    /// across handles, and collider indices are distinct across handles and
    /// sensors together.
    pub open spec fn handles_distinct(self) -> bool {
        &&& forall|a: int, b: int|
            0 <= a < b < self.recs@.len() && (#[trigger] self.recs@[a]).handle is Some && (
            #[trigger] self.recs@[b]).handle is Some ==> {
                &&& (self.recs@[a].handle->0.body is Some && self.recs@[b].handle->0.body is Some
                    ==> self.recs@[a].handle->0.body->0 != self.recs@[b].handle->0.body->0)
                &&& (self.recs@[a].handle->0.collider is Some && self.recs@[b].handle->0.collider
                    is Some ==> self.recs@[a].handle->0.collider->0
                    != self.recs@[b].handle->0.collider->0)
            }
        &&& forall|a: int, b: int|
            0 <= a < self.recs@.len() && 0 <= b < self.recs@.len() && (
            #[trigger] self.recs@[a]).handle is Some && (#[trigger] self.recs@[b]).sensor is Some
                ==> {
                self.recs@[a].handle->0.collider is Some && (self.recs@[b].sensor->0).1.handle
                    is Some ==> self.recs@[a].handle->0.collider->0
                    != ((self.recs@[b].sensor->0).1.handle->0).1
            }
        &&& forall|a: int, b: int|
            0 <= a < b < self.recs@.len() && (#[trigger] self.recs@[a]).sensor is Some && (
            #[trigger] self.recs@[b]).sensor is Some ==> {
                (self.recs@[a].sensor->0).1.handle is Some && (self.recs@[b].sensor->0).1.handle
                    is Some ==> ((self.recs@[a].sensor->0).1.handle->0).1
                    != ((self.recs@[b].sensor->0).1.handle->0).1
            }
    }

    /// Every stored engine index lies inside the world's slabs.
    pub open spec fn consistent(self, phys: Physics) -> bool {
        forall|t: int|
            0 <= t < self.recs@.len() ==> {
                &&& ((#[trigger] self.recs@[t]).handle is Some ==> {
                    &&& (self.recs@[t].handle->0.body is Some ==> (
                    self.recs@[t].handle->0.body->0 as int) < phys.bodies@.len())
                    &&& (self.recs@[t].handle->0.collider is Some ==> (
                    self.recs@[t].handle->0.collider->0 as int) < phys.colliders@.len())
                })
                &&& (self.recs@[t].sensor is Some && (self.recs@[t].sensor->0).1.handle is Some
                    ==> {
                    &&& (((self.recs@[t].sensor->0).1.handle->0).0 as int) < phys.bodies@.len()
                    &&& (((self.recs@[t].sensor->0).1.handle->0).1 as int) < phys.colliders@.len()
                })
            }
    }

    /// No handle or sensor is still waiting to be stamped: a pass always
    /// finishes what it allocates, so freshness never survives a tick.
    pub open spec fn no_fresh(self) -> bool {
        forall|t: int|
            0 <= t < self.recs@.len() ==> {
                &&& ((#[trigger] self.recs@[t]).handle is Some
                    ==> !self.recs@[t].handle->0.fresh)
                &&& (self.recs@[t].sensor is Some ==> !(self.recs@[t].sensor->0).1.fresh)
            }
    }

    pub fn new() -> (r: HandleRegistry)
        ensures
            r.recs@.len() == 0,
            r.wf(),
            r.handles_distinct(),
            r.no_fresh(),
            forall|p: Physics| #[trigger] r.consistent(p),
    {
        HandleRegistry { recs: Vec::new() }
    }

    /// The first record of a live entity with this identifier, if any.
    pub open spec fn find_spec(self, e: Entity, n: int) -> Option<int>
        decreases n,
    {
        if n <= 0 {
            None
        } else {
            match self.find_spec(e, n - 1) {
                Some(u) => Some(u),
                None => {
                    if self.recs@[n - 1].entity == e && self.recs@[n - 1].alive {
                        Some(n - 1)
                    } else {
                        None
                    }
                },
            }
        }
    }

    /// Once found, a record stays found under any longer scan.
    pub proof fn lemma_find_stable(self, e: Entity, m: int, n2: int)
        requires
            m <= n2,
            self.find_spec(e, m) is Some,
        ensures
            self.find_spec(e, n2) == self.find_spec(e, m),
        decreases n2 - m,
    {
        if m < n2 {
            self.lemma_find_stable(e, m, n2 - 1);
        }
    }

    /// Look a live entity's record index up.
    pub fn find(&self, e: Entity) -> (r: Option<usize>)
        ensures
            match r {
                Some(u) => self.find_spec(e, self.recs@.len() as int) == Some(u as int) && (
                u as int) < self.recs@.len(),
                None => self.find_spec(e, self.recs@.len() as int) is None,
            },
    {
        let n = self.recs.len();
        let mut t: usize = 0;
        while t < n
            invariant
                t <= n,
                n == self.recs@.len(),
                self.find_spec(e, t as int) is None,
            decreases n - t,
        {
            let rec = &self.recs[t];
            if rec.alive && rec.entity.id == e.id {
                proof {
                    assert(rec.entity == e);
                    assert(self.find_spec(e, t as int + 1) == Some(t as int));
                    self.lemma_find_stable(e, t as int + 1, self.recs@.len() as int);
                }
                return Some(t);
            }
            t += 1;
        }
        None
    }

    /// Record a new entity, rejecting a duplicate identifier. The entity
    /// starts alive, with no handle and no sensor.
    pub fn add_entity(&mut self, entity: Entity, transform: Option<Iso2>, desc: Option<
        PhysicsDesc,
    >) -> (ok: bool)
        requires
            old(self).wf(),
            old(self).handles_distinct(),
            old(self).no_fresh(),
            desc is Some ==> desc->0.wf(),
        ensures
            final(self).wf(),
            final(self).handles_distinct(),
            final(self).no_fresh(),
            ok <==> (forall|t: int|
                0 <= t < old(self).recs@.len() ==> (#[trigger] old(self).recs@[t]).entity
                    != entity),
            ok ==> final(self).recs@ == old(self).recs@.push(
                EntityRec { entity, alive: true, transform, desc, handle: None, sensor: None },
            ),
            !ok ==> *final(self) == *old(self),
            forall|p: Physics| old(self).consistent(p) ==> final(self).consistent(p),
    {
        let n = self.recs.len();
        let mut t: usize = 0;
        while t < n
            invariant
                t <= n,
                n == self.recs@.len(),
                *self == *old(self),
                old(self).wf(),
                old(self).handles_distinct(),
                old(self).no_fresh(),
                forall|u: int| 0 <= u < t ==> (#[trigger] self.recs@[u]).entity != entity,
            decreases n - t,
        {
            if self.recs[t].entity.id == entity.id {
                proof {
                    assert(old(self).recs@[t as int].entity == entity);
                }
                return false;
            }
            t += 1;
        }
        self.recs.push(
            EntityRec { entity, alive: true, transform, desc, handle: None, sensor: None },
        );
        true
    }

    /// Mark an entity dead in the host world; its engine objects disappear
    /// at the next deletion pass.
    pub fn kill(&mut self, e: Entity)
        ensures
            final(self).recs@.len() == old(self).recs@.len(),
            forall|t: int|
                0 <= t < old(self).recs@.len() ==> final(self).recs@[t] == (if old(
                    self,
                ).recs@[t].entity == e {
                    EntityRec { alive: false, ..old(self).recs@[t] }
                } else {
                    old(self).recs@[t]
                }),
    {
        let n = self.recs.len();
        let mut t: usize = 0;
        while t < n
            invariant
                t <= n,
                n == self.recs@.len(),
                n == old(self).recs@.len(),
                forall|u: int|
                    0 <= u < t ==> self.recs@[u] == (if old(self).recs@[u].entity == e {
                        EntityRec { alive: false, ..old(self).recs@[u] }
                    } else {
                        old(self).recs@[u]
                    }),
                forall|u: int| t <= u < n ==> self.recs@[u] == old(self).recs@[u],
            decreases n - t,
        {
            let rec = self.recs[t];
            if rec.entity.id == e.id {
                self.recs.set(t, EntityRec { alive: false, ..rec });
            }
            t += 1;
        }
    }

    /// An entity with this identifier is currently alive.
    pub open spec fn alive_spec(self, e: Entity) -> bool {
        exists|t: int|
            0 <= t < self.recs@.len() && (#[trigger] self.recs@[t]).entity == e
                && self.recs@[t].alive
    }

    /// The host world's liveness query.
    pub fn is_alive(&self, e: Entity) -> (r: bool)
        ensures
            r == self.alive_spec(e),
    {
        let n = self.recs.len();
        let mut t: usize = 0;
        while t < n
            invariant
                t <= n,
                n == self.recs@.len(),
                forall|u: int|
                    0 <= u < t ==> !((#[trigger] self.recs@[u]).entity == e
                        && self.recs@[u].alive),
            decreases n - t,
        {
            let rec = &self.recs[t];
            if rec.alive && rec.entity.id == e.id {
                proof {
                    assert(self.recs@[t as int].entity == e && self.recs@[t as int].alive);
                }
                return true;
            }
            t += 1;
        }
        false
    }
}

/// What one spawning pass leaves of a record `o` and of the world: a pending
/// template is realized into a stamped, no-longer-fresh handle whose body
/// sits at the entity's initial transform; every other record keeps its
/// handle and transform.
pub open spec fn spawn_result(o: EntityRec, n: EntityRec, phys: Physics, b0: int, c0: int) -> bool {
    &&& n.entity == o.entity
    &&& n.alive == o.alive
    &&& n.desc == o.desc
    &&& if wants_spawn(o) {
        &&& n.handle is Some
        &&& !n.handle->0.fresh
        &&& n.handle->0.body is Some
        &&& n.handle->0.collider is Some
        &&& {
            let bi = n.handle->0.body->0 as int;
            let ci = n.handle->0.collider->0 as int;
            &&& b0 <= bi < phys.bodies@.len()
            &&& c0 <= ci < phys.colliders@.len()
            &&& phys.bodies@[bi] == Some(
                Body {
                    status: o.desc->0.body.status,
                    mass: o.desc->0.body.mass,
                    damping: o.desc->0.body.damping,
                    pos: initial_pos(o),
                    rot: 0,
                    vel: Vec2::zero_spec(),
                    ang_vel: 0,
                    accel_accum: Vec2::zero_spec(),
                    force_accum: Vec2::zero_spec(),
                    primary: n.handle->0.collider->0,
                    entity: Some(o.entity),
                },
            )
            &&& phys.colliders@[ci] == Some(
                Collider {
                    shape: o.desc->0.collider.shape,
                    sensor: o.desc->0.collider.sensor,
                    parent: n.handle->0.body->0,
                    offset: Vec2::zero_spec(),
                    entity: Some(o.entity),
                    last_pos: None,
                },
            )
            &&& phys.position_spec(n.handle->0) == Some(Iso2 { pos: initial_pos(o), rot: 0 })
        }
        &&& n.transform == (if o.transform is Some {
            o.transform
        } else {
            Some(Iso2 { pos: Vec2::zero_spec(), rot: 0 })
        })
    } else {
        &&& n.handle == o.handle
        &&& n.transform == o.transform
    }
}

/// The record declares an attached sensor that this pass can realize: it
/// is alive, its sensor has no handle yet, and its declared parent entity
/// resolves to a live record that — once pass one has run — carries a handle
/// with a live body.
pub open spec fn sensor_realizable(reg0: HandleRegistry, phys0: Physics, t: int) -> bool {
    let o = reg0.recs@[t];
    &&& o.alive
    &&& o.sensor is Some
    &&& (o.sensor->0).1.handle is None
    &&& match reg0.find_spec((o.sensor->0).0, reg0.recs@.len() as int) {
        Some(u) => {
            let p = reg0.recs@[u];
            wants_spawn(p) || (p.handle is Some && p.handle->0.body is Some && phys0.live_body(
                p.handle->0.body->0 as int,
            ))
        },
        None => false,
    }
}

/// How many records below `n` declare a realizable sensor.
pub open spec fn count_realizable(reg0: HandleRegistry, phys0: Physics, n: int) -> int
    decreases n,
{
    if n <= 0 {
        0
    } else {
        count_realizable(reg0, phys0, n - 1) + (if sensor_realizable(reg0, phys0, n - 1) {
            1int
        } else {
            0int
        })
    }
}

/// What the pass leaves of a record's sensor: a realizable declaration gains
/// a stamped, no-longer-fresh handle onto a fresh sensor collider under the
/// parent's body; any other sensor is untouched.
pub open spec fn sensor_result(
    o: EntityRec,
    n: EntityRec,
    phys: Physics,
    realized: bool,
    cmid: int,
) -> bool {
    if realized {
        &&& n.sensor is Some
        &&& (n.sensor->0).0 == (o.sensor->0).0
        &&& {
            let s_old = (o.sensor->0).1;
            let s_new = (n.sensor->0).1;
            &&& s_new.collider == s_old.collider
            &&& s_new.handle is Some
            &&& !s_new.fresh
            &&& {
                let pb = (s_new.handle->0).0;
                let sci = (s_new.handle->0).1 as int;
                &&& cmid <= sci < phys.colliders@.len()
                &&& phys.colliders@[sci] == Some(
                    Collider {
                        shape: s_old.collider.shape,
                        sensor: true,
                        parent: pb,
                        offset: Vec2::zero_spec(),
                        entity: Some(o.entity),
                        last_pos: None,
                    },
                )
                &&& phys.live_body(pb as int)
            }
        }
    } else {
        n.sensor == o.sensor
    }
}

/// As `sensor_result`, but straight after realization: the sensor is still
/// fresh and its collider not yet stamped.
pub open spec fn sensor_allocated(
    o: EntityRec,
    n: EntityRec,
    phys: Physics,
    realized: bool,
    cmid: int,
) -> bool {
    if realized {
        &&& n.sensor is Some
        &&& (n.sensor->0).0 == (o.sensor->0).0
        &&& {
            let s_old = (o.sensor->0).1;
            let s_new = (n.sensor->0).1;
            &&& s_new.collider == s_old.collider
            &&& s_new.handle is Some
            &&& s_new.fresh
            &&& {
                let pb = (s_new.handle->0).0;
                let sci = (s_new.handle->0).1 as int;
                &&& cmid <= sci < phys.colliders@.len()
                &&& phys.colliders@[sci] == Some(
                    Collider {
                        shape: s_old.collider.shape,
                        sensor: true,
                        parent: pb,
                        offset: Vec2::zero_spec(),
                        entity: None,
                        last_pos: None,
                    },
                )
                &&& phys.live_body(pb as int)
            }
        }
    } else {
        n.sensor == o.sensor
    }
}

/// Realize every pending template and every realizable attached sensor,
/// then stamp each fresh handle's back-references and clear its freshness:
/// the two passes of the spawning pipeline. One pass makes `get_position`
/// of a spawned entity's handle return the entity's initial transform.
pub fn spawning_pass(reg: &mut HandleRegistry, phys: &mut Physics)
    requires
        old(reg).wf(),
        old(reg).handles_distinct(),
        old(reg).consistent(*old(phys)),
        old(reg).no_fresh(),
        old(phys).wf(),
    ensures
        final(reg).wf(),
        final(reg).handles_distinct(),
        final(reg).consistent(*final(phys)),
        final(reg).no_fresh(),
        final(phys).wf(),
        final(reg).recs@.len() == old(reg).recs@.len(),
        old(phys).bodies@.len() <= final(phys).bodies@.len(),
        old(phys).colliders@.len() <= final(phys).colliders@.len(),
        final(phys).bodies@.len() == old(phys).bodies@.len() + count_pending(
            old(reg).recs@,
            old(reg).recs@.len() as int,
        ),
        final(phys).colliders@.len() == old(phys).colliders@.len() + count_pending(
            old(reg).recs@,
            old(reg).recs@.len() as int,
        ) + count_realizable(*old(reg), *old(phys), old(reg).recs@.len() as int),
        forall|i: int|
            0 <= i < old(phys).bodies@.len() ==> final(phys).bodies@[i] == old(phys).bodies@[i],
        forall|j: int|
            0 <= j < old(phys).colliders@.len() ==> final(phys).colliders@[j] == old(
                phys,
            ).colliders@[j],
        old(phys).same_logs(*final(phys)),
        forall|t: int|
            0 <= t < old(reg).recs@.len() ==> spawn_result(
                old(reg).recs@[t],
                #[trigger] final(reg).recs@[t],
                *final(phys),
                old(phys).bodies@.len() as int,
                old(phys).colliders@.len() as int,
            ),
        forall|t: int|
            0 <= t < old(reg).recs@.len() ==> sensor_result(
                old(reg).recs@[t],
                #[trigger] final(reg).recs@[t],
                *final(phys),
                sensor_realizable(*old(reg), *old(phys), t),
                old(phys).colliders@.len() as int + count_pending(
                    old(reg).recs@,
                    old(reg).recs@.len() as int,
                ),
            ),
{
    let ghost reg0 = *reg;
    let ghost phys0 = *phys;
    let ghost b0 = old(phys).bodies@.len() as int;
    let ghost c0 = old(phys).colliders@.len() as int;
    let n = reg.recs.len();

    // Pass one, allocation: realize every pending template and push the
    // entity's initial pose into the fresh body.
    let mut t: usize = 0;
    while t < n
        invariant
            t <= n,
            n == reg.recs@.len(),
            n == reg0.recs@.len(),
            reg0.wf(),
            reg0.handles_distinct(),
            reg0.consistent(phys0),
            reg0.no_fresh(),
            phys0.wf(),
            phys.wf(),
            b0 == phys0.bodies@.len(),
            c0 == phys0.colliders@.len(),
            b0 <= phys.bodies@.len(),
            c0 <= phys.colliders@.len(),
            phys.bodies@.len() == b0 + count_pending(reg0.recs@, t as int),
            phys.colliders@.len() == c0 + count_pending(reg0.recs@, t as int),
            forall|i: int| 0 <= i < b0 ==> phys.bodies@[i] == phys0.bodies@[i],
            forall|j: int| 0 <= j < c0 ==> phys.colliders@[j] == phys0.colliders@[j],
            phys0.same_logs(*phys),
            forall|u: int| t <= u < n ==> reg.recs@[u] == reg0.recs@[u],
            forall|u: int| 0 <= u < t ==> (#[trigger] reg.recs@[u]).sensor == reg0.recs@[u].sensor,
            forall|u: int|
                0 <= u < t ==> allocated_result(
                    reg0.recs@[u],
                    #[trigger] reg.recs@[u],
                    *phys,
                    b0,
                    c0,
                ),
            forall|u1: int, u2: int|
                0 <= u1 < u2 < t && wants_spawn(reg0.recs@[u1]) && wants_spawn(reg0.recs@[u2])
                    ==> (#[trigger] reg.recs@[u1]).handle->0.body->0 != (
                #[trigger] reg.recs@[u2]).handle->0.body->0 && reg.recs@[u1].handle->0.collider->0
                    != reg.recs@[u2].handle->0.collider->0,
        decreases n - t,
    {
        let rec = self_rec(reg, t);
        if rec.alive && rec.desc.is_some() && rec.handle.is_none() {
            proof {
                assert(rec == reg0.recs@[t as int]);
                assert(reg0.recs@[t as int].desc is Some ==> reg0.recs@[t as int].desc->0.wf());
            }
            let desc = rec.desc.unwrap();
            let (bh, ch) = phys.spawn(&desc.body, &desc.collider);
            let handle = PhysicsHandle::new(bh, ch);
            let mut nrec = rec;
            match rec.transform {
                Some(t0) => {
                    phys.set_location(&handle, t0.pos.x, t0.pos.y);
                },
                None => {
                    nrec.transform = Some(Iso2 { pos: Vec2::zero(), rot: 0 });
                },
            }
            nrec.handle = Some(handle);
            reg.recs.set(t, nrec);
        }
        t += 1;
    }

    let ghost cmid = c0 + count_pending(reg0.recs@, n as int);

    // Pass one, sensors: attach every realizable sensor collider to its
    // parent's (now existing) body.
    let mut t: usize = 0;
    while t < n
        invariant
            t <= n,
            n == reg.recs@.len(),
            n == reg0.recs@.len(),
            reg0.wf(),
            reg0.handles_distinct(),
            reg0.consistent(phys0),
            reg0.no_fresh(),
            phys0.wf(),
            phys.wf(),
            b0 == phys0.bodies@.len(),
            c0 == phys0.colliders@.len(),
            b0 <= phys.bodies@.len(),
            cmid == c0 + count_pending(reg0.recs@, n as int),
            c0 <= cmid <= phys.colliders@.len(),
            phys.bodies@.len() == b0 + count_pending(reg0.recs@, n as int),
            phys.colliders@.len() == cmid + count_realizable(reg0, phys0, t as int),
            forall|i: int| 0 <= i < b0 ==> phys.bodies@[i] == phys0.bodies@[i],
            forall|j: int| 0 <= j < c0 ==> phys.colliders@[j] == phys0.colliders@[j],
            phys0.same_logs(*phys),
            forall|u: int|
                0 <= u < n ==> allocated_result(
                    reg0.recs@[u],
                    #[trigger] reg.recs@[u],
                    *phys,
                    b0,
                    c0,
                ),
            forall|u: int|
                0 <= u < n && wants_spawn(reg0.recs@[u]) ==> ((
                #[trigger] reg.recs@[u]).handle->0.collider->0 as int) < cmid,
            forall|u: int|
                t <= u < n ==> (#[trigger] reg.recs@[u]).sensor == reg0.recs@[u].sensor,
            forall|u: int|
                0 <= u < t ==> sensor_allocated(
                    reg0.recs@[u],
                    #[trigger] reg.recs@[u],
                    *phys,
                    sensor_realizable(reg0, phys0, u),
                    cmid,
                ),
            forall|u1: int, u2: int|
                0 <= u1 < u2 < n && wants_spawn(reg0.recs@[u1]) && wants_spawn(reg0.recs@[u2])
                    ==> (#[trigger] reg.recs@[u1]).handle->0.body->0 != (
                #[trigger] reg.recs@[u2]).handle->0.body->0 && reg.recs@[u1].handle->0.collider->0
                    != reg.recs@[u2].handle->0.collider->0,
            forall|u1: int, u2: int|
                0 <= u1 < u2 < t && sensor_realizable(reg0, phys0, u1) && sensor_realizable(
                    reg0,
                    phys0,
                    u2,
                ) ==> ((#[trigger] reg.recs@[u1]).sensor->0).1.handle->0 != ((
            #[trigger] reg.recs@[u2]).sensor->0).1.handle->0,
            forall|u: int|
                0 <= u < t && sensor_realizable(reg0, phys0, u) ==> cmid <= (((
                #[trigger] reg.recs@[u]).sensor->0).1.handle->0).1,
        decreases n - t,
    {
        let rec = self_rec(reg, t);
        if rec.alive {
            if let Some((pe, s)) = rec.sensor {
                if s.handle.is_none() {
                    proof {
                        assert(rec.sensor == reg0.recs@[t as int].sensor);
                        assert((reg0.recs@[t as int].sensor->0).1.collider.wf());
                        assert((reg0.recs@[t as int].sensor->0).1.collider.sensor);
                    }
                    let found = reg.find(pe);
                    proof {
                        assert forall|v: int|
                            0 <= v < n implies (#[trigger] reg.recs@[v]).entity
                            == reg0.recs@[v].entity && reg.recs@[v].alive
                            == reg0.recs@[v].alive by {
                            assert(allocated_result(reg0.recs@[v], reg.recs@[v], *phys, b0, c0));
                        }
                        lemma_find_same(reg0, *reg, pe);
                    }
                    if let Some(u) = found {
                        proof {
                            assert(reg0.find_spec(pe, n as int) == Some(u as int));
                            assert(allocated_result(
                                reg0.recs@[u as int],
                                reg.recs@[u as int],
                                *phys,
                                b0,
                                c0,
                            ));
                        }
                        let prec = self_rec(reg, u);
                        if let Some(ph) = prec.handle {
                            if let Some(pb) = ph.body {
                                let parent_live = pb < phys.bodies.len() && phys.bodies[pb]
                                    .is_some();
                                if parent_live {
                                    proof {
                                        assert(sensor_realizable(reg0, phys0, t as int));
                                    }
                                    let sci = phys.add_child_collider(&ph, &s.collider);
                                    let mut ns = s;
                                    ns.set_handle((pb, sci));
                                    let mut nrec = rec;
                                    nrec.sensor = Some((pe, ns));
                                    reg.recs.set(t, nrec);
                                    proof {
                                        assert(sensor_allocated(
                                            reg0.recs@[t as int],
                                            reg.recs@[t as int],
                                            *phys,
                                            true,
                                            cmid,
                                        ));
                                    }
                                } else {
                                    proof {
                                        assert(!wants_spawn(reg0.recs@[u as int]));
                                        assert(reg0.recs@[u as int].handle == Some(ph));
                                        assert((pb as int) < b0);
                                        assert(phys.bodies@[pb as int] == phys0.bodies@[pb as int]);
                                        assert(!sensor_realizable(reg0, phys0, t as int));
                                    }
                                }
                            } else {
                                proof {
                                    assert(!wants_spawn(reg0.recs@[u as int]));
                                    assert(!sensor_realizable(reg0, phys0, t as int));
                                }
                            }
                        } else {
                            proof {
                                assert(!wants_spawn(reg0.recs@[u as int]));
                                assert(!sensor_realizable(reg0, phys0, t as int));
                            }
                        }
                    } else {
                        proof {
                            assert(reg0.find_spec(pe, n as int) is None);
                            assert(!sensor_realizable(reg0, phys0, t as int));
                        }
                    }
                }
            }
        }
        t += 1;
    }

    // Pass two: stamp the owning entity into every freshly allocated body
    // and collider, then clear the freshness marks.
    let ghost regb = *reg;
    let ghost physb = *phys;
    let mut t: usize = 0;
    while t < n
        invariant
            t <= n,
            n == reg.recs@.len(),
            n == reg0.recs@.len(),
            n == regb.recs@.len(),
            reg0.wf(),
            reg0.handles_distinct(),
            reg0.consistent(phys0),
            reg0.no_fresh(),
            phys0.wf(),
            phys.wf(),
            b0 == phys0.bodies@.len(),
            c0 == phys0.colliders@.len(),
            b0 <= phys.bodies@.len(),
            c0 <= cmid <= phys.colliders@.len(),
            cmid == c0 + count_pending(reg0.recs@, n as int),
            phys.bodies@.len() == b0 + count_pending(reg0.recs@, n as int),
            phys.colliders@.len() == cmid + count_realizable(reg0, phys0, n as int),
            phys.bodies@.len() == physb.bodies@.len(),
            phys.colliders@.len() == physb.colliders@.len(),
            forall|i: int| 0 <= i < b0 ==> phys.bodies@[i] == phys0.bodies@[i],
            forall|j: int| 0 <= j < c0 ==> phys.colliders@[j] == phys0.colliders@[j],
            phys0.same_logs(*phys),
            forall|u: int|
                0 <= u < t ==> spawn_result(
                    reg0.recs@[u],
                    #[trigger] reg.recs@[u],
                    *phys,
                    b0,
                    c0,
                ),
            forall|u: int|
                t <= u < n ==> allocated_result(
                    reg0.recs@[u],
                    #[trigger] reg.recs@[u],
                    *phys,
                    b0,
                    c0,
                ),
            forall|u: int|
                0 <= u < n && wants_spawn(reg0.recs@[u]) ==> ((
                #[trigger] reg.recs@[u]).handle->0.collider->0 as int) < cmid,
            forall|u: int|
                0 <= u < t ==> sensor_result(
                    reg0.recs@[u],
                    #[trigger] reg.recs@[u],
                    *phys,
                    sensor_realizable(reg0, phys0, u),
                    cmid,
                ),
            forall|u: int|
                t <= u < n ==> sensor_allocated(
                    reg0.recs@[u],
                    #[trigger] reg.recs@[u],
                    *phys,
                    sensor_realizable(reg0, phys0, u),
                    cmid,
                ),
            forall|u1: int, u2: int|
                0 <= u1 < u2 < n && wants_spawn(reg0.recs@[u1]) && wants_spawn(reg0.recs@[u2])
                    ==> (#[trigger] reg.recs@[u1]).handle->0.body->0 != (
                #[trigger] reg.recs@[u2]).handle->0.body->0 && reg.recs@[u1].handle->0.collider->0
                    != reg.recs@[u2].handle->0.collider->0,
            forall|u1: int, u2: int|
                0 <= u1 < u2 < n && sensor_realizable(reg0, phys0, u1) && sensor_realizable(
                    reg0,
                    phys0,
                    u2,
                ) ==> ((#[trigger] reg.recs@[u1]).sensor->0).1.handle->0 != ((
            #[trigger] reg.recs@[u2]).sensor->0).1.handle->0,
            forall|u: int|
                0 <= u < n && sensor_realizable(reg0, phys0, u) ==> cmid <= (((
                #[trigger] reg.recs@[u]).sensor->0).1.handle->0).1,
        decreases n - t,
    {
        let rec = self_rec(reg, t);
        let mut nrec = rec;
        let mut changed = false;
        if let Some(h) = rec.handle {
            if h.fresh {
                proof {
                    assert(wants_spawn(reg0.recs@[t as int]));
                }
                if let Some(bh) = h.body {
                    phys.stamp_body_entity(bh, rec.entity);
                }
                if let Some(ch) = h.collider {
                    phys.stamp_collider_entity(ch, rec.entity);
                }
                nrec.handle = Some(PhysicsHandle { fresh: false, ..h });
                changed = true;
            }
        }
        if let Some((pe, s)) = rec.sensor {
            if s.fresh {
                proof {
                    assert(sensor_realizable(reg0, phys0, t as int));
                }
                if let Some((_pb, sc)) = s.handle {
                    phys.stamp_collider_entity(sc, rec.entity);
                }
                nrec.sensor = Some((pe, AttachedSensor { fresh: false, ..s }));
                changed = true;
            }
        }
        if changed {
            reg.recs.set(t, nrec);
        }
        t += 1;
    }
}

/// The synchronization pipeline copies this record's simulated pose back
/// into its transform: it is alive, has a handle, and the handle's body
/// stands in the world.
pub open spec fn sync_applies(r: EntityRec, phys: Physics) -> bool {
    r.alive && r.handle is Some && phys.position_spec(r.handle->0) is Some
}

/// After a step, overwrite every handled entity's transform with the
/// simulated pose. One-way: the engine is authoritative for dynamic poses;
/// entities with no live body keep their transform.
pub fn sync_pass(reg: &mut HandleRegistry, phys: &Physics)
    requires
        old(reg).wf(),
        old(reg).handles_distinct(),
        old(reg).consistent(*phys),
        old(reg).no_fresh(),
    ensures
        final(reg).wf(),
        final(reg).handles_distinct(),
        final(reg).consistent(*phys),
        final(reg).no_fresh(),
        final(reg).recs@.len() == old(reg).recs@.len(),
        forall|t: int|
            0 <= t < old(reg).recs@.len() ==> final(reg).recs@[t] == (if sync_applies(
                #[trigger] old(reg).recs@[t],
                *phys,
            ) {
                EntityRec {
                    transform: Some(phys.position_spec(old(reg).recs@[t].handle->0)->0),
                    ..old(reg).recs@[t]
                }
            } else {
                old(reg).recs@[t]
            }),
{
    let n = reg.recs.len();
    let mut t: usize = 0;
    while t < n
        invariant
            t <= n,
            n == reg.recs@.len(),
            n == old(reg).recs@.len(),
            old(reg).wf(),
            old(reg).handles_distinct(),
            old(reg).consistent(*phys),
            old(reg).no_fresh(),
            forall|u: int|
                0 <= u < t ==> reg.recs@[u] == (if sync_applies(
                    #[trigger] old(reg).recs@[u],
                    *phys,
                ) {
                    EntityRec {
                        transform: Some(phys.position_spec(old(reg).recs@[u].handle->0)->0),
                        ..old(reg).recs@[u]
                    }
                } else {
                    old(reg).recs@[u]
                }),
            forall|u: int| t <= u < n ==> reg.recs@[u] == old(reg).recs@[u],
        decreases n - t,
    {
        let rec = self_rec(reg, t);
        if rec.alive {
            if let Some(h) = rec.handle {
                if let Some(iso) = phys.get_position(&h) {
                    let nrec = EntityRec { transform: Some(iso), ..rec };
                    reg.recs.set(t, nrec);
                }
            }
        }
        t += 1;
    }
    proof {
        assert forall|u: int|
            0 <= u < reg.recs@.len() implies {
            &&& (#[trigger] reg.recs@[u]).entity == old(reg).recs@[u].entity
            &&& reg.recs@[u].desc == old(reg).recs@[u].desc
            &&& reg.recs@[u].sensor == old(reg).recs@[u].sensor
            &&& reg.recs@[u].handle == old(reg).recs@[u].handle
            &&& reg.recs@[u].alive == old(reg).recs@[u].alive
        } by {
            assert(old(reg).recs@[u] == old(reg).recs@[u]);
        }
    }
}

/// A body slot the deletion pipeline frees: it is live but its stamped
/// owning entity no longer exists in the host world.
pub open spec fn body_doomed(phys: Physics, reg: HandleRegistry, i: int) -> bool {
    phys.live_body(i) && phys.body_at(i).entity is Some && !reg.alive_spec(
        phys.body_at(i).entity->0,
    )
}

/// A collider slot the deletion pipeline frees.
pub open spec fn collider_doomed(phys: Physics, reg: HandleRegistry, j: int) -> bool {
    phys.live_coll(j) && phys.coll_at(j).entity is Some && !reg.alive_spec(
        phys.coll_at(j).entity->0,
    )
}

/// Free every body and collider whose owning entity has died, in one pass.
/// No handle outlives its entity by more than one pass, and a freed slot
/// answers every later query with nothing — never with stale data.
pub fn deletion_pass(phys: &mut Physics, reg: &HandleRegistry)
    requires
        old(phys).wf(),
    ensures
        final(phys).wf(),
        final(phys).bodies@.len() == old(phys).bodies@.len(),
        final(phys).colliders@.len() == old(phys).colliders@.len(),
        forall|i: int|
            0 <= i < old(phys).bodies@.len() ==> final(phys).bodies@[i] == (if body_doomed(
                *old(phys),
                *reg,
                i,
            ) {
                None
            } else {
                #[trigger] old(phys).bodies@[i]
            }),
        forall|j: int|
            0 <= j < old(phys).colliders@.len() ==> final(phys).colliders@[j] == (
            if collider_doomed(*old(phys), *reg, j) {
                None
            } else {
                #[trigger] old(phys).colliders@[j]
            }),
        old(phys).same_logs(*final(phys)),
        forall|h: PhysicsHandle|
            h.body is Some && body_doomed(*old(phys), *reg, h.body->0 as int) ==> (
            #[trigger] final(phys).position_spec(h)) is None,
{
    let nb = phys.bodies.len();
    let mut i: usize = 0;
    while i < nb
        invariant
            i <= nb,
            nb == phys.bodies@.len(),
            nb == old(phys).bodies@.len(),
            old(phys).wf(),
            phys.wf(),
            phys.colliders@ == old(phys).colliders@,
            old(phys).same_logs(*phys),
            forall|k: int|
                0 <= k < i ==> phys.bodies@[k] == (if body_doomed(*old(phys), *reg, k) {
                    None
                } else {
                    #[trigger] old(phys).bodies@[k]
                }),
            forall|k: int| i <= k < nb ==> phys.bodies@[k] == old(phys).bodies@[k],
        decreases nb - i,
    {
        let mut doomed = false;
        if let Some(body) = &phys.bodies[i] {
            if let Some(e) = body.entity {
                if !reg.is_alive(e) {
                    doomed = true;
                }
            }
        }
        if doomed {
            phys.bodies.set(i, None);
        }
        i += 1;
    }
    let nc = phys.colliders.len();
    let mut j: usize = 0;
    while j < nc
        invariant
            j <= nc,
            nc == phys.colliders@.len(),
            nc == old(phys).colliders@.len(),
            nb == phys.bodies@.len(),
            old(phys).wf(),
            phys.wf(),
            old(phys).same_logs(*phys),
            forall|k: int|
                0 <= k < nb ==> phys.bodies@[k] == (if body_doomed(*old(phys), *reg, k) {
                    None
                } else {
                    #[trigger] old(phys).bodies@[k]
                }),
            forall|k: int|
                0 <= k < j ==> phys.colliders@[k] == (if collider_doomed(*old(phys), *reg, k) {
                    None
                } else {
                    #[trigger] old(phys).colliders@[k]
                }),
            forall|k: int| j <= k < nc ==> phys.colliders@[k] == old(phys).colliders@[k],
        decreases nc - j,
    {
        let mut doomed = false;
        if let Some(coll) = &phys.colliders[j] {
            if let Some(e) = coll.entity {
                if !reg.is_alive(e) {
                    doomed = true;
                }
            }
        }
        if doomed {
            phys.colliders.set(j, None);
        }
        j += 1;
    }
}

/// Two registries equal in entities and liveness find the same records.
proof fn lemma_find_same(a: HandleRegistry, b: HandleRegistry, e: Entity)
    requires
        a.recs@.len() == b.recs@.len(),
        forall|t: int|
            0 <= t < a.recs@.len() ==> (#[trigger] b.recs@[t]).entity == a.recs@[t].entity && (
            #[trigger] b.recs@[t]).alive == a.recs@[t].alive,
    ensures
        forall|m: int|
            0 <= m <= a.recs@.len() ==> #[trigger] b.find_spec(e, m) == a.find_spec(e, m),
{
    assert forall|m: int|
        0 <= m <= a.recs@.len() implies #[trigger] b.find_spec(e, m) == a.find_spec(e, m) by {
        lemma_find_same_upto(a, b, e, m);
    }
}

proof fn lemma_find_same_upto(a: HandleRegistry, b: HandleRegistry, e: Entity, m: int)
    requires
        m <= a.recs@.len(),
        a.recs@.len() == b.recs@.len(),
        forall|t: int|
            0 <= t < a.recs@.len() ==> (#[trigger] b.recs@[t]).entity == a.recs@[t].entity && (
            #[trigger] b.recs@[t]).alive == a.recs@[t].alive,
    ensures
        b.find_spec(e, m) == a.find_spec(e, m),
    decreases m,
{
    if m > 0 {
        lemma_find_same_upto(a, b, e, m - 1);
    }
}

/// What pass one alone leaves of a record: as `spawn_result`, but the handle
/// is still fresh and the engine objects are not yet stamped.
pub open spec fn allocated_result(o: EntityRec, n: EntityRec, phys: Physics, b0: int, c0: int) -> bool {
    &&& n.entity == o.entity
    &&& n.alive == o.alive
    &&& n.desc == o.desc
    &&& if wants_spawn(o) {
        &&& n.handle is Some
        &&& n.handle->0.fresh
        &&& n.handle->0.body is Some
        &&& n.handle->0.collider is Some
        &&& {
            let bi = n.handle->0.body->0 as int;
            let ci = n.handle->0.collider->0 as int;
            &&& b0 <= bi < phys.bodies@.len()
            &&& c0 <= ci < phys.colliders@.len()
            &&& phys.bodies@[bi] == Some(
                Body {
                    status: o.desc->0.body.status,
                    mass: o.desc->0.body.mass,
                    damping: o.desc->0.body.damping,
                    pos: initial_pos(o),
                    rot: 0,
                    vel: Vec2::zero_spec(),
                    ang_vel: 0,
                    accel_accum: Vec2::zero_spec(),
                    force_accum: Vec2::zero_spec(),
                    primary: n.handle->0.collider->0,
                    entity: None,
                },
            )
            &&& phys.colliders@[ci] == Some(
                Collider {
                    shape: o.desc->0.collider.shape,
                    sensor: o.desc->0.collider.sensor,
                    parent: n.handle->0.body->0,
                    offset: Vec2::zero_spec(),
                    entity: None,
                    last_pos: None,
                },
            )
        }
        &&& n.transform == (if o.transform is Some {
            o.transform
        } else {
            Some(Iso2 { pos: Vec2::zero_spec(), rot: 0 })
        })
    } else {
        &&& n.handle == o.handle
        &&& n.transform == o.transform
    }
}

/// Read one record by index, by value.
fn self_rec(reg: &HandleRegistry, t: usize) -> (r: EntityRec)
    requires
        (t as int) < reg.recs@.len(),
    ensures
        r == reg.recs@[t as int],
{
    reg.recs[t]
}

} // verus!
