//! The data model shared by the simulation and the pipelines: entities,
//! shapes, body and collider templates, handles, and the event types.

use vstd::prelude::*;

use crate::math::{Vec2, COORD_LIMIT, SHAPE_LIMIT, VEL_LIMIT};

verus! {

/// Upper bound on a body's mass.
pub const MASS_LIMIT: i64 = 1_000_000_000;

/// Upper bound on a body's linear damping coefficient (thousandths).
pub const DAMP_LIMIT: i64 = 1_000_000;

/// Upper bound on a body's rotation value (angle units).
pub const ANGLE_LIMIT: i64 = 1_000_000_000;

/// Upper bound on an accumulated velocity-change component.
pub const ACCEL_LIMIT: i64 = 1_000_000_000;

/// Upper bound on an accumulated force component.
pub const FORCE_LIMIT: i64 = 1_000_000_000_000_000;

/// An identifier of an entity of the host world. The layer holds these as
/// weak references: it looks entities up and never owns them.
#[derive(Clone, Copy, Debug, PartialEq, Eq, Structural, Hash)]
pub struct Entity {
    pub id: u64,
}

impl Entity {
    pub fn new(id: u64) -> (r: Entity)
        ensures
            r.id == id,
    {
        Entity { id }
    }
}

/// A collider's footprint, axis-aligned.
#[derive(Clone, Copy, Debug, PartialEq, Eq, Structural)]
pub enum Shape {
    Circle { radius: i64 },
    Rect { hw: i64, hh: i64 },
}

impl Shape {
    /// Extents are positive and bounded.
    pub open spec fn wf(self) -> bool {
        match self {
            Shape::Circle { radius } => 0 < radius <= SHAPE_LIMIT,
            Shape::Rect { hw, hh } => 0 < hw <= SHAPE_LIMIT && 0 < hh <= SHAPE_LIMIT,
        }
    }
}

/// Whether a body is simulated or fixed in place.
#[derive(Clone, Copy, Debug, PartialEq, Eq, Structural)]
pub enum BodyStatus {
    Dynamic,
    Static,
}

/// A template for a rigid body, part of a pending spawn.
#[derive(Clone, Copy, Debug)]
pub struct BodyDesc {
    pub status: BodyStatus,
    pub mass: i64,
    pub damping: i64,
}

impl BodyDesc {
    pub open spec fn wf(self) -> bool {
        1 <= self.mass <= MASS_LIMIT && 0 <= self.damping <= DAMP_LIMIT
    }

    pub fn new(status: BodyStatus, mass: i64, damping: i64) -> (r: BodyDesc)
        ensures
            r == (BodyDesc { status, mass, damping }),
    {
        BodyDesc { status, mass, damping }
    }
}

/// A template for a collider, part of a pending spawn. A sensor detects
/// overlap without taking part in contact response.
#[derive(Clone, Copy, Debug)]
pub struct ColliderDesc {
    pub shape: Shape,
    pub sensor: bool,
}

impl ColliderDesc {
    pub open spec fn wf(self) -> bool {
        self.shape.wf()
    }

    pub fn new(shape: Shape, sensor: bool) -> (r: ColliderDesc)
        ensures
            r == (ColliderDesc { shape, sensor }),
    {
        ColliderDesc { shape, sensor }
    }
}

/// A pending-spawn template bound to an entity; realized exactly once by the
/// spawning pipeline.
#[derive(Clone, Copy, Debug)]
pub struct PhysicsDesc {
    pub body: BodyDesc,
    pub collider: ColliderDesc,
}

impl PhysicsDesc {
    pub open spec fn wf(self) -> bool {
        self.body.wf() && self.collider.wf()
    }

    pub fn new(body: BodyDesc, collider: ColliderDesc) -> (r: PhysicsDesc)
        ensures
            r == (PhysicsDesc { body, collider }),
    {
        PhysicsDesc { body, collider }
    }
}

/// A pose: a position together with a rotation angle.
#[derive(Clone, Copy, Debug, PartialEq, Eq, Structural)]
pub struct Iso2 {
    pub pos: Vec2,
    pub rot: i64,
}

/// The per-entity record of the handles the simulation gave it. `fresh` is
/// true from allocation until the stamping pass writes the back-reference.
#[derive(Clone, Copy, Debug)]
pub struct PhysicsHandle {
    pub body: Option<usize>,
    pub collider: Option<usize>,
    pub fresh: bool,
}

impl PhysicsHandle {
    pub fn new(b: usize, c: usize) -> (r: PhysicsHandle)
        ensures
            r == (PhysicsHandle { body: Some(b), collider: Some(c), fresh: true }),
    {
        PhysicsHandle { body: Some(b), collider: Some(c), fresh: true }
    }
}

/// A secondary, non-solid collider declared against a parent entity; realized
/// lazily once the parent has a handle.
#[derive(Clone, Copy, Debug)]
pub struct AttachedSensor {
    pub collider: ColliderDesc,
    pub handle: Option<(usize, usize)>,
    pub fresh: bool,
}

impl AttachedSensor {
    pub fn new(collider: ColliderDesc) -> (r: AttachedSensor)
        ensures
            r == (AttachedSensor { collider, handle: None, fresh: false }),
    {
        AttachedSensor { collider, handle: None, fresh: false }
    }

    pub fn set_handle(&mut self, handle: (usize, usize)) -> (r: ())
        ensures
            *final(self) == (AttachedSensor {
                handle: Some(handle),
                fresh: true,
                ..*old(self)
            }),
    {
        self.handle = Some(handle);
        self.fresh = true;
    }

    pub fn get_handle(&self) -> (r: PhysicsHandle)
        ensures
            match self.handle {
                Some(h) => r == (PhysicsHandle {
                    body: Some(h.0),
                    collider: Some(h.1),
                    fresh: false,
                }),
                None => r == (PhysicsHandle { body: None, collider: None, fresh: true }),
            },
    {
        if let Some(handle) = self.handle {
            PhysicsHandle { body: Some(handle.0), collider: Some(handle.1), fresh: false }
        } else {
            PhysicsHandle { body: None, collider: None, fresh: true }
        }
    }
}

/// How near two colliders stand.
#[derive(Clone, Copy, Debug, PartialEq, Eq, Structural)]
pub enum Proximity {
    Disjoint,
    WithinMargin,
    Intersecting,
}

/// Whether a contact began or ended.
#[derive(Clone, Copy, Debug, PartialEq, Eq, Structural)]
pub enum ContactKind {
    Started,
    Stopped,
}

/// An edge-triggered contact transition between two solid colliders.
#[derive(Clone, Copy, Debug, PartialEq, Eq, Structural)]
pub struct PhysicsContactEvent {
    pub a: usize,
    pub b: usize,
    pub kind: ContactKind,
}

/// An edge-triggered proximity transition of a pair involving a sensor.
#[derive(Clone, Copy, Debug, PartialEq, Eq, Structural)]
pub struct PhysicsProximityEvent {
    pub a: usize,
    pub b: usize,
    pub previous: Proximity,
    pub new_status: Proximity,
}

/// A simulated rigid body. Forces and velocity changes applied between steps
/// accumulate here and take effect at the next step.
#[derive(Clone, Copy, Debug)]
pub struct Body {
    pub status: BodyStatus,
    pub mass: i64,
    pub damping: i64,
    pub pos: Vec2,
    pub rot: i64,
    pub vel: Vec2,
    pub ang_vel: i64,
    pub accel_accum: Vec2,
    pub force_accum: Vec2,
    pub primary: usize,
    pub entity: Option<Entity>,
}

impl Body {
    pub open spec fn wf(self) -> bool {
        &&& 1 <= self.mass <= MASS_LIMIT
        &&& 0 <= self.damping <= DAMP_LIMIT
        &&& self.pos.bounded(COORD_LIMIT as int)
        &&& -ANGLE_LIMIT <= self.rot <= ANGLE_LIMIT
        &&& self.vel.bounded(VEL_LIMIT as int)
        &&& -VEL_LIMIT <= self.ang_vel <= VEL_LIMIT
        &&& self.accel_accum.bounded(ACCEL_LIMIT as int)
        &&& self.force_accum.bounded(FORCE_LIMIT as int)
    }
}

/// A collider: a shape bound to a body at an offset. `last_pos` remembers the
/// collider's world position as of the end of the last step; the next step
/// compares against it to detect threshold crossings.
#[derive(Clone, Copy, Debug)]
pub struct Collider {
    pub shape: Shape,
    pub sensor: bool,
    pub parent: usize,
    pub offset: Vec2,
    pub entity: Option<Entity>,
    pub last_pos: Option<Vec2>,
}

impl Collider {
    pub open spec fn wf(self) -> bool {
        &&& self.shape.wf()
        &&& self.offset.bounded(COORD_LIMIT as int)
        &&& match self.last_pos {
            Some(p) => p.bounded(2 * COORD_LIMIT as int),
            None => true,
        }
    }
}

} // verus!
