//! A 2D physics integration layer: it binds entities of a host world to
//! rigid-body and collider objects of a fixed-point simulation, manages their
//! lifecycle (deferred spawning, pose synchronization, safe deletion), steps
//! the simulation one tick at a time, and turns contact and proximity
//! transitions into entity-level events that independent consumers each see
//! exactly once.

pub mod asteroid;
pub mod boundary;
pub mod bridge;
pub mod effects;
pub mod entropy;
pub mod geometry;
pub mod math;
pub mod raycast;
pub mod registry;
pub mod step;
pub mod tractor;
pub mod types;
pub mod world;
