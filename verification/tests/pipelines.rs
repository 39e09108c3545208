//! The per-tick pipelines: spawning (with attached sensors and
//! back-reference stamping), pose synchronization, deletion, and event
//! delivery through per-consumer cursors.

use physics_bridge::bridge::EventBridge;
use physics_bridge::math::Vec2;
use physics_bridge::registry::{deletion_pass, spawning_pass, sync_pass, HandleRegistry};
use physics_bridge::types::{
    AttachedSensor, BodyDesc, BodyStatus, ColliderDesc, Entity, Iso2, PhysicsDesc, Shape,
};
use physics_bridge::world::Physics;

fn ball_desc(mass: i64, radius: i64) -> PhysicsDesc {
    PhysicsDesc::new(
        BodyDesc::new(BodyStatus::Dynamic, mass, 0),
        ColliderDesc::new(Shape::Circle { radius }, false),
    )
}

#[test]
fn spawning_pass_realizes_initial_transform() {
    // One pass makes get_position return the entity's initial transform.
    let mut reg = HandleRegistry::new();
    let mut phys = Physics::new();
    let e = Entity::new(1);
    assert!(reg.add_entity(
        e,
        Some(Iso2 { pos: Vec2 { x: 100, y: 200 }, rot: 0 }),
        Some(ball_desc(20, 8)),
    ));
    spawning_pass(&mut reg, &mut phys);
    let h = reg.recs[0].handle.unwrap();
    assert!(!h.fresh);
    let iso = phys.get_position(&h).unwrap();
    assert_eq!(iso.pos, Vec2 { x: 100, y: 200 });
    assert_eq!(iso.rot, 0);
    // The back-references are stamped both ways.
    assert_eq!(phys.get_body_entity(h.body.unwrap()), Some(e));
    assert_eq!(phys.get_collider_entity(h.collider.unwrap()), Some(e));
}

#[test]
fn spawning_pass_defaults_missing_transform() {
    let mut reg = HandleRegistry::new();
    let mut phys = Physics::new();
    assert!(reg.add_entity(Entity::new(1), None, Some(ball_desc(20, 8))));
    spawning_pass(&mut reg, &mut phys);
    let h = reg.recs[0].handle.unwrap();
    assert_eq!(
        phys.get_position(&h).unwrap(),
        Iso2 { pos: Vec2 { x: 0, y: 0 }, rot: 0 }
    );
    assert_eq!(
        reg.recs[0].transform,
        Some(Iso2 { pos: Vec2 { x: 0, y: 0 }, rot: 0 })
    );
}

#[test]
fn spawning_pass_consumes_descriptor_once() {
    let mut reg = HandleRegistry::new();
    let mut phys = Physics::new();
    assert!(reg.add_entity(Entity::new(1), None, Some(ball_desc(20, 8))));
    spawning_pass(&mut reg, &mut phys);
    let first = reg.recs[0].handle.unwrap();
    spawning_pass(&mut reg, &mut phys);
    let second = reg.recs[0].handle.unwrap();
    // The existing handle blocks a second realization.
    assert_eq!(first.body, second.body);
    assert_eq!(first.collider, second.collider);
    assert_eq!(phys.bodies.len(), 1);
    assert_eq!(phys.colliders.len(), 1);
}

#[test]
fn attached_sensor_realized_and_stamped() {
    let mut reg = HandleRegistry::new();
    let mut phys = Physics::new();
    let parent = Entity::new(1);
    let child = Entity::new(2);
    assert!(reg.add_entity(parent, None, Some(ball_desc(20, 8))));
    assert!(reg.add_entity(child, None, None));
    let sensor = AttachedSensor::new(ColliderDesc::new(Shape::Circle { radius: 12 }, true));
    let mut rec = reg.recs[1];
    rec.sensor = Some((parent, sensor));
    reg.recs[1] = rec;
    spawning_pass(&mut reg, &mut phys);
    let (pb, sc) = reg.recs[1].sensor.unwrap().1.handle.unwrap();
    assert_eq!(Some(pb), reg.recs[0].handle.unwrap().body);
    assert!(!reg.recs[1].sensor.unwrap().1.fresh);
    // The sensor collider carries the owning entity's back-reference.
    assert_eq!(phys.get_collider_entity(sc), Some(child));
    // get_handle exposes the sensor as a non-fresh handle pair.
    let sh = reg.recs[1].sensor.unwrap().1.get_handle();
    assert_eq!(sh.body, Some(pb));
    assert_eq!(sh.collider, Some(sc));
    // The sensor can be repositioned relative to its parent.
    let s = reg.recs[1].sensor.unwrap().1;
    phys.set_sensor_position(&s, 30, 0);
    let between = phys.get_between(&reg.recs[0].handle.unwrap(), &sh).unwrap();
    assert_eq!(between, Vec2 { x: 30, y: 0 });
}

#[test]
fn sync_pass_copies_pose_back() {
    let mut reg = HandleRegistry::new();
    let mut phys = Physics::new();
    assert!(reg.add_entity(
        Entity::new(1),
        Some(Iso2 { pos: Vec2 { x: 10, y: 0 }, rot: 0 }),
        Some(ball_desc(20, 8)),
    ));
    spawning_pass(&mut reg, &mut phys);
    let h = reg.recs[0].handle.unwrap();
    phys.set_velocity(&h, Vec2 { x: 5, y: 7 });
    phys.step();
    sync_pass(&mut reg, &phys);
    assert_eq!(
        reg.recs[0].transform,
        Some(Iso2 { pos: Vec2 { x: 15, y: 7 }, rot: 0 })
    );
}

#[test]
fn deletion_pass_frees_dead_entities_handles() {
    // Deleting an entity removes its handles within exactly one pass;
    // queries on the handle then return nothing, never stale data.
    let mut reg = HandleRegistry::new();
    let mut phys = Physics::new();
    let doomed = Entity::new(1);
    let kept = Entity::new(2);
    assert!(reg.add_entity(doomed, None, Some(ball_desc(20, 8))));
    assert!(reg.add_entity(
        kept,
        Some(Iso2 { pos: Vec2 { x: 300, y: 0 }, rot: 0 }),
        Some(ball_desc(10, 6)),
    ));
    spawning_pass(&mut reg, &mut phys);
    let hd = reg.recs[0].handle.unwrap();
    let hk = reg.recs[1].handle.unwrap();
    reg.kill(doomed);
    deletion_pass(&mut phys, &reg);
    assert!(phys.get_position(&hd).is_none());
    assert!(phys.get_velocity(&hd).is_none());
    assert!(phys.get_body_entity(hd.body.unwrap()).is_none());
    assert!(phys.get_collider_entity(hd.collider.unwrap()).is_none());
    // The survivor is untouched.
    assert_eq!(
        phys.get_position(&hk).unwrap(),
        Iso2 { pos: Vec2 { x: 300, y: 0 }, rot: 0 }
    );
    assert_eq!(phys.get_body_entity(hk.body.unwrap()), Some(kept));
}

#[test]
fn bridge_delivers_each_event_exactly_once_per_consumer() {
    let mut phys = Physics::new();
    let body = BodyDesc::new(BodyStatus::Dynamic, 20, 0);
    let coll = ColliderDesc::new(Shape::Circle { radius: 8 }, false);
    let (b1, c1) = phys.spawn(&body, &coll);
    let (_b2, _c2) = phys.spawn(&body, &coll);
    let h1 = physics_bridge::types::PhysicsHandle::new(b1, c1);
    phys.set_location(&h1, 4, 0);
    let mut bridge = EventBridge::new();
    let alpha = bridge.register_consumer(&phys);
    let beta = bridge.register_consumer(&phys);
    phys.step();
    // Both consumers see the complete tick, independently.
    let seen_alpha = bridge.read_contacts(&phys, alpha);
    let seen_beta = bridge.read_contacts(&phys, beta);
    assert_eq!(seen_alpha.len(), 1);
    assert_eq!(seen_alpha, seen_beta);
    // A second read hands the same consumer nothing new.
    assert_eq!(bridge.read_contacts(&phys, alpha).len(), 0);
    // A consumer registered later sees only what comes after.
    let gamma = bridge.register_consumer(&phys);
    assert_eq!(bridge.read_contacts(&phys, gamma).len(), 0);
    assert_eq!(bridge.read_proximities(&phys, alpha).len(), 0);
}
