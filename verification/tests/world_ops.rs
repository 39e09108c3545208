//! The simulation core, exercised end to end: spawning, pose and velocity
//! operations, stepping, event edges, queries and rays.

use physics_bridge::math::Vec2;
use physics_bridge::raycast::RAY_RANGE;
use physics_bridge::types::{
    BodyDesc, BodyStatus, ColliderDesc, ContactKind, Entity, PhysicsHandle, Proximity, Shape,
};
use physics_bridge::world::Physics;

fn dynamic_ball(mass: i64, radius: i64) -> (BodyDesc, ColliderDesc) {
    (
        BodyDesc::new(BodyStatus::Dynamic, mass, 0),
        ColliderDesc::new(Shape::Circle { radius }, false),
    )
}

fn spawn_ball(phys: &mut Physics, mass: i64, radius: i64, x: i64, y: i64) -> PhysicsHandle {
    let (b, c) = dynamic_ball(mass, radius);
    let (bh, ch) = phys.spawn(&b, &c);
    let h = PhysicsHandle::new(bh, ch);
    phys.set_location(&h, x, y);
    h
}

#[test]
fn spawn_and_positions_round_trip() {
    let mut phys = Physics::new();
    let h = spawn_ball(&mut phys, 20, 8, 100, 200);
    let iso = phys.get_position(&h).unwrap();
    assert_eq!(iso.pos, Vec2 { x: 100, y: 200 });
    assert_eq!(iso.rot, 0);
    let loc = phys.get_location(&h).unwrap();
    assert_eq!(loc, Vec2 { x: 100, y: 200 });
}

#[test]
fn set_location_then_step_keeps_position() {
    // A relocated body with zero accumulated force and zero world gravity
    // stays put across a step.
    let mut phys = Physics::new();
    let h = spawn_ball(&mut phys, 20, 8, 0, 0);
    phys.set_location(&h, 100, 200);
    phys.step();
    let iso = phys.get_position(&h).unwrap();
    assert_eq!(iso.pos, Vec2 { x: 100, y: 200 });
}

#[test]
fn velocity_moves_body_one_step() {
    let mut phys = Physics::new();
    let h = spawn_ball(&mut phys, 20, 8, 0, 0);
    phys.set_velocity(&h, Vec2 { x: 3, y: -4 });
    phys.step();
    assert_eq!(phys.get_location(&h).unwrap(), Vec2 { x: 3, y: -4 });
}

#[test]
fn damping_halves_velocity() {
    let mut phys = Physics::new();
    let h = spawn_ball(&mut phys, 20, 8, 0, 0);
    phys.set_velocity(&h, Vec2 { x: 1000, y: 0 });
    phys.set_damping(&h, 1000);
    phys.step();
    let v = phys.get_velocity(&h).unwrap();
    assert_eq!(v, Vec2 { x: 500, y: 0 });
}

#[test]
fn force_divided_by_mass() {
    let mut phys = Physics::new();
    let h = spawn_ball(&mut phys, 20, 8, 0, 0);
    phys.apply_force(&h, Vec2 { x: 200, y: 0 });
    phys.step();
    assert_eq!(phys.get_velocity(&h).unwrap(), Vec2 { x: 10, y: 0 });
}

#[test]
fn impulse_on_missing_body_is_noop() {
    // An impulse through a handle with no live body leaves the simulation
    // state unchanged.
    let mut phys = Physics::new();
    let h = spawn_ball(&mut phys, 20, 8, 7, 9);
    let ghostly = PhysicsHandle {
        body: Some(55),
        collider: Some(55),
        fresh: false,
    };
    phys.apply_impulse(&ghostly, Vec2 { x: 999, y: 999 });
    phys.step();
    assert_eq!(phys.get_location(&h).unwrap(), Vec2 { x: 7, y: 9 });
    assert_eq!(phys.get_velocity(&h).unwrap(), Vec2 { x: 0, y: 0 });
    assert!(phys.get_position(&ghostly).is_none());
}

#[test]
fn overlapping_solids_start_exactly_one_contact() {
    // Two dynamic bodies spawned overlapping: one step, one Started event.
    let mut phys = Physics::new();
    let ha = spawn_ball(&mut phys, 20, 8, 0, 0);
    let hb = spawn_ball(&mut phys, 20, 8, 10, 0);
    assert_eq!(phys.contacts.len(), 0);
    phys.step();
    assert_eq!(phys.contacts.len(), 1);
    let ev = phys.contacts[0];
    assert_eq!(ev.a, ha.collider.unwrap());
    assert_eq!(ev.b, hb.collider.unwrap());
    assert!(matches!(ev.kind, ContactKind::Started));
}

#[test]
fn contact_stops_when_bodies_separate() {
    let mut phys = Physics::new();
    let ha = spawn_ball(&mut phys, 20, 8, 0, 0);
    let _hb = spawn_ball(&mut phys, 20, 8, 10, 0);
    phys.step();
    assert_eq!(phys.contacts.len(), 1);
    phys.set_location(&ha, 500, 500);
    phys.step();
    assert_eq!(phys.contacts.len(), 2);
    assert!(matches!(phys.contacts[1].kind, ContactKind::Stopped));
}

#[test]
fn sensor_overlap_fires_proximity_and_exerts_no_force() {
    // A sensor overlapping a dynamic body produces proximity transitions but
    // no separating force on the body.
    let mut phys = Physics::new();
    let hb = spawn_ball(&mut phys, 20, 8, 0, 0);
    let zone_body = BodyDesc::new(BodyStatus::Static, 1, 0);
    let zone_coll = ColliderDesc::new(Shape::Rect { hw: 30, hh: 30 }, true);
    let (zb, zc) = phys.spawn(&zone_body, &zone_coll);
    let hz = PhysicsHandle::new(zb, zc);
    phys.step();
    assert_eq!(phys.proximities.len(), 1);
    let ev = phys.proximities[0];
    assert_eq!(ev.a, hb.collider.unwrap());
    assert_eq!(ev.b, hz.collider.unwrap());
    assert!(matches!(ev.previous, Proximity::Disjoint));
    assert!(matches!(ev.new_status, Proximity::Intersecting));
    assert_eq!(phys.contacts.len(), 0);
    // Overlap is symmetric across shape kinds.
    assert!(phys.is_intersecting(&hb, &hz));
    assert!(phys.is_intersecting(&hz, &hb));
    // No separating force: the body has not moved and carries no velocity.
    assert_eq!(phys.get_velocity(&hb).unwrap(), Vec2 { x: 0, y: 0 });
    assert_eq!(phys.get_location(&hb).unwrap(), Vec2 { x: 0, y: 0 });
    // The state persists: no second event while the overlap holds.
    phys.step();
    assert_eq!(phys.proximities.len(), 1);
}

#[test]
fn overlapping_solids_push_apart() {
    let mut phys = Physics::new();
    let ha = spawn_ball(&mut phys, 20, 8, 0, 0);
    let hb = spawn_ball(&mut phys, 20, 8, 10, 0);
    phys.step();
    // The left body is nudged further left, the right one further right.
    let va = phys.get_velocity(&ha).unwrap();
    let vb = phys.get_velocity(&hb).unwrap();
    assert!(va.x < 0);
    assert!(vb.x > 0);
}

#[test]
fn is_intersecting_symmetric() {
    let mut phys = Physics::new();
    let ha = spawn_ball(&mut phys, 20, 8, 0, 0);
    let hb = spawn_ball(&mut phys, 20, 8, 10, 0);
    let hc = spawn_ball(&mut phys, 20, 8, 400, 400);
    assert!(phys.is_intersecting(&ha, &hb));
    assert!(phys.is_intersecting(&hb, &ha));
    assert!(!phys.is_intersecting(&ha, &hc));
    assert!(!phys.is_intersecting(&hc, &ha));
}

#[test]
fn get_intersections_reports_stamped_entities() {
    let mut phys = Physics::new();
    let ha = spawn_ball(&mut phys, 20, 8, 0, 0);
    let hb = spawn_ball(&mut phys, 20, 8, 10, 0);
    let _far = spawn_ball(&mut phys, 20, 8, 500, 500);
    phys.stamp_collider_entity(hb.collider.unwrap(), Entity::new(42));
    let found = phys.get_intersections(&ha);
    assert_eq!(found.len(), 1);
    assert_eq!(found[0], Entity::new(42));
}

#[test]
fn get_between_reports_offset() {
    let mut phys = Physics::new();
    let ha = spawn_ball(&mut phys, 20, 8, 10, 20);
    let hb = spawn_ball(&mut phys, 20, 8, 40, 60);
    let between = phys.get_between(&ha, &hb).unwrap();
    assert_eq!(between, Vec2 { x: 30, y: 40 });
}

#[test]
fn ray_cast_orders_hits_by_time_of_impact() {
    // Three colliders along +x from the origin come back in ascending
    // time-of-impact order.
    let mut phys = Physics::new();
    let caster = spawn_ball(&mut phys, 20, 2, 0, 0);
    let t1 = spawn_ball(&mut phys, 20, 8, 150, 0);
    let t2 = spawn_ball(&mut phys, 20, 8, 50, 0);
    let t3 = spawn_ball(&mut phys, 20, 8, 100, 0);
    phys.stamp_collider_entity(t1.collider.unwrap(), Entity::new(1));
    phys.stamp_collider_entity(t2.collider.unwrap(), Entity::new(2));
    phys.stamp_collider_entity(t3.collider.unwrap(), Entity::new(3));
    let hits = phys.ray_cast(&caster, Vec2 { x: 1000, y: 0 });
    assert_eq!(hits.len(), 3);
    assert_eq!(hits[0].entity, Entity::new(2));
    assert_eq!(hits[1].entity, Entity::new(3));
    assert_eq!(hits[2].entity, Entity::new(1));
    assert!(hits[0].toi <= hits[1].toi && hits[1].toi <= hits[2].toi);
}

#[test]
fn ray_cast_is_range_bounded() {
    let mut phys = Physics::new();
    let caster = spawn_ball(&mut phys, 20, 2, 0, 0);
    let near = spawn_ball(&mut phys, 20, 8, RAY_RANGE - 10, 0);
    let far = spawn_ball(&mut phys, 20, 8, 2 * RAY_RANGE, 0);
    phys.stamp_collider_entity(near.collider.unwrap(), Entity::new(1));
    phys.stamp_collider_entity(far.collider.unwrap(), Entity::new(2));
    let hits = phys.ray_cast(&caster, Vec2 { x: 1, y: 0 });
    assert_eq!(hits.len(), 1);
    assert_eq!(hits[0].entity, Entity::new(1));
}

#[test]
fn rotation_and_angular_velocity_integrate() {
    let mut phys = Physics::new();
    let h = spawn_ball(&mut phys, 20, 8, 0, 0);
    phys.set_rotation(&h, 90);
    phys.set_angular_velocity(&h, 5);
    phys.step();
    assert_eq!(phys.get_position(&h).unwrap().rot, 95);
}

#[test]
fn dampening_brakes_velocity() {
    let mut phys = Physics::new();
    let h = spawn_ball(&mut phys, 20, 8, 0, 0);
    phys.set_velocity(&h, Vec2 { x: 100, y: 0 });
    phys.apply_dampening(&h, 1);
    phys.step();
    // The queued change is -100 * 1 / 2 = -50.
    assert_eq!(phys.get_velocity(&h).unwrap(), Vec2 { x: 50, y: 0 });
}

#[test]
fn static_bodies_ignore_forces() {
    let mut phys = Physics::new();
    let body = BodyDesc::new(BodyStatus::Static, 100, 0);
    let coll = ColliderDesc::new(Shape::Circle { radius: 8 }, false);
    let (bh, ch) = phys.spawn(&body, &coll);
    let h = PhysicsHandle::new(bh, ch);
    phys.set_location(&h, 5, 5);
    phys.apply_force(&h, Vec2 { x: 100000, y: 0 });
    phys.step();
    assert_eq!(phys.get_location(&h).unwrap(), Vec2 { x: 5, y: 5 });
    assert_eq!(phys.get_velocity(&h).unwrap(), Vec2 { x: 0, y: 0 });
}

#[test]
fn proximity_fires_once_per_crossing() {
    // Enter, persist, leave, re-enter: one event per crossing, none while
    // the state persists.
    let mut phys = Physics::new();
    let hb = spawn_ball(&mut phys, 20, 8, 0, 0);
    let zone_body = BodyDesc::new(BodyStatus::Static, 1, 0);
    let zone_coll = ColliderDesc::new(Shape::Rect { hw: 30, hh: 30 }, true);
    let (zb, zc) = phys.spawn(&zone_body, &zone_coll);
    let _hz = PhysicsHandle::new(zb, zc);
    phys.step();
    assert_eq!(phys.proximities.len(), 1);
    phys.step();
    phys.step();
    assert_eq!(phys.proximities.len(), 1);
    phys.set_location(&hb, 500, 500);
    phys.step();
    assert_eq!(phys.proximities.len(), 2);
    assert!(matches!(phys.proximities[1].new_status, Proximity::Disjoint));
    phys.set_location(&hb, 0, 0);
    phys.step();
    assert_eq!(phys.proximities.len(), 3);
    assert!(matches!(phys.proximities[2].new_status, Proximity::Intersecting));
}

#[test]
fn set_location_clamps_into_world_bounds() {
    let mut phys = Physics::new();
    let h = spawn_ball(&mut phys, 20, 8, 0, 0);
    phys.set_location(&h, 2_000_000, -2_000_000);
    assert_eq!(
        phys.get_location(&h).unwrap(),
        Vec2 { x: 1_000_000, y: -1_000_000 }
    );
}

#[test]
fn ray_cast_hits_rectangles_too() {
    // A ray along +x meets a ball and then a rectangular zone, in order.
    let mut phys = Physics::new();
    let caster = spawn_ball(&mut phys, 20, 2, 0, 0);
    let ball = spawn_ball(&mut phys, 20, 8, 50, 0);
    phys.stamp_collider_entity(ball.collider.unwrap(), Entity::new(8));
    let zone_body = BodyDesc::new(BodyStatus::Static, 1, 0);
    let zone_coll = ColliderDesc::new(Shape::Rect { hw: 10, hh: 20 }, true);
    let (zb, zc) = phys.spawn(&zone_body, &zone_coll);
    let hz = PhysicsHandle::new(zb, zc);
    phys.set_location(&hz, 100, 0);
    phys.stamp_collider_entity(zc, Entity::new(7));
    let hits = phys.ray_cast(&caster, Vec2 { x: 1, y: 0 });
    assert_eq!(hits.len(), 2);
    assert_eq!(hits[0].entity, Entity::new(8));
    assert_eq!(hits[0].toi, 42);
    assert_eq!(hits[1].entity, Entity::new(7));
    assert_eq!(hits[1].toi, 90);
}

#[test]
fn ray_cast_misses_a_rectangle_off_axis() {
    let mut phys = Physics::new();
    let caster = spawn_ball(&mut phys, 20, 2, 0, 0);
    let zone_body = BodyDesc::new(BodyStatus::Static, 1, 0);
    let zone_coll = ColliderDesc::new(Shape::Rect { hw: 10, hh: 20 }, true);
    let (zb, zc) = phys.spawn(&zone_body, &zone_coll);
    let hz = PhysicsHandle::new(zb, zc);
    phys.set_location(&hz, 100, 200);
    phys.stamp_collider_entity(zc, Entity::new(7));
    let hits = phys.ray_cast(&caster, Vec2 { x: 1, y: 0 });
    assert!(hits.is_empty());
}
