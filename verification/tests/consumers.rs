//! The reactive consumers: collision-driven destruction with replacement
//! effects, chemical reactions between object kinds, explosion forces,
//! tractor pulls, and out-of-bounds reintroduction.

use physics_bridge::asteroid::{
    explosion_consumer_pass, lookup_kind, reaction_consumer_pass, AsteroidType,
};
use physics_bridge::boundary::{reintroduction_pass, Boundaries};
use physics_bridge::effects::{explosion_pass, Explosion};
use physics_bridge::math::Vec2;
use physics_bridge::registry::{spawning_pass, HandleRegistry};
use physics_bridge::tractor::tractor_pass;
use physics_bridge::types::{
    BodyDesc, BodyStatus, ColliderDesc, Entity, Iso2, PhysicsDesc, Shape,
};
use physics_bridge::world::Physics;

fn kind_desc(kind: AsteroidType) -> PhysicsDesc {
    PhysicsDesc::new(
        BodyDesc::new(BodyStatus::Dynamic, kind.get_mass(), 0),
        ColliderDesc::new(Shape::Circle { radius: kind.get_radius() }, false),
    )
}

fn world_with(entries: &[(u64, AsteroidType, i64, i64)]) -> (
    Physics,
    HandleRegistry,
    Vec<(Entity, AsteroidType)>,
) {
    let mut reg = HandleRegistry::new();
    let mut phys = Physics::new();
    let mut kinds: Vec<(Entity, AsteroidType)> = Vec::new();
    for (id, kind, x, y) in entries {
        let e = Entity::new(*id);
        assert!(reg.add_entity(
            e,
            Some(Iso2 { pos: Vec2 { x: *x, y: *y }, rot: 0 }),
            Some(kind_desc(*kind)),
        ));
        kinds.push((e, *kind));
    }
    spawning_pass(&mut reg, &mut phys);
    (phys, reg, kinds)
}

#[test]
fn explodes_and_reacts_tables() {
    assert!(AsteroidType::Bomb.explodes(AsteroidType::Bomb).is_some());
    let (strength, particles) = AsteroidType::Hydrogen.explodes(AsteroidType::Bomb).unwrap();
    assert_eq!(strength, 500_000);
    assert_eq!(particles, vec![34]);
    assert!(AsteroidType::Big.explodes(AsteroidType::Big).is_none());
    assert_eq!(
        AsteroidType::Hydrogen.reacts(AsteroidType::Oxygen),
        Some((Some(AsteroidType::Water), None))
    );
    assert_eq!(
        AsteroidType::Sulphur.reacts(AsteroidType::Water),
        Some((None, Some(AsteroidType::Acid)))
    );
    assert_eq!(
        AsteroidType::ShipPieceTarnished(3).reacts(AsteroidType::Acid),
        Some((Some(AsteroidType::ShipPiece(3)), None))
    );
    assert!(AsteroidType::Big.reacts(AsteroidType::Small).is_none());
    assert_eq!(AsteroidType::Big.get_mass(), 20);
    assert_eq!(AsteroidType::Big.get_radius(), 8);
    assert_eq!(AsteroidType::ShipPiece(2).get_sprite_num(), 58);
}

#[test]
fn colliding_bombs_are_destroyed_and_replaced_at_midpoint() {
    // Two detonating bodies spawned overlapping: one step yields exactly one
    // Started contact; the consumer deletes both and spawns a replacement at
    // their midpoint.
    let (mut phys, mut reg, kinds) = world_with(&[
        (1, AsteroidType::Bomb, 0, 0),
        (2, AsteroidType::Bomb, 6, 0),
    ]);
    phys.step();
    assert_eq!(phys.contacts.len(), 1);
    let events: Vec<_> = phys.contacts.clone();
    let spawns = explosion_consumer_pass(&phys, &mut reg, &kinds, &events);
    assert_eq!(spawns.len(), 1);
    assert_eq!(spawns[0].0, Vec2 { x: 3, y: 0 });
    match &spawns[0].1 {
        Explosion::Combusting { strength, particles } => {
            assert_eq!(*strength, 500_000);
            assert_eq!(*particles, vec![36]);
        }
        _ => panic!("expected a combusting replacement"),
    }
    assert!(!reg.recs[0].alive);
    assert!(!reg.recs[1].alive);
}

#[test]
fn non_detonating_contacts_are_ignored() {
    let (mut phys, mut reg, kinds) = world_with(&[
        (1, AsteroidType::Big, 0, 0),
        (2, AsteroidType::Medium, 6, 0),
    ]);
    phys.step();
    assert_eq!(phys.contacts.len(), 1);
    let events: Vec<_> = phys.contacts.clone();
    let spawns = explosion_consumer_pass(&phys, &mut reg, &kinds, &events);
    assert!(spawns.is_empty());
    assert!(reg.recs[0].alive && reg.recs[1].alive);
}

#[test]
fn hydrogen_and_oxygen_react_to_water() {
    let (mut phys, mut reg, mut kinds) = world_with(&[
        (1, AsteroidType::Hydrogen, 0, 0),
        (2, AsteroidType::Oxygen, 6, 0),
    ]);
    phys.step();
    let events: Vec<_> = phys.contacts.clone();
    reaction_consumer_pass(&mut phys, &mut reg, &mut kinds, &events);
    // Side one became water; side two was consumed.
    assert_eq!(lookup_kind(&kinds, Entity::new(1)), Some(AsteroidType::Water));
    assert!(reg.recs[0].alive);
    assert!(!reg.recs[1].alive);
}

#[test]
fn merging_waters_resize_the_survivor() {
    let (mut phys, mut reg, mut kinds) = world_with(&[
        (1, AsteroidType::Water, 0, 0),
        (2, AsteroidType::Water, 6, 0),
    ]);
    phys.step();
    let events: Vec<_> = phys.contacts.clone();
    reaction_consumer_pass(&mut phys, &mut reg, &mut kinds, &events);
    assert_eq!(
        lookup_kind(&kinds, Entity::new(1)),
        Some(AsteroidType::WaterMedium)
    );
    assert!(!reg.recs[1].alive);
    // The survivor's collider was resized to the merged kind's radius.
    let h = reg.recs[0].handle.unwrap();
    let coll = phys.colliders[h.collider.unwrap()].unwrap();
    assert_eq!(
        coll.shape,
        Shape::Circle { radius: AsteroidType::WaterMedium.get_radius() }
    );
}

#[test]
fn explosion_pass_pushes_bodies_and_burns_out() {
    let (mut phys, reg, _kinds) = world_with(&[(1, AsteroidType::Big, 20, 0)]);
    let h = reg.recs[0].handle.unwrap();
    let mut explosions = vec![(
        Vec2 { x: 0, y: 0 },
        Explosion::Combusting { strength: 800_000, particles: vec![36] },
    )];
    let targets = vec![h];
    explosion_pass(&mut phys, &mut explosions, &targets);
    // The one-time charge is spent: the effect expands and never combusts
    // again.
    assert!(explosions[0].1.combusted());
    explosion_pass(&mut phys, &mut explosions, &targets);
    assert!(explosions[0].1.combusted());
    // The body felt the impulse: strength * distance / distance^3 along +x.
    let body = phys.bodies[h.body.unwrap()].unwrap();
    assert_eq!(body.force_accum, Vec2 { x: 2_000, y: 0 });
}

#[test]
fn explosion_impulse_decays_with_distance() {
    // The blast reaches a distant body too, with the cubic-falloff impulse:
    // 800000 * 200 / 200^3 = 20 along +x.
    let (mut phys, reg, _kinds) = world_with(&[(1, AsteroidType::Big, 200, 0)]);
    let h = reg.recs[0].handle.unwrap();
    let mut explosions = vec![(
        Vec2 { x: 0, y: 0 },
        Explosion::Combusting { strength: 800_000, particles: vec![] },
    )];
    let targets = vec![h];
    explosion_pass(&mut phys, &mut explosions, &targets);
    let body = phys.bodies[h.body.unwrap()].unwrap();
    assert_eq!(body.force_accum, Vec2 { x: 20, y: 0 });
}

#[test]
fn tractor_bands_pull_and_brake() {
    // A body in the boosted band: pull of 5 * strength / d^2 toward the
    // beam, light braking of the current velocity.
    let (mut phys, reg, _kinds) = world_with(&[(1, AsteroidType::Big, 60, 0)]);
    let h = reg.recs[0].handle.unwrap();
    phys.set_velocity(&h, Vec2 { x: 100, y: 0 });
    let targets = vec![h];
    tractor_pass(&mut phys, Vec2 { x: 0, y: 0 }, 7_200, &targets);
    let body = phys.bodies[h.body.unwrap()].unwrap();
    // Brake: -100 * 1 / 2 = -50. Pull: 5 * 7200 * (0 - 60) / 3600 = -600.
    assert_eq!(body.accel_accum, Vec2 { x: -650, y: 0 });
}

#[test]
fn tractor_out_of_range_does_nothing() {
    let (mut phys, reg, _kinds) = world_with(&[(1, AsteroidType::Big, 500, 0)]);
    let h = reg.recs[0].handle.unwrap();
    phys.set_velocity(&h, Vec2 { x: 100, y: 0 });
    let targets = vec![h];
    tractor_pass(&mut phys, Vec2 { x: 0, y: 0 }, 7_200, &targets);
    let body = phys.bodies[h.body.unwrap()].unwrap();
    assert_eq!(body.accel_accum, Vec2 { x: 0, y: 0 });
}

#[test]
fn reintroduction_lands_on_the_rim_with_bounded_speed() {
    let (mut phys, reg, kinds) = world_with(&[(1, AsteroidType::Big, 900, 0)]);
    let h = reg.recs[0].handle.unwrap();
    phys.set_velocity(&h, Vec2 { x: 30, y: 40 });
    // A boundary zone owned by a separate entity.
    let zone_entity = Entity::new(99);
    let zone_body = BodyDesc::new(BodyStatus::Static, 1, 0);
    let zone_coll = ColliderDesc::new(Shape::Rect { hw: 100, hh: 100 }, true);
    let (zb, zc) = phys.spawn(&zone_body, &zone_coll);
    phys.set_location(
        &physics_bridge::types::PhysicsHandle::new(zb, zc),
        900,
        0,
    );
    phys.stamp_collider_entity(zc, zone_entity);
    let bounds = vec![(zone_entity, Boundaries { width: 400, height: 200 })];
    phys.step();
    assert_eq!(phys.proximities.len(), 1);
    let events: Vec<_> = phys.proximities.clone();
    reintroduction_pass(&mut phys, &reg, &kinds, &bounds, &events);
    let pos = phys.get_location(&h).unwrap();
    let on_rim = (pos.x.abs() == 200 && pos.y.abs() <= 100)
        || (pos.y.abs() == 100 && pos.x.abs() <= 200);
    assert!(on_rim, "reintroduced off the rim: {:?}", pos);
    // The speed is preserved exactly: the old speed was 50.
    let v = phys.get_velocity(&h).unwrap();
    assert_eq!(v.x * v.x + v.y * v.y, 50 * 50);
    // The new velocity points inward across an edge the body lies on.
    let inward = (pos.x == 200 && v.x <= 0)
        || (pos.x == -200 && v.x >= 0)
        || (pos.y == 100 && v.y <= 0)
        || (pos.y == -100 && v.y >= 0);
    assert!(inward, "reintroduced heading outward: {:?} {:?}", pos, v);
}
