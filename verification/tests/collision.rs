use arena_combat::collision_detection::{
    collision_detection, dispatch_all, dispatch_collision_events, overlap, CollisionDamage,
    CollisionEvent,
};
use arena_combat::combat::{handle_collision_event, resolve_collision, Verdict};
use arena_combat::components::Faction;
use arena_combat::health::Health;
use arena_combat::vector::Vec3;
use arena_combat::world::{Body, World};

fn asteroid_at(x: i32, z: i32) -> Body {
    let mut body = Body::new(Faction::Asteroid, Vec3::new(x, 0, z), 1500);
    body.health = Some(Health::new(20_000));
    body.collision_damage = Some(CollisionDamage::new(35_000));
    body
}

fn missile_at(x: i32, z: i32) -> Body {
    let mut body = Body::new(Faction::SpaceshipMissile, Vec3::new(x, 0, z), 500);
    body.health = Some(Health::new(1_000));
    body.collision_damage = Some(CollisionDamage::new(5_000));
    body
}

#[test]
fn overlap_threshold_is_strict() {
    let a = asteroid_at(0, 0);
    let near = asteroid_at(2_900, 0);
    let edge = asteroid_at(3_000, 0);
    assert!(overlap(&a, &near));
    assert!(!overlap(&a, &edge));
    assert!(overlap(&near, &a));
}

#[test]
fn detection_is_symmetric_and_skips_self() {
    let mut world = World::new();
    let a = world.spawn(asteroid_at(0, 0));
    let b = world.spawn(asteroid_at(2_000, 0));
    let c = world.spawn(asteroid_at(50_000, 0));
    collision_detection(&mut world);
    assert_eq!(world.bodies[0].collider.colliding_entities, vec![b]);
    assert_eq!(world.bodies[1].collider.colliding_entities, vec![a]);
    assert_eq!(world.bodies[2].collider.colliding_entities, Vec::<u64>::new());
    assert!(!world.bodies[2].collider.colliding_entities.contains(&c));
}

#[test]
fn detection_replaces_stale_lists() {
    let mut world = World::new();
    let _a = world.spawn(asteroid_at(0, 0));
    let _b = world.spawn(asteroid_at(2_000, 0));
    collision_detection(&mut world);
    world.bodies[1].transform.translation = Vec3::new(40_000, 0, 0);
    collision_detection(&mut world);
    assert!(world.bodies[0].collider.colliding_entities.is_empty());
    assert!(world.bodies[1].collider.colliding_entities.is_empty());
}

#[test]
fn same_faction_overlap_emits_nothing() {
    let mut world = World::new();
    world.spawn(asteroid_at(0, 0));
    world.spawn(asteroid_at(1_000, 0));
    collision_detection(&mut world);
    assert!(dispatch_all(&world).is_empty());
}

#[test]
fn mixed_pair_emits_two_complementary_events() {
    let mut world = World::new();
    let rock = world.spawn(asteroid_at(0, 0));
    let shot = world.spawn(missile_at(1_000, 0));
    collision_detection(&mut world);
    let events = dispatch_all(&world);
    assert_eq!(
        events,
        vec![CollisionEvent::new(rock, shot), CollisionEvent::new(shot, rock)]
    );
    let mut only = Vec::new();
    dispatch_collision_events(&world, Faction::SpaceshipMissile, &mut only);
    assert_eq!(only, vec![CollisionEvent::new(shot, rock)]);
}

#[test]
fn missile_takes_five_from_asteroid() {
    let mut world = World::new();
    let rock = world.spawn(asteroid_at(0, 0));
    let shot = world.spawn(missile_at(1_000, 0));
    let outcome = resolve_collision(&mut world, &CollisionEvent::new(rock, shot));
    assert_eq!(outcome.verdict, Verdict::Hit);
    assert_eq!(outcome.animation, None);
    assert_eq!(world.bodies[0].health, Some(Health::new(15_000)));
}

#[test]
fn damage_stacks_within_a_tick() {
    let mut world = World::new();
    let rock = world.spawn(asteroid_at(0, 0));
    let one = world.spawn(missile_at(1_000, 0));
    let two = world.spawn(missile_at(-1_000, 0));
    let events = vec![CollisionEvent::new(rock, one), CollisionEvent::new(rock, two)];
    let effects = handle_collision_event(&mut world, &events);
    assert_eq!(effects.sounds.len(), 2);
    assert!(effects.animations.is_empty());
    assert_eq!(world.bodies[0].health, Some(Health::new(10_000)));
}
