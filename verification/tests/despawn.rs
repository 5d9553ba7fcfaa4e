use arena_combat::components::{Faction, Shield};
use arena_combat::despawn::{
    despawn_all_entities, despawn_dead_entities, despawn_far_away_entities,
};
use arena_combat::health::Health;
use arena_combat::vector::Vec3;
use arena_combat::world::{Body, World};

fn names(world: &World) -> Vec<u64> {
    world.bodies.iter().map(|body| body.entity).collect()
}

fn with_health(faction: Faction, value: i64) -> Body {
    let mut body = Body::new(faction, Vec3::new(0, 0, 0), 1_500);
    body.health = Some(Health::new(value));
    body
}

#[test]
fn far_away_entities_leave_whatever_their_kind() {
    let mut world = World::new();
    let on_the_line = world.spawn(Body::new(Faction::Asteroid, Vec3::new(100_000, 0, 0), 1_500));
    let _beyond = world.spawn(Body::new(Faction::Asteroid, Vec3::new(100_001, 0, 0), 1_500));
    let _far_debris = world.spawn(Body::new(Faction::AsteroidDebris, Vec3::new(60_000, 60_000, 60_000), 1_500));
    let near = world.spawn(Body::new(Faction::Saucer, Vec3::new(60_000, 0, 80_000), 2_500));
    despawn_far_away_entities(&mut world);
    assert_eq!(names(&world), vec![on_the_line, near]);
}

#[test]
fn dead_entities_leave_but_shields_stay() {
    let mut world = World::new();
    let alive = world.spawn(with_health(Faction::Asteroid, 1));
    let _spent = world.spawn(with_health(Faction::Asteroid, 0));
    let _below = world.spawn(with_health(Faction::SpaceshipMissile, -34_000));
    let debris = world.spawn(Body::new(Faction::AsteroidDebris, Vec3::new(0, 0, 0), 1_500));
    let mut shield = with_health(Faction::Shield, 0);
    shield.shield = Some(Shield { ship: 99 });
    let shield = world.spawn(shield);
    despawn_dead_entities(&mut world);
    assert_eq!(names(&world), vec![alive, debris, shield]);
    assert_eq!(world.next_entity, 5);
}

#[test]
fn the_wipe_takes_everything_that_has_health() {
    let mut world = World::new();
    world.spawn(with_health(Faction::Asteroid, 20_000));
    let debris = world.spawn(Body::new(Faction::AsteroidDebris, Vec3::new(0, 0, 0), 1_500));
    world.spawn(with_health(Faction::Spaceship, 100_000));
    world.spawn(with_health(Faction::Shield, 60_000));
    despawn_all_entities(&mut world);
    assert_eq!(names(&world), vec![debris]);
}

#[test]
fn sweeps_of_an_empty_arena_do_nothing() {
    let mut world = World::new();
    despawn_far_away_entities(&mut world);
    despawn_dead_entities(&mut world);
    despawn_all_entities(&mut world);
    assert!(world.bodies.is_empty());
    assert_eq!(world.next_entity, 0);
}
