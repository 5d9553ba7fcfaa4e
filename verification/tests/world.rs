use arena_combat::components::Faction;
use arena_combat::vector::Vec3;
use arena_combat::world::{Body, World};

fn rock() -> Body {
    Body::new(Faction::Asteroid, Vec3::new(0, 0, 0), 1_500)
}

#[test]
fn a_new_arena_is_empty() {
    let world = World::new();
    assert!(world.bodies.is_empty());
    assert_eq!(world.next_entity, 0);
    assert!(world.is_well_formed());
}

#[test]
fn a_bare_body_has_a_place_and_a_collider_only() {
    let body = Body::new(Faction::Saucer, Vec3::new(1, 2, 3), 2_500);
    assert_eq!(body.faction, Faction::Saucer);
    assert_eq!(body.transform.translation, Vec3::new(1, 2, 3));
    assert_eq!(body.collider.radius, 2_500);
    assert!(body.collider.colliding_entities.is_empty());
    assert_eq!(body.velocity, None);
    assert_eq!(body.acceleration, None);
    assert_eq!(body.rotation, None);
    assert_eq!(body.health, None);
    assert_eq!(body.collision_damage, None);
    assert_eq!(body.shield, None);
    assert_eq!(body.shield_hit_cooldown, None);
    assert_eq!(body.shield_controller, None);
    assert!(!body.shield_request);
    assert_eq!(body.explosion, None);
}

#[test]
fn spawning_hands_out_fresh_names_in_order() {
    let mut world = World::new();
    let mut named = rock();
    named.entity = 55;
    assert_eq!(world.spawn(named), 0);
    assert_eq!(world.spawn(rock()), 1);
    assert_eq!(world.spawn(rock()), 2);
    assert_eq!(world.next_entity, 3);
    let names: Vec<u64> = world.bodies.iter().map(|body| body.entity).collect();
    assert_eq!(names, vec![0, 1, 2]);
    assert!(world.is_well_formed());
}

#[test]
fn names_are_found_where_they_stand() {
    let mut world = World::new();
    for _ in 0..4 {
        world.spawn(rock());
    }
    world.remove_where(&vec![false, true, false, false]);
    assert_eq!(world.index_of(0), Some(0));
    assert_eq!(world.index_of(1), None);
    assert_eq!(world.index_of(2), Some(1));
    assert_eq!(world.index_of(3), Some(2));
    assert_eq!(world.index_of(4), None);
    assert_eq!(world.next_entity, 4);
    assert!(world.is_well_formed());
}

#[test]
fn removal_keeps_the_order_of_the_rest() {
    let mut world = World::new();
    for _ in 0..5 {
        world.spawn(rock());
    }
    world.remove_where(&vec![true, false, true, false, true]);
    let names: Vec<u64> = world.bodies.iter().map(|body| body.entity).collect();
    assert_eq!(names, vec![1, 3]);
    world.remove_where(&vec![false, false]);
    assert_eq!(world.bodies.len(), 2);
    world.remove_where(&vec![true, true]);
    assert!(world.bodies.is_empty());
}

#[test]
fn counting_and_the_only_one() {
    let mut world = World::new();
    assert_eq!(world.count(Faction::Asteroid), 0);
    assert_eq!(world.single(Faction::Asteroid), None);
    world.spawn(Body::new(Faction::Spaceship, Vec3::new(0, 0, 0), 2_500));
    world.spawn(rock());
    assert_eq!(world.single(Faction::Asteroid), Some(1));
    assert_eq!(world.single(Faction::Spaceship), Some(0));
    world.spawn(rock());
    assert_eq!(world.count(Faction::Asteroid), 2);
    assert_eq!(world.single(Faction::Asteroid), None);
    assert_eq!(world.single(Faction::Spaceship), Some(0));
    assert_eq!(world.count(Faction::Saucer), 0);
}

#[test]
fn ill_formed_arenas_are_recognised() {
    let mut world = World::new();
    world.spawn(rock());
    world.spawn(rock());
    world.bodies[1].entity = 0;
    assert!(!world.is_well_formed());
    world.bodies[1].entity = 7;
    assert!(!world.is_well_formed());
    world.next_entity = 8;
    assert!(world.is_well_formed());
}
