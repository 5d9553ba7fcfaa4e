use arena_combat::components::{Faction, Shield, ShieldController, ShieldState};
use arena_combat::health::Health;
use arena_combat::shield::{
    consume_shield_request, reconcile_shield, shield_body, shield_death_starts_cooldown,
    shield_decay_health, shield_follow_ship, spaceship_shield_controls, tick_shield_cooldown,
    tick_shield_hit_cooldowns, ShieldReadyEvent, SHIELD_COOLDOWN, SHIELD_HIT_COOLDOWN,
    SHIELD_HP, SHIELD_RADIUS,
};
use arena_combat::spaceship::spawn_spaceship;
use arena_combat::timer::{Timer, TimerMode};
use arena_combat::vector::Vec3;
use arena_combat::world::{Body, World};

const SECOND: u64 = 1_000_000_000;

fn state_of(world: &World, place: usize) -> ShieldState {
    world.bodies[place].shield_controller.unwrap().state
}

fn world_with_craft() -> (World, u64) {
    let mut world = World::new();
    let ship = spawn_spaceship(&mut world);
    (world, ship)
}

#[test]
fn a_new_controller_is_ready() {
    let controller = ShieldController::new();
    assert_eq!(controller.state, ShieldState::Ready);
    assert_eq!(controller.cooldown.duration, SHIELD_COOLDOWN);
    assert_eq!(controller.cooldown.mode, TimerMode::Once);
}

#[test]
fn request_raises_the_shield_when_ready() {
    let (mut world, ship) = world_with_craft();
    spaceship_shield_controls(&mut world, false);
    assert!(!world.bodies[0].shield_request);
    spaceship_shield_controls(&mut world, true);
    assert!(world.bodies[0].shield_request);
    consume_shield_request(&mut world);
    assert!(!world.bodies[0].shield_request);
    assert_eq!(state_of(&world, 0), ShieldState::Active);
    assert_eq!(world.bodies.len(), 2);
    let shield = &world.bodies[1];
    assert_eq!(shield.faction, Faction::Shield);
    assert_eq!(shield.shield, Some(Shield { ship }));
    assert_eq!(shield.health, Some(Health::new(SHIELD_HP)));
    assert_eq!(shield.collider.radius, SHIELD_RADIUS);
    assert_eq!(shield.collision_damage, None);
    let timer = shield.shield_hit_cooldown.unwrap().timer;
    assert_eq!(timer.duration, SHIELD_HIT_COOLDOWN);
    assert_eq!(timer.elapsed, SHIELD_HIT_COOLDOWN);
    assert!(!timer.finished);
}

#[test]
fn request_is_ignored_when_active_or_cooling_down() {
    let (mut world, _ship) = world_with_craft();
    spaceship_shield_controls(&mut world, true);
    consume_shield_request(&mut world);
    spaceship_shield_controls(&mut world, true);
    consume_shield_request(&mut world);
    assert_eq!(world.bodies.len(), 2);
    assert_eq!(state_of(&world, 0), ShieldState::Active);
    assert!(!world.bodies[0].shield_request);

    let (mut world, _ship) = world_with_craft();
    let mut controller = ShieldController::new();
    controller.state = ShieldState::Cooldown;
    controller.cooldown.reset();
    world.bodies[0].shield_controller = Some(controller);
    spaceship_shield_controls(&mut world, true);
    consume_shield_request(&mut world);
    assert_eq!(world.bodies.len(), 1);
    assert_eq!(state_of(&world, 0), ShieldState::Cooldown);
    assert!(!world.bodies[0].shield_request);
}

#[test]
fn nothing_is_consumed_without_a_request() {
    let (mut world, _ship) = world_with_craft();
    consume_shield_request(&mut world);
    assert_eq!(world.bodies.len(), 1);
    assert_eq!(state_of(&world, 0), ShieldState::Ready);
}

#[test]
fn shield_systems_do_nothing_without_a_craft() {
    let mut world = World::new();
    world.spawn(shield_body(7));
    spaceship_shield_controls(&mut world, true);
    consume_shield_request(&mut world);
    shield_follow_ship(&mut world);
    reconcile_shield(&mut world);
    assert_eq!(tick_shield_cooldown(&mut world, SECOND), None);
    assert_eq!(world.bodies.len(), 1);
    assert_eq!(world.bodies[0].transform.translation, Vec3::new(0, 0, 0));
}

#[test]
fn the_shield_follows_its_craft() {
    let (mut world, ship) = world_with_craft();
    world.spawn(shield_body(ship));
    world.spawn(shield_body(ship + 100));
    world.bodies[0].transform.translation = Vec3::new(5_000, 0, -7_000);
    shield_follow_ship(&mut world);
    assert_eq!(world.bodies[1].transform.translation, Vec3::new(5_000, 0, -7_000));
    assert_eq!(world.bodies[2].transform.translation, Vec3::new(0, 0, 0));
}

#[test]
fn shield_health_decays_and_stops_at_zero() {
    let (mut world, ship) = world_with_craft();
    world.spawn(shield_body(ship));
    shield_decay_health(&mut world, SECOND);
    assert_eq!(world.bodies[1].health, Some(Health::new(56_000)));
    assert_eq!(world.bodies[0].health, Some(Health::new(100_000)));
    shield_decay_health(&mut world, SECOND / 2);
    assert_eq!(world.bodies[1].health, Some(Health::new(54_000)));
    shield_decay_health(&mut world, 14 * SECOND);
    assert_eq!(world.bodies[1].health, Some(Health::new(0)));
    shield_decay_health(&mut world, SECOND);
    assert_eq!(world.bodies[1].health, Some(Health::new(0)));
    world.bodies[1].health = Some(Health::new(-5));
    shield_decay_health(&mut world, SECOND);
    assert_eq!(world.bodies[1].health, Some(Health::new(-5)));
}

#[test]
fn death_of_the_shield_starts_the_cooldown() {
    let (mut world, ship) = world_with_craft();
    spaceship_shield_controls(&mut world, true);
    consume_shield_request(&mut world);
    shield_death_starts_cooldown(&mut world);
    assert_eq!(world.bodies.len(), 2);
    assert_eq!(state_of(&world, 0), ShieldState::Active);

    world.bodies[1].health = Some(Health::new(0));
    shield_death_starts_cooldown(&mut world);
    assert_eq!(world.bodies.len(), 1);
    assert_eq!(world.bodies[0].entity, ship);
    let controller = world.bodies[0].shield_controller.unwrap();
    assert_eq!(controller.state, ShieldState::Cooldown);
    assert_eq!(controller.cooldown, Timer::new(SHIELD_COOLDOWN, TimerMode::Once));
}

#[test]
fn an_orphaned_dead_shield_just_leaves() {
    let (mut world, _ship) = world_with_craft();
    let mut orphan = shield_body(1234);
    orphan.health = Some(Health::new(-1));
    world.spawn(orphan);
    shield_death_starts_cooldown(&mut world);
    assert_eq!(world.bodies.len(), 1);
    assert_eq!(state_of(&world, 0), ShieldState::Ready);
}

#[test]
fn cooldown_returns_to_ready_after_its_duration() {
    let (mut world, ship) = world_with_craft();
    spaceship_shield_controls(&mut world, true);
    consume_shield_request(&mut world);
    world.bodies[1].health = Some(Health::new(0));
    shield_death_starts_cooldown(&mut world);

    assert_eq!(tick_shield_cooldown(&mut world, 3 * SECOND), None);
    assert_eq!(state_of(&world, 0), ShieldState::Cooldown);
    assert_eq!(tick_shield_cooldown(&mut world, SECOND - 1), None);
    assert_eq!(state_of(&world, 0), ShieldState::Cooldown);
    assert_eq!(tick_shield_cooldown(&mut world, 1), Some(ShieldReadyEvent { ship }));
    assert_eq!(state_of(&world, 0), ShieldState::Ready);
    assert_eq!(tick_shield_cooldown(&mut world, 10 * SECOND), None);
    assert_eq!(state_of(&world, 0), ShieldState::Ready);

    spaceship_shield_controls(&mut world, true);
    consume_shield_request(&mut world);
    assert_eq!(state_of(&world, 0), ShieldState::Active);
    assert_eq!(world.bodies.len(), 2);
}

#[test]
fn time_does_not_move_an_active_controller() {
    let (mut world, _ship) = world_with_craft();
    spaceship_shield_controls(&mut world, true);
    consume_shield_request(&mut world);
    assert_eq!(tick_shield_cooldown(&mut world, 100 * SECOND), None);
    assert_eq!(state_of(&world, 0), ShieldState::Active);
}

#[test]
fn a_missing_shield_forces_the_cooldown() {
    let (mut world, _ship) = world_with_craft();
    spaceship_shield_controls(&mut world, true);
    consume_shield_request(&mut world);
    reconcile_shield(&mut world);
    assert_eq!(state_of(&world, 0), ShieldState::Active);

    world.bodies.pop();
    reconcile_shield(&mut world);
    let controller = world.bodies[0].shield_controller.unwrap();
    assert_eq!(controller.state, ShieldState::Cooldown);
    assert_eq!(controller.cooldown, Timer::new(SHIELD_COOLDOWN, TimerMode::Once));
    reconcile_shield(&mut world);
    assert_eq!(state_of(&world, 0), ShieldState::Cooldown);
}

#[test]
fn the_whole_life_of_a_shield_ends_in_ready() {
    let (mut world, _ship) = world_with_craft();
    spaceship_shield_controls(&mut world, true);
    consume_shield_request(&mut world);
    let frame = SECOND / 60;
    let mut frames = 0;
    while state_of(&world, 0) != ShieldState::Ready {
        shield_follow_ship(&mut world);
        tick_shield_hit_cooldowns(&mut world, frame);
        shield_decay_health(&mut world, frame);
        shield_death_starts_cooldown(&mut world);
        reconcile_shield(&mut world);
        tick_shield_cooldown(&mut world, frame);
        frames += 1;
        assert!(frames < 60 * 30, "the controller never came back to ready");
    }
    assert_eq!(world.bodies.len(), 1);
    assert!(frames > 60 * 15);
}

#[test]
fn hit_cooldowns_tick_on_every_body_that_has_one() {
    let mut world = World::new();
    world.spawn(shield_body(1));
    world.spawn(Body::new(Faction::Asteroid, Vec3::new(0, 0, 0), 1_500));
    tick_shield_hit_cooldowns(&mut world, 1);
    assert!(world.bodies[0].shield_hit_cooldown.unwrap().timer.finished);
    assert_eq!(world.bodies[1].shield_hit_cooldown, None);
}
