use arena_combat::collision_detection::CollisionDamage;
use arena_combat::components::{Faction, ShieldController};
use arena_combat::health::Health;
use arena_combat::movement::{Acceleration, Velocity};
use arena_combat::sound_fx::ShootingSoundEvent;
use arena_combat::spaceship::{
    spaceship_destroyed, spaceship_movement_controls, spaceship_weapon_controls, spawn_spaceship,
    MissileRateTimer, Thrust, MISSILE_PERIOD,
};
use arena_combat::timer::{Timer, TimerMode};
use arena_combat::vector::Vec3;
use arena_combat::world::World;

#[test]
fn the_craft_starts_as_described() {
    let mut world = World::new();
    let ship = spawn_spaceship(&mut world);
    let body = &world.bodies[0];
    assert_eq!(body.entity, ship);
    assert_eq!(body.faction, Faction::Spaceship);
    assert_eq!(body.transform.translation, Vec3::new(0, 0, -20_000));
    assert_eq!(body.velocity, Some(Velocity::new(Vec3::new(0, 0, 1_000))));
    assert_eq!(body.acceleration, Some(Acceleration::new(Vec3::new(0, 0, 0))));
    assert_eq!(body.health, Some(Health::new(100_000)));
    assert_eq!(body.collision_damage, Some(CollisionDamage::new(100_000)));
    assert_eq!(body.collider.radius, 2_500);
    assert_eq!(body.shield_controller, Some(ShieldController::new()));
    assert!(!spaceship_destroyed(&world));
}

#[test]
fn thrust_accelerates_along_the_heading() {
    let mut world = World::new();
    spawn_spaceship(&mut world);
    let heading = Vec3::new(600, 0, 800);
    spaceship_movement_controls(&mut world, Thrust::Forward, &heading);
    assert_eq!(world.bodies[0].acceleration, Some(Acceleration::new(Vec3::new(15_000, 0, 20_000))));
    spaceship_movement_controls(&mut world, Thrust::Backward, &heading);
    assert_eq!(world.bodies[0].acceleration, Some(Acceleration::new(Vec3::new(-15_000, 0, -20_000))));
    spaceship_movement_controls(&mut world, Thrust::Idle, &heading);
    assert_eq!(world.bodies[0].acceleration, Some(Acceleration::new(Vec3::new(0, 0, 0))));
}

#[test]
fn the_first_shot_waits_for_the_rate_timer() {
    let mut world = World::new();
    spawn_spaceship(&mut world);
    let mut timer = MissileRateTimer::new();
    let heading = Vec3::new(0, 0, 1_000);
    assert_eq!(spaceship_weapon_controls(&mut world, &mut timer, MISSILE_PERIOD - 1, true, &heading), None);
    assert_eq!(world.bodies.len(), 1);
    assert_eq!(
        spaceship_weapon_controls(&mut world, &mut timer, 1, true, &heading),
        Some(ShootingSoundEvent)
    );
    assert_eq!(world.bodies.len(), 2);
    assert_eq!(timer.timer, Timer::new(MISSILE_PERIOD, TimerMode::Once));
    let missile = &world.bodies[1];
    assert_eq!(missile.faction, Faction::SpaceshipMissile);
    assert_eq!(missile.transform.translation, Vec3::new(0, 0, -15_000));
    assert_eq!(missile.velocity, Some(Velocity::new(Vec3::new(0, 0, 50_000))));
    assert_eq!(missile.health, Some(Health::new(1_000)));
    assert_eq!(missile.collision_damage, Some(CollisionDamage::new(5_000)));
    assert_eq!(missile.collider.radius, 500);
}

#[test]
fn the_trigger_must_be_held() {
    let mut world = World::new();
    spawn_spaceship(&mut world);
    let mut timer = MissileRateTimer::new();
    let heading = Vec3::new(0, 0, 1_000);
    assert_eq!(spaceship_weapon_controls(&mut world, &mut timer, MISSILE_PERIOD, false, &heading), None);
    assert!(timer.timer.finished);
    assert_eq!(world.bodies.len(), 1);
    assert_eq!(
        spaceship_weapon_controls(&mut world, &mut timer, 0, true, &heading),
        Some(ShootingSoundEvent)
    );
}

#[test]
fn at_most_three_missiles_fly_at_once() {
    let mut world = World::new();
    spawn_spaceship(&mut world);
    let mut timer = MissileRateTimer::new();
    let heading = Vec3::new(1_000, 0, 0);
    for _ in 0..3 {
        assert!(spaceship_weapon_controls(&mut world, &mut timer, MISSILE_PERIOD, true, &heading).is_some());
    }
    assert_eq!(world.count(Faction::SpaceshipMissile), 3);
    assert_eq!(spaceship_weapon_controls(&mut world, &mut timer, MISSILE_PERIOD, true, &heading), None);
    assert_eq!(world.count(Faction::SpaceshipMissile), 3);
    assert!(timer.timer.finished);
    world.bodies.pop();
    assert!(spaceship_weapon_controls(&mut world, &mut timer, 0, true, &heading).is_some());
}

#[test]
fn without_a_craft_nothing_is_steered_or_fired() {
    let mut world = World::new();
    let mut timer = MissileRateTimer::new();
    let heading = Vec3::new(0, 0, 1_000);
    assert!(spaceship_destroyed(&world));
    spaceship_movement_controls(&mut world, Thrust::Forward, &heading);
    assert_eq!(spaceship_weapon_controls(&mut world, &mut timer, MISSILE_PERIOD, true, &heading), None);
    assert!(world.bodies.is_empty());
    assert_eq!(timer, MissileRateTimer::new());
}
