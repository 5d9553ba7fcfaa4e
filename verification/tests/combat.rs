use arena_combat::asteroids::AsteroidCollisionAnimationEvent;
use arena_combat::collision_detection::{CollisionDamage, CollisionEvent};
use arena_combat::combat::{handle_collision_event, resolve_collision, Verdict};
use arena_combat::components::{
    Faction, Shield, ShieldController, ShieldHitCooldown, ShieldState, Transform,
};
use arena_combat::health::Health;
use arena_combat::movement::{Acceleration, Velocity};
use arena_combat::shield::tick_shield_hit_cooldowns;
use arena_combat::timer::{Timer, TimerMode};
use arena_combat::vector::Vec3;
use arena_combat::world::{Body, World};

fn rock() -> Body {
    let mut body = Body::new(Faction::Asteroid, Vec3::new(1_000, 0, 2_000), 1_500);
    body.velocity = Some(Velocity::new(Vec3::new(3_000, 0, 4_000)));
    body.acceleration = Some(Acceleration::new(Vec3::new(0, 0, 1_000)));
    body.health = Some(Health::new(20_000));
    body.collision_damage = Some(CollisionDamage::new(35_000));
    body
}

fn craft(state: ShieldState) -> Body {
    let mut body = Body::new(Faction::Spaceship, Vec3::new(0, 0, -20_000), 2_500);
    body.velocity = Some(Velocity::new(Vec3::new(0, 0, 1_000)));
    body.acceleration = Some(Acceleration::new(Vec3::new(0, 0, 0)));
    body.health = Some(Health::new(100_000));
    body.collision_damage = Some(CollisionDamage::new(100_000));
    let mut controller = ShieldController::new();
    controller.state = state;
    body.shield_controller = Some(controller);
    body
}

fn shield_of(ship: u64, period: u64, ready: bool) -> Body {
    let mut body = Body::new(Faction::Shield, Vec3::new(0, 0, -20_000), 5_000);
    body.health = Some(Health::new(60_000));
    body.shield = Some(Shield { ship });
    let mut timer = Timer::new(period, TimerMode::Once);
    if ready {
        timer.tick(period);
    }
    body.shield_hit_cooldown = Some(ShieldHitCooldown { timer });
    body
}

fn debris() -> Body {
    let mut body = Body::new(Faction::AsteroidDebris, Vec3::new(0, 0, 0), 1_500);
    body.velocity = Some(Velocity::new(Vec3::new(1_000, 0, 0)));
    body.acceleration = Some(Acceleration::new(Vec3::new(0, 0, 0)));
    body
}

fn health_of(world: &World, place: usize) -> i64 {
    world.bodies[place].health.unwrap().value
}

#[test]
fn shielded_craft_takes_no_damage() {
    let mut world = World::new();
    let ship = world.spawn(craft(ShieldState::Active));
    let stone = world.spawn(rock());
    let outcome = resolve_collision(&mut world, &CollisionEvent::new(ship, stone));
    assert_eq!(outcome.verdict, Verdict::ShieldedCraft);
    assert_eq!(outcome.animation, None);
    assert_eq!(health_of(&world, 0), 100_000);
}

#[test]
fn unshielded_craft_is_hit_and_asks_for_debris() {
    for state in [ShieldState::Ready, ShieldState::Cooldown] {
        let mut world = World::new();
        let ship = world.spawn(craft(state));
        let stone = world.spawn(rock());
        let outcome = resolve_collision(&mut world, &CollisionEvent::new(ship, stone));
        assert_eq!(outcome.verdict, Verdict::Hit);
        assert_eq!(health_of(&world, 0), 65_000);
        assert_eq!(
            outcome.animation,
            Some(AsteroidCollisionAnimationEvent {
                xform: Transform { translation: Vec3::new(0, 0, -20_000) },
                velocity: Velocity::new(Vec3::new(3_000, 0, 4_000)),
                acceleration: Acceleration::new(Vec3::new(0, 0, 1_000)),
            })
        );
        assert_eq!(health_of(&world, 1), 20_000);
    }
}

#[test]
fn a_craft_never_hurts_its_own_shield() {
    let mut world = World::new();
    let ship = world.spawn(craft(ShieldState::Active));
    let shield = world.spawn(shield_of(ship, 400_000_000, true));
    let outcome = resolve_collision(&mut world, &CollisionEvent::new(shield, ship));
    assert_eq!(outcome.verdict, Verdict::OwnShield);
    assert_eq!(health_of(&world, 1), 60_000);
    assert!(world.bodies[1].shield_hit_cooldown.unwrap().timer.finished);
}

#[test]
fn another_craft_does_hurt_the_shield() {
    let mut world = World::new();
    let ship = world.spawn(craft(ShieldState::Active));
    let shield = world.spawn(shield_of(ship, 400_000_000, true));
    let stranger = world.spawn(rock());
    let outcome = resolve_collision(&mut world, &CollisionEvent::new(shield, stranger));
    assert_eq!(outcome.verdict, Verdict::Hit);
    assert_eq!(outcome.animation, None);
    assert_eq!(health_of(&world, 1), 25_000);
}

#[test]
fn shield_is_not_hit_twice_within_its_cooldown() {
    let mut world = World::new();
    let ship = world.spawn(craft(ShieldState::Active));
    let shield = world.spawn(shield_of(ship, 200_000_000, true));
    let stone = world.spawn(rock());
    let contact = CollisionEvent::new(shield, stone);

    assert_eq!(resolve_collision(&mut world, &contact).verdict, Verdict::Hit);
    assert_eq!(health_of(&world, 1), 25_000);
    assert_eq!(resolve_collision(&mut world, &contact).verdict, Verdict::CoolingDown);

    tick_shield_hit_cooldowns(&mut world, 100_000_000);
    assert_eq!(resolve_collision(&mut world, &contact).verdict, Verdict::CoolingDown);
    tick_shield_hit_cooldowns(&mut world, 99_999_999);
    assert_eq!(resolve_collision(&mut world, &contact).verdict, Verdict::CoolingDown);
    assert_eq!(health_of(&world, 1), 25_000);

    tick_shield_hit_cooldowns(&mut world, 1);
    assert_eq!(resolve_collision(&mut world, &contact).verdict, Verdict::Hit);
    assert_eq!(health_of(&world, 1), -10_000);
}

#[test]
fn new_shield_must_be_ticked_before_it_can_be_hit() {
    let mut world = World::new();
    let ship = world.spawn(craft(ShieldState::Active));
    let shield = world.spawn(shield_of(ship, 400_000_000, false));
    let stone = world.spawn(rock());
    let contact = CollisionEvent::new(shield, stone);
    assert_eq!(resolve_collision(&mut world, &contact).verdict, Verdict::CoolingDown);
    tick_shield_hit_cooldowns(&mut world, 400_000_000);
    assert_eq!(resolve_collision(&mut world, &contact).verdict, Verdict::Hit);
}

#[test]
fn victims_without_health_are_skipped() {
    let mut world = World::new();
    let scrap = world.spawn(debris());
    let stone = world.spawn(rock());
    let outcome = resolve_collision(&mut world, &CollisionEvent::new(scrap, stone));
    assert_eq!(outcome.verdict, Verdict::NoHealth);
    assert_eq!(world.bodies[0].health, None);
    let gone = resolve_collision(&mut world, &CollisionEvent::new(77, stone));
    assert_eq!(gone.verdict, Verdict::NoHealth);
}

#[test]
fn harmless_sources_are_skipped() {
    let mut world = World::new();
    let stone = world.spawn(rock());
    let scrap = world.spawn(debris());
    let outcome = resolve_collision(&mut world, &CollisionEvent::new(stone, scrap));
    assert_eq!(outcome.verdict, Verdict::Harmless);
    assert_eq!(health_of(&world, 0), 20_000);
    let gone = resolve_collision(&mut world, &CollisionEvent::new(stone, 77));
    assert_eq!(gone.verdict, Verdict::Harmless);
    assert_eq!(health_of(&world, 0), 20_000);
}

#[test]
fn a_harmless_touch_still_restarts_the_cooldown_window() {
    let mut world = World::new();
    let ship = world.spawn(craft(ShieldState::Active));
    let shield = world.spawn(shield_of(ship, 400_000_000, true));
    let scrap = world.spawn(debris());
    let outcome = resolve_collision(&mut world, &CollisionEvent::new(shield, scrap));
    assert_eq!(outcome.verdict, Verdict::Harmless);
    let timer = world.bodies[1].shield_hit_cooldown.unwrap().timer;
    assert_eq!(timer, Timer::new(400_000_000, TimerMode::Once));
    assert_eq!(health_of(&world, 1), 60_000);
}

#[test]
fn only_craft_and_its_missiles_ask_for_debris() {
    let mut world = World::new();
    let stone = world.spawn(rock());
    let mut shot = Body::new(Faction::SpaceshipMissile, Vec3::new(1_000, 0, 2_500), 500);
    shot.velocity = Some(Velocity::new(Vec3::new(0, 0, 50_000)));
    shot.acceleration = Some(Acceleration::new(Vec3::new(0, 0, 0)));
    shot.health = Some(Health::new(1_000));
    shot.collision_damage = Some(CollisionDamage::new(5_000));
    let shot = world.spawn(shot);
    let events = vec![CollisionEvent::new(stone, shot), CollisionEvent::new(shot, stone)];
    let effects = handle_collision_event(&mut world, &events);
    assert_eq!(effects.sounds.len(), 2);
    assert_eq!(
        effects.animations,
        vec![AsteroidCollisionAnimationEvent {
            xform: Transform { translation: Vec3::new(1_000, 0, 2_500) },
            velocity: Velocity::new(Vec3::new(3_000, 0, 4_000)),
            acceleration: Acceleration::new(Vec3::new(0, 0, 1_000)),
        }]
    );
    assert_eq!(health_of(&world, 0), 15_000);
    assert_eq!(health_of(&world, 1), -34_000);
}

#[test]
fn a_source_without_motion_leaves_no_debris() {
    let mut world = World::new();
    let ship = world.spawn(craft(ShieldState::Ready));
    let mut mine = Body::new(Faction::Saucer, Vec3::new(0, 0, -19_000), 2_500);
    mine.collision_damage = Some(CollisionDamage::new(1_000));
    let mine = world.spawn(mine);
    let outcome = resolve_collision(&mut world, &CollisionEvent::new(ship, mine));
    assert_eq!(outcome.verdict, Verdict::Hit);
    assert_eq!(outcome.animation, None);
    assert_eq!(health_of(&world, 0), 99_000);
}

#[test]
fn health_never_rises_under_damage() {
    let mut world = World::new();
    let ship = world.spawn(craft(ShieldState::Ready));
    let stone = world.spawn(rock());
    let scrap = world.spawn(debris());
    let events = vec![
        CollisionEvent::new(ship, stone),
        CollisionEvent::new(stone, ship),
        CollisionEvent::new(stone, scrap),
        CollisionEvent::new(ship, stone),
        CollisionEvent::new(scrap, ship),
    ];
    let before: Vec<Option<Health>> = world.bodies.iter().map(|body| body.health).collect();
    handle_collision_event(&mut world, &events);
    for (place, was) in before.iter().enumerate() {
        match (was, world.bodies[place].health) {
            (Some(was), Some(now)) => assert!(now.value <= was.value),
            (None, None) => {}
            _ => panic!("health appeared or vanished"),
        }
    }
    assert_eq!(health_of(&world, 0), 30_000);
    assert_eq!(health_of(&world, 1), -80_000);
}

#[test]
fn health_stops_at_the_least_value() {
    let mut health = Health::new(i64::MIN + 3);
    health.reduce(5);
    assert_eq!(health.value, i64::MIN);
    let mut other = Health::new(10);
    other.reduce(u128::MAX);
    assert_eq!(other.value, i64::MIN);
    let mut plain = Health::new(20_000);
    plain.reduce(5_000);
    assert_eq!(plain.value, 15_000);
    assert!(!plain.is_dead());
    assert!(Health::new(0).is_dead());
}

#[test]
fn no_events_no_effects() {
    let mut world = World::new();
    world.spawn(rock());
    let effects = handle_collision_event(&mut world, &Vec::new());
    assert!(effects.sounds.is_empty());
    assert!(effects.animations.is_empty());
    assert_eq!(health_of(&world, 0), 20_000);
}
