use arena_combat::app_globals::AppGlobals;
use arena_combat::asteroids::asteroid_body;
use arena_combat::collision_detection::{collision_detection, dispatch_all, CollisionDamage};
use arena_combat::combat::handle_collision_event;
use arena_combat::components::Faction;
use arena_combat::despawn::despawn_dead_entities;
use arena_combat::health::Health;
use arena_combat::hud::{fill_of, update_hud_bars, HudBars, ShieldShade};
use arena_combat::movement::{Acceleration, Rotation, Velocity};
use arena_combat::schedule::InGameSet;
use arena_combat::score_text::{count_fallen, update_score};
use arena_combat::shield::{consume_shield_request, spaceship_shield_controls};
use arena_combat::spaceship::spawn_spaceship;
use arena_combat::state::{
    game_state_input_events, on_enter_game_over, transition_to_in_game, GameState,
};
use arena_combat::vector::Vec3;
use arena_combat::world::{Body, World};

fn missile_at(translation: Vec3) -> Body {
    let mut body = Body::new(Faction::SpaceshipMissile, translation, 500);
    body.velocity = Some(Velocity::new(Vec3::new(0, 0, 0)));
    body.acceleration = Some(Acceleration::new(Vec3::new(0, 0, 0)));
    body.health = Some(Health::new(1_000));
    body.collision_damage = Some(CollisionDamage::new(5_000));
    body
}

fn ten_asteroids(world: &mut World) -> Vec<u64> {
    (0..10)
        .map(|i| {
            world.spawn(asteroid_body(
                Vec3::new(-22_000 + 5_000 * i, 0, 10_000),
                Vec3::new(0, 0, 0),
                Vec3::new(0, 0, 0),
                Rotation::new(0, 0, 0),
            ))
        })
        .collect()
}

fn frame(world: &mut World, globals: &mut AppGlobals) {
    despawn_dead_entities(world);
    let events = dispatch_all(world);
    handle_collision_event(world, &events);
    update_score(world, globals);
    collision_detection(world);
}

#[test]
fn four_missiles_destroy_an_asteroid_and_score_one_point() {
    let mut world = World::new();
    let mut globals = AppGlobals::new();
    let rocks = ten_asteroids(&mut world);
    let target = rocks[3];
    let place = Vec3::new(-22_000 + 5_000 * 3, 0, 10_000);
    collision_detection(&mut world);
    assert!(dispatch_all(&world).is_empty());

    for hit in 1..=4 {
        world.spawn(missile_at(place));
        collision_detection(&mut world);
        frame(&mut world, &mut globals);
        let rock = world.bodies.iter().find(|body| body.entity == target).unwrap();
        assert_eq!(rock.health, Some(Health::new(20_000 - 5_000 * hit)));
        if hit == 1 {
            assert_eq!(rock.health, Some(Health::new(15_000)));
        }
    }
    assert_eq!(globals.score, 1);
    assert_eq!(count_fallen(&world), 1);
    assert_eq!(world.count(Faction::Asteroid), 10);

    despawn_dead_entities(&mut world);
    assert_eq!(world.count(Faction::Asteroid), 9);
    assert_eq!(world.count(Faction::SpaceshipMissile), 0);
    assert!(world.bodies.iter().all(|body| body.entity != target));
    assert_eq!(count_fallen(&world), 0);
    update_score(&world, &mut globals);
    assert_eq!(globals.score, 1);
    for body in &world.bodies {
        assert_eq!(body.health, Some(Health::new(20_000)));
    }
}

#[test]
fn the_score_counts_every_fallen_asteroid() {
    let mut world = World::new();
    let mut globals = AppGlobals::new();
    globals.score = 41;
    ten_asteroids(&mut world);
    world.bodies[2].health = Some(Health::new(0));
    world.bodies[7].health = Some(Health::new(-3));
    let mut dead_missile = missile_at(Vec3::new(0, 0, 0));
    dead_missile.health = Some(Health::new(0));
    world.spawn(dead_missile);
    update_score(&world, &mut globals);
    assert_eq!(globals.score, 43);
    assert_eq!(globals.level, 1);
}

#[test]
fn the_end_of_a_game_closes_out_the_scores() {
    let mut globals = AppGlobals { score: 12, high_score: 9, last_score: 4, level: 6 };
    globals.final_score_update();
    assert_eq!(globals, AppGlobals { score: 0, high_score: 12, last_score: 12, level: 1 });
    globals.score = 5;
    globals.final_score_update();
    assert_eq!(globals, AppGlobals { score: 0, high_score: 12, last_score: 5, level: 1 });
}

#[test]
fn game_over_wipes_the_field_and_brings_a_new_craft() {
    let mut world = World::new();
    let mut globals = AppGlobals { score: 3, high_score: 1, last_score: 0, level: 2 };
    ten_asteroids(&mut world);
    let debris = world.spawn(Body::new(Faction::AsteroidDebris, Vec3::new(0, 0, 0), 1_500));
    let craft = on_enter_game_over(&mut world, &mut globals);
    let names: Vec<u64> = world.bodies.iter().map(|body| body.entity).collect();
    assert_eq!(names, vec![debris, craft]);
    assert_eq!(world.bodies[1].faction, Faction::Spaceship);
    assert_eq!(globals, AppGlobals { score: 0, high_score: 3, last_score: 3, level: 1 });
    assert_eq!(transition_to_in_game(), GameState::InGame);
}

#[test]
fn the_pause_key_toggles_a_running_game() {
    assert_eq!(GameState::default(), GameState::InGame);
    assert_eq!(game_state_input_events(GameState::InGame, true), Some(GameState::Paused));
    assert_eq!(game_state_input_events(GameState::Paused, true), Some(GameState::InGame));
    assert_eq!(game_state_input_events(GameState::GameOver, true), None);
    for state in [GameState::InGame, GameState::Paused, GameState::GameOver] {
        assert_eq!(game_state_input_events(state, false), None);
    }
}

#[test]
fn a_frame_runs_sweep_input_updates_detection() {
    assert_eq!(
        InGameSet::in_order(),
        vec![
            InGameSet::DespawnEntities,
            InGameSet::UserInput,
            InGameSet::EntityUpdates,
            InGameSet::CollisionDetection,
        ]
    );
    assert_eq!(InGameSet::DespawnEntities.next(), Some(InGameSet::UserInput));
    assert_eq!(InGameSet::CollisionDetection.next(), None);
    assert!(InGameSet::EntityUpdates.runs_before(InGameSet::CollisionDetection));
    assert!(!InGameSet::CollisionDetection.runs_before(InGameSet::EntityUpdates));
    assert!(!InGameSet::UserInput.runs_before(InGameSet::UserInput));
    assert_eq!(InGameSet::UserInput.position(), 1);
}

#[test]
fn the_bars_show_health_and_shield() {
    let mut world = World::new();
    assert_eq!(update_hud_bars(&world), HudBars { ship_fill: 0, shield_fill: 0, shield_shade: None });
    spawn_spaceship(&mut world);
    assert_eq!(
        update_hud_bars(&world),
        HudBars { ship_fill: 1_000, shield_fill: 1_000, shield_shade: Some(ShieldShade::Medium) }
    );
    world.bodies[0].health = Some(Health::new(65_000));
    spaceship_shield_controls(&mut world, true);
    consume_shield_request(&mut world);
    world.bodies[1].health = Some(Health::new(15_000));
    assert_eq!(
        update_hud_bars(&world),
        HudBars { ship_fill: 650, shield_fill: 250, shield_shade: Some(ShieldShade::Bright) }
    );
    world.bodies.pop();
    assert_eq!(
        update_hud_bars(&world),
        HudBars { ship_fill: 650, shield_fill: 0, shield_shade: Some(ShieldShade::Bright) }
    );
    assert_eq!(fill_of(-5, 100), 0);
    assert_eq!(fill_of(250, 100), 1_000);
    assert_eq!(fill_of(1, 3), 333);
}
