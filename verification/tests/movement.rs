use arena_combat::components::Faction;
use arena_combat::movement::{
    despawn_missiles, integrate, update_position, update_velocity, wrap_axis, wrap_position, Acceleration,
    Bounds, Corner, Rotation, Velocity,
};
use arena_combat::vector::Vec3;
use arena_combat::world::{Body, World};

const HALF_SECOND: u64 = 500_000_000;

fn mover(faction: Faction, at: Vec3, velocity: Vec3, acceleration: Vec3) -> Body {
    let mut body = Body::new(faction, at, 1_500);
    body.velocity = Some(Velocity::new(velocity));
    body.acceleration = Some(Acceleration::new(acceleration));
    body
}

fn field() -> Bounds {
    Bounds { min_x: -30_000, max_x: 30_000, min_z: -20_000, max_z: 20_000 }
}

#[test]
fn velocity_then_position_are_integrated() {
    let mut world = World::new();
    world.spawn(mover(
        Faction::Asteroid,
        Vec3::new(0, 0, -20_000),
        Vec3::new(0, 0, 1_000),
        Vec3::new(1_000, 0, 0),
    ));
    update_velocity(&mut world, HALF_SECOND);
    assert_eq!(world.bodies[0].velocity, Some(Velocity::new(Vec3::new(500, 0, 1_000))));
    assert_eq!(world.bodies[0].transform.translation, Vec3::new(0, 0, -20_000));
    update_position(&mut world, HALF_SECOND);
    assert_eq!(world.bodies[0].transform.translation, Vec3::new(250, 0, -19_500));
}

#[test]
fn bodies_without_motion_stay() {
    let mut world = World::new();
    world.spawn(Body::new(Faction::Shield, Vec3::new(1, 2, 3), 5_000));
    let mut only_velocity = Body::new(Faction::Asteroid, Vec3::new(0, 0, 0), 1_500);
    only_velocity.velocity = Some(Velocity::new(Vec3::new(2_000, 0, 0)));
    world.spawn(only_velocity);
    update_velocity(&mut world, HALF_SECOND);
    update_position(&mut world, HALF_SECOND);
    assert_eq!(world.bodies[0].transform.translation, Vec3::new(1, 2, 3));
    assert_eq!(world.bodies[1].velocity, Some(Velocity::new(Vec3::new(2_000, 0, 0))));
    assert_eq!(world.bodies[1].transform.translation, Vec3::new(1_000, 0, 0));
}

#[test]
fn wrap_preserves_the_overshoot() {
    let bounds = field();
    assert_eq!(wrap_axis(bounds.max_x + 2_000, bounds.min_x, bounds.max_x), bounds.min_x + 2_000);
    assert_eq!(wrap_axis(bounds.min_x - 2_000, bounds.min_x, bounds.max_x), bounds.max_x - 2_000);
    assert_eq!(wrap_axis(bounds.max_x, bounds.min_x, bounds.max_x), bounds.max_x);
    assert_eq!(wrap_axis(bounds.min_x, bounds.min_x, bounds.max_x), bounds.min_x);
    assert_eq!(wrap_axis(17, bounds.min_x, bounds.max_x), 17);
}

#[test]
fn asteroid_past_the_edge_comes_back_on_the_other_side() {
    let mut world = World::new();
    let still = Vec3::new(0, 0, 0);
    world.spawn(mover(Faction::Asteroid, Vec3::new(32_000, 0, 0), still, still));
    world.spawn(mover(Faction::Asteroid, Vec3::new(-32_000, 5, -21_000), still, still));
    world.spawn(mover(Faction::Spaceship, Vec3::new(32_000, 0, 0), still, still));
    wrap_position(&mut world, Faction::Asteroid, &field());
    assert_eq!(world.bodies[0].transform.translation, Vec3::new(-28_000, 0, 0));
    assert_eq!(world.bodies[1].transform.translation, Vec3::new(28_000, 5, 19_000));
    assert_eq!(world.bodies[2].transform.translation, Vec3::new(32_000, 0, 0));
    wrap_position(&mut world, Faction::Spaceship, &field());
    assert_eq!(world.bodies[2].transform.translation, Vec3::new(-28_000, 0, 0));
}

#[test]
fn bounds_cover_the_origin_and_the_corners() {
    let corners = vec![
        Corner { x: -5, y: -3 },
        Corner { x: 7, y: 9 },
        Corner { x: 2, y: -8 },
    ];
    assert_eq!(
        Bounds::from_corners(&corners),
        Bounds { min_x: -5, max_x: 7, min_z: -8, max_z: 9 }
    );
    let positive = vec![Corner { x: 3, y: 4 }, Corner { x: 6, y: 5 }];
    assert_eq!(
        Bounds::from_corners(&positive),
        Bounds { min_x: 0, max_x: 6, min_z: 0, max_z: 5 }
    );
    assert_eq!(
        Bounds::from_corners(&Vec::new()),
        Bounds { min_x: 0, max_x: 0, min_z: 0, max_z: 0 }
    );
}

#[test]
fn missiles_leave_at_the_edge_and_nothing_else_does() {
    let mut world = World::new();
    let still = Vec3::new(0, 0, 0);
    let inside = world.spawn(mover(Faction::SpaceshipMissile, Vec3::new(30_000, 0, 0), still, still));
    let _outside = world.spawn(mover(Faction::SpaceshipMissile, Vec3::new(30_001, 0, 0), still, still));
    let rock = world.spawn(mover(Faction::Asteroid, Vec3::new(99_000, 0, 0), still, still));
    let _enemy_shot = world.spawn(mover(Faction::SaucerMissile, Vec3::new(0, 0, -20_001), still, still));
    despawn_missiles(&mut world, &field());
    let left: Vec<u64> = world.bodies.iter().map(|body| body.entity).collect();
    assert_eq!(left, vec![inside, rock]);
    assert!(field().is_outside(&Vec3::new(0, 0, 20_001)));
    assert!(!field().is_outside(&Vec3::new(0, 99_000, 20_000)));
}

#[test]
fn random_rotation_stays_in_range() {
    for _ in 0..200 {
        let rotation = Rotation::random(-3_000, 3_000);
        for rate in [rotation.x, rotation.y, rotation.z] {
            assert!((-3_000..3_000).contains(&rate));
        }
    }
    assert_eq!(Rotation::random(7, 8), Rotation::new(7, 7, 7));
}

#[test]
fn a_step_uses_the_new_velocity_for_the_position() {
    let mut world = World::new();
    world.spawn(mover(
        Faction::Asteroid,
        Vec3::new(0, 0, 0),
        Vec3::new(0, 0, 0),
        Vec3::new(4_000, 0, -2_000),
    ));
    integrate(&mut world, HALF_SECOND);
    assert_eq!(world.bodies[0].velocity, Some(Velocity::new(Vec3::new(2_000, 0, -1_000))));
    assert_eq!(world.bodies[0].transform.translation, Vec3::new(1_000, 0, -500));
}
