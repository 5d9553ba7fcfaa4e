//! The player's craft: how it is created, steered and armed.

use crate::collision_detection::CollisionDamage;
use crate::components::{Entity, Faction, ShieldController};
use crate::health::Health;
use crate::movement::{Acceleration, Rotation, Velocity};
use crate::sound_fx::ShootingSoundEvent;
use crate::timer::{Timer, TimerMode};
use crate::vector::Vec3;
use crate::world::{census, lemma_same_names_wf, only, Body, World};
use vstd::prelude::*;

verus! {

/// Where a new craft stands on the `z` axis; it stands at zero on the others.
pub const SPACESHIP_STARTING_Z: i32 = -20_000;

/// Speed of a new craft, along the `z` axis.
pub const SPACESHIP_STARTING_SPEED: i32 = 1_000;

/// Radius of the craft's collider.
pub const SPACESHIP_RADIUS: u32 = 2_500;

/// Size of the acceleration under thrust.
pub const SPACESHIP_SPEED: u32 = 25_000;

/// Health of a new craft.
pub const SPACESHIP_HEALTH: i64 = 100_000;

/// Damage that the craft deals on contact.
pub const SPACESHIP_COLLISION_DAMAGE: u32 = 100_000;

/// Distance ahead of the craft at which a missile appears.
pub const MISSILE_FORWARD_SPAWN_SCALAR: u32 = 5_000;

/// Radius of a missile's collider.
pub const MISSILE_RADIUS: u32 = 500;

/// Speed of a missile.
pub const MISSILE_SPEED: u32 = 50_000;

/// Health of a missile.
pub const MISSILE_HEALTH: i64 = 1_000;

/// Damage that a missile deals on contact.
pub const MISSILE_COLLISION_DAMAGE: u32 = 5_000;

/// Least time between two shots, in nanoseconds: four shots per second.
pub const MISSILE_PERIOD: u64 = 250_000_000;

/// Most missiles of the craft that may fly at once.
pub const MISSILE_MAX: usize = 3;

/// The timer that limits the rate of fire.
#[derive(Clone, Copy, Debug, PartialEq, Eq, Structural)]
pub struct MissileRateTimer {
    pub timer: Timer,
}

/// What the player asks of the engine.
#[derive(Clone, Copy, Debug, PartialEq, Eq, Structural)]
pub enum Thrust {
    Backward,
    Idle,
    Forward,
}

impl MissileRateTimer {
    /// The rate timer at the start: the first shot has to wait one period.
    pub fn new() -> (rate_timer: MissileRateTimer)
        ensures
            rate_timer.timer == Timer::fresh(MISSILE_PERIOD, TimerMode::Once),
    {
        MissileRateTimer { timer: Timer::new(MISSILE_PERIOD, TimerMode::Once) }
    }
}

/// Whether `body` is a craft as it is created.
pub open spec fn is_spaceship(body: Body) -> bool {
    &&& body.faction == Faction::Spaceship
    &&& body.transform.translation == (Vec3 { x: 0, y: 0, z: SPACESHIP_STARTING_Z })
    &&& body.velocity == Some(
        Velocity { value: Vec3 { x: 0, y: 0, z: SPACESHIP_STARTING_SPEED } },
    )
    &&& body.acceleration == Some(Acceleration { value: Vec3::zero() })
    &&& body.rotation == Some(Rotation { x: 0, y: 0, z: 0 })
    &&& body.collider.radius == SPACESHIP_RADIUS
    &&& body.collider.colliding_entities@.len() == 0
    &&& body.health == Some(Health { value: SPACESHIP_HEALTH })
    &&& body.collision_damage == Some(CollisionDamage { amount: SPACESHIP_COLLISION_DAMAGE })
    &&& body.shield is None
    &&& body.shield_hit_cooldown is None
    &&& body.shield_controller == Some(ShieldController::fresh())
    &&& !body.shield_request
    &&& body.explosion is None
}

/// Whether `body` is a missile fired from `origin` in the direction
/// `heading`: a little ahead of the craft, flying straight on.
pub open spec fn is_missile_from(body: Body, origin: Vec3, heading: Vec3) -> bool {
    &&& body.faction == Faction::SpaceshipMissile
    &&& body.transform.translation == origin.plus(
        heading.with_length(MISSILE_FORWARD_SPAWN_SCALAR),
    )
    &&& body.velocity == Some(Velocity { value: heading.with_length(MISSILE_SPEED) })
    &&& body.acceleration == Some(Acceleration { value: Vec3::zero() })
    &&& body.rotation == Some(Rotation { x: 0, y: 0, z: 0 })
    &&& body.collider.radius == MISSILE_RADIUS
    &&& body.collider.colliding_entities@.len() == 0
    &&& body.health == Some(Health { value: MISSILE_HEALTH })
    &&& body.collision_damage == Some(CollisionDamage { amount: MISSILE_COLLISION_DAMAGE })
    &&& body.shield is None
    &&& body.shield_hit_cooldown is None
    &&& body.shield_controller is None
    &&& !body.shield_request
    &&& body.explosion is None
}

/// Acceleration of the craft that points along `heading` under the given
/// thrust.
pub open spec fn thrust_acceleration(heading: Vec3, thrust: Thrust) -> Vec3 {
    match thrust {
        Thrust::Forward => heading.with_length(SPACESHIP_SPEED),
        Thrust::Backward => Vec3::zero().minus(heading.with_length(SPACESHIP_SPEED)),
        Thrust::Idle => Vec3::zero(),
    }
}

/// Adds a new craft, with its shield ready.
pub fn spawn_spaceship(world: &mut World) -> (entity: Entity)
    requires
        old(world).wf(),
        old(world).next_entity < u64::MAX,
    ensures
        final(world).wf(),
        entity == old(world).next_entity,
        final(world).next_entity == old(world).next_entity + 1,
        final(world).bodies.len() == old(world).bodies.len() + 1,
        final(world).bodies@.drop_last() == old(world).bodies@,
        final(world).bodies@.last().entity == entity,
        is_spaceship(final(world).bodies@.last()),
{
    let mut body = Body::new(
        Faction::Spaceship,
        Vec3::new(0, 0, SPACESHIP_STARTING_Z),
        SPACESHIP_RADIUS,
    );
    body.velocity = Some(Velocity::new(Vec3::new(0, 0, SPACESHIP_STARTING_SPEED)));
    body.acceleration = Some(Acceleration::new(Vec3::new(0, 0, 0)));
    body.rotation = Some(Rotation::new(0, 0, 0));
    body.health = Some(Health::new(SPACESHIP_HEALTH));
    body.collision_damage = Some(CollisionDamage::new(SPACESHIP_COLLISION_DAMAGE));
    body.shield_controller = Some(ShieldController::new());
    let entity = world.spawn(body);
    assert(world.bodies@.drop_last() =~= old(world).bodies@);
    entity
}

/// Sets the acceleration of the craft from the thrust that the player asks
/// for and the direction in which the craft points. Without exactly one craft,
/// or if the craft has no acceleration, nothing happens.
pub fn spaceship_movement_controls(world: &mut World, thrust: Thrust, heading: &Vec3)
    requires
        old(world).wf(),
    ensures
        final(world).wf(),
        final(world).next_entity == old(world).next_entity,
        match only(old(world).bodies@, Faction::Spaceship) {
            Some(s) => if old(world).bodies[s].acceleration is Some {
                final(world).bodies@ == old(world).bodies@.update(
                    s,
                    Body {
                        acceleration: Some(
                            Acceleration { value: thrust_acceleration(*heading, thrust) },
                        ),
                        ..old(world).bodies[s]
                    },
                )
            } else {
                final(world).bodies@ == old(world).bodies@
            },
            None => final(world).bodies@ == old(world).bodies@,
        },
{
    let s = match world.single(Faction::Spaceship) {
        Some(s) => s,
        None => {
            return ;
        },
    };
    if world.bodies[s].acceleration.is_none() {
        return ;
    }
    let value = match thrust {
        Thrust::Forward => heading.resized(SPACESHIP_SPEED),
        Thrust::Backward => Vec3::new(0, 0, 0).saturating_sub(&heading.resized(SPACESHIP_SPEED)),
        Thrust::Idle => Vec3::new(0, 0, 0),
    };
    world.bodies[s].acceleration = Some(Acceleration { value });
    proof {
        assert(world.bodies@ =~= old(world).bodies@.update(
            s as int,
            Body {
                acceleration: Some(Acceleration { value: thrust_acceleration(*heading, thrust) }),
                ..old(world).bodies[s as int]
            },
        ));
        lemma_same_names_wf(*old(world), *world);
    }
}

/// Whether a shot is fired in a frame in which the rate timer, after its
/// step, is `timer`: the trigger is held, the timer has run out, and fewer
/// than `MISSILE_MAX` missiles are in the air.
pub open spec fn shot_due(bodies: Seq<Body>, timer: Timer, fire_pressed: bool) -> bool {
    &&& fire_pressed
    &&& timer.finished
    &&& census(bodies, Faction::SpaceshipMissile) < MISSILE_MAX
}

/// Advances the rate timer and fires a missile along `heading` when one is
/// due; the timer then starts over. Without exactly one craft nothing
/// happens, not even to the timer.
pub fn spaceship_weapon_controls(
    world: &mut World,
    rate_timer: &mut MissileRateTimer,
    delta: u64,
    fire_pressed: bool,
    heading: &Vec3,
) -> (sound: Option<ShootingSoundEvent>)
    requires
        old(world).wf(),
        old(world).next_entity < u64::MAX,
    ensures
        final(world).wf(),
        if only(old(world).bodies@, Faction::Spaceship) is None {
            &&& *final(rate_timer) == *old(rate_timer)
            &&& sound is None
            &&& *final(world) == *old(world)
        } else if shot_due(old(world).bodies@, old(rate_timer).timer.ticked(delta), fire_pressed) {
            &&& final(rate_timer).timer == old(rate_timer).timer.ticked(delta).restarted()
            &&& sound is Some
            &&& final(world).next_entity == old(world).next_entity + 1
            &&& final(world).bodies.len() == old(world).bodies.len() + 1
            &&& final(world).bodies@.drop_last() == old(world).bodies@
            &&& final(world).bodies@.last().entity == old(world).next_entity
            &&& is_missile_from(
                final(world).bodies@.last(),
                old(world).bodies[only(
                    old(world).bodies@,
                    Faction::Spaceship,
                )->0].transform.translation,
                *heading,
            )
        } else {
            &&& final(rate_timer).timer == old(rate_timer).timer.ticked(delta)
            &&& sound is None
            &&& *final(world) == *old(world)
        },
{
    let s = match world.single(Faction::Spaceship) {
        Some(s) => s,
        None => {
            return None;
        },
    };
    rate_timer.timer.tick(delta);
    if !(fire_pressed && rate_timer.timer.is_finished()) {
        return None;
    }
    if world.count(Faction::SpaceshipMissile) >= MISSILE_MAX {
        return None;
    }
    rate_timer.timer.reset();
    let origin = world.bodies[s].transform.translation;
    let translation = origin.saturating_add(&heading.resized(MISSILE_FORWARD_SPAWN_SCALAR));
    let mut body = Body::new(Faction::SpaceshipMissile, translation, MISSILE_RADIUS);
    body.velocity = Some(Velocity::new(heading.resized(MISSILE_SPEED)));
    body.acceleration = Some(Acceleration::new(Vec3::new(0, 0, 0)));
    body.rotation = Some(Rotation::new(0, 0, 0));
    body.health = Some(Health::new(MISSILE_HEALTH));
    body.collision_damage = Some(CollisionDamage::new(MISSILE_COLLISION_DAMAGE));
    world.spawn(body);
    assert(world.bodies@.drop_last() =~= old(world).bodies@);
    Some(ShootingSoundEvent)
}

/// Whether the game is over: there is not exactly one craft.
pub fn spaceship_destroyed(world: &World) -> (over: bool)
    ensures
        over == (only(world.bodies@, Faction::Spaceship) is None),
{
    world.single(Faction::Spaceship).is_none()
}

} // verus!
