//! Asteroids: the waves in which they arrive, and the debris they leave.

use crate::app_globals::AppGlobals;
use crate::collision_detection::CollisionDamage;
use crate::components::{Entity, Explosion, Faction, Transform};
use crate::fixed::{lemma_rate_over_bound, rate_over, rate_over_time};
use crate::health::Health;
use crate::movement::{Acceleration, Rotation, Velocity};
use crate::random::random_range;
use crate::timer::{Timer, TimerMode};
use crate::vector::Vec3;
use crate::world::{census, lemma_same_names_wf, never_healed, only, Body, World};
use vstd::prelude::*;

verus! {

/// Asks for debris where a craft or one of its missiles was hit: the place of
/// the victim and the motion of what hit it.
#[derive(Clone, Copy, Debug, PartialEq, Eq, Structural)]
pub struct AsteroidCollisionAnimationEvent {
    pub xform: Transform,
    pub velocity: Velocity,
    pub acceleration: Acceleration,
}

impl AsteroidCollisionAnimationEvent {
    pub fn new(xform: &Transform, velocity: &Velocity, acceleration: &Acceleration) -> (event:
        AsteroidCollisionAnimationEvent)
        ensures
            event == (AsteroidCollisionAnimationEvent {
                xform: *xform,
                velocity: *velocity,
                acceleration: *acceleration,
            }),
    {
        AsteroidCollisionAnimationEvent {
            xform: *xform,
            velocity: *velocity,
            acceleration: *acceleration,
        }
    }
}

/// Speed of a new asteroid.
pub const VELOCITY_SCALAR: u32 = 5_000;

/// Size of the acceleration of a new asteroid.
pub const ACCELERATION_SCALAR: u32 = 1_000;

/// Asteroids and saucers appear with `SPAWN_RANGE_MIN <= x < SPAWN_RANGE_MAX`,
/// and the same for `z`.
pub const SPAWN_RANGE_MIN: i32 = -25_000;

pub const SPAWN_RANGE_MAX: i32 = 25_000;

/// Period of the wave timer, in nanoseconds.
pub const SPAWN_TIME: u64 = 4_000_000_000;

/// Bound on the turning rates of a new asteroid.
pub const MAX_ROTATE_SPEED: i32 = 3_000;

/// Radius of an asteroid's collider.
pub const RADIUS: u32 = 1_500;

/// Health of a new asteroid.
pub const HEALTH: i64 = 20_000;

/// Damage that an asteroid deals on contact.
pub const COLLISION_DAMAGE: u32 = 35_000;

/// Asteroids in a wave.
pub const WAVE_SIZE: u64 = 10;

/// Places that are tried for one new asteroid or saucer: the last one is
/// taken however close to the craft it is.
pub const SPAWN_TRIES: usize = 3;

/// Least distance from the craft at which a place is taken at once: four
/// times the radius of the craft.
pub const SAFE_DISTANCE: u32 = 10_000;

/// Every level that is a multiple of this starts a boss wave.
pub const BOSS_LEVEL_MODULUS: i32 = 4;

/// Bound on the turning rates of debris: half that of asteroids.
pub const DEBRIS_ROTATE_SPEED: i32 = 1_500;

/// Health that an explosion loses per second.
pub const EXPLOSION_BURN: u32 = 80_000;

/// The timer that starts the waves.
#[derive(Clone, Copy, Debug, PartialEq, Eq, Structural)]
pub struct AsteroidSpawnTimer {
    pub timer: Timer,
}

/// A new wave has begun.
#[derive(Clone, Copy, Debug, PartialEq, Eq, Structural)]
pub struct WaveStarted {
    pub level: i32,
    pub boss: bool,
}

/// Whether a point lies in the rectangle in which asteroids and saucers
/// appear.
pub open spec fn in_spawn_range(point: Vec3) -> bool {
    &&& SPAWN_RANGE_MIN <= point.x < SPAWN_RANGE_MAX
    &&& point.y == 0
    &&& SPAWN_RANGE_MIN <= point.z < SPAWN_RANGE_MAX
}

/// Whether `point` is at least `safe_distance` away from `ship`.
pub open spec fn clear_of(point: Vec3, ship: Vec3, safe_distance: u32) -> bool {
    point.distance_squared(ship) >= safe_distance * safe_distance
}

/// The place that is taken among the candidates: the first that is clear of
/// the craft, and the last one if none before it is.
pub open spec fn spawn_point(candidates: Seq<Vec3>, ship: Vec3, safe_distance: u32) -> Vec3
    decreases candidates.len(),
{
    if candidates.len() <= 1 || clear_of(candidates[0], ship, safe_distance) {
        candidates[0]
    } else {
        spawn_point(candidates.drop_first(), ship, safe_distance)
    }
}

/// The place taken is one of the candidates.
pub proof fn lemma_spawn_point_is_candidate(
    candidates: Seq<Vec3>,
    ship: Vec3,
    safe_distance: u32,
)
    requires
        candidates.len() > 0,
    ensures
        candidates.contains(spawn_point(candidates, ship, safe_distance)),
    decreases candidates.len(),
{
    if candidates.len() <= 1 || clear_of(candidates[0], ship, safe_distance) {
        assert(candidates[0] == spawn_point(candidates, ship, safe_distance));
    } else {
        let rest = candidates.drop_first();
        lemma_spawn_point_is_candidate(rest, ship, safe_distance);
        let k = choose|k: int|
            0 <= k < rest.len() && rest[k] == spawn_point(rest, ship, safe_distance);
        assert(candidates[k + 1] == spawn_point(candidates, ship, safe_distance));
    }
}

/// A place clear of the craft is never passed over for a later candidate:
/// if the place taken is too close to the craft, so was every candidate.
pub proof fn lemma_spawn_point_prefers_clear(
    candidates: Seq<Vec3>,
    ship: Vec3,
    safe_distance: u32,
    k: int,
)
    requires
        0 <= k < candidates.len(),
        !clear_of(spawn_point(candidates, ship, safe_distance), ship, safe_distance),
    ensures
        !clear_of(candidates[k], ship, safe_distance),
    decreases candidates.len(),
{
    if candidates.len() <= 1 || clear_of(candidates[0], ship, safe_distance) {
    } else if k > 0 {
        lemma_spawn_point_prefers_clear(candidates.drop_first(), ship, safe_distance, k - 1);
    }
}

/// Whether `point` is at least `safe_distance` away from `ship`.
pub fn is_clear_of(point: &Vec3, ship: &Vec3, safe_distance: u32) -> (clear: bool)
    ensures
        clear == clear_of(*point, *ship, safe_distance),
{
    assert(safe_distance * safe_distance <= 0xFFFF_FFFF * 0xFFFF_FFFF) by (nonlinear_arith)
        requires
            0 <= safe_distance <= 0xFFFF_FFFF,
    ;
    point.distance_squared_to(ship) >= (safe_distance as u128) * (safe_distance as u128)
}

/// Picks the place for a new asteroid or saucer among the candidates.
pub fn choose_spawn_point(candidates: &Vec<Vec3>, ship: &Vec3, safe_distance: u32) -> (point:
    Vec3)
    requires
        candidates.len() > 0,
    ensures
        point == spawn_point(candidates@, *ship, safe_distance),
{
    let n = candidates.len();
    let mut i: usize = 0;
    assert(candidates@.skip(0) == candidates@);
    while i + 1 < n && !is_clear_of(&candidates[i], ship, safe_distance)
        invariant
            n == candidates.len(),
            0 <= i < n,
            spawn_point(candidates@, *ship, safe_distance) == spawn_point(
                candidates@.skip(i as int),
                *ship,
                safe_distance,
            ),
        decreases n - i,
    {
        assert(candidates@.skip(i as int).drop_first() == candidates@.skip(i + 1));
        i = i + 1;
    }
    assert(candidates@.skip(i as int)[0] == candidates@[i as int]);
    candidates[i]
}

/// Whether `point` is the place taken among some `SPAWN_TRIES` candidates
/// from the spawn rectangle.
pub open spec fn drawn_spawn_point(point: Vec3, ship: Vec3, safe_distance: u32) -> bool {
    exists|candidates: Seq<Vec3>|
        candidates.len() == SPAWN_TRIES && (forall|k: int|
            0 <= k < candidates.len() ==> in_spawn_range(#[trigger] candidates[k])) && point
            == #[trigger] spawn_point(candidates, ship, safe_distance)
}

/// A random place for a new asteroid or saucer: `SPAWN_TRIES` places are
/// drawn from the spawn rectangle and one is picked as `choose_spawn_point`
/// says.
pub fn random_spawn_point(ship: &Vec3, safe_distance: u32) -> (point: Vec3)
    ensures
        in_spawn_range(point),
        drawn_spawn_point(point, *ship, safe_distance),
{
    let mut candidates: Vec<Vec3> = Vec::new();
    let mut i: usize = 0;
    while i < SPAWN_TRIES
        invariant
            0 <= i <= SPAWN_TRIES,
            candidates.len() == i,
            forall|k: int| 0 <= k < i ==> in_spawn_range(#[trigger] candidates[k]),
        decreases SPAWN_TRIES - i,
    {
        let x = random_range(SPAWN_RANGE_MIN, SPAWN_RANGE_MAX);
        let z = random_range(SPAWN_RANGE_MIN, SPAWN_RANGE_MAX);
        candidates.push(Vec3::new(x, 0, z));
        i = i + 1;
    }
    proof {
        lemma_spawn_point_is_candidate(candidates@, *ship, safe_distance);
    }
    let point = choose_spawn_point(&candidates, ship, safe_distance);
    assert(point == spawn_point(candidates@, *ship, safe_distance));
    point
}

/// Whether `v` has some direction in the ground plane and the given length:
/// it is a vector with components below one in size, stretched to that length.
pub open spec fn is_planar_direction(v: Vec3, length: u32) -> bool {
    exists|x: i32, z: i32|
        -1_000 <= x < 1_000 && -1_000 <= z < 1_000 && v == #[trigger] planar(x, z).with_length(
            length,
        )
}

/// The vector in the ground plane with the given components.
pub open spec fn planar(x: i32, z: i32) -> Vec3 {
    Vec3 { x, y: 0, z }
}

/// A vector of the given length in a random direction of the ground plane;
/// the origin where the draw gives no direction.
pub fn random_direction(length: u32) -> (v: Vec3)
    ensures
        is_planar_direction(v, length),
{
    let x = random_range(-1_000, 1_000);
    let z = random_range(-1_000, 1_000);
    let v = Vec3::new(x, 0, z).resized(length);
    assert(v == planar(x, z).with_length(length));
    v
}

/// Whether `body` is an asteroid with these properties and nothing else.
pub open spec fn is_asteroid(
    body: Body,
    translation: Vec3,
    velocity: Vec3,
    acceleration: Vec3,
    rotation: Rotation,
) -> bool {
    &&& body.faction == Faction::Asteroid
    &&& body.transform.translation == translation
    &&& body.velocity == Some(Velocity { value: velocity })
    &&& body.acceleration == Some(Acceleration { value: acceleration })
    &&& body.rotation == Some(rotation)
    &&& body.collider.radius == RADIUS
    &&& body.collider.colliding_entities@.len() == 0
    &&& body.health == Some(Health { value: HEALTH })
    &&& body.collision_damage == Some(CollisionDamage { amount: COLLISION_DAMAGE })
    &&& body.shield is None
    &&& body.shield_hit_cooldown is None
    &&& body.shield_controller is None
    &&& !body.shield_request
    &&& body.explosion is None
}

/// Whether `body` is an asteroid as a wave brings it: somewhere in the spawn
/// rectangle, with full health, moving and accelerating in some directions of
/// the ground plane, turning at rates within the bound.
pub open spec fn wave_asteroid(body: Body) -> bool {
    &&& in_spawn_range(body.transform.translation)
    &&& body.velocity is Some && is_planar_direction(body.velocity->0.value, VELOCITY_SCALAR)
    &&& body.acceleration is Some && is_planar_direction(
        body.acceleration->0.value,
        ACCELERATION_SCALAR,
    )
    &&& body.rotation is Some && body.rotation->0.within(
        -MAX_ROTATE_SPEED as int,
        MAX_ROTATE_SPEED as int,
    )
    &&& is_asteroid(
        body,
        body.transform.translation,
        body.velocity->0.value,
        body.acceleration->0.value,
        body.rotation->0,
    )
}

/// An asteroid with the given place and motion.
pub fn asteroid_body(translation: Vec3, velocity: Vec3, acceleration: Vec3, rotation: Rotation) -> (body:
    Body)
    ensures
        is_asteroid(body, translation, velocity, acceleration, rotation),
{
    let mut body = Body::new(Faction::Asteroid, translation, RADIUS);
    body.velocity = Some(Velocity::new(velocity));
    body.acceleration = Some(Acceleration::new(acceleration));
    body.rotation = Some(rotation);
    body.health = Some(Health::new(HEALTH));
    body.collision_damage = Some(CollisionDamage::new(COLLISION_DAMAGE));
    body
}

/// Adds one asteroid at a random place, away from the craft at `ship` if the
/// draws allow it.
pub fn spawn_asteroid(world: &mut World, ship: &Vec3) -> (entity: Entity)
    requires
        old(world).wf(),
        old(world).next_entity < u64::MAX,
    ensures
        final(world).wf(),
        entity == old(world).next_entity,
        final(world).next_entity == old(world).next_entity + 1,
        final(world).bodies.len() == old(world).bodies.len() + 1,
        final(world).bodies@.drop_last() == old(world).bodies@,
        final(world).bodies@.last().entity == entity,
        wave_asteroid(final(world).bodies@.last()),
        drawn_spawn_point(final(world).bodies@.last().transform.translation, *ship, SAFE_DISTANCE),
{
    let translation = random_spawn_point(ship, SAFE_DISTANCE);
    let rotation = Rotation::random(-MAX_ROTATE_SPEED, MAX_ROTATE_SPEED);
    let velocity = random_direction(VELOCITY_SCALAR);
    let acceleration = random_direction(ACCELERATION_SCALAR);
    let body = asteroid_body(translation, velocity, acceleration, rotation);
    let entity = world.spawn(body);
    assert(world.bodies@.drop_last() =~= old(world).bodies@);
    entity
}

impl AsteroidSpawnTimer {
    /// The wave timer at the start of a game.
    pub fn new() -> (spawn_timer: AsteroidSpawnTimer)
        ensures
            spawn_timer.timer == Timer::fresh(SPAWN_TIME, TimerMode::Repeating),
    {
        AsteroidSpawnTimer { timer: Timer::new(SPAWN_TIME, TimerMode::Repeating) }
    }
}

/// Whether a wave is due after the wave timer took its step: the timer has
/// just finished, and no asteroid is left.
pub open spec fn wave_due(bodies: Seq<Body>, timer: Timer) -> bool {
    timer.spec_just_finished() && census(bodies, Faction::Asteroid) == 0
}

/// Where the only craft is.
pub open spec fn craft_place(bodies: Seq<Body>) -> Vec3 {
    bodies[only(bodies, Faction::Spaceship)->0].transform.translation
}

/// Advances the wave timer and, when it elapses with no asteroid left,
/// starts the next level with a wave of `WAVE_SIZE` asteroids. Without
/// exactly one craft nothing happens, not even to the timer.
pub fn spawn_asteroids(
    world: &mut World,
    spawn_timer: &mut AsteroidSpawnTimer,
    app_globals: &mut AppGlobals,
    delta: u64,
) -> (wave: Option<WaveStarted>)
    requires
        old(world).wf(),
        old(world).next_entity <= u64::MAX - WAVE_SIZE,
        old(app_globals).level < i32::MAX,
    ensures
        final(world).wf(),
        match only(old(world).bodies@, Faction::Spaceship) {
            None => {
                &&& *final(world) == *old(world)
                &&& *final(spawn_timer) == *old(spawn_timer)
                &&& *final(app_globals) == *old(app_globals)
                &&& wave is None
            },
            Some(_) => {
                &&& final(spawn_timer).timer == old(spawn_timer).timer.ticked(delta)
                &&& if wave_due(old(world).bodies@, final(spawn_timer).timer) {
                    &&& *final(app_globals) == (AppGlobals {
                        level: (old(app_globals).level + 1) as i32,
                        ..*old(app_globals)
                    })
                    &&& wave == Some(
                        WaveStarted {
                            level: final(app_globals).level,
                            boss: final(app_globals).level % BOSS_LEVEL_MODULUS == 0,
                        },
                    )
                    &&& final(world).next_entity == old(world).next_entity + WAVE_SIZE
                    &&& final(world).bodies.len() == old(world).bodies.len() + WAVE_SIZE
                    &&& final(world).bodies@.take(old(world).bodies.len() as int) == old(
                        world,
                    ).bodies@
                    &&& forall|k: int|
                        old(world).bodies.len() <= k < final(world).bodies.len() ==> wave_asteroid(
                            #[trigger] final(world).bodies[k],
                        ) && final(world).bodies[k].entity == old(world).next_entity + (k - old(
                            world,
                        ).bodies.len()) && drawn_spawn_point(
                            final(world).bodies[k].transform.translation,
                            craft_place(old(world).bodies@),
                            SAFE_DISTANCE,
                        )
                } else {
                    &&& *final(world) == *old(world)
                    &&& *final(app_globals) == *old(app_globals)
                    &&& wave is None
                }
            },
        },
{
    let ship: Vec3 = match world.single(Faction::Spaceship) {
        Some(s) => world.bodies[s].transform.translation,
        None => {
            return None;
        },
    };
    assert(ship == craft_place(old(world).bodies@));
    spawn_timer.timer.tick(delta);
    if !spawn_timer.timer.just_finished() {
        return None;
    }
    if world.count(Faction::Asteroid) != 0 {
        return None;
    }
    app_globals.level = app_globals.level + 1;
    let boss = app_globals.is_boss_level();
    let mut spawned: u64 = 0;
    while spawned < WAVE_SIZE
        invariant
            0 <= spawned <= WAVE_SIZE,
            world.wf(),
            old(world).next_entity <= u64::MAX - WAVE_SIZE,
            world.next_entity == old(world).next_entity + spawned,
            world.bodies.len() == old(world).bodies.len() + spawned,
            world.bodies@.take(old(world).bodies.len() as int) == old(world).bodies@,
            forall|k: int|
                old(world).bodies.len() <= k < world.bodies.len() ==> wave_asteroid(
                    #[trigger] world.bodies[k],
                ) && world.bodies[k].entity == old(world).next_entity + (k - old(
                    world,
                ).bodies.len()) && drawn_spawn_point(
                    world.bodies[k].transform.translation,
                    ship,
                    SAFE_DISTANCE,
                ),
        decreases WAVE_SIZE - spawned,
    {
        let ghost before = world.bodies@;
        spawn_asteroid(world, &ship);
        proof {
            assert(world.bodies@.drop_last() == before);
            assert(world.bodies@.take(old(world).bodies.len() as int) =~= before.take(
                old(world).bodies.len() as int,
            ));
            assert forall|k: int|
                old(world).bodies.len() <= k < world.bodies.len() implies wave_asteroid(
                #[trigger] world.bodies[k],
            ) && world.bodies[k].entity == old(world).next_entity + (k - old(
                world,
            ).bodies.len()) && drawn_spawn_point(
                world.bodies[k].transform.translation,
                ship,
                SAFE_DISTANCE,
            ) by {
                if k < before.len() {
                    assert(world.bodies[k] == before[k]);
                } else {
                    assert(world.bodies[k] == world.bodies@.last());
                }
            }
        }
        spawned = spawned + 1;
    }
    Some(WaveStarted { level: app_globals.level, boss })
}

/// Whether `body` is debris for `event` that moves at `share` thousandths of
/// the source's speed: a harmless rock where the victim was, with the given
/// turning rates and the source's acceleration.
pub open spec fn is_debris_with(
    body: Body,
    event: AsteroidCollisionAnimationEvent,
    share: u32,
    rotation: Rotation,
) -> bool {
    &&& body.faction == Faction::AsteroidDebris
    &&& body.transform.translation == event.xform.translation
    &&& body.velocity == Some(Velocity { value: event.velocity.value.scaled(share as u64, 1_000) })
    &&& body.acceleration == Some(event.acceleration)
    &&& body.rotation == Some(rotation)
    &&& body.collider.radius == RADIUS
    &&& body.collider.colliding_entities@.len() == 0
    &&& body.health is None
    &&& body.collision_damage is None
    &&& body.shield is None
    &&& body.shield_hit_cooldown is None
    &&& body.shield_controller is None
    &&& !body.shield_request
    &&& body.explosion is None
}

/// Whether `body` is the debris that `event` asks for: it moves as the source
/// did, at between half and all of its speed.
pub open spec fn is_debris_of(
    body: Body,
    event: AsteroidCollisionAnimationEvent,
    rotation: Rotation,
) -> bool {
    exists|share: u32| 500 <= share < 1_000 && #[trigger] is_debris_with(body, event, share, rotation)
}

/// Whether `body` is the explosion that `event` asks for: where the victim
/// was, moving as the source did, with health that burns down.
pub open spec fn is_explosion_of(
    body: Body,
    event: AsteroidCollisionAnimationEvent,
    rotation: Rotation,
) -> bool {
    &&& body.faction == Faction::Explosion
    &&& body.transform.translation == event.xform.translation
    &&& body.velocity == Some(event.velocity)
    &&& body.acceleration == Some(event.acceleration)
    &&& body.rotation == Some(rotation)
    &&& body.collider.radius == RADIUS
    &&& body.collider.colliding_entities@.len() == 0
    &&& body.health == Some(Health { value: HEALTH })
    &&& body.collision_damage is None
    &&& body.shield is None
    &&& body.shield_hit_cooldown is None
    &&& body.shield_controller is None
    &&& !body.shield_request
    &&& body.explosion == Some(Explosion { duration: 0 })
}

/// Debris for `event` that moves at `share` thousandths of the source's
/// speed.
pub fn debris_body(event: &AsteroidCollisionAnimationEvent, share: u32, rotation: Rotation) -> (body:
    Body)
    ensures
        is_debris_with(body, *event, share, rotation),
{
    let mut body = Body::new(Faction::AsteroidDebris, event.xform.translation, RADIUS);
    body.velocity = Some(Velocity::new(event.velocity.value.scale(share as u64, 1_000)));
    body.acceleration = Some(event.acceleration);
    body.rotation = Some(rotation);
    body
}

/// The explosion that `event` asks for.
pub fn explosion_body(event: &AsteroidCollisionAnimationEvent, rotation: Rotation) -> (body: Body)
    ensures
        is_explosion_of(body, *event, rotation),
{
    let mut body = Body::new(Faction::Explosion, event.xform.translation, RADIUS);
    body.velocity = Some(event.velocity);
    body.acceleration = Some(event.acceleration);
    body.rotation = Some(rotation);
    body.health = Some(Health::new(HEALTH));
    body.explosion = Some(Explosion { duration: 0 });
    body
}

/// Whether the two bodies are what `event` asks for: debris and an
/// explosion that turn at the same rates, each within the bound for debris.
pub open spec fn is_wreck_of(
    debris: Body,
    explosion: Body,
    event: AsteroidCollisionAnimationEvent,
) -> bool {
    &&& debris.rotation is Some
    &&& debris.rotation->0.within(-DEBRIS_ROTATE_SPEED as int, DEBRIS_ROTATE_SPEED as int)
    &&& is_debris_of(debris, event, debris.rotation->0)
    &&& is_explosion_of(explosion, event, debris.rotation->0)
}

/// Adds debris and an explosion for every animation that was asked for.
pub fn spawn_collision_animation(world: &mut World, events: &Vec<AsteroidCollisionAnimationEvent>)
    requires
        old(world).wf(),
        old(world).next_entity + 2 * events.len() <= u64::MAX,
    ensures
        final(world).wf(),
        final(world).next_entity == old(world).next_entity + 2 * events.len(),
        final(world).bodies.len() == old(world).bodies.len() + 2 * events.len(),
        final(world).bodies@.take(old(world).bodies.len() as int) == old(world).bodies@,
        forall|k: int|
            0 <= k < events.len() ==> is_wreck_of(
                final(world).bodies[old(world).bodies.len() + 2 * k],
                final(world).bodies[old(world).bodies.len() + 2 * k + 1],
                #[trigger] events[k],
            ),
        forall|k: int|
            old(world).bodies.len() <= k < final(world).bodies.len() ==> (
            #[trigger] final(world).bodies[k]).entity == old(world).next_entity + (k - old(
                world,
            ).bodies.len()),
{
    let n = events.len();
    let ghost start = old(world).bodies.len() as int;
    let mut i: usize = 0;
    while i < n
        invariant
            n == events.len(),
            0 <= i <= n,
            start == old(world).bodies.len(),
            world.wf(),
            old(world).next_entity + 2 * n <= u64::MAX,
            world.next_entity == old(world).next_entity + 2 * i,
            world.bodies.len() == start + 2 * i,
            world.bodies@.take(start) == old(world).bodies@,
            forall|k: int|
                0 <= k < i ==> is_wreck_of(
                    world.bodies[start + 2 * k],
                    world.bodies[start + 2 * k + 1],
                    #[trigger] events[k],
                ),
            forall|k: int|
                start <= k < world.bodies.len() ==> (#[trigger] world.bodies[k]).entity == old(
                    world,
                ).next_entity + (k - start),
        decreases n - i,
    {
        let event = events[i];
        let ghost before = world.bodies@;
        let share = random_range(500, 1_000);
        let rotation = Rotation::random(-DEBRIS_ROTATE_SPEED, DEBRIS_ROTATE_SPEED);
        let debris = debris_body(&event, share as u32, rotation);
        let explosion = explosion_body(&event, rotation);
        world.spawn(debris);
        world.spawn(explosion);
        proof {
            assert(world.bodies@ =~= before.push(world.bodies[start + 2 * i]).push(
                world.bodies[start + 2 * i + 1],
            ));
            assert(world.bodies@.take(start) =~= before.take(start));
            assert(is_debris_with(
                world.bodies[start + 2 * i],
                events[i as int],
                share as u32,
                rotation,
            ));
            assert(is_wreck_of(
                world.bodies[start + 2 * i],
                world.bodies[start + 2 * i + 1],
                events[i as int],
            ));
            assert forall|k: int| 0 <= k < i + 1 implies is_wreck_of(
                world.bodies[start + 2 * k],
                world.bodies[start + 2 * k + 1],
                #[trigger] events[k],
            ) by {
                if k < i {
                    assert(world.bodies[start + 2 * k] == before[start + 2 * k]);
                    assert(world.bodies[start + 2 * k + 1] == before[start + 2 * k + 1]);
                }
            }
            assert forall|k: int| start <= k < world.bodies.len() implies (
            #[trigger] world.bodies[k]).entity == old(world).next_entity + (k - start) by {
                if k < before.len() {
                    assert(world.bodies[k] == before[k]);
                }
            }
        }
        i = i + 1;
    }
}

/// An explosion after one more frame of `delta` nanoseconds: one frame older,
/// with `EXPLOSION_BURN` per second less health. Anything else stays.
pub open spec fn burned(body: Body, delta: u64) -> Body {
    match (body.explosion, body.health) {
        (Some(explosion), Some(health)) => Body {
            explosion: Some(
                Explosion {
                    duration: if explosion.duration < i32::MAX {
                        (explosion.duration + 1) as i32
                    } else {
                        explosion.duration
                    },
                },
            ),
            health: Some(health.reduced(rate_over(EXPLOSION_BURN as int, delta as int))),
            ..body
        },
        _ => body,
    }
}

/// Ages every explosion by one frame and burns its health down, so that the
/// sweep removes it when it is spent.
pub fn update_explosion_animation(world: &mut World, delta: u64)
    requires
        old(world).wf(),
    ensures
        final(world).wf(),
        final(world).next_entity == old(world).next_entity,
        final(world).bodies.len() == old(world).bodies.len(),
        forall|i: int|
            0 <= i < old(world).bodies.len() ==> #[trigger] final(world).bodies[i] == burned(
                old(world).bodies[i],
                delta,
            ),
        never_healed(old(world).bodies@, final(world).bodies@),
{
    let n = world.bodies.len();
    let mut i: usize = 0;
    while i < n
        invariant
            n == world.bodies.len(),
            n == old(world).bodies.len(),
            0 <= i <= n,
            world.next_entity == old(world).next_entity,
            forall|k: int|
                0 <= k < i ==> #[trigger] world.bodies[k] == burned(old(world).bodies[k], delta),
            forall|k: int| i <= k < n ==> world.bodies[k] == old(world).bodies[k],
        decreases n - i,
    {
        match (world.bodies[i].explosion, world.bodies[i].health) {
            (Some(explosion), Some(health)) => {
                let duration = if explosion.duration < i32::MAX {
                    explosion.duration + 1
                } else {
                    explosion.duration
                };
                let loss: i128 = rate_over_time(EXPLOSION_BURN as i32, delta);
                proof {
                    lemma_rate_over_bound(EXPLOSION_BURN as int, delta as int);
                    assert(EXPLOSION_BURN * delta >= 0) by (nonlinear_arith)
                        requires
                            delta >= 0,
                            EXPLOSION_BURN == 80_000,
                    ;
                }
                let mut health = health;
                health.reduce(loss as u128);
                world.bodies[i].explosion = Some(Explosion { duration });
                world.bodies[i].health = Some(health);
            },
            _ => {},
        }
        i = i + 1;
    }
    proof {
        assert forall|k: int| 0 <= k < n implies (#[trigger] world.bodies@[k]).entity == old(
            world,
        ).bodies[k].entity by {
            assert(world.bodies[k] == burned(old(world).bodies[k], delta));
        }
        lemma_same_names_wf(*old(world), *world);
        assert forall|k: int| 0 <= k < n implies {
            &&& (#[trigger] world.bodies@[k]).entity == old(world).bodies[k].entity
            &&& world.bodies[k].faction == old(world).bodies[k].faction
            &&& world.bodies[k].collider.radius == old(world).bodies[k].collider.radius
            &&& world.bodies[k].health is Some <==> old(world).bodies[k].health is Some
            &&& world.bodies[k].health is Some ==> world.bodies[k].health->0.value <= old(
                world,
            ).bodies[k].health->0.value
        } by {
            assert(world.bodies[k] == burned(old(world).bodies[k], delta));
            lemma_rate_over_bound(EXPLOSION_BURN as int, delta as int);
            assert(EXPLOSION_BURN * delta >= 0) by (nonlinear_arith)
                requires
                    delta >= 0,
                    EXPLOSION_BURN == 80_000,
            ;
        }
    }
}

} // verus!
