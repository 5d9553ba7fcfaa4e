//! The saucer: a roaming enemy that appears now and then, keeps away from
//! rocks and shoots at the craft.

use crate::asteroids::{craft_place, drawn_spawn_point, in_spawn_range, random_spawn_point};
use crate::collision_detection::CollisionDamage;
use crate::components::Faction;
use crate::fixed::{floor_sqrt, isqrt};
use crate::health::Health;
use crate::movement::{Acceleration, Rotation, Velocity};
use crate::random::random_range;
use crate::sound_fx::SaucerShootingSoundEvent;
use crate::timer::{Timer, TimerMode};
use crate::vector::Vec3;
use crate::world::{lemma_same_names_wf, only, Body, World};
use vstd::prelude::*;

verus! {

/// Velocity of a new saucer on the `x` axis; on the `z` axis it is the
/// opposite.
pub const SAUCER_STARTING_SPEED: i32 = 1_000;

/// Radius of a saucer's collider.
pub const SAUCER_RADIUS: u32 = 2_500;

/// Health of a new saucer.
pub const SAUCER_HEALTH: i64 = 100_000;

/// Damage that a saucer deals on contact.
pub const SAUCER_COLLISION_DAMAGE: u32 = 100_000;

/// Period of the saucer timer, in nanoseconds.
pub const SAUCER_SPAWN_TIME: u64 = 45_000_000_000;

/// Least distance from the craft at which a place for a saucer is taken at
/// once: four times the radius of a saucer.
pub const SAUCER_SAFE_DISTANCE: u32 = 10_000;

/// Distance from the saucer at which its missile appears.
pub const SAUCER_MISSILE_FORWARD_SPAWN_SCALAR: u32 = 4_000;

/// Radius of the collider of a saucer's missile.
pub const SAUCER_MISSILE_RADIUS: u32 = 500;

/// Chances to shoot that a saucer gets per second; it takes one in this many.
pub const SAUCER_MISSILE_RATE: i32 = 60;

/// Time between two chances to shoot, in nanoseconds.
pub const SAUCER_MISSILE_PERIOD: u64 = 16_666_667;

/// Speed of a saucer's missile.
pub const SAUCER_MISSILE_SPEED: u32 = 40_000;

/// Health of a saucer's missile.
pub const SAUCER_MISSILE_HEALTH: i64 = 1_000;

/// Damage that a saucer's missile deals on contact.
pub const SAUCER_MISSILE_COLLISION_DAMAGE: u32 = 7_000;

/// Size of the pull toward the middle of the field.
pub const CENTER_PULL: u32 = 1_000;

/// Factor of the push away from the nearest obstacle, in thousandths.
pub const REPULSION: u64 = 16_000;

/// Speed above which a saucer brakes.
pub const SAUCER_SPEED_LIMIT: u32 = 20_000;

/// The timer that brings saucers.
#[derive(Clone, Copy, Debug, PartialEq, Eq, Structural)]
pub struct SaucerSpawnTimer {
    pub timer: Timer,
}

/// The timer that gives saucers their chances to shoot.
#[derive(Clone, Copy, Debug, PartialEq, Eq, Structural)]
pub struct SaucerMissileRateTimer {
    pub timer: Timer,
}

/// A saucer is due.
#[derive(Clone, Copy, Debug, PartialEq, Eq, Structural)]
pub struct SaucerSpawnEvent;

impl SaucerSpawnTimer {
    pub fn new() -> (spawn_timer: SaucerSpawnTimer)
        ensures
            spawn_timer.timer == Timer::fresh(SAUCER_SPAWN_TIME, TimerMode::Repeating),
    {
        SaucerSpawnTimer { timer: Timer::new(SAUCER_SPAWN_TIME, TimerMode::Repeating) }
    }
}

impl SaucerMissileRateTimer {
    pub fn new() -> (rate_timer: SaucerMissileRateTimer)
        ensures
            rate_timer.timer == Timer::fresh(SAUCER_MISSILE_PERIOD, TimerMode::Repeating),
    {
        SaucerMissileRateTimer { timer: Timer::new(SAUCER_MISSILE_PERIOD, TimerMode::Repeating) }
    }
}

/// Advances the saucer timer; a saucer is due when it elapses.
pub fn trigger_spawn_saucer(spawn_timer: &mut SaucerSpawnTimer, delta: u64) -> (due: Option<
    SaucerSpawnEvent,
>)
    ensures
        final(spawn_timer).timer == old(spawn_timer).timer.ticked(delta),
        due is Some <==> final(spawn_timer).timer.spec_just_finished(),
{
    spawn_timer.timer.tick(delta);
    if spawn_timer.timer.just_finished() {
        Some(SaucerSpawnEvent)
    } else {
        None
    }
}

/// Whether `body` is a new saucer at `translation`.
pub open spec fn is_saucer(body: Body, translation: Vec3) -> bool {
    &&& body.faction == Faction::Saucer
    &&& body.transform.translation == translation
    &&& body.velocity == Some(
        Velocity {
            value: Vec3 { x: SAUCER_STARTING_SPEED, y: 0, z: (-SAUCER_STARTING_SPEED) as i32 },
        },
    )
    &&& body.acceleration == Some(Acceleration { value: Vec3::zero() })
    &&& body.rotation == Some(Rotation { x: 0, y: 0, z: 0 })
    &&& body.collider.radius == SAUCER_RADIUS
    &&& body.collider.colliding_entities@.len() == 0
    &&& body.health == Some(Health { value: SAUCER_HEALTH })
    &&& body.collision_damage == Some(CollisionDamage { amount: SAUCER_COLLISION_DAMAGE })
    &&& body.shield is None
    &&& body.shield_hit_cooldown is None
    &&& body.shield_controller is None
    &&& !body.shield_request
    &&& body.explosion is None
}

/// A new saucer at `translation`.
pub fn saucer_body(translation: Vec3) -> (body: Body)
    ensures
        is_saucer(body, translation),
{
    let mut body = Body::new(Faction::Saucer, translation, SAUCER_RADIUS);
    body.velocity = Some(
        Velocity::new(Vec3::new(SAUCER_STARTING_SPEED, 0, -SAUCER_STARTING_SPEED)),
    );
    body.acceleration = Some(Acceleration::new(Vec3::new(0, 0, 0)));
    body.rotation = Some(Rotation::new(0, 0, 0));
    body.health = Some(Health::new(SAUCER_HEALTH));
    body.collision_damage = Some(CollisionDamage::new(SAUCER_COLLISION_DAMAGE));
    body
}

/// Adds one saucer for every event, all at one random place, away from the
/// craft if the draws allow it. Without exactly one craft nothing happens.
pub fn handle_saucer_spawn_event(world: &mut World, events: &Vec<SaucerSpawnEvent>)
    requires
        old(world).wf(),
        old(world).next_entity + events.len() <= u64::MAX,
    ensures
        final(world).wf(),
        match only(old(world).bodies@, Faction::Spaceship) {
            None => *final(world) == *old(world),
            Some(_) => {
                &&& final(world).next_entity == old(world).next_entity + events.len()
                &&& final(world).bodies.len() == old(world).bodies.len() + events.len()
                &&& final(world).bodies@.take(old(world).bodies.len() as int) == old(
                    world,
                ).bodies@
                &&& exists|translation: Vec3|
                    in_spawn_range(translation) && drawn_spawn_point(
                        translation,
                        craft_place(old(world).bodies@),
                        SAUCER_SAFE_DISTANCE,
                    ) && forall|k: int|
                        old(world).bodies.len() <= k < final(world).bodies.len() ==> #[trigger] is_saucer(
                            final(world).bodies[k],
                            translation,
                        ) && final(world).bodies[k].entity == old(world).next_entity + (k - old(
                            world,
                        ).bodies.len())
            },
        },
{
    let ship: Vec3 = match world.single(Faction::Spaceship) {
        Some(s) => world.bodies[s].transform.translation,
        None => {
            return ;
        },
    };
    assert(ship == craft_place(old(world).bodies@));
    let translation = random_spawn_point(&ship, SAUCER_SAFE_DISTANCE);
    let n = events.len();
    let ghost start = old(world).bodies.len() as int;
    let mut i: usize = 0;
    while i < n
        invariant
            n == events.len(),
            0 <= i <= n,
            start == old(world).bodies.len(),
            world.wf(),
            old(world).next_entity + n <= u64::MAX,
            only(old(world).bodies@, Faction::Spaceship) is Some,
            in_spawn_range(translation),
            drawn_spawn_point(translation, craft_place(old(world).bodies@), SAUCER_SAFE_DISTANCE),
            world.next_entity == old(world).next_entity + i,
            world.bodies.len() == start + i,
            world.bodies@.take(start) == old(world).bodies@,
            forall|k: int|
                start <= k < world.bodies.len() ==> #[trigger] is_saucer(
                    world.bodies[k],
                    translation,
                ) && world.bodies[k].entity == old(world).next_entity + (k - start),
        decreases n - i,
    {
        let ghost before = world.bodies@;
        world.spawn(saucer_body(translation));
        proof {
            assert(world.bodies@.take(start) =~= before.take(start));
            assert forall|k: int| start <= k < world.bodies.len() implies #[trigger] is_saucer(
                world.bodies[k],
                translation,
            ) && world.bodies[k].entity == old(world).next_entity + (k - start) by {
                if k < before.len() {
                    assert(world.bodies[k] == before[k]);
                    assert(is_saucer(before[k], translation));
                }
            }
        }
        i = i + 1;
    }
}

/// Whether a saucer keeps away from this body.
pub open spec fn obstacle(body: Body) -> bool {
    body.faction == Faction::Asteroid || body.faction == Faction::Saucer
}

/// Place of the obstacle nearest to body `i` among the first `n` bodies, the
/// body itself left out; of several equally near, the first.
pub open spec fn nearest_among(bodies: Seq<Body>, i: int, n: int) -> Option<int>
    decreases n,
{
    if n <= 0 {
        None
    } else {
        let inner = nearest_among(bodies, i, n - 1);
        let here = bodies[i].transform.translation;
        if obstacle(bodies[n - 1]) && bodies[n - 1].entity != bodies[i].entity && (inner is None
            || bodies[n - 1].transform.translation.distance_squared(here)
            < bodies[inner->0].transform.translation.distance_squared(here)) {
            Some(n - 1)
        } else {
            inner
        }
    }
}

/// The push that the obstacle at `obstacle` gives to something at `here`:
/// the obstacle's position, divided by its distance and multiplied by
/// `REPULSION`. An obstacle at no distance gives none.
pub open spec fn repulsion(obstacle: Vec3, here: Vec3) -> Vec3 {
    let distance = floor_sqrt(obstacle.distance_squared(here));
    if distance == 0 {
        Vec3::zero()
    } else {
        obstacle.scaled(REPULSION, distance as u64)
    }
}

/// The acceleration that steers the saucer at place `i`: a pull toward the
/// middle of the field, less the push of the nearest obstacle, less its own
/// velocity when it is faster than `SAUCER_SPEED_LIMIT`.
pub open spec fn steering(bodies: Seq<Body>, i: int) -> Vec3 {
    let here = bodies[i].transform.translation;
    let pull = Vec3::zero().minus(here).with_length(CENTER_PULL);
    let push = match nearest_among(bodies, i, bodies.len() as int) {
        Some(k) => repulsion(bodies[k].transform.translation, here),
        None => Vec3::zero(),
    };
    let velocity = bodies[i].velocity->0.value;
    if velocity.length_squared() > SAUCER_SPEED_LIMIT * SAUCER_SPEED_LIMIT {
        pull.minus(push).minus(velocity)
    } else {
        pull.minus(push)
    }
}

/// The body at place `i` after steering: a saucer that has a velocity and an
/// acceleration gets the acceleration that steers it; anything else stays.
pub open spec fn steered(bodies: Seq<Body>, i: int) -> Body {
    if bodies[i].faction == Faction::Saucer && bodies[i].velocity is Some
        && bodies[i].acceleration is Some {
        Body { acceleration: Some(Acceleration { value: steering(bodies, i) }), ..bodies[i] }
    } else {
        bodies[i]
    }
}

/// Whether the bodies of `after` are those of `before` but for their
/// accelerations.
pub open spec fn same_but_acceleration(before: Seq<Body>, after: Seq<Body>) -> bool {
    &&& after.len() == before.len()
    &&& forall|k: int|
        0 <= k < before.len() ==> #[trigger] after[k] == (Body {
            acceleration: after[k].acceleration,
            ..before[k]
        })
}

/// Which obstacle is nearest does not depend on the accelerations that
/// bodies have.
proof fn lemma_nearest_ignores_acceleration(before: Seq<Body>, after: Seq<Body>, i: int, n: int)
    requires
        same_but_acceleration(before, after),
        0 <= i < before.len(),
        0 <= n <= before.len(),
    ensures
        nearest_among(after, i, n) == nearest_among(before, i, n),
    decreases n,
{
    if n > 0 {
        lemma_nearest_ignores_acceleration(before, after, i, n - 1);
        lemma_nearest_in_range(before, i, n - 1);
        assert(after[i] == (Body { acceleration: after[i].acceleration, ..before[i] }));
        assert(after[n - 1] == (Body { acceleration: after[n - 1].acceleration, ..before[n - 1] }));
        let inner = nearest_among(before, i, n - 1);
        if inner is Some {
            assert(after[inner->0] == (Body {
                acceleration: after[inner->0].acceleration,
                ..before[inner->0]
            }));
        }
    }
}

/// The nearest obstacle among the first `n` bodies stands among them.
pub proof fn lemma_nearest_in_range(bodies: Seq<Body>, i: int, n: int)
    ensures
        nearest_among(bodies, i, n) matches Some(k) ==> 0 <= k < n,
    decreases n,
{
    if n > 0 {
        lemma_nearest_in_range(bodies, i, n - 1);
    }
}

/// Place of the obstacle nearest to body `i`.
fn nearest_obstacle(bodies: &Vec<Body>, i: usize) -> (nearest: Option<usize>)
    requires
        i < bodies.len(),
    ensures
        match nearest {
            Some(k) => nearest_among(bodies@, i as int, bodies.len() as int) == Some(k as int)
                && k < bodies.len(),
            None => nearest_among(bodies@, i as int, bodies.len() as int) is None,
        },
{
    let n = bodies.len();
    let mut nearest: Option<usize> = None;
    let mut least: u128 = 0;
    let mut k: usize = 0;
    while k < n
        invariant
            n == bodies.len(),
            i < n,
            0 <= k <= n,
            match nearest {
                Some(found) => nearest_among(bodies@, i as int, k as int) == Some(found as int)
                    && found < k && least
                    == bodies[found as int].transform.translation.distance_squared(
                    bodies[i as int].transform.translation,
                ),
                None => nearest_among(bodies@, i as int, k as int) is None,
            },
        decreases n - k,
    {
        let blocks = match bodies[k].faction {
            Faction::Asteroid => true,
            Faction::Saucer => true,
            _ => false,
        };
        if blocks && bodies[k].entity != bodies[i].entity {
            let gap = bodies[k].transform.translation.distance_squared_to(
                &bodies[i].transform.translation,
            );
            if nearest.is_none() || gap < least {
                nearest = Some(k);
                least = gap;
            }
        }
        k = k + 1;
    }
    nearest
}

/// The acceleration that steers the saucer at place `i`.
fn steer(bodies: &Vec<Body>, i: usize, velocity: &Vec3) -> (value: Vec3)
    requires
        i < bodies.len(),
        bodies[i as int].velocity == Some(Velocity { value: *velocity }),
    ensures
        value == steering(bodies@, i as int),
{
    let here = bodies[i].transform.translation;
    let pull = Vec3::new(0, 0, 0).saturating_sub(&here).resized(CENTER_PULL);
    let push = match nearest_obstacle(bodies, i) {
        Some(k) => {
            let there = bodies[k].transform.translation;
            let distance = isqrt(there.distance_squared_to(&here));
            if distance == 0 {
                Vec3::new(0, 0, 0)
            } else {
                there.scale(REPULSION, distance)
            }
        },
        None => Vec3::new(0, 0, 0),
    };
    assert(SAUCER_SPEED_LIMIT * SAUCER_SPEED_LIMIT == 400_000_000) by (nonlinear_arith)
        requires
            SAUCER_SPEED_LIMIT == 20_000,
    ;
    let limit: u128 = (SAUCER_SPEED_LIMIT as u128) * (SAUCER_SPEED_LIMIT as u128);
    if velocity.squared_length() > limit {
        pull.saturating_sub(&push).saturating_sub(velocity)
    } else {
        pull.saturating_sub(&push)
    }
}

/// Steers every saucer: toward the middle of the field, away from the
/// nearest asteroid or other saucer, and braking when too fast.
pub fn saucer_movement(world: &mut World)
    requires
        old(world).wf(),
    ensures
        final(world).wf(),
        final(world).next_entity == old(world).next_entity,
        final(world).bodies.len() == old(world).bodies.len(),
        forall|i: int|
            0 <= i < old(world).bodies.len() ==> #[trigger] final(world).bodies[i] == steered(
                old(world).bodies@,
                i,
            ),
{
    let n = world.bodies.len();
    let mut i: usize = 0;
    while i < n
        invariant
            n == world.bodies.len(),
            n == old(world).bodies.len(),
            0 <= i <= n,
            world.next_entity == old(world).next_entity,
            same_but_acceleration(old(world).bodies@, world.bodies@),
            forall|k: int|
                0 <= k < i ==> #[trigger] world.bodies[k] == steered(old(world).bodies@, k),
            forall|k: int| i <= k < n ==> world.bodies[k] == old(world).bodies[k],
        decreases n - i,
    {
        let ghost before = world.bodies@;
        let saucer = match world.bodies[i].faction {
            Faction::Saucer => true,
            _ => false,
        };
        match (world.bodies[i].velocity, world.bodies[i].acceleration) {
            (Some(velocity), Some(_)) => {
                if saucer {
                    let value = steer(&world.bodies, i, &velocity.value);
                    proof {
                        lemma_nearest_ignores_acceleration(
                            old(world).bodies@,
                            before,
                            i as int,
                            n as int,
                        );
                        lemma_nearest_in_range(old(world).bodies@, i as int, n as int);
                        let near = nearest_among(old(world).bodies@, i as int, n as int);
                        if near is Some {
                            assert(before[near->0] == (Body {
                                acceleration: before[near->0].acceleration,
                                ..old(world).bodies[near->0]
                            }));
                        }
                        assert(before[i as int] == old(world).bodies[i as int]);
                    }
                    world.bodies[i].acceleration = Some(Acceleration { value });
                    proof {
                        assert forall|k: int| 0 <= k < n implies #[trigger] world.bodies@[k] == (
                        Body { acceleration: world.bodies@[k].acceleration, ..old(world).bodies[k] })
                        by {
                            assert(before[k] == (Body {
                                acceleration: before[k].acceleration,
                                ..old(world).bodies[k]
                            }));
                        }
                    }
                }
            },
            _ => {},
        }
        i = i + 1;
    }
    proof {
        assert forall|k: int| 0 <= k < n implies (#[trigger] world.bodies@[k]).entity == old(
            world,
        ).bodies[k].entity by {
            assert(world.bodies[k] == steered(old(world).bodies@, k));
        }
        lemma_same_names_wf(*old(world), *world);
    }
}

/// Whether `body` is a missile that a saucer at `saucer` fires at `target`:
/// a little way toward the target, flying straight at it.
pub open spec fn is_saucer_missile(body: Body, saucer: Vec3, target: Vec3) -> bool {
    &&& body.faction == Faction::SaucerMissile
    &&& body.transform.translation == saucer.plus(
        target.minus(saucer).with_length(SAUCER_MISSILE_FORWARD_SPAWN_SCALAR),
    )
    &&& body.velocity == Some(
        Velocity { value: target.minus(saucer).with_length(SAUCER_MISSILE_SPEED) },
    )
    &&& body.acceleration == Some(Acceleration { value: Vec3::zero() })
    &&& body.rotation == Some(Rotation { x: 0, y: 0, z: 0 })
    &&& body.collider.radius == SAUCER_MISSILE_RADIUS
    &&& body.collider.colliding_entities@.len() == 0
    &&& body.health == Some(Health { value: SAUCER_MISSILE_HEALTH })
    &&& body.collision_damage == Some(
        CollisionDamage { amount: SAUCER_MISSILE_COLLISION_DAMAGE },
    )
    &&& body.shield is None
    &&& body.shield_hit_cooldown is None
    &&& body.shield_controller is None
    &&& !body.shield_request
    &&& body.explosion is None
}

/// Whether a saucer that drew `chance` takes its chance to shoot: one draw
/// in `SAUCER_MISSILE_RATE` does.
pub open spec fn takes_chance(chance: i32) -> bool {
    chance == SAUCER_MISSILE_RATE / 2
}

/// Whether a saucer that drew `chance` shoots.
pub fn shoots(chance: i32) -> (fire: bool)
    ensures
        fire == takes_chance(chance),
{
    chance == SAUCER_MISSILE_RATE / 2
}

/// The missile that a saucer at `saucer` fires at `target`.
pub fn saucer_missile_body(saucer: &Vec3, target: &Vec3) -> (body: Body)
    ensures
        is_saucer_missile(body, *saucer, *target),
{
    let aim = target.saturating_sub(saucer);
    let translation = saucer.saturating_add(&aim.resized(SAUCER_MISSILE_FORWARD_SPAWN_SCALAR));
    let mut body = Body::new(Faction::SaucerMissile, translation, SAUCER_MISSILE_RADIUS);
    body.velocity = Some(Velocity::new(aim.resized(SAUCER_MISSILE_SPEED)));
    body.acceleration = Some(Acceleration::new(Vec3::new(0, 0, 0)));
    body.rotation = Some(Rotation::new(0, 0, 0));
    body.health = Some(Health::new(SAUCER_MISSILE_HEALTH));
    body.collision_damage = Some(CollisionDamage::new(SAUCER_MISSILE_COLLISION_DAMAGE));
    body
}

/// Places of the saucers among the first `n` bodies that take their chance,
/// where the body at place `i` drew `chances[i]`.
pub open spec fn firing_among(bodies: Seq<Body>, chances: Seq<i32>, n: int) -> Seq<int>
    decreases n,
{
    if n <= 0 {
        Seq::empty()
    } else if bodies[n - 1].faction == Faction::Saucer && takes_chance(chances[n - 1]) {
        firing_among(bodies, chances, n - 1).push(n - 1)
    } else {
        firing_among(bodies, chances, n - 1)
    }
}

/// The saucers that fire stand among the bodies, and no more fire than there
/// are bodies.
pub proof fn lemma_firing_among(bodies: Seq<Body>, chances: Seq<i32>, n: int)
    requires
        0 <= n <= bodies.len(),
    ensures
        firing_among(bodies, chances, n).len() <= n,
        forall|k: int|
            0 <= k < firing_among(bodies, chances, n).len() ==> 0 <= #[trigger] firing_among(
                bodies,
                chances,
                n,
            )[k] < n && bodies[firing_among(bodies, chances, n)[k]].faction == Faction::Saucer,
    decreases n,
{
    if n > 0 {
        lemma_firing_among(bodies, chances, n - 1);
    }
}

/// Whether `after` is `before` with one missile added at the end for every
/// saucer that takes its chance, in the order of the saucers, each fired at
/// `target` from where its saucer is.
pub open spec fn volley(before: World, after: World, target: Vec3, chances: Seq<i32>) -> bool {
    let firing = firing_among(before.bodies@, chances, before.bodies.len() as int);
    &&& chances.len() == before.bodies.len()
    &&& after.bodies.len() == before.bodies.len() + firing.len()
    &&& after.next_entity == before.next_entity + firing.len()
    &&& after.bodies@.take(before.bodies.len() as int) == before.bodies@
    &&& forall|k: int|
        0 <= k < firing.len() ==> is_saucer_missile(
            #[trigger] after.bodies[before.bodies.len() + k],
            before.bodies[firing[k]].transform.translation,
            target,
        ) && after.bodies[before.bodies.len() + k].entity == before.next_entity + k
}

/// Lets every saucer that takes its chance fire a missile at `target`; the
/// body at place `i` has drawn `chances[i]`. Returns one sound for every
/// missile.
pub fn fire_saucer_missiles(world: &mut World, target: &Vec3, chances: &Vec<i32>) -> (sounds: Vec<
    SaucerShootingSoundEvent,
>)
    requires
        old(world).wf(),
        chances.len() == old(world).bodies.len(),
        old(world).next_entity + old(world).bodies.len() <= u64::MAX,
    ensures
        final(world).wf(),
        volley(*old(world), *final(world), *target, chances@),
        sounds@.len() == final(world).bodies.len() - old(world).bodies.len(),
{
    let mut sounds: Vec<SaucerShootingSoundEvent> = Vec::new();
    let n = world.bodies.len();
    let ghost start = n as int;
    let ghost olds = old(world).bodies@;
    let mut i: usize = 0;
    assert(world.bodies@.take(start) =~= olds);
    while i < n
        invariant
            0 <= i <= n,
            n == old(world).bodies.len(),
            n == chances.len(),
            start == n,
            olds == old(world).bodies@,
            world.wf(),
            old(world).next_entity + n <= u64::MAX,
            sounds@.len() == firing_among(olds, chances@, i as int).len(),
            sounds@.len() <= i,
            world.bodies.len() == n + sounds@.len(),
            world.next_entity == old(world).next_entity + sounds@.len(),
            world.bodies@.take(start) == olds,
            forall|k: int|
                0 <= k < sounds@.len() ==> is_saucer_missile(
                    #[trigger] world.bodies[start + k],
                    olds[firing_among(olds, chances@, i as int)[k]].transform.translation,
                    *target,
                ) && world.bodies[start + k].entity == old(world).next_entity + k,
        decreases n - i,
    {
        assert(world.bodies[i as int] == world.bodies@.take(start)[i as int]);
        let saucer = match world.bodies[i].faction {
            Faction::Saucer => true,
            _ => false,
        };
        if saucer && shoots(chances[i]) {
            let ghost before = world.bodies@;
            let ghost fired = firing_among(olds, chances@, i as int);
            let missile = saucer_missile_body(&world.bodies[i].transform.translation, target);
            world.spawn(missile);
            sounds.push(SaucerShootingSoundEvent);
            proof {
                assert(world.bodies@.take(start) =~= before.take(start));
                assert(firing_among(olds, chances@, i + 1) == fired.push(i as int));
                assert forall|k: int| 0 <= k < sounds@.len() implies is_saucer_missile(
                    #[trigger] world.bodies[start + k],
                    olds[firing_among(olds, chances@, i + 1)[k]].transform.translation,
                    *target,
                ) && world.bodies[start + k].entity == old(world).next_entity + k by {
                    if k < fired.len() {
                        assert(world.bodies[start + k] == before[start + k]);
                    }
                }
            }
        }
        i = i + 1;
    }
    sounds
}

/// Advances the timer that gives saucers their chances and, when it has
/// elapsed, lets every saucer draw a number below `SAUCER_MISSILE_RATE`: a
/// saucer that takes its chance fires a missile at the craft. Returns one sound
/// for every missile. Without exactly one craft nothing happens, not even to
/// the timer.
pub fn saucer_weapon_control(
    world: &mut World,
    rate_timer: &mut SaucerMissileRateTimer,
    delta: u64,
) -> (sounds: Vec<SaucerShootingSoundEvent>)
    requires
        old(world).wf(),
        old(world).next_entity + old(world).bodies.len() <= u64::MAX,
    ensures
        final(world).wf(),
        sounds@.len() == final(world).bodies.len() - old(world).bodies.len(),
        match only(old(world).bodies@, Faction::Spaceship) {
            None => {
                &&& *final(world) == *old(world)
                &&& *final(rate_timer) == *old(rate_timer)
            },
            Some(s) => {
                &&& final(rate_timer).timer == old(rate_timer).timer.ticked(delta)
                &&& if final(rate_timer).timer.finished {
                    exists|chances: Seq<i32>|
                        #[trigger] volley(
                            *old(world),
                            *final(world),
                            old(world).bodies[s].transform.translation,
                            chances,
                        ) && forall|i: int|
                            0 <= i < chances.len() ==> 0 <= #[trigger] chances[i]
                                < SAUCER_MISSILE_RATE
                } else {
                    *final(world) == *old(world)
                }
            },
        },
{
    let target: Vec3 = match world.single(Faction::Spaceship) {
        Some(s) => world.bodies[s].transform.translation,
        None => {
            return Vec::new();
        },
    };
    rate_timer.timer.tick(delta);
    if !rate_timer.timer.is_finished() {
        return Vec::new();
    }
    let n = world.bodies.len();
    let mut chances: Vec<i32> = Vec::new();
    let mut i: usize = 0;
    while i < n
        invariant
            0 <= i <= n,
            n == world.bodies.len(),
            chances.len() == i,
            forall|k: int| 0 <= k < i ==> 0 <= #[trigger] chances[k] < SAUCER_MISSILE_RATE,
        decreases n - i,
    {
        let saucer = match world.bodies[i].faction {
            Faction::Saucer => true,
            _ => false,
        };
        if saucer {
            chances.push(random_range(0, SAUCER_MISSILE_RATE));
        } else {
            chances.push(0);
        }
        i = i + 1;
    }
    let sounds = fire_saucer_missiles(world, &target, &chances);
    assert(volley(*old(world), *world, target, chances@));
    sounds
}

} // verus!
