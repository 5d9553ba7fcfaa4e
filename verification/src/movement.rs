//! Motion of bodies: integration of velocity and position, and what happens
//! at the edge of the play field.

use crate::components::{Faction, Transform};
use crate::fixed::{clamp_i32, saturate_i32};
use crate::random::random_range;
use crate::vector::Vec3;
use crate::world::{lemma_sifted_is_filter, Body, World};
use vstd::prelude::*;

verus! {

/// Speed and direction, per second.
#[derive(Clone, Copy, Debug, PartialEq, Eq, Structural)]
pub struct Velocity {
    pub value: Vec3,
}

/// Change of velocity, per second.
#[derive(Clone, Copy, Debug, PartialEq, Eq, Structural)]
pub struct Acceleration {
    pub value: Vec3,
}

/// Turning rates about the three axes, in thousandths of a radian per second.
#[derive(Clone, Copy, Debug, PartialEq, Eq, Structural)]
pub struct Rotation {
    pub x: i32,
    pub y: i32,
    pub z: i32,
}

impl Velocity {
    pub fn new(value: Vec3) -> (velocity: Velocity)
        ensures
            velocity.value == value,
    {
        Velocity { value }
    }
}

impl Acceleration {
    pub fn new(value: Vec3) -> (acceleration: Acceleration)
        ensures
            acceleration.value == value,
    {
        Acceleration { value }
    }
}

impl Rotation {
    /// Whether each rate lies in the half-open range from `min_range` to
    /// `max_range`.
    pub open spec fn within(self, min_range: int, max_range: int) -> bool {
        &&& min_range <= self.x < max_range
        &&& min_range <= self.y < max_range
        &&& min_range <= self.z < max_range
    }

    pub fn new(x: i32, y: i32, z: i32) -> (rotation: Rotation)
        ensures
            rotation == (Rotation { x, y, z }),
    {
        Rotation { x, y, z }
    }

    /// Three rates drawn at random from the half-open range from `min_range`
    /// to `max_range`.
    pub fn random(min_range: i32, max_range: i32) -> (rotation: Rotation)
        requires
            min_range < max_range,
        ensures
            rotation.within(min_range as int, max_range as int),
    {
        Rotation {
            x: random_range(min_range, max_range),
            y: random_range(min_range, max_range),
            z: random_range(min_range, max_range),
        }
    }
}

/// A corner of the visible part of the ground plane, as the camera gives it.
#[derive(Clone, Copy, Debug, PartialEq, Eq, Structural)]
pub struct Corner {
    pub x: i32,
    pub y: i32,
}

/// The visible play field: the least and greatest coordinate on each of the
/// two ground-plane axes.
#[derive(Clone, Copy, Debug, PartialEq, Eq, Structural)]
pub struct Bounds {
    pub min_x: i32,
    pub max_x: i32,
    pub min_z: i32,
    pub max_z: i32,
}

/// The smaller of two numbers.
pub open spec fn least(a: int, b: int) -> int {
    if a <= b {
        a
    } else {
        b
    }
}

/// The larger of two numbers.
pub open spec fn greatest(a: int, b: int) -> int {
    if a >= b {
        a
    } else {
        b
    }
}

/// A coordinate that left the interval from `min` to `max` comes back in at
/// the opposite edge, as far inside as it was outside.
pub open spec fn wrapped_axis(v: int, min: int, max: int) -> int {
    if v < min {
        clamp_i32(max - (min - v))
    } else if v > max {
        clamp_i32(min + (v - max))
    } else {
        v
    }
}

impl Bounds {
    /// The field that holds the origin and the first `n` corners.
    pub open spec fn covering(corners: Seq<Corner>, n: int) -> Bounds
        decreases n,
    {
        if n <= 0 {
            Bounds { min_x: 0, max_x: 0, min_z: 0, max_z: 0 }
        } else {
            let inner = Bounds::covering(corners, n - 1);
            let corner = corners[n - 1];
            Bounds {
                min_x: least(inner.min_x as int, corner.x as int) as i32,
                max_x: greatest(inner.max_x as int, corner.x as int) as i32,
                min_z: least(inner.min_z as int, corner.y as int) as i32,
                max_z: greatest(inner.max_z as int, corner.y as int) as i32,
            }
        }
    }

    /// Whether a point lies off the field on either ground-plane axis.
    pub open spec fn excludes(self, point: Vec3) -> bool {
        point.x < self.min_x || point.x > self.max_x || point.z < self.min_z || point.z
            > self.max_z
    }

    /// A point wrapped on both ground-plane axes, each on its own.
    pub open spec fn wrapped(self, point: Vec3) -> Vec3 {
        Vec3 {
            x: wrapped_axis(point.x as int, self.min_x as int, self.max_x as int) as i32,
            y: point.y,
            z: wrapped_axis(point.z as int, self.min_z as int, self.max_z as int) as i32,
        }
    }

    /// The smallest field that holds the origin and all the corners.
    pub fn from_corners(corners: &Vec<Corner>) -> (bounds: Bounds)
        ensures
            bounds == Bounds::covering(corners@, corners.len() as int),
    {
        let mut bounds = Bounds { min_x: 0, max_x: 0, min_z: 0, max_z: 0 };
        let n = corners.len();
        let mut i: usize = 0;
        while i < n
            invariant
                n == corners.len(),
                0 <= i <= n,
                bounds == Bounds::covering(corners@, i as int),
            decreases n - i,
        {
            let corner = corners[i];
            if bounds.min_x > corner.x {
                bounds.min_x = corner.x;
            }
            if bounds.max_x < corner.x {
                bounds.max_x = corner.x;
            }
            if bounds.min_z > corner.y {
                bounds.min_z = corner.y;
            }
            if bounds.max_z < corner.y {
                bounds.max_z = corner.y;
            }
            i = i + 1;
        }
        bounds
    }

    /// Whether a point lies off the field.
    pub fn is_outside(&self, point: &Vec3) -> (outside: bool)
        ensures
            outside == self.excludes(*point),
    {
        point.x < self.min_x || point.x > self.max_x || point.z < self.min_z || point.z
            > self.max_z
    }

    /// Wraps a point to the opposite edge on each axis on which it left the
    /// field.
    pub fn wrap(&self, point: &Vec3) -> (wrapped: Vec3)
        ensures
            wrapped == self.wrapped(*point),
    {
        Vec3 {
            x: wrap_axis(point.x, self.min_x, self.max_x),
            y: point.y,
            z: wrap_axis(point.z, self.min_z, self.max_z),
        }
    }
}

/// Wraps one coordinate.
pub fn wrap_axis(v: i32, min: i32, max: i32) -> (r: i32)
    ensures
        r == wrapped_axis(v as int, min as int, max as int),
{
    if v < min {
        saturate_i32(max as i128 - (min as i128 - v as i128))
    } else if v > max {
        saturate_i32(min as i128 + (v as i128 - max as i128))
    } else {
        v
    }
}

/// A coordinate that overshoots the upper edge by `d` comes back `d` inside
/// the lower edge, and the other way round.
pub proof fn lemma_wrap_keeps_overshoot(min: int, max: int, d: int)
    requires
        i32::MIN <= min <= max <= i32::MAX,
        d > 0,
    ensures
        max + d <= i32::MAX ==> wrapped_axis(max + d, min, max) == min + d,
        min - d >= i32::MIN ==> wrapped_axis(min - d, min, max) == max - d,
{
}

/// A body after its velocity took up its acceleration for `delta`
/// nanoseconds; a body without both stays as it is.
pub open spec fn accelerated(body: Body, delta: u64) -> Body {
    match (body.velocity, body.acceleration) {
        (Some(velocity), Some(acceleration)) => Body {
            velocity: Some(Velocity { value: velocity.value.advanced(acceleration.value, delta) }),
            ..body
        },
        _ => body,
    }
}

/// A body after it moved at its velocity for `delta` nanoseconds; a body
/// without velocity stays where it is.
pub open spec fn moved(body: Body, delta: u64) -> Body {
    match body.velocity {
        Some(velocity) => Body {
            transform: Transform {
                translation: body.transform.translation.advanced(velocity.value, delta),
            },
            ..body
        },
        None => body,
    }
}

/// A body of the given faction wrapped into the field; others stay.
pub open spec fn wrapped_body(body: Body, faction: Faction, bounds: Bounds) -> Body {
    if body.faction == faction {
        Body {
            transform: Transform { translation: bounds.wrapped(body.transform.translation) },
            ..body
        }
    } else {
        body
    }
}

/// Velocity takes up acceleration: every body that has both gets
/// `velocity + acceleration × delta`.
pub fn update_velocity(world: &mut World, delta: u64)
    requires
        old(world).wf(),
    ensures
        final(world).wf(),
        final(world).next_entity == old(world).next_entity,
        final(world).bodies.len() == old(world).bodies.len(),
        forall|i: int|
            0 <= i < old(world).bodies.len() ==> #[trigger] final(world).bodies[i] == accelerated(
                old(world).bodies[i],
                delta,
            ),
{
    let n = world.bodies.len();
    let mut i: usize = 0;
    while i < n
        invariant
            n == world.bodies.len(),
            n == old(world).bodies.len(),
            0 <= i <= n,
            world.next_entity == old(world).next_entity,
            forall|k: int|
                0 <= k < i ==> #[trigger] world.bodies[k] == accelerated(
                    old(world).bodies[k],
                    delta,
                ),
            forall|k: int| i <= k < n ==> world.bodies[k] == old(world).bodies[k],
        decreases n - i,
    {
        match (world.bodies[i].velocity, world.bodies[i].acceleration) {
            (Some(velocity), Some(acceleration)) => {
                let value = velocity.value.advance(&acceleration.value, delta);
                world.bodies[i].velocity = Some(Velocity { value });
            },
            _ => {},
        }
        i = i + 1;
    }
    proof {
        assert forall|a: int, b: int|
            0 <= a < n && 0 <= b < n && a != b implies world.bodies[a].entity
            != world.bodies[b].entity by {
            assert(world.bodies[a] == accelerated(old(world).bodies[a], delta));
            assert(world.bodies[b] == accelerated(old(world).bodies[b], delta));
        }
        assert forall|a: int| 0 <= a < n implies world.bodies[a].entity < world.next_entity by {
            assert(world.bodies[a] == accelerated(old(world).bodies[a], delta));
        }
    }
}

/// Position takes up velocity: every body that has a velocity gets
/// `position + velocity × delta`.
pub fn update_position(world: &mut World, delta: u64)
    requires
        old(world).wf(),
    ensures
        final(world).wf(),
        final(world).next_entity == old(world).next_entity,
        final(world).bodies.len() == old(world).bodies.len(),
        forall|i: int|
            0 <= i < old(world).bodies.len() ==> #[trigger] final(world).bodies[i] == moved(
                old(world).bodies[i],
                delta,
            ),
{
    let n = world.bodies.len();
    let mut i: usize = 0;
    while i < n
        invariant
            n == world.bodies.len(),
            n == old(world).bodies.len(),
            0 <= i <= n,
            world.next_entity == old(world).next_entity,
            forall|k: int|
                0 <= k < i ==> #[trigger] world.bodies[k] == moved(old(world).bodies[k], delta),
            forall|k: int| i <= k < n ==> world.bodies[k] == old(world).bodies[k],
        decreases n - i,
    {
        match world.bodies[i].velocity {
            Some(velocity) => {
                let translation = world.bodies[i].transform.translation.advance(
                    &velocity.value,
                    delta,
                );
                world.bodies[i].transform = Transform { translation };
            },
            None => {},
        }
        i = i + 1;
    }
    proof {
        assert forall|a: int, b: int|
            0 <= a < n && 0 <= b < n && a != b implies world.bodies[a].entity
            != world.bodies[b].entity by {
            assert(world.bodies[a] == moved(old(world).bodies[a], delta));
            assert(world.bodies[b] == moved(old(world).bodies[b], delta));
        }
        assert forall|a: int| 0 <= a < n implies world.bodies[a].entity < world.next_entity by {
            assert(world.bodies[a] == moved(old(world).bodies[a], delta));
        }
    }
}

/// One step of explicit Euler integration: velocities take up acceleration,
/// then positions take up the new velocities.
pub fn integrate(world: &mut World, delta: u64)
    requires
        old(world).wf(),
    ensures
        final(world).wf(),
        final(world).next_entity == old(world).next_entity,
        final(world).bodies.len() == old(world).bodies.len(),
        forall|i: int|
            0 <= i < old(world).bodies.len() ==> #[trigger] final(world).bodies[i] == moved(
                accelerated(old(world).bodies[i], delta),
                delta,
            ),
{
    update_velocity(world, delta);
    let ghost middle = world.bodies@;
    update_position(world, delta);
    assert forall|i: int| 0 <= i < old(world).bodies.len() implies #[trigger] world.bodies[i]
        == moved(accelerated(old(world).bodies[i], delta), delta) by {
        assert(middle[i] == accelerated(old(world).bodies[i], delta));
    }
}

/// Brings every body of a wrapping faction that left the field back in at the
/// opposite edge.
pub fn wrap_position(world: &mut World, faction: Faction, bounds: &Bounds)
    requires
        old(world).wf(),
    ensures
        final(world).wf(),
        final(world).next_entity == old(world).next_entity,
        final(world).bodies.len() == old(world).bodies.len(),
        forall|i: int|
            0 <= i < old(world).bodies.len() ==> #[trigger] final(world).bodies[i] == wrapped_body(
                old(world).bodies[i],
                faction,
                *bounds,
            ),
{
    let n = world.bodies.len();
    let mut i: usize = 0;
    while i < n
        invariant
            n == world.bodies.len(),
            n == old(world).bodies.len(),
            0 <= i <= n,
            world.next_entity == old(world).next_entity,
            forall|k: int|
                0 <= k < i ==> #[trigger] world.bodies[k] == wrapped_body(
                    old(world).bodies[k],
                    faction,
                    *bounds,
                ),
            forall|k: int| i <= k < n ==> world.bodies[k] == old(world).bodies[k],
        decreases n - i,
    {
        if world.bodies[i].faction == faction {
            let translation = bounds.wrap(&world.bodies[i].transform.translation);
            world.bodies[i].transform = Transform { translation };
        }
        i = i + 1;
    }
    proof {
        assert forall|a: int, b: int|
            0 <= a < n && 0 <= b < n && a != b implies world.bodies[a].entity
            != world.bodies[b].entity by {
            assert(world.bodies[a] == wrapped_body(old(world).bodies[a], faction, *bounds));
            assert(world.bodies[b] == wrapped_body(old(world).bodies[b], faction, *bounds));
        }
        assert forall|a: int| 0 <= a < n implies world.bodies[a].entity < world.next_entity by {
            assert(world.bodies[a] == wrapped_body(old(world).bodies[a], faction, *bounds));
        }
    }
}

/// Whether a body is a projectile that has left the field.
pub open spec fn stray_missile(body: Body, bounds: Bounds) -> bool {
    (body.faction == Faction::SpaceshipMissile || body.faction == Faction::SaucerMissile)
        && bounds.excludes(body.transform.translation)
}

/// Removes every projectile that has left the field; projectiles do not
/// wrap.
pub fn despawn_missiles(world: &mut World, bounds: &Bounds)
    requires
        old(world).wf(),
    ensures
        final(world).wf(),
        final(world).next_entity == old(world).next_entity,
        final(world).bodies@ == old(world).bodies@.filter(
            |body: Body| !stray_missile(body, *bounds),
        ),
{
    let n = world.bodies.len();
    let mut doomed: Vec<bool> = Vec::new();
    let mut i: usize = 0;
    while i < n
        invariant
            n == world.bodies.len(),
            0 <= i <= n,
            *world == *old(world),
            doomed.len() == i,
            forall|k: int| 0 <= k < i ==> doomed[k] == stray_missile(world.bodies[k], *bounds),
        decreases n - i,
    {
        let missile = match world.bodies[i].faction {
            Faction::SpaceshipMissile => true,
            Faction::SaucerMissile => true,
            _ => false,
        };
        doomed.push(missile && bounds.is_outside(&world.bodies[i].transform.translation));
        i = i + 1;
    }
    proof {
        lemma_sifted_is_filter(
            world.bodies@,
            doomed@,
            |body: Body| !stray_missile(body, *bounds),
        );
    }
    world.remove_where(&doomed);
}

} // verus!
