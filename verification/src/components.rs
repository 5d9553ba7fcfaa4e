//! Data attached to entities.

use crate::timer::Timer;
use crate::vector::Vec3;
use vstd::prelude::*;

verus! {

/// An opaque identifier of a simulation object.
pub type Entity = u64;

/// The kind of an entity. Entities of one faction never hurt each other.
#[derive(Clone, Copy, Debug, PartialEq, Eq, Structural)]
pub enum Faction {
    Spaceship,
    SpaceshipMissile,
    Asteroid,
    AsteroidDebris,
    Explosion,
    Saucer,
    SaucerMissile,
    Shield,
}

/// Where an entity is.
#[derive(Clone, Copy, Debug, PartialEq, Eq, Structural)]
pub struct Transform {
    pub translation: Vec3,
}

/// Marks a shield and names the craft that owns it.
#[derive(Clone, Copy, Debug, PartialEq, Eq, Structural)]
pub struct Shield {
    pub ship: Entity,
}

/// Timer that keeps a shield from being hurt again too soon.
#[derive(Clone, Copy, Debug, PartialEq, Eq, Structural)]
pub struct ShieldHitCooldown {
    pub timer: Timer,
}

/// Availability of a craft's shield.
#[derive(Clone, Copy, Debug, PartialEq, Eq, Structural)]
pub enum ShieldState {
    Ready,
    Active,
    Cooldown,
}

/// The shield state machine of one craft.
#[derive(Clone, Copy, Debug, PartialEq, Eq, Structural)]
pub struct ShieldController {
    pub state: ShieldState,
    pub cooldown: Timer,
}

/// An explosion and the number of frames it has been shown.
#[derive(Clone, Copy, Debug, PartialEq, Eq, Structural)]
pub struct Explosion {
    pub duration: i32,
}

} // verus!
