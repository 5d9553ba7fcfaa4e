//! Notifications for whoever plays the sounds. Each one asks for one
//! playback.

use vstd::prelude::*;

verus! {

/// The craft fired a missile.
#[derive(Clone, Copy, Debug, PartialEq, Eq, Structural)]
pub struct ShootingSoundEvent;

/// A saucer fired a missile.
#[derive(Clone, Copy, Debug, PartialEq, Eq, Structural)]
pub struct SaucerShootingSoundEvent;

/// A contact took health from its victim.
#[derive(Clone, Copy, Debug, PartialEq, Eq, Structural)]
pub struct AsteroidCollisionSoundEvent;

} // verus!
