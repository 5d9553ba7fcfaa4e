//! The score: one point for every asteroid that is destroyed.

use crate::app_globals::AppGlobals;
use crate::components::Faction;
use crate::world::{Body, World};
use vstd::prelude::*;

verus! {

/// Whether a body is an asteroid whose health is used up.
pub open spec fn fallen(body: Body) -> bool {
    body.faction == Faction::Asteroid && (body.health matches Some(health) && health.value <= 0)
}

/// Number of fallen asteroids among the first `n` bodies.
pub open spec fn fallen_among(bodies: Seq<Body>, n: int) -> nat
    decreases n,
{
    if n <= 0 {
        0
    } else {
        fallen_among(bodies, n - 1) + if fallen(bodies[n - 1]) {
            1nat
        } else {
            0nat
        }
    }
}

/// Number of asteroids whose health is used up. They stay in the arena until
/// the next sweep.
pub fn count_fallen(world: &World) -> (fallen: usize)
    ensures
        fallen == fallen_among(world.bodies@, world.bodies.len() as int),
{
    let n = world.bodies.len();
    let mut fallen: usize = 0;
    let mut i: usize = 0;
    while i < n
        invariant
            n == world.bodies.len(),
            0 <= i <= n,
            fallen <= i,
            fallen == fallen_among(world.bodies@, i as int),
        decreases n - i,
    {
        let asteroid = match world.bodies[i].faction {
            Faction::Asteroid => true,
            _ => false,
        };
        let spent = match world.bodies[i].health {
            Some(health) => health.is_dead(),
            None => false,
        };
        if asteroid && spent {
            fallen = fallen + 1;
        }
        i = i + 1;
    }
    fallen
}

/// Adds one point to the score for every asteroid whose health is used up.
pub fn update_score(world: &World, app_globals: &mut AppGlobals)
    requires
        old(app_globals).score + fallen_among(world.bodies@, world.bodies.len() as int)
            <= i32::MAX,
    ensures
        *final(app_globals) == (AppGlobals {
            score: (old(app_globals).score + fallen_among(
                world.bodies@,
                world.bodies.len() as int,
            )) as i32,
            ..*old(app_globals)
        }),
{
    let fallen = count_fallen(world);
    app_globals.score = (app_globals.score as i64 + fallen as i64) as i32;
}

} // verus!
