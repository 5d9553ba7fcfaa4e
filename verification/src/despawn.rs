//! The sweep that removes entities: those too far out, those that are dead,
//! and, when the game is over, everything that has health.

use crate::world::{lemma_sifted_is_filter, Body, World};
use vstd::prelude::*;

verus! {

/// Distance from the origin beyond which nothing is kept, in thousandths.
pub const DESPAWN_DISTANCE: u32 = 100_000;

/// Whether a body is farther from the origin than `DESPAWN_DISTANCE`.
pub open spec fn far_away(body: Body) -> bool {
    body.transform.translation.length_squared() > DESPAWN_DISTANCE * DESPAWN_DISTANCE
}

/// Whether a body is dead and due to the sweep. A shield is not: it leaves
/// through its own state machine.
pub open spec fn dead(body: Body) -> bool {
    body.shield is None && (body.health matches Some(health) && health.value <= 0)
}

/// Whether a body has health.
pub open spec fn damageable(body: Body) -> bool {
    body.health is Some
}

/// Filtering twice keeps what passes both conditions.
pub proof fn lemma_filter_twice(
    bodies: Seq<Body>,
    first: spec_fn(Body) -> bool,
    second: spec_fn(Body) -> bool,
)
    ensures
        bodies.filter(first).filter(second) == bodies.filter(
            |body: Body| first(body) && second(body),
        ),
    decreases bodies.len(),
{
    reveal(Seq::filter);
    if bodies.len() > 0 {
        lemma_filter_twice(bodies.drop_last(), first, second);
        if first(bodies.last()) {
            let kept = bodies.drop_last().filter(first);
            assert(bodies.filter(first) == kept.push(bodies.last()));
            assert(kept.push(bodies.last()).drop_last() == kept);
        }
    }
}

/// The sweeps do not get in each other's way: far-away bodies and dead
/// bodies can be removed in either order, and the same bodies are left.
pub proof fn lemma_sweeps_commute(bodies: Seq<Body>)
    ensures
        bodies.filter(|body: Body| !far_away(body)).filter(|body: Body| !dead(body))
            == bodies.filter(|body: Body| !dead(body)).filter(|body: Body| !far_away(body)),
{
    let near = |body: Body| !far_away(body);
    let live = |body: Body| !dead(body);
    lemma_filter_twice(bodies, near, live);
    lemma_filter_twice(bodies, live, near);
    lemma_filter_same(
        bodies,
        |body: Body| near(body) && live(body),
        |body: Body| live(body) && near(body),
    );
}

/// Conditions that agree on every body filter alike.
pub proof fn lemma_filter_same(
    bodies: Seq<Body>,
    first: spec_fn(Body) -> bool,
    second: spec_fn(Body) -> bool,
)
    requires
        forall|body: Body| #[trigger] first(body) == second(body),
    ensures
        bodies.filter(first) == bodies.filter(second),
    decreases bodies.len(),
{
    reveal(Seq::filter);
    if bodies.len() > 0 {
        lemma_filter_same(bodies.drop_last(), first, second);
    }
}

/// Removes every body that is farther from the origin than
/// `DESPAWN_DISTANCE`, whatever its kind.
pub fn despawn_far_away_entities(world: &mut World)
    requires
        old(world).wf(),
    ensures
        final(world).wf(),
        final(world).next_entity == old(world).next_entity,
        final(world).bodies@ == old(world).bodies@.filter(|body: Body| !far_away(body)),
{
    let n = world.bodies.len();
    let mut doomed: Vec<bool> = Vec::new();
    let mut i: usize = 0;
    while i < n
        invariant
            n == world.bodies.len(),
            0 <= i <= n,
            *world == *old(world),
            doomed.len() == i,
            forall|k: int| 0 <= k < i ==> doomed[k] == far_away(world.bodies[k]),
        decreases n - i,
    {
        assert(DESPAWN_DISTANCE * DESPAWN_DISTANCE == 10_000_000_000) by (nonlinear_arith)
            requires
                DESPAWN_DISTANCE == 100_000,
        ;
        let reach: u128 = (DESPAWN_DISTANCE as u128) * (DESPAWN_DISTANCE as u128);
        doomed.push(world.bodies[i].transform.translation.squared_length() > reach);
        i = i + 1;
    }
    proof {
        lemma_sifted_is_filter(world.bodies@, doomed@, |body: Body| !far_away(body));
    }
    world.remove_where(&doomed);
}

/// Removes every body whose health is zero or less, shields excepted.
pub fn despawn_dead_entities(world: &mut World)
    requires
        old(world).wf(),
    ensures
        final(world).wf(),
        final(world).next_entity == old(world).next_entity,
        final(world).bodies@ == old(world).bodies@.filter(|body: Body| !dead(body)),
{
    let n = world.bodies.len();
    let mut doomed: Vec<bool> = Vec::new();
    let mut i: usize = 0;
    while i < n
        invariant
            n == world.bodies.len(),
            0 <= i <= n,
            *world == *old(world),
            doomed.len() == i,
            forall|k: int| 0 <= k < i ==> doomed[k] == dead(world.bodies[k]),
        decreases n - i,
    {
        let gone = match (world.bodies[i].shield, world.bodies[i].health) {
            (None, Some(health)) => health.is_dead(),
            _ => false,
        };
        doomed.push(gone);
        i = i + 1;
    }
    proof {
        lemma_sifted_is_filter(world.bodies@, doomed@, |body: Body| !dead(body));
    }
    world.remove_where(&doomed);
}

/// Removes every body that has health, dead or not: the wipe at the end of a
/// game.
pub fn despawn_all_entities(world: &mut World)
    requires
        old(world).wf(),
    ensures
        final(world).wf(),
        final(world).next_entity == old(world).next_entity,
        final(world).bodies@ == old(world).bodies@.filter(|body: Body| !damageable(body)),
{
    let n = world.bodies.len();
    let mut doomed: Vec<bool> = Vec::new();
    let mut i: usize = 0;
    while i < n
        invariant
            n == world.bodies.len(),
            0 <= i <= n,
            *world == *old(world),
            doomed.len() == i,
            forall|k: int| 0 <= k < i ==> doomed[k] == damageable(world.bodies[k]),
        decreases n - i,
    {
        doomed.push(world.bodies[i].health.is_some());
        i = i + 1;
    }
    proof {
        lemma_sifted_is_filter(world.bodies@, doomed@, |body: Body| !damageable(body));
    }
    world.remove_where(&doomed);
}

} // verus!
