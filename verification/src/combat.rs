//! Resolution of collision events: an ordered chain of rules decides for each
//! event whether the victim loses health, and what is announced.

use crate::asteroids::AsteroidCollisionAnimationEvent;
use crate::collision_detection::CollisionEvent;
use crate::components::{Entity, Faction, ShieldHitCooldown, ShieldState};
use crate::health::Health;
use crate::sound_fx::AsteroidCollisionSoundEvent;
use crate::shield::hit_cooldown_ticked;
use crate::timer::{lemma_unfinished_before_duration, total};
use crate::world::{
    find, lemma_find, lemma_same_names_find, never_healed, same_names, Body, World,
};
use vstd::prelude::*;

verus! {

/// How the rule chain ended for one event. The first rule that applies
/// decides.
#[derive(Clone, Copy, Debug, PartialEq, Eq, Structural)]
pub enum Verdict {
    /// The victim is a craft whose shield is up: the hull is immune.
    ShieldedCraft,
    /// The victim is a shield and the source is the craft that owns it.
    OwnShield,
    /// The victim was hit too recently.
    CoolingDown,
    /// The victim is gone or has no health to lose.
    NoHealth,
    /// The source is gone or deals no damage.
    Harmless,
    /// The victim lost health.
    Hit,
}

/// What resolving one event gave.
#[derive(Clone, Copy, Debug, PartialEq, Eq, Structural)]
pub struct Outcome {
    pub verdict: Verdict,
    pub animation: Option<AsteroidCollisionAnimationEvent>,
}

/// The notifications that a run of events gave rise to, in order.
#[derive(Debug, PartialEq, Eq)]
pub struct CollisionEffects {
    pub sounds: Vec<AsteroidCollisionSoundEvent>,
    pub animations: Vec<AsteroidCollisionAnimationEvent>,
}

/// First rule: a craft with an active shield.
pub open spec fn shielded_craft(victim: Body) -> bool {
    victim.faction == Faction::Spaceship && (victim.shield_controller matches Some(controller)
        && controller.state == ShieldState::Active)
}

/// Second rule: a shield touched by its own craft.
pub open spec fn own_shield(victim: Body, source: Entity) -> bool {
    victim.shield matches Some(shield) && shield.ship == source
}

/// Third rule: a hit-cooldown timer that has not run out.
pub open spec fn cooling_down(victim: Body) -> bool {
    victim.shield_hit_cooldown matches Some(cooldown) && !cooldown.timer.finished
}

/// Damage that the body named `source` deals, if it is alive and deals any.
pub open spec fn damage_of(bodies: Seq<Body>, source: Entity) -> Option<u32> {
    match find(bodies, source) {
        Some(s) => match bodies[s].collision_damage {
            Some(damage) => Some(damage.amount),
            None => None,
        },
        None => None,
    }
}

/// The verdict of the rule chain on one event.
pub open spec fn verdict(bodies: Seq<Body>, event: CollisionEvent) -> Verdict {
    match find(bodies, event.entity) {
        None => Verdict::NoHealth,
        Some(v) => {
            if shielded_craft(bodies[v]) {
                Verdict::ShieldedCraft
            } else if own_shield(bodies[v], event.collided_entity) {
                Verdict::OwnShield
            } else if cooling_down(bodies[v]) {
                Verdict::CoolingDown
            } else if bodies[v].health is None {
                Verdict::NoHealth
            } else if damage_of(bodies, event.collided_entity) is None {
                Verdict::Harmless
            } else {
                Verdict::Hit
            }
        },
    }
}

/// Whether the chain got past its third rule, which starts a fresh cooldown
/// window on a victim that has a hit-cooldown timer.
pub open spec fn opens_window(verdict: Verdict) -> bool {
    verdict == Verdict::NoHealth || verdict == Verdict::Harmless || verdict == Verdict::Hit
}

/// The hit-cooldown timer set back to zero, where there is one.
pub open spec fn window_restarted(cooldown: Option<ShieldHitCooldown>) -> Option<
    ShieldHitCooldown,
> {
    match cooldown {
        Some(c) => Some(ShieldHitCooldown { timer: c.timer.restarted() }),
        None => None,
    }
}

/// The victim after an event with the given verdict and damage.
pub open spec fn struck(victim: Body, verdict: Verdict, damage: int) -> Body {
    if !opens_window(verdict) {
        victim
    } else if verdict == Verdict::Hit {
        Body {
            shield_hit_cooldown: window_restarted(victim.shield_hit_cooldown),
            health: Some(victim.health->0.reduced(damage)),
            ..victim
        }
    } else {
        Body { shield_hit_cooldown: window_restarted(victim.shield_hit_cooldown), ..victim }
    }
}

/// The bodies after one event.
pub open spec fn resolved(bodies: Seq<Body>, event: CollisionEvent) -> Seq<Body> {
    match find(bodies, event.entity) {
        None => bodies,
        Some(v) => bodies.update(
            v,
            struck(
                bodies[v],
                verdict(bodies, event),
                match damage_of(bodies, event.collided_entity) {
                    Some(amount) => amount as int,
                    None => 0,
                },
            ),
        ),
    }
}

/// The animation that one event asks for: only where a craft or one of its
/// missiles was hit by something that has both a velocity and an acceleration.
pub open spec fn animation_for(bodies: Seq<Body>, event: CollisionEvent) -> Option<
    AsteroidCollisionAnimationEvent,
> {
    if verdict(bodies, event) != Verdict::Hit {
        None
    } else {
        let victim = bodies[find(bodies, event.entity)->0];
        let source = bodies[find(bodies, event.collided_entity)->0];
        if (victim.faction == Faction::Spaceship || victim.faction == Faction::SpaceshipMissile)
            && source.velocity is Some && source.acceleration is Some {
            Some(
                AsteroidCollisionAnimationEvent {
                    xform: victim.transform,
                    velocity: source.velocity->0,
                    acceleration: source.acceleration->0,
                },
            )
        } else {
            None
        }
    }
}

/// The bodies after a run of events, each resolved on what the ones before it
/// left.
pub open spec fn resolved_all(bodies: Seq<Body>, events: Seq<CollisionEvent>) -> Seq<Body>
    decreases events.len(),
{
    if events.len() == 0 {
        bodies
    } else {
        resolved_all(resolved(bodies, events[0]), events.drop_first())
    }
}

/// Number of events in a run that took health from their victim.
pub open spec fn hits_in(bodies: Seq<Body>, events: Seq<CollisionEvent>) -> nat
    decreases events.len(),
{
    if events.len() == 0 {
        0
    } else {
        (if verdict(bodies, events[0]) == Verdict::Hit {
            1nat
        } else {
            0nat
        }) + hits_in(resolved(bodies, events[0]), events.drop_first())
    }
}

/// The animations that a run of events asks for, in order.
pub open spec fn animations_in(bodies: Seq<Body>, events: Seq<CollisionEvent>) -> Seq<
    AsteroidCollisionAnimationEvent,
>
    decreases events.len(),
{
    if events.len() == 0 {
        Seq::empty()
    } else {
        (match animation_for(bodies, events[0]) {
            Some(animation) => seq![animation],
            None => Seq::empty(),
        }) + animations_in(resolved(bodies, events[0]), events.drop_first())
    }
}

/// Resolving an event heals nothing.
pub proof fn lemma_resolved_never_heals(bodies: Seq<Body>, event: CollisionEvent)
    ensures
        never_healed(bodies, resolved(bodies, event)),
{
    lemma_find(bodies, event.entity);
}

/// Resolving a run of events heals nothing.
pub proof fn lemma_resolved_all_never_heals(bodies: Seq<Body>, events: Seq<CollisionEvent>)
    ensures
        never_healed(bodies, resolved_all(bodies, events)),
    decreases events.len(),
{
    if events.len() > 0 {
        lemma_resolved_never_heals(bodies, events[0]);
        lemma_resolved_all_never_heals(resolved(bodies, events[0]), events.drop_first());
        let middle = resolved(bodies, events[0]);
        let last = resolved_all(bodies, events);
        assert forall|i: int| 0 <= i < bodies.len() implies {
            &&& (#[trigger] last[i]).entity == bodies[i].entity
            &&& last[i].faction == bodies[i].faction
            &&& last[i].collider.radius == bodies[i].collider.radius
            &&& last[i].health is Some <==> bodies[i].health is Some
            &&& last[i].health is Some ==> last[i].health->0.value <= bodies[i].health->0.value
        } by {
            assert(middle[i].entity == bodies[i].entity);
        }
    }
}

/// An event against a craft whose shield is up changes nothing at all.
pub proof fn lemma_shielded_craft_unharmed(bodies: Seq<Body>, event: CollisionEvent)
    requires
        find(bodies, event.entity) matches Some(v) && shielded_craft(bodies[v]),
    ensures
        verdict(bodies, event) == Verdict::ShieldedCraft,
        resolved(bodies, event) == bodies,
{
    lemma_find(bodies, event.entity);
    assert(resolved(bodies, event) =~= bodies);
}

/// A craft never hurts its own shield.
pub proof fn lemma_own_shield_unharmed(bodies: Seq<Body>, event: CollisionEvent)
    requires
        find(bodies, event.entity) matches Some(v) && own_shield(bodies[v], event.collided_entity),
    ensures
        verdict(bodies, event) == Verdict::ShieldedCraft || verdict(bodies, event)
            == Verdict::OwnShield,
        resolved(bodies, event) == bodies,
{
    lemma_find(bodies, event.entity);
    assert(resolved(bodies, event) =~= bodies);
}

/// The bodies after every hit-cooldown timer ran for `delta` nanoseconds.
pub open spec fn cooled(bodies: Seq<Body>, delta: u64) -> Seq<Body> {
    Seq::new(bodies.len(), |i: int| hit_cooldown_ticked(bodies[i], delta))
}

/// The bodies after every hit-cooldown timer ran for each entry of `deltas`.
pub open spec fn cooled_through(bodies: Seq<Body>, deltas: Seq<u64>) -> Seq<Body>
    decreases deltas.len(),
{
    if deltas.len() == 0 {
        bodies
    } else {
        cooled_through(cooled(bodies, deltas[0]), deltas.drop_first())
    }
}

/// Running the hit-cooldown timers changes nothing but those timers, and
/// each of them as its own steps say.
pub proof fn lemma_cooled_through(bodies: Seq<Body>, deltas: Seq<u64>, v: int)
    requires
        0 <= v < bodies.len(),
    ensures
        same_names(bodies, cooled_through(bodies, deltas)),
        cooled_through(bodies, deltas)[v] == (Body {
            shield_hit_cooldown: cooled_through(bodies, deltas)[v].shield_hit_cooldown,
            ..bodies[v]
        }),
        bodies[v].shield_hit_cooldown matches Some(cooldown) ==> cooled_through(
            bodies,
            deltas,
        )[v].shield_hit_cooldown == Some(
            ShieldHitCooldown { timer: cooldown.timer.ticked_through(deltas) },
        ),
    decreases deltas.len(),
{
    if deltas.len() > 0 {
        let next = cooled(bodies, deltas[0]);
        lemma_cooled_through(next, deltas.drop_first(), v);
        let last = cooled_through(bodies, deltas);
        assert forall|i: int| 0 <= i < bodies.len() implies (#[trigger] last[i]).entity
            == bodies[i].entity by {
            lemma_cooled_through(next, deltas.drop_first(), i);
            assert(next[i].entity == bodies[i].entity);
        }
    }
}

/// After an event restarted the hit-cooldown timer of its victim, no event
/// against that victim changes anything until the timer's steps add up to its
/// duration.
pub proof fn lemma_cooldown_window(
    bodies: Seq<Body>,
    first: CollisionEvent,
    deltas: Seq<u64>,
    second: CollisionEvent,
)
    requires
        find(bodies, first.entity) matches Some(v) && (bodies[v].shield_hit_cooldown matches Some(
            cooldown,
        ) && total(deltas) < cooldown.timer.duration),
        opens_window(verdict(bodies, first)),
        second.entity == first.entity,
    ensures
        !opens_window(verdict(cooled_through(resolved(bodies, first), deltas), second)),
        resolved(cooled_through(resolved(bodies, first), deltas), second) == cooled_through(
            resolved(bodies, first),
            deltas,
        ),
{
    let v = find(bodies, first.entity)->0;
    lemma_find(bodies, first.entity);
    let hit = resolved(bodies, first);
    let later = cooled_through(hit, deltas);
    lemma_resolved_never_heals(bodies, first);
    lemma_same_names_find(bodies, hit, first.entity);
    lemma_cooled_through(hit, deltas, v);
    lemma_same_names_find(hit, later, first.entity);
    lemma_find(later, second.entity);
    let timer = hit[v].shield_hit_cooldown->0.timer;
    lemma_unfinished_before_duration(timer, deltas);
    assert(cooling_down(later[v]));
    assert(resolved(later, second) =~= later);
}

/// Resolves one event: applies the rule chain to the victim and says how it
/// ended.
pub fn resolve_collision(world: &mut World, event: &CollisionEvent) -> (outcome: Outcome)
    requires
        old(world).wf(),
    ensures
        final(world).wf(),
        final(world).next_entity == old(world).next_entity,
        final(world).bodies@ == resolved(old(world).bodies@, *event),
        outcome.verdict == verdict(old(world).bodies@, *event),
        outcome.animation == animation_for(old(world).bodies@, *event),
{
    let found = world.index_of(event.entity);
    let v: usize = match found {
        Some(v) => v,
        None => {
            return Outcome { verdict: Verdict::NoHealth, animation: None };
        },
    };
    let craft = match world.bodies[v].faction {
        Faction::Spaceship => true,
        _ => false,
    };
    let shield_up = match world.bodies[v].shield_controller {
        Some(controller) => match controller.state {
            ShieldState::Active => true,
            _ => false,
        },
        None => false,
    };
    if craft && shield_up {
        assert(world.bodies@ =~= resolved(old(world).bodies@, *event));
        return Outcome { verdict: Verdict::ShieldedCraft, animation: None };
    }
    let owned = match world.bodies[v].shield {
        Some(shield) => shield.ship == event.collided_entity,
        None => false,
    };
    if owned {
        assert(world.bodies@ =~= resolved(old(world).bodies@, *event));
        return Outcome { verdict: Verdict::OwnShield, animation: None };
    }
    let source = world.index_of(event.collided_entity);
    let damage: Option<u32> = match source {
        Some(s) => match world.bodies[s].collision_damage {
            Some(damage) => Some(damage.amount),
            None => None,
        },
        None => None,
    };
    let debris: Option<AsteroidCollisionAnimationEvent> = match source {
        Some(s) => match (world.bodies[s].velocity, world.bodies[s].acceleration) {
            (Some(velocity), Some(acceleration)) => Some(
                AsteroidCollisionAnimationEvent::new(
                    &world.bodies[v].transform,
                    &velocity,
                    &acceleration,
                ),
            ),
            _ => None,
        },
        None => None,
    };
    let missile = match world.bodies[v].faction {
        Faction::SpaceshipMissile => true,
        _ => false,
    };
    match world.bodies[v].shield_hit_cooldown {
        Some(cooldown) => {
            if !cooldown.timer.is_finished() {
                assert(world.bodies@ =~= resolved(old(world).bodies@, *event));
                return Outcome { verdict: Verdict::CoolingDown, animation: None };
            }
            let mut timer = cooldown.timer;
            timer.reset();
            world.bodies[v].shield_hit_cooldown = Some(ShieldHitCooldown { timer });
        },
        None => {},
    }
    let mut health: Health = match world.bodies[v].health {
        Some(health) => health,
        None => {
            assert(world.bodies@ =~= resolved(old(world).bodies@, *event));
            return Outcome { verdict: Verdict::NoHealth, animation: None };
        },
    };
    let amount: u32 = match damage {
        Some(amount) => amount,
        None => {
            assert(world.bodies@ =~= resolved(old(world).bodies@, *event));
            return Outcome { verdict: Verdict::Harmless, animation: None };
        },
    };
    health.reduce(amount as u128);
    world.bodies[v].health = Some(health);
    assert(world.bodies@ =~= resolved(old(world).bodies@, *event));
    let animation = if craft || missile {
        debris
    } else {
        None
    };
    Outcome { verdict: Verdict::Hit, animation }
}

/// Resolves the events in order and gathers what they announce: one sound for
/// every event that took health, and the animations asked for.
pub fn handle_collision_event(world: &mut World, events: &Vec<CollisionEvent>) -> (effects:
    CollisionEffects)
    requires
        old(world).wf(),
    ensures
        final(world).wf(),
        final(world).next_entity == old(world).next_entity,
        final(world).bodies@ == resolved_all(old(world).bodies@, events@),
        effects.sounds@.len() == hits_in(old(world).bodies@, events@),
        effects.animations@ == animations_in(old(world).bodies@, events@),
        never_healed(old(world).bodies@, final(world).bodies@),
{
    let mut sounds: Vec<AsteroidCollisionSoundEvent> = Vec::new();
    let mut animations: Vec<AsteroidCollisionAnimationEvent> = Vec::new();
    let n = events.len();
    let mut i: usize = 0;
    assert(events@.skip(0) == events@);
    while i < n
        invariant
            n == events.len(),
            0 <= i <= n,
            world.wf(),
            world.next_entity == old(world).next_entity,
            resolved_all(old(world).bodies@, events@) == resolved_all(
                world.bodies@,
                events@.skip(i as int),
            ),
            hits_in(old(world).bodies@, events@) == sounds@.len() + hits_in(
                world.bodies@,
                events@.skip(i as int),
            ),
            animations_in(old(world).bodies@, events@) == animations@ + animations_in(
                world.bodies@,
                events@.skip(i as int),
            ),
        decreases n - i,
    {
        let ghost rest = events@.skip(i as int);
        proof {
            assert(rest[0] == events@[i as int]);
            assert(rest.drop_first() == events@.skip(i + 1));
        }
        let outcome = resolve_collision(world, &events[i]);
        match outcome.verdict {
            Verdict::Hit => {
                sounds.push(AsteroidCollisionSoundEvent);
            },
            _ => {},
        }
        let ghost before = animations@;
        match outcome.animation {
            Some(animation) => {
                animations.push(animation);
                assert(animations@ == before + seq![animation]);
            },
            None => {
                assert(animations@ == before + Seq::<AsteroidCollisionAnimationEvent>::empty());
            },
        }
        i = i + 1;
    }
    proof {
        assert(events@.skip(n as int).len() == 0);
        lemma_resolved_all_never_heals(old(world).bodies@, events@);
    }
    CollisionEffects { sounds, animations }
}

} // verus!
