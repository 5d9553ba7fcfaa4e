//! The shield of the craft: a state machine with the states ready, active and
//! cooldown, and the shield entity that exists while it is active.

use crate::components::{
    Entity, Faction, Shield, ShieldController, ShieldHitCooldown, ShieldState,
};
use crate::fixed::{lemma_rate_over_bound, rate_over, rate_over_time, saturate_i64};
use crate::health::Health;
use crate::timer::{total, Timer, TimerMode};
use crate::vector::Vec3;
use crate::world::{
    lemma_same_names_wf, lemma_sifted_is_filter, never_healed, only, same_names, Body, World,
};
use vstd::prelude::*;

verus! {

/// Radius of a shield's collider: twice that of the craft.
pub const SHIELD_RADIUS: u32 = 5_000;

/// Health of a new shield.
pub const SHIELD_HP: i64 = 60_000;

/// Least time between two hits on a shield, in nanoseconds.
pub const SHIELD_HIT_COOLDOWN: u64 = 400_000_000;

/// Health that a shield loses per second whether it is hit or not.
pub const SHIELD_DECAY: u32 = 4_000;

/// Time after the loss of a shield before the next can be raised, in
/// nanoseconds.
pub const SHIELD_COOLDOWN: u64 = 4_000_000_000;

/// The shield of `ship` can be raised again.
#[derive(Clone, Copy, Debug, PartialEq, Eq, Structural)]
pub struct ShieldReadyEvent {
    pub ship: Entity,
}

impl ShieldController {
    /// The cooldown timer runs once, and it has not run out while the state is
    /// cooldown.
    pub open spec fn wf(self) -> bool {
        &&& self.cooldown.mode == TimerMode::Once
        &&& self.state == ShieldState::Cooldown ==> !self.cooldown.finished
    }

    /// The controller of a new craft: ready.
    pub open spec fn fresh() -> ShieldController {
        ShieldController {
            state: ShieldState::Ready,
            cooldown: Timer {
                duration: SHIELD_COOLDOWN,
                elapsed: SHIELD_COOLDOWN,
                mode: TimerMode::Once,
                finished: false,
                times_finished_this_tick: 0,
            },
        }
    }

    /// After a request to raise the shield: ready becomes active, the other
    /// states ignore it.
    pub open spec fn requested(self) -> ShieldController {
        if self.state == ShieldState::Ready {
            ShieldController { state: ShieldState::Active, ..self }
        } else {
            self
        }
    }

    /// After the shield died or was found missing: cooldown, timed from zero.
    pub open spec fn shield_lost(self) -> ShieldController {
        ShieldController { state: ShieldState::Cooldown, cooldown: self.cooldown.restarted() }
    }

    /// After `delta` nanoseconds: a cooldown that runs out gives ready; the
    /// other states do not change with time.
    pub open spec fn waited(self, delta: u64) -> ShieldController {
        if self.state != ShieldState::Cooldown {
            self
        } else {
            let cooldown = self.cooldown.ticked(delta);
            ShieldController {
                state: if cooldown.spec_just_finished() {
                    ShieldState::Ready
                } else {
                    ShieldState::Cooldown
                },
                cooldown,
            }
        }
    }

    /// After one wait for each entry of `deltas`, in order.
    pub open spec fn waited_through(self, deltas: Seq<u64>) -> ShieldController
        decreases deltas.len(),
    {
        if deltas.len() == 0 {
            self
        } else {
            self.waited(deltas[0]).waited_through(deltas.drop_first())
        }
    }

    /// The controller of a new craft.
    pub fn new() -> (controller: ShieldController)
        ensures
            controller == ShieldController::fresh(),
            controller.wf(),
    {
        let mut cooldown = Timer::new(SHIELD_COOLDOWN, TimerMode::Once);
        cooldown.set_elapsed(SHIELD_COOLDOWN);
        ShieldController { state: ShieldState::Ready, cooldown }
    }
}

/// Every transition leaves a well-formed controller well formed.
pub proof fn lemma_transitions_keep_wf(controller: ShieldController, delta: u64)
    requires
        controller.wf(),
    ensures
        controller.requested().wf(),
        controller.shield_lost().wf(),
        controller.waited(delta).wf(),
{
}

/// Without requests a ready controller stays ready.
pub proof fn lemma_ready_stays_ready(controller: ShieldController, deltas: Seq<u64>)
    requires
        controller.state == ShieldState::Ready,
    ensures
        controller.waited_through(deltas) == controller,
    decreases deltas.len(),
{
    if deltas.len() > 0 {
        lemma_ready_stays_ready(controller, deltas.drop_first());
    }
}

/// From cooldown: once the waits add up to what is left of the cooldown, the
/// controller is ready.
pub proof fn lemma_cooldown_returns_to_ready(controller: ShieldController, deltas: Seq<u64>)
    requires
        controller.wf(),
        controller.state == ShieldState::Cooldown,
        deltas.len() > 0,
        controller.cooldown.elapsed + total(deltas) >= controller.cooldown.duration,
    ensures
        controller.waited_through(deltas).state == ShieldState::Ready,
    decreases deltas.len(),
{
    let next = controller.waited(deltas[0]);
    let rest = deltas.drop_first();
    if next.state == ShieldState::Ready {
        lemma_ready_stays_ready(next, rest);
    } else {
        assert(next.cooldown.elapsed == controller.cooldown.elapsed + deltas[0]);
        if rest.len() == 0 {
            assert(total(rest) == 0);
        }
        lemma_cooldown_returns_to_ready(next, rest);
    }
}

/// From the loss of the shield: waits that add up to the cooldown duration
/// bring the controller back to ready.
pub proof fn lemma_lost_shield_returns_to_ready(controller: ShieldController, deltas: Seq<u64>)
    requires
        controller.cooldown.mode == TimerMode::Once,
        deltas.len() > 0,
        total(deltas) >= controller.cooldown.duration,
    ensures
        controller.shield_lost().waited_through(deltas).state == ShieldState::Ready,
{
    lemma_cooldown_returns_to_ready(controller.shield_lost(), deltas);
}

/// Until the waits add up to what is left of the cooldown, the controller
/// stays in cooldown.
pub proof fn lemma_cooldown_lasts(controller: ShieldController, deltas: Seq<u64>)
    requires
        controller.wf(),
        controller.state == ShieldState::Cooldown,
        controller.cooldown.elapsed + total(deltas) < controller.cooldown.duration,
    ensures
        controller.waited_through(deltas).state == ShieldState::Cooldown,
    decreases deltas.len(),
{
    if deltas.len() > 0 {
        crate::timer::lemma_total_nonnegative(deltas.drop_first());
        lemma_cooldown_lasts(controller.waited(deltas[0]), deltas.drop_first());
    }
}

/// Place of the craft, if there is exactly one and it has a shield
/// controller.
pub open spec fn craft(bodies: Seq<Body>) -> Option<int> {
    match only(bodies, Faction::Spaceship) {
        Some(i) => if bodies[i].shield_controller is Some {
            Some(i)
        } else {
            None
        },
        None => None,
    }
}

/// Whether `body` is a fresh shield of `ship`: at the origin, at full health,
/// ready to be hit once its timer is ticked.
pub open spec fn is_shield_for(body: Body, ship: Entity) -> bool {
    &&& body.faction == Faction::Shield
    &&& body.transform.translation == Vec3::zero()
    &&& body.velocity is None
    &&& body.acceleration is None
    &&& body.rotation is None
    &&& body.collider.radius == SHIELD_RADIUS
    &&& body.collider.colliding_entities@.len() == 0
    &&& body.health == Some(Health { value: SHIELD_HP })
    &&& body.collision_damage is None
    &&& body.shield == Some(Shield { ship })
    &&& body.shield_hit_cooldown == Some(
        ShieldHitCooldown {
            timer: Timer {
                duration: SHIELD_HIT_COOLDOWN,
                elapsed: SHIELD_HIT_COOLDOWN,
                mode: TimerMode::Once,
                finished: false,
                times_finished_this_tick: 0,
            },
        },
    )
    &&& body.shield_controller is None
    &&& !body.shield_request
    &&& body.explosion is None
}

/// A fresh shield of `ship`.
pub fn shield_body(ship: Entity) -> (body: Body)
    ensures
        is_shield_for(body, ship),
{
    let mut timer = Timer::new(SHIELD_HIT_COOLDOWN, TimerMode::Once);
    timer.set_elapsed(SHIELD_HIT_COOLDOWN);
    let mut body = Body::new(Faction::Shield, Vec3::new(0, 0, 0), SHIELD_RADIUS);
    body.health = Some(Health::new(SHIELD_HP));
    body.shield = Some(Shield { ship });
    body.shield_hit_cooldown = Some(ShieldHitCooldown { timer });
    body
}

/// Place of the craft and its controller.
fn find_craft(world: &World) -> (found: Option<(usize, ShieldController)>)
    ensures
        match found {
            Some((i, controller)) => craft(world.bodies@) == Some(i as int) && i
                < world.bodies.len() && world.bodies[i as int].shield_controller == Some(
                controller,
            ),
            None => craft(world.bodies@) is None,
        },
{
    match world.single(Faction::Spaceship) {
        Some(i) => match world.bodies[i].shield_controller {
            Some(controller) => Some((i, controller)),
            None => None,
        },
        None => None,
    }
}

/// Notes the player's wish to raise the shield on the craft.
pub fn spaceship_shield_controls(world: &mut World, shield_pressed: bool)
    requires
        old(world).wf(),
    ensures
        final(world).wf(),
        final(world).next_entity == old(world).next_entity,
        match only(old(world).bodies@, Faction::Spaceship) {
            Some(i) => if shield_pressed {
                final(world).bodies@ == old(world).bodies@.update(
                    i,
                    Body { shield_request: true, ..old(world).bodies[i] },
                )
            } else {
                final(world).bodies@ == old(world).bodies@
            },
            None => final(world).bodies@ == old(world).bodies@,
        },
{
    match world.single(Faction::Spaceship) {
        Some(i) => {
            if shield_pressed {
                world.bodies[i].shield_request = true;
                proof {
                    assert(world.bodies@ =~= old(world).bodies@.update(
                        i as int,
                        Body { shield_request: true, ..old(world).bodies[i as int] },
                    ));
                    lemma_same_names_wf(*old(world), *world);
                }
            }
        },
        None => {},
    }
}

/// Acts on a request to raise the shield and clears it. A ready controller
/// becomes active and a shield entity is created for the craft; an active one
/// and one in cooldown ignore the request.
pub fn consume_shield_request(world: &mut World)
    requires
        old(world).wf(),
        old(world).next_entity < u64::MAX,
    ensures
        final(world).wf(),
        match craft(old(world).bodies@) {
            Some(i) => if old(world).bodies[i].shield_request {
                let controller = old(world).bodies[i].shield_controller->0;
                &&& final(world).bodies@.take(old(world).bodies.len() as int) == old(
                    world,
                ).bodies@.update(
                    i,
                    Body {
                        shield_request: false,
                        shield_controller: Some(controller.requested()),
                        ..old(world).bodies[i]
                    },
                )
                &&& if controller.state == ShieldState::Ready {
                    &&& final(world).bodies.len() == old(world).bodies.len() + 1
                    &&& final(world).next_entity == old(world).next_entity + 1
                    &&& final(world).bodies@.last().entity == old(world).next_entity
                    &&& is_shield_for(final(world).bodies@.last(), old(world).bodies[i].entity)
                } else {
                    &&& final(world).bodies.len() == old(world).bodies.len()
                    &&& final(world).next_entity == old(world).next_entity
                }
            } else {
                *final(world) == *old(world)
            },
            None => *final(world) == *old(world),
        },
{
    let (i, controller) = match find_craft(world) {
        Some(found) => found,
        None => {
            return ;
        },
    };
    if !world.bodies[i].shield_request {
        return ;
    }
    world.bodies[i].shield_request = false;
    let ghost cleared = old(world).bodies@.update(
        i as int,
        Body {
            shield_request: false,
            shield_controller: Some(controller.requested()),
            ..old(world).bodies[i as int]
        },
    );
    match controller.state {
        ShieldState::Ready => {
            world.bodies[i].shield_controller = Some(
                ShieldController { state: ShieldState::Active, cooldown: controller.cooldown },
            );
            proof {
                assert(world.bodies@ =~= cleared);
                lemma_same_names_wf(*old(world), *world);
            }
            let ship = world.bodies[i].entity;
            let shield = shield_body(ship);
            world.spawn(shield);
            proof {
                assert(world.bodies@.take(old(world).bodies.len() as int) =~= cleared);
            }
        },
        _ => {
            proof {
                assert(world.bodies@ =~= cleared);
                assert(world.bodies@.take(old(world).bodies.len() as int) =~= cleared);
                lemma_same_names_wf(*old(world), *world);
            }
        },
    }
}

/// A shield of the body `ship` is put where that body is; anything else
/// stays.
pub open spec fn following(body: Body, ship: Body) -> Body {
    if body.shield matches Some(shield) && shield.ship == ship.entity {
        Body { transform: ship.transform, ..body }
    } else {
        body
    }
}

/// Keeps every shield of the craft on top of the craft.
pub fn shield_follow_ship(world: &mut World)
    requires
        old(world).wf(),
    ensures
        final(world).wf(),
        final(world).next_entity == old(world).next_entity,
        final(world).bodies.len() == old(world).bodies.len(),
        match only(old(world).bodies@, Faction::Spaceship) {
            Some(s) => forall|i: int|
                0 <= i < old(world).bodies.len() ==> #[trigger] final(world).bodies[i]
                    == following(old(world).bodies[i], old(world).bodies[s]),
            None => final(world).bodies@ == old(world).bodies@,
        },
{
    let s = match world.single(Faction::Spaceship) {
        Some(s) => s,
        None => {
            return ;
        },
    };
    let ship = world.bodies[s].entity;
    let transform = world.bodies[s].transform;
    let n = world.bodies.len();
    let mut i: usize = 0;
    while i < n
        invariant
            n == world.bodies.len(),
            n == old(world).bodies.len(),
            0 <= i <= n,
            s < n,
            ship == old(world).bodies[s as int].entity,
            transform == old(world).bodies[s as int].transform,
            world.next_entity == old(world).next_entity,
            forall|k: int|
                0 <= k < i ==> #[trigger] world.bodies[k] == following(
                    old(world).bodies[k],
                    old(world).bodies[s as int],
                ),
            forall|k: int| i <= k < n ==> world.bodies[k] == old(world).bodies[k],
        decreases n - i,
    {
        let owned = match world.bodies[i].shield {
            Some(shield) => shield.ship == ship,
            None => false,
        };
        if owned {
            world.bodies[i].transform = transform;
        }
        i = i + 1;
    }
    proof {
        assert forall|k: int| 0 <= k < n implies (#[trigger] world.bodies@[k]).entity == old(
            world,
        ).bodies[k].entity by {
            assert(world.bodies[k] == following(old(world).bodies[k], old(world).bodies[s as int]));
        }
        lemma_same_names_wf(*old(world), *world);
    }
}

/// A body after its hit-cooldown timer, if it has one, ran for `delta`
/// nanoseconds.
pub open spec fn hit_cooldown_ticked(body: Body, delta: u64) -> Body {
    match body.shield_hit_cooldown {
        Some(cooldown) => Body {
            shield_hit_cooldown: Some(ShieldHitCooldown { timer: cooldown.timer.ticked(delta) }),
            ..body
        },
        None => body,
    }
}

/// Advances every hit-cooldown timer by the frame's time.
pub fn tick_shield_hit_cooldowns(world: &mut World, delta: u64)
    requires
        old(world).wf(),
    ensures
        final(world).wf(),
        final(world).next_entity == old(world).next_entity,
        final(world).bodies.len() == old(world).bodies.len(),
        forall|i: int|
            0 <= i < old(world).bodies.len() ==> #[trigger] final(world).bodies[i]
                == hit_cooldown_ticked(old(world).bodies[i], delta),
{
    let n = world.bodies.len();
    let mut i: usize = 0;
    while i < n
        invariant
            n == world.bodies.len(),
            n == old(world).bodies.len(),
            0 <= i <= n,
            world.next_entity == old(world).next_entity,
            forall|k: int|
                0 <= k < i ==> #[trigger] world.bodies[k] == hit_cooldown_ticked(
                    old(world).bodies[k],
                    delta,
                ),
            forall|k: int| i <= k < n ==> world.bodies[k] == old(world).bodies[k],
        decreases n - i,
    {
        match world.bodies[i].shield_hit_cooldown {
            Some(cooldown) => {
                let mut timer = cooldown.timer;
                timer.tick(delta);
                world.bodies[i].shield_hit_cooldown = Some(ShieldHitCooldown { timer });
            },
            None => {},
        }
        i = i + 1;
    }
    proof {
        assert forall|k: int| 0 <= k < n implies (#[trigger] world.bodies@[k]).entity == old(
            world,
        ).bodies[k].entity by {
            assert(world.bodies[k] == hit_cooldown_ticked(old(world).bodies[k], delta));
        }
        lemma_same_names_wf(*old(world), *world);
    }
}

/// Health of a shield after `delta` nanoseconds of decay: it loses
/// `SHIELD_DECAY` per second and stops at zero.
pub open spec fn decayed_health(health: Health, delta: u64) -> Health {
    if health.value > 0 {
        let loss = rate_over(SHIELD_DECAY as int, delta as int);
        Health {
            value: if loss >= health.value {
                0
            } else {
                (health.value - loss) as i64
            },
        }
    } else {
        health
    }
}

/// A shield after `delta` nanoseconds of decay; anything else stays.
pub open spec fn decayed(body: Body, delta: u64) -> Body {
    match (body.shield, body.health) {
        (Some(_), Some(health)) => Body { health: Some(decayed_health(health, delta)), ..body },
        _ => body,
    }
}

/// Decay never raises health and never takes it below zero.
pub proof fn lemma_decay_bounds(health: Health, delta: u64)
    ensures
        decayed_health(health, delta).value <= health.value,
        health.value >= 0 ==> decayed_health(health, delta).value >= 0,
        rate_over(SHIELD_DECAY as int, delta as int) >= health.value ==> decayed_health(
            health,
            delta,
        ).value <= 0,
{
    lemma_rate_over_bound(SHIELD_DECAY as int, delta as int);
    assert(rate_over(SHIELD_DECAY as int, delta as int) >= 0) by {
        assert(SHIELD_DECAY * delta >= 0) by (nonlinear_arith)
            requires
                delta >= 0,
                SHIELD_DECAY == 4_000,
        ;
    }
}

/// Health of a shield after decaying for each entry of `deltas` in turn.
pub open spec fn decayed_through(health: Health, deltas: Seq<u64>) -> Health
    decreases deltas.len(),
{
    if deltas.len() == 0 {
        health
    } else {
        decayed_through(decayed_health(health, deltas[0]), deltas.drop_first())
    }
}

/// What decay takes in all over the steps `deltas`, each step rounded on its
/// own.
pub open spec fn total_decay(deltas: Seq<u64>) -> int
    decreases deltas.len(),
{
    if deltas.len() == 0 {
        0
    } else {
        rate_over(SHIELD_DECAY as int, deltas[0] as int) + total_decay(deltas.drop_first())
    }
}

/// A shield lives no longer than its health allows: once decay has taken in
/// all as much as the shield had, its health is used up, hit or not.
pub proof fn lemma_decay_ends(health: Health, deltas: Seq<u64>)
    requires
        total_decay(deltas) >= health.value,
    ensures
        decayed_through(health, deltas).value <= 0,
    decreases deltas.len(),
{
    if deltas.len() > 0 {
        lemma_decay_bounds(health, deltas[0]);
        let next = decayed_health(health, deltas[0]);
        if health.value <= 0 {
            lemma_spent_stays_spent(next, deltas.drop_first());
        } else if rate_over(SHIELD_DECAY as int, deltas[0] as int) >= health.value {
            lemma_spent_stays_spent(next, deltas.drop_first());
        } else {
            lemma_decay_ends(next, deltas.drop_first());
        }
    }
}

/// Health that is used up stays used up under decay.
pub proof fn lemma_spent_stays_spent(health: Health, deltas: Seq<u64>)
    requires
        health.value <= 0,
    ensures
        decayed_through(health, deltas) == health,
    decreases deltas.len(),
{
    if deltas.len() > 0 {
        lemma_spent_stays_spent(health, deltas.drop_first());
    }
}

/// The shield of one craft seen apart from the arena: the controller, and
/// the health of the shield entity if there is one.
pub struct ShieldCycle {
    pub controller: ShieldController,
    pub shield: Option<Health>,
}

impl ShieldCycle {
    /// The shield after one frame of `delta` nanoseconds in which nothing is
    /// requested and nothing hits: the shield decays; if that uses it up, it
    /// leaves and the controller goes into cooldown; an active controller
    /// without a shield goes into cooldown; the cooldown runs.
    pub open spec fn after_frame(self, delta: u64) -> ShieldCycle {
        let decayed = match self.shield {
            Some(health) => Some(decayed_health(health, delta)),
            None => None,
        };
        let died = decayed is Some && decayed->0.value <= 0;
        let shield = if died {
            None
        } else {
            decayed
        };
        let mourned = if died {
            self.controller.shield_lost()
        } else {
            self.controller
        };
        let reconciled = if mourned.state == ShieldState::Active && shield is None {
            mourned.shield_lost()
        } else {
            mourned
        };
        ShieldCycle { controller: reconciled.waited(delta), shield }
    }

    /// The shield after `n` such frames.
    pub open spec fn after_frames(self, delta: u64, n: nat) -> ShieldCycle
        decreases n,
    {
        if n == 0 {
            self
        } else {
            self.after_frame(delta).after_frames(delta, (n - 1) as nat)
        }
    }

    /// What is left of the shield entity: nothing if there is none, else one
    /// more than its health.
    pub open spec fn shield_left(self) -> int {
        match self.shield {
            Some(health) => if health.value > 0 {
                health.value + 1
            } else {
                1
            },
            None => 0,
        }
    }

    /// What is left of the cooldown; outside cooldown, more than any
    /// cooldown can have left.
    pub open spec fn cooldown_left(self) -> int {
        if self.controller.state == ShieldState::Cooldown {
            if self.controller.cooldown.elapsed < self.controller.cooldown.duration {
                self.controller.cooldown.duration - self.controller.cooldown.elapsed
            } else {
                0
            }
        } else {
            self.controller.cooldown.duration + 1
        }
    }
}

/// From any state the controller is ready again after finitely many frames,
/// if nothing is requested meanwhile, time moves, and, where a shield is up, a
/// frame is long enough for decay to take something from it. Returns a number
/// of frames that is enough.
pub proof fn lemma_shield_returns_to_ready(cycle: ShieldCycle, delta: u64) -> (frames: nat)
    requires
        cycle.controller.wf(),
        delta > 0,
        cycle.controller.state == ShieldState::Active && cycle.shield_left() > 1 ==> rate_over(
            SHIELD_DECAY as int,
            delta as int,
        ) >= 1,
    ensures
        cycle.after_frames(delta, frames).controller.state == ShieldState::Ready,
    decreases cycle.shield_left(), cycle.cooldown_left(),
{
    if cycle.controller.state == ShieldState::Ready {
        0
    } else {
        let next = cycle.after_frame(delta);
        if cycle.shield is Some {
            lemma_decay_bounds(cycle.shield->0, delta);
        }
        lemma_transitions_keep_wf(cycle.controller, delta);
        lemma_transitions_keep_wf(cycle.controller.shield_lost(), delta);
        lemma_transitions_keep_wf(cycle.controller.shield_lost().shield_lost(), delta);
        if next.controller.state == ShieldState::Ready {
            assert(next.after_frames(delta, 0) == next);
            1
        } else {
            let more = lemma_shield_returns_to_ready(next, delta);
            more + 1
        }
    }
}

/// Lets the health of every shield decay by the frame's time.
pub fn shield_decay_health(world: &mut World, delta: u64)
    requires
        old(world).wf(),
    ensures
        final(world).wf(),
        final(world).next_entity == old(world).next_entity,
        final(world).bodies.len() == old(world).bodies.len(),
        forall|i: int|
            0 <= i < old(world).bodies.len() ==> #[trigger] final(world).bodies[i] == decayed(
                old(world).bodies[i],
                delta,
            ),
        never_healed(old(world).bodies@, final(world).bodies@),
{
    let n = world.bodies.len();
    let mut i: usize = 0;
    while i < n
        invariant
            n == world.bodies.len(),
            n == old(world).bodies.len(),
            0 <= i <= n,
            world.next_entity == old(world).next_entity,
            forall|k: int|
                0 <= k < i ==> #[trigger] world.bodies[k] == decayed(old(world).bodies[k], delta),
            forall|k: int| i <= k < n ==> world.bodies[k] == old(world).bodies[k],
        decreases n - i,
    {
        match (world.bodies[i].shield, world.bodies[i].health) {
            (Some(_), Some(health)) => {
                if health.value > 0 {
                    let loss: i128 = rate_over_time(SHIELD_DECAY as i32, delta);
                    let value: i64 = if loss >= health.value as i128 {
                        0
                    } else {
                        proof {
                            lemma_decay_bounds(health, delta);
                        }
                        saturate_i64(health.value as i128 - loss)
                    };
                    world.bodies[i].health = Some(Health { value });
                }
            },
            _ => {},
        }
        i = i + 1;
    }
    proof {
        assert forall|k: int| 0 <= k < n implies (#[trigger] world.bodies@[k]).entity == old(
            world,
        ).bodies[k].entity by {
            assert(world.bodies[k] == decayed(old(world).bodies[k], delta));
        }
        lemma_same_names_wf(*old(world), *world);
        assert forall|k: int| 0 <= k < n implies {
            &&& (#[trigger] world.bodies@[k]).entity == old(world).bodies[k].entity
            &&& world.bodies[k].faction == old(world).bodies[k].faction
            &&& world.bodies[k].collider.radius == old(world).bodies[k].collider.radius
            &&& world.bodies[k].health is Some <==> old(world).bodies[k].health is Some
            &&& world.bodies[k].health is Some ==> world.bodies[k].health->0.value <= old(
                world,
            ).bodies[k].health->0.value
        } by {
            assert(world.bodies[k] == decayed(old(world).bodies[k], delta));
            if old(world).bodies[k].health is Some {
                lemma_decay_bounds(old(world).bodies[k].health->0, delta);
            }
        }
    }
}

/// Advances the cooldown of the craft's shield controller. Returns the
/// notification that the shield is ready when the cooldown ran out in this
/// step.
pub fn tick_shield_cooldown(world: &mut World, delta: u64) -> (ready: Option<ShieldReadyEvent>)
    requires
        old(world).wf(),
    ensures
        final(world).wf(),
        final(world).next_entity == old(world).next_entity,
        match craft(old(world).bodies@) {
            Some(i) => {
                let controller = old(world).bodies[i].shield_controller->0;
                &&& final(world).bodies@ == old(world).bodies@.update(
                    i,
                    Body {
                        shield_controller: Some(controller.waited(delta)),
                        ..old(world).bodies[i]
                    },
                )
                &&& ready == if controller.state == ShieldState::Cooldown && controller.waited(
                    delta,
                ).state == ShieldState::Ready {
                    Some(ShieldReadyEvent { ship: old(world).bodies[i].entity })
                } else {
                    None
                }
            },
            None => final(world).bodies@ == old(world).bodies@ && ready is None,
        },
{
    let (i, controller) = match find_craft(world) {
        Some(found) => found,
        None => {
            return None;
        },
    };
    match controller.state {
        ShieldState::Cooldown => {},
        _ => {
            assert(world.bodies@ =~= old(world).bodies@.update(
                i as int,
                Body {
                    shield_controller: Some(controller.waited(delta)),
                    ..old(world).bodies[i as int]
                },
            ));
            return None;
        },
    }
    let mut cooldown = controller.cooldown;
    cooldown.tick(delta);
    let finished = cooldown.just_finished();
    let state = if finished {
        ShieldState::Ready
    } else {
        ShieldState::Cooldown
    };
    world.bodies[i].shield_controller = Some(ShieldController { state, cooldown });
    proof {
        assert(world.bodies@ =~= old(world).bodies@.update(
            i as int,
            Body {
                shield_controller: Some(controller.waited(delta)),
                ..old(world).bodies[i as int]
            },
        ));
        lemma_same_names_wf(*old(world), *world);
    }
    if finished {
        Some(ShieldReadyEvent { ship: world.bodies[i].entity })
    } else {
        None
    }
}

/// Whether a body is a shield whose health is used up.
pub open spec fn dead_shield(body: Body) -> bool {
    body.shield is Some && (body.health matches Some(health) && health.value <= 0)
}

/// Whether one of the first `n` bodies is a dead shield of `ship`.
pub open spec fn lost_shield_among(bodies: Seq<Body>, ship: Entity, n: int) -> bool {
    exists|k: int|
        0 <= k < n && k < bodies.len() && dead_shield(#[trigger] bodies[k]) && bodies[k].shield->0.ship
            == ship
}

/// A craft that has a shield controller and lost a shield among the first
/// `n` bodies goes into cooldown; anything else stays.
pub open spec fn bereft(body: Body, bodies: Seq<Body>, n: int) -> Body {
    if body.faction == Faction::Spaceship && body.shield_controller is Some && lost_shield_among(
        bodies,
        body.entity,
        n,
    ) {
        Body { shield_controller: Some(body.shield_controller->0.shield_lost()), ..body }
    } else {
        body
    }
}

/// The bodies after every craft that lost a shield went into cooldown.
pub open spec fn mourned(bodies: Seq<Body>) -> Seq<Body> {
    Seq::new(bodies.len(), |i: int| bereft(bodies[i], bodies, bodies.len() as int))
}

/// Removes every shield whose health is used up and puts the controller of
/// the craft that owned it into cooldown, timed from zero.
pub fn shield_death_starts_cooldown(world: &mut World)
    requires
        old(world).wf(),
    ensures
        final(world).wf(),
        final(world).next_entity == old(world).next_entity,
        final(world).bodies@ == mourned(old(world).bodies@).filter(
            |body: Body| !dead_shield(body),
        ),
{
    let n = world.bodies.len();
    let mut doomed: Vec<bool> = Vec::new();
    let mut i: usize = 0;
    while i < n
        invariant
            n == world.bodies.len(),
            n == old(world).bodies.len(),
            0 <= i <= n,
            old(world).wf(),
            world.next_entity == old(world).next_entity,
            doomed.len() == i,
            forall|k: int| 0 <= k < i ==> doomed[k] == dead_shield(old(world).bodies[k]),
            forall|k: int|
                0 <= k < n ==> #[trigger] world.bodies[k] == bereft(
                    old(world).bodies[k],
                    old(world).bodies@,
                    i as int,
                ),
        decreases n - i,
    {
        let ghost before = world.bodies@;
        assert(world.bodies[i as int] == bereft(
            old(world).bodies[i as int],
            old(world).bodies@,
            i as int,
        ));
        let gone = match (world.bodies[i].shield, world.bodies[i].health) {
            (Some(_), Some(health)) => health.is_dead(),
            _ => false,
        };
        doomed.push(gone);
        if gone {
            let ship = match world.bodies[i].shield {
                Some(shield) => shield.ship,
                None => 0,
            };
            proof {
                assert(same_names(old(world).bodies@, world.bodies@)) by {
                    assert forall|k: int| 0 <= k < n implies (#[trigger] world.bodies@[k]).entity
                        == old(world).bodies[k].entity by {
                        assert(world.bodies[k] == bereft(
                            old(world).bodies[k],
                            old(world).bodies@,
                            i as int,
                        ));
                    }
                }
                crate::world::lemma_same_names_find(old(world).bodies@, world.bodies@, ship);
                crate::world::lemma_find(old(world).bodies@, ship);
            }
            match world.index_of(ship) {
                Some(s) => {
                    assert(world.bodies[s as int] == bereft(
                        old(world).bodies[s as int],
                        old(world).bodies@,
                        i as int,
                    ));
                    let craft = match world.bodies[s].faction {
                        Faction::Spaceship => true,
                        _ => false,
                    };
                    match world.bodies[s].shield_controller {
                        Some(controller) => {
                            if craft {
                                let mut cooldown = controller.cooldown;
                                cooldown.reset();
                                world.bodies[s].shield_controller = Some(
                                    ShieldController { state: ShieldState::Cooldown, cooldown },
                                );
                            }
                        },
                        None => {},
                    }
                    proof {
                        let olds = old(world).bodies@;
                        assert forall|k: int| 0 <= k < n implies #[trigger] world.bodies[k]
                            == bereft(olds[k], olds, i + 1) by {
                            assert(before[k] == bereft(olds[k], olds, i as int));
                            assert(dead_shield(olds[i as int]) && olds[i as int].shield->0.ship
                                == ship);
                            if k == s {
                                assert(olds[k].entity == ship);
                                assert(lost_shield_among(olds, olds[k].entity, i + 1));
                            } else {
                                assert(olds[k].entity != ship);
                                assert(world.bodies[k] == before[k]);
                                assert(lost_shield_among(olds, olds[k].entity, i + 1)
                                    == lost_shield_among(olds, olds[k].entity, i as int));
                            }
                        }
                    }
                },
                None => {
                    proof {
                        let olds = old(world).bodies@;
                        assert forall|k: int| 0 <= k < n implies #[trigger] world.bodies[k]
                            == bereft(olds[k], olds, i + 1) by {
                            assert(before[k] == bereft(olds[k], olds, i as int));
                            assert(olds[k].entity != ship);
                            assert(lost_shield_among(olds, olds[k].entity, i + 1)
                                == lost_shield_among(olds, olds[k].entity, i as int));
                        }
                    }
                },
            }
        } else {
            proof {
                let olds = old(world).bodies@;
                assert forall|k: int| 0 <= k < n implies #[trigger] world.bodies[k] == bereft(
                    olds[k],
                    olds,
                    i + 1,
                ) by {
                    assert(before[k] == bereft(olds[k], olds, i as int));
                    assert(!dead_shield(olds[i as int]));
                    assert(lost_shield_among(olds, olds[k].entity, i + 1) == lost_shield_among(
                        olds,
                        olds[k].entity,
                        i as int,
                    ));
                }
            }
        }
        i = i + 1;
    }
    proof {
        let olds = old(world).bodies@;
        assert(world.bodies@ =~= mourned(olds));
        assert forall|k: int| 0 <= k < n implies (#[trigger] world.bodies@[k]).entity
            == olds[k].entity by {
            assert(world.bodies[k] == bereft(olds[k], olds, n as int));
        }
        lemma_same_names_wf(*old(world), *world);
        assert forall|k: int| 0 <= k < n implies doomed@[k] == !!dead_shield(world.bodies@[k]) by {
            assert(world.bodies[k] == bereft(olds[k], olds, n as int));
        }
        lemma_sifted_is_filter(world.bodies@, doomed@, |body: Body| !dead_shield(body));
    }
    world.remove_where(&doomed);
}

/// Whether some body is a shield of `ship`.
pub open spec fn guarded(bodies: Seq<Body>, ship: Entity) -> bool {
    exists|k: int|
        0 <= k < bodies.len() && (#[trigger] bodies[k]).shield == Some(Shield { ship })
}

/// Safety net: a craft whose controller says active while no shield entity
/// names the craft goes into cooldown, timed from zero.
pub fn reconcile_shield(world: &mut World)
    requires
        old(world).wf(),
    ensures
        final(world).wf(),
        final(world).next_entity == old(world).next_entity,
        match craft(old(world).bodies@) {
            Some(i) => {
                let controller = old(world).bodies[i].shield_controller->0;
                if controller.state == ShieldState::Active && !guarded(
                    old(world).bodies@,
                    old(world).bodies[i].entity,
                ) {
                    final(world).bodies@ == old(world).bodies@.update(
                        i,
                        Body {
                            shield_controller: Some(controller.shield_lost()),
                            ..old(world).bodies[i]
                        },
                    )
                } else {
                    final(world).bodies@ == old(world).bodies@
                }
            },
            None => final(world).bodies@ == old(world).bodies@,
        },
{
    let (i, controller) = match find_craft(world) {
        Some(found) => found,
        None => {
            return ;
        },
    };
    match controller.state {
        ShieldState::Active => {},
        _ => {
            return ;
        },
    }
    let ship = world.bodies[i].entity;
    let n = world.bodies.len();
    let mut k: usize = 0;
    while k < n
        invariant
            n == world.bodies.len(),
            0 <= k <= n,
            *world == *old(world),
            world.wf(),
            i < n,
            craft(world.bodies@) == Some(i as int),
            world.bodies[i as int].shield_controller == Some(controller),
            controller.state == ShieldState::Active,
            ship == world.bodies[i as int].entity,
            forall|j: int| 0 <= j < k ==> world.bodies[j].shield != Some(Shield { ship }),
        decreases n - k,
    {
        let names_ship = match world.bodies[k].shield {
            Some(shield) => shield.ship == ship,
            None => false,
        };
        if names_ship {
            assert(world.bodies@[k as int].shield == Some(Shield { ship }));
            return ;
        }
        k = k + 1;
    }
    let mut cooldown = controller.cooldown;
    cooldown.reset();
    world.bodies[i].shield_controller = Some(
        ShieldController { state: ShieldState::Cooldown, cooldown },
    );
    proof {
        assert(world.bodies@ =~= old(world).bodies@.update(
            i as int,
            Body {
                shield_controller: Some(controller.shield_lost()),
                ..old(world).bodies[i as int]
            },
        ));
        lemma_same_names_wf(*old(world), *world);
    }
}

} // verus!
