//! Overlap detection between colliders, the events that follow from it, and
//! how an event hurts its victim.

use crate::components::{Entity, Faction};
use crate::overlap_table::{table_entries, table_get, table_insert, table_new};
use crate::world::{distinct_entities, find, is_first_named, lemma_find_is, Body, World};
use bevy::platform::collections::HashMap;
use vstd::prelude::*;

verus! {

/// A circular region around an entity, and the entities that overlap it in
/// the current tick.
#[derive(Debug, PartialEq, Eq)]
pub struct Collider {
    pub radius: u32,
    pub colliding_entities: Vec<Entity>,
}

/// What an entity takes from the health of whatever it touches.
#[derive(Clone, Copy, Debug, PartialEq, Eq, Structural)]
pub struct CollisionDamage {
    pub amount: u32,
}

/// `entity` was touched by `collided_entity`: the first is the victim, the
/// second the source of the contact.
#[derive(Clone, Copy, Debug, PartialEq, Eq, Structural)]
pub struct CollisionEvent {
    pub entity: Entity,
    pub collided_entity: Entity,
}

impl Collider {
    /// A collider that overlaps nothing yet.
    pub fn new(radius: u32) -> (collider: Collider)
        ensures
            collider.radius == radius,
            collider.colliding_entities@.len() == 0,
    {
        Collider { radius, colliding_entities: Vec::new() }
    }
}

impl CollisionDamage {
    pub fn new(amount: u32) -> (damage: CollisionDamage)
        ensures
            damage.amount == amount,
    {
        CollisionDamage { amount }
    }
}

impl CollisionEvent {
    pub fn new(entity: Entity, collided_entity: Entity) -> (event: CollisionEvent)
        ensures
            event == (CollisionEvent { entity, collided_entity }),
    {
        CollisionEvent { entity, collided_entity }
    }
}

/// Whether the colliders of two bodies overlap: the distance between their
/// centres is less than the sum of their radii.
pub open spec fn overlapping(a: Body, b: Body) -> bool {
    a.transform.translation.distance_squared(b.transform.translation) < (a.collider.radius
        + b.collider.radius) * (a.collider.radius + b.collider.radius)
}

/// Whether body `j` belongs in the overlap list of body `i`.
pub open spec fn touches(bodies: Seq<Body>, i: int, j: int) -> bool {
    bodies[i].entity != bodies[j].entity && overlapping(bodies[i], bodies[j])
}

/// Names of the bodies among the first `n` that overlap body `i`, in the
/// order of the arena.
pub open spec fn overlaps_among(bodies: Seq<Body>, i: int, n: int) -> Seq<Entity>
    decreases n,
{
    if n <= 0 {
        Seq::empty()
    } else if touches(bodies, i, n - 1) {
        overlaps_among(bodies, i, n - 1).push(bodies[n - 1].entity)
    } else {
        overlaps_among(bodies, i, n - 1)
    }
}

/// The overlap list that body `i` is due.
pub open spec fn overlaps_of(bodies: Seq<Body>, i: int) -> Seq<Entity> {
    overlaps_among(bodies, i, bodies.len() as int)
}

/// Every body carries the overlap list it is due.
pub open spec fn detected(bodies: Seq<Body>) -> bool {
    forall|i: int|
        0 <= i < bodies.len() ==> #[trigger] bodies[i].collider.colliding_entities@ == overlaps_of(
            bodies,
            i,
        )
}

/// Whether the overlap list of body `i` holds the name of body `j`.
pub open spec fn lists(bodies: Seq<Body>, i: int, j: int) -> bool {
    bodies[i].collider.colliding_entities@.contains(bodies[j].entity)
}

/// A name is in `overlaps_among` exactly if one of the first `n` bodies has it
/// and touches body `i`.
pub proof fn lemma_overlaps_among(bodies: Seq<Body>, i: int, n: int, entity: Entity)
    requires
        0 <= i < bodies.len(),
        0 <= n <= bodies.len(),
    ensures
        overlaps_among(bodies, i, n).contains(entity) <==> exists|j: int|
            0 <= j < n && touches(bodies, i, j) && bodies[j].entity == entity,
    decreases n,
{
    if n > 0 {
        lemma_overlaps_among(bodies, i, n - 1, entity);
        let shorter = overlaps_among(bodies, i, n - 1);
        if touches(bodies, i, n - 1) {
            let longer = shorter.push(bodies[n - 1].entity);
            assert(longer.contains(entity) <==> shorter.contains(entity) || bodies[n - 1].entity
                == entity) by {
                if shorter.contains(entity) {
                    let k = choose|k: int| 0 <= k < shorter.len() && shorter[k] == entity;
                    assert(longer[k] == entity);
                }
                if bodies[n - 1].entity == entity {
                    assert(longer[shorter.len() as int] == entity);
                }
            }
        }
    }
}

/// The squared distance is the same in both directions.
pub proof fn lemma_overlapping_symmetric(a: Body, b: Body)
    ensures
        overlapping(a, b) == overlapping(b, a),
{
    let p = a.transform.translation;
    let q = b.transform.translation;
    assert((p.x - q.x) * (p.x - q.x) == (q.x - p.x) * (q.x - p.x)) by (nonlinear_arith);
    assert((p.y - q.y) * (p.y - q.y) == (q.y - p.y) * (q.y - p.y)) by (nonlinear_arith);
    assert((p.z - q.z) * (p.z - q.z) == (q.z - p.z) * (q.z - p.z)) by (nonlinear_arith);
    assert((a.collider.radius + b.collider.radius) * (a.collider.radius + b.collider.radius) == (
    b.collider.radius + a.collider.radius) * (b.collider.radius + a.collider.radius))
        by (nonlinear_arith);
}

/// Once overlaps are detected, a body lists another exactly if the
/// other lists it.
pub proof fn lemma_overlaps_symmetric(bodies: Seq<Body>, i: int, j: int)
    requires
        distinct_entities(bodies),
        detected(bodies),
        0 <= i < bodies.len(),
        0 <= j < bodies.len(),
    ensures
        lists(bodies, i, j) <==> lists(bodies, j, i),
        lists(bodies, i, j) <==> i != j && overlapping(bodies[i], bodies[j]),
{
    lemma_lists(bodies, i, j);
    lemma_lists(bodies, j, i);
    lemma_overlapping_symmetric(bodies[i], bodies[j]);
}

/// Once overlaps are detected, a body lists exactly the other bodies whose
/// colliders overlap its own.
pub proof fn lemma_lists(bodies: Seq<Body>, i: int, j: int)
    requires
        distinct_entities(bodies),
        detected(bodies),
        0 <= i < bodies.len(),
        0 <= j < bodies.len(),
    ensures
        lists(bodies, i, j) <==> i != j && overlapping(bodies[i], bodies[j]),
{
    let n = bodies.len() as int;
    lemma_overlaps_among(bodies, i, n, bodies[j].entity);
    assert(bodies[i].collider.colliding_entities@ == overlaps_of(bodies, i));
    if lists(bodies, i, j) {
        let k = choose|k: int|
            0 <= k < n && touches(bodies, i, k) && bodies[k].entity == bodies[j].entity;
        assert(k == j);
    }
    if i != j && overlapping(bodies[i], bodies[j]) {
        assert(touches(bodies, i, j));
    }
}

/// Once overlaps are detected, no body lists itself.
pub proof fn lemma_no_self_overlap(bodies: Seq<Body>, i: int)
    requires
        detected(bodies),
        0 <= i < bodies.len(),
    ensures
        !lists(bodies, i, i),
{
    lemma_overlaps_among(bodies, i, bodies.len() as int, bodies[i].entity);
    assert(bodies[i].collider.colliding_entities@ == overlaps_of(bodies, i));
}

/// The list that a body is due does not depend on the lists that bodies
/// carry.
pub proof fn lemma_overlaps_ignore_lists(before: Seq<Body>, after: Seq<Body>, i: int, n: int)
    requires
        before.len() == after.len(),
        forall|k: int| 0 <= k < before.len() ==> before[k].same_but_overlaps(after[k]),
        0 <= i < before.len(),
        0 <= n <= before.len(),
    ensures
        overlaps_among(before, i, n) == overlaps_among(after, i, n),
    decreases n,
{
    if n > 0 {
        lemma_overlaps_ignore_lists(before, after, i, n - 1);
        assert(before[i].same_but_overlaps(after[i]));
        assert(before[n - 1].same_but_overlaps(after[n - 1]));
    }
}

/// Whether the colliders of two bodies overlap.
pub fn overlap(a: &Body, b: &Body) -> (hit: bool)
    ensures
        hit == overlapping(*a, *b),
{
    let gap: u128 = a.transform.translation.distance_squared_to(&b.transform.translation);
    let reach: u64 = a.collider.radius as u64 + b.collider.radius as u64;
    assert(reach * reach <= 0x1_FFFF_FFFE * 0x1_FFFF_FFFE) by (nonlinear_arith)
        requires
            0 <= reach <= 0x1_FFFF_FFFE,
    ;
    gap < (reach as u128) * (reach as u128)
}

/// Names of the bodies that overlap body `i`.
fn overlaps_for(bodies: &Vec<Body>, i: usize) -> (hits: Vec<Entity>)
    requires
        i < bodies.len(),
    ensures
        hits@ == overlaps_of(bodies@, i as int),
{
    let n = bodies.len();
    let mut hits: Vec<Entity> = Vec::new();
    let mut j: usize = 0;
    while j < n
        invariant
            n == bodies.len(),
            i < n,
            0 <= j <= n,
            hits@ == overlaps_among(bodies@, i as int, j as int),
        decreases n - j,
    {
        if bodies[i].entity != bodies[j].entity && overlap(&bodies[i], &bodies[j]) {
            hits.push(bodies[j].entity);
        }
        j = j + 1;
    }
    hits
}

/// The table holds the non-empty lists due to the first `n` bodies and
/// nothing else.
pub open spec fn gathered(entries: Map<u64, Seq<u64>>, bodies: Seq<Body>, n: int) -> bool {
    &&& forall|k: int|
        0 <= k < n ==> (#[trigger] entries.contains_key(bodies[k].entity) <==> overlaps_of(
            bodies,
            k,
        ).len() > 0)
    &&& forall|k: int|
        0 <= k < n && #[trigger] entries.contains_key(bodies[k].entity) ==> entries[bodies[k].entity]
            == overlaps_of(bodies, k)
    &&& forall|k: int|
        n <= k < bodies.len() ==> !#[trigger] entries.contains_key(bodies[k].entity)
}

/// Finds, for every body, the other bodies whose colliders overlap it, and
/// replaces each body's overlap list by what was found.
pub fn collision_detection(world: &mut World)
    requires
        old(world).wf(),
    ensures
        final(world).wf(),
        final(world).next_entity == old(world).next_entity,
        final(world).bodies.len() == old(world).bodies.len(),
        forall|i: int|
            0 <= i < old(world).bodies.len() ==> old(world).bodies[i].same_but_overlaps(
                #[trigger] final(world).bodies[i],
            ),
        forall|i: int|
            0 <= i < old(world).bodies.len() ==> #[trigger] final(world).bodies[i].collider.colliding_entities@
                == overlaps_of(old(world).bodies@, i),
        detected(final(world).bodies@),
        forall|i: int, j: int|
            0 <= i < final(world).bodies.len() && 0 <= j < final(world).bodies.len() ==> (lists(
                final(world).bodies@,
                i,
                j,
            ) <==> lists(final(world).bodies@, j, i)),
        forall|i: int| 0 <= i < final(world).bodies.len() ==> !lists(final(world).bodies@, i, i),
{
    let n = world.bodies.len();
    let mut table: HashMap<u64, Vec<u64>> = table_new();
    let mut i: usize = 0;
    while i < n
        invariant
            n == world.bodies.len(),
            0 <= i <= n,
            *world == *old(world),
            world.wf(),
            gathered(table_entries(table), world.bodies@, i as int),
        decreases n - i,
    {
        let hits = overlaps_for(&world.bodies, i);
        if hits.len() > 0 {
            table_insert(&mut table, world.bodies[i].entity, hits);
        }
        i = i + 1;
    }
    let mut i: usize = 0;
    while i < n
        invariant
            n == world.bodies.len(),
            n == old(world).bodies.len(),
            0 <= i <= n,
            old(world).wf(),
            world.next_entity == old(world).next_entity,
            gathered(table_entries(table), old(world).bodies@, n as int),
            forall|k: int|
                0 <= k < n ==> old(world).bodies[k].same_but_overlaps(#[trigger] world.bodies[k]),
            forall|k: int|
                0 <= k < i ==> #[trigger] world.bodies[k].collider.colliding_entities@
                    == overlaps_of(old(world).bodies@, k),
            forall|k: int| i <= k < n ==> world.bodies[k] == old(world).bodies[k],
        decreases n - i,
    {
        let entity = world.bodies[i].entity;
        assert(entity == old(world).bodies[i as int].entity);
        let found = table_get(&table, entity);
        let list: Vec<Entity> = match found {
            Some(list) => list,
            None => Vec::new(),
        };
        assert(list@ == overlaps_of(old(world).bodies@, i as int)) by {
            let entries = table_entries(table);
            if entries.contains_key(old(world).bodies[i as int].entity) {
            } else {
                assert(overlaps_of(old(world).bodies@, i as int).len() == 0);
                assert(list@ =~= overlaps_of(old(world).bodies@, i as int));
            }
        }
        world.bodies[i].collider.colliding_entities = list;
        i = i + 1;
    }
    proof {
        let before = old(world).bodies@;
        let after = world.bodies@;
        assert forall|k: int| 0 <= k < after.len() implies #[trigger] after[k].collider.colliding_entities@
            == overlaps_of(after, k) by {
            lemma_overlaps_ignore_lists(before, after, k, after.len() as int);
        }
        assert(distinct_entities(after)) by {
            assert forall|a: int, b: int|
                0 <= a < after.len() && 0 <= b < after.len() && a != b implies after[a].entity
                != after[b].entity by {
                assert(before[a].same_but_overlaps(after[a]));
                assert(before[b].same_but_overlaps(after[b]));
            }
        }
        assert forall|k: int| 0 <= k < after.len() implies after[k].entity < world.next_entity by {
            assert(before[k].same_but_overlaps(after[k]));
        }
        assert forall|a: int, b: int| 0 <= a < after.len() && 0 <= b < after.len() implies (lists(
            after,
            a,
            b,
        ) <==> lists(after, b, a)) by {
            lemma_overlaps_symmetric(after, a, b);
        }
        assert forall|a: int| 0 <= a < after.len() implies !lists(after, a, a) by {
            lemma_no_self_overlap(after, a);
        }
    }
}

/// Whether `entity` names a live body of the given faction.
pub open spec fn same_faction_alive(bodies: Seq<Body>, faction: Faction, entity: Entity) -> bool {
    find(bodies, entity) matches Some(k) && bodies[k].faction == faction
}

/// Events for one body of a faction: one for each entry of its overlap list
/// that does not name a live body of the same faction, in the order of the list.
pub open spec fn events_from(
    bodies: Seq<Body>,
    faction: Faction,
    entity: Entity,
    list: Seq<Entity>,
) -> Seq<CollisionEvent>
    decreases list.len(),
{
    if list.len() == 0 {
        Seq::empty()
    } else if same_faction_alive(bodies, faction, list.last()) {
        events_from(bodies, faction, entity, list.drop_last())
    } else {
        events_from(bodies, faction, entity, list.drop_last()).push(
            CollisionEvent { entity, collided_entity: list.last() },
        )
    }
}

/// Events for the bodies of a faction among the first `n`, in the order of
/// the arena.
pub open spec fn dispatched_among(bodies: Seq<Body>, faction: Faction, n: int) -> Seq<
    CollisionEvent,
>
    decreases n,
{
    if n <= 0 {
        Seq::empty()
    } else if bodies[n - 1].faction == faction {
        dispatched_among(bodies, faction, n - 1) + events_from(
            bodies,
            faction,
            bodies[n - 1].entity,
            bodies[n - 1].collider.colliding_entities@,
        )
    } else {
        dispatched_among(bodies, faction, n - 1)
    }
}

/// All events of one faction.
pub open spec fn dispatched(bodies: Seq<Body>, faction: Faction) -> Seq<CollisionEvent> {
    dispatched_among(bodies, faction, bodies.len() as int)
}

/// Events of the six fighting factions, faction by faction: asteroids,
/// shields, the craft, its missiles, saucers, their missiles.
pub open spec fn dispatched_all(bodies: Seq<Body>) -> Seq<CollisionEvent> {
    dispatched(bodies, Faction::Asteroid) + dispatched(bodies, Faction::Shield) + dispatched(
        bodies,
        Faction::Spaceship,
    ) + dispatched(bodies, Faction::SpaceshipMissile) + dispatched(bodies, Faction::Saucer)
        + dispatched(bodies, Faction::SaucerMissile)
}

/// An event is among those of one body exactly if its source is on the
/// body's overlap list and is no live body of the same faction.
pub proof fn lemma_events_from_contains(
    bodies: Seq<Body>,
    faction: Faction,
    entity: Entity,
    list: Seq<Entity>,
    event: CollisionEvent,
)
    ensures
        events_from(bodies, faction, entity, list).contains(event) <==> event.entity == entity
            && list.contains(event.collided_entity) && !same_faction_alive(
            bodies,
            faction,
            event.collided_entity,
        ),
    decreases list.len(),
{
    if list.len() > 0 {
        let shorter_list = list.drop_last();
        let shorter = events_from(bodies, faction, entity, shorter_list);
        let whole = events_from(bodies, faction, entity, list);
        lemma_events_from_contains(bodies, faction, entity, shorter_list, event);
        assert(list.contains(event.collided_entity) <==> shorter_list.contains(
            event.collided_entity,
        ) || list.last() == event.collided_entity) by {
            if list.contains(event.collided_entity) {
                let k = choose|k: int| 0 <= k < list.len() && list[k] == event.collided_entity;
                if k < list.len() - 1 {
                    assert(shorter_list[k] == event.collided_entity);
                }
            }
            if shorter_list.contains(event.collided_entity) {
                let k = choose|k: int|
                    0 <= k < shorter_list.len() && shorter_list[k] == event.collided_entity;
                assert(list[k] == event.collided_entity);
            }
            if list.last() == event.collided_entity {
                assert(list[list.len() - 1] == event.collided_entity);
            }
        }
        if same_faction_alive(bodies, faction, list.last()) {
        } else {
            let added = CollisionEvent { entity, collided_entity: list.last() };
            assert(whole == shorter.push(added));
            assert(whole.contains(event) <==> shorter.contains(event) || added == event) by {
                if whole.contains(event) {
                    let k = choose|k: int| 0 <= k < whole.len() && whole[k] == event;
                    if k < shorter.len() {
                        assert(shorter[k] == event);
                    }
                }
                if shorter.contains(event) {
                    let k = choose|k: int| 0 <= k < shorter.len() && shorter[k] == event;
                    assert(whole[k] == event);
                }
                if added == event {
                    assert(whole[shorter.len() as int] == event);
                }
            }
        }
    }
}

/// Whether body `i` gives rise to `event` when its faction is dispatched.
pub open spec fn raises(bodies: Seq<Body>, i: int, event: CollisionEvent) -> bool {
    &&& bodies[i].entity == event.entity
    &&& bodies[i].collider.colliding_entities@.contains(event.collided_entity)
    &&& !same_faction_alive(bodies, bodies[i].faction, event.collided_entity)
}

/// An event is among those of a faction exactly if a body of the faction
/// gives rise to it.
pub proof fn lemma_dispatched_contains(
    bodies: Seq<Body>,
    faction: Faction,
    n: int,
    event: CollisionEvent,
)
    requires
        0 <= n <= bodies.len(),
    ensures
        dispatched_among(bodies, faction, n).contains(event) <==> exists|i: int|
            0 <= i < n && bodies[i].faction == faction && #[trigger] raises(bodies, i, event),
    decreases n,
{
    if n > 0 {
        lemma_dispatched_contains(bodies, faction, n - 1, event);
        let before = dispatched_among(bodies, faction, n - 1);
        let whole = dispatched_among(bodies, faction, n);
        if bodies[n - 1].faction == faction {
            let own = events_from(
                bodies,
                faction,
                bodies[n - 1].entity,
                bodies[n - 1].collider.colliding_entities@,
            );
            lemma_events_from_contains(
                bodies,
                faction,
                bodies[n - 1].entity,
                bodies[n - 1].collider.colliding_entities@,
                event,
            );
            assert(whole == before + own);
            assert(whole.contains(event) <==> before.contains(event) || own.contains(event)) by {
                if whole.contains(event) {
                    let k = choose|k: int| 0 <= k < whole.len() && whole[k] == event;
                    if k < before.len() {
                        assert(before[k] == event);
                    } else {
                        assert(own[k - before.len()] == event);
                    }
                }
                if before.contains(event) {
                    let k = choose|k: int| 0 <= k < before.len() && before[k] == event;
                    assert(whole[k] == event);
                }
                if own.contains(event) {
                    let k = choose|k: int| 0 <= k < own.len() && own[k] == event;
                    assert(whole[before.len() + k] == event);
                }
            }
            if own.contains(event) {
                assert(raises(bodies, n - 1, event));
            }
            if raises(bodies, n - 1, event) {
                assert(own.contains(event));
            }
        }
    }
}

/// Once overlaps are detected, two bodies of different factions whose
/// colliders overlap give rise to two events, one with each as the victim.
pub proof fn lemma_overlap_raises_events(bodies: Seq<Body>, i: int, j: int)
    requires
        distinct_entities(bodies),
        detected(bodies),
        0 <= i < bodies.len(),
        0 <= j < bodies.len(),
        bodies[i].faction != bodies[j].faction,
        overlapping(bodies[i], bodies[j]),
    ensures
        dispatched(bodies, bodies[i].faction).contains(
            CollisionEvent { entity: bodies[i].entity, collided_entity: bodies[j].entity },
        ),
        dispatched(bodies, bodies[j].faction).contains(
            CollisionEvent { entity: bodies[j].entity, collided_entity: bodies[i].entity },
        ),
{
    lemma_overlapping_symmetric(bodies[i], bodies[j]);
    lemma_overlap_raises_event(bodies, i, j);
    lemma_overlap_raises_event(bodies, j, i);
}

/// One half of the above: the event with body `i` as the victim.
proof fn lemma_overlap_raises_event(bodies: Seq<Body>, i: int, j: int)
    requires
        distinct_entities(bodies),
        detected(bodies),
        0 <= i < bodies.len(),
        0 <= j < bodies.len(),
        bodies[i].faction != bodies[j].faction,
        overlapping(bodies[i], bodies[j]),
    ensures
        dispatched(bodies, bodies[i].faction).contains(
            CollisionEvent { entity: bodies[i].entity, collided_entity: bodies[j].entity },
        ),
{
    let event = CollisionEvent { entity: bodies[i].entity, collided_entity: bodies[j].entity };
    lemma_lists(bodies, i, j);
    assert(is_first_named(bodies, bodies[j].entity, j));
    lemma_find_is(bodies, bodies[j].entity, j);
    assert(raises(bodies, i, event));
    lemma_dispatched_contains(bodies, bodies[i].faction, bodies.len() as int, event);
}

/// Once overlaps are detected, every event of a faction has a victim of that
/// faction and, as its source, another body, of another faction, whose collider
/// overlaps the victim's.
pub proof fn lemma_event_comes_from_overlap(
    bodies: Seq<Body>,
    faction: Faction,
    event: CollisionEvent,
)
    requires
        distinct_entities(bodies),
        detected(bodies),
        dispatched(bodies, faction).contains(event),
    ensures
        !same_faction_alive(bodies, faction, event.collided_entity),
        exists|i: int, j: int|
            0 <= i < bodies.len() && 0 <= j < bodies.len() && i != j && (
            #[trigger] bodies[i]).entity == event.entity && bodies[i].faction == faction && (
            #[trigger] bodies[j]).entity == event.collided_entity && bodies[j].faction != faction
                && overlapping(bodies[i], bodies[j]),
{
    lemma_dispatched_contains(bodies, faction, bodies.len() as int, event);
    let i = choose|i: int|
        0 <= i < bodies.len() && bodies[i].faction == faction && #[trigger] raises(
            bodies,
            i,
            event,
        );
    lemma_overlaps_among(bodies, i, bodies.len() as int, event.collided_entity);
    assert(bodies[i].collider.colliding_entities@ == overlaps_of(bodies, i));
    let j = choose|j: int|
        0 <= j < bodies.len() && touches(bodies, i, j) && bodies[j].entity
            == event.collided_entity;
    assert(is_first_named(bodies, bodies[j].entity, j));
    lemma_find_is(bodies, bodies[j].entity, j);
    assert(bodies[i].entity == event.entity && bodies[j].entity == event.collided_entity);
}

/// Appends to `events` the events of one faction.
pub fn dispatch_collision_events(world: &World, faction: Faction, events: &mut Vec<CollisionEvent>)
    ensures
        final(events)@ == old(events)@ + dispatched(world.bodies@, faction),
{
    let n = world.bodies.len();
    let mut i: usize = 0;
    while i < n
        invariant
            n == world.bodies.len(),
            0 <= i <= n,
            events@ == old(events)@ + dispatched_among(world.bodies@, faction, i as int),
        decreases n - i,
    {
        if world.bodies[i].faction == faction {
            let entity = world.bodies[i].entity;
            let m = world.bodies[i].collider.colliding_entities.len();
            let ghost list = world.bodies[i as int].collider.colliding_entities@;
            let ghost start = events@;
            let mut j: usize = 0;
            while j < m
                invariant
                    n == world.bodies.len(),
                    i < n,
                    m == world.bodies[i as int].collider.colliding_entities.len(),
                    list == world.bodies[i as int].collider.colliding_entities@,
                    entity == world.bodies[i as int].entity,
                    0 <= j <= m,
                    events@ == start + events_from(
                        world.bodies@,
                        faction,
                        entity,
                        list.take(j as int),
                    ),
                decreases m - j,
            {
                let collided_entity = world.bodies[i].collider.colliding_entities[j];
                let same = match world.index_of(collided_entity) {
                    Some(k) => world.bodies[k].faction == faction,
                    None => false,
                };
                proof {
                    assert(list.take(j + 1).drop_last() == list.take(j as int));
                    assert(list.take(j + 1).last() == collided_entity);
                    assert(same == same_faction_alive(world.bodies@, faction, collided_entity));
                }
                if !same {
                    events.push(CollisionEvent::new(entity, collided_entity));
                }
                j = j + 1;
            }
            proof {
                assert(list.take(m as int) == list);
            }
        }
        i = i + 1;
    }
}

/// Events of the six fighting factions in their fixed order.
pub fn dispatch_all(world: &World) -> (events: Vec<CollisionEvent>)
    ensures
        events@ == dispatched_all(world.bodies@),
{
    let mut events: Vec<CollisionEvent> = Vec::new();
    dispatch_collision_events(world, Faction::Asteroid, &mut events);
    dispatch_collision_events(world, Faction::Shield, &mut events);
    dispatch_collision_events(world, Faction::Spaceship, &mut events);
    dispatch_collision_events(world, Faction::SpaceshipMissile, &mut events);
    dispatch_collision_events(world, Faction::Saucer, &mut events);
    dispatch_collision_events(world, Faction::SaucerMissile, &mut events);
    events
}

} // verus!
