//! The arena of entities.

use crate::collision_detection::{Collider, CollisionDamage};
use crate::components::{
    Entity, Explosion, Faction, Shield, ShieldController, ShieldHitCooldown, Transform,
};
use crate::health::Health;
use crate::movement::{Acceleration, Rotation, Velocity};
use crate::vector::Vec3;
use vstd::prelude::*;

verus! {

/// One entity with everything attached to it. What an entity lacks is `None`.
#[derive(Debug, PartialEq, Eq)]
pub struct Body {
    pub entity: Entity,
    pub faction: Faction,
    pub transform: Transform,
    pub velocity: Option<Velocity>,
    pub acceleration: Option<Acceleration>,
    pub rotation: Option<Rotation>,
    pub collider: Collider,
    pub health: Option<Health>,
    pub collision_damage: Option<CollisionDamage>,
    pub shield: Option<Shield>,
    pub shield_hit_cooldown: Option<ShieldHitCooldown>,
    pub shield_controller: Option<ShieldController>,
    pub shield_request: bool,
    pub explosion: Option<Explosion>,
}

/// All live entities, in the order in which they were created, and the
/// identifier that the next one gets.
#[derive(Debug, PartialEq, Eq)]
pub struct World {
    pub bodies: Vec<Body>,
    pub next_entity: Entity,
}

/// No two bodies share an identifier.
pub open spec fn distinct_entities(bodies: Seq<Body>) -> bool {
    forall|i: int, j: int|
        0 <= i < bodies.len() && 0 <= j < bodies.len() && i != j ==> bodies[i].entity
            != bodies[j].entity
}

/// `i` is the place of the first body named `entity`.
pub open spec fn is_first_named(bodies: Seq<Body>, entity: Entity, i: int) -> bool {
    &&& 0 <= i < bodies.len()
    &&& bodies[i].entity == entity
    &&& forall|j: int| 0 <= j < i ==> bodies[j].entity != entity
}

/// Whether some body is named `entity`.
pub open spec fn alive(bodies: Seq<Body>, entity: Entity) -> bool {
    exists|i: int| 0 <= i < bodies.len() && bodies[i].entity == entity
}

/// Place of the first body named `entity`, if there is one.
pub open spec fn find(bodies: Seq<Body>, entity: Entity) -> Option<int> {
    if exists|i: int| is_first_named(bodies, entity, i) {
        Some(choose|i: int| is_first_named(bodies, entity, i))
    } else {
        None
    }
}

/// Number of bodies of a faction.
pub open spec fn census(bodies: Seq<Body>, faction: Faction) -> nat
    decreases bodies.len(),
{
    if bodies.len() == 0 {
        0
    } else {
        census(bodies.drop_last(), faction) + if bodies.last().faction == faction {
            1nat
        } else {
            0nat
        }
    }
}

/// Place of the first body of a faction, if there is one.
pub open spec fn is_first_of(bodies: Seq<Body>, faction: Faction, i: int) -> bool {
    &&& 0 <= i < bodies.len()
    &&& bodies[i].faction == faction
    &&& forall|j: int| 0 <= j < i ==> bodies[j].faction != faction
}

/// Place of the only body of a faction: `None` when there is none or more
/// than one.
pub open spec fn only(bodies: Seq<Body>, faction: Faction) -> Option<int> {
    if census(bodies, faction) == 1 {
        Some(choose|i: int| is_first_of(bodies, faction, i))
    } else {
        None
    }
}

/// A faction that has a body has a first body.
pub proof fn lemma_census(bodies: Seq<Body>, faction: Faction)
    ensures
        census(bodies, faction) > 0 <==> exists|i: int| is_first_of(bodies, faction, i),
        census(bodies, faction) <= bodies.len(),
    decreases bodies.len(),
{
    if bodies.len() > 0 {
        let shorter = bodies.drop_last();
        lemma_census(shorter, faction);
        if census(shorter, faction) > 0 {
            let i = choose|i: int| is_first_of(shorter, faction, i);
            assert(is_first_of(bodies, faction, i)) by {
                assert(bodies[i] == shorter[i]);
                assert forall|j: int| 0 <= j < i implies bodies[j].faction != faction by {
                    assert(bodies[j] == shorter[j]);
                }
            }
        } else if bodies.last().faction == faction {
            assert(is_first_of(bodies, faction, bodies.len() - 1)) by {
                assert forall|j: int| 0 <= j < bodies.len() - 1 implies bodies[j].faction
                    != faction by {
                    if shorter[j].faction == faction {
                        lemma_first_of_exists(shorter, faction, j);
                    }
                }
            }
        } else {
            if exists|i: int| is_first_of(bodies, faction, i) {
                let i = choose|i: int| is_first_of(bodies, faction, i);
                assert(is_first_of(shorter, faction, i)) by {
                    assert(bodies[i] == shorter[i]);
                    assert forall|j: int| 0 <= j < i implies shorter[j].faction != faction by {
                        assert(bodies[j] == shorter[j]);
                    }
                }
            }
        }
    }
}

/// If the body at `k` is of a faction, some place is the first of that
/// faction.
pub proof fn lemma_first_of_exists(bodies: Seq<Body>, faction: Faction, k: int)
    requires
        0 <= k < bodies.len(),
        bodies[k].faction == faction,
    ensures
        exists|i: int| is_first_of(bodies, faction, i),
    decreases k,
{
    if exists|j: int| 0 <= j < k && bodies[j].faction == faction {
        let j = choose|j: int| 0 <= j < k && bodies[j].faction == faction;
        lemma_first_of_exists(bodies, faction, j);
    } else {
        assert(is_first_of(bodies, faction, k));
    }
}

/// Where `only` points stands the first body of the faction, and there is no
/// other.
pub proof fn lemma_only(bodies: Seq<Body>, faction: Faction)
    ensures
        only(bodies, faction) matches Some(i) ==> is_first_of(bodies, faction, i) && census(
            bodies,
            faction,
        ) == 1,
        only(bodies, faction) is None ==> census(bodies, faction) != 1,
{
    lemma_census(bodies, faction);
}

/// A place where `find` points is the first place with that name.
pub proof fn lemma_find(bodies: Seq<Body>, entity: Entity)
    ensures
        find(bodies, entity) matches Some(i) ==> is_first_named(bodies, entity, i),
        find(bodies, entity) is None ==> !alive(bodies, entity),
        find(bodies, entity) is Some <==> alive(bodies, entity),
{
    if alive(bodies, entity) {
        let k = choose|i: int| 0 <= i < bodies.len() && bodies[i].entity == entity;
        lemma_first_exists(bodies, entity, k);
    }
}

/// If the body at `k` is named `entity`, some place is the first with that
/// name.
pub proof fn lemma_first_exists(bodies: Seq<Body>, entity: Entity, k: int)
    requires
        0 <= k < bodies.len(),
        bodies[k].entity == entity,
    ensures
        exists|i: int| is_first_named(bodies, entity, i),
    decreases k,
{
    if exists|j: int| 0 <= j < k && bodies[j].entity == entity {
        let j = choose|j: int| 0 <= j < k && bodies[j].entity == entity;
        lemma_first_exists(bodies, entity, j);
    } else {
        assert(is_first_named(bodies, entity, k));
    }
}

/// The first place with a name is the one `find` gives.
pub proof fn lemma_find_is(bodies: Seq<Body>, entity: Entity, i: int)
    requires
        is_first_named(bodies, entity, i),
    ensures
        find(bodies, entity) == Some(i),
{
    let k = choose|k: int| is_first_named(bodies, entity, k);
    if k < i {
    } else if i < k {
    }
}

/// The same names stand in the same places.
pub open spec fn same_names(before: Seq<Body>, after: Seq<Body>) -> bool {
    &&& after.len() == before.len()
    &&& forall|i: int| 0 <= i < before.len() ==> (#[trigger] after[i]).entity == before[i].entity
}

/// Nothing is created, removed, renamed or healed between `before` and
/// `after`: the same bodies stand in the same places, and whatever has health
/// has no more of it than before.
pub open spec fn never_healed(before: Seq<Body>, after: Seq<Body>) -> bool {
    &&& after.len() == before.len()
    &&& forall|i: int|
        0 <= i < before.len() ==> {
            &&& (#[trigger] after[i]).entity == before[i].entity
            &&& after[i].faction == before[i].faction
            &&& after[i].collider.radius == before[i].collider.radius
            &&& after[i].health is Some <==> before[i].health is Some
            &&& after[i].health is Some ==> after[i].health->0.value <= before[i].health->0.value
        }
}

/// An arena in which no name changed is as well formed as before.
pub proof fn lemma_same_names_wf(before: World, after: World)
    requires
        before.wf(),
        same_names(before.bodies@, after.bodies@),
        after.next_entity == before.next_entity,
    ensures
        after.wf(),
{
    assert forall|i: int, j: int|
        0 <= i < after.bodies.len() && 0 <= j < after.bodies.len() && i != j implies after.bodies[i].entity
        != after.bodies[j].entity by {
        assert(after.bodies@[i].entity == before.bodies[i].entity);
        assert(after.bodies@[j].entity == before.bodies[j].entity);
    }
    assert forall|i: int| 0 <= i < after.bodies.len() implies after.bodies[i].entity
        < after.next_entity by {
        assert(after.bodies@[i].entity == before.bodies[i].entity);
    }
}

/// Where no name changed, every name is found where it was.
pub proof fn lemma_same_names_find(before: Seq<Body>, after: Seq<Body>, entity: Entity)
    requires
        same_names(before, after),
    ensures
        find(after, entity) == find(before, entity),
{
    lemma_find(before, entity);
    lemma_find(after, entity);
    if find(before, entity) is Some {
        let i = find(before, entity)->0;
        assert(is_first_named(after, entity, i)) by {
            assert(after[i].entity == before[i].entity);
            assert forall|j: int| 0 <= j < i implies after[j].entity != entity by {
                assert(after[j].entity == before[j].entity);
            }
        }
        lemma_find_is(after, entity, i);
    } else {
        if find(after, entity) is Some {
            let i = find(after, entity)->0;
            assert(after[i].entity == before[i].entity);
        }
    }
}

impl Body {
    /// A body of the given faction at `translation` with a collider of the
    /// given radius and nothing else attached.
    pub open spec fn bare(faction: Faction, translation: Vec3, radius: u32, body: Body) -> bool {
        &&& body.faction == faction
        &&& body.transform.translation == translation
        &&& body.velocity is None
        &&& body.acceleration is None
        &&& body.rotation is None
        &&& body.collider.radius == radius
        &&& body.collider.colliding_entities@.len() == 0
        &&& body.health is None
        &&& body.collision_damage is None
        &&& body.shield is None
        &&& body.shield_hit_cooldown is None
        &&& body.shield_controller is None
        &&& !body.shield_request
        &&& body.explosion is None
    }

    /// A body with only a place and a collider; it is named when it is
    /// spawned.
    pub fn new(faction: Faction, translation: Vec3, radius: u32) -> (body: Body)
        ensures
            Body::bare(faction, translation, radius, body),
            body.entity == 0,
    {
        Body {
            entity: 0,
            faction,
            transform: Transform { translation },
            velocity: None,
            acceleration: None,
            rotation: None,
            collider: Collider::new(radius),
            health: None,
            collision_damage: None,
            shield: None,
            shield_hit_cooldown: None,
            shield_controller: None,
            shield_request: false,
            explosion: None,
        }
    }

    /// Whether two bodies agree in everything but their overlap lists.
    pub open spec fn same_but_overlaps(self, other: Body) -> bool {
        other == (Body {
            collider: Collider {
                colliding_entities: other.collider.colliding_entities,
                ..self.collider
            },
            ..self
        })
    }
}

impl World {
    /// Names are distinct and below the next name to hand out.
    pub open spec fn wf(&self) -> bool {
        &&& distinct_entities(self.bodies@)
        &&& forall|i: int| 0 <= i < self.bodies.len() ==> self.bodies[i].entity < self.next_entity
    }

    /// Whether the arena is well formed.
    pub fn is_well_formed(&self) -> (ok: bool)
        ensures
            ok == self.wf(),
    {
        let n = self.bodies.len();
        let mut i: usize = 0;
        while i < n
            invariant
                n == self.bodies.len(),
                0 <= i <= n,
                forall|a: int| 0 <= a < i ==> self.bodies[a].entity < self.next_entity,
                forall|a: int, b: int|
                    0 <= a < i && 0 <= b < i && a != b ==> self.bodies[a].entity
                        != self.bodies[b].entity,
            decreases n - i,
        {
            if self.bodies[i].entity >= self.next_entity {
                return false;
            }
            let mut j: usize = 0;
            while j < i
                invariant
                    n == self.bodies.len(),
                    i < n,
                    0 <= j <= i,
                    forall|b: int| 0 <= b < j ==> self.bodies[b].entity != self.bodies[i as int].entity,
                decreases i - j,
            {
                if self.bodies[j].entity == self.bodies[i].entity {
                    return false;
                }
                j = j + 1;
            }
            i = i + 1;
        }
        true
    }

    /// An empty arena.
    pub fn new() -> (world: World)
        ensures
            world.wf(),
            world.bodies@.len() == 0,
            world.next_entity == 0,
    {
        World { bodies: Vec::new(), next_entity: 0 }
    }

    /// Adds `body` under a fresh name and returns the name.
    pub fn spawn(&mut self, body: Body) -> (entity: Entity)
        requires
            old(self).wf(),
            old(self).next_entity < u64::MAX,
        ensures
            final(self).wf(),
            entity == old(self).next_entity,
            final(self).next_entity == old(self).next_entity + 1,
            final(self).bodies@ == old(self).bodies@.push(Body { entity, ..body }),
    {
        let entity = self.next_entity;
        let mut body = body;
        body.entity = entity;
        self.next_entity = entity + 1;
        self.bodies.push(body);
        entity
    }

    /// Place of the body named `entity`.
    pub fn index_of(&self, entity: Entity) -> (place: Option<usize>)
        ensures
            place matches Some(i) ==> is_first_named(self.bodies@, entity, i as int),
            place is None ==> !alive(self.bodies@, entity),
            match place {
                Some(i) => find(self.bodies@, entity) == Some(i as int),
                None => find(self.bodies@, entity) is None,
            },
    {
        let n = self.bodies.len();
        let mut i: usize = 0;
        while i < n
            invariant
                n == self.bodies.len(),
                0 <= i <= n,
                forall|j: int| 0 <= j < i ==> self.bodies[j].entity != entity,
            decreases n - i,
        {
            if self.bodies[i].entity == entity {
                proof {
                    lemma_find_is(self.bodies@, entity, i as int);
                }
                return Some(i);
            }
            i = i + 1;
        }
        proof {
            lemma_find(self.bodies@, entity);
        }
        None
    }

    /// Number of live bodies of a faction.
    pub fn count(&self, faction: Faction) -> (n: usize)
        ensures
            n == census(self.bodies@, faction),
    {
        let len = self.bodies.len();
        let mut n: usize = 0;
        let mut i: usize = 0;
        while i < len
            invariant
                len == self.bodies.len(),
                0 <= i <= len,
                n <= i,
                n == census(self.bodies@.take(i as int), faction),
            decreases len - i,
        {
            proof {
                assert(self.bodies@.take(i + 1).drop_last() == self.bodies@.take(i as int));
            }
            if self.bodies[i].faction == faction {
                n = n + 1;
            }
            i = i + 1;
        }
        proof {
            assert(self.bodies@.take(len as int) == self.bodies@);
        }
        n
    }

    /// Place of the only body of a faction; `None` when there is none or more
    /// than one.
    pub fn single(&self, faction: Faction) -> (place: Option<usize>)
        ensures
            place is Some <==> census(self.bodies@, faction) == 1,
            place matches Some(i) ==> is_first_of(self.bodies@, faction, i as int),
            match place {
                Some(i) => only(self.bodies@, faction) == Some(i as int),
                None => only(self.bodies@, faction) is None,
            },
    {
        let len = self.bodies.len();
        let mut found: Option<usize> = None;
        let mut n: usize = 0;
        let mut i: usize = 0;
        while i < len
            invariant
                len == self.bodies.len(),
                0 <= i <= len,
                n <= i,
                n == census(self.bodies@.take(i as int), faction),
                n == 0 <==> found is None,
                found matches Some(k) ==> k < i && is_first_of(self.bodies@, faction, k as int),
                found is None ==> forall|j: int| 0 <= j < i ==> self.bodies[j].faction != faction,
            decreases len - i,
        {
            proof {
                assert(self.bodies@.take(i + 1).drop_last() == self.bodies@.take(i as int));
            }
            if self.bodies[i].faction == faction {
                if n == 0 {
                    found = Some(i);
                }
                n = n + 1;
            }
            i = i + 1;
        }
        proof {
            assert(self.bodies@.take(len as int) == self.bodies@);
        }
        if n == 1 {
            proof {
                let k = found->0 as int;
                let c = choose|c: int| is_first_of(self.bodies@, faction, c);
                assert(is_first_of(self.bodies@, faction, k));
                if c < k {
                } else if k < c {
                }
            }
            found
        } else {
            None
        }
    }
}

/// The bodies that are left when those marked in `doomed` leave; the others
/// keep their order.
pub open spec fn sifted(bodies: Seq<Body>, doomed: Seq<bool>) -> Seq<Body>
    decreases bodies.len(),
{
    if bodies.len() == 0 || doomed.len() != bodies.len() {
        bodies
    } else if doomed.last() {
        sifted(bodies.drop_last(), doomed.drop_last())
    } else {
        sifted(bodies.drop_last(), doomed.drop_last()).push(bodies.last())
    }
}

/// Sifting by marks is filtering by the condition that the marks stand for.
pub proof fn lemma_sifted_is_filter(
    bodies: Seq<Body>,
    doomed: Seq<bool>,
    keep: spec_fn(Body) -> bool,
)
    requires
        doomed.len() == bodies.len(),
        forall|i: int| 0 <= i < bodies.len() ==> doomed[i] == !keep(bodies[i]),
    ensures
        sifted(bodies, doomed) == bodies.filter(keep),
    decreases bodies.len(),
{
    reveal(Seq::filter);
    if bodies.len() > 0 {
        lemma_sifted_is_filter(bodies.drop_last(), doomed.drop_last(), keep);
    }
}

/// Whatever is left after sifting was there before.
pub proof fn lemma_sifted_from(bodies: Seq<Body>, doomed: Seq<bool>, k: int)
    requires
        doomed.len() == bodies.len(),
        0 <= k < sifted(bodies, doomed).len(),
    ensures
        exists|i: int| 0 <= i < bodies.len() && !doomed[i] && bodies[i] == sifted(bodies, doomed)[k],
    decreases bodies.len(),
{
    if bodies.len() > 0 {
        let shorter = sifted(bodies.drop_last(), doomed.drop_last());
        if k < shorter.len() {
            lemma_sifted_from(bodies.drop_last(), doomed.drop_last(), k);
            let i = choose|i: int|
                0 <= i < bodies.drop_last().len() && !doomed.drop_last()[i]
                    && bodies.drop_last()[i] == shorter[k];
            assert(bodies[i] == sifted(bodies, doomed)[k] && !doomed[i]);
        } else {
            let i = bodies.len() - 1;
            assert(bodies[i] == sifted(bodies, doomed)[k] && !doomed[i]);
        }
    }
}

/// Whatever is not marked is still there after sifting.
pub proof fn lemma_sifted_keeps(bodies: Seq<Body>, doomed: Seq<bool>, i: int)
    requires
        doomed.len() == bodies.len(),
        0 <= i < bodies.len(),
        !doomed[i],
    ensures
        sifted(bodies, doomed).contains(bodies[i]),
    decreases bodies.len(),
{
    let whole = sifted(bodies, doomed);
    let shorter = sifted(bodies.drop_last(), doomed.drop_last());
    if i == bodies.len() - 1 {
        assert(whole[shorter.len() as int] == bodies[i]);
    } else {
        lemma_sifted_keeps(bodies.drop_last(), doomed.drop_last(), i);
        let k = choose|k: int| 0 <= k < shorter.len() && shorter[k] == bodies.drop_last()[i];
        assert(whole[k] == bodies[i]);
    }
}

/// Sifting keeps names distinct.
pub proof fn lemma_sifted_distinct(bodies: Seq<Body>, doomed: Seq<bool>)
    requires
        doomed.len() == bodies.len(),
        distinct_entities(bodies),
    ensures
        distinct_entities(sifted(bodies, doomed)),
    decreases bodies.len(),
{
    if bodies.len() > 0 {
        let shorter = sifted(bodies.drop_last(), doomed.drop_last());
        assert(distinct_entities(bodies.drop_last())) by {
            assert forall|i: int, j: int|
                0 <= i < bodies.drop_last().len() && 0 <= j < bodies.drop_last().len() && i
                    != j implies bodies.drop_last()[i].entity != bodies.drop_last()[j].entity by {
                assert(bodies[i].entity != bodies[j].entity);
            }
        }
        lemma_sifted_distinct(bodies.drop_last(), doomed.drop_last());
        if !doomed.last() {
            let whole = shorter.push(bodies.last());
            assert forall|a: int, b: int|
                0 <= a < whole.len() && 0 <= b < whole.len() && a != b implies whole[a].entity
                != whole[b].entity by {
                if a < shorter.len() && b < shorter.len() {
                } else {
                    let inner = if a < shorter.len() {
                        a
                    } else {
                        b
                    };
                    lemma_sifted_from(bodies.drop_last(), doomed.drop_last(), inner);
                    let i = choose|i: int|
                        0 <= i < bodies.drop_last().len() && !doomed.drop_last()[i]
                            && bodies.drop_last()[i] == shorter[inner];
                    assert(bodies[i].entity != bodies[bodies.len() - 1].entity);
                }
            }
        }
    }
}

impl World {
    /// Removes the bodies whose places are marked in `doomed`.
    pub fn remove_where(&mut self, doomed: &Vec<bool>)
        requires
            old(self).wf(),
            doomed.len() == old(self).bodies.len(),
        ensures
            final(self).wf(),
            final(self).next_entity == old(self).next_entity,
            final(self).bodies@ == sifted(old(self).bodies@, doomed@),
    {
        let mut all: Vec<Body> = Vec::new();
        core::mem::swap(&mut self.bodies, &mut all);
        let mut kept: Vec<Body> = Vec::new();
        let mut i: usize = 0;
        for body in it: all
            invariant
                i == it.index(),
                it.seq() == old(self).bodies@,
                doomed.len() == old(self).bodies.len(),
                kept@ == sifted(old(self).bodies@.take(i as int), doomed@.take(i as int)),
        {
            proof {
                assert(old(self).bodies@.take(i + 1).drop_last() == old(self).bodies@.take(
                    i as int,
                ));
                assert(doomed@.take(i + 1).drop_last() == doomed@.take(i as int));
            }
            if !doomed[i] {
                kept.push(body);
            }
            i = i + 1;
        }
        proof {
            assert(old(self).bodies@.take(i as int) == old(self).bodies@);
            assert(doomed@.take(i as int) == doomed@);
            lemma_sifted_distinct(old(self).bodies@, doomed@);
            assert forall|k: int| 0 <= k < kept@.len() implies kept@[k].entity
                < self.next_entity by {
                lemma_sifted_from(old(self).bodies@, doomed@, k);
            }
        }
        self.bodies = kept;
    }
}

} // verus!
