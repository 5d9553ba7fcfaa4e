//! The order in which the parts of a frame run.

use vstd::prelude::*;

verus! {

/// The four parts of a frame. Within a frame the sweep comes first, then
/// what the player asks for, then the entities move and act, then overlaps are
/// detected and the events that follow from them are resolved, so that no
/// damage rests on where things were a frame ago.
#[derive(Clone, Copy, Debug, PartialEq, Eq, Hash, Structural)]
pub enum InGameSet {
    UserInput,
    EntityUpdates,
    CollisionDetection,
    DespawnEntities,
}

impl InGameSet {
    /// Place of a part in the frame, counted from zero.
    pub open spec fn rank(self) -> nat {
        match self {
            InGameSet::DespawnEntities => 0,
            InGameSet::UserInput => 1,
            InGameSet::EntityUpdates => 2,
            InGameSet::CollisionDetection => 3,
        }
    }

    /// The part that runs after this one, if any does.
    pub fn next(self) -> (following: Option<InGameSet>)
        ensures
            match following {
                Some(set) => set.rank() == self.rank() + 1,
                None => self.rank() == 3,
            },
    {
        match self {
            InGameSet::DespawnEntities => Some(InGameSet::UserInput),
            InGameSet::UserInput => Some(InGameSet::EntityUpdates),
            InGameSet::EntityUpdates => Some(InGameSet::CollisionDetection),
            InGameSet::CollisionDetection => None,
        }
    }

    /// Whether this part runs before `other` in a frame.
    pub fn runs_before(self, other: InGameSet) -> (earlier: bool)
        ensures
            earlier == (self.rank() < other.rank()),
    {
        let mine: u8 = self.position();
        let theirs: u8 = other.position();
        mine < theirs
    }

    /// Place of a part in the frame, counted from zero.
    pub fn position(self) -> (place: u8)
        ensures
            place == self.rank(),
    {
        match self {
            InGameSet::DespawnEntities => 0,
            InGameSet::UserInput => 1,
            InGameSet::EntityUpdates => 2,
            InGameSet::CollisionDetection => 3,
        }
    }

    /// The parts of a frame in the order in which they run.
    pub fn in_order() -> (sets: Vec<InGameSet>)
        ensures
            sets@.len() == 4,
            forall|i: int| 0 <= i < 4 ==> (#[trigger] sets@[i]).rank() == i,
    {
        let mut sets: Vec<InGameSet> = Vec::new();
        sets.push(InGameSet::DespawnEntities);
        sets.push(InGameSet::UserInput);
        sets.push(InGameSet::EntityUpdates);
        sets.push(InGameSet::CollisionDetection);
        sets
    }
}

} // verus!
