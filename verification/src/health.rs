//! Health points of a damageable entity.

use crate::fixed::clamp_i64;
use crate::fixed::saturate_i64;
use vstd::prelude::*;

verus! {

/// Remaining health in thousandths of a point; the entity is dead at zero or
/// below.
#[derive(Clone, Copy, Debug, PartialEq, Eq, Structural)]
pub struct Health {
    pub value: i64,
}

impl Health {
    /// Health after losing `amount`, which may take it below zero; it stops at
    /// the least value an `i64` holds.
    pub open spec fn reduced(self, amount: int) -> Health {
        Health { value: clamp_i64(self.value - amount) as i64 }
    }

    /// Whether the entity counts as dead.
    pub open spec fn spec_is_dead(self) -> bool {
        self.value <= 0
    }

    /// Health of `value` thousandths.
    pub fn new(value: i64) -> (health: Health)
        ensures
            health.value == value,
    {
        Health { value }
    }

    /// Whether the entity counts as dead.
    pub fn is_dead(&self) -> (dead: bool)
        ensures
            dead == self.spec_is_dead(),
    {
        self.value <= 0
    }

    /// Takes `amount` from the health.
    pub fn reduce(&mut self, amount: u128)
        ensures
            *final(self) == old(self).reduced(amount as int),
            final(self).value <= old(self).value,
    {
        let floor: i128 = i64::MIN as i128;
        let room: u128 = (self.value as i128 - floor) as u128;
        if amount >= room {
            self.value = i64::MIN;
        } else {
            self.value = saturate_i64(self.value as i128 - amount as i128);
        }
    }
}

} // verus!
