//! What the two bars of the display show: the health of the craft and the
//! state of its shield.

use crate::components::{Faction, Shield, ShieldState};
use crate::fixed::clamp;
use crate::shield::SHIELD_HP;
use crate::spaceship::SPACESHIP_HEALTH;
use crate::world::{only, Body, World};
use vstd::prelude::*;

verus! {

/// A full bar, in thousandths.
pub const FULL: u32 = 1_000;

/// How the shield bar is drawn.
#[derive(Clone, Copy, Debug, PartialEq, Eq, Structural)]
pub enum ShieldShade {
    /// The shield is up.
    Bright,
    /// The shield can be raised.
    Medium,
    /// The shield is cooling down.
    Dim,
}

/// What the bars show: how full each is, in thousandths, and how the shield
/// bar is drawn.
#[derive(Clone, Copy, Debug, PartialEq, Eq, Structural)]
pub struct HudBars {
    pub ship_fill: u32,
    pub shield_fill: u32,
    pub shield_shade: Option<ShieldShade>,
}

/// Share of `max` that `value` is, in thousandths, kept between empty and
/// full.
pub open spec fn fill(value: int, max: int) -> int {
    if value <= 0 {
        0
    } else {
        clamp(value * FULL / max, 0, FULL as int)
    }
}

/// Place of the first shield of `ship` among the first `n` bodies.
pub open spec fn shield_of_among(bodies: Seq<Body>, ship: u64, n: int) -> Option<int>
    decreases n,
{
    if n <= 0 {
        None
    } else {
        match shield_of_among(bodies, ship, n - 1) {
            Some(k) => Some(k),
            None => if bodies[n - 1].shield == Some(Shield { ship }) && bodies[n - 1].health
                is Some {
                Some(n - 1)
            } else {
                None
            },
        }
    }
}

/// What the bars show for these bodies. Without exactly one craft that has
/// health and a shield controller both bars are empty.
pub open spec fn bars(bodies: Seq<Body>) -> HudBars {
    match only(bodies, Faction::Spaceship) {
        Some(s) => if bodies[s].health is Some && bodies[s].shield_controller is Some {
            let ship_fill = fill(bodies[s].health->0.value as int, SPACESHIP_HEALTH as int) as u32;
            match bodies[s].shield_controller->0.state {
                ShieldState::Active => HudBars {
                    ship_fill,
                    shield_fill: match shield_of_among(
                        bodies,
                        bodies[s].entity,
                        bodies.len() as int,
                    ) {
                        Some(k) => fill(bodies[k].health->0.value as int, SHIELD_HP as int) as u32,
                        None => 0,
                    },
                    shield_shade: Some(ShieldShade::Bright),
                },
                ShieldState::Cooldown => HudBars {
                    ship_fill,
                    shield_fill: 0,
                    shield_shade: Some(ShieldShade::Dim),
                },
                ShieldState::Ready => HudBars {
                    ship_fill,
                    shield_fill: FULL,
                    shield_shade: Some(ShieldShade::Medium),
                },
            }
        } else {
            HudBars { ship_fill: 0, shield_fill: 0, shield_shade: None }
        },
        None => HudBars { ship_fill: 0, shield_fill: 0, shield_shade: None },
    }
}

/// Share of `max` that `value` is, in thousandths.
pub fn fill_of(value: i64, max: i64) -> (share: u32)
    requires
        max > 0,
    ensures
        share == fill(value as int, max as int),
{
    if value <= 0 {
        0
    } else {
        assert(value * FULL <= 0x7FFF_FFFF_FFFF_FFFF * 1_000) by (nonlinear_arith)
            requires
                0 < value <= 0x7FFF_FFFF_FFFF_FFFF,
                FULL == 1_000,
        ;
        let scaled: u128 = (value as u128) * (FULL as u128);
        let share: u128 = scaled / (max as u128);
        if share > FULL as u128 {
            FULL
        } else {
            share as u32
        }
    }
}

/// What the bars show.
#[verifier::loop_isolation(false)]
pub fn update_hud_bars(world: &World) -> (shown: HudBars)
    ensures
        shown == bars(world.bodies@),
{
    let empty = HudBars { ship_fill: 0, shield_fill: 0, shield_shade: None };
    let s = match world.single(Faction::Spaceship) {
        Some(s) => s,
        None => {
            return empty;
        },
    };
    let (health, controller) = match (world.bodies[s].health, world.bodies[s].shield_controller) {
        (Some(health), Some(controller)) => (health, controller),
        _ => {
            return empty;
        },
    };
    let ship_fill = fill_of(health.value, SPACESHIP_HEALTH);
    match controller.state {
        ShieldState::Cooldown => HudBars {
            ship_fill,
            shield_fill: 0,
            shield_shade: Some(ShieldShade::Dim),
        },
        ShieldState::Ready => HudBars {
            ship_fill,
            shield_fill: FULL,
            shield_shade: Some(ShieldShade::Medium),
        },
        ShieldState::Active => {
            let ship = world.bodies[s].entity;
            let n = world.bodies.len();
            let mut shield_fill: u32 = 0;
            let mut k: usize = 0;
            while k < n
                invariant
                    n == world.bodies.len(),
                    0 <= k <= n,
                    shield_of_among(world.bodies@, ship, k as int) is None,
                    shield_fill == 0,
                decreases n - k,
            {
                let owned = match world.bodies[k].shield {
                    Some(shield) => shield.ship == ship,
                    None => false,
                };
                match world.bodies[k].health {
                    Some(shield_health) => {
                        if owned {
                            proof {
                                lemma_shield_found(world.bodies@, ship, k as int, n as int);
                            }
                            return HudBars {
                                ship_fill,
                                shield_fill: fill_of(shield_health.value, SHIELD_HP),
                                shield_shade: Some(ShieldShade::Bright),
                            };
                        }
                    },
                    None => {},
                }
                k = k + 1;
            }
            HudBars { ship_fill, shield_fill, shield_shade: Some(ShieldShade::Bright) }
        },
    }
}

/// A shield found first among the first `k + 1` bodies is the first among
/// any more.
pub proof fn lemma_shield_found(bodies: Seq<Body>, ship: u64, k: int, n: int)
    requires
        0 <= k < n,
        shield_of_among(bodies, ship, k) is None,
        bodies[k].shield == Some(Shield { ship }),
        bodies[k].health is Some,
    ensures
        shield_of_among(bodies, ship, n) == Some(k),
    decreases n - k,
{
    if n > k + 1 {
        lemma_shield_found(bodies, ship, k, n - 1);
    }
}

} // verus!
