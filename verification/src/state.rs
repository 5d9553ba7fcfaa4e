//! Whether the game runs, pauses or is over.

use crate::app_globals::AppGlobals;
use crate::components::Entity;
use crate::despawn::{damageable, despawn_all_entities};
use crate::spaceship::{is_spaceship, spawn_spaceship};
use crate::world::{Body, World};
use vstd::prelude::*;

verus! {

/// The state of the game. Most of the simulation runs only while in game.
#[derive(Clone, Copy, Debug, PartialEq, Eq, Hash, Structural)]
pub enum GameState {
    InGame,
    Paused,
    GameOver,
}

impl GameState {
    /// The state after the pause key: a running game pauses, a paused one
    /// goes on, a game that is over stays over.
    pub open spec fn toggled(self) -> GameState {
        match self {
            GameState::InGame => GameState::Paused,
            GameState::Paused => GameState::InGame,
            GameState::GameOver => GameState::GameOver,
        }
    }
}

impl Default for GameState {
    fn default() -> (state: GameState)
        ensures
            state == GameState::InGame,
    {
        GameState::InGame
    }
}

/// The state that the pause key asks for, if it was pressed and asks for a
/// change.
pub fn game_state_input_events(state: GameState, escape_pressed: bool) -> (next: Option<
    GameState,
>)
    ensures
        next == if escape_pressed && state != GameState::GameOver {
            Some(state.toggled())
        } else {
            None
        },
{
    if escape_pressed {
        match state {
            GameState::InGame => Some(GameState::Paused),
            GameState::Paused => Some(GameState::InGame),
            GameState::GameOver => None,
        }
    } else {
        None
    }
}

/// The state that follows the end of a game: the next game.
pub fn transition_to_in_game() -> (next: GameState)
    ensures
        next == GameState::InGame,
{
    GameState::InGame
}

/// What happens when a game ends: everything that has health is removed,
/// the scores are closed out, and a new craft is put in place for the next
/// game. Returns the name of the new craft.
pub fn on_enter_game_over(world: &mut World, app_globals: &mut AppGlobals) -> (craft: Entity)
    requires
        old(world).wf(),
        old(world).next_entity < u64::MAX,
    ensures
        final(world).wf(),
        craft == old(world).next_entity,
        final(world).next_entity == old(world).next_entity + 1,
        final(world).bodies@.drop_last() == old(world).bodies@.filter(
            |body: Body| !damageable(body),
        ),
        final(world).bodies.len() > 0,
        final(world).bodies@.last().entity == craft,
        is_spaceship(final(world).bodies@.last()),
        *final(app_globals) == old(app_globals).closed_out(),
{
    despawn_all_entities(world);
    app_globals.final_score_update();
    spawn_spaceship(world)
}

} // verus!
