//! Counters that outlive a single game: scores and the level.

use vstd::prelude::*;

verus! {

/// The running score, the best and the last final score, and the level,
/// which counts the waves of the current game and starts at one.
#[derive(Clone, Copy, Debug, PartialEq, Eq, Structural)]
pub struct AppGlobals {
    pub score: i32,
    pub high_score: i32,
    pub last_score: i32,
    pub level: i32,
}

impl AppGlobals {
    /// The counters at the end of a game that ended with these counters: the
    /// score becomes the last score and, if it is the best so far, the high
    /// score; score and level start over.
    pub open spec fn closed_out(self) -> AppGlobals {
        AppGlobals {
            score: 0,
            high_score: if self.score > self.high_score {
                self.score
            } else {
                self.high_score
            },
            last_score: self.score,
            level: 1,
        }
    }

    /// Whether the level is one whose wave is a boss wave: every fourth.
    pub open spec fn spec_is_boss_level(self) -> bool {
        self.level % 4 == 0
    }

    /// The counters at the start of the first game.
    pub fn new() -> (globals: AppGlobals)
        ensures
            globals == (AppGlobals { score: 0, high_score: 0, last_score: 0, level: 1 }),
    {
        AppGlobals { score: 0, high_score: 0, last_score: 0, level: 1 }
    }

    /// Closes out a game.
    pub fn final_score_update(&mut self)
        ensures
            *final(self) == old(self).closed_out(),
    {
        self.last_score = self.score;
        if self.last_score > self.high_score {
            self.high_score = self.last_score;
        }
        self.score = 0;
        self.level = 1;
    }

    /// Whether the level is one whose wave is a boss wave.
    pub fn is_boss_level(&self) -> (boss: bool)
        ensures
            boss == self.spec_is_boss_level(),
    {
        if self.level >= 0 {
            self.level % 4 == 0
        } else {
            let back: i64 = 0 - self.level as i64;
            assert((-(self.level as int)) % 4 == 0 <==> self.level as int % 4 == 0)
                by (nonlinear_arith);
            back % 4 == 0
        }
    }
}

} // verus!
