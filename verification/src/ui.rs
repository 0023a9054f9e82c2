//! The ledger that the heads-up display reads.

use vstd::prelude::*;

verus! {

/// The castle's remaining health at the start of a game.
pub const STARTING_HEALTH: usize = 20;

/// The player's standing: the castle's health, the score, and the wave
/// baseline from which the health of the next enemy is drawn.
#[derive(Debug, Clone, Copy, PartialEq, Eq, Structural)]
pub struct GameState {
    pub health: usize,
    pub score: u64,
    pub enemy_health: u32,
}

impl Default for GameState {
    fn default() -> (state: Self)
        ensures
            state == (GameState { health: STARTING_HEALTH, score: 0, enemy_health: 1 }),
    {
        GameState { health: STARTING_HEALTH, score: 0, enemy_health: 1 }
    }
}

impl GameState {
    /// Whether the castle still stands. Once it has fallen, the wave is held
    /// back, defeats score nothing, and breaches find no health to take.
    pub open spec fn alive(self) -> bool {
        self.health > 0
    }

    /// One ledger follows another when health has not grown and neither the
    /// score nor the wave baseline has shrunk.
    pub open spec fn follows(self, earlier: GameState) -> bool {
        &&& self.health <= earlier.health
        &&& self.score >= earlier.score
        &&& self.enemy_health >= earlier.enemy_health
    }

    /// The ledger after an enemy got through to the castle: one point of
    /// health is lost while any is left.
    pub open spec fn breached(self) -> GameState {
        if self.health > 0 {
            GameState { health: (self.health - 1) as usize, ..self }
        } else {
            self
        }
    }

    /// The ledger after an enemy of the given full health was defeated: its
    /// full health is added to the score while the castle stands. The score
    /// stops at the largest value it can hold.
    pub open spec fn rewarded(self, max_health: i64) -> GameState {
        if self.health > 0 && max_health > 0 {
            GameState {
                score: if self.score + max_health > u64::MAX {
                    u64::MAX
                } else {
                    (self.score + max_health) as u64
                },
                ..self
            }
        } else {
            self
        }
    }

    /// Records a breach. Returns whether the castle lost health by it.
    pub fn record_breach(&mut self) -> (lost: bool)
        ensures
            *final(self) == old(self).breached(),
            lost == old(self).alive(),
    {
        if self.health > 0 {
            self.health = self.health - 1;
            true
        } else {
            false
        }
    }

    /// Records the defeat of an enemy whose full health was `max_health`.
    pub fn record_defeat(&mut self, max_health: i64)
        ensures
            *final(self) == old(self).rewarded(max_health),
    {
        if self.health > 0 && max_health > 0 {
            self.score = self.score.saturating_add(max_health as u64);
        }
    }
}

/// Ledgers only ever move one way: whatever follows a ledger that follows a
/// third also follows the third.
pub proof fn lemma_follows_transitive(a: GameState, b: GameState, c: GameState)
    requires
        b.follows(a),
        c.follows(b),
    ensures
        c.follows(a),
{
}

} // verus!
