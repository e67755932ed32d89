//! Data passed between gameplay, background work, and storage.

use vstd::prelude::*;

verus! {

/// A small, owned snapshot that can leave the game for background processing.
#[derive(Clone, Debug, PartialEq, Eq)]
pub struct RoundResult {
    /// The player represented by this snapshot.
    pub player_name: String,
    /// The number of successful dodges in the round.
    pub dodges: u32,
}

/// A computed score ready to serialize or persist.
#[derive(Clone, Debug, PartialEq, Eq)]
pub struct PlayerScore {
    /// The player who earned the score.
    pub player_name: String,
    /// A nonnegative score.
    pub score: i64,
}

} // verus!
