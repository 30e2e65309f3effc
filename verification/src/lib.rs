//! A competitive-scoring engine: time-bounded tournaments, a per-game global
//! leaderboard and bounded per-player score histories, with every operation
//! stated as a contract over a mathematical model of the stored state.
//!
//! The crate also carries the small position and health rules of the game
//! world (`components`, `systems`).

use vstd::prelude::*;

pub mod bounded;
pub mod components;
pub mod contract;
pub mod errors;
pub mod keyed;
pub mod laws;
pub mod leaderboard;
pub mod pagination;
pub mod ranking;
pub mod rules;
pub mod scores;
pub mod storage;
pub mod systems;
pub mod tournaments;
pub mod types;

verus! {

/// Adds two numbers.
pub fn add(left: u64, right: u64) -> (sum: u64)
    requires
        left + right <= u64::MAX,
    ensures
        sum == left + right,
{
    left + right
}

} // verus!
