//! The rules by which entities move and fight. They are deterministic and
//! never overflow: coordinates stop at 0, health stops at 0 and at the
//! largest value.

use vstd::prelude::*;
use crate::components::{Health, Position};

verus! {

/// The damage of a standard attack.
pub const ATTACK_DAMAGE: u32 = 10;

/// A coordinate read as a signed 32-bit number: a coordinate over
/// `i32::MAX` reads as negative.
pub open spec fn signed_coordinate(x: u32) -> int {
    if x <= i32::MAX {
        x as int
    } else {
        x - 0x1_0000_0000
    }
}

/// The coordinate `x` moved by `delta`: the sum of the signed reading of
/// `x` and `delta`, held within 0 and `i32::MAX`.
pub open spec fn moved_coordinate(x: u32, delta: i32) -> u32 {
    let sum = signed_coordinate(x) + delta;
    if sum < 0 {
        0
    } else if sum > i32::MAX {
        i32::MAX as u32
    } else {
        sum as u32
    }
}

/// The distance between `a` and `b`.
pub open spec fn gap(a: u32, b: u32) -> int {
    if a > b {
        a - b
    } else {
        b - a
    }
}

/// `x`, or `u32::MAX` where `x` is larger.
pub open spec fn capped(x: int) -> int {
    if x > u32::MAX {
        u32::MAX as int
    } else {
        x
    }
}

/// `h` less `damage`, but not below 0.
pub open spec fn damaged(h: u32, damage: u32) -> u32 {
    if h >= damage {
        (h - damage) as u32
    } else {
        0
    }
}

/// `x` moved by `delta`.
fn move_coordinate(x: u32, delta: i32) -> (moved: u32)
    ensures
        moved == moved_coordinate(x, delta),
{
    let signed: i64 = if x <= 0x7FFF_FFFF {
        x as i64
    } else {
        x as i64 - 0x1_0000_0000
    };
    let sum: i64 = signed + delta as i64;
    if sum < 0 {
        0
    } else if sum > 0x7FFF_FFFF {
        0x7FFF_FFFF
    } else {
        sum as u32
    }
}

/// Moves entities.
pub struct MovementSystem;

impl MovementSystem {
    /// The position `position` moved by `dx` and `dy`. A coordinate does
    /// not go below 0.
    pub fn update_position(position: &Position, dx: i32, dy: i32) -> (moved: Position)
        ensures
            moved.0 == moved_coordinate(position.0, dx),
            moved.1 == moved_coordinate(position.1, dy),
    {
        Position(move_coordinate(position.0, dx), move_coordinate(position.1, dy))
    }

    /// The position at `x` and `y`.
    pub fn teleport(x: u32, y: u32) -> (position: Position)
        ensures
            position == Position(x, y),
    {
        Position(x, y)
    }

    /// The Manhattan distance between `pos1` and `pos2`: the sum of the
    /// distances in x and in y, or `u32::MAX` where the sum is larger.
    pub fn manhattan_distance(pos1: &Position, pos2: &Position) -> (distance: u32)
        ensures
            distance == capped(gap(pos1.0, pos2.0) + gap(pos1.1, pos2.1)),
    {
        let dx: u32 = if pos1.0 > pos2.0 {
            pos1.0 - pos2.0
        } else {
            pos2.0 - pos1.0
        };
        let dy: u32 = if pos1.1 > pos2.1 {
            pos1.1 - pos2.1
        } else {
            pos2.1 - pos1.1
        };
        dx.saturating_add(dy)
    }
}

/// Changes the health of entities.
pub struct CombatSystem;

impl CombatSystem {
    /// `health` less `damage`, but not below 0.
    pub fn apply_damage(health: &Health, damage: u32) -> (left: Health)
        ensures
            left.0 == damaged(health.0, damage),
    {
        Health(health.0.saturating_sub(damage))
    }

    /// `health` after a standard attack, which does 10 damage.
    pub fn attack(health: &Health) -> (left: Health)
        ensures
            left.0 == damaged(health.0, ATTACK_DAMAGE),
    {
        Self::apply_damage(health, ATTACK_DAMAGE)
    }

    /// `health` plus `heal_amount`, but not over `u32::MAX`.
    pub fn heal(health: &Health, heal_amount: u32) -> (healed: Health)
        ensures
            healed.0 == capped(health.0 + heal_amount),
    {
        Health(health.0.saturating_add(heal_amount))
    }

    /// Whether the entity has health left.
    pub fn is_alive(health: &Health) -> (alive: bool)
        ensures
            alive == (health.0 > 0),
    {
        health.0 > 0
    }

    /// Whether the entity has no health left.
    pub fn is_dead(health: &Health) -> (dead: bool)
        ensures
            dead == (health.0 == 0),
    {
        health.0 == 0
    }

    /// The health of `value` points.
    pub fn set_health(value: u32) -> (health: Health)
        ensures
            health == Health(value),
    {
        Health(value)
    }

    /// `health` after a standard attack. An older name of `attack`.
    pub fn update_health(health: &Health) -> (left: Health)
        ensures
            left.0 == damaged(health.0, ATTACK_DAMAGE),
    {
        Self::attack(health)
    }
}

} // verus!
