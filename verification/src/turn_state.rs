//! The three-phase turn cycle shared by every tick.
use vstd::prelude::*;

verus! {

/// The scheduler phase: input is awaited, then the player's action
/// resolves, then the monsters', and the cycle repeats.
#[derive(Clone, Copy, PartialEq, Eq, Structural, Debug)]
pub enum TurnState {
    AwaitingInput,
    PlayerTurn,
    MonsterTurn,
}

} // verus!
