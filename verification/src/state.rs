//! The top-level run state of the game loop.
use vstd::prelude::*;

verus! {

#[derive(Clone, Copy, PartialEq, Eq, Structural, Debug)]
pub enum RunState {
    AwaitingInput,
    /// The computer-driven actors take their turn.
    EnemyTurn,
}

} // verus!
