//! Where a session stands.

use vstd::prelude::*;

verus! {

#[derive(Debug, Clone, Copy, PartialEq, Eq, Structural)]
pub enum GameState {
    NotStarted,
    Playing,
    GameOver,
    GameWon,
}

} // verus!
