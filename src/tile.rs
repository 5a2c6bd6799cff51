//! One grid position of the board.

use vstd::prelude::*;

verus! {

/// What the player sees of a tile: exactly one of these holds at any time.
#[derive(Debug, Clone, Copy, PartialEq, Eq, Structural)]
pub enum TileState {
    Hidden,
    Flagged,
    Revealed,
}

/// One cell of the grid: whether it holds a mine, what the player sees of it,
/// and how many of its neighbours hold a mine.
#[derive(Debug, Clone, Copy, PartialEq, Eq, Structural)]
pub struct Tile {
    pub has_mine: bool,
    pub state: TileState,
    pub num_mines_around: i32,
}

impl Default for Tile {
    fn default() -> (t: Tile)
        ensures
            !t.has_mine,
            t.state == TileState::Hidden,
            t.num_mines_around == 0,
    {
        Tile { has_mine: false, state: TileState::Hidden, num_mines_around: 0 }
    }
}

impl Tile {
    /// A hidden tile without a mine.
    pub open spec fn blank() -> Tile {
        Tile { has_mine: false, state: TileState::Hidden, num_mines_around: 0 }
    }

    /// The same tile, with `state` replaced.
    pub open spec fn with_state(self, state: TileState) -> Tile {
        Tile { state, ..self }
    }

    pub fn update_num_mines_around(&mut self, num_mines_around: i32)
        ensures
            *final(self) == (Tile { num_mines_around, ..*old(self) }),
    {
        self.num_mines_around = num_mines_around;
    }
}

} // verus!
