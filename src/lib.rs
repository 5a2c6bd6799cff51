//! A Minesweeper board engine: mine placement, adjacency counts, reveal and
//! flood fill, flag bookkeeping, win and loss detection, and the mapping from
//! screen points to grid cells.

pub mod board;
pub mod config;
pub mod diagnostics;
pub mod game;
pub mod game_controls;
pub mod game_state;
pub mod laws;
pub mod tile;
pub mod utils;
pub mod vector2;
