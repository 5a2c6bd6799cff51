//! Level presets, as read from the configuration.

use vstd::prelude::*;

verus! {

/// One level preset: its label, and the size and mine count it starts.
#[derive(Debug, Clone)]
pub struct GameLevelConfig {
    pub name: String,
    pub rows: i32,
    pub cols: i32,
    pub mines: i32,
}

/// The level presets on offer.
#[derive(Debug, Clone)]
pub struct Config {
    pub levels: Vec<GameLevelConfig>,
}

} // verus!
