//! The level menu: one button per level preset.

use vstd::prelude::*;
use crate::config::Config;

verus! {

/// The labels of the menu buttons, one per level, in the order of the presets.
#[derive(Debug)]
pub struct GameControls {
    buttons: Vec<String>,
}

impl View for GameControls {
    type V = Seq<Seq<char>>;

    closed spec fn view(&self) -> Seq<Seq<char>> {
        self.buttons@.map_values(|b: String| b@)
    }
}

impl GameControls {
    /// One button per level of `config`, labelled with the level's name.
    pub fn new(config: &Config) -> (g: GameControls)
        ensures
            g@.len() == config.levels@.len(),
            forall|i: int| 0 <= i < g@.len() ==> #[trigger] g@[i] == config.levels@[i].name@,
    {
        let mut buttons: Vec<String> = Vec::new();
        let mut i: usize = 0;
        while i < config.levels.len()
            invariant
                i <= config.levels@.len(),
                buttons@.len() == i,
                forall|j: int| 0 <= j < i ==> #[trigger] buttons@[j]@ == config.levels@[j].name@,
            decreases config.levels@.len() - i,
        {
            let name = config.levels[i].name.clone();
            buttons.push(name);
            i = i + 1;
        }
        let g = GameControls { buttons };
        assert(g@.len() == config.levels@.len());
        g
    }

    /// Number of buttons.
    pub fn len(&self) -> (n: usize)
        ensures
            n == self@.len(),
    {
        self.buttons.len()
    }

    /// The label of the `i`-th button.
    pub fn label(&self, i: usize) -> (s: &String)
        requires
            i < self@.len(),
        ensures
            s@ == self@[i as int],
    {
        &self.buttons[i]
    }
}

} // verus!
