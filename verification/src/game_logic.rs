pub mod board_logic;
pub mod check_rules;
pub mod game_heuristics;
pub mod minmax_logic;
pub mod movement_logic;
pub mod state_logic;

use vstd::prelude::*;

verus! {

/// The tiles a figure on `from_tile` may move to.
#[derive(Debug)]
pub struct PossibleMoves {
    pub from_tile: (u8, u8),
    pub to: Vec<(u8, u8)>,
}

} // verus!
