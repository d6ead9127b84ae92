pub mod game_logic;
pub mod menu;
pub mod utils;
