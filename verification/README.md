# rchess

A chess game: the rules, the move generator, the board evaluation and an alpha-beta
search, written in Verus and proved against their contracts, with a Bevy application
around them.

Layout:

- `src/utils` - tiles, figures, directions, tile names and asset names; the engine's hash
  collections of tiles behind trusted wrappers (`tile_collections.rs`).
- `src/game_logic/board_logic.rs` - the board, castling trackers, check detection and the
  board update for every kind of move.
- `src/game_logic/movement_logic.rs` - the moves of every figure and the move generator
  that filters them by the rules of check and pins.
- `src/game_logic/check_rules.rs` - facts about check: a check persists unless a move stops
  it, so the generated moves do not depend on which checking figure is looked at, and the
  generator keeps exactly the moves after which the own king is not in check.
- `src/game_logic/game_heuristics.rs` - move ratings and the evaluation with piece square
  tables, which score black from black's side of the board.
- `src/game_logic/minmax_logic.rs` - the minimax value of a position and the alpha-beta
  search, proved to report that value, and `search_ready`, which tells whether a search
  can be made from a position.
- `src/game_logic/state_logic.rs` - the game state with the asset names of the figures, and
  what a click on a tile does.
- `src/menu` - which page of the menus follows which input.
- `app/` - the Bevy application: scene, picking, menus and the computer player's tasks.
- `tests/` - tests of the library on concrete positions.
