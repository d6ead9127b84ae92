use rchess::game_logic::board_logic::{Board, RochadeTracker};
use rchess::game_logic::check_rules::single_king;
use rchess::game_logic::minmax_logic::search_ready;
use rchess::game_logic::movement_logic::{castling_decidable, ChessMove, MoveType};
use rchess::game_logic::state_logic::GameState;
use rchess::utils::core_types::{FigType, Figure, PlayerColor};
use rchess::utils::is_pawn_name;

fn fig(t: FigType, c: PlayerColor) -> Option<Figure> {
    Some(Figure { fig_type: t, player_color: c })
}

fn empty_board() -> Board {
    Board(
        [[None; 8]; 8],
        RochadeTracker::new(PlayerColor::White),
        RochadeTracker::new(PlayerColor::Black),
        None,
    )
}

#[test]
fn kings_are_found_and_counted() {
    let mut b = empty_board();
    assert!(!b.has_king_of(PlayerColor::White));
    assert!(single_king(&b, PlayerColor::White));
    b.set_fig_on_tile((0, 4), fig(FigType::King, PlayerColor::White));
    assert!(b.has_king_of(PlayerColor::White));
    assert!(!b.has_king_of(PlayerColor::Black));
    assert!(single_king(&b, PlayerColor::White));
    b.set_fig_on_tile((5, 5), fig(FigType::King, PlayerColor::White));
    assert!(!single_king(&b, PlayerColor::White));
    assert!(single_king(&b, PlayerColor::Black));
}

#[test]
fn castling_is_decidable_at_the_start() {
    let b = Board::new();
    assert!(castling_decidable(&b, PlayerColor::White));
    assert!(castling_decidable(&b, PlayerColor::Black));
    let mut no_black_king = empty_board();
    no_black_king.set_fig_on_tile((0, 4), fig(FigType::King, PlayerColor::White));
    no_black_king.set_fig_on_tile((0, 7), fig(FigType::Rook, PlayerColor::White));
    assert!(!castling_decidable(&no_black_king, PlayerColor::White));
    no_black_king.set_fig_on_tile((7, 4), fig(FigType::King, PlayerColor::Black));
    assert!(castling_decidable(&no_black_king, PlayerColor::White));
}

#[test]
fn searches_from_the_start_can_be_made() {
    let b = Board::new();
    assert!(search_ready(&b, PlayerColor::White, 0));
    assert!(search_ready(&b, PlayerColor::White, 2));
    assert!(search_ready(&b, PlayerColor::Black, 1));
}

#[test]
fn searches_without_a_king_or_with_two_are_refused() {
    let mut b = empty_board();
    b.set_fig_on_tile((0, 4), fig(FigType::King, PlayerColor::White));
    assert!(!search_ready(&b, PlayerColor::White, 1));
    b.set_fig_on_tile((7, 4), fig(FigType::King, PlayerColor::Black));
    assert!(search_ready(&b, PlayerColor::White, 1));
    b.set_fig_on_tile((7, 0), fig(FigType::King, PlayerColor::Black));
    assert!(!search_ready(&b, PlayerColor::White, 1));
}

#[test]
fn a_king_that_can_be_taken_stops_the_search() {
    let mut b = empty_board();
    b.set_fig_on_tile((0, 0), fig(FigType::King, PlayerColor::White));
    b.set_fig_on_tile((7, 7), fig(FigType::King, PlayerColor::Black));
    // Black stands in check with white to move: the queen may take the king.
    b.set_fig_on_tile((6, 6), fig(FigType::Queen, PlayerColor::White));
    assert!(search_ready(&b, PlayerColor::White, 0));
    assert!(!search_ready(&b, PlayerColor::White, 1));
    // With black to move the king steps aside or takes the queen.
    assert!(search_ready(&b, PlayerColor::Black, 1));
}

#[test]
fn picking_needs_both_kings() {
    let g = GameState::new();
    assert!(g.pick_ready((0, 4)));
    assert!(g.pick_ready((1, 0)));
    let mut g2 = GameState::new();
    g2.fat_board.board.set_fig_on_tile((7, 4), None);
    assert!(!g2.pick_ready((1, 0)));
}

#[test]
fn moves_are_ready_when_their_tiles_and_names_fit() {
    let g = GameState::new();
    let step = ChessMove { from_tile: (1, 0), to_tile: (2, 0), move_type: MoveType::Norm };
    assert!(g.execute_ready(&step));
    let off = ChessMove { from_tile: (1, 0), to_tile: (8, 0), move_type: MoveType::Norm };
    assert!(!g.execute_ready(&off));
    let promote = ChessMove { from_tile: (1, 0), to_tile: (2, 0), move_type: MoveType::Promoting };
    assert!(g.execute_ready(&promote));
    let promote_rook = ChessMove { from_tile: (0, 0), to_tile: (2, 0), move_type: MoveType::Promoting };
    assert!(!g.execute_ready(&promote_rook));
    let passing = ChessMove { from_tile: (1, 0), to_tile: (2, 1), move_type: MoveType::Passing };
    assert!(!g.execute_ready(&passing));
}

#[test]
fn pawn_names() {
    assert!(is_pawn_name("Pawn a2", '2'));
    assert!(is_pawn_name("Pawn h7", '7'));
    assert!(!is_pawn_name("Pawn h7", '2'));
    assert!(!is_pawn_name("Pawn i2", '2'));
    assert!(!is_pawn_name("Rook a1", '1'));
    assert!(!is_pawn_name("Pawn a22", '2'));
}

#[test]
fn the_starting_state_fits_together() {
    let g = GameState::new();
    assert!(g.state_ready());
    let mut renamed = GameState::new();
    renamed.fat_board.asset_map[1][0] = Some("Rook a1");
    assert!(!renamed.state_ready());
    let mut unnamed = GameState::new();
    unnamed.fat_board.asset_map[0][0] = None;
    assert!(!unnamed.state_ready());
    let mut foreign = GameState::new();
    foreign.chosen_figure = Some((Figure { fig_type: FigType::Pawn, player_color: PlayerColor::Black }, 6, 0));
    assert!(!foreign.state_ready());
    let mut own = GameState::new();
    own.chosen_figure = Some((Figure { fig_type: FigType::Pawn, player_color: PlayerColor::White }, 1, 0));
    assert!(own.state_ready());
    own.possible_moves = Some(vec![ChessMove { from_tile: (1, 0), to_tile: (2, 1), move_type: MoveType::Passing }]);
    assert!(!own.state_ready());
}
