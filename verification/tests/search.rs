use rchess::game_logic::board_logic::{Board, RochadeTracker};
use rchess::game_logic::game_heuristics::{evaluate_board as evaluate_with_tables, pst_board_val};
use rchess::game_logic::minmax_logic::{evaluate_board, mmax, mmin, search_due, MinMaxData};
use rchess::game_logic::movement_logic::{ChessMove, MoveType};
use rchess::utils::core_types::{FigType, Figure, PlayerColor};

fn fig(t: FigType, c: PlayerColor) -> Option<Figure> {
    Some(Figure { fig_type: t, player_color: c })
}

fn board_with(figs: &[((u8, u8), FigType, PlayerColor)]) -> Board {
    let mut b = Board(
        [[None; 8]; 8],
        RochadeTracker::new(PlayerColor::White),
        RochadeTracker::new(PlayerColor::Black),
        None,
    );
    for (t, ft, c) in figs {
        b.set_fig_on_tile(*t, fig(*ft, *c));
    }
    b
}

#[test]
fn balanced_start_evaluates_to_zero() {
    let b = Board::new();
    assert_eq!(evaluate_board(&b, &PlayerColor::White), 0);
    assert_eq!(evaluate_board(&b, &PlayerColor::Black), 0);
}

#[test]
fn search_balance_counts_material() {
    let b = board_with(&[
        ((0, 4), FigType::King, PlayerColor::White),
        ((7, 4), FigType::King, PlayerColor::Black),
        ((3, 3), FigType::Queen, PlayerColor::White),
        ((5, 5), FigType::Rook, PlayerColor::Black),
        ((6, 6), FigType::Pawn, PlayerColor::Black),
    ]);
    assert_eq!(evaluate_board(&b, &PlayerColor::White), 2);
    assert_eq!(evaluate_board(&b, &PlayerColor::Black), -2);
}

#[test]
fn table_evaluation_of_lone_kings() {
    let b = board_with(&[
        ((0, 4), FigType::King, PlayerColor::White),
        ((7, 4), FigType::King, PlayerColor::Black),
    ]);
    assert_eq!(pst_board_val(&b), 0);
    assert_eq!(evaluate_with_tables(&b, &PlayerColor::White), 0);
    assert_eq!(evaluate_with_tables(&b, &PlayerColor::Black), 0);
    let b = board_with(&[
        ((0, 6), FigType::King, PlayerColor::White),
        ((7, 4), FigType::King, PlayerColor::Black),
        ((1, 0), FigType::Pawn, PlayerColor::White),
    ]);
    assert_eq!(pst_board_val(&b), 35);
    assert_eq!(evaluate_with_tables(&b, &PlayerColor::White), 135);
    assert_eq!(evaluate_with_tables(&b, &PlayerColor::Black), -65);
}

#[test]
fn black_tables_are_white_tables_seen_from_black() {
    let white = board_with(&[
        ((0, 6), FigType::King, PlayerColor::White),
        ((3, 3), FigType::Knight, PlayerColor::White),
        ((6, 1), FigType::Pawn, PlayerColor::White),
        ((5, 0), FigType::Bishop, PlayerColor::Black),
    ]);
    let black = board_with(&[
        ((7, 6), FigType::King, PlayerColor::Black),
        ((4, 3), FigType::Knight, PlayerColor::Black),
        ((1, 1), FigType::Pawn, PlayerColor::Black),
        ((2, 0), FigType::Bishop, PlayerColor::White),
    ]);
    assert_eq!(pst_board_val(&black), -pst_board_val(&white));
    assert_eq!(pst_board_val(&white), 30 + 20 + 50 + 10);
}

#[test]
fn table_evaluation_of_the_start_is_zero_sum() {
    let b = Board::new();
    assert_eq!(pst_board_val(&b), 0);
    assert_eq!(evaluate_with_tables(&b, &PlayerColor::White), 0);
    assert_eq!(evaluate_with_tables(&b, &PlayerColor::Black), 0);
}

#[test]
fn new_val_has_no_move() {
    let d: MinMaxData = MinMaxData::new_val(7);
    assert_eq!(d.value, 7);
    assert!(d.max_move.is_none());
}

#[test]
fn depth_one_search_takes_the_rook() {
    let b = board_with(&[
        ((0, 0), FigType::King, PlayerColor::White),
        ((7, 7), FigType::King, PlayerColor::Black),
        ((3, 3), FigType::Queen, PlayerColor::White),
        ((3, 6), FigType::Rook, PlayerColor::Black),
    ]);
    let res = mmax(PlayerColor::White, 1, &b, i16::MIN, i16::MAX);
    assert_eq!(res.value, 8);
    assert_eq!(
        res.max_move,
        Some(ChessMove { from_tile: (3, 3), to_tile: (3, 6), move_type: MoveType::Norm })
    );
}

#[test]
fn depth_two_search_at_the_start_is_even() {
    let b = Board::new();
    let res = mmax(PlayerColor::White, 2, &b, i16::MIN, i16::MAX);
    assert_eq!(res.value, 0);
    assert!(res.max_move.is_some());
}

#[test]
fn depth_zero_search_is_the_balance() {
    let b = Board::new();
    let res = mmax(PlayerColor::Black, 0, &b, i16::MIN, i16::MAX);
    assert_eq!(res.value, 0);
    assert!(res.max_move.is_none());
    assert_eq!(mmin(PlayerColor::Black, 0, &b, i16::MIN, i16::MAX), 0);
}

#[test]
fn checkmated_player_has_the_lowest_value() {
    // Back rank mate: the white king is boxed in by its pawns and a black rook checks.
    let b = board_with(&[
        ((0, 6), FigType::King, PlayerColor::White),
        ((1, 5), FigType::Pawn, PlayerColor::White),
        ((1, 6), FigType::Pawn, PlayerColor::White),
        ((1, 7), FigType::Pawn, PlayerColor::White),
        ((0, 0), FigType::Rook, PlayerColor::Black),
        ((7, 4), FigType::King, PlayerColor::Black),
    ]);
    let res = mmax(PlayerColor::White, 1, &b, i16::MIN, i16::MAX);
    assert_eq!(res.value, i16::MIN);
    assert!(res.max_move.is_none());
    assert_eq!(mmin(PlayerColor::White, 1, &b, i16::MIN, i16::MAX), i16::MAX);
}

#[test]
fn computer_searches_on_its_turn_once() {
    assert!(search_due(PlayerColor::Black, PlayerColor::White, false));
    assert!(!search_due(PlayerColor::Black, PlayerColor::White, true));
    assert!(!search_due(PlayerColor::White, PlayerColor::White, false));
    assert!(search_due(PlayerColor::White, PlayerColor::Black, false));
}

#[test]
fn depth_two_search_sees_the_recapture() {
    let b = board_with(&[
        ((0, 0), FigType::King, PlayerColor::White),
        ((7, 7), FigType::King, PlayerColor::Black),
        ((3, 3), FigType::Queen, PlayerColor::White),
        ((3, 6), FigType::Pawn, PlayerColor::Black),
        ((7, 6), FigType::Rook, PlayerColor::Black),
    ]);
    let greedy = mmax(PlayerColor::White, 1, &b, i16::MIN, i16::MAX);
    assert_eq!(greedy.value, 3);
    assert_eq!(
        greedy.max_move,
        Some(ChessMove { from_tile: (3, 3), to_tile: (3, 6), move_type: MoveType::Norm })
    );
    let careful = mmax(PlayerColor::White, 2, &b, i16::MIN, i16::MAX);
    assert_eq!(careful.value, 2);
    assert_ne!(careful.max_move.unwrap().to_tile, (3, 6));
}
