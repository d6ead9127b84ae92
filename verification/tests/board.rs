use rchess::game_logic::board_logic::{Board, RochadeTracker};
use rchess::game_logic::movement_logic::{ChessMove, MoveType};
use rchess::utils::core_types::{Direction, FigType, Figure, PlayerColor};

fn fig(t: FigType, c: PlayerColor) -> Option<Figure> {
    Some(Figure { fig_type: t, player_color: c })
}

/// A board with only the two kings on their starting tiles.
fn kings_only() -> Board {
    let mut b = Board(
        [[None; 8]; 8],
        RochadeTracker::new(PlayerColor::White),
        RochadeTracker::new(PlayerColor::Black),
        None,
    );
    b.set_fig_on_tile((0, 4), fig(FigType::King, PlayerColor::White));
    b.set_fig_on_tile((7, 4), fig(FigType::King, PlayerColor::Black));
    b
}

#[test]
fn new_board_has_the_starting_position() {
    let b = Board::new();
    assert_eq!(b.get_fig_on_tile(0, 0), fig(FigType::Rook, PlayerColor::White));
    assert_eq!(b.get_fig_on_tile(0, 1), fig(FigType::Knight, PlayerColor::White));
    assert_eq!(b.get_fig_on_tile(0, 2), fig(FigType::Bishop, PlayerColor::White));
    assert_eq!(b.get_fig_on_tile(0, 3), fig(FigType::Queen, PlayerColor::White));
    assert_eq!(b.get_fig_on_tile(0, 4), fig(FigType::King, PlayerColor::White));
    assert_eq!(b.get_fig_on_tile(1, 6), fig(FigType::Pawn, PlayerColor::White));
    assert_eq!(b.get_fig_on_tile(6, 2), fig(FigType::Pawn, PlayerColor::Black));
    assert_eq!(b.get_fig_on_tile(7, 3), fig(FigType::Queen, PlayerColor::Black));
    assert_eq!(b.get_fig_on_tile(7, 7), fig(FigType::Rook, PlayerColor::Black));
    for r in 2..6 {
        for c in 0..8 {
            assert_eq!(b.get_fig_on_tile(r, c), None);
        }
    }
    assert_eq!(b.3, None);
}

#[test]
fn kings_are_found_on_their_starting_tiles() {
    let b = Board::new();
    assert_eq!(b.get_king_position(PlayerColor::White), (0, 4));
    assert_eq!(b.get_king_position(PlayerColor::Black), (7, 4));
}

#[test]
fn nobody_is_in_check_at_the_start() {
    let b = Board::new();
    assert!(!b.player_in_check(PlayerColor::White));
    assert!(!b.player_in_check(PlayerColor::Black));
    assert_eq!(b.checking_figure(PlayerColor::White), None);
}

#[test]
fn busy_tiles_are_the_own_figures() {
    let b = Board::new();
    let white = b.get_busy_tiles(PlayerColor::White);
    assert_eq!(white.len(), 16);
    assert!(white.contains(&(0, 0)));
    assert!(white.contains(&(1, 7)));
    assert!(!white.contains(&(6, 0)));
    let black = b.get_busy_tiles(PlayerColor::Black);
    assert_eq!(black.len(), 16);
    assert!(black.contains(&(7, 4)));
}

#[test]
fn tiles_in_direction_stop_at_the_border() {
    let b = Board::new();
    let up = b.get_tiles_in_direction((0, 0), Direction::A, (0, 8));
    assert_eq!(up, vec![(1, 0), (2, 0), (3, 0), (4, 0), (5, 0), (6, 0), (7, 0)]);
    let right = b.get_tiles_in_direction((3, 3), Direction::R, (0, 8));
    assert_eq!(right, vec![(3, 4), (3, 5), (3, 6), (3, 7)]);
    let diag = b.get_tiles_in_direction((2, 5), Direction::BL, (0, 8));
    assert_eq!(diag, vec![(1, 4), (0, 3)]);
    let inner = b.get_tiles_in_direction((0, 4), Direction::A, (1, 7));
    assert_eq!(inner, vec![(1, 4), (2, 4), (3, 4), (4, 4), (5, 4), (6, 4)]);
    assert!(b.get_tiles_in_direction((3, 3), Direction::Unrelated, (0, 8)).is_empty());
}

#[test]
fn first_figure_in_direction() {
    let b = Board::new();
    assert_eq!(
        b.get_first_fig_in_direction((0, 4), Direction::A, (0, 8)),
        Some((Figure { fig_type: FigType::Pawn, player_color: PlayerColor::White }, 1, 4))
    );
    assert_eq!(
        b.get_first_fig_in_direction((3, 3), Direction::A, (0, 8)),
        Some((Figure { fig_type: FigType::Pawn, player_color: PlayerColor::Black }, 6, 3))
    );
    assert_eq!(b.get_first_fig_in_direction((3, 3), Direction::R, (0, 8)), None);
}

#[test]
fn tiles_until_block_include_the_blocker() {
    let b = Board::new();
    let tiles = b._get_tiles_until_block((2, 0), Direction::A);
    assert_eq!(tiles.len(), 4);
    for t in [(3, 0), (4, 0), (5, 0), (6, 0)] {
        assert!(tiles.contains(&t));
    }
}

#[test]
fn rook_on_the_file_checks_the_king() {
    let mut b = kings_only();
    b.set_fig_on_tile((5, 4), fig(FigType::Rook, PlayerColor::Black));
    assert!(b.player_in_check(PlayerColor::White));
    assert_eq!(b.checking_figure(PlayerColor::White), Some((5, 4, FigType::Rook)));
    // A blocker between them ends the check.
    b.set_fig_on_tile((2, 4), fig(FigType::Bishop, PlayerColor::White));
    assert!(!b.player_in_check(PlayerColor::White));
    assert_eq!(b.checking_figure(PlayerColor::White), None);
}

#[test]
fn knight_checks_the_king() {
    let mut b = kings_only();
    b.set_fig_on_tile((2, 3), fig(FigType::Knight, PlayerColor::Black));
    assert!(b.player_in_check(PlayerColor::White));
    assert_eq!(b.checking_figure(PlayerColor::White), Some((2, 3, FigType::Knight)));
    assert!(!b.player_in_check(PlayerColor::Black));
}

#[test]
fn pawn_checks_only_diagonally_forward() {
    let mut b = kings_only();
    b.set_fig_on_tile((1, 3), fig(FigType::Pawn, PlayerColor::Black));
    assert!(b.player_in_check(PlayerColor::White));
    let mut b = kings_only();
    b.set_fig_on_tile((1, 4), fig(FigType::Pawn, PlayerColor::Black));
    assert!(!b.player_in_check(PlayerColor::White));
}

#[test]
fn guards_are_the_own_figures_next_in_each_direction() {
    let b = Board::new();
    let guards = b.guarding_figures(PlayerColor::White, (0, 4));
    assert_eq!(guards.get(&(1, 4)), Some(&Direction::A));
    assert_eq!(guards.get(&(1, 3)), Some(&Direction::AL));
    assert_eq!(guards.get(&(1, 5)), Some(&Direction::AR));
    assert_eq!(guards.get(&(0, 5)), Some(&Direction::R));
    assert_eq!(guards.get(&(0, 3)), Some(&Direction::L));
    assert_eq!(guards.len(), 5);
}

#[test]
fn enemy_circle_lists_rays_and_knights() {
    let mut b = kings_only();
    b.set_fig_on_tile((0, 0), fig(FigType::Rook, PlayerColor::Black));
    b.set_fig_on_tile((2, 5), fig(FigType::Knight, PlayerColor::Black));
    let circle = b.king_enemy_circle(PlayerColor::White, (0, 4));
    assert_eq!(circle.get(&(0, 0)), Some(&(Direction::L, FigType::Rook)));
    assert_eq!(circle.get(&(2, 5)), Some(&(Direction::Unrelated, FigType::Knight)));
    assert_eq!(circle.get(&(7, 4)), Some(&(Direction::A, FigType::King)));
    assert_eq!(circle.len(), 3);
}

#[test]
fn normal_update_moves_the_figure() {
    let mut b = Board::new();
    let mv = ChessMove { from_tile: (1, 4), to_tile: (3, 4), move_type: MoveType::DoublePawn };
    b.update(&mv, &PlayerColor::White);
    assert_eq!(b.get_fig_on_tile(3, 4), fig(FigType::Pawn, PlayerColor::White));
    assert_eq!(b.get_fig_on_tile(1, 4), None);
    assert_eq!(b.3, Some(mv));
}

#[test]
fn capture_replaces_the_figure() {
    let mut b = kings_only();
    b.set_fig_on_tile((3, 3), fig(FigType::Queen, PlayerColor::White));
    b.set_fig_on_tile((3, 6), fig(FigType::Rook, PlayerColor::Black));
    let mv = ChessMove { from_tile: (3, 3), to_tile: (3, 6), move_type: MoveType::Norm };
    b.update(&mv, &PlayerColor::White);
    assert_eq!(b.get_fig_on_tile(3, 6), fig(FigType::Queen, PlayerColor::White));
    assert_eq!(b.get_fig_on_tile(3, 3), None);
}

#[test]
fn promotion_makes_a_queen() {
    let mut b = kings_only();
    b.set_fig_on_tile((6, 0), fig(FigType::Pawn, PlayerColor::White));
    let mv = ChessMove { from_tile: (6, 0), to_tile: (7, 0), move_type: MoveType::Promoting };
    b.update(&mv, &PlayerColor::White);
    assert_eq!(b.get_fig_on_tile(7, 0), fig(FigType::Queen, PlayerColor::White));
    assert_eq!(b.get_fig_on_tile(6, 0), None);
}

#[test]
fn en_passant_removes_the_passed_pawn() {
    let mut b = kings_only();
    b.set_fig_on_tile((4, 4), fig(FigType::Pawn, PlayerColor::White));
    b.set_fig_on_tile((6, 3), fig(FigType::Pawn, PlayerColor::Black));
    let double = ChessMove { from_tile: (6, 3), to_tile: (4, 3), move_type: MoveType::DoublePawn };
    b.update(&double, &PlayerColor::Black);
    let passing = ChessMove { from_tile: (4, 4), to_tile: (5, 3), move_type: MoveType::Passing };
    b.update(&passing, &PlayerColor::White);
    assert_eq!(b.get_fig_on_tile(4, 3), None);
    assert_eq!(b.get_fig_on_tile(4, 4), None);
    assert_eq!(b.get_fig_on_tile(5, 3), fig(FigType::Pawn, PlayerColor::White));
}

#[test]
fn castling_moves_king_and_rook() {
    let mut b = kings_only();
    b.set_fig_on_tile((0, 7), fig(FigType::Rook, PlayerColor::White));
    let mv = ChessMove { from_tile: (0, 4), to_tile: (0, 6), move_type: MoveType::RochadeRight };
    b.update(&mv, &PlayerColor::White);
    assert_eq!(b.get_fig_on_tile(0, 6), fig(FigType::King, PlayerColor::White));
    assert_eq!(b.get_fig_on_tile(0, 5), fig(FigType::Rook, PlayerColor::White));
    assert_eq!(b.get_fig_on_tile(0, 4), None);
    assert_eq!(b.get_fig_on_tile(0, 7), None);

    let mut b = kings_only();
    b.set_fig_on_tile((7, 0), fig(FigType::Rook, PlayerColor::Black));
    let mv = ChessMove { from_tile: (7, 4), to_tile: (7, 2), move_type: MoveType::RochadeLeft };
    b.update(&mv, &PlayerColor::Black);
    assert_eq!(b.get_fig_on_tile(7, 2), fig(FigType::King, PlayerColor::Black));
    assert_eq!(b.get_fig_on_tile(7, 3), fig(FigType::Rook, PlayerColor::Black));
}

#[test]
fn castling_needs_a_free_unattacked_path() {
    let b = Board::new();
    assert!(!b.1.rochade_possible(&b, Direction::L));
    assert!(!b.1.rochade_possible(&b, Direction::R));

    let mut b = kings_only();
    b.set_fig_on_tile((0, 0), fig(FigType::Rook, PlayerColor::White));
    b.set_fig_on_tile((0, 7), fig(FigType::Rook, PlayerColor::White));
    assert!(b.1.rochade_possible(&b, Direction::L));
    assert!(b.1.rochade_possible(&b, Direction::R));

    // A black rook on the d-file attacks the tile the king crosses to the left.
    b.set_fig_on_tile((5, 3), fig(FigType::Rook, PlayerColor::Black));
    assert!(!b.1.rochade_possible(&b, Direction::L));
    assert!(b.1.rochade_possible(&b, Direction::R));
}

#[test]
fn moving_the_king_ends_castling() {
    let mut b = kings_only();
    b.set_fig_on_tile((0, 0), fig(FigType::Rook, PlayerColor::White));
    b.set_fig_on_tile((0, 7), fig(FigType::Rook, PlayerColor::White));
    let away = ChessMove { from_tile: (0, 4), to_tile: (1, 4), move_type: MoveType::Norm };
    b.update(&away, &PlayerColor::White);
    let back = ChessMove { from_tile: (1, 4), to_tile: (0, 4), move_type: MoveType::Norm };
    b.update(&back, &PlayerColor::White);
    assert!(!b.1.rochade_possible(&b, Direction::L));
    assert!(!b.1.rochade_possible(&b, Direction::R));
}

#[test]
fn moving_a_rook_ends_castling_on_its_side_only() {
    let mut b = kings_only();
    b.set_fig_on_tile((0, 0), fig(FigType::Rook, PlayerColor::White));
    b.set_fig_on_tile((0, 7), fig(FigType::Rook, PlayerColor::White));
    let mut t = b.1;
    t._update_tracker(&(0, 0));
    b.1 = t;
    assert!(!b.1.rochade_possible(&b, Direction::L));
    assert!(b.1.rochade_possible(&b, Direction::R));
}

#[test]
fn take_and_move_figures() {
    let mut b = Board::new();
    assert_eq!(b.take_fig_on_tile((0, 1)), fig(FigType::Knight, PlayerColor::White));
    assert_eq!(b.get_fig_on_tile(0, 1), None);
    b.move_fig_on_board((0, 6), (2, 5));
    assert_eq!(b.get_fig_on_tile(2, 5), fig(FigType::Knight, PlayerColor::White));
    assert_eq!(b.get_fig_on_tile(0, 6), None);
}

#[test]
fn both_names_give_the_tiles_until_block() {
    let b = Board::new();
    let a = b.get_tiles_until_block((0, 3), Direction::AR);
    let c = b._get_tiles_until_block((0, 3), Direction::AR);
    assert_eq!(a, c);
    assert_eq!(a.len(), 1);
    assert!(a.contains(&(1, 4)));
}
