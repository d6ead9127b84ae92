use rchess::game_logic::movement_logic::{ChessMove, MoveType};
use rchess::game_logic::state_logic::{ClickOutcome, GameState};
use rchess::utils::core_types::{FigType, Figure, PlayerColor};

fn fig(t: FigType, c: PlayerColor) -> Option<Figure> {
    Some(Figure { fig_type: t, player_color: c })
}

fn sorted(mut v: Vec<(u8, u8)>) -> Vec<(u8, u8)> {
    v.sort();
    v
}

#[test]
fn new_game_state_names_every_figure() {
    let g = GameState::new();
    assert_eq!(g.player_turn, PlayerColor::White);
    assert_eq!(g.move_number, 0);
    assert!(g.chosen_figure.is_none());
    assert!(g.possible_moves.is_none());
    assert_eq!(g.get_figure_name(0, 0), Some("Rook a1"));
    assert_eq!(g.get_figure_name(0, 4), Some("King e1"));
    assert_eq!(g.get_figure_name(1, 0), Some("Pawn a2"));
    assert_eq!(g.get_figure_name(6, 7), Some("Pawn h7"));
    assert_eq!(g.get_figure_name(7, 3), Some("Queen d8"));
    assert_eq!(g.get_figure_name(3, 3), None);
    assert_eq!(g.get_fig_on_tile(7, 6), fig(FigType::Knight, PlayerColor::Black));
    assert_eq!(g.get_king_position(PlayerColor::Black), (7, 4));
}

#[test]
fn naive_moves_of_a_tile() {
    let g = GameState::new();
    assert_eq!(sorted(g.calculate_naive_moves((1, 0))), vec![(2, 0), (3, 0)]);
    assert!(g.calculate_naive_moves((3, 3)).is_empty());
}

#[test]
fn picking_a_pawn_offers_its_steps() {
    let mut g = GameState::new();
    match g.click_tile((1, 4)) {
        ClickOutcome::Picked(targets) => assert_eq!(sorted(targets), vec![(2, 4), (3, 4)]),
        other => panic!("expected a pick, got {:?}", other),
    }
    assert_eq!(g.chosen_figure, Some((Figure { fig_type: FigType::Pawn, player_color: PlayerColor::White }, 1, 4)));
    assert!(g.move_is_valid((1, 4), (3, 4)));
    assert!(!g.move_is_valid((1, 4), (4, 4)));
    assert_eq!(
        g.pick_is_valid((1, 4), (3, 4)),
        Some(ChessMove { from_tile: (1, 4), to_tile: (3, 4), move_type: MoveType::DoublePawn })
    );
    assert_eq!(g.pick_is_valid((1, 4), (5, 5)), None);
}

#[test]
fn picking_then_moving_plays_the_move() {
    let mut g = GameState::new();
    g.click_tile((1, 4));
    match g.click_tile((3, 4)) {
        ClickOutcome::Moved(effects) => {
            assert_eq!(effects.relocate, vec![("Pawn e2", (3, 4))]);
            assert!(effects.despawn.is_empty());
            assert!(effects.spawn_queen.is_none());
        },
        other => panic!("expected a move, got {:?}", other),
    }
    assert_eq!(g.get_fig_on_tile(3, 4), fig(FigType::Pawn, PlayerColor::White));
    assert_eq!(g.get_fig_on_tile(1, 4), None);
    assert_eq!(g.get_figure_name(3, 4), Some("Pawn e2"));
    assert_eq!(g.get_figure_name(1, 4), None);
    assert_eq!(g.player_turn, PlayerColor::Black);
    assert_eq!(g.move_number, 2);
    assert!(g.chosen_figure.is_none());
    assert!(g.possible_moves.is_none());
}

#[test]
fn clicking_elsewhere_drops_the_pick() {
    let mut g = GameState::new();
    g.click_tile((1, 4));
    assert!(matches!(g.click_tile((5, 5)), ClickOutcome::Dropped));
    assert!(g.chosen_figure.is_none());
    assert!(g.possible_moves.is_none());
    assert_eq!(g.player_turn, PlayerColor::White);
    assert_eq!(g.move_number, 1);
    assert_eq!(g.get_fig_on_tile(1, 4), fig(FigType::Pawn, PlayerColor::White));
}

#[test]
fn clicking_an_empty_or_enemy_tile_is_ignored() {
    let mut g = GameState::new();
    assert!(matches!(g.click_tile((3, 3)), ClickOutcome::Ignored));
    assert!(matches!(g.click_tile((6, 3)), ClickOutcome::Ignored));
    assert!(g.chosen_figure.is_none());
    assert_eq!(g.move_number, 0);
}

#[test]
fn a_capture_removes_the_taken_asset() {
    let mut g = GameState::new();
    let moves = [((1, 4), (3, 4)), ((6, 3), (4, 3)), ((3, 4), (4, 3))];
    for (from, to) in moves {
        assert!(matches!(g.click_tile(from), ClickOutcome::Picked(_)));
        match g.click_tile(to) {
            ClickOutcome::Moved(effects) => {
                if to == (4, 3) && from == (3, 4) {
                    assert_eq!(effects.despawn, vec!["Pawn d7"]);
                }
            },
            other => panic!("expected a move, got {:?}", other),
        }
    }
    assert_eq!(g.get_figure_name(4, 3), Some("Pawn e2"));
    assert_eq!(g.move_number, 6);
}

#[test]
fn promotion_spawns_a_queen_named_after_the_pawn() {
    let mut g = GameState::new();
    // Put the white a-pawn on the seventh row in place of the black one.
    g.fat_board.board.set_fig_on_tile((1, 0), None);
    g.fat_board.set_name_on_tile((1, 0), None);
    g.fat_board.board.set_fig_on_tile((6, 0), fig(FigType::Pawn, PlayerColor::White));
    g.fat_board.set_name_on_tile((6, 0), Some("Pawn a2"));
    let mv = ChessMove { from_tile: (6, 0), to_tile: (7, 1), move_type: MoveType::Promoting };
    let effects = g.execute_move("Pawn a2", &mv);
    assert_eq!(effects.relocate, vec![("Pawn a2", (7, 1))]);
    assert_eq!(effects.despawn, vec!["Knight b8", "Pawn a2"]);
    assert_eq!(effects.spawn_queen, Some((PlayerColor::White, "Queen a2", (7, 1))));
    assert_eq!(g.get_fig_on_tile(7, 1), fig(FigType::Queen, PlayerColor::White));
    assert_eq!(g.get_figure_name(7, 1), Some("Queen a2"));
    assert_eq!(g.get_figure_name(6, 0), None);
    assert_eq!(g.player_turn, PlayerColor::Black);
}

#[test]
fn castling_relocates_the_rook_asset() {
    let mut g = GameState::new();
    for t in [(0, 5), (0, 6)] {
        g.fat_board.board.set_fig_on_tile(t, None);
        g.fat_board.set_name_on_tile(t, None);
    }
    match g.click_tile((0, 4)) {
        ClickOutcome::Picked(targets) => assert_eq!(sorted(targets), vec![(0, 5), (0, 6)]),
        other => panic!("expected a pick, got {:?}", other),
    }
    assert_eq!(
        g.pick_is_valid((0, 4), (0, 6)),
        Some(ChessMove { from_tile: (0, 4), to_tile: (0, 6), move_type: MoveType::RochadeRight })
    );
    match g.click_tile((0, 6)) {
        ClickOutcome::Moved(effects) => {
            assert_eq!(effects.relocate, vec![("King e1", (0, 6)), ("Rook h1", (0, 5))]);
            assert!(effects.despawn.is_empty());
        },
        other => panic!("expected a move, got {:?}", other),
    }
    assert_eq!(g.get_figure_name(0, 5), Some("Rook h1"));
    assert_eq!(g.get_figure_name(0, 6), Some("King e1"));
    assert_eq!(g.get_fig_on_tile(0, 5), fig(FigType::Rook, PlayerColor::White));
}

#[test]
fn en_passant_removes_the_passed_pawn_asset() {
    let mut g = GameState::new();
    // White pawn e2 to e5, then black d7 to d5 next to it.
    g.fat_board.move_name((1, 4), (4, 4));
    g.fat_board.board.move_fig_on_board((1, 4), (4, 4));
    g.player_turn = PlayerColor::Black;
    g.click_tile((6, 3));
    assert!(matches!(g.click_tile((4, 3)), ClickOutcome::Moved(_)));
    assert_eq!(g.player_turn, PlayerColor::White);
    let mv = ChessMove { from_tile: (4, 4), to_tile: (5, 3), move_type: MoveType::Passing };
    let effects = g.execute_move("Pawn e2", &mv);
    assert_eq!(effects.despawn, vec!["Pawn d7"]);
    assert_eq!(g.get_figure_name(4, 3), None);
    assert_eq!(g.get_fig_on_tile(4, 3), None);
    assert_eq!(g.get_figure_name(5, 3), Some("Pawn e2"));
}

#[test]
fn fat_update_moves_names_with_figures() {
    let mut g = GameState::new();
    let mv = ChessMove { from_tile: (0, 6), to_tile: (2, 5), move_type: MoveType::Norm };
    g.fat_board.fat_update(&mv, &PlayerColor::White);
    assert_eq!(g.fat_board.name_on_tile((2, 5)), Some("Knight g1"));
    assert_eq!(g.fat_board.name_on_tile((0, 6)), None);
    assert_eq!(g.fat_board.board.get_fig_on_tile(2, 5), fig(FigType::Knight, PlayerColor::White));
}
