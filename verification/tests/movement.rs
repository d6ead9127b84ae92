use rchess::game_logic::board_logic::{Board, RochadeTracker};
use rchess::game_logic::movement_logic::{
    bishop_moves, black_pawn_moves, calculate_all, classify_move,
    king_moves, knight_moves, maybe_add_rochade, queen_moves, rook_moves, white_pawn_moves,
    ChessMove, MoveBuilder, MoveType,
};
use rchess::game_logic::PossibleMoves;
use rchess::utils::core_types::{Direction, FigType, Figure, PlayerColor};
use bevy::platform::collections::HashSet;

fn fig(t: FigType, c: PlayerColor) -> Option<Figure> {
    Some(Figure { fig_type: t, player_color: c })
}

fn kings_only() -> Board {
    let mut b = Board(
        [[None; 8]; 8],
        RochadeTracker::new(PlayerColor::White),
        RochadeTracker::new(PlayerColor::Black),
        None,
    );
    b.set_fig_on_tile((0, 4), fig(FigType::King, PlayerColor::White));
    b.set_fig_on_tile((7, 4), fig(FigType::King, PlayerColor::Black));
    b
}

fn sorted(mut v: Vec<(u8, u8)>) -> Vec<(u8, u8)> {
    v.sort();
    v
}

#[test]
fn pawns_step_once_or_twice_from_their_row() {
    let b = Board::new();
    assert_eq!(sorted(white_pawn_moves(&b, (1, 4))), vec![(2, 4), (3, 4)]);
    assert_eq!(sorted(black_pawn_moves(&b, (6, 2))), vec![(4, 2), (5, 2)]);
}

#[test]
fn pawns_capture_diagonally_and_are_blocked_ahead() {
    let mut b = kings_only();
    b.set_fig_on_tile((3, 3), fig(FigType::Pawn, PlayerColor::White));
    b.set_fig_on_tile((4, 3), fig(FigType::Rook, PlayerColor::Black));
    b.set_fig_on_tile((4, 4), fig(FigType::Knight, PlayerColor::Black));
    b.set_fig_on_tile((4, 2), fig(FigType::Knight, PlayerColor::White));
    assert_eq!(sorted(white_pawn_moves(&b, (3, 3))), vec![(4, 4)]);
}

#[test]
fn knights_jump_over_figures() {
    let b = Board::new();
    assert_eq!(sorted(knight_moves(&b, (0, 1))), vec![(2, 0), (2, 2)]);
    assert_eq!(sorted(knight_moves(&b, (7, 6))), vec![(5, 5), (5, 7)]);
}

#[test]
fn blocked_figures_have_no_moves_at_the_start() {
    let b = Board::new();
    assert!(rook_moves(&b, (0, 0)).is_empty());
    assert!(bishop_moves(&b, (0, 2)).is_empty());
    assert!(queen_moves(&b, (0, 3)).is_empty());
    assert!(king_moves(&b, (0, 4)).is_empty());
}

#[test]
fn sliding_figures_on_an_open_board() {
    let mut b = kings_only();
    b.set_fig_on_tile((3, 3), fig(FigType::Rook, PlayerColor::White));
    assert_eq!(rook_moves(&b, (3, 3)).len(), 14);
    let mut b = kings_only();
    b.set_fig_on_tile((3, 3), fig(FigType::Bishop, PlayerColor::White));
    assert_eq!(bishop_moves(&b, (3, 3)).len(), 13);
    let mut b = kings_only();
    b.set_fig_on_tile((3, 3), fig(FigType::Queen, PlayerColor::White));
    assert_eq!(queen_moves(&b, (3, 3)).len(), 27);
}

#[test]
fn sliding_stops_at_own_figures_and_takes_enemies() {
    let mut b = kings_only();
    b.set_fig_on_tile((0, 0), fig(FigType::Rook, PlayerColor::White));
    b.set_fig_on_tile((3, 0), fig(FigType::Pawn, PlayerColor::White));
    b.set_fig_on_tile((0, 2), fig(FigType::Knight, PlayerColor::Black));
    assert_eq!(sorted(rook_moves(&b, (0, 0))), vec![(0, 1), (0, 2), (1, 0), (2, 0)]);
}

#[test]
fn king_steps_to_free_or_enemy_tiles() {
    let mut b = kings_only();
    b.set_fig_on_tile((1, 4), fig(FigType::Pawn, PlayerColor::White));
    b.set_fig_on_tile((1, 3), fig(FigType::Pawn, PlayerColor::Black));
    assert_eq!(sorted(king_moves(&b, (0, 4))), vec![(0, 3), (0, 5), (1, 3), (1, 5)]);
}

#[test]
fn twenty_moves_at_the_start() {
    let b = Board::new();
    let all = calculate_all(&b, PlayerColor::White);
    assert_eq!(all.len(), 20);
    assert!(all.contains(&ChessMove { from_tile: (1, 4), to_tile: (3, 4), move_type: MoveType::DoublePawn }));
    assert!(all.contains(&ChessMove { from_tile: (0, 6), to_tile: (2, 5), move_type: MoveType::Norm }));
    let black = calculate_all(&b, PlayerColor::Black);
    assert_eq!(black.len(), 20);
}

#[test]
fn smarter_lists_only_figures_with_moves() {
    let b = Board::new();
    let lists: Vec<PossibleMoves> = MoveBuilder::calculate_all_smarter(&b, PlayerColor::White);
    assert_eq!(lists.len(), 10);
    let total: usize = lists.iter().map(|pm| pm.to.len()).sum();
    assert_eq!(total, 20);
}

#[test]
fn in_check_only_blocking_or_escaping_moves_remain() {
    let mut b = kings_only();
    b.set_fig_on_tile((5, 4), fig(FigType::Rook, PlayerColor::Black));
    b.set_fig_on_tile((2, 0), fig(FigType::Rook, PlayerColor::White));
    b.set_fig_on_tile((7, 7), fig(FigType::Knight, PlayerColor::White));
    let lists = MoveBuilder::calculate_all_smarter(&b, PlayerColor::White);
    for pm in lists.iter() {
        if pm.from_tile == (2, 0) {
            assert_eq!(pm.to, vec![(2, 4)]);
        } else if pm.from_tile == (0, 4) {
            assert_eq!(sorted(pm.to.clone()), vec![(0, 3), (0, 5), (1, 3), (1, 5)]);
        } else {
            panic!("no other figure can help: {:?}", pm);
        }
    }
    assert_eq!(lists.len(), 2);
}

#[test]
fn pinned_figure_moves_only_along_the_pin() {
    let mut b = kings_only();
    b.set_fig_on_tile((2, 4), fig(FigType::Rook, PlayerColor::White));
    b.set_fig_on_tile((5, 4), fig(FigType::Rook, PlayerColor::Black));
    let lists = MoveBuilder::calculate_all_smarter(&b, PlayerColor::White);
    let rook = lists.iter().find(|pm| pm.from_tile == (2, 4)).unwrap();
    assert_eq!(sorted(rook.to.clone()), vec![(1, 4), (3, 4), (4, 4), (5, 4)]);
}

#[test]
fn king_does_not_step_next_to_the_other_king() {
    let mut b = Board(
        [[None; 8]; 8],
        RochadeTracker::new(PlayerColor::White),
        RochadeTracker::new(PlayerColor::Black),
        None,
    );
    b.set_fig_on_tile((3, 3), fig(FigType::King, PlayerColor::White));
    b.set_fig_on_tile((5, 3), fig(FigType::King, PlayerColor::Black));
    let lists = MoveBuilder::calculate_all_smarter(&b, PlayerColor::White);
    let king = lists.iter().find(|pm| pm.from_tile == (3, 3)).unwrap();
    assert_eq!(sorted(king.to.clone()), vec![(2, 2), (2, 3), (2, 4), (3, 2), (3, 4)]);
}

#[test]
fn classify_moves_by_kind() {
    let b = Board::new();
    assert_eq!(
        classify_move(&b, (1, 4), (3, 4)),
        ChessMove { from_tile: (1, 4), to_tile: (3, 4), move_type: MoveType::DoublePawn }
    );
    assert_eq!(classify_move(&b, (1, 4), (2, 4)).move_type, MoveType::Norm);
    assert_eq!(classify_move(&b, (0, 1), (2, 2)).move_type, MoveType::Norm);
    let mut b = kings_only();
    b.set_fig_on_tile((6, 0), fig(FigType::Pawn, PlayerColor::White));
    b.set_fig_on_tile((1, 7), fig(FigType::Pawn, PlayerColor::Black));
    assert_eq!(classify_move(&b, (6, 0), (7, 0)).move_type, MoveType::Promoting);
    assert_eq!(classify_move(&b, (1, 7), (0, 7)).move_type, MoveType::Promoting);
}

#[test]
fn castling_moves_are_added_when_allowed() {
    let mut b = kings_only();
    b.set_fig_on_tile((0, 0), fig(FigType::Rook, PlayerColor::White));
    b.set_fig_on_tile((0, 7), fig(FigType::Rook, PlayerColor::White));
    let mut moves = Vec::new();
    maybe_add_rochade(&PlayerColor::White, &mut moves, &b);
    assert_eq!(
        moves,
        vec![
            ChessMove { from_tile: (0, 4), to_tile: (0, 2), move_type: MoveType::RochadeLeft },
            ChessMove { from_tile: (0, 4), to_tile: (0, 6), move_type: MoveType::RochadeRight },
        ]
    );
    let all = calculate_all(&b, PlayerColor::White);
    assert_eq!(all[all.len() - 1].move_type, MoveType::RochadeRight);
    assert_eq!(all[all.len() - 2].move_type, MoveType::RochadeLeft);
}

#[test]
fn move_builder_steps() {
    let b = Board::new();
    let naive = MoveBuilder::new((0, 1), &b).calculate_naive_moves(&b);
    assert_eq!(naive.fig_type, FigType::Knight);
    assert_eq!(naive.fig_color, PlayerColor::White);
    assert_eq!(sorted(naive.moveset.clone()), vec![(2, 0), (2, 2)]);
    let mut only: HashSet<(u8, u8)> = HashSet::default();
    only.insert((2, 2));
    let filtered = naive.filter_not_in_set(&only);
    assert_eq!(filtered.moveset, vec![(2, 2)]);
    let pm = filtered.extract();
    assert_eq!(pm.from_tile, (0, 1));
    assert_eq!(pm.to, vec![(2, 2)]);
}

#[test]
fn moves_towards_the_king_direction_are_kept() {
    let mut b = kings_only();
    b.set_fig_on_tile((2, 4), fig(FigType::Rook, PlayerColor::White));
    let naive = MoveBuilder::new((2, 4), &b).calculate_naive_moves(&b);
    let kept = naive._filter_postion_changes_to_king(&(0, 4), Direction::A);
    assert_eq!(sorted(kept.moveset), vec![(1, 4), (3, 4), (4, 4), (5, 4), (6, 4), (7, 4)]);
}

#[test]
fn brute_force_filter_removes_moves_into_check() {
    let mut b = kings_only();
    b.set_fig_on_tile((2, 5), fig(FigType::Rook, PlayerColor::Black));
    let naive = MoveBuilder::new((0, 4), &b).calculate_naive_moves(&b);
    let kept = naive._filter_brute_force_2(&b);
    assert_eq!(sorted(kept.moveset), vec![(0, 3), (1, 3), (1, 4)]);
}

#[test]
fn chess_moves_carry_their_kind() {
    let b = Board::new();
    let pm = PossibleMoves { from_tile: (1, 0), to: vec![(2, 0), (3, 0)] };
    let moves = pm.chess_moves(&b);
    assert_eq!(moves[0].move_type, MoveType::Norm);
    assert_eq!(moves[1].move_type, MoveType::DoublePawn);
}

#[test]
fn in_double_check_only_the_king_moves() {
    let mut b = kings_only();
    b.set_fig_on_tile((5, 4), fig(FigType::Rook, PlayerColor::Black));
    b.set_fig_on_tile((2, 3), fig(FigType::Knight, PlayerColor::Black));
    b.set_fig_on_tile((2, 0), fig(FigType::Rook, PlayerColor::White));
    let lists = MoveBuilder::calculate_all_smarter(&b, PlayerColor::White);
    assert_eq!(lists.len(), 1);
    assert_eq!(lists[0].from_tile, (0, 4));
    assert_eq!(sorted(lists[0].to.clone()), vec![(0, 3), (0, 5), (1, 3)]);
}

fn assert_kept_moves_legal(b: &Board, player: PlayerColor) {
    let lists = MoveBuilder::calculate_all_smarter(b, player);
    assert!(!lists.is_empty());
    for pm in lists.iter() {
        for to in pm.to.iter() {
            let mut after = b.clone();
            after.move_fig_on_board(pm.from_tile, *to);
            assert!(!after.player_in_check(player), "{:?} -> {:?}", pm.from_tile, to);
        }
    }
}

#[test]
fn kept_moves_never_leave_the_king_in_check() {
    let mut pinned = kings_only();
    pinned.set_fig_on_tile((1, 3), fig(FigType::Bishop, PlayerColor::White));
    pinned.set_fig_on_tile((3, 1), fig(FigType::Bishop, PlayerColor::Black));
    pinned.set_fig_on_tile((0, 5), fig(FigType::Knight, PlayerColor::White));
    pinned.set_fig_on_tile((4, 4), fig(FigType::Queen, PlayerColor::Black));
    pinned.set_fig_on_tile((2, 4), fig(FigType::Rook, PlayerColor::White));
    assert_kept_moves_legal(&pinned, PlayerColor::White);

    let mut checked = kings_only();
    checked.set_fig_on_tile((3, 7), fig(FigType::Bishop, PlayerColor::Black));
    checked.set_fig_on_tile((2, 2), fig(FigType::Knight, PlayerColor::White));
    checked.set_fig_on_tile((1, 0), fig(FigType::Rook, PlayerColor::White));
    assert_kept_moves_legal(&checked, PlayerColor::White);

    assert_kept_moves_legal(&Board::new(), PlayerColor::Black);
}

fn assert_kept_moves_exact(b: &Board, player: PlayerColor) {
    let lists = MoveBuilder::calculate_all_smarter(b, player);
    for r in 0..8u8 {
        for c in 0..8u8 {
            match b.get_fig_on_tile(r, c) {
                Some(f) if f.player_color == player => {
                    let legal = MoveBuilder::new((r, c), b)
                        .calculate_naive_moves(b)
                        ._filter_brute_force_2(b)
                        .extract();
                    let kept = match lists.iter().find(|pm| pm.from_tile == (r, c)) {
                        Some(pm) => sorted(pm.to.clone()),
                        None => vec![],
                    };
                    assert_eq!(kept, sorted(legal.to), "figure on {:?}", (r, c));
                }
                _ => {}
            }
        }
    }
}

#[test]
fn kept_moves_are_exactly_the_legal_moves() {
    let mut pinned = kings_only();
    pinned.set_fig_on_tile((1, 3), fig(FigType::Bishop, PlayerColor::White));
    pinned.set_fig_on_tile((3, 1), fig(FigType::Bishop, PlayerColor::Black));
    pinned.set_fig_on_tile((0, 5), fig(FigType::Knight, PlayerColor::White));
    pinned.set_fig_on_tile((4, 4), fig(FigType::Queen, PlayerColor::Black));
    pinned.set_fig_on_tile((2, 4), fig(FigType::Rook, PlayerColor::White));
    assert_kept_moves_exact(&pinned, PlayerColor::White);

    let mut checked = kings_only();
    checked.set_fig_on_tile((3, 7), fig(FigType::Bishop, PlayerColor::Black));
    checked.set_fig_on_tile((2, 2), fig(FigType::Knight, PlayerColor::White));
    checked.set_fig_on_tile((1, 0), fig(FigType::Rook, PlayerColor::White));
    assert_kept_moves_exact(&checked, PlayerColor::White);

    assert_kept_moves_exact(&Board::new(), PlayerColor::White);
    assert_kept_moves_exact(&Board::new(), PlayerColor::Black);
}

fn mirrored(b: &Board) -> Board {
    let mut m = Board(
        [[None; 8]; 8],
        RochadeTracker::new(PlayerColor::White),
        RochadeTracker::new(PlayerColor::Black),
        None,
    );
    for r in 0..8u8 {
        for c in 0..8u8 {
            let f = b.get_fig_on_tile(r, c).map(|f| Figure {
                fig_type: f.fig_type,
                player_color: f.player_color.other_player(),
            });
            m.set_fig_on_tile((7 - r, c), f);
        }
    }
    m
}

#[test]
fn black_pawns_move_as_white_pawns_seen_from_the_other_side() {
    let mut b = kings_only();
    b.set_fig_on_tile((6, 2), fig(FigType::Pawn, PlayerColor::Black));
    b.set_fig_on_tile((5, 1), fig(FigType::Knight, PlayerColor::White));
    b.set_fig_on_tile((5, 3), fig(FigType::Knight, PlayerColor::Black));
    b.set_fig_on_tile((1, 7), fig(FigType::Pawn, PlayerColor::Black));
    b.set_fig_on_tile((0, 6), fig(FigType::Rook, PlayerColor::White));
    let m = mirrored(&b);
    for from in [(6u8, 2u8), (1, 7)] {
        let black = sorted(black_pawn_moves(&b, from));
        let white = sorted(
            white_pawn_moves(&m, (7 - from.0, from.1)).into_iter().map(|(r, c)| (7 - r, c)).collect(),
        );
        assert_eq!(black, white);
    }
    assert_eq!(sorted(black_pawn_moves(&b, (6, 2))), vec![(4, 2), (5, 1), (5, 2)]);
    assert_eq!(sorted(black_pawn_moves(&b, (1, 7))), vec![(0, 6), (0, 7)]);
}

#[test]
fn queen_lists_the_rook_lines_first() {
    let mut b = kings_only();
    b.set_fig_on_tile((3, 3), fig(FigType::Queen, PlayerColor::White));
    let moves = queen_moves(&b, (3, 3));
    let rook = rook_moves(&b, (3, 3));
    let bishop = bishop_moves(&b, (3, 3));
    assert_eq!(moves.len(), rook.len() + bishop.len());
    let n = rook.len();
    assert_eq!(sorted(moves[..n].to_vec()), sorted(rook));
    assert_eq!(sorted(moves[n..].to_vec()), sorted(bishop));
}

#[test]
fn every_attacker_but_a_king_gives_check() {
    let attackers = [
        ((5, 4), FigType::Rook),
        ((3, 7), FigType::Bishop),
        ((0, 7), FigType::Queen),
        ((2, 5), FigType::Knight),
        ((1, 3), FigType::Pawn),
    ];
    for (tile, t) in attackers {
        let mut b = kings_only();
        b.set_fig_on_tile(tile, fig(t, PlayerColor::Black));
        let attacks = match t {
            FigType::Rook => rook_moves(&b, tile),
            FigType::Bishop => bishop_moves(&b, tile),
            FigType::Queen => queen_moves(&b, tile),
            FigType::Knight => knight_moves(&b, tile),
            _ => black_pawn_moves(&b, tile),
        };
        assert!(attacks.contains(&(0, 4)), "{:?} reaches the king", t);
        assert!(b.player_in_check(PlayerColor::White), "{:?} checks", t);
    }
}
