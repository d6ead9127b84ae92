//! The game state: the board together with the asset names of the figures for display.
use vstd::prelude::*;

use crate::game_logic::board_logic::{board_after, initial_cell, update_defined, Board};
use crate::game_logic::minmax_logic::{generable, lemma_generable_moves_own};
use crate::game_logic::movement_logic::{
    castling_decidable, chess_move_of, lemma_brute_force_ready, lemma_naive_targets_not_own, lists_set,
    maybe_add_rochade, naive_targets, rochade_decidable, rochade_moves, rook_then_bishop, safe_targets,
    ChessMove,
    MoveBuilder, MoveType,
};
use crate::utils::core_types::{
    back_rank_type, on_board, opponent, FigType, Figure, PlayerColor, WHITE_KING_SP,
};
use crate::utils::{is_pawn_asset, is_pawn_name, pawn_promotion, pawn_rank, queen_asset, str_eq};

verus! {

/// The names of the assets on the tiles, as character sequences.
pub type NameFn = spec_fn(int, int) -> Option<Seq<char>>;

/// The names held by an asset map.
pub open spec fn names_of(m: [[Option<&'static str>; 8]; 8]) -> NameFn {
    |r: int, c: int| name_view(m[r][c])
}

/// The characters of an optional name.
pub open spec fn name_view(n: Option<&'static str>) -> Option<Seq<char>> {
    match n {
        Some(s) => Some(s@),
        None => None,
    }
}

/// `f` with `v` on tile `t`.
pub open spec fn nput(f: NameFn, t: (u8, u8), v: Option<Seq<char>>) -> NameFn {
    |r: int, c: int|
        if r == t.0 && c == t.1 {
            v
        } else {
            f(r, c)
        }
}

/// `f` with the name of `from` moved to `to`.
pub open spec fn nmove(f: NameFn, from: (u8, u8), to: (u8, u8)) -> NameFn {
    nput(nput(f, from, None), to, f(from.0 as int, from.1 as int))
}

/// The names of the assets after `mv` by `color` on a fat board whose names are `f` and
/// whose board is `b` (the asset map follows the figures; a promoted pawn's name becomes
/// the queen's).
pub open spec fn names_after(f: NameFn, b: Board, mv: ChessMove) -> NameFn {
    let from = mv.from_tile;
    let to = mv.to_tile;
    match mv.move_type {
        MoveType::Norm | MoveType::DoublePawn => nmove(f, from, to),
        MoveType::Promoting => nput(
            nput(f, from, None),
            to,
            Some(queen_asset(f(from.0 as int, from.1 as int).unwrap())),
        ),
        MoveType::Passing => nmove(nput(f, b.3.unwrap().to_tile, None), from, to),
        MoveType::RochadeLeft => if from == WHITE_KING_SP {
            nmove(nmove(f, from, to), (0, 0), (0, 3))
        } else {
            nmove(nmove(f, from, to), (7, 0), (7, 3))
        },
        MoveType::RochadeRight => if from == WHITE_KING_SP {
            nmove(nmove(f, from, to), (0, 7), (0, 5))
        } else {
            nmove(nmove(f, from, to), (7, 7), (7, 5))
        },
    }
}

/// Two name functions agree on every tile of the board.
pub open spec fn same_names(f: NameFn, g: NameFn) -> bool {
    forall|r: int, c: int| 0 <= r < 8 && 0 <= c < 8 ==> #[trigger] f(r, c) == g(r, c)
}

/// Placing the same name on names that agree on the board keeps them in agreement.
pub proof fn lemma_same_nput(f: NameFn, g: NameFn, t: (u8, u8), v: Option<Seq<char>>)
    requires
        same_names(f, g),
    ensures
        same_names(nput(f, t, v), nput(g, t, v)),
{
    assert forall|r: int, c: int| 0 <= r < 8 && 0 <= c < 8 implies #[trigger] nput(f, t, v)(r, c) == nput(g, t, v)(r, c) by {
        assert(f(r, c) == g(r, c));
    }
}

/// Moving a name between tiles of the board keeps names that agree in agreement.
pub proof fn lemma_same_nmove(f: NameFn, g: NameFn, from: (u8, u8), to: (u8, u8))
    requires
        same_names(f, g),
        on_board(from),
    ensures
        same_names(nmove(f, from, to), nmove(g, from, to)),
{
    assert(f(from.0 as int, from.1 as int) == g(from.0 as int, from.1 as int));
    lemma_same_nput(f, g, from, None);
    lemma_same_nput(nput(f, from, None), nput(g, from, None), to, f(from.0 as int, from.1 as int));
}

/// The name `n` fits the figure `fig`: there is a name exactly when there is a figure, and
/// a pawn carries the name of a pawn that started on its player's pawn row.
pub open spec fn name_fits(n: Option<Seq<char>>, fig: Option<Figure>) -> bool {
    &&& n.is_some() == fig.is_some()
    &&& match fig {
        Some(f) => f.fig_type == FigType::Pawn ==> is_pawn_asset(n.unwrap(), pawn_rank(f.player_color)),
        None => true,
    }
}

/// The names fit the figures of `b` on every tile.
pub open spec fn names_consistent(f: NameFn, b: Board) -> bool {
    forall|r: int, c: int| 0 <= r < 8 && 0 <= c < 8 ==> name_fits(#[trigger] f(r, c), b.cell(r, c))
}

/// The asset names follow the figures: names that fit the figures before a move fit them
/// after it.
pub proof fn lemma_names_follow_figures(f: NameFn, b: Board, mv: ChessMove, color: PlayerColor)
    requires
        names_consistent(f, b),
        update_defined(b, mv),
    ensures
        names_consistent(names_after(f, b, mv), board_after(b, mv, color)),
{
    broadcast use crate::game_logic::board_logic::lemma_put_cell;

    let from = mv.from_tile;
    let to = mv.to_tile;
    let g = names_after(f, b, mv);
    let a = board_after(b, mv, color);
    assert(name_fits(f(from.0 as int, from.1 as int), b.cell(from.0 as int, from.1 as int)));
    match mv.move_type {
        MoveType::Passing => {
            let p = b.3.unwrap().to_tile;
            let b1 = b.put(p, None);
            let f1 = nput(f, p, None);
            assert(names_consistent(f1, b1)) by {
                assert forall|r: int, c: int| 0 <= r < 8 && 0 <= c < 8 implies name_fits(#[trigger] f1(r, c), b1.cell(r, c)) by {
                    assert(name_fits(f(r, c), b.cell(r, c)));
                }
            }
            lemma_move_keeps_names(f1, b1, from, to);
            assert(a.0 == b1.move_fig(from, to).0);
        },
        MoveType::RochadeLeft | MoveType::RochadeRight => {
            lemma_move_keeps_names(f, b, from, to);
            let b1 = b.move_fig(from, to);
            let f1 = nmove(f, from, to);
            lemma_move_keeps_names(f1, b1, (0, 0), (0, 3));
            lemma_move_keeps_names(f1, b1, (7, 0), (7, 3));
            lemma_move_keeps_names(f1, b1, (0, 7), (0, 5));
            lemma_move_keeps_names(f1, b1, (7, 7), (7, 5));
        },
        MoveType::Promoting => {
            assert forall|r: int, c: int| 0 <= r < 8 && 0 <= c < 8 implies name_fits(#[trigger] g(r, c), a.cell(r, c)) by {
                assert(name_fits(f(r, c), b.cell(r, c)));
            }
        },
        _ => {
            lemma_move_keeps_names(f, b, from, to);
        },
    }
}

/// Moving a figure and its name between tiles of the board keeps the names fitting.
proof fn lemma_move_keeps_names(f: NameFn, b: Board, from: (u8, u8), to: (u8, u8))
    requires
        names_consistent(f, b),
        on_board(from),
        on_board(to),
    ensures
        names_consistent(nmove(f, from, to), b.move_fig(from, to)),
{
    broadcast use crate::game_logic::board_logic::lemma_put_cell;

    let g = nmove(f, from, to);
    let a = b.move_fig(from, to);
    assert(name_fits(f(from.0 as int, from.1 as int), b.cell(from.0 as int, from.1 as int)));
    assert forall|r: int, c: int| 0 <= r < 8 && 0 <= c < 8 implies name_fits(#[trigger] g(r, c), a.cell(r, c)) by {
        assert(name_fits(f(r, c), b.cell(r, c)));
    }
}

/// Exactly the occupied tiles of `b` carry a name.
pub open spec fn names_present(f: NameFn, b: Board) -> bool {
    forall|r: int, c: int| 0 <= r < 8 && 0 <= c < 8 ==> (#[trigger] f(r, c)).is_some() == b.cell(r, c).is_some()
}

/// Moving a figure and its name between tiles of the board keeps names on exactly the
/// occupied tiles.
proof fn lemma_move_keeps_presence(f: NameFn, b: Board, from: (u8, u8), to: (u8, u8))
    requires
        names_present(f, b),
        on_board(from),
        on_board(to),
    ensures
        names_present(nmove(f, from, to), b.move_fig(from, to)),
{
    broadcast use crate::game_logic::board_logic::lemma_put_cell;

    let g = nmove(f, from, to);
    let a = b.move_fig(from, to);
    assert(f(from.0 as int, from.1 as int).is_some() == b.cell(from.0 as int, from.1 as int).is_some());
    assert forall|r: int, c: int| 0 <= r < 8 && 0 <= c < 8 implies (#[trigger] g(r, c)).is_some() == a.cell(r, c).is_some() by {
        assert(f(r, c).is_some() == b.cell(r, c).is_some());
    }
}

/// Every figure keeps its asset name: when exactly the occupied tiles carry a name before
/// a move, exactly the occupied tiles carry one after it.
pub proof fn lemma_names_stay_on_figures(f: NameFn, b: Board, mv: ChessMove, color: PlayerColor)
    requires
        names_present(f, b),
        update_defined(b, mv),
    ensures
        names_present(names_after(f, b, mv), board_after(b, mv, color)),
{
    broadcast use crate::game_logic::board_logic::lemma_put_cell;

    let from = mv.from_tile;
    let to = mv.to_tile;
    let g = names_after(f, b, mv);
    let a = board_after(b, mv, color);
    match mv.move_type {
        MoveType::Passing => {
            let p = b.3.unwrap().to_tile;
            let b1 = b.put(p, None);
            let f1 = nput(f, p, None);
            assert(names_present(f1, b1)) by {
                assert forall|r: int, c: int| 0 <= r < 8 && 0 <= c < 8 implies (#[trigger] f1(r, c)).is_some() == b1.cell(r, c).is_some() by {
                    assert(f(r, c).is_some() == b.cell(r, c).is_some());
                }
            }
            lemma_move_keeps_presence(f1, b1, from, to);
            assert(a.0 == b1.move_fig(from, to).0);
        },
        MoveType::RochadeLeft | MoveType::RochadeRight => {
            lemma_move_keeps_presence(f, b, from, to);
            let b1 = b.move_fig(from, to);
            let f1 = nmove(f, from, to);
            lemma_move_keeps_presence(f1, b1, (0, 0), (0, 3));
            lemma_move_keeps_presence(f1, b1, (7, 0), (7, 3));
            lemma_move_keeps_presence(f1, b1, (0, 7), (0, 5));
            lemma_move_keeps_presence(f1, b1, (7, 7), (7, 5));
        },
        MoveType::Promoting => {
            assert forall|r: int, c: int| 0 <= r < 8 && 0 <= c < 8 implies (#[trigger] g(r, c)).is_some() == a.cell(r, c).is_some() by {
                assert(f(r, c).is_some() == b.cell(r, c).is_some());
            }
        },
        _ => {
            lemma_move_keeps_presence(f, b, from, to);
        },
    }
}

/// Every move that the generator lists for `color` can be played on a board of asset names
/// that fit its figures: `fat_update` then gives the board update and moves, removes or
/// renames the assets as the move says (see its contract).
pub proof fn lemma_generated_moves_fat_ready(fb: FatBoard, color: PlayerColor, mv: ChessMove)
    requires
        names_consistent(names_of(fb.asset_map), fb.board),
        generable(fb.board, color, mv),
    ensures
        fat_update_defined(fb, mv, color),
{
    lemma_generable_moves_own(fb.board, color, mv);
    if mv.move_type == MoveType::Promoting {
        let from = mv.from_tile;
        assert(name_fits(names_of(fb.asset_map)(from.0 as int, from.1 as int), fb.board.cell(from.0 as int, from.1 as int)));
    }
}

/// At the start of a game the names fit the figures.
pub proof fn lemma_initial_names_consistent(b: Board)
    requires
        b.is_initial(),
    ensures
        names_consistent(initial_names(), b),
{
    assert forall|r: int, c: int| 0 <= r < 8 && 0 <= c < 8 implies name_fits(#[trigger] initial_names()(r, c), b.cell(r, c)) by {
        assert(b.cell(r, c) == initial_cell(r, c));
        if r == 1 || r == 6 {
            let n = asset_name(FigType::Pawn, r, c);
            assert(n.take(5) =~= seq!['P', 'a', 'w', 'n', ' ']);
        }
    }
}

/// The name of a figure type.
pub open spec fn fig_name(t: FigType) -> Seq<char> {
    match t {
        FigType::Pawn => seq!['P', 'a', 'w', 'n'],
        FigType::Rook => seq!['R', 'o', 'o', 'k'],
        FigType::Knight => seq!['K', 'n', 'i', 'g', 'h', 't'],
        FigType::Bishop => seq!['B', 'i', 's', 'h', 'o', 'p'],
        FigType::Queen => seq!['Q', 'u', 'e', 'e', 'n'],
        FigType::King => seq!['K', 'i', 'n', 'g'],
    }
}

/// Name of the asset of a figure of type `t` that starts on row `r`, column `c`:
/// its type, a blank, the file (a to h) and the rank (1 to 8).
pub open spec fn asset_name(t: FigType, r: int, c: int) -> Seq<char> {
    fig_name(t) + seq![' ', (97 + c) as char, (49 + r) as char]
}

/// The asset names at the start of a game.
pub open spec fn initial_names() -> NameFn {
    |r: int, c: int|
        match initial_cell(r, c) {
            Some(f) => Some(asset_name(f.fig_type, r, c)),
            None => None,
        }
}

/// "Bigger" version of a board, which also contains the asset names for identification.
/// The fat_update method does both the update of the asset map as well as the board.
pub struct FatBoard {
    pub board: Board,
    pub asset_map: [[Option<&'static str>; 8]; 8],
}

impl FatBoard {
    /// The asset name on tile `t`.
    pub fn name_on_tile(&self, t: (u8, u8)) -> (n: Option<&'static str>)
        requires
            on_board(t),
        ensures
            n == self.asset_map[t.0 as int][t.1 as int],
    {
        self.asset_map[t.0 as usize][t.1 as usize]
    }

    /// Puts the name `n` on tile `t`.
    pub fn set_name_on_tile(&mut self, t: (u8, u8), n: Option<&'static str>)
        requires
            on_board(t),
        ensures
            final(self).board == old(self).board,
            same_names(
                names_of(final(self).asset_map),
                nput(names_of(old(self).asset_map), t, name_view(n)),
            ),
    {
        let mut row = self.asset_map[t.0 as usize];
        row[t.1 as usize] = n;
        self.asset_map[t.0 as usize] = row;
    }

    /// Moves the name of `from` to `to`.
    pub fn move_name(&mut self, from: (u8, u8), to: (u8, u8))
        requires
            on_board(from),
            on_board(to),
        ensures
            final(self).board == old(self).board,
            same_names(
                names_of(final(self).asset_map),
                nmove(names_of(old(self).asset_map), from, to),
            ),
    {
        let n = self.name_on_tile(from);
        self.set_name_on_tile(from, None);
        self.set_name_on_tile(to, n);
    }
}

/// A fat update can be made: the board update can, and a promoted pawn has a pawn's name
/// of the promoting player.
pub open spec fn fat_update_defined(fb: FatBoard, mv: ChessMove, color: PlayerColor) -> bool {
    &&& update_defined(fb.board, mv)
    &&& mv.move_type == MoveType::Promoting ==> (fb.asset_map[mv.from_tile.0 as int][mv.from_tile.1 as int] matches Some(n)
        && is_pawn_asset(n@, pawn_rank(color)))
}

impl FatBoard {
    /// Updates the board of asset names as well as the board with the figures.
    /// The logic is the same as for the regular board update.
    pub fn fat_update(&mut self, chess_move: &ChessMove, color: &PlayerColor)
        requires
            fat_update_defined(*old(self), *chess_move, *color),
        ensures
            final(self).board == board_after(old(self).board, *chess_move, *color),
            same_names(
                names_of(final(self).asset_map),
                names_after(names_of(old(self).asset_map), old(self).board, *chess_move),
            ),
    {
        let ghost f0 = names_of(self.asset_map);
        let from = chess_move.from_tile;
        let to = chess_move.to_tile;
        // 1. Update the asset names map
        match chess_move.move_type {
            MoveType::Norm | MoveType::DoublePawn => {
                self.move_name(from, to);
            },
            MoveType::Promoting => {
                let old_pawn = self.name_on_tile(from).unwrap();
                self.set_name_on_tile(from, None);
                let ghost f1 = names_of(self.asset_map);
                let new_queen_name = pawn_promotion(old_pawn, *color);
                self.set_name_on_tile(to, Some(new_queen_name));
                proof {
                    lemma_same_nput(f1, nput(f0, from, None), to, Some(new_queen_name@));
                }
            },
            MoveType::Passing => {
                let last_move = self.board.3.unwrap();
                self.set_name_on_tile(last_move.to_tile, None);
                let ghost f1 = names_of(self.asset_map);
                self.move_name(from, to);
                proof {
                    lemma_same_nmove(f1, nput(f0, last_move.to_tile, None), from, to);
                }
            },
            MoveType::RochadeLeft => {
                self.move_name(from, to);
                let ghost f1 = names_of(self.asset_map);
                if from.0 == WHITE_KING_SP.0 && from.1 == WHITE_KING_SP.1 {
                    self.move_name((0, 0), (0, 3));
                    proof {
                        lemma_same_nmove(f1, nmove(f0, from, to), (0, 0), (0, 3));
                    }
                } else {
                    self.move_name((7, 0), (7, 3));
                    proof {
                        lemma_same_nmove(f1, nmove(f0, from, to), (7, 0), (7, 3));
                    }
                }
            },
            MoveType::RochadeRight => {
                self.move_name(from, to);
                let ghost f1 = names_of(self.asset_map);
                if from.0 == WHITE_KING_SP.0 && from.1 == WHITE_KING_SP.1 {
                    self.move_name((0, 7), (0, 5));
                    proof {
                        lemma_same_nmove(f1, nmove(f0, from, to), (0, 7), (0, 5));
                    }
                } else {
                    self.move_name((7, 7), (7, 5));
                    proof {
                        lemma_same_nmove(f1, nmove(f0, from, to), (7, 7), (7, 5));
                    }
                }
            },
        }
        // 2. Do the logical chess board update
        self.board.update(chess_move, color);
    }
}

impl FatBoard {
    /// The starting position with the asset names of all figures.
    fn new() -> (fb: Self)
        ensures
            fb.board.is_initial(),
            same_names(names_of(fb.asset_map), initial_names()),
    {
        let white_pieces_str: [Option<&'static str>; 8] = [
            Some("Rook a1"),
            Some("Knight b1"),
            Some("Bishop c1"),
            Some("Queen d1"),
            Some("King e1"),
            Some("Bishop f1"),
            Some("Knight g1"),
            Some("Rook h1"),
        ];
        let white_pawns_str: [Option<&'static str>; 8] = [
            Some("Pawn a2"),
            Some("Pawn b2"),
            Some("Pawn c2"),
            Some("Pawn d2"),
            Some("Pawn e2"),
            Some("Pawn f2"),
            Some("Pawn g2"),
            Some("Pawn h2"),
        ];
        let black_pawns_str: [Option<&'static str>; 8] = [
            Some("Pawn a7"),
            Some("Pawn b7"),
            Some("Pawn c7"),
            Some("Pawn d7"),
            Some("Pawn e7"),
            Some("Pawn f7"),
            Some("Pawn g7"),
            Some("Pawn h7"),
        ];
        let black_pieces_str: [Option<&'static str>; 8] = [
            Some("Rook a8"),
            Some("Knight b8"),
            Some("Bishop c8"),
            Some("Queen d8"),
            Some("King e8"),
            Some("Bishop f8"),
            Some("Knight g8"),
            Some("Rook h8"),
        ];
        let empty_rank: [Option<&'static str>; 8] = [None, None, None, None, None, None, None, None];
        let asset_map = [
            white_pieces_str,
            white_pawns_str,
            empty_rank,
            empty_rank,
            empty_rank,
            empty_rank,
            black_pawns_str,
            black_pieces_str,
        ];
        proof {
            reveal_strlit("Rook a1");
            assert("Rook a1"@ =~= asset_name(FigType::Rook, 0, 0));
            reveal_strlit("Knight b1");
            assert("Knight b1"@ =~= asset_name(FigType::Knight, 0, 1));
            reveal_strlit("Bishop c1");
            assert("Bishop c1"@ =~= asset_name(FigType::Bishop, 0, 2));
            reveal_strlit("Queen d1");
            assert("Queen d1"@ =~= asset_name(FigType::Queen, 0, 3));
            reveal_strlit("King e1");
            assert("King e1"@ =~= asset_name(FigType::King, 0, 4));
            reveal_strlit("Bishop f1");
            assert("Bishop f1"@ =~= asset_name(FigType::Bishop, 0, 5));
            reveal_strlit("Knight g1");
            assert("Knight g1"@ =~= asset_name(FigType::Knight, 0, 6));
            reveal_strlit("Rook h1");
            assert("Rook h1"@ =~= asset_name(FigType::Rook, 0, 7));
            reveal_strlit("Pawn a2");
            assert("Pawn a2"@ =~= asset_name(FigType::Pawn, 1, 0));
            reveal_strlit("Pawn b2");
            assert("Pawn b2"@ =~= asset_name(FigType::Pawn, 1, 1));
            reveal_strlit("Pawn c2");
            assert("Pawn c2"@ =~= asset_name(FigType::Pawn, 1, 2));
            reveal_strlit("Pawn d2");
            assert("Pawn d2"@ =~= asset_name(FigType::Pawn, 1, 3));
            reveal_strlit("Pawn e2");
            assert("Pawn e2"@ =~= asset_name(FigType::Pawn, 1, 4));
            reveal_strlit("Pawn f2");
            assert("Pawn f2"@ =~= asset_name(FigType::Pawn, 1, 5));
            reveal_strlit("Pawn g2");
            assert("Pawn g2"@ =~= asset_name(FigType::Pawn, 1, 6));
            reveal_strlit("Pawn h2");
            assert("Pawn h2"@ =~= asset_name(FigType::Pawn, 1, 7));
            reveal_strlit("Pawn a7");
            assert("Pawn a7"@ =~= asset_name(FigType::Pawn, 6, 0));
            reveal_strlit("Pawn b7");
            assert("Pawn b7"@ =~= asset_name(FigType::Pawn, 6, 1));
            reveal_strlit("Pawn c7");
            assert("Pawn c7"@ =~= asset_name(FigType::Pawn, 6, 2));
            reveal_strlit("Pawn d7");
            assert("Pawn d7"@ =~= asset_name(FigType::Pawn, 6, 3));
            reveal_strlit("Pawn e7");
            assert("Pawn e7"@ =~= asset_name(FigType::Pawn, 6, 4));
            reveal_strlit("Pawn f7");
            assert("Pawn f7"@ =~= asset_name(FigType::Pawn, 6, 5));
            reveal_strlit("Pawn g7");
            assert("Pawn g7"@ =~= asset_name(FigType::Pawn, 6, 6));
            reveal_strlit("Pawn h7");
            assert("Pawn h7"@ =~= asset_name(FigType::Pawn, 6, 7));
            reveal_strlit("Rook a8");
            assert("Rook a8"@ =~= asset_name(FigType::Rook, 7, 0));
            reveal_strlit("Knight b8");
            assert("Knight b8"@ =~= asset_name(FigType::Knight, 7, 1));
            reveal_strlit("Bishop c8");
            assert("Bishop c8"@ =~= asset_name(FigType::Bishop, 7, 2));
            reveal_strlit("Queen d8");
            assert("Queen d8"@ =~= asset_name(FigType::Queen, 7, 3));
            reveal_strlit("King e8");
            assert("King e8"@ =~= asset_name(FigType::King, 7, 4));
            reveal_strlit("Bishop f8");
            assert("Bishop f8"@ =~= asset_name(FigType::Bishop, 7, 5));
            reveal_strlit("Knight g8");
            assert("Knight g8"@ =~= asset_name(FigType::Knight, 7, 6));
            reveal_strlit("Rook h8");
            assert("Rook h8"@ =~= asset_name(FigType::Rook, 7, 7));
        }
        assert forall|r: int, c: int| 0 <= r < 8 && 0 <= c < 8 implies #[trigger] names_of(asset_map)(r, c) == initial_names()(r, c) by {
            assert(asset_map[r] == [white_pieces_str, white_pawns_str, empty_rank, empty_rank, empty_rank, empty_rank, black_pawns_str, black_pieces_str][r]);
        }
        Self { board: Board::new(), asset_map: asset_map }
    }
}

/// The game: board with asset names, whose turn it is, the figure picked for the next
/// move, its possible moves and the number of moves made.
pub struct GameState {
    pub fat_board: FatBoard,
    pub player_turn: PlayerColor,
    pub chosen_figure: Option<(Figure, u8, u8)>,
    pub possible_moves: Option<Vec<ChessMove>>,
    pub move_number: usize,
}

/// What the display has to do after a move: assets to place on new tiles, assets to remove,
/// and a queen to create (color, asset name, tile) after a promotion.
#[derive(Debug)]
pub struct MoveEffects {
    pub relocate: Vec<(&'static str, (u8, u8))>,
    pub despawn: Vec<&'static str>,
    pub spawn_queen: Option<(PlayerColor, &'static str, (u8, u8))>,
}

/// `cm` goes from `from` to `to`.
pub open spec fn picks(cm: ChessMove, from: (u8, u8), to: (u8, u8)) -> bool {
    cm.from_tile == from && cm.to_tile == to
}

/// `v[i]` is the first move of `v` from `from` to `to`.
pub open spec fn first_pick(v: Seq<ChessMove>, from: (u8, u8), to: (u8, u8), i: int) -> bool {
    &&& 0 <= i < v.len()
    &&& picks(v[i], from, to)
    &&& forall|j: int| 0 <= j < i ==> !picks(#[trigger] v[j], from, to)
}

/// The rook that castling moves along with the king, and the rook's new tile: for the
/// white king ("King e1") the white rooks, otherwise the black ones.
pub open spec fn rook_relocation(king_name: Seq<char>, t: MoveType) -> Option<(Seq<char>, (u8, u8))> {
    let white = king_name == seq!['K', 'i', 'n', 'g', ' ', 'e', '1'];
    match t {
        MoveType::RochadeLeft => if white {
            Some((seq!['R', 'o', 'o', 'k', ' ', 'a', '1'], (0u8, 3u8)))
        } else {
            Some((seq!['R', 'o', 'o', 'k', ' ', 'a', '8'], (7u8, 3u8)))
        },
        MoveType::RochadeRight => if white {
            Some((seq!['R', 'o', 'o', 'k', ' ', 'h', '1'], (0u8, 5u8)))
        } else {
            Some((seq!['R', 'o', 'o', 'k', ' ', 'h', '8'], (7u8, 5u8)))
        },
        _ => None,
    }
}

/// The names of the assets that a move removes: the one on the target tile, the pawn
/// captured en passant, and the promoted pawn.
pub open spec fn despawned_names(f: NameFn, b: Board, mv: ChessMove) -> Seq<Seq<char>> {
    let at_target = match f(mv.to_tile.0 as int, mv.to_tile.1 as int) {
        Some(n) => seq![n],
        None => seq![],
    };
    let passed = if mv.move_type == MoveType::Passing {
        let t = b.3.unwrap().to_tile;
        if t == mv.to_tile {
            seq![]
        } else {
            match f(t.0 as int, t.1 as int) {
                Some(n) => seq![n],
                None => seq![],
            }
        }
    } else {
        seq![]
    };
    let promoted = if mv.move_type == MoveType::Promoting {
        seq![f(mv.from_tile.0 as int, mv.from_tile.1 as int).unwrap()]
    } else {
        seq![]
    };
    at_target + passed + promoted
}

/// `effects` are what the display does when the asset `to_be_moved` makes `mv` on a board `b`
/// with the names `f`: the asset goes to the target tile (with the rook named by
/// `rook_relocation` after it when castling), the names of `despawned_names` disappear, and a
/// promotion makes the queen of the pawn's player, named after the pawn, appear on the target.
pub open spec fn move_effects(effects: MoveEffects, to_be_moved: &'static str, mv: ChessMove, f: NameFn, b: Board) -> bool {
    &&& effects.relocate.len() >= 1
    &&& effects.relocate@[0] == (to_be_moved, mv.to_tile)
    &&& match rook_relocation(to_be_moved@, mv.move_type) {
        Some((n, t)) => effects.relocate.len() == 2 && effects.relocate@[1].0@ == n
            && effects.relocate@[1].1 == t,
        None => effects.relocate.len() == 1,
    }
    &&& effects.despawn@.map_values(|s: &'static str| s@) == despawned_names(f, b, mv)
    &&& match mv.move_type {
        MoveType::Promoting => effects.spawn_queen matches Some((c, q, t)) && c == b.at(
            mv.from_tile,
        ).unwrap().player_color && q@ == queen_asset(
            f(mv.from_tile.0 as int, mv.from_tile.1 as int).unwrap(),
        ) && t == mv.to_tile,
        _ => effects.spawn_queen.is_none(),
    }
}

/// The display follows the board: every asset that a move relocates ends up on a tile that
/// carries its name in the asset names after the move. This holds for the asset `to_be_moved`
/// standing on the source tile of any move but a promotion (whose pawn is replaced by a queen),
/// and for castling when the king castles from its starting tile with its rook, under that
/// rook's name, in the corner.
pub proof fn lemma_effects_follow_names(effects: MoveEffects, to_be_moved: &'static str, mv: ChessMove, f: NameFn, b: Board)
    requires
        move_effects(effects, to_be_moved, mv, f, b),
        on_board(mv.from_tile),
        on_board(mv.to_tile),
        mv.from_tile != mv.to_tile,
        mv.move_type != MoveType::Promoting,
        f(mv.from_tile.0 as int, mv.from_tile.1 as int) == Some(to_be_moved@),
        mv.move_type == MoveType::Passing ==> (b.3 matches Some(last) && last.to_tile != mv.from_tile),
        mv.move_type == MoveType::RochadeLeft ==> {
            ||| to_be_moved@ == seq!['K', 'i', 'n', 'g', ' ', 'e', '1'] && mv.from_tile == (0u8, 4u8)
                && mv.to_tile == (0u8, 2u8) && f(0, 0) == Some(seq!['R', 'o', 'o', 'k', ' ', 'a', '1'])
            ||| to_be_moved@ != seq!['K', 'i', 'n', 'g', ' ', 'e', '1'] && mv.from_tile == (7u8, 4u8)
                && mv.to_tile == (7u8, 2u8) && f(7, 0) == Some(seq!['R', 'o', 'o', 'k', ' ', 'a', '8'])
        },
        mv.move_type == MoveType::RochadeRight ==> {
            ||| to_be_moved@ == seq!['K', 'i', 'n', 'g', ' ', 'e', '1'] && mv.from_tile == (0u8, 4u8)
                && mv.to_tile == (0u8, 6u8) && f(0, 7) == Some(seq!['R', 'o', 'o', 'k', ' ', 'h', '1'])
            ||| to_be_moved@ != seq!['K', 'i', 'n', 'g', ' ', 'e', '1'] && mv.from_tile == (7u8, 4u8)
                && mv.to_tile == (7u8, 6u8) && f(7, 7) == Some(seq!['R', 'o', 'o', 'k', ' ', 'h', '8'])
        },
    ensures
        forall|i: int|
            0 <= i < effects.relocate.len() ==> names_after(f, b, mv)(
                #[trigger] effects.relocate@[i].1.0 as int,
                effects.relocate@[i].1.1 as int,
            ) == Some(effects.relocate@[i].0@),
{
    let g = names_after(f, b, mv);
    assert forall|i: int| 0 <= i < effects.relocate.len() implies g(
        #[trigger] effects.relocate@[i].1.0 as int,
        effects.relocate@[i].1.1 as int,
    ) == Some(effects.relocate@[i].0@) by {
        if i == 0 {
            assert(effects.relocate@[0] == (to_be_moved, mv.to_tile));
        }
    }
}

/// The display follows the board on a promotion: the queen that appears is the figure the
/// board puts on the target tile, a queen of the promoting player, under the name the asset
/// names give that tile.
pub proof fn lemma_promotion_display_follows_board(effects: MoveEffects, to_be_moved: &'static str, mv: ChessMove, f: NameFn, b: Board, color: PlayerColor)
    requires
        move_effects(effects, to_be_moved, mv, f, b),
        update_defined(b, mv),
        mv.move_type == MoveType::Promoting,
        mv.from_tile != mv.to_tile,
        b.at(mv.from_tile) == Some(Figure { fig_type: FigType::Pawn, player_color: color }),
    ensures
        effects.spawn_queen matches Some((c, q, t)) && t == mv.to_tile && board_after(b, mv, color).at(t)
            == Some(Figure { fig_type: FigType::Queen, player_color: c }) && names_after(f, b, mv)(
            t.0 as int,
            t.1 as int,
        ) == Some(q@),
{
    crate::game_logic::board_logic::lemma_promotion_gives_own_queen(b, mv, color);
}

/// The display removes what a move takes off: the asset on the target tile, the promoted
/// pawn, and the pawn taken in passing all disappear.
pub proof fn lemma_display_removes_taken(effects: MoveEffects, to_be_moved: &'static str, mv: ChessMove, f: NameFn, b: Board)
    requires
        move_effects(effects, to_be_moved, mv, f, b),
    ensures
        f(mv.to_tile.0 as int, mv.to_tile.1 as int) matches Some(n) ==> effects.despawn@.map_values(
            |s: &'static str| s@,
        ).contains(n),
        mv.move_type == MoveType::Promoting ==> effects.despawn@.map_values(|s: &'static str| s@).contains(
            f(mv.from_tile.0 as int, mv.from_tile.1 as int).unwrap(),
        ),
        mv.move_type == MoveType::Passing && b.3.unwrap().to_tile != mv.to_tile ==> (f(
            b.3.unwrap().to_tile.0 as int,
            b.3.unwrap().to_tile.1 as int,
        ) matches Some(n) ==> effects.despawn@.map_values(|s: &'static str| s@).contains(n)),
{
    let d = effects.despawn@.map_values(|s: &'static str| s@);
    let names = despawned_names(f, b, mv);
    assert(d == names);
    let at_target = match f(mv.to_tile.0 as int, mv.to_tile.1 as int) {
        Some(n) => seq![n],
        None => seq![],
    };
    if let Some(n) = f(mv.to_tile.0 as int, mv.to_tile.1 as int) {
        assert(names[0] == n);
    }
    if mv.move_type == MoveType::Promoting {
        assert(names[names.len() - 1] == f(mv.from_tile.0 as int, mv.from_tile.1 as int).unwrap());
    }
    if mv.move_type == MoveType::Passing && b.3.unwrap().to_tile != mv.to_tile {
        let t = b.3.unwrap().to_tile;
        if let Some(n) = f(t.0 as int, t.1 as int) {
            assert(names[at_target.len() as int] == n);
        }
    }
}

/// The first possible move from `from` to `to`, if there is one.
pub open spec fn picked_move(g: GameState, from: (u8, u8), to: (u8, u8)) -> Option<ChessMove> {
    match g.possible_moves {
        Some(v) => if exists|i: int| first_pick(v@, from, to, i) {
            Some(v@[choose|i: int| first_pick(v@, from, to, i)])
        } else {
            None
        },
        None => None,
    }
}

/// A move that picking may execute on `b` for `color`: its tiles lie on the board, it is no
/// en-passant capture, and a promotion moves a pawn of `color`.
pub open spec fn pickable_move(b: Board, color: PlayerColor, mv: ChessMove) -> bool {
    &&& on_board(mv.from_tile)
    &&& on_board(mv.to_tile)
    &&& mv.move_type != MoveType::Passing
    &&& mv.move_type == MoveType::Promoting ==> (b.at(mv.from_tile) matches Some(f) && f.fig_type
        == FigType::Pawn && f.player_color == color)
}

/// The state that picking works on fits together: the names fit the figures, a picked
/// figure stands on its tile and belongs to the player to move, and the possible moves can
/// be executed.
pub open spec fn picking_ready(g: GameState) -> bool {
    let b = g.fat_board.board;
    &&& names_consistent(names_of(g.fat_board.asset_map), b)
    &&& g.chosen_figure matches Some((fig, r, c)) ==> on_board((r, c)) && b.at((r, c)) == Some(fig)
        && fig.player_color == g.player_turn
    &&& g.possible_moves matches Some(v) ==> forall|i: int|
        0 <= i < v.len() ==> pickable_move(b, g.player_turn, #[trigger] v@[i])
}

/// A figure can be picked on `b` by `color`: both kings stand, and castling can be decided
/// when the figure on `tile` is the own king.
pub open spec fn pick_defined(b: Board, color: PlayerColor, tile: (u8, u8)) -> bool {
    &&& b.has_king(color)
    &&& b.has_king(opponent(color))
    &&& b.at(tile) == Some(Figure { fig_type: FigType::King, player_color: color }) ==> rochade_decidable(
        b,
        color,
    )
}

/// The moves offered for the own figure `fig` on `tile`: its safe moves, each with its kind,
/// and for the king the allowed castling moves after them.
pub open spec fn offered_moves(b: Board, tile: (u8, u8), fig: Figure, v: Seq<ChessMove>) -> bool {
    let is_king = fig.fig_type == FigType::King;
    let extra = if is_king {
        rochade_moves(b, fig.player_color)
    } else {
        Seq::<ChessMove>::empty()
    };
    let n = v.len() - extra.len();
    &&& n >= 0
    &&& v.skip(n) == extra
    &&& forall|k: int| 0 <= k < n ==> #[trigger] v[k] == chess_move_of(b, tile, v[k].to_tile)
    &&& lists_set(
        v.take(n).map_values(|m: ChessMove| m.to_tile),
        safe_targets(b, tile, naive_targets(b, tile, fig.fig_type, fig.player_color), fig.player_color, is_king),
    )
}

/// What a click on a tile leads to.
#[derive(Debug)]
pub enum ClickOutcome {
    /// The picked figure made a move; the display carries out the effects.
    Moved(MoveEffects),
    /// The clicked tile is no target of the picked figure; the pick is dropped.
    Dropped,
    /// An own figure was picked; its targets are to be highlighted.
    Picked(Vec<(u8, u8)>),
    /// The click changes nothing.
    Ignored,
}

/// A move can be executed: the fat update can be made, a promoted pawn carries a pawn name
/// of its own color as well, and the move counter does not overflow.
pub open spec fn execute_defined(g: GameState, mv: ChessMove) -> bool {
    &&& fat_update_defined(g.fat_board, mv, g.player_turn)
    &&& mv.move_type == MoveType::Promoting ==> (g.fat_board.board.at(mv.from_tile) matches Some(f)
        && is_pawn_asset(
        g.fat_board.asset_map[mv.from_tile.0 as int][mv.from_tile.1 as int].unwrap()@,
        pawn_rank(f.player_color),
    ))
    &&& g.move_number < usize::MAX
}

impl GameState {
    pub fn new() -> (g: Self)
        ensures
            g.fat_board.board.is_initial(),
            same_names(names_of(g.fat_board.asset_map), initial_names()),
            g.player_turn == PlayerColor::White,
            g.chosen_figure.is_none(),
            g.possible_moves.is_none(),
            g.move_number == 0,
            picking_ready(g),
    {
        let fat_board = FatBoard::new();
        proof {
            lemma_initial_names_consistent(fat_board.board);
            lemma_consistent_same_names(initial_names(), names_of(fat_board.asset_map), fat_board.board);
        }
        Self {
            fat_board,
            player_turn: PlayerColor::White,
            chosen_figure: None,
            possible_moves: None,
            move_number: 0,
        }
    }

    /// The picked move from `from_tile` to `to_tile`, if it is among the possible moves
    /// (the first such one).
    pub fn pick_is_valid(&self, from_tile: (u8, u8), to_tile: (u8, u8)) -> (res: Option<ChessMove>)
        ensures
            self.possible_moves is None ==> res is None,
            self.possible_moves matches Some(v) ==> (res matches Some(cm) ==> exists|i: int|
                first_pick(v@, from_tile, to_tile, i) && #[trigger] v@[i] == cm),
            self.possible_moves matches Some(v) ==> (res is None ==> forall|i: int|
                0 <= i < v.len() ==> !picks(#[trigger] v@[i], from_tile, to_tile)),
            res == picked_move(*self, from_tile, to_tile),
    {
        match &self.possible_moves {
            None => None,
            Some(moves) => {
                assert(self.possible_moves is Some);
                assert(self.possible_moves->0 == *moves);
                let mut i: usize = 0;
                while i < moves.len()
                    invariant
                        i <= moves.len(),
                        self.possible_moves is Some,
                        self.possible_moves->0 == *moves,
                        forall|j: int| 0 <= j < i ==> !picks(#[trigger] moves@[j], from_tile, to_tile),
                    decreases moves.len() - i,
                {
                    let cm = moves[i];
                    if cm.from_tile.0 == from_tile.0 && cm.from_tile.1 == from_tile.1
                        && cm.to_tile.0 == to_tile.0 && cm.to_tile.1 == to_tile.1 {
                        assert(first_pick(moves@, from_tile, to_tile, i as int));
                        proof {
                            let j = choose|j: int| first_pick(moves@, from_tile, to_tile, j);
                            if j < i {
                                assert(!picks(moves@[j], from_tile, to_tile));
                            } else if i < j {
                                assert(!picks(moves@[i as int], from_tile, to_tile));
                            }
                        }
                        return Some(cm);
                    }
                    i = i + 1;
                }
                assert(!exists|j: int| first_pick(moves@, from_tile, to_tile, j));
                None
            },
        }
    }

    /// Checks whether the picked tiles make one of the possible moves.
    pub fn move_is_valid(&self, from_tile: (u8, u8), to_tile: (u8, u8)) -> (b: bool)
        ensures
            b == (self.possible_moves matches Some(v) && exists|i: int|
                0 <= i < v.len() && picks(#[trigger] v@[i], from_tile, to_tile)),
    {
        self.pick_is_valid(from_tile, to_tile).is_some()
    }

    /// The asset name of the figure on row `row`, column `col`.
    pub fn get_figure_name(&self, row: usize, col: usize) -> (n: Option<&'static str>)
        requires
            row < 8,
            col < 8,
        ensures
            n == self.fat_board.asset_map[row as int][col as int],
    {
        self.fat_board.asset_map[row][col]
    }

    /// The figure on row `row`, column `col`.
    pub fn get_fig_on_tile(&self, row: u8, col: u8) -> (f: Option<Figure>)
        requires
            row < 8,
            col < 8,
        ensures
            f == self.fat_board.board.at((row, col)),
    {
        self.fat_board.board.get_fig_on_tile(row, col)
    }

    /// The tile of the king of `fig_color`.
    pub fn get_king_position(&self, fig_color: PlayerColor) -> (pos: (u8, u8))
        requires
            self.fat_board.board.has_king(fig_color),
        ensures
            pos == self.fat_board.board.king_pos(fig_color),
            self.fat_board.board.is_first_king(pos, fig_color),
    {
        self.fat_board.board.get_king_position(fig_color)
    }

    /// Calculates the moves of the figure on the tile. The moves are not yet filtered by
    /// whether they leave the own king in check.
    pub fn calculate_naive_moves(&self, tile: (u8, u8)) -> (moves: Vec<(u8, u8)>)
        requires
            on_board(tile),
        ensures
            match self.fat_board.board.at(tile) {
                Some(f) => lists_set(
                    moves@,
                    naive_targets(self.fat_board.board, tile, f.fig_type, f.player_color),
                ) && (f.fig_type == FigType::Queen ==> rook_then_bishop(self.fat_board.board, tile, moves@)),
                None => moves@.len() == 0,
            },
    {
        let board = &self.fat_board.board;
        match board.get_fig_on_tile(tile.0, tile.1) {
            Some(_) => MoveBuilder::new(tile, board).calculate_naive_moves(board).moveset,
            None => Vec::new(),
        }
    }

    /// Executes the chosen move on the game state: the board and the asset names are
    /// updated, the turn passes to the other player and the move counter goes up.
    /// The result tells the display which assets move, which disappear and which queen
    /// appears.
    pub fn execute_move(&mut self, to_be_moved: &'static str, chess_move: &ChessMove) -> (effects: MoveEffects)
        requires
            execute_defined(*old(self), *chess_move),
        ensures
            final(self).fat_board.board == board_after(old(self).fat_board.board, *chess_move, old(self).player_turn),
            same_names(
                names_of(final(self).fat_board.asset_map),
                names_after(names_of(old(self).fat_board.asset_map), old(self).fat_board.board, *chess_move),
            ),
            final(self).player_turn == opponent(old(self).player_turn),
            final(self).move_number == old(self).move_number + 1,
            final(self).chosen_figure == old(self).chosen_figure,
            final(self).possible_moves == old(self).possible_moves,
            names_consistent(names_of(old(self).fat_board.asset_map), old(self).fat_board.board)
                ==> names_consistent(names_of(final(self).fat_board.asset_map), final(self).fat_board.board),
            move_effects(
                effects,
                to_be_moved,
                *chess_move,
                names_of(old(self).fat_board.asset_map),
                old(self).fat_board.board,
            ),
    {
        let ghost f0 = names_of(self.fat_board.asset_map);
        let from = chess_move.from_tile;
        let to = chess_move.to_tile;
        // Where the assets go
        let mut relocate: Vec<(&'static str, (u8, u8))> = Vec::new();
        relocate.push((to_be_moved, to));
        match chess_move.move_type {
            MoveType::RochadeLeft => {
                proof {
                    reveal_strlit("King e1");
                    reveal_strlit("Rook a1");
                    reveal_strlit("Rook a8");
                    assert("King e1"@ =~= seq!['K', 'i', 'n', 'g', ' ', 'e', '1']);
                    assert("Rook a1"@ =~= seq!['R', 'o', 'o', 'k', ' ', 'a', '1']);
                    assert("Rook a8"@ =~= seq!['R', 'o', 'o', 'k', ' ', 'a', '8']);
                }
                if str_eq(to_be_moved, "King e1") {
                    relocate.push(("Rook a1", (0, 3)));
                } else {
                    relocate.push(("Rook a8", (7, 3)));
                }
            },
            MoveType::RochadeRight => {
                proof {
                    reveal_strlit("King e1");
                    reveal_strlit("Rook h1");
                    reveal_strlit("Rook h8");
                    assert("King e1"@ =~= seq!['K', 'i', 'n', 'g', ' ', 'e', '1']);
                    assert("Rook h1"@ =~= seq!['R', 'o', 'o', 'k', ' ', 'h', '1']);
                    assert("Rook h8"@ =~= seq!['R', 'o', 'o', 'k', ' ', 'h', '8']);
                }
                if str_eq(to_be_moved, "King e1") {
                    relocate.push(("Rook h1", (0, 5)));
                } else {
                    relocate.push(("Rook h8", (7, 5)));
                }
            },
            _ => {},
        }
        // What disappears
        let mut despawn: Vec<&'static str> = Vec::new();
        if let Some(target) = self.fat_board.name_on_tile(to) {
            despawn.push(target);
        }
        if chess_move.move_type == MoveType::Passing {
            let double_pawn_move = self.fat_board.board.3.unwrap().to_tile;
            if !(double_pawn_move.0 == to.0 && double_pawn_move.1 == to.1) {
                if let Some(target) = self.fat_board.name_on_tile(double_pawn_move) {
                    despawn.push(target);
                }
            }
        }
        let mut spawn_queen: Option<(PlayerColor, &'static str, (u8, u8))> = None;
        if chess_move.move_type == MoveType::Promoting {
            let color = self.fat_board.board.get_fig_on_tile(from.0, from.1).unwrap().player_color;
            let pawn_ass_name = self.fat_board.name_on_tile(from).unwrap();
            let queen_ass_name = pawn_promotion(pawn_ass_name, color);
            despawn.push(pawn_ass_name);
            spawn_queen = Some((color, queen_ass_name, to));
        }
        assert(despawn@.map_values(|s: &'static str| s@) =~= despawned_names(f0, self.fat_board.board, *chess_move));
        let turn = self.player_turn;
        let ghost b0 = self.fat_board.board;
        self.fat_board.fat_update(chess_move, &turn);
        proof {
            if names_consistent(f0, b0) {
                lemma_names_follow_figures(f0, b0, *chess_move, turn);
                lemma_consistent_same_names(
                    names_after(f0, b0, *chess_move),
                    names_of(self.fat_board.asset_map),
                    self.fat_board.board,
                );
            }
        }
        self.player_turn = turn.other_player();
        self.move_number = self.move_number + 1;
        MoveEffects { relocate, despawn, spawn_queen }
    }
}


impl GameState {
    /// Handles a click on `clicked`. With a figure picked, a possible move to the clicked
    /// tile is made (the turn passes on) or the pick is dropped; either way the pick ends
    /// and the move counter goes up. With no figure picked, an own figure on the clicked tile
    /// is picked and its moves are offered: the moves that leave the own king out of check,
    /// and for the king the allowed castling moves; anything else is ignored.
    pub fn click_tile(&mut self, clicked: (u8, u8)) -> (o: ClickOutcome)
        requires
            on_board(clicked),
            picking_ready(*old(self)),
            old(self).move_number < usize::MAX - 1,
            old(self).chosen_figure is None ==> pick_defined(
                old(self).fat_board.board,
                old(self).player_turn,
                clicked,
            ),
        ensures
            picking_ready(*final(self)),
            match old(self).chosen_figure {
                Some((_fig, fr, fc)) => {
                    &&& final(self).chosen_figure is None
                    &&& final(self).possible_moves is None
                    &&& match picked_move(*old(self), (fr, fc), clicked) {
                        Some(cm) => {
                            &&& o matches ClickOutcome::Moved(effects) && move_effects(
                                effects,
                                old(self).fat_board.asset_map[fr as int][fc as int].unwrap(),
                                cm,
                                names_of(old(self).fat_board.asset_map),
                                old(self).fat_board.board,
                            )
                            &&& final(self).fat_board.board == board_after(
                                old(self).fat_board.board,
                                cm,
                                old(self).player_turn,
                            )
                            &&& same_names(
                                names_of(final(self).fat_board.asset_map),
                                names_after(
                                    names_of(old(self).fat_board.asset_map),
                                    old(self).fat_board.board,
                                    cm,
                                ),
                            )
                            &&& final(self).player_turn == opponent(old(self).player_turn)
                            &&& final(self).move_number == old(self).move_number + 2
                        },
                        None => {
                            &&& o is Dropped
                            &&& final(self).fat_board == old(self).fat_board
                            &&& final(self).player_turn == old(self).player_turn
                            &&& final(self).move_number == old(self).move_number + 1
                        },
                    }
                },
                None => match old(self).fat_board.board.at(clicked) {
                    Some(fig) => if fig.player_color == old(self).player_turn {
                        &&& o matches ClickOutcome::Picked(targets) && final(self).possible_moves matches Some(v)
                            && offered_moves(old(self).fat_board.board, clicked, fig, v@)
                            && targets@ == v@.map_values(|m: ChessMove| m.to_tile)
                        &&& final(self).chosen_figure == Some((fig, clicked.0, clicked.1))
                        &&& final(self).fat_board == old(self).fat_board
                        &&& final(self).player_turn == old(self).player_turn
                        &&& final(self).move_number == old(self).move_number
                    } else {
                        o is Ignored && *final(self) == *old(self)
                    },
                    None => o is Ignored && *final(self) == *old(self),
                },
            },
    {
        match self.chosen_figure {
            Some((_fig, from_row, from_col)) => {
                let outcome = match self.pick_is_valid((from_row, from_col), clicked) {
                    Some(chess_move) => {
                        let ghost g0 = *self;
                        assert(name_fits(
                            names_of(self.fat_board.asset_map)(from_row as int, from_col as int),
                            self.fat_board.board.cell(from_row as int, from_col as int),
                        ));
                        let picked_asset_name = self.fat_board.name_on_tile((from_row, from_col)).unwrap();
                        proof {
                            self.lemma_picked_executable((from_row, from_col), clicked);
                        }
                        let effects = self.execute_move(picked_asset_name, &chess_move);
                        proof {
                            lemma_names_follow_figures(
                                names_of(g0.fat_board.asset_map),
                                g0.fat_board.board,
                                chess_move,
                                g0.player_turn,
                            );
                            lemma_consistent_same_names(
                                names_after(names_of(g0.fat_board.asset_map), g0.fat_board.board, chess_move),
                                names_of(self.fat_board.asset_map),
                                self.fat_board.board,
                            );
                        }
                        ClickOutcome::Moved(effects)
                    },
                    None => ClickOutcome::Dropped,
                };
                self.chosen_figure = None;
                self.possible_moves = None;
                self.move_number = self.move_number + 1;
                outcome
            },
            None => {
                let fig = match self.fat_board.board.get_fig_on_tile(clicked.0, clicked.1) {
                    Some(f) => f,
                    None => {
                        return ClickOutcome::Ignored;
                    },
                };
                if fig.player_color != self.player_turn {
                    return ClickOutcome::Ignored;
                }
                let (movelist, targets) = offer_moves(&self.fat_board.board, clicked, fig);
                self.chosen_figure = Some((fig, clicked.0, clicked.1));
                self.possible_moves = Some(movelist);
                ClickOutcome::Picked(targets)
            },
        }
    }

    /// The move picked from `from` to `to` can be executed.
    proof fn lemma_picked_executable(self, from: (u8, u8), to: (u8, u8))
        requires
            picking_ready(self),
            self.move_number < usize::MAX - 1,
            picked_move(self, from, to) is Some,
        ensures
            execute_defined(self, picked_move(self, from, to).unwrap()),
    {
        let v = self.possible_moves.unwrap();
        let i = choose|i: int| first_pick(v@, from, to, i);
        let mv = v@[i];
        assert(pickable_move(self.fat_board.board, self.player_turn, mv));
        let t = mv.from_tile;
        assert(name_fits(
            names_of(self.fat_board.asset_map)(t.0 as int, t.1 as int),
            self.fat_board.board.cell(t.0 as int, t.1 as int),
        ));
    }
}

/// Names that agree with names fitting the figures fit them as well.
proof fn lemma_consistent_same_names(f: NameFn, g: NameFn, b: Board)
    requires
        names_consistent(f, b),
        same_names(f, g),
    ensures
        names_consistent(g, b),
{
    assert forall|r: int, c: int| 0 <= r < 8 && 0 <= c < 8 implies name_fits(#[trigger] g(r, c), b.cell(r, c)) by {
        assert(f(r, c) == g(r, c));
        assert(name_fits(f(r, c), b.cell(r, c)));
    }
}

/// The moves offered for the own figure `fig` on `tile` (see `offered_moves`), with their
/// target tiles.
fn offer_moves(board: &Board, tile: (u8, u8), fig: Figure) -> (res: (Vec<ChessMove>, Vec<(u8, u8)>))
    requires
        on_board(tile),
        board.at(tile) == Some(fig),
        board.has_king(fig.player_color),
        board.has_king(opponent(fig.player_color)),
        fig.fig_type == FigType::King ==> rochade_decidable(*board, fig.player_color),
    ensures
        offered_moves(*board, tile, fig, res.0@),
        res.1@ == res.0@.map_values(|m: ChessMove| m.to_tile),
        forall|i: int| 0 <= i < res.0.len() ==> pickable_move(*board, fig.player_color, #[trigger] res.0@[i]),
{
    let naive = MoveBuilder::new(tile, board).calculate_naive_moves(board);
    proof {
        lemma_brute_force_ready(*board, tile, fig.player_color, naive.moveset@);
    }
    let safe = naive._filter_brute_force_2(board).extract();
    let mut movelist = safe.chess_moves(board);
    let ghost n = movelist.len() as int;
    let ghost listed = movelist@;
    if fig.fig_type == FigType::King {
        maybe_add_rochade(&fig.player_color, &mut movelist, board);
    }
    let ghost extra = if fig.fig_type == FigType::King {
        rochade_moves(*board, fig.player_color)
    } else {
        Seq::<ChessMove>::empty()
    };
    assert(movelist@ =~= listed + extra);
    assert(movelist@.skip(n) =~= extra);
    assert(movelist@.take(n) =~= listed);
    assert(listed.map_values(|m: ChessMove| m.to_tile) =~= safe.to@);
    let mut targets: Vec<(u8, u8)> = Vec::new();
    let mut i: usize = 0;
    while i < movelist.len()
        invariant
            i <= movelist.len(),
            targets@ == movelist@.take(i as int).map_values(|m: ChessMove| m.to_tile),
        decreases movelist.len() - i,
    {
        targets.push(movelist[i].to_tile);
        assert(movelist@.take(i + 1) =~= movelist@.take(i as int).push(movelist@[i as int]));
        i = i + 1;
    }
    assert(movelist@.take(i as int) =~= movelist@);
    assert forall|i: int| 0 <= i < movelist.len() implies pickable_move(*board, fig.player_color, #[trigger] movelist@[i]) by {
        if i < n {
            let t = safe.to@[i];
            assert(safe.to@.to_set().contains(t));
            lemma_naive_targets_not_own(*board, tile, fig, t);
        }
    }
    (movelist, targets)
}


impl GameState {
    /// Whether a figure of the player to move can be picked on `tile` (see `pick_defined`):
    /// both kings stand, and castling can be decided when the own king is picked.
    pub fn pick_ready(&self, tile: (u8, u8)) -> (b: bool)
        requires
            on_board(tile),
        ensures
            b == pick_defined(self.fat_board.board, self.player_turn, tile),
    {
        let board = &self.fat_board.board;
        let color = self.player_turn;
        if !board.has_king_of(color) || !board.has_king_of(color.other_player()) {
            return false;
        }
        match board.get_fig_on_tile(tile.0, tile.1) {
            Some(f) => {
                if f.fig_type == FigType::King && f.player_color == color {
                    castling_decidable(board, color)
                } else {
                    true
                }
            },
            None => true,
        }
    }

    /// Whether `chess_move` can be executed by the player to move (see `execute_defined`):
    /// its tiles lie on the board, a pawn taken in passing has a tile, a promoted pawn
    /// carries a pawn's asset name of its own color, and the move counter can grow.
    pub fn execute_ready(&self, chess_move: &ChessMove) -> (b: bool)
        ensures
            b == execute_defined(*self, *chess_move),
    {
        let from = chess_move.from_tile;
        let to = chess_move.to_tile;
        if !(from.0 < 8 && from.1 < 8 && to.0 < 8 && to.1 < 8) {
            return false;
        }
        if self.move_number == usize::MAX {
            return false;
        }
        match chess_move.move_type {
            MoveType::Passing => match self.fat_board.board.3 {
                Some(last) => last.to_tile.0 < 8 && last.to_tile.1 < 8,
                None => false,
            },
            MoveType::Promoting => {
                let fig = self.fat_board.board.get_fig_on_tile(from.0, from.1);
                match (fig, self.fat_board.asset_map[from.0 as usize][from.1 as usize]) {
                    (Some(f), Some(name)) => {
                        let own_rank = match self.player_turn {
                            PlayerColor::White => '2',
                            PlayerColor::Black => '7',
                        };
                        let fig_rank = match f.player_color {
                            PlayerColor::White => '2',
                            PlayerColor::Black => '7',
                        };
                        is_pawn_name(name, own_rank) && is_pawn_name(name, fig_rank)
                    },
                    _ => false,
                }
            },
            _ => true,
        }
    }
}

/// The rank char of the starting row of a player's pawns.
fn pawn_rank_of(color: PlayerColor) -> (c: char)
    ensures
        c == pawn_rank(color),
{
    match color {
        PlayerColor::White => '2',
        PlayerColor::Black => '7',
    }
}

/// Whether the asset name `n` fits the figure `fig` (see `name_fits`).
fn name_fits_figure(n: Option<&'static str>, fig: Option<Figure>) -> (b: bool)
    ensures
        b == name_fits(name_view(n), fig),
{
    match (n, fig) {
        (Some(name), Some(f)) => {
            if f.fig_type == FigType::Pawn {
                is_pawn_name(name, pawn_rank_of(f.player_color))
            } else {
                true
            }
        },
        (None, None) => true,
        _ => false,
    }
}

/// Whether the move can be offered to the player `color` (see `pickable_move`).
fn move_pickable(b: &Board, color: PlayerColor, mv: &ChessMove) -> (ok: bool)
    ensures
        ok == pickable_move(*b, color, *mv),
{
    let from = mv.from_tile;
    let to = mv.to_tile;
    if !(from.0 < 8 && from.1 < 8 && to.0 < 8 && to.1 < 8) {
        return false;
    }
    match mv.move_type {
        MoveType::Passing => false,
        MoveType::Promoting => match b.get_fig_on_tile(from.0, from.1) {
            Some(f) => f.fig_type == FigType::Pawn && f.player_color == color,
            None => false,
        },
        _ => true,
    }
}

impl GameState {
    /// Whether the state fits together as picking needs it (see `picking_ready`).
    pub fn state_ready(&self) -> (ok: bool)
        ensures
            ok == picking_ready(*self),
    {
        let b = &self.fat_board.board;
        let ghost f = names_of(self.fat_board.asset_map);
        let mut r: usize = 0;
        while r < 8
            invariant
                r <= 8,
                f == names_of(self.fat_board.asset_map),
                b == &self.fat_board.board,
                forall|rr: int, cc: int| 0 <= rr < r && 0 <= cc < 8 ==> name_fits(#[trigger] f(rr, cc), b.cell(rr, cc)),
            decreases 8 - r,
        {
            let mut c: usize = 0;
            while c < 8
                invariant
                    r < 8,
                    c <= 8,
                    f == names_of(self.fat_board.asset_map),
                    b == &self.fat_board.board,
                    forall|rr: int, cc: int| 0 <= rr < r && 0 <= cc < 8 ==> name_fits(#[trigger] f(rr, cc), b.cell(rr, cc)),
                    forall|cc: int| 0 <= cc < c ==> name_fits(#[trigger] f(r as int, cc), b.cell(r as int, cc)),
                decreases 8 - c,
            {
                let fig = b.get_fig_on_tile(r as u8, c as u8);
                if !name_fits_figure(self.fat_board.asset_map[r][c], fig) {
                    assert(!name_fits(f(r as int, c as int), b.cell(r as int, c as int)));
                    return false;
                }
                c = c + 1;
            }
            r = r + 1;
        }
        assert(names_consistent(f, *b));
        match self.chosen_figure {
            Some((fig, fr, fc)) => {
                if !(fr < 8 && fc < 8) {
                    return false;
                }
                match b.get_fig_on_tile(fr, fc) {
                    Some(g) => {
                        if !(g == fig && fig.player_color == self.player_turn) {
                            return false;
                        }
                    },
                    None => {
                        return false;
                    },
                }
            },
            None => {},
        }
        match &self.possible_moves {
            Some(v) => {
                let mut i: usize = 0;
                while i < v.len()
                    invariant
                        i <= v.len(),
                        forall|k: int| 0 <= k < i ==> pickable_move(*b, self.player_turn, #[trigger] v@[k]),
                        self.possible_moves == Some(*v),
                        b == &self.fat_board.board,
                    decreases v.len() - i,
                {
                    if !move_pickable(b, self.player_turn, &v[i]) {
                        assert(!pickable_move(*b, self.player_turn, v@[i as int]));
                        assert(*b == self.fat_board.board);
                        assert(self.possible_moves.unwrap()@ == v@);
                        assert(!pickable_move(self.fat_board.board, self.player_turn, self.possible_moves.unwrap()@[i as int]));
                        return false;
                    }
                    i = i + 1;
                }
                true
            },
            None => true,
        }
    }
}
} // verus!
