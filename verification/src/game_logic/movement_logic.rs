//! Moves of the single figures and the move builder that filters them by the rules of check.
use vstd::prelude::*;

use bevy::platform::collections::{HashMap, HashSet};

use crate::game_logic::board_logic::{
    king_start, owned_by, tiles_in_direction, Board, RochadeTracker,
};
use crate::game_logic::PossibleMoves;
use crate::utils::tile_collections::{
    guard_map_get, guard_map_view, tile_set_contains, tile_set_insert, tile_set_to_vec,
    tile_set_view,
};
use crate::utils::core_types::{
    on_board, opponent, relative_position, spec_pins_in_direction, Direction, FigType, Figure,
    PlayerColor,
};
use crate::utils::{adjacent, figs_adjacent};
use crate::utils::knight_cands;
use crate::utils::tile_lists::insert_tile;

verus! {

/// Kind of a move, as the board update needs to know it.
#[derive(Debug, Clone, Copy, PartialEq, Eq, Hash, Structural)]
pub enum MoveType {
    /// A figure moves, possibly capturing what stands on the target tile.
    Norm,
    /// A pawn moves two rows from its starting row.
    DoublePawn,
    /// A pawn reaches the last row and becomes a queen.
    Promoting,
    /// A pawn captures en passant the pawn that made the last (double) move.
    Passing,
    /// Castling towards column 0; the king moves to `to_tile`, the rook to column 3.
    RochadeLeft,
    /// Castling towards column 7; the king moves to `to_tile`, the rook to column 5.
    RochadeRight,
}

#[derive(Debug, Clone, Copy, PartialEq, Eq, Hash)]
pub struct ChessMove {
    pub from_tile: (u8, u8),
    pub to_tile: (u8, u8),
    pub move_type: MoveType,
}

/// `x + 1`, but at most 7.
pub open spec fn up_clamped(x: u8) -> u8 {
    if x < 7 {
        (x + 1) as u8
    } else {
        7
    }
}

/// `x - 1`, but at least 0.
pub open spec fn down_clamped(x: u8) -> u8 {
    if x > 0 {
        (x - 1) as u8
    } else {
        0
    }
}

/// Whether tile `t` is empty.
pub open spec fn free(b: Board, t: (u8, u8)) -> bool {
    b.at(t).is_none()
}

/// The tiles a white pawn on `from` may go to (ignoring check):
/// one row up onto an empty tile, two rows up from row 1 over two empty tiles,
/// and one row up diagonally onto a black figure. At the border the row and column
/// are clamped, and a clamped diagonal step is dropped.
pub open spec fn white_pawn_targets(b: Board, from: (u8, u8)) -> Set<(u8, u8)> {
    let up = up_clamped(from.0);
    let t1 = (up, from.1);
    let t2 = (3u8, from.1);
    let t3 = (up, up_clamped(from.1));
    let t4 = (up, down_clamped(from.1));
    Set::new(
        |t: (u8, u8)|
            (t == t1 && free(b, t1)) || (t == t2 && from.0 == 1 && free(b, (2u8, from.1))
                && free(b, t2)) || (t == t3 && t3.0 != from.0 && t3.1 != from.1 && owned_by(
                b.at(t3),
                PlayerColor::Black,
            )) || (t == t4 && t4.0 != from.0 && t4.1 != from.1 && owned_by(
                b.at(t4),
                PlayerColor::Black,
            )),
    )
}

/// The tiles a black pawn on `from` may go to (ignoring check): the mirror image of
/// `white_pawn_targets`, moving down from row 6 and capturing white figures.
pub open spec fn black_pawn_targets(b: Board, from: (u8, u8)) -> Set<(u8, u8)> {
    let down = down_clamped(from.0);
    let t1 = (down, from.1);
    let t2 = (4u8, from.1);
    let t3 = (down, up_clamped(from.1));
    let t4 = (down, down_clamped(from.1));
    Set::new(
        |t: (u8, u8)|
            (t == t1 && free(b, t1)) || (t == t2 && from.0 == 6 && free(b, (5u8, from.1))
                && free(b, t2)) || (t == t3 && t3.0 != from.0 && t3.1 != from.1 && owned_by(
                b.at(t3),
                PlayerColor::White,
            )) || (t == t4 && t4.0 != from.0 && t4.1 != from.1 && owned_by(
                b.at(t4),
                PlayerColor::White,
            )),
    )
}

/// Tiles reached by sliding along `tiles` (nearest first) with a figure of `color`:
/// every empty tile up to the first figure, and that figure's tile if it is an enemy's.
pub open spec fn slide_targets(b: Board, color: PlayerColor, tiles: Seq<(u8, u8)>) -> Set<(u8, u8)>
    decreases tiles.len(),
{
    if tiles.len() == 0 {
        Set::empty()
    } else {
        match b.at(tiles[0]) {
            None => slide_targets(b, color, tiles.drop_first()).insert(tiles[0]),
            Some(f) => if f.player_color != color {
                set![tiles[0]]
            } else {
                Set::empty()
            },
        }
    }
}

/// Sliding from `from` in direction `d` within the board.
pub open spec fn slide_dir(b: Board, color: PlayerColor, from: (u8, u8), d: Direction) -> Set<
    (u8, u8),
> {
    slide_targets(b, color, tiles_in_direction(from, d, 0, 8))
}

/// Rook moves: sliding up, down, right and left.
pub open spec fn rook_targets(b: Board, from: (u8, u8)) -> Set<(u8, u8)> {
    match b.at(from) {
        Some(f) => slide_dir(b, f.player_color, from, Direction::A) + slide_dir(
            b,
            f.player_color,
            from,
            Direction::B,
        ) + slide_dir(b, f.player_color, from, Direction::R) + slide_dir(
            b,
            f.player_color,
            from,
            Direction::L,
        ),
        None => Set::empty(),
    }
}

/// Bishop moves: sliding along the four diagonals.
pub open spec fn bishop_targets(b: Board, from: (u8, u8)) -> Set<(u8, u8)> {
    match b.at(from) {
        Some(f) => slide_dir(b, f.player_color, from, Direction::AR) + slide_dir(
            b,
            f.player_color,
            from,
            Direction::BL,
        ) + slide_dir(b, f.player_color, from, Direction::AL) + slide_dir(
            b,
            f.player_color,
            from,
            Direction::BR,
        ),
        None => Set::empty(),
    }
}

/// Queen moves: the rook's and the bishop's together.
pub open spec fn queen_targets(b: Board, from: (u8, u8)) -> Set<(u8, u8)> {
    rook_targets(b, from) + bishop_targets(b, from)
}

/// The tiles next to `from` (including diagonally) that lie on the board.
pub open spec fn king_cands(from: (u8, u8)) -> Set<(u8, u8)> {
    let (r, c) = (from.0 as int, from.1 as int);
    Set::new(
        |t: (u8, u8)|
            (c + 1 < 8 && t == (r as u8, (c + 1) as u8)) || (r + 1 < 8 && c + 1 < 8 && t == (
                (r + 1) as u8,
                (c + 1) as u8,
            )) || (r + 1 < 8 && t == ((r + 1) as u8, c as u8)) || (r + 1 < 8 && c >= 1 && t == (
                (r + 1) as u8,
                (c - 1) as u8,
            )) || (c >= 1 && t == (r as u8, (c - 1) as u8)) || (c >= 1 && r >= 1 && t == (
                (r - 1) as u8,
                (c - 1) as u8,
            )) || (r >= 1 && t == ((r - 1) as u8, c as u8)) || (r >= 1 && c + 1 < 8 && t == (
                (r - 1) as u8,
                (c + 1) as u8,
            )),
    )
}

/// Candidates that do not hold a figure of `color`.
pub open spec fn not_own(b: Board, color: PlayerColor, cands: Set<(u8, u8)>) -> Set<(u8, u8)> {
    cands.filter(|t: (u8, u8)| !owned_by(b.at(t), color))
}

/// Knight moves from `from` (the knight's color decides what may be captured).
pub open spec fn knight_targets(b: Board, from: (u8, u8)) -> Set<(u8, u8)> {
    not_own(b, b.at(from).unwrap().player_color, knight_cands(from))
}

/// King moves from `from`, ignoring check.
pub open spec fn king_targets(b: Board, from: (u8, u8)) -> Set<(u8, u8)> {
    not_own(b, b.at(from).unwrap().player_color, king_cands(from))
}

/// The moves of one figure of type `t` and color `color` on `pos`, ignoring check.
pub open spec fn naive_targets(b: Board, pos: (u8, u8), t: FigType, color: PlayerColor) -> Set<
    (u8, u8),
> {
    match t {
        FigType::Pawn => match color {
            PlayerColor::Black => black_pawn_targets(b, pos),
            PlayerColor::White => white_pawn_targets(b, pos),
        },
        FigType::Rook => rook_targets(b, pos),
        FigType::Knight => knight_targets(b, pos),
        FigType::Bishop => bishop_targets(b, pos),
        FigType::Queen => queen_targets(b, pos),
        FigType::King => king_targets(b, pos),
    }
}

/// Whether the moves of a figure of type `t` and color `color` on `pos` can be computed
/// (the tiles looked at lie on the board, and knights and kings stand on `pos`).
pub open spec fn naive_defined(b: Board, pos: (u8, u8), t: FigType, color: PlayerColor) -> bool {
    match t {
        FigType::Pawn => match color {
            PlayerColor::White => pos.0 < 255 && pos.1 < 8,
            PlayerColor::Black => pos.0 <= 8 && pos.1 < 8,
        },
        FigType::Knight | FigType::King => on_board(pos) && b.at(pos).is_some(),
        _ => on_board(pos),
    }
}

/// A list of tiles that represents the set `s`.
pub open spec fn lists_set(v: Seq<(u8, u8)>, s: Set<(u8, u8)>) -> bool {
    v.no_duplicates() && v.to_set() == s
}

/// Adds to `out` the tiles reached by sliding from `from` in direction `d`.
fn slide_into(
    board: &Board,
    color: PlayerColor,
    from: (u8, u8),
    d: Direction,
    out: &mut Vec<(u8, u8)>,
)
    requires
        on_board(from),
        old(out)@.no_duplicates(),
    ensures
        final(out)@.no_duplicates(),
        final(out)@.to_set() == old(out)@.to_set() + slide_dir(*board, color, from, d),
{
    let tiles = board.get_tiles_in_direction(from, d, (0, 8));
    let ghost all = tiles@;
    let ghost start = out@.to_set();
    assert(all.skip(0) =~= all);
    let mut i: usize = 0;
    while i < tiles.len()
        invariant
            on_board(from),
            tiles@ == all,
            all == tiles_in_direction(from, d, 0, 8),
            start == old(out)@.to_set(),
            i <= tiles.len(),
            out@.no_duplicates(),
            out@.to_set() + slide_targets(*board, color, all.skip(i as int)) == start
                + slide_targets(*board, color, all),
        decreases tiles.len() - i,
    {
        let (r, c) = tiles[i];
        let ghost rest = all.skip(i as int);
        let ghost before = out@.to_set();
        assert(rest[0] == (r, c));
        proof {
            crate::game_logic::board_logic::lemma_ray_on_board(from, d, 0, 8, i as int);
        }
        match board.get_fig_on_tile(r, c) {
            Some(block_fig) => {
                if color != block_fig.player_color {
                    insert_tile(out, (r, c));
                    assert(out@.to_set() =~= before + slide_targets(*board, color, rest));
                } else {
                    assert(out@.to_set() =~= before + slide_targets(*board, color, rest));
                }
                assert(out@.to_set() =~= start + slide_targets(*board, color, all));
                return ;
            },
            None => {
                insert_tile(out, (r, c));
                assert(rest.drop_first() =~= all.skip(i + 1));
                assert(out@.to_set() + slide_targets(*board, color, all.skip(i + 1)) =~= before
                    + slide_targets(*board, color, rest));
            },
        }
        i = i + 1;
    }
    assert(all.skip(i as int) =~= Seq::<(u8, u8)>::empty());
    assert(out@.to_set() =~= start + slide_targets(*board, color, all));
}

// ++++++++++++++++++ Each individual figure move ++++++++++++++++++
/// Moves of a white pawn on `from_tile`. Note: does not check whether the move might be
/// illegal by setting oneself in check; that is handled for every move afterwards.
pub fn white_pawn_moves(board: &Board, from_tile: (u8, u8)) -> (out: Vec<(u8, u8)>)
    requires
        from_tile.0 < 255,
        from_tile.1 < 8,
    ensures
        lists_set(out@, white_pawn_targets(*board, from_tile)),
{
    let (from_row, from_col) = from_tile;
    let mut out: Vec<(u8, u8)> = Vec::new();
    let up: u8 = if from_row + 1 < 7 {
        from_row + 1
    } else {
        7
    };
    // 1. Move one up, if there is no other piece (including piece itself, in case of boundary wrap)
    let (r, c) = (up, from_col);
    if board.get_fig_on_tile(r, c).is_none() {
        insert_tile(&mut out, (r, c));
    }
    // 2. Move two up, if there is no other piece in the way, and we start at row 1
    if from_row == 1 && board.get_fig_on_tile(from_row + 1, c).is_none()
        && board.get_fig_on_tile(from_row + 2, c).is_none() {
        insert_tile(&mut out, (from_row + 2, from_col));
    }
    // 3. Move diagonal right, in case there is a black piece
    let (r, c) = (up, if from_col + 1 < 7 {
        from_col + 1
    } else {
        7
    });
    if r != from_row && c != from_col {
        if let Some(f) = board.get_fig_on_tile(r, c) {
            if f.player_color == PlayerColor::Black {
                insert_tile(&mut out, (r, c));
            }
        }
    }
    // 4. Move diagonally left, in case there is a black piece
    let (r, c) = (up, from_col.saturating_sub(1));
    if r != from_row && c != from_col {
        if let Some(f) = board.get_fig_on_tile(r, c) {
            if f.player_color == PlayerColor::Black {
                insert_tile(&mut out, (r, c));
            }
        }
    }
    assert(out@.to_set() =~= white_pawn_targets(*board, from_tile));
    out
}

/// Moves of a black pawn on `from_tile` (see `white_pawn_moves`).
pub fn black_pawn_moves(board: &Board, from_tile: (u8, u8)) -> (out: Vec<(u8, u8)>)
    requires
        from_tile.0 <= 8,
        from_tile.1 < 8,
    ensures
        lists_set(out@, black_pawn_targets(*board, from_tile)),
{
    let (from_row, from_col) = from_tile;
    let mut out: Vec<(u8, u8)> = Vec::new();
    let down: u8 = from_row.saturating_sub(1);
    // 1. Move one down, if there is no other piece (including piece itself, in case of boundary wrap)
    let (r, c) = (down, from_col);
    if board.get_fig_on_tile(r, c).is_none() {
        insert_tile(&mut out, (r, c));
    }
    // 2. Move two down, if there is no other piece in the way, and we start at row 6
    if from_row == 6 && board.get_fig_on_tile(from_row - 1, c).is_none()
        && board.get_fig_on_tile(from_row - 2, c).is_none() {
        insert_tile(&mut out, (from_row - 2, from_col));
    }
    // 3. Move diagonal right, in case there is a white piece
    let (r, c) = (down, if from_col + 1 < 7 {
        from_col + 1
    } else {
        7
    });
    if r != from_row && c != from_col {
        if let Some(f) = board.get_fig_on_tile(r, c) {
            if f.player_color == PlayerColor::White {
                insert_tile(&mut out, (r, c));
            }
        }
    }
    // 4. Move diagonally left, in case there is a white piece
    let (r, c) = (down, from_col.saturating_sub(1));
    if r != from_row && c != from_col {
        if let Some(f) = board.get_fig_on_tile(r, c) {
            if f.player_color == PlayerColor::White {
                insert_tile(&mut out, (r, c));
            }
        }
    }
    assert(out@.to_set() =~= black_pawn_targets(*board, from_tile));
    out
}

/// Rook moves: up, down, right and left, each up to the first figure met
/// (which is included if it belongs to the other player).
pub fn rook_moves(board: &Board, from_tile: (u8, u8)) -> (out: Vec<(u8, u8)>)
    requires
        on_board(from_tile),
    ensures
        lists_set(out@, rook_targets(*board, from_tile)),
{
    let mut out: Vec<(u8, u8)> = Vec::new();
    if let Some(fig) = board.get_fig_on_tile(from_tile.0, from_tile.1) {
        let rook_color = fig.player_color;
        slide_into(board, rook_color, from_tile, Direction::A, &mut out);
        slide_into(board, rook_color, from_tile, Direction::B, &mut out);
        slide_into(board, rook_color, from_tile, Direction::R, &mut out);
        slide_into(board, rook_color, from_tile, Direction::L, &mut out);
    }
    assert(out@.to_set() =~= rook_targets(*board, from_tile));
    out
}

/// Bishop moves: along the four diagonals, each up to the first figure met
/// (which is included if it belongs to the other player).
pub fn bishop_moves(board: &Board, from_tile: (u8, u8)) -> (out: Vec<(u8, u8)>)
    requires
        on_board(from_tile),
    ensures
        lists_set(out@, bishop_targets(*board, from_tile)),
{
    let mut out: Vec<(u8, u8)> = Vec::new();
    if let Some(fig) = board.get_fig_on_tile(from_tile.0, from_tile.1) {
        let bishop_color = fig.player_color;
        slide_into(board, bishop_color, from_tile, Direction::AR, &mut out);
        slide_into(board, bishop_color, from_tile, Direction::BL, &mut out);
        slide_into(board, bishop_color, from_tile, Direction::AL, &mut out);
        slide_into(board, bishop_color, from_tile, Direction::BR, &mut out);
    }
    assert(out@.to_set() =~= bishop_targets(*board, from_tile));
    out
}

/// `v` lists the rook's moves from `from` first, then the bishop's.
pub open spec fn rook_then_bishop(b: Board, from: (u8, u8), v: Seq<(u8, u8)>) -> bool {
    exists|n: int|
        0 <= n <= v.len() && #[trigger] v.take(n).to_set() == rook_targets(b, from) && v.skip(n).to_set()
            == bishop_targets(b, from)
}

/// The rook's and the bishop's moves from a tile never share a target: one goes along rows
/// and columns, the other along diagonals.
proof fn lemma_rook_bishop_disjoint(b: Board, from: (u8, u8), t: (u8, u8))
    requires
        on_board(from),
        rook_targets(b, from).contains(t),
    ensures
        !bishop_targets(b, from).contains(t),
{
    let c = b.at(from).unwrap().player_color;
    let rook_dir = if slide_dir(b, c, from, Direction::A).contains(t) {
        Direction::A
    } else if slide_dir(b, c, from, Direction::B).contains(t) {
        Direction::B
    } else if slide_dir(b, c, from, Direction::R).contains(t) {
        Direction::R
    } else {
        Direction::L
    };
    let tiles = tiles_in_direction(from, rook_dir, 0, 8);
    lemma_slide_targets(b, c, tiles, t);
    let k = choose|k: int| 0 <= k < tiles.len() && tiles[k] == t;
    crate::game_logic::board_logic::lemma_ray_tile_relative(from, rook_dir, 0, 8, k);
    if bishop_targets(b, from).contains(t) {
        let d = if slide_dir(b, c, from, Direction::AR).contains(t) {
            Direction::AR
        } else if slide_dir(b, c, from, Direction::BL).contains(t) {
            Direction::BL
        } else if slide_dir(b, c, from, Direction::AL).contains(t) {
            Direction::AL
        } else {
            Direction::BR
        };
        let tiles2 = tiles_in_direction(from, d, 0, 8);
        lemma_slide_targets(b, c, tiles2, t);
        let k2 = choose|k2: int| 0 <= k2 < tiles2.len() && tiles2[k2] == t;
        crate::game_logic::board_logic::lemma_ray_tile_relative(from, d, 0, 8, k2);
    }
}

/// Queen moves: the union of the rook's and the bishop's, the rook's first.
pub fn queen_moves(board: &Board, from_tile: (u8, u8)) -> (out: Vec<(u8, u8)>)
    requires
        on_board(from_tile),
    ensures
        lists_set(out@, queen_targets(*board, from_tile)),
        rook_then_bishop(*board, from_tile, out@),
{
    let mut out = rook_moves(board, from_tile);
    let bishop = bishop_moves(board, from_tile);
    let ghost start = out@.to_set();
    let ghost rook = out@;
    let ghost n = out@.len() as int;
    assert(out@.take(n) =~= rook);
    assert(out@.skip(n) =~= bishop@.take(0));
    let mut i: usize = 0;
    while i < bishop.len()
        invariant
            i <= bishop.len(),
            out@.no_duplicates(),
            out@.to_set() == start + bishop@.take(i as int).to_set(),
            on_board(from_tile),
            lists_set(rook, rook_targets(*board, from_tile)),
            lists_set(bishop@, bishop_targets(*board, from_tile)),
            start == rook.to_set(),
            n == rook.len(),
            out@.len() == n + i,
            out@.take(n) == rook,
            out@.skip(n) == bishop@.take(i as int),
        decreases bishop.len() - i,
    {
        proof {
            crate::utils::tile_lists::lemma_push_to_set(bishop@.take(i as int), bishop@[i as int]);
            assert(bishop@.to_set().contains(bishop@[i as int]));
            lemma_rook_bishop_disjoint_list(*board, from_tile, bishop@[i as int]);
            assert(!out@.contains(bishop@[i as int])) by {
                if out@.contains(bishop@[i as int]) {
                    let j = choose|j: int| 0 <= j < out@.len() && out@[j] == bishop@[i as int];
                    if j < n {
                        assert(out@.take(n)[j] == bishop@[i as int]);
                        assert(rook[j] == bishop@[i as int]);
                        assert(rook.to_set().contains(bishop@[i as int]));
                        assert(rook_targets(*board, from_tile).contains(bishop@[i as int]));
                    } else {
                        assert(out@.skip(n)[j - n] == bishop@[i as int]);
                        assert(bishop@.take(i as int)[j - n] == bishop@[i as int]);
                        assert(bishop@[j - n] == bishop@[i as int]);
                        assert(bishop@.no_duplicates());
                    }
                }
            }
        }
        let ghost before = out@;
        insert_tile(&mut out, bishop[i]);
        assert(out@ == before.push(bishop@[i as int]));
        assert(bishop@.take(i + 1) =~= bishop@.take(i as int).push(bishop@[i as int]));
        i = i + 1;
        assert(out@.to_set() =~= start + bishop@.take(i as int).to_set());
        assert(out@.take(n) =~= rook);
        assert(out@.skip(n) =~= bishop@.take(i as int));
    }
    assert(bishop@.take(i as int) =~= bishop@);
    assert(out@.take(n).to_set() == rook_targets(*board, from_tile));
    assert(out@.skip(n).to_set() == bishop_targets(*board, from_tile));
    out
}

/// A bishop target is no rook target.
proof fn lemma_rook_bishop_disjoint_list(b: Board, from: (u8, u8), t: (u8, u8))
    requires
        on_board(from),
        bishop_targets(b, from).contains(t),
    ensures
        !rook_targets(b, from).contains(t),
{
    if rook_targets(b, from).contains(t) {
        lemma_rook_bishop_disjoint(b, from, t);
    }
}

/// Keeps the candidates that do not hold a figure of `color`.
fn keep_not_own(board: &Board, color: PlayerColor, cands: &Vec<(u8, u8)>) -> (out: Vec<(u8, u8)>)
    requires
        cands@.no_duplicates(),
        forall|i: int| 0 <= i < cands.len() ==> on_board(#[trigger] cands@[i]),
    ensures
        lists_set(out@, not_own(*board, color, cands@.to_set())),
{
    let mut out: Vec<(u8, u8)> = Vec::new();
    let mut i: usize = 0;
    while i < cands.len()
        invariant
            i <= cands.len(),
            forall|i: int| 0 <= i < cands.len() ==> on_board(#[trigger] cands@[i]),
            out@.no_duplicates(),
            out@.to_set() == not_own(*board, color, cands@.take(i as int).to_set()),
        decreases cands.len() - i,
    {
        let (r, c) = cands[i];
        assert(on_board(cands@[i as int]));
        let keep = match board.get_fig_on_tile(r, c) {
            Some(block_fig) => color != block_fig.player_color,
            None => true,
        };
        if keep {
            insert_tile(&mut out, (r, c));
        }
        proof {
            crate::utils::tile_lists::lemma_push_to_set(cands@.take(i as int), cands@[i as int]);
            assert(cands@.take(i + 1) =~= cands@.take(i as int).push(cands@[i as int]));
        }
        i = i + 1;
        assert(out@.to_set() =~= not_own(*board, color, cands@.take(i as int).to_set()));
    }
    assert(cands@.take(i as int) =~= cands@);
    out
}

/// Knight moves: the jumps that stay on the board and do not land on an own figure.
pub fn knight_moves(board: &Board, from_tile: (u8, u8)) -> (out: Vec<(u8, u8)>)
    requires
        on_board(from_tile),
        board.at(from_tile).is_some(),
    ensures
        lists_set(out@, knight_targets(*board, from_tile)),
{
    let mut cands: Vec<(u8, u8)> = Vec::new();
    let (from_row, from_col) = from_tile;
    let fig = board.get_fig_on_tile(from_row, from_col).unwrap();
    let knight_color = fig.player_color;

    // two up, one left or right
    if from_row + 2 < 8 {
        if from_col + 1 < 8 {
            insert_tile(&mut cands, (from_row + 2, from_col + 1));
        }
        if from_col.saturating_sub(1) < from_col {
            insert_tile(&mut cands, (from_row + 2, from_col - 1));
        }
    }
    // two down, one left or right
    if from_row.saturating_sub(2) + 2 == from_row {
        if from_col + 1 < 8 {
            insert_tile(&mut cands, (from_row - 2, from_col + 1));
        }
        if from_col.saturating_sub(1) < from_col {
            insert_tile(&mut cands, (from_row - 2, from_col - 1));
        }
    }
    // two right, one up or down
    if from_col + 2 < 8 {
        if from_row + 1 < 8 {
            insert_tile(&mut cands, (from_row + 1, from_col + 2));
        }
        if from_row.saturating_sub(1) < from_row {
            insert_tile(&mut cands, (from_row - 1, from_col + 2));
        }
    }
    // two left, one up or down
    if from_col.saturating_sub(2) + 2 == from_col {
        if from_row + 1 < 8 {
            insert_tile(&mut cands, (from_row + 1, from_col - 2));
        }
        if from_row.saturating_sub(1) < from_row {
            insert_tile(&mut cands, (from_row - 1, from_col - 2));
        }
    }
    assert(cands@.to_set() =~= knight_cands(from_tile));
    assert forall|i: int| 0 <= i < cands.len() implies on_board(#[trigger] cands@[i]) by {
        assert(cands@.to_set().contains(cands@[i]));
    }
    keep_not_own(board, knight_color, &cands)
}

/// King moves (ignoring check): the neighbouring tiles that do not hold an own figure.
pub fn king_moves(board: &Board, from_tile: (u8, u8)) -> (out: Vec<(u8, u8)>)
    requires
        on_board(from_tile),
        board.at(from_tile).is_some(),
    ensures
        lists_set(out@, king_targets(*board, from_tile)),
{
    let (r, c) = from_tile;
    let mut cands: Vec<(u8, u8)> = Vec::new();
    let fig = board.get_fig_on_tile(r, c).unwrap();
    let king_color = fig.player_color;

    // right
    if c + 1 < 8 {
        insert_tile(&mut cands, (r, c + 1));
    }
    // up right
    if r + 1 < 8 && c + 1 < 8 {
        insert_tile(&mut cands, (r + 1, c + 1));
    }
    // up
    if r + 1 < 8 {
        insert_tile(&mut cands, (r + 1, c));
    }
    // up left
    if r + 1 < 8 && c.saturating_sub(1) + 1 == c {
        insert_tile(&mut cands, (r + 1, c - 1));
    }
    // left
    if c.saturating_sub(1) + 1 == c {
        insert_tile(&mut cands, (r, c - 1));
    }
    // down left
    if c.saturating_sub(1) + 1 == c && r.saturating_sub(1) + 1 == r {
        insert_tile(&mut cands, (r - 1, c - 1));
    }
    // down
    if r.saturating_sub(1) + 1 == r {
        insert_tile(&mut cands, (r - 1, c));
    }
    // down right
    if r.saturating_sub(1) + 1 == r && c + 1 < 8 {
        insert_tile(&mut cands, (r - 1, c + 1));
    }
    assert(cands@.to_set() =~= king_cands(from_tile));
    assert forall|i: int| 0 <= i < cands.len() implies on_board(#[trigger] cands@[i]) by {
        assert(cands@.to_set().contains(cands@[i]));
    }
    keep_not_own(board, king_color, &cands)
}

/// A tile reached by sliding lies on the slide's tiles and holds no figure of the slider.
pub proof fn lemma_slide_targets(b: Board, color: PlayerColor, tiles: Seq<(u8, u8)>, t: (u8, u8))
    requires
        slide_targets(b, color, tiles).contains(t),
    ensures
        tiles.contains(t),
        !owned_by(b.at(t), color),
    decreases tiles.len(),
{
    if tiles.len() > 0 {
        if t == tiles[0] {
        } else {
            lemma_slide_targets(b, color, tiles.drop_first(), t);
            let i = choose|i: int| 0 <= i < tiles.drop_first().len() && tiles.drop_first()[i] == t;
            assert(tiles[i + 1] == t);
        }
    }
}

/// A slide from a tile on the board stays on the board and captures no own figure.
pub proof fn lemma_slide_dir(b: Board, color: PlayerColor, from: (u8, u8), d: Direction, t: (u8, u8))
    requires
        on_board(from),
        slide_dir(b, color, from, d).contains(t),
    ensures
        on_board(t),
        !owned_by(b.at(t), color),
{
    let tiles = tiles_in_direction(from, d, 0, 8);
    lemma_slide_targets(b, color, tiles, t);
    let k = choose|k: int| 0 <= k < tiles.len() && tiles[k] == t;
    crate::game_logic::board_logic::lemma_ray_on_board(from, d, 0, 8, k);
}

/// The moves of a figure standing on a tile of the board lead to tiles of the board that
/// hold no figure of its own color: no move captures an own figure.
pub proof fn lemma_naive_targets_not_own(b: Board, pos: (u8, u8), f: Figure, t: (u8, u8))
    requires
        on_board(pos),
        b.at(pos) == Some(f),
        naive_targets(b, pos, f.fig_type, f.player_color).contains(t),
    ensures
        on_board(t),
        !owned_by(b.at(t), f.player_color),
{
    let c = f.player_color;
    match f.fig_type {
        FigType::Rook => {
            if slide_dir(b, c, pos, Direction::A).contains(t) {
                lemma_slide_dir(b, c, pos, Direction::A, t);
            } else if slide_dir(b, c, pos, Direction::B).contains(t) {
                lemma_slide_dir(b, c, pos, Direction::B, t);
            } else if slide_dir(b, c, pos, Direction::R).contains(t) {
                lemma_slide_dir(b, c, pos, Direction::R, t);
            } else {
                lemma_slide_dir(b, c, pos, Direction::L, t);
            }
        },
        FigType::Bishop => {
            if slide_dir(b, c, pos, Direction::AR).contains(t) {
                lemma_slide_dir(b, c, pos, Direction::AR, t);
            } else if slide_dir(b, c, pos, Direction::BL).contains(t) {
                lemma_slide_dir(b, c, pos, Direction::BL, t);
            } else if slide_dir(b, c, pos, Direction::AL).contains(t) {
                lemma_slide_dir(b, c, pos, Direction::AL, t);
            } else {
                lemma_slide_dir(b, c, pos, Direction::BR, t);
            }
        },
        FigType::Queen => {
            if slide_dir(b, c, pos, Direction::A).contains(t) {
                lemma_slide_dir(b, c, pos, Direction::A, t);
            } else if slide_dir(b, c, pos, Direction::B).contains(t) {
                lemma_slide_dir(b, c, pos, Direction::B, t);
            } else if slide_dir(b, c, pos, Direction::R).contains(t) {
                lemma_slide_dir(b, c, pos, Direction::R, t);
            } else if slide_dir(b, c, pos, Direction::L).contains(t) {
                lemma_slide_dir(b, c, pos, Direction::L, t);
            } else if slide_dir(b, c, pos, Direction::AR).contains(t) {
                lemma_slide_dir(b, c, pos, Direction::AR, t);
            } else if slide_dir(b, c, pos, Direction::BL).contains(t) {
                lemma_slide_dir(b, c, pos, Direction::BL, t);
            } else if slide_dir(b, c, pos, Direction::AL).contains(t) {
                lemma_slide_dir(b, c, pos, Direction::AL, t);
            } else {
                lemma_slide_dir(b, c, pos, Direction::BR, t);
            }
        },
        _ => {},
    }
}

/// Moving the figure on `pos` to `t` does not leave the own king in check, and a king
/// (`is_king`) does not step next to the other king.
pub open spec fn safe_target(b: Board, pos: (u8, u8), t: (u8, u8), color: PlayerColor, is_king: bool) -> bool {
    &&& !b.move_fig(pos, t).in_check(color)
    &&& is_king ==> !adjacent(t, b.king_pos(opponent(color)))
}

/// The moves in `v` that are `safe_target`s.
pub open spec fn safe_targets(b: Board, pos: (u8, u8), v: Set<(u8, u8)>, color: PlayerColor, is_king: bool) -> Set<(u8, u8)> {
    v.filter(|t: (u8, u8)| safe_target(b, pos, t, color, is_king))
}

/// Collects the moves of one figure and filters them.
pub struct MoveBuilder {
    pub fig_pos: (u8, u8),
    pub fig_color: PlayerColor,
    pub fig_type: FigType,
    pub moveset: Vec<(u8, u8)>,
}

impl MoveBuilder {
    /// A builder for the figure on `fig_pos`, with no moves yet.
    pub fn new(fig_pos: (u8, u8), board: &Board) -> (mb: MoveBuilder)
        requires
            on_board(fig_pos),
            board.at(fig_pos).is_some(),
        ensures
            mb.fig_pos == fig_pos,
            board.at(fig_pos) == Some(Figure { fig_type: mb.fig_type, player_color: mb.fig_color }),
            mb.moveset@ == Seq::<(u8, u8)>::empty(),
    {
        let fig = board.get_fig_on_tile(fig_pos.0, fig_pos.1).unwrap();
        let fig_color = fig.player_color;
        let fig_type = fig.fig_type;
        MoveBuilder { fig_pos, fig_color, fig_type, moveset: Vec::new() }
    }

    /// Naively calculates the moves of one figure (ignoring check).
    pub fn calculate_naive_moves(self, board: &Board) -> (mb: MoveBuilder)
        requires
            naive_defined(*board, self.fig_pos, self.fig_type, self.fig_color),
        ensures
            mb.fig_pos == self.fig_pos,
            mb.fig_color == self.fig_color,
            mb.fig_type == self.fig_type,
            lists_set(
                mb.moveset@,
                naive_targets(*board, self.fig_pos, self.fig_type, self.fig_color),
            ),
            self.fig_type == FigType::Queen ==> rook_then_bishop(*board, self.fig_pos, mb.moveset@),
    {
        let moveset = match self.fig_type {
            FigType::Pawn => match self.fig_color {
                PlayerColor::Black => black_pawn_moves(board, self.fig_pos),
                PlayerColor::White => white_pawn_moves(board, self.fig_pos),
            },
            FigType::Rook => rook_moves(board, self.fig_pos),
            FigType::Knight => knight_moves(board, self.fig_pos),
            FigType::Bishop => bishop_moves(board, self.fig_pos),
            FigType::Queen => queen_moves(board, self.fig_pos),
            FigType::King => king_moves(board, self.fig_pos),
        };
        MoveBuilder { moveset, ..self }
    }

    /// Keeps only the moves whose target is in `filter_set`.
    pub fn filter_not_in_set(self, filter_set: &HashSet<(u8, u8)>) -> (mb: MoveBuilder)
        requires
            self.moveset@.no_duplicates(),
        ensures
            mb.fig_pos == self.fig_pos,
            mb.fig_color == self.fig_color,
            mb.fig_type == self.fig_type,
            lists_set(mb.moveset@, self.moveset@.to_set().intersect(tile_set_view(*filter_set))),
    {
        let mut kept: Vec<(u8, u8)> = Vec::new();
        let mut i: usize = 0;
        while i < self.moveset.len()
            invariant
                i <= self.moveset.len(),
                kept@.no_duplicates(),
                kept@.to_set() == self.moveset@.take(i as int).to_set().intersect(
                    tile_set_view(*filter_set),
                ),
            decreases self.moveset.len() - i,
        {
            let t = self.moveset[i];
            if tile_set_contains(filter_set, t) {
                insert_tile(&mut kept, t);
            }
            proof {
                crate::utils::tile_lists::lemma_push_to_set(
                    self.moveset@.take(i as int),
                    self.moveset@[i as int],
                );
                assert(self.moveset@.take(i + 1) =~= self.moveset@.take(i as int).push(
                    self.moveset@[i as int],
                ));
            }
            i = i + 1;
            assert(kept@.to_set() =~= self.moveset@.take(i as int).to_set().intersect(
                tile_set_view(*filter_set),
            ));
        }
        assert(self.moveset@.take(i as int) =~= self.moveset@);
        MoveBuilder { moveset: kept, ..self }
    }

    /// Filters all moves from the moveset with position changes relative to the king,
    /// compared to the start direction.
    pub fn _filter_postion_changes_to_king(self, king_pos: &(u8, u8), start_direction: Direction) -> (mb: Self)
        requires
            self.moveset@.no_duplicates(),
        ensures
            mb.fig_pos == self.fig_pos,
            mb.fig_color == self.fig_color,
            mb.fig_type == self.fig_type,
            lists_set(
                mb.moveset@,
                self.moveset@.to_set().filter(
                    |t: (u8, u8)| relative_position(*king_pos, t) == start_direction,
                ),
            ),
    {
        let mut kept: Vec<(u8, u8)> = Vec::new();
        let mut i: usize = 0;
        while i < self.moveset.len()
            invariant
                i <= self.moveset.len(),
                kept@.no_duplicates(),
                kept@.to_set() == self.moveset@.take(i as int).to_set().filter(
                    |t: (u8, u8)| relative_position(*king_pos, t) == start_direction,
                ),
            decreases self.moveset.len() - i,
        {
            let t = self.moveset[i];
            if Direction::determine_relative_position(*king_pos, t) == start_direction {
                insert_tile(&mut kept, t);
            }
            proof {
                crate::utils::tile_lists::lemma_push_to_set(
                    self.moveset@.take(i as int),
                    self.moveset@[i as int],
                );
                assert(self.moveset@.take(i + 1) =~= self.moveset@.take(i as int).push(
                    self.moveset@[i as int],
                ));
            }
            i = i + 1;
            assert(kept@.to_set() =~= self.moveset@.take(i as int).to_set().filter(
                |t: (u8, u8)| relative_position(*king_pos, t) == start_direction,
            ));
        }
        assert(self.moveset@.take(i as int) =~= self.moveset@);
        MoveBuilder { moveset: kept, ..self }
    }

    /// Keeps the moves after which the own king is not in check (trying each move on a
    /// copy of the board); a king also may not step next to the other king.
    /// This filter also works in check.
    pub fn _filter_brute_force_2(self, board: &Board) -> (mb: Self)
        requires
            self.moveset@.no_duplicates(),
            on_board(self.fig_pos),
            forall|i: int|
                0 <= i < self.moveset.len() ==> on_board(#[trigger] self.moveset@[i])
                    && board.move_fig(self.fig_pos, self.moveset@[i]).has_king(self.fig_color),
            self.fig_type == FigType::King ==> board.has_king(opponent(self.fig_color)),
        ensures
            mb.fig_pos == self.fig_pos,
            mb.fig_color == self.fig_color,
            mb.fig_type == self.fig_type,
            lists_set(
                mb.moveset@,
                safe_targets(
                    *board,
                    self.fig_pos,
                    self.moveset@.to_set(),
                    self.fig_color,
                    self.fig_type == FigType::King,
                ),
            ),
    {
        let is_king = match self.fig_type {
            FigType::King => true,
            _ => false,
        };
        let enemy_king = if is_king {
            board.get_king_position(self.fig_color.other_player())
        } else {
            (0, 0)
        };
        let mut kept: Vec<(u8, u8)> = Vec::new();
        let mut i: usize = 0;
        while i < self.moveset.len()
            invariant
                i <= self.moveset.len(),
                is_king == (self.fig_type == FigType::King),
                is_king ==> enemy_king == board.king_pos(opponent(self.fig_color)),
                on_board(self.fig_pos),
                forall|i: int|
                    0 <= i < self.moveset.len() ==> on_board(#[trigger] self.moveset@[i])
                        && board.move_fig(self.fig_pos, self.moveset@[i]).has_king(self.fig_color),
                kept@.no_duplicates(),
                kept@.to_set() == safe_targets(
                    *board,
                    self.fig_pos,
                    self.moveset@.take(i as int).to_set(),
                    self.fig_color,
                    is_king,
                ),
            decreases self.moveset.len() - i,
        {
            let t = self.moveset[i];
            assert(on_board(self.moveset@[i as int]));
            let mut board_clone = *board;
            board_clone.move_fig_on_board(self.fig_pos, t);
            let safe = !board_clone.player_in_check(self.fig_color) && (!is_king || !figs_adjacent(
                t,
                enemy_king,
            ));
            if safe {
                insert_tile(&mut kept, t);
            }
            proof {
                crate::utils::tile_lists::lemma_push_to_set(
                    self.moveset@.take(i as int),
                    self.moveset@[i as int],
                );
                assert(self.moveset@.take(i + 1) =~= self.moveset@.take(i as int).push(
                    self.moveset@[i as int],
                ));
            }
            i = i + 1;
            assert(kept@.to_set() =~= safe_targets(
                *board,
                self.fig_pos,
                self.moveset@.take(i as int).to_set(),
                self.fig_color,
                is_king,
            ));
        }
        assert(self.moveset@.take(i as int) =~= self.moveset@);
        MoveBuilder { moveset: kept, ..self }
    }

    /// The figure's tile with the moves found.
    pub fn extract(self) -> (pm: PossibleMoves)
        ensures
            pm.from_tile == self.fig_pos,
            pm.to@ == self.moveset@,
    {
        PossibleMoves { from_tile: self.fig_pos, to: self.moveset }
    }
}

/// Tiles on which a check by the figure on `threat` can be stopped: those from the king
/// towards it up to the first figure, and its own tile.
pub open spec fn stopper_tiles(b: Board, king: (u8, u8), threat: (u8, u8)) -> Set<(u8, u8)> {
    b.until_block(tiles_in_direction(king, relative_position(king, threat), 0, 8)).to_set().insert(
        threat,
    )
}

/// Behind the own figure on `pos`, seen in direction `d`, stands an enemy figure that
/// threatens along `d` (so the figure on `pos` is pinned when `d` points away from the king).
pub open spec fn pin_behind(b: Board, color: PlayerColor, pos: (u8, u8), d: Direction) -> bool {
    b.first_fig_in_direction(pos, d, 0, 8) matches Some((fb, r, c)) && fb.player_color == opponent(
        color,
    ) && spec_pins_in_direction(fb.fig_type, d)
}

/// The moves of the own figure on `pos` as the move generator keeps them.
/// In check by the figure on `threat`: the king keeps its safe moves, every other figure its
/// safe moves onto stopper tiles. Not in check: a guard of the king with an enemy threat
/// behind it keeps only the moves in its direction from the king, the king keeps its safe
/// moves, every other figure keeps all its moves.
pub open spec fn smart_targets(b: Board, color: PlayerColor, threat: Option<(u8, u8)>, pos: (u8, u8)) -> Set<(u8, u8)> {
    let king = b.king_pos(color);
    let f = b.at(pos).unwrap();
    let naive = naive_targets(b, pos, f.fig_type, f.player_color);
    match threat {
        Some(tp) => {
            let base = if pos == king {
                naive
            } else {
                naive.intersect(stopper_tiles(b, king, tp))
            };
            safe_targets(b, pos, base, color, f.fig_type == FigType::King)
        },
        None => {
            let guards = b.guards_upto(color, king, 8);
            if guards.dom().contains(pos) {
                if pin_behind(b, color, pos, guards[pos]) {
                    naive.filter(|t: (u8, u8)| relative_position(king, t) == guards[pos])
                } else {
                    naive
                }
            } else if pos == king {
                safe_targets(b, pos, naive, color, f.fig_type == FigType::King)
            } else {
                naive
            }
        },
    }
}

/// `v` lists, once per figure of `color` that has any, the moves that `smart_targets` keeps.
pub open spec fn lists_moves(v: Seq<PossibleMoves>, b: Board, color: PlayerColor, threat: Option<(u8, u8)>) -> bool {
    &&& forall|i: int|
        0 <= i < v.len() ==> b.busy_tiles(color).contains(#[trigger] v[i].from_tile) && lists_set(
            v[i].to@,
            smart_targets(b, color, threat, v[i].from_tile),
        ) && v[i].to.len() > 0
    &&& forall|i: int, j: int| 0 <= i < j < v.len() ==> v[i].from_tile != v[j].from_tile
    &&& forall|p: (u8, u8), t: (u8, u8)|
        b.busy_tiles(color).contains(p) && #[trigger] smart_targets(b, color, threat, p).contains(t)
            ==> exists|i: int| 0 <= i < v.len() && #[trigger] v[i].from_tile == p
}

/// `threat` names a figure that checks the king of `color`, or is `None` when there is none.
pub open spec fn valid_threat(b: Board, color: PlayerColor, threat: Option<(u8, u8)>) -> bool {
    match threat {
        None => !b.in_check(color),
        Some(p) => b.circle_threat(color, p),
    }
}

/// In check, every move the generator keeps gets the own king out of check, and the king
/// never steps next to the other king.
pub proof fn lemma_check_moves_escape(b: Board, color: PlayerColor, tp: (u8, u8), pos: (u8, u8), t: (u8, u8))
    requires
        smart_targets(b, color, Some(tp), pos).contains(t),
    ensures
        !b.move_fig(pos, t).in_check(color),
        b.at(pos).unwrap().fig_type == FigType::King ==> !adjacent(t, b.king_pos(opponent(color))),
{
}

/// The own king keeps only the moves after which it is not in check, whether or not it is
/// in check now.
pub proof fn lemma_king_moves_safe(b: Board, color: PlayerColor, threat: Option<(u8, u8)>, t: (u8, u8))
    requires
        smart_targets(b, color, threat, b.king_pos(color)).contains(t),
    ensures
        !b.move_fig(b.king_pos(color), t).in_check(color),
{
    crate::game_logic::board_logic::lemma_guards_exclude_king(b, color, b.king_pos(color), 8);
}

/// The safe-move filter may be applied to moves of the figure on `pos` of `color`.
pub proof fn lemma_brute_force_ready(b: Board, pos: (u8, u8), color: PlayerColor, ms: Seq<(u8, u8)>)
    requires
        on_board(pos),
        b.has_king(color),
        b.at(pos).is_some(),
        b.at(pos).unwrap().player_color == color,
        ms.to_set().subset_of(naive_targets(b, pos, b.at(pos).unwrap().fig_type, color)),
    ensures
        forall|i: int|
            0 <= i < ms.len() ==> on_board(#[trigger] ms[i]) && b.move_fig(pos, ms[i]).has_king(
                color,
            ),
{
    assert forall|i: int| 0 <= i < ms.len() implies on_board(#[trigger] ms[i]) && b.move_fig(pos, ms[i]).has_king(color) by {
        assert(ms.to_set().contains(ms[i]));
        lemma_naive_targets_not_own(b, pos, b.at(pos).unwrap(), ms[i]);
        crate::game_logic::board_logic::lemma_move_keeps_king(b, pos, ms[i], color);
    }
}

/// The moves kept for the own figure on `pos` (see `smart_targets`).
fn smart_moves_for(
    board: &Board,
    player_color: PlayerColor,
    king_pos: (u8, u8),
    threat: Option<(u8, u8)>,
    stopper_tiles_set: &HashSet<(u8, u8)>,
    guards: &HashMap<(u8, u8), Direction>,
    pos: (u8, u8),
) -> (pm: PossibleMoves)
    requires
        board.has_king(player_color),
        board.has_king(opponent(player_color)),
        king_pos == board.king_pos(player_color),
        board.is_first_king(king_pos, player_color),
        threat matches Some(tp) ==> tile_set_view(*stopper_tiles_set) == stopper_tiles(
            *board,
            king_pos,
            tp,
        ),
        threat is None ==> guard_map_view(*guards) == board.guards_upto(player_color, king_pos, 8),
        board.busy_tiles(player_color).contains(pos),
    ensures
        pm.from_tile == pos,
        lists_set(pm.to@, smart_targets(*board, player_color, threat, pos)),
{
    let naive = MoveBuilder::new(pos, board).calculate_naive_moves(board);
    let ghost f = board.at(pos).unwrap();
    assert(naive.fig_type == f.fig_type && naive.fig_color == player_color);
    let is_king_tile = pos.0 == king_pos.0 && pos.1 == king_pos.1;
    match threat {
        Some(_) => {
            if is_king_tile {
                proof {
                    lemma_brute_force_ready(*board, pos, player_color, naive.moveset@);
                }
                naive._filter_brute_force_2(board).extract()
            } else {
                // Accelerate a little by using only some
                let stoppers = naive.filter_not_in_set(stopper_tiles_set);
                proof {
                    lemma_brute_force_ready(*board, pos, player_color, stoppers.moveset@);
                }
                if stoppers.fig_type == FigType::King {
                    assert(board.has_king(opponent(stoppers.fig_color)));
                }
                stoppers._filter_brute_force_2(board).extract()
            }
        },
        None => {
            match guard_map_get(guards, pos) {
                // 1. The chosen tile hosts a guard, check for threats behind our guard.
                Some(guard_dir) => {
                    proof {
                        crate::game_logic::board_logic::lemma_scan_on_board(*board, pos, guard_dir, 0, 8, 0);
                        assert(tiles_in_direction(pos, guard_dir, 0, 8).skip(0) =~= tiles_in_direction(pos, guard_dir, 0, 8));
                    }
                    match board.get_first_fig_in_direction(pos, guard_dir, (0, 8)) {
                        // 1.1 There is a directional threat behind our guard
                        Some((fig_behind, _br, _bc)) => {
                            if fig_behind.player_color == player_color.other_player()
                                && fig_behind.fig_type.pins_in_direction(guard_dir) {
                                naive._filter_postion_changes_to_king(&king_pos, guard_dir).extract()
                            } else {
                                naive.extract()
                            }
                        },
                        // 1.2 Figure behind is not a threat or does not exist
                        None => naive.extract(),
                    }
                },
                // 2. We got the king here, we filter carefully all moves.
                None => {
                    if is_king_tile {
                        proof {
                            lemma_brute_force_ready(*board, pos, player_color, naive.moveset@);
                        }
                        naive._filter_brute_force_2(board).extract()
                    } else {
                        // 3. fig not in guards, we can move without care
                        naive.extract()
                    }
                },
            }
        },
    }
}

/// All moves of `player_color`, given the figure `threat` that checks its king (or `None`).
pub fn calculate_all_with_threat(
    board: &Board,
    player_color: PlayerColor,
    threat: Option<(u8, u8)>,
) -> (res: Vec<PossibleMoves>)
    requires
        board.has_king(player_color),
        board.has_king(opponent(player_color)),
    ensures
        lists_moves(res@, *board, player_color, threat),
{
    let king_pos = board.get_king_position(player_color);
    let mut stoppers = crate::utils::tile_collections::tile_set_new();
    let mut guards = crate::utils::tile_collections::guard_map_new();
    match threat {
        Some((threat_r, threat_c)) => {
            let dir_to_threat = Direction::determine_direction_from_to(king_pos, (threat_r, threat_c));
            proof {
                assert(tiles_in_direction(king_pos, dir_to_threat, 0, 8) =~= tiles_in_direction(
                    king_pos,
                    relative_position(king_pos, (threat_r, threat_c)),
                    0,
                    8,
                ));
                crate::game_logic::board_logic::lemma_scan_on_board(*board, king_pos, dir_to_threat, 0, 8, 0);
                assert(tiles_in_direction(king_pos, dir_to_threat, 0, 8).skip(0) =~= tiles_in_direction(king_pos, dir_to_threat, 0, 8));
            }
            stoppers = board._get_tiles_until_block(king_pos, dir_to_threat);
            // This one is extra for knights as they are not found in direction
            tile_set_insert(&mut stoppers, (threat_r, threat_c));
        },
        None => {
            guards = board.guarding_figures(player_color, king_pos);
        },
    }
    let busy = board.get_busy_tiles(player_color);
    let tiles = tile_set_to_vec(&busy);
    let mut out: Vec<PossibleMoves> = Vec::new();
    let mut i: usize = 0;
    while i < tiles.len()
        invariant
            i <= tiles.len(),
            board.has_king(player_color),
            board.has_king(opponent(player_color)),
            king_pos == board.king_pos(player_color),
            board.is_first_king(king_pos, player_color),
            threat matches Some(tp) ==> tile_set_view(stoppers) == stopper_tiles(*board, king_pos, tp),
            threat is None ==> guard_map_view(guards) == board.guards_upto(player_color, king_pos, 8),
            tiles@.to_set() == board.busy_tiles(player_color),
            tiles@.no_duplicates(),
            forall|k: int|
                0 <= k < out.len() ==> board.busy_tiles(player_color).contains(#[trigger] out@[k].from_tile)
                    && lists_set(out@[k].to@, smart_targets(*board, player_color, threat, out@[k].from_tile))
                    && out@[k].to.len() > 0,
            forall|k: int| 0 <= k < out.len() ==> tiles@.take(i as int).contains(#[trigger] out@[k].from_tile),
            forall|a: int, b: int| 0 <= a < b < out.len() ==> out@[a].from_tile != out@[b].from_tile,
            forall|j: int, t: (u8, u8)|
                0 <= j < i && #[trigger] smart_targets(*board, player_color, threat, tiles@[j]).contains(t)
                    ==> exists|k: int| 0 <= k < out.len() && #[trigger] out@[k].from_tile == tiles@[j],
        decreases tiles.len() - i,
    {
        let pos = tiles[i];
        assert(board.busy_tiles(player_color).contains(tiles@[i as int]));
        let pm = smart_moves_for(board, player_color, king_pos, threat, &stoppers, &guards, pos);
        let ghost old_out = out@;
        if pm.to.len() > 0 {
            out.push(pm);
        } else {
            assert forall|t: (u8, u8)| !smart_targets(*board, player_color, threat, pos).contains(t) by {
                if smart_targets(*board, player_color, threat, pos).contains(t) {
                    assert(pm.to@.to_set().contains(t));
                }
            }
        }
        assert forall|k: int| 0 <= k < out.len() implies board.busy_tiles(player_color).contains(#[trigger] out@[k].from_tile)
            && lists_set(out@[k].to@, smart_targets(*board, player_color, threat, out@[k].from_tile))
            && out@[k].to.len() > 0 by {
            if k < old_out.len() {
                assert(out@[k] == old_out[k]);
                assert(board.busy_tiles(player_color).contains(old_out[k].from_tile));
            } else {
                assert(out@[k] == pm);
            }
        }
        assert forall|k: int| 0 <= k < out.len() implies tiles@.take(i + 1).contains(#[trigger] out@[k].from_tile) by {
            if k < old_out.len() {
                assert(tiles@.take(i as int).contains(old_out[k].from_tile));
                let m = choose|m: int| 0 <= m < i && tiles@.take(i as int)[m] == old_out[k].from_tile;
                assert(tiles@.take(i + 1)[m] == old_out[k].from_tile);
            } else {
                assert(tiles@.take(i + 1)[i as int] == pos);
            }
        }
        assert forall|j: int, t: (u8, u8)|
            0 <= j < i + 1 && #[trigger] smart_targets(*board, player_color, threat, tiles@[j]).contains(t)
                implies exists|k: int| 0 <= k < out.len() && #[trigger] out@[k].from_tile == tiles@[j] by {
            if j < i {
                let k = choose|k: int| 0 <= k < old_out.len() && #[trigger] old_out[k].from_tile == tiles@[j];
                assert(out@[k] == old_out[k]);
            } else {
                assert(out@[old_out.len() as int].from_tile == tiles@[j]);
            }
        }
        assert forall|a: int, b: int| 0 <= a < b < out.len() implies out@[a].from_tile != out@[b].from_tile by {
            if b == old_out.len() {
                assert(tiles@.take(i as int).contains(old_out[a].from_tile));
                let m = choose|m: int| 0 <= m < i && tiles@.take(i as int)[m] == old_out[a].from_tile;
                assert(tiles@[m] != tiles@[i as int]);
            }
        }
        i = i + 1;
    }
    assert forall|p: (u8, u8), t: (u8, u8)|
        board.busy_tiles(player_color).contains(p) && #[trigger] smart_targets(*board, player_color, threat, p).contains(t)
            implies exists|k: int| 0 <= k < out.len() && #[trigger] out@[k].from_tile == p by {
        assert(tiles@.to_set().contains(p));
        let j = choose|j: int| 0 <= j < tiles.len() && tiles@[j] == p;
        assert(smart_targets(*board, player_color, threat, tiles@[j]).contains(t));
    }
    out
}

impl MoveBuilder {
    /// All moves of `player_color` that the move generator keeps (see `smart_targets`): when
    /// the player is in check, for the figure that `Board::checking_figure` reports.
    pub fn calculate_all_smarter(board: &Board, player_color: PlayerColor) -> (res: Vec<PossibleMoves>)
        requires
            board.has_king(player_color),
            board.has_king(opponent(player_color)),
        ensures
            exists|threat: Option<(u8, u8)>|
                valid_threat(*board, player_color, threat) && lists_moves(res@, *board, player_color, threat),
    {
        let threat = match board.checking_figure(player_color) {
            Some((threat_r, threat_c, _threat_type)) => Some((threat_r, threat_c)),
            None => None,
        };
        let res = calculate_all_with_threat(board, player_color, threat);
        assert(valid_threat(*board, player_color, threat));
        res
    }
}

/// Kind of the move of the figure on `from` to `to`: a pawn reaching the last row promotes,
/// a pawn moving two rows makes a double step, everything else is a normal move.
pub open spec fn move_kind(b: Board, from: (u8, u8), to: (u8, u8)) -> MoveType {
    match b.at(from) {
        Some(f) => if f.fig_type == FigType::Pawn {
            if (f.player_color == PlayerColor::White && to.0 == 7) || (f.player_color
                == PlayerColor::Black && to.0 == 0) {
                MoveType::Promoting
            } else if from.0 - to.0 == 2 || to.0 - from.0 == 2 {
                MoveType::DoublePawn
            } else {
                MoveType::Norm
            }
        } else {
            MoveType::Norm
        },
        None => MoveType::Norm,
    }
}

/// The move from `from` to `to` with its kind.
pub open spec fn chess_move_of(b: Board, from: (u8, u8), to: (u8, u8)) -> ChessMove {
    ChessMove { from_tile: from, to_tile: to, move_type: move_kind(b, from, to) }
}

/// The move of the figure on `from_tile` to `to_tile`, with its kind (see `move_kind`).
pub fn classify_move(board: &Board, from_tile: (u8, u8), to_tile: (u8, u8)) -> (cm: ChessMove)
    requires
        on_board(from_tile),
    ensures
        cm == chess_move_of(*board, from_tile, to_tile),
{
    let move_type = match board.get_fig_on_tile(from_tile.0, from_tile.1) {
        Some(f) => match f.fig_type {
            FigType::Pawn => {
                let last_row = match f.player_color {
                    PlayerColor::White => to_tile.0 == 7,
                    PlayerColor::Black => to_tile.0 == 0,
                };
                if last_row {
                    MoveType::Promoting
                } else if (from_tile.0 >= to_tile.0 && from_tile.0 - to_tile.0 == 2) || (to_tile.0
                    >= from_tile.0 && to_tile.0 - from_tile.0 == 2) {
                    MoveType::DoublePawn
                } else {
                    MoveType::Norm
                }
            },
            _ => MoveType::Norm,
        },
        None => MoveType::Norm,
    };
    ChessMove { from_tile, to_tile, move_type }
}

impl PossibleMoves {
    /// The moves as `ChessMove`s, each with its kind.
    pub fn chess_moves(&self, board: &Board) -> (moves: Vec<ChessMove>)
        requires
            on_board(self.from_tile),
        ensures
            moves.len() == self.to.len(),
            forall|i: int| 0 <= i < moves.len() ==> #[trigger] moves@[i] == chess_move_of(*board, self.from_tile, self.to@[i]),
    {
        let mut moves: Vec<ChessMove> = Vec::new();
        let mut i: usize = 0;
        while i < self.to.len()
            invariant
                i <= self.to.len(),
                on_board(self.from_tile),
                moves.len() == i,
                forall|k: int| 0 <= k < i ==> #[trigger] moves@[k] == chess_move_of(*board, self.from_tile, self.to@[k]),
            decreases self.to.len() - i,
        {
            moves.push(classify_move(board, self.from_tile, self.to[i]));
            i = i + 1;
        }
        moves
    }
}

/// The tracker of `player` on the board (white's is the first, black's the second).
pub open spec fn tracker_of(b: Board, player: PlayerColor) -> RochadeTracker {
    match player {
        PlayerColor::White => b.1,
        PlayerColor::Black => b.2,
    }
}

/// The castling moves of `player` that are allowed: the king's two-column step towards
/// column 0 (long) and towards column 7 (short).
pub open spec fn rochade_moves(b: Board, player: PlayerColor) -> Seq<ChessMove> {
    let k = king_start(player);
    let t = tracker_of(b, player);
    let left = if t.rochade_ok(b, Direction::L) {
        seq![ChessMove { from_tile: k, to_tile: (k.0, 2u8), move_type: MoveType::RochadeLeft }]
    } else {
        seq![]
    };
    let right = if t.rochade_ok(b, Direction::R) {
        seq![ChessMove { from_tile: k, to_tile: (k.0, 6u8), move_type: MoveType::RochadeRight }]
    } else {
        seq![]
    };
    left + right
}

/// Castling of `player` can be decided in both directions.
pub open spec fn rochade_decidable(b: Board, player: PlayerColor) -> bool {
    tracker_of(b, player).rochade_defined(b, Direction::L) && tracker_of(b, player).rochade_defined(
        b,
        Direction::R,
    )
}

/// Whether castling of `player` can be decided in both directions (see `rochade_decidable`).
pub fn castling_decidable(board: &Board, player: PlayerColor) -> (b: bool)
    ensures
        b == rochade_decidable(*board, player),
{
    let tracker = match player {
        PlayerColor::White => board.1,
        PlayerColor::Black => board.2,
    };
    tracker.rochade_decidable_to(board, Direction::L) && tracker.rochade_decidable_to(board, Direction::R)
}

/// Adds the allowed castling moves of `player` to `movelist`.
pub fn maybe_add_rochade(player: &PlayerColor, movelist: &mut Vec<ChessMove>, board: &Board)
    requires
        rochade_decidable(*board, *player),
    ensures
        final(movelist)@ == old(movelist)@ + rochade_moves(*board, *player),
{
    let tracker = match player {
        PlayerColor::White => board.1,
        PlayerColor::Black => board.2,
    };
    let king_pos = match player {
        PlayerColor::White => crate::utils::core_types::WHITE_KING_SP,
        PlayerColor::Black => crate::utils::core_types::BLACK_KING_SP,
    };
    let ghost start = movelist@;
    if tracker.rochade_possible(board, Direction::L) {
        movelist.push(
            ChessMove { from_tile: king_pos, to_tile: (king_pos.0, 2), move_type: MoveType::RochadeLeft },
        );
    }
    if tracker.rochade_possible(board, Direction::R) {
        movelist.push(
            ChessMove { from_tile: king_pos, to_tile: (king_pos.0, 6), move_type: MoveType::RochadeRight },
        );
    }
    assert(movelist@ =~= start + rochade_moves(*board, *player));
}

/// Whether `mv` is one of the moves listed in `lists` (per figure), with its kind.
pub open spec fn listed_move(b: Board, lists: Seq<PossibleMoves>, mv: ChessMove) -> bool {
    exists|i: int, j: int|
        0 <= i < lists.len() && 0 <= j < lists[i].to.len() && mv == chess_move_of(
            b,
            lists[i].from_tile,
            #[trigger] lists[i].to@[j],
        )
}

/// `res` lists the moves of `player`: for some checking figure (or none, when not in check)
/// the moves of every figure that the generator keeps, each with its kind, followed by the
/// allowed castling moves.
pub open spec fn move_list(b: Board, player: PlayerColor, res: Seq<ChessMove>) -> bool {
    exists|lists: Seq<PossibleMoves>, threat: Option<(u8, u8)>|
        valid_threat(b, player, threat) && lists_moves(lists, b, player, threat) && {
            let n = (res.len() - rochade_moves(b, player).len()) as int;
            &&& n >= 0
            &&& res.skip(n) == rochade_moves(b, player)
            &&& forall|k: int| 0 <= k < n ==> listed_move(b, lists, #[trigger] res[k])
            &&& forall|mv: ChessMove| listed_move(b, lists, mv) ==> res.take(n).contains(mv)
        }
}

/// All moves of `player`: the moves of every figure (see `calculate_all_smarter`), each
/// with its kind, followed by the allowed castling moves.
#[verifier::rlimit(40)]
pub fn calculate_all(board: &Board, player: PlayerColor) -> (res: Vec<ChessMove>)
    requires
        board.has_king(player),
        board.has_king(opponent(player)),
        rochade_decidable(*board, player),
    ensures
        move_list(*board, player, res@),
{
    let lists = MoveBuilder::calculate_all_smarter(board, player);
    let ghost threat = choose|threat: Option<(u8, u8)>| valid_threat(*board, player, threat) && lists_moves(lists@, *board, player, threat);
    let mut res: Vec<ChessMove> = Vec::new();
    let mut i: usize = 0;
    while i < lists.len()
        invariant
            i <= lists.len(),
            lists_moves(lists@, *board, player, threat),
            forall|k: int| 0 <= k < res.len() ==> listed_move(*board, lists@, #[trigger] res@[k]),
            forall|a: int, b: int|
                0 <= a < i && 0 <= b < lists@[a].to.len() ==> res@.contains(
                    chess_move_of(*board, lists@[a].from_tile, #[trigger] lists@[a].to@[b]),
                ),
        decreases lists.len() - i,
    {
        assert(board.busy_tiles(player).contains(lists@[i as int].from_tile));
        let moves = lists[i].chess_moves(board);
        let ghost before = res@;
        let mut j: usize = 0;
        while j < moves.len()
            invariant
                j <= moves.len(),
                i < lists.len(),
                moves.len() == lists@[i as int].to.len(),
                forall|k: int| 0 <= k < moves.len() ==> #[trigger] moves@[k] == chess_move_of(*board, lists@[i as int].from_tile, lists@[i as int].to@[k]),
                res@.take(before.len() as int) == before,
                before.len() <= res.len(),
                forall|k: int| 0 <= k < res.len() ==> listed_move(*board, lists@, #[trigger] res@[k]),
                forall|b: int| 0 <= b < j ==> res@.contains(#[trigger] moves@[b]),
            decreases moves.len() - j,
        {
            let ghost prev = res@;
            res.push(moves[j]);
            assert(listed_move(*board, lists@, moves@[j as int]));
            assert forall|b: int| 0 <= b < j + 1 implies res@.contains(#[trigger] moves@[b]) by {
                if b < j {
                    let k = choose|k: int| 0 <= k < prev.len() && prev[k] == moves@[b];
                    assert(res@[k] == moves@[b]);
                } else {
                    assert(res@[prev.len() as int] == moves@[b]);
                }
            }
            assert(res@.take(before.len() as int) =~= before);
            j = j + 1;
        }
        assert forall|a: int, b: int|
            0 <= a < i + 1 && 0 <= b < lists@[a].to.len() implies res@.contains(
                chess_move_of(*board, lists@[a].from_tile, #[trigger] lists@[a].to@[b]),
            ) by {
            if a < i {
                assert(before.contains(chess_move_of(*board, lists@[a].from_tile, lists@[a].to@[b])));
                let k = choose|k: int| 0 <= k < before.len() && before[k] == chess_move_of(*board, lists@[a].from_tile, lists@[a].to@[b]);
                assert(res@.take(before.len() as int)[k] == before[k]);
            } else {
                assert(moves@[b] == chess_move_of(*board, lists@[a].from_tile, lists@[a].to@[b]));
            }
        }
        i = i + 1;
    }
    let ghost n = res.len() as int;
    let ghost listed = res@;
    maybe_add_rochade(&player, &mut res, board);
    assert(res@.skip(n) =~= rochade_moves(*board, player));
    assert(res@.take(n) =~= listed);
    assert forall|mv: ChessMove| listed_move(*board, lists@, mv) implies res@.take(n).contains(mv) by {
        let (a, b) = choose|a: int, b: int|
            0 <= a < lists@.len() && 0 <= b < lists@[a].to.len() && mv == chess_move_of(
                *board,
                lists@[a].from_tile,
                #[trigger] lists@[a].to@[b],
            );
        assert(listed.contains(chess_move_of(*board, lists@[a].from_tile, lists@[a].to@[b])));
    }
    proof {
        let r = res@;
        assert(valid_threat(*board, player, threat) && lists_moves(lists@, *board, player, threat) && {
            let n = (r.len() - rochade_moves(*board, player).len()) as int;
            &&& n >= 0
            &&& r.skip(n) == rochade_moves(*board, player)
            &&& forall|k: int| 0 <= k < n ==> listed_move(*board, lists@, #[trigger] r[k])
            &&& forall|mv: ChessMove| listed_move(*board, lists@, mv) ==> r.take(n).contains(mv)
        });
    }
    res
}


/// A black pawn moves as a white pawn does on the board seen from the other side: its
/// targets are those of the white pawn on the mirrored tile of the mirrored board, mirrored
/// back.
pub proof fn lemma_pawn_targets_mirror(m: Board, b: Board, from: (u8, u8), t: (u8, u8))
    requires
        crate::game_logic::board_logic::is_rank_mirror(m, b),
        on_board(from),
        on_board(t),
    ensures
        black_pawn_targets(b, from).contains(t) == white_pawn_targets(m, ((7 - from.0) as u8, from.1)).contains(
            ((7 - t.0) as u8, t.1),
        ),
{
    let mf: (u8, u8) = ((7 - from.0) as u8, from.1);
    let down = down_clamped(from.0);
    let up = up_clamped(mf.0);
    assert(up == 7 - down);
    let c3 = up_clamped(from.1);
    let c4 = down_clamped(from.1);
    assert(m.cell(7 - down, from.1 as int) == crate::game_logic::board_logic::swap_color(b.cell(down as int, from.1 as int)));
    assert(m.cell(7 - down, c3 as int) == crate::game_logic::board_logic::swap_color(b.cell(down as int, c3 as int)));
    assert(m.cell(7 - down, c4 as int) == crate::game_logic::board_logic::swap_color(b.cell(down as int, c4 as int)));
    assert(m.cell(3, from.1 as int) == crate::game_logic::board_logic::swap_color(b.cell(4, from.1 as int)));
    assert(m.cell(2, from.1 as int) == crate::game_logic::board_logic::swap_color(b.cell(5, from.1 as int)));
}
} // verus!
