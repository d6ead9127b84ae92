//! The board: figures on tiles, castling trackers of both players and the last move.
use bevy::platform::collections::{HashMap, HashSet};
use vstd::prelude::*;

use crate::game_logic::movement_logic::{naive_targets, ChessMove, MoveBuilder, MoveType};
use crate::utils::core_types::{
    diag_threat, dir_delta, is_diag_dir, is_diag_threat, is_rank_dir, is_rank_threat,
    is_straight_dir, on_board, opponent, rank_threat, relative_position, straight_dirs, Direction,
    FigType, Figure, PlayerColor,
};
use crate::utils::{adjacent, figs_adjacent, knight_cands};
use crate::utils::core_types::{back_rank, back_rank_type, BLACK_KING_SP, WHITE_KING_SP};
use crate::utils::tile_collections::{
    guard_map_insert, guard_map_new, guard_map_view, threat_map_entries, threat_map_insert,
    threat_map_new, threat_map_view, tile_set_insert, tile_set_new, tile_set_to_vec, tile_set_view,
};
use crate::utils::tile_lists::contains_tile;
use crate::utils::tile_lists::{lemma_prepend_to_set, lemma_single_to_set};

verus! {

/// Remembers whether a player's king and rooks have left their starting tiles
/// (or, for the rooks, have been captured there).
#[derive(Debug, Clone, Copy, PartialEq, Eq)]
pub struct RochadeTracker {
    player: PlayerColor,
    king_moved: bool,
    right_rook_moved: bool,
    left_rook_moved: bool,
}

/// Board contains all information for the calculation of all possible moves (for both players):
/// the figures by row and column, the castling trackers of white and black, and the last move.
#[derive(Debug, Clone, Copy, PartialEq, Eq)]
pub struct Board(
    pub [[Option<Figure>; 8]; 8],
    pub RochadeTracker,
    pub RochadeTracker,
    pub Option<ChessMove>,
);

/// Number of steps from coordinate `x` in direction `step` before leaving `[lo, hi)`.
pub open spec fn axis_span(x: int, step: int, lo: int, hi: int) -> int {
    if step > 0 {
        hi - x - 1
    } else if step < 0 {
        x - lo
    } else {
        256
    }
}

/// Coordinate `x` moved `n` steps in direction `step`.
pub open spec fn step_coord(x: int, step: int, n: int) -> int {
    if step > 0 {
        x + n
    } else if step < 0 {
        x - n
    } else {
        x
    }
}

/// Number of tiles that lie in direction `d` from `s` (exclusive) while every moving
/// coordinate stays within `[lo, hi)`.
pub open spec fn ray_len(s: (u8, u8), d: Direction, lo: u8, hi: u8) -> nat {
    if is_straight_dir(d) {
        let n = vstd::math::min(
            axis_span(s.0 as int, dir_delta(d).0, lo as int, hi as int),
            axis_span(s.1 as int, dir_delta(d).1, lo as int, hi as int),
        );
        if n < 0 {
            0
        } else {
            n as nat
        }
    } else {
        0
    }
}

/// The `k`-th tile (counting from 0) in direction `d` from `s`.
pub open spec fn ray_tile(s: (u8, u8), d: Direction, k: int) -> (u8, u8) {
    (
        step_coord(s.0 as int, dir_delta(d).0, k + 1) as u8,
        step_coord(s.1 as int, dir_delta(d).1, k + 1) as u8,
    )
}

/// The tiles in direction `d` from `s` (exclusive), nearest first, bounded by `[lo, hi)`.
pub open spec fn tiles_in_direction(s: (u8, u8), d: Direction, lo: u8, hi: u8) -> Seq<(u8, u8)> {
    Seq::new(ray_len(s, d, lo, hi), |k: int| ray_tile(s, d, k))
}

/// Walking from `s` in direction `d` the first step does not leave the range of `u8`.
pub open spec fn ray_starts_in_range(s: (u8, u8), d: Direction) -> bool {
    &&& dir_delta(d).0 > 0 ==> s.0 < 255
    &&& dir_delta(d).1 > 0 ==> s.1 < 255
}

/// Whether `f` is the king of `color`.
pub open spec fn is_king_of(f: Option<Figure>, color: PlayerColor) -> bool {
    f == Some(Figure { fig_type: FigType::King, player_color: color })
}

/// Whether `f` is a figure of `color`.
pub open spec fn owned_by(f: Option<Figure>, color: PlayerColor) -> bool {
    f.is_some() && f.unwrap().player_color == color
}

/// Tile `a` comes before tile `b` when the board is read row by row.
pub open spec fn before_in_scan(a: (int, int), b: (u8, u8)) -> bool {
    a.0 < b.0 || (a.0 == b.0 && a.1 < b.1)
}

impl Board {
    /// The figure at row `r`, column `c`.
    pub open spec fn cell(self, r: int, c: int) -> Option<Figure> {
        self.0[r][c]
    }

    /// The figure on tile `t`.
    pub open spec fn at(self, t: (u8, u8)) -> Option<Figure> {
        self.cell(t.0 as int, t.1 as int)
    }

    /// The board with `f` placed on tile `t` (everything else unchanged).
    pub open spec fn put(self, t: (u8, u8), f: Option<Figure>) -> Board {
        Board(
            vstd::array::spec_array_update(
                self.0,
                t.0 as int,
                vstd::array::spec_array_update(self.0[t.0 as int], t.1 as int, f),
            ),
            self.1,
            self.2,
            self.3,
        )
    }

    /// The board with the figure of `from` moved to `to` (`from` left empty).
    pub open spec fn move_fig(self, from: (u8, u8), to: (u8, u8)) -> Board {
        self.put(from, None).put(to, self.at(from))
    }

    /// Whether the king of `color` stands somewhere on the board.
    pub open spec fn has_king(self, color: PlayerColor) -> bool {
        exists|r: int, c: int| 0 <= r < 8 && 0 <= c < 8 && is_king_of(#[trigger] self.cell(r, c), color)
    }

    /// `p` holds the king of `color`, and no tile read before it (row by row) does.
    pub open spec fn is_first_king(self, p: (u8, u8), color: PlayerColor) -> bool {
        &&& on_board(p)
        &&& is_king_of(self.at(p), color)
        &&& forall|r: int, c: int|
            0 <= r < 8 && 0 <= c < 8 && before_in_scan((r, c), p) ==> !is_king_of(
                #[trigger] self.cell(r, c),
                color,
            )
    }

    /// The tile of the king of `color` (the first one, reading row by row).
    pub open spec fn king_pos(self, color: PlayerColor) -> (u8, u8) {
        choose|p: (u8, u8)| self.is_first_king(p, color)
    }

    /// Whether the figure `f` on `pos`, seen from `king` in direction `d`, attacks the king:
    /// rooks and queens along rows and columns, bishops and queens along diagonals, and
    /// pawns along a diagonal when their own moves reach the king's tile.
    pub open spec fn threatens_along(self, f: Figure, pos: (u8, u8), d: Direction, king: (u8, u8)) -> bool {
        (is_rank_dir(d) && is_rank_threat(f.fig_type)) || (is_diag_dir(d) && (is_diag_threat(
            f.fig_type,
        ) || (f.fig_type == FigType::Pawn && naive_targets(
            self,
            pos,
            FigType::Pawn,
            f.player_color,
        ).contains(king))))
    }

    /// The first figure seen from `king` in direction `d` is an enemy that attacks the king.
    pub open spec fn ray_threat(self, king: (u8, u8), color: PlayerColor, d: Direction) -> bool {
        match self.first_fig_in_direction(king, d, 0, 8) {
            Some((f, r, c)) => f.player_color == opponent(color) && self.threatens_along(
                f,
                (r, c),
                d,
                king,
            ),
            None => false,
        }
    }

    /// Tile `p` holds a knight of the opponent of `color`.
    pub open spec fn enemy_knight_at(self, color: PlayerColor, p: (u8, u8)) -> bool {
        self.at(p) == Some(Figure { fig_type: FigType::Knight, player_color: opponent(color) })
    }

    /// The king of `color` is attacked along one of the eight directions or by a knight.
    pub open spec fn in_check(self, color: PlayerColor) -> bool {
        let king = self.king_pos(color);
        (exists|i: int| 0 <= i < 8 && self.ray_threat(king, color, #[trigger] straight_dirs()[i]))
            || (exists|p: (u8, u8)| #[trigger] knight_cands(king).contains(p) && self.enemy_knight_at(color, p))
    }

    /// Own figures that stand first in one of the first `n` straight directions seen from
    /// `king`, looking only at the inner rows and columns 1 to 6, with the direction in
    /// which they stand.
    pub open spec fn guards_upto(self, color: PlayerColor, king: (u8, u8), n: int) -> Map<
        (u8, u8),
        Direction,
    >
        decreases n,
    {
        if n <= 0 {
            Map::empty()
        } else {
            let m = self.guards_upto(color, king, n - 1);
            let d = straight_dirs()[n - 1];
            match self.first_fig_in_direction(king, d, 1, 7) {
                Some((f, r, c)) => if f.player_color == color {
                    m.insert((r, c), d)
                } else {
                    m
                },
                None => m,
            }
        }
    }

    /// Enemy figures that stand first in one of the first `n` straight directions seen from
    /// `king`, with the direction and their type.
    pub open spec fn enemy_rays_upto(self, color: PlayerColor, king: (u8, u8), n: int) -> Map<
        (u8, u8),
        (Direction, FigType),
    >
        decreases n,
    {
        if n <= 0 {
            Map::empty()
        } else {
            let m = self.enemy_rays_upto(color, king, n - 1);
            let d = straight_dirs()[n - 1];
            match self.first_fig_in_direction(king, d, 0, 8) {
                Some((f, r, c)) => if f.player_color == opponent(color) {
                    m.insert((r, c), (d, f.fig_type))
                } else {
                    m
                },
                None => m,
            }
        }
    }

    /// Enemy knights that reach `king`, marked as unrelated by direction.
    pub open spec fn enemy_knights(self, color: PlayerColor, king: (u8, u8)) -> Map<
        (u8, u8),
        (Direction, FigType),
    > {
        Map::new(
            |p: (u8, u8)| knight_cands(king).contains(p) && self.enemy_knight_at(color, p),
            |p: (u8, u8)| (Direction::Unrelated, FigType::Knight),
        )
    }

    /// The enemy figures around the king of `color` on `king`: the first ones in each
    /// straight direction and the knights that reach it.
    pub open spec fn enemy_circle(self, color: PlayerColor, king: (u8, u8)) -> Map<
        (u8, u8),
        (Direction, FigType),
    > {
        self.enemy_rays_upto(color, king, 8).union_prefer_right(self.enemy_knights(color, king))
    }

    /// Whether the entry `(d, t)` of the enemy circle, for the figure on `p`, attacks the king
    /// on `king`: a knight (marked unrelated), or a figure that threatens along `d`.
    pub open spec fn entry_threat(self, king: (u8, u8), p: (u8, u8), d: Direction, t: FigType) -> bool {
        d == Direction::Unrelated || (is_rank_dir(d) && is_rank_threat(t)) || (is_diag_dir(d) && (
        is_diag_threat(t) || (t == FigType::Pawn && naive_targets(
            self,
            p,
            FigType::Pawn,
            self.at(p).unwrap().player_color,
        ).contains(king))))
    }

    /// The figure on `p` is in the enemy circle of the king of `color` and attacks it.
    pub open spec fn circle_threat(self, color: PlayerColor, p: (u8, u8)) -> bool {
        let king = self.king_pos(color);
        let m = self.enemy_circle(color, king);
        m.dom().contains(p) && self.entry_threat(king, p, m[p].0, m[p].1)
    }

    /// The tiles that hold a figure of `color`.
    pub open spec fn busy_tiles(self, color: PlayerColor) -> Set<(u8, u8)> {
        Set::new(|t: (u8, u8)| on_board(t) && owned_by(self.at(t), color))
    }

    /// The first figure met on `tiles`, with its tile.
    pub open spec fn first_fig(self, tiles: Seq<(u8, u8)>) -> Option<(Figure, u8, u8)>
        decreases tiles.len(),
    {
        if tiles.len() == 0 {
            None
        } else {
            match self.at(tiles[0]) {
                Some(f) => Some((f, tiles[0].0, tiles[0].1)),
                None => self.first_fig(tiles.drop_first()),
            }
        }
    }

    /// Reading `tiles` in order up to and including the first occupied one,
    /// every tile read lies on the board.
    pub open spec fn scan_on_board(self, tiles: Seq<(u8, u8)>) -> bool
        decreases tiles.len(),
    {
        tiles.len() == 0 || (on_board(tiles[0]) && (self.at(tiles[0]).is_none()
            ==> self.scan_on_board(tiles.drop_first())))
    }

    /// The prefix of `tiles` up to and including the first occupied tile.
    pub open spec fn until_block(self, tiles: Seq<(u8, u8)>) -> Seq<(u8, u8)>
        decreases tiles.len(),
    {
        if tiles.len() == 0 {
            seq![]
        } else if self.at(tiles[0]).is_some() {
            seq![tiles[0]]
        } else {
            seq![tiles[0]] + self.until_block(tiles.drop_first())
        }
    }

    /// The first figure in direction `d` from `s`, bounded by `[lo, hi)`.
    pub open spec fn first_fig_in_direction(self, s: (u8, u8), d: Direction, lo: u8, hi: u8) -> Option<
        (Figure, u8, u8),
    > {
        self.first_fig(tiles_in_direction(s, d, lo, hi))
    }
}

/// The cells of a board after placing a figure: only the target tile changes.
pub broadcast proof fn lemma_put_cell(b: Board, t: (u8, u8), f: Option<Figure>, r: int, c: int)
    requires
        on_board(t),
        0 <= r < 8,
        0 <= c < 8,
    ensures
        #[trigger] b.put(t, f).cell(r, c) == (if r == t.0 && c == t.1 {
            f
        } else {
            b.cell(r, c)
        }),
{
}

/// A ray that starts on the board and stays within it is read on the board only.
pub proof fn lemma_scan_on_board(b: Board, s: (u8, u8), d: Direction, lo: u8, hi: u8, i: int)
    requires
        on_board(s),
        hi <= 8,
        0 <= i <= ray_len(s, d, lo, hi),
    ensures
        b.scan_on_board(tiles_in_direction(s, d, lo, hi).skip(i)),
    decreases ray_len(s, d, lo, hi) - i,
{
    let t = tiles_in_direction(s, d, lo, hi).skip(i);
    if i < ray_len(s, d, lo, hi) {
        lemma_ray_on_board(s, d, lo, hi, i);
        lemma_scan_on_board(b, s, d, lo, hi, i + 1);
        assert(t.drop_first() =~= tiles_in_direction(s, d, lo, hi).skip(i + 1));
    }
}

/// The first figure met on a list of tiles stands on one of those tiles.
pub proof fn lemma_first_fig_in_tiles(b: Board, tiles: Seq<(u8, u8)>)
    ensures
        b.first_fig(tiles) matches Some((f, r, c)) ==> tiles.contains((r, c)) && b.at((r, c))
            == Some(f),
    decreases tiles.len(),
{
    if tiles.len() > 0 && b.at(tiles[0]).is_none() {
        lemma_first_fig_in_tiles(b, tiles.drop_first());
        if let Some((f, r, c)) = b.first_fig(tiles) {
            let i = choose|i: int| 0 <= i < tiles.drop_first().len() && tiles.drop_first()[i] == (r, c);
            assert(tiles[i + 1] == (r, c));
        }
    } else if tiles.len() > 0 {
        assert(tiles[0] == (tiles[0].0, tiles[0].1));
    }
}

/// Seen from `s`, a tile `k + 1` steps away in direction `d` lies in direction `d`.
pub proof fn lemma_ray_tile_relative(s: (u8, u8), d: Direction, lo: u8, hi: u8, k: int)
    requires
        0 <= k < ray_len(s, d, lo, hi),
    ensures
        relative_position(s, ray_tile(s, d, k)) == d,
        ray_tile(s, d, k).0 as int == step_coord(s.0 as int, dir_delta(d).0, k + 1),
        ray_tile(s, d, k).1 as int == step_coord(s.1 as int, dir_delta(d).1, k + 1),
{
}

/// The king's own tile is never one of its guards.
pub proof fn lemma_guards_exclude_king(b: Board, color: PlayerColor, king: (u8, u8), n: int)
    ensures
        !b.guards_upto(color, king, n).dom().contains(king),
    decreases n,
{
    if n > 0 {
        lemma_guards_exclude_king(b, color, king, n - 1);
        let d = straight_dirs()[n - 1];
        let tiles = tiles_in_direction(king, d, 1, 7);
        lemma_first_fig_in_tiles(b, tiles);
        if let Some((f, r, c)) = b.first_fig_in_direction(king, d, 1, 7) {
            let k = choose|k: int| 0 <= k < tiles.len() && tiles[k] == (r, c);
            lemma_ray_tile_relative(king, d, 1, 7, k);
        }
    }
}

/// The first figure in a direction within the board stands in that direction, on the board.
pub proof fn lemma_first_fig_relative(b: Board, s: (u8, u8), d: Direction)
    requires
        on_board(s),
    ensures
        b.first_fig_in_direction(s, d, 0, 8) matches Some((f, r, c)) ==> relative_position(s, (r, c))
            == d && b.at((r, c)) == Some(f) && on_board((r, c)) && is_straight_dir(d),
{
    let tiles = tiles_in_direction(s, d, 0, 8);
    lemma_first_fig_in_tiles(b, tiles);
    if let Some((f, r, c)) = b.first_fig_in_direction(s, d, 0, 8) {
        let k = choose|k: int| 0 <= k < tiles.len() && tiles[k] == (r, c);
        lemma_ray_tile_relative(s, d, 0, 8, k);
        lemma_ray_on_board(s, d, 0, 8, k);
    }
}

/// Seen from a tile on the board, the tiles a knight reaches lie in no straight direction.
pub proof fn lemma_knight_relative(s: (u8, u8), p: (u8, u8))
    requires
        on_board(s),
        knight_cands(s).contains(p),
    ensures
        relative_position(s, p) == Direction::S1D1,
        on_board(p),
{
}

/// The entries of `enemy_rays_upto`: enemy figures standing first in their direction.
pub proof fn lemma_enemy_rays_entries(b: Board, color: PlayerColor, king: (u8, u8), n: int)
    requires
        on_board(king),
        0 <= n <= 8,
    ensures
        forall|p: (u8, u8)| #[trigger] b.enemy_rays_upto(color, king, n).dom().contains(p) ==> {
            let e = b.enemy_rays_upto(color, king, n)[p];
            &&& on_board(p)
            &&& is_straight_dir(e.0)
            &&& relative_position(king, p) == e.0
            &&& b.at(p).is_some()
            &&& b.at(p).unwrap().player_color == opponent(color)
            &&& b.at(p).unwrap().fig_type == e.1
            &&& b.first_fig_in_direction(king, e.0, 0, 8) == Some((b.at(p).unwrap(), p.0, p.1))
        },
        forall|i: int|
            0 <= i < n ==> (#[trigger] b.first_fig_in_direction(king, straight_dirs()[i], 0, 8) matches Some((f, r, c))
                ==> (f.player_color == opponent(color) ==> b.enemy_rays_upto(color, king, n).dom().contains((r, c)))),
    decreases n,
{
    if n > 0 {
        lemma_enemy_rays_entries(b, color, king, n - 1);
        let d = straight_dirs()[n - 1];
        lemma_first_fig_relative(b, king, d);
    }
}

/// Some figure of the enemy circle attacks the king exactly when the king is in check.
pub proof fn lemma_circle_threat_iff_in_check(b: Board, color: PlayerColor)
    requires
        b.has_king(color),
        on_board(b.king_pos(color)),
        b.is_first_king(b.king_pos(color), color),
    ensures
        (exists|p: (u8, u8)| b.circle_threat(color, p)) == b.in_check(color),
{
    let king = b.king_pos(color);
    let rays = b.enemy_rays_upto(color, king, 8);
    let knights = b.enemy_knights(color, king);
    let m = b.enemy_circle(color, king);
    lemma_enemy_rays_entries(b, color, king, 8);
    if exists|p: (u8, u8)| b.circle_threat(color, p) {
        let p = choose|p: (u8, u8)| b.circle_threat(color, p);
        if knights.dom().contains(p) {
            assert(knight_cands(king).contains(p) && b.enemy_knight_at(color, p));
        } else {
            assert(rays.dom().contains(p));
            let e = rays[p];
            let d = e.0;
            let i: int = if d == Direction::R {
                0
            } else if d == Direction::AR {
                1
            } else if d == Direction::A {
                2
            } else if d == Direction::AL {
                3
            } else if d == Direction::L {
                4
            } else if d == Direction::BL {
                5
            } else if d == Direction::B {
                6
            } else {
                7
            };
            assert(straight_dirs()[i] == d);
            assert(b.ray_threat(king, color, straight_dirs()[i]));
        }
    }
    if b.in_check(color) {
        if exists|i: int| 0 <= i < 8 && b.ray_threat(king, color, #[trigger] straight_dirs()[i]) {
            let i = choose|i: int| 0 <= i < 8 && b.ray_threat(king, color, #[trigger] straight_dirs()[i]);
            let d = straight_dirs()[i];
            lemma_first_fig_relative(b, king, d);
            if let Some((f, r, c)) = b.first_fig_in_direction(king, d, 0, 8) {
                assert(rays.dom().contains((r, c)));
                if knights.dom().contains((r, c)) {
                    lemma_knight_relative(king, (r, c));
                }
                assert(b.circle_threat(color, (r, c)));
            }
        } else {
            let p = choose|p: (u8, u8)| #[trigger] knight_cands(king).contains(p) && b.enemy_knight_at(color, p);
            assert(knights.dom().contains(p));
            assert(b.circle_threat(color, p));
        }
    }
}

/// Moving an own figure to a tile without an own figure keeps the own king on the board.
pub proof fn lemma_move_keeps_king(b: Board, pos: (u8, u8), t: (u8, u8), color: PlayerColor)
    requires
        on_board(pos),
        on_board(t),
        owned_by(b.at(pos), color),
        !owned_by(b.at(t), color),
        b.has_king(color),
    ensures
        b.move_fig(pos, t).has_king(color),
{
    let nb = b.move_fig(pos, t);
    lemma_put_cell(b.put(pos, None), t, b.at(pos), t.0 as int, t.1 as int);
    if is_king_of(b.at(pos), color) {
        assert(is_king_of(nb.cell(t.0 as int, t.1 as int), color));
    } else {
        let (r, c) = choose|r: int, c: int| 0 <= r < 8 && 0 <= c < 8 && is_king_of(#[trigger] b.cell(r, c), color);
        lemma_put_cell(b, pos, None, r, c);
        lemma_put_cell(b.put(pos, None), t, b.at(pos), r, c);
        assert(is_king_of(nb.cell(r, c), color));
    }
}

/// There is only one first king of a color.
pub proof fn lemma_first_king_unique(b: Board, p: (u8, u8), q: (u8, u8), color: PlayerColor)
    requires
        b.is_first_king(p, color),
        b.is_first_king(q, color),
    ensures
        p == q,
{
    if before_in_scan((p.0 as int, p.1 as int), q) {
        assert(!is_king_of(b.cell(p.0 as int, p.1 as int), color));
    } else if before_in_scan((q.0 as int, q.1 as int), p) {
        assert(!is_king_of(b.cell(q.0 as int, q.1 as int), color));
    }
}

/// Tiles in a direction from a tile on the board, bounded within the board, are on the board.
pub proof fn lemma_ray_on_board(s: (u8, u8), d: Direction, lo: u8, hi: u8, k: int)
    requires
        on_board(s),
        hi <= 8,
        0 <= k < ray_len(s, d, lo, hi),
    ensures
        on_board(ray_tile(s, d, k)),
        step_coord(s.0 as int, dir_delta(d).0, k + 1) == ray_tile(s, d, k).0,
        step_coord(s.1 as int, dir_delta(d).1, k + 1) == ray_tile(s, d, k).1,
{
}

/// Exec version of `dir_delta`.
fn delta_of(d: Direction) -> (res: (i8, i8))
    ensures
        res.0 as int == dir_delta(d).0,
        res.1 as int == dir_delta(d).1,
{
    match d {
        Direction::R => (0, 1),
        Direction::AR => (1, 1),
        Direction::A => (1, 0),
        Direction::AL => (1, -1),
        Direction::L => (0, -1),
        Direction::BL => (-1, -1),
        Direction::B => (-1, 0),
        Direction::BR => (-1, 1),
        _ => (0, 0),
    }
}

fn axis_span_exec(x: u8, step: i8, lo: u8, hi: u8) -> (n: i16)
    requires
        -1 <= step <= 1,
    ensures
        n as int == axis_span(x as int, step as int, lo as int, hi as int),
{
    if step > 0 {
        hi as i16 - x as i16 - 1
    } else if step < 0 {
        x as i16 - lo as i16
    } else {
        256
    }
}

fn step_coord_exec(x: u8, step: i8, n: u16) -> (y: u8)
    requires
        -1 <= step <= 1,
        0 <= step_coord(x as int, step as int, n as int) < 256,
    ensures
        y as int == step_coord(x as int, step as int, n as int),
{
    if step > 0 {
        (x as u16 + n) as u8
    } else if step < 0 {
        (x as u16 - n) as u8
    } else {
        x
    }
}

impl Board {
    /// The figure on row `row`, column `col`.
    pub fn get_fig_on_tile(&self, row: u8, col: u8) -> (f: Option<Figure>)
        requires
            row < 8,
            col < 8,
        ensures
            f == self.at((row, col)),
    {
        self.0[row as usize][col as usize]
    }

    /// Places `f` on tile `t`.
    pub fn set_fig_on_tile(&mut self, t: (u8, u8), f: Option<Figure>)
        requires
            on_board(t),
        ensures
            *final(self) == old(self).put(t, f),
    {
        let mut row = self.0[t.0 as usize];
        row[t.1 as usize] = f;
        self.0[t.0 as usize] = row;
    }

    /// Removes the figure of tile `t` and returns it.
    pub fn take_fig_on_tile(&mut self, t: (u8, u8)) -> (f: Option<Figure>)
        requires
            on_board(t),
        ensures
            f == old(self).at(t),
            *final(self) == old(self).put(t, None),
    {
        let f = self.0[t.0 as usize][t.1 as usize];
        self.set_fig_on_tile(t, None);
        f
    }

    /// Moves the figure of `from` to `to`, replacing whatever stood there.
    pub fn move_fig_on_board(&mut self, from: (u8, u8), to: (u8, u8))
        requires
            on_board(from),
            on_board(to),
        ensures
            *final(self) == old(self).move_fig(from, to),
    {
        let f = self.take_fig_on_tile(from);
        self.set_fig_on_tile(to, f);
    }

    /// Get tiles in direction starting at source pos (exclusive) in the given straight direction.
    /// Lower bound is inclusive, higher bound is exclusive!
    /// Low bound is used for the left and lower borders, right bound for right and upper!
    pub fn get_tiles_in_direction(
        &self,
        source_pos: (u8, u8),
        direction: Direction,
        bounds: (u8, u8),
    ) -> (tiles: Vec<(u8, u8)>)
        requires
            ray_starts_in_range(source_pos, direction),
        ensures
            tiles@ == tiles_in_direction(source_pos, direction, bounds.0, bounds.1),
    {
        let (b_low, b_high) = bounds;
        let (dr, dc) = delta_of(direction);
        let n: u16 = if is_straight(direction) {
            let nr = axis_span_exec(source_pos.0, dr, b_low, b_high);
            let nc = axis_span_exec(source_pos.1, dc, b_low, b_high);
            let m = if nr < nc {
                nr
            } else {
                nc
            };
            if m < 0 {
                0
            } else {
                m as u16
            }
        } else {
            0
        };
        assert(n == ray_len(source_pos, direction, b_low, b_high));
        let mut tiles: Vec<(u8, u8)> = Vec::new();
        let mut k: u16 = 0;
        while k < n
            invariant
                k <= n,
                n == ray_len(source_pos, direction, b_low, b_high),
                dr as int == dir_delta(direction).0,
                dc as int == dir_delta(direction).1,
                tiles@ == tiles_in_direction(source_pos, direction, b_low, b_high).take(k as int),
            decreases n - k,
        {
            let r = step_coord_exec(source_pos.0, dr, k + 1);
            let c = step_coord_exec(source_pos.1, dc, k + 1);
            tiles.push((r, c));
            k = k + 1;
            assert(tiles@ =~= tiles_in_direction(source_pos, direction, b_low, b_high).take(
                k as int,
            ));
        }
        assert(tiles@ =~= tiles_in_direction(source_pos, direction, b_low, b_high));
        tiles
    }

    /// Get the first fig starting at source pos (exclusive) in the given direction.
    /// Lower bound is inclusive, higher bound is exclusive!
    /// Low bound is used for the left and lower borders, right bound for right and upper!
    pub fn get_first_fig_in_direction(
        &self,
        source_pos: (u8, u8),
        direction: Direction,
        bounds: (u8, u8),
    ) -> (res: Option<(Figure, u8, u8)>)
        requires
            ray_starts_in_range(source_pos, direction),
            self.scan_on_board(tiles_in_direction(source_pos, direction, bounds.0, bounds.1)),
        ensures
            res == self.first_fig_in_direction(source_pos, direction, bounds.0, bounds.1),
    {
        let tiles = self.get_tiles_in_direction(source_pos, direction, bounds);
        let ghost all = tiles@;
        assert(all.skip(0) =~= all);
        let mut i: usize = 0;
        while i < tiles.len()
            invariant
                tiles@ == all,
                self.scan_on_board(all.skip(i as int)),
                all == tiles_in_direction(source_pos, direction, bounds.0, bounds.1),
                i <= tiles.len(),
                self.first_fig(all) == self.first_fig(all.skip(i as int)),
            decreases tiles.len() - i,
        {
            let (r, c) = tiles[i];
            assert(all.skip(i as int)[0] == (r, c));
            let f = self.get_fig_on_tile(r, c);
            match f {
                Some(fig) => {
                    return Some((fig, r, c));
                },
                None => {
                    assert(all.skip(i as int).drop_first() =~= all.skip(i + 1));
                },
            }
            i = i + 1;
        }
        None
    }
}

/// Direction by index in the scanning order of the straight directions.
fn straight_dir_at(i: usize) -> (d: Direction)
    requires
        i < 8,
    ensures
        d == crate::utils::core_types::straight_dirs()[i as int],
{
    let dirs = crate::utils::core_types::straight_directions();
    dirs[i]
}

impl Board {
    /// Tile of the king of `fig_color`: the first one met when reading the board row by row.
    pub fn get_king_position(&self, fig_color: PlayerColor) -> (pos: (u8, u8))
        requires
            self.has_king(fig_color),
        ensures
            self.is_first_king(pos, fig_color),
            pos == self.king_pos(fig_color),
    {
        let mut r: u8 = 0;
        while r < 8
            invariant
                r <= 8,
                forall|rr: int, cc: int|
                    0 <= rr < r && 0 <= cc < 8 ==> !is_king_of(#[trigger] self.cell(rr, cc), fig_color),
            decreases 8 - r,
        {
            let mut c: u8 = 0;
            while c < 8
                invariant
                    r < 8,
                    c <= 8,
                    forall|rr: int, cc: int|
                        0 <= rr < r && 0 <= cc < 8 ==> !is_king_of(#[trigger] self.cell(rr, cc), fig_color),
                    forall|cc: int| 0 <= cc < c ==> !is_king_of(#[trigger] self.cell(r as int, cc), fig_color),
                decreases 8 - c,
            {
                match self.get_fig_on_tile(r, c) {
                    Some(fig) => {
                        if fig.player_color == fig_color && fig.fig_type == FigType::King {
                            assert(self.is_first_king((r, c), fig_color));
                            proof {
                                lemma_first_king_unique(
                                    *self,
                                    (r, c),
                                    self.king_pos(fig_color),
                                    fig_color,
                                );
                            }
                            return (r, c);
                        }
                    },
                    None => {},
                }
                c = c + 1;
            }
            r = r + 1;
        }
        // The precondition promises a king, so the search above has returned.
        assert(false);
        (0, 0)
    }

    /// All tiles that hold a figure of `player_color`.
    pub fn get_busy_tiles(&self, player_color: PlayerColor) -> (tiles: HashSet<(u8, u8)>)
        ensures
            tile_set_view(tiles) == self.busy_tiles(player_color),
    {
        let mut out = tile_set_new();
        let mut r: u8 = 0;
        while r < 8
            invariant
                r <= 8,
                tile_set_view(out) == Set::new(
                    |t: (u8, u8)| on_board(t) && t.0 < r && owned_by(self.at(t), player_color),
                ),
            decreases 8 - r,
        {
            let mut c: u8 = 0;
            while c < 8
                invariant
                    r < 8,
                    c <= 8,
                    tile_set_view(out) == Set::new(
                        |t: (u8, u8)|
                            on_board(t) && before_in_scan((t.0 as int, t.1 as int), (r, c))
                                && owned_by(self.at(t), player_color),
                    ),
                decreases 8 - c,
            {
                let ghost before = tile_set_view(out);
                match self.get_fig_on_tile(r, c) {
                    Some(fig) => {
                        if fig.player_color == player_color {
                            tile_set_insert(&mut out, (r, c));
                        }
                    },
                    None => {},
                }
                c = c + 1;
                assert(tile_set_view(out) =~= Set::new(
                    |t: (u8, u8)|
                        on_board(t) && before_in_scan((t.0 as int, t.1 as int), (r, c))
                            && owned_by(self.at(t), player_color),
                ));
            }
            r = r + 1;
            assert(tile_set_view(out) =~= Set::new(
                |t: (u8, u8)| on_board(t) && t.0 < r && owned_by(self.at(t), player_color),
            ));
        }
        assert(tile_set_view(out) =~= self.busy_tiles(player_color));
        out
    }

    /// Gets tiles in a straight direction until a figure is hit; includes the figure's tile
    /// (the same as `_get_tiles_until_block`).
    pub fn get_tiles_until_block(&self, source_pos: (u8, u8), direction: Direction) -> (tiles:
        HashSet<(u8, u8)>)
        requires
            ray_starts_in_range(source_pos, direction),
            self.scan_on_board(tiles_in_direction(source_pos, direction, 0, 8)),
        ensures
            tile_set_view(tiles) == self.until_block(
                tiles_in_direction(source_pos, direction, 0, 8),
            ).to_set(),
    {
        self._get_tiles_until_block(source_pos, direction)
    }

    /// Gets tiles in a straight direction until a figure is hit; includes the figure's tile.
    pub fn _get_tiles_until_block(&self, source_pos: (u8, u8), direction: Direction) -> (tiles:
        HashSet<(u8, u8)>)
        requires
            ray_starts_in_range(source_pos, direction),
            self.scan_on_board(tiles_in_direction(source_pos, direction, 0, 8)),
        ensures
            tile_set_view(tiles) == self.until_block(
                tiles_in_direction(source_pos, direction, 0, 8),
            ).to_set(),
    {
        let ray = self.get_tiles_in_direction(source_pos, direction, (0, 8));
        let ghost all = ray@;
        let mut out = tile_set_new();
        let mut i: usize = 0;
        assert(all.skip(0) =~= all);
        while i < ray.len()
            invariant
                ray@ == all,
                all == tiles_in_direction(source_pos, direction, 0, 8),
                i <= ray.len(),
                self.scan_on_board(all.skip(i as int)),
                self.until_block(all).to_set() == tile_set_view(out) + self.until_block(
                    all.skip(i as int),
                ).to_set(),
            decreases ray.len() - i,
        {
            let (r, c) = ray[i];
            let ghost rest = all.skip(i as int);
            assert(rest[0] == (r, c));
            tile_set_insert(&mut out, (r, c));
            match self.get_fig_on_tile(r, c) {
                Some(_) => {
                    assert(self.until_block(rest) == seq![(r, c)]);
                    proof {
                        lemma_single_to_set((r, c));
                    }
                    assert(self.until_block(all).to_set() =~= tile_set_view(out));
                    return out;
                },
                None => {
                    assert(rest.drop_first() =~= all.skip(i + 1));
                    let ghost tail = self.until_block(all.skip(i + 1));
                    assert(self.until_block(rest) == seq![(r, c)] + tail);
                    proof {
                        lemma_prepend_to_set((r, c), tail);
                    }
                },
            }
            i = i + 1;
        }
        assert(self.until_block(all.skip(i as int)) =~= seq![]);
        assert(self.until_block(all).to_set() =~= tile_set_view(out));
        out
    }
}

/// Exec version of `is_rank_dir`.
pub fn is_rank(d: Direction) -> (b: bool)
    ensures
        b == is_rank_dir(d),
{
    match d {
        Direction::R | Direction::A | Direction::L | Direction::B => true,
        _ => false,
    }
}

impl Board {
    /// Whether the figure `f` on `pos`, seen from `king` in direction `d`, attacks the king.
    fn threat_along(&self, f: Figure, pos: (u8, u8), d: Direction, king: (u8, u8)) -> (b: bool)
        requires
            on_board(pos),
            self.at(pos) == Some(f),
            is_straight_dir(d),
        ensures
            b == self.threatens_along(f, pos, d, king),
    {
        if is_rank(d) {
            rank_threat(f.fig_type)
        } else {
            if diag_threat(f.fig_type) {
                true
            } else {
                match f.fig_type {
                    FigType::Pawn => {
                        let mb = MoveBuilder::new(pos, self).calculate_naive_moves(self);
                        proof {
                            mb.moveset@.to_set();
                        }
                        contains_tile(&mb.moveset, king)
                    },
                    _ => false,
                }
            }
        }
    }

    /// Checks whether player is in check
    /// 1. Add pieces of enemy color in straight directions and in knights reach
    /// 2. Check for each direction whether piece is a threat.
    /// 3. If at least one piece is found, early stop of player in check.
    pub fn player_in_check(&self, king_color: PlayerColor) -> (b: bool)
        requires
            self.has_king(king_color),
        ensures
            b == self.in_check(king_color),
    {
        let king_pos = self.get_king_position(king_color);
        let other = king_color.other_player();
        let mut i: usize = 0;
        while i < 8
            invariant
                i <= 8,
                self.is_first_king(king_pos, king_color),
                king_pos == self.king_pos(king_color),
                other == opponent(king_color),
                forall|j: int| 0 <= j < i ==> !self.ray_threat(king_pos, king_color, #[trigger] straight_dirs()[j]),
            decreases 8 - i,
        {
            let dir = straight_dir_at(i);
            proof {
                lemma_scan_on_board(*self, king_pos, dir, 0, 8, 0);
                assert(tiles_in_direction(king_pos, dir, 0, 8).skip(0) =~= tiles_in_direction(king_pos, dir, 0, 8));
                lemma_first_fig_in_tiles(*self, tiles_in_direction(king_pos, dir, 0, 8));
            }
            match self.get_first_fig_in_direction(king_pos, dir, (0, 8)) {
                Some((f, r, c)) => {
                    if f.player_color == other {
                        proof {
                            let k = choose|k: int| 0 <= k < tiles_in_direction(king_pos, dir, 0, 8).len() && tiles_in_direction(king_pos, dir, 0, 8)[k] == (r, c);
                            lemma_ray_on_board(king_pos, dir, 0, 8, k);
                        }
                        if self.threat_along(f, (r, c), dir, king_pos) {
                            assert(self.ray_threat(king_pos, king_color, straight_dirs()[i as int]));
                            return true;
                        }
                    }
                },
                None => {},
            }
            i = i + 1;
        }
        let reach = crate::utils::knights_reach(king_pos);
        let cands = tile_set_to_vec(&reach);
        let mut j: usize = 0;
        while j < cands.len()
            invariant
                j <= cands.len(),
                other == opponent(king_color),
                on_board(king_pos),
                king_pos == self.king_pos(king_color),
                cands@.to_set() == knight_cands(king_pos),
                forall|k: int| 0 <= k < j ==> !self.enemy_knight_at(king_color, #[trigger] cands@[k]),
            decreases cands.len() - j,
        {
            let (r, c) = cands[j];
            assert(knight_cands(king_pos).contains(cands@[j as int]));
            if let Some(fig) = self.get_fig_on_tile(r, c) {
                if fig.player_color == other && fig.fig_type == FigType::Knight {
                    assert(self.enemy_knight_at(king_color, cands@[j as int]));
                    return true;
                }
            }
            j = j + 1;
        }
        assert forall|p: (u8, u8)| #[trigger] knight_cands(king_pos).contains(p) implies !self.enemy_knight_at(king_color, p) by {
            assert(cands@.to_set().contains(p));
            let k = choose|k: int| 0 <= k < cands.len() && cands@[k] == p;
            assert(!self.enemy_knight_at(king_color, cands@[k]));
        }
        false
    }
}

impl Board {
    /// Own figures standing first next to the king in a straight direction, looking at the
    /// inner rows and columns only (a figure on the border cannot be pinned).
    pub fn guarding_figures(&self, king_color: PlayerColor, king_pos: (u8, u8)) -> (out: HashMap<
        (u8, u8),
        Direction,
    >)
        requires
            on_board(king_pos),
        ensures
            guard_map_view(out) == self.guards_upto(king_color, king_pos, 8),
    {
        let mut out = guard_map_new();
        let mut i: usize = 0;
        while i < 8
            invariant
                i <= 8,
                on_board(king_pos),
                guard_map_view(out) == self.guards_upto(king_color, king_pos, i as int),
            decreases 8 - i,
        {
            let dir = straight_dir_at(i);
            proof {
                lemma_scan_on_board(*self, king_pos, dir, 1, 7, 0);
                assert(tiles_in_direction(king_pos, dir, 1, 7).skip(0) =~= tiles_in_direction(king_pos, dir, 1, 7));
            }
            match self.get_first_fig_in_direction(king_pos, dir, (1, 7)) {
                Some((fig, r, c)) => {
                    if fig.player_color == king_color {
                        guard_map_insert(&mut out, (r, c), dir);
                    }
                },
                None => {},
            }
            i = i + 1;
        }
        out
    }

    /// The enemy figures around the king: the first figure in each straight direction if it
    /// belongs to the other player, and the enemy knights that reach the king.
    pub fn king_enemy_circle(&self, king_color: PlayerColor, king_pos: (u8, u8)) -> (out: HashMap<
        (u8, u8),
        (Direction, FigType),
    >)
        requires
            on_board(king_pos),
        ensures
            threat_map_view(out) == self.enemy_circle(king_color, king_pos),
    {
        let mut out = threat_map_new();
        let other = king_color.other_player();
        let mut i: usize = 0;
        while i < 8
            invariant
                i <= 8,
                on_board(king_pos),
                other == opponent(king_color),
                threat_map_view(out) == self.enemy_rays_upto(king_color, king_pos, i as int),
            decreases 8 - i,
        {
            let dir = straight_dir_at(i);
            proof {
                lemma_scan_on_board(*self, king_pos, dir, 0, 8, 0);
                assert(tiles_in_direction(king_pos, dir, 0, 8).skip(0) =~= tiles_in_direction(king_pos, dir, 0, 8));
            }
            match self.get_first_fig_in_direction(king_pos, dir, (0, 8)) {
                Some((f, r, c)) => {
                    if f.player_color == other {
                        threat_map_insert(&mut out, (r, c), (dir, f.fig_type));
                    }
                },
                None => {},
            }
            i = i + 1;
        }
        let ghost rays = threat_map_view(out);
        let reach = crate::utils::knights_reach(king_pos);
        let cands = tile_set_to_vec(&reach);
        let mut j: usize = 0;
        while j < cands.len()
            invariant
                j <= cands.len(),
                on_board(king_pos),
                other == opponent(king_color),
                rays == self.enemy_rays_upto(king_color, king_pos, 8),
                cands@.to_set() == knight_cands(king_pos),
                threat_map_view(out) == rays.union_prefer_right(
                    Map::new(
                        |p: (u8, u8)| cands@.take(j as int).contains(p) && self.enemy_knight_at(king_color, p),
                        |p: (u8, u8)| (Direction::Unrelated, FigType::Knight),
                    ),
                ),
            decreases cands.len() - j,
        {
            let (r, c) = cands[j];
            assert(knight_cands(king_pos).contains(cands@[j as int]));
            let ghost before = threat_map_view(out);
            if let Some(fig) = self.get_fig_on_tile(r, c) {
                if fig.fig_type == FigType::Knight && fig.player_color == other {
                    threat_map_insert(&mut out, (r, c), (Direction::Unrelated, FigType::Knight));
                }
            }
            assert(cands@.take(j + 1) =~= cands@.take(j as int).push((r, c)));
            let ghost tj = cands@.take(j as int);
            let ghost tj1 = cands@.take(j + 1);
            assert forall|p: (u8, u8)| tj1.contains(p) <==> (tj.contains(p) || p == (r, c)) by {
                if tj1.contains(p) {
                    let k = choose|k: int| 0 <= k < tj1.len() && tj1[k] == p;
                    if k < j {
                        assert(tj[k] == p);
                    }
                }
                if tj.contains(p) {
                    let k = choose|k: int| 0 <= k < tj.len() && tj[k] == p;
                    assert(tj1[k] == p);
                }
                if p == (r, c) {
                    assert(tj1[j as int] == p);
                }
            }
            j = j + 1;
            assert(threat_map_view(out) =~= rays.union_prefer_right(
                Map::new(
                    |p: (u8, u8)| cands@.take(j as int).contains(p) && self.enemy_knight_at(king_color, p),
                    |p: (u8, u8)| (Direction::Unrelated, FigType::Knight),
                ),
            ));
        }
        assert(cands@.take(j as int) =~= cands@);
        assert(threat_map_view(out) =~= self.enemy_circle(king_color, king_pos));
        out
    }
}

impl Board {
    /// Checks if the player is in check; if so, returns an enemy figure causing the check
    /// (with its tile). Which one, when several do, depends on the order of the hash table
    /// that holds the enemy circle.
    pub fn checking_figure(&self, player: PlayerColor) -> (res: Option<(u8, u8, FigType)>)
        requires
            self.has_king(player),
        ensures
            res.is_some() == self.in_check(player),
            res matches Some((r, c, t)) ==> self.circle_threat(player, (r, c)) && self.enemy_circle(
                player,
                self.king_pos(player),
            )[(r, c)].1 == t,
    {
        let my_king_pos = self.get_king_position(player);
        let circle = self.king_enemy_circle(player, my_king_pos);
        let entries = threat_map_entries(&circle);
        let ghost m = self.enemy_circle(player, my_king_pos);
        proof {
            lemma_enemy_rays_entries(*self, player, my_king_pos, 8);
            lemma_circle_threat_iff_in_check(*self, player);
        }
        let mut i: usize = 0;
        while i < entries.len()
            invariant
                i <= entries.len(),
                on_board(my_king_pos),
                my_king_pos == self.king_pos(player),
                threat_map_view(circle) == m,
                m == self.enemy_circle(player, my_king_pos),
                forall|i: int|
                    0 <= i < entries.len() ==> m.dom().contains(#[trigger] entries@[i].0)
                        && m[entries@[i].0] == entries@[i].1,
                forall|k: (u8, u8)|
                    #[trigger] m.dom().contains(k) ==> exists|i: int|
                        0 <= i < entries.len() && #[trigger] entries@[i].0 == k,
                forall|j: int| 0 <= j < i ==> !self.circle_threat(player, #[trigger] entries@[j].0),
                (exists|p: (u8, u8)| self.circle_threat(player, p)) == self.in_check(player),
                forall|p: (u8, u8)| #[trigger] self.enemy_rays_upto(player, my_king_pos, 8).dom().contains(p) ==> {
                    let e = self.enemy_rays_upto(player, my_king_pos, 8)[p];
                    &&& on_board(p)
                    &&& is_straight_dir(e.0)
                    &&& self.at(p).is_some()
                    &&& self.at(p).unwrap().fig_type == e.1
                },
            decreases entries.len() - i,
        {
            let ((r, c), (dir, fig_type)) = entries[i];
            assert(m.dom().contains(entries@[i as int].0));
            assert(m[(r, c)] == (dir, fig_type));
            if dir != Direction::Unrelated {
                assert(!self.enemy_knights(player, my_king_pos).dom().contains((r, c)));
                assert(self.enemy_rays_upto(player, my_king_pos, 8).dom().contains((r, c)));
                assert(self.enemy_rays_upto(player, my_king_pos, 8)[(r, c)] == (dir, fig_type));
            }
            let threat = match dir {
                Direction::Unrelated => true,
                Direction::R | Direction::A | Direction::L | Direction::B => rank_threat(fig_type),
                Direction::AR | Direction::AL | Direction::BL | Direction::BR => {
                    if diag_threat(fig_type) {
                        true
                    } else {
                        match fig_type {
                            FigType::Pawn => {
                                assert(self.enemy_rays_upto(player, my_king_pos, 8).dom().contains((r, c)));
                                let mb = MoveBuilder::new((r, c), self).calculate_naive_moves(self);
                                contains_tile(&mb.moveset, my_king_pos)
                            },
                            _ => false,
                        }
                    }
                },
                _ => false,
            };
            assert(threat == self.entry_threat(my_king_pos, (r, c), dir, fig_type));
            if threat {
                assert(self.circle_threat(player, (r, c)));
                return Some((r, c, fig_type));
            }
            assert(!self.circle_threat(player, entries@[i as int].0));
            i = i + 1;
        }
        assert forall|p: (u8, u8)| !self.circle_threat(player, p) by {
            if self.circle_threat(player, p) {
                let j = choose|j: int| 0 <= j < entries.len() && #[trigger] entries@[j].0 == p;
            }
        }
        None
    }
}

/// Starting tile of the king of `color`.
pub open spec fn king_start(color: PlayerColor) -> (u8, u8) {
    match color {
        PlayerColor::White => WHITE_KING_SP,
        PlayerColor::Black => BLACK_KING_SP,
    }
}

/// Starting tile of the rook of `color` on column 0.
pub open spec fn left_rook_start(color: PlayerColor) -> (u8, u8) {
    match color {
        PlayerColor::White => (0u8, 0u8),
        PlayerColor::Black => (7u8, 0u8),
    }
}

/// Starting tile of the rook of `color` on column 7.
pub open spec fn right_rook_start(color: PlayerColor) -> (u8, u8) {
    match color {
        PlayerColor::White => (0u8, 7u8),
        PlayerColor::Black => (7u8, 7u8),
    }
}

impl RochadeTracker {
    /// The player whose king and rooks are tracked.
    pub closed spec fn owner(self) -> PlayerColor {
        self.player
    }

    pub closed spec fn king_has_moved(self) -> bool {
        self.king_moved
    }

    pub closed spec fn right_rook_has_moved(self) -> bool {
        self.right_rook_moved
    }

    pub closed spec fn left_rook_has_moved(self) -> bool {
        self.left_rook_moved
    }

    /// The tracker after a move from (or a capture on) tile `moved`: once the king has
    /// moved nothing changes any more; otherwise a move from the king's or a rook's
    /// starting tile marks that figure as moved.
    pub closed spec fn after_move(self, moved: (u8, u8)) -> RochadeTracker {
        if self.king_moved {
            self
        } else if moved == king_start(self.player) {
            RochadeTracker { king_moved: true, ..self }
        } else if moved == left_rook_start(self.player) {
            RochadeTracker { left_rook_moved: true, ..self }
        } else if moved == right_rook_start(self.player) {
            RochadeTracker { right_rook_moved: true, ..self }
        } else {
            self
        }
    }

    pub fn new(player: PlayerColor) -> (t: Self)
        ensures
            t.owner() == player,
            !t.king_has_moved(),
            !t.right_rook_has_moved(),
            !t.left_rook_has_moved(),
    {
        Self { player: player, king_moved: false, right_rook_moved: false, left_rook_moved: false }
    }

    /// Updates the tracker after a move from (or a capture on) tile `moved`.
    pub fn _update_tracker(&mut self, moved: &(u8, u8))
        ensures
            *final(self) == old(self).after_move(*moved),
    {
        if self.king_moved {
            return ;
        }
        // To check for tiles is ok, as we are only interested in the last move anyway
        match self.player {
            PlayerColor::White => {
                if moved.0 == 0 && moved.1 == 4 {
                    self.king_moved = true;
                } else if moved.0 == 0 && moved.1 == 0 {
                    self.left_rook_moved = true;
                } else if moved.0 == 0 && moved.1 == 7 {
                    self.right_rook_moved = true;
                }
            },
            PlayerColor::Black => {
                if moved.0 == 7 && moved.1 == 4 {
                    self.king_moved = true;
                } else if moved.0 == 7 && moved.1 == 0 {
                    self.left_rook_moved = true;
                } else if moved.0 == 7 && moved.1 == 7 {
                    self.right_rook_moved = true;
                }
            },
        }
    }
}

/// What a tracker says after a move, in terms of its flags: the owner stays, and a flag is
/// set once its figure's starting tile is moved from, unless the king had moved already.
pub proof fn lemma_after_move(t: RochadeTracker, moved: (u8, u8))
    ensures
        t.after_move(moved).owner() == t.owner(),
        t.after_move(moved).king_has_moved() == (t.king_has_moved() || moved == king_start(
            t.owner(),
        )),
        t.after_move(moved).left_rook_has_moved() == (t.left_rook_has_moved() || (
        !t.king_has_moved() && moved == left_rook_start(t.owner()))),
        t.after_move(moved).right_rook_has_moved() == (t.right_rook_has_moved() || (
        !t.king_has_moved() && moved == right_rook_start(t.owner()))),
{
}

/// Flags of a tracker are never cleared: once a king or rook counts as moved, it stays so.
pub proof fn lemma_tracker_flags_persist(t: RochadeTracker, moved: (u8, u8))
    ensures
        t.king_has_moved() ==> t.after_move(moved).king_has_moved(),
        t.left_rook_has_moved() ==> t.after_move(moved).left_rook_has_moved(),
        t.right_rook_has_moved() ==> t.after_move(moved).right_rook_has_moved(),
{
}

/// The figure on row `r`, column `c` at the start of a game.
pub open spec fn initial_cell(r: int, c: int) -> Option<Figure> {
    if r == 0 {
        Some(Figure { fig_type: back_rank_type(c), player_color: PlayerColor::White })
    } else if r == 1 {
        Some(Figure { fig_type: FigType::Pawn, player_color: PlayerColor::White })
    } else if r == 6 {
        Some(Figure { fig_type: FigType::Pawn, player_color: PlayerColor::Black })
    } else if r == 7 {
        Some(Figure { fig_type: back_rank_type(c), player_color: PlayerColor::Black })
    } else {
        None
    }
}

/// The figure with the other color (the same figure seen from the other side).
pub open spec fn swap_color(f: Option<Figure>) -> Option<Figure> {
    match f {
        Some(g) => Some(Figure { fig_type: g.fig_type, player_color: opponent(g.player_color) }),
        None => None,
    }
}

/// The figures of `m` are those of `b` seen from the other side: the rows in reverse order
/// and the colors swapped.
pub open spec fn is_rank_mirror(m: Board, b: Board) -> bool {
    forall|r: int, c: int| 0 <= r < 8 && 0 <= c < 8 ==> #[trigger] m.cell(r, c) == swap_color(b.cell(7 - r, c))
}

/// The figures on the board after `mv` by `color` (castling trackers aside).
pub open spec fn cells_after(b: Board, mv: ChessMove, color: PlayerColor) -> Board {
    let from = mv.from_tile;
    let to = mv.to_tile;
    match mv.move_type {
        MoveType::Norm | MoveType::DoublePawn => b.move_fig(from, to),
        MoveType::Promoting => b.put(from, None).put(
            to,
            Some(Figure { fig_type: FigType::Queen, player_color: color }),
        ),
        MoveType::Passing => b.put(b.3.unwrap().to_tile, None).move_fig(from, to),
        MoveType::RochadeLeft => if from == WHITE_KING_SP {
            b.move_fig(from, to).move_fig((0, 0), (0, 3))
        } else {
            b.move_fig(from, to).move_fig((7, 0), (7, 3))
        },
        MoveType::RochadeRight => if from == WHITE_KING_SP {
            b.move_fig(from, to).move_fig((0, 7), (0, 5))
        } else {
            b.move_fig(from, to).move_fig((7, 7), (7, 5))
        },
    }
}

/// The board after `mv` by `color`: figures moved, trackers of both players told about the
/// tile moved from and the tile moved to, and `mv` remembered as the last move.
pub open spec fn board_after(b: Board, mv: ChessMove, color: PlayerColor) -> Board {
    let (white, black) = match color {
        PlayerColor::White => (b.1.after_move(mv.from_tile), b.2.after_move(mv.to_tile)),
        PlayerColor::Black => (b.1.after_move(mv.to_tile), b.2.after_move(mv.from_tile)),
    };
    Board(cells_after(b, mv, color).0, white, black, Some(mv))
}

/// Whether `board_after` can be computed: the tiles of the move are on the board, and an
/// en-passant capture has a last move whose target lies on the board.
pub open spec fn update_defined(b: Board, mv: ChessMove) -> bool {
    &&& on_board(mv.from_tile)
    &&& on_board(mv.to_tile)
    &&& mv.move_type == MoveType::Passing ==> b.3.is_some() && on_board(b.3.unwrap().to_tile)
}

impl Board {
    /// The starting position of a game: the figures in place, no king or rook moved, no
    /// last move.
    pub open spec fn is_initial(self) -> bool {
        &&& forall|r: int, c: int| 0 <= r < 8 && 0 <= c < 8 ==> #[trigger] self.cell(r, c) == initial_cell(r, c)
        &&& self.1.owner() == PlayerColor::White
        &&& self.2.owner() == PlayerColor::Black
        &&& !self.1.king_has_moved() && !self.1.left_rook_has_moved() && !self.1.right_rook_has_moved()
        &&& !self.2.king_has_moved() && !self.2.left_rook_has_moved() && !self.2.right_rook_has_moved()
        &&& self.3.is_none()
    }

    /// The starting position: white on rows 0 and 1, black on rows 6 and 7.
    pub fn new() -> (b: Self)
        ensures
            b.is_initial(),
    {
        let wp = Some(Figure { fig_type: FigType::Pawn, player_color: PlayerColor::White });
        let bp = Some(Figure { fig_type: FigType::Pawn, player_color: PlayerColor::Black });
        let white_pawns: [Option<Figure>; 8] = [wp, wp, wp, wp, wp, wp, wp, wp];
        let black_pawns: [Option<Figure>; 8] = [bp, bp, bp, bp, bp, bp, bp, bp];
        let empty_rank: [Option<Figure>; 8] = [None, None, None, None, None, None, None, None];
        let raw_board = [
            back_rank(PlayerColor::White),
            white_pawns,
            empty_rank,
            empty_rank,
            empty_rank,
            empty_rank,
            black_pawns,
            back_rank(PlayerColor::Black),
        ];
        let b = Board(
            raw_board,
            RochadeTracker::new(PlayerColor::White),
            RochadeTracker::new(PlayerColor::Black),
            None,
        );
        assert forall|r: int, c: int| 0 <= r < 8 && 0 <= c < 8 implies #[trigger] b.cell(r, c) == initial_cell(r, c) by {
            assert(b.0[r] == raw_board[r]);
        }
        b
    }

    /// Moves the figures as `chess_move` by `color` demands (trackers and last move aside).
    fn apply_move_cells(&mut self, chess_move: &ChessMove, color: &PlayerColor)
        requires
            update_defined(*old(self), *chess_move),
        ensures
            *final(self) == cells_after(*old(self), *chess_move, *color),
    {
        let from = chess_move.from_tile;
        let to = chess_move.to_tile;
        match chess_move.move_type {
            MoveType::Norm | MoveType::DoublePawn => {
                self.move_fig_on_board(from, to);
            },
            MoveType::Promoting => {
                // Remove from original position, potentially kill blocker
                self.set_fig_on_tile(from, None);
                let new_queen = Some(Figure { fig_type: FigType::Queen, player_color: *color });
                self.set_fig_on_tile(to, new_queen);
            },
            MoveType::Passing => {
                let last_move = self.3.unwrap();
                self.set_fig_on_tile(last_move.to_tile, None);
                self.move_fig_on_board(from, to);
            },
            MoveType::RochadeLeft => {
                self.move_fig_on_board(from, to);
                if from.0 == WHITE_KING_SP.0 && from.1 == WHITE_KING_SP.1 {
                    self.move_fig_on_board((0, 0), (0, 3));
                } else {
                    self.move_fig_on_board((7, 0), (7, 3));
                }
            },
            MoveType::RochadeRight => {
                self.move_fig_on_board(from, to);
                if from.0 == WHITE_KING_SP.0 && from.1 == WHITE_KING_SP.1 {
                    self.move_fig_on_board((0, 7), (0, 5));
                } else {
                    self.move_fig_on_board((7, 7), (7, 5));
                }
            },
        }
    }

    /// Updates the board according to the chess move in-place!
    pub fn update(&mut self, chess_move: &ChessMove, color: &PlayerColor)
        requires
            update_defined(*old(self), *chess_move),
        ensures
            *final(self) == board_after(*old(self), *chess_move, *color),
    {
        let mut moved = *self;
        moved.apply_move_cells(chess_move, color);
        match color {
            // First tracker update is to check whether moved tile was own rook or king
            // Second tracker update is to check whether other rook was captured
            PlayerColor::White => {
                self.1._update_tracker(&chess_move.from_tile);
                self.2._update_tracker(&chess_move.to_tile);
            },
            PlayerColor::Black => {
                self.2._update_tracker(&chess_move.from_tile);
                self.1._update_tracker(&chess_move.to_tile);
            },
        };
        self.0 = moved.0;
        // Update last taken move
        self.3 = Some(*chess_move);
    }
}

/// A promotion by `color` leaves a queen of `color` on the target tile and empties the
/// source tile; every other tile keeps its figure.
pub proof fn lemma_promotion_gives_own_queen(b: Board, mv: ChessMove, color: PlayerColor)
    requires
        update_defined(b, mv),
        mv.move_type == MoveType::Promoting,
        mv.from_tile != mv.to_tile,
    ensures
        board_after(b, mv, color).at(mv.to_tile) == Some(Figure { fig_type: FigType::Queen, player_color: color }),
        board_after(b, mv, color).at(mv.from_tile).is_none(),
        forall|r: int, c: int|
            0 <= r < 8 && 0 <= c < 8 && (r, c) != (mv.from_tile.0 as int, mv.from_tile.1 as int)
                && (r, c) != (mv.to_tile.0 as int, mv.to_tile.1 as int) ==> #[trigger] board_after(
                b,
                mv,
                color,
            ).cell(r, c) == b.cell(r, c),
{
    broadcast use lemma_put_cell;

    let a = board_after(b, mv, color);
    let cells = cells_after(b, mv, color);
    assert(a.cell(mv.to_tile.0 as int, mv.to_tile.1 as int) == cells.cell(mv.to_tile.0 as int, mv.to_tile.1 as int));
    assert(a.cell(mv.from_tile.0 as int, mv.from_tile.1 as int) == cells.cell(mv.from_tile.0 as int, mv.from_tile.1 as int));
    assert forall|r: int, c: int|
        0 <= r < 8 && 0 <= c < 8 && (r, c) != (mv.from_tile.0 as int, mv.from_tile.1 as int)
            && (r, c) != (mv.to_tile.0 as int, mv.to_tile.1 as int) implies #[trigger] a.cell(r, c)
        == b.cell(r, c) by {
        assert(a.cell(r, c) == cells.cell(r, c));
    }
}

/// Castling of `color` moves the king from its starting tile two columns towards the corner,
/// and the figure from that corner onto the tile the king passed over; both of their old
/// tiles are left empty and every other tile keeps its figure.
pub proof fn lemma_castling_moves_king_and_rook(b: Board, mv: ChessMove, color: PlayerColor)
    requires
        mv.move_type == MoveType::RochadeLeft || mv.move_type == MoveType::RochadeRight,
        mv.from_tile == king_start(color),
        mv.to_tile == castle_step(
            king_start(color),
            if mv.move_type == MoveType::RochadeLeft {
                Direction::L
            } else {
                Direction::R
            },
            2,
        ),
    ensures
        ({
            let dir = if mv.move_type == MoveType::RochadeLeft {
                Direction::L
            } else {
                Direction::R
            };
            let k = king_start(color);
            let corner = if dir == Direction::L {
                (k.0, 0u8)
            } else {
                (k.0, 7u8)
            };
            let a = board_after(b, mv, color);
            &&& a.at(castle_step(k, dir, 2)) == b.at(k)
            &&& a.at(castle_step(k, dir, 1)) == b.at(corner)
            &&& a.at(k).is_none()
            &&& a.at(corner).is_none()
            &&& forall|r: int, c: int|
                0 <= r < 8 && 0 <= c < 8 && r != k.0 ==> #[trigger] a.cell(r, c) == b.cell(r, c)
            &&& forall|c: int|
                0 <= c < 8 && c != k.1 && c != corner.1 && c != castle_step(k, dir, 1).1 && c
                    != castle_step(k, dir, 2).1 ==> #[trigger] a.cell(k.0 as int, c) == b.cell(k.0 as int, c)
        }),
{
    broadcast use lemma_put_cell;

    let a = board_after(b, mv, color);
    let cells = cells_after(b, mv, color);
    assert forall|r: int, c: int| 0 <= r < 8 && 0 <= c < 8 implies #[trigger] a.cell(r, c) == cells.cell(r, c) by {}
}

/// A move of an own figure (other than castling) never adds a figure of the other player:
/// every figure of the opponent after the move stood on the same tile before it.
pub proof fn lemma_move_adds_no_enemy(b: Board, mv: ChessMove, color: PlayerColor, t: (u8, u8))
    requires
        update_defined(b, mv),
        mv.move_type != MoveType::RochadeLeft,
        mv.move_type != MoveType::RochadeRight,
        owned_by(b.at(mv.from_tile), color),
        on_board(t),
        owned_by(board_after(b, mv, color).at(t), opponent(color)),
    ensures
        b.at(t) == board_after(b, mv, color).at(t),
{
    broadcast use lemma_put_cell;

    let a = board_after(b, mv, color);
    let cells = cells_after(b, mv, color);
    assert(a.cell(t.0 as int, t.1 as int) == cells.cell(t.0 as int, t.1 as int));
    if mv.move_type == MoveType::Passing {
        let p = b.3.unwrap().to_tile;
        let b1 = b.put(p, None);
        assert(b1.at(mv.from_tile) == b.at(mv.from_tile) || b1.at(mv.from_tile).is_none());
    }
}

/// After a normal move (or a double pawn step) the moved figure stands on the target tile,
/// the source tile is empty, every other tile keeps its figure, and the move is remembered
/// as the last one.
pub proof fn lemma_update_moves_figure(b: Board, mv: ChessMove, color: PlayerColor)
    requires
        update_defined(b, mv),
        mv.move_type == MoveType::Norm || mv.move_type == MoveType::DoublePawn,
        mv.from_tile != mv.to_tile,
    ensures
        board_after(b, mv, color).at(mv.to_tile) == b.at(mv.from_tile),
        board_after(b, mv, color).at(mv.from_tile).is_none(),
        forall|r: int, c: int|
            0 <= r < 8 && 0 <= c < 8 && (r, c) != (mv.from_tile.0 as int, mv.from_tile.1 as int)
                && (r, c) != (mv.to_tile.0 as int, mv.to_tile.1 as int) ==> #[trigger] board_after(
                b,
                mv,
                color,
            ).cell(r, c) == b.cell(r, c),
        board_after(b, mv, color).3 == Some(mv),
{
    broadcast use lemma_put_cell;

    let a = board_after(b, mv, color);
    assert(a.0 == b.move_fig(mv.from_tile, mv.to_tile).0);
    assert(a.at(mv.to_tile) == b.move_fig(mv.from_tile, mv.to_tile).at(mv.to_tile));
    assert(a.at(mv.from_tile) == b.move_fig(mv.from_tile, mv.to_tile).at(mv.from_tile));
    assert forall|r: int, c: int|
        0 <= r < 8 && 0 <= c < 8 && (r, c) != (mv.from_tile.0 as int, mv.from_tile.1 as int)
            && (r, c) != (mv.to_tile.0 as int, mv.to_tile.1 as int) implies #[trigger] a.cell(r, c)
        == b.cell(r, c) by {
        assert(a.cell(r, c) == b.move_fig(mv.from_tile, mv.to_tile).cell(r, c));
    }
}

/// The tile `n` columns from `k` towards the side of `dir` (left or right).
pub open spec fn castle_step(k: (u8, u8), dir: Direction, n: int) -> (u8, u8) {
    if dir == Direction::L {
        (k.0, (k.1 - n) as u8)
    } else {
        (k.0, (k.1 + n) as u8)
    }
}

/// Castling of `owner` towards `dir` passes no attacked tile: the two tiles the king crosses
/// are not next to the other king, and the king is not in check on its starting tile nor
/// after each of its two steps.
pub open spec fn path_guarded(board: Board, owner: PlayerColor, dir: Direction) -> bool {
    let k = king_start(owner);
    let s1 = castle_step(k, dir, 1);
    let s2 = castle_step(k, dir, 2);
    let other = board.king_pos(opponent(owner));
    let b1 = board.move_fig(k, s1);
    let b2 = b1.move_fig(s1, s2);
    &&& !adjacent(s1, other)
    &&& !adjacent(s2, other)
    &&& !board.in_check(owner)
    &&& !b1.in_check(owner)
    &&& !b2.in_check(owner)
}

/// The checks of `path_guarded` can be made: the other king stands on the board, and on
/// each board that is looked at the own king is there.
pub open spec fn path_defined(board: Board, owner: PlayerColor, dir: Direction) -> bool {
    let k = king_start(owner);
    let s1 = castle_step(k, dir, 1);
    let s2 = castle_step(k, dir, 2);
    let other = board.king_pos(opponent(owner));
    let b1 = board.move_fig(k, s1);
    let b2 = b1.move_fig(s1, s2);
    &&& board.has_king(opponent(owner))
    &&& !adjacent(s1, other) && !adjacent(s2, other) ==> board.has_king(owner)
    &&& !adjacent(s1, other) && !adjacent(s2, other) && !board.in_check(owner) ==> b1.has_king(owner)
    &&& !adjacent(s1, other) && !adjacent(s2, other) && !board.in_check(owner) && !b1.in_check(owner)
        ==> b2.has_king(owner)
}

/// The first figure to the `dir` side of the king's starting tile is a rook.
pub open spec fn rook_in_line(board: Board, owner: PlayerColor, dir: Direction) -> bool {
    board.first_fig_in_direction(king_start(owner), dir, 0, 8) matches Some((f, r, c))
        && f.fig_type == FigType::Rook
}

impl RochadeTracker {
    /// Castling towards `dir` (left: long, right: short) is allowed: neither the king nor
    /// that rook has moved, the first figure next to the king on that side is a rook, and
    /// the king's path is not attacked.
    pub open spec fn rochade_ok(self, board: Board, dir: Direction) -> bool {
        &&& !self.king_has_moved()
        &&& if dir == Direction::L {
            !self.left_rook_has_moved()
        } else {
            !self.right_rook_has_moved()
        }
        &&& rook_in_line(board, self.owner(), dir)
        &&& path_guarded(board, self.owner(), dir)
    }

    /// `rochade_ok` can be decided: the path check is made only when the cheaper checks pass.
    pub open spec fn rochade_defined(self, board: Board, dir: Direction) -> bool {
        (dir == Direction::L || dir == Direction::R) && (!self.king_has_moved() && (if dir
            == Direction::L {
            !self.left_rook_has_moved()
        } else {
            !self.right_rook_has_moved()
        }) && rook_in_line(board, self.owner(), dir) ==> path_defined(board, self.owner(), dir))
    }

    /// Checks if a rochade is possible in the direction.
    /// The direction (left, right) is from the perspective of the white player;
    /// i.e. the left rochade is also the long one for the black player
    pub fn rochade_possible(&self, board: &Board, dir: Direction) -> (b: bool)
        requires
            self.rochade_defined(*board, dir),
        ensures
            b == self.rochade_ok(*board, dir),
    {
        let king_pos = if self.player == PlayerColor::White {
            WHITE_KING_SP
        } else {
            BLACK_KING_SP
        };
        proof {
            lemma_scan_on_board(*board, king_pos, dir, 0, 8, 0);
            assert(tiles_in_direction(king_pos, dir, 0, 8).skip(0) =~= tiles_in_direction(king_pos, dir, 0, 8));
        }
        match dir {
            // Left == long rochade
            Direction::L => {
                if self.king_moved || self.left_rook_moved {
                    return false;
                }
            },
            // Right == short rochade
            _ => {
                if self.king_moved || self.right_rook_moved {
                    return false;
                }
            },
        }
        let rook_first = match board.get_first_fig_in_direction(king_pos, dir, (0, 8)) {
            Some((f, _r, _c)) => f.fig_type == FigType::Rook,
            None => false,
        };
        rook_first && self._rochade_path_guarded(board, &dir)
    }

    /// This method assumes the rochade path is free. Checks whether the path is not attacked
    /// by the other player. (The enemy king is checked separately, as player_in_check handles
    /// only "legal" positions.)
    fn _rochade_path_guarded(&self, board: &Board, dir: &Direction) -> (b: bool)
        requires
            *dir == Direction::L || *dir == Direction::R,
            path_defined(*board, self.owner(), *dir),
        ensures
            b == path_guarded(*board, self.owner(), *dir),
    {
        let mut board = *board;
        let k_start = if self.player == PlayerColor::White {
            WHITE_KING_SP
        } else {
            BLACK_KING_SP
        };
        let other_king = board.get_king_position(self.player.other_player());
        let (s1, s2) = match *dir {
            Direction::L => ((k_start.0, k_start.1 - 1), (k_start.0, k_start.1 - 2)),
            _ => ((k_start.0, k_start.1 + 1), (k_start.0, k_start.1 + 2)),
        };
        if figs_adjacent(s1, other_king) || figs_adjacent(s2, other_king) {
            return false;
        }
        if board.player_in_check(self.player) {
            return false;
        }
        board.move_fig_on_board(k_start, s1);
        if board.player_in_check(self.player) {
            return false;
        }
        board.move_fig_on_board(s1, s2);
        !board.player_in_check(self.player)
    }
}

/// Exec version of `is_straight_dir`.
pub fn is_straight(d: Direction) -> (b: bool)
    ensures
        b == is_straight_dir(d),
{
    match d {
        Direction::S1D1 | Direction::Unrelated => false,
        _ => true,
    }
}


impl Board {
    /// Whether the king of `color` stands somewhere on the board.
    pub fn has_king_of(&self, color: PlayerColor) -> (b: bool)
        ensures
            b == self.has_king(color),
    {
        let mut r: u8 = 0;
        while r < 8
            invariant
                r <= 8,
                forall|rr: int, cc: int|
                    0 <= rr < r && 0 <= cc < 8 ==> !is_king_of(#[trigger] self.cell(rr, cc), color),
            decreases 8 - r,
        {
            let mut c: u8 = 0;
            while c < 8
                invariant
                    r < 8,
                    c <= 8,
                    forall|rr: int, cc: int|
                        0 <= rr < r && 0 <= cc < 8 ==> !is_king_of(#[trigger] self.cell(rr, cc), color),
                    forall|cc: int| 0 <= cc < c ==> !is_king_of(#[trigger] self.cell(r as int, cc), color),
                decreases 8 - c,
            {
                match self.get_fig_on_tile(r, c) {
                    Some(fig) => {
                        if fig.player_color == color && fig.fig_type == FigType::King {
                            assert(is_king_of(self.cell(r as int, c as int), color));
                            return true;
                        }
                    },
                    None => {},
                }
                c = c + 1;
            }
            r = r + 1;
        }
        false
    }
}

impl RochadeTracker {
    /// Whether castling towards `dir` can be decided on `board` (see `rochade_defined`):
    /// when the cheaper checks pass, both kings stand wherever the path check looks.
    pub fn rochade_decidable_to(&self, board: &Board, dir: Direction) -> (b: bool)
        requires
            dir == Direction::L || dir == Direction::R,
        ensures
            b == self.rochade_defined(*board, dir),
    {
        let king_pos = if self.player == PlayerColor::White {
            WHITE_KING_SP
        } else {
            BLACK_KING_SP
        };
        proof {
            lemma_scan_on_board(*board, king_pos, dir, 0, 8, 0);
            assert(tiles_in_direction(king_pos, dir, 0, 8).skip(0) =~= tiles_in_direction(king_pos, dir, 0, 8));
        }
        let rook_moved = if dir == Direction::L {
            self.left_rook_moved
        } else {
            self.right_rook_moved
        };
        if self.king_moved || rook_moved {
            return true;
        }
        let rook_first = match board.get_first_fig_in_direction(king_pos, dir, (0, 8)) {
            Some((f, _r, _c)) => f.fig_type == FigType::Rook,
            None => false,
        };
        if !rook_first {
            return true;
        }
        let owner = self.player;
        let other = owner.other_player();
        let (s1, s2) = if dir == Direction::L {
            ((king_pos.0, king_pos.1 - 1), (king_pos.0, king_pos.1 - 2))
        } else {
            ((king_pos.0, king_pos.1 + 1), (king_pos.0, king_pos.1 + 2))
        };
        if !board.has_king_of(other) {
            return false;
        }
        let other_king = board.get_king_position(other);
        if figs_adjacent(s1, other_king) || figs_adjacent(s2, other_king) {
            return true;
        }
        if !board.has_king_of(owner) {
            return false;
        }
        if board.player_in_check(owner) {
            return true;
        }
        let mut b1 = *board;
        b1.move_fig_on_board(king_pos, s1);
        if !b1.has_king_of(owner) {
            return false;
        }
        if b1.player_in_check(owner) {
            return true;
        }
        let mut b2 = b1;
        b2.move_fig_on_board(s1, s2);
        b2.has_king_of(owner)
    }
}

} // verus!
