//! Facts about check: a check persists unless a move lands on one of the tiles that stop
//! it, so the moves the generator keeps do not depend on which checking figure it looks at,
//! the generator keeps exactly the moves that do not leave the own king in check, check
//! detection misses no attack but a king's, and a board never gains a second king of a
//! color.
use vstd::prelude::*;

use crate::utils::{adjacent, knight_cands};

use crate::game_logic::board_logic::{
    board_after, castle_step, cells_after, is_king_of, king_start, RochadeTracker, lemma_circle_threat_iff_in_check,
    lemma_enemy_rays_entries, lemma_first_king_unique, lemma_knight_relative, lemma_put_cell,
    lemma_ray_on_board, lemma_ray_tile_relative, owned_by, ray_len, ray_tile, tiles_in_direction, update_defined, Board,
};
use crate::game_logic::movement_logic::{
    lemma_naive_targets_not_own, lemma_slide_targets, naive_targets, slide_dir, slide_targets,
    lemma_check_moves_escape, lemma_king_moves_safe, pin_behind, safe_targets, smart_targets, stopper_tiles,
    valid_threat, ChessMove, MoveType,
};
use crate::utils::core_types::{
    is_diag_dir, is_diag_threat, is_rank_dir, is_rank_threat, is_straight_dir, on_board, opponent,
    opposite_dir, relative_position, straight_dirs, Direction, FigType, Figure,
    PlayerColor,
};

verus! {

/// At most one tile of the board holds a king of `color`.
pub open spec fn one_king(b: Board, color: PlayerColor) -> bool {
    forall|r1: int, c1: int, r2: int, c2: int|
        0 <= r1 < 8 && 0 <= c1 < 8 && 0 <= r2 < 8 && 0 <= c2 < 8 && is_king_of(
            #[trigger] b.cell(r1, c1),
            color,
        ) && is_king_of(#[trigger] b.cell(r2, c2), color) ==> r1 == r2 && c1 == c2
}

/// When the tiles read up to the first figure hold the same on two boards, the first figure
/// and the tiles read up to it are the same on both.
proof fn lemma_first_fig_stable(b: Board, b2: Board, tiles: Seq<(u8, u8)>)
    requires
        forall|x: (u8, u8)| #[trigger] b.until_block(tiles).contains(x) ==> b2.at(x) == b.at(x),
    ensures
        b2.first_fig(tiles) == b.first_fig(tiles),
        b2.until_block(tiles) == b.until_block(tiles),
    decreases tiles.len(),
{
    if tiles.len() > 0 {
        assert(b.until_block(tiles)[0] == tiles[0]);
        assert(b.until_block(tiles).contains(tiles[0]));
        if b.at(tiles[0]).is_none() {
            assert forall|x: (u8, u8)| #[trigger] b.until_block(tiles.drop_first()).contains(x) implies b2.at(x)
                == b.at(x) by {
                let i = choose|i: int| 0 <= i < b.until_block(tiles.drop_first()).len() && b.until_block(
                    tiles.drop_first(),
                )[i] == x;
                assert(b.until_block(tiles)[i + 1] == x);
                assert(b.until_block(tiles).contains(x));
            }
            lemma_first_fig_stable(b, b2, tiles.drop_first());
        }
    }
}

/// The tiles read up to the first figure are empty but for that figure's tile.
proof fn lemma_until_block_empty_before(b: Board, tiles: Seq<(u8, u8)>, x: (u8, u8))
    requires
        b.until_block(tiles).contains(x),
        b.at(x).is_some(),
    ensures
        b.first_fig(tiles) matches Some((f, r, c)) && x == (r, c),
    decreases tiles.len(),
{
    if b.at(tiles[0]).is_some() {
        assert(b.until_block(tiles) =~= seq![tiles[0]]);
        assert(tiles[0] == (tiles[0].0, tiles[0].1));
    } else {
        let i = choose|i: int| 0 <= i < b.until_block(tiles).len() && b.until_block(tiles)[i] == x;
        assert(i > 0);
        assert(b.until_block(tiles.drop_first())[i - 1] == x);
        lemma_until_block_empty_before(b, tiles.drop_first(), x);
    }
}

/// With one king of `color` on the board, that king is the one found first.
pub proof fn lemma_single_king_first(b: Board, color: PlayerColor)
    requires
        b.has_king(color),
        one_king(b, color),
    ensures
        b.is_first_king(b.king_pos(color), color),
        on_board(b.king_pos(color)),
{
    let (kr, kc) = choose|r: int, c: int| 0 <= r < 8 && 0 <= c < 8 && is_king_of(#[trigger] b.cell(r, c), color);
    let p = (kr as u8, kc as u8);
    assert(b.cell(p.0 as int, p.1 as int) == b.cell(kr, kc));
    assert(b.is_first_king(p, color)) by {
        assert forall|r: int, c: int|
            0 <= r < 8 && 0 <= c < 8 && crate::game_logic::board_logic::before_in_scan((r, c), p)
                implies !is_king_of(#[trigger] b.cell(r, c), color) by {
            if is_king_of(b.cell(r, c), color) {
                assert(r == kr && c == kc);
            }
        }
    }
}

/// The king of `color` stays where it is when another figure of `color` moves to a tile
/// without a figure of `color`.
proof fn lemma_king_stays(b: Board, color: PlayerColor, pos: (u8, u8), t: (u8, u8))
    requires
        b.has_king(color),
        one_king(b, color),
        on_board(pos),
        on_board(t),
        owned_by(b.at(pos), color),
        pos != b.king_pos(color),
        !owned_by(b.at(t), color),
    ensures
        b.move_fig(pos, t).has_king(color),
        b.move_fig(pos, t).king_pos(color) == b.king_pos(color),
        b.move_fig(pos, t).is_first_king(b.king_pos(color), color),
        b.move_fig(pos, t).at(b.king_pos(color)) == b.at(b.king_pos(color)),
        !is_king_of(b.at(pos), color),
{
    broadcast use lemma_put_cell;

    let k = b.king_pos(color);
    let b2 = b.move_fig(pos, t);
    lemma_single_king_first(b, color);
    if is_king_of(b.at(pos), color) {
        assert(pos.0 == k.0 && pos.1 == k.1);
    }
    assert(k != t);
    assert(b2.at(k) == b.at(k));
    assert(b2.is_first_king(k, color)) by {
        assert forall|r: int, c: int|
            0 <= r < 8 && 0 <= c < 8 && crate::game_logic::board_logic::before_in_scan((r, c), k)
                implies !is_king_of(#[trigger] b2.cell(r, c), color) by {
            assert(!is_king_of(b.cell(r, c), color));
        }
    }
    assert(is_king_of(b2.cell(k.0 as int, k.1 as int), color));
    lemma_first_king_unique(b2, b2.king_pos(color), k, color);
}


/// Whether a pawn on `from` can take on the occupied tile `k` depends only on what stands on `k`.
proof fn lemma_pawn_capture_stable(b: Board, b2: Board, from: (u8, u8), k: (u8, u8), c: PlayerColor)
    requires
        b.at(k).is_some(),
        b2.at(k) == b.at(k),
    ensures
        naive_targets(b, from, FigType::Pawn, c).contains(k) == naive_targets(b2, from, FigType::Pawn, c).contains(k),
{
}

/// The straight directions are those of `straight_dirs`.
proof fn lemma_straight_dir_index(d: Direction)
    requires
        is_straight_dir(d),
    ensures
        exists|i: int| 0 <= i < 8 && #[trigger] straight_dirs()[i] == d,
{
    if d == Direction::R {
        assert(straight_dirs()[0] == d);
    } else if d == Direction::AR {
        assert(straight_dirs()[1] == d);
    } else if d == Direction::A {
        assert(straight_dirs()[2] == d);
    } else if d == Direction::AL {
        assert(straight_dirs()[3] == d);
    } else if d == Direction::L {
        assert(straight_dirs()[4] == d);
    } else if d == Direction::BL {
        assert(straight_dirs()[5] == d);
    } else if d == Direction::B {
        assert(straight_dirs()[6] == d);
    } else {
        assert(straight_dirs()[7] == d);
    }
}

/// Moving a figure leaves the other tiles as they are.
proof fn lemma_move_fig_elsewhere(b: Board, pos: (u8, u8), t: (u8, u8), x: (u8, u8))
    requires
        on_board(pos),
        on_board(t),
        on_board(x),
        x != pos,
        x != t,
    ensures
        b.move_fig(pos, t).at(x) == b.at(x),
{
    lemma_put_cell(b, pos, None, x.0 as int, x.1 as int);
    lemma_put_cell(b.put(pos, None), t, b.at(pos), x.0 as int, x.1 as int);
}

/// The tiles read up to the first figure are among the tiles read.
proof fn lemma_until_block_in_tiles(b: Board, tiles: Seq<(u8, u8)>, x: (u8, u8))
    requires
        b.until_block(tiles).contains(x),
    ensures
        tiles.contains(x),
    decreases tiles.len(),
{
    let i = choose|i: int| 0 <= i < b.until_block(tiles).len() && b.until_block(tiles)[i] == x;
    if i == 0 {
        assert(tiles[0] == x);
    } else {
        assert(b.until_block(tiles.drop_first())[i - 1] == x);
        lemma_until_block_in_tiles(b, tiles.drop_first(), x);
        let j = choose|j: int| 0 <= j < tiles.drop_first().len() && tiles.drop_first()[j] == x;
        assert(tiles[j + 1] == x);
    }
}

/// A figure that checks along a ray still does so after a move that leaves the tiles up to
/// it alone.
proof fn lemma_ray_check_persists(b: Board, color: PlayerColor, tp: (u8, u8), pos: (u8, u8), t: (u8, u8))
    requires
        b.has_king(color),
        on_board(b.king_pos(color)),
        b.is_first_king(b.king_pos(color), color),
        b.move_fig(pos, t).king_pos(color) == b.king_pos(color),
        b.move_fig(pos, t).at(b.king_pos(color)) == b.at(b.king_pos(color)),
        on_board(pos),
        on_board(t),
        owned_by(b.at(pos), color),
        b.circle_threat(color, tp),
        !b.enemy_knights(color, b.king_pos(color)).dom().contains(tp),
        !stopper_tiles(b, b.king_pos(color), tp).contains(t),
    ensures
        b.move_fig(pos, t).circle_threat(color, tp),
{
    let k = b.king_pos(color);
    let b2 = b.move_fig(pos, t);
    let rays = b.enemy_rays_upto(color, k, 8);
    let rays2 = b2.enemy_rays_upto(color, k, 8);
    let knights2 = b2.enemy_knights(color, k);
    lemma_enemy_rays_entries(b, color, k, 8);
    lemma_enemy_rays_entries(b2, color, k, 8);
    assert(rays.dom().contains(tp));
    let e = rays[tp];
    let d = e.0;
    let tiles = tiles_in_direction(k, d, 0, 8);
    assert(stopper_tiles(b, k, tp).contains(tp));
    assert(tp != pos);
    lemma_move_fig_elsewhere(b, pos, t, tp);
    assert forall|x: (u8, u8)| #[trigger] b.until_block(tiles).contains(x) implies b2.at(x) == b.at(x) by {
        assert(b.until_block(tiles).to_set().contains(x));
        assert(stopper_tiles(b, k, tp).contains(x));
        if x == pos {
            lemma_until_block_empty_before(b, tiles, x);
        }
        lemma_until_block_in_tiles(b, tiles, x);
        let j = choose|j: int| 0 <= j < tiles.len() && tiles[j] == x;
        lemma_ray_on_board(k, d, 0, 8, j);
        lemma_move_fig_elsewhere(b, pos, t, x);
    }
    lemma_first_fig_stable(b, b2, tiles);
    lemma_straight_dir_index(d);
    let i = choose|i: int| 0 <= i < 8 && #[trigger] straight_dirs()[i] == d;
    assert(b2.first_fig_in_direction(k, straight_dirs()[i], 0, 8) == Some((b.at(tp).unwrap(), tp.0, tp.1)));
    assert(rays2.dom().contains(tp));
    let e2 = rays2[tp];
    assert(e2.0 == d);
    assert(e2.1 == e.1);
    assert(!knights2.dom().contains(tp));
    assert(b2.enemy_circle(color, k)[tp] == e2);
    lemma_pawn_capture_stable(b, b2, tp, k, b.at(tp).unwrap().player_color);
    assert(b2.entry_threat(k, tp, d, e.1) == b.entry_threat(k, tp, d, e.1));
}

/// A check persists when another figure of the checked player moves to a tile that does not
/// stop it.
pub proof fn lemma_check_persists(b: Board, color: PlayerColor, tp: (u8, u8), pos: (u8, u8), t: (u8, u8))
    requires
        b.has_king(color),
        one_king(b, color),
        b.circle_threat(color, tp),
        on_board(pos),
        on_board(t),
        owned_by(b.at(pos), color),
        pos != b.king_pos(color),
        !owned_by(b.at(t), color),
        !stopper_tiles(b, b.king_pos(color), tp).contains(t),
    ensures
        b.move_fig(pos, t).in_check(color),
{
    let k = b.king_pos(color);
    let b2 = b.move_fig(pos, t);
    lemma_king_stays(b, color, pos, t);
    let knights = b.enemy_knights(color, k);
    if knights.dom().contains(tp) {
        assert(stopper_tiles(b, k, tp).contains(tp));
        lemma_knight_relative(k, tp);
        lemma_move_fig_elsewhere(b, pos, t, tp);
        let knights2 = b2.enemy_knights(color, k);
        assert(knights2.dom().contains(tp));
        assert(b2.enemy_circle(color, k)[tp] == knights2[tp]);
        assert(b2.circle_threat(color, tp));
    } else {
        lemma_ray_check_persists(b, color, tp, pos, t);
    }
    lemma_circle_threat_iff_in_check(b2, color);
}


/// A move that the generator keeps against one checking figure stops every checking figure.
proof fn lemma_kept_move_stops(b: Board, color: PlayerColor, tp1: (u8, u8), tp2: (u8, u8), pos: (u8, u8), t: (u8, u8))
    requires
        b.has_king(color),
        one_king(b, color),
        b.circle_threat(color, tp2),
        b.busy_tiles(color).contains(pos),
        pos != b.king_pos(color),
        smart_targets(b, color, Some(tp1), pos).contains(t),
    ensures
        smart_targets(b, color, Some(tp2), pos).contains(t),
{
    let k = b.king_pos(color);
    let f = b.at(pos).unwrap();
    lemma_naive_targets_not_own(b, pos, f, t);
    if !stopper_tiles(b, k, tp2).contains(t) {
        lemma_check_persists(b, color, tp2, pos, t);
    }
}

/// In check, the moves the generator keeps do not depend on which checking figure it looks
/// at.
pub proof fn lemma_smart_targets_any_threat(b: Board, color: PlayerColor, tp1: (u8, u8), tp2: (u8, u8), pos: (u8, u8))
    requires
        b.has_king(color),
        one_king(b, color),
        b.circle_threat(color, tp1),
        b.circle_threat(color, tp2),
        b.busy_tiles(color).contains(pos),
    ensures
        smart_targets(b, color, Some(tp1), pos) == smart_targets(b, color, Some(tp2), pos),
{
    if pos != b.king_pos(color) {
        assert forall|t: (u8, u8)| smart_targets(b, color, Some(tp1), pos).contains(t) <==> smart_targets(
            b,
            color,
            Some(tp2),
            pos,
        ).contains(t) by {
            if smart_targets(b, color, Some(tp1), pos).contains(t) {
                lemma_kept_move_stops(b, color, tp1, tp2, pos, t);
            }
            if smart_targets(b, color, Some(tp2), pos).contains(t) {
                lemma_kept_move_stops(b, color, tp2, tp1, pos, t);
            }
        }
        assert(smart_targets(b, color, Some(tp1), pos) =~= smart_targets(b, color, Some(tp2), pos));
    }
}


/// Placing something other than a king of `c` adds no king of `c`.
proof fn lemma_one_king_put(b: Board, t: (u8, u8), f: Option<Figure>, c: PlayerColor)
    requires
        one_king(b, c),
        on_board(t),
        !is_king_of(f, c),
    ensures
        one_king(b.put(t, f), c),
{
    broadcast use lemma_put_cell;

    let b2 = b.put(t, f);
    assert forall|r1: int, c1: int, r2: int, c2: int|
        0 <= r1 < 8 && 0 <= c1 < 8 && 0 <= r2 < 8 && 0 <= c2 < 8 && is_king_of(#[trigger] b2.cell(r1, c1), c)
            && is_king_of(#[trigger] b2.cell(r2, c2), c) implies r1 == r2 && c1 == c2 by {
        assert(is_king_of(b.cell(r1, c1), c));
        assert(is_king_of(b.cell(r2, c2), c));
    }
}

/// Moving a figure keeps at most one king of `c` on the board.
proof fn lemma_one_king_move(b: Board, from: (u8, u8), to: (u8, u8), c: PlayerColor)
    requires
        one_king(b, c),
        on_board(from),
        on_board(to),
    ensures
        one_king(b.move_fig(from, to), c),
{
    broadcast use lemma_put_cell;

    let b1 = b.put(from, None);
    lemma_one_king_put(b, from, None, c);
    if is_king_of(b.at(from), c) {
        let b2 = b1.put(to, b.at(from));
        assert forall|r1: int, c1: int, r2: int, c2: int|
            0 <= r1 < 8 && 0 <= c1 < 8 && 0 <= r2 < 8 && 0 <= c2 < 8 && is_king_of(#[trigger] b2.cell(r1, c1), c)
                && is_king_of(#[trigger] b2.cell(r2, c2), c) implies r1 == r2 && c1 == c2 by {
            if !(r1 == to.0 && c1 == to.1) {
                assert(is_king_of(b.cell(r1, c1), c));
                assert(is_king_of(b.cell(from.0 as int, from.1 as int), c));
            }
            if !(r2 == to.0 && c2 == to.1) {
                assert(is_king_of(b.cell(r2, c2), c));
                assert(is_king_of(b.cell(from.0 as int, from.1 as int), c));
            }
        }
    } else {
        lemma_one_king_put(b1, to, b.at(from), c);
    }
}

/// No move brings a second king of a color onto the board.
pub proof fn lemma_one_king_after(b: Board, mv: ChessMove, color: PlayerColor, c: PlayerColor)
    requires
        one_king(b, c),
        update_defined(b, mv),
    ensures
        one_king(board_after(b, mv, color), c),
{
    let from = mv.from_tile;
    let to = mv.to_tile;
    let cells = cells_after(b, mv, color);
    match mv.move_type {
        MoveType::Norm | MoveType::DoublePawn => {
            lemma_one_king_move(b, from, to, c);
        },
        MoveType::Promoting => {
            lemma_one_king_put(b, from, None, c);
            lemma_one_king_put(
                b.put(from, None),
                to,
                Some(Figure { fig_type: FigType::Queen, player_color: color }),
                c,
            );
        },
        MoveType::Passing => {
            let p = b.3.unwrap().to_tile;
            lemma_one_king_put(b, p, None, c);
            lemma_one_king_move(b.put(p, None), from, to, c);
        },
        MoveType::RochadeLeft | MoveType::RochadeRight => {
            lemma_one_king_move(b, from, to, c);
            let b1 = b.move_fig(from, to);
            lemma_one_king_move(b1, (0, 0), (0, 3), c);
            lemma_one_king_move(b1, (7, 0), (7, 3), c);
            lemma_one_king_move(b1, (0, 7), (0, 5), c);
            lemma_one_king_move(b1, (7, 7), (7, 5), c);
        },
    }
    assert(one_king(cells, c));
    let a = board_after(b, mv, color);
    assert(a.0 == cells.0);
    assert forall|r1: int, c1: int, r2: int, c2: int|
        0 <= r1 < 8 && 0 <= c1 < 8 && 0 <= r2 < 8 && 0 <= c2 < 8 && is_king_of(#[trigger] a.cell(r1, c1), c)
            && is_king_of(#[trigger] a.cell(r2, c2), c) implies r1 == r2 && c1 == c2 by {
        assert(a.cell(r1, c1) == cells.cell(r1, c1));
        assert(a.cell(r2, c2) == cells.cell(r2, c2));
    }
}


// Geometry of rays.

/// Walking on from the `jp`-th tile of a ray is walking on the same ray.
proof fn lemma_ray_shift(s: (u8, u8), d: Direction, jp: int, j: int)
    requires
        on_board(s),
        is_straight_dir(d),
        0 <= jp < j < ray_len(s, d, 0, 8),
    ensures
        on_board(ray_tile(s, d, jp)),
        j - jp - 1 < ray_len(ray_tile(s, d, jp), d, 0, 8),
        ray_tile(ray_tile(s, d, jp), d, j - jp - 1) == ray_tile(s, d, j),
{
    lemma_ray_on_board(s, d, 0, 8, jp);
    lemma_ray_on_board(s, d, 0, 8, j);
}

/// The tiles of the ray from the `jp`-th tile of a ray are the later tiles of that ray.
proof fn lemma_ray_shift_back(s: (u8, u8), d: Direction, jp: int, i: int)
    requires
        on_board(s),
        is_straight_dir(d),
        0 <= jp < ray_len(s, d, 0, 8),
        0 <= i < ray_len(ray_tile(s, d, jp), d, 0, 8),
    ensures
        jp + 1 + i < ray_len(s, d, 0, 8),
        ray_tile(ray_tile(s, d, jp), d, i) == ray_tile(s, d, jp + 1 + i),
{
    lemma_ray_on_board(s, d, 0, 8, jp);
    lemma_ray_on_board(ray_tile(s, d, jp), d, 0, 8, i);
}

/// The tiles of a ray are pairwise different.
proof fn lemma_ray_distinct(s: (u8, u8), d: Direction, i: int, j: int)
    requires
        on_board(s),
        is_straight_dir(d),
        0 <= i < ray_len(s, d, 0, 8),
        0 <= j < ray_len(s, d, 0, 8),
        i != j,
    ensures
        ray_tile(s, d, i) != ray_tile(s, d, j),
{
    lemma_ray_on_board(s, d, 0, 8, i);
    lemma_ray_on_board(s, d, 0, 8, j);
}

/// A tile of the board that lies in direction `d` from `s` is on the ray from `s` in `d`.
proof fn lemma_on_ray(s: (u8, u8), t: (u8, u8), d: Direction)
    requires
        on_board(s),
        on_board(t),
        is_straight_dir(d),
        relative_position(s, t) == d,
    ensures
        exists|k: int| 0 <= k < ray_len(s, d, 0, 8) && ray_tile(s, d, k) == t,
{
    let k = if t.0 != s.0 {
        if t.0 > s.0 {
            t.0 - s.0 - 1
        } else {
            s.0 - t.0 - 1
        }
    } else {
        if t.1 > s.1 {
            t.1 - s.1 - 1
        } else {
            s.1 - t.1 - 1
        }
    };
    assert(ray_tile(s, d, k) == t);
}

/// The ray within the inner rows and columns is the ray within the board without its last
/// tile.
proof fn lemma_inner_ray(s: (u8, u8), d: Direction)
    requires
        on_board(s),
        is_straight_dir(d),
    ensures
        ray_len(s, d, 1, 7) <= ray_len(s, d, 0, 8) <= ray_len(s, d, 1, 7) + 1,
        tiles_in_direction(s, d, 1, 7) == tiles_in_direction(s, d, 0, 8).take(ray_len(s, d, 1, 7) as int),
{
    assert(tiles_in_direction(s, d, 1, 7) =~= tiles_in_direction(s, d, 0, 8).take(ray_len(s, d, 1, 7) as int));
}

// The first figure on a list of tiles, by index.

/// The first figure on `tiles` is on its first occupied tile.
proof fn lemma_first_fig_at(b: Board, tiles: Seq<(u8, u8)>, j: int)
    requires
        0 <= j < tiles.len(),
        b.at(tiles[j]).is_some(),
        forall|i: int| 0 <= i < j ==> b.at(#[trigger] tiles[i]).is_none(),
    ensures
        b.first_fig(tiles) == Some((b.at(tiles[j]).unwrap(), tiles[j].0, tiles[j].1)),
    decreases j,
{
    if j > 0 {
        assert(b.at(tiles[0]).is_none());
        assert forall|i: int| 0 <= i < j - 1 implies b.at(#[trigger] tiles.drop_first()[i]).is_none() by {
            assert(tiles.drop_first()[i] == tiles[i + 1]);
        }
        lemma_first_fig_at(b, tiles.drop_first(), j - 1);
        assert(tiles.drop_first()[j - 1] == tiles[j]);
    }
}

/// The first figure on `tiles` stands on some tile with only empty tiles before it.
proof fn lemma_first_fig_index(b: Board, tiles: Seq<(u8, u8)>)
    requires
        b.first_fig(tiles).is_some(),
    ensures
        exists|j: int|
            0 <= j < tiles.len() && b.first_fig(tiles) == Some((b.at(tiles[j]).unwrap(), tiles[j].0, tiles[j].1))
                && b.at(tiles[j]).is_some() && (forall|i: int| 0 <= i < j ==> b.at(#[trigger] tiles[i]).is_none()),
    decreases tiles.len(),
{
    if b.at(tiles[0]).is_some() {
        assert(b.first_fig(tiles) == Some((b.at(tiles[0]).unwrap(), tiles[0].0, tiles[0].1)));
    } else {
        lemma_first_fig_index(b, tiles.drop_first());
        let j = choose|j: int|
            0 <= j < tiles.drop_first().len() && b.first_fig(tiles.drop_first()) == Some(
                (b.at(tiles.drop_first()[j]).unwrap(), tiles.drop_first()[j].0, tiles.drop_first()[j].1),
            ) && b.at(tiles.drop_first()[j]).is_some() && (forall|i: int|
                0 <= i < j ==> b.at(#[trigger] tiles.drop_first()[i]).is_none());
        assert(tiles.drop_first()[j] == tiles[j + 1]);
        assert forall|i: int| 0 <= i < j + 1 implies b.at(#[trigger] tiles[i]).is_none() by {
            if i > 0 {
                assert(tiles.drop_first()[i - 1] == tiles[i]);
            }
        }
    }
}


// Figures do not jump: the tiles between a figure and its target on a straight line are empty.

/// A tile reached by sliding along distinct tiles has only empty tiles before it.
proof fn lemma_slide_prefix(b: Board, c: PlayerColor, tiles: Seq<(u8, u8)>, k: int)
    requires
        0 <= k < tiles.len(),
        tiles.no_duplicates(),
        slide_targets(b, c, tiles).contains(tiles[k]),
    ensures
        forall|i: int| 0 <= i < k ==> b.at(#[trigger] tiles[i]).is_none(),
    decreases tiles.len(),
{
    if k > 0 {
        if b.at(tiles[0]).is_some() {
            assert(tiles[0] != tiles[k]);
        } else {
            let rest = tiles.drop_first();
            assert(rest[k - 1] == tiles[k]);
            assert(tiles[k] != tiles[0]);
            lemma_slide_prefix(b, c, rest, k - 1);
            assert forall|i: int| 0 <= i < k implies b.at(#[trigger] tiles[i]).is_none() by {
                if i > 0 {
                    assert(rest[i - 1] == tiles[i]);
                }
            }
        }
    }
}

/// A ray from a tile of the board holds no tile twice.
proof fn lemma_ray_no_duplicates(s: (u8, u8), d: Direction)
    requires
        on_board(s),
        is_straight_dir(d),
    ensures
        tiles_in_direction(s, d, 0, 8).no_duplicates(),
{
    let tiles = tiles_in_direction(s, d, 0, 8);
    assert forall|i: int, j: int| 0 <= i < tiles.len() && 0 <= j < tiles.len() && i != j implies tiles[i] != tiles[j] by {
        lemma_ray_distinct(s, d, i, j);
    }
}

/// A tile reached by sliding from `pos` in `d2` that lies `kt` steps in `dd` from `pos` has
/// only empty tiles before it in `dd`.
proof fn lemma_slide_dir_prefix(b: Board, c: PlayerColor, pos: (u8, u8), d2: Direction, dd: Direction, kt: int)
    requires
        on_board(pos),
        is_straight_dir(dd),
        0 <= kt < ray_len(pos, dd, 0, 8),
        slide_dir(b, c, pos, d2).contains(ray_tile(pos, dd, kt)),
    ensures
        forall|i: int| 0 <= i < kt ==> b.at(#[trigger] ray_tile(pos, dd, i)).is_none(),
{
    let t = ray_tile(pos, dd, kt);
    let tiles2 = tiles_in_direction(pos, d2, 0, 8);
    lemma_slide_targets(b, c, tiles2, t);
    let k2 = choose|k2: int| 0 <= k2 < tiles2.len() && tiles2[k2] == t;
    lemma_ray_tile_relative(pos, d2, 0, 8, k2);
    lemma_ray_tile_relative(pos, dd, 0, 8, kt);
    assert(d2 == dd);
    if k2 != kt {
        lemma_ray_distinct(pos, dd, k2, kt);
    }
    lemma_ray_no_duplicates(pos, dd);
    lemma_slide_prefix(b, c, tiles2, kt);
    assert forall|i: int| 0 <= i < kt implies b.at(#[trigger] ray_tile(pos, dd, i)).is_none() by {
        assert(tiles2[i] == ray_tile(pos, dd, i));
    }
}


/// The moves of a figure to a tile on a straight line from it pass only empty tiles.
proof fn lemma_no_jump(b: Board, pos: (u8, u8), f: Figure, dd: Direction, kt: int)
    requires
        on_board(pos),
        b.at(pos) == Some(f),
        is_straight_dir(dd),
        0 <= kt < ray_len(pos, dd, 0, 8),
        naive_targets(b, pos, f.fig_type, f.player_color).contains(ray_tile(pos, dd, kt)),
    ensures
        forall|i: int| 0 <= i < kt ==> b.at(#[trigger] ray_tile(pos, dd, i)).is_none(),
{
    let t = ray_tile(pos, dd, kt);
    let c = f.player_color;
    lemma_ray_tile_relative(pos, dd, 0, 8, kt);
    lemma_ray_on_board(pos, dd, 0, 8, kt);
    match f.fig_type {
        FigType::Rook => {
            if slide_dir(b, c, pos, Direction::A).contains(t) {
                lemma_slide_dir_prefix(b, c, pos, Direction::A, dd, kt);
            } else if slide_dir(b, c, pos, Direction::B).contains(t) {
                lemma_slide_dir_prefix(b, c, pos, Direction::B, dd, kt);
            } else if slide_dir(b, c, pos, Direction::R).contains(t) {
                lemma_slide_dir_prefix(b, c, pos, Direction::R, dd, kt);
            } else {
                lemma_slide_dir_prefix(b, c, pos, Direction::L, dd, kt);
            }
        },
        FigType::Bishop => {
            if slide_dir(b, c, pos, Direction::AR).contains(t) {
                lemma_slide_dir_prefix(b, c, pos, Direction::AR, dd, kt);
            } else if slide_dir(b, c, pos, Direction::BL).contains(t) {
                lemma_slide_dir_prefix(b, c, pos, Direction::BL, dd, kt);
            } else if slide_dir(b, c, pos, Direction::AL).contains(t) {
                lemma_slide_dir_prefix(b, c, pos, Direction::AL, dd, kt);
            } else {
                lemma_slide_dir_prefix(b, c, pos, Direction::BR, dd, kt);
            }
        },
        FigType::Queen => {
            if slide_dir(b, c, pos, Direction::A).contains(t) {
                lemma_slide_dir_prefix(b, c, pos, Direction::A, dd, kt);
            } else if slide_dir(b, c, pos, Direction::B).contains(t) {
                lemma_slide_dir_prefix(b, c, pos, Direction::B, dd, kt);
            } else if slide_dir(b, c, pos, Direction::R).contains(t) {
                lemma_slide_dir_prefix(b, c, pos, Direction::R, dd, kt);
            } else if slide_dir(b, c, pos, Direction::L).contains(t) {
                lemma_slide_dir_prefix(b, c, pos, Direction::L, dd, kt);
            } else if slide_dir(b, c, pos, Direction::AR).contains(t) {
                lemma_slide_dir_prefix(b, c, pos, Direction::AR, dd, kt);
            } else if slide_dir(b, c, pos, Direction::BL).contains(t) {
                lemma_slide_dir_prefix(b, c, pos, Direction::BL, dd, kt);
            } else if slide_dir(b, c, pos, Direction::AL).contains(t) {
                lemma_slide_dir_prefix(b, c, pos, Direction::AL, dd, kt);
            } else {
                lemma_slide_dir_prefix(b, c, pos, Direction::BR, dd, kt);
            }
        },
        FigType::Knight => {
            lemma_knight_relative(pos, t);
        },
        FigType::King => {
            assert(kt == 0);
        },
        FigType::Pawn => {
            lemma_pawn_no_jump(b, pos, c, dd, kt);
        },
    }
}

/// A pawn's move along a straight line passes only empty tiles.
proof fn lemma_pawn_no_jump(b: Board, pos: (u8, u8), c: PlayerColor, dd: Direction, kt: int)
    requires
        on_board(pos),
        is_straight_dir(dd),
        0 <= kt < ray_len(pos, dd, 0, 8),
        naive_targets(b, pos, FigType::Pawn, c).contains(ray_tile(pos, dd, kt)),
    ensures
        forall|i: int| 0 <= i < kt ==> b.at(#[trigger] ray_tile(pos, dd, i)).is_none(),
{
    lemma_ray_on_board(pos, dd, 0, 8, kt);
    if kt > 0 {
        assert(kt == 1);
        lemma_ray_on_board(pos, dd, 0, 8, 0);
        assert forall|i: int| 0 <= i < kt implies b.at(#[trigger] ray_tile(pos, dd, i)).is_none() by {
            assert(i == 0);
        }
    }
}


/// The entries of `guards_upto`: own figures standing first, within the inner rows and
/// columns, in their direction from the king.
proof fn lemma_guards_entries(b: Board, color: PlayerColor, king: (u8, u8), n: int)
    requires
        on_board(king),
        0 <= n <= 8,
    ensures
        forall|p: (u8, u8)| #[trigger] b.guards_upto(color, king, n).dom().contains(p) ==> {
            let d = b.guards_upto(color, king, n)[p];
            &&& is_straight_dir(d)
            &&& relative_position(king, p) == d
            &&& b.at(p).is_some()
            &&& b.first_fig_in_direction(king, d, 1, 7) == Some((b.at(p).unwrap(), p.0, p.1))
        },
        forall|i: int|
            0 <= i < n ==> (#[trigger] b.first_fig_in_direction(king, straight_dirs()[i], 1, 7) matches Some((f, r, c))
                ==> (f.player_color == color ==> b.guards_upto(color, king, n).dom().contains((r, c)))),
    decreases n,
{
    if n > 0 {
        lemma_guards_entries(b, color, king, n - 1);
        let d = straight_dirs()[n - 1];
        let tiles = tiles_in_direction(king, d, 1, 7);
        crate::game_logic::board_logic::lemma_first_fig_in_tiles(b, tiles);
        if let Some((f, r, c)) = b.first_fig_in_direction(king, d, 1, 7) {
            let k = choose|k: int| 0 <= k < tiles.len() && tiles[k] == (r, c);
            lemma_ray_tile_relative(king, d, 1, 7, k);
        }
    }
}


/// A pawn takes only on the tiles diagonally next to it: when it can take on the occupied
/// tile `s`, it stands on the first tile of a ray from `s`.
proof fn lemma_pawn_capture_adjacent(b: Board, s: (u8, u8), d: Direction, j: int, c: PlayerColor)
    requires
        on_board(s),
        is_straight_dir(d),
        0 <= j < ray_len(s, d, 0, 8),
        b.at(s).is_some(),
        naive_targets(b, ray_tile(s, d, j), FigType::Pawn, c).contains(s),
    ensures
        j == 0,
{
    lemma_ray_on_board(s, d, 0, 8, j);
}


/// Not in check, a move that the generator keeps for a figure other than the king opens no
/// line onto the own king in direction `d`.
proof fn lemma_quiet_ray(b: Board, color: PlayerColor, pos: (u8, u8), t: (u8, u8), d: Direction)
    requires
        b.has_king(color),
        one_king(b, color),
        !b.in_check(color),
        b.busy_tiles(color).contains(pos),
        pos != b.king_pos(color),
        smart_targets(b, color, None, pos).contains(t),
        is_straight_dir(d),
    ensures
        !b.move_fig(pos, t).ray_threat(b.king_pos(color), color, d),
{
    broadcast use lemma_put_cell;

    let k = b.king_pos(color);
    let b2 = b.move_fig(pos, t);
    let f = b.at(pos).unwrap();
    let naive = naive_targets(b, pos, f.fig_type, f.player_color);
    let guards = b.guards_upto(color, k, 8);
    assert(naive.contains(t));
    lemma_naive_targets_not_own(b, pos, f, t);
    lemma_king_stays(b, color, pos, t);
    lemma_single_king_first(b, color);
    assert(pos != t);
    assert(b2.at(t) == Some(f));
    assert(b2.at(pos).is_none());
    let tiles = tiles_in_direction(k, d, 0, 8);
    if b2.ray_threat(k, color, d) {
        lemma_first_fig_index(b2, tiles);
        let j2 = choose|j: int|
            0 <= j < tiles.len() && b2.first_fig(tiles) == Some((b2.at(tiles[j]).unwrap(), tiles[j].0, tiles[j].1))
                && b2.at(tiles[j]).is_some() && (forall|i: int| 0 <= i < j ==> b2.at(#[trigger] tiles[i]).is_none());
        let x = tiles[j2];
        lemma_ray_on_board(k, d, 0, 8, j2);
        let fx = b2.at(x).unwrap();
        assert(fx.player_color == opponent(color));
        assert(x != t);
        lemma_move_fig_elsewhere(b, pos, t, x);
        if exists|jp: int| 0 <= jp < j2 && tiles[jp] == pos {
            let jp = choose|jp: int| 0 <= jp < j2 && tiles[jp] == pos;
            assert forall|i: int| 0 <= i < j2 implies b2.at(#[trigger] ray_tile(k, d, i)).is_none() by {
                assert(tiles[i] == ray_tile(k, d, i));
            }
            lemma_pin_holds_line(b, b2, color, pos, t, d, jp, j2);
        } else {
            assert forall|i: int| 0 <= i < j2 implies b.at(#[trigger] tiles[i]).is_none() by {
                assert(b2.at(tiles[i]).is_none());
                lemma_ray_on_board(k, d, 0, 8, i);
                lemma_move_fig_elsewhere(b, pos, t, tiles[i]);
            }
            lemma_first_fig_at(b, tiles, j2);
            lemma_pawn_capture_stable(b, b2, x, k, fx.player_color);
            assert(b.ray_threat(k, color, d));
            lemma_straight_dir_index(d);
        }
    }
}


/// The case of `lemma_quiet_ray` where the moved figure stood on the ray before the enemy
/// figure that the ray meets after the move: that figure pins it, so the move stays on the
/// ray and cannot pass it.
proof fn lemma_pin_holds_line(b: Board, b2: Board, color: PlayerColor, pos: (u8, u8), t: (u8, u8), d: Direction, jp: int, j2: int)
    requires
        b.has_king(color),
        on_board(b.king_pos(color)),
        b.busy_tiles(color).contains(pos),
        pos != b.king_pos(color),
        smart_targets(b, color, None, pos).contains(t),
        is_straight_dir(d),
        b2 == b.move_fig(pos, t),
        b2.at(t) == b.at(pos),
        pos != t,
        on_board(t),
        0 <= jp < j2 < ray_len(b.king_pos(color), d, 0, 8),
        ray_tile(b.king_pos(color), d, jp) == pos,
        forall|i: int| 0 <= i < j2 ==> b2.at(#[trigger] ray_tile(b.king_pos(color), d, i)).is_none(),
        b.at(b.king_pos(color)).is_some(),
    ensures
        !(b2.at(ray_tile(b.king_pos(color), d, j2)) matches Some(fx) && fx.player_color == opponent(color)
            && b2.threatens_along(fx, ray_tile(b.king_pos(color), d, j2), d, b.king_pos(color))),
{
    if b2.at(ray_tile(b.king_pos(color), d, j2)) matches Some(fx) && fx.player_color == opponent(color)
        && b2.threatens_along(fx, ray_tile(b.king_pos(color), d, j2), d, b.king_pos(color)) {
        lemma_pinned_stays_behind(b, b2, color, pos, t, d, jp, j2);
    }
}

/// An own figure standing first on a ray from the king, with more of the ray behind it,
/// is a guard of the king in the ray's direction.
proof fn lemma_guard_on_ray(b: Board, color: PlayerColor, k: (u8, u8), d: Direction, jp: int)
    requires
        on_board(k),
        is_straight_dir(d),
        0 <= jp < ray_len(k, d, 0, 8) - 1,
        owned_by(b.at(ray_tile(k, d, jp)), color),
        forall|i: int| 0 <= i < jp ==> b.at(#[trigger] ray_tile(k, d, i)).is_none(),
    ensures
        b.guards_upto(color, k, 8).dom().contains(ray_tile(k, d, jp)),
        b.guards_upto(color, k, 8)[ray_tile(k, d, jp)] == d,
{
    let pos = ray_tile(k, d, jp);
    let tiles = tiles_in_direction(k, d, 0, 8);
    lemma_inner_ray(k, d);
    let inner = tiles_in_direction(k, d, 1, 7);
    assert(jp < inner.len());
    assert forall|i: int| 0 <= i < jp implies b.at(#[trigger] inner[i]).is_none() by {
        assert(inner[i] == tiles[i]);
        assert(tiles[i] == ray_tile(k, d, i));
    }
    assert(inner[jp] == tiles[jp]);
    lemma_first_fig_at(b, inner, jp);
    lemma_guards_entries(b, color, k, 8);
    lemma_straight_dir_index(d);
    let di = choose|i: int| 0 <= i < 8 && #[trigger] straight_dirs()[i] == d;
    assert(b.first_fig_in_direction(k, straight_dirs()[di], 1, 7) == Some((b.at(pos).unwrap(), pos.0, pos.1)));
    lemma_ray_tile_relative(k, d, 0, 8, jp);
}

/// Seen from the `jp`-th tile of a ray, the first figure further on is the first one after
/// it on the ray.
proof fn lemma_first_behind(b: Board, k: (u8, u8), d: Direction, jp: int, j2: int)
    requires
        on_board(k),
        is_straight_dir(d),
        0 <= jp < j2 < ray_len(k, d, 0, 8),
        b.at(ray_tile(k, d, j2)).is_some(),
        forall|i: int| jp < i < j2 ==> b.at(#[trigger] ray_tile(k, d, i)).is_none(),
    ensures
        b.first_fig_in_direction(ray_tile(k, d, jp), d, 0, 8) == Some(
            (b.at(ray_tile(k, d, j2)).unwrap(), ray_tile(k, d, j2).0, ray_tile(k, d, j2).1),
        ),
{
    let pos = ray_tile(k, d, jp);
    let from_pos = tiles_in_direction(pos, d, 0, 8);
    let jx = j2 - jp - 1;
    lemma_ray_shift(k, d, jp, j2);
    assert forall|i: int| 0 <= i < jx implies b.at(#[trigger] from_pos[i]).is_none() by {
        lemma_ray_shift(k, d, jp, jp + 1 + i);
        assert(from_pos[i] == ray_tile(k, d, jp + 1 + i));
    }
    assert(from_pos[jx] == ray_tile(k, d, j2));
    lemma_first_fig_at(b, from_pos, jx);
}

/// With the enemy figure on the ray after the move, it stood there before, pinned the moved
/// figure to the ray, and the move would have jumped over it.
proof fn lemma_pinned_stays_behind(b: Board, b2: Board, color: PlayerColor, pos: (u8, u8), t: (u8, u8), d: Direction, jp: int, j2: int)
    requires
        b.has_king(color),
        on_board(b.king_pos(color)),
        b.busy_tiles(color).contains(pos),
        pos != b.king_pos(color),
        smart_targets(b, color, None, pos).contains(t),
        is_straight_dir(d),
        b2 == b.move_fig(pos, t),
        b2.at(t) == b.at(pos),
        pos != t,
        on_board(t),
        0 <= jp < j2 < ray_len(b.king_pos(color), d, 0, 8),
        ray_tile(b.king_pos(color), d, jp) == pos,
        forall|i: int| 0 <= i < j2 ==> b2.at(#[trigger] ray_tile(b.king_pos(color), d, i)).is_none(),
        b.at(b.king_pos(color)).is_some(),
        b2.at(ray_tile(b.king_pos(color), d, j2)) matches Some(fx) && fx.player_color == opponent(color)
            && b2.threatens_along(fx, ray_tile(b.king_pos(color), d, j2), d, b.king_pos(color)),
    ensures
        b.at(ray_tile(b.king_pos(color), d, j2)).is_none(),
{
    let k = b.king_pos(color);
    let x = ray_tile(k, d, j2);
    let f = b.at(pos).unwrap();
    let fx = b2.at(x).unwrap();
    lemma_ray_on_board(k, d, 0, 8, j2);
    lemma_ray_on_board(k, d, 0, 8, jp);
    lemma_ray_distinct(k, d, jp, j2);
    // The tiles before `x` hold on `b` what they hold on `b2`, but for `pos`.
    assert forall|i: int| 0 <= i < j2 && i != jp implies b.at(#[trigger] ray_tile(k, d, i)).is_none() by {
        lemma_ray_on_board(k, d, 0, 8, i);
        lemma_ray_distinct(k, d, i, jp);
        assert(b2.at(ray_tile(k, d, i)).is_none());
        lemma_move_fig_elsewhere(b, pos, t, ray_tile(k, d, i));
    }
    lemma_move_fig_elsewhere(b, pos, t, x);
    lemma_guard_on_ray(b, color, k, d, jp);
    lemma_first_behind(b, k, d, jp, j2);
    // The figure on `x` pins along `d`: a pawn would have to stand next to the king.
    if fx.fig_type == FigType::Pawn {
        lemma_pawn_capture_adjacent(b2, k, d, j2, fx.player_color);
    }
    assert(pin_behind(b, color, pos, d));
    // So the move stays on the ray from the king, beyond `x`, and would jump over `x`.
    assert(relative_position(k, t) == d);
    lemma_on_ray(k, t, d);
    let kt = choose|kt: int| 0 <= kt < ray_len(k, d, 0, 8) && ray_tile(k, d, kt) == t;
    if kt < j2 {
        assert(b2.at(ray_tile(k, d, kt)).is_none());
    }
    assert(kt > j2);
    lemma_ray_shift(k, d, jp, kt);
    lemma_ray_shift(k, d, jp, j2);
    lemma_no_jump(b, pos, f, d, kt - jp - 1);
    assert(b.at(ray_tile(pos, d, j2 - jp - 1)).is_none());
}


/// Every move that the generator keeps for a figure leaves the own king out of check after
/// the figure is moved, in check or not, for the king and for every other figure.
pub proof fn lemma_kept_moves_legal(b: Board, color: PlayerColor, threat: Option<(u8, u8)>, pos: (u8, u8), t: (u8, u8))
    requires
        b.has_king(color),
        one_king(b, color),
        valid_threat(b, color, threat),
        b.busy_tiles(color).contains(pos),
        smart_targets(b, color, threat, pos).contains(t),
    ensures
        !b.move_fig(pos, t).in_check(color),
{
    let k = b.king_pos(color);
    if pos == k {
        lemma_king_moves_safe(b, color, threat, t);
    } else {
        match threat {
            Some(tp) => {
                lemma_check_moves_escape(b, color, tp, pos, t);
            },
            None => {
                broadcast use lemma_put_cell;

                let b2 = b.move_fig(pos, t);
                let f = b.at(pos).unwrap();
                lemma_single_king_first(b, color);
                let guards = b.guards_upto(color, k, 8);
                assert(naive_targets(b, pos, f.fig_type, f.player_color).contains(t));
                lemma_naive_targets_not_own(b, pos, f, t);
                lemma_king_stays(b, color, pos, t);
                assert forall|i: int| 0 <= i < 8 implies !b2.ray_threat(k, color, #[trigger] straight_dirs()[i]) by {
                    lemma_quiet_ray(b, color, pos, t, straight_dirs()[i]);
                }
                assert forall|p: (u8, u8)| #[trigger] knight_cands(k).contains(p) implies !b2.enemy_knight_at(color, p) by {
                    lemma_knight_relative(k, p);
                    if p != pos && p != t {
                        lemma_move_fig_elsewhere(b, pos, t, p);
                        assert(!b.enemy_knight_at(color, p));
                    }
                }
            },
        }
    }
}


/// A guard of the king with an enemy figure behind it that pins it: moving it off the line
/// from the king opens that line, and the king is in check.
proof fn lemma_pinned_off_line(b: Board, color: PlayerColor, pos: (u8, u8), t: (u8, u8))
    requires
        b.has_king(color),
        one_king(b, color),
        b.busy_tiles(color).contains(pos),
        pos != b.king_pos(color),
        on_board(t),
        !owned_by(b.at(t), color),
        b.guards_upto(color, b.king_pos(color), 8).dom().contains(pos),
        pin_behind(b, color, pos, b.guards_upto(color, b.king_pos(color), 8)[pos]),
        relative_position(b.king_pos(color), t) != b.guards_upto(color, b.king_pos(color), 8)[pos],
    ensures
        b.move_fig(pos, t).in_check(color),
{
    broadcast use lemma_put_cell;

    let k = b.king_pos(color);
    let b2 = b.move_fig(pos, t);
    lemma_single_king_first(b, color);
    lemma_king_stays(b, color, pos, t);
    lemma_guards_entries(b, color, k, 8);
    let d = b.guards_upto(color, k, 8)[pos];
    // `pos` stands first on the ray from the king.
    let inner = tiles_in_direction(k, d, 1, 7);
    let tiles = tiles_in_direction(k, d, 0, 8);
    lemma_first_fig_index(b, inner);
    let jp = choose|j: int|
        0 <= j < inner.len() && b.first_fig(inner) == Some((b.at(inner[j]).unwrap(), inner[j].0, inner[j].1))
            && b.at(inner[j]).is_some() && (forall|i: int| 0 <= i < j ==> b.at(#[trigger] inner[i]).is_none());
    lemma_inner_ray(k, d);
    assert(inner[jp] == tiles[jp]);
    assert(tiles[jp] == ray_tile(k, d, jp));
    assert(ray_tile(k, d, jp) == pos);
    // The pinning figure stands first behind it.
    let from_pos = tiles_in_direction(pos, d, 0, 8);
    lemma_first_fig_index(b, from_pos);
    let jx = choose|j: int|
        0 <= j < from_pos.len() && b.first_fig(from_pos) == Some((b.at(from_pos[j]).unwrap(), from_pos[j].0, from_pos[j].1))
            && b.at(from_pos[j]).is_some() && (forall|i: int| 0 <= i < j ==> b.at(#[trigger] from_pos[i]).is_none());
    lemma_ray_shift_back(k, d, jp, jx);
    let j2 = jp + 1 + jx;
    let x = ray_tile(k, d, j2);
    assert(from_pos[jx] == x);
    lemma_ray_on_board(k, d, 0, 8, j2);
    lemma_ray_tile_relative(k, d, 0, 8, j2);
    assert(x != t);
    lemma_ray_distinct(k, d, jp, j2);
    lemma_move_fig_elsewhere(b, pos, t, x);
    // After the move the tiles before it are empty.
    assert forall|i: int| 0 <= i < j2 implies b2.at(#[trigger] tiles[i]).is_none() by {
        assert(tiles[i] == ray_tile(k, d, i));
        lemma_ray_on_board(k, d, 0, 8, i);
        lemma_ray_tile_relative(k, d, 0, 8, i);
        if i < jp {
            assert(inner[i] == tiles[i]);
            lemma_ray_distinct(k, d, i, jp);
            lemma_move_fig_elsewhere(b, pos, t, tiles[i]);
        } else if i > jp {
            lemma_ray_shift_back(k, d, jp, i - jp - 1);
            assert(from_pos[i - jp - 1] == tiles[i]);
            lemma_ray_distinct(k, d, i, jp);
            lemma_move_fig_elsewhere(b, pos, t, tiles[i]);
        }
    }
    assert(tiles[j2] == x);
    lemma_first_fig_at(b2, tiles, j2);
    assert(b2.ray_threat(k, color, d));
    lemma_straight_dir_index(d);
}

/// The generator drops only moves that are not legal: every move of a figure of `color`
/// after which the own king is not in check (and, for the king, that does not step next to
/// the other king) is kept.
pub proof fn lemma_legal_moves_kept(b: Board, color: PlayerColor, threat: Option<(u8, u8)>, pos: (u8, u8), t: (u8, u8))
    requires
        b.has_king(color),
        one_king(b, color),
        valid_threat(b, color, threat),
        b.busy_tiles(color).contains(pos),
        naive_targets(b, pos, b.at(pos).unwrap().fig_type, color).contains(t),
        !b.move_fig(pos, t).in_check(color),
        b.at(pos).unwrap().fig_type == FigType::King ==> !adjacent(t, b.king_pos(opponent(color))),
    ensures
        smart_targets(b, color, threat, pos).contains(t),
{
    let k = b.king_pos(color);
    let f = b.at(pos).unwrap();
    lemma_naive_targets_not_own(b, pos, f, t);
    crate::game_logic::board_logic::lemma_guards_exclude_king(b, color, k, 8);
    if pos != k {
        lemma_king_stays(b, color, pos, t);
        match threat {
            Some(tp) => {
                if !stopper_tiles(b, k, tp).contains(t) {
                    lemma_check_persists(b, color, tp, pos, t);
                }
            },
            None => {
                let guards = b.guards_upto(color, k, 8);
                if guards.dom().contains(pos) && pin_behind(b, color, pos, guards[pos]) {
                    if relative_position(k, t) != guards[pos] {
                        lemma_pinned_off_line(b, color, pos, t);
                    }
                }
            },
        }
    }
}


/// The generator keeps exactly the legal moves of each figure: those after which the own
/// king is not in check and, for the king, that do not step next to the other king.
pub proof fn lemma_smart_targets_exact(b: Board, color: PlayerColor, threat: Option<(u8, u8)>, pos: (u8, u8))
    requires
        b.has_king(color),
        one_king(b, color),
        valid_threat(b, color, threat),
        b.busy_tiles(color).contains(pos),
    ensures
        smart_targets(b, color, threat, pos) == safe_targets(
            b,
            pos,
            naive_targets(b, pos, b.at(pos).unwrap().fig_type, color),
            color,
            b.at(pos).unwrap().fig_type == FigType::King,
        ),
{
    let f = b.at(pos).unwrap();
    let naive = naive_targets(b, pos, f.fig_type, color);
    let legal = safe_targets(b, pos, naive, color, f.fig_type == FigType::King);
    let kept = smart_targets(b, color, threat, pos);
    lemma_single_king_first(b, color);
    crate::game_logic::board_logic::lemma_guards_exclude_king(b, color, b.king_pos(color), 8);
    assert forall|t: (u8, u8)| kept.contains(t) <==> legal.contains(t) by {
        if kept.contains(t) {
            lemma_kept_moves_legal(b, color, threat, pos, t);
            if pos != b.king_pos(color) {
                if is_king_of(b.at(pos), color) {
                    assert(pos.0 == b.king_pos(color).0 && pos.1 == b.king_pos(color).1);
                }
            }
        }
        if legal.contains(t) {
            lemma_legal_moves_kept(b, color, threat, pos, t);
        }
    }
    assert(kept =~= legal);
}


/// Whether at most one tile of the board holds a king of `color` (see `one_king`).
pub fn single_king(board: &Board, color: PlayerColor) -> (b: bool)
    ensures
        b == one_king(*board, color),
{
    if !board.has_king_of(color) {
        return true;
    }
    let k = board.get_king_position(color);
    let mut r: u8 = 0;
    while r < 8
        invariant
            r <= 8,
            on_board(k),
            is_king_of(board.at(k), color),
            forall|rr: int, cc: int|
                0 <= rr < r && 0 <= cc < 8 && is_king_of(#[trigger] board.cell(rr, cc), color) ==> rr == k.0 && cc == k.1,
        decreases 8 - r,
    {
        let mut c: u8 = 0;
        while c < 8
            invariant
                r < 8,
                c <= 8,
                on_board(k),
                is_king_of(board.at(k), color),
                forall|rr: int, cc: int|
                    0 <= rr < r && 0 <= cc < 8 && is_king_of(#[trigger] board.cell(rr, cc), color) ==> rr == k.0 && cc == k.1,
                forall|cc: int| 0 <= cc < c && is_king_of(#[trigger] board.cell(r as int, cc), color) ==> r == k.0 && cc == k.1,
            decreases 8 - c,
        {
            match board.get_fig_on_tile(r, c) {
                Some(fig) => {
                    if fig.player_color == color && fig.fig_type == FigType::King && (r != k.0 || c != k.1) {
                        assert(is_king_of(board.cell(r as int, c as int), color));
                        assert(is_king_of(board.cell(k.0 as int, k.1 as int), color));
                        return false;
                    }
                },
                None => {},
            }
            c = c + 1;
        }
        r = r + 1;
    }
    true
}

/// Walking back from the `kt`-th tile of a ray towards its start is walking the ray in the
/// opposite direction.
proof fn lemma_ray_reverse(s: (u8, u8), d: Direction, kt: int, i: int)
    requires
        on_board(s),
        is_straight_dir(d),
        0 <= kt < ray_len(s, d, 0, 8),
        0 <= i <= kt,
    ensures
        i < ray_len(ray_tile(s, d, kt), opposite_dir(d), 0, 8),
        ray_tile(ray_tile(s, d, kt), opposite_dir(d), i) == (if i < kt {
            ray_tile(s, d, kt - 1 - i)
        } else {
            s
        }),
{
    lemma_ray_on_board(s, d, 0, 8, kt);
    if i < kt {
        lemma_ray_on_board(s, d, 0, 8, kt - 1 - i);
    }
}

/// A sliding figure that reaches the king along `d` from `pos` checks it: seen from the
/// king, it stands first in the opposite direction.
proof fn lemma_slide_attack_is_check(b: Board, color: PlayerColor, pos: (u8, u8), f: Figure, d: Direction)
    requires
        b.has_king(color),
        one_king(b, color),
        on_board(pos),
        b.at(pos) == Some(f),
        f.player_color == opponent(color),
        is_straight_dir(d),
        slide_dir(b, f.player_color, pos, d).contains(b.king_pos(color)),
        is_rank_dir(d) ==> is_rank_threat(f.fig_type),
        is_diag_dir(d) ==> is_diag_threat(f.fig_type),
    ensures
        b.in_check(color),
{
    let k = b.king_pos(color);
    lemma_single_king_first(b, color);
    let tiles = tiles_in_direction(pos, d, 0, 8);
    lemma_slide_targets(b, f.player_color, tiles, k);
    let kt = choose|kt: int| 0 <= kt < tiles.len() && tiles[kt] == k;
    assert(ray_tile(pos, d, kt) == k);
    lemma_slide_dir_prefix(b, f.player_color, pos, d, d, kt);
    let od = opposite_dir(d);
    let back = tiles_in_direction(k, od, 0, 8);
    assert forall|i: int| 0 <= i < kt implies b.at(#[trigger] back[i]).is_none() by {
        lemma_ray_reverse(pos, d, kt, i);
        assert(back[i] == ray_tile(pos, d, kt - 1 - i));
    }
    lemma_ray_reverse(pos, d, kt, kt);
    assert(back[kt] == pos);
    lemma_first_fig_at(b, back, kt);
    assert(b.ray_threat(k, color, od));
    lemma_straight_dir_index(od);
}

/// Check detection misses no attack but a king's: when a figure of the other player other
/// than its king can move onto the king's tile, the king is in check.
pub proof fn lemma_attack_is_check(b: Board, color: PlayerColor, pos: (u8, u8))
    requires
        b.has_king(color),
        one_king(b, color),
        on_board(pos),
        owned_by(b.at(pos), opponent(color)),
        b.at(pos).unwrap().fig_type != FigType::King,
        naive_targets(b, pos, b.at(pos).unwrap().fig_type, opponent(color)).contains(b.king_pos(color)),
    ensures
        b.in_check(color),
{
    let k = b.king_pos(color);
    let f = b.at(pos).unwrap();
    let c = f.player_color;
    lemma_single_king_first(b, color);
    match f.fig_type {
        FigType::Knight => {
            crate::utils::lemma_knights_reach_symmetric(pos, k);
            assert(b.enemy_knight_at(color, pos));
        },
        FigType::Pawn => {
            lemma_naive_targets_not_own(b, pos, f, k);
            let d = relative_position(k, pos);
            assert(is_diag_dir(d));
            assert(ray_tile(k, d, 0) == pos);
            let back = tiles_in_direction(k, d, 0, 8);
            assert(back[0] == pos);
            lemma_first_fig_at(b, back, 0);
            assert(b.ray_threat(k, color, d));
            lemma_straight_dir_index(d);
        },
        FigType::Rook => {
            if slide_dir(b, c, pos, Direction::A).contains(k) {
                lemma_slide_attack_is_check(b, color, pos, f, Direction::A);
            } else if slide_dir(b, c, pos, Direction::B).contains(k) {
                lemma_slide_attack_is_check(b, color, pos, f, Direction::B);
            } else if slide_dir(b, c, pos, Direction::R).contains(k) {
                lemma_slide_attack_is_check(b, color, pos, f, Direction::R);
            } else {
                lemma_slide_attack_is_check(b, color, pos, f, Direction::L);
            }
        },
        FigType::Bishop => {
            if slide_dir(b, c, pos, Direction::AR).contains(k) {
                lemma_slide_attack_is_check(b, color, pos, f, Direction::AR);
            } else if slide_dir(b, c, pos, Direction::BL).contains(k) {
                lemma_slide_attack_is_check(b, color, pos, f, Direction::BL);
            } else if slide_dir(b, c, pos, Direction::AL).contains(k) {
                lemma_slide_attack_is_check(b, color, pos, f, Direction::AL);
            } else {
                lemma_slide_attack_is_check(b, color, pos, f, Direction::BR);
            }
        },
        FigType::Queen => {
            if slide_dir(b, c, pos, Direction::A).contains(k) {
                lemma_slide_attack_is_check(b, color, pos, f, Direction::A);
            } else if slide_dir(b, c, pos, Direction::B).contains(k) {
                lemma_slide_attack_is_check(b, color, pos, f, Direction::B);
            } else if slide_dir(b, c, pos, Direction::R).contains(k) {
                lemma_slide_attack_is_check(b, color, pos, f, Direction::R);
            } else if slide_dir(b, c, pos, Direction::L).contains(k) {
                lemma_slide_attack_is_check(b, color, pos, f, Direction::L);
            } else if slide_dir(b, c, pos, Direction::AR).contains(k) {
                lemma_slide_attack_is_check(b, color, pos, f, Direction::AR);
            } else if slide_dir(b, c, pos, Direction::BL).contains(k) {
                lemma_slide_attack_is_check(b, color, pos, f, Direction::BL);
            } else if slide_dir(b, c, pos, Direction::AL).contains(k) {
                lemma_slide_attack_is_check(b, color, pos, f, Direction::AL);
            } else {
                lemma_slide_attack_is_check(b, color, pos, f, Direction::BR);
            }
        },
        FigType::King => {},
    }
}

/// The board `bp` is `b` with at most an own figure other than the king added on the empty
/// tile `x`.
pub open spec fn with_own_blocker(bp: Board, b: Board, x: (u8, u8), color: PlayerColor) -> bool {
    &&& on_board(x)
    &&& b.at(x).is_none()
    &&& bp.at(x).is_none() || (owned_by(bp.at(x), color) && !is_king_of(bp.at(x), color))
    &&& forall|r: int, c: int|
        0 <= r < 8 && 0 <= c < 8 && !(r == x.0 && c == x.1) ==> #[trigger] bp.cell(r, c) == b.cell(r, c)
}

/// Adding an own figure never puts the own king in check: a king that is not in check stays
/// out of check when an own figure other than the king is placed on an empty tile.
pub proof fn lemma_own_blocker_keeps_safe(bp: Board, b: Board, x: (u8, u8), color: PlayerColor)
    requires
        with_own_blocker(bp, b, x, color),
        b.has_king(color),
        one_king(b, color),
        !b.in_check(color),
    ensures
        !bp.in_check(color),
{
    let k = b.king_pos(color);
    lemma_single_king_first(b, color);
    assert(k != x);
    // The two boards hold their kings on the same tiles.
    assert(bp.has_king(color)) by {
        assert(is_king_of(bp.cell(k.0 as int, k.1 as int), color));
    }
    assert(one_king(bp, color)) by {
        assert forall|r1: int, c1: int, r2: int, c2: int|
            0 <= r1 < 8 && 0 <= c1 < 8 && 0 <= r2 < 8 && 0 <= c2 < 8 && is_king_of(#[trigger] bp.cell(r1, c1), color)
                && is_king_of(#[trigger] bp.cell(r2, c2), color) implies r1 == r2 && c1 == c2 by {
            assert(is_king_of(b.cell(r1, c1), color));
            assert(is_king_of(b.cell(r2, c2), color));
        }
    }
    lemma_single_king_first(bp, color);
    let kp = bp.king_pos(color);
    assert(b.is_first_king(kp, color)) by {
        assert(is_king_of(b.cell(kp.0 as int, kp.1 as int), color));
        assert forall|r: int, c: int|
            0 <= r < 8 && 0 <= c < 8 && crate::game_logic::board_logic::before_in_scan((r, c), kp)
                implies !is_king_of(#[trigger] b.cell(r, c), color) by {
            assert(!is_king_of(bp.cell(r, c), color));
        }
    }
    crate::game_logic::board_logic::lemma_first_king_unique(b, kp, k, color);
    // No ray gains a threat.
    assert forall|i: int| 0 <= i < 8 implies !bp.ray_threat(k, color, #[trigger] straight_dirs()[i]) by {
        let d = straight_dirs()[i];
        assert(!b.ray_threat(k, color, d));
        let tiles = tiles_in_direction(k, d, 0, 8);
        if bp.ray_threat(k, color, d) {
            lemma_first_fig_index(bp, tiles);
            let j = choose|j: int|
                0 <= j < tiles.len() && bp.first_fig(tiles) == Some((bp.at(tiles[j]).unwrap(), tiles[j].0, tiles[j].1))
                    && bp.at(tiles[j]).is_some() && (forall|i: int| 0 <= i < j ==> bp.at(#[trigger] tiles[i]).is_none());
            lemma_ray_on_board(k, d, 0, 8, j);
            assert(tiles[j] != x);
            assert forall|m: int| 0 <= m < j implies b.at(#[trigger] tiles[m]).is_none() by {
                lemma_ray_on_board(k, d, 0, 8, m);
                assert(bp.at(tiles[m]).is_none());
            }
            assert(b.at(tiles[j]) == bp.at(tiles[j]));
            lemma_first_fig_at(b, tiles, j);
            lemma_pawn_capture_stable(bp, b, tiles[j], k, bp.at(tiles[j]).unwrap().player_color);
        }
    }
    // No knight gains a reach.
    assert forall|p: (u8, u8)| #[trigger] knight_cands(k).contains(p) implies !bp.enemy_knight_at(color, p) by {
        lemma_knight_relative(k, p);
        if p != x {
            assert(bp.at(p) == b.at(p));
        }
        assert(!b.enemy_knight_at(color, p));
    }
}

/// Castling is allowed only when the king is not in check where it stands, on the tile it
/// passes, nor on the tile it castles to (two columns towards the rook), and neither tile
/// lies next to the other king.
pub proof fn lemma_castling_lands_safe(tr: RochadeTracker, board: Board, dir: Direction)
    requires
        dir == Direction::L || dir == Direction::R,
        tr.rochade_ok(board, dir),
        board.at(king_start(tr.owner())) == Some(Figure { fig_type: FigType::King, player_color: tr.owner() }),
        one_king(board, tr.owner()),
    ensures
        !board.in_check(tr.owner()),
        !board.move_fig(king_start(tr.owner()), castle_step(king_start(tr.owner()), dir, 1)).in_check(tr.owner()),
        !board.move_fig(king_start(tr.owner()), castle_step(king_start(tr.owner()), dir, 2)).in_check(tr.owner()),
        !adjacent(castle_step(king_start(tr.owner()), dir, 1), board.king_pos(opponent(tr.owner()))),
        !adjacent(castle_step(king_start(tr.owner()), dir, 2), board.king_pos(opponent(tr.owner()))),
{
    broadcast use lemma_put_cell;

    let owner = tr.owner();
    let k = king_start(owner);
    let s1 = castle_step(k, dir, 1);
    let s2 = castle_step(k, dir, 2);
    let b1 = board.move_fig(k, s1);
    let b2 = b1.move_fig(s1, s2);
    let mf = board.move_fig(k, s2);
    assert(board.has_king(owner)) by {
        assert(is_king_of(board.cell(k.0 as int, k.1 as int), owner));
    }
    lemma_single_king_first(board, owner);
    assert(board.king_pos(owner) == k) by {
        assert(board.is_first_king(k, owner)) by {
            assert forall|r: int, c: int|
                0 <= r < 8 && 0 <= c < 8 && crate::game_logic::board_logic::before_in_scan((r, c), k)
                    implies !is_king_of(#[trigger] board.cell(r, c), owner) by {
                if is_king_of(board.cell(r, c), owner) {
                    assert(is_king_of(board.cell(k.0 as int, k.1 as int), owner));
                }
            }
        }
        crate::game_logic::board_logic::lemma_first_king_unique(board, k, board.king_pos(owner), owner);
    }
    // The tile the king passes holds nothing, or an own rook.
    if board.at(s1).is_some() {
        let tiles = tiles_in_direction(k, dir, 0, 8);
        assert(tiles[0] == s1);
        assert(board.first_fig(tiles) == Some((board.at(s1).unwrap(), s1.0, s1.1)));
        if board.at(s1).unwrap().player_color != owner {
            assert(board.ray_threat(k, owner, dir));
            lemma_straight_dir_index(dir);
        }
    }
    // After the two steps the king stands on `s2`, the board with the king moved at once
    // differs from it only by the figure on `s1`.
    lemma_one_king_move(board, k, s1, owner);
    lemma_one_king_move(b1, s1, s2, owner);
    assert(is_king_of(b2.cell(s2.0 as int, s2.1 as int), owner));
    assert(with_own_blocker(mf, b2, s1, owner)) by {
        assert forall|r: int, c: int|
            0 <= r < 8 && 0 <= c < 8 && !(r == s1.0 && c == s1.1) implies #[trigger] mf.cell(r, c) == b2.cell(r, c) by {}
    }
    lemma_own_blocker_keeps_safe(mf, b2, s1, owner);
}
} // verus!
