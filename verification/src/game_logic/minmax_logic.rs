//! Minimax search with alpha-beta pruning over the moves of `calculate_all`.
use vstd::prelude::*;

use crate::game_logic::board_logic::{board_after, Board};
use crate::game_logic::game_heuristics::{
    board_sum, lemma_board_sum_negated, lemma_board_sum_one_cell, row_sum, rows_sum,
};
use crate::game_logic::board_logic::{lemma_circle_threat_iff_in_check, update_defined};
use crate::game_logic::check_rules::{
    lemma_one_king_after, lemma_single_king_first, lemma_smart_targets_any_threat, one_king,
    single_king,
};
use crate::game_logic::movement_logic::{
    calculate_all, castling_decidable, chess_move_of, move_list, lemma_naive_targets_not_own, listed_move, lists_moves,
    naive_targets, rochade_decidable, rochade_moves, smart_targets, valid_threat, ChessMove,
    MoveType,
};
use crate::game_logic::PossibleMoves;
use crate::utils::core_types::{on_board, opponent, FigType, Figure, PlayerColor};

verus! {

/// Result of a search: the value reached and the best move found, if any.
#[derive(Debug, Clone, Copy)]
pub struct MinMaxData {
    pub value: i16,
    pub max_move: Option<ChessMove>,
}

impl MinMaxData {
    pub fn new_val(val: i16) -> (d: MinMaxData)
        ensures
            d.value == val,
            d.max_move.is_none(),
    {
        MinMaxData { value: val, max_move: None }
    }
}

/// Material value of a figure type in the search (the king does not count, as it is never
/// captured).
pub open spec fn search_value(t: FigType) -> int {
    match t {
        FigType::Pawn => 1,
        FigType::Rook => 5,
        FigType::Queen => 8,
        FigType::Bishop => 3,
        FigType::Knight => 3,
        FigType::King => 0,
    }
}

/// Search value of the figure on row `r`, column `c` as seen by `maximizer`.
pub open spec fn search_cell(b: Board, maximizer: PlayerColor, r: int, c: int) -> int {
    match b.cell(r, c) {
        Some(f) => if f.player_color == maximizer {
            search_value(f.fig_type)
        } else {
            -search_value(f.fig_type)
        },
        None => 0,
    }
}

/// Material balance of the board for `maximizer` as the search counts it.
pub open spec fn search_balance(b: Board, maximizer: PlayerColor) -> int {
    board_sum(|r: int, c: int| search_cell(b, maximizer, r, c))
}

/// The search balance is zero-sum: the value of a board for one player is the negated value
/// for the other.
pub proof fn lemma_search_balance_zero_sum(b: Board)
    ensures
        search_balance(b, PlayerColor::White) == -search_balance(b, PlayerColor::Black),
{
    let f = |r: int, c: int| search_cell(b, PlayerColor::White, r, c);
    let g = |r: int, c: int| search_cell(b, PlayerColor::Black, r, c);
    assert forall|r: int, c: int| #[trigger] f(r, c) == -g(r, c) by {}
    lemma_board_sum_negated(f, g);
}

/// Placing a figure on an empty tile changes the search's material balance by its value in
/// pawns: pawn 1, knight 3, bishop 3, rook 5, queen 8, king 0 (kings are never taken), added
/// for the maximizer's own figures and subtracted for the other player's.
pub proof fn lemma_search_value_of_added_figure(b: Board, t: (u8, u8), f: Figure, maximizer: PlayerColor)
    requires
        on_board(t),
        b.at(t).is_none(),
    ensures
        search_balance(b.put(t, Some(f)), maximizer) == search_balance(b, maximizer) + (if f.player_color
            == maximizer {
            1int
        } else {
            -1int
        }) * (match f.fig_type {
            FigType::Pawn => 1int,
            FigType::Knight => 3int,
            FigType::Bishop => 3int,
            FigType::Rook => 5int,
            FigType::Queen => 8int,
            FigType::King => 0int,
        }),
{
    broadcast use crate::game_logic::board_logic::lemma_put_cell;

    let b2 = b.put(t, Some(f));
    let g2 = |r: int, c: int| search_cell(b2, maximizer, r, c);
    let g1 = |r: int, c: int| search_cell(b, maximizer, r, c);
    assert forall|r: int, c: int| 0 <= r < 8 && 0 <= c < 8 && !(r == t.0 && c == t.1) implies #[trigger] g2(r, c) == g1(r, c) by {}
    lemma_board_sum_one_cell(g2, g1, t.0 as int, t.1 as int);
}

fn search_material(t: FigType) -> (v: i16)
    ensures
        v == search_value(t),
{
    match t {
        FigType::Pawn => 1,
        FigType::Rook => 5,
        FigType::Queen => 8,
        FigType::Bishop => 3,
        FigType::Knight => 3,
        FigType::King => 0,  // King does not matter as it is never hit
    }
}

/// Material balance of the board for `maximizer`: own figures count positive, the other
/// player's negative.
pub fn evaluate_board(board: &Board, maximizer: &PlayerColor) -> (v: i16)
    ensures
        v == search_balance(*board, *maximizer),
{
    let ghost cell = |r: int, c: int| search_cell(*board, *maximizer, r, c);
    let mut sum: i16 = 0;
    let mut r: u8 = 0;
    while r < 8
        invariant
            r <= 8,
            cell == (|r: int, c: int| search_cell(*board, *maximizer, r, c)),
            sum == rows_sum(cell, r as int),
            -64 * (r as int) <= sum <= 64 * (r as int),
        decreases 8 - r,
    {
        let mut c: u8 = 0;
        while c < 8
            invariant
                r < 8,
                c <= 8,
                cell == (|r: int, c: int| search_cell(*board, *maximizer, r, c)),
                sum == rows_sum(cell, r as int) + row_sum(cell, r as int, c as int),
                -64 * (r as int) - 8 * (c as int) <= sum <= 64 * (r as int) + 8 * (c as int),
            decreases 8 - c,
        {
            if let Some(fig) = board.get_fig_on_tile(r, c) {
                let score = search_material(fig.fig_type);
                if fig.player_color == *maximizer {
                    sum = sum + score;
                } else {
                    sum = sum - score;
                }
            }
            c = c + 1;
        }
        r = r + 1;
    }
    sum
}

/// The computer starts searching a move when it is its turn (it plays the color that the
/// human does not) and no search for the current move has been started yet.
pub fn search_due(player_turn: PlayerColor, human: PlayerColor, search_started: bool) -> (b: bool)
    ensures
        b == (player_turn == opponent(human) && !search_started),
{
    let maximizer = human.other_player();
    player_turn == maximizer && !search_started
}

/// `mv` is a move that `calculate_all` may list for `player`: one of the kept moves of a
/// figure (for some figure that checks the king, if any), or an allowed castling move.
pub open spec fn generable(b: Board, player: PlayerColor, mv: ChessMove) -> bool {
    (exists|lists: Seq<PossibleMoves>, threat: Option<(u8, u8)>|
        #![trigger valid_threat(b, player, threat), listed_move(b, lists, mv)]
        valid_threat(b, player, threat) && lists_moves(lists, b, player, threat) && listed_move(b, lists, mv))
        || rochade_moves(b, player).contains(mv)
}

/// A search of `depth` plies from `b` with `player` to move can be made: on every board it
/// reaches, both kings stand and castling can be decided for the player to move.
pub open spec fn search_ok(b: Board, player: PlayerColor, depth: nat) -> bool
    decreases depth,
{
    &&& b.has_king(player)
    &&& b.has_king(opponent(player))
    &&& rochade_decidable(b, player)
    &&& depth > 0 ==> forall|mv: ChessMove|
        #[trigger] generable(b, player, mv) ==> search_ok(board_after(b, mv, player), opponent(player), (depth - 1) as nat)
}

/// A move that the generator may list can be played on the board.
pub proof fn lemma_generable_update_defined(b: Board, player: PlayerColor, mv: ChessMove)
    requires
        generable(b, player, mv),
    ensures
        update_defined(b, mv),
{
    lemma_generable_moves_own(b, player, mv);
}

/// A move that the generator may list can be played on the board, and a promotion moves a
/// pawn of the player.
pub proof fn lemma_generable_moves_own(b: Board, player: PlayerColor, mv: ChessMove)
    requires
        generable(b, player, mv),
    ensures
        update_defined(b, mv),
        mv.move_type == MoveType::Promoting ==> (b.at(mv.from_tile) matches Some(f) && f.fig_type
            == FigType::Pawn && f.player_color == player),
{
    if rochade_moves(b, player).contains(mv) {
        let k = choose|k: int| 0 <= k < rochade_moves(b, player).len() && rochade_moves(b, player)[k] == mv;
    } else {
        let (lists, threat) = choose|lists: Seq<PossibleMoves>, threat: Option<(u8, u8)>|
            #![trigger valid_threat(b, player, threat), listed_move(b, lists, mv)]
            valid_threat(b, player, threat) && lists_moves(lists, b, player, threat) && listed_move(b, lists, mv);
        let (i, j) = choose|i: int, j: int|
            0 <= i < lists.len() && 0 <= j < lists[i].to.len() && mv == chess_move_of(
                b,
                lists[i].from_tile,
                #[trigger] lists[i].to@[j],
            );
        let p = lists[i].from_tile;
        let t = lists[i].to@[j];
        assert(b.busy_tiles(player).contains(p));
        assert(lists[i].to@.to_set().contains(t));
        assert(smart_targets(b, player, threat, p).contains(t));
        let f = b.at(p).unwrap();
        assert(naive_targets(b, p, f.fig_type, f.player_color).contains(t));
        lemma_naive_targets_not_own(b, p, f, t);
    }
}

/// The moves `calculate_all` lists are generable, and an empty list means there is none.
proof fn lemma_listed_generable(b: Board, player: PlayerColor, res: Seq<ChessMove>)
    requires
        move_list(b, player, res),
    ensures
        forall|k: int| 0 <= k < res.len() ==> generable(b, player, #[trigger] res[k]),
{
    let (lists, threat) = choose|lists: Seq<PossibleMoves>, threat: Option<(u8, u8)>|
        valid_threat(b, player, threat) && lists_moves(lists, b, player, threat) && {
            let n = (res.len() - rochade_moves(b, player).len()) as int;
            &&& n >= 0
            &&& res.skip(n) == rochade_moves(b, player)
            &&& forall|k: int| 0 <= k < n ==> listed_move(b, lists, #[trigger] res[k])
            &&& forall|mv: ChessMove| listed_move(b, lists, mv) ==> res.take(n).contains(mv)
        };
    let n = (res.len() - rochade_moves(b, player).len()) as int;
    assert forall|k: int| 0 <= k < res.len() implies generable(b, player, #[trigger] res[k]) by {
        if k < n {
            assert(listed_move(b, lists, res[k]));
        } else {
            assert(res.skip(n)[k - n] == res[k]);
            assert(rochade_moves(b, player)[k - n] == res[k]);
        }
    }
}

/// The index of a move kind among the six kinds.
pub open spec fn move_type_index(t: MoveType) -> int {
    match t {
        MoveType::Norm => 0,
        MoveType::DoublePawn => 1,
        MoveType::Promoting => 2,
        MoveType::Passing => 3,
        MoveType::RochadeLeft => 4,
        MoveType::RochadeRight => 5,
    }
}

/// The move kind with index `k` (see `move_type_index`).
pub open spec fn move_type_at(k: int) -> MoveType {
    if k == 0 {
        MoveType::Norm
    } else if k == 1 {
        MoveType::DoublePawn
    } else if k == 2 {
        MoveType::Promoting
    } else if k == 3 {
        MoveType::Passing
    } else if k == 4 {
        MoveType::RochadeLeft
    } else {
        MoveType::RochadeRight
    }
}

/// The move with index `i` when all moves between tiles of the board are numbered by source
/// tile, target tile and kind.
pub open spec fn move_at(i: int) -> ChessMove {
    let from = i / 384;
    let to = (i % 384) / 6;
    ChessMove {
        from_tile: ((from / 8) as u8, (from % 8) as u8),
        to_tile: ((to / 8) as u8, (to % 8) as u8),
        move_type: move_type_at(i % 6),
    }
}

/// The index of a move between tiles of the board (see `move_at`).
pub open spec fn move_index(mv: ChessMove) -> int {
    ((mv.from_tile.0 * 8 + mv.from_tile.1) * 64 + mv.to_tile.0 * 8 + mv.to_tile.1) * 6
        + move_type_index(mv.move_type)
}

/// All moves between tiles of the board, each once.
pub open spec fn all_moves() -> Seq<ChessMove> {
    Seq::new(24576, |i: int| move_at(i))
}

/// The moves the generator may list for `player`, in the order of `all_moves`.
pub open spec fn generable_moves(b: Board, player: PlayerColor) -> Seq<ChessMove> {
    all_moves().filter(|mv: ChessMove| generable(b, player, mv))
}

/// The highest of the values in `s` (for a nonempty `s`).
pub open spec fn seq_max(s: Seq<int>) -> int
    decreases s.len(),
{
    if s.len() <= 1 {
        s[0]
    } else {
        let m = seq_max(s.drop_last());
        if s.last() > m {
            s.last()
        } else {
            m
        }
    }
}

/// The lowest of the values in `s` (for a nonempty `s`).
pub open spec fn seq_min(s: Seq<int>) -> int
    decreases s.len(),
{
    if s.len() <= 1 {
        s[0]
    } else {
        let m = seq_min(s.drop_last());
        if s.last() < m {
            s.last()
        } else {
            m
        }
    }
}

/// The value of the game for `player` to move when the search looks `depth` moves ahead,
/// as the maximizing side: the lowest value when `player` has no move, the search balance at
/// depth 0, and otherwise the highest value of `min_value` after any of the moves.
pub open spec fn max_value(b: Board, player: PlayerColor, depth: nat) -> int
    decreases depth, 1nat,
{
    let g = generable_moves(b, player);
    if g.len() == 0 {
        i16::MIN as int
    } else if depth == 0 {
        search_balance(b, player)
    } else {
        seq_max(max_replies(b, player, depth, g))
    }
}

/// The values of `min_value` after each of the moves in `moves` (for `depth` > 0).
pub open spec fn max_replies(b: Board, player: PlayerColor, depth: nat, moves: Seq<ChessMove>) -> Seq<int>
    decreases depth, 0nat,
{
    if depth == 0 {
        Seq::empty()
    } else {
        moves.map_values(
            |mv: ChessMove| min_value(board_after(b, mv, player), opponent(player), (depth - 1) as nat),
        )
    }
}

/// The value of the game for the opponent of `player`, with `player` to move, when the
/// search looks `depth` moves ahead, as the minimizing side: the highest value when `player`
/// has no move, the opponent's search balance at depth 0, and otherwise the lowest value of
/// `max_value` after any of the moves.
pub open spec fn min_value(b: Board, player: PlayerColor, depth: nat) -> int
    decreases depth, 1nat,
{
    let g = generable_moves(b, player);
    if g.len() == 0 {
        i16::MAX as int
    } else if depth == 0 {
        search_balance(b, opponent(player))
    } else {
        seq_min(min_replies(b, player, depth, g))
    }
}

/// The values of `max_value` after each of the moves in `moves` (for `depth` > 0).
pub open spec fn min_replies(b: Board, player: PlayerColor, depth: nat, moves: Seq<ChessMove>) -> Seq<int>
    decreases depth, 0nat,
{
    if depth == 0 {
        Seq::empty()
    } else {
        moves.map_values(
            |mv: ChessMove| max_value(board_after(b, mv, player), opponent(player), (depth - 1) as nat),
        )
    }
}

/// `r` is what an alpha-beta search with the window (`alpha`, `beta`) may report for the
/// value `v`: `v` itself inside the window, at most `alpha` below it and at least `beta`
/// above it.
pub open spec fn fail_hard(r: int, v: int, alpha: int, beta: int) -> bool {
    &&& alpha < v < beta ==> r == v
    &&& v <= alpha ==> r <= alpha
    &&& v >= beta ==> r >= beta
}

/// With one king of `player` on the board, a list of `player`'s moves holds every move the
/// generator may list, whichever checking figure it looked at.
pub proof fn lemma_generable_listed(b: Board, player: PlayerColor, res: Seq<ChessMove>, mv: ChessMove)
    requires
        b.has_king(player),
        one_king(b, player),
        move_list(b, player, res),
        generable(b, player, mv),
    ensures
        res.contains(mv),
{
    let (lists, threat) = choose|lists: Seq<PossibleMoves>, threat: Option<(u8, u8)>|
        valid_threat(b, player, threat) && lists_moves(lists, b, player, threat) && {
            let n = (res.len() - rochade_moves(b, player).len()) as int;
            &&& n >= 0
            &&& res.skip(n) == rochade_moves(b, player)
            &&& forall|k: int| 0 <= k < n ==> listed_move(b, lists, #[trigger] res[k])
            &&& forall|mv: ChessMove| listed_move(b, lists, mv) ==> res.take(n).contains(mv)
        };
    let n = (res.len() - rochade_moves(b, player).len()) as int;
    if rochade_moves(b, player).contains(mv) {
        let k = choose|k: int| 0 <= k < rochade_moves(b, player).len() && rochade_moves(b, player)[k] == mv;
        assert(res.skip(n)[k] == res[n + k]);
        assert(res[n + k] == mv);
    } else {
        let (lists2, threat2) = choose|lists: Seq<PossibleMoves>, threat: Option<(u8, u8)>|
            #![trigger valid_threat(b, player, threat), listed_move(b, lists, mv)]
            valid_threat(b, player, threat) && lists_moves(lists, b, player, threat) && listed_move(b, lists, mv);
        let (i, j) = choose|i: int, j: int|
            0 <= i < lists2.len() && 0 <= j < lists2[i].to.len() && mv == chess_move_of(
                b,
                lists2[i].from_tile,
                #[trigger] lists2[i].to@[j],
            );
        let from = lists2[i].from_tile;
        let to = lists2[i].to@[j];
        assert(b.busy_tiles(player).contains(from));
        assert(lists2[i].to@.to_set().contains(to));
        assert(smart_targets(b, player, threat2, from).contains(to));
        lemma_single_king_first(b, player);
        lemma_circle_threat_iff_in_check(b, player);
        assert(smart_targets(b, player, threat, from) == smart_targets(b, player, threat2, from)) by {
            match (threat, threat2) {
                (Some(tp), Some(tp2)) => {
                    lemma_smart_targets_any_threat(b, player, tp, tp2, from);
                },
                (Some(tp), None) => {
                    assert(b.circle_threat(player, tp));
                },
                (None, Some(tp2)) => {
                    assert(b.circle_threat(player, tp2));
                },
                (None, None) => {},
            }
        }
        assert(smart_targets(b, player, threat, from).contains(to));
        let i2 = choose|i2: int| 0 <= i2 < lists.len() && #[trigger] lists[i2].from_tile == from;
        assert(lists[i2].to@.to_set().contains(to));
        let j2 = choose|j2: int| 0 <= j2 < lists[i2].to@.len() && lists[i2].to@[j2] == to;
        assert(listed_move(b, lists, mv));
        let k = choose|k: int| 0 <= k < res.take(n).len() && res.take(n)[k] == mv;
        assert(res[k] == mv);
    }
}

/// The value after `mv` at a max node: the opponent's `min_value` one move less deep.
#[verifier::opaque]
pub open spec fn reply_max(b: Board, player: PlayerColor, depth: nat, mv: ChessMove) -> int {
    min_value(board_after(b, mv, player), opponent(player), (depth - 1) as nat)
}

/// The value after `mv` at a min node: the opponent's `max_value` one move less deep.
#[verifier::opaque]
pub open spec fn reply_min(b: Board, player: PlayerColor, depth: nat, mv: ChessMove) -> int {
    max_value(board_after(b, mv, player), opponent(player), (depth - 1) as nat)
}

/// The highest `reply_max` of the first `i` moves of `moves` (for `i` >= 1).
pub open spec fn max_prefix(b: Board, player: PlayerColor, depth: nat, moves: Seq<ChessMove>, i: int) -> int
    decreases i,
{
    if i <= 1 {
        reply_max(b, player, depth, moves[0])
    } else {
        let m = max_prefix(b, player, depth, moves, i - 1);
        let r = reply_max(b, player, depth, moves[i - 1]);
        if r > m {
            r
        } else {
            m
        }
    }
}

/// The lowest `reply_min` of the first `i` moves of `moves` (for `i` >= 1).
pub open spec fn min_prefix(b: Board, player: PlayerColor, depth: nat, moves: Seq<ChessMove>, i: int) -> int
    decreases i,
{
    if i <= 1 {
        reply_min(b, player, depth, moves[0])
    } else {
        let m = min_prefix(b, player, depth, moves, i - 1);
        let r = reply_min(b, player, depth, moves[i - 1]);
        if r < m {
            r
        } else {
            m
        }
    }
}

/// The highest reply value of a prefix is one of its values and bounds all of them.
proof fn lemma_max_prefix(b: Board, player: PlayerColor, depth: nat, moves: Seq<ChessMove>, i: int)
    requires
        1 <= i <= moves.len(),
    ensures
        exists|k: int| 0 <= k < i && max_prefix(b, player, depth, moves, i) == reply_max(b, player, depth, #[trigger] moves[k]),
        forall|k: int| 0 <= k < i ==> reply_max(b, player, depth, #[trigger] moves[k]) <= max_prefix(b, player, depth, moves, i),
    decreases i,
{
    if i > 1 {
        lemma_max_prefix(b, player, depth, moves, i - 1);
        let m = max_prefix(b, player, depth, moves, i - 1);
        let r = reply_max(b, player, depth, moves[i - 1]);
        if r <= m {
            let k = choose|k: int| 0 <= k < i - 1 && m == reply_max(b, player, depth, #[trigger] moves[k]);
            assert(max_prefix(b, player, depth, moves, i) == reply_max(b, player, depth, moves[k]));
        } else {
            assert(max_prefix(b, player, depth, moves, i) == reply_max(b, player, depth, moves[i - 1]));
        }
    } else {
        assert(max_prefix(b, player, depth, moves, i) == reply_max(b, player, depth, moves[0]));
    }
}

/// The lowest reply value of a prefix is one of its values and bounds all of them from below.
proof fn lemma_min_prefix(b: Board, player: PlayerColor, depth: nat, moves: Seq<ChessMove>, i: int)
    requires
        1 <= i <= moves.len(),
    ensures
        exists|k: int| 0 <= k < i && min_prefix(b, player, depth, moves, i) == reply_min(b, player, depth, #[trigger] moves[k]),
        forall|k: int| 0 <= k < i ==> min_prefix(b, player, depth, moves, i) <= reply_min(b, player, depth, #[trigger] moves[k]),
    decreases i,
{
    if i > 1 {
        lemma_min_prefix(b, player, depth, moves, i - 1);
        let m = min_prefix(b, player, depth, moves, i - 1);
        let r = reply_min(b, player, depth, moves[i - 1]);
        if r >= m {
            let k = choose|k: int| 0 <= k < i - 1 && m == reply_min(b, player, depth, #[trigger] moves[k]);
            assert(min_prefix(b, player, depth, moves, i) == reply_min(b, player, depth, moves[k]));
        } else {
            assert(min_prefix(b, player, depth, moves, i) == reply_min(b, player, depth, moves[i - 1]));
        }
    } else {
        assert(min_prefix(b, player, depth, moves, i) == reply_min(b, player, depth, moves[0]));
    }
}

/// `moves` lists exactly the moves the generator may list for `player`.
pub open spec fn lists_generable(b: Board, player: PlayerColor, moves: Seq<ChessMove>) -> bool {
    &&& forall|k: int| 0 <= k < moves.len() ==> generable(b, player, #[trigger] moves[k])
    &&& forall|mv: ChessMove| generable(b, player, mv) ==> moves.contains(mv)
}

/// Every move between tiles of the board has its place in `all_moves`.
proof fn lemma_all_moves_contains(mv: ChessMove)
    requires
        on_board(mv.from_tile),
        on_board(mv.to_tile),
    ensures
        all_moves().contains(mv),
{
    let i = move_index(mv);
    let f = mv.from_tile.0 * 8 + mv.from_tile.1;
    let t = mv.to_tile.0 * 8 + mv.to_tile.1;
    let k = move_type_index(mv.move_type);
    assert(0 <= f < 64 && 0 <= t < 64 && 0 <= k < 6);
    assert(i == f * 384 + t * 6 + k);
    assert(i / 384 == f && (i % 384) / 6 == t && i % 6 == k) by (nonlinear_arith)
        requires
            i == f * 384 + t * 6 + k,
            0 <= f < 64,
            0 <= t < 64,
            0 <= k < 6,
    ;
    assert(f / 8 == mv.from_tile.0 && f % 8 == mv.from_tile.1) by (nonlinear_arith)
        requires
            f == mv.from_tile.0 * 8 + mv.from_tile.1,
            0 <= mv.from_tile.1 < 8,
            0 <= mv.from_tile.0 < 8,
    ;
    assert(t / 8 == mv.to_tile.0 && t % 8 == mv.to_tile.1) by (nonlinear_arith)
        requires
            t == mv.to_tile.0 * 8 + mv.to_tile.1,
            0 <= mv.to_tile.1 < 8,
            0 <= mv.to_tile.0 < 8,
    ;
    assert(move_type_at(k) == mv.move_type);
    assert(0 <= i < 24576);
    assert(all_moves()[i] == mv);
}

/// The moves the generator may list are exactly those of `generable_moves`.
proof fn lemma_generable_moves(b: Board, player: PlayerColor, mv: ChessMove)
    ensures
        generable(b, player, mv) <==> generable_moves(b, player).contains(mv),
{
    broadcast use vstd::seq_lib::group_filter_ensures;

    let pred = |m: ChessMove| generable(b, player, m);
    if generable(b, player, mv) {
        lemma_generable_update_defined(b, player, mv);
        lemma_all_moves_contains(mv);
        let i = choose|i: int| 0 <= i < all_moves().len() && all_moves()[i] == mv;
        all_moves().lemma_filter_contains(pred, i);
    }
    if generable_moves(b, player).contains(mv) {
        let i = choose|i: int| 0 <= i < generable_moves(b, player).len() && generable_moves(b, player)[i] == mv;
        all_moves().lemma_filter_pred(pred, i);
    }
}

/// The highest value of a nonempty sequence is one of its values and bounds all of them.
proof fn lemma_seq_max(s: Seq<int>)
    requires
        s.len() > 0,
    ensures
        exists|k: int| 0 <= k < s.len() && seq_max(s) == s[k],
        forall|k: int| 0 <= k < s.len() ==> s[k] <= seq_max(s),
    decreases s.len(),
{
    if s.len() > 1 {
        let rest = s.drop_last();
        lemma_seq_max(rest);
        let m = seq_max(rest);
        if s.last() <= m {
            let k = choose|k: int| 0 <= k < rest.len() && m == rest[k];
            assert(s[k] == rest[k]);
        } else {
            assert(s[s.len() - 1] == s.last());
        }
        assert forall|k: int| 0 <= k < s.len() implies s[k] <= seq_max(s) by {
            if k < s.len() - 1 {
                assert(s[k] == rest[k]);
            }
        }
    } else {
        assert(seq_max(s) == s[0]);
    }
}

/// The lowest value of a nonempty sequence is one of its values and bounds all of them from
/// below.
proof fn lemma_seq_min(s: Seq<int>)
    requires
        s.len() > 0,
    ensures
        exists|k: int| 0 <= k < s.len() && seq_min(s) == s[k],
        forall|k: int| 0 <= k < s.len() ==> seq_min(s) <= s[k],
    decreases s.len(),
{
    if s.len() > 1 {
        let rest = s.drop_last();
        lemma_seq_min(rest);
        let m = seq_min(rest);
        if s.last() >= m {
            let k = choose|k: int| 0 <= k < rest.len() && m == rest[k];
            assert(s[k] == rest[k]);
        } else {
            assert(s[s.len() - 1] == s.last());
        }
        assert forall|k: int| 0 <= k < s.len() implies seq_min(s) <= s[k] by {
            if k < s.len() - 1 {
                assert(s[k] == rest[k]);
            }
        }
    } else {
        assert(seq_min(s) == s[0]);
    }
}

/// Over a list of all moves, the value of a max node is the highest reply value, and bounds
/// the value after every move.
proof fn lemma_max_value_over(b: Board, player: PlayerColor, depth: nat, moves: Seq<ChessMove>)
    requires
        depth > 0,
        moves.len() > 0,
        lists_generable(b, player, moves),
    ensures
        max_value(b, player, depth) == max_prefix(b, player, depth, moves, moves.len() as int),
        forall|mv: ChessMove| #[trigger] generable(b, player, mv) ==> reply_max(b, player, depth, mv) <= max_value(b, player, depth),
{
    reveal(reply_max);
    let n = moves.len() as int;
    let g = generable_moves(b, player);
    assert(generable(b, player, moves[0]));
    lemma_generable_moves(b, player, moves[0]);
    assert(g.len() > 0);
    let vals = max_replies(b, player, depth, g);
    let v = seq_max(vals);
    assert(max_value(b, player, depth) == v);
    assert forall|k: int| 0 <= k < g.len() implies #[trigger] vals[k] == reply_max(b, player, depth, g[k]) by {}
    let f = max_prefix(b, player, depth, moves, n);
    lemma_max_prefix(b, player, depth, moves, n);
    lemma_seq_max(vals);
    let kv = choose|k: int| 0 <= k < vals.len() && v == vals[k];
    assert(vals[kv] == reply_max(b, player, depth, g[kv]));
    lemma_generable_moves(b, player, g[kv]);
    assert(moves.contains(g[kv]));
    let jv = choose|j: int| 0 <= j < n && moves[j] == g[kv];
    assert(reply_max(b, player, depth, moves[jv]) <= f);
    let kf = choose|k: int| 0 <= k < n && f == reply_max(b, player, depth, #[trigger] moves[k]);
    lemma_generable_moves(b, player, moves[kf]);
    let jf = choose|j: int| 0 <= j < g.len() && g[j] == moves[kf];
    assert(vals[jf] <= v);
    assert forall|mv: ChessMove| #[trigger] generable(b, player, mv) implies reply_max(b, player, depth, mv) <= max_value(b, player, depth) by {
        lemma_generable_moves(b, player, mv);
        let j = choose|j: int| 0 <= j < g.len() && g[j] == mv;
        assert(vals[j] <= v);
    }
}

/// Over a list of all moves, the value of a min node is the lowest reply value, and is
/// bounded by the value after every move.
proof fn lemma_min_value_over(b: Board, player: PlayerColor, depth: nat, moves: Seq<ChessMove>)
    requires
        depth > 0,
        moves.len() > 0,
        lists_generable(b, player, moves),
    ensures
        min_value(b, player, depth) == min_prefix(b, player, depth, moves, moves.len() as int),
        forall|mv: ChessMove| #[trigger] generable(b, player, mv) ==> min_value(b, player, depth) <= reply_min(b, player, depth, mv),
{
    reveal(reply_min);
    let n = moves.len() as int;
    let g = generable_moves(b, player);
    assert(generable(b, player, moves[0]));
    lemma_generable_moves(b, player, moves[0]);
    assert(g.len() > 0);
    let vals = min_replies(b, player, depth, g);
    let v = seq_min(vals);
    assert(min_value(b, player, depth) == v);
    assert forall|k: int| 0 <= k < g.len() implies #[trigger] vals[k] == reply_min(b, player, depth, g[k]) by {}
    let f = min_prefix(b, player, depth, moves, n);
    lemma_min_prefix(b, player, depth, moves, n);
    lemma_seq_min(vals);
    let kv = choose|k: int| 0 <= k < vals.len() && v == vals[k];
    assert(vals[kv] == reply_min(b, player, depth, g[kv]));
    lemma_generable_moves(b, player, g[kv]);
    assert(moves.contains(g[kv]));
    let jv = choose|j: int| 0 <= j < n && moves[j] == g[kv];
    assert(f <= reply_min(b, player, depth, moves[jv]));
    let kf = choose|k: int| 0 <= k < n && f == reply_min(b, player, depth, #[trigger] moves[k]);
    lemma_generable_moves(b, player, moves[kf]);
    let jf = choose|j: int| 0 <= j < g.len() && g[j] == moves[kf];
    assert(v <= vals[jf]);
    assert forall|mv: ChessMove| #[trigger] generable(b, player, mv) implies min_value(b, player, depth) <= reply_min(b, player, depth, mv) by {
        lemma_generable_moves(b, player, mv);
        let j = choose|j: int| 0 <= j < g.len() && g[j] == mv;
        assert(v <= vals[j]);
    }
}

/// With one king of `player`, the list of its moves lists exactly the moves the generator
/// may list, and is empty exactly when there is none.
proof fn lemma_search_moves(b: Board, player: PlayerColor, moves: Seq<ChessMove>)
    requires
        b.has_king(player),
        one_king(b, player),
        move_list(b, player, moves),
    ensures
        lists_generable(b, player, moves),
        (generable_moves(b, player).len() == 0) == (moves.len() == 0),
{
    broadcast use vstd::seq_lib::group_filter_ensures;

    lemma_listed_generable(b, player, moves);
    assert forall|mv: ChessMove| generable(b, player, mv) implies moves.contains(mv) by {
        lemma_generable_listed(b, player, moves, mv);
    }
    let g = generable_moves(b, player);
    if moves.len() > 0 {
        lemma_generable_moves(b, player, moves[0]);
    }
    if g.len() > 0 {
        assert(g.contains(g[0]));
        lemma_generable_moves(b, player, g[0]);
        assert(moves.contains(g[0]));
    }
}

/// One step of the max loop keeps its bookkeeping: `best` is `alpha` until a reply beats it,
/// then the highest reply so far, and stays below `beta` unless the search is cut off.
proof fn lemma_max_step(i: int, best: int, alpha: int, beta: int, m_i: int, r: int, v: int, m_next: int)
    requires
        i >= 0,
        alpha < beta,
        best < beta,
        i == 0 ==> best == alpha,
        i > 0 ==> (m_i <= alpha ==> best == alpha) && (m_i > alpha ==> best == m_i) && m_i < beta,
        fail_hard(v, r, best, beta),
        m_next == (if i == 0 {
            r
        } else if r > m_i {
            r
        } else {
            m_i
        }),
    ensures
        v > best ==> (v < beta ==> r == v) && (v >= beta ==> r >= beta),
        ({
            let best2 = if v > best {
                v
            } else {
                best
            };
            best2 < beta ==> (m_next <= alpha ==> best2 == alpha) && (m_next > alpha ==> best2 == m_next)
                && m_next < beta
        }),
{
}

/// One step of the min loop keeps its bookkeeping: `best` is `beta` until a reply goes below
/// it, then the lowest reply so far, and stays above `alpha` unless the search is cut off.
proof fn lemma_min_step(i: int, best: int, alpha: int, beta: int, m_i: int, r: int, v: int, m_next: int)
    requires
        i >= 0,
        alpha < beta,
        best > alpha,
        i == 0 ==> best == beta,
        i > 0 ==> (m_i >= beta ==> best == beta) && (m_i < beta ==> best == m_i) && m_i > alpha,
        fail_hard(v, r, alpha, best),
        m_next == (if i == 0 {
            r
        } else if r < m_i {
            r
        } else {
            m_i
        }),
    ensures
        ({
            let best2 = if v < best {
                v
            } else {
                best
            };
            &&& best2 <= alpha ==> r <= alpha && best2 == v
            &&& best2 > alpha ==> (m_next >= beta ==> best2 == beta) && (m_next < beta ==> best2 == m_next)
                && m_next > alpha
        }),
{
}

/// Both players have one king at most.
pub open spec fn kings_single(b: Board) -> bool {
    one_king(b, PlayerColor::White) && one_king(b, PlayerColor::Black)
}

/// Max step of the search for `player` (alpha-beta, the maximizer's side).
/// With no move left the value is the lowest; at depth 0 it is the material balance;
/// otherwise it is at least `alpha`, and a best move is reported only when a move raised
/// the value above `alpha`. On boards with one king per player and a window with `alpha`
/// below `beta`, the value is the minimax value `max_value` as alpha-beta reports it
/// (`fail_hard`), and a reported move leads to it.
pub fn mmax(player: PlayerColor, depth: u8, board: &Board, alpha: i16, beta: i16) -> (res: MinMaxData)
    requires
        search_ok(*board, player, depth as nat),
    ensures
        (forall|mv: ChessMove| !generable(*board, player, mv)) ==> res.value == i16::MIN && res.max_move.is_none(),
        depth == 0 ==> res.max_move.is_none() && (res.value == search_balance(*board, player) || res.value == i16::MIN),
        depth > 0 ==> res.value >= alpha || res.value == i16::MIN,
        res.max_move matches Some(mv) ==> generable(*board, player, mv) && res.value > alpha,
        res.max_move.is_none() && depth > 0 ==> res.value == alpha || res.value == i16::MIN,
        kings_single(*board) && alpha < beta ==> fail_hard(
            res.value as int,
            max_value(*board, player, depth as nat),
            alpha as int,
            beta as int,
        ),
        kings_single(*board) && alpha < beta ==> (res.max_move matches Some(mv) ==> {
            let after = min_value(board_after(*board, mv, player), opponent(player), (depth - 1) as nat);
            &&& res.value < beta ==> after == res.value
            &&& res.value >= beta ==> after >= beta
        }),
    decreases depth,
{
    let maxplayer_moves = calculate_all(board, player);
    let ghost moves = maxplayer_moves@;
    let ghost single = kings_single(*board) && alpha < beta;
    proof {
        reveal(reply_max);
        lemma_listed_generable(*board, player, moves);
        if single {
            lemma_search_moves(*board, player, moves);
        }
    }
    let num_moves_left = maxplayer_moves.len();
    let mut best = alpha;

    if depth == 0 || num_moves_left == 0 {
        if num_moves_left > 0 {
            assert(generable(*board, player, maxplayer_moves@[0]));
            return MinMaxData::new_val(evaluate_board(board, &player));
        } else {
            return MinMaxData::new_val(i16::MIN);
        }
    }
    assert(generable(*board, player, maxplayer_moves@[0]));
    proof {
        if single {
            lemma_max_value_over(*board, player, depth as nat, moves);
        }
    }
    let mut max_move: Option<ChessMove> = None;
    let mut i: usize = 0;
    while i < maxplayer_moves.len()
        invariant
            i <= maxplayer_moves.len(),
            moves == maxplayer_moves@,
            moves.len() > 0,
            depth > 0,
            search_ok(*board, player, depth as nat),
            forall|k: int| 0 <= k < maxplayer_moves.len() ==> generable(*board, player, #[trigger] maxplayer_moves@[k]),
            best >= alpha,
            max_move matches Some(mv) ==> generable(*board, player, mv) && best > alpha,
            max_move.is_none() ==> best == alpha,
            single == (kings_single(*board) && alpha < beta),
            single ==> best < beta,
            single ==> lists_generable(*board, player, moves),
            single ==> max_value(*board, player, depth as nat) == max_prefix(*board, player, depth as nat, moves, moves.len() as int),
            single ==> forall|mv: ChessMove| #[trigger] generable(*board, player, mv) ==> reply_max(*board, player, depth as nat, mv) <= max_value(*board, player, depth as nat),
            single && i > 0 ==> {
                let m = max_prefix(*board, player, depth as nat, moves, i as int);
                &&& m <= alpha ==> best == alpha
                &&& m > alpha ==> best == m
                &&& m < beta
            },
            single ==> (max_move matches Some(mv) ==> reply_max(*board, player, depth as nat, mv) == best),
            i == 0 ==> max_move is None,
        decreases maxplayer_moves.len() - i,
    {
        let chess_move = maxplayer_moves[i];
        assert(generable(*board, player, maxplayer_moves@[i as int]));
        proof {
            lemma_generable_update_defined(*board, player, chess_move);
            if single {
                lemma_one_king_after(*board, chess_move, player, PlayerColor::White);
                lemma_one_king_after(*board, chess_move, player, PlayerColor::Black);
            }
        }
        let mut board_copy = *board;
        board_copy.update(&chess_move, &player);
        let ghost prev = best;
        let mmin_val = mmin(player.other_player(), depth - 1, &board_copy, best, beta);
        proof {
            if single {
                reveal(reply_max);
                let r = reply_max(*board, player, depth as nat, chess_move);
                assert(r == min_value(board_copy, opponent(player), (depth - 1) as nat));
                let m_i = if i > 0 {
                    max_prefix(*board, player, depth as nat, moves, i as int)
                } else {
                    0
                };
                let m_next = max_prefix(*board, player, depth as nat, moves, i + 1);
                assert(moves[i as int] == chess_move);
                lemma_max_step(i as int, prev as int, alpha as int, beta as int, m_i, r, mmin_val as int, m_next);
            }
        }
        if mmin_val > best {
            best = mmin_val;
            // The best move matters only at the top of the search, when the recursion is done.
            max_move = Some(chess_move);
            if best >= beta {
                proof {
                    if single {
                        let r = reply_max(*board, player, depth as nat, chess_move);
                        assert(r >= beta);
                        assert(reply_max(*board, player, depth as nat, moves[i as int]) <= max_value(*board, player, depth as nat));
                    }
                }
                return MinMaxData { value: best, max_move: max_move };
            }
        }
        i = i + 1;
    }
    MinMaxData { value: best, max_move: max_move }
}

/// Min step of the search for `player` (alpha-beta, the minimizer's side).
/// With no move left the value is the highest; at depth 0 it is the material balance for
/// the other player; otherwise it is at most `beta`. On boards with one king per player
/// and a window with `alpha` below `beta`, the value is the minimax value `min_value` as
/// alpha-beta reports it (`fail_hard`).
pub fn mmin(player: PlayerColor, depth: u8, board: &Board, alpha: i16, beta: i16) -> (v: i16)
    requires
        search_ok(*board, player, depth as nat),
    ensures
        (forall|mv: ChessMove| !generable(*board, player, mv)) ==> v == i16::MAX,
        depth == 0 ==> v == search_balance(*board, opponent(player)) || v == i16::MAX,
        depth > 0 ==> v <= beta || v == i16::MAX,
        kings_single(*board) && alpha < beta ==> fail_hard(
            v as int,
            min_value(*board, player, depth as nat),
            alpha as int,
            beta as int,
        ),
    decreases depth,
{
    let minplayer_moves = calculate_all(board, player);
    let ghost moves = minplayer_moves@;
    let ghost single = kings_single(*board) && alpha < beta;
    proof {
        reveal(reply_min);
        lemma_listed_generable(*board, player, moves);
        if single {
            lemma_search_moves(*board, player, moves);
        }
    }
    let num_moves_left = minplayer_moves.len();

    let mut best = beta;
    if depth == 0 || num_moves_left == 0 {
        if num_moves_left > 0 {
            assert(generable(*board, player, minplayer_moves@[0]));
            return evaluate_board(board, &player.other_player());
        } else {
            return i16::MAX;
        }
    }
    assert(generable(*board, player, minplayer_moves@[0]));
    proof {
        if single {
            lemma_min_value_over(*board, player, depth as nat, moves);
        }
    }
    let mut i: usize = 0;
    while i < minplayer_moves.len()
        invariant
            i <= minplayer_moves.len(),
            moves == minplayer_moves@,
            moves.len() > 0,
            depth > 0,
            search_ok(*board, player, depth as nat),
            forall|k: int| 0 <= k < minplayer_moves.len() ==> generable(*board, player, #[trigger] minplayer_moves@[k]),
            best <= beta,
            single == (kings_single(*board) && alpha < beta),
            single ==> best > alpha,
            single ==> lists_generable(*board, player, moves),
            single ==> min_value(*board, player, depth as nat) == min_prefix(*board, player, depth as nat, moves, moves.len() as int),
            single ==> forall|mv: ChessMove| #[trigger] generable(*board, player, mv) ==> min_value(*board, player, depth as nat) <= reply_min(*board, player, depth as nat, mv),
            single && i == 0 ==> best == beta,
            single && i > 0 ==> {
                let m = min_prefix(*board, player, depth as nat, moves, i as int);
                &&& m >= beta ==> best == beta
                &&& m < beta ==> best == m
                &&& m > alpha
            },
        decreases minplayer_moves.len() - i,
    {
        let chess_move = minplayer_moves[i];
        assert(generable(*board, player, minplayer_moves@[i as int]));
        proof {
            lemma_generable_update_defined(*board, player, chess_move);
            if single {
                lemma_one_king_after(*board, chess_move, player, PlayerColor::White);
                lemma_one_king_after(*board, chess_move, player, PlayerColor::Black);
            }
        }
        let mut board_copy = *board;
        board_copy.update(&chess_move, &player);
        let ghost prev = best;
        let mmax_val = mmax(player.other_player(), depth - 1, &board_copy, alpha, best).value;
        proof {
            if single {
                reveal(reply_min);
                let r = reply_min(*board, player, depth as nat, chess_move);
                assert(r == max_value(board_copy, opponent(player), (depth - 1) as nat));
                let m_i = if i > 0 {
                    min_prefix(*board, player, depth as nat, moves, i as int)
                } else {
                    0
                };
                let m_next = min_prefix(*board, player, depth as nat, moves, i + 1);
                assert(moves[i as int] == chess_move);
                lemma_min_step(i as int, prev as int, alpha as int, beta as int, m_i, r, mmax_val as int, m_next);
            }
        }
        if mmax_val < best {
            best = mmax_val;
        }
        if best <= alpha {
            proof {
                if single {
                    assert(min_value(*board, player, depth as nat) <= reply_min(*board, player, depth as nat, moves[i as int]));
                }
            }
            return best;
        }
        i = i + 1;
    }
    best
}


/// Whether `mmax` and `mmin` can search `depth` plies from `board` with `player` to move,
/// on a board with one king per player: this walks the moves of the search tree and checks
/// on every board reached that both kings stand and castling can be decided.
pub fn search_ready(board: &Board, player: PlayerColor, depth: u8) -> (r: bool)
    ensures
        r == (kings_single(*board) && search_ok(*board, player, depth as nat)),
    decreases depth,
{
    if !single_king(board, PlayerColor::White) || !single_king(board, PlayerColor::Black) {
        return false;
    }
    let other = player.other_player();
    if !board.has_king_of(player) || !board.has_king_of(other) || !castling_decidable(board, player) {
        return false;
    }
    if depth == 0 {
        return true;
    }
    let moves = calculate_all(board, player);
    proof {
        lemma_search_moves(*board, player, moves@);
    }
    let mut i: usize = 0;
    while i < moves.len()
        invariant
            i <= moves.len(),
            depth > 0,
            other == opponent(player),
            kings_single(*board),
            lists_generable(*board, player, moves@),
            forall|k: int|
                0 <= k < i ==> search_ok(board_after(*board, #[trigger] moves@[k], player), other, (depth - 1) as nat),
        decreases moves.len() - i,
    {
        let mv = moves[i];
        assert(generable(*board, player, moves@[i as int]));
        proof {
            lemma_generable_update_defined(*board, player, mv);
            lemma_one_king_after(*board, mv, player, PlayerColor::White);
            lemma_one_king_after(*board, mv, player, PlayerColor::Black);
        }
        let mut after = *board;
        after.update(&mv, &player);
        if !search_ready(&after, other, depth - 1) {
            return false;
        }
        i = i + 1;
    }
    assert forall|mv: ChessMove| #[trigger] generable(*board, player, mv) implies search_ok(
        board_after(*board, mv, player),
        other,
        (depth - 1) as nat,
    ) by {
        assert(moves@.contains(mv));
        let k = choose|k: int| 0 <= k < moves@.len() && moves@[k] == mv;
    }
    true
}
} // verus!
