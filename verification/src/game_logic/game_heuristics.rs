//! Move ratings for move ordering, and the board evaluation with piece square tables.
//!
//! The piece square tables and material values follow the Simplified Evaluation Function
//! of the Chess Programming Wiki (Tomasz Michniewski; CC BY-SA 3.0).
use vstd::prelude::*;

use crate::game_logic::board_logic::{initial_cell, is_rank_mirror, swap_color, Board};
use crate::utils::core_types::{on_board, FigType, Figure, PlayerColor};

verus! {

// +++ Move ratings follow the most valuable victim / least valuable attacker logic and are used for ordering only +++
/// Rating of a promotion, used to order promotions ahead of ordinary moves.
pub fn rate_promotion() -> (r: u8)
    ensures
        r == 50,
{
    50
}

/// Rating of the moving figure: the less valuable, the higher.
pub open spec fn moving_val(moving: FigType) -> int {
    match moving {
        FigType::King => 0,
        FigType::Queen => 1,
        FigType::Rook => 2,
        FigType::Bishop => 3,
        FigType::Knight => 4,
        FigType::Pawn => 5,
    }
}

/// Rating of the captured figure: the more valuable, the higher (a king is never captured).
pub open spec fn taken_val(taken: FigType) -> int {
    match taken {
        FigType::King => 0,
        FigType::Pawn => 10,
        FigType::Knight => 20,
        FigType::Bishop => 30,
        FigType::Rook => 40,
        FigType::Queen => 50,
    }
}

/// Rate standard_move for move ordering: 0 without a capture, otherwise the attacker's and
/// the victim's ratings added.
pub fn rate_standard_move(moving: FigType, taken: Option<FigType>) -> (r: u8)
    ensures
        r == match taken {
            None => 0,
            Some(t) => moving_val(moving) + taken_val(t),
        },
{
    let taken = match taken {
        None => {
            return 0;
        },
        Some(t) => t,
    };
    _moving_val(moving) + _taken_val(taken)
}

fn _moving_val(moving: FigType) -> (v: u8)
    ensures
        v == moving_val(moving),
{
    match moving {
        FigType::King => 0,
        FigType::Queen => 1,
        FigType::Rook => 2,
        FigType::Bishop => 3,
        FigType::Knight => 4,
        FigType::Pawn => 5,
    }
}

fn _taken_val(taken: FigType) -> (v: u8)
    ensures
        v == taken_val(taken),
{
    match taken {
        // This should never happen, but in case naive moves are used for filtering invalid
        // moves, there is no panic.
        FigType::King => 0,
        FigType::Pawn => 10,
        FigType::Knight => 20,
        FigType::Bishop => 30,
        FigType::Rook => 40,
        FigType::Queen => 50,
    }
}

/// Piece square value of figure `fig` on `tile`: the white table entry for white figures;
/// for black figures the negated entry of the tile mirrored across the middle of the board
/// (the same column on the row seen from black's side), since the tables are written for
/// white.
pub open spec fn pst_value(tile: (u8, u8), fig: Figure) -> int {
    match fig.player_color {
        PlayerColor::White => pst_entry(fig.fig_type, tile.0 as int, tile.1 as int),
        PlayerColor::Black => -pst_entry(fig.fig_type, 7 - tile.0, tile.1 as int),
    }
}

/// Piece square value of the figure on row `r`, column `c` (0 for an empty tile).
pub open spec fn pst_cell(b: Board, r: int, c: int) -> int {
    match b.cell(r, c) {
        Some(f) => pst_value((r as u8, c as u8), f),
        None => 0,
    }
}

/// Material value of a figure type.
pub open spec fn material_value(t: FigType) -> int {
    match t {
        FigType::Pawn => 100,
        FigType::Knight => 320,
        FigType::Bishop => 330,
        FigType::Rook => 500,
        FigType::Queen => 900,
        FigType::King => 20000,
    }
}

/// Material of the figure on row `r`, column `c` as seen by `maximizer`.
pub open spec fn material_cell(b: Board, maximizer: PlayerColor, r: int, c: int) -> int {
    match b.cell(r, c) {
        Some(f) => if f.player_color == maximizer {
            material_value(f.fig_type)
        } else {
            -material_value(f.fig_type)
        },
        None => 0,
    }
}

/// Sum of `cell(r, c)` over the first `n` cells of row `r`.
pub open spec fn row_sum(cell: spec_fn(int, int) -> int, r: int, n: int) -> int
    decreases n,
{
    if n <= 0 {
        0
    } else {
        row_sum(cell, r, n - 1) + cell(r, n - 1)
    }
}

/// Sum of `cell(r, c)` over the first `n` rows.
pub open spec fn rows_sum(cell: spec_fn(int, int) -> int, n: int) -> int
    decreases n,
{
    if n <= 0 {
        0
    } else {
        rows_sum(cell, n - 1) + row_sum(cell, n - 1, 8)
    }
}

/// Sum of `cell` over the board, read row by row.
pub open spec fn board_sum(cell: spec_fn(int, int) -> int) -> int {
    rows_sum(cell, 8)
}

/// Every partial sum of `cell`, read row by row, fits into an `i16`.
pub open spec fn partial_sums_fit(cell: spec_fn(int, int) -> int) -> bool {
    forall|r: int, n: int|
        0 <= r < 8 && 0 <= n <= 8 ==> i16::MIN <= #[trigger] (rows_sum(cell, r) + row_sum(cell, r, n))
            <= i16::MAX
}

/// Piece square table value of the board.
pub open spec fn spec_pst_board_val(b: Board) -> int {
    board_sum(|r: int, c: int| pst_cell(b, r, c))
}

/// Material balance of the board as seen by `maximizer`.
pub open spec fn material_balance(b: Board, maximizer: PlayerColor) -> int {
    board_sum(|r: int, c: int| material_cell(b, maximizer, r, c))
}

/// The row sums of a cell function that is the negation of another are negated.
proof fn lemma_row_sum_negated(f: spec_fn(int, int) -> int, g: spec_fn(int, int) -> int, r: int, n: int)
    requires
        forall|r: int, c: int| #[trigger] f(r, c) == -g(r, c),
    ensures
        row_sum(f, r, n) == -row_sum(g, r, n),
    decreases n,
{
    if n > 0 {
        lemma_row_sum_negated(f, g, r, n - 1);
        assert(f(r, n - 1) == -g(r, n - 1));
    }
}

/// The sums over rows of a cell function that is the negation of another are negated.
proof fn lemma_rows_sum_negated(f: spec_fn(int, int) -> int, g: spec_fn(int, int) -> int, n: int)
    requires
        forall|r: int, c: int| #[trigger] f(r, c) == -g(r, c),
    ensures
        rows_sum(f, n) == -rows_sum(g, n),
    decreases n,
{
    if n > 0 {
        lemma_rows_sum_negated(f, g, n - 1);
        lemma_row_sum_negated(f, g, n - 1, 8);
    }
}

/// Summing a negated cell function over the board gives the negated sum.
pub proof fn lemma_board_sum_negated(f: spec_fn(int, int) -> int, g: spec_fn(int, int) -> int)
    requires
        forall|r: int, c: int| #[trigger] f(r, c) == -g(r, c),
    ensures
        board_sum(f) == -board_sum(g),
{
    lemma_rows_sum_negated(f, g, 8);
}

/// Row sums of two cell functions that differ at most in column `c0` of row `r` differ by
/// the difference there.
proof fn lemma_row_sum_one_cell(f: spec_fn(int, int) -> int, g: spec_fn(int, int) -> int, r: int, c0: int, n: int)
    requires
        0 <= n <= 8,
        forall|c: int| 0 <= c < 8 && c != c0 ==> #[trigger] f(r, c) == g(r, c),
    ensures
        row_sum(f, r, n) == row_sum(g, r, n) + (if 0 <= c0 < n {
            f(r, c0) - g(r, c0)
        } else {
            0
        }),
    decreases n,
{
    if n > 0 {
        lemma_row_sum_one_cell(f, g, r, c0, n - 1);
        if n - 1 != c0 {
            assert(f(r, n - 1) == g(r, n - 1));
        }
    }
}

/// Row sums of two cell functions that agree on a row are equal.
proof fn lemma_row_sum_same(f: spec_fn(int, int) -> int, g: spec_fn(int, int) -> int, r: int, n: int)
    requires
        0 <= n <= 8,
        forall|c: int| 0 <= c < 8 ==> #[trigger] f(r, c) == g(r, c),
    ensures
        row_sum(f, r, n) == row_sum(g, r, n),
    decreases n,
{
    if n > 0 {
        lemma_row_sum_same(f, g, r, n - 1);
        assert(f(r, n - 1) == g(r, n - 1));
    }
}

/// Sums over the first `n` rows of two cell functions that differ at most on the tile
/// `(r0, c0)` differ by the difference there.
proof fn lemma_rows_sum_one_cell(f: spec_fn(int, int) -> int, g: spec_fn(int, int) -> int, r0: int, c0: int, n: int)
    requires
        0 <= n <= 8,
        0 <= r0 < 8,
        0 <= c0 < 8,
        forall|r: int, c: int| 0 <= r < 8 && 0 <= c < 8 && !(r == r0 && c == c0) ==> #[trigger] f(r, c) == g(r, c),
    ensures
        rows_sum(f, n) == rows_sum(g, n) + (if r0 < n {
            f(r0, c0) - g(r0, c0)
        } else {
            0
        }),
    decreases n,
{
    if n > 0 {
        lemma_rows_sum_one_cell(f, g, r0, c0, n - 1);
        let r = n - 1;
        if r == r0 {
            assert forall|c: int| 0 <= c < 8 && c != c0 implies #[trigger] f(r, c) == g(r, c) by {}
            lemma_row_sum_one_cell(f, g, r, c0, 8);
        } else {
            assert forall|c: int| 0 <= c < 8 implies #[trigger] f(r, c) == g(r, c) by {}
            lemma_row_sum_same(f, g, r, 8);
        }
    }
}

/// Sums over the board of two cell functions that differ at most on the tile `(r0, c0)`
/// differ by the difference there.
pub proof fn lemma_board_sum_one_cell(f: spec_fn(int, int) -> int, g: spec_fn(int, int) -> int, r0: int, c0: int)
    requires
        0 <= r0 < 8,
        0 <= c0 < 8,
        forall|r: int, c: int| 0 <= r < 8 && 0 <= c < 8 && !(r == r0 && c == c0) ==> #[trigger] f(r, c) == g(r, c),
    ensures
        board_sum(f) == board_sum(g) + f(r0, c0) - g(r0, c0),
{
    lemma_rows_sum_one_cell(f, g, r0, c0, 8);
}

/// Placing a figure on an empty tile changes the material balance by its value in the
/// Simplified Evaluation Function: pawn 100, knight 320, bishop 330, rook 500, queen 900 and
/// king 20000, added for the maximizer's own figures and subtracted for the other player's.
pub proof fn lemma_material_of_added_figure(b: Board, t: (u8, u8), f: Figure, maximizer: PlayerColor)
    requires
        on_board(t),
        b.at(t).is_none(),
    ensures
        material_balance(b.put(t, Some(f)), maximizer) == material_balance(b, maximizer) + (if f.player_color
            == maximizer {
            1int
        } else {
            -1int
        }) * (match f.fig_type {
            FigType::Pawn => 100int,
            FigType::Knight => 320int,
            FigType::Bishop => 330int,
            FigType::Rook => 500int,
            FigType::Queen => 900int,
            FigType::King => 20000int,
        }),
{
    broadcast use crate::game_logic::board_logic::lemma_put_cell;

    let b2 = b.put(t, Some(f));
    let g2 = |r: int, c: int| material_cell(b2, maximizer, r, c);
    let g1 = |r: int, c: int| material_cell(b, maximizer, r, c);
    assert forall|r: int, c: int| 0 <= r < 8 && 0 <= c < 8 && !(r == t.0 && c == t.1) implies #[trigger] g2(r, c) == g1(r, c) by {}
    lemma_board_sum_one_cell(g2, g1, t.0 as int, t.1 as int);
}

/// The material balance is zero-sum: what one player is ahead, the other is behind.
pub proof fn lemma_material_balance_zero_sum(b: Board)
    ensures
        material_balance(b, PlayerColor::White) == -material_balance(b, PlayerColor::Black),
{
    let f = |r: int, c: int| material_cell(b, PlayerColor::White, r, c);
    let g = |r: int, c: int| material_cell(b, PlayerColor::Black, r, c);
    assert forall|r: int, c: int| #[trigger] f(r, c) == -g(r, c) by {}
    lemma_board_sum_negated(f, g);
}

/// A row of `f` that is the negated reversed row of `g` sums to the negated sum.
proof fn lemma_row_sum_flipped(f: spec_fn(int, int) -> int, g: spec_fn(int, int) -> int, r: int, n: int)
    requires
        0 <= n <= 8,
        forall|c: int| 0 <= c < 8 ==> #[trigger] f(r, c) == -g(7 - r, c),
    ensures
        row_sum(f, r, n) == -row_sum(g, 7 - r, n),
    decreases n,
{
    if n > 0 {
        lemma_row_sum_flipped(f, g, r, n - 1);
        assert(f(r, n - 1) == -g(7 - r, n - 1));
    }
}

/// Seen from the other side, the piece square value of a board is negated: black's tables
/// are white's read from black's side.
pub proof fn lemma_pst_mirror(m: Board, b: Board)
    requires
        is_rank_mirror(m, b),
    ensures
        spec_pst_board_val(m) == -spec_pst_board_val(b),
{
    let f = |r: int, c: int| pst_cell(m, r, c);
    let g = |r: int, c: int| pst_cell(b, r, c);
    assert forall|r: int, c: int| 0 <= r < 8 && 0 <= c < 8 implies #[trigger] f(r, c) == -g(7 - r, c) by {
        assert(m.cell(r, c) == swap_color(b.cell(7 - r, c)));
        assert((7 - r) as u8 == 7 - r);
    }
    assert forall|r: int| 0 <= r < 8 implies #[trigger] row_sum(f, r, 8) == -row_sum(g, 7 - r, 8) by {
        assert forall|c: int| 0 <= c < 8 implies #[trigger] f(r, c) == -g(7 - r, c) by {}
        lemma_row_sum_flipped(f, g, r, 8);
    }
    assert(row_sum(f, 0, 8) == -row_sum(g, 7, 8));
    assert(row_sum(f, 1, 8) == -row_sum(g, 6, 8));
    assert(row_sum(f, 2, 8) == -row_sum(g, 5, 8));
    assert(row_sum(f, 3, 8) == -row_sum(g, 4, 8));
    assert(row_sum(f, 4, 8) == -row_sum(g, 3, 8));
    assert(row_sum(f, 5, 8) == -row_sum(g, 2, 8));
    assert(row_sum(f, 6, 8) == -row_sum(g, 1, 8));
    assert(row_sum(f, 7, 8) == -row_sum(g, 0, 8));
    reveal_with_fuel(rows_sum, 9);
}

/// The starting position looks the same from both sides.
pub proof fn lemma_initial_is_own_mirror(b: Board)
    requires
        b.is_initial(),
    ensures
        is_rank_mirror(b, b),
{
    assert forall|r: int, c: int| 0 <= r < 8 && 0 <= c < 8 implies #[trigger] b.cell(r, c) == swap_color(
        b.cell(7 - r, c),
    ) by {
        assert(b.cell(7 - r, c) == initial_cell(7 - r, c));
    }
}

/// On a board that looks the same from both sides (such as the starting position) the piece
/// square value is 0 and the evaluation is zero-sum: what one player is ahead, the other is
/// behind.
pub proof fn lemma_symmetric_evaluation(b: Board)
    requires
        is_rank_mirror(b, b),
    ensures
        spec_pst_board_val(b) == 0,
        material_balance(b, PlayerColor::White) + spec_pst_board_val(b) == -(material_balance(
            b,
            PlayerColor::Black,
        ) + spec_pst_board_val(b)),
{
    lemma_pst_mirror(b, b);
    lemma_material_balance_zero_sum(b);
}

/// Every piece square table entry lies within [-50, 50].
proof fn lemma_pst_entry_bounds(t: FigType, row: int, col: int)
    requires
        0 <= row < 8,
        0 <= col < 8,
    ensures
        -50 <= pst_entry(t, row, col) <= 50,
{
    let r = 7 - row;
    assert(0 <= r < 8);
    assert(pst_rows(t)[r].len() == 8);
    assert(-50 <= pst_rows(t)[r][col] <= 50) by {
        assert(r == 0 || r == 1 || r == 2 || r == 3 || r == 4 || r == 5 || r == 6 || r == 7);
        assert(col == 0 || col == 1 || col == 2 || col == 3 || col == 4 || col == 5 || col == 6 || col == 7);
    }
}

/// Compute the piece square table value of one piece (and its tile).
fn pst_piece_val(tile: &(u8, u8), fig: &Figure) -> (v: i16)
    requires
        on_board(*tile),
    ensures
        v == pst_value(*tile, *fig),
        -50 <= v <= 50,
{
    let (row, col, factor): (u8, u8, i16) = match fig.player_color {
        PlayerColor::White => (tile.0, tile.1, 1),
        PlayerColor::Black => (7 - tile.0, tile.1, -1),
    };
    let table = pst_table(fig.fig_type);
    let val = table[row as usize][col as usize];
    proof {
        lemma_pst_entry_bounds(fig.fig_type, row as int, col as int);
    }
    val * factor
}

/// Compute the piece square table value of the entire board.
pub fn pst_board_val(board: &Board) -> (v: i16)
    ensures
        v == spec_pst_board_val(*board),
{
    let ghost cell = |r: int, c: int| pst_cell(*board, r, c);
    let mut sum: i16 = 0;
    let mut r: u8 = 0;
    while r < 8
        invariant
            r <= 8,
            cell == (|r: int, c: int| pst_cell(*board, r, c)),
            sum == rows_sum(cell, r as int),
            -400 * (r as int) <= sum <= 400 * (r as int),
        decreases 8 - r,
    {
        let mut c: u8 = 0;
        while c < 8
            invariant
                r < 8,
                c <= 8,
                cell == (|r: int, c: int| pst_cell(*board, r, c)),
                sum == rows_sum(cell, r as int) + row_sum(cell, r as int, c as int),
                -400 * (r as int) - 50 * (c as int) <= sum <= 400 * (r as int) + 50 * (c as int),
            decreases 8 - c,
        {
            if let Some(fig) = board.get_fig_on_tile(r, c) {
                let v = pst_piece_val(&(r, c), &fig);
                sum = sum + v;
            }
            c = c + 1;
        }
        r = r + 1;
    }
    sum
}

/// Material values of a figure type.
fn material(t: FigType) -> (v: i16)
    ensures
        v == material_value(t),
{
    match t {
        FigType::Pawn => 100,
        FigType::Knight => 320,
        FigType::Bishop => 330,
        FigType::Rook => 500,
        FigType::Queen => 900,
        FigType::King => 20_000,  // The king does not matter as it is never hit
    }
}

// +++ Board evaluation and Piece Square Tables +++
/// Evaluates the board for `maximizer`: material balance (own figures count positive,
/// the other player's negative) plus the piece square table value.
pub fn evaluate_board(board: &Board, maximizer: &PlayerColor) -> (v: i16)
    requires
        partial_sums_fit(|r: int, c: int| material_cell(*board, *maximizer, r, c)),
        i16::MIN <= material_balance(*board, *maximizer) + spec_pst_board_val(*board) <= i16::MAX,
    ensures
        v == material_balance(*board, *maximizer) + spec_pst_board_val(*board),
{
    let ghost cell = |r: int, c: int| material_cell(*board, *maximizer, r, c);
    let mut sum: i16 = 0;
    let mut r: u8 = 0;
    while r < 8
        invariant
            r <= 8,
            cell == (|r: int, c: int| material_cell(*board, *maximizer, r, c)),
            partial_sums_fit(cell),
            sum == rows_sum(cell, r as int),
        decreases 8 - r,
    {
        let mut c: u8 = 0;
        while c < 8
            invariant
                r < 8,
                c <= 8,
                cell == (|r: int, c: int| material_cell(*board, *maximizer, r, c)),
                partial_sums_fit(cell),
                sum == rows_sum(cell, r as int) + row_sum(cell, r as int, c as int),
            decreases 8 - c,
        {
            if let Some(fig) = board.get_fig_on_tile(r, c) {
                let score = material(fig.fig_type);
                assert(i16::MIN <= rows_sum(cell, r as int) + row_sum(cell, r as int, c + 1) <= i16::MAX);
                if fig.player_color == *maximizer {
                    sum = sum + score;
                } else {
                    sum = sum - score;
                }
            }
            c = c + 1;
        }
        r = r + 1;
    }
    sum + pst_board_val(board)
}

/// The rows of a table in reverse order.
pub fn reverse_rows(arr: [[i16; 8]; 8]) -> (res: [[i16; 8]; 8])
    ensures
        forall|i: int| 0 <= i < 8 ==> #[trigger] res[i] == arr[7 - i],
{
    [arr[7], arr[6], arr[5], arr[4], arr[3], arr[2], arr[1], arr[0]]
}

/// The piece square tables for white, as usually printed: the first row is the eighth rank.
pub open spec fn pst_rows(t: FigType) -> Seq<Seq<int>> {
    match t {
        FigType::Pawn => seq![
            seq![0, 0, 0, 0, 0, 0, 0, 0],
            seq![50, 50, 50, 50, 50, 50, 50, 50],
            seq![10, 10, 20, 30, 30, 20, 10, 10],
            seq![5, 5, 10, 25, 25, 10, 5, 5],
            seq![0, 0, 0, 20, 20, 0, 0, 0],
            seq![5, -5, -10, 0, 0, -10, -5, 5],
            seq![5, 10, 10, -20, -20, 10, 10, 5],
            seq![0, 0, 0, 0, 0, 0, 0, 0],
        ],
        FigType::Knight => seq![
            seq![-50, -40, -30, -30, -30, -30, -40, -50],
            seq![-40, -20, 0, 0, 0, 0, -20, -40],
            seq![-30, 0, 10, 15, 15, 10, 0, -30],
            seq![-30, 5, 15, 20, 20, 15, 5, -30],
            seq![-30, 0, 15, 20, 20, 15, 0, -30],
            seq![-30, 5, 10, 15, 15, 10, 5, -30],
            seq![-40, -20, 0, 5, 5, 0, -20, -40],
            seq![-50, -40, -30, -30, -30, -30, -40, -50],
        ],
        FigType::Bishop => seq![
            seq![-20, -10, -10, -10, -10, -10, -10, -20],
            seq![-10, 0, 0, 0, 0, 0, 0, -10],
            seq![-10, 0, 5, 10, 10, 5, 0, -10],
            seq![-10, 5, 5, 10, 10, 5, 5, -10],
            seq![-10, 0, 10, 10, 10, 10, 0, -10],
            seq![-10, 10, 10, 10, 10, 10, 10, -10],
            seq![-10, 5, 0, 0, 0, 0, 5, -10],
            seq![-20, -10, -10, -10, -10, -10, -10, -20],
        ],
        FigType::Rook => seq![
            seq![0, 0, 0, 0, 0, 0, 0, 0],
            seq![5, 10, 10, 10, 10, 10, 10, 5],
            seq![-5, 0, 0, 0, 0, 0, 0, -5],
            seq![-5, 0, 0, 0, 0, 0, 0, -5],
            seq![-5, 0, 0, 0, 0, 0, 0, -5],
            seq![-5, 0, 0, 0, 0, 0, 0, -5],
            seq![-5, 0, 0, 0, 0, 0, 0, -5],
            seq![0, 0, 0, 5, 5, 0, 0, 0],
        ],
        FigType::Queen => seq![
            seq![-20, -10, -10, -5, -5, -10, -10, -20],
            seq![-10, 0, 0, 0, 0, 0, 0, -10],
            seq![-10, 0, 5, 5, 5, 5, 0, -10],
            seq![-5, 0, 5, 5, 5, 5, 0, -5],
            seq![0, 0, 5, 5, 5, 5, 0, -5],
            seq![-10, 5, 5, 5, 5, 5, 0, -10],
            seq![-10, 0, 5, 0, 0, 0, 0, -10],
            seq![-20, -10, -10, -5, -5, -10, -10, -20],
        ],
        FigType::King => seq![
            seq![-30, -40, -40, -50, -50, -40, -40, -30],
            seq![-30, -40, -40, -50, -50, -40, -40, -30],
            seq![-30, -40, -40, -50, -50, -40, -40, -30],
            seq![-30, -40, -40, -50, -50, -40, -40, -30],
            seq![-20, -30, -30, -40, -40, -30, -30, -20],
            seq![-10, -20, -20, -20, -20, -20, -20, -10],
            seq![20, 20, 0, 0, 0, 0, 20, 20],
            seq![20, 30, 10, 0, 0, 10, 30, 20],
        ],
    }
}

/// Piece square table entry for a white figure of type `t` on row `row` (0 = first rank),
/// column `col`.
pub open spec fn pst_entry(t: FigType, row: int, col: int) -> int {
    pst_rows(t)[7 - row][col]
}

/// The piece square table of `t`, indexed by row (0 = first rank) and column.
fn pst_table(t: FigType) -> (table: [[i16; 8]; 8])
    ensures
        forall|r: int, c: int| 0 <= r < 8 && 0 <= c < 8 ==> #[trigger] table[r][c] == pst_entry(t, r, c),
{
    let printed: [[i16; 8]; 8] = match t {
        FigType::Pawn => [
            [0, 0, 0, 0, 0, 0, 0, 0],
            [50, 50, 50, 50, 50, 50, 50, 50],
            [10, 10, 20, 30, 30, 20, 10, 10],
            [5, 5, 10, 25, 25, 10, 5, 5],
            [0, 0, 0, 20, 20, 0, 0, 0],
            [5, -5, -10, 0, 0, -10, -5, 5],
            [5, 10, 10, -20, -20, 10, 10, 5],
            [0, 0, 0, 0, 0, 0, 0, 0],
        ],
        FigType::Knight => [
            [-50, -40, -30, -30, -30, -30, -40, -50],
            [-40, -20, 0, 0, 0, 0, -20, -40],
            [-30, 0, 10, 15, 15, 10, 0, -30],
            [-30, 5, 15, 20, 20, 15, 5, -30],
            [-30, 0, 15, 20, 20, 15, 0, -30],
            [-30, 5, 10, 15, 15, 10, 5, -30],
            [-40, -20, 0, 5, 5, 0, -20, -40],
            [-50, -40, -30, -30, -30, -30, -40, -50],
        ],
        FigType::Bishop => [
            [-20, -10, -10, -10, -10, -10, -10, -20],
            [-10, 0, 0, 0, 0, 0, 0, -10],
            [-10, 0, 5, 10, 10, 5, 0, -10],
            [-10, 5, 5, 10, 10, 5, 5, -10],
            [-10, 0, 10, 10, 10, 10, 0, -10],
            [-10, 10, 10, 10, 10, 10, 10, -10],
            [-10, 5, 0, 0, 0, 0, 5, -10],
            [-20, -10, -10, -10, -10, -10, -10, -20],
        ],
        FigType::Rook => [
            [0, 0, 0, 0, 0, 0, 0, 0],
            [5, 10, 10, 10, 10, 10, 10, 5],
            [-5, 0, 0, 0, 0, 0, 0, -5],
            [-5, 0, 0, 0, 0, 0, 0, -5],
            [-5, 0, 0, 0, 0, 0, 0, -5],
            [-5, 0, 0, 0, 0, 0, 0, -5],
            [-5, 0, 0, 0, 0, 0, 0, -5],
            [0, 0, 0, 5, 5, 0, 0, 0],
        ],
        FigType::Queen => [
            [-20, -10, -10, -5, -5, -10, -10, -20],
            [-10, 0, 0, 0, 0, 0, 0, -10],
            [-10, 0, 5, 5, 5, 5, 0, -10],
            [-5, 0, 5, 5, 5, 5, 0, -5],
            [0, 0, 5, 5, 5, 5, 0, -5],
            [-10, 5, 5, 5, 5, 5, 0, -10],
            [-10, 0, 5, 0, 0, 0, 0, -10],
            [-20, -10, -10, -5, -5, -10, -10, -20],
        ],
        FigType::King => [
            [-30, -40, -40, -50, -50, -40, -40, -30],
            [-30, -40, -40, -50, -50, -40, -40, -30],
            [-30, -40, -40, -50, -50, -40, -40, -30],
            [-30, -40, -40, -50, -50, -40, -40, -30],
            [-20, -30, -30, -40, -40, -30, -30, -20],
            [-10, -20, -20, -20, -20, -20, -20, -10],
            [20, 20, 0, 0, 0, 0, 20, 20],
            [20, 30, 10, 0, 0, 10, 30, 20],
        ],
    };
    assert forall|r: int, c: int| 0 <= r < 8 && 0 <= c < 8 implies #[trigger] printed[r][c] == pst_rows(t)[r][c] by {
        assert(printed[r]@ =~= printed[r]@);
    }
    reverse_rows(printed)
}

} // verus!
