//! Common chess types, board geometry and the constants shared by the rules.
use vstd::prelude::*;

verus! {

/// Whether a tile lies on the board.
pub open spec fn on_board(t: (u8, u8)) -> bool {
    t.0 < 8 && t.1 < 8
}

/// Starting tile of the white king (row, column).
pub const WHITE_KING_SP: (u8, u8) = (0, 4);

/// Starting tile of the black king (row, column).
pub const BLACK_KING_SP: (u8, u8) = (7, 4);

#[derive(Debug, Clone, Copy, PartialEq, Eq, Structural)]
pub enum PlayerColor {
    Black,
    White,
}

/// The opponent of a player.
pub open spec fn opponent(c: PlayerColor) -> PlayerColor {
    match c {
        PlayerColor::Black => PlayerColor::White,
        PlayerColor::White => PlayerColor::Black,
    }
}

impl PlayerColor {
    pub fn other_player(&self) -> (o: PlayerColor)
        ensures
            o == opponent(*self),
    {
        match self {
            PlayerColor::Black => PlayerColor::White,
            PlayerColor::White => PlayerColor::Black,
        }
    }
}

/// Switching the player twice gives the same player back, and no player is its own opponent.
pub proof fn lemma_other_player_involution(c: PlayerColor)
    ensures
        opponent(opponent(c)) == c,
        opponent(c) != c,
{
}

#[derive(Debug, Clone, Copy, PartialEq, Eq, Hash, Structural)]
pub enum FigType {
    Pawn,
    Rook,
    Knight,
    Bishop,
    Queen,
    King,
}

/// Right, above-right, above, above-left, left, below-left, below, below-right,
/// one-straight-one-diagonal (the knight's jump) and no relation at all.
/// "Above" means a larger row index, "right" a larger column index.
#[derive(Debug, Clone, Copy, PartialEq, Eq, Hash, Structural)]
pub enum Direction {
    R,
    AR,
    A,
    AL,
    L,
    BL,
    B,
    BR,
    S1D1,
    Unrelated,
}

/// Whether `d` runs along a row or a column.
pub open spec fn is_rank_dir(d: Direction) -> bool {
    d == Direction::R || d == Direction::A || d == Direction::L || d == Direction::B
}

/// Whether `d` runs along a diagonal.
pub open spec fn is_diag_dir(d: Direction) -> bool {
    d == Direction::AR || d == Direction::AL || d == Direction::BL || d == Direction::BR
}

/// Whether `d` is one of the eight straight directions.
pub open spec fn is_straight_dir(d: Direction) -> bool {
    is_rank_dir(d) || is_diag_dir(d)
}

/// Row and column step of a straight direction; (0, 0) for the others.
pub open spec fn dir_delta(d: Direction) -> (int, int) {
    match d {
        Direction::R => (0, 1),
        Direction::AR => (1, 1),
        Direction::A => (1, 0),
        Direction::AL => (1, -1),
        Direction::L => (0, -1),
        Direction::BL => (-1, -1),
        Direction::B => (-1, 0),
        Direction::BR => (-1, 1),
        _ => (0, 0),
    }
}

/// The straight direction pointing the other way.
pub open spec fn opposite_dir(d: Direction) -> Direction {
    match d {
        Direction::R => Direction::L,
        Direction::AR => Direction::BL,
        Direction::A => Direction::B,
        Direction::AL => Direction::BR,
        Direction::L => Direction::R,
        Direction::BL => Direction::AR,
        Direction::B => Direction::A,
        Direction::BR => Direction::AL,
        other => other,
    }
}

/// Whether a figure of this type threatens along direction `dir`
/// (rooks and queens along rows and columns, bishops and queens along diagonals).
pub open spec fn spec_pins_in_direction(t: FigType, dir: Direction) -> bool {
    ((t == FigType::Bishop || t == FigType::Queen) && is_diag_dir(dir))
        || ((t == FigType::Rook || t == FigType::Queen) && is_rank_dir(dir))
}

impl FigType {
    pub fn pins_in_direction(&self, dir: Direction) -> (b: bool)
        ensures
            b == spec_pins_in_direction(*self, dir),
    {
        match (*self, dir) {
            (FigType::Bishop, Direction::AL)
            | (FigType::Bishop, Direction::AR)
            | (FigType::Bishop, Direction::BL)
            | (FigType::Bishop, Direction::BR)
            | (FigType::Queen, Direction::AL)
            | (FigType::Queen, Direction::AR)
            | (FigType::Queen, Direction::BL)
            | (FigType::Queen, Direction::BR) => true,
            (FigType::Rook, Direction::A)
            | (FigType::Rook, Direction::B)
            | (FigType::Rook, Direction::L)
            | (FigType::Rook, Direction::R)
            | (FigType::Queen, Direction::A)
            | (FigType::Queen, Direction::B)
            | (FigType::Queen, Direction::L)
            | (FigType::Queen, Direction::R) => true,
            _ => false,
        }
    }
}

#[derive(Debug, Clone, Copy, PartialEq, Eq, Structural)]
pub struct Figure {
    pub fig_type: FigType,
    pub player_color: PlayerColor,
}

/// Position of `target` relative to `source`: the straight direction in which it lies,
/// `S1D1` (one straight step and one diagonal step) when it is a knight's jump away, or
/// `Unrelated` otherwise (also for the same tile).
pub open spec fn relative_position(source: (u8, u8), target: (u8, u8)) -> Direction {
    let dr = target.0 - source.0;
    let dc = target.1 - source.1;
    if dr == 0 && dc > 0 {
        Direction::R
    } else if dr == 0 && dc < 0 {
        Direction::L
    } else if dr > 0 && dc == 0 {
        Direction::A
    } else if dr < 0 && dc == 0 {
        Direction::B
    } else if dr > 0 && dc > 0 && dr == dc {
        Direction::AR
    } else if dr < 0 && dc < 0 && dr == dc {
        Direction::BL
    } else if dr > 0 && dc < 0 && dr == -dc {
        Direction::AL
    } else if dr < 0 && dc > 0 && -dr == dc {
        Direction::BR
    } else if knight_offset(dr, dc) {
        Direction::S1D1
    } else {
        Direction::Unrelated
    }
}

/// The straight direction in which `target` lies from `source`, `Unrelated` for every tile
/// on none of the eight lines.
pub open spec fn line_direction(source: (u8, u8), target: (u8, u8)) -> Direction {
    if is_straight_dir(relative_position(source, target)) {
        relative_position(source, target)
    } else {
        Direction::Unrelated
    }
}

/// The row and column differences of a knight's jump: one of them 1, the other 2.
pub open spec fn knight_offset(dr: int, dc: int) -> bool {
    let ar = if dr < 0 { -dr } else { dr };
    let ac = if dc < 0 { -dc } else { dc };
    (ar == 1 && ac == 2) || (ar == 2 && ac == 1)
}

/// `S1D1` when `target` is a knight's jump away from `source`, `Unrelated` otherwise.
fn off_line_relation(source_pos: (u8, u8), target_pos: (u8, u8)) -> (d: Direction)
    ensures
        d == (if knight_offset(target_pos.0 - source_pos.0, target_pos.1 - source_pos.1) {
            Direction::S1D1
        } else {
            Direction::Unrelated
        }),
{
    let row_diff: u8 = if source_pos.0 < target_pos.0 {
        target_pos.0 - source_pos.0
    } else {
        source_pos.0 - target_pos.0
    };
    let col_diff: u8 = if source_pos.1 < target_pos.1 {
        target_pos.1 - source_pos.1
    } else {
        source_pos.1 - target_pos.1
    };
    if (row_diff == 2 && col_diff == 1) || (col_diff == 2 && row_diff == 1) {
        Direction::S1D1
    } else {
        Direction::Unrelated
    }
}

impl Direction {
    /// Determines the target position relative to the source position
    /// (if the target lies right of the source, `Direction::R` is returned).
    pub fn determine_relative_position(source_pos: (u8, u8), target_pos: (u8, u8)) -> (d: Self)
        ensures
            d == relative_position(source_pos, target_pos),
    {
        let (sr, sc) = source_pos;
        let (tr, tc) = target_pos;
        if tr == sr {
            if tc > sc {
                Direction::R
            } else if tc < sc {
                Direction::L
            } else {
                Direction::Unrelated
            }
        } else if tr > sr {
            if tc == sc {
                Direction::A
            } else if tc > sc {
                if tr - sr == tc - sc {
                    Direction::AR
                } else {
                    off_line_relation(source_pos, target_pos)
                }
            } else {
                if tr - sr == sc - tc {
                    Direction::AL
                } else {
                    off_line_relation(source_pos, target_pos)
                }
            }
        } else {
            if tc == sc {
                Direction::B
            } else if tc < sc {
                if sr - tr == sc - tc {
                    Direction::BL
                } else {
                    off_line_relation(source_pos, target_pos)
                }
            } else {
                if sr - tr == tc - sc {
                    Direction::BR
                } else {
                    off_line_relation(source_pos, target_pos)
                }
            }
        }
    }

    /// Straight direction in which `target_pos` lies as seen from `source_pos`, or
    /// `Unrelated` when it lies on none of the eight lines (a knight's jump included).
    pub fn determine_direction_from_to(source_pos: (u8, u8), target_pos: (u8, u8)) -> (d: Self)
        ensures
            d == line_direction(source_pos, target_pos),
    {
        match Direction::determine_relative_position(source_pos, target_pos) {
            Direction::S1D1 => Direction::Unrelated,
            other => other,
        }
    }
}

/// Seen from the other tile, a straight relation points the opposite way.
pub proof fn lemma_relative_position_opposite(s: (u8, u8), t: (u8, u8))
    ensures
        relative_position(t, s) == opposite_dir(relative_position(s, t)),
{
}

/// The eight straight directions in the order in which the rules scan them.
pub fn straight_directions() -> (dirs: [Direction; 8])
    ensures
        dirs@ == seq![
            Direction::R,
            Direction::AR,
            Direction::A,
            Direction::AL,
            Direction::L,
            Direction::BL,
            Direction::B,
            Direction::BR,
        ],
{
    let dirs = [
        Direction::R,
        Direction::AR,
        Direction::A,
        Direction::AL,
        Direction::L,
        Direction::BL,
        Direction::B,
        Direction::BR,
    ];
    assert(dirs@ =~= seq![
        Direction::R,
        Direction::AR,
        Direction::A,
        Direction::AL,
        Direction::L,
        Direction::BL,
        Direction::B,
        Direction::BR,
    ]);
    dirs
}

/// The straight directions as a sequence (see `straight_directions`).
pub open spec fn straight_dirs() -> Seq<Direction> {
    seq![
        Direction::R,
        Direction::AR,
        Direction::A,
        Direction::AL,
        Direction::L,
        Direction::BL,
        Direction::B,
        Direction::BR,
    ]
}

/// Figures that threaten along rows and columns.
pub open spec fn is_rank_threat(t: FigType) -> bool {
    t == FigType::Rook || t == FigType::Queen
}

/// Figures that threaten along diagonals.
pub open spec fn is_diag_threat(t: FigType) -> bool {
    t == FigType::Bishop || t == FigType::Queen
}

pub fn rank_threat(t: FigType) -> (b: bool)
    ensures
        b == is_rank_threat(t),
{
    match t {
        FigType::Rook | FigType::Queen => true,
        _ => false,
    }
}

pub fn diag_threat(t: FigType) -> (b: bool)
    ensures
        b == is_diag_threat(t),
{
    match t {
        FigType::Bishop | FigType::Queen => true,
        _ => false,
    }
}

/// The back rank of a player in the initial position, files a to h.
pub open spec fn back_rank_type(col: int) -> FigType {
    if col == 0 || col == 7 {
        FigType::Rook
    } else if col == 1 || col == 6 {
        FigType::Knight
    } else if col == 2 || col == 5 {
        FigType::Bishop
    } else if col == 3 {
        FigType::Queen
    } else {
        FigType::King
    }
}

pub fn back_rank(color: PlayerColor) -> (rank: [Option<Figure>; 8])
    ensures
        forall|c: int|
            0 <= c < 8 ==> #[trigger] rank[c] == Some(
                Figure { fig_type: back_rank_type(c), player_color: color },
            ),
{
    [
        Some(Figure { fig_type: FigType::Rook, player_color: color }),
        Some(Figure { fig_type: FigType::Knight, player_color: color }),
        Some(Figure { fig_type: FigType::Bishop, player_color: color }),
        Some(Figure { fig_type: FigType::Queen, player_color: color }),
        Some(Figure { fig_type: FigType::King, player_color: color }),
        Some(Figure { fig_type: FigType::Bishop, player_color: color }),
        Some(Figure { fig_type: FigType::Knight, player_color: color }),
        Some(Figure { fig_type: FigType::Rook, player_color: color }),
    ]
}

} // verus!
