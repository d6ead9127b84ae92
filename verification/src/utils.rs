pub mod core_types;
pub mod tile_collections;
pub mod tile_lists;

use bevy::platform::collections::HashSet;
use vstd::prelude::*;

use crate::utils::core_types::{on_board, PlayerColor};
use vstd::string::StrSliceExecFns;
use crate::utils::tile_collections::{tile_set_insert, tile_set_new, tile_set_view};

verus! {

/// The tiles a knight can jump to from `from`, as far as they stay on the board
/// (for a tile off the board the same tests are made, as the rules make them).
pub open spec fn knight_cands(from: (u8, u8)) -> Set<(u8, u8)> {
    let (r, c) = (from.0 as int, from.1 as int);
    Set::new(
        |t: (u8, u8)|
            (r + 2 < 8 && c + 1 < 8 && t == ((r + 2) as u8, (c + 1) as u8)) || (r + 2 < 8 && c >= 1
                && t == ((r + 2) as u8, (c - 1) as u8)) || (r >= 2 && c + 1 < 8 && t == (
                (r - 2) as u8,
                (c + 1) as u8,
            )) || (r >= 2 && c >= 1 && t == ((r - 2) as u8, (c - 1) as u8)) || (c + 2 < 8 && r + 1
                < 8 && t == ((r + 1) as u8, (c + 2) as u8)) || (c + 2 < 8 && r >= 1 && t == (
                (r - 1) as u8,
                (c + 2) as u8,
            )) || (c >= 2 && r + 1 < 8 && t == ((r + 1) as u8, (c - 2) as u8)) || (c >= 2 && r >= 1
                && t == ((r - 1) as u8, (c - 2) as u8)),
    )
}

/// Whether two tiles are direct neighbours, horizontally, vertically or diagonally
/// (or the same tile).
pub open spec fn adjacent(f1: (u8, u8), f2: (u8, u8)) -> bool {
    -2 < f1.0 - f2.0 < 2 && -2 < f1.1 - f2.1 < 2
}

/// Figs are direct neighbours, horizontally, vertically or diagonal.
pub fn figs_adjacent(f1: (u8, u8), f2: (u8, u8)) -> (b: bool)
    ensures
        b == adjacent(f1, f2),
{
    let row_diff: u8 = if f1.0 < f2.0 {
        f2.0 - f1.0
    } else {
        f1.0 - f2.0
    };
    let col_diff: u8 = if f1.1 < f2.1 {
        f2.1 - f1.1
    } else {
        f1.1 - f2.1
    };
    row_diff < 2 && col_diff < 2
}

/// The tiles a knight on `from_pos` reaches.
pub fn knights_reach(from_pos: (u8, u8)) -> (cands: HashSet<(u8, u8)>)
    requires
        from_pos.0 < 254,
        from_pos.1 < 254,
    ensures
        tile_set_view(cands) == knight_cands(from_pos),
{
    let (from_row, from_col) = from_pos;
    let mut cands = tile_set_new();
    // two up, one left or right
    if from_row + 2 < 8 {
        if from_col + 1 < 8 {
            tile_set_insert(&mut cands, (from_row + 2, from_col + 1));
        }
        if from_col.saturating_sub(1) < from_col {
            tile_set_insert(&mut cands, (from_row + 2, from_col - 1));
        }
    }
    // two down, one left or right
    if from_row.saturating_sub(2) + 2 == from_row {
        if from_col + 1 < 8 {
            tile_set_insert(&mut cands, (from_row - 2, from_col + 1));
        }
        if from_col.saturating_sub(1) < from_col {
            tile_set_insert(&mut cands, (from_row - 2, from_col - 1));
        }
    }
    // two right, one up or down
    if from_col + 2 < 8 {
        if from_row + 1 < 8 {
            tile_set_insert(&mut cands, (from_row + 1, from_col + 2));
        }
        if from_row.saturating_sub(1) < from_row {
            tile_set_insert(&mut cands, (from_row - 1, from_col + 2));
        }
    }
    // two left, one up or down
    if from_col.saturating_sub(2) + 2 == from_col {
        if from_row + 1 < 8 {
            tile_set_insert(&mut cands, (from_row + 1, from_col - 2));
        }
        if from_row.saturating_sub(1) < from_row {
            tile_set_insert(&mut cands, (from_row - 1, from_col - 2));
        }
    }
    assert(tile_set_view(cands) =~= knight_cands(from_pos));
    cands
}

/// A knight's reach is symmetric: `q` is reached from `p` exactly when `p` is reached from `q`.
pub proof fn lemma_knights_reach_symmetric(p: (u8, u8), q: (u8, u8))
    requires
        on_board(p),
        on_board(q),
    ensures
        knight_cands(p).contains(q) <==> knight_cands(q).contains(p),
{
}

/// Adjacency does not depend on the order of the tiles.
pub proof fn lemma_adjacent_symmetric(p: (u8, u8), q: (u8, u8))
    ensures
        adjacent(p, q) == adjacent(q, p),
{
}

/// `s` split at every `sep` (an empty string gives one empty part).
pub open spec fn split_all(s: Seq<char>, sep: char) -> Seq<Seq<char>>
    decreases s.len(),
{
    if s.len() == 0 {
        seq![Seq::<char>::empty()]
    } else {
        let p = split_all(s.drop_last(), sep);
        if s.last() == sep {
            p.push(Seq::<char>::empty())
        } else {
            p.update(p.len() - 1, p.last().push(s.last()))
        }
    }
}

/// `s` split at every `sep`, where a trailing empty part is left out
/// (as `str::split_terminator` does).
pub open spec fn split_terminator(s: Seq<char>, sep: char) -> Seq<Seq<char>> {
    let p = split_all(s, sep);
    if p.last().len() == 0 {
        p.drop_last()
    } else {
        p
    }
}

pub open spec fn is_digit(c: char) -> bool {
    '0' <= c <= '9'
}

/// The decimal value of a string of digits.
pub open spec fn digits_value(s: Seq<char>) -> int
    decreases s.len(),
{
    if s.len() == 0 {
        0
    } else {
        digits_value(s.drop_last()) * 10 + (s.last() as int - '0' as int)
    }
}

/// `s` without one leading `+`, where it has one.
pub open spec fn unsigned_digits(s: Seq<char>) -> Seq<char> {
    if s.len() > 0 && s[0] == '+' {
        s.drop_first()
    } else {
        s
    }
}

/// Every character of `s` is a decimal digit.
pub open spec fn all_digits(s: Seq<char>) -> bool {
    forall|i: int| 0 <= i < s.len() ==> is_digit(#[trigger] s[i])
}

/// The value of `s` read as a `u8` (as `str::parse::<u8>` reads it): an optional `+`, then
/// at least one decimal digit and nothing else, with a value of at most 255.
pub open spec fn parse_u8(s: Seq<char>) -> Option<u8> {
    let d = unsigned_digits(s);
    if d.len() > 0 && all_digits(d) && digits_value(d) <= 255 {
        Some(digits_value(d) as u8)
    } else {
        None
    }
}

/// A tile name ("Tile_row_col") can be read: it has at least three parts separated by `_`,
/// and the second and third are numbers that fit into a `u8`.
pub open spec fn tile_name_readable(name: Seq<char>) -> bool {
    let parts = split_terminator(name, '_');
    parts.len() >= 3 && parse_u8(parts[1]).is_some() && parse_u8(parts[2]).is_some()
}

proof fn lemma_split_all_nonempty(s: Seq<char>, sep: char)
    ensures
        split_all(s, sep).len() >= 1,
    decreases s.len(),
{
    if s.len() > 0 {
        lemma_split_all_nonempty(s.drop_last(), sep);
    }
}

/// A longer string of digits has a larger or equal value.
proof fn lemma_digits_value_grows(s: Seq<char>, n: int)
    requires
        0 <= n <= s.len(),
        forall|i: int| 0 <= i < s.len() ==> is_digit(#[trigger] s[i]),
    ensures
        digits_value(s.take(n)) <= digits_value(s),
        0 <= digits_value(s.take(n)),
    decreases s.len() - n,
{
    if n < s.len() {
        lemma_digits_value_grows(s, n + 1);
        assert(s.take(n + 1).drop_last() =~= s.take(n));
        lemma_digits_nonneg(s.take(n));
    } else {
        assert(s.take(n) =~= s);
        lemma_digits_nonneg(s);
    }
}

proof fn lemma_digits_nonneg(s: Seq<char>)
    requires
        forall|i: int| 0 <= i < s.len() ==> is_digit(#[trigger] s[i]),
    ensures
        0 <= digits_value(s),
    decreases s.len(),
{
    if s.len() > 0 {
        assert forall|i: int| 0 <= i < s.drop_last().len() implies is_digit(#[trigger] s.drop_last()[i]) by {
            assert(s.drop_last()[i] == s[i]);
        }
        lemma_digits_nonneg(s.drop_last());
    }
}

/// Reads the characters `start..end` of `s` as a `u8`.
fn parse_u8_range(s: &str, start: usize, end: usize) -> (v: Option<u8>)
    requires
        start <= end <= s@.len(),
    ensures
        v == parse_u8(s@.subrange(start as int, end as int)),
{
    let ghost part = s@.subrange(start as int, end as int);
    let mut i = start;
    if i < end && s.get_char(i) == '+' {
        i = i + 1;
    }
    let ghost d = unsigned_digits(part);
    assert(d =~= s@.subrange(i as int, end as int));
    if i == end {
        assert(d.len() == 0);
        return None;
    }
    let mut value: u16 = 0;
    let mut k = i;
    while k < end
        invariant
            i <= k <= end <= s@.len(),
            part == s@.subrange(start as int, end as int),
            d == unsigned_digits(part),
            d =~= s@.subrange(i as int, end as int),
            forall|j: int| 0 <= j < k - i ==> is_digit(#[trigger] d[j]),
            value as int == digits_value(d.take(k - i)),
            value <= 255,
        decreases end - k,
    {
        let ch = s.get_char(k);
        assert(ch == d[k - i]);
        if !('0' <= ch && ch <= '9') {
            assert(!is_digit(d[k - i]));
            assert(!all_digits(d));
            return None;
        }
        assert(d.take(k - i + 1).drop_last() =~= d.take(k - i));
        let digit = (ch as u32 - '0' as u32) as u16;
        let next = value * 10 + digit;
        if next > 255 {
            proof {
                if all_digits(d) {
                    lemma_digits_value_grows(d, k - i + 1);
                }
            }
            return None;
        }
        value = next;
        k = k + 1;
    }
    assert(d.take(k - i) =~= d);
    Some(value as u8)
}

/// The parts `starts[k]..ends[k]` of `name` are the parts of its first `i` characters split at `_`.
spec fn parts_located(name: Seq<char>, starts: Seq<usize>, ends: Seq<usize>, i: int) -> bool {
    forall|k: int|
        0 <= k < starts.len() ==> #[trigger] name.subrange(
            starts[k] as int,
            ends[k] as int,
        ) == split_all(name.take(i), '_')[k]
}

/// The bounds of the parts of `tile_name` split at `_`: part `k` is
/// `tile_name[starts[k]..ends[k]]`.
fn locate_parts(tile_name: &str) -> (res: (Vec<usize>, Vec<usize>))
    ensures
        res.0.len() == res.1.len(),
        res.0.len() == split_all(tile_name@, '_').len(),
        forall|k: int| 0 <= k < res.0.len() ==> #[trigger] res.0@[k] <= res.1@[k],
        forall|k: int| 0 <= k < res.1.len() ==> #[trigger] res.1@[k] <= tile_name@.len(),
        parts_located(tile_name@, res.0@, res.1@, tile_name@.len() as int),
{
    let n = tile_name.unicode_len();
    // Bounds of the parts found so far; the last one is still open.
    let mut starts: Vec<usize> = Vec::new();
    let mut ends: Vec<usize> = Vec::new();
    starts.push(0);
    ends.push(0);
    let mut i: usize = 0;
    proof {
        assert(tile_name@.take(0) =~= Seq::<char>::empty());
    }
    while i < n
        invariant
            n == tile_name@.len(),
            i <= n,
            starts.len() == ends.len(),
            starts.len() == split_all(tile_name@.take(i as int), '_').len(),
            ends@[ends.len() - 1] == i,
            forall|k: int| 0 <= k < starts.len() ==> #[trigger] starts@[k] <= ends@[k],
            forall|k: int| 0 <= k < ends.len() ==> #[trigger] ends@[k] <= i,
            parts_located(tile_name@, starts@, ends@, i as int),
        decreases n - i,
    {
        let ghost prev = split_all(tile_name@.take(i as int), '_');
        let ghost next = split_all(tile_name@.take(i + 1), '_');
        proof {
            lemma_split_all_nonempty(tile_name@.take(i as int), '_');
            assert(tile_name@.take(i + 1).drop_last() =~= tile_name@.take(i as int));
        }
        let ch = tile_name.get_char(i);
        assert(tile_name@.take(i + 1).last() == ch);
        let last = ends.len() - 1;
        let ghost old_starts = starts@;
        let ghost old_ends = ends@;
        assert forall|k: int| 0 <= k < old_starts.len() implies #[trigger] tile_name@.subrange(old_starts[k] as int, old_ends[k] as int) == prev[k] by {
            assert(tile_name@.subrange(starts@[k] as int, ends@[k] as int) == prev[k]);
        }
        if ch == '_' {
            starts.push(i + 1);
            ends.push(i + 1);
            assert(next == prev.push(Seq::<char>::empty()));
            assert forall|k: int| 0 <= k < starts.len() implies #[trigger] tile_name@.subrange(starts@[k] as int, ends@[k] as int) == next[k] by {
                if k == starts.len() - 1 {
                    assert(tile_name@.subrange(starts@[k] as int, ends@[k] as int) =~= Seq::<char>::empty());
                } else {
                    assert(starts@[k] == old_starts[k] && ends@[k] == old_ends[k]);
                    assert(tile_name@.subrange(old_starts[k] as int, old_ends[k] as int) == prev[k]);
                }
            }
        } else {
            ends.set(last, i + 1);
            assert(next == prev.update(prev.len() - 1, prev.last().push(ch)));
            assert forall|k: int| 0 <= k < starts.len() implies #[trigger] tile_name@.subrange(starts@[k] as int, ends@[k] as int) == next[k] by {
                if k == last {
                    assert(tile_name@.subrange(old_starts[k] as int, old_ends[k] as int) == prev[k]);
                    assert(tile_name@.subrange(starts@[k] as int, ends@[k] as int) =~= prev[k].push(ch));
                } else {
                    assert(starts@[k] == old_starts[k] && ends@[k] == old_ends[k]);
                    assert(tile_name@.subrange(old_starts[k] as int, old_ends[k] as int) == prev[k]);
                }
            }
        }
        i = i + 1;
        assert(split_all(tile_name@.take(i as int), '_') == next);
        assert(starts.len() == ends.len());
        assert(starts.len() == split_all(tile_name@.take(i as int), '_').len());
        assert(ends@[ends.len() - 1] == i);
        assert forall|k: int| 0 <= k < starts.len() implies #[trigger] tile_name@.subrange(starts@[k] as int, ends@[k] as int) == split_all(
            tile_name@.take(i as int),
            '_',
        )[k] by {
            assert(tile_name@.subrange(starts@[k] as int, ends@[k] as int) == next[k]);
        }
        assert(parts_located(tile_name@, starts@, ends@, i as int));
    }
    assert(tile_name@.take(n as int) =~= tile_name@);
    (starts, ends)
}

/// The row and column of a tile name like "Tile_3_4" (the second and third parts between
/// `_`, read as numbers), or `None` where the name cannot be read so.
pub fn parse_tile_name(tile_name: &str) -> (idx: Option<(u8, u8)>)
    ensures
        idx is Some <==> tile_name_readable(tile_name@),
        idx matches Some(i) ==> i == (
            parse_u8(split_terminator(tile_name@, '_')[1]).unwrap(),
            parse_u8(split_terminator(tile_name@, '_')[2]).unwrap(),
        ),
{
    let (starts, ends) = locate_parts(tile_name);
    let ghost all = split_all(tile_name@, '_');
    proof {
        lemma_split_all_nonempty(tile_name@, '_');
        assert(tile_name@.take(tile_name@.len() as int) =~= tile_name@);
    }
    let last = starts.len() - 1;
    assert(tile_name@.subrange(starts@[last as int] as int, ends@[last as int] as int) == all[last as int]);
    // A trailing empty part does not count.
    let parts = if starts[last] == ends[last] {
        last
    } else {
        starts.len()
    };
    assert(split_terminator(tile_name@, '_').len() == parts);
    if parts < 3 {
        return None;
    }
    assert(split_terminator(tile_name@, '_')[1] == all[1]);
    assert(split_terminator(tile_name@, '_')[2] == all[2]);
    assert(tile_name@.subrange(starts@[1] as int, ends@[1] as int) == all[1]);
    assert(tile_name@.subrange(starts@[2] as int, ends@[2] as int) == all[2]);
    let row = parse_u8_range(tile_name, starts[1], ends[1]);
    let col = parse_u8_range(tile_name, starts[2], ends[2]);
    match (row, col) {
        (Some(r), Some(c)) => Some((r, c)),
        _ => None,
    }
}

/// The row and column of a tile name like "Tile_3_4".
pub fn tile_to_indices(tile_name: &str) -> (idx: (u8, u8))
    requires
        tile_name_readable(tile_name@),
    ensures
        idx == (
            parse_u8(split_terminator(tile_name@, '_')[1]).unwrap(),
            parse_u8(split_terminator(tile_name@, '_')[2]).unwrap(),
        ),
{
    parse_tile_name(tile_name).unwrap()
}

/// Whether two strings hold the same characters.
pub fn str_eq(a: &str, b: &str) -> (eq: bool)
    ensures
        eq == (a@ == b@),
{
    let n = a.unicode_len();
    if n != b.unicode_len() {
        return false;
    }
    let mut i: usize = 0;
    while i < n
        invariant
            n == a@.len(),
            n == b@.len(),
            i <= n,
            forall|k: int| 0 <= k < i ==> a@[k] == b@[k],
        decreases n - i,
    {
        if a.get_char(i) != b.get_char(i) {
            return false;
        }
        i = i + 1;
    }
    assert(a@ =~= b@);
    true
}

/// The asset name of a pawn: "Pawn ", a file from a to h and the rank `rank`.
pub open spec fn is_pawn_asset(name: Seq<char>, rank: char) -> bool {
    &&& name.len() == 7
    &&& name.take(5) == seq!['P', 'a', 'w', 'n', ' ']
    &&& 'a' <= name[5] <= 'h'
    &&& name[6] == rank
}

/// Whether `name` is the asset name of a pawn whose rank char is `rank`.
pub fn is_pawn_name(name: &str, rank: char) -> (b: bool)
    ensures
        b == is_pawn_asset(name@, rank),
{
    if name.unicode_len() != 7 {
        return false;
    }
    let ok = name.get_char(0) == 'P' && name.get_char(1) == 'a' && name.get_char(2) == 'w'
        && name.get_char(3) == 'n' && name.get_char(4) == ' ';
    let file = name.get_char(5);
    proof {
        if ok {
            assert(name@.take(5) =~= seq!['P', 'a', 'w', 'n', ' ']);
        } else {
            if name@.take(5) == seq!['P', 'a', 'w', 'n', ' '] {
                assert(name@.take(5)[0] == name@[0]);
                assert(name@.take(5)[1] == name@[1]);
                assert(name@.take(5)[2] == name@[2]);
                assert(name@.take(5)[3] == name@[3]);
                assert(name@.take(5)[4] == name@[4]);
            }
        }
    }
    ok && 'a' <= file && file <= 'h' && name.get_char(6) == rank
}

/// The asset name of the queen that a pawn named `name` becomes: "Queen " with the pawn's
/// file and rank.
pub open spec fn queen_asset(name: Seq<char>) -> Seq<char> {
    seq!['Q', 'u', 'e', 'e', 'n', ' ', name[5], name[6]]
}

/// The rank char of the starting row of a player's pawns.
pub open spec fn pawn_rank(color: PlayerColor) -> char {
    match color {
        PlayerColor::White => '2',
        PlayerColor::Black => '7',
    }
}

/// Asset name of the queen that the pawn `pawn_name` of `player_color` is promoted to.
pub fn pawn_promotion(pawn_name: &str, player_color: PlayerColor) -> (q: &str)
    requires
        is_pawn_asset(pawn_name@, pawn_rank(player_color)),
    ensures
        q@ == queen_asset(pawn_name@),
{
    match player_color {
        PlayerColor::Black => _black_promotion(pawn_name),
        PlayerColor::White => _white_promotion(pawn_name),
    }
}

/// Promotion names for white pawns (a workaround which works with static strings).
pub fn _white_promotion(pawn_name: &str) -> (q: &str)
    requires
        is_pawn_asset(pawn_name@, '2'),
    ensures
        q@ == queen_asset(pawn_name@),
{
    let file = pawn_name.get_char(5);
    if file == 'a' {
        proof { reveal_strlit("Queen a2"); }
        "Queen a2"
    } else if file == 'b' {
        proof { reveal_strlit("Queen b2"); }
        "Queen b2"
    } else if file == 'c' {
        proof { reveal_strlit("Queen c2"); }
        "Queen c2"
    } else if file == 'd' {
        proof { reveal_strlit("Queen d2"); }
        "Queen d2"
    } else if file == 'e' {
        proof { reveal_strlit("Queen e2"); }
        "Queen e2"
    } else if file == 'f' {
        proof { reveal_strlit("Queen f2"); }
        "Queen f2"
    } else if file == 'g' {
        proof { reveal_strlit("Queen g2"); }
        "Queen g2"
    } else {
        proof { reveal_strlit("Queen h2"); }
        "Queen h2"
    }
}

/// Promotion names for black pawns (a workaround which works with static strings).
pub fn _black_promotion(pawn_name: &str) -> (q: &str)
    requires
        is_pawn_asset(pawn_name@, '7'),
    ensures
        q@ == queen_asset(pawn_name@),
{
    let file = pawn_name.get_char(5);
    if file == 'a' {
        proof { reveal_strlit("Queen a7"); }
        "Queen a7"
    } else if file == 'b' {
        proof { reveal_strlit("Queen b7"); }
        "Queen b7"
    } else if file == 'c' {
        proof { reveal_strlit("Queen c7"); }
        "Queen c7"
    } else if file == 'd' {
        proof { reveal_strlit("Queen d7"); }
        "Queen d7"
    } else if file == 'e' {
        proof { reveal_strlit("Queen e7"); }
        "Queen e7"
    } else if file == 'f' {
        proof { reveal_strlit("Queen f7"); }
        "Queen f7"
    } else if file == 'g' {
        proof { reveal_strlit("Queen g7"); }
        "Queen g7"
    } else {
        proof { reveal_strlit("Queen h7"); }
        "Queen h7"
    }
}

} // verus!
