use rchess::game_logic::game_heuristics::{rate_promotion, rate_standard_move, reverse_rows};
use rchess::utils::core_types::FigType;

#[test]
fn promotion_rating_is_fifty() {
    assert_eq!(rate_promotion(), 50);
}

#[test]
fn standard_move_without_capture_rates_zero() {
    assert_eq!(rate_standard_move(FigType::Queen, None), 0);
}

#[test]
fn pawn_taking_queen_rates_highest() {
    assert_eq!(rate_standard_move(FigType::Pawn, Some(FigType::Queen)), 55);
    assert_eq!(rate_standard_move(FigType::King, Some(FigType::Pawn)), 10);
}

#[test]
fn reverse_rows_swaps_first_and_last() {
    let mut t = [[0i16; 8]; 8];
    for r in 0..8 {
        t[r][0] = r as i16;
    }
    let rev = reverse_rows(t);
    for r in 0..8 {
        assert_eq!(rev[r][0], 7 - r as i16);
    }
}
