use rchess::utils::core_types::{
    back_rank, diag_threat, rank_threat, straight_directions, Direction, FigType, Figure,
    PlayerColor,
};
use rchess::utils::tile_lists::{contains_tile, insert_tile};
use rchess::utils::{
    _black_promotion, _white_promotion, figs_adjacent, knights_reach, parse_tile_name,
    pawn_promotion, str_eq, tile_to_indices,
};

#[test]
fn tile_names_give_row_and_column() {
    assert_eq!(tile_to_indices("Tile_3_4"), (3, 4));
    assert_eq!(tile_to_indices("Tile_0_7"), (0, 7));
    assert_eq!(tile_to_indices("Tile_7_0_extra"), (7, 0));
    assert_eq!(tile_to_indices("Tile_+5_06"), (5, 6));
}

#[test]
fn unreadable_tile_names_are_refused() {
    assert_eq!(parse_tile_name("Tile_3_4"), Some((3, 4)));
    assert_eq!(parse_tile_name("Tile_3_4_"), Some((3, 4)));
    assert_eq!(parse_tile_name("Tile_3"), None);
    assert_eq!(parse_tile_name("Tile_3_"), None);
    assert_eq!(parse_tile_name("Tile__4"), None);
    assert_eq!(parse_tile_name("Tile_x_4"), None);
    assert_eq!(parse_tile_name("Tile_300_1"), None);
    assert_eq!(parse_tile_name("Tile_255_0"), Some((255, 0)));
    assert_eq!(parse_tile_name("Tile_+_1"), None);
    assert_eq!(parse_tile_name(""), None);
}

#[test]
fn adjacent_tiles() {
    assert!(figs_adjacent((3, 3), (4, 4)));
    assert!(figs_adjacent((3, 3), (3, 2)));
    assert!(figs_adjacent((0, 0), (0, 0)));
    assert!(!figs_adjacent((3, 3), (5, 3)));
    assert!(!figs_adjacent((0, 0), (2, 1)));
}

#[test]
fn knight_reach_from_a_corner_and_the_center() {
    let corner = knights_reach((0, 0));
    assert_eq!(corner.len(), 2);
    assert!(corner.contains(&(2, 1)));
    assert!(corner.contains(&(1, 2)));
    let center = knights_reach((3, 3));
    assert_eq!(center.len(), 8);
    for t in [(5, 4), (5, 2), (1, 4), (1, 2), (4, 5), (2, 5), (4, 1), (2, 1)] {
        assert!(center.contains(&t));
    }
}

#[test]
fn promoted_pawns_keep_their_file() {
    assert_eq!(pawn_promotion("Pawn a2", PlayerColor::White), "Queen a2");
    assert_eq!(pawn_promotion("Pawn h7", PlayerColor::Black), "Queen h7");
    assert_eq!(_white_promotion("Pawn e2"), "Queen e2");
    assert_eq!(_black_promotion("Pawn c7"), "Queen c7");
}

#[test]
fn string_equality() {
    assert!(str_eq("King e1", "King e1"));
    assert!(!str_eq("King e1", "King e8"));
    assert!(!str_eq("King", "King e1"));
    assert!(str_eq("", ""));
}

#[test]
fn players_alternate() {
    assert_eq!(PlayerColor::White.other_player(), PlayerColor::Black);
    assert_eq!(PlayerColor::Black.other_player(), PlayerColor::White);
}

#[test]
fn relative_positions() {
    assert_eq!(Direction::determine_relative_position((3, 3), (3, 6)), Direction::R);
    assert_eq!(Direction::determine_relative_position((3, 3), (3, 0)), Direction::L);
    assert_eq!(Direction::determine_relative_position((3, 3), (6, 3)), Direction::A);
    assert_eq!(Direction::determine_relative_position((3, 3), (0, 3)), Direction::B);
    assert_eq!(Direction::determine_relative_position((3, 3), (5, 5)), Direction::AR);
    assert_eq!(Direction::determine_relative_position((3, 3), (5, 1)), Direction::AL);
    assert_eq!(Direction::determine_relative_position((3, 3), (1, 1)), Direction::BL);
    assert_eq!(Direction::determine_relative_position((3, 3), (1, 5)), Direction::BR);
    assert_eq!(Direction::determine_relative_position((3, 3), (5, 4)), Direction::S1D1);
    assert_eq!(Direction::determine_relative_position((3, 3), (2, 1)), Direction::S1D1);
    assert_eq!(Direction::determine_relative_position((3, 3), (4, 5)), Direction::S1D1);
    assert_eq!(Direction::determine_relative_position((3, 3), (1, 2)), Direction::S1D1);
    assert_eq!(Direction::determine_relative_position((3, 3), (6, 4)), Direction::Unrelated);
    assert_eq!(Direction::determine_relative_position((3, 3), (3, 3)), Direction::Unrelated);
    assert_eq!(Direction::determine_direction_from_to((0, 4), (7, 4)), Direction::A);
    assert_eq!(Direction::determine_direction_from_to((3, 3), (5, 4)), Direction::Unrelated);
    assert_eq!(Direction::determine_direction_from_to((3, 3), (2, 1)), Direction::Unrelated);
    assert_eq!(Direction::determine_direction_from_to((3, 3), (1, 1)), Direction::BL);
}

#[test]
fn pins_follow_the_figure_type() {
    assert!(FigType::Rook.pins_in_direction(Direction::A));
    assert!(!FigType::Rook.pins_in_direction(Direction::AR));
    assert!(FigType::Bishop.pins_in_direction(Direction::BL));
    assert!(!FigType::Bishop.pins_in_direction(Direction::L));
    assert!(FigType::Queen.pins_in_direction(Direction::R));
    assert!(FigType::Queen.pins_in_direction(Direction::AL));
    assert!(!FigType::Knight.pins_in_direction(Direction::A));
    assert!(!FigType::Pawn.pins_in_direction(Direction::AR));
    assert!(rank_threat(FigType::Rook) && !rank_threat(FigType::Bishop));
    assert!(diag_threat(FigType::Bishop) && !diag_threat(FigType::Knight));
}

#[test]
fn straight_directions_start_right_and_turn_left() {
    assert_eq!(
        straight_directions(),
        [
            Direction::R,
            Direction::AR,
            Direction::A,
            Direction::AL,
            Direction::L,
            Direction::BL,
            Direction::B,
            Direction::BR,
        ]
    );
}

#[test]
fn back_rank_order() {
    let rank = back_rank(PlayerColor::Black);
    let types: Vec<FigType> = rank.iter().map(|f| f.unwrap().fig_type).collect();
    assert_eq!(
        types,
        vec![
            FigType::Rook,
            FigType::Knight,
            FigType::Bishop,
            FigType::Queen,
            FigType::King,
            FigType::Bishop,
            FigType::Knight,
            FigType::Rook,
        ]
    );
    assert!(rank.iter().all(|f| f.unwrap().player_color == PlayerColor::Black));
    let _ = Figure { fig_type: FigType::King, player_color: PlayerColor::White };
}

#[test]
fn tile_lists_hold_each_tile_once() {
    let mut v = Vec::new();
    assert!(insert_tile(&mut v, (1, 2)));
    assert!(insert_tile(&mut v, (3, 4)));
    assert!(!insert_tile(&mut v, (1, 2)));
    assert_eq!(v, vec![(1, 2), (3, 4)]);
    assert!(contains_tile(&v, (3, 4)));
    assert!(!contains_tile(&v, (4, 3)));
}
