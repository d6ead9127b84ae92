use rchess::menu::screen::{camera_layout, camera_viewport, CameraSpec};
use rchess::menu::settings::{GameMode, ScreenMessage};
use rchess::utils::core_types::PlayerColor;

#[test]
fn one_player_views_have_one_camera() {
    assert_eq!(
        camera_layout(ScreenMessage::OnePlayerWhite),
        vec![CameraSpec { side: PlayerColor::White, split: false, order: 0, column: 0, row: 0 }]
    );
    assert_eq!(
        camera_layout(ScreenMessage::OnePlayerBlack),
        vec![CameraSpec { side: PlayerColor::Black, split: false, order: 0, column: 0, row: 0 }]
    );
}

#[test]
fn two_players_split_the_screen() {
    assert_eq!(
        camera_layout(ScreenMessage::TwoPlayer),
        vec![
            CameraSpec { side: PlayerColor::White, split: true, order: 0, column: 0, row: 0 },
            CameraSpec { side: PlayerColor::Black, split: true, order: 1, column: 1, row: 0 },
        ]
    );
}

#[test]
fn viewports_fill_the_window() {
    assert_eq!(camera_viewport(GameMode::PVE, (1280, 720), (0, 0)), ((0, 0), (1280, 720)));
    assert_eq!(camera_viewport(GameMode::PVP, (1280, 720), (0, 0)), ((0, 0), (640, 720)));
    assert_eq!(camera_viewport(GameMode::PVP, (1281, 720), (1, 0)), ((640, 0), (640, 720)));
}
