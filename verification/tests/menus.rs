use rchess::menu::escape_menu::{escape_menu_target, EscapeButtonAction};
use rchess::menu::settings::{
    GameMode, GameSettings, ScreenMessage, SettingsButtonAction, SwitchScreenMessage,
};
use rchess::menu::{escape_target, menu_outcome, GuiState, MenuButtonAction, MenuOutcome};
use rchess::utils::core_types::PlayerColor;

#[test]
fn escape_toggles_game_and_pause() {
    assert_eq!(escape_target(GuiState::InGame), Some(GuiState::EscapePage));
    assert_eq!(escape_target(GuiState::EscapePage), Some(GuiState::InGame));
    assert_eq!(escape_target(GuiState::SettingsPage), Some(GuiState::StartPage));
    assert_eq!(escape_target(GuiState::GameOver), Some(GuiState::InGame));
    assert_eq!(escape_target(GuiState::StartPage), None);
    assert_eq!(escape_target(GuiState::Restart), None);
}

#[test]
fn start_page_buttons() {
    assert_eq!(menu_outcome(MenuButtonAction::Quit), MenuOutcome::Exit);
    assert_eq!(menu_outcome(MenuButtonAction::Play), MenuOutcome::GoTo(GuiState::InGame));
    assert_eq!(menu_outcome(MenuButtonAction::Settings), MenuOutcome::GoTo(GuiState::SettingsPage));
    assert_eq!(menu_outcome(MenuButtonAction::BackToMainMenu), MenuOutcome::Unexpected);
    assert_eq!(menu_outcome(MenuButtonAction::BackToSettings), MenuOutcome::Unexpected);
}

#[test]
fn pause_page_buttons() {
    assert_eq!(escape_menu_target(EscapeButtonAction::Back), GuiState::InGame);
    assert_eq!(escape_menu_target(EscapeButtonAction::Restart), GuiState::Restart);
    assert_eq!(escape_menu_target(EscapeButtonAction::BackToMainMenu), GuiState::StartPage);
}

#[test]
fn default_settings() {
    let s = GameSettings::default();
    assert_eq!(s.player_color, PlayerColor::White);
    assert_eq!(s.game_mode, GameMode::PVE);
    assert_eq!(s.difficulty, 6);
    assert_eq!(GameMode::default(), GameMode::PVE);
    assert_eq!(GuiState::default(), GuiState::StartPage);
}

#[test]
fn settings_buttons_store_and_switch_screens() {
    let mut s = GameSettings::default();
    let o = s.apply_button(SettingsButtonAction::Difficulty(3));
    assert_eq!(s.difficulty, 3);
    assert_eq!(o.next_state, None);
    assert_eq!(o.screen, None);

    let o = s.apply_button(SettingsButtonAction::PlayerToggle(PlayerColor::Black));
    assert_eq!(s.player_color, PlayerColor::Black);
    assert_eq!(o.screen, Some(SwitchScreenMessage(ScreenMessage::OnePlayerBlack)));

    let o = s.apply_button(SettingsButtonAction::GameModeToggle(GameMode::PVP));
    assert_eq!(s.game_mode, GameMode::PVP);
    assert_eq!(o.screen, Some(SwitchScreenMessage(ScreenMessage::TwoPlayer)));

    // In a two player game the color does not change the screen.
    let o = s.apply_button(SettingsButtonAction::PlayerToggle(PlayerColor::White));
    assert_eq!(s.player_color, PlayerColor::White);
    assert_eq!(o.screen, None);

    let o = s.apply_button(SettingsButtonAction::GameModeToggle(GameMode::PVE));
    assert_eq!(o.screen, Some(SwitchScreenMessage(ScreenMessage::OnePlayerWhite)));

    let before = s;
    let o = s.apply_button(SettingsButtonAction::Done);
    assert_eq!(s, before);
    assert_eq!(o.next_state, Some(GuiState::StartPage));
    assert_eq!(o.screen, None);
}
