//! The game settings and what the settings page does with them.
use vstd::prelude::*;

use crate::menu::GuiState;
use crate::utils::core_types::PlayerColor;

verus! {

#[derive(Clone, Copy, PartialEq, Eq, Debug, Hash, Structural)]
pub enum GameMode {
    PVE,
    PVP,
}

impl Default for GameMode {
    fn default() -> (m: Self)
        ensures
            m == GameMode::PVE,
    {
        GameMode::PVE
    }
}

/// How the screen is to be split: one player's view (black or white) or both.
#[derive(Clone, Copy, PartialEq, Eq, Debug, Structural)]
pub enum ScreenMessage {
    OnePlayerBlack,
    OnePlayerWhite,
    TwoPlayer,
}

/// A request to switch the screen layout.
#[derive(Clone, Copy, PartialEq, Eq, Debug)]
pub struct SwitchScreenMessage(pub ScreenMessage);

/// The buttons of the settings page.
#[derive(Clone, Copy, PartialEq, Eq, Debug)]
pub enum SettingsButtonAction {
    Done,
    Difficulty(u8),
    PlayerToggle(PlayerColor),
    GameModeToggle(GameMode),
}

/// The settings of a game: the human player's color, the mode and the search depth.
#[derive(Clone, Copy, PartialEq, Eq, Debug)]
pub struct GameSettings {
    pub player_color: PlayerColor,
    pub game_mode: GameMode,
    pub difficulty: u8,
}

impl Default for GameSettings {
    fn default() -> (s: Self)
        ensures
            s.player_color == PlayerColor::White,
            s.game_mode == GameMode::PVE,
            s.difficulty == 6,
    {
        GameSettings { player_color: PlayerColor::White, game_mode: GameMode::PVE, difficulty: 6 }
    }
}

/// The single-player screen for a human playing `color`.
pub open spec fn one_player_screen(color: PlayerColor) -> ScreenMessage {
    match color {
        PlayerColor::White => ScreenMessage::OnePlayerWhite,
        PlayerColor::Black => ScreenMessage::OnePlayerBlack,
    }
}

/// What pressing a settings button leads to: the page to go to and the screen layout to
/// switch to, if any.
#[derive(Clone, Copy, PartialEq, Eq, Debug)]
pub struct SettingsOutcome {
    pub next_state: Option<GuiState>,
    pub screen: Option<SwitchScreenMessage>,
}

impl GameSettings {
    /// Applies the pressed settings button: "Done" (the back button) returns to the start page; a difficulty,
    /// mode or color is stored. Choosing a mode switches the screen (one player's view for
    /// player against computer, split for two players); choosing a color switches to that
    /// player's view when playing against the computer.
    pub fn apply_button(&mut self, action: SettingsButtonAction) -> (o: SettingsOutcome)
        ensures
            match action {
                SettingsButtonAction::Done => *final(self) == *old(self) && o.next_state == Some(
                    GuiState::StartPage,
                ) && o.screen.is_none(),
                SettingsButtonAction::Difficulty(val) => *final(self) == (GameSettings {
                    difficulty: val,
                    ..*old(self)
                }) && o.next_state.is_none() && o.screen.is_none(),
                SettingsButtonAction::GameModeToggle(mode) => *final(self) == (GameSettings {
                    game_mode: mode,
                    ..*old(self)
                }) && o.next_state.is_none() && o.screen == Some(
                    SwitchScreenMessage(
                        if mode == GameMode::PVE {
                            one_player_screen(old(self).player_color)
                        } else {
                            ScreenMessage::TwoPlayer
                        },
                    ),
                ),
                SettingsButtonAction::PlayerToggle(player) => *final(self) == (GameSettings {
                    player_color: player,
                    ..*old(self)
                }) && o.next_state.is_none() && o.screen == (if old(self).game_mode
                    == GameMode::PVE {
                    Some(SwitchScreenMessage(one_player_screen(player)))
                } else {
                    None
                }),
            },
    {
        match action {
            SettingsButtonAction::Done => SettingsOutcome {
                next_state: Some(GuiState::StartPage),
                screen: None,
            },
            SettingsButtonAction::Difficulty(val) => {
                self.difficulty = val;
                SettingsOutcome { next_state: None, screen: None }
            },
            SettingsButtonAction::GameModeToggle(mode) => {
                self.game_mode = mode;
                let msg = if mode == GameMode::PVE {
                    if self.player_color == PlayerColor::White {
                        ScreenMessage::OnePlayerWhite
                    } else {
                        ScreenMessage::OnePlayerBlack
                    }
                } else {
                    ScreenMessage::TwoPlayer
                };
                SettingsOutcome { next_state: None, screen: Some(SwitchScreenMessage(msg)) }
            },
            SettingsButtonAction::PlayerToggle(player) => {
                self.player_color = player;
                let screen = if self.game_mode == GameMode::PVE {
                    if player == PlayerColor::White {
                        Some(SwitchScreenMessage(ScreenMessage::OnePlayerWhite))
                    } else {
                        Some(SwitchScreenMessage(ScreenMessage::OnePlayerBlack))
                    }
                } else {
                    None
                };
                SettingsOutcome { next_state: None, screen }
            },
        }
    }
}

} // verus!
