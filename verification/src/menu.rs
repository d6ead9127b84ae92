//! Decisions of the menus: which page follows which input.
pub mod escape_menu;
pub mod screen;
pub mod settings;

use vstd::prelude::*;

verus! {

/// UI state of the game.
#[derive(Clone, Copy, PartialEq, Eq, Debug, Hash, Structural)]
pub enum GuiState {
    StartPage,
    EscapePage,
    SettingsPage,
    GameOver,
    InGame,
    Restart,
}

impl Default for GuiState {
    fn default() -> (s: Self)
        ensures
            s == GuiState::StartPage,
    {
        GuiState::StartPage
    }
}

/// The page that the escape key leads to from `state`, if any: the game and its pause page
/// toggle, the settings go back to the start page, a finished game resumes, and the start
/// page and a restart stay.
pub open spec fn spec_escape_target(state: GuiState) -> Option<GuiState> {
    match state {
        GuiState::InGame => Some(GuiState::EscapePage),
        GuiState::EscapePage => Some(GuiState::InGame),
        GuiState::SettingsPage => Some(GuiState::StartPage),
        GuiState::StartPage => None,
        GuiState::Restart => None,
        GuiState::GameOver => Some(GuiState::InGame),
    }
}

/// The page that the escape key leads to from `state`, if any.
pub fn escape_target(state: GuiState) -> (next: Option<GuiState>)
    ensures
        next == spec_escape_target(state),
{
    match state {
        GuiState::InGame => Some(GuiState::EscapePage),
        GuiState::EscapePage => Some(GuiState::InGame),
        GuiState::SettingsPage => Some(GuiState::StartPage),
        GuiState::StartPage => None,
        GuiState::Restart => None,
        GuiState::GameOver => Some(GuiState::InGame),
    }
}

/// Pressing escape twice during a game comes back to the game.
pub proof fn lemma_escape_twice_in_game()
    ensures
        spec_escape_target(GuiState::InGame) matches Some(p) && spec_escape_target(p) == Some(
            GuiState::InGame,
        ),
{
}

/// All actions that can be triggered from a button click on the start page.
#[derive(Clone, Copy, PartialEq, Eq, Debug, Structural)]
pub enum MenuButtonAction {
    Play,
    Settings,
    BackToMainMenu,
    BackToSettings,
    Quit,
}

/// What a button of the start page does.
#[derive(Clone, Copy, PartialEq, Eq, Debug, Structural)]
pub enum MenuOutcome {
    /// Leave the application.
    Exit,
    /// Go to a page.
    GoTo(GuiState),
    /// A button that the start page does not expect.
    Unexpected,
}

/// What pressing `action` on the start page does: quit leaves, play goes to the game,
/// settings to the settings page; the other buttons are not expected there.
pub fn menu_outcome(action: MenuButtonAction) -> (o: MenuOutcome)
    ensures
        o == match action {
            MenuButtonAction::Quit => MenuOutcome::Exit,
            MenuButtonAction::Play => MenuOutcome::GoTo(GuiState::InGame),
            MenuButtonAction::Settings => MenuOutcome::GoTo(GuiState::SettingsPage),
            _ => MenuOutcome::Unexpected,
        },
{
    match action {
        MenuButtonAction::Quit => MenuOutcome::Exit,
        MenuButtonAction::Play => MenuOutcome::GoTo(GuiState::InGame),
        MenuButtonAction::Settings => MenuOutcome::GoTo(GuiState::SettingsPage),
        _ => MenuOutcome::Unexpected,
    }
}

} // verus!
