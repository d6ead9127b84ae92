//! Decisions of the pause page.
use vstd::prelude::*;

use crate::menu::GuiState;

verus! {

/// All actions that can be triggered from a button click on the pause page.
#[derive(Clone, Copy, PartialEq, Eq, Debug, Structural)]
pub enum EscapeButtonAction {
    Back,
    Restart,
    BackToMainMenu,
}

/// The page that a button of the pause page leads to: back to the game, to a restart, or
/// to the start page.
pub fn escape_menu_target(action: EscapeButtonAction) -> (next: GuiState)
    ensures
        next == match action {
            EscapeButtonAction::Back => GuiState::InGame,
            EscapeButtonAction::Restart => GuiState::Restart,
            EscapeButtonAction::BackToMainMenu => GuiState::StartPage,
        },
{
    match action {
        EscapeButtonAction::Back => GuiState::InGame,
        EscapeButtonAction::Restart => GuiState::Restart,
        EscapeButtonAction::BackToMainMenu => GuiState::StartPage,
    }
}

} // verus!
