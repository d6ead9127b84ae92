//! The camera layout of each screen mode and the viewports of the cameras in a window.
use vstd::prelude::*;

use crate::menu::settings::{GameMode, ScreenMessage};
use crate::utils::core_types::PlayerColor;

verus! {

/// One camera of a layout: whose side it looks from, whether it is one of two views of a
/// split screen (and so placed a little further away), the order in which it is drawn, and
/// its place among the viewports.
#[derive(Clone, Copy, PartialEq, Eq, Debug, Structural)]
pub struct CameraSpec {
    pub side: PlayerColor,
    pub split: bool,
    pub order: u8,
    pub column: u32,
    pub row: u32,
}

/// The cameras of each screen mode: one view from black's or white's side, or white's view
/// on the left and black's on the right.
pub open spec fn spec_camera_layout(msg: ScreenMessage) -> Seq<CameraSpec> {
    match msg {
        ScreenMessage::OnePlayerBlack => seq![
            CameraSpec { side: PlayerColor::Black, split: false, order: 0, column: 0, row: 0 },
        ],
        ScreenMessage::OnePlayerWhite => seq![
            CameraSpec { side: PlayerColor::White, split: false, order: 0, column: 0, row: 0 },
        ],
        ScreenMessage::TwoPlayer => seq![
            CameraSpec { side: PlayerColor::White, split: true, order: 0, column: 0, row: 0 },
            CameraSpec { side: PlayerColor::Black, split: true, order: 1, column: 1, row: 0 },
        ],
    }
}

/// The cameras to spawn for the screen mode `msg`.
pub fn camera_layout(msg: ScreenMessage) -> (cams: Vec<CameraSpec>)
    ensures
        cams@ == spec_camera_layout(msg),
{
    match msg {
        ScreenMessage::OnePlayerBlack => {
            vec![CameraSpec { side: PlayerColor::Black, split: false, order: 0, column: 0, row: 0 }]
        },
        ScreenMessage::OnePlayerWhite => {
            vec![CameraSpec { side: PlayerColor::White, split: false, order: 0, column: 0, row: 0 }]
        },
        ScreenMessage::TwoPlayer => {
            let cams = vec![
                CameraSpec { side: PlayerColor::White, split: true, order: 0, column: 0, row: 0 },
                CameraSpec { side: PlayerColor::Black, split: true, order: 1, column: 1, row: 0 },
            ];
            assert(cams@ =~= spec_camera_layout(msg));
            cams
        },
    }
}

/// The size of each viewport in a window of `window` (width, height) pixels: half the width
/// for two players on one screen, the whole window otherwise.
pub open spec fn spec_viewport_size(mode: GameMode, window: (u32, u32)) -> (u32, u32) {
    match mode {
        GameMode::PVP => ((window.0 / 2) as u32, window.1),
        GameMode::PVE => window,
    }
}

/// The viewport of a camera at `position` (column, row): its pixel position and size.
pub fn camera_viewport(mode: GameMode, window: (u32, u32), position: (u32, u32)) -> (vp: ((u32, u32), (u32, u32)))
    requires
        position.0 * spec_viewport_size(mode, window).0 <= u32::MAX,
        position.1 * spec_viewport_size(mode, window).1 <= u32::MAX,
    ensures
        vp.1 == spec_viewport_size(mode, window),
        vp.0.0 == position.0 * vp.1.0,
        vp.0.1 == position.1 * vp.1.1,
{
    let size: (u32, u32) = match mode {
        GameMode::PVP => (window.0 / 2, window.1),
        GameMode::PVE => window,
    };
    ((position.0 * size.0, position.1 * size.1), size)
}

} // verus!
