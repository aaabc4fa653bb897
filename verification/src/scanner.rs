//! The word-scanner overlay drawn over the video player: whether it is visible, whether it
//! takes the mouse, and what its page is told, all derived from the current inputs.
use vstd::prelude::*;

verus! {

/// Where the player's video is on screen.
#[derive(Debug, Clone, Copy, PartialEq, Eq, Structural)]
pub struct VideoWindowRect {
    pub left: i32,
    pub top: i32,
    pub width: i32,
    pub height: i32,
    pub dpi: u32,
}

/// What the overlay's page is told.
#[derive(Debug, Clone, Copy, PartialEq, Eq, Structural)]
pub struct ScannerState {
    pub tracking: bool,
    pub scanning: bool,
    pub escape_pressed: bool,
    pub width: i32,
    pub height: i32,
    pub dpi: u32,
}

impl ScannerState {
    /// The state that tells the page to stand down.
    pub fn hidden() -> (s: ScannerState)
        ensures
            !s.tracking && !s.scanning && !s.escape_pressed && s.width == 0 && s.height == 0 && s.dpi
                == 96,
    {
        ScannerState { tracking: false, scanning: false, escape_pressed: false, width: 0, height: 0, dpi: 96 }
    }
}

/// Everything the overlay's appearance is derived from.
#[derive(Debug, Clone, Copy, PartialEq, Eq, Structural)]
pub struct Inputs {
    pub enabled: bool,
    pub popup_open: bool,
    pub modifier_held: bool,
    pub escape_held: bool,
    pub placement: Option<VideoWindowRect>,
}

/// What the inputs mean for the window.
#[derive(Debug, Clone, Copy, PartialEq, Eq, Structural)]
pub struct Desired {
    pub visible: bool,
    pub interactive: bool,
}

impl Inputs {
    /// Visible while switched on and the player has somewhere to draw; taking the mouse only
    /// while visible and the modifier is held or a popup is open. An invisible overlay never
    /// takes the mouse.
    pub fn desired(self) -> (d: Desired)
        ensures
            d.visible == (self.enabled && self.placement is Some),
            d.interactive == (d.visible && (self.modifier_held || self.popup_open)),
            d.interactive ==> d.visible,
    {
        let visible = self.enabled && self.placement.is_some();
        Desired { visible, interactive: visible && (self.modifier_held || self.popup_open) }
    }

    /// What the page needs: the player's size and the modifier and escape keys while the
    /// overlay is drawn, and the stand-down state otherwise.
    pub fn frontend_state(self) -> (s: ScannerState)
        ensures
            s.tracking == (self.enabled && self.placement is Some),
            match self.placement {
                Some(rect) => if self.enabled {
                    s == ScannerState {
                        tracking: true,
                        scanning: self.modifier_held,
                        escape_pressed: self.escape_held,
                        width: rect.width,
                        height: rect.height,
                        dpi: rect.dpi,
                    }
                } else {
                    !s.tracking && !s.scanning && s.width == 0 && s.dpi == 96
                },
                None => !s.tracking && !s.scanning && s.width == 0 && s.dpi == 96,
            },
    {
        match self.placement {
            Some(rect) => if self.enabled {
                ScannerState {
                    tracking: true,
                    scanning: self.modifier_held,
                    escape_pressed: self.escape_held,
                    width: rect.width,
                    height: rect.height,
                    dpi: rect.dpi,
                }
            } else {
                ScannerState::hidden()
            },
            None => ScannerState::hidden(),
        }
    }
}

} // verus!
