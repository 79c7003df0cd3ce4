//! Events the desktop shell hands to the pet: mouse buttons and tray
//! commands.
use vstd::prelude::*;

verus! {

/// Mouse button identifiers used by the app event layer.
#[derive(Debug, Clone, Copy, PartialEq, Eq, Structural)]
pub enum MouseButton {
    Left,
    Right,
    Middle,
    Other(u16),
}

/// System tray commands.
#[derive(Debug, Clone, Copy, PartialEq, Eq, Structural)]
pub enum TrayCommand {
    ShowPet,
    HidePet,
    /// Increase pet display scale by one step.
    PetScaleUp,
    /// Decrease pet display scale by one step.
    PetScaleDown,
    Exit,
}

} // verus!
