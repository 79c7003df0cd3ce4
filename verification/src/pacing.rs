//! Redraw pacing: how long the shell waits between frames, from what is on
//! screen.
use vstd::prelude::*;

use crate::state::PetState;

verus! {

/// Frame period while the pet is hidden (only the tray is polled).
pub const HIDDEN_FRAME_MS: u64 = 200;
/// Frame period for menu motion and the reminder overlay (about 60 fps).
pub const FAST_FRAME_MS: u64 = 16;
/// Frame period while something animates (about 30 fps).
pub const ANIMATED_FRAME_MS: u64 = 33;
/// Frame period when nothing animates.
pub const CALM_FRAME_MS: u64 = 66;

/// What the shell shows, as far as pacing goes.
#[derive(Debug, Clone)]
pub struct ScreenActivity {
    pub visible: bool,
    /// Menu open or closing, settings transition, or reminder overlay.
    pub overlay_motion: bool,
    /// Settings open, a window drag, or the file picker busy.
    pub busy_ui: bool,
    /// The pet's state and whether it is moving, playing a one-shot action
    /// or cross-fading clips; `None` when there is no pet.
    pub pet: Option<(PetState, bool)>,
}

/// Whether the pet is animating: in motion, or in a state that animates
/// (every state does, idle included).
pub open spec fn pet_animating(pet: Option<(PetState, bool)>) -> bool {
    match pet {
        Some((s, moving)) => moving || s is Reminder || s is MenuOpen || s is Watching || s is Dragging
            || s is HiddenAtEdge || s is Idle,
        None => false,
    }
}

pub open spec fn frame_interval_spec(a: ScreenActivity) -> u64 {
    if !a.visible {
        HIDDEN_FRAME_MS
    } else if a.overlay_motion {
        FAST_FRAME_MS
    } else if a.busy_ui || pet_animating(a.pet) {
        ANIMATED_FRAME_MS
    } else {
        CALM_FRAME_MS
    }
}

/// Milliseconds to wait before the next frame.
pub fn frame_interval_ms(a: &ScreenActivity) -> (r: u64)
    ensures
        r == frame_interval_spec(*a),
{
    if !a.visible {
        return HIDDEN_FRAME_MS;
    }
    if a.overlay_motion {
        return FAST_FRAME_MS;
    }
    if a.busy_ui {
        return ANIMATED_FRAME_MS;
    }
    let animating = match &a.pet {
        Some((s, moving)) => {
            *moving || match s {
                PetState::Reminder(_) | PetState::MenuOpen | PetState::Watching | PetState::Dragging
                | PetState::HiddenAtEdge(_) => true,
                PetState::Idle(_) => true,
            }
        },
        None => false,
    };
    if animating { ANIMATED_FRAME_MS } else { CALM_FRAME_MS }
}

/// A visible pet is always paced at least at the animated rate: every pet
/// state animates, so the calm cadence only applies with no pet.
pub proof fn lemma_visible_pet_never_calm(a: ScreenActivity)
    requires
        a.visible,
        a.pet is Some,
    ensures
        frame_interval_spec(a) <= ANIMATED_FRAME_MS,
{
}

} // verus!
