use pawdesk::pacing::{frame_interval_ms, ScreenActivity};
use pawdesk::state::PetState;

fn activity(visible: bool, overlay: bool, busy: bool, pet: Option<(PetState, bool)>) -> ScreenActivity {
    ScreenActivity { visible, overlay_motion: overlay, busy_ui: busy, pet }
}

#[test]
fn frame_pacing_by_activity() {
    let idle = || Some((PetState::Idle("idle_blink".to_string()), false));
    assert_eq!(frame_interval_ms(&activity(false, true, true, idle())), 200);
    assert_eq!(frame_interval_ms(&activity(true, true, false, idle())), 16);
    assert_eq!(frame_interval_ms(&activity(true, false, true, None)), 33);
    assert_eq!(frame_interval_ms(&activity(true, false, false, idle())), 33);
    assert_eq!(frame_interval_ms(&activity(true, false, false, Some((PetState::Watching, false)))), 33);
    assert_eq!(frame_interval_ms(&activity(true, false, false, None)), 66);
}
