use pawdesk::state::{can_interrupt, state_priority, try_transition, Edge, PetState, ReminderStage};
use pawdesk::reminder_flow::{reminder_owed_on_show, reminder_start_decision, ReminderStart};
use pawdesk::scheduler::ReminderScheduler;

#[test]
fn idle_to_dragging() {
    assert!(try_transition(&PetState::Idle("x".into()), PetState::Dragging).is_ok());
}

#[test]
fn idle_to_watching() {
    assert!(try_transition(&PetState::Idle("x".into()), PetState::Watching).is_ok());
}

#[test]
fn reminder_stage_flow() {
    let mut s = PetState::Idle("x".into());
    s = try_transition(&s, PetState::Reminder(ReminderStage::MovingToCenter)).unwrap();
    s = try_transition(&s, PetState::Reminder(ReminderStage::Showing)).unwrap();
    s = try_transition(&s, PetState::Reminder(ReminderStage::Feeding)).unwrap();
    s = try_transition(&s, PetState::Reminder(ReminderStage::Returning)).unwrap();
    assert!(try_transition(&s, PetState::Idle("y".into())).is_ok());
}

#[test]
fn reminder_can_be_dragged() {
    assert!(try_transition(&PetState::Reminder(ReminderStage::Showing), PetState::Dragging).is_ok());
}

#[test]
fn reminder_priority_over_watching() {
    assert!(can_interrupt(
        &PetState::Watching,
        &PetState::Reminder(ReminderStage::MovingToCenter)
    ));
}

#[test]
fn dragging_priority_over_reminder() {
    assert!(can_interrupt(
        &PetState::Reminder(ReminderStage::Showing),
        &PetState::Dragging
    ));
}

#[test]
fn watching_to_dragging() {
    assert!(try_transition(&PetState::Watching, PetState::Dragging).is_ok());
}

#[test]
fn priority_ordering() {
    assert!(
        state_priority(&PetState::Dragging)
            > state_priority(&PetState::Reminder(ReminderStage::Showing))
    );
    assert!(
        state_priority(&PetState::Reminder(ReminderStage::Showing))
            > state_priority(&PetState::Watching)
    );
}

#[test]
fn rejected_transition_hands_back_the_proposal() {
    let r = try_transition(&PetState::Reminder(ReminderStage::Showing), PetState::Idle("y".into()));
    assert_eq!(r, Err(PetState::Idle("y".into())));
    let r = try_transition(&PetState::Dragging, PetState::MenuOpen);
    assert_eq!(r, Err(PetState::MenuOpen));
    let r = try_transition(&PetState::HiddenAtEdge(Edge::Left), PetState::Watching);
    assert_eq!(r, Err(PetState::Watching));
}

#[test]
fn same_kind_refresh_is_allowed() {
    assert!(try_transition(&PetState::HiddenAtEdge(Edge::Left), PetState::HiddenAtEdge(Edge::Top)).is_ok());
    assert!(try_transition(&PetState::Reminder(ReminderStage::Feeding), PetState::Reminder(ReminderStage::Showing)).is_ok());
    assert!(try_transition(&PetState::Idle("a".into()), PetState::Idle("b".into())).is_ok());
}

#[test]
fn names_and_predicates() {
    assert_eq!(PetState::Idle("x".into()).name(), "Idle");
    assert_eq!(PetState::HiddenAtEdge(Edge::Bottom).name(), "HiddenAtEdge");
    assert_eq!(PetState::Reminder(ReminderStage::Feeding).name(), "Reminder");
    assert!(PetState::Idle("x".into()).is_idle());
    assert!(!PetState::Watching.is_idle());
    assert!(PetState::Reminder(ReminderStage::Returning).is_reminder());
    assert!(!PetState::MenuOpen.is_reminder());
    assert_eq!(state_priority(&PetState::MenuOpen), 70);
    assert_eq!(state_priority(&PetState::HiddenAtEdge(Edge::Left)), 50);
    assert_eq!(state_priority(&PetState::Idle("x".into())), 10);
    assert!(!can_interrupt(&PetState::Dragging, &PetState::Dragging));
}

#[test]
fn reminder_window_and_travel_stages() {
    let stages = [
        (ReminderStage::MovingToCenter, false, true),
        (ReminderStage::Showing, true, false),
        (ReminderStage::Feeding, true, false),
        (ReminderStage::Returning, false, true),
    ];
    for (st, window, moving) in stages {
        assert_eq!(PetState::Reminder(st).wants_reminder_window(), window);
        assert_eq!(PetState::Reminder(st).is_reminder_moving(), moving);
    }
    assert!(!PetState::Watching.wants_reminder_window());
    assert!(!PetState::Dragging.is_reminder_moving());
}

#[test]
fn clip_per_state() {
    assert_eq!(PetState::Idle("idle_stretch".to_string()).clip_name(), "idle_stretch");
    assert_eq!(PetState::Watching.clip_name(), "idle_watch");
    assert_eq!(PetState::Dragging.clip_name(), "dragging");
    assert_eq!(PetState::HiddenAtEdge(Edge::Left).clip_name(), "edge_peek");
    assert_eq!(PetState::Reminder(ReminderStage::Feeding).clip_name(), "reminder_feed");
    assert_eq!(PetState::Reminder(ReminderStage::Showing).clip_name(), "reminder_wave");
    assert_eq!(PetState::MenuOpen.clip_name(), "idle_blink");
}

#[test]
fn due_reminder_decisions() {
    use_decision(PetState::Reminder(ReminderStage::Showing), true, false, ReminderStart::AlreadyRunning);
    use_decision(PetState::Idle("idle_blink".to_string()), false, false, ReminderStart::Defer);
    use_decision(PetState::Watching, true, true, ReminderStart::Defer);
    use_decision(PetState::Dragging, true, false, ReminderStart::Defer);
    use_decision(PetState::HiddenAtEdge(Edge::Top), true, false, ReminderStart::Start { restore_from_edge: true });
    use_decision(PetState::Watching, true, false, ReminderStart::Start { restore_from_edge: false });
    // A hidden pet in a reminder still absorbs the due one.
    use_decision(PetState::Reminder(ReminderStage::Returning), false, true, ReminderStart::AlreadyRunning);
}

fn use_decision(state: PetState, visible: bool, overlay: bool, want: ReminderStart) {
    assert_eq!(reminder_start_decision(&state, visible, overlay), want);
}

#[test]
fn reminder_owed_when_shown_again() {
    let mut s = ReminderScheduler::new(true, false, 60_000_000_000, 1_000);
    assert!(!reminder_owed_on_show(false, &s));
    assert!(reminder_owed_on_show(true, &s));
    s.defer_due();
    assert!(reminder_owed_on_show(false, &s));
}
