use pawdesk::idle::{IdlePicker, IDLE_ACTION_ENABLED, IDLE_ACTION_INTERVAL_NANOS, IDLE_BASE};

const SEC: u128 = 1_000_000_000;
const T0: u128 = 1_000 * SEC;

fn picker(names: &[&str], t0: u128) -> IdlePicker {
    IdlePicker::new(names.iter().map(|s| s.to_string()).collect(), t0, IDLE_ACTION_INTERVAL_NANOS)
}

#[test]
fn initial_is_base_blink() {
    let t0 = T0;
    let mut p = picker(&["idle_stretch", "idle_cute"], t0);
    assert_eq!(p.pick_initial(t0), IDLE_BASE);
}

#[test]
fn no_action_before_interval() {
    let t0 = T0;
    let mut p = picker(&["idle_stretch"], t0);
    assert!(!p.action_due(t0 + 30 * SEC));
    assert!(p.maybe_start_action(t0 + 30 * SEC).is_none());
}

#[test]
fn action_after_interval() {
    let t0 = T0;
    let mut p = picker(&["idle_stretch"], t0);
    assert!(p.action_due(t0 + 61 * SEC));
    let a = p.take_action(t0 + 61 * SEC);
    assert_eq!(a.as_deref(), Some("idle_stretch"));
    assert!(!p.action_due(t0 + 90 * SEC));
}

#[test]
fn enabled_pool_is_stretch_only() {
    assert_eq!(IDLE_ACTION_ENABLED, ["idle_stretch"]);
}

#[test]
fn watching_go_idle_does_not_reset_timer() {
    let t0 = T0;
    let mut p = picker(&["idle_stretch"], t0);
    p.mark_base(t0 + 40 * SEC);
    let a = p.maybe_start_action(t0 + 61 * SEC);
    assert!(a.is_some());
}

#[test]
fn action_due_uses_duration_not_float_edge() {
    let t0 = T0;
    let p = picker(&["idle_stretch"], t0);
    assert!(!p.action_due(t0 + 59_900_000_000));
    assert!(p.action_due(t0 + 60 * SEC));
}

#[test]
fn picks_avoid_recent_actions() {
    let mut p = picker(&["a", "b", "c"], T0);
    let first = p.take_action(T0 + 60 * SEC).unwrap();
    let second = p.take_action(T0 + 120 * SEC).unwrap();
    let third = p.take_action(T0 + 180 * SEC).unwrap();
    assert_ne!(first, second);
    assert_ne!(third, first);
    assert_ne!(third, second);
}

#[test]
fn empty_pool_is_never_due_and_countdown() {
    let p = picker(&[], T0);
    assert!(!p.action_due(T0 + 600 * SEC));
    let q = picker(&["x"], T0);
    assert_eq!(q.nanos_until_action(T0 + 20 * SEC), 40 * SEC);
    assert_eq!(q.nanos_until_action(T0 + 70 * SEC), 0);
    assert_eq!(q.interval_nanos(), 60 * SEC);
    assert_eq!(q.base_name(), "idle_blink");
    assert_eq!(q.peek_action_names(), &["x".to_string()]);
}

#[test]
fn mark_action_done_restarts_cooldown() {
    let mut p = picker(&["x"], T0);
    p.mark_action_done(T0 + 50 * SEC);
    assert!(!p.action_due(T0 + 100 * SEC));
    assert!(p.action_due(T0 + 110 * SEC));
}

#[test]
fn seeded_take_picks_by_seed_among_fresh_actions() {
    let mut p = picker(&["a", "b", "c"], T0);
    assert_eq!(p.take_action_seeded(T0 + 30 * SEC, 5), None);
    assert_eq!(p.take_action_seeded(T0 + 60 * SEC, 4).as_deref(), Some("b"));
    // "b" is recent: the pool is ["a", "c"], and seed 1 picks "c".
    assert_eq!(p.take_action_seeded(T0 + 120 * SEC, 1).as_deref(), Some("c"));
    // "b" and "c" are recent: only "a" is fresh.
    assert_eq!(p.take_action_seeded(T0 + 180 * SEC, 7).as_deref(), Some("a"));
    assert!(!p.action_due(T0 + 200 * SEC));
}

#[test]
fn seeded_take_draws_from_all_when_none_is_fresh() {
    let mut p = picker(&["solo"], T0);
    assert_eq!(p.take_action_seeded(T0 + 60 * SEC, 9).as_deref(), Some("solo"));
    assert_eq!(p.take_action_seeded(T0 + 120 * SEC, 3).as_deref(), Some("solo"));
}
