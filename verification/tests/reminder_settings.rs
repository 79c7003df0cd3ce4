use pawdesk::config::{ConfigRepository, DebouncedSaver, ReminderConfig};
use pawdesk::reminder_flow::handle_feed_completed;
use pawdesk::reminder_settings::{apply_reminder_setting, clear_leftover_pause, ReminderSetting, SettingOutcome};
use pawdesk::scheduler::ReminderScheduler;

const MIN: u128 = 60_000_000_000;

fn setup(minutes: u32) -> (ReminderConfig, ReminderScheduler) {
    let mut cfg = ReminderConfig::default();
    cfg.interval_minutes = minutes;
    let s = ReminderScheduler::new(true, false, minutes as u128 * MIN, 0);
    (cfg, s)
}

#[test]
fn pause_click_refuses_without_toggling() {
    let (mut cfg, mut s) = setup(60);
    assert!(!cfg.paused);
    let r = apply_reminder_setting(&mut cfg, &mut s, ReminderSetting::TogglePause, 5);
    assert_eq!(r, SettingOutcome::PauseRefused);
    assert!(!cfg.paused, "pause button must not persist a paused state");
    assert!(!s.is_paused());
}

#[test]
fn startup_clears_leftover_paused() {
    let mut cfg = ReminderConfig::default();
    cfg.paused = true;
    assert!(clear_leftover_pause(&mut cfg));
    assert!(!cfg.paused, "stale paused configs must not keep reminders silent");
    assert!(!clear_leftover_pause(&mut cfg));
}

#[test]
fn interval_buttons_step_and_stop_at_bounds() {
    let (mut cfg, mut s) = setup(60);
    assert_eq!(apply_reminder_setting(&mut cfg, &mut s, ReminderSetting::IntervalInc, 1), SettingOutcome::Changed);
    assert_eq!(cfg.interval_minutes, 75);
    assert_eq!(s.interval(), 75 * MIN);
    let (mut cfg, mut s) = setup(15);
    assert_eq!(apply_reminder_setting(&mut cfg, &mut s, ReminderSetting::IntervalDec, 1), SettingOutcome::Unchanged);
    assert_eq!(cfg.interval_minutes, 15);
    let (mut cfg, mut s) = setup(180);
    assert_eq!(apply_reminder_setting(&mut cfg, &mut s, ReminderSetting::IntervalInc, 1), SettingOutcome::Unchanged);
    let (mut cfg, mut s) = setup(20);
    assert_eq!(apply_reminder_setting(&mut cfg, &mut s, ReminderSetting::IntervalDec, 1), SettingOutcome::Changed);
    assert_eq!(cfg.interval_minutes, 15);
}

#[test]
fn toggle_enabled_turns_reminders_off_and_on() {
    let (mut cfg, mut s) = setup(60);
    assert_eq!(apply_reminder_setting(&mut cfg, &mut s, ReminderSetting::ToggleEnabled, 1), SettingOutcome::Changed);
    assert!(!cfg.enabled);
    assert!(!s.is_enabled());
    assert!(s.tick(10 * 60 * MIN).is_none());
    apply_reminder_setting(&mut cfg, &mut s, ReminderSetting::ToggleEnabled, 2);
    assert!(cfg.enabled && s.is_enabled());
}

#[test]
fn feeding_records_completion_and_restarts_cycle() {
    let (mut cfg, mut s) = setup(15);
    let mut saver = DebouncedSaver::new(ConfigRepository::with_paths("a.json".into(), "b.json".into()));
    assert!(s.tick(15 * MIN).is_some());
    handle_feed_completed(&mut cfg, &mut saver, &mut s, 20 * MIN);
    let stamp = cfg.last_completed_at.clone().expect("completion recorded");
    assert!(pawdesk::clock::parse_elapsed_since(&stamp).is_some());
    assert!(saver.save_due(20 * MIN + 500_000_000));
    assert!(!saver.save_due(20 * MIN + 1));
    assert!(s.tick(34 * MIN).is_none());
    assert!(s.tick(35 * MIN).is_some());
}

#[test]
fn recording_a_feed_keeps_the_given_stamp() {
    let (mut cfg, mut s) = setup(15);
    let mut saver = DebouncedSaver::new(ConfigRepository::with_paths("a.json".into(), "b.json".into()));
    pawdesk::reminder_flow::record_feed_completed(
        &mut cfg,
        &mut saver,
        &mut s,
        Some("2024-01-02T03:04:05+00:00".to_string()),
        7 * MIN,
    );
    assert_eq!(cfg.last_completed_at.as_deref(), Some("2024-01-02T03:04:05+00:00"));
    pawdesk::reminder_flow::record_feed_completed(&mut cfg, &mut saver, &mut s, None, 8 * MIN);
    assert_eq!(cfg.last_completed_at.as_deref(), Some("2024-01-02T03:04:05+00:00"));
    assert!(s.tick(8 * MIN + 15 * MIN - 1).is_none());
    assert!(s.tick(8 * MIN + 15 * MIN).is_some());
}
