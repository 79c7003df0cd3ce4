use pawdesk::clock::{elapsed_since_at, rfc3339_at};
use pawdesk::scheduler::ReminderScheduler;

const SEC: u128 = 1_000_000_000;

fn secs(n: u128) -> u128 {
    n * SEC
}

/// A monotonic origin far from zero, so earlier instants can be expressed.
const T0: u128 = 1_000_000 * SEC;

#[test]
fn no_fire_before_interval() {
    let t0 = T0;
    let mut s = ReminderScheduler::new(true, false, secs(60), t0);
    assert!(s.tick(t0 + secs(30)).is_none());
}

#[test]
fn fire_after_interval() {
    let t0 = T0;
    let mut s = ReminderScheduler::new(true, false, secs(60), t0);
    assert!(s.tick(t0 + secs(60)).is_some());
}

#[test]
fn pause_blocks_and_resume_restarts() {
    let t0 = T0;
    let mut s = ReminderScheduler::new(true, false, secs(60), t0);
    s.set_paused(true, t0 + secs(50));
    assert!(s.tick(t0 + secs(120)).is_none());
    s.set_paused(false, t0 + secs(120));
    assert!(s.tick(t0 + secs(150)).is_none());
    assert!(s.tick(t0 + secs(180)).is_some());
}

#[test]
fn feed_resets_cycle() {
    let t0 = T0;
    let mut s = ReminderScheduler::new(true, false, secs(60), t0);
    assert!(s.tick(t0 + secs(60)).is_some());
    s.consume_due();
    s.on_feed_completed(t0 + secs(65));
    assert!(s.tick(t0 + secs(100)).is_none());
    assert!(s.tick(t0 + secs(125)).is_some());
}

#[test]
fn catchup_when_overdue() {
    let t0 = T0;
    let mut s = ReminderScheduler::new(true, false, secs(60), t0);
    let past = chrono::Utc::now() - chrono::Duration::seconds(120);
    s.apply_startup_catchup(Some(&past.to_rfc3339()), t0);
    assert!(s.tick(t0).is_some());
}

#[test]
fn no_catchup_when_recent() {
    let t0 = T0;
    let mut s = ReminderScheduler::new(true, false, secs(3600), t0);
    let past = chrono::Utc::now() - chrono::Duration::seconds(30);
    s.apply_startup_catchup(Some(&past.to_rfc3339()), t0);
    assert!(s.tick(t0).is_none());
}

#[test]
fn disabled_never_fires() {
    let t0 = T0;
    let mut s = ReminderScheduler::new(false, false, secs(1), t0);
    assert!(s.tick(t0 + secs(10)).is_none());
}

#[test]
fn consume_clears_pending_until_next_cycle() {
    let t0 = T0;
    let mut s = ReminderScheduler::new(true, false, secs(60), t0);
    assert!(s.tick(t0 + secs(60)).is_some());
    s.consume_due();
    s.on_feed_completed(t0 + secs(61));
    assert!(s.tick(t0 + secs(90)).is_none());
}

#[test]
fn set_interval_minutes_updates_and_clears_due() {
    let t0 = T0;
    let mut s = ReminderScheduler::new(true, false, secs(60), t0);
    assert!(s.tick(t0 + secs(60)).is_some());
    assert!(s.has_pending_due());
    s.set_interval_minutes(30, t0 + secs(61));
    assert_eq!(s.interval(), secs(30 * 60));
    assert!(!s.has_pending_due());
}

#[test]
fn set_enabled_false_clears_due() {
    let t0 = T0;
    let mut s = ReminderScheduler::new(true, false, secs(10), t0);
    assert!(s.tick(t0 + secs(10)).is_some());
    s.set_enabled(false, t0);
    assert!(!s.is_enabled());
    assert!(!s.has_pending_due());
    assert!(s.tick(t0 + secs(100)).is_none());
}

#[test]
fn interval_is_at_least_one_second() {
    let s = ReminderScheduler::new(true, false, 5, T0);
    assert_eq!(s.interval(), SEC);
}

#[test]
fn interval_minutes_are_clamped() {
    let mut s = ReminderScheduler::new(true, false, secs(60), T0);
    s.set_interval_minutes(1, T0);
    assert_eq!(s.interval(), secs(15 * 60));
    s.set_interval_minutes(999, T0);
    assert_eq!(s.interval(), secs(180 * 60));
}

#[test]
fn toggle_pause_reports_new_state() {
    let mut s = ReminderScheduler::new(true, false, secs(60), T0);
    assert!(s.toggle_paused(T0));
    assert!(s.is_paused());
    assert!(!s.toggle_paused(T0 + secs(5)));
    assert!(!s.is_paused());
    assert!(s.tick(T0 + secs(64)).is_none());
    assert!(s.tick(T0 + secs(65)).is_some());
}

#[test]
fn catchup_fires_at_most_once() {
    let mut s = ReminderScheduler::new(true, false, secs(60), T0);
    s.apply_startup_catchup(Some("not a time"), T0);
    assert!(s.tick(T0).is_none());
    let past = chrono::Utc::now() - chrono::Duration::seconds(7200);
    s.apply_startup_catchup(Some(&past.to_rfc3339()), T0);
    assert!(s.tick(T0).is_none());
}

#[test]
fn catchup_from_unix_seconds_and_elapsed_values() {
    let mut s = ReminderScheduler::new(true, false, secs(60), T0);
    s.apply_startup_catchup(Some("0"), T0);
    assert!(s.tick(T0).is_some());

    let mut r = ReminderScheduler::new(true, false, secs(60), T0);
    r.apply_startup_elapsed(Some(45), T0);
    assert!(r.tick(T0 + secs(14)).is_none());
    assert!(r.tick(T0 + secs(15)).is_some());

    let mut q = ReminderScheduler::new(true, false, secs(60), T0);
    q.apply_startup_elapsed(None, T0);
    assert!(q.tick(T0 + secs(59)).is_none());
    assert!(q.tick(T0 + secs(60)).is_some());
}

#[test]
fn catchup_ignored_when_paused() {
    let mut s = ReminderScheduler::new(true, true, secs(60), T0);
    s.apply_startup_elapsed(Some(3600), T0);
    assert!(!s.has_pending_due());
}

#[test]
fn defer_queues_a_reminder() {
    let mut s = ReminderScheduler::new(true, false, secs(60), T0);
    s.defer_due();
    assert!(s.has_pending_due());
    assert!(s.tick(T0 + secs(1)).is_some());
}

#[test]
fn resolve_interval_prefers_positive_override() {
    assert_eq!(ReminderScheduler::resolve_interval(60, None), secs(3600));
    assert_eq!(ReminderScheduler::resolve_interval(0, None), secs(60));
    assert_eq!(ReminderScheduler::resolve_interval(60, Some("45")), secs(45));
    assert_eq!(ReminderScheduler::resolve_interval(60, Some("0")), secs(3600));
    assert_eq!(ReminderScheduler::resolve_interval(60, Some("abc")), secs(3600));
    assert_eq!(ReminderScheduler::resolve_interval(60, Some("+45")), secs(45));
    assert_eq!(ReminderScheduler::resolve_interval(60, Some("-45")), secs(3600));
    assert_eq!(ReminderScheduler::resolve_interval(60, Some("+")), secs(3600));
    assert_eq!(ReminderScheduler::resolve_interval(60, Some("")), secs(3600));
    assert_eq!(ReminderScheduler::resolve_interval(60, Some(" 45")), secs(3600));
    assert_eq!(
        ReminderScheduler::resolve_interval(60, Some("18446744073709551615")),
        secs(18_446_744_073_709_551_615)
    );
    assert_eq!(ReminderScheduler::resolve_interval(60, Some("18446744073709551616")), secs(3600));
}

#[test]
fn now_rfc3339_reads_back_as_just_now() {
    let stamp = pawdesk::clock::now_rfc3339().expect("clock reads after the epoch");
    let elapsed = pawdesk::clock::parse_elapsed_since(&stamp).expect("own timestamp parses");
    assert!(elapsed < 5, "elapsed {elapsed}");
}

#[test]
fn consumed_reminder_does_not_refire_within_cycle() {
    let mut s = ReminderScheduler::new(true, false, secs(60), T0);
    assert!(s.tick(T0 + secs(60)).is_some());
    s.consume_due();
    assert!(!s.has_pending_due());
    assert!(s.tick(T0 + secs(60)).is_none());
    assert!(s.tick(T0 + secs(500)).is_none());
    s.on_feed_completed(T0 + secs(600));
    assert!(s.tick(T0 + secs(659)).is_none());
    assert!(s.tick(T0 + secs(660)).is_some());
}

#[test]
fn consumed_reminder_fires_again_after_resume() {
    let mut s = ReminderScheduler::new(true, false, secs(60), T0);
    assert!(s.tick(T0 + secs(60)).is_some());
    s.consume_due();
    s.set_paused(true, T0 + secs(61));
    s.set_paused(false, T0 + secs(62));
    assert!(s.tick(T0 + secs(121)).is_none());
    assert!(s.tick(T0 + secs(122)).is_some());
}

#[test]
fn same_interval_still_restarts_cycle() {
    let mut s = ReminderScheduler::new(true, false, secs(15 * 60), T0);
    assert!(s.tick(T0 + secs(15 * 60)).is_some());
    s.set_interval_minutes(15, T0 + secs(15 * 60 + 1));
    assert_eq!(s.interval(), secs(15 * 60));
    assert!(!s.has_pending_due());
    assert!(s.tick(T0 + secs(30 * 60)).is_none());
    assert!(s.tick(T0 + secs(30 * 60 + 1)).is_some());
}

#[test]
fn elapsed_since_reading_counts_whole_seconds() {
    assert_eq!(elapsed_since_at("1970-01-01T00:01:40Z", Some(secs(200) + 7)), Some(100));
    assert_eq!(elapsed_since_at("1970-01-01T01:00:00+01:00", Some(secs(30))), Some(30));
    assert_eq!(elapsed_since_at("1970-01-01T00:10:00Z", Some(secs(30))), Some(0));
    assert_eq!(elapsed_since_at("100", Some(secs(250) + 999_999_999)), Some(150));
    assert_eq!(elapsed_since_at("300", Some(secs(200))), None);
    assert_eq!(elapsed_since_at("1970-01-01T00:01:40Z", None), None);
    assert_eq!(elapsed_since_at("100", None), None);
    assert_eq!(elapsed_since_at("yesterday", Some(secs(200))), None);
}

#[test]
fn rfc3339_of_a_clock_reading() {
    assert_eq!(rfc3339_at(0).as_deref(), Some("1970-01-01T00:00:00+00:00"));
    assert_eq!(rfc3339_at(secs(86_400) + 500_000_000).as_deref(), Some("1970-01-02T00:00:00.500+00:00"));
    assert_eq!(rfc3339_at(u128::MAX), None);
}

#[test]
fn stored_stamp_reads_back_as_elapsed_seconds() {
    let then = secs(1_700_000_000) + 250_000_000;
    let stamp = rfc3339_at(then).expect("reading before year 10000");
    assert_eq!(stamp, "2023-11-14T22:13:20.250+00:00");
    assert_eq!(elapsed_since_at(&stamp, Some(then + secs(90) + 749_999_999)), Some(90));
    assert_eq!(elapsed_since_at(&stamp, Some(then + secs(90) + 750_000_000)), Some(90));
    assert_eq!(elapsed_since_at(&stamp, Some(then - secs(5))), Some(0));
    let late = 253_402_300_799 * SEC + 999_999_999;
    assert_eq!(rfc3339_at(late).as_deref(), Some("9999-12-31T23:59:59.999999999+00:00"));
    let last = 8_210_266_876_799 * SEC;
    assert!(rfc3339_at(last).is_some());
    assert!(rfc3339_at(last + SEC).is_none());
}
