//! Reminder scheduler. In-session cycles run on a monotonic clock, given as
//! nanoseconds; the wall-clock time of the last feed is read only once, at
//! startup, to catch up on a reminder missed while the app was closed.
use vstd::prelude::*;

use crate::clock::{decimal_u64, elapsed_since_spec, parse_elapsed_since, parse_u64};

verus! {

/// Nanoseconds in one second.
pub const NANOS_PER_SEC: u128 = 1_000_000_000;

/// Shortest cycle the scheduler runs, in nanoseconds.
pub const MIN_INTERVAL_NANOS: u128 = 1_000_000_000;

/// Product range of the reminder interval, in minutes.
pub const INTERVAL_MINUTES_MIN: u32 = 15;
pub const INTERVAL_MINUTES_MAX: u32 = 180;

/// Outcome of a scheduler tick when a reminder should surface.
#[derive(Debug, Clone, Copy, PartialEq, Eq, Structural)]
pub struct ReminderDue;

/// The scheduler's state as the contracts see it. Times are nanoseconds on
/// the monotonic clock.
pub struct SchedulerModel {
    pub enabled: bool,
    pub paused: bool,
    pub interval: u128,
    pub cycle_started_at: u128,
    pub pending_due: bool,
    pub delivered: bool,
    pub catchup_consumed: bool,
}

#[derive(Debug, Clone)]
pub struct ReminderScheduler {
    enabled: bool,
    paused: bool,
    interval: u128,
    cycle_started_at: u128,
    /// Due but not yet consumed by the UI (or deferred by a drag).
    pending_due: bool,
    /// This cycle's reminder was handed to the UI: it does not fire again
    /// until a new cycle starts.
    delivered: bool,
    /// Startup catch-up already evaluated (it fires at most once).
    catchup_consumed: bool,
}

/// Monotonic time elapsed from `start` to `now` (zero if `now` is earlier).
pub open spec fn elapsed(now: u128, start: u128) -> int {
    if now >= start { now - start } else { 0 }
}

/// Whether a running scheduler has a reminder due at `now`: one is queued,
/// or a full interval has passed in a cycle whose reminder was not yet
/// delivered.
pub open spec fn due_at(m: SchedulerModel, now: u128) -> bool {
    m.pending_due || (!m.delivered && elapsed(now, m.cycle_started_at) >= m.interval)
}

/// Scheduler state after a tick at `now`, and whether the tick fires.
pub open spec fn tick_spec(m: SchedulerModel, now: u128) -> (SchedulerModel, bool) {
    if !m.enabled || m.paused {
        (m, false)
    } else if due_at(m, now) {
        (SchedulerModel { pending_due: true, ..m }, true)
    } else {
        (m, false)
    }
}

pub open spec fn set_enabled_spec(m: SchedulerModel, enabled: bool, now: u128) -> SchedulerModel {
    if enabled && !m.paused {
        SchedulerModel { enabled, cycle_started_at: now, pending_due: false, delivered: false, ..m }
    } else if !enabled {
        SchedulerModel { enabled, pending_due: false, ..m }
    } else {
        SchedulerModel { enabled, ..m }
    }
}

/// Clamp of a minute count to the product range.
pub open spec fn clamp_minutes(minutes: u32) -> u32 {
    if minutes < INTERVAL_MINUTES_MIN {
        INTERVAL_MINUTES_MIN
    } else if minutes > INTERVAL_MINUTES_MAX {
        INTERVAL_MINUTES_MAX
    } else {
        minutes
    }
}

pub open spec fn minutes_to_nanos(minutes: u32) -> u128 {
    (minutes * 60 * NANOS_PER_SEC) as u128
}

/// A new interval, clamped to the product range, restarts the cycle.
pub open spec fn set_interval_spec(m: SchedulerModel, minutes: u32, now: u128) -> SchedulerModel {
    SchedulerModel {
        interval: minutes_to_nanos(clamp_minutes(minutes)),
        cycle_started_at: now,
        pending_due: false,
        delivered: false,
        ..m
    }
}

pub open spec fn set_paused_spec(m: SchedulerModel, paused: bool, now: u128) -> SchedulerModel {
    if m.paused == paused {
        m
    } else if paused {
        SchedulerModel { paused, ..m }
    } else {
        SchedulerModel { paused, cycle_started_at: now, pending_due: false, delivered: false, ..m }
    }
}

pub open spec fn feed_spec(m: SchedulerModel, now: u128) -> SchedulerModel {
    SchedulerModel { pending_due: false, delivered: false, cycle_started_at: now, ..m }
}

/// The queued reminder was handed to the UI: it leaves the queue and the
/// cycle counts as delivered.
pub open spec fn consume_spec(m: SchedulerModel) -> SchedulerModel {
    SchedulerModel { pending_due: false, delivered: true, ..m }
}

/// Whole seconds as nanoseconds (always fits in a `u128`).
pub open spec fn secs_to_nanos_spec(secs: u64) -> u128 {
    (secs * NANOS_PER_SEC) as u128
}

/// Startup catch-up, given the whole seconds since the last feed (if known):
/// runs once; when enabled and running, an overdue feed queues one reminder
/// and restarts the cycle, a recent one keeps the time already served, and
/// an unknown one starts a fresh cycle.
pub open spec fn catchup_spec(m: SchedulerModel, elapsed_secs: Option<u64>, now: u128) -> SchedulerModel {
    if m.catchup_consumed {
        m
    } else if !m.enabled || m.paused {
        SchedulerModel { catchup_consumed: true, ..m }
    } else {
        match elapsed_secs {
            None => SchedulerModel { catchup_consumed: true, cycle_started_at: now, delivered: false, ..m },
            Some(secs) => {
                let e = secs_to_nanos_spec(secs);
                if e >= m.interval {
                    SchedulerModel {
                        catchup_consumed: true,
                        pending_due: true,
                        delivered: false,
                        cycle_started_at: now,
                        ..m
                    }
                } else {
                    SchedulerModel {
                        catchup_consumed: true,
                        delivered: false,
                        cycle_started_at: if now >= e { (now - e) as u128 } else { now },
                        ..m
                    }
                }
            },
        }
    }
}

impl View for ReminderScheduler {
    type V = SchedulerModel;

    closed spec fn view(&self) -> SchedulerModel {
        SchedulerModel {
            enabled: self.enabled,
            paused: self.paused,
            interval: self.interval,
            cycle_started_at: self.cycle_started_at,
            pending_due: self.pending_due,
            delivered: self.delivered,
            catchup_consumed: self.catchup_consumed,
        }
    }
}

/// The cycle length from the configured minutes, unless a positive
/// override in seconds is given (the app reads it from the environment).
pub open spec fn resolve_interval_spec(interval_minutes: u32, override_text: Option<Seq<char>>) -> u128 {
    let minutes = if interval_minutes < 1 { 1u32 } else { interval_minutes };
    match override_text {
        Some(t) => match decimal_u64(t) {
            Some(secs) => if secs > 0 { secs_to_nanos_spec(secs) } else { minutes_to_nanos(minutes) },
            None => minutes_to_nanos(minutes),
        },
        None => minutes_to_nanos(minutes),
    }
}

fn secs_to_nanos(secs: u64) -> (r: u128)
    ensures
        r == secs_to_nanos_spec(secs),
{
    assert(secs * 1_000_000_000 <= 18_446_744_073_709_551_615u128 * 1_000_000_000) by (nonlinear_arith)
        requires secs <= 18_446_744_073_709_551_615u128;
    secs as u128 * NANOS_PER_SEC
}

impl ReminderScheduler {
    /// Well-formed: the cycle is never shorter than one second.
    pub open spec fn wf(&self) -> bool {
        self@.interval >= MIN_INTERVAL_NANOS
    }

    pub fn new(enabled: bool, paused: bool, interval: u128, now: u128) -> (r: Self)
        ensures
            r.wf(),
            r@ == (SchedulerModel {
                enabled,
                paused,
                interval: if interval >= MIN_INTERVAL_NANOS { interval } else { MIN_INTERVAL_NANOS },
                cycle_started_at: now,
                pending_due: false,
                delivered: false,
                catchup_consumed: false,
            }),
    {
        ReminderScheduler {
            enabled,
            paused,
            interval: if interval >= MIN_INTERVAL_NANOS { interval } else { MIN_INTERVAL_NANOS },
            cycle_started_at: now,
            pending_due: false,
            delivered: false,
            catchup_consumed: false,
        }
    }

    /// Cycle length from config minutes, or from an override in whole
    /// seconds when one is given and positive.
    pub fn resolve_interval(interval_minutes: u32, override_secs: Option<&str>) -> (r: u128)
        ensures
            r == resolve_interval_spec(interval_minutes, match override_secs {
                Some(t) => Some(t@),
                None => None,
            }),
    {
        let minutes: u32 = if interval_minutes < 1 { 1 } else { interval_minutes };
        if let Some(text) = override_secs {
            if let Some(secs) = parse_u64(text) {
                if secs > 0 {
                    return secs_to_nanos(secs);
                }
            }
        }
        minutes as u128 * 60 * NANOS_PER_SEC
    }

    pub fn interval(&self) -> (r: u128)
        requires
            self.wf(),
        ensures
            r == self@.interval,
            r >= MIN_INTERVAL_NANOS,
    {
        self.interval
    }

    pub fn is_paused(&self) -> (r: bool)
        ensures
            r == self@.paused,
    {
        self.paused
    }

    pub fn is_enabled(&self) -> (r: bool)
        ensures
            r == self@.enabled,
    {
        self.enabled
    }

    pub fn set_enabled(&mut self, enabled: bool, now: u128)
        requires
            old(self).wf(),
        ensures
            final(self).wf(),
            final(self)@ == set_enabled_spec(old(self)@, enabled, now),
    {
        self.enabled = enabled;
        if enabled && !self.paused {
            self.cycle_started_at = now;
            self.pending_due = false;
            self.delivered = false;
        }
        if !enabled {
            self.pending_due = false;
        }
    }

    /// Update the cycle from product minutes (clamped to 15–180) and restart
    /// the cycle.
    pub fn set_interval_minutes(&mut self, minutes: u32, now: u128)
        requires
            old(self).wf(),
        ensures
            final(self).wf(),
            final(self)@ == set_interval_spec(old(self)@, minutes, now),
    {
        let minutes = if minutes < INTERVAL_MINUTES_MIN {
            INTERVAL_MINUTES_MIN
        } else if minutes > INTERVAL_MINUTES_MAX {
            INTERVAL_MINUTES_MAX
        } else {
            minutes
        };
        self.interval = minutes as u128 * 60 * NANOS_PER_SEC;
        self.cycle_started_at = now;
        self.pending_due = false;
        self.delivered = false;
    }

    /// Pause stops timing; resume restarts a full cycle.
    pub fn set_paused(&mut self, paused: bool, now: u128)
        requires
            old(self).wf(),
        ensures
            final(self).wf(),
            final(self)@ == set_paused_spec(old(self)@, paused, now),
    {
        if self.paused == paused {
            return;
        }
        self.paused = paused;
        if !paused {
            self.cycle_started_at = now;
            self.pending_due = false;
            self.delivered = false;
        }
    }

    pub fn toggle_paused(&mut self, now: u128) -> (r: bool)
        requires
            old(self).wf(),
        ensures
            final(self).wf(),
            final(self)@ == set_paused_spec(old(self)@, !old(self)@.paused, now),
            r == !old(self)@.paused,
    {
        let p = !self.paused;
        self.set_paused(p, now);
        self.paused
    }

    /// Startup catch-up with the seconds since the last feed already read.
    pub fn apply_startup_elapsed(&mut self, elapsed_secs: Option<u64>, now: u128)
        requires
            old(self).wf(),
        ensures
            final(self).wf(),
            final(self)@ == catchup_spec(old(self)@, elapsed_secs, now),
    {
        if self.catchup_consumed {
            return;
        }
        self.catchup_consumed = true;
        if !self.enabled || self.paused {
            return;
        }
        self.delivered = false;
        match elapsed_secs {
            None => {
                self.cycle_started_at = now;
            },
            Some(secs) => {
                let e = secs_to_nanos(secs);
                if e >= self.interval {
                    self.pending_due = true;
                    self.cycle_started_at = now;
                } else {
                    self.cycle_started_at = match now.checked_sub(e) {
                        Some(t) => t,
                        None => now,
                    };
                }
            },
        }
    }

    /// Startup catch-up from the stored wall-clock time of the last feed
    /// (RFC 3339 or unix seconds). Missing or unreadable: a fresh cycle.
    /// Overdue: at most one reminder queued. Recent: the remaining time is
    /// honored. The elapsed time is read from the wall clock, so the result
    /// is the catch-up for the reading that was taken.
    pub fn apply_startup_catchup(&mut self, last_completed_at: Option<&str>, now: u128)
        requires
            old(self).wf(),
        ensures
            final(self).wf(),
            exists|e: Option<u64>|
                {
                    &&& final(self)@ == catchup_spec(old(self)@, e, now)
                    &&& match last_completed_at {
                        None => e.is_none(),
                        Some(t) => exists|now_nanos: Option<u128>| e == elapsed_since_spec(t@, now_nanos),
                    }
                },
    {
        if self.catchup_consumed || !self.enabled || self.paused {
            let ghost e: Option<u64> = match last_completed_at {
                None => None,
                Some(t) => elapsed_since_spec(t@, None),
            };
            self.apply_startup_elapsed(None, now);
            assert(final(self)@ == catchup_spec(old(self)@, e, now));
            return;
        }
        let elapsed = match last_completed_at {
            Some(raw) => parse_elapsed_since(raw),
            None => None,
        };
        self.apply_startup_elapsed(elapsed, now);
    }

    /// Mark the due reminder as delivered to the UI, so that it does not
    /// fire again until the next cycle.
    pub fn consume_due(&mut self)
        requires
            old(self).wf(),
        ensures
            final(self).wf(),
            final(self)@ == consume_spec(old(self)@),
    {
        self.pending_due = false;
        self.delivered = true;
    }

    /// Queue the reminder without delivering it (e.g. deferred by a drag).
    pub fn defer_due(&mut self)
        requires
            old(self).wf(),
        ensures
            final(self).wf(),
            final(self)@ == (SchedulerModel { pending_due: true, ..old(self)@ }),
    {
        self.pending_due = true;
    }

    pub fn has_pending_due(&self) -> (r: bool)
        ensures
            r == self@.pending_due,
    {
        self.pending_due
    }

    /// After a successful feed: restart the full interval.
    pub fn on_feed_completed(&mut self, now: u128)
        requires
            old(self).wf(),
        ensures
            final(self).wf(),
            final(self)@ == feed_spec(old(self)@, now),
    {
        self.pending_due = false;
        self.delivered = false;
        self.cycle_started_at = now;
    }

    /// Advance the scheduler. `Some(ReminderDue)` when the UI should start
    /// a reminder.
    pub fn tick(&mut self, now: u128) -> (r: Option<ReminderDue>)
        requires
            old(self).wf(),
        ensures
            final(self).wf(),
            final(self)@ == tick_spec(old(self)@, now).0,
            r.is_some() == tick_spec(old(self)@, now).1,
    {
        if !self.enabled || self.paused {
            return None;
        }
        if self.pending_due {
            return Some(ReminderDue);
        }
        if self.delivered {
            return None;
        }
        let since = if now >= self.cycle_started_at { now - self.cycle_started_at } else { 0 };
        if since >= self.interval {
            self.pending_due = true;
            return Some(ReminderDue);
        }
        None
    }
}

/// A disabled or paused scheduler never fires and a tick changes nothing.
pub proof fn lemma_off_never_fires(m: SchedulerModel, now: u128)
    requires
        !m.enabled || m.paused,
    ensures
        tick_spec(m, now) == (m, false),
{
}

/// While running, a tick fires exactly when a reminder is queued or a full
/// interval has passed in an undelivered cycle; once it fires, the reminder
/// stays queued, so every later tick fires too until it is consumed.
pub proof fn lemma_tick_fires_when_due(m: SchedulerModel, now: u128, later: u128)
    requires
        m.enabled,
        !m.paused,
    ensures
        tick_spec(m, now).1 == (m.pending_due || (!m.delivered && elapsed(now, m.cycle_started_at) >= m.interval)),
        tick_spec(m, now).1 ==> tick_spec(tick_spec(m, now).0, later).1,
{
}

/// A reminder handed to the UI does not fire again in the same cycle: after
/// `consume_due`, no tick fires and none changes the state, until something
/// starts a new cycle.
pub proof fn lemma_consumed_does_not_refire(m: SchedulerModel, t: u128)
    ensures
        !consume_spec(m).pending_due,
        !tick_spec(consume_spec(m), t).1,
        tick_spec(consume_spec(m), t).0 == consume_spec(m),
{
}

/// Pausing blocks reminders; resuming restarts a full cycle: nothing fires
/// until a whole interval after the resume, and then it does.
pub proof fn lemma_pause_blocks_and_resume_restarts(
    m: SchedulerModel,
    t_pause: u128,
    t_resume: u128,
    t: u128,
)
    requires
        m.enabled,
        !m.paused,
        m.interval >= MIN_INTERVAL_NANOS,
    ensures
        !tick_spec(set_paused_spec(m, true, t_pause), t).1,
        ({
            let r = set_paused_spec(set_paused_spec(m, true, t_pause), false, t_resume);
            &&& t < t_resume + m.interval ==> !tick_spec(r, t).1
            &&& t >= t_resume + m.interval ==> tick_spec(r, t).1
        }),
{
}

/// Feeding restarts the cycle: no reminder until a full interval after the
/// feed, and one at that point.
pub proof fn lemma_feed_restarts_cycle(m: SchedulerModel, t_feed: u128, t: u128)
    requires
        m.enabled,
        !m.paused,
        m.interval >= MIN_INTERVAL_NANOS,
    ensures
        t < t_feed + m.interval ==> !tick_spec(feed_spec(m, t_feed), t).1,
        t >= t_feed + m.interval ==> tick_spec(feed_spec(m, t_feed), t).1,
{
}

/// Disabling clears any pending reminder and silences every later tick.
pub proof fn lemma_disable_clears_due(m: SchedulerModel, now: u128, t: u128)
    ensures
        !set_enabled_spec(m, false, now).pending_due,
        !tick_spec(set_enabled_spec(m, false, now), t).1,
{
}

/// Enabling a scheduler that is not paused starts a fresh cycle: no reminder
/// before a full interval from `now`, one at that point. Enabling a paused
/// one keeps its queue and its cycle.
pub proof fn lemma_enable_restarts_cycle(m: SchedulerModel, now: u128, t: u128)
    requires
        m.interval >= MIN_INTERVAL_NANOS,
    ensures
        !m.paused ==> {
            let r = set_enabled_spec(m, true, now);
            &&& !r.pending_due
            &&& t < now + m.interval ==> !tick_spec(r, t).1
            &&& t >= now + m.interval ==> tick_spec(r, t).1
        },
        m.paused ==> set_enabled_spec(m, true, now) == (SchedulerModel { enabled: true, ..m }),
{
}

/// A new interval always restarts the cycle and drops a queued reminder;
/// the interval lands in the product range of 15 to 180 minutes, and
/// nothing fires before a full new interval has passed.
pub proof fn lemma_interval_change_restarts(m: SchedulerModel, minutes: u32, now: u128, t: u128)
    ensures
        ({
            let r = set_interval_spec(m, minutes, now);
            &&& r.interval == minutes_to_nanos(clamp_minutes(minutes))
            &&& !r.pending_due
            &&& r.cycle_started_at == now
            &&& r.enabled == m.enabled
            &&& r.paused == m.paused
            &&& 15 * 60 * NANOS_PER_SEC <= r.interval <= 180 * 60 * NANOS_PER_SEC
            &&& t < now + r.interval ==> !tick_spec(r, t).1
        }),
{
}

/// The startup catch-up runs at most once: a second call changes nothing.
pub proof fn lemma_catchup_at_most_once(
    m: SchedulerModel,
    e1: Option<u64>,
    now1: u128,
    e2: Option<u64>,
    now2: u128,
)
    ensures
        catchup_spec(catchup_spec(m, e1, now1), e2, now2) == catchup_spec(m, e1, now1),
{
}

/// Catch-up on a running scheduler: an unknown elapsed time starts a fresh
/// cycle; an overdue feed queues exactly one reminder at startup; a recent
/// one fires only once the remaining part of the interval has passed.
pub proof fn lemma_catchup_outcome(m: SchedulerModel, secs: u64, now: u128, t: u128)
    requires
        m.enabled,
        !m.paused,
        !m.catchup_consumed,
        !m.pending_due,
        m.interval >= MIN_INTERVAL_NANOS,
    ensures
        ({
            let c = catchup_spec(m, None, now);
            &&& !c.pending_due
            &&& t < now + m.interval ==> !tick_spec(c, t).1
            &&& t >= now + m.interval ==> tick_spec(c, t).1
        }),
        secs_to_nanos_spec(secs) >= m.interval ==> catchup_spec(m, Some(secs), now).pending_due,
        secs_to_nanos_spec(secs) < m.interval && now >= secs_to_nanos_spec(secs) ==> {
            let c = catchup_spec(m, Some(secs), now);
            &&& !c.pending_due
            &&& t < now + (m.interval - secs_to_nanos_spec(secs)) ==> !tick_spec(c, t).1
            &&& t >= now + (m.interval - secs_to_nanos_spec(secs)) ==> tick_spec(c, t).1
        },
{
}

} // verus!
