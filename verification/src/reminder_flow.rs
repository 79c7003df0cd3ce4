//! When a due reminder may start: the decision the desktop shell takes each
//! time the scheduler reports a reminder due, or the pet is shown again.
use vstd::prelude::*;

use crate::clock::{clock_stamp, now_rfc3339};
use crate::config::{DebouncedSaver, ReminderConfig};
use crate::scheduler::{feed_spec, ReminderScheduler};
use crate::state::PetState;

verus! {

/// What to do with a due reminder.
#[derive(Debug, Clone, Copy, PartialEq, Eq, Structural)]
pub enum ReminderStart {
    /// A reminder is already running: the due one is absorbed by it.
    AlreadyRunning,
    /// Not now (pet hidden, an overlay open, or the pet being dragged):
    /// keep the reminder pending.
    Defer,
    /// Start the reminder; when the pet hides at an edge, bring it back
    /// first.
    Start { restore_from_edge: bool },
}

/// The decision for a due reminder, given the pet's state, whether the pet
/// is visible and whether the menu or settings overlay is open.
pub open spec fn reminder_start_spec(state: PetState, visible: bool, overlay_open: bool) -> ReminderStart {
    if state is Reminder {
        ReminderStart::AlreadyRunning
    } else if !visible || overlay_open || state is Dragging {
        ReminderStart::Defer
    } else {
        ReminderStart::Start { restore_from_edge: state is HiddenAtEdge }
    }
}

/// Decide what to do with a due reminder.
pub fn reminder_start_decision(state: &PetState, visible: bool, overlay_open: bool) -> (r: ReminderStart)
    ensures
        r == reminder_start_spec(*state, visible, overlay_open),
{
    if state.is_reminder() {
        return ReminderStart::AlreadyRunning;
    }
    if !visible || overlay_open {
        return ReminderStart::Defer;
    }
    match state {
        PetState::Dragging => ReminderStart::Defer,
        PetState::HiddenAtEdge(_) => ReminderStart::Start { restore_from_edge: true },
        _ => ReminderStart::Start { restore_from_edge: false },
    }
}

/// Whether showing the pet again must deliver a reminder: one was kept
/// pending by the pet, or the scheduler still holds a due one.
pub fn reminder_owed_on_show(pending_reminder: bool, scheduler: &ReminderScheduler) -> (r: bool)
    ensures
        r == (pending_reminder || scheduler@.pending_due),
{
    pending_reminder || scheduler.has_pending_due()
}

/// The pet was fed at the wall-clock time `stamp` (RFC 3339 text; `None`
/// when the clock could not be read, and then the previous time stays):
/// record it in the config, schedule a save, and restart the reminder cycle.
pub fn record_feed_completed(
    config: &mut ReminderConfig,
    saver: &mut DebouncedSaver,
    scheduler: &mut ReminderScheduler,
    stamp: Option<String>,
    now: u128,
)
    requires
        old(scheduler).wf(),
    ensures
        final(config).last_completed_at == match stamp {
            Some(t) => Some(t),
            None => old(config).last_completed_at,
        },
        final(config).enabled == old(config).enabled,
        final(config).interval_minutes == old(config).interval_minutes,
        final(config).paused == old(config).paused,
        final(config).custom_messages == old(config).custom_messages,
        final(saver).is_dirty(),
        final(saver).last_mark() == Some(now),
        final(saver).delay() == old(saver).delay(),
        final(saver).repo() == old(saver).repo(),
        final(scheduler).wf(),
        final(scheduler)@ == feed_spec(old(scheduler)@, now),
{
    if let Some(t) = stamp {
        config.last_completed_at = Some(t);
    }
    saver.mark_dirty(now);
    scheduler.on_feed_completed(now);
}

/// The pet was fed: `record_feed_completed` with the wall clock's current
/// time as RFC 3339 text, read through `now_rfc3339`.
pub fn handle_feed_completed(
    config: &mut ReminderConfig,
    saver: &mut DebouncedSaver,
    scheduler: &mut ReminderScheduler,
    now: u128,
)
    requires
        old(scheduler).wf(),
    ensures
        final(config).last_completed_at == old(config).last_completed_at
            || (final(config).last_completed_at matches Some(t) && clock_stamp(t@)),
        final(config).enabled == old(config).enabled,
        final(config).interval_minutes == old(config).interval_minutes,
        final(config).paused == old(config).paused,
        final(config).custom_messages == old(config).custom_messages,
        final(saver).is_dirty(),
        final(saver).last_mark() == Some(now),
        final(saver).delay() == old(saver).delay(),
        final(saver).repo() == old(saver).repo(),
        final(scheduler).wf(),
        final(scheduler)@ == feed_spec(old(scheduler)@, now),
{
    let stamp = now_rfc3339();
    record_feed_completed(config, saver, scheduler, stamp, now);
}

/// A due reminder is never dropped: it either joins the running reminder,
/// starts, or stays pending; and it starts whenever the visible pet is free
/// (not dragged, no overlay open, no reminder running).
pub proof fn lemma_due_reminder_not_lost(state: PetState, visible: bool, overlay_open: bool)
    ensures
        ({
            let d = reminder_start_spec(state, visible, overlay_open);
            &&& (d is AlreadyRunning) == (state is Reminder)
            &&& (visible && !overlay_open && !(state is Dragging) && !(state is Reminder)) ==> d is Start
            &&& d is Defer ==> (!visible || overlay_open || state is Dragging)
        }),
{
}

} // verus!
