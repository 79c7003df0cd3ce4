//! The reminder controls of the settings card: turning reminders on and
//! off, stepping the interval, and the pause button that the pet refuses.
use vstd::prelude::*;

use crate::config::{clamp_interval_minutes, ReminderConfig};
use crate::scheduler::{clamp_minutes, set_enabled_spec, set_interval_spec, ReminderScheduler};

verus! {

/// Minutes added or removed by one press of the interval buttons.
pub const INTERVAL_STEP_MINUTES: u32 = 15;

/// A reminder control pressed on the settings card.
#[derive(Debug, Clone, Copy, PartialEq, Eq, Structural)]
pub enum ReminderSetting {
    ToggleEnabled,
    IntervalDec,
    IntervalInc,
    TogglePause,
}

/// What a press did.
#[derive(Debug, Clone, Copy, PartialEq, Eq, Structural)]
pub enum SettingOutcome {
    /// The reminder config changed and is to be saved.
    Changed,
    /// Nothing changed (the interval was already at its bound).
    Unchanged,
    /// Pausing is not offered: the pet refuses, nothing changes.
    PauseRefused,
}

/// The interval one step down, not below the minimum.
pub open spec fn interval_down(cur: u32) -> u32 {
    let s: int = if cur >= INTERVAL_STEP_MINUTES { cur - INTERVAL_STEP_MINUTES } else { 0 };
    clamp_minutes(if s >= INTERVAL_STEP_MINUTES { s as u32 } else { INTERVAL_STEP_MINUTES })
}

/// The interval one step up, not above the maximum.
pub open spec fn interval_up(cur: u32) -> u32 {
    let s: int = if cur + INTERVAL_STEP_MINUTES <= u32::MAX { cur + INTERVAL_STEP_MINUTES } else { u32::MAX as int };
    clamp_minutes(s as u32)
}

/// Apply a reminder control to the config and the running scheduler.
pub fn apply_reminder_setting(
    config: &mut ReminderConfig,
    scheduler: &mut ReminderScheduler,
    setting: ReminderSetting,
    now: u128,
) -> (r: SettingOutcome)
    requires
        old(scheduler).wf(),
    ensures
        final(scheduler).wf(),
        final(config).paused == old(config).paused,
        final(config).custom_messages == old(config).custom_messages,
        final(config).last_completed_at == old(config).last_completed_at,
        match setting {
            ReminderSetting::ToggleEnabled => {
                &&& r == SettingOutcome::Changed
                &&& final(config).enabled == !old(config).enabled
                &&& final(config).interval_minutes == old(config).interval_minutes
                &&& final(scheduler)@ == set_enabled_spec(old(scheduler)@, !old(config).enabled, now)
            },
            ReminderSetting::IntervalDec | ReminderSetting::IntervalInc => {
                let next = if setting == ReminderSetting::IntervalDec {
                    interval_down(old(config).interval_minutes)
                } else {
                    interval_up(old(config).interval_minutes)
                };
                &&& final(config).enabled == old(config).enabled
                &&& final(config).interval_minutes == next
                &&& if next != old(config).interval_minutes {
                    &&& r == SettingOutcome::Changed
                    &&& final(scheduler)@ == set_interval_spec(old(scheduler)@, next, now)
                } else {
                    &&& r == SettingOutcome::Unchanged
                    &&& final(scheduler)@ == old(scheduler)@
                }
            },
            ReminderSetting::TogglePause => {
                &&& r == SettingOutcome::PauseRefused
                &&& final(config).enabled == old(config).enabled
                &&& final(config).interval_minutes == old(config).interval_minutes
                &&& final(scheduler)@ == old(scheduler)@
            },
        },
{
    match setting {
        ReminderSetting::ToggleEnabled => {
            let next = !config.enabled;
            config.enabled = next;
            scheduler.set_enabled(next, now);
            SettingOutcome::Changed
        },
        ReminderSetting::IntervalDec | ReminderSetting::IntervalInc => {
            let cur = config.interval_minutes;
            let next = if let ReminderSetting::IntervalDec = setting {
                let s = cur.saturating_sub(INTERVAL_STEP_MINUTES);
                clamp_interval_minutes(if s >= INTERVAL_STEP_MINUTES { s } else { INTERVAL_STEP_MINUTES })
            } else {
                clamp_interval_minutes(cur.saturating_add(INTERVAL_STEP_MINUTES))
            };
            if next != cur {
                config.interval_minutes = next;
                scheduler.set_interval_minutes(next, now);
                SettingOutcome::Changed
            } else {
                SettingOutcome::Unchanged
            }
        },
        ReminderSetting::TogglePause => SettingOutcome::PauseRefused,
    }
}

/// Pausing is not offered: a config saved paused is unpaused at startup.
/// Returns whether it was paused (and so must be saved again).
pub fn clear_leftover_pause(config: &mut ReminderConfig) -> (was_paused: bool)
    ensures
        was_paused == old(config).paused,
        !final(config).paused,
        final(config).enabled == old(config).enabled,
        final(config).interval_minutes == old(config).interval_minutes,
        final(config).custom_messages == old(config).custom_messages,
        final(config).last_completed_at == old(config).last_completed_at,
{
    if config.paused {
        config.paused = false;
        true
    } else {
        false
    }
}

/// One press of the interval buttons moves the interval by exactly 15
/// minutes, stopping at the product range of 15 to 180 minutes: down gives
/// `cur - 15` but not below 15 (nor above 180), up gives `cur + 15` but not
/// above 180.
pub proof fn lemma_interval_step(cur: u32)
    ensures
        interval_down(cur) == if cur < 30 { 15 } else if cur - 15 > 180 { 180 } else { cur - 15 },
        interval_up(cur) == if cur + 15 > 180 { 180 } else { cur + 15 },
        30 <= cur <= 180 ==> interval_down(cur) == cur - 15,
        cur <= 165 ==> interval_up(cur) == cur + 15,
        15 <= cur <= 165 ==> interval_down(interval_up(cur)) == cur,
{
}

} // verus!
