//! Configuration model rules: reminder settings, window position,
//! schema migration, the config file locations and debounced saving.
use vstd::prelude::*;

use std::path::{Path, PathBuf};

use crate::scheduler::clamp_minutes;

verus! {

pub const SCHEMA_VERSION: u32 = 3;

/// Product range for the reminder interval (minutes).
pub const REMINDER_INTERVAL_MIN: u32 = 15;
pub const REMINDER_INTERVAL_MAX: u32 = 180;

/// Default reminder interval (minutes).
pub const DEFAULT_INTERVAL_MINUTES: u32 = 60;

/// Nanoseconds a save waits after the last change.
pub const SAVE_DELAY_NANOS: u128 = 500_000_000;

/// Clamp the reminder interval to the allowed product range.
pub fn clamp_interval_minutes(v: u32) -> (r: u32)
    ensures
        r == clamp_minutes(v),
        REMINDER_INTERVAL_MIN <= r <= REMINDER_INTERVAL_MAX,
        REMINDER_INTERVAL_MIN <= v <= REMINDER_INTERVAL_MAX ==> r == v,
{
    if v < REMINDER_INTERVAL_MIN {
        REMINDER_INTERVAL_MIN
    } else if v > REMINDER_INTERVAL_MAX {
        REMINDER_INTERVAL_MAX
    } else {
        v
    }
}

/// Default for boolean settings that start switched on.
pub fn default_true() -> (r: bool)
    ensures
        r,
{
    true
}

/// Default reminder interval in minutes.
pub fn default_interval() -> (r: u32)
    ensures
        r == DEFAULT_INTERVAL_MINUTES,
{
    DEFAULT_INTERVAL_MINUTES
}

#[derive(Debug, Clone)]
pub struct ReminderConfig {
    pub enabled: bool,
    pub interval_minutes: u32,
    /// Tray pause flag (persisted).
    pub paused: bool,
    pub custom_messages: Vec<String>,
    /// RFC 3339 UTC timestamp of the last successful feed.
    pub last_completed_at: Option<String>,
}

impl Default for ReminderConfig {
    fn default() -> (r: Self)
        ensures
            r.enabled,
            r.interval_minutes == DEFAULT_INTERVAL_MINUTES,
            !r.paused,
            r.custom_messages@.len() == 0,
            r.last_completed_at.is_none(),
    {
        ReminderConfig {
            enabled: true,
            interval_minutes: DEFAULT_INTERVAL_MINUTES,
            paused: false,
            custom_messages: Vec::new(),
            last_completed_at: None,
        }
    }
}

impl ReminderConfig {
    /// Normalize fields after load or UI edit.
    pub fn sanitize(&mut self)
        ensures
            final(self).interval_minutes == clamp_minutes(old(self).interval_minutes),
            final(self).enabled == old(self).enabled,
            final(self).paused == old(self).paused,
            final(self).custom_messages == old(self).custom_messages,
            final(self).last_completed_at == old(self).last_completed_at,
    {
        self.interval_minutes = clamp_interval_minutes(self.interval_minutes);
    }
}

#[derive(Debug, Clone)]
pub struct WindowConfig {
    /// Outer position in screen physical pixels (absent until the first drag).
    pub x: Option<i32>,
    pub y: Option<i32>,
    /// Monitor hint for multi-monitor restore.
    pub monitor_hint: Option<String>,
}

impl Default for WindowConfig {
    fn default() -> (r: Self)
        ensures
            r.x.is_none(),
            r.y.is_none(),
            r.monitor_hint.is_none(),
    {
        WindowConfig { x: None, y: None, monitor_hint: None }
    }
}

/// Schema step of the config migration: the version after migration, and
/// whether the pet scale must be reset to the product default (configs older
/// than version 3 kept a full-size pet).
pub open spec fn migrate_schema_spec(version: u32) -> (u32, bool) {
    if version < 3 {
        (SCHEMA_VERSION, true)
    } else {
        (version, false)
    }
}

/// The version part of bringing an older config up to the current schema.
pub fn migrate_schema(version: u32) -> (r: (u32, bool))
    ensures
        r == migrate_schema_spec(version),
        r.0 >= SCHEMA_VERSION,
{
    let mut v = version;
    let mut reset_scale = false;
    if v == 0 {
        v = 1;
    }
    if v < 3 {
        reset_scale = true;
        v = 3;
    }
    if v < SCHEMA_VERSION {
        v = SCHEMA_VERSION;
    }
    (v, reset_scale)
}

#[verifier::external_type_specification]
#[verifier::external_body]
pub struct ExPath(std::path::Path);

/// The path that `PathBuf::as_path` borrows out of a path buffer.
pub uninterp spec fn borrowed_path(p: PathBuf) -> &'static Path;

/// Calls `PathBuf::as_path`. Claimed: the borrowed path depends on the
/// buffer alone (the buffer's own path, as the documentation says).
#[verifier::external_body]
fn borrow_path(p: &PathBuf) -> (r: &Path)
    ensures
        r == borrowed_path(*p),
{
    p.as_path()
}

/// Where the config file and its backup copy live.
pub struct ConfigRepository {
    config_path: PathBuf,
    backup_path: PathBuf,
}

impl ConfigRepository {
    pub closed spec fn spec_config_path(&self) -> PathBuf {
        self.config_path
    }

    pub closed spec fn spec_backup_path(&self) -> PathBuf {
        self.backup_path
    }

    /// A repository over the given primary and backup files.
    pub fn with_paths(config_path: PathBuf, backup_path: PathBuf) -> (r: Self)
        ensures
            r.spec_config_path() == config_path,
            r.spec_backup_path() == backup_path,
    {
        ConfigRepository { config_path, backup_path }
    }

    /// The primary config file.
    pub fn config_path(&self) -> (r: &Path)
        ensures
            r == borrowed_path(self.spec_config_path()),
    {
        borrow_path(&self.config_path)
    }

    /// The backup copy of the config file.
    pub fn backup_path(&self) -> (r: &Path)
        ensures
            r == borrowed_path(self.spec_backup_path()),
    {
        borrow_path(&self.backup_path)
    }
}

/// Schedules config saves so rapid drag events do not thrash the disk.
/// Times are nanoseconds on the monotonic clock.
pub struct DebouncedSaver {
    repo: ConfigRepository,
    dirty: bool,
    last_mark: Option<u128>,
    delay: u128,
}

impl DebouncedSaver {
    pub closed spec fn is_dirty(&self) -> bool {
        self.dirty
    }

    pub closed spec fn last_mark(&self) -> Option<u128> {
        self.last_mark
    }

    pub closed spec fn delay(&self) -> u128 {
        self.delay
    }

    pub closed spec fn repo(&self) -> ConfigRepository {
        self.repo
    }

    pub fn new(repo: ConfigRepository) -> (r: Self)
        ensures
            r.repo() == repo,
            !r.is_dirty(),
            r.last_mark().is_none(),
            r.delay() == SAVE_DELAY_NANOS,
    {
        DebouncedSaver { repo, dirty: false, last_mark: None, delay: SAVE_DELAY_NANOS }
    }

    pub fn repository(&self) -> (r: &ConfigRepository)
        ensures
            *r == self.repo(),
    {
        &self.repo
    }

    /// Record a change at `now`; the save waits for a quiet period after it.
    pub fn mark_dirty(&mut self, now: u128)
        ensures
            final(self).is_dirty(),
            final(self).last_mark() == Some(now),
            final(self).delay() == old(self).delay(),
            final(self).repo() == old(self).repo(),
    {
        self.dirty = true;
        self.last_mark = Some(now);
    }

    /// Whether a save is owed at `now`: there are unsaved changes and the
    /// delay has passed since the last one.
    pub fn save_due(&self, now: u128) -> (r: bool)
        ensures
            r == save_owed(self.is_dirty(), self.last_mark(), self.delay(), now),
    {
        if !self.dirty {
            return false;
        }
        match self.last_mark {
            None => false,
            Some(t) => now >= t && now - t >= self.delay,
        }
    }

    /// Record that the config was written.
    pub fn mark_saved(&mut self)
        ensures
            !final(self).is_dirty(),
            final(self).last_mark() == old(self).last_mark(),
            final(self).delay() == old(self).delay(),
            final(self).repo() == old(self).repo(),
    {
        self.dirty = false;
    }
}

/// Whether a save is owed at `now`.
pub open spec fn save_owed(dirty: bool, last_mark: Option<u128>, delay: u128, now: u128) -> bool {
    dirty && match last_mark {
        Some(t) => now >= t && now - t >= delay,
        None => false,
    }
}

/// A burst of changes is saved once: after the latest change at `t` a save
/// is owed exactly from `t + delay` on; after a save none is owed until the
/// next change.
pub proof fn lemma_debounce_quiet_period(t: u128, delay: u128, now: u128, last: Option<u128>)
    ensures
        save_owed(true, Some(t), delay, now) <==> now >= t + delay,
        !save_owed(false, last, delay, now),
{
}

} // verus!
