//! Wall-clock access and the text formats that the reminder catch-up reads:
//! RFC 3339 timestamps (through chrono) and plain unix seconds.
use vstd::prelude::*;

use chrono::DateTime;
use std::time::{Duration, SystemTime};

verus! {

/// An instant as chrono reports it: unix seconds and the nanoseconds past
/// that second (above 999,999,999 only during a leap second).
#[derive(Debug, Clone, Copy, PartialEq, Eq, Structural)]
pub struct UnixInstant {
    pub secs: i64,
    pub nanos: u32,
}

/// The instant an RFC 3339 text denotes, when chrono's parser accepts it.
pub uninterp spec fn rfc3339_instant(text: Seq<char>) -> Option<(i64, u32)>;

/// Unix seconds of the first second of January 1, 262144 BCE, chrono's
/// earliest date.
pub const UTC_MIN_SECS: i64 = -8_334_601_315_200;

/// Unix seconds of the last second of December 31, 262142 CE, chrono's latest
/// date.
pub const UTC_MAX_SECS: i64 = 8_210_266_876_799;

/// Whether `chrono::DateTime::from_timestamp(secs, nanos)` yields an instant:
/// the day lies in chrono's date range, and the sub-second part is below one
/// second, or below two on the last second of a minute (a leap second).
pub open spec fn utc_representable(secs: i64, nanos: u32) -> bool {
    &&& UTC_MIN_SECS <= secs <= UTC_MAX_SECS
    &&& nanos < 2_000_000_000
    &&& nanos >= 1_000_000_000 ==> secs % 60 == 59
}

/// `v / d` rounded toward zero.
pub open spec fn div_toward_zero(v: int, d: int) -> int {
    if v >= 0 { v / d } else { -((-v) / d) }
}

/// Whole seconds from `earlier` to `later`, truncated toward zero, as
/// chrono's `DateTime` subtraction and `TimeDelta::num_seconds` give them: a
/// leap second of one instant counts as a whole second once the other lies
/// in a later (or earlier) second of its day.
pub open spec fn utc_seconds_between(later: (i64, u32), earlier: (i64, u32)) -> int {
    let (s1, n1) = later;
    let (s2, n2) = earlier;
    let t1 = s1 % 86_400;
    let t2 = s2 % 86_400;
    let leap: int = if t1 > t2 && n2 >= 1_000_000_000 { 1 } else if t1 < t2 && n1 >= 1_000_000_000 { -1 } else { 0 };
    div_toward_zero((s1 - s2 + leap) * 1_000_000_000 + (n1 - n2), 1_000_000_000)
}

/// The text `to_rfc3339` gives for the UTC instant `(secs, nanos)`.
pub uninterp spec fn rfc3339_text_of(secs: i64, nanos: u32) -> Seq<char>;

pub open spec fn rfc3339_accepts(text: Seq<char>) -> bool {
    rfc3339_instant(text).is_some()
}

/// Calls `chrono::DateTime::parse_from_rfc3339` and reads the parsed
/// instant's `timestamp` and `timestamp_subsec_nanos`. Claimed: the result is
/// a function of the text alone, and chrono's documentation shows that these
/// two parts always rebuild an instant through `from_timestamp`.
#[verifier::external_body]
fn rfc3339_to_unix(raw: &str) -> (r: Option<UnixInstant>)
    ensures
        r.is_some() == rfc3339_instant(raw@).is_some(),
        r matches Some(u) ==> rfc3339_instant(raw@) == Some((u.secs, u.nanos)),
        r matches Some(u) ==> utc_representable(u.secs, u.nanos),
{
    match DateTime::parse_from_rfc3339(raw) {
        Ok(dt) => Some(UnixInstant { secs: dt.timestamp(), nanos: dt.timestamp_subsec_nanos() }),
        Err(_) => None,
    }
}

/// Nanoseconds in one second.
pub const CLOCK_NANOS_PER_SEC: u128 = 1_000_000_000;

/// Unix seconds of 10000-01-01T00:00:00Z: earlier instants from the epoch on
/// have a four-digit year, which RFC 3339 requires.
pub const FOUR_DIGIT_YEAR_END_SECS: i64 = 253_402_300_800;

/// The instant a clock reading in nanoseconds since the unix epoch denotes,
/// as whole seconds and the nanoseconds past them, when the seconds fit.
pub open spec fn instant_of_nanos(nanos: u128) -> Option<(i64, u32)> {
    if nanos / CLOCK_NANOS_PER_SEC <= i64::MAX {
        Some(((nanos / CLOCK_NANOS_PER_SEC) as i64, (nanos % CLOCK_NANOS_PER_SEC) as u32))
    } else {
        None
    }
}

/// Formats an instant with `chrono::DateTime::from_timestamp` and
/// `to_rfc3339`. Claimed: there is text exactly when `from_timestamp` yields
/// an instant, and it is a function of the instant. For a whole-second part
/// from the epoch up to the end of year 9999 and a sub-second part below one
/// second, the text has a four-digit year and every digit of the sub-second
/// part, which makes it RFC 3339 (as `to_rfc3339` documents) for that
/// instant; `parse_from_rfc3339`, which parses all valid RFC 3339 values,
/// reads back its seconds and nanoseconds, as `from_timestamp` documents
/// they round-trip.
#[verifier::external_body]
fn rfc3339_text(u: UnixInstant) -> (r: Option<String>)
    ensures
        r.is_some() == utc_representable(u.secs, u.nanos),
        r matches Some(t) ==> t@ == rfc3339_text_of(u.secs, u.nanos),
        0 <= u.secs < FOUR_DIGIT_YEAR_END_SECS && u.nanos < 1_000_000_000 ==> (r matches Some(t)
            ==> rfc3339_instant(t@) == Some((u.secs, u.nanos))),
{
    match DateTime::from_timestamp(u.secs, u.nanos) {
        Some(dt) => Some(dt.to_rfc3339()),
        None => None,
    }
}

/// Splits a clock reading in nanoseconds since the epoch into an instant.
fn instant_from_nanos(nanos: u128) -> (r: Option<UnixInstant>)
    ensures
        match r {
            Some(u) => instant_of_nanos(nanos) == Some((u.secs, u.nanos)),
            None => instant_of_nanos(nanos).is_none(),
        },
{
    let secs = nanos / CLOCK_NANOS_PER_SEC;
    if secs <= i64::MAX as u128 {
        Some(UnixInstant { secs: secs as i64, nanos: (nanos % CLOCK_NANOS_PER_SEC) as u32 })
    } else {
        None
    }
}

/// The RFC 3339 text of a clock reading, when chrono represents its instant.
pub open spec fn stamp_of_reading(nanos: u128) -> Option<Seq<char>> {
    match instant_of_nanos(nanos) {
        Some(i) => if utc_representable(i.0, i.1) { Some(rfc3339_text_of(i.0, i.1)) } else { None },
        None => None,
    }
}

/// RFC 3339 text (UTC) for a clock reading of `nanos` nanoseconds after the
/// unix epoch. Every reading before year 10000 has one, and the RFC 3339
/// parser reads that text back as the reading's instant.
pub fn rfc3339_at(nanos: u128) -> (r: Option<String>)
    ensures
        match r {
            Some(t) => stamp_of_reading(nanos) == Some(t@),
            None => stamp_of_reading(nanos).is_none(),
        },
        nanos < FOUR_DIGIT_YEAR_END_SECS * CLOCK_NANOS_PER_SEC ==> {
            &&& r is Some
            &&& r matches Some(t) ==> rfc3339_instant(t@) == instant_of_nanos(nanos)
        },
{
    match instant_from_nanos(nanos) {
        Some(u) => rfc3339_text(u),
        None => None,
    }
}

/// A text that `rfc3339_at` gives for some clock reading.
pub open spec fn clock_stamp(t: Seq<char>) -> bool {
    exists|n: u128| #[trigger] stamp_of_reading(n) == Some(t)
}

/// The current UTC time as RFC 3339 text, for the config. `None` when the
/// system clock reads before the unix epoch or chrono cannot represent the
/// instant. The text is what `rfc3339_at` gives for some reading of the
/// clock; the reading itself is not known here.
pub fn now_rfc3339() -> (r: Option<String>)
    ensures
        r matches Some(t) ==> clock_stamp(t@),
{
    match unix_now_nanos() {
        Some(n) => rfc3339_at(n),
        None => None,
    }
}

/// Calls `Sub` on two `chrono::DateTime<Utc>` values rebuilt with
/// `DateTime::from_timestamp`, then `TimeDelta::num_seconds`. Claimed: a
/// result exactly when both instants are representable, and then the whole
/// seconds between them as `utc_seconds_between` states them.
#[verifier::external_body]
fn whole_seconds_between(later: UnixInstant, earlier: UnixInstant) -> (r: Option<i64>)
    ensures
        r.is_some() == (utc_representable(later.secs, later.nanos) && utc_representable(earlier.secs, earlier.nanos)),
        r matches Some(v) ==> v == utc_seconds_between((later.secs, later.nanos), (earlier.secs, earlier.nanos)),
{
    match (DateTime::from_timestamp(later.secs, later.nanos), DateTime::from_timestamp(earlier.secs, earlier.nanos)) {
        (Some(a), Some(b)) => Some((a - b).num_seconds()),
        _ => None,
    }
}

#[verifier::external_type_specification]
#[verifier::external_body]
pub struct ExSystemTime(SystemTime);

/// Calls `SystemTime::now`. It reads the clock, so nothing is stated.
#[verifier::external_body]
fn system_now() -> (r: SystemTime) {
    SystemTime::now()
}

/// Calls `SystemTime::duration_since` with `UNIX_EPOCH`; its error (a time
/// before the epoch) becomes `None`. The result depends on `t`, which Verus
/// cannot see into, so nothing is stated.
#[verifier::external_body]
fn since_unix_epoch(t: SystemTime) -> (r: Option<Duration>) {
    match t.duration_since(std::time::UNIX_EPOCH) {
        Ok(d) => Some(d),
        Err(_) => None,
    }
}

/// Calls `Duration::as_nanos`. Claimed only the bound a `Duration` places on
/// it, as its documentation gives it: whole seconds in a `u64` and fewer than
/// a billion nanoseconds besides.
#[verifier::external_body]
fn duration_nanos(d: Duration) -> (r: u128)
    ensures
        r / CLOCK_NANOS_PER_SEC <= u64::MAX,
{
    d.as_nanos()
}

/// The wall clock in nanoseconds since the unix epoch; `None` when it reads
/// before the epoch.
pub(crate) fn unix_now_nanos() -> (r: Option<u128>)
    ensures
        r matches Some(n) ==> n / CLOCK_NANOS_PER_SEC <= u64::MAX,
{
    match since_unix_epoch(system_now()) {
        Some(d) => Some(duration_nanos(d)),
        None => None,
    }
}

/// Value of a non-empty run of ASCII digits.
pub open spec fn digits_value(s: Seq<char>) -> int
    decreases s.len(),
{
    if s.len() == 0 {
        0
    } else {
        digits_value(s.drop_last()) * 10 + (s.last() as int - '0' as int)
    }
}

pub open spec fn all_ascii_digits(s: Seq<char>) -> bool {
    forall|i: int| 0 <= i < s.len() ==> '0' <= #[trigger] s[i] && s[i] <= '9'
}

/// What `str::parse::<u64>` returns: an optional leading `+`, then one or
/// more ASCII digits whose value fits in a `u64`.
pub open spec fn decimal_u64(s: Seq<char>) -> Option<u64> {
    let d = if s.len() > 0 && s[0] == '+' { s.drop_first() } else { s };
    if d.len() > 0 && all_ascii_digits(d) && digits_value(d) <= u64::MAX {
        Some(digits_value(d) as u64)
    } else {
        None
    }
}

/// A run of digits is worth at least any of its prefixes.
proof fn lemma_digits_prefix_le(d: Seq<char>, j: int)
    requires
        all_ascii_digits(d),
        0 <= j <= d.len(),
    ensures
        digits_value(d.take(j)) <= digits_value(d),
    decreases d.len(),
{
    if j < d.len() {
        let e = d.drop_last();
        assert(e.take(j) =~= d.take(j));
        assert(all_ascii_digits(e));
        lemma_digits_prefix_le(e, j);
        lemma_digits_nonneg(e);
    } else {
        assert(d.take(j) =~= d);
    }
}

proof fn lemma_digits_nonneg(d: Seq<char>)
    requires
        all_ascii_digits(d),
    ensures
        digits_value(d) >= 0,
    decreases d.len(),
{
    if d.len() > 0 {
        assert(all_ascii_digits(d.drop_last()));
        lemma_digits_nonneg(d.drop_last());
    }
}

/// What `str::parse::<u64>` gives: the value of an optional `+` followed by
/// ASCII digits, when it fits.
pub(crate) fn parse_u64(raw: &str) -> (r: Option<u64>)
    ensures
        r == decimal_u64(raw@),
{
    let n = raw.unicode_len();
    let mut start: usize = 0;
    if n > 0 && raw.get_char(0) == '+' {
        start = 1;
    }
    let ghost d = if raw@.len() > 0 && raw@[0] == '+' { raw@.drop_first() } else { raw@ };
    assert(d =~= raw@.subrange(start as int, n as int));
    if start >= n {
        return None;
    }
    let mut i: usize = start;
    let mut v: u64 = 0;
    while i < n
        invariant
            start <= i <= n,
            n == raw@.len(),
            d =~= raw@.subrange(start as int, n as int),
            d == (if raw@.len() > 0 && raw@[0] == '+' { raw@.drop_first() } else { raw@ }),
            all_ascii_digits(d.take(i - start)),
            v == digits_value(d.take(i - start)),
        decreases n - i,
    {
        let c = raw.get_char(i);
        let ghost k = i - start;
        assert(d[k as int] == c);
        if c < '0' || c > '9' {
            assert(!all_ascii_digits(d));
            return None;
        }
        assert(d.take(k + 1).drop_last() =~= d.take(k as int));
        let digit = (c as u32 - '0' as u32) as u64;
        let next = match v.checked_mul(10) {
            Some(t) => t.checked_add(digit),
            None => None,
        };
        match next {
            Some(t) => {
                v = t;
            },
            None => {
                proof {
                    assert(all_ascii_digits(d.take(k + 1)));
                    if all_ascii_digits(d) {
                        lemma_digits_prefix_le(d, k + 1);
                    }
                }
                return None;
            },
        }
        i += 1;
    }
    assert(d.take(n - start) =~= d);
    Some(v)
}

/// What the catch-up reads from a stored completion time, given a clock
/// reading in nanoseconds since the unix epoch: an RFC 3339 text counts
/// whole seconds up to the reading (a future time counts as zero);
/// otherwise unix seconds count up to the reading's whole seconds, when they
/// are not after it. Without a usable reading nothing is known.
pub open spec fn elapsed_since_spec(raw: Seq<char>, now_nanos: Option<u128>) -> Option<u64> {
    match rfc3339_instant(raw) {
        Some(then) => match now_nanos {
            Some(n) => match instant_of_nanos(n) {
                Some(now) => if utc_representable(now.0, now.1) {
                    let secs = utc_seconds_between(now, then);
                    if secs < 0 { Some(0u64) } else { Some(secs as u64) }
                } else {
                    None
                },
                None => None,
            },
            None => None,
        },
        None => match decimal_u64(raw) {
            Some(secs) => match now_nanos {
                Some(n) => if n / CLOCK_NANOS_PER_SEC >= secs && n / CLOCK_NANOS_PER_SEC - secs <= u64::MAX {
                    Some((n / CLOCK_NANOS_PER_SEC - secs) as u64)
                } else {
                    None
                },
                None => None,
            },
            None => None,
        },
    }
}

/// Whole seconds from the instant that `raw` records (an RFC 3339
/// timestamp, or else unix seconds) to the clock reading `now_nanos`.
pub fn elapsed_since_at(raw: &str, now_nanos: Option<u128>) -> (r: Option<u64>)
    ensures
        r == elapsed_since_spec(raw@, now_nanos),
{
    match rfc3339_to_unix(raw) {
        Some(then) => {
            let n = match now_nanos {
                Some(n) => n,
                None => return None,
            };
            let now = match instant_from_nanos(n) {
                Some(u) => u,
                None => return None,
            };
            match whole_seconds_between(now, then) {
                Some(secs) => if secs < 0 { Some(0u64) } else { Some(secs as u64) },
                None => None,
            }
        },
        None => match parse_u64(raw) {
            Some(secs) => match now_nanos {
                Some(n) => {
                    let now_s = n / CLOCK_NANOS_PER_SEC;
                    if now_s >= secs as u128 && now_s - (secs as u128) <= u64::MAX as u128 {
                        Some((now_s - secs as u128) as u64)
                    } else {
                        None
                    }
                },
                None => None,
            },
            None => None,
        },
    }
}

/// Whole seconds elapsed since the instant that `raw` records, by the wall
/// clock. The answer is what `elapsed_since_spec` gives for the reading of
/// the clock that was taken; without one (a clock before the epoch) it is
/// `None`.
pub fn parse_elapsed_since(raw: &str) -> (r: Option<u64>)
    ensures
        exists|now_nanos: Option<u128>| r == elapsed_since_spec(raw@, now_nanos),
        !rfc3339_accepts(raw@) && decimal_u64(raw@).is_none() ==> r.is_none(),
{
    let now = unix_now_nanos();
    elapsed_since_at(raw, now)
}

/// A completion time stored from a clock reading reads back as the whole
/// seconds elapsed since it: a text that the RFC 3339 parser reads as the
/// reading `then_nanos` (as `rfc3339_at` gives one), read at `now_nanos`,
/// counts the whole seconds from `then_nanos` to `now_nanos`, or zero when
/// `now_nanos` is earlier.
pub proof fn lemma_stamp_reads_back(t: Seq<char>, then_nanos: u128, now_nanos: u128)
    requires
        instant_of_nanos(then_nanos) is Some,
        rfc3339_instant(t) == instant_of_nanos(then_nanos),
        instant_of_nanos(now_nanos) matches Some(j) && utc_representable(j.0, j.1),
    ensures
        elapsed_since_spec(t, Some(now_nanos)) == Some(
            if now_nanos >= then_nanos { ((now_nanos - then_nanos) as int / CLOCK_NANOS_PER_SEC as int) as u64 } else { 0u64 },
        ),
{
    let i = instant_of_nanos(then_nanos)->0;
    let j = instant_of_nanos(now_nanos)->0;
    let g = CLOCK_NANOS_PER_SEC as int;
    vstd::arithmetic::div_mod::lemma_fundamental_div_mod(then_nanos as int, g);
    vstd::arithmetic::div_mod::lemma_fundamental_div_mod(now_nanos as int, g);
    assert(i.0 * g + i.1 == then_nanos);
    assert(j.0 * g + j.1 == now_nanos);
    assert(i.1 < g && j.1 < g);
    let d = (j.0 - i.0) * g + (j.1 - i.1);
    assert(d == now_nanos - then_nanos) by (nonlinear_arith)
        requires
            i.0 * g + i.1 == then_nanos,
            j.0 * g + j.1 == now_nanos,
            d == (j.0 - i.0) * g + (j.1 - i.1);
    assert(utc_seconds_between(j, i) == div_toward_zero(d, g));
    if now_nanos >= then_nanos {
        assert(d / g >= 0) by (nonlinear_arith)
            requires d >= 0, g > 0;
        assert(d / g <= u64::MAX) by (nonlinear_arith)
            requires d >= 0, g == 1_000_000_000, d <= now_nanos, now_nanos as int / g == j.0, j.0 <= i64::MAX;
    } else {
        assert((-d) / g >= 0) by (nonlinear_arith)
            requires -d > 0, g > 0;
    }
}

} // verus!
