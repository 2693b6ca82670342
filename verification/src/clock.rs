//! Times in milliseconds since the Unix epoch, and what counts as recent.
use vstd::prelude::*;

verus! {

/// How long a session stays protected after it was last active: 24 hours.
pub const PROTECT_MS: u128 = 86_400_000;

/// The milliseconds of a day.
pub const DAY_MS: u128 = 86_400_000;

/// Stored timestamps below this bound count seconds, the others milliseconds.
pub const SECONDS_BOUND: i64 = 10_000_000_000;

/// A time after the Unix epoch, as a clock or a file system reports it.
#[derive(Clone, Copy, Debug, PartialEq, Eq, Structural)]
pub struct Elapsed {
    /// Whole seconds.
    pub secs: u64,
    /// The rest, in nanoseconds.
    pub nanos: u32,
}

/// The whole milliseconds since the epoch, 0 where there is no time after it.
pub open spec fn epoch_ms(reading: Option<Elapsed>) -> int {
    match reading {
        Some(t) => t.secs * 1000 + t.nanos as int / 1_000_000,
        None => 0,
    }
}

/// The current time in milliseconds, from a reading of the system clock (`None` for a clock that
/// stands before the epoch).
pub fn now_ms(reading: Option<Elapsed>) -> (r: u128)
    ensures
        r == epoch_ms(reading),
{
    match reading {
        Some(t) => (t.secs as u128) * 1000 + (t.nanos / 1_000_000) as u128,
        None => 0,
    }
}

/// When a file was last modified, in milliseconds (`None` where that cannot be read, or lies before
/// the epoch).
pub fn file_mtime_ms(modified: Option<Elapsed>) -> (r: u128)
    ensures
        r == epoch_ms(modified),
{
    now_ms(modified)
}

/// A stored timestamp in milliseconds: it may count seconds or milliseconds, and a missing one is 0.
pub open spec fn stamp_ms(stamp: Option<i64>) -> int {
    match stamp {
        Some(v) => if v < SECONDS_BOUND {
            v * 1000
        } else {
            v as int
        },
        None => 0,
    }
}

/// Whether a stored timestamp is one that `to_ms` reads: none, or one that is not negative.
pub open spec fn readable_stamp(stamp: Option<i64>) -> bool {
    stamp matches Some(v) ==> v >= 0
}

/// Whether a stored timestamp is one that `to_ms` reads.
pub fn stamp_is_readable(stamp: Option<i64>) -> (r: bool)
    ensures
        r == readable_stamp(stamp),
{
    match stamp {
        Some(v) => v >= 0,
        None => true,
    }
}

/// A stored timestamp in milliseconds.
pub fn to_ms(stamp: Option<i64>) -> (r: u128)
    requires
        readable_stamp(stamp),
    ensures
        r == stamp_ms(stamp),
{
    match stamp {
        Some(v) => if v < SECONDS_BOUND {
            (v as u128) * 1000
        } else {
            v as u128
        },
        None => 0,
    }
}

/// A stored timestamp as the check before a deletion reads it: as `stamp_ms` does, but a negative
/// one counts as later than every clock, as many milliseconds below 2^128 as it lies below 0.
pub open spec fn activity_stamp_ms(stamp: Option<i64>) -> int {
    match stamp {
        Some(v) => if v < 0 {
            u128::MAX + 1 + v
        } else {
            stamp_ms(stamp)
        },
        None => 0,
    }
}

/// A stored timestamp as the check before a deletion reads it.
pub fn activity_ms(stamp: Option<i64>) -> (r: u128)
    ensures
        r == activity_stamp_ms(stamp),
{
    match stamp {
        Some(v) => if v < 0 {
            u128::MAX - ((-(v + 1)) as u128)
        } else {
            to_ms(stamp)
        },
        None => 0,
    }
}

/// Seconds and milliseconds are told apart: from ten million seconds on (in 1970), a timestamp reads
/// the same whichever of the two it was stored in.
pub proof fn law_seconds_and_milliseconds_agree(secs: i64)
    requires
        10_000_000 <= secs < SECONDS_BOUND,
    ensures
        stamp_ms(Some(secs)) == stamp_ms(Some((secs * 1000) as i64)),
        stamp_ms(Some(secs)) == secs * 1000,
{
}

/// The later of two times.
pub open spec fn later(a: u128, b: u128) -> u128 {
    if b > a {
        b
    } else {
        a
    }
}

/// The later of two times.
pub fn latest(a: u128, b: u128) -> (r: u128)
    ensures
        r == later(a, b),
{
    if b > a {
        b
    } else {
        a
    }
}

/// Whether something last active at `time` is protected at `now`: less than 24 hours have passed, or
/// `time` lies ahead.
pub open spec fn protected_at(now: u128, time: u128) -> bool {
    now < time + PROTECT_MS
}

/// Whether something last active at `time` is protected at `now`.
pub fn is_protected(now: u128, time: u128) -> (r: bool)
    ensures
        r == protected_at(now, time),
{
    now.saturating_sub(time) < PROTECT_MS
}

/// How long ago `time` was at `now`; 0 if it lies ahead.
pub open spec fn age_at(now: u128, time: u128) -> u128 {
    if now > time {
        (now - time) as u128
    } else {
        0
    }
}

/// How long ago `time` was at `now`; 0 if it lies ahead.
pub fn age_ms(now: u128, time: u128) -> (r: u128)
    ensures
        r == age_at(now, time),
{
    now.saturating_sub(time)
}

/// Protection ends for good: what is not protected at one moment is not protected later on.
pub proof fn law_protection_expires(now: u128, later_now: u128, time: u128)
    requires
        now <= later_now,
        !protected_at(now, time),
    ensures
        !protected_at(later_now, time),
{
}

/// The last moment that a retention of `keep_days` days lets go of: what was modified then or
/// earlier is old enough to be removed.
pub open spec fn cutoff_at(now: u128, keep_days: u32) -> u128 {
    age_at(now, (keep_days * DAY_MS) as u128)
}

/// The last moment that a retention of `keep_days` days lets go of.
pub fn cutoff_ms(now: u128, keep_days: u32) -> (r: u128)
    ensures
        r == cutoff_at(now, keep_days),
{
    now.saturating_sub(keep_days as u128 * DAY_MS)
}

/// Milliseconds are whole ones: a time lies in the millisecond that it is read as. What is no time
/// after the epoch is read as 0.
pub proof fn law_times_lie_in_their_millisecond(t: Elapsed)
    ensures
        epoch_ms(Some(t)) * 1_000_000 <= t.secs * 1_000_000_000 + t.nanos,
        t.secs * 1_000_000_000 + t.nanos < (epoch_ms(Some(t)) + 1) * 1_000_000,
        epoch_ms(None) == 0,
{
}

/// Every stored timestamp that is not negative is read: as seconds below ten thousand million, as
/// milliseconds from there on; a missing one is the epoch. Negative ones are not read.
pub proof fn law_stored_timestamps(v: i64)
    ensures
        readable_stamp(Some(v)) == (v >= 0),
        readable_stamp(None),
        v < 10_000_000_000 ==> stamp_ms(Some(v)) == v * 1000,
        v >= 10_000_000_000 ==> stamp_ms(Some(v)) == v,
        stamp_ms(None) == 0,
{
}

/// The check before a deletion reads a timestamp as a scan does where a scan reads it; a negative one
/// protects its session at every moment of the next many million years.
pub proof fn law_negative_timestamps_protect(v: i64, now: u128)
    requires
        now <= 0xffff_ffff_ffff_ffff_ffff,
    ensures
        v >= 0 ==> activity_stamp_ms(Some(v)) == stamp_ms(Some(v)),
        activity_stamp_ms(None) == stamp_ms(None),
        v < 0 ==> activity_stamp_ms(Some(v)) - v == 0x1_0000_0000_0000_0000_0000_0000_0000_0000,
        v < 0 ==> protected_at(now, activity_stamp_ms(Some(v)) as u128),
{
}

/// The later of two times is not before either of them, and is one of them.
pub proof fn law_later_is_the_maximum(a: u128, b: u128)
    ensures
        later(a, b) >= a,
        later(a, b) >= b,
        later(a, b) == a || later(a, b) == b,
{
}

/// Protection lasts for less than 24 hours of 3600 seconds of 1000 milliseconds; and what lies ahead
/// is protected.
pub proof fn law_protection_lasts_a_day(now: u128, time: u128)
    ensures
        protected_at(now, time) == (now - time < 24 * 3600 * 1000),
{
}

/// An age is the time from then to now, and never less than nothing.
pub proof fn law_age_is_the_time_since(now: u128, time: u128)
    ensures
        time <= now ==> time + age_at(now, time) == now,
        time > now ==> age_at(now, time) == 0,
{
}

/// A retention of some days lets go of exactly what was modified at least that many days ago. Where
/// the retention reaches back before the epoch, it lets go only of what has no time.
pub proof fn law_retention_counts_days(now: u128, keep_days: u32, time: u128)
    ensures
        keep_days * 86_400_000 <= now ==> (time <= cutoff_at(now, keep_days)) == (time + keep_days
            * 86_400_000 <= now),
        keep_days * 86_400_000 > now ==> (time <= cutoff_at(now, keep_days)) == (time == 0),
{
}

} // verus!
