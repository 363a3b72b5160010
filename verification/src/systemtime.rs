//! Conversion between `std::time::SystemTime` and seconds, dates and times.
//!
//! A `SystemTime` is opaque here. What is proved is the arithmetic between
//! the distance of an instant from 1970-01-01 00:00:00, as whole seconds and
//! nanoseconds before or after, and the signed seconds with nanoseconds that
//! the rest of this crate works on. The calls that read such a distance from
//! a `SystemTime`, or make a `SystemTime` from one, are trusted: what the
//! reading calls return has a name each, and [`epoch_offset`] puts the names
//! together to the distance that a `SystemTime` stands for.

use vstd::prelude::*;
use std::time::{Duration, SystemTime, SystemTimeError, UNIX_EPOCH};
use crate::calendar::{date_of, rata_die, valid_date};
use crate::date::{date_to_rd, rd_to_date};
use crate::time::{dhms_to_secs, hour_of, minute_of, second_of, secs_to_dhms, valid_time};
use crate::{RD_SECONDS_MAX, RD_SECONDS_MIN};

verus! {

/// `std::time::SystemTime`, as a type that verified code can hold and pass on.
#[verifier::external_type_specification]
#[verifier::external_body]
pub struct ExSystemTime(SystemTime);

/// `std::time::SystemTimeError`, as a type that verified code can hold and
/// pass on.
#[verifier::external_type_specification]
#[verifier::external_body]
pub struct ExSystemTimeError(SystemTimeError);

/// What `SystemTime::duration_since` returns for `st` with `UNIX_EPOCH` as
/// the earlier time: the time that lies between the two, as the error where
/// `st` is the earlier one.
pub uninterp spec fn since_epoch(st: SystemTime) -> Result<Duration, SystemTimeError>;

/// What `SystemTimeError::duration` returns for `err`: how far the second
/// time lay after the first.
pub uninterp spec fn error_duration_of(err: SystemTimeError) -> Duration;

/// What `Duration::as_secs` returns for `dur`: its whole seconds.
pub uninterp spec fn whole_secs_of(dur: Duration) -> u64;

/// What `Duration::subsec_nanos` returns for `dur`: the nanoseconds of its
/// fraction of a second.
pub uninterp spec fn subsec_nanos_of(dur: Duration) -> u32;

/// Calls `SystemTime::duration_since` with `UNIX_EPOCH` as the earlier time.
/// The result depends on the time alone and is claimed to be the named one.
#[verifier::external_body]
fn duration_since_epoch(st: SystemTime) -> (r: Result<Duration, SystemTimeError>)
    ensures
        r == since_epoch(st),
{
    st.duration_since(UNIX_EPOCH)
}

/// Calls `SystemTimeError::duration`. The result depends on the error alone
/// and is claimed to be the named one.
#[verifier::external_body]
fn error_duration(err: &SystemTimeError) -> (dur: Duration)
    ensures
        dur == error_duration_of(*err),
{
    err.duration()
}

/// Calls `Duration::as_secs`. The result depends on the duration alone and
/// is claimed to be the named one.
#[verifier::external_body]
fn duration_secs(dur: &Duration) -> (secs: u64)
    ensures
        secs == whole_secs_of(*dur),
{
    dur.as_secs()
}

/// Calls `Duration::subsec_nanos`. The result depends on the duration alone
/// and is claimed to be the named one, and to be what is documented of it: a
/// fraction of a second, so less than one billion.
#[verifier::external_body]
fn duration_subsec_nanos(dur: &Duration) -> (nanos: u32)
    ensures
        nanos == subsec_nanos_of(*dur),
        nanos <= 999_999_999,
{
    dur.subsec_nanos()
}

/// Calls `Duration::new`, which panics where the nanoseconds carry over into
/// seconds that overflow; with less than a second of them nothing carries.
/// Nothing is claimed of the result.
#[verifier::external_body]
fn duration_new(secs: u64, nanos: u32) -> (dur: Duration)
    requires
        nanos <= 999_999_999,
{
    Duration::new(secs, nanos)
}

/// Calls `SystemTime::checked_add` on `UNIX_EPOCH`. Whether the sum can be
/// represented depends on the platform, and so does how finely, so neither
/// success nor the exact distance is claimed. The claim is that a time that
/// comes back is not earlier than the epoch, as a sum with a duration, which
/// is never negative, cannot be: `duration_since` with the epoch as the
/// earlier time does not fail on it.
#[verifier::external_body]
fn epoch_checked_add(dur: Duration) -> (st: Option<SystemTime>)
    ensures
        st matches Some(s) ==> since_epoch(s) is Ok,
{
    UNIX_EPOCH.checked_add(dur)
}

/// Calls `SystemTime::checked_sub` on `UNIX_EPOCH`. Whether the difference
/// can be represented depends on the platform, and so does how finely, so
/// neither success nor the exact distance is claimed. The claim is that a
/// time that comes back is not later than the epoch: where `duration_since`
/// with the epoch as the earlier time does not fail on it, the time is the
/// epoch itself and the duration is zero.
#[verifier::external_body]
fn epoch_checked_sub(dur: Duration) -> (st: Option<SystemTime>)
    ensures
        st matches Some(s) ==> (since_epoch(s) matches Ok(d) ==> whole_secs_of(d) == 0
            && subsec_nanos_of(d) == 0),
{
    UNIX_EPOCH.checked_sub(dur)
}

/// The signed nanoseconds from 1970-01-01 00:00:00 to the instant that lies
/// `secs` seconds and `nanos` nanoseconds before or after it.
pub open spec fn offset_nanos(before: bool, secs: int, nanos: int) -> int {
    if before {
        -(secs * 1_000_000_000 + nanos)
    } else {
        secs * 1_000_000_000 + nanos
    }
}

/// The second that an instant lies in and the nanoseconds from the start of
/// that second, for the instant at the distance `offset` from 1970-01-01
/// 00:00:00; `None` where that second is not between [`RD_SECONDS_MIN`] and
/// [`RD_SECONDS_MAX`].
pub open spec fn secs_of_offset(offset: (bool, u64, u32)) -> Option<(i64, u32)> {
    let t = offset_nanos(offset.0, offset.1 as int, offset.2 as int);
    if RD_SECONDS_MIN <= t / 1_000_000_000 <= RD_SECONDS_MAX {
        Some(((t / 1_000_000_000) as i64, (t % 1_000_000_000) as u32))
    } else {
        None
    }
}

/// The distance of the time `st` from 1970-01-01 00:00:00, as std reports
/// it: whether `st` lies before the epoch, and the whole seconds and the
/// nanoseconds between the two.
pub open spec fn epoch_offset(st: SystemTime) -> (bool, u64, u32) {
    match since_epoch(st) {
        Ok(dur) => (false, whole_secs_of(dur), subsec_nanos_of(dur)),
        Err(err) => (
            true,
            whole_secs_of(error_duration_of(err)),
            subsec_nanos_of(error_duration_of(err)),
        ),
    }
}

/// The date and time of the second `t.0` with the nanoseconds `t.1`.
pub open spec fn datetime_of_secs(t: (i64, u32)) -> (int, int, int, int, int, int, int) {
    let date = date_of(t.0 as int / 86400);
    (
        date.0,
        date.1,
        date.2,
        hour_of(t.0 as int),
        minute_of(t.0 as int),
        second_of(t.0 as int),
        t.1 as int,
    )
}

/// Convert a distance from 1970-01-01 00:00:00 to seconds and nanoseconds.
///
/// The distance is a `(before, seconds, nanoseconds)` tuple: so many whole
/// seconds and nanoseconds, before the epoch if `before` is set and after it
/// if not. The result holds the second that the instant lies in, negative
/// before the epoch, and the nanoseconds from the start of that second. It
/// is `None` where that second is not between [`RD_SECONDS_MIN`] and
/// [`RD_SECONDS_MAX`].
pub fn offset_to_secs(offset: (bool, u64, u32)) -> (r: Option<(i64, u32)>)
    requires
        offset.2 <= 999_999_999,
    ensures
        r == secs_of_offset(offset),
{
    let (before, secs, nanos) = offset;
    if !before {
        if secs > RD_SECONDS_MAX as u64 {
            return None;
        }
        Some((secs as i64, nanos))
    } else {
        if secs > (-RD_SECONDS_MIN) as u64 {
            return None;
        }
        let mut secs = secs;
        let mut nanos = nanos;
        if nanos > 0 {
            secs = secs + 1;
            nanos = 1_000_000_000 - nanos;
        }
        if secs > (-RD_SECONDS_MIN) as u64 {
            return None;
        }
        Some((-(secs as i64), nanos))
    }
}

/// Convert seconds and nanoseconds to a distance from 1970-01-01 00:00:00.
///
/// Returns whether the instant lies before the epoch, and its distance from
/// it in whole seconds and nanoseconds. Before the epoch the nanoseconds
/// count back from the next second, so a borrow is made where they are not
/// zero.
pub fn secs_to_offset(t: (i64, u32)) -> (r: (bool, u64, u32))
    requires
        RD_SECONDS_MIN <= t.0 <= RD_SECONDS_MAX,
        t.1 <= 999_999_999,
    ensures
        r.0 == (t.0 < 0),
        r.2 <= 999_999_999,
        offset_nanos(r.0, r.1 as int, r.2 as int) == t.0 * 1_000_000_000 + t.1,
{
    let (secs, nsecs) = t;
    if secs >= 0 {
        (false, secs as u64, nsecs)
    } else if nsecs > 0 {
        (true, (-secs - 1) as u64, 1_000_000_000 - nsecs)
    } else {
        (true, (-secs) as u64, 0)
    }
}

/// Convert a `SystemTime` to seconds and nanoseconds.
///
/// Returns the seconds since 1970-01-01 00:00:00, negative before it, and
/// the nanoseconds from the start of that second, as [`offset_to_secs`]
/// finds them from the distance between the time and the epoch. Returns
/// `None` if the time is before [`RD_SECONDS_MIN`] or after
/// [`RD_SECONDS_MAX`].
#[inline]
pub fn systemtime_to_secs(st: SystemTime) -> (r: Option<(i64, u32)>)
    ensures
        r == secs_of_offset(epoch_offset(st)),
        r matches Some(t) ==> RD_SECONDS_MIN <= t.0 <= RD_SECONDS_MAX && t.1 <= 999_999_999,
{
    match duration_since_epoch(st) {
        Ok(dur) => offset_to_secs((false, duration_secs(&dur), duration_subsec_nanos(&dur))),
        Err(err) => {
            let dur = error_duration(&err);
            offset_to_secs((true, duration_secs(&dur), duration_subsec_nanos(&dur)))
        },
    }
}

/// Convert seconds and nanoseconds to a `SystemTime`.
///
/// The time is the epoch moved by the distance that [`secs_to_offset`]
/// gives: forward where the seconds are not negative, and back where they
/// are. Returns `None` if the platform cannot represent it. A time that
/// comes back lies on the side of the epoch that the sign of the seconds
/// names, or is the epoch itself; how exactly it keeps the distance is the
/// platform's matter.
#[inline]
pub fn secs_to_systemtime(t: (i64, u32)) -> (st: Option<SystemTime>)
    requires
        RD_SECONDS_MIN <= t.0 <= RD_SECONDS_MAX,
        t.1 <= 999_999_999,
    ensures
        st matches Some(s) ==> (t.0 >= 0 ==> !epoch_offset(s).0),
        st matches Some(s) ==> (t.0 < 0 ==> epoch_offset(s).0 || (epoch_offset(s).1 == 0
            && epoch_offset(s).2 == 0)),
{
    let (before, secs, nanos) = secs_to_offset(t);
    let dur = duration_new(secs, nanos);
    if before {
        epoch_checked_sub(dur)
    } else {
        epoch_checked_add(dur)
    }
}

/// Convert a `SystemTime` to year, month, day, hours, minutes, seconds and
/// nanoseconds.
///
/// Returns `None` if the time is before [`RD_SECONDS_MIN`] or after
/// [`RD_SECONDS_MAX`].
#[inline]
pub fn systemtime_to_datetime(st: SystemTime) -> (r: Option<(i32, u8, u8, u8, u8, u8, u32)>)
    ensures
        r is Some == secs_of_offset(epoch_offset(st)) is Some,
        r matches Some(dt) ==> (
            dt.0 as int,
            dt.1 as int,
            dt.2 as int,
            dt.3 as int,
            dt.4 as int,
            dt.5 as int,
            dt.6 as int,
        ) == datetime_of_secs(secs_of_offset(epoch_offset(st))->Some_0),
        r matches Some(dt) ==> valid_date(dt.0 as int, dt.1 as int, dt.2 as int) && valid_time(
            dt.3 as int,
            dt.4 as int,
            dt.5 as int,
        ) && dt.6 <= 999_999_999,
{
    match systemtime_to_secs(st) {
        Some((secs, nsecs)) => {
            let (days, hh, mm, ss) = secs_to_dhms(secs);
            let (year, month, day) = rd_to_date(days);
            Some((year, month, day, hh, mm, ss, nsecs))
        },
        None => None,
    }
}

/// Convert year, month, day, hours, minutes, seconds and nanoseconds to a
/// `SystemTime`.
///
/// Returns `None` if the platform cannot represent the time. A time that
/// comes back is not earlier than the epoch for a date from 1970-01-01 on,
/// and not later than it for a date before.
#[inline]
pub fn datetime_to_systemtime(dt: (i32, u8, u8, u8, u8, u8, u32)) -> (st: Option<SystemTime>)
    requires
        valid_date(dt.0 as int, dt.1 as int, dt.2 as int),
        valid_time(dt.3 as int, dt.4 as int, dt.5 as int),
        dt.6 <= 999_999_999,
    ensures
        st matches Some(s) ==> (rata_die(dt.0 as int, dt.1 as int, dt.2 as int) >= 0
            ==> !epoch_offset(s).0),
        st matches Some(s) ==> (rata_die(dt.0 as int, dt.1 as int, dt.2 as int) < 0
            ==> epoch_offset(s).0 || (epoch_offset(s).1 == 0 && epoch_offset(s).2 == 0)),
{
    let (y, m, d, hh, mm, ss, nsec) = dt;
    let days = date_to_rd((y, m, d));
    let secs = dhms_to_secs((days, hh, mm, ss));
    secs_to_systemtime((secs, nsec))
}

} // verus!
