//! Splitting a count of seconds into days and time of day, and back.

use vstd::prelude::*;
use crate::calendar::{date_of, rata_die, valid_date};
use crate::date::{date_to_rd, rd_to_date, DAY_OFFSET};
use crate::{RD_MAX, RD_MIN, RD_SECONDS_MAX, RD_SECONDS_MIN};

verus! {

/// Seconds in a single 24 hour calendar day.
pub(crate) const SECS_IN_DAY: i64 = 86400;

/// Seconds from the start of the shifted calendar to 1970-01-01.
pub(crate) const SECS_OFFSET: i64 = 46387767571200;

/// The hour, from 0 to 23, of the second `secs` after 1970-01-01 00:00:00.
pub open spec fn hour_of(secs: int) -> int {
    (secs % 86400) / 3600
}

/// The minute of the hour, from 0 to 59, of the second `secs`.
pub open spec fn minute_of(secs: int) -> int {
    (secs % 3600) / 60
}

/// The second of the minute, from 0 to 59, of the second `secs`.
pub open spec fn second_of(secs: int) -> int {
    secs % 60
}

/// The time of day `(h, m, s)` is one of the 86400 seconds of a day.
pub open spec fn valid_time(h: int, m: int, s: int) -> bool {
    0 <= h <= 23 && 0 <= m <= 59 && 0 <= s <= 59
}

/// Splitting a count of seconds into days and time of day and putting them
/// together again gives the count.
pub proof fn lemma_seconds_round_trip(secs: int)
    ensures
        valid_time(hour_of(secs), minute_of(secs), second_of(secs)),
        (secs / 86400) * 86400 + hour_of(secs) * 3600 + minute_of(secs) * 60 + second_of(secs)
            == secs,
{
    let r = secs % 86400;
    assert(r % 3600 == secs % 3600);
    assert(r % 60 == secs % 60);
    assert((secs % 3600) % 60 == secs % 60);
}

/// Putting days and a time of day together and splitting the seconds again
/// gives the days and the time of day.
pub proof fn lemma_dhms_round_trip(d: int, h: int, m: int, s: int)
    requires
        valid_time(h, m, s),
    ensures
        ({
            let secs = d * 86400 + h * 3600 + m * 60 + s;
            secs / 86400 == d && hour_of(secs) == h && minute_of(secs) == m && second_of(secs)
                == s
        }),
{
    let secs = d * 86400 + h * 3600 + m * 60 + s;
    let t = h * 3600 + m * 60 + s;
    assert(0 <= t < 86400);
    assert(secs / 86400 == d && secs % 86400 == t);
    assert(t / 3600 == h);
    assert(secs % 3600 == m * 60 + s) by {
        assert(secs == 3600 * (24 * d + h) + (m * 60 + s));
    }
    assert(secs % 60 == s) by {
        assert(secs == 60 * (1440 * d + 60 * h + m) + s);
    }
}

/// The supported seconds are exactly those of the supported days.
pub proof fn lemma_seconds_bounds()
    ensures
        RD_SECONDS_MIN == RD_MIN * 86400,
        RD_SECONDS_MAX == RD_MAX * 86400 + 86399,
{
}

/// Multiplying by 71582789 and splitting at bit 32 divides by 60.
proof fn lemma_sixtieths(n: int)
    requires
        0 <= n < 97612919,
    ensures
        (71582789 * n) / 0x1_0000_0000 == n / 60,
        ((71582789 * n) % 0x1_0000_0000) / 71582789 == n % 60,
{
    let q = n / 60;
    let r = n % 60;
    assert(71582789 * n == q * 0x1_0000_0000 + (44 * q + 71582789 * r));
    assert(0 <= 44 * q + 71582789 * r < 0x1_0000_0000);
}

/// Shifting right is dividing by a power of two, and narrowing to 32 bits is
/// taking the remainder.
proof fn lemma_split_at_32(x: u64)
    by (bit_vector)
    ensures
        x >> 32 == x / 0x1_0000_0000,
        x as u32 == x % 0x1_0000_0000,
{
}

/// The days and the time of day of a count of seconds, from the count moved
/// to the start of the shifted calendar.
proof fn lemma_time_of_day(secs: int, t: int)
    requires
        t == secs + 46387767571200,
    ensures
        t / 86400 == secs / 86400 + 536895458,
        t % 86400 == secs % 86400,
        (t % 86400) / 60 / 60 == hour_of(secs),
        (t % 86400) / 60 % 60 == minute_of(secs),
        (t % 86400) % 60 == second_of(secs),
{
    assert(46387767571200 == 86400 * 536895458);
    let r = secs % 86400;
    assert(r / 60 / 60 == r / 3600);
    assert(r % 60 == secs % 60);
    assert(r % 3600 == secs % 3600);
    assert((r / 60) % 60 == (r % 3600) / 60);
}

/// Split total seconds to days, hours, minutes and seconds.
///
/// Given the seconds since 1970-01-01 00:00:00, returns the day count and the
/// hour, minute and second of that day. Seconds before 1970 belong to the
/// day that holds them: the day count rounds down.
#[inline]
pub fn secs_to_dhms(secs: i64) -> (dhms: (i32, u8, u8, u8))
    requires
        RD_SECONDS_MIN <= secs <= RD_SECONDS_MAX,
    ensures
        dhms.0 == secs as int / 86400,
        dhms.1 == hour_of(secs as int),
        dhms.2 == minute_of(secs as int),
        dhms.3 == second_of(secs as int),
        RD_MIN <= dhms.0 <= RD_MAX,
        valid_time(dhms.1 as int, dhms.2 as int, dhms.3 as int),
{
    let ghost s0 = secs as int;
    let secs: u64 = (secs + SECS_OFFSET) as u64;
    let days: u32 = (secs / (SECS_IN_DAY as u64)) as u32;
    let secs: u64 = secs % (SECS_IN_DAY as u64);
    proof {
        lemma_time_of_day(s0, s0 + 46387767571200);
        lemma_sixtieths(secs as int);
    }
    let prd: u64 = 71582789 * secs;
    let mins: u64 = prd >> 32;  // secs / 60
    proof {
        lemma_split_at_32(prd);
    }
    let ss: u32 = (#[verifier::truncate] (prd as u32)) / 71582789;  // secs % 60
    proof {
        lemma_sixtieths(mins as int);
    }
    let prd: u64 = 71582789 * mins;
    let hh: u64 = prd >> 32;  // mins / 60
    proof {
        lemma_split_at_32(prd);
    }
    let mm: u32 = (#[verifier::truncate] (prd as u32)) / 71582789;  // mins % 60
    let days: i32 = (days as i32) - DAY_OFFSET;
    (days, hh as u8, mm as u8, ss as u8)
}

/// Combine days, hours, minutes and seconds to total seconds.
///
/// Given a day count and the hour, minute and second of that day, returns
/// the seconds since 1970-01-01 00:00:00.
#[inline]
pub fn dhms_to_secs(dhms: (i32, u8, u8, u8)) -> (secs: i64)
    requires
        RD_MIN <= dhms.0 <= RD_MAX,
        valid_time(dhms.1 as int, dhms.2 as int, dhms.3 as int),
    ensures
        secs == dhms.0 * 86400 + dhms.1 * 3600 + dhms.2 * 60 + dhms.3,
        RD_SECONDS_MIN <= secs <= RD_SECONDS_MAX,
{
    let (d, h, m, s) = dhms;
    d as i64 * SECS_IN_DAY + h as i64 * 3600 + m as i64 * 60 + s as i64
}

/// Convert total seconds to year, month, day, hours, minutes and seconds.
///
/// Given the seconds since 1970-01-01 00:00:00, returns the date of the day
/// that holds that second and the time of day.
#[inline]
pub fn secs_to_datetime(secs: i64) -> (dt: (i32, u8, u8, u8, u8, u8))
    requires
        RD_SECONDS_MIN <= secs <= RD_SECONDS_MAX,
    ensures
        valid_date(dt.0 as int, dt.1 as int, dt.2 as int),
        rata_die(dt.0 as int, dt.1 as int, dt.2 as int) == secs as int / 86400,
        (dt.0 as int, dt.1 as int, dt.2 as int) == date_of(secs as int / 86400),
        dt.3 == hour_of(secs as int),
        dt.4 == minute_of(secs as int),
        dt.5 == second_of(secs as int),
        valid_time(dt.3 as int, dt.4 as int, dt.5 as int),
{
    let (days, hh, mm, ss) = secs_to_dhms(secs);
    let (y, m, d) = rd_to_date(days);
    (y, m, d, hh, mm, ss)
}

/// Convert year, month, day, hours, minutes and seconds to total seconds.
///
/// Given a date and a time of day, returns the seconds since 1970-01-01
/// 00:00:00.
#[inline]
pub fn datetime_to_secs(dt: (i32, u8, u8, u8, u8, u8)) -> (secs: i64)
    requires
        valid_date(dt.0 as int, dt.1 as int, dt.2 as int),
        valid_time(dt.3 as int, dt.4 as int, dt.5 as int),
    ensures
        secs == rata_die(dt.0 as int, dt.1 as int, dt.2 as int) * 86400 + dt.3 * 3600 + dt.4 * 60
            + dt.5,
        RD_SECONDS_MIN <= secs <= RD_SECONDS_MAX,
{
    let (y, m, d, hh, mm, ss) = dt;
    let days = date_to_rd((y, m, d));
    dhms_to_secs((days, hh, mm, ss))
}

} // verus!
