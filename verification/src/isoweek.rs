//! Conversion between day counts, Gregorian dates and ISO week dates.

use vstd::prelude::*;
use crate::calendar::{
    date_of, iso_rata_die, iso_week_date_of, iso_weeks, lemma_date_of_rata_die,
    lemma_days_before_month, lemma_days_before_year_increasing,
    lemma_iso_week_date_of_rata_die, lemma_iso_week_of_day, lemma_iso_week_thursday,
    lemma_rata_die_within_year, rata_die, valid_date, valid_iso_week_date, weekday_of,
};
use crate::consts::{THURSDAY, WEDNESDAY};
use crate::date::{
    date_to_rd, is_leap_year, lemma_date_of_in_range, lemma_rata_die_in_range, lemma_rd_bounds,
    rd_to_date,
};
use crate::weekday::{date_to_weekday, rd_to_weekday};
use crate::{RD_MAX, RD_MIN, YEAR_MAX, YEAR_MIN};

verus! {

/// The supported day counts begin on a Monday and end on a Thursday, so the
/// Thursday of the week of a supported day is a supported day.
proof fn lemma_thursday_in_range(rd: int)
    requires
        RD_MIN <= rd <= RD_MAX,
    ensures
        RD_MIN <= rd + 4 - weekday_of(rd) <= RD_MAX,
{
}

/// The day count of a supported ISO week date is supported.
pub proof fn lemma_iso_rata_die_in_range(y: int, w: int, d: int)
    requires
        valid_iso_week_date(y, w, d),
    ensures
        RD_MIN <= iso_rata_die(y, w, d) <= RD_MAX,
{
    lemma_iso_week_thursday(y, w, d);
    lemma_rd_bounds();
    lemma_rata_die_in_range(y, 1, 1);
    lemma_rata_die_in_range(y, 12, 31);
    lemma_rata_die_within_year(y, 12, 31);
    lemma_days_before_month(y);
    let t = iso_rata_die(y, w, 4);
    assert(rata_die(y + 1, 1, 1) == rata_die(y, 12, 31) + 1);
    assert(RD_MIN <= t <= RD_MAX);
    lemma_iso_week_thursday(y, w, 4);
    assert(t % 7 == 0);
    if t == RD_MAX {
        if y < YEAR_MAX {
            lemma_days_before_year_increasing(y + 1, YEAR_MAX as int);
            lemma_rata_die_within_year(YEAR_MAX as int, 12, 31);
        }
        assert(y == YEAR_MAX);
        assert(w == 53);
    }
}

/// The ISO week date of a day whose week's Thursday has the calendar date
/// `(y, m, d)` is a supported one when the day count `n` is supported.
proof fn lemma_iso_week_in_range(n: int, y: int, m: int, d: int)
    requires
        RD_MIN <= n <= RD_MAX,
        valid_date(y, m, d),
        rata_die(y, m, d) == n + 4 - weekday_of(n),
    ensures
        ({
            let w = (rata_die(y, m, d) - rata_die(y, 1, 1)) / 7 + 1;
            let wd = weekday_of(n);
            valid_iso_week_date(y, w, wd) && iso_rata_die(y, w, wd) == n && iso_week_date_of(n)
                == (y, w, wd)
        }),
{
    let w = (rata_die(y, m, d) - rata_die(y, 1, 1)) / 7 + 1;
    let wd = weekday_of(n);
    lemma_iso_week_of_day(n, y, m, d);
    lemma_iso_week_date_of_rata_die(y, w, wd);
    if y == YEAR_MAX && w == 53 {
        lemma_rd_bounds();
        lemma_iso_week_thursday(y, w, wd);
        lemma_rata_die_within_year(y, 12, 31);
        lemma_days_before_month(y);
    }
}

/// Every supported day count is that of a supported ISO week date.
pub proof fn lemma_iso_week_date_of_in_range(n: int)
    requires
        RD_MIN <= n <= RD_MAX,
    ensures
        ({
            let iwd = iso_week_date_of(n);
            valid_iso_week_date(iwd.0, iwd.1, iwd.2) && iso_rata_die(iwd.0, iwd.1, iwd.2) == n
        }),
{
    let t = n + 4 - weekday_of(n);
    lemma_thursday_in_range(n);
    lemma_date_of_in_range(t);
    let date = date_of(t);
    lemma_iso_week_in_range(n, date.0, date.1, date.2);
}

/// Converting a supported date to its ISO week date and back gives the
/// date.
pub proof fn lemma_date_iso_round_trip(y: int, m: int, d: int)
    requires
        valid_date(y, m, d),
    ensures
        ({
            let iwd = iso_week_date_of(rata_die(y, m, d));
            valid_iso_week_date(iwd.0, iwd.1, iwd.2) && date_of(
                iso_rata_die(iwd.0, iwd.1, iwd.2),
            ) == (y, m, d)
        }),
{
    lemma_rata_die_in_range(y, m, d);
    lemma_iso_week_date_of_in_range(rata_die(y, m, d));
    lemma_date_of_rata_die(y, m, d);
}

/// Converting a supported ISO week date to its date and back gives the ISO
/// week date.
pub proof fn lemma_iso_date_round_trip(y: int, w: int, d: int)
    requires
        valid_iso_week_date(y, w, d),
    ensures
        ({
            let date = date_of(iso_rata_die(y, w, d));
            valid_date(date.0, date.1, date.2) && iso_week_date_of(
                rata_die(date.0, date.1, date.2),
            ) == (y, w, d)
        }),
{
    lemma_iso_rata_die_in_range(y, w, d);
    lemma_date_of_in_range(iso_rata_die(y, w, d));
    lemma_iso_week_date_of_rata_die(y, w, d);
}

/// Convert a day count to an ISO week date.
///
/// Given the days since 1970-01-01, returns a `(year, week, day of week)`
/// tuple. Weeks begin on Monday, and week 1 of a year is the week that holds
/// the year's first Thursday, so the first days of January may belong to the
/// last week of the year before, and the last days of December to week 1 of
/// the year after.
#[inline]
pub fn rd_to_isoweekdate(rd: i32) -> (iwd: (i32, u8, u8))
    requires
        RD_MIN <= rd <= RD_MAX,
    ensures
        valid_iso_week_date(iwd.0 as int, iwd.1 as int, iwd.2 as int),
        iso_rata_die(iwd.0 as int, iwd.1 as int, iwd.2 as int) == rd,
        (iwd.0 as int, iwd.1 as int, iwd.2 as int) == iso_week_date_of(rd as int),
{
    let wd = rd_to_weekday(rd);
    proof {
        lemma_thursday_in_range(rd as int);
    }
    let rdt: i32 = rd + (4 - wd as i32) % 7;
    let (y, m, d) = rd_to_date(rdt);
    let ys = date_to_rd((y, 1, 1));
    proof {
        lemma_rata_die_within_year(y as int, m as int, d as int);
        lemma_iso_week_in_range(rd as int, y as int, m as int, d as int);
    }
    let w: i32 = (rdt - ys) / 7 + 1;
    (y, w as u8, wd)
}

/// Convert an ISO week date to a day count.
///
/// Given a `(year, week, day of week)` tuple, returns the days since
/// 1970-01-01: week 1 begins on the Monday on or before January 4th.
#[inline]
pub fn isoweekdate_to_rd(iwd: (i32, u8, u8)) -> (rd: i32)
    requires
        valid_iso_week_date(iwd.0 as int, iwd.1 as int, iwd.2 as int),
    ensures
        rd == iso_rata_die(iwd.0 as int, iwd.1 as int, iwd.2 as int),
        RD_MIN <= rd <= RD_MAX,
{
    let (y, w, d) = iwd;
    proof {
        lemma_iso_rata_die_in_range(y as int, w as int, d as int);
    }
    let rd4 = date_to_rd((y, 1, 4));
    let wd4 = rd_to_weekday(rd4);
    let ys: i32 = rd4 - (wd4 - 1) as i32;
    ys + (w as i32 - 1) * 7 + (d as i32 - 1)
}

/// Convert a Gregorian date to an ISO week date.
///
/// Given a `(year, month, day)` tuple, returns the `(year, week, day of
/// week)` tuple of the same day.
#[inline]
pub fn date_to_isoweekdate(date: (i32, u8, u8)) -> (iwd: (i32, u8, u8))
    requires
        valid_date(date.0 as int, date.1 as int, date.2 as int),
    ensures
        valid_iso_week_date(iwd.0 as int, iwd.1 as int, iwd.2 as int),
        iso_rata_die(iwd.0 as int, iwd.1 as int, iwd.2 as int) == rata_die(
            date.0 as int,
            date.1 as int,
            date.2 as int,
        ),
        (iwd.0 as int, iwd.1 as int, iwd.2 as int) == iso_week_date_of(
            rata_die(date.0 as int, date.1 as int, date.2 as int),
        ),
{
    let rd = date_to_rd(date);
    rd_to_isoweekdate(rd)
}

/// Convert an ISO week date to a Gregorian date.
///
/// Given a `(year, week, day of week)` tuple, returns the `(year, month,
/// day)` tuple of the same day.
#[inline]
pub fn isoweekdate_to_date(iwd: (i32, u8, u8)) -> (date: (i32, u8, u8))
    requires
        valid_iso_week_date(iwd.0 as int, iwd.1 as int, iwd.2 as int),
    ensures
        valid_date(date.0 as int, date.1 as int, date.2 as int),
        rata_die(date.0 as int, date.1 as int, date.2 as int) == iso_rata_die(
            iwd.0 as int,
            iwd.1 as int,
            iwd.2 as int,
        ),
        (date.0 as int, date.1 as int, date.2 as int) == date_of(
            iso_rata_die(iwd.0 as int, iwd.1 as int, iwd.2 as int),
        ),
{
    let rd = isoweekdate_to_rd(iwd);
    rd_to_date(rd)
}

/// Determine the number of ISO weeks in the given year.
///
/// A year has 52 weeks, or 53 when it begins on a Thursday, or on a
/// Wednesday and is a leap year.
#[inline]
pub fn isoweeks_in_year(y: i32) -> (weeks: u8)
    requires
        YEAR_MIN <= y <= YEAR_MAX,
    ensures
        weeks == iso_weeks(y as int),
        weeks == 52 || weeks == 53,
{
    let wd = date_to_weekday((y, 1, 1));
    let l = is_leap_year(y);
    if wd == THURSDAY {
        53
    } else if wd == WEDNESDAY && l {
        53
    } else {
        52
    }
}

} // verus!
