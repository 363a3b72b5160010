//! The proleptic Gregorian calendar as a mathematical model.
//!
//! Everything here is ghost code over unbounded integers. The executable
//! conversions of this crate are specified against these definitions.

use vstd::prelude::*;
use crate::{YEAR_MAX, YEAR_MIN};

verus! {

/// Whether year `y` of the proleptic Gregorian calendar has a leap day.
pub open spec fn is_leap(y: int) -> bool {
    y % 4 == 0 && (y % 100 != 0 || y % 400 == 0)
}

/// The number of days in year `y`.
pub open spec fn year_length(y: int) -> int {
    if is_leap(y) {
        366
    } else {
        365
    }
}

/// The number of days in month `m` (1 = January) of year `y`.
pub open spec fn month_length(y: int, m: int) -> int {
    if m == 2 {
        if is_leap(y) {
            29
        } else {
            28
        }
    } else if m == 4 || m == 6 || m == 9 || m == 11 {
        30
    } else {
        31
    }
}

/// The number of days of year `y` that lie before the first day of month `m`.
pub open spec fn days_before_month(y: int, m: int) -> int
    decreases m,
{
    if m <= 1 {
        0
    } else {
        days_before_month(y, m - 1) + month_length(y, m - 1)
    }
}

/// The number of days from 0001-01-01 up to, and not including, January 1st
/// of year `y`.
#[verifier::opaque]
pub open spec fn days_before_year(y: int) -> int {
    365 * (y - 1) + (y - 1) / 4 - (y - 1) / 100 + (y - 1) / 400
}

/// The day count of a date: the number of days from 1970-01-01 to day `d` of
/// month `m` of year `y`, negative for dates before 1970.
pub open spec fn rata_die(y: int, m: int, d: int) -> int {
    days_before_year(y) - days_before_year(1970) + days_before_month(y, m) + (d - 1)
}

/// Month `m` and day `d` name a day that exists in year `y`.
pub open spec fn is_calendar_date(y: int, m: int, d: int) -> bool {
    1 <= m <= 12 && 1 <= d <= month_length(y, m)
}

/// A calendar date whose year lies in the supported range.
pub open spec fn valid_date(y: int, m: int, d: int) -> bool {
    YEAR_MIN <= y <= YEAR_MAX && is_calendar_date(y, m, d)
}

/// The calendar date whose day count is `n`, as `(year, month, day)`.
pub open spec fn date_of(n: int) -> (int, int, int) {
    choose|t: (int, int, int)| is_calendar_date(t.0, t.1, t.2) && rata_die(t.0, t.1, t.2) == n
}

/// The calendar date that follows `(y, m, d)`: the next day of the month, or
/// the first of the next month, or of the next year after December.
pub open spec fn date_after(y: int, m: int, d: int) -> (int, int, int) {
    if d < month_length(y, m) {
        (y, m, d + 1)
    } else if m < 12 {
        (y, m + 1, 1)
    } else {
        (y + 1, 1, 1)
    }
}

/// The calendar date that precedes `(y, m, d)`: the day before in the month,
/// or the last of the month before, or of the year before in January.
pub open spec fn date_before(y: int, m: int, d: int) -> (int, int, int) {
    if d > 1 {
        (y, m, d - 1)
    } else if m > 1 {
        (y, m - 1, month_length(y, m - 1))
    } else {
        (y - 1, 12, 31)
    }
}

/// The day of week of day count `n`, 1 for Monday up to 7 for Sunday. Day 0
/// is a Thursday.
pub open spec fn weekday_of(n: int) -> int {
    (n + 3) % 7 + 1
}

/// The day count of the Monday that begins week 1 of ISO year `y`: the week
/// that holds January 4th.
pub open spec fn iso_week_one(y: int) -> int {
    rata_die(y, 1, 4) - (weekday_of(rata_die(y, 1, 4)) - 1)
}

/// The number of ISO weeks of year `y`: 53 when January 1st is a Thursday, or
/// a Wednesday in a leap year, and 52 otherwise.
pub open spec fn iso_weeks(y: int) -> int {
    let wd = weekday_of(rata_die(y, 1, 1));
    if wd == 4 || (wd == 3 && is_leap(y)) {
        53
    } else {
        52
    }
}

/// The day count of weekday `d` of week `w` of ISO year `y`.
pub open spec fn iso_rata_die(y: int, w: int, d: int) -> int {
    iso_week_one(y) + 7 * (w - 1) + (d - 1)
}

/// Week `w` and weekday `d` name a day that exists in ISO year `y`.
pub open spec fn is_iso_week_date(y: int, w: int, d: int) -> bool {
    1 <= w <= iso_weeks(y) && 1 <= d <= 7
}

/// The ISO week date whose day count is `n`, as `(year, week, weekday)`.
pub open spec fn iso_week_date_of(n: int) -> (int, int, int) {
    choose|t: (int, int, int)|
        is_iso_week_date(t.0, t.1, t.2) && iso_rata_die(t.0, t.1, t.2) == n
}

/// An ISO week date whose year lies in the supported range and whose day
/// count does too: the last supported day is the Thursday of week 53 of
/// [`YEAR_MAX`].
pub open spec fn valid_iso_week_date(y: int, w: int, d: int) -> bool {
    YEAR_MIN <= y <= YEAR_MAX && is_iso_week_date(y, w, d) && (y == YEAR_MAX && w == 53 ==> d
        <= 4)
}

/// Each year begins exactly one year's length after the one before it.
pub proof fn lemma_year_step(y: int)
    ensures
        days_before_year(y + 1) == days_before_year(y) + year_length(y),
{
    reveal(days_before_year);
}

/// Later years begin later, by at least 365 days for each year between.
pub proof fn lemma_days_before_year_increasing(a: int, b: int)
    requires
        a <= b,
    ensures
        days_before_year(a) + 365 * (b - a) <= days_before_year(b),
{
    reveal(days_before_year);
}

/// The values of `days_before_month` for each month, and for the month after
/// December: the length of the year.
pub proof fn lemma_days_before_month(y: int)
    ensures
        days_before_month(y, 1) == 0,
        days_before_month(y, 2) == 31,
        days_before_month(y, 3) == 59 + (year_length(y) - 365),
        days_before_month(y, 4) == 90 + (year_length(y) - 365),
        days_before_month(y, 5) == 120 + (year_length(y) - 365),
        days_before_month(y, 6) == 151 + (year_length(y) - 365),
        days_before_month(y, 7) == 181 + (year_length(y) - 365),
        days_before_month(y, 8) == 212 + (year_length(y) - 365),
        days_before_month(y, 9) == 243 + (year_length(y) - 365),
        days_before_month(y, 10) == 273 + (year_length(y) - 365),
        days_before_month(y, 11) == 304 + (year_length(y) - 365),
        days_before_month(y, 12) == 334 + (year_length(y) - 365),
        days_before_month(y, 13) == year_length(y),
{
    reveal_with_fuel(days_before_month, 14);
}

/// Every day of year `y` lies between its January 1st and the next one.
pub proof fn lemma_rata_die_within_year(y: int, m: int, d: int)
    requires
        is_calendar_date(y, m, d),
    ensures
        rata_die(y, 1, 1) <= rata_die(y, m, d) < rata_die(y + 1, 1, 1),
        rata_die(y + 1, 1, 1) == rata_die(y, 1, 1) + year_length(y),
{
    lemma_days_before_month(y);
    lemma_days_before_month(y + 1);
    lemma_year_step(y);
}

/// The day count orders dates as the calendar does: a date that comes later
/// has a larger day count.
pub proof fn lemma_rata_die_increasing(y1: int, m1: int, d1: int, y2: int, m2: int, d2: int)
    requires
        is_calendar_date(y1, m1, d1),
        is_calendar_date(y2, m2, d2),
        y1 < y2 || (y1 == y2 && (m1 < m2 || (m1 == m2 && d1 < d2))),
    ensures
        rata_die(y1, m1, d1) < rata_die(y2, m2, d2),
{
    lemma_days_before_month(y1);
    lemma_days_before_month(y2);
    if y1 < y2 {
        lemma_rata_die_within_year(y1, m1, d1);
        lemma_rata_die_within_year(y2, m2, d2);
        lemma_days_before_year_increasing(y1 + 1, y2);
    }
}

/// The date after a calendar date is a calendar date, one day later.
pub proof fn lemma_date_after(y: int, m: int, d: int)
    requires
        is_calendar_date(y, m, d),
    ensures
        ({
            let next = date_after(y, m, d);
            is_calendar_date(next.0, next.1, next.2) && rata_die(next.0, next.1, next.2)
                == rata_die(y, m, d) + 1
        }),
{
    lemma_days_before_month(y);
    lemma_days_before_month(y + 1);
    lemma_year_step(y);
}

/// The date before a calendar date is a calendar date, one day earlier.
pub proof fn lemma_date_before(y: int, m: int, d: int)
    requires
        is_calendar_date(y, m, d),
    ensures
        ({
            let prev = date_before(y, m, d);
            is_calendar_date(prev.0, prev.1, prev.2) && rata_die(prev.0, prev.1, prev.2)
                == rata_die(y, m, d) - 1
        }),
{
    lemma_days_before_month(y);
    lemma_days_before_month(y - 1);
    lemma_year_step(y - 1);
}

/// No two calendar dates share a day count.
pub proof fn lemma_rata_die_injective(y1: int, m1: int, d1: int, y2: int, m2: int, d2: int)
    requires
        is_calendar_date(y1, m1, d1),
        is_calendar_date(y2, m2, d2),
        rata_die(y1, m1, d1) == rata_die(y2, m2, d2),
    ensures
        y1 == y2,
        m1 == m2,
        d1 == d2,
{
    if y1 < y2 || (y1 == y2 && (m1 < m2 || (m1 == m2 && d1 < d2))) {
        lemma_rata_die_increasing(y1, m1, d1, y2, m2, d2);
    } else if y2 < y1 || (y2 == y1 && (m2 < m1 || (m2 == m1 && d2 < d1))) {
        lemma_rata_die_increasing(y2, m2, d2, y1, m1, d1);
    }
}

/// The date of the day count of a calendar date is that date.
pub proof fn lemma_date_of_rata_die(y: int, m: int, d: int)
    requires
        is_calendar_date(y, m, d),
    ensures
        date_of(rata_die(y, m, d)) == (y, m, d),
{
    let t = date_of(rata_die(y, m, d));
    let given = (y, m, d);
    assert(is_calendar_date(given.0, given.1, given.2) && rata_die(given.0, given.1, given.2)
        == rata_die(y, m, d));
    lemma_rata_die_injective(t.0, t.1, t.2, y, m, d);
}

/// Week 1 begins on the Monday on or before January 4th, so its Thursday is
/// the first Thursday on or after January 1st, whose day count is `jan1`.
proof fn lemma_first_thursday(jan1: int)
    ensures
        (jan1 + 3) - (weekday_of(jan1 + 3) - 1) + 3 == jan1 + (7 - jan1 % 7) % 7,
        weekday_of(jan1) == 4 <==> jan1 % 7 == 0,
        weekday_of(jan1) == 3 <==> jan1 % 7 == 6,
{
}

/// The weeks of a year, by the day count `jan1` of its January 1st and the
/// day count `one` of the Monday of its week 1: the Thursday of week `w` lies
/// in the year of `len` days, and day `d` of the week falls on weekday `d`.
proof fn lemma_weeks_of_year(jan1: int, one: int, len: int, w: int, d: int)
    requires
        one + 3 == jan1 + (7 - jan1 % 7) % 7,
        len == 365 || len == 366,
        1 <= d <= 7,
        1 <= w <= 53,
        w == 53 ==> jan1 % 7 == 0 || (jan1 % 7 == 6 && len == 366),
    ensures
        weekday_of(one + 7 * (w - 1) + (d - 1)) == d,
        jan1 <= one + 7 * (w - 1) + 3 < jan1 + len,
        w == (one + 7 * (w - 1) + 3 - jan1) / 7 + 1,
{
    let f = (7 - jan1 % 7) % 7;
    assert((jan1 + f) % 7 == 0);
    assert(one + 3 == 7 * ((jan1 + f) / 7));
    assert(one + 7 * (w - 1) + (d - 1) + 3 == 7 * ((jan1 + f) / 7 + (w - 1)) + (d - 1));
}

/// The week of a Thursday `t` that lies `k` days into a year of `len` days
/// is one of the year's ISO weeks, and holds that Thursday.
proof fn lemma_week_of_thursday(jan1: int, one: int, len: int, t: int)
    requires
        one + 3 == jan1 + (7 - jan1 % 7) % 7,
        len == 365 || len == 366,
        jan1 <= t < jan1 + len,
        t % 7 == 0,
    ensures
        1 <= (t - jan1) / 7 + 1 <= 53,
        (t - jan1) / 7 + 1 == 53 ==> jan1 % 7 == 0 || (jan1 % 7 == 6 && len == 366),
        one + 7 * ((t - jan1) / 7) + 3 == t,
{
    let f = (7 - jan1 % 7) % 7;
    let k = t - jan1;
    assert((jan1 + f) % 7 == 0);
    assert(k % 7 == f);
}

/// The Thursday of an ISO week lies in the calendar year that the week is
/// counted in, as many weeks after that year's first Thursday as the week's
/// number says, and the weekday of an ISO week date is the day of week of its
/// day count.
pub proof fn lemma_iso_week_thursday(y: int, w: int, d: int)
    requires
        is_iso_week_date(y, w, d),
    ensures
        weekday_of(iso_rata_die(y, w, d)) == d,
        rata_die(y, 1, 1) <= iso_rata_die(y, w, 4) < rata_die(y + 1, 1, 1),
        w == (iso_rata_die(y, w, 4) - rata_die(y, 1, 1)) / 7 + 1,
{
    let jan1 = rata_die(y, 1, 1);
    assert(rata_die(y, 1, 4) == jan1 + 3);
    lemma_rata_die_within_year(y, 1, 1);
    lemma_first_thursday(jan1);
    lemma_weeks_of_year(jan1, iso_week_one(y), year_length(y), w, d);
}

/// Week 1 of the next ISO year begins when the weeks of this one are over.
pub proof fn lemma_iso_year_step(y: int)
    ensures
        iso_week_one(y + 1) == iso_week_one(y) + 7 * iso_weeks(y),
{
    let jan1 = rata_die(y, 1, 1);
    let next = rata_die(y + 1, 1, 1);
    assert(rata_die(y, 1, 4) == jan1 + 3);
    assert(rata_die(y + 1, 1, 4) == next + 3);
    lemma_rata_die_within_year(y, 1, 1);
    lemma_first_thursday(jan1);
    lemma_first_thursday(next);
    lemma_next_first_thursday(jan1, year_length(y));
}

/// From the first Thursday of a year of `len` days to that of the next year
/// it is 53 weeks where the year begins on a Thursday, or on a Wednesday and
/// has 366 days, and 52 weeks otherwise.
proof fn lemma_next_first_thursday(jan1: int, len: int)
    requires
        len == 365 || len == 366,
    ensures
        jan1 + len + (7 - (jan1 + len) % 7) % 7 == jan1 + (7 - jan1 % 7) % 7 + 7 * (if jan1 % 7
            == 0 || (jan1 % 7 == 6 && len == 366) {
            53int
        } else {
            52int
        }),
{
    let a = jan1 % 7;
    assert(jan1 + len == 7 * (jan1 / 7 + 52) + (a + len - 364));
}

/// No two ISO week dates share a day count.
pub proof fn lemma_iso_rata_die_injective(y1: int, w1: int, d1: int, y2: int, w2: int, d2: int)
    requires
        is_iso_week_date(y1, w1, d1),
        is_iso_week_date(y2, w2, d2),
        iso_rata_die(y1, w1, d1) == iso_rata_die(y2, w2, d2),
    ensures
        y1 == y2,
        w1 == w2,
        d1 == d2,
{
    lemma_iso_week_thursday(y1, w1, d1);
    lemma_iso_week_thursday(y2, w2, d2);
    assert(d1 == d2);
    assert(iso_rata_die(y1, w1, 4) == iso_rata_die(y2, w2, 4));
    if y1 < y2 {
        lemma_days_before_year_increasing(y1 + 1, y2);
    }
    if y2 < y1 {
        lemma_days_before_year_increasing(y2 + 1, y1);
    }
}

/// The ISO week date of the day count of an ISO week date is that date.
pub proof fn lemma_iso_week_date_of_rata_die(y: int, w: int, d: int)
    requires
        is_iso_week_date(y, w, d),
    ensures
        iso_week_date_of(iso_rata_die(y, w, d)) == (y, w, d),
{
    let t = iso_week_date_of(iso_rata_die(y, w, d));
    let given = (y, w, d);
    assert(is_iso_week_date(given.0, given.1, given.2) && iso_rata_die(
        given.0,
        given.1,
        given.2,
    ) == iso_rata_die(y, w, d));
    lemma_iso_rata_die_injective(t.0, t.1, t.2, y, w, d);
}

/// The ISO week date of a day: its year is the calendar year of the Thursday
/// of the day's week, and its week counts the Thursdays of that year up to
/// that one.
///
/// Here `(y, m, d)` is the calendar date of the Thursday of the week of day
/// count `n`.
pub proof fn lemma_iso_week_of_day(n: int, y: int, m: int, d: int)
    requires
        is_calendar_date(y, m, d),
        rata_die(y, m, d) == n + 4 - weekday_of(n),
    ensures
        ({
            let w = (rata_die(y, m, d) - rata_die(y, 1, 1)) / 7 + 1;
            is_iso_week_date(y, w, weekday_of(n)) && iso_rata_die(y, w, weekday_of(n)) == n
        }),
{
    let jan1 = rata_die(y, 1, 1);
    let t = rata_die(y, m, d);
    assert(rata_die(y, 1, 4) == jan1 + 3);
    lemma_rata_die_within_year(y, m, d);
    lemma_first_thursday(jan1);
    assert(t % 7 == 0);
    lemma_week_of_thursday(jan1, iso_week_one(y), year_length(y), t);
}

} // verus!
