//! Conversion between day counts and Gregorian dates, the lengths of months
//! and years, and the day after and before a date.
//!
//! The conversions work in a shifted calendar whose years begin on March 1st,
//! so that the leap day is the last day of its year, and whose year 0 lies
//! 3670 eras of 400 years before the Gregorian year 0, so that every
//! supported date has a non-negative year and day number there.

use vstd::prelude::*;
use crate::calendar::{
    date_after, date_before, date_of, days_before_month, days_before_year, is_leap,
    lemma_date_after, lemma_date_before, lemma_date_of_rata_die, lemma_days_before_month,
    lemma_rata_die_increasing, lemma_year_step, month_length, rata_die, valid_date, year_length,
};
use crate::{RD_MAX, RD_MIN, YEAR_MAX, YEAR_MIN};

verus! {

/// Days from the start of the shifted calendar to 1970-01-01: 3670 eras of
/// 146097 days, and the 719468 days from 0000-03-01 to 1970-01-01.
pub(crate) const DAY_OFFSET: i32 = 536895458;

/// Years from the start of the shifted calendar to year 0: 3670 eras of 400
/// years.
pub(crate) const YEAR_OFFSET: i32 = 1468000;

/// The year of the shifted calendar that holds month `m` of year `y`.
pub(crate) open spec fn shifted_year(y: int, m: int) -> int {
    if m < 3 {
        y + 1468000 - 1
    } else {
        y + 1468000
    }
}

/// The number of month `m` in the shifted calendar: 3 for March up to 14 for
/// February.
pub(crate) open spec fn shifted_month(m: int) -> int {
    if m < 3 {
        m + 12
    } else {
        m
    }
}

/// Days of the shifted calendar before its year `yc`.
pub(crate) open spec fn shifted_year_start(yc: int) -> int {
    365 * yc + yc / 4 - yc / 100 + yc / 400
}

/// Days of a shifted year before its month `mc`.
pub(crate) open spec fn shifted_month_start(mc: int) -> int {
    (979 * mc - 2919) / 32
}

/// Moving 3670 eras of 400 years on adds 3670 times the days of an era.
proof fn lemma_eras(y: int)
    ensures
        shifted_year_start(y + 1468000) == days_before_year(y + 1) + 3670 * 146097,
{
    reveal(days_before_year);
    assert((y + 1468000) / 4 == y / 4 + 367000);
    assert((y + 1468000) / 100 == y / 100 + 14680);
    assert((y + 1468000) / 400 == y / 400 + 3670);
}

/// Leap years repeat every 400 years.
proof fn lemma_leap_era(y: int)
    ensures
        is_leap(y + 1468000) == is_leap(y),
{
}

/// The day count of a date, written in the shifted calendar.
pub(crate) proof fn lemma_shifted_form(y: int, m: int, d: int)
    requires
        1 <= m <= 12,
    ensures
        rata_die(y, m, d) + 536895458 == shifted_year_start(shifted_year(y, m))
            + shifted_month_start(shifted_month(m)) + (d - 1),
{
    lemma_days_before_month(y);
    lemma_eras(y);
    lemma_eras(y - 1);
    lemma_year_step(y);
    assert(days_before_year(1970) == 719162) by {
        reveal(days_before_year);
    }
    if m < 3 {
        assert(shifted_month_start(m + 12) == 306 + days_before_month(y, m));
    } else {
        assert(shifted_month_start(m) == days_before_month(y, m) - 59 - (year_length(y) - 365));
    }
}

/// The year term of the day count formula: 1461 days in every four years,
/// less one for each century, plus one for each fourth century.
pub(crate) proof fn lemma_year_term(yc: int)
    requires
        0 <= yc,
    ensures
        1461 * yc / 4 - yc / 100 + (yc / 100) / 4 == shifted_year_start(yc),
        yc / 100 <= 1461 * yc / 4,
{
    assert(1461 * yc / 4 == 365 * yc + yc / 4);
    assert((yc / 100) / 4 == yc / 400);
}

/// The supported day counts begin with the first day of [`YEAR_MIN`] and end
/// with the last day of [`YEAR_MAX`].
pub proof fn lemma_rd_bounds()
    ensures
        rata_die(YEAR_MIN as int, 1, 1) == RD_MIN,
        rata_die(YEAR_MAX as int, 12, 31) == RD_MAX,
{
    lemma_shifted_form(YEAR_MIN as int, 1, 1);
    lemma_shifted_form(YEAR_MAX as int, 12, 31);
}

/// Every supported date has a supported day count.
pub proof fn lemma_rata_die_in_range(y: int, m: int, d: int)
    requires
        valid_date(y, m, d),
    ensures
        RD_MIN <= rata_die(y, m, d) <= RD_MAX,
{
    lemma_rd_bounds();
    if (y, m, d) != (YEAR_MIN as int, 1int, 1int) {
        lemma_rata_die_increasing(YEAR_MIN as int, 1, 1, y, m, d);
    }
    if (y, m, d) != (YEAR_MAX as int, 12int, 31int) {
        lemma_rata_die_increasing(y, m, d, YEAR_MAX as int, 12, 31);
    }
}

/// Convert a Gregorian date to the shifted calendar.
///
/// Returns the century, year, month and day of month there; the day still
/// counts from 1.
#[inline]
pub(crate) fn date_to_internal(y: i32, m: u8, d: u8) -> (r: (u32, u32, u32, u32))
    requires
        valid_date(y as int, m as int, d as int),
    ensures
        r.0 == r.1 / 100,
        r.1 == shifted_year(y as int, m as int),
        r.2 == shifted_month(m as int),
        r.3 == d,
        0 <= r.1 <= 2939744,
{
    let y: u32 = (y + YEAR_OFFSET) as u32;
    let jf: u32 = if m < 3 { 1 } else { 0 };
    // year
    let y: u32 = y - jf;
    // century
    let c: u32 = y / 100;
    // month
    let m: u32 = m as u32 + 12 * jf;
    // day
    let d: u32 = d as u32;
    (c, y, m, d)
}

/// Convert a Gregorian date to its day count.
///
/// Given a `(year, month, day)` tuple, returns the days since 1970-01-01.
/// Dates before then give negative values.
#[inline]
pub fn date_to_rd(date: (i32, u8, u8)) -> (n: i32)
    requires
        valid_date(date.0 as int, date.1 as int, date.2 as int),
    ensures
        n == rata_die(date.0 as int, date.1 as int, date.2 as int),
        RD_MIN <= n <= RD_MAX,
{
    let (c, y, m, d) = date_to_internal(date.0, date.1, date.2);
    proof {
        lemma_shifted_form(date.0 as int, date.1 as int, date.2 as int);
        lemma_rata_die_in_range(date.0 as int, date.1 as int, date.2 as int);
        lemma_year_term(y as int);
    }
    let d: u32 = d - 1;
    // year
    let y: u32 = 1461 * y / 4 - c + c / 4;
    // month
    let m: u32 = (979 * m - 2919) / 32;
    // result
    let n: u32 = y + m + d;
    (n as i32) - DAY_OFFSET
}

/// Setting the two low bits rounds up to the next number that is 3 modulo 4.
proof fn lemma_or_three(x: u32)
    by (bit_vector)
    ensures
        x | 3 == x - x % 4 + 3,
{
}

/// Splitting a day number `n` of the shifted calendar into century, year of
/// the century and day of the year.
///
/// Four centuries have 146097 days, and `c` and `r` are the quotient and
/// remainder of `4 * n + 3` by that. Four years have 1461 days, and `z` and
/// `s` are the quotient and remainder by that of `r` with its two low bits
/// set. The year is then `100 * c + z` and the day of the year `s / 4`, and
/// the year's 366th day is there only before a leap year.
proof fn lemma_split_days(n: int, c: int, r: int, z: int, s: int)
    requires
        0 <= n,
        c == (4 * n + 3) / 146097,
        r == (4 * n + 3) % 146097,
        z == (r - r % 4 + 3) / 1461,
        s == (r - r % 4 + 3) % 1461,
    ensures
        0 <= z <= 99,
        0 <= s / 4 <= 365,
        n == shifted_year_start(100 * c + z) + s / 4,
        s / 4 == 365 ==> is_leap(100 * c + z + 1),
{
    let nc = r / 4;
    let n3 = s / 4;
    assert(n == 36524 * c + c / 4 + nc);
    assert(nc == 365 * z + z / 4 + n3);
    let yc = 100 * c + z;
    assert(yc / 4 == 25 * c + z / 4);
    assert(yc / 100 == c);
    assert(yc / 400 == c / 4);
    if n3 == 365 {
        assert(s == 1460);
        assert(z % 4 == 3);
        if z == 99 {
            assert(r == 146096);
            assert(c % 4 == 3);
            assert((yc + 1) == 100 * (c + 1));
            assert((yc + 1) % 400 == 0);
        } else {
            assert((yc + 1) % 100 == z + 1);
        }
    }
}

/// Multiplying by 2939745 and splitting at bit 32 divides by 1461.
///
/// 2939745 times 1461 is 2^32 + 149, and 149 times the quotient stays too
/// small to reach the next multiple of 2939745.
proof fn lemma_year_of_century(n: int)
    requires
        0 <= n < 146100,
    ensures
        (2939745 * n) / 0x1_0000_0000 == n / 1461,
        ((2939745 * n) % 0x1_0000_0000) / 2939745 == n % 1461,
{
    let q = n / 1461;
    let r = n % 1461;
    assert(2939745 * n == q * 0x1_0000_0000 + (149 * q + 2939745 * r));
    assert(0 <= 149 * q + 2939745 * r < 0x1_0000_0000);
}

/// Multiplying a day of the shifted year by 2141, adding 197913 and splitting
/// at bit 16 gives its month and its day of the month, counted from 0.
proof fn lemma_month_of_year(n: int)
    requires
        0 <= n <= 365,
    ensures
        3 <= (2141 * n + 197913) / 65536 <= 14,
        n >= 306 <==> (2141 * n + 197913) / 65536 >= 13,
        0 <= ((2141 * n + 197913) % 65536) / 2141,
        n == shifted_month_start((2141 * n + 197913) / 65536) + ((2141 * n + 197913) % 65536)
            / 2141,
        n < shifted_month_start((2141 * n + 197913) / 65536 + 1),
{
}

/// A day of the shifted year that lies in month `m` as its day `d` is a day
/// of that month; it is a 29th of February only as the last of 366 days.
proof fn lemma_day_in_month(n3: int, m: int, d: int, leap: bool)
    requires
        1 <= m <= 12,
        1 <= d,
        0 <= n3 <= 365,
        n3 == shifted_month_start(shifted_month(m)) + (d - 1),
        n3 < shifted_month_start(shifted_month(m) + 1),
        n3 == 365 ==> leap,
    ensures
        d <= (if m == 2 {
            if leap {
                29int
            } else {
                28int
            }
        } else if m == 4 || m == 6 || m == 9 || m == 11 {
            30int
        } else {
            31int
        }),
{
}

/// A date found from its year `yc` and day of the year `n3` in the shifted
/// calendar is a supported date with the day count that the two stand for.
proof fn lemma_result_is_date(rd: int, yc: int, n3: int, y: int, m: int, d: int)
    requires
        RD_MIN <= rd <= RD_MAX,
        1 <= m <= 12,
        1 <= d,
        0 <= n3 <= 365,
        rd + 536895458 == shifted_year_start(yc) + n3,
        n3 == shifted_month_start(shifted_month(m)) + (d - 1),
        n3 < shifted_month_start(shifted_month(m) + 1),
        n3 == 365 ==> is_leap(yc + 1),
        yc == shifted_year(y, m),
    ensures
        valid_date(y, m, d),
        rata_die(y, m, d) == rd,
{
    lemma_shifted_form(y, m, d);
    lemma_leap_era(y);
    lemma_day_in_month(n3, m, d, is_leap(y));
    lemma_rd_bounds();
    if y < YEAR_MIN {
        lemma_rata_die_increasing(y, m, d, YEAR_MIN as int, 1, 1);
    }
    if y > YEAR_MAX {
        lemma_rata_die_increasing(YEAR_MAX as int, 12, 31, y, m, d);
    }
}

/// Every supported day count is that of a supported date.
pub proof fn lemma_date_of_in_range(n: int)
    requires
        RD_MIN <= n <= RD_MAX,
    ensures
        ({
            let date = date_of(n);
            valid_date(date.0, date.1, date.2) && rata_die(date.0, date.1, date.2) == n
        }),
{
    let days = n + 536895458;
    let c = (4 * days + 3) / 146097;
    let r = (4 * days + 3) % 146097;
    let z = (r - r % 4 + 3) / 1461;
    let s = (r - r % 4 + 3) % 1461;
    let n3 = s / 4;
    lemma_split_days(days, c, r, z, s);
    lemma_month_of_year(n3);
    let mc = (2141 * n3 + 197913) / 65536;
    let d = ((2141 * n3 + 197913) % 65536) / 2141 + 1;
    if n3 >= 306 {
        lemma_result_is_date(n, 100 * c + z, n3, 100 * c + z + 1 - 1468000, mc - 12, d);
        lemma_date_of_rata_die(100 * c + z + 1 - 1468000, mc - 12, d);
    } else {
        lemma_result_is_date(n, 100 * c + z, n3, 100 * c + z - 1468000, mc, d);
        lemma_date_of_rata_die(100 * c + z - 1468000, mc, d);
    }
}

/// Convert a day count to a Gregorian date.
///
/// Given the days since 1970-01-01, returns the `(year, month, day)` tuple of
/// that day. The century comes from one division, the year of the century
/// and the day of the year from one multiplication split at bit 32, and the
/// month and day from one split at bit 16.
#[inline]
pub fn rd_to_date(n: i32) -> (date: (i32, u8, u8))
    requires
        RD_MIN <= n <= RD_MAX,
    ensures
        (date.0 as int, date.1 as int, date.2 as int) == date_of(n as int),
        valid_date(date.0 as int, date.1 as int, date.2 as int),
        rata_die(date.0 as int, date.1 as int, date.2 as int) == n,
{
    let ghost rd = n as int;
    let n: u32 = (n + DAY_OFFSET) as u32;
    // century
    let n: u32 = 4 * n + 3;
    let c: u32 = n / 146097;
    let r: u32 = n % 146097;
    // year
    let n: u32 = r | 3;
    let p: u64 = 2939745 * (n as u64);
    let z: u32 = (p / 0x1_0000_0000) as u32;
    let s: u32 = (p % 0x1_0000_0000) as u32 / 2939745;
    let n: u32 = s / 4;
    proof {
        lemma_or_three(r);
        lemma_year_of_century(r - r % 4 + 3);
        lemma_split_days(rd + 536895458, c as int, r as int, z as int, s as int);
        lemma_month_of_year(n as int);
    }
    let j: bool = n >= 306;
    let y: u32 = 100 * c + z + if j { 1u32 } else { 0u32 };
    let ghost n3 = n as int;
    // month and day
    let n: u32 = 2141 * n + 197913;
    let m: u32 = n / 65536;
    let d: u32 = n % 65536 / 2141;
    // map
    let y: i32 = (y as i32) - YEAR_OFFSET;
    let m: u32 = if j { m - 12 } else { m };
    let d: u32 = d + 1;
    proof {
        lemma_result_is_date(rd, (100 * c + z) as int, n3, y as int, m as int, d as int);
        lemma_date_of_rata_die(y as int, m as int, d as int);
    }
    (y, m as u8, d as u8)
}

/// The leap year test on the bits of the year.
///
/// Where 25 does not divide the year, 100 and 400 do not either, and the
/// test is for a multiple of 4: two clear low bits. Where 25 divides it, a
/// multiple of 4 is one of 100, so the test is for a multiple of 400, which
/// is one of 16: four clear low bits. This holds of negative years too.
proof fn lemma_leap_bits(y: i32)
    by (bit_vector)
    ensures
        (y % 4 == 0 && (y % 100 != 0 || y % 400 == 0)) == (if y % 25 != 0 {
            y & 3 == 0
        } else {
            y & 15 == 0
        }),
{
}

/// Determine if the given year is a leap year.
#[inline]
pub fn is_leap_year(y: i32) -> (leap: bool)
    ensures
        leap == is_leap(y as int),
{
    proof {
        lemma_leap_bits(y);
    }
    if (y % 25) != 0 {
        y & 3 == 0
    } else {
        y & 15 == 0
    }
}

/// The length of a month other than February, from the bits of its number.
proof fn lemma_month_bits(m: u8)
    by (bit_vector)
    requires
        1 <= m <= 12,
        m != 2,
    ensures
        30 | (m ^ (m >> 3)) == if m == 4 || m == 6 || m == 9 || m == 11 {
            30u8
        } else {
            31u8
        },
{
}

/// Determine the number of days in the given month of the given year.
#[inline]
pub fn days_in_month(y: i32, m: u8) -> (days: u8)
    requires
        1 <= m <= 12,
    ensures
        days == month_length(y as int, m as int),
        28 <= days <= 31,
{
    if m != 2 {
        proof {
            lemma_month_bits(m);
        }
        30 | (m ^ (m >> 3))
    } else if is_leap_year(y) {
        29
    } else {
        28
    }
}

/// Calculate the date that follows the given one.
///
/// The day goes up by one; past the end of the month it goes back to 1 and
/// the month goes up, and past December the month goes back to 1 and the
/// year goes up. The day count of the result is one more than that of the
/// argument. The last supported date has no successor here.
#[inline]
pub fn next_date(date: (i32, u8, u8)) -> (next: (i32, u8, u8))
    requires
        valid_date(date.0 as int, date.1 as int, date.2 as int),
        date.0 != YEAR_MAX || date.1 != 12 || date.2 != 31,
    ensures
        (next.0 as int, next.1 as int, next.2 as int) == date_after(
            date.0 as int,
            date.1 as int,
            date.2 as int,
        ),
        valid_date(next.0 as int, next.1 as int, next.2 as int),
        rata_die(next.0 as int, next.1 as int, next.2 as int) == rata_die(
            date.0 as int,
            date.1 as int,
            date.2 as int,
        ) + 1,
{
    let (y, m, d) = date;
    proof {
        lemma_date_after(y as int, m as int, d as int);
    }
    if d < 28 || d < days_in_month(y, m) {
        (y, m, d + 1)
    } else if m < 12 {
        (y, m + 1, 1)
    } else {
        (y + 1, 1, 1)
    }
}

/// Calculate the date that precedes the given one.
///
/// The day goes down by one; before the first of the month it becomes the
/// last day of the month before, and before January the last day of the year
/// before. The day count of the result is one less than that of the
/// argument. The first supported date has no predecessor here.
#[inline]
pub fn prev_date(date: (i32, u8, u8)) -> (prev: (i32, u8, u8))
    requires
        valid_date(date.0 as int, date.1 as int, date.2 as int),
        date.0 != YEAR_MIN || date.1 != 1 || date.2 != 1,
    ensures
        (prev.0 as int, prev.1 as int, prev.2 as int) == date_before(
            date.0 as int,
            date.1 as int,
            date.2 as int,
        ),
        valid_date(prev.0 as int, prev.1 as int, prev.2 as int),
        rata_die(prev.0 as int, prev.1 as int, prev.2 as int) == rata_die(
            date.0 as int,
            date.1 as int,
            date.2 as int,
        ) - 1,
{
    let (y, m, d) = date;
    proof {
        lemma_date_before(y as int, m as int, d as int);
    }
    if d > 1 {
        (y, m, d - 1)
    } else if m > 1 {
        (y, m - 1, days_in_month(y, m - 1))
    } else {
        (y - 1, 12, 31)
    }
}

} // verus!
