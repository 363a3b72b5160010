//! The day of week of a day count and of a Gregorian date.

use vstd::prelude::*;
use crate::calendar::{rata_die, valid_date, weekday_of};
use crate::date::{
    date_to_internal, lemma_shifted_form, lemma_year_term, shifted_month, shifted_month_start,
    shifted_year,
};
use crate::{RD_MAX, RD_MIN};

verus! {

/// The whole part of 2^64 / 7.
const P64_OVER_SEVEN: u64 = 2635249153387078802;

/// The whole part of 2^32 / 7.
const P32_OVER_SEVEN: u32 = 613566756;

/// Shifting right is dividing by a power of two.
proof fn lemma_shift_64(x: u64)
    by (bit_vector)
    ensures
        x >> 61 == x / 0x2000_0000_0000_0000,
{
}

/// Shifting right is dividing by a power of two.
proof fn lemma_shift_32(x: u32)
    by (bit_vector)
    ensures
        x >> 29 == x / 0x2000_0000,
{
}

/// The top three bits of the low 64 bits of `n * (2^64 / 7)` are the place of
/// `n` in its run of seven, counted from 1.
///
/// Seven times the multiplier is 2^64 - 2, so the product of `7 * q + r` is
/// `r` times the multiplier less `2 * q`, modulo 2^64. The binary digits of
/// one seventh repeat in groups of three, which puts `r` in the top three
/// bits, and `2 * q` is too small to borrow from them.
proof fn lemma_sevenths_64(n: int)
    requires
        1 <= n <= 0x8000_0000,
    ensures
        ((n * 2635249153387078802) % 0x1_0000_0000_0000_0000) / 0x2000_0000_0000_0000 == (n - 1)
            % 7 + 1,
{
    let q = (n - 1) / 7;
    let r = (n - 1) % 7;
    let x = (r + 1) * 2635249153387078802 - 2 * q;
    assert(n * 2635249153387078802 == q * 0x1_0000_0000_0000_0000 + x);
    assert(0 <= x < 0x1_0000_0000_0000_0000);
    assert((q * 0x1_0000_0000_0000_0000 + x) % 0x1_0000_0000_0000_0000 == x);
    assert((r + 1) * 0x2000_0000_0000_0000 <= x < (r + 2) * 0x2000_0000_0000_0000);
}

/// The top three bits of the low 32 bits of `n * (2^32 / 7)` are the place of
/// `n` in its run of seven, counted from 1.
///
/// Seven times the multiplier is 2^32 - 4; the rest is as for 64 bits.
proof fn lemma_sevenths_32(n: int)
    requires
        1 <= n <= 0x80_0000,
    ensures
        ((n * 613566756) % 0x1_0000_0000) / 0x2000_0000 == (n - 1) % 7 + 1,
{
    let q = (n - 1) / 7;
    let r = (n - 1) % 7;
    let x = (r + 1) * 613566756 - 4 * q;
    assert(n * 613566756 == q * 0x1_0000_0000 + x);
    assert(0 <= x < 0x1_0000_0000);
    assert((q * 0x1_0000_0000 + x) % 0x1_0000_0000 == x);
    assert((r + 1) * 0x2000_0000 <= x < (r + 2) * 0x2000_0000);
}

/// Adding a multiple of seven to a day count keeps its day of week.
proof fn lemma_weekday_period(n: int, k: int)
    ensures
        weekday_of(n + 7 * k) == weekday_of(n),
{
}

/// Convert a day count to its day of week.
///
/// Given the days since 1970-01-01, returns the day of week from 1 for Monday
/// to 7 for Sunday.
#[inline]
pub fn rd_to_weekday(n: i32) -> (wd: u8)
    requires
        RD_MIN <= n <= RD_MAX,
    ensures
        wd == weekday_of(n as int),
        1 <= wd <= 7,
{
    let m: u64 = (n - RD_MIN) as u64 + 1;
    let p: u64 = m.wrapping_mul(P64_OVER_SEVEN);
    proof {
        lemma_sevenths_64(m as int);
        lemma_shift_64(p);
        lemma_weekday_period(n as int, 76699307);
        assert(m - 1 == (n + 7 * 76699307) + 3);
    }
    (p >> 61) as u8
}

/// The year and month terms of the weekday formula differ from those of the
/// day count by multiples of seven and a constant.
proof fn lemma_weekday_terms(y: int, m: int, d: int, yc: int, mc: int, n: int)
    requires
        valid_date(y, m, d),
        yc == shifted_year(y, m),
        mc == shifted_month(m),
        0 <= yc <= 2939744,
        n == 5 * yc / 4 - yc / 100 + (yc / 100) / 4 + (979 * mc - 2855) / 32 + d,
    ensures
        1 <= n <= 0x80_0000,
        (n - 1) % 7 + 1 == weekday_of(rata_die(y, m, d)),
{
    lemma_shifted_form(y, m, d);
    lemma_year_term(yc);
    assert(5 * yc / 4 == 1461 * yc / 4 - 364 * yc);
    assert((979 * mc - 2855) / 32 == shifted_month_start(mc) + 2);
    let rd = rata_die(y, m, d);
    assert(n == rd + 536895458 - 364 * yc + 3);
    lemma_weekday_period(rd, 76699351 - 52 * yc);
    assert(n - 1 == (rd + 7 * (76699351 - 52 * yc)) + 3);
}

/// Convert a Gregorian date to its day of week.
///
/// Given a `(year, month, day)` tuple, returns the day of week from 1 for
/// Monday to 7 for Sunday, without finding the day count first.
#[inline]
pub fn date_to_weekday(date: (i32, u8, u8)) -> (wd: u8)
    requires
        valid_date(date.0 as int, date.1 as int, date.2 as int),
    ensures
        wd == weekday_of(rata_die(date.0 as int, date.1 as int, date.2 as int)),
        1 <= wd <= 7,
{
    let (c, y, m, d) = date_to_internal(date.0, date.1, date.2);
    let ghost yc = y as int;
    // year
    let y: u32 = 5 * y / 4 - c + c / 4;
    // month
    let m: u32 = (979 * m - 2855) / 32;
    // result
    let n: u32 = y + m + d;
    let p: u32 = n.wrapping_mul(P32_OVER_SEVEN);
    proof {
        lemma_weekday_terms(
            date.0 as int,
            date.1 as int,
            date.2 as int,
            yc,
            shifted_month(date.1 as int),
            n as int,
        );
        lemma_sevenths_32(n as int);
        lemma_shift_32(p);
    }
    (p >> 29) as u8
}

} // verus!
