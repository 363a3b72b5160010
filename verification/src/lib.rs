//! Low-level date algorithms: conversions between a day count, Gregorian
//! dates, days of week, ISO week dates and seconds.
//!
//! A day count ("rata die") is the number of days from 1970-01-01, negative
//! before it. Dates are those of the proleptic Gregorian calendar, and every
//! day has exactly 86400 seconds. Dates and times are plain tuples of
//! integers; the functions own no state and allocate nothing.
//!
//! The conversions are closed-form integer arithmetic. Each one is proved,
//! for every input in its supported range, against the calendar defined in
//! [`calendar`], and proved free of overflow. The ranges are those of
//! [`YEAR_MIN`] to [`YEAR_MAX`]; callers check them before they call.

use vstd::prelude::*;

pub mod calendar;
pub mod consts;
pub mod date;
pub mod isoweek;
pub mod systemtime;
pub mod time;
pub mod weekday;

pub use crate::date::{date_to_rd, days_in_month, is_leap_year, next_date, prev_date, rd_to_date};
pub use crate::isoweek::{
    date_to_isoweekdate, isoweekdate_to_date, isoweekdate_to_rd, isoweeks_in_year,
    rd_to_isoweekdate,
};
pub use crate::systemtime::{
    datetime_to_systemtime, offset_to_secs, secs_to_offset, secs_to_systemtime,
    systemtime_to_datetime, systemtime_to_secs,
};
pub use crate::time::{datetime_to_secs, dhms_to_secs, secs_to_datetime, secs_to_dhms};
pub use crate::weekday::{date_to_weekday, rd_to_weekday};

verus! {

/// Minimum supported year for conversion.
pub const YEAR_MIN: i32 = -1467999;

/// Maximum supported year for conversion.
pub const YEAR_MAX: i32 = 1471744;

/// Minimum supported day count: January 1st of [`YEAR_MIN`].
pub const RD_MIN: i32 = -536895152;

/// Maximum supported day count: December 31st of [`YEAR_MAX`].
pub const RD_MAX: i32 = 536824295;

/// Minimum supported count of seconds: the first second of [`RD_MIN`].
pub const RD_SECONDS_MIN: i64 = -46387741132800;

/// Maximum supported count of seconds: the last second of [`RD_MAX`].
pub const RD_SECONDS_MAX: i64 = 46381619174399;

} // verus!
