//! Convenience constants, mostly for input validation.

use vstd::prelude::*;

verus! {

/// Minimum value for week
pub const WEEK_MIN: u8 = 1;

/// Maximum value for week
pub const WEEK_MAX: u8 = 53;

/// Minimum value for month
pub const MONTH_MIN: u8 = 1;

/// Maximum value for month
pub const MONTH_MAX: u8 = 12;

/// Minimum value for day of month
pub const DAY_MIN: u8 = 1;

/// Maximum value for day of month
pub const DAY_MAX: u8 = 31;

/// Minimum value for day of week
pub const WEEKDAY_MIN: u8 = 1;

/// Maximum value for day of week
pub const WEEKDAY_MAX: u8 = 7;

/// Minimum value for hours
pub const HOUR_MIN: u8 = 0;

/// Maximum value for hours
pub const HOUR_MAX: u8 = 23;

/// Minimum value for minutes
pub const MINUTE_MIN: u8 = 0;

/// Maximum value for minutes
pub const MINUTE_MAX: u8 = 59;

/// Minimum value for seconds
pub const SECOND_MIN: u8 = 0;

/// Maximum value for seconds
pub const SECOND_MAX: u8 = 59;

/// Minimum value for nanoseconds
pub const NANOSECOND_MIN: u32 = 0;

/// Maximum value for nanoseconds
pub const NANOSECOND_MAX: u32 = 999_999_999;

/// January month value
pub const JANUARY: u8 = 1;

/// February month value
pub const FEBRUARY: u8 = 2;

/// March month value
pub const MARCH: u8 = 3;

/// April month value
pub const APRIL: u8 = 4;

/// May month value
pub const MAY: u8 = 5;

/// June month value
pub const JUNE: u8 = 6;

/// July month value
pub const JULY: u8 = 7;

/// August month value
pub const AUGUST: u8 = 8;

/// September month value
pub const SEPTEMBER: u8 = 9;

/// October month value
pub const OCTOBER: u8 = 10;

/// November month value
pub const NOVEMBER: u8 = 11;

/// December month value
pub const DECEMBER: u8 = 12;

/// Monday day of week value
pub const MONDAY: u8 = 1;

/// Tuesday day of week value
pub const TUESDAY: u8 = 2;

/// Wednesday day of week value
pub const WEDNESDAY: u8 = 3;

/// Thursday day of week value
pub const THURSDAY: u8 = 4;

/// Friday day of week value
pub const FRIDAY: u8 = 5;

/// Saturday day of week value
pub const SATURDAY: u8 = 6;

/// Sunday day of week value
pub const SUNDAY: u8 = 7;

} // verus!
