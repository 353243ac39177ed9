//! Conversion between the Jalali (Solar Hijri) calendar and the proleptic
//! Gregorian calendar.
//!
//! The two calendars meet at the Julian Day Number (JDN) line: every date is
//! mapped to an absolute day count, and each direction of the conversion is
//! specified and proved against that mapping.

use vstd::prelude::*;

pub mod convert;
pub mod gregorian;
pub mod jalali;
pub mod text;

pub use convert::first_weekday;
pub use convert::gregorian_to_jalali;
pub use convert::jalali_to_gregorian;
pub use gregorian::compute_jdn_internal;
pub use jalali::days_in_month;
pub use jalali::days_offset_to_jalali_internal;
pub use jalali::is_leap;
pub use jalali::jalali_day_of_year;
pub use jalali::jalali_to_jdn_internal;
pub use jalali::jalali_yday_to_month_day_internal;
pub use text::to_persian_numerals;

verus! {

/// The two failure kinds of the calendar engine.
///
/// `InvalidArgument` reports a structural precondition violated before any
/// calendar arithmetic is attempted (a month outside 1..=12).
/// `InvalidDate` reports a semantically invalid calendar date, or a Gregorian
/// date before the supported minimum (622-03-22, the approximate epoch start
/// of the Solar Hijri calendar).
#[derive(Debug, Clone, Copy, PartialEq, Eq, Structural)]
pub enum CalendarError {
    InvalidArgument,
    InvalidDate,
}

/// Lexicographic order of calendar dates: earlier year, or same year and
/// earlier month, or same month and earlier day.
pub open spec fn date_lt(y1: int, m1: int, d1: int, y2: int, m2: int, d2: int) -> bool {
    y1 < y2 || (y1 == y2 && (m1 < m2 || (m1 == m2 && d1 < d2)))
}

/// Units of time understood by the calling layers when they adjust a date or
/// a time of day before or after a conversion.
#[derive(Debug, Clone, Copy)]
pub enum TimeUnit {
    Year,
    Month,
    Week,
    Day,
    Hour,
    Minute,
    Second,
}

} // verus!
