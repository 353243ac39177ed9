//! The Jalali (Solar Hijri) side of the calendar engine: the leap-year rule,
//! month lengths, and the mapping between Jalali dates and Julian Day Numbers.
//!
//! The mapping is anchored at a fixed reference point: day 286 (0-indexed) of
//! Jalali year 1348 is the day of the Unix epoch, JDN 2,440,588.

use vstd::prelude::*;

use crate::CalendarError;
use crate::date_lt;
use vstd::arithmetic::div_mod::lemma_fundamental_div_mod;
use vstd::arithmetic::div_mod::lemma_fundamental_div_mod_converse;
use vstd::arithmetic::div_mod::lemma_mod_bound;

verus! {

/// The leap-year cycle length of the Solar Hijri approximation.
pub const LEAP_CYCLE: i32 = 33;

/// JDN of the Unix epoch day, 1970-01-01 Gregorian.
pub const UNIX_EPOCH_JDN: i64 = 2_440_588;

/// Jalali year containing the Unix epoch day.
pub const JALALI_YEAR_AT_UNIX_EPOCH: i32 = 1_348;

/// 0-indexed day of Jalali year 1348 that falls on the Unix epoch day.
pub const JALALI_YDAY_AT_UNIX_EPOCH: i32 = 286;

/// Whether a Jalali year is a leap year.
///
/// Years at or before 0 are never leap. Years 1 through 5 are leap exactly
/// when divisible by 4: the 33-year cycle residues are inaccurate this close
/// to the epoch, so the rule departs from the cycle there. Later years are
/// leap exactly when their residue modulo 33 lies in a fixed 8-element set.
pub open spec fn leap_year(jy: int) -> bool {
    if jy <= 0 {
        false
    } else if jy <= 5 {
        jy % 4 == 0
    } else {
        let r = jy % 33;
        r == 1 || r == 5 || r == 9 || r == 13 || r == 17 || r == 22 || r == 26 || r == 30
    }
}

/// Number of days of Jalali year `jy`.
pub open spec fn year_days(jy: int) -> int {
    if leap_year(jy) {
        366
    } else {
        365
    }
}

/// Number of days of month `jm` of Jalali year `jy`.
///
/// Months 1..=6 have 31 days, months 7..=11 have 30, and month 12 has 30 in a
/// leap year and 29 otherwise: the Solar Hijri leap day falls at the end of
/// the last month.
pub open spec fn month_days(jy: int, jm: int) -> int
    recommends
        1 <= jm <= 12,
{
    if jm <= 6 {
        31
    } else if jm <= 11 {
        30
    } else if leap_year(jy) {
        30
    } else {
        29
    }
}

/// Total days of the months of Jalali year `jy` strictly before month `jm`.
pub open spec fn months_before(jy: int, jm: int) -> int
    recommends
        1 <= jm <= 13,
    decreases jm,
{
    if jm <= 1 {
        0
    } else {
        months_before(jy, jm - 1) + month_days(jy, jm - 1)
    }
}

/// Whether `(jy, jm, jd)` denotes a day of the Jalali calendar.
pub open spec fn valid_jalali(jy: int, jm: int, jd: int) -> bool {
    1 <= jm <= 12 && 1 <= jd <= month_days(jy, jm)
}

/// Days from the first day of Jalali year 1348 to the first day of year `jy`;
/// negative when `jy` lies before 1348.
pub open spec fn days_from_anchor(jy: int) -> int
    decreases
            (if jy >= 1348 {
                jy - 1348
            } else {
                1348 - jy
            }),
{
    if jy == 1348 {
        0
    } else if jy > 1348 {
        days_from_anchor(jy - 1) + year_days(jy - 1)
    } else {
        days_from_anchor(jy + 1) - year_days(jy)
    }
}

/// The Julian Day Number of the Jalali date `(jy, jm, jd)`, through the
/// anchor: day 286 (0-indexed) of year 1348 is JDN 2,440,588.
pub open spec fn jalali_jdn(jy: int, jm: int, jd: int) -> int {
    UNIX_EPOCH_JDN - JALALI_YDAY_AT_UNIX_EPOCH + days_from_anchor(jy) + months_before(jy, jm) + jd
        - 1
}

/// Whether a Jalali year is a leap year.
pub fn is_leap(jy: i32) -> (r: bool)
    ensures
        r == leap_year(jy as int),
{
    if jy <= 5 {
        if jy <= 0 {
            return false;
        }
        return jy % 4 == 0;
    }
    let md = jy % LEAP_CYCLE;
    md == 1 || md == 5 || md == 9 || md == 13 || md == 17 || md == 22 || md == 26 || md == 30
}

/// Number of days of month `jm` of Jalali year `jy`, for a month in range.
pub(crate) fn month_len(jy: i32, jm: u8) -> (r: u8)
    requires
        1 <= jm <= 12,
    ensures
        r == month_days(jy as int, jm as int),
{
    if jm <= 6 {
        31
    } else if jm <= 11 {
        30
    } else if is_leap(jy) {
        30
    } else {
        29
    }
}

/// The months of a year sum to the year's length.
pub proof fn lemma_year_total(jy: int)
    ensures
        months_before(jy, 13) == year_days(jy),
{
    reveal_with_fuel(months_before, 13);
}

/// The running total of month lengths stays within a year's length.
pub proof fn lemma_months_before_bounds(jy: int, jm: int)
    requires
        1 <= jm <= 13,
    ensures
        29 * (jm - 1) <= months_before(jy, jm) <= 31 * (jm - 1),
    decreases jm,
{
    if jm > 1 {
        lemma_months_before_bounds(jy, jm - 1);
    }
}

/// Adding months can only lengthen the running total of month lengths.
pub proof fn lemma_months_before_mono(jy: int, a: int, b: int)
    requires
        1 <= a <= b <= 13,
    ensures
        months_before(jy, a) <= months_before(jy, b),
    decreases b - a,
{
    if a < b {
        lemma_months_before_mono(jy, a, b - 1);
    }
}

/// A valid day of a valid month lies within the year's length.
pub proof fn lemma_day_of_year_in_year(jy: int, jm: int, jd: int)
    requires
        valid_jalali(jy, jm, jd),
    ensures
        1 <= months_before(jy, jm) + jd <= year_days(jy),
{
    lemma_months_before_bounds(jy, jm);
    assert(months_before(jy, jm + 1) == months_before(jy, jm) + month_days(jy, jm));
    lemma_months_before_mono(jy, jm + 1, 13);
    lemma_year_total(jy);
}

/// Days from the anchor year grow by at least 365 and at most 366 per year.
pub proof fn lemma_anchor_bounds(jy: int)
    ensures
        jy >= 1348 ==> 365 * (jy - 1348) <= days_from_anchor(jy) <= 366 * (jy - 1348),
        jy <= 1348 ==> -366 * (1348 - jy) <= days_from_anchor(jy) <= -365 * (1348 - jy),
    decreases
            (if jy >= 1348 {
                jy - 1348
            } else {
                1348 - jy
            }),
{
    if jy > 1348 {
        lemma_anchor_bounds(jy - 1);
    } else if jy < 1348 {
        lemma_anchor_bounds(jy + 1);
    }
}

/// Any 33 consecutive Jalali years from the anchor on hold exactly eight
/// leap years, so they span exactly 12,053 days.
proof fn lemma_anchor_shift_cycle(jy: int)
    requires
        jy >= 1348,
    ensures
        days_from_anchor(jy + 33) == days_from_anchor(jy) + 12053,
    decreases jy - 1348,
{
    if jy == 1348 {
        reveal_with_fuel(days_from_anchor, 34);
        assert(days_from_anchor(1381) == 12053);
    } else {
        lemma_anchor_shift_cycle(jy - 1);
        lemma_leap_cycle(jy - 1);
        assert(days_from_anchor(jy + 33) == days_from_anchor(jy + 32) + year_days(jy + 32));
        assert(days_from_anchor(jy) == days_from_anchor(jy - 1) + year_days(jy - 1));
    }
}

/// Counting whole 33-year cycles gives a lower bound on the days from the
/// anchor that grows with the true mean year length, not only with 365.
proof fn lemma_anchor_dense_lower(jy: int)
    requires
        jy >= 1348,
    ensures
        days_from_anchor(jy) >= 12053 * ((jy - 1348) / 33) + 365 * ((jy - 1348) % 33),
    decreases jy - 1348,
{
    let n = jy - 1348;
    if n < 33 {
        vstd::arithmetic::div_mod::lemma_basic_div(n, 33);
        vstd::arithmetic::div_mod::lemma_small_mod(n as nat, 33nat);
        lemma_anchor_bounds(jy);
    } else {
        lemma_anchor_shift_cycle(jy - 33);
        lemma_anchor_dense_lower(jy - 33);
        let q = (n - 33) / 33;
        let r = (n - 33) % 33;
        lemma_fundamental_div_mod(n - 33, 33);
        lemma_mod_bound(n - 33, 33);
        assert(n == (q + 1) * 33 + r) by (nonlinear_arith)
            requires
                n - 33 == 33 * q + r,
        ;
        lemma_fundamental_div_mod_converse(n, 33, q + 1, r);
        assert(12053 * (q + 1) == 12053 * q + 12053) by (nonlinear_arith);
    }
}

/// A year whose days from the anchor are bounded is itself bounded: the
/// year-at-a-time walk cannot leave the `i32` range for any day count that a
/// Gregorian `i32` date can produce.
proof fn lemma_anchor_year_bound(jy: int, c: int)
    requires
        jy >= 1348,
        days_from_anchor(jy) <= c,
        c <= 784_351_579_698,
    ensures
        jy <= 2_147_483_508,
{
    lemma_anchor_dense_lower(jy);
    let n = jy - 1348;
    let k = n / 33;
    let j = n % 33;
    lemma_fundamental_div_mod(n, 33);
    lemma_mod_bound(n, 33);
    vstd::arithmetic::div_mod::lemma_div_pos_is_pos(n, 33);
    assert(12053 * k <= c);
    vstd::arithmetic::div_mod::lemma_div_multiples_vanish(k, 12053);
    vstd::arithmetic::div_mod::lemma_div_is_ordered(12053 * k, c, 12053);
    vstd::arithmetic::div_mod::lemma_div_is_ordered(c, 784_351_579_698, 12053);
    assert(k <= 65_075_216);
    assert(n == 33 * k + j);
}

/// The Jalali day after `(jy, jm, jd)`: the next day of the month, the first
/// day of the next month, or the first day of the next year.
pub open spec fn jalali_next_day(jy: int, jm: int, jd: int) -> (int, int, int) {
    if jd < month_days(jy, jm) {
        (jy, jm, jd + 1)
    } else if jm < 12 {
        (jy, jm + 1, 1)
    } else {
        (jy + 1, 1, 1)
    }
}

/// Advancing a valid Jalali date by one day raises its JDN by exactly one.
pub proof fn lemma_jalali_jdn_next_day(jy: int, jm: int, jd: int)
    requires
        valid_jalali(jy, jm, jd),
    ensures
        ({
            let (ny, nm, nd) = jalali_next_day(jy, jm, jd);
            valid_jalali(ny, nm, nd) && jalali_jdn(ny, nm, nd) == jalali_jdn(jy, jm, jd) + 1
        }),
{
    if jd < month_days(jy, jm) {
    } else if jm < 12 {
        assert(months_before(jy, jm + 1) == months_before(jy, jm) + month_days(jy, jm));
    } else {
        lemma_year_total(jy);
        assert(months_before(jy, 13) == months_before(jy, 12) + month_days(jy, 12));
        assert(days_from_anchor(jy + 1) == days_from_anchor(jy) + year_days(jy));
        assert(months_before(jy + 1, 1) == 0);
    }
}

/// The JDN of a valid Jalali date grows strictly with the calendar order.
pub proof fn lemma_jalali_jdn_monotonic(y1: int, m1: int, d1: int, y2: int, m2: int, d2: int)
    requires
        valid_jalali(y1, m1, d1),
        valid_jalali(y2, m2, d2),
        date_lt(y1, m1, d1, y2, m2, d2),
    ensures
        jalali_jdn(y1, m1, d1) < jalali_jdn(y2, m2, d2),
    decreases (y2 - y1) * 400 + (m2 - m1) * 32 + (d2 - d1),
{
    lemma_jalali_jdn_next_day(y1, m1, d1);
    let (ny, nm, nd) = jalali_next_day(y1, m1, d1);
    if ny == y2 && nm == m2 && nd == d2 {
    } else {
        lemma_jalali_jdn_monotonic(ny, nm, nd, y2, m2, d2);
    }
}

/// Two valid Jalali dates with the same JDN are the same date. Together with
/// the contracts of the two conversion directions, which fix the JDN of
/// their results, this is the round trip: converting a valid Jalali date to
/// Gregorian and back yields the original date.
pub proof fn lemma_jalali_jdn_injective(y1: int, m1: int, d1: int, y2: int, m2: int, d2: int)
    requires
        valid_jalali(y1, m1, d1),
        valid_jalali(y2, m2, d2),
        jalali_jdn(y1, m1, d1) == jalali_jdn(y2, m2, d2),
    ensures
        y1 == y2 && m1 == m2 && d1 == d2,
{
    if date_lt(y1, m1, d1, y2, m2, d2) {
        lemma_jalali_jdn_monotonic(y1, m1, d1, y2, m2, d2);
    } else if date_lt(y2, m2, d2, y1, m1, d1) {
        lemma_jalali_jdn_monotonic(y2, m2, d2, y1, m1, d1);
    }
}

/// The last month of a Jalali year has 30 days exactly in a leap year (and
/// 29 otherwise): leap status and the length of the final month agree.
pub proof fn lemma_leap_last_month(jy: int)
    ensures
        month_days(jy, 12) == 30 <==> leap_year(jy),
{
}

/// Beyond the special years 1 through 5, leap years recur with period 33.
pub proof fn lemma_leap_cycle(jy: int)
    requires
        jy >= 6,
    ensures
        leap_year(jy + 33) == leap_year(jy),
{
    vstd::arithmetic::div_mod::lemma_mod_multiples_vanish(1, jy, 33);
}

/// Number of days of month `jm` of Jalali year `jy`, or `InvalidArgument`
/// when the month lies outside 1..=12.
pub fn days_in_month(jy: i32, jm: u8) -> (r: Result<u8, CalendarError>)
    ensures
        1 <= jm <= 12 ==> r == Ok::<u8, CalendarError>(month_days(jy as int, jm as int) as u8),
        !(1 <= jm <= 12) ==> r == Err::<u8, CalendarError>(CalendarError::InvalidArgument),
{
    if jm == 0 || jm > 12 {
        Err(CalendarError::InvalidArgument)
    } else {
        Ok(month_len(jy, jm))
    }
}

/// 1-indexed day of the year of the Jalali date `(jy, jm, jd)`: the lengths
/// of the months before `jm`, plus `jd`.
pub fn jalali_day_of_year(jy: i32, jm: u8, jd: u8) -> (r: i32)
    requires
        1 <= jm <= 12,
    ensures
        r == months_before(jy as int, jm as int) + jd,
        valid_jalali(jy as int, jm as int, jd as int) ==> 1 <= r <= year_days(jy as int),
{
    let mut day_of_year: i32 = 0;
    let mut m: u8 = 1;
    while m < jm
        invariant
            1 <= m <= jm <= 12,
            day_of_year == months_before(jy as int, m as int),
            0 <= day_of_year <= 31 * (m - 1),
        decreases jm - m,
    {
        day_of_year = day_of_year + month_len(jy, m) as i32;
        m = m + 1;
    }
    proof {
        if valid_jalali(jy as int, jm as int, jd as int) {
            lemma_day_of_year_in_year(jy as int, jm as int, jd as int);
        }
    }
    day_of_year + jd as i32
}

/// The Julian Day Number of a Jalali date, reached by walking whole years
/// from the anchor year 1348 and then adding the day of the year.
pub fn jalali_to_jdn_internal(jy: i32, jm: u8, jd: u8) -> (r: i64)
    requires
        valid_jalali(jy as int, jm as int, jd as int),
    ensures
        r == jalali_jdn(jy as int, jm as int, jd as int),
{
    let yday0: i64 = jalali_day_of_year(jy, jm, jd) as i64 - 1;
    let mut anchor_days: i64 = 0;
    if jy >= JALALI_YEAR_AT_UNIX_EPOCH {
        let mut y: i32 = JALALI_YEAR_AT_UNIX_EPOCH;
        while y < jy
            invariant
                JALALI_YEAR_AT_UNIX_EPOCH <= y <= jy,
                anchor_days == days_from_anchor(y as int),
                365 * (y - 1348) <= anchor_days <= 366 * (y - 1348),
            decreases jy - y,
        {
            anchor_days = anchor_days + if is_leap(y) {
                366i64
            } else {
                365i64
            };
            y = y + 1;
        }
    } else {
        let mut y: i32 = JALALI_YEAR_AT_UNIX_EPOCH;
        while y > jy
            invariant
                jy <= y <= JALALI_YEAR_AT_UNIX_EPOCH,
                anchor_days == days_from_anchor(y as int),
                -366 * (1348 - y) <= anchor_days <= -365 * (1348 - y),
            decreases y - jy,
        {
            y = y - 1;
            anchor_days = anchor_days - if is_leap(y) {
                366i64
            } else {
                365i64
            };
        }
    }
    anchor_days + yday0 - JALALI_YDAY_AT_UNIX_EPOCH as i64 + UNIX_EPOCH_JDN
}

/// Splits a 0-indexed day of a Jalali year into a month and a day, walking
/// the months and subtracting each month's length until the rest fits.
pub fn jalali_yday_to_month_day_internal(year: i32, yday: i32) -> (r: (u8, u8))
    requires
        0 <= yday < year_days(year as int),
    ensures
        valid_jalali(year as int, r.0 as int, r.1 as int),
        months_before(year as int, r.0 as int) + r.1 - 1 == yday,
{
    let mut m: u8 = 1;
    let mut rem: i32 = yday + 1;
    let mut len: i32 = month_len(year, 1) as i32;
    while m < 12 && rem > len
        invariant
            1 <= m <= 12,
            rem == yday + 1 - months_before(year as int, m as int),
            len == month_days(year as int, m as int),
            1 <= rem,
            0 <= yday < year_days(year as int),
        decreases 12 - m,
    {
        rem = rem - len;
        m = m + 1;
        len = month_len(year, m) as i32;
    }
    proof {
        if rem > len {
            lemma_year_total(year as int);
            assert(months_before(year as int, 13) == months_before(year as int, 12) + month_days(
                year as int,
                12,
            ));
        }
    }
    (m, rem as u8)
}

/// The Jalali date of the day `days_offset` days after the Unix epoch day,
/// reached by walking whole years from the anchor until the rest falls
/// within one year.
pub fn days_offset_to_jalali_internal(days_offset: i64) -> (r: (i32, u8, u8))
    requires
        -1_000_000 <= days_offset <= 784_351_579_412,
    ensures
        valid_jalali(r.0 as int, r.1 as int, r.2 as int),
        jalali_jdn(r.0 as int, r.1 as int, r.2 as int) == days_offset + UNIX_EPOCH_JDN,
{
    let mut p: i64 = days_offset + JALALI_YDAY_AT_UNIX_EPOCH as i64;
    let mut year: i32 = JALALI_YEAR_AT_UNIX_EPOCH;
    if p >= 0 {
        let mut len: i64 = if is_leap(year) {
            366
        } else {
            365
        };
        while p >= len
            invariant
                1348 <= year,
                days_from_anchor(year as int) + p == days_offset + 286,
                0 <= p,
                len == year_days(year as int),
                days_offset <= 784_351_579_412,
            decreases p,
        {
            proof {
                lemma_anchor_year_bound(year as int, days_offset + 286);
            }
            p = p - len;
            year = year + 1;
            len = if is_leap(year) {
                366
            } else {
                365
            };
        }
    } else {
        while p < 0
            invariant
                year <= 1348,
                days_from_anchor(year as int) + p == days_offset + 286,
                p < 366,
                p < 0 || p < year_days(year as int),
                -1_000_000 <= days_offset,
            decreases 366 - p,
        {
            proof {
                lemma_anchor_bounds(year as int);
            }
            year = year - 1;
            p = p + if is_leap(year) {
                366i64
            } else {
                365i64
            };
        }
    }
    let (m, d) = jalali_yday_to_month_day_internal(year, p as i32);
    (year, m, d)
}

} // verus!
