//! The public conversion API: each direction crosses the Julian Day Number
//! line, so each result is specified by the equation between the JDN of the
//! input date and the JDN of the output date.
//!
//! The JDN-to-Gregorian step and the weekday lookup are delegated to chrono's
//! proleptic Gregorian calendar; everything around those two calls is proved.

use vstd::prelude::*;

use chrono::Datelike;

use crate::CalendarError;
use crate::gregorian::GREGORIAN_CE_JDN_OFFSET;
use crate::gregorian::compute_jdn_internal;
use crate::gregorian::gregorian_jdn;
use crate::gregorian::gregorian_month_days;
use crate::gregorian::valid_gregorian;
use crate::jalali::UNIX_EPOCH_JDN;
use crate::jalali::days_offset_to_jalali_internal;
use crate::jalali::jalali_jdn;
use crate::jalali::jalali_to_jdn_internal;
use crate::jalali::lemma_anchor_bounds;
use crate::jalali::lemma_months_before_bounds;
use crate::jalali::month_len;
use crate::jalali::valid_jalali;
use vstd::arithmetic::div_mod::lemma_add_mod_noop;
use vstd::arithmetic::div_mod::lemma_fundamental_div_mod;
use vstd::arithmetic::div_mod::lemma_fundamental_div_mod_converse;
use vstd::arithmetic::div_mod::lemma_div_is_ordered;
use vstd::arithmetic::div_mod::lemma_div_is_ordered_by_denominator;
use vstd::arithmetic::div_mod::lemma_div_pos_is_pos;
use vstd::arithmetic::div_mod::lemma_mod_bound;

verus! {

/// Earliest Gregorian year that can be converted to Jalali.
pub const MIN_GREGORIAN_YEAR_FOR_JALALI: i32 = 622;

/// Month of the earliest convertible Gregorian date.
pub const MIN_GREGORIAN_MONTH_FOR_JALALI: u32 = 3;

/// Day of the earliest convertible Gregorian date.
pub const MIN_GREGORIAN_DAY_FOR_JALALI: u32 = 22;

/// Whether a Gregorian date precedes 622-03-22, the fixed minimum supported
/// date (the approximate epoch start of the Solar Hijri calendar).
pub open spec fn before_jalali_epoch(gy: int, gm: int, gd: int) -> bool {
    gy < 622 || (gy == 622 && (gm < 3 || (gm == 3 && gd < 22)))
}

/// Dividing a sum cannot beat dividing its parts by more than one.
proof fn lemma_div_sum_upper(a: int, b: int, c: int)
    requires
        a >= 0,
        b >= 0,
        c >= 1,
    ensures
        (a + b) / c <= a / c + b / c + 1,
{
    let qa = a / c;
    let ra = a % c;
    let qb = b / c;
    let rb = b % c;
    lemma_fundamental_div_mod(a, c);
    lemma_fundamental_div_mod(b, c);
    lemma_mod_bound(a, c);
    lemma_mod_bound(b, c);
    if ra + rb < c {
        assert(a + b == (qa + qb) * c + (ra + rb)) by (nonlinear_arith)
            requires
                a == c * qa + ra,
                b == c * qb + rb,
        ;
        lemma_fundamental_div_mod_converse(a + b, c, qa + qb, ra + rb);
    } else {
        assert(a + b == (qa + qb + 1) * c + (ra + rb - c)) by (nonlinear_arith)
            requires
                a == c * qa + ra,
                b == c * qb + rb,
        ;
        lemma_fundamental_div_mod_converse(a + b, c, qa + qb + 1, ra + rb - c);
    }
}

/// The closed-form JDN of a supported Gregorian date stays within the range
/// that the year-walk back to Jalali accepts, for every `i32` year from 622
/// on.
proof fn lemma_gregorian_jdn_range(gy: int, gm: int, gd: int)
    requires
        622 <= gy <= 2_147_483_647,
        1 <= gm <= 12,
        1 <= gd <= 31,
    ensures
        1_900_000 <= gregorian_jdn(gy, gm, gd) <= 784_354_020_000,
{
    let a = (14 - gm) / 12;
    assert(a == if gm <= 2 {
        1int
    } else {
        0int
    });
    let y = gy + 4800 - a;
    let m = gm + 12 * a - 3;
    assert(0 <= m <= 11);
    lemma_div_pos_is_pos(153 * m + 2, 5);
    lemma_div_is_ordered(153 * m + 2, 1685, 5);
    let top = 2_147_488_447int;
    assert(5421 <= y <= top);
    assert(top / 4 == 536_872_111);
    assert(top / 100 == 21_474_884);
    assert(top / 400 == 5_368_721);
    // Lower bound: the two positive correction quotients outweigh the
    // subtracted one.
    lemma_div_is_ordered(5421, y, 400);
    lemma_div_is_ordered_by_denominator(y, 4, 100);
    // Upper bound: the whole year term grows with the year, since each step
    // adds 365 days and at most three quotient increments.
    let d = top - y;
    lemma_div_is_ordered(y, top, 4);
    lemma_div_is_ordered(y, top, 400);
    lemma_div_sum_upper(y, d, 100);
    vstd::arithmetic::div_mod::lemma_div_nonincreasing(d, 100);
}

/// The JDN of a Jalali date within the supported span of years stays within
/// the range promised to succeed by the Gregorian conversion.
proof fn lemma_jalali_jdn_range(jy: int, jm: int, jd: int)
    requires
        -250_000 <= jy <= 250_000,
        valid_jalali(jy, jm, jd),
    ensures
        -95_000_000 <= jalali_jdn(jy, jm, jd) - GREGORIAN_CE_JDN_OFFSET <= 95_000_000,
{
    lemma_anchor_bounds(jy);
    lemma_months_before_bounds(jy, jm);
}

/// The epoch anchor: 11 Dey 1348 and January 1, 1970 name the same day, the
/// Unix epoch day, whose JDN is 2,440,588. The two JDN mappings agree there.
pub proof fn lemma_epoch_anchor()
    ensures
        jalali_jdn(1348, 10, 11) == UNIX_EPOCH_JDN as int,
        gregorian_jdn(1970, 1, 1) == UNIX_EPOCH_JDN as int,
{
    reveal_with_fuel(crate::jalali::months_before, 11);
}

/// Round trip from Jalali: `jalali_to_gregorian` yields a Gregorian date
/// with the JDN of its input, and `gregorian_to_jalali` yields a Jalali date
/// with the JDN of that Gregorian date; any valid Jalali date related to the
/// original through those two equations is the original date.
pub proof fn lemma_jalali_round_trip(
    jy: int,
    jm: int,
    jd: int,
    gy: int,
    gm: int,
    gd: int,
    ry: int,
    rm: int,
    rd: int,
)
    requires
        valid_jalali(jy, jm, jd),
        valid_gregorian(gy, gm, gd),
        gregorian_jdn(gy, gm, gd) == jalali_jdn(jy, jm, jd),
        valid_jalali(ry, rm, rd),
        jalali_jdn(ry, rm, rd) == gregorian_jdn(gy, gm, gd),
    ensures
        ry == jy && rm == jm && rd == jd,
{
    crate::jalali::lemma_jalali_jdn_injective(ry, rm, rd, jy, jm, jd);
}

/// Round trip from Gregorian: `gregorian_to_jalali` yields a Jalali date
/// with the JDN of its input, and `jalali_to_gregorian` yields a Gregorian
/// date with the JDN of that Jalali date; any valid Gregorian date related
/// to the original through those two equations is the original date.
pub proof fn lemma_gregorian_round_trip(
    gy: int,
    gm: int,
    gd: int,
    jy: int,
    jm: int,
    jd: int,
    ry: int,
    rm: int,
    rd: int,
)
    requires
        valid_gregorian(gy, gm, gd),
        valid_jalali(jy, jm, jd),
        jalali_jdn(jy, jm, jd) == gregorian_jdn(gy, gm, gd),
        valid_gregorian(ry, rm, rd),
        gregorian_jdn(ry, rm, rd) == jalali_jdn(jy, jm, jd),
    ensures
        ry == gy && rm == gm && rd == gd,
{
    crate::gregorian::lemma_gregorian_jdn_injective(ry, rm, rd, gy, gm, gd);
}

/// Relies on chrono::NaiveDate::from_num_days_from_ce_opt, with the
/// Datelike accessors year, month and day: the proleptic Gregorian date
/// counted with January 1 of year 1 CE as day 1, or None when the day lies
/// outside the years -262143..=262142 that chrono represents.
#[verifier::external_body]
fn gregorian_from_days_ce(days: i64) -> (r: Option<(i32, u32, u32)>)
    ensures
        r matches Some((gy, gm, gd)) ==> valid_gregorian(gy as int, gm as int, gd as int)
            && gregorian_jdn(gy as int, gm as int, gd as int) == days + GREGORIAN_CE_JDN_OFFSET
            && -262_143 <= gy <= 262_142,
        -95_000_000 <= days <= 95_000_000 ==> r is Some,
{
    let days_i32: i32 = match i32::try_from(days) {
        Ok(v) => v,
        Err(_) => return None,
    };
    match chrono::NaiveDate::from_num_days_from_ce_opt(days_i32) {
        Some(date) => Some((date.year(), date.month(), date.day())),
        None => None,
    }
}

/// Relies on chrono::NaiveDate::from_ymd_opt and Datelike::weekday with
/// Weekday::num_days_from_sunday: the weekday of a proleptic Gregorian date,
/// numbered with Sunday as 0, or None when chrono does not represent the
/// date.
#[verifier::external_body]
fn gregorian_weekday_from_sunday(gy: i32, gm: u32, gd: u32) -> (r: Option<u32>)
    ensures
        r matches Some(w) ==> w == (gregorian_jdn(gy as int, gm as int, gd as int) + 1) % 7,
        valid_gregorian(gy as int, gm as int, gd as int) && -262_143 <= gy <= 262_142 ==> r
            is Some,
{
    match chrono::NaiveDate::from_ymd_opt(gy, gm, gd) {
        Some(date) => Some(date.weekday().num_days_from_sunday()),
        None => None,
    }
}

/// Number of days of month `gm` of Gregorian year `gy`, for a month in
/// range.
fn gregorian_month_len(gy: i32, gm: u32) -> (r: u8)
    requires
        0 <= gy,
        1 <= gm <= 12,
    ensures
        r == gregorian_month_days(gy as int, gm as int),
{
    if gm == 2 {
        if gy % 4 == 0 && (gy % 100 != 0 || gy % 400 == 0) {
            29
        } else {
            28
        }
    } else if gm == 4 || gm == 6 || gm == 9 || gm == 11 {
        30
    } else {
        31
    }
}

/// Converts a Jalali date to the Gregorian date of the same day.
///
/// Rejects an invalid Jalali date with `InvalidDate`. On success the result
/// is the valid Gregorian date whose JDN equals the JDN of the input, and
/// success is guaranteed for every valid date within the span of years that
/// chrono represents, -250,000 to 250,000.
pub fn jalali_to_gregorian(jy: i32, jm: u8, jd: u8) -> (r: Result<(i32, u32, u32), CalendarError>)
    ensures
        !valid_jalali(jy as int, jm as int, jd as int) ==> r == Err::<
            (i32, u32, u32),
            CalendarError,
        >(CalendarError::InvalidDate),
        r matches Ok((gy, gm, gd)) ==> valid_jalali(jy as int, jm as int, jd as int)
            && valid_gregorian(gy as int, gm as int, gd as int)
            && gregorian_jdn(gy as int, gm as int, gd as int) == jalali_jdn(
            jy as int,
            jm as int,
            jd as int,
        ) && -262_143 <= gy <= 262_142,
        r is Err ==> r == Err::<(i32, u32, u32), CalendarError>(CalendarError::InvalidDate),
        valid_jalali(jy as int, jm as int, jd as int) && -250_000 <= jy <= 250_000 ==> r is Ok,
{
    if jm == 0 || jm > 12 || jd == 0 {
        return Err(CalendarError::InvalidDate);
    }
    if jd > month_len(jy, jm) {
        return Err(CalendarError::InvalidDate);
    }
    let jdn = jalali_to_jdn_internal(jy, jm, jd);
    proof {
        lemma_anchor_bounds(jy as int);
        lemma_months_before_bounds(jy as int, jm as int);
        if -250_000 <= jy <= 250_000 {
            lemma_jalali_jdn_range(jy as int, jm as int, jd as int);
        }
    }
    let days_ce = jdn - GREGORIAN_CE_JDN_OFFSET;
    match gregorian_from_days_ce(days_ce) {
        Some((gy, gm, gd)) => Ok((gy, gm, gd)),
        None => Err(CalendarError::InvalidDate),
    }
}

/// Converts a Gregorian date to the Jalali date of the same day.
///
/// Rejects with `InvalidDate` exactly when the date is not a valid Gregorian
/// date or precedes the minimum supported date 622-03-22. On success the
/// result is the valid Jalali date whose JDN equals the JDN of the input.
pub fn gregorian_to_jalali(gy: i32, gm: u32, gd: u32) -> (r: Result<(i32, u8, u8), CalendarError>)
    ensures
        r is Err <==> before_jalali_epoch(gy as int, gm as int, gd as int) || !valid_gregorian(
            gy as int,
            gm as int,
            gd as int,
        ),
        r is Err ==> r == Err::<(i32, u8, u8), CalendarError>(CalendarError::InvalidDate),
        r matches Ok((jy, jm, jd)) ==> valid_jalali(jy as int, jm as int, jd as int)
            && jalali_jdn(jy as int, jm as int, jd as int) == gregorian_jdn(
            gy as int,
            gm as int,
            gd as int,
        ),
{
    if gy < MIN_GREGORIAN_YEAR_FOR_JALALI || (gy == MIN_GREGORIAN_YEAR_FOR_JALALI && (gm
        < MIN_GREGORIAN_MONTH_FOR_JALALI || (gm == MIN_GREGORIAN_MONTH_FOR_JALALI && gd
        < MIN_GREGORIAN_DAY_FOR_JALALI))) {
        return Err(CalendarError::InvalidDate);
    }
    if gm < 1 || gm > 12 {
        return Err(CalendarError::InvalidDate);
    }
    if gd < 1 || gd > gregorian_month_len(gy, gm) as u32 {
        return Err(CalendarError::InvalidDate);
    }
    let jdn = compute_jdn_internal(gy, gm, gd);
    proof {
        lemma_gregorian_jdn_range(gy as int, gm as int, gd as int);
    }
    let days_offset = jdn - UNIX_EPOCH_JDN;
    let (jy, jm, jd) = days_offset_to_jalali_internal(days_offset);
    Ok((jy, jm, jd))
}

/// Weekday column of the first day of a Jalali month, numbered with
/// Saturday as 0 and Friday as 6 (the Jalali week convention).
///
/// The weekday of a day with Julian Day Number `n` is `(n + 2) % 7` in this
/// numbering. Returns None when the month is out of range or the underlying
/// Gregorian conversion is.
pub fn first_weekday(jy: i32, jm: u8) -> (r: Option<u8>)
    ensures
        r matches Some(w) ==> 1 <= jm <= 12 && w == (jalali_jdn(jy as int, jm as int, 1) + 2) % 7,
        1 <= jm <= 12 && -250_000 <= jy <= 250_000 ==> r is Some,
{
    match jalali_to_gregorian(jy, jm, 1) {
        Ok((gy, gm, gd)) => {
            match gregorian_weekday_from_sunday(gy, gm, gd) {
                Some(sun_based) => {
                    proof {
                        let jdn = jalali_jdn(jy as int, jm as int, 1);
                        lemma_mod_bound(jdn + 1, 7);
                        lemma_add_mod_noop(jdn + 1, 1, 7);
                        lemma_mod_bound(jdn + 2, 7);
                    }
                    Some(((sun_based + 1) % 7) as u8)
                },
                None => None,
            }
        },
        Err(_) => None,
    }
}

} // verus!
