use jcal_lib::CalendarError;
use jcal_lib::compute_jdn_internal;
use jcal_lib::days_in_month;
use jcal_lib::days_offset_to_jalali_internal;
use jcal_lib::gregorian_to_jalali;
use jcal_lib::is_leap;
use jcal_lib::jalali_day_of_year;
use jcal_lib::jalali_to_gregorian;
use jcal_lib::jalali_to_jdn_internal;
use jcal_lib::jalali_yday_to_month_day_internal;
use jcal_lib::to_persian_numerals;

#[test]
fn test_leap_matches_last_month_length() {
    for year in [1395, 1398, 1399, 1400, 1403, 4, 5, 0, -20] {
        let long_esfand = days_in_month(year, 12) == Ok(30);
        assert_eq!(long_esfand, is_leap(year), "year {}", year);
    }
}

#[test]
fn test_leap_cycle_period() {
    // Beyond year 5 the leap pattern repeats every 33 years.
    for year in 6..200 {
        assert_eq!(is_leap(year), is_leap(year + 33), "year {}", year);
    }
    // The early-years special case: 1..=5 leap iff divisible by 4.
    assert!(is_leap(4));
    for year in [1, 2, 3, 5] {
        assert!(!is_leap(year), "year {}", year);
    }
    assert!(!is_leap(0));
    assert!(!is_leap(-8));
}

#[test]
fn test_jdn_known_values() {
    // JDN of the Unix epoch day and of J2000.
    assert_eq!(compute_jdn_internal(1970, 1, 1), 2_440_588);
    assert_eq!(compute_jdn_internal(2000, 1, 1), 2_451_545);
    // The Jalali anchor: 11 Dey 1348 is the Unix epoch day.
    assert_eq!(jalali_to_jdn_internal(1348, 10, 11), 2_440_588);
}

#[test]
fn test_jdn_monotonic_over_boundaries() {
    // Jalali: consecutive days differ by one across day, month and year ends.
    let pairs = [
        ((1399, 1, 1), (1399, 1, 2)),
        ((1399, 6, 31), (1399, 7, 1)),
        ((1399, 12, 30), (1400, 1, 1)),
        ((1400, 12, 29), (1401, 1, 1)),
    ];
    for ((y1, m1, d1), (y2, m2, d2)) in pairs {
        assert_eq!(
            jalali_to_jdn_internal(y1, m1, d1) + 1,
            jalali_to_jdn_internal(y2, m2, d2),
            "{}-{}-{}",
            y1,
            m1,
            d1
        );
    }
    // Gregorian: the same across a leap day, a century non-leap day, and a
    // year end.
    let gpairs = [
        ((2020, 2, 28), (2020, 2, 29)),
        ((2020, 2, 29), (2020, 3, 1)),
        ((1900, 2, 28), (1900, 3, 1)),
        ((2023, 12, 31), (2024, 1, 1)),
    ];
    for ((y1, m1, d1), (y2, m2, d2)) in gpairs {
        assert_eq!(
            compute_jdn_internal(y1, m1, d1) + 1,
            compute_jdn_internal(y2, m2, d2),
            "{}-{}-{}",
            y1,
            m1,
            d1
        );
    }
}

#[test]
fn test_epoch_anchor() {
    assert_eq!(gregorian_to_jalali(1970, 1, 1), Ok((1348, 10, 11)));
    assert_eq!(gregorian_to_jalali(1969, 12, 31), Ok((1348, 10, 10)));
    assert_eq!(gregorian_to_jalali(1970, 1, 2), Ok((1348, 10, 12)));
}

#[test]
fn test_error_cases() {
    // Before the minimum supported Gregorian date, 622-03-22.
    assert_eq!(gregorian_to_jalali(600, 1, 1), Err(CalendarError::InvalidDate));
    assert_eq!(gregorian_to_jalali(622, 3, 21), Err(CalendarError::InvalidDate));
    assert!(gregorian_to_jalali(622, 3, 22).is_ok());
    // Not a Gregorian calendar date.
    assert_eq!(gregorian_to_jalali(2023, 2, 29), Err(CalendarError::InvalidDate));
    assert_eq!(gregorian_to_jalali(2023, 13, 1), Err(CalendarError::InvalidDate));
    assert_eq!(gregorian_to_jalali(2023, 1, 0), Err(CalendarError::InvalidDate));
    // Not a Jalali calendar date.
    assert_eq!(jalali_to_gregorian(1400, 12, 30), Err(CalendarError::InvalidDate));
    assert_eq!(jalali_to_gregorian(1402, 7, 31), Err(CalendarError::InvalidDate));
    assert_eq!(jalali_to_gregorian(1402, 13, 1), Err(CalendarError::InvalidDate));
    assert_eq!(jalali_to_gregorian(1402, 1, 0), Err(CalendarError::InvalidDate));
}

#[test]
fn test_day_of_year_values() {
    assert_eq!(jalali_day_of_year(1399, 1, 1), 1);
    assert_eq!(jalali_day_of_year(1399, 7, 1), 187);
    assert_eq!(jalali_day_of_year(1399, 12, 30), 366);
    assert_eq!(jalali_day_of_year(1400, 12, 29), 365);
}

#[test]
fn test_yday_split_and_offset_walk() {
    assert_eq!(jalali_yday_to_month_day_internal(1399, 0), (1, 1));
    assert_eq!(jalali_yday_to_month_day_internal(1399, 186), (7, 1));
    assert_eq!(jalali_yday_to_month_day_internal(1399, 365), (12, 30));
    assert_eq!(days_offset_to_jalali_internal(0), (1348, 10, 11));
    assert_eq!(days_offset_to_jalali_internal(-1), (1348, 10, 10));
    assert_eq!(days_offset_to_jalali_internal(78), (1348, 12, 29));
    assert_eq!(days_offset_to_jalali_internal(79), (1349, 1, 1));
}

#[test]
fn test_wide_year_range() {
    // Round trip far outside everyday years.
    let j = gregorian_to_jalali(100_000, 6, 15).unwrap();
    assert_eq!(jalali_to_gregorian(j.0, j.1, j.2), Ok((100_000, 6, 15)));
    // Jalali years before the epoch still convert forward.
    assert!(jalali_to_gregorian(-5000, 1, 1).is_ok());
    assert!(jcal_lib::first_weekday(-5000, 1).is_some());
}

#[test]
fn test_persian_numerals() {
    assert_eq!(to_persian_numerals("1399/01/02"), "۱۳۹۹/۰۱/۰۲");
    assert_eq!(to_persian_numerals("0123456789"), "۰۱۲۳۴۵۶۷۸۹");
    assert_eq!(to_persian_numerals("no digits!"), "no digits!");
    assert_eq!(to_persian_numerals(""), "");
}
