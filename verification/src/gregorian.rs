//! The proleptic Gregorian side of the calendar engine: the leap rule, month
//! lengths, and the closed-form Julian Day Number of a Gregorian date.
//!
//! The closed form shifts the year so that March opens the computational
//! year, counts five-month blocks of 153 days, and applies the standard
//! `/4 - /100 + /400` leap correction. It is written with floor division, so
//! it holds for every proleptic Gregorian date, ancient years included.

use vstd::prelude::*;

use vstd::arithmetic::div_mod::lemma_fundamental_div_mod;
use vstd::arithmetic::div_mod::lemma_fundamental_div_mod_converse;
use vstd::arithmetic::div_mod::lemma_mod_bound;
use vstd::arithmetic::div_mod::lemma_mod_multiples_basic;
use vstd::arithmetic::div_mod::lemma_mod_multiples_vanish;

verus! {

/// Days from the conventional JDN epoch to December 31, 1 BCE, so that
/// `gregorian_jdn - GREGORIAN_CE_JDN_OFFSET` counts days with
/// January 1, 1 CE as day 1.
pub const GREGORIAN_CE_JDN_OFFSET: i64 = 1_721_425;

/// Whether a proleptic Gregorian year is a leap year: divisible by 4, and
/// not by 100 unless by 400.
pub open spec fn gregorian_leap(gy: int) -> bool {
    gy % 4 == 0 && (gy % 100 != 0 || gy % 400 == 0)
}

/// Number of days of month `gm` of proleptic Gregorian year `gy`.
pub open spec fn gregorian_month_days(gy: int, gm: int) -> int
    recommends
        1 <= gm <= 12,
{
    if gm == 2 {
        if gregorian_leap(gy) {
            29
        } else {
            28
        }
    } else if gm == 4 || gm == 6 || gm == 9 || gm == 11 {
        30
    } else {
        31
    }
}

/// Whether `(gy, gm, gd)` denotes a day of the proleptic Gregorian calendar.
pub open spec fn valid_gregorian(gy: int, gm: int, gd: int) -> bool {
    1 <= gm <= 12 && 1 <= gd <= gregorian_month_days(gy, gm)
}

/// The Julian Day Number of the proleptic Gregorian date `(gy, gm, gd)`.
pub open spec fn gregorian_jdn(gy: int, gm: int, gd: int) -> int {
    let a = (14 - gm) / 12;
    let y = gy + 4800 - a;
    let m = gm + 12 * a - 3;
    gd + (153 * m + 2) / 5 + 365 * y + y / 4 - y / 100 + y / 400 - 32045
}

/// Floor division of a negative dividend by a positive divisor equals the
/// negated ceiling division of the negated dividend.
proof fn lemma_floor_div_neg(a: int, b: int)
    requires
        a < 0,
        b >= 1,
    ensures
        -((-a + b - 1) / b) == a / b,
{
    let n = -a;
    let q = n / b;
    let r = n % b;
    lemma_fundamental_div_mod(n, b);
    lemma_mod_bound(n, b);
    if r == 0 {
        assert(n + b - 1 == q * b + (b - 1)) by (nonlinear_arith)
            requires
                n == b * q + r,
                r == 0,
        ;
        lemma_fundamental_div_mod_converse(n + b - 1, b, q, b - 1);
        assert(a == (-q) * b + 0) by (nonlinear_arith)
            requires
                n == b * q + r,
                r == 0,
                a == -n,
        ;
        lemma_fundamental_div_mod_converse(a, b, -q, 0);
    } else {
        assert(n + b - 1 == (q + 1) * b + (r - 1)) by (nonlinear_arith)
            requires
                n == b * q + r,
        ;
        lemma_fundamental_div_mod_converse(n + b - 1, b, q + 1, r - 1);
        assert(a == (-q - 1) * b + (b - r)) by (nonlinear_arith)
            requires
                n == b * q + r,
                a == -n,
        ;
        lemma_fundamental_div_mod_converse(a, b, -q - 1, b - r);
    }
}

/// Floor division by a small positive divisor, agreeing with `/` on `int`
/// for negative dividends as well.
fn floor_div(a: i64, b: i64) -> (r: i64)
    requires
        1 <= b <= 400,
        -5_000_000_000 <= a <= 5_000_000_000,
    ensures
        r == a as int / b as int,
{
    if a >= 0 {
        a / b
    } else {
        proof {
            lemma_floor_div_neg(a as int, b as int);
        }
        -((-a + b - 1) / b)
    }
}

/// Raising a dividend by one raises its floor quotient exactly when the new
/// dividend is a multiple of the divisor.
proof fn lemma_div_step(x: int, b: int)
    requires
        b >= 1,
    ensures
        (x + 1) / b == x / b + (if (x + 1) % b == 0 {
            1int
        } else {
            0int
        }),
{
    let q = x / b;
    let r = x % b;
    lemma_fundamental_div_mod(x, b);
    lemma_mod_bound(x, b);
    if r == b - 1 {
        assert(x + 1 == (q + 1) * b + 0) by (nonlinear_arith)
            requires
                x == b * q + r,
                r == b - 1,
        ;
        lemma_fundamental_div_mod_converse(x + 1, b, q + 1, 0);
    } else {
        assert(x + 1 == q * b + (r + 1)) by (nonlinear_arith)
            requires
                x == b * q + r,
        ;
        lemma_fundamental_div_mod_converse(x + 1, b, q, r + 1);
    }
}

/// A year divisible by 100 is divisible by 4, and one divisible by 400 is
/// divisible by 100 and by 4.
proof fn lemma_divisibility_chain(gy: int)
    ensures
        gy % 100 == 0 ==> gy % 4 == 0,
        gy % 400 == 0 ==> gy % 100 == 0 && gy % 4 == 0,
{
    if gy % 100 == 0 {
        let q = gy / 100;
        lemma_fundamental_div_mod(gy, 100);
        assert(gy == (25 * q) * 4) by (nonlinear_arith)
            requires
                gy == 100 * q,
        ;
        lemma_mod_multiples_basic(25 * q, 4);
    }
    if gy % 400 == 0 {
        let q = gy / 400;
        lemma_fundamental_div_mod(gy, 400);
        assert(gy == (4 * q) * 100 && gy == (100 * q) * 4) by (nonlinear_arith)
            requires
                gy == 400 * q,
        ;
        lemma_mod_multiples_basic(4 * q, 100);
        lemma_mod_multiples_basic(100 * q, 4);
    }
}

/// The Gregorian day after `(gy, gm, gd)`: the next day of the month, the
/// first day of the next month, or the first day of the next year.
pub open spec fn gregorian_next_day(gy: int, gm: int, gd: int) -> (int, int, int) {
    if gd < gregorian_month_days(gy, gm) {
        (gy, gm, gd + 1)
    } else if gm < 12 {
        (gy, gm + 1, 1)
    } else {
        (gy + 1, 1, 1)
    }
}

/// Advancing a valid Gregorian date by one day raises its JDN by exactly
/// one.
pub proof fn lemma_gregorian_jdn_next_day(gy: int, gm: int, gd: int)
    requires
        valid_gregorian(gy, gm, gd),
    ensures
        ({
            let (ny, nm, nd) = gregorian_next_day(gy, gm, gd);
            valid_gregorian(ny, nm, nd) && gregorian_jdn(ny, nm, nd) == gregorian_jdn(gy, gm, gd)
                + 1
        }),
{
    if gd < gregorian_month_days(gy, gm) {
    } else if gm == 2 {
        // Crossing March 1: the shifted year advances, and the change of the
        // three leap-correction quotients must match February's length.
        let y = gy + 4799;
        lemma_div_step(y, 4);
        lemma_div_step(y, 100);
        lemma_div_step(y, 400);
        lemma_mod_multiples_vanish(1200, gy, 4);
        lemma_mod_multiples_vanish(48, gy, 100);
        lemma_mod_multiples_vanish(12, gy, 400);
        lemma_divisibility_chain(gy);
    } else {
    }
}

/// The JDN of a valid Gregorian date grows strictly with the calendar
/// order.
pub proof fn lemma_gregorian_jdn_monotonic(y1: int, m1: int, d1: int, y2: int, m2: int, d2: int)
    requires
        valid_gregorian(y1, m1, d1),
        valid_gregorian(y2, m2, d2),
        crate::date_lt(y1, m1, d1, y2, m2, d2),
    ensures
        gregorian_jdn(y1, m1, d1) < gregorian_jdn(y2, m2, d2),
    decreases (y2 - y1) * 400 + (m2 - m1) * 32 + (d2 - d1),
{
    lemma_gregorian_jdn_next_day(y1, m1, d1);
    let (ny, nm, nd) = gregorian_next_day(y1, m1, d1);
    if ny == y2 && nm == m2 && nd == d2 {
    } else {
        lemma_gregorian_jdn_monotonic(ny, nm, nd, y2, m2, d2);
    }
}

/// Two valid Gregorian dates with the same JDN are the same date. Together
/// with the contracts of the two conversion directions, which fix the JDN
/// of their results, this is the round trip: converting a valid Gregorian
/// date to Jalali and back yields the original date.
pub proof fn lemma_gregorian_jdn_injective(y1: int, m1: int, d1: int, y2: int, m2: int, d2: int)
    requires
        valid_gregorian(y1, m1, d1),
        valid_gregorian(y2, m2, d2),
        gregorian_jdn(y1, m1, d1) == gregorian_jdn(y2, m2, d2),
    ensures
        y1 == y2 && m1 == m2 && d1 == d2,
{
    if crate::date_lt(y1, m1, d1, y2, m2, d2) {
        lemma_gregorian_jdn_monotonic(y1, m1, d1, y2, m2, d2);
    } else if crate::date_lt(y2, m2, d2, y1, m1, d1) {
        lemma_gregorian_jdn_monotonic(y2, m2, d2, y1, m1, d1);
    }
}

/// The Julian Day Number of a proleptic Gregorian date, by the closed form.
pub fn compute_jdn_internal(year: i32, month: u32, day: u32) -> (r: i64)
    requires
        1 <= month <= 12,
    ensures
        r == gregorian_jdn(year as int, month as int, day as int),
{
    let year_i64 = year as i64;
    let month_i64 = month as i64;
    let day_i64 = day as i64;

    let a = (14 - month_i64) / 12;
    let y = year_i64 + 4800 - a;
    let m = month_i64 + 12 * a - 3;

    assert(a == if month_i64 <= 2 {
        1i64
    } else {
        0i64
    });
    day_i64 + (153 * m + 2) / 5 + 365 * y + floor_div(y, 4) - floor_div(y, 100) + floor_div(y, 400)
        - 32045
}

} // verus!
