//! Proleptic-Gregorian calendar arithmetic: civil dates and day counts
//! relative to 1970-01-01.

use vstd::prelude::*;

verus! {

/// Leap-year rule of the proleptic Gregorian calendar.
pub open spec fn is_leap_year(y: int) -> bool {
    y % 4 == 0 && (y % 100 != 0 || y % 400 == 0)
}

/// Number of days in month `m` (1-based) of year `y`.
pub open spec fn days_in_month(y: int, m: int) -> int {
    if m == 2 {
        if is_leap_year(y) { 29 } else { 28 }
    } else if m == 4 || m == 6 || m == 9 || m == 11 {
        30
    } else {
        31
    }
}

/// `(y, m, d)` names an existing day of the proleptic Gregorian calendar.
pub open spec fn is_valid_civil_date(y: int, m: int, d: int) -> bool {
    1 <= m <= 12 && 1 <= d <= days_in_month(y, m)
}

/// Number of leap years in `1..=y` (extended to all integers so that
/// `leap_years_through(y) - leap_years_through(y - 1)` is 1 exactly for leap years).
pub open spec fn leap_years_through(y: int) -> int {
    y / 4 - y / 100 + y / 400
}

/// Days of year `y` that precede the first of month `m`.
pub open spec fn days_before_month(y: int, m: int) -> int {
    let common: int = if m <= 1 {
        0
    } else if m == 2 {
        31
    } else if m == 3 {
        59
    } else if m == 4 {
        90
    } else if m == 5 {
        120
    } else if m == 6 {
        151
    } else if m == 7 {
        181
    } else if m == 8 {
        212
    } else if m == 9 {
        243
    } else if m == 10 {
        273
    } else if m == 11 {
        304
    } else {
        334
    };
    if m > 2 && is_leap_year(y) { common + 1 } else { common }
}

/// Signed number of days from 1970-01-01 to the civil date `(y, m, d)`.
pub open spec fn epoch_day_of(y: int, m: int, d: int) -> int {
    365 * (y - 1970) + (leap_years_through(y - 1) - leap_years_through(1969))
        + days_before_month(y, m) + d - 1
}

/// Hinnant's era-based closed form of the same day count (years starting in March).
closed spec fn era_days_from_civil(y: int, m: int, d: int) -> int {
    let yy = if m <= 2 { y - 1 } else { y };
    let era = yy / 400;
    let yoe = yy - era * 400;
    let mp = if m > 2 { m - 3 } else { m + 9 };
    let doy = (153 * mp + 2) / 5 + d - 1;
    let doe = yoe * 365 + yoe / 4 - yoe / 100 + doy;
    era * 146097 + doe - 719468
}

proof fn lemma_div_shift(era: int, yoe: int, k: int)
    requires
        0 <= yoe < 400,
        k == 4 || k == 100 || k == 400,
    ensures
        (400 * era + yoe) / k == (400int / k) * era + yoe / k,
{
    let q = (400int / k) * era + yoe / k;
    let r = yoe % k;
    assert(400 * era + yoe == q * k + r) by (nonlinear_arith)
        requires
            q == (400int / k) * era + yoe / k,
            r == yoe % k,
            k == 4 || k == 100 || k == 400,
            yoe == (yoe / k) * k + yoe % k,
    ;
    vstd::arithmetic::div_mod::lemma_fundamental_div_mod(yoe, k);
    vstd::arithmetic::div_mod::lemma_fundamental_div_mod_converse(400 * era + yoe, k, q, r);
}

/// Leap years through `yy`, split into whole 400-year eras and the year of era.
proof fn lemma_leap_years_by_era(yy: int)
    ensures
        leap_years_through(yy) == 97 * (yy / 400) + (yy % 400) / 4 - (yy % 400) / 100,
{
    let era = yy / 400;
    let yoe = yy % 400;
    vstd::arithmetic::div_mod::lemma_fundamental_div_mod(yy, 400);
    assert(yy == 400 * era + yoe) by (nonlinear_arith)
        requires
            yy == 400 * (yy / 400) + yy % 400,
            era == yy / 400,
            yoe == yy % 400,
    ;
    lemma_div_shift(era, yoe, 4);
    lemma_div_shift(era, yoe, 100);
    lemma_div_shift(era, yoe, 400);
}

/// One more leap year is counted exactly when `y` itself is a leap year.
proof fn lemma_leap_years_step(y: int)
    ensures
        leap_years_through(y) - leap_years_through(y - 1) == (if is_leap_year(y) { 1int } else { 0 }),
{
    lemma_leap_years_by_era(y);
    lemma_leap_years_by_era(y - 1);
    let era = y / 400;
    let yoe = y % 400;
    vstd::arithmetic::div_mod::lemma_fundamental_div_mod(y, 400);
    if yoe == 0 {
        assert((y - 1) / 400 == era - 1 && (y - 1) % 400 == 399) by {
            vstd::arithmetic::div_mod::lemma_fundamental_div_mod_converse(y - 1, 400, era - 1, 399);
        }
        assert(y % 4 == 0 && y % 100 == 0 && y % 400 == 0) by {
            vstd::arithmetic::div_mod::lemma_fundamental_div_mod_converse(y, 4, 100 * era, 0);
            vstd::arithmetic::div_mod::lemma_fundamental_div_mod_converse(y, 100, 4 * era, 0);
        }
    } else {
        assert((y - 1) / 400 == era && (y - 1) % 400 == yoe - 1) by {
            vstd::arithmetic::div_mod::lemma_fundamental_div_mod_converse(y - 1, 400, era, yoe - 1);
        }
        assert(y % 4 == yoe % 4 && y % 100 == yoe % 100) by {
            vstd::arithmetic::div_mod::lemma_fundamental_div_mod(yoe, 4);
            vstd::arithmetic::div_mod::lemma_fundamental_div_mod(yoe, 100);
            vstd::arithmetic::div_mod::lemma_fundamental_div_mod_converse(y, 4, 100 * era + yoe / 4, yoe % 4);
            vstd::arithmetic::div_mod::lemma_fundamental_div_mod_converse(y, 100, 4 * era + yoe / 100, yoe % 100);
        }
    }
}

proof fn lemma_era_days_matches(y: int, m: int, d: int)
    requires
        1 <= m <= 12,
    ensures
        era_days_from_civil(y, m, d) == epoch_day_of(y, m, d),
{
    let yy = if m <= 2 { y - 1 } else { y };
    lemma_leap_years_by_era(yy);
    lemma_leap_years_step(y);
    vstd::arithmetic::div_mod::lemma_fundamental_div_mod(yy, 400);
    let era = yy / 400;
    let yoe = yy - era * 400;
    assert(365 * yy == 146000 * era + 365 * yoe) by (nonlinear_arith)
        requires
            yoe == yy - era * 400,
    ;
    assert(leap_years_through(1969) == 477);
}


/// Within one 400-year era (day of era `doe`), Hinnant's year-of-era estimate
/// is exact: the remaining day of year is in range, and day 365 only occurs
/// in a year whose following February is a leap February.
proof fn lemma_year_of_era(doe: u32)
    requires
        doe <= 146096,
    ensures
        ({
            let yoe = (doe - doe / 1460 + doe / 36524 - doe / 146096) / 365;
            &&& yoe <= 399
            &&& 365 * yoe + yoe / 4 - yoe / 100 <= doe
            &&& doe - (365 * yoe + yoe / 4 - yoe / 100) <= 365
            &&& (doe - (365 * yoe + yoe / 4 - yoe / 100) == 365 ==> ((yoe + 1) % 4 == 0 && ((yoe
                + 1) % 100 != 0 || yoe == 399)))
        }),
{
    assert(doe <= 146096 ==> {
        let yoe = (doe - doe / 1460 + doe / 36524 - doe / 146096) / 365;
        &&& yoe <= 399
        &&& 365 * yoe + yoe / 4 - yoe / 100 <= doe
        &&& doe - (365 * yoe + yoe / 4 - yoe / 100) <= 365
        &&& (doe - (365 * yoe + yoe / 4 - yoe / 100) == 365 ==> ((yoe + 1) % 4 == 0 && ((yoe + 1)
            % 100 != 0 || yoe == 399)))
    }) by (bit_vector);
}


/// Floor division by a positive constant, written with Rust's truncating
/// division the way the exec code computes it.
pub proof fn lemma_floor_div_exec(x: int, k: int, q: int)
    requires
        k > 0,
        x >= 0 ==> q == x / k,
        x < 0 ==> q == -((k - 1 - x) / k),
    ensures
        q == x / k,
{
    if x < 0 {
        let t = k - 1 - x;
        vstd::arithmetic::div_mod::lemma_fundamental_div_mod(t, k);
        let a = t / k;
        let b = t % k;
        assert(x == q * k + (k - 1 - b)) by (nonlinear_arith)
            requires
                t == k - 1 - x,
                t == k * a + b,
                q == -a,
        ;
        vstd::arithmetic::div_mod::lemma_fundamental_div_mod_converse(x, k, q, k - 1 - b);
    }
}

/// A valid date of year `y` falls between the first day of `y` and the
/// first day of `y + 1`.
proof fn lemma_day_of_year_bounds(y: int, m: int, d: int)
    requires
        is_valid_civil_date(y, m, d),
    ensures
        epoch_day_of(y, 1, 1) <= epoch_day_of(y, m, d) < epoch_day_of(y + 1, 1, 1),
{
    lemma_leap_years_step(y);
}

/// The first day of a year never precedes the first day of an earlier year.
proof fn lemma_year_start_monotone(a: int, b: int)
    requires
        a <= b,
    ensures
        epoch_day_of(a, 1, 1) <= epoch_day_of(b, 1, 1),
    decreases b - a,
{
    if a < b {
        lemma_year_start_monotone(a, b - 1);
        lemma_leap_years_step(b - 1);
    }
}

/// Within one year, a valid date in an earlier month comes first.
proof fn lemma_month_order(y: int, m1: int, d1: int, m2: int, d2: int)
    requires
        is_valid_civil_date(y, m1, d1),
        is_valid_civil_date(y, m2, d2),
        m1 < m2,
    ensures
        days_before_month(y, m1) + d1 < days_before_month(y, m2) + d2,
{
}

/// Distinct valid civil dates have distinct day counts: a day count names
/// at most one date.
pub proof fn lemma_epoch_day_injective(y1: int, m1: int, d1: int, y2: int, m2: int, d2: int)
    requires
        is_valid_civil_date(y1, m1, d1),
        is_valid_civil_date(y2, m2, d2),
        epoch_day_of(y1, m1, d1) == epoch_day_of(y2, m2, d2),
    ensures
        y1 == y2 && m1 == m2 && d1 == d2,
{
    lemma_day_of_year_bounds(y1, m1, d1);
    lemma_day_of_year_bounds(y2, m2, d2);
    if y1 < y2 {
        lemma_year_start_monotone(y1 + 1, y2);
    } else if y2 < y1 {
        lemma_year_start_monotone(y2 + 1, y1);
    } else if m1 < m2 {
        lemma_month_order(y1, m1, d1, m2, d2);
    } else if m2 < m1 {
        lemma_month_order(y1, m2, d2, m1, d1);
    }
}

/// Convert a proleptic-Gregorian civil date into a day count since the
/// Unix epoch (1970-01-01 is day 0).
pub fn days_from_civil(y: i64, m: u32, d: u32) -> (days: i64)
    requires
        -1_000_000_000_000 <= y <= 1_000_000_000_000,
        1 <= m <= 12,
        1 <= d <= 31,
    ensures
        days == epoch_day_of(y as int, m as int, d as int),
{
    let y = if m <= 2 { y - 1 } else { y };
    let era = (if y >= 0 { y } else { y - 399 }) / 400;
    proof {
        lemma_floor_div_exec(y as int, 400, era as int);
    }
    let yoe = y - era * 400;
    proof {
        vstd::arithmetic::div_mod::lemma_fundamental_div_mod(y as int, 400);
    }
    let mp: i64 = if m > 2 { m as i64 - 3 } else { m as i64 + 9 };
    let doy = (153 * mp + 2) / 5 + d as i64 - 1;
    let doe = yoe * 365 + yoe / 4 - yoe / 100 + doy;
    proof {
        lemma_era_days_matches(if m <= 2 { y + 1 } else { y as int }, m as int, d as int);
    }
    era * 146_097 + doe - 719_468
}

/// Convert a day count since the Unix epoch into the civil date it names.
#[verifier::rlimit(80)]
#[verifier::spinoff_prover]
pub fn civil_from_days(z: i64) -> (ymd: (i64, u32, u32))
    requires
        -10_000_000_000_000 <= z <= 10_000_000_000_000,
    ensures
        is_valid_civil_date(ymd.0 as int, ymd.1 as int, ymd.2 as int),
        epoch_day_of(ymd.0 as int, ymd.1 as int, ymd.2 as int) == z,
{
    let z = z + 719_468;
    let era = (if z >= 0 { z } else { z - 146_096 }) / 146_097;
    proof {
        lemma_floor_div_exec(z as int, 146097, era as int);
        vstd::arithmetic::div_mod::lemma_fundamental_div_mod(z as int, 146097);
    }
    let doe = z - era * 146_097;
    proof {
        lemma_year_of_era(doe as u32);
    }
    let yoe = (doe - doe / 1460 + doe / 36_524 - doe / 146_096) / 365;
    let y = yoe + era * 400;
    let doy = doe - (365 * yoe + yoe / 4 - yoe / 100);
    let mp = (5 * doy + 2) / 153;
    let d = (doy - (153 * mp + 2) / 5 + 1) as u32;
    let m = (if mp < 10 { mp + 3 } else { mp - 9 }) as u32;
    let y = if m <= 2 { y + 1 } else { y };
    proof {
        let yy: int = if m <= 2 { y - 1 } else { y as int };
        assert(yy == 400 * era + yoe);
        assert(yy / 400 == era && yy % 400 == yoe) by {
            vstd::arithmetic::div_mod::lemma_fundamental_div_mod_converse(yy, 400, era as int, yoe as int);
        }
        if mp == 11 {
            assert(y == 400 * era + (yoe + 1));
            assert(y % 4 == (yoe + 1) % 4 && y % 100 == (yoe + 1) % 100 && y % 400 == (yoe + 1) % 400) by {
                let k = yoe + 1;
                vstd::arithmetic::div_mod::lemma_fundamental_div_mod(k as int, 4);
                vstd::arithmetic::div_mod::lemma_fundamental_div_mod(k as int, 100);
                vstd::arithmetic::div_mod::lemma_fundamental_div_mod(k as int, 400);
                vstd::arithmetic::div_mod::lemma_fundamental_div_mod_converse(y as int, 4, 100 * era + k / 4, k % 4);
                vstd::arithmetic::div_mod::lemma_fundamental_div_mod_converse(y as int, 100, 4 * era + k / 100, k % 100);
                vstd::arithmetic::div_mod::lemma_fundamental_div_mod_converse(y as int, 400, era + k / 400, k % 400);
            }
        }
        lemma_era_days_matches(y as int, m as int, d as int);
    }
    (y, m, d)
}


/// `days_in_month` as an executable function.
pub fn month_length(y: i64, m: u32) -> (n: u32)
    requires
        1 <= m <= 12,
    ensures
        n == days_in_month(y as int, m as int),
{
    if m == 2 {
        if y % 4 == 0 && (y % 100 != 0 || y % 400 == 0) {
            29
        } else {
            28
        }
    } else if m == 4 || m == 6 || m == 9 || m == 11 {
        30
    } else {
        31
    }
}

/// The civil date one day before the valid date `(y, m, d)`.
pub fn previous_day(y: i64, m: u32, d: u32) -> (ymd: (i64, u32, u32))
    requires
        is_valid_civil_date(y as int, m as int, d as int),
        y > i64::MIN,
    ensures
        is_valid_civil_date(ymd.0 as int, ymd.1 as int, ymd.2 as int),
        epoch_day_of(ymd.0 as int, ymd.1 as int, ymd.2 as int) == epoch_day_of(y as int, m as int, d as int) - 1,
        ymd.0 == y || (ymd.0 == y - 1 && m == 1 && d == 1),
{
    if d > 1 {
        (y, m, d - 1)
    } else if m > 1 {
        let n = month_length(y, m - 1);
        (y, m - 1, n)
    } else {
        proof {
            lemma_leap_years_step(y - 1);
            assert((y - 1) % 4 == (y as int - 1) % 4);
        }
        (y - 1, 12, 31)
    }
}

} // verus!
