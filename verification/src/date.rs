//! A proleptic Gregorian calendar date, its day number (days since the Unix
//! epoch, 1970-01-01), and the arithmetic facts the counting algorithm needs:
//! how the day number changes from one date to the next, and that distinct
//! valid dates have distinct day numbers.

use vstd::arithmetic::div_mod::{
    lemma_fundamental_div_mod, lemma_fundamental_div_mod_converse_div,
    lemma_fundamental_div_mod_converse_mod, lemma_mod_division_less_than_divisor,
    lemma_mod_multiples_vanish,
};
use vstd::prelude::*;

verus! {

/// Earliest year a `Date` may hold (the earliest year `chrono` represents).
pub const MIN_YEAR: i32 = -262143;

/// Latest year a `Date` may hold (the latest year `chrono` represents).
pub const MAX_YEAR: i32 = 262142;

/// Day number of MIN_YEAR-01-01.
pub const MIN_EPOCH_DAY: i64 = -96465292;

/// Day number of MAX_YEAR-12-31.
pub const MAX_EPOCH_DAY: i64 = 95026236;

/// First second of MIN_YEAR-01-01, as a Unix timestamp.
pub const MIN_TIMESTAMP: i64 = -8334601228800;

/// Last second of MAX_YEAR-12-31, as a Unix timestamp.
pub const MAX_TIMESTAMP: i64 = 8210266876799;

/// A proleptic Gregorian calendar date.
#[derive(Clone, Copy, PartialEq, Eq, Structural, Debug)]
pub struct Date {
    pub year: i32,
    pub month: u8,
    pub day: u8,
}

/// The Gregorian leap-year rule.
pub open spec fn is_leap_year(y: int) -> bool {
    y % 4 == 0 && (y % 100 != 0 || y % 400 == 0)
}

/// Number of days in month `m` of year `y`.
pub open spec fn days_in_month(y: int, m: int) -> int {
    if m == 2 {
        if is_leap_year(y) {
            29
        } else {
            28
        }
    } else if m == 4 || m == 6 || m == 9 || m == 11 {
        30
    } else {
        31
    }
}

/// Whether (y, m, d) names a Gregorian date: the month exists and the day
/// fits in it. The year is unconstrained.
pub open spec fn ymd_valid(y: int, m: int, d: int) -> bool {
    1 <= m <= 12 && 1 <= d <= days_in_month(y, m)
}

/// Days from March 1 to the first day of month `m`, counting within the
/// March-to-February year in which `m` falls.
pub open spec fn month_offset(m: int) -> int {
    if m == 1 {
        306
    } else if m == 2 {
        337
    } else if m == 3 {
        0
    } else if m == 4 {
        31
    } else if m == 5 {
        61
    } else if m == 6 {
        92
    } else if m == 7 {
        122
    } else if m == 8 {
        153
    } else if m == 9 {
        184
    } else if m == 10 {
        214
    } else if m == 11 {
        245
    } else {
        275
    }
}

/// The March-to-February year that month `m` of year `y` falls in:
/// January and February count to the previous year.
pub open spec fn march_year(y: int, m: int) -> int {
    if m <= 2 {
        y - 1
    } else {
        y
    }
}

/// Days from March 1 of year 0 to March 1 of year `t` (in the March-based
/// reckoning): 365 per year, plus the accumulated leap days of a 400-year
/// Gregorian cycle.
pub open spec fn march_days(t: int) -> int {
    146097 * (t / 400) + 365 * (t % 400) + (t % 400) / 4 - (t % 400) / 100
}

/// Days since 1970-01-01 of the Gregorian date (y, m, d); negative for
/// earlier dates. 719468 is the distance from March 1 of year 0 to the epoch.
pub open spec fn day_number(y: int, m: int, d: int) -> int {
    march_days(march_year(y, m)) + month_offset(m) + (d - 1) - 719468
}

/// Weekday code of day number `n`: 0 = Sunday ... 6 = Saturday.
/// Day 0, 1970-01-01, was a Thursday (code 4).
pub open spec fn weekday_of_day(n: int) -> int {
    (n + 4) % 7
}

impl Date {
    /// A date the library works on: a real Gregorian date in the
    /// representable year range.
    pub open spec fn wf(self) -> bool {
        MIN_YEAR <= self.year <= MAX_YEAR && ymd_valid(
            self.year as int,
            self.month as int,
            self.day as int,
        )
    }

    /// Days since 1970-01-01.
    pub open spec fn epoch_day(self) -> int {
        day_number(self.year as int, self.month as int, self.day as int)
    }
}

/// Whether `y` is a leap year.
pub fn is_leap_year_of(y: i32) -> (r: bool)
    ensures
        r == is_leap_year(y as int),
{
    let m4: i32 = y.checked_rem_euclid(4).unwrap();
    let m100: i32 = y.checked_rem_euclid(100).unwrap();
    let m400: i32 = y.checked_rem_euclid(400).unwrap();
    m4 == 0 && (m100 != 0 || m400 == 0)
}

/// Number of days in month `m` of year `y`.
pub fn days_in_month_of(y: i32, m: u8) -> (r: u8)
    ensures
        r as int == days_in_month(y as int, m as int),
{
    if m == 2 {
        if is_leap_year_of(y) {
            29
        } else {
            28
        }
    } else if m == 4 || m == 6 || m == 9 || m == 11 {
        30
    } else {
        31
    }
}

/// Days from March 1 to the first day of month `m` within its March-based
/// year.
fn month_offset_of(m: u8) -> (r: i64)
    requires
        1 <= m <= 12,
    ensures
        r as int == month_offset(m as int),
{
    if m == 1 {
        306
    } else if m == 2 {
        337
    } else if m == 3 {
        0
    } else if m == 4 {
        31
    } else if m == 5 {
        61
    } else if m == 6 {
        92
    } else if m == 7 {
        122
    } else if m == 8 {
        153
    } else if m == 9 {
        184
    } else if m == 10 {
        214
    } else if m == 11 {
        245
    } else {
        275
    }
}

/// Days since 1970-01-01 of the date `d`.
pub fn epoch_day_of(d: &Date) -> (n: i64)
    requires
        d.wf(),
    ensures
        n as int == d.epoch_day(),
{
    let t: i64 = if d.month <= 2 {
        d.year as i64 - 1
    } else {
        d.year as i64
    };
    let era: i64 = t.checked_div_euclid(400).unwrap();
    let yoe: i64 = t.checked_rem_euclid(400).unwrap();
    proof {
        lemma_mod_division_less_than_divisor(t as int, 400);
    }
    let leaps: i64 = yoe.checked_div_euclid(4).unwrap() - yoe.checked_div_euclid(100).unwrap();
    proof {
        lemma_div_bounds_small(yoe as int, 4);
        lemma_div_bounds_small(yoe as int, 100);
    }
    era * 146097 + yoe * 365 + leaps + month_offset_of(d.month) + (d.day as i64 - 1) - 719468
}

/// For 0 <= x < 400 and d > 0, the quotient x / d lies between 0 and x.
proof fn lemma_div_bounds_small(x: int, d: int)
    requires
        0 <= x < 400,
        d > 0,
    ensures
        0 <= x / d <= x,
{
    lemma_fundamental_div_mod(x, d);
    lemma_mod_division_less_than_divisor(x, d);
}

/// How quotient and remainder by a positive divisor change from x - 1 to x.
pub(crate) proof fn lemma_div_mod_step(x: int, d: int)
    requires
        d > 0,
    ensures
        (x - 1) % d == d - 1 ==> x % d == 0 && x / d == (x - 1) / d + 1,
        (x - 1) % d < d - 1 ==> x % d == (x - 1) % d + 1 && x / d == (x - 1) / d,
{
    lemma_fundamental_div_mod(x - 1, d);
    lemma_mod_division_less_than_divisor(x - 1, d);
    let q = (x - 1) / d;
    let r = (x - 1) % d;
    if r == d - 1 {
        assert(x == (q + 1) * d + 0) by (nonlinear_arith)
            requires
                x - 1 == d * q + r,
                r == d - 1,
        ;
        lemma_fundamental_div_mod_converse_div(x, d, q + 1, 0);
        lemma_fundamental_div_mod_converse_mod(x, d, q + 1, 0);
    } else {
        assert(x == q * d + (r + 1)) by (nonlinear_arith)
            requires
                x - 1 == d * q + r,
        ;
        lemma_fundamental_div_mod_converse_div(x, d, q, r + 1);
        lemma_fundamental_div_mod_converse_mod(x, d, q, r + 1);
    }
}

/// The remainder of t by 4, 100 and 400 is decided by its remainder in the
/// 400-year cycle.
proof fn lemma_cycle_mod(t: int)
    ensures
        t % 4 == (t % 400) % 4,
        t % 100 == (t % 400) % 100,
{
    lemma_fundamental_div_mod(t, 400);
    let e = t / 400;
    let c = t % 400;
    assert(400 * e + c == 4 * (100 * e) + c);
    lemma_mod_multiples_vanish(100 * e, c, 4);
    assert(400 * e + c == 100 * (4 * e) + c);
    lemma_mod_multiples_vanish(4 * e, c, 100);
}

/// From March 1 of year t - 1 to March 1 of year t there are 365 days, or
/// 366 when the February in between (of year t) has a leap day.
proof fn lemma_march_days_step(t: int)
    ensures
        march_days(t) == march_days(t - 1) + 365 + if is_leap_year(t) {
            1int
        } else {
            0int
        },
{
    lemma_mod_division_less_than_divisor(t, 400);
    lemma_div_mod_step(t, 400);
    lemma_cycle_mod(t);
    let c = t % 400;
    if c == 0 {
        // t ends a 400-year cycle: the previous year sits at remainder 399,
        // and a cycle holds 146097 days.
        assert((t - 1) % 400 == 399 && t / 400 == (t - 1) / 400 + 1);
        assert(c % 4 == 0 && c % 100 == 0);
        assert(is_leap_year(t));
    } else {
        assert((t - 1) % 400 == c - 1 && t / 400 == (t - 1) / 400);
        lemma_mod_division_less_than_divisor(c, 4);
        lemma_mod_division_less_than_divisor(c, 100);
        lemma_div_mod_step(c, 4);
        lemma_div_mod_step(c, 100);
        if c % 100 == 0 {
            // A year at remainder 100, 200 or 300: divisible by 4, yet no
            // leap year.
            lemma_fundamental_div_mod(c, 100);
            let q = c / 100;
            assert(c == 4 * (25 * q) + 0);
            lemma_mod_multiples_vanish(25 * q, 0, 4);
            assert(c % 4 == 0);
            assert(!is_leap_year(t));
        }
    }
}

/// March 1 moves forward by at least 365 days per year.
proof fn lemma_march_days_mono(t1: int, t2: int)
    requires
        t1 <= t2,
    ensures
        march_days(t1) + 365 * (t2 - t1) <= march_days(t2),
    decreases t2 - t1,
{
    if t1 < t2 {
        lemma_march_days_mono(t1, t2 - 1);
        lemma_march_days_step(t2);
    }
}

/// Every day of year y lies between January 1 and the last day of the year,
/// 364 days after it (365 in a leap year).
proof fn lemma_day_number_year_bounds(y: int, m: int, d: int)
    requires
        ymd_valid(y, m, d),
    ensures
        day_number(y, 1, 1) <= day_number(y, m, d) <= day_number(y, 1, 1) + 364 + if is_leap_year(
            y,
        ) {
            1int
        } else {
            0int
        },
{
    if m > 2 {
        lemma_march_days_step(y);
    }
}

/// The day number grows strictly with the date, ordered by year, then month,
/// then day.
proof fn lemma_day_number_strict_mono(y1: int, m1: int, d1: int, y2: int, m2: int, d2: int)
    requires
        ymd_valid(y1, m1, d1),
        ymd_valid(y2, m2, d2),
        y1 < y2 || (y1 == y2 && (m1 < m2 || (m1 == m2 && d1 < d2))),
    ensures
        day_number(y1, m1, d1) < day_number(y2, m2, d2),
{
    if y1 == y2 {
        if m1 <= 2 && m2 > 2 {
            lemma_march_days_step(y1);
        }
    } else {
        lemma_day_number_year_bounds(y1, m1, d1);
        lemma_day_number_year_bounds(y2, m2, d2);
        lemma_march_days_step(y1 + 1);
        lemma_march_days_mono(y1, y2 - 1);
    }
}

/// Distinct valid dates have distinct day numbers: matching a day against a
/// date pattern may compare the calendar fields instead of day numbers.
pub proof fn lemma_day_number_injective(y1: int, m1: int, d1: int, y2: int, m2: int, d2: int)
    requires
        ymd_valid(y1, m1, d1),
        ymd_valid(y2, m2, d2),
        day_number(y1, m1, d1) == day_number(y2, m2, d2),
    ensures
        y1 == y2 && m1 == m2 && d1 == d2,
{
    if y1 < y2 || (y1 == y2 && (m1 < m2 || (m1 == m2 && d1 < d2))) {
        lemma_day_number_strict_mono(y1, m1, d1, y2, m2, d2);
    } else if y2 < y1 || (y1 == y2 && (m2 < m1 || (m1 == m2 && d2 < d1))) {
        lemma_day_number_strict_mono(y2, m2, d2, y1, m1, d1);
    }
}

/// The date one day after `d`.
pub fn next_date(d: &Date) -> (r: Date)
    requires
        d.wf(),
        d.epoch_day() < MAX_EPOCH_DAY as int,
    ensures
        r.wf(),
        r.epoch_day() == d.epoch_day() + 1,
{
    let dim: u8 = days_in_month_of(d.year, d.month);
    if d.day < dim {
        Date { year: d.year, month: d.month, day: d.day + 1 }
    } else if d.month == 12 {
        proof {
            // Only here does the year grow; the last representable date has
            // exactly the greatest day number, so it cannot reach this point.
            assert(day_number(MAX_YEAR as int, 12, 31) == MAX_EPOCH_DAY as int);
        }
        Date { year: d.year + 1, month: 1, day: 1 }
    } else if d.month == 2 {
        proof {
            lemma_march_days_step(d.year as int);
        }
        Date { year: d.year, month: 3, day: 1 }
    } else {
        Date { year: d.year, month: d.month + 1, day: 1 }
    }
}

} // verus!
