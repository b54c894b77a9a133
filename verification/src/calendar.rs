//! The proleptic Gregorian calendar counted in days from 1970-01-01, and
//! the arithmetic that turns a day count back into a date.

use vstd::prelude::*;

verus! {

pub open spec fn is_leap_year(y: int) -> bool {
    y % 4 == 0 && (y % 100 != 0 || y % 400 == 0)
}

pub open spec fn days_in_year(y: int) -> int {
    if is_leap_year(y) {
        366
    } else {
        365
    }
}

/// Length of month `m` (1 = January) of year `y`.
pub open spec fn days_in_month(y: int, m: int) -> int {
    if m == 2 {
        if is_leap_year(y) {
            29
        } else {
            28
        }
    } else if m == 4 || m == 6 || m == 9 || m == 11 {
        30
    } else {
        31
    }
}

/// Days from 1970-01-01 to January 1 of year `y`, for `y >= 1970`.
pub open spec fn days_before_year(y: int) -> int
    decreases y - 1970,
{
    if y <= 1970 {
        0
    } else {
        days_before_year(y - 1) + days_in_year(y - 1)
    }
}

/// Days from January 1 of year `y` to the first day of month `m`.
pub open spec fn days_before_month(y: int, m: int) -> int
    decreases m,
{
    if m <= 1 {
        0
    } else {
        days_before_month(y, m - 1) + days_in_month(y, m - 1)
    }
}

/// A calendar date on or after 1970-01-01.
pub open spec fn is_valid_date(y: int, m: int, d: int) -> bool {
    &&& y >= 1970
    &&& 1 <= m <= 12
    &&& 1 <= d <= days_in_month(y, m)
}

/// Days from 1970-01-01 to the date `y-m-d`.
pub open spec fn day_number(y: int, m: int, d: int) -> int {
    days_before_year(y) + days_before_month(y, m) + (d - 1)
}

/// The date that lies `days` days after 1970-01-01.
pub open spec fn civil_date(days: int) -> (int, int, int) {
    choose|date: (int, int, int)|
        is_valid_date(date.0, date.1, date.2) && day_number(date.0, date.1, date.2) == days
}

// ---------------------------------------------------------------------------
// Closed forms
// ---------------------------------------------------------------------------

/// Leap years in 1..=n of a March-based count: n/4 - n/100 + n/400.
pub open spec fn leaps_through(n: int) -> int {
    n / 4 - n / 100 + n / 400
}

/// Days from March 1 of year 0 to March 1 of year `y`.
pub open spec fn march_day(y: int) -> int {
    365 * y + leaps_through(y)
}

proof fn lemma_div4_step(k: int)
    requires
        k >= 1,
    ensures
        k / 4 - (k - 1) / 4 == (if k % 4 == 0 { 1int } else { 0int }),
{
}

proof fn lemma_div100_step(k: int)
    requires
        k >= 1,
    ensures
        k / 100 - (k - 1) / 100 == (if k % 100 == 0 { 1int } else { 0int }),
        k % 100 == 0 ==> k % 4 == 0,
{
}

proof fn lemma_div400_step(k: int)
    requires
        k >= 1,
    ensures
        k / 400 - (k - 1) / 400 == (if k % 400 == 0 { 1int } else { 0int }),
        k % 400 == 0 ==> k % 100 == 0,
{
}

proof fn lemma_leap_step(k: int)
    requires
        k >= 1,
    ensures
        leaps_through(k) == leaps_through(k - 1) + (if is_leap_year(k) { 1int } else { 0int }),
{
    lemma_div4_step(k);
    lemma_div100_step(k);
    lemma_div400_step(k);
}

proof fn lemma_days_before_year_closed(y: int)
    requires
        y >= 1970,
    ensures
        days_before_year(y) == 365 * (y - 1970) + leaps_through(y - 1) - 477,
    decreases y - 1970,
{
    if y > 1970 {
        lemma_days_before_year_closed(y - 1);
        lemma_leap_step(y - 1);
    }
}

proof fn lemma_march_day_step(y: int)
    requires
        y >= 0,
    ensures
        march_day(y + 1) == march_day(y) + days_in_year(y + 1),
{
    lemma_leap_step(y + 1);
}

#[verifier::rlimit(40)]
proof fn lemma_march_day_era(e: int, n: int)
    requires
        e >= 0,
        n >= 0,
    ensures
        march_day(400 * e + n) == 146097 * e + march_day(n),
{
    assert((400 * e + n) / 4 == 100 * e + n / 4);
    assert((400 * e + n) / 100 == 4 * e + n / 100);
    assert((400 * e + n) / 400 == e + n / 400);
}

#[verifier::rlimit(40)]
proof fn lemma_days_before_month_closed(y: int, m: int)
    requires
        3 <= m <= 13,
    ensures
        days_before_month(y, m) == 59 + (if is_leap_year(y) { 1int } else { 0int }) + (153 * (m
            - 3) + 2) / 5,
{
    reveal_with_fuel(days_before_month, 13);
}

proof fn lemma_days_before_month_jan_feb(y: int)
    ensures
        days_before_month(y, 1) == 0,
        days_before_month(y, 2) == 31,
{
    reveal_with_fuel(days_before_month, 3);
}

/// Year of a 400-year era that holds day `doe` of the era (eras start on March 1).
proof fn lemma_year_of_era(doe: u32)
    by (bit_vector)
    requires
        doe < 146097,
    ensures
        ({
            let yoe = ((doe - doe / 1460 + doe / 36524 - doe / 146096) / 365) as u32;
            &&& yoe < 400
            &&& 365 * yoe + yoe / 4 - yoe / 100 <= doe
            &&& doe < 365 * (yoe + 1) + (yoe + 1) / 4 - (yoe + 1) / 100 + (yoe + 1) / 400
        }),
{
}

/// Month of a March-based year (0 = March) that holds day `doy` of the year.
proof fn lemma_month_of_year(doy: u32)
    by (bit_vector)
    requires
        doy < 366,
    ensures
        ({
            let mp = ((5 * doy + 2) / 153) as u32;
            &&& mp < 12
            &&& (153 * mp + 2) / 5 <= doy
            &&& doy < (153 * (mp + 1) + 2) / 5
            &&& (doy >= 306 <==> mp >= 10)
        }),
{
}

/// The March-based month lengths agree with the calendar, except for February.
proof fn lemma_march_month_len(y: int, mp: int)
    requires
        0 <= mp <= 10,
    ensures
        (153 * (mp + 1) + 2) / 5 - (153 * mp + 2) / 5 == days_in_month(
            y,
            if mp < 10 { mp + 3 } else { mp - 9 },
        ),
{
    assert(mp == 0 || mp == 1 || mp == 2 || mp == 3 || mp == 4 || mp == 5 || mp == 6 || mp == 7
        || mp == 8 || mp == 9 || mp == 10);
}

/// Day `doy` of the March-based year `y` is the calendar date built from its
/// March-based month, with January and February counted in the next year.
#[verifier::rlimit(40)]
proof fn lemma_march_date(y: int, doy: int, mp: int)
    requires
        y >= 1969,
        y == 1969 ==> doy >= 306,
        0 <= doy < days_in_year(y + 1),
        0 <= mp < 12,
        (153 * mp + 2) / 5 <= doy < (153 * (mp + 1) + 2) / 5,
        doy >= 306 <==> mp >= 10,
    ensures
        ({
            let d = doy - (153 * mp + 2) / 5 + 1;
            let m = if mp < 10 { mp + 3 } else { mp - 9 };
            let yr = if m <= 2 { y + 1 } else { y };
            &&& is_valid_date(yr, m, d)
            &&& day_number(yr, m, d) == march_day(y) + doy - 719468
        }),
{
    let d = doy - (153 * mp + 2) / 5 + 1;
    if mp < 10 {
        lemma_march_month_len(y, mp);
        lemma_days_before_month_closed(y, mp + 3);
        lemma_days_before_year_closed(y);
        lemma_leap_step(y);
    } else {
        if mp == 10 {
            lemma_march_month_len(y + 1, mp);
        } else {
            assert((153 * mp + 2) / 5 == 337);
        }
        lemma_days_before_month_jan_feb(y + 1);
        lemma_days_before_year_closed(y + 1);
    }
}

proof fn lemma_leaps_monotone(a: int, b: int)
    requires
        1 <= a <= b,
    ensures
        leaps_through(a) <= leaps_through(b),
    decreases b - a,
{
    if a < b {
        lemma_leaps_monotone(a, b - 1);
        lemma_leap_step(b);
    }
}

proof fn lemma_days_before_year_step(y: int)
    requires
        y >= 1970,
    ensures
        days_before_year(y + 1) == days_before_year(y) + days_in_year(y),
{
}

proof fn lemma_days_before_year_monotone(a: int, b: int)
    requires
        1970 <= a <= b,
    ensures
        days_before_year(a) <= days_before_year(b),
{
    lemma_days_before_year_closed(a);
    lemma_days_before_year_closed(b);
    if a > 1970 {
        lemma_leaps_monotone(a - 1, b - 1);
    } else {
        lemma_leaps_monotone(1969, b - 1);
    }
}

/// Bounds of the position of a valid date within its year.
#[verifier::rlimit(40)]
proof fn lemma_day_of_year_bounds(y: int, m: int, d: int)
    requires
        is_valid_date(y, m, d),
    ensures
        days_before_month(y, m) + d - 1 < days_in_year(y),
        days_before_month(y, m) >= 0,
        days_before_month(y, m) + days_in_month(y, m) <= days_in_year(y),
{
    reveal_with_fuel(days_before_month, 13);
}

/// Months before `b` cover at least the days of the months before `a < b` plus month `a`.
#[verifier::rlimit(40)]
proof fn lemma_days_before_month_monotone(y: int, a: int, b: int)
    requires
        1 <= a < b <= 12,
    ensures
        days_before_month(y, a) + days_in_month(y, a) <= days_before_month(y, b),
{
    reveal_with_fuel(days_before_month, 13);
}

/// Distinct valid dates have distinct day numbers.
#[verifier::rlimit(40)]
pub proof fn lemma_day_number_injective(y1: int, m1: int, d1: int, y2: int, m2: int, d2: int)
    requires
        is_valid_date(y1, m1, d1),
        is_valid_date(y2, m2, d2),
        day_number(y1, m1, d1) == day_number(y2, m2, d2),
    ensures
        y1 == y2 && m1 == m2 && d1 == d2,
{
    lemma_day_of_year_bounds(y1, m1, d1);
    lemma_day_of_year_bounds(y2, m2, d2);
    if y1 < y2 {
        lemma_days_before_year_step(y1);
        lemma_days_before_year_monotone(y1 + 1, y2);
    } else if y2 < y1 {
        lemma_days_before_year_step(y2);
        lemma_days_before_year_monotone(y2 + 1, y1);
    } else if m1 < m2 {
        lemma_days_before_month_monotone(y1, m1, m2);
    } else if m2 < m1 {
        lemma_days_before_month_monotone(y1, m2, m1);
    }
}

/// Day numbers follow the calendar order of valid dates.
#[verifier::rlimit(40)]
pub proof fn lemma_day_number_order(y1: int, m1: int, d1: int, y2: int, m2: int, d2: int)
    requires
        is_valid_date(y1, m1, d1),
        is_valid_date(y2, m2, d2),
        day_number(y1, m1, d1) <= day_number(y2, m2, d2),
    ensures
        y1 < y2 || (y1 == y2 && (m1 < m2 || (m1 == m2 && d1 <= d2))),
{
    lemma_day_of_year_bounds(y1, m1, d1);
    lemma_day_of_year_bounds(y2, m2, d2);
    if y2 < y1 {
        lemma_days_before_year_step(y2);
        lemma_days_before_year_monotone(y2 + 1, y1);
    } else if y1 == y2 && m2 < m1 {
        lemma_days_before_month_monotone(y1, m2, m1);
    }
}

/// Dates before day 2932897 (10000-01-01) have four-digit years.
pub proof fn lemma_four_digit_year(y: int, m: int, d: int)
    requires
        is_valid_date(y, m, d),
        day_number(y, m, d) < 2932897,
    ensures
        y <= 9999,
{
    lemma_day_of_year_bounds(y, m, d);
    if y > 9999 {
        lemma_days_before_year_closed(10000);
        lemma_days_before_year_monotone(10000, y);
    }
}

/// A valid date with the given day number is the date that `civil_date` names.
pub proof fn lemma_civil_date_is(days: int, y: int, m: int, d: int)
    requires
        is_valid_date(y, m, d),
        day_number(y, m, d) == days,
    ensures
        civil_date(days) == (y, m, d),
{
    let date = civil_date(days);
    assert(is_valid_date(date.0, date.1, date.2) && day_number(date.0, date.1, date.2) == days)
        by {
        let w = (y, m, d);
        assert(is_valid_date(w.0, w.1, w.2) && day_number(w.0, w.1, w.2) == days);
    }
    lemma_day_number_injective(date.0, date.1, date.2, y, m, d);
}

/// Every valid date is the date of its own day number.
pub proof fn lemma_civil_date_round_trip(y: int, m: int, d: int)
    requires
        is_valid_date(y, m, d),
    ensures
        civil_date(day_number(y, m, d)) == (y, m, d),
{
    lemma_civil_date_is(day_number(y, m, d), y, m, d);
}

/// Every day count from 1970-01-01 on names a valid date with that count.
#[verifier::rlimit(40)]
pub proof fn lemma_civil_date_exists(days: int)
    requires
        days >= 0,
    ensures
        is_valid_date(civil_date(days).0, civil_date(days).1, civil_date(days).2),
        day_number(civil_date(days).0, civil_date(days).1, civil_date(days).2) == days,
{
    let z = days + 719468;
    let era = z / 146097;
    let doe = z - era * 146097;
    assert(0 <= doe < 146097);
    lemma_year_of_era(doe as u32);
    let yoe = (doe - doe / 1460 + doe / 36524 - doe / 146096) / 365;
    assert(yoe == ((doe as u32 - doe as u32 / 1460 + doe as u32 / 36524 - doe as u32 / 146096)
        / 365) as u32);
    let y = yoe + era * 400;
    let doy = doe - (365 * yoe + yoe / 4 - yoe / 100);
    lemma_march_day_era(era, yoe);
    lemma_march_day_era(era, yoe + 1);
    lemma_march_day_step(y);
    assert(march_day(y) + doy == z);
    assert(doy < days_in_year(y + 1));
    if y <= 1968 {
        assert(march_day(y) <= 718812);
    }
    lemma_month_of_year(doy as u32);
    let mp = (5 * doy + 2) / 153;
    assert(mp == ((5 * doy as u32 + 2) / 153) as u32);
    lemma_march_date(y, doy, mp);
    let d = doy - (153 * mp + 2) / 5 + 1;
    let m = if mp < 10 { mp + 3 } else { mp - 9 };
    let yr = if m <= 2 { y + 1 } else { y };
    lemma_civil_date_is(days, yr, m, d);
}

/// Converts a day count since 1970-01-01 to its calendar date.
#[verifier::rlimit(40)]
pub fn civil_from_days(days: u64) -> (date: (u64, u64, u64))
    requires
        days <= u64::MAX - 719468,
    ensures
        is_valid_date(date.0 as int, date.1 as int, date.2 as int),
        day_number(date.0 as int, date.1 as int, date.2 as int) == days,
        civil_date(days as int) == (date.0 as int, date.1 as int, date.2 as int),
{
    let z = days + 719468;
    let era = z / 146097;
    let doe = z - era * 146097;
    let yoe = (doe - doe / 1460 + doe / 36524 - doe / 146096) / 365;
    proof {
        lemma_year_of_era(doe as u32);
    }
    let y = yoe + era * 400;
    let doy = doe - (365 * yoe + yoe / 4 - yoe / 100);
    proof {
        lemma_march_day_era(era as int, yoe as int);
        lemma_march_day_era(era as int, yoe + 1);
        lemma_march_day_step(y as int);
        assert(march_day(y as int) + doy == z);
        assert(march_day(y + 1) == march_day(y as int) + days_in_year(y + 1));
        assert(doy < days_in_year(y + 1));
        if y <= 1968 {
            assert(march_day(y as int) <= 718812);
        }
    }
    let mp = (5 * doy + 2) / 153;
    proof {
        lemma_month_of_year(doy as u32);
        lemma_march_date(y as int, doy as int, mp as int);
    }
    let d = doy - (153 * mp + 2) / 5 + 1;
    let m = if mp < 10 {
        mp + 3
    } else {
        mp - 9
    };
    let yr = if m <= 2 {
        y + 1
    } else {
        y
    };
    proof {
        lemma_civil_date_is(days as int, yr as int, m as int, d as int);
    }
    (yr, m, d)
}

} // verus!
