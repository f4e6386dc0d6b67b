//! Proleptic Gregorian calendar arithmetic on days counted from 1970-01-01.
use vstd::prelude::*;

verus! {

/// Gregorian leap-year rule.
pub open spec fn is_leap_year(y: int) -> bool {
    (y % 4 == 0 && y % 100 != 0) || y % 400 == 0
}

/// Number of days in year `y`.
pub open spec fn year_length(y: int) -> int {
    if is_leap_year(y) { 366 } else { 365 }
}

/// Number of days in month `m` (1-based) of year `y`.
pub open spec fn month_length(y: int, m: int) -> int {
    if m == 2 {
        if is_leap_year(y) { 29 } else { 28 }
    } else if m == 4 || m == 6 || m == 9 || m == 11 {
        30
    } else {
        31
    }
}

/// Days from 1970-01-01 to January 1st of year `y` (for `y >= 1970`).
pub open spec fn days_before_year(y: int) -> int
    decreases y - 1970,
{
    if y <= 1970 { 0 } else { days_before_year(y - 1) + year_length(y - 1) }
}

/// Days from January 1st to the first day of month `m` in year `y`.
pub open spec fn days_before_month(y: int, m: int) -> int
    decreases m,
{
    if m <= 1 { 0 } else { days_before_month(y, m - 1) + month_length(y, m - 1) }
}

/// A real calendar date on or after 1970-01-01.
pub open spec fn is_valid_date(y: int, m: int, d: int) -> bool {
    &&& y >= 1970
    &&& 1 <= m <= 12
    &&& 1 <= d <= month_length(y, m)
}

/// Number of days from 1970-01-01 to the given date.
pub open spec fn day_number(y: int, m: int, d: int) -> int {
    days_before_year(y) + days_before_month(y, m) + d - 1
}

// ---------------------------------------------------------------------------
// Closed forms
// ---------------------------------------------------------------------------

/// Number of leap years in `1..=x` (for `x >= 0`).
spec fn leaps_through(x: int) -> int {
    x / 4 - x / 100 + x / 400
}

proof fn lemma_leaps_step(y: int)
    requires
        y >= 1,
    ensures
        leaps_through(y) == leaps_through(y - 1) + (if is_leap_year(y) { 1int } else { 0int }),
{
}

proof fn lemma_days_before_year_closed(y: int)
    requires
        y >= 1970,
    ensures
        days_before_year(y) == 365 * (y - 1970) + leaps_through(y - 1) - leaps_through(1969),
    decreases y - 1970,
{
    if y > 1970 {
        lemma_days_before_year_closed(y - 1);
        lemma_leaps_step(y - 1);
    }
}

/// Days before month `m` in a common year.
spec fn cumulative_days(m: int) -> int {
    if m <= 1 { 0 }
    else if m == 2 { 31 }
    else if m == 3 { 59 }
    else if m == 4 { 90 }
    else if m == 5 { 120 }
    else if m == 6 { 151 }
    else if m == 7 { 181 }
    else if m == 8 { 212 }
    else if m == 9 { 243 }
    else if m == 10 { 273 }
    else if m == 11 { 304 }
    else { 334 }
}

proof fn lemma_days_before_month_closed(y: int, m: int)
    requires
        1 <= m <= 12,
    ensures
        days_before_month(y, m) == cumulative_days(m) + (if m > 2 && is_leap_year(y) { 1int } else { 0int }),
    decreases m,
{
    if m > 1 {
        lemma_days_before_month_closed(y, m - 1);
    }
}

// ---------------------------------------------------------------------------
// Era arithmetic (years counted from March 1st, 400-year eras)
// ---------------------------------------------------------------------------

/// Days from the start of an era to March 1st of its year `t` (`0 <= t <= 399`).
spec fn era_year_start(t: int) -> int {
    365 * t + t / 4 - t / 100
}

/// Year-of-era estimate used by the conversion (removes leap days, then divides).
spec fn year_of_era(doe: int) -> int {
    (doe - doe / 1460 + doe / 36524 - doe / 146096) / 365
}

/// Length of era year `t`, which runs from March 1st and ends with February
/// of the following calendar year.
spec fn era_year_length(t: int) -> int {
    if is_leap_year(t + 1) { 366 } else { 365 }
}

/// The estimate is exact when the day of era is split into centuries (`c`),
/// four-year blocks (`q`), years (`j`) and a day within the year (`t`).
proof fn lemma_year_of_era_parts(c: int, q: int, j: int, t: int)
    requires
        0 <= c <= 3,
        0 <= q <= 24,
        0 <= j <= 3,
        0 <= t,
        t < (if j == 3 && (q < 24 || c == 3) { 366int } else { 365int }),
    ensures
        year_of_era(36524 * c + 1461 * q + 365 * j + t) == 100 * c + 4 * q + j,
        era_year_start(100 * c + 4 * q + j) == 36524 * c + 1461 * q + 365 * j,
        era_year_length(100 * c + 4 * q + j) == (if j == 3 && (q < 24 || c == 3) { 366int } else { 365int }),
{
    let doe = 36524 * c + 1461 * q + 365 * j + t;
    let r = 24 * c + q + 365 * j + t;
    let k = 25 * c + q;
    assert(doe == 1460 * k + r);
    if r >= 1460 {
        assert(doe / 1460 == k + 1);
    } else {
        assert(doe / 1460 == k);
    }
    if doe == 146096 {
        assert(doe / 36524 == 4);
        assert(doe / 146096 == 1);
    } else {
        assert(doe / 36524 == c);
        assert(doe / 146096 == 0);
    }
    let y = 100 * c + 4 * q + j;
    assert(y / 4 == k);
    assert(y / 100 == c);
    assert((y + 1) % 4 == 0 <==> j == 3);
    assert((y + 1) % 100 == 0 <==> (j == 3 && q == 24));
    assert((y + 1) % 400 == 0 <==> (j == 3 && q == 24 && c == 3));
}

proof fn lemma_year_of_era(doe: int)
    requires
        0 <= doe < 146097,
    ensures
        0 <= year_of_era(doe) <= 399,
        era_year_start(year_of_era(doe)) <= doe,
        doe - era_year_start(year_of_era(doe)) < era_year_length(year_of_era(doe)),
{
    let c: int = if doe == 146096 { 3 } else { doe / 36524 };
    let r1 = doe - 36524 * c;
    let q = r1 / 1461;
    let r2 = r1 - 1461 * q;
    let j: int = if r2 / 365 > 3 { 3 } else { r2 / 365 };
    let t = r2 - 365 * j;
    assert(0 <= c <= 3);
    assert(0 <= r1 <= 36524);
    assert(0 <= q <= 24);
    assert(0 <= r2 < 1461);
    assert(t == 365 ==> r2 == 1460);
    assert(r2 == 1460 ==> (q < 24 || c == 3));
    lemma_year_of_era_parts(c, q, j, t);
}

/// Days from March 1st to the first day of March-based month `mp`
/// (0 = March, ..., 10 = January, 11 = February).
spec fn march_month_start(mp: int) -> int {
    (153 * mp + 2) / 5
}

/// Length of March-based month `mp`; February has 29 days when `leap`.
spec fn march_month_length(mp: int, leap: bool) -> int {
    if mp == 11 {
        if leap { 29 } else { 28 }
    } else if mp == 1 || mp == 3 || mp == 6 || mp == 8 {
        30
    } else {
        31
    }
}

proof fn lemma_month_of_year(doy: int, leap: bool)
    requires
        0 <= doy < (if leap { 366int } else { 365int }),
    ensures
        0 <= (5 * doy + 2) / 153 <= 11,
        march_month_start((5 * doy + 2) / 153) <= doy,
        doy - march_month_start((5 * doy + 2) / 153) < march_month_length((5 * doy + 2) / 153, leap),
{
    let mp = (5 * doy + 2) / 153;
    assert(0 <= mp <= 11);
    assert(153 * mp <= 5 * doy + 2 < 153 * mp + 153);
}

proof fn lemma_leap_period(e: int, x: int)
    ensures
        is_leap_year(400 * e + x) == is_leap_year(x),
{
    assert((400 * e + x) % 4 == x % 4);
    assert((400 * e + x) % 100 == x % 100);
    assert((400 * e + x) % 400 == x % 400);
}

/// Leap years from 1 up to the end of era year `yoe` of era `era`.
proof fn lemma_leaps_in_era(era: int, yoe: int)
    requires
        era >= 0,
        0 <= yoe <= 399,
    ensures
        leaps_through(400 * era + yoe) == 97 * era + yoe / 4 - yoe / 100,
{
    let y = 400 * era + yoe;
    assert(y / 4 == 100 * era + yoe / 4);
    assert(y / 100 == 4 * era + yoe / 100);
    assert(y / 400 == era);
}

/// Converting (era, year of era, day of year) back to a calendar date lands on
/// a valid date whose day number is the given count.
proof fn lemma_civil_date(days: int, era: int, yoe: int, doy: int)
    requires
        days >= 0,
        era >= 0,
        0 <= yoe <= 399,
        0 <= doy < era_year_length(yoe),
        days + 719468 == 146097 * era + era_year_start(yoe) + doy,
    ensures
        ({
            let mp = (5 * doy + 2) / 153;
            let d = doy - march_month_start(mp) + 1;
            let m = if mp < 10 { mp + 3 } else { mp - 9 };
            let y = if m <= 2 { 400 * era + yoe + 1 } else { 400 * era + yoe };
            &&& is_valid_date(y, m, d)
            &&& day_number(y, m, d) == days
        }),
{
    let leap = is_leap_year(yoe + 1);
    lemma_month_of_year(doy, leap);
    let mp = (5 * doy + 2) / 153;
    let d = doy - march_month_start(mp) + 1;
    let m = if mp < 10 { mp + 3 } else { mp - 9 };
    let y0 = 400 * era + yoe;
    let y = if m <= 2 { y0 + 1 } else { y0 };
    // The date is not before 1970.
    if era <= 4 {
        assert(era == 4);
        assert(yoe >= 369);
        if yoe == 369 {
            assert(doy >= 306);
            assert(mp >= 10);
        }
    }
    assert(y >= 1970);
    lemma_days_before_year_closed(y);
    lemma_days_before_month_closed(y, m);
    lemma_leaps_in_era(era, yoe);
    lemma_leap_period(era, yoe);
    lemma_leap_period(era, yoe + 1);
    if m <= 2 {
        assert(leaps_through(y - 1) == leaps_through(y0));
        assert(month_length(y, m) == march_month_length(mp, leap));
    } else {
        lemma_leaps_step(y0);
        assert(month_length(y, m) == march_month_length(mp, leap));
    }
    assert(leaps_through(1969) == 477);
}


proof fn lemma_days_before_year_monotone(a: int, b: int)
    requires
        1970 <= a <= b,
    ensures
        days_before_year(a) + 365 * (b - a) <= days_before_year(b),
    decreases b - a,
{
    if a < b {
        lemma_days_before_year_monotone(a, b - 1);
    }
}

proof fn lemma_days_before_month_monotone(y: int, a: int, b: int)
    requires
        1 <= a <= b <= 13,
    ensures
        days_before_month(y, a) + 28 * (b - a) <= days_before_month(y, b),
    decreases b - a,
{
    if a < b {
        lemma_days_before_month_monotone(y, a, b - 1);
    }
}

/// A valid date's day number falls inside its year and inside its month.
proof fn lemma_date_bounds(y: int, m: int, d: int)
    requires
        is_valid_date(y, m, d),
    ensures
        days_before_year(y) <= day_number(y, m, d) < days_before_year(y + 1),
        days_before_month(y, m) <= day_number(y, m, d) - days_before_year(y) < days_before_month(y, m + 1),
{
    lemma_days_before_month_closed(y, 12);
    lemma_days_before_month_monotone(y, m + 1, 13);
    lemma_days_before_month_monotone(y, 1, m);
    assert(days_before_month(y, m + 1) == days_before_month(y, m) + month_length(y, m));
    assert(days_before_month(y, 13) == year_length(y));
    assert(days_before_year(y + 1) == days_before_year(y) + year_length(y));
}

/// Law: distinct valid dates have distinct day numbers, so the date found for
/// a day count is the only one.
pub proof fn lemma_day_number_injective(y1: int, m1: int, d1: int, y2: int, m2: int, d2: int)
    requires
        is_valid_date(y1, m1, d1),
        is_valid_date(y2, m2, d2),
        day_number(y1, m1, d1) == day_number(y2, m2, d2),
    ensures
        y1 == y2 && m1 == m2 && d1 == d2,
{
    lemma_date_bounds(y1, m1, d1);
    lemma_date_bounds(y2, m2, d2);
    if y1 < y2 {
        lemma_days_before_year_monotone(y1 + 1, y2);
    } else if y2 < y1 {
        lemma_days_before_year_monotone(y2 + 1, y1);
    }
    assert(y1 == y2);
    if m1 < m2 {
        lemma_days_before_month_monotone(y1, m1 + 1, m2);
    } else if m2 < m1 {
        lemma_days_before_month_monotone(y1, m2 + 1, m1);
    }
}

/// The calendar date whose day number is `n` (for `n >= 0` there is exactly one).
pub open spec fn civil_date(n: int) -> (int, int, int) {
    choose|ymd: (int, int, int)| is_valid_date(ymd.0, ymd.1, ymd.2) && day_number(ymd.0, ymd.1, ymd.2) == n
}

/// Any valid date with day number `n` is `civil_date(n)`.
pub proof fn lemma_civil_date_unique(n: int, y: int, m: int, d: int)
    requires
        is_valid_date(y, m, d),
        day_number(y, m, d) == n,
    ensures
        civil_date(n) == (y, m, d),
{
    let w = (y, m, d);
    assert(is_valid_date(w.0, w.1, w.2) && day_number(w.0, w.1, w.2) == n);
    let c = civil_date(n);
    lemma_day_number_injective(c.0, c.1, c.2, y, m, d);
}

/// Splits a day count into a valid date on or after 1970-01-01 (the
/// conversion works on 400-year eras of years that start on March 1st).
pub fn days_to_ymd(days: u64) -> (ymd: (u64, u64, u64))
    requires
        days <= u64::MAX - 719468,
    ensures
        is_valid_date(ymd.0 as int, ymd.1 as int, ymd.2 as int),
        day_number(ymd.0 as int, ymd.1 as int, ymd.2 as int) == days,
        (ymd.0 as int, ymd.1 as int, ymd.2 as int) == civil_date(days as int),
{
    let z = days + 719468;
    let era = z / 146097;
    let doe = z - era * 146097;
    proof {
        lemma_year_of_era(doe as int);
    }
    let yoe = (doe - doe / 1460 + doe / 36524 - doe / 146096) / 365;
    let y = yoe + era * 400;
    let doy = doe - (365 * yoe + yoe / 4 - yoe / 100);
    proof {
        lemma_month_of_year(doy as int, is_leap_year(yoe + 1));
    }
    let mp = (5 * doy + 2) / 153;
    let d = doy - (153 * mp + 2) / 5 + 1;
    let m = if mp < 10 { mp + 3 } else { mp - 9 };
    let y = if m <= 2 { y + 1 } else { y };
    proof {
        lemma_civil_date(days as int, era as int, yoe as int, doy as int);
        lemma_civil_date_unique(days as int, y as int, m as int, d as int);
    }
    (y, m, d)
}

} // verus!
