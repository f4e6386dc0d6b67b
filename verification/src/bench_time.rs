//! Timestamps of benchmark reports: the current UTC time as
//! `YYYY-MM-DDTHH:MM:SSZ`, with the date found by counting whole years and
//! months from 1970-01-01.
use vstd::prelude::*;
use crate::calendar::{
    civil_date, day_number, days_before_month, days_before_year, is_leap_year, is_valid_date,
    lemma_civil_date_unique, month_length, year_length,
};
use crate::timestamp::{iso8601_text, push_iso8601_fields, unix_time_secs, utc_fields};

verus! {

/// Gregorian leap-year rule.
pub fn is_leap(year: u64) -> (r: bool)
    ensures
        r == is_leap_year(year as int),
{
    (year % 4 == 0 && year % 100 != 0) || year % 400 == 0
}

fn month_days(leap: bool, month: u64) -> (d: u64)
    requires
        1 <= month <= 12,
    ensures
        d as int == month_length(if leap { 1972 } else { 1970 }, month as int),
{
    if month == 2 {
        if leap { 29 } else { 28 }
    } else if month == 4 || month == 6 || month == 9 || month == 11 {
        30
    } else {
        31
    }
}

/// Splits a day count since 1970-01-01 into `(year, month, day)` by
/// counting off whole years, then whole months.
pub fn days_to_ymd(total_days: u64) -> (ymd: (u64, u64, u64))
    ensures
        is_valid_date(ymd.0 as int, ymd.1 as int, ymd.2 as int),
        day_number(ymd.0 as int, ymd.1 as int, ymd.2 as int) == total_days,
        (ymd.0 as int, ymd.1 as int, ymd.2 as int) == civil_date(total_days as int),
{
    let mut days = total_days;
    let mut year: u64 = 1970;
    loop
        invariant
            year >= 1970,
            days <= total_days,
            365 * (year - 1970) <= total_days - days,
            days_before_year(year as int) + days == total_days,
        ensures
            year >= 1970,
            days_before_year(year as int) + days == total_days,
            days < year_length(year as int),
        decreases days,
    {
        let days_in_year: u64 = if is_leap(year) { 366 } else { 365 };
        if days < days_in_year {
            break;
        }
        days = days - days_in_year;
        year = year + 1;
    }
    let leap = is_leap(year);
    let ghost y = year as int;
    let mut month: u64 = 1;
    loop
        invariant
            1 <= month <= 12,
            leap == is_leap_year(y),
            y >= 1970,
            days_before_year(y) + days_before_month(y, month as int) + days == total_days,
            days + days_before_month(y, month as int) < year_length(y),
        ensures
            1 <= month <= 12,
            days_before_year(y) + days_before_month(y, month as int) + days == total_days,
            days < month_length(y, month as int),
        decreases 12 - month,
    {
        let md = month_days(leap, month);
        assert(md == month_length(y, month as int));
        if days < md {
            break;
        }
        proof {
            if month == 12 {
                assert(days_before_month(y, 12) + month_length(y, 12) == year_length(y)) by {
                    reveal_with_fuel(days_before_month, 12);
                }
            }
        }
        days = days - md;
        month = month + 1;
    }
    proof {
        lemma_civil_date_unique(total_days as int, y, month as int, days + 1);
    }
    (year, month, days + 1)
}

/// `YYYY-MM-DDTHH:MM:SSZ` for a Unix time, with the date found by
/// `days_to_ymd`.
pub fn format_report_timestamp(secs: u64) -> (text: String)
    ensures
        text@ == iso8601_text(secs as nat),
{
    let days = secs / 86400;
    let time_of_day = secs % 86400;
    let hours = time_of_day / 3600;
    let minutes = (time_of_day % 3600) / 60;
    let seconds = time_of_day % 60;
    let (year, month, day) = days_to_ymd(days);
    let f = (year, month, day, hours, minutes, seconds);
    assert((f.0 as int, f.1 as int, f.2 as int, f.3 as int, f.4 as int, f.5 as int) == utc_fields(secs as nat));
    let mut s = String::new();
    push_iso8601_fields(&mut s, f);
    assert(s@ =~= iso8601_text(secs as nat));
    s
}

/// The current UTC time as `YYYY-MM-DDTHH:MM:SSZ` (the Unix epoch when
/// the clock reads a time before 1970).
pub fn now_iso8601() -> (text: String)
    ensures
        exists|secs: nat| text@ == iso8601_text(secs),
{
    let secs = unix_time_secs();
    format_report_timestamp(secs)
}

} // verus!
