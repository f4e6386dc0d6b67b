//! UTC timestamps: reading the system clock and formatting Unix seconds as
//! save ids (`YYYYMMDD_HHMMSS`) and ISO 8601 strings.
use vstd::prelude::*;
use crate::calendar::{civil_date, days_to_ymd};
use crate::text::{push_char, push_zero_padded, zero_padded};

verus! {

#[verifier::external_type_specification]
#[verifier::external_body]
pub struct ExSystemTime(std::time::SystemTime);

#[verifier::external_type_specification]
#[verifier::external_body]
pub struct ExSystemTimeError(std::time::SystemTimeError);

/// Reads the system clock (`SystemTime::now`); nothing is known of the value.
#[verifier::external_body]
fn system_time_now() -> std::time::SystemTime {
    std::time::SystemTime::now()
}

/// Time elapsed from the Unix epoch to `t` (`SystemTime::duration_since`);
/// fails when `t` lies before the epoch. Nothing more is stated: the value
/// comes from the clock.
#[verifier::external_body]
fn since_unix_epoch(t: &std::time::SystemTime) -> Result<core::time::Duration, std::time::SystemTimeError> {
    t.duration_since(std::time::UNIX_EPOCH)
}

/// Whole seconds of a duration (`Duration::as_secs`). The duration is opaque
/// here, so no clause ties the result to it.
#[verifier::external_body]
fn whole_seconds(d: &core::time::Duration) -> u64 {
    d.as_secs()
}

/// Current Unix time in whole seconds; zero when the clock reads a time
/// before 1970. Both the reading and which of the two cases occurs rest on
/// the system clock, so no clause states the value.
pub fn unix_time_secs() -> u64 {
    let now = system_time_now();
    match since_unix_epoch(&now) {
        Ok(d) => whole_seconds(&d),
        Err(_) => 0,
    }
}

/// The civil date and time of day of a Unix timestamp, as
/// `(year, month, day, hours, minutes, seconds)`.
pub open spec fn utc_fields(secs: nat) -> (int, int, int, int, int, int) {
    let date = civil_date((secs / 86400) as int);
    let tod = secs % 86400;
    (date.0, date.1, date.2, (tod / 3600) as int, ((tod % 3600) / 60) as int, (tod % 60) as int)
}

/// `YYYYMMDD_HHMMSS` for the given Unix time (UTC).
pub open spec fn save_id_text(secs: nat) -> Seq<char> {
    let f = utc_fields(secs);
    zero_padded(f.0 as nat, 4) + zero_padded(f.1 as nat, 2) + zero_padded(f.2 as nat, 2) + seq!['_']
        + zero_padded(f.3 as nat, 2) + zero_padded(f.4 as nat, 2) + zero_padded(f.5 as nat, 2)
}

/// `YYYY-MM-DDTHH:MM:SSZ` for the given Unix time (UTC).
pub open spec fn iso8601_text(secs: nat) -> Seq<char> {
    let f = utc_fields(secs);
    zero_padded(f.0 as nat, 4) + seq!['-'] + zero_padded(f.1 as nat, 2) + seq!['-']
        + zero_padded(f.2 as nat, 2) + seq!['T'] + zero_padded(f.3 as nat, 2) + seq![':']
        + zero_padded(f.4 as nat, 2) + seq![':'] + zero_padded(f.5 as nat, 2) + seq!['Z']
}

/// Splits Unix seconds into date and time of day.
fn split_unix_secs(secs: u64) -> (r: (u64, u64, u64, u64, u64, u64))
    ensures
        (r.0 as int, r.1 as int, r.2 as int, r.3 as int, r.4 as int, r.5 as int) == utc_fields(secs as nat),
        r.0 >= 1970,
{
    let days = secs / 86400;
    let time_of_day = secs % 86400;
    let hours = time_of_day / 3600;
    let minutes = (time_of_day % 3600) / 60;
    let seconds = time_of_day % 60;
    let (year, month, day) = days_to_ymd(days);
    (year, month, day, hours, minutes, seconds)
}

/// Formats a Unix time as a save id, `YYYYMMDD_HHMMSS` (UTC).
pub fn format_save_id(secs: u64) -> (id: String)
    ensures
        id@ == save_id_text(secs as nat),
{
    let (year, month, day, hours, minutes, seconds) = split_unix_secs(secs);
    let mut s = String::new();
    push_zero_padded(&mut s, year, 4);
    push_zero_padded(&mut s, month, 2);
    push_zero_padded(&mut s, day, 2);
    push_char(&mut s, '_');
    push_zero_padded(&mut s, hours, 2);
    push_zero_padded(&mut s, minutes, 2);
    push_zero_padded(&mut s, seconds, 2);
    assert(s@ =~= save_id_text(secs as nat));
    s
}

/// Appends `YYYY-MM-DDTHH:MM:SSZ` built from the given fields.
pub fn push_iso8601_fields(s: &mut String, f: (u64, u64, u64, u64, u64, u64))
    ensures
        final(s)@ == old(s)@ + zero_padded(f.0 as nat, 4) + seq!['-'] + zero_padded(f.1 as nat, 2)
            + seq!['-'] + zero_padded(f.2 as nat, 2) + seq!['T'] + zero_padded(f.3 as nat, 2)
            + seq![':'] + zero_padded(f.4 as nat, 2) + seq![':'] + zero_padded(f.5 as nat, 2)
            + seq!['Z'],
{
    push_zero_padded(s, f.0, 4);
    push_char(s, '-');
    push_zero_padded(s, f.1, 2);
    push_char(s, '-');
    push_zero_padded(s, f.2, 2);
    push_char(s, 'T');
    push_zero_padded(s, f.3, 2);
    push_char(s, ':');
    push_zero_padded(s, f.4, 2);
    push_char(s, ':');
    push_zero_padded(s, f.5, 2);
    push_char(s, 'Z');
    assert(final(s)@ =~= old(s)@ + zero_padded(f.0 as nat, 4) + seq!['-'] + zero_padded(f.1 as nat, 2)
        + seq!['-'] + zero_padded(f.2 as nat, 2) + seq!['T'] + zero_padded(f.3 as nat, 2)
        + seq![':'] + zero_padded(f.4 as nat, 2) + seq![':'] + zero_padded(f.5 as nat, 2)
        + seq!['Z']);
}

/// Formats a Unix time as `YYYY-MM-DDTHH:MM:SSZ` (UTC).
pub fn format_iso8601(secs: u64) -> (text: String)
    ensures
        text@ == iso8601_text(secs as nat),
{
    let f = split_unix_secs(secs);
    let mut s = String::new();
    push_iso8601_fields(&mut s, f);
    assert(s@ =~= iso8601_text(secs as nat));
    s
}

} // verus!
