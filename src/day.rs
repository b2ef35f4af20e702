//! Calendar days (UTC) of event times.
use vstd::prelude::*;

verus! {

/// The earliest event time, in seconds since the epoch, that has a day:
/// midnight UTC on January 1 of year -262143.
pub const MIN_DAY_SECS: i64 = -8334601228800;

/// The latest event time, in seconds since the epoch, that has a day:
/// the last second of December 31 of year 262142.
pub const MAX_DAY_SECS: i64 = 8210266876799;

/// The `YYYY-MM-DD` string of the UTC calendar day that holds `secs`
/// seconds after the Unix epoch.
pub uninterp spec fn utc_day_of(secs: int) -> Seq<char>;

/// Whether an event time falls on a representable calendar day.
pub open spec fn secs_in_range(secs: int) -> bool {
    MIN_DAY_SECS <= secs <= MAX_DAY_SECS
}

/// Relies on chrono's `DateTime::<Utc>::from_timestamp`, which gives `Some`
/// exactly for times whose date falls in years -262143..=262142, and on its
/// `%Y-%m-%d` formatting, which depends on the time alone.
#[verifier::external_body]
fn format_utc_day(secs: i64) -> (r: Option<String>)
    ensures
        r is Some <==> secs_in_range(secs as int),
        r matches Some(d) ==> d@ == utc_day_of(secs as int),
{
    match chrono::DateTime::from_timestamp(secs, 0) {
        Some(t) => Some(t.format("%Y-%m-%d").to_string()),
        None => None,
    }
}

/// The UTC day of an event time, or `None` for a time outside the calendar.
pub fn event_day(secs: i64) -> (r: Option<String>)
    ensures
        r is Some <==> secs_in_range(secs as int),
        r matches Some(d) ==> d@ == utc_day_of(secs as int),
{
    format_utc_day(secs)
}

} // verus!
