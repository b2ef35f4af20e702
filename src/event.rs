//! Error reports as the aggregation sees them.
use vstd::prelude::*;

use crate::day::{secs_in_range, utc_day_of};
use crate::detector::Detector;

verus! {

/// One error report: its class, what detected it, and its time of day,
/// whose first element is the event time in seconds since the epoch.
pub struct Ereport {
    pub class: String,
    pub detector: Detector,
    pub tod: Vec<i64>,
}

/// Why an error report cannot be placed on a calendar day.
#[derive(Debug, PartialEq, Eq, Structural, Clone, Copy)]
pub enum TimeError {
    /// The time-of-day list is empty.
    Missing,
    /// The event time is too far from the epoch.
    OutOfRange,
}

/// Whether the report carries an event time that has a day.
pub open spec fn time_ok(e: Ereport) -> bool {
    e.tod@.len() > 0 && secs_in_range(e.tod@[0] as int)
}

/// The error for a report whose time is not usable.
pub open spec fn time_error(e: Ereport) -> TimeError {
    if e.tod@.len() == 0 {
        TimeError::Missing
    } else {
        TimeError::OutOfRange
    }
}

/// The UTC day of the report's event time.
pub open spec fn day_of_event(e: Ereport) -> Seq<char> {
    utc_day_of(e.tod@[0] as int)
}

/// The classes of a run of reports, one per report.
pub open spec fn class_log(evs: Seq<Ereport>) -> Seq<Seq<char>> {
    evs.map_values(|e: Ereport| e.class@)
}

/// The days of a run of reports, one per report.
pub open spec fn day_log(evs: Seq<Ereport>) -> Seq<Seq<char>> {
    evs.map_values(|e: Ereport| day_of_event(e))
}

pub proof fn lemma_logs_push(evs: Seq<Ereport>, e: Ereport)
    ensures
        class_log(evs.push(e)) == class_log(evs).push(e.class@),
        day_log(evs.push(e)) == day_log(evs).push(day_of_event(e)),
{
    assert(class_log(evs.push(e)) =~= class_log(evs).push(e.class@));
    assert(day_log(evs.push(e)) =~= day_log(evs).push(day_of_event(e)));
}

/// The UTC day of a report, or the reason it has none.
pub fn ereport_day(e: &Ereport) -> (r: Result<String, TimeError>)
    ensures
        r is Ok <==> time_ok(*e),
        r matches Ok(d) ==> d@ == day_of_event(*e),
        r matches Err(err) ==> err == time_error(*e),
{
    if e.tod.len() == 0 {
        return Err(TimeError::Missing);
    }
    match crate::day::event_day(e.tod[0]) {
        Some(d) => Ok(d),
        None => Err(TimeError::OutOfRange),
    }
}

} // verus!
