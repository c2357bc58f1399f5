//! Days of the calendar. The calendar itself is that of the `chrono` crate.
use crate::document::Date;
use vstd::prelude::*;

verus! {

/// The year, the month and the day of the instant `secs` seconds after the
/// start of 1970, in universal time, or `None` where the calendar does not
/// reach that instant.
pub uninterp spec fn utc_date(secs: i64) -> Option<(i32, u32, u32)>;

/// Asks `chrono::DateTime::from_timestamp` for the instant `secs` seconds
/// after the start of 1970 and reads its date in universal time.
#[verifier::external_body]
pub(crate) fn date_of_timestamp(secs: i64) -> (r: Option<(i32, u32, u32)>)
    ensures
        r == utc_date(secs),
{
    chrono::DateTime::from_timestamp(secs, 0).map(
        |t| {
            let d = t.date_naive();
            (chrono::Datelike::year(&d), chrono::Datelike::month(&d), chrono::Datelike::day(&d))
        },
    )
}

/// The day that the parts `ymd` name.
pub open spec fn date_of(ymd: Option<(i32, u32, u32)>) -> Option<Date> {
    match ymd {
        Some((year, month, day)) => Some(Date { year, month, day }),
        None => None,
    }
}

impl Date {
    /// The day, in universal time, of the instant `secs` seconds after the
    /// start of 1970.
    pub fn from_timestamp(secs: i64) -> (r: Option<Date>)
        ensures
            r == date_of(utc_date(secs)),
    {
        Self::from_parts(date_of_timestamp(secs))
    }

    /// The day that the parts `ymd` name.
    pub fn from_parts(ymd: Option<(i32, u32, u32)>) -> (r: Option<Date>)
        ensures
            r == date_of(ymd),
    {
        match ymd {
            Some((year, month, day)) => Some(Date { year, month, day }),
            None => None,
        }
    }
}

} // verus!
