//! The clock and the local calendar, as the system and chrono report them.
//!
//! What these calls return depends on the moment and on the machine's time
//! zone, so their contracts only state what holds of every answer; the
//! functions that format dates take the answers as arguments.

use vstd::prelude::*;

use chrono::{Datelike, TimeZone, Timelike};

verus! {

/// A local calendar date and wall-clock time.
#[derive(Debug, Clone, Copy, PartialEq, Eq, Structural)]
pub struct LocalDateTime {
    pub year: i32,
    /// 1 to 12.
    pub month: u32,
    /// 1 to 31.
    pub day: u32,
    /// 0 to 23.
    pub hour: u32,
    /// 0 to 59.
    pub minute: u32,
    /// 0 for Monday to 6 for Sunday.
    pub weekday: u32,
    /// Days since the start of the common era, 1 January of year 1 being
    /// day 1: consecutive dates have consecutive numbers.
    pub day_number: i32,
}

impl LocalDateTime {
    /// The ranges chrono documents for each field.
    pub open spec fn wf(self) -> bool {
        &&& 1 <= self.month <= 12
        &&& 1 <= self.day <= 31
        &&& self.hour < 24
        &&& self.minute < 60
        &&& self.weekday < 7
    }

    /// The same calendar date.
    pub open spec fn same_date(self, other: Self) -> bool {
        self.year == other.year && self.month == other.month && self.day == other.day
    }
}

#[verifier::external_type_specification]
#[verifier::external_body]
pub struct ExSystemTime(std::time::SystemTime);

/// `SystemTime::now`: the current wall-clock time.
#[verifier::external_body]
pub(crate) fn system_now() -> std::time::SystemTime {
    std::time::SystemTime::now()
}

/// `SystemTime::duration_since(UNIX_EPOCH)`, `None` for a time before 1970.
#[verifier::external_body]
pub(crate) fn since_epoch(t: &std::time::SystemTime) -> Option<std::time::Duration> {
    t.duration_since(std::time::UNIX_EPOCH).ok()
}

/// `Duration::as_secs`: the whole seconds of a duration.
#[verifier::external_body]
pub(crate) fn whole_secs(d: &std::time::Duration) -> u64 {
    d.as_secs()
}

/// The last second of 9999-12-31 UTC, the last time with a four-digit year.
pub const LAST_FOUR_DIGIT_YEAR_SECOND: i64 = 253402300799;

/// chrono's `Local.timestamp_opt(secs, 0).single()`, read as calendar
/// fields: the local date and time of a Unix time. `timestamp_opt` gives
/// `None` only for seconds outside chrono's range, and `Local` converts a
/// UTC time to exactly one local time, so for the times from 1970 through
/// the year 9999 a date always comes back. Which date it is depends on the
/// machine's time zone; only the documented ranges of its fields are stated.
#[verifier::external_body]
pub(crate) fn local_date_time(secs: i64) -> (r: Option<LocalDateTime>)
    ensures
        r matches Some(t) ==> t.wf(),
        0 <= secs <= LAST_FOUR_DIGIT_YEAR_SECOND ==> r is Some,
{
    chrono::Local.timestamp_opt(secs, 0).single().map(|dt| LocalDateTime {
        year: dt.year(),
        month: dt.month(),
        day: dt.day(),
        hour: dt.hour(),
        minute: dt.minute(),
        weekday: dt.weekday().num_days_from_monday(),
        day_number: dt.num_days_from_ce(),
    })
}

/// chrono's `Local::now()`, read as calendar fields. Only the documented
/// ranges of the fields are stated.
#[verifier::external_body]
pub(crate) fn local_now() -> (r: LocalDateTime)
    ensures
        r.wf(),
{
    let dt = chrono::Local::now();
    LocalDateTime {
        year: dt.year(),
        month: dt.month(),
        day: dt.day(),
        hour: dt.hour(),
        minute: dt.minute(),
        weekday: dt.weekday().num_days_from_monday(),
        day_number: dt.num_days_from_ce(),
    }
}

} // verus!
