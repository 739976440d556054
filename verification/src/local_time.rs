use vstd::prelude::*;
use chrono::{Datelike, Timelike};
use crate::date::Date;

verus! {

/// Seconds in one day.
pub const SECS_PER_DAY: u32 = 86400;

/// A wall-clock instant in the observer's local time zone, reduced to what
/// the statistics read from it: the local calendar date (as a day number
/// counted from the common era) and the second of that day.
#[derive(Clone, Copy, Debug, PartialEq, Eq, Structural)]
pub struct LocalTime {
    pub days: i32,
    pub secs_of_day: u32,
}

impl LocalTime {
    /// A local time is well formed when its second lies inside one day.
    pub open spec fn wf(self) -> bool {
        self.secs_of_day < SECS_PER_DAY
    }

    /// The hour of the day, 0 to 23.
    pub open spec fn hour(self) -> int {
        self.secs_of_day as int / 3600
    }

    /// The local calendar date.
    pub open spec fn date(self) -> Date {
        Date { days: self.days }
    }

    /// The hour of the day as an index into a 24-slot histogram.
    pub fn hour_index(&self) -> (h: usize)
        requires
            self.wf(),
        ensures
            h == self.hour(),
            h < 24,
    {
        (self.secs_of_day / 3600) as usize
    }
}

/// Relies on chrono: `DateTime::from_timestamp` turns seconds since the
/// Unix epoch into a UTC instant (`None` when out of chrono's range),
/// `DateTime::with_timezone` looks up the machine's local offset for it,
/// `NaiveDateTime::checked_add_offset` applies that offset fallibly
/// (`None` when the local rendering would leave chrono's range, as it can
/// for instants at the very edge of that range), `Datelike::num_days_from_ce`
/// gives the local date's day number counted from the common era, and
/// `Timelike::num_seconds_from_midnight` gives the second of the local
/// day, which chrono keeps below 86400. The local time zone is the
/// machine's, so nothing more is promised of the value.
#[verifier::external_body]
pub fn local_time_of_timestamp(utc_secs: i64) -> (r: Option<LocalTime>)
    ensures
        r is Some ==> r->0.wf(),
{
    let utc = chrono::DateTime::<chrono::Utc>::from_timestamp(utc_secs, 0)?;
    let local = utc.with_timezone(&chrono::Local);
    let naive = utc.naive_utc().checked_add_offset(*local.offset())?;
    Some(LocalTime {
        days: naive.date().num_days_from_ce(),
        secs_of_day: naive.time().num_seconds_from_midnight(),
    })
}

/// Relies on chrono: `Local::now` reads the clock and `Datelike::year`
/// gives the current local calendar year. The result depends on the clock,
/// so nothing is promised of it. `Local::now` expects the clock to be at
/// or after the Unix epoch and does not return on an earlier one; chrono
/// offers no fallible clock read, and the seconds-to-year arithmetic a
/// fallible read would need belongs to verified code, not to a trusted
/// body.
#[verifier::external_body]
pub fn current_local_year() -> i32 {
    chrono::Local::now().year()
}

} // verus!
