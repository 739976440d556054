use vstd::prelude::*;
use crate::date::{Date, MAX_YEAR, MIN_YEAR, day_number, valid_ymd};
use crate::error::StatsError;
use crate::local_time::current_local_year;

verus! {

/// The run's arguments: the author's e-mail to filter commits by, the
/// directory to scan for repositories, and the calendar year to analyze
/// (the current year when absent).
#[derive(Debug, Clone)]
pub struct CliArgs {
    pub email: String,
    pub path: String,
    pub year: Option<i32>,
}

impl CliArgs {
    /// The inclusive date range to analyze: January 1 to December 31 of
    /// the requested year, or of the current local year when none was
    /// requested. Fails exactly when the year lies outside the supported
    /// calendar.
    pub fn get_date_range(&self) -> (r: Result<(Date, Date), StatsError>)
        ensures
            r matches Ok(p) ==> p.0.days <= p.1.days,
            r matches Ok(p) ==> exists|y: int|
                {
                    &&& #[trigger] valid_ymd(y, 1, 1)
                    &&& p.0.days == day_number(y, 1, 1)
                    &&& p.1.days == day_number(y, 12, 31)
                },
            self.year matches Some(y) ==> {
                &&& (r is Ok <==> MIN_YEAR <= y <= MAX_YEAR)
                &&& (r matches Ok(p) ==> p.0.days == day_number(y as int, 1, 1) && p.1.days
                    == day_number(y as int, 12, 31))
            },
            r is Err ==> r->Err_0 is InvalidYear,
    {
        let y: i32 = match self.year {
            Some(y) => y,
            None => current_local_year(),
        };
        let since = Date::from_ymd(y, 1, 1);
        let until = Date::from_ymd(y, 12, 31);
        match (since, until) {
            (Some(s), Some(u)) => {
                assert(s.days <= u.days);
                Ok((s, u))
            },
            _ => Err(StatsError::InvalidYear),
        }
    }
}

} // verus!
