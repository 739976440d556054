use vstd::prelude::*;

verus! {

/// The errors the statistics pipeline can report.
///
/// `InvalidDateRange` is fatal to the invocation that received the range:
/// the start of an inclusive date range lay after its end. `InvalidYear`
/// means a year outside the supported calendar was asked for. `Repository`
/// is per-repository and recoverable: the path could not be opened or read
/// as a repository, and the caller may skip it and continue.
#[derive(Debug, Clone)]
pub enum StatsError {
    InvalidDateRange,
    InvalidYear,
    Repository(String),
}

impl StatsError {
    /// A short description of the error, for display by a caller: a fixed
    /// message for each caller-input error, the stored message for a
    /// per-repository one.
    pub fn describe(&self) -> (r: String)
        ensures
            self is Repository ==> r@ == self->0@,
            self is InvalidDateRange ==> r@ == "invalid date range: start is after end"@,
            self is InvalidYear ==> r@ == "year outside the supported calendar"@,
    {
        broadcast use vstd::string::group_string_axioms;

        match self {
            StatsError::InvalidDateRange => "invalid date range: start is after end".to_string(),
            StatsError::InvalidYear => "year outside the supported calendar".to_string(),
            StatsError::Repository(m) => m.clone(),
        }
    }
}

} // verus!
