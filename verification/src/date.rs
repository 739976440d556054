use vstd::prelude::*;
use vstd::arithmetic::div_mod::{
    lemma_div_is_ordered, lemma_hoist_over_denominator, lemma_mod_multiples_vanish,
};

verus! {

/// Earliest proleptic Gregorian year this library accepts when building a
/// date from year, month and day, in astronomical numbering: year 0 is the
/// year before year 1, and negative years come before it. It matches the
/// lower bound of common calendar libraries, so every date they can
/// represent this library can too.
pub const MIN_YEAR: i32 = -262143;

/// Latest year accepted when building a date from year, month and day.
/// It matches the upper bound of common calendar libraries, so every date
/// this library constructs can also be represented by them.
pub const MAX_YEAR: i32 = 262142;

/// A multiple of 400 large enough to shift any supported year above zero.
/// The Gregorian leap rule repeats every 400 years, so shifting by it
/// changes neither leap-year status nor, by a known offset, the quotients
/// that count leap days.
const YEAR_SHIFT: i32 = 262400;

/// A calendar date in the proleptic Gregorian calendar, stored as the
/// number of days counted from the common era: day 1 is January 1 of
/// year 1, day 719163 is January 1 of 1970. Dates before the common era
/// carry day numbers of zero and below: day 0 is December 31 of year 0.
#[derive(Clone, Copy, Debug, PartialEq, Eq, Structural)]
pub struct Date {
    pub days: i32,
}

/// Whether year `y` is a leap year in the Gregorian calendar.
pub open spec fn is_leap_year(y: int) -> bool {
    (y % 4 == 0 && y % 100 != 0) || y % 400 == 0
}

/// Number of days in month `m` of year `y`.
pub open spec fn days_in_month(y: int, m: int) -> int {
    if m == 2 {
        if is_leap_year(y) {
            29
        } else {
            28
        }
    } else if m == 4 || m == 6 || m == 9 || m == 11 {
        30
    } else {
        31
    }
}

/// Days in the months of year `y` that come before month `m`.
pub open spec fn days_before_month(y: int, m: int) -> int {
    let base: int = if m == 1 {
        0
    } else if m == 2 {
        31
    } else if m == 3 {
        59
    } else if m == 4 {
        90
    } else if m == 5 {
        120
    } else if m == 6 {
        151
    } else if m == 7 {
        181
    } else if m == 8 {
        212
    } else if m == 9 {
        243
    } else if m == 10 {
        273
    } else if m == 11 {
        304
    } else {
        334
    };
    if m > 2 && is_leap_year(y) {
        base + 1
    } else {
        base
    }
}

/// Number of leap years strictly before year `y`, counted from year 1:
/// negative for years of the common era's first year and earlier, where
/// the count runs backwards.
pub open spec fn leap_days_before(y: int) -> int {
    (y - 1) / 4 - (y - 1) / 100 + (y - 1) / 400
}

/// Whether `y`-`m`-`d` names a real calendar date within the supported years.
pub open spec fn valid_ymd(y: int, m: int, d: int) -> bool {
    &&& MIN_YEAR <= y <= MAX_YEAR
    &&& 1 <= m <= 12
    &&& 1 <= d <= days_in_month(y, m)
}

/// The day number (counted from the common era) of the date `y`-`m`-`d`.
pub open spec fn day_number(y: int, m: int, d: int) -> int {
    365 * (y - 1) + leap_days_before(y) + days_before_month(y, m) + d
}

impl Date {
    /// Builds the date for year `y`, month `m` and day `d`, or `None` when
    /// the triple does not name a real date in the supported years.
    pub fn from_ymd(y: i32, m: u32, d: u32) -> (r: Option<Date>)
        ensures
            r is Some <==> valid_ymd(y as int, m as int, d as int),
            r is Some ==> r->0.days == day_number(y as int, m as int, d as int),
    {
        if y < MIN_YEAR || y > MAX_YEAR || m < 1 || m > 12 {
            return None;
        }
        let dim = days_in_month_exec(y, m);
        if d < 1 || d > dim {
            return None;
        }
        let y64: i64 = y as i64;
        // The leap-day count divides `y - 1`, which may be negative, and
        // the division must round downward. Dividing the shifted,
        // non-negative numerator instead and taking each known offset back
        // out computes the same quotients.
        let a: u64 = (y64 - 1 + YEAR_SHIFT as i64) as u64;
        let q4: i64 = (a / 4) as i64 - 65600;
        let q100: i64 = (a / 100) as i64 - 2624;
        let q400: i64 = (a / 400) as i64 - 656;
        let leaps: i64 = q4 - q100 + q400;
        proof {
            assert(a as int == y - 1 + 65600 * 4);
            assert(a as int == y - 1 + 2624 * 100);
            assert(a as int == y - 1 + 656 * 400);
            lemma_hoist_over_denominator(y as int - 1, 65600, 4);
            lemma_hoist_over_denominator(y as int - 1, 2624, 100);
            lemma_hoist_over_denominator(y as int - 1, 656, 400);
            assert(q4 == (y as int - 1) / 4);
            assert(q100 == (y as int - 1) / 100);
            assert(q400 == (y as int - 1) / 400);
            assert(leaps == leap_days_before(y as int));
        }
        let before: i64 = days_before_month_exec(y, m) as i64;
        let total: i64 = 365 * (y64 - 1) + leaps + before + d as i64;
        assert(total == day_number(y as int, m as int, d as int));
        assert(-0x8000_0000 < total < 0x8000_0000) by {
            lemma_day_number_bounds(y as int, m as int, d as int);
        }
        Some(Date { days: total as i32 })
    }
}

/// Bounds of the day number over the supported years.
proof fn lemma_day_number_bounds(y: int, m: int, d: int)
    requires
        valid_ymd(y, m, d),
    ensures
        -0x8000_0000 < day_number(y, m, d) < 0x8000_0000,
{
    lemma_div_is_ordered(MIN_YEAR - 1, y - 1, 4);
    lemma_div_is_ordered(y - 1, MAX_YEAR - 1, 4);
    lemma_div_is_ordered(MIN_YEAR - 1, y - 1, 100);
    lemma_div_is_ordered(y - 1, MAX_YEAR - 1, 100);
    lemma_div_is_ordered(MIN_YEAR - 1, y - 1, 400);
    lemma_div_is_ordered(y - 1, MAX_YEAR - 1, 400);
    assert((MIN_YEAR - 1) / 4 == -65536 && (MAX_YEAR - 1) / 4 == 65535);
    assert((MIN_YEAR - 1) / 100 == -2622 && (MAX_YEAR - 1) / 100 == 2621);
    assert((MIN_YEAR - 1) / 400 == -656 && (MAX_YEAR - 1) / 400 == 655);
    assert(0 <= days_before_month(y, m) <= 335);
    assert(1 <= d <= 31);
}

/// Number of days in month `m` of year `y`.
pub fn days_in_month_exec(y: i32, m: u32) -> (r: u32)
    requires
        MIN_YEAR <= y <= MAX_YEAR,
        1 <= m <= 12,
    ensures
        r == days_in_month(y as int, m as int),
{
    if m == 2 {
        if is_leap_year_exec(y) {
            29
        } else {
            28
        }
    } else if m == 4 || m == 6 || m == 9 || m == 11 {
        30
    } else {
        31
    }
}

/// Whether year `y` is a leap year. The leap rule tests divisibility, so
/// the year is first shifted by a multiple of 4, 100 and 400 to take the
/// remainders of a non-negative number.
pub fn is_leap_year_exec(y: i32) -> (r: bool)
    requires
        MIN_YEAR <= y <= MAX_YEAR,
    ensures
        r == is_leap_year(y as int),
{
    let shifted: u32 = (y + YEAR_SHIFT) as u32;
    proof {
        assert(shifted as int == 4 * 65600 + y);
        assert(shifted as int == 100 * 2624 + y);
        assert(shifted as int == 400 * 656 + y);
        lemma_mod_multiples_vanish(65600, y as int, 4);
        lemma_mod_multiples_vanish(2624, y as int, 100);
        lemma_mod_multiples_vanish(656, y as int, 400);
    }
    (shifted % 4 == 0 && shifted % 100 != 0) || shifted % 400 == 0
}

fn days_before_month_exec(y: i32, m: u32) -> (r: u32)
    requires
        MIN_YEAR <= y <= MAX_YEAR,
        1 <= m <= 12,
    ensures
        r == days_before_month(y as int, m as int),
{
    let base: u32 = if m == 1 {
        0
    } else if m == 2 {
        31
    } else if m == 3 {
        59
    } else if m == 4 {
        90
    } else if m == 5 {
        120
    } else if m == 6 {
        151
    } else if m == 7 {
        181
    } else if m == 8 {
        212
    } else if m == 9 {
        243
    } else if m == 10 {
        273
    } else if m == 11 {
        304
    } else {
        334
    };
    if m > 2 && is_leap_year_exec(y) {
        base + 1
    } else {
        base
    }
}

} // verus!
