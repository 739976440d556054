use vstd::prelude::*;
use crate::date::Date;
use crate::day_map::{DayMap, entries_total, entry_weight, lookup, lemma_lookup_absent};
use crate::error::StatsError;
use crate::sums::{sum_by, lemma_sum_by_concat, lemma_sum_by_le, lemma_sum_by_nonneg};

verus! {

/// Weeks in the contribution grid. The grid always spans 53 weeks of 7
/// days, 371 consecutive calendar days, whatever the active range is, so a
/// renderer can rely on a constant shape.
pub const WEEKS_IN_GRID: usize = 53;

/// Days in one week of the grid.
pub const DAYS_IN_WEEK: usize = 7;

/// One cell of the contribution calendar: a concrete calendar date and the
/// number of commits counted for it (0 outside the active range).
#[derive(Clone, Copy, Debug, PartialEq, Eq, Structural)]
pub struct ContributionDay {
    pub date: Date,
    pub contribution_count: usize,
}

/// One column of the grid: seven consecutive days.
#[derive(Debug, Clone)]
pub struct Week {
    pub contribution_days: Vec<ContributionDay>,
}

/// The full contribution calendar: 53 weeks of 7 days each, and the total
/// of all cell counts.
#[derive(Debug, Clone)]
pub struct ContributionCalendar {
    pub weeks: Vec<Week>,
    pub total_contributions: usize,
}

/// The count a grid cell shows for the `k`-th day after `since`: the
/// recorded count while the day is still within `[since, until]`, 0 after.
pub open spec fn cell_value(s: Seq<(i32, usize)>, since: int, until: int, k: int) -> int {
    if since + k <= until {
        lookup(s, (since + k) as i32)
    } else {
        0
    }
}

/// The sum of the first `n` grid cells.
pub open spec fn window_sum(s: Seq<(i32, usize)>, since: int, until: int, n: int) -> int
    decreases n,
{
    if n <= 0 {
        0
    } else {
        window_sum(s, since, until, n - 1) + cell_value(s, since, until, n - 1)
    }
}

/// The sum of the recorded counts for the `n` days starting at `since`.
pub open spec fn range_lookup_sum(s: Seq<(i32, usize)>, since: int, n: int) -> int
    decreases n,
{
    if n <= 0 {
        0
    } else {
        range_lookup_sum(s, since, n - 1) + lookup(s, (since + n - 1) as i32)
    }
}

/// The sum of the entries of `s` whose day lies in `[lo, hi]`.
pub open spec fn restricted_sum(s: Seq<(i32, usize)>, lo: int, hi: int) -> int {
    sum_by(s, range_weight(lo, hi))
}

/// The weight an entry contributes to a restricted sum.
pub open spec fn range_weight(lo: int, hi: int) -> spec_fn((i32, usize)) -> int {
    |e: (i32, usize)| if lo <= e.0 <= hi { e.1 as int } else { 0 }
}

impl ContributionCalendar {
    /// The grid has exactly 53 weeks of exactly 7 days.
    pub open spec fn grid_shape(self) -> bool {
        &&& self.weeks@.len() == 53
        &&& forall|w: int|
            0 <= w < 53 ==> (#[trigger] self.weeks@[w]).contribution_days@.len() == 7
    }

    /// The cell in week `w` at weekday `d`.
    pub open spec fn cell(self, w: int, d: int) -> ContributionDay {
        self.weeks@[w].contribution_days@[d]
    }
}

/// Builds the contribution calendar for the inclusive range
/// `[since, until]` from the per-day commit counts: 53 weeks of 7 days,
/// where week `w`, day `d` carries the date `since + 7*w + d` and shows
/// that day's recorded count while the date is within the range, 0 after
/// its end. Fails exactly when the range is inverted.
pub fn create_contribution_calendar(per_day: &DayMap, since: Date, until: Date) -> (r: Result<
    ContributionCalendar,
    StatsError,
>)
    requires
        per_day.wf(),
        entries_total(per_day.entries_seq()) <= usize::MAX,
        since.days + 371 <= i32::MAX,
    ensures
        r is Err <==> since.days > until.days,
        r is Err ==> r->Err_0 is InvalidDateRange,
        r matches Ok(cal) ==> {
            &&& cal.grid_shape()
            &&& forall|w: int, d: int|
                0 <= w < 53 && 0 <= d < 7 ==> (#[trigger] cal.cell(w, d)).date.days == since.days
                    + 7 * w + d
            &&& forall|w: int, d: int|
                0 <= w < 53 && 0 <= d < 7 ==> (#[trigger] cal.cell(w, d)).contribution_count
                    == cell_value(
                    per_day.entries_seq(),
                    since.days as int,
                    until.days as int,
                    7 * w + d,
                )
            &&& cal.total_contributions == window_sum(
                per_day.entries_seq(),
                since.days as int,
                until.days as int,
                371,
            )
        },
{
    if since.days > until.days {
        return Err(StatsError::InvalidDateRange);
    }
    let ghost entries = per_day.entries_seq();
    let ghost since_d = since.days as int;
    let ghost until_d = until.days as int;
    let mut weeks: Vec<Week> = Vec::new();
    let mut total: usize = 0;
    let mut day: i32 = since.days;
    let mut w: usize = 0;
    while w < 53
        invariant
            per_day.wf(),
            entries == per_day.entries_seq(),
            since_d == since.days as int,
            until_d == until.days as int,
            entries_total(entries) <= usize::MAX,
            since.days + 371 <= i32::MAX,
            since.days <= until.days,
            w <= 53,
            weeks@.len() == w,
            day == since.days + 7 * w,
            total == window_sum(entries, since_d, until_d, 7 * w as int),
            forall|w2: int|
                0 <= w2 < w ==> (#[trigger] weeks@[w2]).contribution_days@.len() == 7,
            forall|w2: int, d2: int|
                0 <= w2 < w && 0 <= d2 < 7 ==> (#[trigger] weeks@[w2].contribution_days@[d2]).date.days
                    == since.days + 7 * w2 + d2,
            forall|w2: int, d2: int|
                0 <= w2 < w && 0 <= d2 < 7 ==> (
                #[trigger] weeks@[w2].contribution_days@[d2]).contribution_count == cell_value(
                    entries,
                    since_d,
                    until_d,
                    7 * w2 + d2,
                ),
        decreases 53 - w,
    {
        let mut days: Vec<ContributionDay> = Vec::new();
        let mut d: usize = 0;
        while d < 7
            invariant
                per_day.wf(),
                entries == per_day.entries_seq(),
                since_d == since.days as int,
                until_d == until.days as int,
                entries_total(entries) <= usize::MAX,
                since.days + 371 <= i32::MAX,
                since.days <= until.days,
                w < 53,
                d <= 7,
                days@.len() == d,
                day == since.days + 7 * w + d,
                total == window_sum(entries, since_d, until_d, 7 * w + d as int),
                forall|d2: int|
                    0 <= d2 < d ==> (#[trigger] days@[d2]).date.days == since.days + 7 * w + d2,
                forall|d2: int|
                    0 <= d2 < d ==> (#[trigger] days@[d2]).contribution_count == cell_value(
                        entries,
                        since_d,
                        until_d,
                        7 * w + d2,
                    ),
            decreases 7 - d,
        {
            let count: usize = if day <= until.days {
                per_day.get(day)
            } else {
                0
            };
            assert(count == cell_value(entries, since_d, until_d, 7 * w + d as int));
            proof {
                lemma_window_sum_le_total(entries, since_d, until_d, 7 * w + d as int + 1);
                lemma_window_sum_nonneg(entries, since_d, until_d, 7 * w + d as int);
            }
            total = total + count;
            days.push(ContributionDay { date: Date { days: day }, contribution_count: count });
            assert(day <= since.days + 370);
            day = day + 1;
            d = d + 1;
        }
        weeks.push(Week { contribution_days: days });
        w = w + 1;
    }
    Ok(ContributionCalendar { weeks, total_contributions: total })
}

/// Every cell value is non-negative, so window sums are non-negative.
proof fn lemma_window_sum_nonneg(s: Seq<(i32, usize)>, since: int, until: int, n: int)
    ensures
        window_sum(s, since, until, n) >= 0,
    decreases n,
{
    if n > 0 {
        lemma_window_sum_nonneg(s, since, until, n - 1);
        lemma_lookup_nonneg(s, (since + n - 1) as i32);
    }
}

/// Recorded counts are non-negative.
proof fn lemma_lookup_nonneg(s: Seq<(i32, usize)>, d: i32)
    ensures
        lookup(s, d) >= 0,
    decreases s.len(),
{
    if s.len() > 0 && s[0].0 != d {
        lemma_lookup_nonneg(s.drop_first(), d);
    }
}

/// A window sum never exceeds the sum of the per-day counts it reads.
proof fn lemma_window_le_range(s: Seq<(i32, usize)>, since: int, until: int, n: int)
    ensures
        window_sum(s, since, until, n) <= range_lookup_sum(s, since, n),
    decreases n,
{
    if n > 0 {
        lemma_window_le_range(s, since, until, n - 1);
        lemma_lookup_nonneg(s, (since + n - 1) as i32);
    }
}

/// With unique keys, summing the recorded count of `n` consecutive days
/// starting at `since` reads each entry at most once: the sum equals the
/// sum of the entries whose day lies in `[since, since + n - 1]`.
pub proof fn lemma_range_lookup_sum_is_restricted(s: Seq<(i32, usize)>, since: int, n: int)
    requires
        forall|i: int, j: int|
            0 <= i < j < s.len() ==> (#[trigger] s[i]).0 != (#[trigger] s[j]).0,
        i32::MIN <= since,
        since + n <= i32::MAX + 1,
    ensures
        range_lookup_sum(s, since, n) == restricted_sum(s, since, since + n - 1),
    decreases s.len(),
{
    if s.len() == 0 {
        lemma_range_lookup_sum_empty(s, since, n);
        assert(restricted_sum(s, since, since + n - 1) == 0);
    } else {
        let e = s[0];
        let rest = s.drop_first();
        assert(forall|i: int, j: int|
            0 <= i < j < rest.len() ==> (#[trigger] rest[i]).0 != (#[trigger] rest[j]).0) by {
            assert(forall|i: int| 0 <= i < rest.len() ==> rest[i] == s[i + 1]);
        }
        assert(forall|i: int| 0 <= i < rest.len() ==> (#[trigger] rest[i]).0 != e.0) by {
            assert(forall|i: int| 0 <= i < rest.len() ==> rest[i] == s[i + 1]);
        }
        lemma_lookup_absent(rest, e.0);
        lemma_range_lookup_drop_first(s, since, n);
        lemma_range_lookup_sum_is_restricted(rest, since, n);
        assert(s =~= seq![e] + rest);
        lemma_sum_by_concat(seq![e], rest, range_weight(since, since + n - 1));
        assert(seq![e].drop_last() =~= Seq::<(i32, usize)>::empty());
        assert(seq![e].last() == e);
        assert(sum_by(seq![e], range_weight(since, since + n - 1)) == sum_by(
            Seq::<(i32, usize)>::empty(),
            range_weight(since, since + n - 1),
        ) + range_weight(since, since + n - 1)(e));
    }
}

/// The range sum over an empty entry list is 0.
proof fn lemma_range_lookup_sum_empty(s: Seq<(i32, usize)>, since: int, n: int)
    requires
        s.len() == 0,
    ensures
        range_lookup_sum(s, since, n) == 0,
    decreases n,
{
    if n > 0 {
        lemma_range_lookup_sum_empty(s, since, n - 1);
    }
}

/// Dropping the first entry takes its count out of the range sum exactly
/// when its day lies within the `n` summed days — provided no later entry
/// shares its day.
proof fn lemma_range_lookup_drop_first(s: Seq<(i32, usize)>, since: int, n: int)
    requires
        s.len() > 0,
        forall|i: int| 0 <= i < s.drop_first().len() ==> (#[trigger] s.drop_first()[i]).0 != s[0].0,
        i32::MIN <= since,
        since + n <= i32::MAX + 1,
    ensures
        range_lookup_sum(s, since, n) == range_lookup_sum(s.drop_first(), since, n) + (if since
            <= s[0].0 < since + n {
            s[0].1 as int
        } else {
            0
        }),
    decreases n,
{
    if n > 0 {
        lemma_range_lookup_drop_first(s, since, n - 1);
        let d = (since + n - 1) as i32;
        if s[0].0 == d {
            lemma_lookup_absent(s.drop_first(), d);
            assert(lookup(s, d) == s[0].1 as int);
        } else {
            assert(lookup(s, d) == lookup(s.drop_first(), d));
        }
    }
}

/// A window sum never exceeds the total of all recorded counts.
pub proof fn lemma_window_sum_le_total(s: Seq<(i32, usize)>, since: int, until: int, n: int)
    requires
        forall|i: int, j: int|
            0 <= i < j < s.len() ==> (#[trigger] s[i]).0 != (#[trigger] s[j]).0,
        i32::MIN <= since,
        since + n <= i32::MAX + 1,
        n >= 0,
    ensures
        window_sum(s, since, until, n) <= entries_total(s),
{
    lemma_window_le_range(s, since, until, n);
    lemma_range_lookup_sum_is_restricted(s, since, n);
    assert(forall|k: int|
        0 <= k < s.len() ==> range_weight(since, since + n - 1)(#[trigger] s[k]) <= entry_weight()(
            s[k],
        ));
    lemma_sum_by_le(s, range_weight(since, since + n - 1), entry_weight());
}

/// The projection drops nothing and counts nothing twice: the sum of all
/// cell counts of a calendar built for `[since, until]` — every cell
/// outside the range shows 0 — equals the sum of the per-day counts
/// restricted to `[since, until]`, whenever the range fits inside the
/// 371-day grid.
pub proof fn lemma_grid_preserves_range_total(s: Seq<(i32, usize)>, since: int, until: int)
    requires
        forall|i: int, j: int|
            0 <= i < j < s.len() ==> (#[trigger] s[i]).0 != (#[trigger] s[j]).0,
        i32::MIN <= since <= until,
        until - since < 371,
        since + 371 <= i32::MAX + 1,
    ensures
        window_sum(s, since, until, 371) == restricted_sum(s, since, until),
{
    let m = until - since + 1;
    lemma_window_eq_range_within(s, since, until, 371);
    lemma_range_lookup_sum_is_restricted(s, since, m);
}

/// Once the window extends past `until`, the extra cells all show 0: the
/// window sum equals the range sum over the days up to `until`.
proof fn lemma_window_eq_range_within(s: Seq<(i32, usize)>, since: int, until: int, n: int)
    requires
        since <= until,
    ensures
        window_sum(s, since, until, n) == range_lookup_sum(
            s,
            since,
            if n <= until - since + 1 {
                n
            } else {
                until - since + 1
            },
        ),
    decreases n,
{
    if n > 0 {
        lemma_window_eq_range_within(s, since, until, n - 1);
    }
}

} // verus!
