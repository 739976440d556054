use git_stats::contribution_calendar::create_contribution_calendar;
use git_stats::date::Date;
use git_stats::day_map::DayMap;
use git_stats::error::StatsError;

fn day(y: i32, m: u32, d: u32) -> Date {
    Date::from_ymd(y, m, d).unwrap()
}

#[test]
fn single_day_grid() {
    let start = day(2024, 1, 1);
    let end = day(2024, 12, 31);
    let mut map = DayMap::new();
    map.add(start.days, 5);
    let cal = create_contribution_calendar(&map, start, end).unwrap();
    assert_eq!(cal.weeks.len(), 53);
    for week in &cal.weeks {
        assert_eq!(week.contribution_days.len(), 7);
    }
    assert_eq!(cal.weeks[0].contribution_days[0].contribution_count, 5);
    assert_eq!(cal.weeks[0].contribution_days[0].date, start);
    let mut zeros: usize = 0;
    for (w, week) in cal.weeks.iter().enumerate() {
        for (d, cell) in week.contribution_days.iter().enumerate() {
            assert_eq!(cell.date.days, start.days + (7 * w + d) as i32);
            if w != 0 || d != 0 {
                assert_eq!(cell.contribution_count, 0);
                zeros += 1;
            }
        }
    }
    assert_eq!(zeros, 370);
    assert_eq!(cal.total_contributions, 5);
}

#[test]
fn grid_shape_is_constant_for_short_ranges() {
    let start = day(2024, 6, 1);
    let end = day(2024, 6, 3);
    let map = DayMap::new();
    let cal = create_contribution_calendar(&map, start, end).unwrap();
    assert_eq!(cal.weeks.len(), 53);
    for week in &cal.weeks {
        assert_eq!(week.contribution_days.len(), 7);
    }
    assert_eq!(cal.total_contributions, 0);
}

#[test]
fn inverted_range_is_rejected() {
    let start = day(2024, 6, 1);
    let end = day(2024, 5, 1);
    let map = DayMap::new();
    let r = create_contribution_calendar(&map, start, end);
    assert!(matches!(r, Err(StatsError::InvalidDateRange)));
}

#[test]
fn cells_after_the_range_end_show_zero() {
    let start = day(2024, 1, 1);
    let end = day(2024, 1, 2);
    let mut map = DayMap::new();
    map.add(start.days, 2);
    map.add(start.days + 1, 3);
    // This entry lies after the range end, so no cell shows it.
    map.add(start.days + 2, 9);
    let cal = create_contribution_calendar(&map, start, end).unwrap();
    assert_eq!(cal.weeks[0].contribution_days[0].contribution_count, 2);
    assert_eq!(cal.weeks[0].contribution_days[1].contribution_count, 3);
    assert_eq!(cal.weeks[0].contribution_days[2].contribution_count, 0);
    assert_eq!(cal.total_contributions, 5);
}

#[test]
fn grid_total_matches_range_restricted_map_total() {
    let start = day(2024, 3, 1);
    let end = day(2024, 5, 31);
    let mut map = DayMap::new();
    // Inside the range.
    map.add(day(2024, 3, 1).days, 4);
    map.add(day(2024, 4, 15).days, 7);
    map.add(day(2024, 5, 31).days, 1);
    // Outside the range: before the start and after the end.
    map.add(day(2024, 2, 29).days, 100);
    map.add(day(2024, 6, 1).days, 50);
    let cal = create_contribution_calendar(&map, start, end).unwrap();
    let mut in_range_cells = 0usize;
    for week in &cal.weeks {
        for cell in &week.contribution_days {
            if cell.date.days >= start.days && cell.date.days <= end.days {
                in_range_cells += cell.contribution_count;
            }
        }
    }
    let mut restricted = 0usize;
    for i in 0..map.entry_count() {
        let (d, c) = map.entry_at(i);
        if d >= start.days && d <= end.days {
            restricted += c;
        }
    }
    assert_eq!(in_range_cells, restricted);
    assert_eq!(in_range_cells, 12);
    assert_eq!(cal.total_contributions, 12);
}

#[test]
fn one_day_range_keeps_only_its_cell_active() {
    let start = day(2024, 2, 29);
    let mut map = DayMap::new();
    map.add(start.days, 7);
    map.add(start.days + 1, 3);
    let cal = create_contribution_calendar(&map, start, start).unwrap();
    assert_eq!(cal.weeks[0].contribution_days[0].contribution_count, 7);
    assert_eq!(cal.weeks[0].contribution_days[1].contribution_count, 0);
    assert_eq!(cal.total_contributions, 7);
}

#[test]
fn adding_twice_accumulates_per_day() {
    let d = day(2024, 4, 4);
    let mut map = DayMap::new();
    map.add(d.days, 2);
    map.add(d.days, 3);
    assert_eq!(map.get(d.days), 5);
    assert_eq!(map.entry_count(), 1);
}
