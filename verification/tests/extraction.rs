use git_stats::date::Date;
use git_stats::error::StatsError;
use git_stats::git_parser::{RawCommit, filter_commits, parse_git_logs};
use git_stats::local_time::LocalTime;

fn day(y: i32, m: u32, d: u32) -> i32 {
    Date::from_ymd(y, m, d).unwrap().days
}

fn date(y: i32, m: u32, d: u32) -> Date {
    Date::from_ymd(y, m, d).unwrap()
}

fn raw(id: u8, email: Option<&str>, days: i32, hour: u32, message: &str) -> RawCommit {
    RawCommit {
        id: vec![id; 20],
        author_email: email.map(|e| e.to_string()),
        time: LocalTime { days, secs_of_day: hour * 3600 },
        message: message.to_string(),
    }
}

#[test]
fn filter_keeps_matching_commits_in_order() {
    let d = day(2024, 1, 1);
    let raws = vec![
        raw(1, Some("alice@example.com"), d, 9, "first"),
        raw(2, Some("alice@example.com"), d, 9, "second"),
        raw(3, Some("bob@example.com"), d, 10, "bob"),
        raw(4, Some("alice@example.com"), d, 23, "third"),
    ];
    let out = filter_commits(
        &raws,
        &"alice@example.com".to_string(),
        date(2024, 1, 1),
        date(2024, 12, 31),
    );
    assert_eq!(out.len(), 3);
    assert_eq!(out[0].message, "first");
    assert_eq!(out[1].message, "second");
    assert_eq!(out[2].message, "third");
    for c in &out {
        assert!(c.time.days >= day(2024, 1, 1) && c.time.days <= day(2024, 12, 31));
    }
}

#[test]
fn filter_drops_dates_outside_the_inclusive_range() {
    let email = "alice@example.com".to_string();
    let since = date(2024, 2, 1);
    let until = date(2024, 2, 28);
    let raws = vec![
        raw(1, Some("alice@example.com"), day(2024, 1, 31), 9, "before"),
        raw(2, Some("alice@example.com"), day(2024, 2, 1), 9, "first day"),
        raw(3, Some("alice@example.com"), day(2024, 2, 28), 9, "last day"),
        raw(4, Some("alice@example.com"), day(2024, 2, 29), 9, "after"),
    ];
    let out = filter_commits(&raws, &email, since, until);
    assert_eq!(out.len(), 2);
    assert_eq!(out[0].message, "first day");
    assert_eq!(out[1].message, "last day");
}

#[test]
fn commit_reachable_twice_is_counted_once() {
    let d = day(2024, 3, 3);
    // The same commit identifier arrives twice, as it would when two
    // branches share history; only the first visit is kept.
    let raws = vec![
        raw(7, Some("alice@example.com"), d, 9, "shared"),
        raw(8, Some("alice@example.com"), d, 10, "own"),
        raw(7, Some("alice@example.com"), d, 9, "shared"),
    ];
    let out = filter_commits(
        &raws,
        &"alice@example.com".to_string(),
        date(2024, 1, 1),
        date(2024, 12, 31),
    );
    assert_eq!(out.len(), 2);
    assert_eq!(out[0].message, "shared");
    assert_eq!(out[1].message, "own");
}

#[test]
fn dedup_distinguishes_ids_that_share_a_prefix() {
    let d = day(2024, 3, 3);
    let email = "alice@example.com".to_string();
    // Identifiers that agree on their first eight bytes and differ only in
    // the tail name distinct commits, and a repeat of the first one is
    // still dropped.
    let mut a = raw(9, Some("alice@example.com"), d, 9, "first twin");
    a.id = vec![9, 9, 9, 9, 9, 9, 9, 9, 1];
    let mut b = raw(9, Some("alice@example.com"), d, 10, "second twin");
    b.id = vec![9, 9, 9, 9, 9, 9, 9, 9, 2];
    let mut c = raw(9, Some("alice@example.com"), d, 11, "first again");
    c.id = vec![9, 9, 9, 9, 9, 9, 9, 9, 1];
    let raws = vec![a, b, c];
    let out = filter_commits(&raws, &email, date(2024, 1, 1), date(2024, 12, 31));
    assert_eq!(out.len(), 2);
    assert_eq!(out[0].message, "first twin");
    assert_eq!(out[1].message, "second twin");
}

#[test]
fn dedup_handles_short_identifiers() {
    let d = day(2024, 3, 3);
    let email = "alice@example.com".to_string();
    let mut a = raw(1, Some("alice@example.com"), d, 9, "short");
    a.id = vec![1, 2, 3];
    let mut b = raw(1, Some("alice@example.com"), d, 10, "other short");
    b.id = vec![4, 5, 6];
    let mut c = raw(1, Some("alice@example.com"), d, 11, "short repeat");
    c.id = vec![1, 2, 3];
    let raws = vec![a, b, c];
    let out = filter_commits(&raws, &email, date(2024, 1, 1), date(2024, 12, 31));
    assert_eq!(out.len(), 2);
    assert_eq!(out[0].message, "short");
    assert_eq!(out[1].message, "other short");
}

#[test]
fn error_descriptions_are_fixed_and_distinct() {
    assert_eq!(StatsError::InvalidDateRange.describe(), "invalid date range: start is after end");
    assert_eq!(StatsError::InvalidYear.describe(), "year outside the supported calendar");
    assert_eq!(StatsError::Repository("cannot open".to_string()).describe(), "cannot open");
    assert_ne!(StatsError::InvalidDateRange.describe(), StatsError::InvalidYear.describe());
}

#[test]
fn commit_without_parsable_author_never_matches() {
    let d = day(2024, 3, 3);
    let raws = vec![raw(1, None, d, 9, "anonymous")];
    let out = filter_commits(
        &raws,
        &"alice@example.com".to_string(),
        date(2024, 1, 1),
        date(2024, 12, 31),
    );
    assert_eq!(out.len(), 0);
}

#[test]
fn author_match_is_exact() {
    let d = day(2024, 3, 3);
    let raws = vec![
        raw(1, Some("alice@example.com"), d, 9, "yes"),
        raw(2, Some("Alice@example.com"), d, 9, "case differs"),
        raw(3, Some("alice@example.co"), d, 9, "prefix"),
    ];
    let out = filter_commits(
        &raws,
        &"alice@example.com".to_string(),
        date(2024, 1, 1),
        date(2024, 12, 31),
    );
    assert_eq!(out.len(), 1);
    assert_eq!(out[0].message, "yes");
}

#[test]
fn inverted_range_rejected_before_any_extraction() {
    // The path does not exist: were the repository opened first, the error
    // would name the repository, not the range.
    let r = parse_git_logs(
        "/nonexistent/path/for/this/test",
        &"alice@example.com".to_string(),
        date(2024, 6, 1),
        date(2024, 5, 1),
    );
    assert!(matches!(r, Err(StatsError::InvalidDateRange)));
}

#[test]
fn unreadable_repository_reports_repository_error() {
    let r = parse_git_logs(
        "/nonexistent/path/for/this/test",
        &"alice@example.com".to_string(),
        date(2024, 1, 1),
        date(2024, 12, 31),
    );
    assert!(matches!(r, Err(StatsError::Repository(_))));
}
