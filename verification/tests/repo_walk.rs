use git2::{Repository, Signature, Time};
use git_stats::cli::CliArgs;
use git_stats::date::Date;
use git_stats::git_parser::parse_git_logs;

fn date(y: i32, m: u32, d: u32) -> Date {
    Date::from_ymd(y, m, d).unwrap()
}

fn unique_path(tag: &str) -> String {
    let nanos = std::time::SystemTime::now()
        .duration_since(std::time::UNIX_EPOCH)
        .unwrap()
        .as_nanos();
    format!("/tmp/git_stats_test_{tag}_{nanos}")
}

// Seconds since the Unix epoch for 2024-06-15 12:00:00 UTC: mid-year and
// midday, so the local calendar date lies in 2024 in every time zone.
const MID_2024: i64 = 1718452800;

fn commit(
    repo: &Repository,
    reference: &str,
    name: &str,
    email: &str,
    when: i64,
    message: &str,
    parents: &[&git2::Commit],
) -> git2::Oid {
    let sig = Signature::new(name, email, &Time::new(when, 0)).unwrap();
    let tree_id = repo.index().unwrap().write_tree().unwrap();
    let tree = repo.find_tree(tree_id).unwrap();
    repo.commit(Some(reference), &sig, &sig, message, &tree, parents).unwrap()
}

#[test]
fn commits_shared_by_two_branches_count_once() {
    let path = unique_path("dedup");
    let repo = Repository::init(&path).unwrap();
    let alice = "alice@example.com";
    let c1 = commit(&repo, "HEAD", "alice", alice, MID_2024, "base", &[]);
    let base = repo.find_commit(c1).unwrap();
    let _c2 = commit(&repo, "HEAD", "alice", alice, MID_2024 + 3600, "main work", &[&base]);
    repo.branch("feature", &base, true).unwrap();
    let _c3 = commit(
        &repo,
        "refs/heads/feature",
        "alice",
        alice,
        MID_2024 + 7200,
        "feature work",
        &[&base],
    );
    // Both branches reach the base commit; it must appear exactly once.
    let out = parse_git_logs(&path, &alice.to_string(), date(2020, 1, 1), date(2030, 12, 31))
        .unwrap();
    assert_eq!(out.len(), 3);
    let base_msgs = out.iter().filter(|c| c.message == "base").count();
    assert_eq!(base_msgs, 1);
}

#[test]
fn author_filter_is_applied() {
    let path = unique_path("author");
    let repo = Repository::init(&path).unwrap();
    let c1 = commit(&repo, "HEAD", "alice", "alice@example.com", MID_2024, "a1", &[]);
    let base = repo.find_commit(c1).unwrap();
    let _c2 = commit(&repo, "HEAD", "bob", "bob@example.com", MID_2024 + 60, "b1", &[&base]);
    let out = parse_git_logs(
        &path,
        &"alice@example.com".to_string(),
        date(2020, 1, 1),
        date(2030, 12, 31),
    )
    .unwrap();
    assert_eq!(out.len(), 1);
    assert_eq!(out[0].message, "a1");
    let out_bob = parse_git_logs(
        &path,
        &"bob@example.com".to_string(),
        date(2020, 1, 1),
        date(2030, 12, 31),
    )
    .unwrap();
    assert_eq!(out_bob.len(), 1);
    assert_eq!(out_bob[0].message, "b1");
}

#[test]
fn commits_ordered_newest_first() {
    let path = unique_path("order");
    let repo = Repository::init(&path).unwrap();
    let alice = "alice@example.com";
    let c1 = commit(&repo, "HEAD", "alice", alice, MID_2024, "oldest", &[]);
    let base = repo.find_commit(c1).unwrap();
    let c2 = commit(&repo, "HEAD", "alice", alice, MID_2024 + 3600, "middle", &[&base]);
    let mid = repo.find_commit(c2).unwrap();
    let _c3 = commit(&repo, "HEAD", "alice", alice, MID_2024 + 7200, "newest", &[&mid]);
    let out = parse_git_logs(&path, &alice.to_string(), date(2020, 1, 1), date(2030, 12, 31))
        .unwrap();
    assert_eq!(out.len(), 3);
    assert_eq!(out[0].message, "newest");
    assert_eq!(out[1].message, "middle");
    assert_eq!(out[2].message, "oldest");
    assert!(out[0].time.secs_of_day < 86400);
}

#[test]
fn records_carry_the_authored_time() {
    let path = unique_path("authored");
    let repo = Repository::init(&path).unwrap();
    let alice = "alice@example.com";
    let author = Signature::new("alice", alice, &Time::new(MID_2024, 0)).unwrap();
    // Committed ten days after it was authored, as after a rebase.
    let committer =
        Signature::new("alice", alice, &Time::new(MID_2024 + 10 * 86400, 0)).unwrap();
    let tree_id = repo.index().unwrap().write_tree().unwrap();
    let tree = repo.find_tree(tree_id).unwrap();
    repo.commit(Some("HEAD"), &author, &committer, "rebased", &tree, &[]).unwrap();
    let out = parse_git_logs(&path, &alice.to_string(), date(2020, 1, 1), date(2030, 12, 31))
        .unwrap();
    assert_eq!(out.len(), 1);
    // The record shows the authored day (within a zone's reach of it), not
    // the committed day ten days later.
    assert!(out[0].time.days >= date(2024, 6, 14).days);
    assert!(out[0].time.days <= date(2024, 6, 16).days);
}

#[test]
fn freshly_initialized_repository_yields_empty_list() {
    let path = unique_path("empty");
    Repository::init(&path).unwrap();
    let out = parse_git_logs(
        &path,
        &"alice@example.com".to_string(),
        date(2020, 1, 1),
        date(2030, 12, 31),
    )
    .unwrap();
    assert_eq!(out.len(), 0);
}

#[test]
fn language_counter_reports_only_positive_lines() {
    let path = unique_path("langs");
    Repository::init(&path).unwrap();
    // A fresh repository holds no source files outside its ignored
    // metadata, so nothing negative or zero-lined may be reported.
    let langs = git_stats::analyzer::analyze_languages(&path);
    for (_, lines) in &langs {
        assert!(*lines >= 1);
    }
}

#[test]
fn date_range_for_requested_year() {
    let args = CliArgs { email: "a@b".to_string(), path: ".".to_string(), year: Some(2024) };
    let (since, until) = args.get_date_range().unwrap();
    assert_eq!(since, date(2024, 1, 1));
    assert_eq!(until, date(2024, 12, 31));
    assert!(since.days <= until.days);
}

#[test]
fn unsupported_year_is_rejected() {
    let args = CliArgs { email: "a@b".to_string(), path: ".".to_string(), year: Some(300000) };
    assert!(matches!(args.get_date_range(), Err(git_stats::error::StatsError::InvalidYear)));
    let args = CliArgs { email: "a@b".to_string(), path: ".".to_string(), year: Some(-262144) };
    assert!(matches!(args.get_date_range(), Err(git_stats::error::StatsError::InvalidYear)));
}

#[test]
fn years_before_the_common_era_are_supported() {
    // Year 0 (astronomical numbering) and the earliest supported year give
    // the same full-year range that a calendar library computes for them.
    for y in [0, -1, -262143] {
        let args = CliArgs { email: "a@b".to_string(), path: ".".to_string(), year: Some(y) };
        let (since, until) = args.get_date_range().unwrap();
        assert_eq!(since, date(y, 1, 1));
        assert_eq!(until, date(y, 12, 31));
        assert!(since.days <= until.days);
    }
}

#[test]
fn date_range_defaults_to_current_year() {
    let args = CliArgs { email: "a@b".to_string(), path: ".".to_string(), year: None };
    let (since, until) = args.get_date_range().unwrap();
    // A year is 365 or 366 days long.
    let len = until.days - since.days + 1;
    assert!(len == 365 || len == 366);
}
