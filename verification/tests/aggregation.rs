use git_stats::analyzer::{AnalysisResult, RepoData, aggregate, analyze};
use git_stats::date::Date;
use git_stats::git_parser::CommitInfo;
use git_stats::local_time::LocalTime;

fn day(y: i32, m: u32, d: u32) -> i32 {
    Date::from_ymd(y, m, d).unwrap().days
}

fn commit(days: i32, hour: u32, message: &str) -> CommitInfo {
    CommitInfo { time: LocalTime { days, secs_of_day: hour * 3600 + 60 }, message: message.to_string() }
}

fn repo(path: &str, commits: Vec<CommitInfo>, languages: Vec<(String, usize)>) -> RepoData {
    RepoData { path: path.to_string(), commits, languages }
}

fn alice_repo() -> RepoData {
    let d = day(2024, 1, 1);
    repo(
        "repo_a",
        vec![commit(d, 9, "one"), commit(d, 9, "two"), commit(d, 23, "three")],
        vec![],
    )
}

#[test]
fn scenario_three_commits_one_day() {
    let d = day(2024, 1, 1);
    let result = aggregate(&vec![alice_repo()]);
    assert_eq!(result.total_commits, 3);
    assert_eq!(result.commits_per_hour.len(), 24);
    assert_eq!(result.commits_per_hour[9], 2);
    assert_eq!(result.commits_per_hour[23], 1);
    for (h, c) in result.commits_per_hour.iter().enumerate() {
        if h != 9 && h != 23 {
            assert_eq!(*c, 0);
        }
    }
    assert_eq!(result.commits_per_day.get(d), 3);
    assert_eq!(result.commits_per_day.entries.len(), 1);
    assert_eq!(result.per_repo.len(), 1);
    assert_eq!(result.per_repo[0].name, "repo_a");
    assert_eq!(result.per_repo[0].commit_count, 3);
}

#[test]
fn total_is_sum_of_lengths() {
    let d = day(2024, 5, 5);
    let data = vec![
        repo("a", vec![commit(d, 1, "x")], vec![]),
        repo("b", vec![], vec![]),
        repo("c", vec![commit(d, 2, "y"), commit(d + 1, 3, "z")], vec![]),
    ];
    let result = aggregate(&data);
    assert_eq!(result.total_commits, 3);
    assert_eq!(result.per_repo.len(), 3);
}

#[test]
fn language_lines_merge_additively() {
    let data = vec![
        repo("a", vec![], vec![("Go".to_string(), 100)]),
        repo("b", vec![], vec![("Go".to_string(), 100)]),
    ];
    let result = aggregate(&data);
    assert_eq!(result.languages.len(), 1);
    assert_eq!(result.languages[0].name, "Go");
    assert_eq!(result.languages[0].lines, 200);
}

#[test]
fn languages_sorted_descending() {
    let data = vec![repo(
        "a",
        vec![],
        vec![("Rust".to_string(), 10), ("Go".to_string(), 100), ("C".to_string(), 50)],
    )];
    let result = aggregate(&data);
    let lines: Vec<usize> = result.languages.iter().map(|l| l.lines).collect();
    assert_eq!(lines, vec![100, 50, 10]);
    assert_eq!(result.languages[0].name, "Go");
}

#[test]
fn repos_ranked_by_commit_count() {
    let d = day(2024, 5, 5);
    let data = vec![
        repo("small", vec![commit(d, 1, "a")], vec![]),
        repo("big", vec![commit(d, 1, "b"), commit(d, 2, "c"), commit(d, 3, "d")], vec![]),
        repo("mid", vec![commit(d, 1, "e"), commit(d, 2, "f")], vec![]),
    ];
    let result = aggregate(&data);
    let names: Vec<&str> = result.per_repo.iter().map(|r| r.name.as_str()).collect();
    assert_eq!(names, vec!["big", "mid", "small"]);
}

fn summary(r: &AnalysisResult) -> (usize, Vec<usize>, Vec<(i32, usize)>, Vec<(String, usize)>) {
    let mut days: Vec<(i32, usize)> = (0..r.commits_per_day.entries.len())
        .map(|i| r.commits_per_day.entries[i])
        .collect();
    days.sort();
    let mut langs: Vec<(String, usize)> =
        r.languages.iter().map(|l| (l.name.clone(), l.lines)).collect();
    langs.sort();
    (r.total_commits, r.commits_per_hour.clone(), days, langs)
}

#[test]
fn aggregation_is_order_independent() {
    let d1 = day(2024, 2, 2);
    let d2 = day(2024, 7, 9);
    let a = repo(
        "a",
        vec![commit(d1, 4, "w"), commit(d2, 22, "x")],
        vec![("Rust".to_string(), 30), ("Go".to_string(), 1)],
    );
    let b = repo("b", vec![commit(d1, 4, "y")], vec![("Go".to_string(), 9)]);
    let c = repo("c", vec![commit(d2, 0, "z")], vec![]);
    let forward = aggregate(&vec![a.clone(), b.clone(), c.clone()]);
    let backward = aggregate(&vec![c, b, a]);
    assert_eq!(summary(&forward), summary(&backward));
}

#[test]
fn analyze_matches_aggregate_and_filters_empty_languages() {
    let d = day(2024, 3, 3);
    let pairs = vec![
        ("a".to_string(), vec![commit(d, 9, "m")]),
        ("b".to_string(), vec![commit(d, 9, "n"), commit(d, 10, "o")]),
    ];
    let langs = vec![
        vec![("Rust".to_string(), 12), ("Text".to_string(), 0)],
        vec![("Rust".to_string(), 8)],
    ];
    let result = analyze(pairs, langs).unwrap();
    assert_eq!(result.total_commits, 3);
    assert_eq!(result.commits_per_hour[9], 2);
    assert_eq!(result.commits_per_hour[10], 1);
    assert_eq!(result.commits_per_day.get(d), 3);
    assert_eq!(result.languages.len(), 1);
    assert_eq!(result.languages[0].name, "Rust");
    assert_eq!(result.languages[0].lines, 20);
    let names: Vec<&str> = result.per_repo.iter().map(|r| r.name.as_str()).collect();
    assert_eq!(names, vec!["b", "a"]);
}

#[test]
fn zero_commit_repo_appears_with_count_zero() {
    let data = vec![repo("empty", vec![], vec![])];
    let result = aggregate(&data);
    assert_eq!(result.total_commits, 0);
    assert_eq!(result.per_repo.len(), 1);
    assert_eq!(result.per_repo[0].commit_count, 0);
    assert_eq!(result.commits_per_day.entries.len(), 0);
}

#[test]
fn empty_input_gives_empty_result() {
    let result = aggregate(&vec![]);
    assert_eq!(result.total_commits, 0);
    assert!(result.per_repo.is_empty());
    assert_eq!(result.commits_per_hour, vec![0; 24]);
    assert_eq!(result.commits_per_day.entries.len(), 0);
    assert!(result.languages.is_empty());
}

#[test]
fn commits_on_adjacent_days_get_separate_entries() {
    let d = day(2024, 8, 1);
    let data = vec![repo(
        "a",
        vec![commit(d, 5, "x"), commit(d + 1, 5, "y"), commit(d, 6, "z")],
        vec![],
    )];
    let result = aggregate(&data);
    assert_eq!(result.commits_per_day.get(d), 2);
    assert_eq!(result.commits_per_day.get(d + 1), 1);
    assert_eq!(result.commits_per_day.get(d + 2), 0);
    assert_eq!(result.commits_per_day.entries.len(), 2);
    assert_eq!(result.commits_per_hour[5], 2);
    assert_eq!(result.commits_per_hour[6], 1);
}

#[test]
fn midnight_and_last_second_bucket_correctly() {
    let d = day(2024, 8, 1);
    let first = CommitInfo { time: LocalTime { days: d, secs_of_day: 0 }, message: String::new() };
    let last =
        CommitInfo { time: LocalTime { days: d, secs_of_day: 86399 }, message: String::new() };
    let data = vec![repo("a", vec![first, last], vec![])];
    let result = aggregate(&data);
    assert_eq!(result.commits_per_hour[0], 1);
    assert_eq!(result.commits_per_hour[23], 1);
}
