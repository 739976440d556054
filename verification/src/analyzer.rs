use vstd::prelude::*;
use crate::day_map::{DayMap, entries_total, has_key};
use crate::git_parser::CommitInfo;
use crate::sorting::{
    Ranked, insert_desc, lemma_insert_desc_split, lemma_sort_desc_multiset, lemma_sort_desc_sorted,
    sort_desc, sorted_desc,
};
use crate::sums::{
    lemma_sum_by_concat, lemma_sum_by_element_le, lemma_sum_by_le, lemma_sum_by_nonneg,
    lemma_sum_by_one, lemma_sum_by_permutation, lemma_sum_by_singleton, lemma_sum_by_pointwise, lemma_sum_by_prefix_le,
    lemma_sum_by_take_all, lemma_sum_by_take_step, lemma_sum_by_update, one_weight, sum_by,
};

verus! {

/// One repository's ranking entry: its display name and how many of its
/// commits were retained.
#[derive(Debug, Clone)]
pub struct RepoStat {
    pub name: String,
    pub commit_count: usize,
}

/// One language's merged line count across all repositories.
#[derive(Debug, Clone)]
pub struct LanguageStat {
    pub name: String,
    pub lines: usize,
}

/// Everything the aggregation consumes for one repository: its path, the
/// commits the extractor retained, and the (language, line count) pairs
/// the external line counter reported for it.
#[derive(Debug, Clone)]
pub struct RepoData {
    pub path: String,
    pub commits: Vec<CommitInfo>,
    pub languages: Vec<(String, usize)>,
}

/// The global statistics over all repositories.
#[derive(Debug, Clone)]
pub struct AnalysisResult {
    pub total_commits: usize,
    pub per_repo: Vec<RepoStat>,
    pub commits_per_hour: Vec<usize>,
    pub commits_per_day: DayMap,
    pub languages: Vec<LanguageStat>,
}

// The weights that define the statistics: every global figure is the sum
// of a per-element weight, so folding repositories in any order merges to
// the same value.
/// The number of commits a repository contributes.
pub open spec fn len_weight() -> spec_fn(RepoData) -> int {
    |rd: RepoData| rd.commits@.len() as int
}

/// The total number of retained commits.
pub open spec fn sum_lens(s: Seq<RepoData>) -> int {
    sum_by(s, len_weight())
}

/// Whether a commit falls in hour `h` of the day.
pub open spec fn hour_weight(h: int) -> spec_fn(CommitInfo) -> int {
    |c: CommitInfo| if c.time.hour() == h {
        1int
    } else {
        0int
    }
}

/// How many of `cs` fall in hour `h`.
pub open spec fn count_hour_commits(cs: Seq<CommitInfo>, h: int) -> int {
    sum_by(cs, hour_weight(h))
}

/// How many commits of a repository fall in hour `h`.
pub open spec fn repo_hour_weight(h: int) -> spec_fn(RepoData) -> int {
    |rd: RepoData| count_hour_commits(rd.commits@, h)
}

/// How many commits, over all repositories, fall in hour `h`.
pub open spec fn count_hour(s: Seq<RepoData>, h: int) -> int {
    sum_by(s, repo_hour_weight(h))
}

/// Whether a commit falls on day `d`.
pub open spec fn date_weight(d: i32) -> spec_fn(CommitInfo) -> int {
    |c: CommitInfo| if c.time.days == d {
        1int
    } else {
        0int
    }
}

/// How many of `cs` fall on day `d`.
pub open spec fn count_date_commits(cs: Seq<CommitInfo>, d: i32) -> int {
    sum_by(cs, date_weight(d))
}

/// How many commits of a repository fall on day `d`.
pub open spec fn repo_date_weight(d: i32) -> spec_fn(RepoData) -> int {
    |rd: RepoData| count_date_commits(rd.commits@, d)
}

/// How many commits, over all repositories, fall on day `d`.
pub open spec fn count_date(s: Seq<RepoData>, d: i32) -> int {
    sum_by(s, repo_date_weight(d))
}

/// The lines a (language, lines) pair contributes to language `name`.
pub open spec fn lang_weight(name: Seq<char>) -> spec_fn((String, usize)) -> int {
    |p: (String, usize)| if p.0@ == name {
        p.1 as int
    } else {
        0int
    }
}

/// The lines reported for language `name` among `pairs`.
pub open spec fn lang_lines(pairs: Seq<(String, usize)>, name: Seq<char>) -> int {
    sum_by(pairs, lang_weight(name))
}

/// The lines a repository contributes to language `name`.
pub open spec fn repo_lang_weight(name: Seq<char>) -> spec_fn(RepoData) -> int {
    |rd: RepoData| lang_lines(rd.languages@, name)
}

/// The merged line count of language `name` over all repositories.
pub open spec fn lang_total(s: Seq<RepoData>, name: Seq<char>) -> int {
    sum_by(s, repo_lang_weight(name))
}

/// The lines a (language, lines) pair contributes in all.
pub open spec fn line_weight() -> spec_fn((String, usize)) -> int {
    |p: (String, usize)| p.1 as int
}

/// The lines a repository reports in all.
pub open spec fn repo_line_weight() -> spec_fn(RepoData) -> int {
    |rd: RepoData| sum_by(rd.languages@, line_weight())
}

/// All reported lines, over all repositories and languages.
pub open spec fn sum_all_lines(s: Seq<RepoData>) -> int {
    sum_by(s, repo_line_weight())
}

/// Every commit of every repository is well formed.
pub open spec fn data_wf(s: Seq<RepoData>) -> bool {
    forall|i: int, j: int|
        0 <= i < s.len() && 0 <= j < (#[trigger] s[i]).commits@.len() ==> (
        #[trigger] s[i].commits@[j]).wf()
}

/// A ranking entry's abstract view.
pub open spec fn repo_stat_view(r: RepoStat) -> Ranked {
    (r.name@, r.commit_count as int)
}

/// The ranking's abstract view.
pub open spec fn repo_stats_view(s: Seq<RepoStat>) -> Seq<Ranked> {
    s.map_values(|r: RepoStat| repo_stat_view(r))
}

/// A language entry's abstract view.
pub open spec fn lang_stat_view(l: LanguageStat) -> Ranked {
    (l.name@, l.lines as int)
}

/// The language ranking's abstract view.
pub open spec fn lang_stats_view(s: Seq<LanguageStat>) -> Seq<Ranked> {
    s.map_values(|l: LanguageStat| lang_stat_view(l))
}

/// The unsorted ranking: one entry per repository, in input order, with
/// its path as name and its retained commit count.
pub open spec fn raw_repo_stats(s: Seq<RepoData>) -> Seq<Ranked> {
    s.map_values(|rd: RepoData| (rd.path@, rd.commits@.len() as int))
}

/// Merges one reported (language, lines) pair into the ranking being
/// built: adds the lines to the entry with the same name, or appends a
/// new entry at the end.
pub open spec fn add_lang(s: Seq<Ranked>, name: Seq<char>, lines: int) -> Seq<Ranked>
    decreases s.len(),
{
    if s.len() == 0 {
        seq![(name, lines)]
    } else if s[0].0 == name {
        seq![(s[0].0, s[0].1 + lines)] + s.drop_first()
    } else {
        seq![s[0]] + add_lang(s.drop_first(), name, lines)
    }
}

/// Merges a repository's reported pairs, in order, into the ranking.
pub open spec fn merge_langs(acc: Seq<Ranked>, pairs: Seq<(String, usize)>) -> Seq<Ranked>
    decreases pairs.len(),
{
    if pairs.len() == 0 {
        acc
    } else {
        merge_langs(add_lang(acc, pairs[0].0@, pairs[0].1 as int), pairs.drop_first())
    }
}

/// The language ranking before sorting: all repositories' pairs merged in
/// input order, additively, keyed by exact name.
pub open spec fn merged_langs(s: Seq<RepoData>) -> Seq<Ranked>
    decreases s.len(),
{
    if s.len() == 0 {
        Seq::empty()
    } else {
        merge_langs(merged_langs(s.drop_last()), s.last().languages@)
    }
}

/// The sum of the counts of a ranking's entries.
pub open spec fn entries_lines(s: Seq<Ranked>) -> int {
    sum_by(s, rank_weight())
}

/// The count a ranking entry carries.
pub open spec fn rank_weight() -> spec_fn(Ranked) -> int {
    |r: Ranked| r.1
}

/// Merging a pair moves its lines into the ranking's total.
proof fn lemma_add_lang_lines(s: Seq<Ranked>, name: Seq<char>, lines: int)
    ensures
        entries_lines(add_lang(s, name, lines)) == entries_lines(s) + lines,
    decreases s.len(),
{
    if s.len() == 0 {
        assert(add_lang(s, name, lines) =~= seq![(name, lines)]);
        lemma_sum_by_singleton((name, lines), rank_weight());
        assert(entries_lines(s) == 0);
    } else if s[0].0 == name {
        let r = seq![(s[0].0, s[0].1 + lines)] + s.drop_first();
        assert(r =~= s.update(0, (s[0].0, s[0].1 + lines)));
        lemma_sum_by_update(s, rank_weight(), 0, (s[0].0, s[0].1 + lines));
    } else {
        lemma_add_lang_lines(s.drop_first(), name, lines);
        lemma_sum_by_concat(seq![s[0]], add_lang(s.drop_first(), name, lines), rank_weight());
        lemma_sum_by_concat(seq![s[0]], s.drop_first(), rank_weight());
        assert(seq![s[0]] + s.drop_first() =~= s);
        assert(add_lang(s, name, lines) == seq![s[0]] + add_lang(s.drop_first(), name, lines));
    }
}

/// Where the merge lands when the name is already listed: the entry with
/// the first matching name takes the lines.
proof fn lemma_add_lang_found(s: Seq<Ranked>, name: Seq<char>, lines: int, k: int)
    requires
        0 <= k < s.len(),
        s[k].0 == name,
        forall|i: int| 0 <= i < k ==> (#[trigger] s[i]).0 != name,
    ensures
        add_lang(s, name, lines) == s.update(k, (s[k].0, s[k].1 + lines)),
    decreases k,
{
    if k == 0 {
        assert(add_lang(s, name, lines) =~= s.update(0, (s[0].0, s[0].1 + lines)));
    } else {
        lemma_add_lang_found(s.drop_first(), name, lines, k - 1);
        assert(seq![s[0]] + s.drop_first().update(k - 1, (s[k].0, s[k].1 + lines)) =~= s.update(
            k,
            (s[k].0, s[k].1 + lines),
        ));
    }
}

/// Where the merge lands when the name is new: a fresh entry at the end.
proof fn lemma_add_lang_absent(s: Seq<Ranked>, name: Seq<char>, lines: int)
    requires
        forall|i: int| 0 <= i < s.len() ==> (#[trigger] s[i]).0 != name,
    ensures
        add_lang(s, name, lines) == s.push((name, lines)),
    decreases s.len(),
{
    if s.len() == 0 {
        assert(add_lang(s, name, lines) =~= s.push((name, lines)));
    } else {
        lemma_add_lang_absent(s.drop_first(), name, lines);
        assert(seq![s[0]] + s.drop_first().push((name, lines)) =~= s.push((name, lines)));
    }
}

/// Relies on tokei: `Languages::new`, `Config::default` and
/// `Languages::get_statistics` scan the file tree under `path` and count
/// source lines per language; iterating the result gives each detected
/// language with `Language::lines`, its total line count. What comes back
/// depends on the disk, so nothing is promised of it.
#[verifier::external_body]
fn count_languages(path: &String) -> Vec<(String, usize)> {
    let mut languages = tokei::Languages::new();
    let config = tokei::Config::default();
    languages.get_statistics(&[std::path::Path::new(path.as_str())], &[], &config);
    languages.into_iter().map(|(lang, stats)| (lang.name().to_string(), stats.lines())).collect()
}

/// Asks the external line counter for the languages under `path` and
/// keeps those that report at least one line. The counts themselves come
/// from the counter and depend on the disk, so only their positivity is
/// promised.
pub fn analyze_languages(path: &String) -> (r: Vec<(String, usize)>)
    ensures
        forall|k: int| 0 <= k < r@.len() ==> (#[trigger] r@[k]).1 >= 1,
{
    broadcast use vstd::seq_lib::group_filter_ensures;

    let reported = count_languages(path);
    let r = keep_positive(reported);
    proof {
        let pred = |p: (String, usize)| p.1 > 0;
        assert forall|k: int| 0 <= k < r@.len() implies (#[trigger] r@[k]).1 >= 1 by {
            assert(r@[k] == reported@.filter(pred)[k]);
            assert(pred(reported@.filter(pred)[k]));
        }
    }
    r
}

/// Keeps the (language, lines) pairs that report at least one line.
fn keep_positive(pairs: Vec<(String, usize)>) -> (out: Vec<(String, usize)>)
    ensures
        out@ == pairs@.filter(|p: (String, usize)| p.1 > 0),
{
    broadcast use vstd::seq_lib::group_filter_ensures;

    let n = pairs.len();
    let mut out: Vec<(String, usize)> = Vec::new();
    let mut i: usize = 0;
    proof {
        reveal(Seq::filter);
        assert(pairs@.take(0) =~= Seq::<(String, usize)>::empty());
        assert(Seq::<(String, usize)>::empty().filter(|p: (String, usize)| p.1 > 0)
            =~= Seq::<(String, usize)>::empty());
    }
    let mut rest = pairs;
    while i < n
        invariant
            i <= n,
            n == rest@.len() + i,
            out@ == pairs_prefix_filter(pairs@, i as int),
            rest@ =~= pairs@.skip(i as int),
            pairs@.len() == n,
        decreases n - i,
    {
        let p = rest.remove(0);
        assert(p == pairs@[i as int]);
        if p.1 > 0 {
            out.push(p);
        }
        proof {
            reveal(Seq::filter);
            let tk = pairs@.take(i as int + 1);
            assert(tk =~= pairs@.take(i as int).push(pairs@[i as int]));
            assert(tk.drop_last() =~= pairs@.take(i as int));
            assert(tk.last() == pairs@[i as int]);
            assert(rest@ =~= pairs@.skip(i as int + 1));
        }
        i = i + 1;
    }
    proof {
        assert(pairs@.take(n as int) =~= pairs@);
    }
    out
}

/// The filtered prefix: what `keep_positive` has kept after `i` pairs.
pub open spec fn pairs_prefix_filter(s: Seq<(String, usize)>, i: int) -> Seq<(String, usize)> {
    s.take(i).filter(|p: (String, usize)| p.1 > 0)
}

/// The index of the first language entry named `name`, if any.
fn find_lang_index(langs: &Vec<LanguageStat>, name: &String) -> (r: Option<usize>)
    ensures
        match r {
            Some(k) => k < langs@.len() && langs@[k as int].name@ == name@ && forall|i: int|
                0 <= i < k ==> (#[trigger] langs@[i]).name@ != name@,
            None => forall|i: int| 0 <= i < langs@.len() ==> (#[trigger] langs@[i]).name@ != name@,
        },
{
    let n = langs.len();
    let mut k: usize = 0;
    while k < n
        invariant
            k <= n,
            n == langs@.len(),
            forall|i: int| 0 <= i < k ==> (#[trigger] langs@[i]).name@ != name@,
        decreases n - k,
    {
        if langs[k].name == *name {
            return Some(k);
        }
        k = k + 1;
    }
    None
}

/// Merges one repository's reported pairs into the language ranking:
/// lines add up per exact name, in first-appearance order.
fn merge_repo_langs(langs: &mut Vec<LanguageStat>, pairs: &Vec<(String, usize)>)
    requires
        entries_lines(lang_stats_view(old(langs)@)) + sum_by(pairs@, line_weight()) <= usize::MAX,
    ensures
        lang_stats_view(final(langs)@) == merge_langs(lang_stats_view(old(langs)@), pairs@),
        entries_lines(lang_stats_view(final(langs)@)) == entries_lines(
            lang_stats_view(old(langs)@),
        ) + sum_by(pairs@, line_weight()),
{
    let n = pairs.len();
    let mut j: usize = 0;
    proof {
        assert(pairs@.skip(0) =~= pairs@);
        lemma_merge_langs_lines(lang_stats_view(langs@), pairs@);
    }
    while j < n
        invariant
            j <= n,
            n == pairs@.len(),
            merge_langs(lang_stats_view(old(langs)@), pairs@) == merge_langs(
                lang_stats_view(langs@),
                pairs@.skip(j as int),
            ),
            entries_lines(lang_stats_view(langs@)) == entries_lines(lang_stats_view(old(langs)@))
                + sum_by(pairs@.take(j as int), line_weight()),
            entries_lines(lang_stats_view(langs@)) + sum_by(pairs@.skip(j as int), line_weight())
                <= usize::MAX,
            forall|i: int| 0 <= i < pairs@.len() ==> line_weight()(#[trigger] pairs@[i]) >= 0,
        decreases n - j,
    {
        let ghost pre = lang_stats_view(langs@);
        let ghost restj = pairs@.skip(j as int);
        proof {
            assert(restj[0] == pairs@[j as int]);
            assert(restj.drop_first() =~= pairs@.skip(j as int + 1));
            assert(restj =~= seq![restj[0]] + restj.drop_first());
            lemma_sum_by_concat(seq![restj[0]], restj.drop_first(), line_weight());
            lemma_sum_by_singleton(restj[0], line_weight());
            lemma_sum_by_nonneg(restj.drop_first(), line_weight());
            assert(forall|k: int|
                0 <= k < pre.len() ==> (#[trigger] pre[k]).1 >= 0) by {
                assert(forall|k: int|
                    0 <= k < langs@.len() ==> pre[k] == lang_stat_view(langs@[k]));
            }
            lemma_sum_by_take_step(pairs@, line_weight(), j as int);
        }
        let name = &pairs[j].0;
        let lines = pairs[j].1;
        match find_lang_index(langs, name) {
            Some(k) => {
                proof {
                    assert(pre[k as int] == lang_stat_view(langs@[k as int]));
                    lemma_sum_by_element_le(pre, rank_weight(), k as int);
                    lemma_add_lang_found(pre, name@, lines as int, k as int);
                    lemma_add_lang_lines(pre, name@, lines as int);
                }
                let new_lines = langs[k].lines + lines;
                let new_name = langs[k].name.clone();
                langs[k] = LanguageStat { name: new_name, lines: new_lines };
                proof {
                    assert(lang_stats_view(langs@) =~= add_lang(pre, name@, lines as int));
                }
            },
            None => {
                proof {
                    lemma_add_lang_absent(pre, name@, lines as int);
                    lemma_add_lang_lines(pre, name@, lines as int);
                }
                langs.push(LanguageStat { name: name.clone(), lines });
                proof {
                    assert(lang_stats_view(langs@) =~= add_lang(pre, name@, lines as int));
                }
            },
        }
        j = j + 1;
    }
    proof {
        assert(pairs@.skip(n as int) =~= Seq::<(String, usize)>::empty());
        assert(pairs@.take(n as int) =~= pairs@);
    }
}

/// Counts one repository's commits into the hourly histogram and the
/// per-day mapping.
fn tally_commits(hist: &mut Vec<usize>, day_map: &mut DayMap, commits: &Vec<CommitInfo>)
    requires
        old(hist)@.len() == 24,
        old(day_map).wf(),
        forall|j: int| 0 <= j < commits@.len() ==> (#[trigger] commits@[j]).wf(),
        forall|h: int|
            0 <= h < 24 ==> old(hist)@[h] + count_hour_commits(commits@, h) <= usize::MAX,
        forall|d: i32| old(day_map).count_of(d) + count_date_commits(commits@, d) <= usize::MAX,
    ensures
        final(hist)@.len() == 24,
        forall|h: int|
            0 <= h < 24 ==> final(hist)@[h] == old(hist)@[h] + count_hour_commits(commits@, h),
        final(day_map).wf(),
        forall|d: i32|
            final(day_map).count_of(d) == old(day_map).count_of(d) + count_date_commits(
                commits@,
                d,
            ),
        forall|d: i32|
            has_key(final(day_map).entries_seq(), d) == (has_key(old(day_map).entries_seq(), d)
                || count_date_commits(commits@, d) > 0),
        entries_total(final(day_map).entries_seq()) == entries_total(old(day_map).entries_seq())
            + commits@.len(),
{
    let n = commits.len();
    let mut j: usize = 0;
    while j < n
        invariant
            j <= n,
            n == commits@.len(),
            hist@.len() == 24,
            day_map.wf(),
            forall|k: int| 0 <= k < commits@.len() ==> (#[trigger] commits@[k]).wf(),
            forall|h: int|
                0 <= h < 24 ==> hist@[h] == old(hist)@[h] + count_hour_commits(
                    commits@.take(j as int),
                    h,
                ),
            forall|d: i32|
                day_map.count_of(d) == old(day_map).count_of(d) + count_date_commits(
                    commits@.take(j as int),
                    d,
                ),
            forall|d: i32|
                has_key(day_map.entries_seq(), d) == (has_key(old(day_map).entries_seq(), d)
                    || count_date_commits(commits@.take(j as int), d) > 0),
            entries_total(day_map.entries_seq()) == entries_total(old(day_map).entries_seq())
                + j,
            forall|h: int|
                0 <= h < 24 ==> old(hist)@[h] + count_hour_commits(commits@, h) <= usize::MAX,
            forall|d: i32|
                old(day_map).count_of(d) + count_date_commits(commits@, d) <= usize::MAX,
        decreases n - j,
    {
        let c = &commits[j];
        let h = c.time.hour_index();
        proof {
            assert forall|h2: int| 0 <= h2 < 24 implies count_hour_commits(
                commits@.take(j as int + 1),
                h2,
            ) == count_hour_commits(commits@.take(j as int), h2) + hour_weight(h2)(
                commits@[j as int],
            ) by {
                lemma_sum_by_take_step(commits@, hour_weight(h2), j as int);
            }
            assert forall|d2: i32| count_date_commits(commits@.take(j as int + 1), d2)
                == count_date_commits(commits@.take(j as int), d2) + date_weight(d2)(
                commits@[j as int],
            ) by {
                lemma_sum_by_take_step(commits@, date_weight(d2), j as int);
            }
            assert forall|h2: int| 0 <= h2 < 24 implies count_hour_commits(
                commits@.take(j as int + 1),
                h2,
            ) <= count_hour_commits(commits@, h2) by {
                assert(forall|k: int|
                    0 <= k < commits@.len() ==> hour_weight(h2)(#[trigger] commits@[k]) >= 0);
                lemma_sum_by_prefix_le(commits@, hour_weight(h2), j as int + 1);
            }
            assert forall|d2: i32| count_date_commits(commits@.take(j as int + 1), d2)
                <= count_date_commits(commits@, d2) by {
                assert(forall|k: int|
                    0 <= k < commits@.len() ==> date_weight(d2)(#[trigger] commits@[k]) >= 0);
                lemma_sum_by_prefix_le(commits@, date_weight(d2), j as int + 1);
            }
            assert forall|d2: i32| count_date_commits(commits@.take(j as int), d2) >= 0 by {
                assert(forall|k: int|
                    0 <= k < commits@.take(j as int).len() ==> date_weight(d2)(
                        #[trigger] commits@.take(j as int)[k],
                    ) >= 0);
                lemma_sum_by_nonneg(commits@.take(j as int), date_weight(d2));
            }
        }
        proof {
            let cj = commits@[j as int];
            assert(hour_weight(h as int)(cj) == 1);
            assert(count_hour_commits(commits@.take(j as int + 1), h as int)
                == count_hour_commits(commits@.take(j as int), h as int) + 1);
            assert(hist@[h as int] + 1 == old(hist)@[h as int] + count_hour_commits(
                commits@.take(j as int + 1),
                h as int,
            ));
            assert(old(hist)@[h as int] + count_hour_commits(commits@, h as int) <= usize::MAX);
            let dj = cj.time.days;
            assert(date_weight(dj)(cj) == 1);
            assert(day_map.count_of(dj) + 1 == old(day_map).count_of(dj) + count_date_commits(
                commits@.take(j as int + 1),
                dj,
            ));
            assert(old(day_map).count_of(dj) + count_date_commits(commits@, dj) <= usize::MAX);
        }
        let cur = hist[h];
        hist[h] = cur + 1;
        day_map.add(c.time.days, 1);
        j = j + 1;
    }
    proof {
        assert(commits@.take(n as int) =~= commits@);
    }
}

/// The position where a count of `c` goes in the descending ranking: the
/// index of the first entry with a strictly smaller count.
fn find_insert_pos_repo(out: &Vec<RepoStat>, c: usize) -> (j: usize)
    ensures
        j <= out@.len(),
        forall|k: int| 0 <= k < j ==> (#[trigger] out@[k]).commit_count >= c,
        j < out@.len() ==> out@[j as int].commit_count < c,
{
    let n = out.len();
    let mut j: usize = 0;
    while j < n
        invariant
            j <= n,
            n == out@.len(),
            forall|k: int| 0 <= k < j ==> (#[trigger] out@[k]).commit_count >= c,
        decreases n - j,
    {
        if out[j].commit_count < c {
            return j;
        }
        j = j + 1;
    }
    j
}

/// Inserts one entry into the descending ranking, after all entries with
/// the same or a larger count.
fn insert_repo_stat(out: &mut Vec<RepoStat>, x: RepoStat)
    ensures
        repo_stats_view(final(out)@) == insert_desc(repo_stat_view(x), repo_stats_view(old(out)@)),
{
    let ghost pre = repo_stats_view(out@);
    let j = find_insert_pos_repo(out, x.commit_count);
    proof {
        assert(forall|k: int| 0 <= k < pre.len() ==> pre[k] == repo_stat_view(out@[k]));
        lemma_insert_desc_split(repo_stat_view(x), pre, j as int);
    }
    out.insert(j, x);
    proof {
        assert(repo_stats_view(out@) =~= pre.take(j as int) + seq![repo_stat_view(x)] + pre.skip(
            j as int,
        ));
    }
}

/// Sorts the repository ranking by descending commit count; entries with
/// equal counts keep their insertion order.
fn sort_repo_stats(input: Vec<RepoStat>) -> (out: Vec<RepoStat>)
    ensures
        repo_stats_view(out@) == sort_desc(repo_stats_view(input@)),
{
    let n = input.len();
    let ghost orig = input@;
    let mut rest = input;
    let mut out: Vec<RepoStat> = Vec::new();
    let mut i: usize = 0;
    proof {
        assert(rest@ =~= orig.skip(0));
        assert(repo_stats_view(orig.take(0)) =~= Seq::<Ranked>::empty());
    }
    while rest.len() > 0
        invariant
            i <= n,
            n == orig.len(),
            rest@ =~= orig.skip(i as int),
            repo_stats_view(out@) == sort_desc(repo_stats_view(orig.take(i as int))),
        decreases rest@.len(),
    {
        proof {
            assert(rest@[0] == orig[i as int]);
        }
        let x = rest.remove(0);
        proof {
            assert(rest@ =~= orig.skip(i as int + 1));
        }
        let ghost pre_sorted = repo_stats_view(out@);
        insert_repo_stat(&mut out, x);
        proof {
            let tv = repo_stats_view(orig.take(i as int + 1));
            assert(tv.drop_last() =~= repo_stats_view(orig.take(i as int)));
            assert(tv.last() == repo_stat_view(orig[i as int]));
            assert(repo_stats_view(out@) == sort_desc(tv));
        }
        i = i + 1;
    }
    proof {
        assert(orig.take(orig.len() as int) =~= orig);
        assert(i == orig.len());
    }
    out
}

/// The position where a line count of `c` goes in the descending ranking.
fn find_insert_pos_lang(out: &Vec<LanguageStat>, c: usize) -> (j: usize)
    ensures
        j <= out@.len(),
        forall|k: int| 0 <= k < j ==> (#[trigger] out@[k]).lines >= c,
        j < out@.len() ==> out@[j as int].lines < c,
{
    let n = out.len();
    let mut j: usize = 0;
    while j < n
        invariant
            j <= n,
            n == out@.len(),
            forall|k: int| 0 <= k < j ==> (#[trigger] out@[k]).lines >= c,
        decreases n - j,
    {
        if out[j].lines < c {
            return j;
        }
        j = j + 1;
    }
    j
}

/// Inserts one entry into the descending language ranking, after all
/// entries with the same or a larger line count.
fn insert_lang_stat(out: &mut Vec<LanguageStat>, x: LanguageStat)
    ensures
        lang_stats_view(final(out)@) == insert_desc(lang_stat_view(x), lang_stats_view(old(out)@)),
{
    let ghost pre = lang_stats_view(out@);
    let j = find_insert_pos_lang(out, x.lines);
    proof {
        assert(forall|k: int| 0 <= k < pre.len() ==> pre[k] == lang_stat_view(out@[k]));
        lemma_insert_desc_split(lang_stat_view(x), pre, j as int);
    }
    out.insert(j, x);
    proof {
        assert(lang_stats_view(out@) =~= pre.take(j as int) + seq![lang_stat_view(x)] + pre.skip(
            j as int,
        ));
    }
}

/// Sorts the language ranking by descending line count; entries with
/// equal counts keep their insertion order.
fn sort_lang_stats(input: Vec<LanguageStat>) -> (out: Vec<LanguageStat>)
    ensures
        lang_stats_view(out@) == sort_desc(lang_stats_view(input@)),
{
    let n = input.len();
    let ghost orig = input@;
    let mut rest = input;
    let mut out: Vec<LanguageStat> = Vec::new();
    let mut i: usize = 0;
    proof {
        assert(rest@ =~= orig.skip(0));
        assert(lang_stats_view(orig.take(0)) =~= Seq::<Ranked>::empty());
    }
    while rest.len() > 0
        invariant
            i <= n,
            n == orig.len(),
            rest@ =~= orig.skip(i as int),
            lang_stats_view(out@) == sort_desc(lang_stats_view(orig.take(i as int))),
        decreases rest@.len(),
    {
        proof {
            assert(rest@[0] == orig[i as int]);
        }
        let x = rest.remove(0);
        proof {
            assert(rest@ =~= orig.skip(i as int + 1));
        }
        insert_lang_stat(&mut out, x);
        proof {
            let tv = lang_stats_view(orig.take(i as int + 1));
            assert(tv.drop_last() =~= lang_stats_view(orig.take(i as int)));
            assert(tv.last() == lang_stat_view(orig[i as int]));
            assert(lang_stats_view(out@) == sort_desc(tv));
        }
        i = i + 1;
    }
    proof {
        assert(orig.take(orig.len() as int) =~= orig);
        assert(i == orig.len());
    }
    out
}

/// An hour count over some commits never exceeds their number.
proof fn lemma_count_hour_le_len(cs: Seq<CommitInfo>, h: int)
    ensures
        0 <= count_hour_commits(cs, h) <= cs.len(),
{
    assert(forall|k: int| 0 <= k < cs.len() ==> hour_weight(h)(#[trigger] cs[k]) >= 0);
    lemma_sum_by_nonneg(cs, hour_weight(h));
    assert(forall|k: int|
        0 <= k < cs.len() ==> hour_weight(h)(#[trigger] cs[k]) <= one_weight::<CommitInfo>()(
            cs[k],
        ));
    lemma_sum_by_le(cs, hour_weight(h), one_weight());
    lemma_sum_by_one(cs);
}

/// A day count over some commits never exceeds their number.
proof fn lemma_count_date_le_len(cs: Seq<CommitInfo>, d: i32)
    ensures
        0 <= count_date_commits(cs, d) <= cs.len(),
{
    assert(forall|k: int| 0 <= k < cs.len() ==> date_weight(d)(#[trigger] cs[k]) >= 0);
    lemma_sum_by_nonneg(cs, date_weight(d));
    assert(forall|k: int|
        0 <= k < cs.len() ==> date_weight(d)(#[trigger] cs[k]) <= one_weight::<CommitInfo>()(
            cs[k],
        ));
    lemma_sum_by_le(cs, date_weight(d), one_weight());
    lemma_sum_by_one(cs);
}

/// Folds every repository into one global result. Repositories are
/// independent: every figure is a sum of per-repository weights, so the
/// fold order cannot change it (see `lemma_aggregate_order_independent`).
pub fn aggregate(data: &Vec<RepoData>) -> (r: AnalysisResult)
    requires
        data_wf(data@),
        sum_lens(data@) <= usize::MAX,
        sum_all_lines(data@) <= usize::MAX,
    ensures
        r.total_commits == sum_lens(data@),
        r.commits_per_hour@.len() == 24,
        forall|h: int| 0 <= h < 24 ==> r.commits_per_hour@[h] == count_hour(data@, h),
        r.commits_per_day.wf(),
        forall|d: i32| r.commits_per_day.count_of(d) == count_date(data@, d),
        forall|d: i32| has_key(r.commits_per_day.entries_seq(), d) <==> count_date(data@, d) > 0,
        entries_total(r.commits_per_day.entries_seq()) == r.total_commits,
        repo_stats_view(r.per_repo@) == sort_desc(raw_repo_stats(data@)),
        sorted_desc(repo_stats_view(r.per_repo@)),
        repo_stats_view(r.per_repo@).to_multiset() == raw_repo_stats(data@).to_multiset(),
        lang_stats_view(r.languages@) == sort_desc(merged_langs(data@)),
        sorted_desc(lang_stats_view(r.languages@)),
        lang_stats_view(r.languages@).to_multiset() == merged_langs(data@).to_multiset(),
{
    let n = data.len();
    let mut total: usize = 0;
    let mut per_repo: Vec<RepoStat> = Vec::new();
    let mut hist: Vec<usize> = Vec::new();
    let mut z: usize = 0;
    while z < 24
        invariant
            z <= 24,
            hist@.len() == z,
            forall|k: int| 0 <= k < z ==> hist@[k] == 0,
        decreases 24 - z,
    {
        hist.push(0);
        z = z + 1;
    }
    let mut day_map = DayMap::new();
    let mut langs: Vec<LanguageStat> = Vec::new();
    let mut i: usize = 0;
    proof {
        assert(data@.take(0) =~= Seq::<RepoData>::empty());
        assert(raw_repo_stats(data@.take(0)) =~= Seq::<Ranked>::empty());
        assert(repo_stats_view(per_repo@) =~= Seq::<Ranked>::empty());
        assert(lang_stats_view(langs@) =~= Seq::<Ranked>::empty());
    }
    while i < n
        invariant
            i <= n,
            n == data@.len(),
            data_wf(data@),
            sum_lens(data@) <= usize::MAX,
            sum_all_lines(data@) <= usize::MAX,
            total == sum_lens(data@.take(i as int)),
            hist@.len() == 24,
            forall|h: int|
                0 <= h < 24 ==> hist@[h] == count_hour(data@.take(i as int), h),
            day_map.wf(),
            forall|d: i32| day_map.count_of(d) == count_date(data@.take(i as int), d),
            forall|d: i32|
                has_key(day_map.entries_seq(), d) <==> count_date(data@.take(i as int), d) > 0,
            entries_total(day_map.entries_seq()) == sum_lens(data@.take(i as int)),
            per_repo@.len() == i,
            repo_stats_view(per_repo@) == raw_repo_stats(data@.take(i as int)),
            lang_stats_view(langs@) == merged_langs(data@.take(i as int)),
            entries_lines(lang_stats_view(langs@)) == sum_by(
                data@.take(i as int),
                repo_line_weight(),
            ),
        decreases n - i,
    {
        let ghost pre = data@.take(i as int);
        let ghost post = data@.take(i as int + 1);
        let ghost rd_spec = data@[i as int];
        proof {
            assert(post.drop_last() =~= pre);
            assert(post.last() == rd_spec);
            assert(forall|k: int| 0 <= k < data@.len() ==> len_weight()(#[trigger] data@[k]) >= 0);
            lemma_sum_by_take_step(data@, len_weight(), i as int);
            lemma_sum_by_prefix_le(data@, len_weight(), i as int + 1);
        }
        let rd = &data[i];
        total = total + rd.commits.len();
        let ghost pre_ranking = repo_stats_view(per_repo@);
        per_repo.push(RepoStat { name: rd.path.clone(), commit_count: rd.commits.len() });
        proof {
            assert(per_repo@.len() == i + 1);
            assert(post.len() == i + 1);
            assert(pre.len() == i);
            assert forall|k: int| 0 <= k < post.len() implies repo_stats_view(per_repo@)[k]
                == raw_repo_stats(post)[k] by {
                assert(repo_stats_view(per_repo@)[k] == repo_stat_view(per_repo@[k]));
                assert(raw_repo_stats(post)[k] == (post[k].path@, post[k].commits@.len() as int));
                if k < i {
                    assert(repo_stat_view(per_repo@[k]) == pre_ranking[k]);
                    assert(pre_ranking[k] == raw_repo_stats(pre)[k]);
                    assert(post[k] == data@[k] && pre[k] == data@[k]);
                } else {
                    assert(per_repo@[k].name == rd_spec.path);
                    assert(post[k] == rd_spec);
                }
            }
            assert(repo_stats_view(per_repo@) =~= raw_repo_stats(post));
        }
        proof {
            assert forall|h: int| 0 <= h < 24 implies hist@[h] + count_hour_commits(
                rd_spec.commits@,
                h,
            ) <= usize::MAX by {
                lemma_sum_by_take_step(data@, repo_hour_weight(h), i as int);
                assert forall|k: int| 0 <= k < data@.len() implies repo_hour_weight(h)(
                    #[trigger] data@[k],
                ) >= 0 by {
                    lemma_count_hour_le_len(data@[k].commits@, h);
                }
                lemma_sum_by_prefix_le(data@, repo_hour_weight(h), i as int + 1);
                assert forall|k: int| 0 <= k < data@.len() implies repo_hour_weight(h)(
                    #[trigger] data@[k],
                ) <= len_weight()(data@[k]) by {
                    lemma_count_hour_le_len(data@[k].commits@, h);
                }
                lemma_sum_by_le(data@, repo_hour_weight(h), len_weight());
            }
            assert forall|d: i32| day_map.count_of(d) + count_date_commits(rd_spec.commits@, d)
                <= usize::MAX by {
                lemma_sum_by_take_step(data@, repo_date_weight(d), i as int);
                assert forall|k: int| 0 <= k < data@.len() implies repo_date_weight(d)(
                    #[trigger] data@[k],
                ) >= 0 by {
                    lemma_count_date_le_len(data@[k].commits@, d);
                }
                lemma_sum_by_prefix_le(data@, repo_date_weight(d), i as int + 1);
                assert forall|k: int| 0 <= k < data@.len() implies repo_date_weight(d)(
                    #[trigger] data@[k],
                ) <= len_weight()(data@[k]) by {
                    lemma_count_date_le_len(data@[k].commits@, d);
                }
                lemma_sum_by_le(data@, repo_date_weight(d), len_weight());
            }
            assert(forall|j: int|
                0 <= j < rd_spec.commits@.len() ==> (#[trigger] rd_spec.commits@[j]).wf());
        }
        tally_commits(&mut hist, &mut day_map, &rd.commits);
        proof {
            assert forall|h: int| 0 <= h < 24 implies hist@[h] == count_hour(post, h) by {
                lemma_sum_by_take_step(data@, repo_hour_weight(h), i as int);
            }
            assert forall|d: i32| day_map.count_of(d) == count_date(post, d) by {
                lemma_sum_by_take_step(data@, repo_date_weight(d), i as int);
            }
            assert forall|d: i32| has_key(day_map.entries_seq(), d) <==> count_date(post, d)
                > 0 by {
                lemma_sum_by_take_step(data@, repo_date_weight(d), i as int);
                lemma_count_date_le_len(rd_spec.commits@, d);
                assert forall|k: int| 0 <= k < pre.len() implies repo_date_weight(d)(
                    #[trigger] pre[k],
                ) >= 0 by {
                    lemma_count_date_le_len(pre[k].commits@, d);
                }
                lemma_sum_by_nonneg(pre, repo_date_weight(d));
            }
        }
        proof {
            lemma_sum_by_take_step(data@, repo_line_weight(), i as int);
            assert forall|k: int| 0 <= k < data@.len() implies repo_line_weight()(
                #[trigger] data@[k],
            ) >= 0 by {
                assert(forall|p: int|
                    0 <= p < data@[k].languages@.len() ==> line_weight()(
                        #[trigger] data@[k].languages@[p],
                    ) >= 0);
                lemma_sum_by_nonneg(data@[k].languages@, line_weight());
            }
            lemma_sum_by_prefix_le(data@, repo_line_weight(), i as int + 1);
        }
        merge_repo_langs(&mut langs, &rd.languages);
        proof {
            assert(lang_stats_view(langs@) == merged_langs(post));
        }
        i = i + 1;
    }
    proof {
        assert(data@.take(n as int) =~= data@);
    }
    let per_repo_sorted = sort_repo_stats(per_repo);
    let langs_sorted = sort_lang_stats(langs);
    proof {
        lemma_sort_desc_sorted(raw_repo_stats(data@));
        lemma_sort_desc_sorted(merged_langs(data@));
        lemma_sort_desc_multiset(raw_repo_stats(data@));
        lemma_sort_desc_multiset(merged_langs(data@));
    }
    AnalysisResult {
        total_commits: total,
        per_repo: per_repo_sorted,
        commits_per_hour: hist,
        commits_per_day: day_map,
        languages: langs_sorted,
    }
}

/// Aggregation is order-independent: two inputs that hold the same
/// repositories, in any order, give the same total, the same hourly
/// histogram, the same per-day counts and the same merged line count for
/// every language. Only the tie-break order of equally-ranked entries may
/// differ.
pub proof fn lemma_aggregate_order_independent(s1: Seq<RepoData>, s2: Seq<RepoData>)
    requires
        s1.to_multiset() == s2.to_multiset(),
    ensures
        sum_lens(s1) == sum_lens(s2),
        forall|h: int| #[trigger] count_hour(s1, h) == count_hour(s2, h),
        forall|d: i32| #[trigger] count_date(s1, d) == count_date(s2, d),
        forall|name: Seq<char>| #[trigger] lang_total(s1, name) == lang_total(s2, name),
{
    lemma_sum_by_permutation(s1, s2, len_weight());
    assert forall|h: int| #[trigger] count_hour(s1, h) == count_hour(s2, h) by {
        lemma_sum_by_permutation(s1, s2, repo_hour_weight(h));
    }
    assert forall|d: i32| #[trigger] count_date(s1, d) == count_date(s2, d) by {
        lemma_sum_by_permutation(s1, s2, repo_date_weight(d));
    }
    assert forall|name: Seq<char>| #[trigger] lang_total(s1, name) == lang_total(s2, name) by {
        lemma_sum_by_permutation(s1, s2, repo_lang_weight(name));
    }
}

/// The lines a ranking entry contributes to language `name`.
pub open spec fn rank_name_weight(name: Seq<char>) -> spec_fn(Ranked) -> int {
    |r: Ranked| if r.0 == name {
        r.1
    } else {
        0int
    }
}

/// The lines the ranking `s` lists for language `name`.
pub open spec fn rank_value(s: Seq<Ranked>, name: Seq<char>) -> int {
    sum_by(s, rank_name_weight(name))
}

/// Merging one pair adds its lines to exactly its own language.
proof fn lemma_add_lang_value(m: Seq<Ranked>, nm: Seq<char>, l: int, name: Seq<char>)
    ensures
        rank_value(add_lang(m, nm, l), name) == rank_value(m, name) + if nm == name {
            l
        } else {
            0int
        },
    decreases m.len(),
{
    let w = rank_name_weight(name);
    if m.len() == 0 {
        assert(add_lang(m, nm, l) == seq![(nm, l)]);
        lemma_sum_by_singleton((nm, l), w);
    } else if m[0].0 == nm {
        let r = seq![(m[0].0, m[0].1 + l)] + m.drop_first();
        assert(r =~= m.update(0, (m[0].0, m[0].1 + l)));
        lemma_sum_by_update(m, w, 0, (m[0].0, m[0].1 + l));
    } else {
        lemma_add_lang_value(m.drop_first(), nm, l, name);
        assert(add_lang(m, nm, l) == seq![m[0]] + add_lang(m.drop_first(), nm, l));
        lemma_sum_by_concat(seq![m[0]], add_lang(m.drop_first(), nm, l), w);
        lemma_sum_by_singleton(m[0], w);
        lemma_sum_by_concat(seq![m[0]], m.drop_first(), w);
        assert(seq![m[0]] + m.drop_first() =~= m);
    }
}

/// Merging a repository's pairs adds exactly its reported lines per name.
proof fn lemma_merge_langs_value(m: Seq<Ranked>, pairs: Seq<(String, usize)>, name: Seq<char>)
    ensures
        rank_value(merge_langs(m, pairs), name) == rank_value(m, name) + lang_lines(pairs, name),
    decreases pairs.len(),
{
    if pairs.len() == 0 {
    } else {
        let p0 = pairs[0];
        lemma_add_lang_value(m, p0.0@, p0.1 as int, name);
        lemma_merge_langs_value(add_lang(m, p0.0@, p0.1 as int), pairs.drop_first(), name);
        assert(pairs =~= seq![p0] + pairs.drop_first());
        lemma_sum_by_concat(seq![p0], pairs.drop_first(), lang_weight(name));
        lemma_sum_by_singleton(p0, lang_weight(name));
    }
}

/// The merged language ranking lists, for every language, exactly the sum
/// of the lines all repositories reported for it: the additive merge keyed
/// on exact names drops nothing and counts nothing twice.
pub proof fn lemma_merged_langs_totals(s: Seq<RepoData>, name: Seq<char>)
    ensures
        rank_value(merged_langs(s), name) == lang_total(s, name),
    decreases s.len(),
{
    if s.len() == 0 {
    } else {
        lemma_merged_langs_totals(s.drop_last(), name);
        lemma_merge_langs_value(merged_langs(s.drop_last()), s.last().languages@, name);
    }
}

/// Sorting the ranking keeps every language's listed total.
pub proof fn lemma_sorted_ranking_totals(s: Seq<RepoData>, name: Seq<char>)
    ensures
        rank_value(sort_desc(merged_langs(s)), name) == lang_total(s, name),
{
    lemma_merged_langs_totals(s, name);
    lemma_sort_desc_multiset(merged_langs(s));
    lemma_sum_by_permutation(
        sort_desc(merged_langs(s)),
        merged_langs(s),
        rank_name_weight(name),
    );
}

/// The number of commits a (path, commits) pair contributes.
pub open spec fn pair_len_weight() -> spec_fn((String, Vec<CommitInfo>)) -> int {
    |p: (String, Vec<CommitInfo>)| p.1@.len() as int
}

/// The total number of retained commits over (path, commits) pairs.
pub open spec fn sum_lens_pairs(s: Seq<(String, Vec<CommitInfo>)>) -> int {
    sum_by(s, pair_len_weight())
}

/// How many commits of a (path, commits) pair fall in hour `h`.
pub open spec fn pair_hour_weight(h: int) -> spec_fn((String, Vec<CommitInfo>)) -> int {
    |p: (String, Vec<CommitInfo>)| count_hour_commits(p.1@, h)
}

/// How many commits, over all pairs, fall in hour `h`.
pub open spec fn count_hour_pairs(s: Seq<(String, Vec<CommitInfo>)>, h: int) -> int {
    sum_by(s, pair_hour_weight(h))
}

/// How many commits of a (path, commits) pair fall on day `d`.
pub open spec fn pair_date_weight(d: i32) -> spec_fn((String, Vec<CommitInfo>)) -> int {
    |p: (String, Vec<CommitInfo>)| count_date_commits(p.1@, d)
}

/// How many commits, over all pairs, fall on day `d`.
pub open spec fn count_date_pairs(s: Seq<(String, Vec<CommitInfo>)>, d: i32) -> int {
    sum_by(s, pair_date_weight(d))
}

/// The unsorted ranking read off the (path, commits) pairs.
pub open spec fn raw_repo_stats_pairs(s: Seq<(String, Vec<CommitInfo>)>) -> Seq<Ranked> {
    s.map_values(|p: (String, Vec<CommitInfo>)| (p.0@, p.1@.len() as int))
}

/// Every commit of every pair is well formed.
pub open spec fn pairs_wf(s: Seq<(String, Vec<CommitInfo>)>) -> bool {
    forall|i: int, j: int|
        0 <= i < s.len() && 0 <= j < (#[trigger] s[i]).1@.len() ==> (#[trigger] s[i].1@[j]).wf()
}

/// The merged language ranking over the external counter's per-repository
/// reports, keeping only languages with at least one line.
pub open spec fn filtered_merged_langs(ls: Seq<Vec<(String, usize)>>) -> Seq<Ranked>
    decreases ls.len(),
{
    if ls.len() == 0 {
        Seq::empty()
    } else {
        merge_langs(
            filtered_merged_langs(ls.drop_last()),
            ls.last()@.filter(|p: (String, usize)| p.1 > 0),
        )
    }
}

/// The lines one repository's report contributes once the languages that
/// report no line are dropped.
pub open spec fn filtered_line_weight() -> spec_fn(Vec<(String, usize)>) -> int {
    |v: Vec<(String, usize)>| sum_by(v@.filter(|p: (String, usize)| p.1 > 0), line_weight())
}

/// All kept lines over the external counter's per-repository reports.
pub open spec fn sum_filtered_lines(ls: Seq<Vec<(String, usize)>>) -> int {
    sum_by(ls, filtered_line_weight())
}

/// Analyzes the given repositories: takes, for each repository, its
/// retained commits and the external line counter's (language, lines)
/// report, keeps the languages with at least one line, and folds
/// everything into one global result. Returns `None` exactly when a count
/// would not fit the machine's word: when the commits number more than
/// `usize::MAX`, or the kept line counts sum past it.
pub fn analyze(data: Vec<(String, Vec<CommitInfo>)>, langs_by_repo: Vec<Vec<(String, usize)>>) -> (r: Option<
    AnalysisResult,
>)
    requires
        pairs_wf(data@),
        data@.len() == langs_by_repo@.len(),
    ensures
        r matches Some(res) ==> {
            &&& res.total_commits == sum_lens_pairs(data@)
            &&& res.commits_per_hour@.len() == 24
            &&& forall|h: int| 0 <= h < 24 ==> res.commits_per_hour@[h] == count_hour_pairs(data@, h)
            &&& res.commits_per_day.wf()
            &&& forall|d: i32| res.commits_per_day.count_of(d) == count_date_pairs(data@, d)
            &&& forall|d: i32|
                has_key(res.commits_per_day.entries_seq(), d) <==> count_date_pairs(data@, d) > 0
            &&& entries_total(res.commits_per_day.entries_seq()) == res.total_commits
            &&& repo_stats_view(res.per_repo@) == sort_desc(raw_repo_stats_pairs(data@))
            &&& sorted_desc(repo_stats_view(res.per_repo@))
            &&& lang_stats_view(res.languages@) == sort_desc(
                filtered_merged_langs(langs_by_repo@),
            )
            &&& sorted_desc(lang_stats_view(res.languages@))
        },
        r is Some <==> sum_lens_pairs(data@) <= usize::MAX && sum_filtered_lines(langs_by_repo@)
            <= usize::MAX,
{
    let ghost orig = data@;
    let ghost ls = langs_by_repo@;
    let mut rest = data;
    let mut rest_langs = langs_by_repo;
    let n0 = rest.len();
    let mut rds: Vec<RepoData> = Vec::new();
    let mut i: usize = 0;
    proof {
        assert(rest@ =~= orig.skip(0));
        assert(rest_langs@ =~= ls.skip(0));
    }
    while rest.len() > 0
        invariant
            n0 == orig.len(),
            i + rest@.len() == orig.len(),
            rest@ =~= orig.skip(i as int),
            rest_langs@ =~= ls.skip(i as int),
            orig.len() == ls.len(),
            rds@.len() == i,
            forall|k: int|
                0 <= k < i ==> (#[trigger] rds@[k]).path == orig[k].0 && rds@[k].commits
                    == orig[k].1,
            forall|k: int|
                0 <= k < i ==> (#[trigger] rds@[k]).languages@ == ls[k]@.filter(
                    |p: (String, usize)| p.1 > 0,
                ),
            pairs_wf(orig),
        decreases rest@.len(),
    {
        proof {
            assert(rest@[0] == orig[i as int]);
            assert(rest_langs@[0] == ls[i as int]);
        }
        let (path, commits) = rest.remove(0);
        let reported = rest_langs.remove(0);
        proof {
            assert(rest@ =~= orig.skip(i as int + 1));
            assert(rest_langs@ =~= ls.skip(i as int + 1));
        }
        let languages = keep_positive(reported);
        rds.push(RepoData { path, commits, languages });
        i = i + 1;
    }
    proof {
        assert forall|k: int, j: int|
            0 <= k < rds@.len() && 0 <= j < (#[trigger] rds@[k]).commits@.len() implies (
        #[trigger] rds@[k].commits@[j]).wf() by {
            assert(rds@[k].commits == orig[k].1);
            assert(orig[k].1@[j].wf());
        }
    }
    let m = rds.len();
    let mut t: usize = 0;
    let mut k: usize = 0;
    proof {
        assert(rds@.take(0) =~= Seq::<RepoData>::empty());
        assert(forall|k2: int| 0 <= k2 < rds@.len() ==> len_weight()(#[trigger] rds@[k2]) >= 0);
    }
    while k < m
        invariant
            k <= m,
            m == rds@.len(),
            t == sum_lens(rds@.take(k as int)),
            forall|k2: int| 0 <= k2 < rds@.len() ==> len_weight()(#[trigger] rds@[k2]) >= 0,
            rds@.len() == orig.len(),
            orig == data@,
            forall|k2: int|
                0 <= k2 < rds@.len() ==> (#[trigger] rds@[k2]).path == orig[k2].0
                    && rds@[k2].commits == orig[k2].1,
        decreases m - k,
    {
        proof {
            lemma_sum_by_take_step(rds@, len_weight(), k as int);
        }
        match t.checked_add(rds[k].commits.len()) {
            Some(v) => {
                t = v;
            },
            None => {
                proof {
                    lemma_sum_by_prefix_le(rds@, len_weight(), k as int + 1);
                    lemma_sum_by_pointwise(rds@, orig, len_weight(), pair_len_weight());
                    assert(sum_lens_pairs(orig) > usize::MAX);
                }
                return None;
            },
        }
        k = k + 1;
    }
    proof {
        assert(rds@.take(m as int) =~= rds@);
        lemma_sum_by_pointwise(rds@, orig, len_weight(), pair_len_weight());
    }
    let mut lt: usize = 0;
    let mut k2: usize = 0;
    proof {
        assert(forall|k3: int|
            0 <= k3 < rds@.len() ==> sum_by((#[trigger] rds@[k3]).languages@, line_weight())
                >= 0) by {
            assert forall|k3: int| 0 <= k3 < rds@.len() implies sum_by(
                (#[trigger] rds@[k3]).languages@,
                line_weight(),
            ) >= 0 by {
                assert(forall|p: int|
                    0 <= p < rds@[k3].languages@.len() ==> line_weight()(
                        #[trigger] rds@[k3].languages@[p],
                    ) >= 0);
                lemma_sum_by_nonneg(rds@[k3].languages@, line_weight());
            }
        }
    }
    while k2 < m
        invariant
            k2 <= m,
            m == rds@.len(),
            lt == sum_by(rds@.take(k2 as int), repo_line_weight()),
            rds@.len() == ls.len(),
            ls == langs_by_repo@,
            forall|k3: int|
                0 <= k3 < rds@.len() ==> (#[trigger] rds@[k3]).languages@ == ls[k3]@.filter(
                    |p: (String, usize)| p.1 > 0,
                ),
        decreases m - k2,
    {
        let pairs = &rds[k2].languages;
        let pn = pairs.len();
        let mut j: usize = 0;
        proof {
            assert(pairs@.take(0) =~= Seq::<(String, usize)>::empty());
        }
        let ghost base = lt as int;
        while j < pn
            invariant
                j <= pn,
                pn == pairs@.len(),
                pairs@ == rds@[k2 as int].languages@,
                k2 < m,
                m == rds@.len(),
                lt == base + sum_by(pairs@.take(j as int), line_weight()),
                base == sum_by(rds@.take(k2 as int), repo_line_weight()),
                rds@.len() == ls.len(),
                ls == langs_by_repo@,
                forall|k3: int|
                    0 <= k3 < rds@.len() ==> (#[trigger] rds@[k3]).languages@ == ls[k3]@.filter(
                        |p: (String, usize)| p.1 > 0,
                    ),
            decreases pn - j,
        {
            proof {
                lemma_sum_by_take_step(pairs@, line_weight(), j as int);
            }
            match lt.checked_add(pairs[j].1) {
                Some(v) => {
                    lt = v;
                },
                None => {
                    proof {
                        assert(forall|p: int|
                            0 <= p < pairs@.len() ==> line_weight()(#[trigger] pairs@[p]) >= 0);
                        lemma_sum_by_prefix_le(pairs@, line_weight(), j as int + 1);
                        assert(base + repo_line_weight()(rds@[k2 as int]) > usize::MAX);
                        lemma_sum_by_take_step(rds@, repo_line_weight(), k2 as int);
                        assert forall|k3: int|
                            0 <= k3 < rds@.len() implies repo_line_weight()(
                            #[trigger] rds@[k3],
                        ) >= 0 by {
                            assert(forall|p: int|
                                0 <= p < rds@[k3].languages@.len() ==> line_weight()(
                                    #[trigger] rds@[k3].languages@[p],
                                ) >= 0);
                            lemma_sum_by_nonneg(rds@[k3].languages@, line_weight());
                        }
                        lemma_sum_by_prefix_le(rds@, repo_line_weight(), k2 as int + 1);
                        assert(sum_by(rds@, repo_line_weight()) > usize::MAX);
                        assert(forall|k3: int|
                            0 <= k3 < rds@.len() ==> repo_line_weight()(#[trigger] rds@[k3])
                                == filtered_line_weight()(ls[k3]));
                        lemma_sum_by_pointwise(rds@, ls, repo_line_weight(), filtered_line_weight());
                        assert(sum_filtered_lines(ls) > usize::MAX);
                    }
                    return None;
                },
            }
            j = j + 1;
        }
        proof {
            assert(pairs@.take(pn as int) =~= pairs@);
            lemma_sum_by_take_step(rds@, repo_line_weight(), k2 as int);
        }
        k2 = k2 + 1;
    }
    proof {
        assert(rds@.take(m as int) =~= rds@);
        assert(forall|k3: int|
            0 <= k3 < rds@.len() ==> repo_line_weight()(#[trigger] rds@[k3])
                == filtered_line_weight()(ls[k3]));
        lemma_sum_by_pointwise(rds@, ls, repo_line_weight(), filtered_line_weight());
        assert(sum_filtered_lines(ls) == lt);
    }
    let result = aggregate(&rds);
    proof {
        assert forall|h: int| 0 <= h < 24 implies count_hour(rds@, h) == count_hour_pairs(
            orig,
            h,
        ) by {
            assert(forall|k3: int|
                0 <= k3 < rds@.len() ==> repo_hour_weight(h)(#[trigger] rds@[k3])
                    == pair_hour_weight(h)(orig[k3]));
            lemma_sum_by_pointwise(rds@, orig, repo_hour_weight(h), pair_hour_weight(h));
        }
        assert forall|d: i32| count_date(rds@, d) == count_date_pairs(orig, d) by {
            assert(forall|k3: int|
                0 <= k3 < rds@.len() ==> repo_date_weight(d)(#[trigger] rds@[k3])
                    == pair_date_weight(d)(orig[k3]));
            lemma_sum_by_pointwise(rds@, orig, repo_date_weight(d), pair_date_weight(d));
        }
        assert(raw_repo_stats(rds@) =~= raw_repo_stats_pairs(orig));
        lemma_merged_langs_of_filtered(rds@, ls);
    }
    Some(result)
}

/// When every repository's language list is the filtered report, the
/// merged ranking is the merge of the filtered reports.
proof fn lemma_merged_langs_of_filtered(rds: Seq<RepoData>, ls: Seq<Vec<(String, usize)>>)
    requires
        rds.len() == ls.len(),
        forall|k: int|
            0 <= k < rds.len() ==> (#[trigger] rds[k]).languages@ == ls[k]@.filter(
                |p: (String, usize)| p.1 > 0,
            ),
    ensures
        merged_langs(rds) == filtered_merged_langs(ls),
    decreases rds.len(),
{
    if rds.len() > 0 {
        assert(forall|k: int|
            0 <= k < rds.drop_last().len() ==> (#[trigger] rds.drop_last()[k]).languages@
                == ls.drop_last()[k]@.filter(|p: (String, usize)| p.1 > 0));
        lemma_merged_langs_of_filtered(rds.drop_last(), ls.drop_last());
        assert(rds.last().languages@ == ls.last()@.filter(|p: (String, usize)| p.1 > 0));
    }
}

/// Merging a repository's pairs adds exactly their lines to the total.
proof fn lemma_merge_langs_lines(acc: Seq<Ranked>, pairs: Seq<(String, usize)>)
    ensures
        entries_lines(merge_langs(acc, pairs)) == entries_lines(acc) + sum_by(
            pairs,
            line_weight(),
        ),
    decreases pairs.len(),
{
    if pairs.len() == 0 {
        lemma_sum_by_take_all(pairs, line_weight());
    } else {
        lemma_add_lang_lines(acc, pairs[0].0@, pairs[0].1 as int);
        lemma_merge_langs_lines(add_lang(acc, pairs[0].0@, pairs[0].1 as int), pairs.drop_first());
        assert(pairs =~= seq![pairs[0]] + pairs.drop_first());
        lemma_sum_by_concat(seq![pairs[0]], pairs.drop_first(), line_weight());
        lemma_sum_by_singleton(pairs[0], line_weight());
    }
}

} // verus!

