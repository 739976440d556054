use vstd::prelude::*;
use std::collections::HashMap;
use crate::date::Date;
use crate::error::StatsError;
use crate::git_repo::{
    commit_author_email, commit_message_text, commit_time_seconds, create_revwalk, error_message,
    find_commit, local_branches, next_branch_tip, next_commit_id, oid_bytes, open_repository,
    revwalk_push, revwalk_sort_by_time,
};
use crate::local_time::{LocalTime, local_time_of_timestamp};

verus! {

/// One retained commit: when it was made, in the observer's local time
/// zone, and its raw message.
#[derive(Debug, Clone)]
pub struct CommitInfo {
    pub time: LocalTime,
    pub message: String,
}

impl CommitInfo {
    /// Well-formed: the local time lies inside one day.
    pub open spec fn wf(self) -> bool {
        self.time.wf()
    }
}

/// One commit as read from a repository, before deduplication and
/// filtering: its content identifier's bytes, its author's e-mail (absent
/// when not parsable), its local time and its message.
#[derive(Debug, Clone)]
pub struct RawCommit {
    pub id: Vec<u8>,
    pub author_email: Option<String>,
    pub time: LocalTime,
    pub message: String,
}

/// Whether a commit is retained: its author's e-mail matches `email`
/// exactly and its local calendar date lies within `[since, until]`,
/// inclusive at both ends. A commit without a parsable e-mail never
/// matches.
pub open spec fn raw_matches(c: RawCommit, email: Seq<char>, since: Date, until: Date) -> bool {
    &&& c.author_email is Some
    &&& c.author_email->0@ == email
    &&& since.days <= c.time.days <= until.days
}

/// The commits kept from `s`, in order: each commit identifier is
/// considered once — a commit whose identifier was already visited is
/// skipped, whether or not the first visit matched — and of the first
/// visits exactly the matching ones are kept. `seen` holds the
/// identifiers already visited.
pub open spec fn filter_rec(
    s: Seq<RawCommit>,
    seen: Set<Seq<u8>>,
    email: Seq<char>,
    since: Date,
    until: Date,
) -> Seq<RawCommit>
    decreases s.len(),
{
    if s.len() == 0 {
        Seq::empty()
    } else if seen.contains(s[0].id@) {
        filter_rec(s.drop_first(), seen, email, since, until)
    } else if raw_matches(s[0], email, since, until) {
        seq![s[0]] + filter_rec(s.drop_first(), seen.insert(s[0].id@), email, since, until)
    } else {
        filter_rec(s.drop_first(), seen.insert(s[0].id@), email, since, until)
    }
}

/// The commits retained from `s`: deduplicated by identifier, first
/// occurrence kept, filtered by author and date range.
pub open spec fn retained(s: Seq<RawCommit>, email: Seq<char>, since: Date, until: Date) -> Seq<
    RawCommit,
> {
    filter_rec(s, Set::empty(), email, since, until)
}

/// The record emitted for a retained commit.
pub open spec fn record_of(c: RawCommit) -> CommitInfo {
    CommitInfo { time: c.time, message: c.message }
}

/// The records emitted for a sequence of retained commits.
pub open spec fn records_of(s: Seq<RawCommit>) -> Seq<CommitInfo> {
    s.map_values(|c: RawCommit| record_of(c))
}

/// The identifiers of the first `i` commits of `s`.
pub open spec fn prefix_ids(s: Seq<RawCommit>, i: int) -> Set<Seq<u8>> {
    Set::new(|x: Seq<u8>| exists|k: int| 0 <= k < i && (#[trigger] s[k]).id@ == x)
}

/// Whether two byte vectors hold the same bytes.
fn bytes_eq(a: &Vec<u8>, b: &Vec<u8>) -> (r: bool)
    ensures
        r == (a@ == b@),
{
    if a.len() != b.len() {
        assert(a@ != b@);
        return false;
    }
    let n = a.len();
    let mut i: usize = 0;
    while i < n
        invariant
            i <= n,
            n == a@.len() && n == b@.len(),
            forall|k: int| 0 <= k < i ==> a@[k] == b@[k],
        decreases n - i,
    {
        if a[i] != b[i] {
            return false;
        }
        i = i + 1;
    }
    assert(a@ =~= b@);
    true
}

/// A 64-bit fingerprint of a commit identifier: its first eight bytes
/// read as a little-endian number, or its length for a shorter one. Equal
/// identifiers always share a fingerprint; distinct ones may collide, so
/// whoever looks a fingerprint up still compares the full bytes.
pub open spec fn id_key(s: Seq<u8>) -> u64 {
    if s.len() >= 8 {
        (s[0] + 256 * (s[1] + 256 * (s[2] + 256 * (s[3] + 256 * (s[4] + 256 * (s[5] + 256 * (s[6]
            + 256 * s[7]))))))) as u64
    } else {
        s.len() as u64
    }
}

/// The fingerprint of `id`, for the deduplication index.
fn id_key_exec(id: &Vec<u8>) -> (r: u64)
    ensures
        r == id_key(id@),
{
    if id.len() >= 8 {
        let b0 = id[0] as u64;
        let b1 = id[1] as u64;
        let b2 = id[2] as u64;
        let b3 = id[3] as u64;
        let b4 = id[4] as u64;
        let b5 = id[5] as u64;
        let b6 = id[6] as u64;
        let b7 = id[7] as u64;
        b0 + 256 * (b1 + 256 * (b2 + 256 * (b3 + 256 * (b4 + 256 * (b5 + 256 * (b6 + 256 * b7))))))
    } else {
        id.len() as u64
    }
}

/// Whether the commit at `j` is the first in `s` to carry its identifier.
pub open spec fn is_first_occurrence(s: Seq<RawCommit>, j: int) -> bool {
    forall|l: int| 0 <= l < j ==> (#[trigger] s[l]).id@ != s[j].id@
}

/// Soundness of the deduplication index over the first `i` commits:
/// every recorded position lies before `i`, in the bucket of its own
/// identifier's fingerprint.
pub open spec fn index_sound(m: Map<u64, Vec<usize>>, s: Seq<RawCommit>, i: int) -> bool {
    forall|k: u64, l: int|
        m.contains_key(k) && 0 <= l < m[k]@.len() ==> (#[trigger] m[k]@[l]) < i && id_key(
            s[m[k]@[l] as int].id@,
        ) == k
}

/// Completeness of the deduplication index over the first `i` commits:
/// the first occurrence of every identifier is recorded in the bucket of
/// its fingerprint.
pub open spec fn index_complete(m: Map<u64, Vec<usize>>, s: Seq<RawCommit>, i: int) -> bool {
    forall|j: int|
        0 <= j < i && is_first_occurrence(s, j) ==> {
            let k = id_key((#[trigger] s[j]).id@);
            &&& m.contains_key(k)
            &&& exists|l: int| 0 <= l < m[k]@.len() && (#[trigger] m[k]@[l]) as int == j
        }
}

/// An identifier that occurs before `i` has a first occurrence before `i`.
proof fn lemma_first_occurrence_exists(s: Seq<RawCommit>, i: int, x: Seq<u8>)
    requires
        exists|j: int| 0 <= j < i && (#[trigger] s[j]).id@ == x,
        i <= s.len(),
    ensures
        exists|j: int|
            0 <= j < i && (#[trigger] s[j]).id@ == x && is_first_occurrence(s, j),
    decreases i,
{
    let j = choose|j: int| 0 <= j < i && (#[trigger] s[j]).id@ == x;
    if is_first_occurrence(s, j) {
    } else {
        let l = choose|l: int| 0 <= l < j && (#[trigger] s[l]).id@ == s[j].id@;
        assert(s[l].id@ == x);
        lemma_first_occurrence_exists(s, j, x);
        let j2 = choose|j2: int|
            0 <= j2 < j && (#[trigger] s[j2]).id@ == x && is_first_occurrence(s, j2);
        assert(0 <= j2 < i && s[j2].id@ == x && is_first_occurrence(s, j2));
    }
}

/// Whether some recorded position in `bucket` carries the identifier of
/// the commit at `i`.
fn bucket_has_id(s: &Vec<RawCommit>, bucket: &Vec<usize>, i: usize) -> (r: bool)
    requires
        i < s@.len(),
        forall|l: int| 0 <= l < bucket@.len() ==> (#[trigger] bucket@[l]) < i,
    ensures
        r == (exists|l: int|
            0 <= l < bucket@.len() && s@[(#[trigger] bucket@[l]) as int].id@ == s@[i as int].id@),
{
    let bn = bucket.len();
    let mut l: usize = 0;
    while l < bn
        invariant
            l <= bn,
            bn == bucket@.len(),
            i < s@.len(),
            forall|l2: int| 0 <= l2 < bucket@.len() ==> (#[trigger] bucket@[l2]) < i,
            forall|l2: int|
                0 <= l2 < l ==> s@[(#[trigger] bucket@[l2]) as int].id@ != s@[i as int].id@,
        decreases bn - l,
    {
        let j = bucket[l];
        if bytes_eq(&s[j].id, &s[i].id) {
            return true;
        }
        l = l + 1;
    }
    false
}

/// Tests whether the identifier of the commit at `i` was already visited,
/// looking only at the bucket of its fingerprint rather than at every
/// earlier commit, and records the commit in the index when it is new.
fn check_and_record(s: &Vec<RawCommit>, index: &mut HashMap<u64, Vec<usize>>, i: usize) -> (r: bool)
    requires
        i < s@.len(),
        index_sound(old(index)@, s@, i as int),
        index_complete(old(index)@, s@, i as int),
    ensures
        r == prefix_ids(s@, i as int).contains(s@[i as int].id@),
        index_sound(final(index)@, s@, i as int + 1),
        index_complete(final(index)@, s@, i as int + 1),
{
    broadcast use vstd::std_specs::hash::group_hash_axioms;

    let ghost m0 = index@;
    let key = id_key_exec(&s[i].id);
    let removed = index.remove(&key);
    let ghost had = removed is Some;
    let mut bucket: Vec<usize> = match removed {
        Some(b) => b,
        None => Vec::new(),
    };
    proof {
        assert(index@ == m0.remove(key));
        if had {
            assert(m0.contains_key(key) && m0[key] == bucket);
        } else {
            assert(!m0.contains_key(key));
            assert(bucket@ =~= Seq::<usize>::empty());
        }
        assert forall|l: int| 0 <= l < bucket@.len() implies (#[trigger] bucket@[l]) < i by {
            assert(m0[key]@[l] == bucket@[l]);
        }
    }
    let ghost b0 = bucket@;
    let dup = bucket_has_id(s, &bucket, i);
    proof {
        if dup {
            let l = choose|l: int|
                0 <= l < b0.len() && s@[(#[trigger] b0[l]) as int].id@ == s@[i as int].id@;
            assert(b0[l] < i);
            assert(prefix_ids(s@, i as int).contains(s@[i as int].id@));
        } else if prefix_ids(s@, i as int).contains(s@[i as int].id@) {
            lemma_first_occurrence_exists(s@, i as int, s@[i as int].id@);
            let j0 = choose|j: int|
                0 <= j < i && (#[trigger] s@[j]).id@ == s@[i as int].id@ && is_first_occurrence(
                    s@,
                    j,
                );
            assert(id_key(s@[j0].id@) == key);
            assert(m0.contains_key(key));
            let l0 = choose|l: int|
                0 <= l < m0[key]@.len() && (#[trigger] m0[key]@[l]) as int == j0;
            assert(s@[(b0[l0]) as int].id@ == s@[i as int].id@);
            assert(false);
        }
    }
    if !dup {
        bucket.push(i);
    }
    let ghost bnew = bucket@;
    index.insert(key, bucket);
    proof {
        let m1 = index@;
        assert forall|k: u64, l: int|
            m1.contains_key(k) && 0 <= l < m1[k]@.len() implies (#[trigger] m1[k]@[l]) < i + 1
            && id_key(s@[m1[k]@[l] as int].id@) == k by {
            if k == key {
                assert(m1[key]@ == bnew);
                if l < b0.len() {
                    assert(bnew[l] == b0[l]);
                    assert(m0[key]@[l] == b0[l]);
                } else {
                    assert(!dup && l == b0.len());
                    assert(bnew[l] == i);
                }
            } else {
                assert(m1.contains_key(k) == m0.contains_key(k) && m1[k] == m0[k]);
            }
        }
        assert forall|j: int| 0 <= j < i + 1 && is_first_occurrence(s@, j) implies {
            let k = id_key((#[trigger] s@[j]).id@);
            &&& m1.contains_key(k)
            &&& exists|l: int| 0 <= l < m1[k]@.len() && (#[trigger] m1[k]@[l]) as int == j
        } by {
            let k = id_key(s@[j].id@);
            if j == i {
                assert(!dup);
                assert(k == key);
                assert(m1[key]@ == bnew);
                assert(0 <= b0.len() < bnew.len() && bnew[b0.len() as int] as int == i);
            } else {
                assert(m0.contains_key(k));
                let l = choose|l: int|
                    0 <= l < m0[k]@.len() && (#[trigger] m0[k]@[l]) as int == j;
                if k == key {
                    assert(bnew[l] == b0[l]);
                    assert((m1[key]@[l]) as int == j);
                } else {
                    assert(m1.contains_key(k) && m1[k] == m0[k]);
                    assert((m1[k]@[l]) as int == j);
                }
            }
        }
    }
    dup
}

/// Keeps, of the commits in `raws`, the first occurrence of each
/// identifier whose author matches `email` and whose local date lies
/// within `[since, until]`, in order, as commit records.
pub fn filter_commits(raws: &Vec<RawCommit>, email: &String, since: Date, until: Date) -> (out: Vec<
    CommitInfo,
>)
    ensures
        out@ == records_of(retained(raws@, email@, since, until)),
{
    let n = raws.len();
    let mut out: Vec<CommitInfo> = Vec::new();
    let mut index: HashMap<u64, Vec<usize>> = HashMap::new();
    let mut i: usize = 0;
    proof {
        assert(prefix_ids(raws@, 0) =~= Set::<Seq<u8>>::empty());
        assert(raws@.skip(0) =~= raws@);
    }
    while i < n
        invariant
            i <= n,
            n == raws@.len(),
            records_of(retained(raws@, email@, since, until)) == out@ + records_of(
                filter_rec(raws@.skip(i as int), prefix_ids(raws@, i as int), email@, since, until),
            ),
            index_sound(index@, raws@, i as int),
            index_complete(index@, raws@, i as int),
        decreases n - i,
    {
        let ghost rest = raws@.skip(i as int);
        let ghost seen = prefix_ids(raws@, i as int);
        proof {
            assert(rest[0] == raws@[i as int]);
            assert(rest.drop_first() =~= raws@.skip(i as int + 1));
        }
        let dup = check_and_record(raws, &mut index, i);
        if !dup {
            let matched: bool = match &raws[i].author_email {
                Some(e) => {
                    if *e == *email {
                        since.days <= raws[i].time.days && raws[i].time.days <= until.days
                    } else {
                        false
                    }
                },
                None => false,
            };
            assert(matched == raw_matches(raws@[i as int], email@, since, until));
            if matched {
                let rec = CommitInfo { time: raws[i].time, message: raws[i].message.clone() };
                assert(rec == record_of(raws@[i as int]));
                let ghost pre_out = out@;
                out.push(rec);
                proof {
                    let kept = filter_rec(
                        rest.drop_first(),
                        seen.insert(rest[0].id@),
                        email@,
                        since,
                        until,
                    );
                    assert(records_of(seq![rest[0]] + kept) =~= seq![record_of(rest[0])]
                        + records_of(kept));
                    assert(out@ =~= pre_out + seq![record_of(rest[0])]);
                    assert(pre_out + (seq![record_of(rest[0])] + records_of(kept)) =~= (pre_out
                        + seq![record_of(rest[0])]) + records_of(kept));
                }
            }
            proof {
                assert(seen.insert(rest[0].id@) =~= prefix_ids(raws@, i as int + 1));
            }
        } else {
            proof {
                assert(seen =~= prefix_ids(raws@, i as int + 1));
            }
        }
        i = i + 1;
    }
    proof {
        assert(raws@.skip(n as int) =~= Seq::<RawCommit>::empty());
        assert(records_of(Seq::<RawCommit>::empty()) =~= Seq::<CommitInfo>::empty());
        assert(out@ + Seq::<CommitInfo>::empty() =~= out@);
    }
    out
}

/// Walks the repository at `path`: enumerates the commits reachable from
/// every local branch tip, by descending commit time, visits each commit
/// identifier once, and keeps the commits whose author's e-mail equals
/// `email` and whose local calendar date lies within `[since, until]`,
/// inclusive. An inverted range is rejected before the repository is
/// touched; a path that cannot be opened or read as a repository is a
/// per-repository error the caller may skip. Every returned record is
/// well formed and dated within the range.
pub fn parse_git_logs(path: &str, email: &String, since: Date, until: Date) -> (r: Result<
    Vec<CommitInfo>,
    StatsError,
>)
    ensures
        since.days > until.days <==> (r matches Err(e) && e is InvalidDateRange),
        r matches Ok(v) ==> forall|i: int|
            0 <= i < v@.len() ==> (#[trigger] v@[i]).wf() && since.days <= v@[i].time.days
                <= until.days,
{
    if since.days > until.days {
        return Err(StatsError::InvalidDateRange);
    }
    let repo = match open_repository(path) {
        Ok(r) => r,
        Err(e) => {
            return Err(StatsError::Repository(error_message(&e)));
        },
    };
    let mut walk = match create_revwalk(&repo) {
        Ok(w) => w,
        Err(e) => {
            return Err(StatsError::Repository(error_message(&e)));
        },
    };
    let mut branches = match local_branches(&repo) {
        Ok(b) => b,
        Err(e) => {
            return Err(StatsError::Repository(error_message(&e)));
        },
    };
    // The walks end when their iterators do; the counters exist only to
    // give the loops a decreasing measure, and can never run out first: a
    // repository cannot hold more objects than addressable memory.
    let mut fuel: usize = usize::MAX;
    while fuel > 0
        invariant
            since.days <= until.days,
        decreases fuel,
    {
        fuel = fuel - 1;
        match next_branch_tip(&mut branches) {
            None => {
                break ;
            },
            Some(Err(e)) => {
                return Err(StatsError::Repository(error_message(&e)));
            },
            Some(Ok(None)) => {},
            Some(Ok(Some(oid))) => {
                match revwalk_push(&mut walk, oid) {
                    Ok(_) => {},
                    Err(e) => {
                        return Err(StatsError::Repository(error_message(&e)));
                    },
                }
            },
        }
    }
    match revwalk_sort_by_time(&mut walk) {
        Ok(_) => {},
        Err(e) => {
            return Err(StatsError::Repository(error_message(&e)));
        },
    }
    let mut raws: Vec<RawCommit> = Vec::new();
    let mut fuel2: usize = usize::MAX;
    while fuel2 > 0
        invariant
            since.days <= until.days,
            forall|k: int| 0 <= k < raws@.len() ==> (#[trigger] raws@[k]).time.wf(),
        decreases fuel2,
    {
        fuel2 = fuel2 - 1;
        match next_commit_id(&mut walk) {
            None => {
                break ;
            },
            Some(Err(_)) => {},
            Some(Ok(oid)) => {
                match find_commit(&repo, oid) {
                    Err(_) => {},
                    Ok(commit) => {
                        let secs = commit_time_seconds(&commit);
                        match local_time_of_timestamp(secs) {
                            None => {},
                            Some(time) => {
                                let id = oid_bytes(&oid);
                                let author_email = commit_author_email(&commit);
                                let message = commit_message_text(&commit);
                                raws.push(RawCommit { id, author_email, time, message });
                            },
                        }
                    },
                }
            },
        }
    }
    let out = filter_commits(&raws, email, since, until);
    proof {
        filter_rec_matches(raws@, Set::empty(), email@, since, until);
        filter_rec_from_input(raws@, Set::empty(), email@, since, until);
        assert forall|i: int| 0 <= i < out@.len() implies (#[trigger] out@[i]).wf() && since.days
            <= out@[i].time.days <= until.days by {
            let kept = retained(raws@, email@, since, until);
            assert(out@[i] == record_of(kept[i]));
            assert(raw_matches(kept[i], email@, since, until));
            let k = choose|k: int| 0 <= k < raws@.len() && kept[i] == raws@[k];
            assert(raws@[k].time.wf());
        }
    }
    Ok(out)
}

/// Every kept commit matches the author and lies within the range,
/// whatever was already visited.
proof fn filter_rec_matches(
    s: Seq<RawCommit>,
    seen: Set<Seq<u8>>,
    email: Seq<char>,
    since: Date,
    until: Date,
)
    ensures
        forall|i: int|
            0 <= i < filter_rec(s, seen, email, since, until).len() ==> raw_matches(
                #[trigger] filter_rec(s, seen, email, since, until)[i],
                email,
                since,
                until,
            ),
    decreases s.len(),
{
    if s.len() > 0 {
        let rest = s.drop_first();
        let f = filter_rec(s, seen, email, since, until);
        if seen.contains(s[0].id@) {
            filter_rec_matches(rest, seen, email, since, until);
            assert(f == filter_rec(rest, seen, email, since, until));
            assert forall|i: int| 0 <= i < f.len() implies raw_matches(
                f[i],
                email,
                since,
                until,
            ) by {
                assert(f[i] == filter_rec(rest, seen, email, since, until)[i]);
            }
        } else if raw_matches(s[0], email, since, until) {
            filter_rec_matches(rest, seen.insert(s[0].id@), email, since, until);
            let fr = filter_rec(rest, seen.insert(s[0].id@), email, since, until);
            assert(f == seq![s[0]] + fr);
            assert forall|i: int| 0 <= i < f.len() implies raw_matches(
                f[i],
                email,
                since,
                until,
            ) by {
                if i == 0 {
                    assert(f[0] == s[0]);
                } else {
                    assert(f[i] == fr[i - 1]);
                }
            }
        } else {
            filter_rec_matches(rest, seen.insert(s[0].id@), email, since, until);
            let sn = seen.insert(s[0].id@);
            assert(f == filter_rec(rest, sn, email, since, until));
            assert forall|i: int| 0 <= i < f.len() implies raw_matches(
                f[i],
                email,
                since,
                until,
            ) by {
                assert(f[i] == filter_rec(rest, sn, email, since, until)[i]);
            }
        }
    }
}

/// Every kept commit is one of the commits that were read.
proof fn filter_rec_from_input(
    s: Seq<RawCommit>,
    seen: Set<Seq<u8>>,
    email: Seq<char>,
    since: Date,
    until: Date,
)
    ensures
        forall|i: int|
            0 <= i < filter_rec(s, seen, email, since, until).len() ==> exists|k: int|
                0 <= k < s.len() && #[trigger] filter_rec(s, seen, email, since, until)[i] == s[k],
    decreases s.len(),
{
    if s.len() > 0 {
        let rest = s.drop_first();
        let f = filter_rec(s, seen, email, since, until);
        if seen.contains(s[0].id@) {
            filter_rec_from_input(rest, seen, email, since, until);
            let fr = filter_rec(rest, seen, email, since, until);
            assert(f == fr);
            assert forall|i: int| 0 <= i < f.len() implies exists|k: int|
                0 <= k < s.len() && #[trigger] f[i] == s[k] by {
                let k = choose|k: int| 0 <= k < rest.len() && fr[i] == rest[k];
                assert(f[i] == s[k + 1]);
            }
        } else if raw_matches(s[0], email, since, until) {
            filter_rec_from_input(rest, seen.insert(s[0].id@), email, since, until);
            let fr = filter_rec(rest, seen.insert(s[0].id@), email, since, until);
            assert(f == seq![s[0]] + fr);
            assert forall|i: int| 0 <= i < f.len() implies exists|k: int|
                0 <= k < s.len() && #[trigger] f[i] == s[k] by {
                if i == 0 {
                    assert(f[0] == s[0]);
                } else {
                    assert(f[i] == fr[i - 1]);
                    let k = choose|k: int| 0 <= k < rest.len() && fr[i - 1] == rest[k];
                    assert(f[i] == s[k + 1]);
                }
            }
        } else {
            filter_rec_from_input(rest, seen.insert(s[0].id@), email, since, until);
            let fr = filter_rec(rest, seen.insert(s[0].id@), email, since, until);
            assert(f == fr);
            assert forall|i: int| 0 <= i < f.len() implies exists|k: int|
                0 <= k < s.len() && #[trigger] f[i] == s[k] by {
                let k = choose|k: int| 0 <= k < rest.len() && fr[i] == rest[k];
                assert(f[i] == s[k + 1]);
            }
        }
    }
}

/// No commit identifier appears twice among the kept commits, and none
/// that was already visited appears at all.
proof fn filter_rec_ids_unique(
    s: Seq<RawCommit>,
    seen: Set<Seq<u8>>,
    email: Seq<char>,
    since: Date,
    until: Date,
)
    ensures
        forall|i: int|
            0 <= i < filter_rec(s, seen, email, since, until).len() ==> !seen.contains(
                (#[trigger] filter_rec(s, seen, email, since, until)[i]).id@,
            ),
        forall|i: int, j: int|
            0 <= i < j < filter_rec(s, seen, email, since, until).len() ==> (
            #[trigger] filter_rec(s, seen, email, since, until)[i]).id@ != (
            #[trigger] filter_rec(s, seen, email, since, until)[j]).id@,
    decreases s.len(),
{
    if s.len() > 0 {
        let rest = s.drop_first();
        let f = filter_rec(s, seen, email, since, until);
        if seen.contains(s[0].id@) {
            filter_rec_ids_unique(rest, seen, email, since, until);
        } else if raw_matches(s[0], email, since, until) {
            filter_rec_ids_unique(rest, seen.insert(s[0].id@), email, since, until);
            let fr = filter_rec(rest, seen.insert(s[0].id@), email, since, until);
            assert(f == seq![s[0]] + fr);
            assert forall|i: int| 0 <= i < f.len() implies !seen.contains(
                (#[trigger] f[i]).id@,
            ) by {
                if i == 0 {
                    assert(f[0] == s[0]);
                } else {
                    assert(f[i] == fr[i - 1]);
                    assert(!seen.insert(s[0].id@).contains(fr[i - 1].id@));
                }
            }
            assert forall|i: int, j: int| 0 <= i < j < f.len() implies (#[trigger] f[i]).id@ != (
            #[trigger] f[j]).id@ by {
                if i == 0 {
                    assert(f[0] == s[0]);
                    assert(f[j] == fr[j - 1]);
                    assert(!seen.insert(s[0].id@).contains(fr[j - 1].id@));
                    assert(seen.insert(s[0].id@).contains(s[0].id@));
                } else {
                    assert(f[i] == fr[i - 1] && f[j] == fr[j - 1]);
                }
            }
        } else {
            filter_rec_ids_unique(rest, seen.insert(s[0].id@), email, since, until);
            let fr = filter_rec(rest, seen.insert(s[0].id@), email, since, until);
            assert(f == fr);
            assert forall|i: int| 0 <= i < f.len() implies !seen.contains(
                (#[trigger] f[i]).id@,
            ) by {
                assert(!seen.insert(s[0].id@).contains(f[i].id@));
            }
        }
    }
}

/// When every commit in `s` has a distinct identifier and none was seen
/// before, deduplication changes nothing: the kept commits are exactly
/// the matching ones, in order.
proof fn filter_rec_is_filter(
    s: Seq<RawCommit>,
    seen: Set<Seq<u8>>,
    email: Seq<char>,
    since: Date,
    until: Date,
)
    requires
        forall|i: int, j: int|
            0 <= i < j < s.len() ==> (#[trigger] s[i]).id@ != (#[trigger] s[j]).id@,
        forall|i: int| 0 <= i < s.len() ==> !seen.contains((#[trigger] s[i]).id@),
    ensures
        filter_rec(s, seen, email, since, until) == s.filter(
            |c: RawCommit| raw_matches(c, email, since, until),
        ),
    decreases s.len(),
{
    broadcast use vstd::seq_lib::group_filter_ensures;

    let p = |c: RawCommit| raw_matches(c, email, since, until);
    if s.len() == 0 {
        reveal(Seq::filter);
        assert(s.filter(p) =~= Seq::<RawCommit>::empty());
    } else {
        let rest = s.drop_first();
        assert(forall|i: int, j: int|
            0 <= i < j < rest.len() ==> (#[trigger] rest[i]).id@ != (#[trigger] rest[j]).id@) by {
            assert(forall|i: int| 0 <= i < rest.len() ==> rest[i] == s[i + 1]);
        }
        assert(forall|i: int|
            0 <= i < rest.len() ==> !seen.insert(s[0].id@).contains((#[trigger] rest[i]).id@)) by {
            assert(forall|i: int| 0 <= i < rest.len() ==> rest[i] == s[i + 1]);
        }
        filter_rec_is_filter(rest, seen.insert(s[0].id@), email, since, until);
        assert(!seen.contains(s[0].id@));
        rest.lemma_filter_prepend(s[0], p);
        assert(seq![s[0]] + rest =~= s);
        if p(s[0]) {
            assert(s.filter(p) == seq![s[0]] + rest.filter(p));
        } else {
            assert(Seq::<RawCommit>::empty() + rest.filter(p) =~= rest.filter(p));
            assert(s.filter(p) == rest.filter(p));
        }
    }
}

/// Every record the extraction keeps matches the requested author
/// exactly and is dated within `[since, until]`, inclusive at both ends.
pub proof fn lemma_retained_in_range(s: Seq<RawCommit>, email: Seq<char>, since: Date, until: Date)
    ensures
        forall|i: int|
            0 <= i < retained(s, email, since, until).len() ==> raw_matches(
                #[trigger] retained(s, email, since, until)[i],
                email,
                since,
                until,
            ),
{
    filter_rec_matches(s, Set::empty(), email, since, until);
}

/// A commit reachable along two paths — the same identifier read twice —
/// appears at most once: no identifier repeats among the kept commits.
pub proof fn lemma_retained_counts_each_commit_once(
    s: Seq<RawCommit>,
    email: Seq<char>,
    since: Date,
    until: Date,
)
    ensures
        forall|i: int, j: int|
            0 <= i < j < retained(s, email, since, until).len() ==> (#[trigger] retained(
                s,
                email,
                since,
                until,
            )[i]).id@ != (#[trigger] retained(s, email, since, until)[j]).id@,
{
    filter_rec_ids_unique(s, Set::empty(), email, since, until);
}

/// When every read commit has a distinct identifier — as one walk of one
/// repository yields — extraction keeps exactly the matching commits, in
/// order: with N commits matching the author and range, it returns N
/// records.
pub proof fn lemma_retained_keeps_every_match(
    s: Seq<RawCommit>,
    email: Seq<char>,
    since: Date,
    until: Date,
)
    requires
        forall|i: int, j: int|
            0 <= i < j < s.len() ==> (#[trigger] s[i]).id@ != (#[trigger] s[j]).id@,
    ensures
        retained(s, email, since, until) == s.filter(
            |c: RawCommit| raw_matches(c, email, since, until),
        ),
{
    filter_rec_is_filter(s, Set::empty(), email, since, until);
}

} // verus!
