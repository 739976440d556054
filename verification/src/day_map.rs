use vstd::prelude::*;
use std::collections::HashMap;
use crate::sums::{lemma_sum_by_update, sum_by};

verus! {

/// The commit count recorded for day `d` in the entry list `s`: the value
/// of the first entry with key `d`, or 0 when no entry has that key.
pub open spec fn lookup(s: Seq<(i32, usize)>, d: i32) -> int
    decreases s.len(),
{
    if s.len() == 0 {
        0
    } else if s[0].0 == d {
        s[0].1 as int
    } else {
        lookup(s.drop_first(), d)
    }
}

/// The weight an entry contributes to the total of recorded counts.
pub open spec fn entry_weight() -> spec_fn((i32, usize)) -> int {
    |e: (i32, usize)| e.1 as int
}

/// The sum of all recorded counts.
pub open spec fn entries_total(s: Seq<(i32, usize)>) -> int {
    sum_by(s, entry_weight())
}

/// Whether the entry list `s` has an entry for day `d`.
pub open spec fn has_key(s: Seq<(i32, usize)>, d: i32) -> bool {
    exists|i: int| 0 <= i < s.len() && s[i].0 == d
}

/// A mapping from calendar dates (day numbers counted from the common era)
/// to commit counts, with one entry per date that has at least one commit.
/// The entries keep insertion order; a hash index beside them finds a
/// day's entry without scanning.
#[derive(Debug, Clone)]
pub struct DayMap {
    pub entries: Vec<(i32, usize)>,
    /// The position in `entries` of each recorded day; `wf` ties the two.
    pub positions: HashMap<i32, usize>,
}

impl DayMap {
    /// The entries, in insertion order.
    pub open spec fn entries_seq(self) -> Seq<(i32, usize)> {
        self.entries@
    }

    /// The count recorded for day `d`, 0 when the day is absent.
    pub open spec fn count_of(self, d: i32) -> int {
        lookup(self.entries@, d)
    }

    /// Well-formed: keys are unique, every recorded count is positive, and
    /// the position index lists exactly the recorded days, each at its
    /// entry's position.
    pub open spec fn wf(self) -> bool {
        &&& forall|i: int, j: int|
            0 <= i < j < self.entries@.len() ==> (#[trigger] self.entries@[i]).0 != (
            #[trigger] self.entries@[j]).0
        &&& forall|i: int| 0 <= i < self.entries@.len() ==> (#[trigger] self.entries@[i]).1 >= 1
        &&& forall|i: int|
            0 <= i < self.entries@.len() ==> self.positions@.contains_key(
                (#[trigger] self.entries@[i]).0,
            ) && self.positions@[self.entries@[i].0] as int == i
        &&& forall|d: i32|
            self.positions@.contains_key(d) ==> {
                &&& self.entries@.len() > (#[trigger] self.positions@[d]) as int
                &&& self.entries@[self.positions@[d] as int].0 == d
            }
    }

    /// An empty mapping.
    pub fn new() -> (r: DayMap)
        ensures
            r.wf(),
            r.entries_seq().len() == 0,
            forall|d: i32| r.count_of(d) == 0,
    {
        DayMap { entries: Vec::new(), positions: HashMap::new() }
    }

    /// The index of the entry for day `d`, if one exists: one lookup in
    /// the position index, no scan.
    fn find_index(&self, d: i32) -> (r: Option<usize>)
        requires
            self.wf(),
        ensures
            match r {
                Some(i) => i < self.entries@.len() && self.entries@[i as int].0 == d && forall|
                    k: int,
                |
                    0 <= k < i ==> (#[trigger] self.entries@[k]).0 != d,
                None => forall|k: int|
                    0 <= k < self.entries@.len() ==> (#[trigger] self.entries@[k]).0 != d,
            },
    {
        broadcast use vstd::std_specs::hash::group_hash_axioms;

        match self.positions.get(&d) {
            Some(i) => {
                let i = *i;
                proof {
                    assert(self.entries@[i as int].0 == d);
                    assert forall|k: int| 0 <= k < i implies (#[trigger] self.entries@[k]).0
                        != d by {
                        if self.entries@[k].0 == d {
                            assert(self.positions@[d] as int == k);
                        }
                    }
                }
                Some(i)
            },
            None => {
                proof {
                    assert forall|k: int| 0 <= k < self.entries@.len() implies (
                    #[trigger] self.entries@[k]).0 != d by {
                        if self.entries@[k].0 == d {
                            assert(self.positions@.contains_key(d));
                        }
                    }
                }
                None
            },
        }
    }

    /// Reads the count for day `d`; 0 when the day has no entry.
    pub fn get(&self, d: i32) -> (n: usize)
        requires
            self.wf(),
        ensures
            n == self.count_of(d),
            n > 0 ==> has_key(self.entries_seq(), d),
    {
        match self.find_index(d) {
            Some(i) => {
                proof {
                    lemma_lookup_found(self.entries@, d, i as int);
                }
                self.entries[i].1
            },
            None => {
                proof {
                    lemma_lookup_absent(self.entries@, d);
                }
                0
            },
        }
    }

    /// Adds `n` commits to day `d`, creating the entry when absent.
    pub fn add(&mut self, d: i32, n: usize)
        requires
            old(self).wf(),
            n >= 1,
            old(self).count_of(d) + n <= usize::MAX,
        ensures
            final(self).wf(),
            final(self).count_of(d) == old(self).count_of(d) + n,
            forall|d2: i32| d2 != d ==> final(self).count_of(d2) == old(self).count_of(d2),
            forall|d2: i32|
                has_key(final(self).entries_seq(), d2) == (has_key(old(self).entries_seq(), d2)
                    || d2 == d),
            entries_total(final(self).entries_seq()) == entries_total(old(self).entries_seq())
                + n,
    {
        broadcast use vstd::std_specs::hash::group_hash_axioms;

        match self.find_index(d) {
            Some(i) => {
                proof {
                    lemma_lookup_found(self.entries@, d, i as int);
                }
                let cur = self.entries[i].1;
                self.entries[i] = (d, cur + n);
                proof {
                    assert(forall|i2: int|
                        0 <= i2 < self.entries@.len() ==> (#[trigger] self.entries@[i2]).0 == old(
                            self,
                        ).entries@[i2].0);
                    lemma_sum_by_update(
                        old(self).entries@,
                        entry_weight(),
                        i as int,
                        (d, (cur + n) as usize),
                    );
                    lemma_lookup_found(self.entries@, d, i as int);
                    assert forall|d2: i32| d2 != d implies self.count_of(d2) == old(
                        self,
                    ).count_of(d2) by {
                        lemma_lookup_update_other(
                            old(self).entries@,
                            i as int,
                            (d, (cur + n) as usize),
                            d2,
                        );
                    }
                    assert forall|d2: i32|
                        has_key(self.entries_seq(), d2) == (has_key(
                            old(self).entries_seq(),
                            d2,
                        ) || d2 == d) by {
                        if has_key(self.entries_seq(), d2) {
                            let k = choose|k: int|
                                0 <= k < self.entries@.len() && self.entries@[k].0 == d2;
                            if k != i {
                                assert(old(self).entries@[k].0 == d2);
                            }
                        }
                        if has_key(old(self).entries_seq(), d2) {
                            let k = choose|k: int|
                                0 <= k < old(self).entries@.len() && old(self).entries@[k].0 == d2;
                            if k != i {
                                assert(self.entries@[k].0 == d2);
                            }
                        }
                    }
                }
            },
            None => {
                proof {
                    lemma_lookup_absent(self.entries@, d);
                }
                let pos = self.entries.len();
                self.entries.push((d, n));
                self.positions.insert(d, pos);
                proof {
                    assert(self.positions@ == old(self).positions@.insert(d, pos));
                    assert(self.entries@.drop_last() =~= old(self).entries@);
                    assert forall|i2: int| 0 <= i2 < self.entries@.len() implies self.positions@
                        .contains_key((#[trigger] self.entries@[i2]).0) && self.positions@[self
                        .entries@[i2].0] as int == i2 by {
                        if i2 < pos {
                            assert(self.entries@[i2] == old(self).entries@[i2]);
                            assert(old(self).entries@[i2].0 != d);
                        } else {
                            assert(self.entries@[i2].0 == d);
                        }
                    }
                    assert forall|d2: i32| self.positions@.contains_key(d2) implies self.entries@
                        .len() > (#[trigger] self.positions@[d2]) as int && self.entries@[self
                        .positions@[d2] as int].0 == d2 by {
                        if d2 != d {
                            assert(old(self).positions@.contains_key(d2));
                            assert(self.entries@[old(self).positions@[d2] as int] == old(
                                self,
                            ).entries@[old(self).positions@[d2] as int]);
                        }
                    }
                    assert(entries_total(self.entries@) == entries_total(old(self).entries@)
                        + n);
                    lemma_lookup_found(self.entries@, d, self.entries@.len() - 1);
                    assert forall|d2: i32| d2 != d implies self.count_of(d2) == old(
                        self,
                    ).count_of(d2) by {
                        lemma_lookup_push_other(old(self).entries@, (d, n), d2);
                    }
                    assert forall|d2: i32|
                        has_key(self.entries_seq(), d2) == (has_key(
                            old(self).entries_seq(),
                            d2,
                        ) || d2 == d) by {
                        if has_key(self.entries_seq(), d2) {
                            let k = choose|k: int|
                                0 <= k < self.entries@.len() && self.entries@[k].0 == d2;
                            if k < old(self).entries@.len() {
                                assert(old(self).entries@[k].0 == d2);
                            }
                        }
                        if has_key(old(self).entries_seq(), d2) {
                            let k = choose|k: int|
                                0 <= k < old(self).entries@.len() && old(self).entries@[k].0 == d2;
                            assert(self.entries@[k].0 == d2);
                        }
                    }
                }
            },
        }
    }

    /// The number of entries.
    pub fn entry_count(&self) -> (n: usize)
        ensures
            n == self.entries_seq().len(),
    {
        self.entries.len()
    }

    /// The entry at index `i`, in insertion order.
    pub fn entry_at(&self, i: usize) -> (e: (i32, usize))
        requires
            i < self.entries_seq().len(),
        ensures
            e == self.entries_seq()[i as int],
    {
        self.entries[i]
    }
}

/// When no entry of `s` has key `d`, the lookup gives 0.
pub proof fn lemma_lookup_absent(s: Seq<(i32, usize)>, d: i32)
    requires
        forall|k: int| 0 <= k < s.len() ==> (#[trigger] s[k]).0 != d,
    ensures
        lookup(s, d) == 0,
        !has_key(s, d),
    decreases s.len(),
{
    if s.len() > 0 {
        lemma_lookup_absent(s.drop_first(), d);
    }
}

/// When the first entry with key `d` stands at index `i`, the lookup gives
/// its value.
pub proof fn lemma_lookup_found(s: Seq<(i32, usize)>, d: i32, i: int)
    requires
        0 <= i < s.len(),
        s[i].0 == d,
        forall|k: int| 0 <= k < i ==> (#[trigger] s[k]).0 != d,
    ensures
        lookup(s, d) == s[i].1,
        has_key(s, d),
    decreases i,
{
    if i > 0 {
        lemma_lookup_found(s.drop_first(), d, i - 1);
    }
}

/// Updating an entry whose key is not `d2` leaves the lookup of `d2` alone.
proof fn lemma_lookup_update_other(s: Seq<(i32, usize)>, i: int, v: (i32, usize), d2: i32)
    requires
        0 <= i < s.len(),
        s[i].0 != d2,
        v.0 != d2,
    ensures
        lookup(s.update(i, v), d2) == lookup(s, d2),
    decreases s.len(),
{
    if i == 0 {
        assert(s.update(0, v).drop_first() =~= s.drop_first());
    } else {
        assert(s.update(i, v).drop_first() =~= s.drop_first().update(i - 1, v));
        lemma_lookup_update_other(s.drop_first(), i - 1, v, d2);
    }
}

/// Appending an entry whose key is not `d2` leaves the lookup of `d2` alone.
proof fn lemma_lookup_push_other(s: Seq<(i32, usize)>, v: (i32, usize), d2: i32)
    requires
        v.0 != d2,
    ensures
        lookup(s.push(v), d2) == lookup(s, d2),
    decreases s.len(),
{
    let p = s.push(v);
    assert(p.len() == s.len() + 1);
    if s.len() == 0 {
        assert(p[0] == v);
        assert(p.drop_first() =~= Seq::<(i32, usize)>::empty());
        assert(lookup(p, d2) == lookup(p.drop_first(), d2));
        assert(lookup(p.drop_first(), d2) == 0);
    } else {
        assert(p[0] == s[0]);
        assert(p.drop_first() =~= s.drop_first().push(v));
        lemma_lookup_push_other(s.drop_first(), v, d2);
        if s[0].0 == d2 {
            assert(lookup(p, d2) == p[0].1 as int);
            assert(lookup(s, d2) == s[0].1 as int);
        } else {
            assert(lookup(p, d2) == lookup(p.drop_first(), d2));
            assert(lookup(s, d2) == lookup(s.drop_first(), d2));
        }
    }
}

} // verus!
