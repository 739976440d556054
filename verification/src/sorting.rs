use vstd::prelude::*;
use vstd::seq_lib::group_seq_properties;

verus! {

/// A ranking entry seen abstractly: a display name and a count.
pub type Ranked = (Seq<char>, int);

/// Inserts `x` into `s` before the first entry whose count is strictly
/// smaller, so equal counts keep their existing order.
pub open spec fn insert_desc(x: Ranked, s: Seq<Ranked>) -> Seq<Ranked>
    decreases s.len(),
{
    if s.len() == 0 {
        seq![x]
    } else if x.1 > s[0].1 {
        seq![x] + s
    } else {
        seq![s[0]] + insert_desc(x, s.drop_first())
    }
}

/// Stable insertion sort by descending count: entries with equal counts
/// stay in their insertion order.
pub open spec fn sort_desc(s: Seq<Ranked>) -> Seq<Ranked>
    decreases s.len(),
{
    if s.len() == 0 {
        Seq::empty()
    } else {
        insert_desc(s.last(), sort_desc(s.drop_last()))
    }
}

/// Counts never increase along the sequence.
pub open spec fn sorted_desc(s: Seq<Ranked>) -> bool {
    forall|i: int, j: int| 0 <= i < j < s.len() ==> (#[trigger] s[i]).1 >= (#[trigger] s[j]).1
}

/// Where the insertion lands: when the first `j` entries have counts at
/// least `x.1` and entry `j` (if any) has a smaller count, `x` goes in at
/// index `j`.
pub proof fn lemma_insert_desc_split(x: Ranked, s: Seq<Ranked>, j: int)
    requires
        0 <= j <= s.len(),
        forall|k: int| 0 <= k < j ==> (#[trigger] s[k]).1 >= x.1,
        j < s.len() ==> s[j].1 < x.1,
    ensures
        insert_desc(x, s) == s.take(j) + seq![x] + s.skip(j),
    decreases j,
{
    if s.len() == 0 {
        assert(insert_desc(x, s) =~= s.take(j) + seq![x] + s.skip(j));
    } else if j == 0 {
        if x.1 > s[0].1 {
            assert(insert_desc(x, s) =~= s.take(0) + seq![x] + s.skip(0));
        } else {
            assert(false);
        }
    } else {
        assert(s[0].1 >= x.1);
        assert(!(x.1 > s[0].1));
        lemma_insert_desc_split(x, s.drop_first(), j - 1);
        assert(seq![s[0]] + (s.drop_first().take(j - 1) + seq![x] + s.drop_first().skip(j - 1))
            =~= s.take(j) + seq![x] + s.skip(j));
    }
}

/// Inserting into a descending sequence keeps it descending.
pub proof fn lemma_insert_desc_sorted(x: Ranked, s: Seq<Ranked>)
    requires
        sorted_desc(s),
    ensures
        sorted_desc(insert_desc(x, s)),
    decreases s.len(),
{
    if s.len() == 0 {
    } else if x.1 > s[0].1 {
        assert(forall|j: int|
            0 <= j < s.len() ==> (#[trigger] s[j]).1 <= s[0].1) by {
            assert(forall|j: int| 1 <= j < s.len() ==> (#[trigger] s[j]).1 <= s[0].1);
        }
    } else {
        assert(sorted_desc(s.drop_first()));
        lemma_insert_desc_sorted(x, s.drop_first());
        let r = seq![s[0]] + insert_desc(x, s.drop_first());
        let inner = insert_desc(x, s.drop_first());
        assert forall|i: int, j: int| 0 <= i < j < r.len() implies (#[trigger] r[i]).1 >= (
        #[trigger] r[j]).1 by {
            if i == 0 {
                assert(r[j] == inner[j - 1]);
                lemma_insert_desc_head_le(x, s.drop_first(), s[0], j - 1);
            } else {
                assert(r[i] == inner[i - 1] && r[j] == inner[j - 1]);
            }
        }
    }
}

/// Every entry of `insert_desc(x, s)` has a count at most `c`, whenever
/// both `x` and every entry of `s` do.
proof fn lemma_insert_desc_head_le(x: Ranked, s: Seq<Ranked>, h: Ranked, j: int)
    requires
        x.1 <= h.1,
        forall|k: int| 0 <= k < s.len() ==> (#[trigger] s[k]).1 <= h.1,
        0 <= j < insert_desc(x, s).len(),
    ensures
        insert_desc(x, s)[j].1 <= h.1,
    decreases s.len(),
{
    if s.len() == 0 {
    } else if x.1 > s[0].1 {
    } else {
        if j > 0 {
            assert(forall|k: int|
                0 <= k < s.drop_first().len() ==> (#[trigger] s.drop_first()[k]).1 <= h.1);
            lemma_insert_desc_head_le(x, s.drop_first(), h, j - 1);
        }
    }
}

/// The insertion keeps exactly the entries it was given.
pub proof fn lemma_insert_desc_multiset(x: Ranked, s: Seq<Ranked>)
    ensures
        insert_desc(x, s).to_multiset() == s.to_multiset().insert(x),
    decreases s.len(),
{
    broadcast use group_seq_properties;

    if s.len() == 0 {
        assert(insert_desc(x, s) =~= Seq::<Ranked>::empty().push(x));
        assert(Seq::<Ranked>::empty().push(x).to_multiset() =~= s.to_multiset().insert(x));
    } else if x.1 > s[0].1 {
        lemma_push_front_multiset(x, s);
    } else {
        lemma_insert_desc_multiset(x, s.drop_first());
        lemma_push_front_multiset(s[0], insert_desc(x, s.drop_first()));
        lemma_push_front_multiset(s[0], s.drop_first());
        assert(seq![s[0]] + s.drop_first() =~= s);
        assert(insert_desc(x, s).to_multiset() =~= s.to_multiset().insert(x));
    }
}

/// Prepending an element inserts it into the multiset of elements.
proof fn lemma_push_front_multiset(x: Ranked, s: Seq<Ranked>)
    ensures
        (seq![x] + s).to_multiset() == s.to_multiset().insert(x),
    decreases s.len(),
{
    broadcast use group_seq_properties;

    if s.len() == 0 {
        assert(seq![x] + s =~= Seq::<Ranked>::empty().push(x));
        assert((Seq::<Ranked>::empty().push(x)).to_multiset() =~= s.to_multiset().insert(x));
    } else {
        assert((seq![x] + s).drop_last() =~= seq![x] + s.drop_last());
        lemma_push_front_multiset(x, s.drop_last());
        assert(seq![x] + s =~= (seq![x] + s.drop_last()).push(s.last()));
        s.to_multiset_ensures();
        (seq![x] + s.drop_last()).to_multiset_ensures();
        assert(s.drop_last().push(s.last()) =~= s);
        assert((seq![x] + s).to_multiset() =~= s.to_multiset().insert(x));
    }
}

/// The sort is a permutation: it keeps exactly the entries it was given.
pub proof fn lemma_sort_desc_multiset(s: Seq<Ranked>)
    ensures
        sort_desc(s).to_multiset() == s.to_multiset(),
    decreases s.len(),
{
    broadcast use group_seq_properties;

    if s.len() > 0 {
        lemma_sort_desc_multiset(s.drop_last());
        lemma_insert_desc_multiset(s.last(), sort_desc(s.drop_last()));
        s.to_multiset_ensures();
        assert(s.drop_last().push(s.last()) =~= s);
        assert(sort_desc(s).to_multiset() =~= s.to_multiset());
    }
}

/// The sort's result is descending by count.
pub proof fn lemma_sort_desc_sorted(s: Seq<Ranked>)
    ensures
        sorted_desc(sort_desc(s)),
    decreases s.len(),
{
    if s.len() > 0 {
        lemma_sort_desc_sorted(s.drop_last());
        lemma_insert_desc_sorted(s.last(), sort_desc(s.drop_last()));
    }
}

} // verus!
