use vstd::prelude::*;
use vstd::seq_lib::group_seq_properties;

verus! {

/// The sum of `f` over the elements of `s`.
pub open spec fn sum_by<A>(s: Seq<A>, f: spec_fn(A) -> int) -> int
    decreases s.len(),
{
    if s.len() == 0 {
        0
    } else {
        sum_by(s.drop_last(), f) + f(s.last())
    }
}

/// The sum over one element is its weight.
pub proof fn lemma_sum_by_singleton<A>(x: A, f: spec_fn(A) -> int)
    ensures
        sum_by(seq![x], f) == f(x),
{
    assert(seq![x].drop_last() =~= Seq::<A>::empty());
    assert(seq![x].last() == x);
    assert(sum_by(seq![x], f) == sum_by(Seq::<A>::empty(), f) + f(x));
}

/// Extending a prefix of `s` by one element grows the sum by its weight.
pub proof fn lemma_sum_by_take_step<A>(s: Seq<A>, f: spec_fn(A) -> int, i: int)
    requires
        0 <= i < s.len(),
    ensures
        sum_by(s.take(i + 1), f) == sum_by(s.take(i), f) + f(s[i]),
{
    assert(s.take(i + 1).drop_last() =~= s.take(i));
    assert(s.take(i + 1).last() == s[i]);
}

/// The sum over a whole sequence is the sum over its full prefix.
pub proof fn lemma_sum_by_take_all<A>(s: Seq<A>, f: spec_fn(A) -> int)
    ensures
        sum_by(s.take(s.len() as int), f) == sum_by(s, f),
{
    assert(s.take(s.len() as int) =~= s);
}

/// Sums add over concatenation.
pub proof fn lemma_sum_by_concat<A>(s1: Seq<A>, s2: Seq<A>, f: spec_fn(A) -> int)
    ensures
        sum_by(s1 + s2, f) == sum_by(s1, f) + sum_by(s2, f),
    decreases s2.len(),
{
    if s2.len() == 0 {
        assert(s1 + s2 =~= s1);
    } else {
        assert((s1 + s2).drop_last() =~= s1 + s2.drop_last());
        assert((s1 + s2).last() == s2.last());
        lemma_sum_by_concat(s1, s2.drop_last(), f);
    }
}

/// A sum of non-negative weights is non-negative.
pub proof fn lemma_sum_by_nonneg<A>(s: Seq<A>, f: spec_fn(A) -> int)
    requires
        forall|k: int| 0 <= k < s.len() ==> f(#[trigger] s[k]) >= 0,
    ensures
        sum_by(s, f) >= 0,
    decreases s.len(),
{
    if s.len() > 0 {
        lemma_sum_by_nonneg(s.drop_last(), f);
    }
}

/// With non-negative weights, a prefix sum is at most the whole sum.
pub proof fn lemma_sum_by_prefix_le<A>(s: Seq<A>, f: spec_fn(A) -> int, i: int)
    requires
        0 <= i <= s.len(),
        forall|k: int| 0 <= k < s.len() ==> f(#[trigger] s[k]) >= 0,
    ensures
        sum_by(s.take(i), f) <= sum_by(s, f),
{
    assert(s =~= s.take(i) + s.skip(i));
    lemma_sum_by_concat(s.take(i), s.skip(i), f);
    assert(forall|k: int| 0 <= k < s.skip(i).len() ==> f(#[trigger] s.skip(i)[k]) >= 0);
    lemma_sum_by_nonneg(s.skip(i), f);
}

/// With non-negative weights, one element's weight is at most the sum.
pub proof fn lemma_sum_by_element_le<A>(s: Seq<A>, f: spec_fn(A) -> int, k: int)
    requires
        0 <= k < s.len(),
        forall|j: int| 0 <= j < s.len() ==> f(#[trigger] s[j]) >= 0,
    ensures
        f(s[k]) <= sum_by(s, f),
    decreases s.len(),
{
    if k == s.len() - 1 {
        lemma_sum_by_nonneg(s.drop_last(), f);
    } else {
        lemma_sum_by_element_le(s.drop_last(), f, k);
    }
}

/// The weight that counts each element once.
pub open spec fn one_weight<A>() -> spec_fn(A) -> int {
    |a: A| 1int
}

/// Counting each element once gives the length.
pub proof fn lemma_sum_by_one<A>(s: Seq<A>)
    ensures
        sum_by(s, one_weight()) == s.len(),
    decreases s.len(),
{
    if s.len() > 0 {
        lemma_sum_by_one(s.drop_last());
    }
}

/// Pointwise smaller weights give a smaller sum.
pub proof fn lemma_sum_by_le<A>(s: Seq<A>, f: spec_fn(A) -> int, g: spec_fn(A) -> int)
    requires
        forall|k: int| 0 <= k < s.len() ==> f(#[trigger] s[k]) <= g(s[k]),
    ensures
        sum_by(s, f) <= sum_by(s, g),
    decreases s.len(),
{
    if s.len() > 0 {
        lemma_sum_by_le(s.drop_last(), f, g);
    }
}

/// Two sequences whose elements carry the same weights position by position
/// have the same sum.
pub proof fn lemma_sum_by_pointwise<A, B>(
    s1: Seq<A>,
    s2: Seq<B>,
    f: spec_fn(A) -> int,
    g: spec_fn(B) -> int,
)
    requires
        s1.len() == s2.len(),
        forall|k: int| 0 <= k < s1.len() ==> f(#[trigger] s1[k]) == g(s2[k]),
    ensures
        sum_by(s1, f) == sum_by(s2, g),
    decreases s1.len(),
{
    if s1.len() > 0 {
        lemma_sum_by_pointwise(s1.drop_last(), s2.drop_last(), f, g);
    }
}

/// Removing the element at `i` takes its weight out of the sum.
pub proof fn lemma_sum_by_remove<A>(s: Seq<A>, f: spec_fn(A) -> int, i: int)
    requires
        0 <= i < s.len(),
    ensures
        sum_by(s.remove(i), f) == sum_by(s, f) - f(s[i]),
    decreases s.len(),
{
    if i == s.len() - 1 {
        assert(s.remove(i) =~= s.drop_last());
    } else {
        assert(s.remove(i).drop_last() =~= s.drop_last().remove(i));
        assert(s.remove(i).last() == s.last());
        lemma_sum_by_remove(s.drop_last(), f, i);
    }
}

/// Replacing the element at `i` swaps its weight in the sum.
pub proof fn lemma_sum_by_update<A>(s: Seq<A>, f: spec_fn(A) -> int, i: int, v: A)
    requires
        0 <= i < s.len(),
    ensures
        sum_by(s.update(i, v), f) == sum_by(s, f) - f(s[i]) + f(v),
    decreases s.len(),
{
    if i == s.len() - 1 {
        assert(s.update(i, v).drop_last() =~= s.drop_last());
        assert(s.update(i, v).last() == v);
    } else {
        assert(s.update(i, v).drop_last() =~= s.drop_last().update(i, v));
        assert(s.update(i, v).last() == s.last());
        lemma_sum_by_update(s.drop_last(), f, i, v);
    }
}

/// Sequences with the same elements, in any order, have the same sum: the
/// sum is a commutative, associative merge of the weights.
pub proof fn lemma_sum_by_permutation<A>(s1: Seq<A>, s2: Seq<A>, f: spec_fn(A) -> int)
    requires
        s1.to_multiset() == s2.to_multiset(),
    ensures
        sum_by(s1, f) == sum_by(s2, f),
    decreases s1.len(),
{
    broadcast use group_seq_properties;

    s1.to_multiset_ensures();
    s2.to_multiset_ensures();
    if s1.len() == 0 {
        assert(s2.len() == 0);
    } else {
        let x = s1.last();
        let i1 = s1.len() - 1;
        assert(s1.contains(x));
        assert(s1.to_multiset().count(x) > 0);
        assert(s2.to_multiset().count(x) > 0);
        assert(s2.contains(x));
        let i2 = choose|j: int| 0 <= j < s2.len() && s2[j] == x;
        assert(s1.remove(i1) =~= s1.drop_last());
        assert(s1.remove(i1).to_multiset() == s1.to_multiset().remove(x));
        assert(s2.remove(i2).to_multiset() == s2.to_multiset().remove(x));
        lemma_sum_by_permutation(s1.drop_last(), s2.remove(i2), f);
        lemma_sum_by_remove(s2, f, i2);
    }
}

} // verus!
