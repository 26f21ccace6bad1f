//! Sums of sequences.

use vstd::prelude::*;

verus! {

/// The sum of the numbers of `s`.
pub open spec fn sum(s: Seq<int>) -> int
    decreases s.len(),
{
    if s.len() == 0 {
        0
    } else {
        sum(s.drop_last()) + s.last()
    }
}

/// Replacing one number changes the sum by the difference.
pub proof fn lemma_sum_update(s: Seq<int>, i: int, value: int)
    requires
        0 <= i < s.len(),
    ensures
        sum(s.update(i, value)) == sum(s) - s[i] + value,
    decreases s.len(),
{
    let updated = s.update(i, value);
    if i == s.len() - 1 {
        assert(updated.drop_last() =~= s.drop_last());
    } else {
        lemma_sum_update(s.drop_last(), i, value);
        assert(updated.drop_last() =~= s.drop_last().update(i, value));
    }
}

/// Taking one number out lessens the sum by it.
pub proof fn lemma_sum_remove(s: Seq<int>, i: int)
    requires
        0 <= i < s.len(),
    ensures
        sum(s.remove(i)) == sum(s) - s[i],
    decreases s.len(),
{
    let removed = s.remove(i);
    if i == s.len() - 1 {
        assert(removed =~= s.drop_last());
    } else {
        lemma_sum_remove(s.drop_last(), i);
        assert(removed.drop_last() =~= s.drop_last().remove(i));
        assert(removed.last() == s.last());
    }
}

/// Putting one number in raises the sum by it.
pub proof fn lemma_sum_insert(s: Seq<int>, i: int, value: int)
    requires
        0 <= i <= s.len(),
    ensures
        sum(s.insert(i, value)) == sum(s) + value,
{
    lemma_sum_remove(s.insert(i, value), i);
    assert(s.insert(i, value).remove(i) =~= s);
}

/// Numbers that are each at most those of `t` have at most the sum of `t`.
pub proof fn lemma_sum_monotone(s: Seq<int>, t: Seq<int>)
    requires
        s.len() == t.len(),
        forall|i: int| 0 <= i < s.len() ==> #[trigger] s[i] <= t[i],
    ensures
        sum(s) <= sum(t),
    decreases s.len(),
{
    if s.len() > 0 {
        lemma_sum_monotone(s.drop_last(), t.drop_last());
    }
}

/// Numbers from zero up to `bound` have a sum from zero up to as many times `bound`.
pub proof fn lemma_sum_bound(s: Seq<int>, bound: int)
    requires
        forall|i: int| 0 <= i < s.len() ==> 0 <= #[trigger] s[i] <= bound,
    ensures
        0 <= sum(s) <= s.len() * bound,
    decreases s.len(),
{
    if s.len() > 0 {
        lemma_sum_bound(s.drop_last(), bound);
        assert(s.len() * bound == (s.len() - 1) * bound + bound) by (nonlinear_arith);
    }
}

} // verus!
