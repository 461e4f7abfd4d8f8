//! Sums of natural numbers over sequences, used to state how many bytes of
//! image data a store holds.

use vstd::prelude::*;

verus! {

/// The sum of all elements of `s`.
pub open spec fn seq_sum(s: Seq<nat>) -> nat
    decreases s.len(),
{
    if s.len() == 0 {
        0
    } else {
        s[0] + seq_sum(s.drop_first())
    }
}

/// Appending an element adds it to the sum.
pub proof fn lemma_sum_push(s: Seq<nat>, x: nat)
    ensures
        seq_sum(s.push(x)) == seq_sum(s) + x,
    decreases s.len(),
{
    if s.len() == 0 {
        assert(s.push(x).drop_first() =~= Seq::<nat>::empty());
        assert(seq_sum(s.push(x).drop_first()) == 0);
    } else {
        assert(s.push(x).drop_first() =~= s.drop_first().push(x));
        lemma_sum_push(s.drop_first(), x);
    }
}

/// Removing the element at `i` takes it off the sum.
pub proof fn lemma_sum_remove(s: Seq<nat>, i: int)
    requires
        0 <= i < s.len(),
    ensures
        seq_sum(s.remove(i)) + s[i] == seq_sum(s),
    decreases s.len(),
{
    if i == 0 {
        assert(s.remove(0) =~= s.drop_first());
    } else {
        assert(s.remove(i).drop_first() =~= s.drop_first().remove(i - 1));
        lemma_sum_remove(s.drop_first(), i - 1);
    }
}

/// Replacing the element at `i` replaces its share of the sum.
pub proof fn lemma_sum_update(s: Seq<nat>, i: int, x: nat)
    requires
        0 <= i < s.len(),
    ensures
        seq_sum(s.update(i, x)) + s[i] == seq_sum(s) + x,
{
    lemma_sum_remove(s, i);
    lemma_sum_remove(s.update(i, x), i);
    assert(s.update(i, x).remove(i) =~= s.remove(i));
}

/// No single element exceeds the sum.
pub proof fn lemma_sum_element(s: Seq<nat>, i: int)
    requires
        0 <= i < s.len(),
    ensures
        s[i] <= seq_sum(s),
{
    lemma_sum_remove(s, i);
}

/// The sum of a prefix grows by the next element.
pub proof fn lemma_sum_take_next(s: Seq<nat>, i: int)
    requires
        0 <= i < s.len(),
    ensures
        seq_sum(s.take(i + 1)) == seq_sum(s.take(i)) + s[i],
{
    assert(s.take(i + 1) =~= s.take(i).push(s[i]));
    lemma_sum_push(s.take(i), s[i]);
}

/// The sum over a concatenation is the sum of the sums.
pub proof fn lemma_sum_concat(a: Seq<nat>, b: Seq<nat>)
    ensures
        seq_sum(a + b) == seq_sum(a) + seq_sum(b),
    decreases a.len(),
{
    if a.len() == 0 {
        assert(a + b =~= b);
    } else {
        assert((a + b).drop_first() =~= a.drop_first() + b);
        lemma_sum_concat(a.drop_first(), b);
    }
}

/// A prefix never sums to more than the whole sequence.
pub proof fn lemma_sum_take_le(s: Seq<nat>, i: int)
    requires
        0 <= i <= s.len(),
    ensures
        seq_sum(s.take(i)) <= seq_sum(s),
{
    assert(s =~= s.take(i) + s.skip(i));
    lemma_sum_concat(s.take(i), s.skip(i));
}

} // verus!
