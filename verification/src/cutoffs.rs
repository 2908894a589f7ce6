//! Cutoff positions: a non-decreasing sequence of ranks, and the count of
//! those at or before a given rank.

use vstd::prelude::*;

verus! {

/// `c` never decreases from one position to the next.
pub open spec fn sorted(c: Seq<usize>) -> bool {
    forall|i: int, j: int| 0 <= i <= j < c.len() ==> c[i] <= c[j]
}

/// How many entries of `c` are at or before rank `p`.
pub open spec fn count_at_or_before(c: Seq<usize>, p: int) -> nat
    decreases c.len(),
{
    if c.len() == 0 {
        0
    } else {
        count_at_or_before(c.drop_last(), p) + if c.last() <= p {
            1nat
        } else {
            0nat
        }
    }
}

/// In a sorted sequence the entries at or before `p` are exactly the first
/// `count_at_or_before(c, p)` ones.
pub proof fn lemma_count_splits(c: Seq<usize>, p: int)
    requires
        sorted(c),
    ensures
        count_at_or_before(c, p) <= c.len(),
        forall|j: int| 0 <= j < count_at_or_before(c, p) ==> c[j] <= p,
        forall|j: int| count_at_or_before(c, p) <= j < c.len() ==> c[j] > p,
    decreases c.len(),
{
    if c.len() > 0 {
        let front = c.drop_last();
        lemma_count_splits(front, p);
        let k = count_at_or_before(front, p);
        if c.last() <= p {
            if k < front.len() {
                assert(front[k as int] > p);
            }
        } else {
            assert forall|j: int| 0 <= j < count_at_or_before(c, p) implies c[j] <= p by {
                assert(front[j] <= p);
            }
        }
    }
}

/// A position that splits a sorted sequence into the entries at or before `p`
/// and those past it is the count of the former.
pub proof fn lemma_split_is_count(c: Seq<usize>, p: int, k: int)
    requires
        sorted(c),
        0 <= k <= c.len(),
        forall|j: int| 0 <= j < k ==> c[j] <= p,
        forall|j: int| k <= j < c.len() ==> c[j] > p,
    ensures
        count_at_or_before(c, p) == k,
{
    lemma_count_splits(c, p);
    let k0 = count_at_or_before(c, p) as int;
    if k0 < k {
        assert(c[k0] > p);
    } else if k0 > k {
        assert(c[k] <= p);
    }
}

/// The count grows with the rank.
pub proof fn lemma_count_grows(c: Seq<usize>, p: int, r: int)
    requires
        sorted(c),
        p <= r,
    ensures
        count_at_or_before(c, p) <= count_at_or_before(c, r),
{
    lemma_count_splits(c, p);
    lemma_count_splits(c, r);
    let kp = count_at_or_before(c, p) as int;
    let kr = count_at_or_before(c, r) as int;
    if kr < kp {
        assert(c[kr] > r);
    }
}

/// Where position `q` of a sorted sequence lies against the counts around a
/// rank `r`: among the entries equal to `r`, before them, or after them.
pub proof fn lemma_position_against_counts(c: Seq<usize>, q: int, r: int)
    requires
        sorted(c),
        0 <= q < c.len(),
    ensures
        c[q] == r ==> count_at_or_before(c, r - 1) <= q < count_at_or_before(c, r),
        c[q] < r ==> q < count_at_or_before(c, r - 1),
        c[q] > r ==> count_at_or_before(c, r) <= q,
        count_at_or_before(c, r - 1) <= count_at_or_before(c, r) <= c.len(),
{
    lemma_count_splits(c, r - 1);
    lemma_count_splits(c, r);
    lemma_count_grows(c, r - 1, r);
}

/// Tells whether a slice never decreases from one position to the next.
pub fn is_sorted(c: &[usize]) -> (b: bool)
    ensures
        b == sorted(c@),
{
    let n: usize = c.len();
    if n == 0 {
        return true;
    }
    let mut i: usize = 1;
    while i < n
        invariant
            1 <= i <= n,
            n == c.len(),
            forall|a: int, b: int| 0 <= a <= b < i ==> c@[a] <= c@[b],
        decreases n - i,
    {
        if c[i - 1] > c[i] {
            return false;
        }
        i += 1;
    }
    true
}

} // verus!
