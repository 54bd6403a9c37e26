//! Sums, adjustments and removal of the lowest or highest rolls.

use vstd::prelude::*;

verus! {

/// Sum of a sequence of rolls.
pub open spec fn seq_sum(s: Seq<usize>) -> int
    decreases s.len(),
{
    if s.len() == 0 {
        0
    } else {
        seq_sum(s.drop_last()) + s.last()
    }
}

/// A base value plus a signed adjustment, or 1 where that does not fit a `usize`.
pub open spec fn adjusted(base: int, adjustment: int) -> int {
    if 0 <= base + adjustment <= usize::MAX {
        base + adjustment
    } else {
        1
    }
}

pub proof fn lemma_sum_bound(s: Seq<usize>)
    ensures
        0 <= seq_sum(s) <= s.len() * usize::MAX,
    decreases s.len(),
{
    if s.len() > 0 {
        lemma_sum_bound(s.drop_last());
        assert((s.len() - 1) * usize::MAX + usize::MAX == s.len() * usize::MAX)
            by (nonlinear_arith);
    }
}

/// Exact sum of the values; a `u128` holds the sum of any slice of `usize`.
pub fn sum_of(values: &[usize]) -> (r: u128)
    ensures
        r == seq_sum(values@),
{
    let mut acc: u128 = 0;
    let mut i: usize = 0;
    while i < values.len()
        invariant
            i <= values@.len(),
            acc == seq_sum(values@.take(i as int)),
        decreases values@.len() - i,
    {
        proof {
            assert(values@.take(i + 1).drop_last() =~= values@.take(i as int));
            lemma_sum_bound(values@.take(i as int));
            assert(i * usize::MAX + usize::MAX <= usize::MAX * usize::MAX + usize::MAX)
                by (nonlinear_arith)
                requires
                    i < usize::MAX,
            ;
        }
        acc = acc + values[i] as u128;
        i = i + 1;
    }
    assert(values@.take(i as int) =~= values@);
    acc
}

/// Adds a signed adjustment to a base value; a result below zero or above
/// `usize::MAX` becomes 1.
pub fn adjust(base: u128, adjustment: isize) -> (r: usize)
    ensures
        r == adjusted(base as int, adjustment as int),
{
    let limit: u128 = usize::MAX as u128;
    if adjustment >= 0 {
        let a: u128 = adjustment as u128;
        if base <= limit && a <= limit - base {
            (base + a) as usize
        } else {
            1
        }
    } else {
        let a: u128 = (-(adjustment as i128)) as u128;
        if base >= a && base - a <= limit {
            (base - a) as usize
        } else {
            1
        }
    }
}

/// Index of the first occurrence of the smallest value (0 for an empty sequence).
pub open spec fn lowest_index(s: Seq<usize>) -> int
    decreases s.len(),
{
    if s.len() <= 1 {
        0
    } else {
        let j = lowest_index(s.drop_last());
        if s.last() < s[j] {
            s.len() - 1
        } else {
            j
        }
    }
}

/// Index of the first occurrence of the largest value.
pub open spec fn highest_index(s: Seq<usize>) -> int
    decreases s.len(),
{
    if s.len() <= 1 {
        0
    } else {
        let j = highest_index(s.drop_last());
        if s.last() > s[j] {
            s.len() - 1
        } else {
            j
        }
    }
}

/// `s` with its `n` lowest values taken out one at a time, each time the first
/// occurrence of the current minimum; the order of the rest is kept.
pub open spec fn drop_lowest(s: Seq<usize>, n: nat) -> Seq<usize>
    decreases n,
{
    if n == 0 || s.len() == 0 {
        s
    } else {
        drop_lowest(s.remove(lowest_index(s)), (n - 1) as nat)
    }
}

/// `s` with its `n` highest values taken out one at a time, each time the first
/// occurrence of the current maximum; the order of the rest is kept.
pub open spec fn drop_highest(s: Seq<usize>, n: nat) -> Seq<usize>
    decreases n,
{
    if n == 0 || s.len() == 0 {
        s
    } else {
        drop_highest(s.remove(highest_index(s)), (n - 1) as nat)
    }
}

pub proof fn lemma_lowest_index(s: Seq<usize>)
    requires
        s.len() >= 1,
    ensures
        0 <= lowest_index(s) < s.len(),
        forall|k: int| 0 <= k < s.len() ==> s[lowest_index(s)] <= #[trigger] s[k],
    decreases s.len(),
{
    if s.len() > 1 {
        let t = s.drop_last();
        lemma_lowest_index(t);
        assert forall|k: int| 0 <= k < t.len() implies #[trigger] s[k] == t[k] by {}
    }
}

pub proof fn lemma_highest_index(s: Seq<usize>)
    requires
        s.len() >= 1,
    ensures
        0 <= highest_index(s) < s.len(),
        forall|k: int| 0 <= k < s.len() ==> s[highest_index(s)] >= #[trigger] s[k],
    decreases s.len(),
{
    if s.len() > 1 {
        let t = s.drop_last();
        lemma_highest_index(t);
        assert forall|k: int| 0 <= k < t.len() implies #[trigger] s[k] == t[k] by {}
    }
}

proof fn lemma_drop_lowest_len(s: Seq<usize>, n: nat)
    ensures
        drop_lowest(s, n).len() == if n >= s.len() { 0 } else { s.len() - n },
    decreases n,
{
    if n > 0 && s.len() > 0 {
        lemma_lowest_index(s);
        lemma_drop_lowest_len(s.remove(lowest_index(s)), (n - 1) as nat);
    }
}

proof fn lemma_drop_highest_len(s: Seq<usize>, n: nat)
    ensures
        drop_highest(s, n).len() == if n >= s.len() { 0 } else { s.len() - n },
    decreases n,
{
    if n > 0 && s.len() > 0 {
        lemma_highest_index(s);
        lemma_drop_highest_len(s.remove(highest_index(s)), (n - 1) as nat);
    }
}

pub(crate) fn find_lowest(v: &[usize]) -> (r: usize)
    requires
        v@.len() >= 1,
    ensures
        r == lowest_index(v@),
        r < v@.len(),
{
    let mut best: usize = 0;
    let mut i: usize = 1;
    while i < v.len()
        invariant
            1 <= i <= v@.len(),
            best == lowest_index(v@.take(i as int)),
            best < i,
        decreases v@.len() - i,
    {
        assert(v@.take(i + 1).drop_last() =~= v@.take(i as int));
        if v[i] < v[best] {
            best = i;
        }
        i = i + 1;
    }
    assert(v@.take(i as int) =~= v@);
    best
}

pub(crate) fn find_highest(v: &[usize]) -> (r: usize)
    requires
        v@.len() >= 1,
    ensures
        r == highest_index(v@),
        r < v@.len(),
{
    let mut best: usize = 0;
    let mut i: usize = 1;
    while i < v.len()
        invariant
            1 <= i <= v@.len(),
            best == highest_index(v@.take(i as int)),
            best < i,
        decreases v@.len() - i,
    {
        assert(v@.take(i + 1).drop_last() =~= v@.take(i as int));
        if v[i] > v[best] {
            best = i;
        }
        i = i + 1;
    }
    assert(v@.take(i as int) =~= v@);
    best
}

/// The rolls without their `n` lowest values, in their original order. Where
/// the lowest values repeat, earlier occurrences go first; where `n` is at
/// least the length, nothing is left.
pub fn remove_lowest_n(vec: &[usize], n: usize) -> (r: Vec<usize>)
    ensures
        r@ == drop_lowest(vec@, n as nat),
        r@.len() == if n >= vec@.len() { 0 } else { vec@.len() - n },
{
    proof {
        lemma_drop_lowest_len(vec@, n as nat);
    }
    let mut rest: Vec<usize> = vstd::slice::slice_to_vec(vec);
    let mut k: usize = n;
    while k > 0 && rest.len() > 0
        invariant
            drop_lowest(rest@, k as nat) == drop_lowest(vec@, n as nat),
        decreases k,
    {
        let i = find_lowest(rest.as_slice());
        rest.remove(i);
        k = k - 1;
    }
    rest
}

/// The rolls without their `n` highest values, in their original order. Where
/// the highest values repeat, earlier occurrences go first; where `n` is at
/// least the length, nothing is left.
pub fn remove_highest_n(vec: &[usize], n: usize) -> (r: Vec<usize>)
    ensures
        r@ == drop_highest(vec@, n as nat),
        r@.len() == if n >= vec@.len() { 0 } else { vec@.len() - n },
{
    proof {
        lemma_drop_highest_len(vec@, n as nat);
    }
    let mut rest: Vec<usize> = vstd::slice::slice_to_vec(vec);
    let mut k: usize = n;
    while k > 0 && rest.len() > 0
        invariant
            drop_highest(rest@, k as nat) == drop_highest(vec@, n as nat),
        decreases k,
    {
        let i = find_highest(rest.as_slice());
        rest.remove(i);
        k = k - 1;
    }
    rest
}

} // verus!
