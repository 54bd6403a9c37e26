//! Descriptive statistics of a set of rolls: quartiles by halving, mode,
//! interquartile range and quartile coefficient of dispersion.

use vstd::prelude::*;
use vstd::relations::{sorted_by, total_ordering};

use crate::roll::{is_keep_mode, RollOutcome};
use crate::select::{lemma_sum_bound, seq_sum, sum_of};

verus! {

broadcast use vstd::seq_lib::group_to_multiset_ensures;

/// A quantity that is a whole multiple of one half, held as twice its value.
#[derive(Clone, Copy, Debug, PartialEq, Eq, Structural)]
pub struct Halves {
    pub twice: i128,
}

/// The fraction `numer / denom`, with `denom > 0`.
#[derive(Clone, Copy, Debug, PartialEq, Eq, Structural)]
pub struct Ratio {
    pub numer: i128,
    pub denom: i128,
}

/// Descriptive statistics of a set of at least two rolls.
#[derive(Clone, Copy, Debug)]
pub struct StatsBlock {
    /// Sum of the rolls divided by their number, rounded down.
    pub average_die: usize,
    /// Median of the lower half.
    pub q1: Halves,
    /// Median of all the rolls.
    pub median: Halves,
    /// Median of the upper half.
    pub q3: Halves,
    /// The most frequent roll, the smallest one among equally frequent rolls.
    pub mode_value: usize,
    /// `q3 - q1`.
    pub iqr: Halves,
    /// `(q3 - q1) / (q3 + q1)`, or `None` where `q3 + q1` is zero.
    pub qcd: Option<Ratio>,
}

pub open spec fn usize_leq() -> spec_fn(usize, usize) -> bool {
    |a: usize, b: usize| a <= b
}

/// The values of `s` in ascending order.
pub open spec fn sorted_of(s: Seq<usize>) -> Seq<usize> {
    s.sort_by(usize_leq())
}

/// Twice the median: the sum of the two middle values for an even length, twice
/// the middle value for an odd one.
pub open spec fn median_twice(s: Seq<usize>) -> int {
    let h = s.len() as int / 2;
    if s.len() % 2 == 0 {
        s[h - 1] + s[h]
    } else {
        2 * s[h]
    }
}

/// The first `floor(len / 2)` values.
pub open spec fn lower_half(s: Seq<usize>) -> Seq<usize> {
    s.subrange(0, s.len() as int / 2)
}

/// The values from index `ceil(len / 2)` on.
pub open spec fn upper_half(s: Seq<usize>) -> Seq<usize> {
    s.subrange((s.len() as int + 1) / 2, s.len() as int)
}

/// How often `x` occurs in `s`.
pub open spec fn occurrences(s: Seq<usize>, x: usize) -> nat {
    s.to_multiset().count(x)
}

/// `m` occurs in `s`, no value occurs more often, and every value that occurs
/// as often is at least `m`.
pub open spec fn is_mode(s: Seq<usize>, m: usize) -> bool {
    &&& s.contains(m)
    &&& forall|x: usize| occurrences(s, x) <= occurrences(s, m)
    &&& forall|x: usize| occurrences(s, x) == occurrences(s, m) ==> m <= x
}

/// What the statistics of `s` are.
pub open spec fn describes(b: StatsBlock, s: Seq<usize>) -> bool {
    &&& b.average_die == seq_sum(s) / (s.len() as int)
    &&& b.q1.twice == median_twice(lower_half(s))
    &&& b.median.twice == median_twice(s)
    &&& b.q3.twice == median_twice(upper_half(s))
    &&& is_mode(s, b.mode_value)
    &&& b.iqr.twice == b.q3.twice - b.q1.twice
    &&& match b.qcd {
        None => b.q3.twice + b.q1.twice == 0,
        Some(q) => b.q3.twice + b.q1.twice != 0 && q.numer == b.q3.twice - b.q1.twice && q.denom
            == b.q3.twice + b.q1.twice,
    }
}

/// The median of the values as they stand: the middle one, or the mean of
/// the two middle ones.
pub fn median(numbers: &[usize]) -> (r: Halves)
    requires
        numbers@.len() >= 1,
    ensures
        r.twice == median_twice(numbers@),
{
    let h: usize = numbers.len() / 2;
    if numbers.len() % 2 == 0 {
        Halves { twice: numbers[h - 1] as i128 + numbers[h] as i128 }
    } else {
        Halves { twice: 2 * (numbers[h] as i128) }
    }
}

fn count_of(numbers: &[usize], x: usize) -> (r: usize)
    ensures
        r == occurrences(numbers@, x),
{
    let mut c: usize = 0;
    let mut i: usize = 0;
    while i < numbers.len()
        invariant
            i <= numbers@.len(),
            c <= i,
            c == occurrences(numbers@.take(i as int), x),
        decreases numbers@.len() - i,
    {
        assert(numbers@.take(i + 1) =~= numbers@.take(i as int).push(numbers@[i as int]));
        if numbers[i] == x {
            c = c + 1;
        }
        i = i + 1;
    }
    assert(numbers@.take(i as int) =~= numbers@);
    c
}

/// The most frequent value; among equally frequent values, the smallest.
pub fn mode(numbers: &[usize]) -> (r: usize)
    requires
        numbers@.len() >= 1,
    ensures
        is_mode(numbers@, r),
{
    let s = Ghost(numbers@);
    let mut best: usize = numbers[0];
    let mut best_count: usize = count_of(numbers, best);
    let mut i: usize = 1;
    while i < numbers.len()
        invariant
            s@ == numbers@,
            1 <= i <= numbers@.len(),
            s@.contains(best),
            best_count == occurrences(s@, best),
            forall|k: int|
                0 <= k < i ==> occurrences(s@, #[trigger] s@[k]) < best_count || (occurrences(
                    s@,
                    s@[k],
                ) == best_count && best <= s@[k]),
        decreases numbers@.len() - i,
    {
        assert(s@[0] == numbers@[0]);
        let x = numbers[i];
        let c = count_of(numbers, x);
        if c > best_count || (c == best_count && x < best) {
            best = x;
            best_count = c;
        }
        i = i + 1;
    }
    assert forall|x: usize| occurrences(s@, x) <= occurrences(s@, best) by {
        if occurrences(s@, x) > 0 {
            assert(s@.contains(x));
            let k = choose|k: int| 0 <= k < s@.len() && s@[k] == x;
            assert(occurrences(s@, s@[k]) <= best_count);
        }
    }
    assert forall|x: usize| occurrences(s@, x) == occurrences(s@, best) implies best <= x by {
        assert(occurrences(s@, best) > 0);
        assert(s@.contains(x));
        let k = choose|k: int| 0 <= k < s@.len() && s@[k] == x;
        assert(occurrences(s@, s@[k]) == best_count);
    }
    best
}

/// Relies on `slice::sort_unstable`: the same values, in ascending order.
#[verifier::external_body]
fn sort_ascending(v: &mut Vec<usize>)
    ensures
        final(v)@.to_multiset() == old(v)@.to_multiset(),
        forall|i: int, j: int| 0 <= i < j < final(v)@.len() ==> final(v)@[i] <= final(v)@[j],
{
    v.sort_unstable();
}

proof fn lemma_usize_leq_total()
    ensures
        total_ordering(usize_leq()),
{
}

/// The rolls in ascending order.
pub fn sorted_rolls(rolls: &[usize]) -> (r: Vec<usize>)
    ensures
        r@ == sorted_of(rolls@),
        r@.len() == rolls@.len(),
{
    let mut v: Vec<usize> = vstd::slice::slice_to_vec(rolls);
    sort_ascending(&mut v);
    proof {
        lemma_usize_leq_total();
        rolls@.lemma_sort_by_ensures(usize_leq());
        assert(sorted_by(v@, usize_leq()));
        vstd::seq_lib::lemma_sorted_unique(v@, sorted_of(rolls@), usize_leq());
        assert(v@.to_multiset().len() == v@.len());
        assert(rolls@.to_multiset().len() == rolls@.len());
    }
    v
}

/// The statistics of at least two values, taken in the order given (ascending
/// for the usual quartiles).
pub fn describe(sorted: &[usize]) -> (r: StatsBlock)
    requires
        sorted@.len() >= 2,
    ensures
        describes(r, sorted@),
{
    let n: usize = sorted.len();
    let total: u128 = sum_of(sorted);
    proof {
        lemma_sum_bound(sorted@);
        assert(total as int / n as int <= usize::MAX) by (nonlinear_arith)
            requires
                total as int <= n as int * usize::MAX,
                n > 0,
        ;
    }
    let average_die: usize = (total / n as u128) as usize;
    let lower = vstd::slice::slice_subrange(sorted, 0, n / 2);
    let upper = vstd::slice::slice_subrange(sorted, n - n / 2, n);
    let q1 = median(lower);
    let q2 = median(sorted);
    let q3 = median(upper);
    let mode_value = mode(sorted);
    let iqr = Halves { twice: q3.twice - q1.twice };
    let spread: i128 = q3.twice + q1.twice;
    let qcd = if spread == 0 {
        None
    } else {
        Some(Ratio { numer: q3.twice - q1.twice, denom: spread })
    };
    StatsBlock { average_die, q1, median: q2, q3, mode_value, iqr, qcd }
}

/// The statistics shown for an outcome: present where they were asked for,
/// there are at least two rolls and the mode is not a keep mode; computed on
/// the rolls in ascending order.
pub fn statistics(outcome: &RollOutcome, extended: bool) -> (r: Option<StatsBlock>)
    ensures
        r is Some <==> extended && outcome.rolls@.len() > 1 && !is_keep_mode(outcome.mode_used),
        match r {
            Some(b) => describes(b, sorted_of(outcome.rolls@)),
            None => true,
        },
{
    if extended && outcome.rolls.len() > 1 && !(outcome.mode_used == crate::roll::DiceMode::KeepHighest
        || outcome.mode_used == crate::roll::DiceMode::KeepLowest) {
        let sorted = sorted_rolls(outcome.rolls.as_slice());
        Some(describe(sorted.as_slice()))
    } else {
        None
    }
}

/// The largest total the dice can show: `count * faces`.
pub fn max_possible(count: usize, faces: usize) -> (r: u128)
    ensures
        r == count * faces,
{
    proof {
        assert(count * faces <= usize::MAX * usize::MAX) by (nonlinear_arith)
            requires
                count <= usize::MAX,
                faces <= usize::MAX,
        ;
    }
    count as u128 * faces as u128
}

/// Twice the expected total of `count` fair dice of `faces` faces:
/// `count * (faces + 1)`.
pub fn expected_total_twice(count: usize, faces: usize) -> (r: u128)
    ensures
        r == count * (faces + 1),
{
    proof {
        assert(count * (faces + 1) <= usize::MAX * (usize::MAX + 1)) by (nonlinear_arith)
            requires
                count <= usize::MAX,
                faces <= usize::MAX,
        ;
    }
    count as u128 * (faces as u128 + 1)
}

} // verus!
