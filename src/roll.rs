//! Roll requests, sampling, and the total of a set of rolls under a
//! selection mode.

use rand::rngs::StdRng;
use rand::Rng;
use vstd::prelude::*;

use crate::select::{
    adjust, adjusted, drop_highest, drop_lowest, find_highest, find_lowest, highest_index,
    lemma_highest_index, lemma_lowest_index, lowest_index, remove_highest_n, remove_lowest_n,
    seq_sum, sum_of,
};

verus! {

/// rand's seedable standard generator, carried through the sampler unopened.
#[verifier::external_type_specification]
#[verifier::external_body]
pub struct ExStdRng(StdRng);

/// Which rolls count toward the total.
#[derive(Clone, Copy, Debug, Default, PartialEq, Eq, Structural)]
pub enum DiceMode {
    /// Every roll.
    #[default]
    Plain,
    /// All but one highest roll.
    DropHighest,
    /// All but one lowest roll.
    DropLowest,
    /// Only a highest roll.
    KeepHighest,
    /// Only a lowest roll.
    KeepLowest,
}

/// Failures of the library.
#[derive(Clone, Copy, Debug, PartialEq, Eq, Structural)]
pub enum DiceError {
    /// A die needs at least one face.
    InvalidParameter,
}

/// A request for a roll, after its count and mode were made consistent.
#[derive(Clone, Copy, Debug)]
pub struct RollRequest {
    pub count: usize,
    pub faces: usize,
    pub mode: DiceMode,
    pub adjustment: isize,
    pub extended: bool,
}

/// The rolls in the order they were made, the total, and the mode that
/// produced it.
#[derive(Debug)]
pub struct RollOutcome {
    pub rolls: Vec<usize>,
    pub total: usize,
    pub mode_used: DiceMode,
}

/// A count of zero is taken as one.
pub open spec fn effective_count(count: int) -> int {
    if count == 0 {
        1
    } else {
        count
    }
}

/// On one roll (or none) every mode is the plain sum.
pub open spec fn effective_mode(count: int, mode: DiceMode) -> DiceMode {
    if count <= 1 {
        DiceMode::Plain
    } else {
        mode
    }
}

/// What a mode makes of the rolls before the adjustment.
pub open spec fn base_of(s: Seq<usize>, mode: DiceMode) -> int {
    match mode {
        DiceMode::Plain => seq_sum(s),
        DiceMode::DropLowest => seq_sum(drop_lowest(s, 1)),
        DiceMode::DropHighest => seq_sum(drop_highest(s, 1)),
        DiceMode::KeepHighest => s[highest_index(s)] as int,
        DiceMode::KeepLowest => s[lowest_index(s)] as int,
    }
}

/// The total of the rolls under a mode, after the adjustment.
pub open spec fn total_of(s: Seq<usize>, mode: DiceMode, adjustment: int) -> int {
    adjusted(base_of(s, effective_mode(s.len() as int, mode)), adjustment)
}

/// The modes that keep a single roll.
pub open spec fn is_keep_mode(mode: DiceMode) -> bool {
    mode == DiceMode::KeepHighest || mode == DiceMode::KeepLowest
}

impl RollRequest {
    /// A request whose count is at least one and whose mode is `Plain` on a
    /// single roll.
    pub fn new(
        count: usize,
        faces: usize,
        mode: DiceMode,
        adjustment: isize,
        extended: bool,
    ) -> (r: RollRequest)
        ensures
            r.count == effective_count(count as int),
            r.mode == effective_mode(r.count as int, mode),
            r.faces == faces,
            r.adjustment == adjustment,
            r.extended == extended,
    {
        let count: usize = if count == 0 {
            1
        } else {
            count
        };
        let mode = if count <= 1 {
            DiceMode::Plain
        } else {
            mode
        };
        RollRequest { count, faces, mode, adjustment, extended }
    }
}

/// Relies on rand's `Rng::random_range`: a value of the inclusive range
/// `low..=high`, which it requires to be non-empty.
#[verifier::external_body]
fn draw(rng: &mut StdRng, low: usize, high: usize) -> (r: usize)
    requires
        low <= high,
    ensures
        low <= r <= high,
{
    rng.random_range(low..=high)
}

/// Rolls `count` dice of `faces` faces (a count of zero rolls one), in the
/// order drawn.
pub fn roll_dice(rng: &mut StdRng, count: usize, faces: usize) -> (r: Result<Vec<usize>, DiceError>)
    ensures
        r is Err <==> faces == 0,
        match r {
            Ok(v) => v@.len() == effective_count(count as int) && forall|k: int|
                0 <= k < v@.len() ==> 1 <= #[trigger] v@[k] <= faces,
            Err(e) => e == DiceError::InvalidParameter,
        },
{
    if faces == 0 {
        return Err(DiceError::InvalidParameter);
    }
    let n: usize = if count == 0 {
        1
    } else {
        count
    };
    let mut rolls: Vec<usize> = Vec::new();
    let mut i: usize = 0;
    while i < n
        invariant
            i <= n,
            faces >= 1,
            rolls@.len() == i,
            forall|k: int| 0 <= k < rolls@.len() ==> 1 <= #[trigger] rolls@[k] <= faces,
        decreases n - i,
    {
        let x = draw(rng, 1, faces);
        rolls.push(x);
        i = i + 1;
    }
    Ok(rolls)
}

/// The total of the rolls under `mode`, plus the adjustment, or 1 where that
/// is below zero or above `usize::MAX`. On one roll the mode is ignored.
pub fn roll_total(rolls: &[usize], mode: DiceMode, adjustment: isize) -> (r: usize)
    ensures
        r == total_of(rolls@, mode, adjustment as int),
{
    let mode = if rolls.len() <= 1 {
        DiceMode::Plain
    } else {
        mode
    };
    let base: u128 = match mode {
        DiceMode::Plain => sum_of(rolls),
        DiceMode::DropLowest => {
            let rest = remove_lowest_n(rolls, 1);
            sum_of(rest.as_slice())
        },
        DiceMode::DropHighest => {
            let rest = remove_highest_n(rolls, 1);
            sum_of(rest.as_slice())
        },
        DiceMode::KeepHighest => rolls[find_highest(rolls)] as u128,
        DiceMode::KeepLowest => rolls[find_lowest(rolls)] as u128,
    };
    adjust(base, adjustment)
}

/// The outcome of a set of rolls: the rolls themselves, their total, and the
/// mode applied.
pub fn outcome(rolls: Vec<usize>, mode: DiceMode, adjustment: isize) -> (r: RollOutcome)
    ensures
        r.rolls@ == rolls@,
        r.total == total_of(rolls@, mode, adjustment as int),
        r.mode_used == effective_mode(rolls@.len() as int, mode),
{
    let total = roll_total(rolls.as_slice(), mode, adjustment);
    let mode_used = if rolls.len() <= 1 {
        DiceMode::Plain
    } else {
        mode
    };
    RollOutcome { rolls, total, mode_used }
}

/// Rolls the dice of a request and totals them.
pub fn roll(rng: &mut StdRng, req: &RollRequest) -> (r: Result<RollOutcome, DiceError>)
    ensures
        r is Err <==> req.faces == 0,
        match r {
            Ok(o) => o.rolls@.len() == effective_count(req.count as int) && (forall|k: int|
                0 <= k < o.rolls@.len() ==> 1 <= #[trigger] o.rolls@[k] <= req.faces)
                && o.total == total_of(o.rolls@, req.mode, req.adjustment as int) && o.mode_used
                == effective_mode(o.rolls@.len() as int, req.mode),
            Err(e) => e == DiceError::InvalidParameter,
        },
{
    match roll_dice(rng, req.count, req.faces) {
        Ok(rolls) => Ok(outcome(rolls, req.mode, req.adjustment)),
        Err(e) => Err(e),
    }
}

/// Without a selection mode the total is the sum of the rolls plus the
/// adjustment, or 1 where that is below zero or above `usize::MAX`.
pub proof fn lemma_plain_total(s: Seq<usize>, adjustment: int)
    ensures
        total_of(s, DiceMode::Plain, adjustment) == adjusted(seq_sum(s), adjustment),
        0 <= seq_sum(s) + adjustment <= usize::MAX ==> total_of(s, DiceMode::Plain, adjustment)
            == seq_sum(s) + adjustment,
        !(0 <= seq_sum(s) + adjustment <= usize::MAX) ==> total_of(s, DiceMode::Plain, adjustment)
            == 1,
{
}

/// On a single roll no mode applies: the total is that roll plus the
/// adjustment.
pub proof fn lemma_single_roll_total(s: Seq<usize>, mode: DiceMode, adjustment: int)
    requires
        s.len() == 1,
    ensures
        total_of(s, mode, adjustment) == adjusted(s[0] as int, adjustment),
{
    assert(s.drop_last().len() == 0);
    assert(seq_sum(s) == seq_sum(s.drop_last()) + s[0]);
}

/// Keeping the highest roll gives the largest roll plus the adjustment.
pub proof fn lemma_keep_highest_total(s: Seq<usize>, m: usize, adjustment: int)
    requires
        s.contains(m),
        forall|k: int| 0 <= k < s.len() ==> #[trigger] s[k] <= m,
    ensures
        total_of(s, DiceMode::KeepHighest, adjustment) == adjusted(m as int, adjustment),
{
    lemma_highest_index(s);
    let k = choose|k: int| 0 <= k < s.len() && s[k] == m;
    assert(s[highest_index(s)] >= s[k]);
    if s.len() == 1 {
        lemma_single_roll_total(s, DiceMode::KeepHighest, adjustment);
    }
}

/// Keeping the lowest roll gives the smallest roll plus the adjustment.
pub proof fn lemma_keep_lowest_total(s: Seq<usize>, m: usize, adjustment: int)
    requires
        s.contains(m),
        forall|k: int| 0 <= k < s.len() ==> m <= #[trigger] s[k],
    ensures
        total_of(s, DiceMode::KeepLowest, adjustment) == adjusted(m as int, adjustment),
{
    lemma_lowest_index(s);
    let k = choose|k: int| 0 <= k < s.len() && s[k] == m;
    assert(s[lowest_index(s)] <= s[k]);
    if s.len() == 1 {
        lemma_single_roll_total(s, DiceMode::KeepLowest, adjustment);
    }
}

/// The total depends on the rolls, the mode and the adjustment alone: two
/// calls of `roll_total` on the same arguments give the same result.
pub proof fn lemma_total_deterministic(
    s: Seq<usize>,
    mode: DiceMode,
    adjustment: int,
    r1: usize,
    r2: usize,
)
    requires
        r1 == total_of(s, mode, adjustment),
        r2 == total_of(s, mode, adjustment),
    ensures
        r1 == r2,
{
}

} // verus!
