//! Dice rolling: sampling, selection modes, adjusted totals and descriptive
//! statistics over a set of rolls.

pub mod roll;
pub mod select;
pub mod stats;

pub use roll::{
    outcome, roll, roll_dice, roll_total, DiceError, DiceMode, RollOutcome, RollRequest,
};
pub use select::{remove_highest_n, remove_lowest_n};
pub use stats::{
    describe, expected_total_twice, max_possible, median, mode, sorted_rolls, statistics, Halves,
    Ratio, StatsBlock,
};
