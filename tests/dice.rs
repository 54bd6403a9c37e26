use dice_roller::{
    describe, expected_total_twice, max_possible, median, mode, outcome, remove_highest_n,
    remove_lowest_n, roll, roll_dice, roll_total, sorted_rolls, statistics, DiceError, DiceMode,
    Ratio, RollRequest,
};
use rand::rngs::StdRng;
use rand::SeedableRng;

#[test]
fn rolls_lie_within_faces_and_match_count() {
    let mut rng = StdRng::seed_from_u64(7);
    for faces in [1usize, 2, 6, 20, 100] {
        let rolls = roll_dice(&mut rng, 50, faces).unwrap();
        assert_eq!(rolls.len(), 50);
        assert!(rolls.iter().all(|&r| 1 <= r && r <= faces));
    }
}

#[test]
fn one_face_always_rolls_one() {
    let mut rng = StdRng::seed_from_u64(1);
    assert_eq!(roll_dice(&mut rng, 4, 1).unwrap(), vec![1, 1, 1, 1]);
}

#[test]
fn zero_count_rolls_once() {
    let mut rng = StdRng::seed_from_u64(3);
    assert_eq!(roll_dice(&mut rng, 0, 6).unwrap().len(), 1);
    let req = RollRequest::new(0, 20, DiceMode::DropLowest, 0, false);
    assert_eq!(req.count, 1);
    assert_eq!(req.mode, DiceMode::Plain);
    let out = roll(&mut rng, &req).unwrap();
    assert_eq!(out.rolls.len(), 1);
    assert_eq!(out.total, out.rolls[0]);
}

#[test]
fn request_keeps_mode_on_several_rolls() {
    let req = RollRequest::new(4, 6, DiceMode::KeepHighest, -2, true);
    assert_eq!(req.count, 4);
    assert_eq!(req.faces, 6);
    assert_eq!(req.mode, DiceMode::KeepHighest);
    assert_eq!(req.adjustment, -2);
    assert!(req.extended);
}

#[test]
fn zero_faces_is_invalid() {
    let mut rng = StdRng::seed_from_u64(3);
    assert_eq!(roll_dice(&mut rng, 3, 0), Err(DiceError::InvalidParameter));
    let req = RollRequest::new(3, 0, DiceMode::Plain, 0, false);
    assert_eq!(roll(&mut rng, &req).unwrap_err(), DiceError::InvalidParameter);
}

#[test]
fn roll_totals_its_rolls() {
    let mut rng = StdRng::seed_from_u64(11);
    let req = RollRequest::new(5, 6, DiceMode::Plain, 3, false);
    let out = roll(&mut rng, &req).unwrap();
    assert_eq!(out.total, out.rolls.iter().sum::<usize>() + 3);
    assert_eq!(out.mode_used, DiceMode::Plain);
}

#[test]
fn plain_total_is_sum_plus_adjustment() {
    assert_eq!(roll_total(&[1, 2, 3], DiceMode::Plain, 4), 10);
    assert_eq!(roll_total(&[1, 2, 3], DiceMode::Plain, -6), 0);
    assert_eq!(roll_total(&[1, 2, 3], DiceMode::Plain, 0), 6);
}

#[test]
fn total_below_zero_clamps_to_one() {
    assert_eq!(roll_total(&[1, 2, 3], DiceMode::Plain, -7), 1);
    assert_eq!(roll_total(&[2, 5], DiceMode::KeepLowest, -100), 1);
}

#[test]
fn total_above_usize_max_clamps_to_one() {
    assert_eq!(roll_total(&[usize::MAX, 1], DiceMode::Plain, 0), 1);
    assert_eq!(roll_total(&[usize::MAX], DiceMode::Plain, 1), 1);
    assert_eq!(roll_total(&[usize::MAX, 1], DiceMode::Plain, -1), usize::MAX);
}

#[test]
fn single_roll_ignores_drop_modes() {
    assert_eq!(roll_total(&[4], DiceMode::DropLowest, 2), 6);
    assert_eq!(roll_total(&[4], DiceMode::DropHighest, 2), 6);
    assert_eq!(roll_total(&[4], DiceMode::KeepHighest, -1), 3);
    let out = outcome(vec![4], DiceMode::DropLowest, 2);
    assert_eq!(out.total, 6);
    assert_eq!(out.mode_used, DiceMode::Plain);
}

#[test]
fn keep_modes_take_max_or_min() {
    assert_eq!(roll_total(&[3, 6, 2, 6], DiceMode::KeepHighest, 1), 7);
    assert_eq!(roll_total(&[3, 6, 2, 2], DiceMode::KeepLowest, 1), 3);
    assert_eq!(roll_total(&[3, 6, 2], DiceMode::KeepHighest, 0), 6);
}

#[test]
fn drop_modes_remove_one_roll() {
    assert_eq!(roll_total(&[3, 1, 4, 1, 5], DiceMode::DropLowest, 0), 13);
    assert_eq!(roll_total(&[3, 1, 4, 1, 5], DiceMode::DropHighest, 0), 9);
    assert_eq!(roll_total(&[3, 1, 4, 1, 5], DiceMode::DropLowest, -3), 10);
}

#[test]
fn remove_lowest_drops_one_instance() {
    let rest = remove_lowest_n(&[3, 1, 4, 1, 5], 1);
    assert_eq!(rest, vec![3, 4, 1, 5]);
    assert_eq!(rest.iter().sum::<usize>(), 13);
}

#[test]
fn remove_highest_drops_one_instance() {
    assert_eq!(remove_highest_n(&[3, 5, 4, 5, 1], 1), vec![3, 4, 5, 1]);
    assert_eq!(remove_highest_n(&[3, 5, 4, 5, 1], 2), vec![3, 4, 1]);
}

#[test]
fn remove_several_lowest() {
    assert_eq!(remove_lowest_n(&[3, 1, 4, 1, 5], 3), vec![4, 5]);
    assert_eq!(remove_lowest_n(&[3, 1, 4, 1, 5], 0), vec![3, 1, 4, 1, 5]);
}

#[test]
fn removing_all_leaves_nothing() {
    assert_eq!(remove_lowest_n(&[3, 1, 4], 3), Vec::<usize>::new());
    assert_eq!(remove_highest_n(&[3, 1, 4], 7), Vec::<usize>::new());
    assert_eq!(remove_lowest_n(&[], 1), Vec::<usize>::new());
}

#[test]
fn total_is_repeatable() {
    let rolls = [5, 2, 6, 6, 1];
    for m in [
        DiceMode::Plain,
        DiceMode::DropHighest,
        DiceMode::DropLowest,
        DiceMode::KeepHighest,
        DiceMode::KeepLowest,
    ] {
        assert_eq!(roll_total(&rolls, m, -2), roll_total(&rolls, m, -2));
    }
}

#[test]
fn median_of_odd_and_even() {
    assert_eq!(median(&[1, 2, 3, 4, 5]).twice, 6);
    assert_eq!(median(&[1, 2]).twice, 3);
    assert_eq!(median(&[4, 5]).twice, 9);
    assert_eq!(median(&[7]).twice, 14);
}

#[test]
fn quartiles_split_halves() {
    let b = describe(&[1, 2, 3, 4, 5]);
    assert_eq!(b.q1.twice, 3);
    assert_eq!(b.median.twice, 6);
    assert_eq!(b.q3.twice, 9);
    assert_eq!(b.iqr.twice, 6);
    assert_eq!(b.iqr.twice as f64 / 2.0, 3.0);
    let q = b.qcd.unwrap();
    assert_eq!(q, Ratio { numer: 6, denom: 12 });
    assert_eq!(q.numer as f64 / q.denom as f64, 0.5);
    assert_eq!(b.average_die, 3);
}

#[test]
fn quartiles_of_even_length() {
    let b = describe(&[1, 2, 3, 4, 5, 6]);
    assert_eq!(b.q1.twice, 4);
    assert_eq!(b.median.twice, 7);
    assert_eq!(b.q3.twice, 10);
}

#[test]
fn average_die_truncates() {
    assert_eq!(describe(&[1, 2, 2]).average_die, 1);
    assert_eq!(describe(&[6, 6, 5]).average_die, 5);
}

#[test]
fn qcd_undefined_when_quartiles_sum_to_zero() {
    let b = describe(&[0, 0, 0]);
    assert_eq!(b.qcd, None);
    assert_eq!(b.iqr.twice, 0);
}

#[test]
fn mode_picks_most_frequent() {
    assert_eq!(mode(&[2, 2, 3, 5, 5, 5]), 5);
    assert_eq!(mode(&[9]), 9);
}

#[test]
fn mode_tie_takes_smallest() {
    assert_eq!(mode(&[4, 1, 4, 1]), 1);
    assert_eq!(mode(&[6, 3, 5]), 3);
}

#[test]
fn sorted_rolls_ascend() {
    assert_eq!(sorted_rolls(&[3, 1, 2, 1]), vec![1, 1, 2, 3]);
}

#[test]
fn statistics_sort_the_rolls() {
    let out = outcome(vec![5, 1, 3, 2, 4], DiceMode::Plain, 0);
    let b = statistics(&out, true).unwrap();
    assert_eq!(b.q1.twice, 3);
    assert_eq!(b.median.twice, 6);
    assert_eq!(b.q3.twice, 9);
    assert_eq!(b.mode_value, 1);
}

#[test]
fn statistics_are_gated() {
    let several = outcome(vec![5, 1, 3], DiceMode::DropLowest, 0);
    assert!(statistics(&several, false).is_none());
    assert!(statistics(&several, true).is_some());
    let keep = outcome(vec![5, 1, 3], DiceMode::KeepHighest, 0);
    assert!(statistics(&keep, true).is_none());
    let keep_low = outcome(vec![5, 1, 3], DiceMode::KeepLowest, 0);
    assert!(statistics(&keep_low, true).is_none());
    let single = outcome(vec![5], DiceMode::KeepHighest, 0);
    assert!(statistics(&single, true).is_none());
}

#[test]
fn possible_and_expected_totals() {
    assert_eq!(max_possible(3, 6), 18);
    assert_eq!(expected_total_twice(3, 6), 21);
    assert_eq!(max_possible(usize::MAX, 2), usize::MAX as u128 * 2);
}

#[test]
fn rolls_spread_over_faces() {
    let mut rng = StdRng::seed_from_u64(42);
    let rolls = roll_dice(&mut rng, 200, 6).unwrap();
    for face in 1..=6usize {
        assert!(rolls.contains(&face));
    }
}
