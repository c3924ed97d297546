use memeland_airdrop::{calculate_user_rewards, daily_share};

fn ledger(values: &[u64]) -> [u64; 20] {
    let mut out = [0u64; 20];
    out[..values.len()].copy_from_slice(values);
    out
}

#[test]
fn share_is_the_proportion_rounded_down() {
    assert_eq!(daily_share(100, 1000, 100), 1000);
    assert_eq!(daily_share(100, 1000, 400), 250);
    assert_eq!(daily_share(300, 1000, 400), 750);
    assert_eq!(daily_share(1, 1000, 3), 333);
    assert_eq!(daily_share(2, 1000, 3), 666);
    assert_eq!(daily_share(1, 1, 2), 0);
    assert_eq!(daily_share(7, 10, 7), 10);
}

#[test]
fn share_is_nothing_without_a_snapshot() {
    assert_eq!(daily_share(100, 1000, 0), 0);
    assert_eq!(daily_share(0, 1000, 0), 0);
    assert_eq!(daily_share(u64::MAX, u64::MAX, 0), 0);
}

#[test]
fn share_of_nothing_staked_or_nothing_budgeted_is_nothing() {
    assert_eq!(daily_share(0, 1000, 400), 0);
    assert_eq!(daily_share(100, 0, 400), 0);
}

#[test]
fn share_is_computed_in_double_width() {
    let stake: u64 = 50_000_000_000_000_000;
    let budget: u64 = 100_000_000_000_000_000;
    assert_eq!(daily_share(stake, budget, stake), budget as u128);
    assert_eq!(daily_share(stake, budget, 2 * stake), (budget / 2) as u128);
    assert_eq!(
        daily_share(u64::MAX, u64::MAX, 1),
        (u64::MAX as u128) * (u64::MAX as u128)
    );
    assert_eq!(daily_share(u64::MAX, u64::MAX, u64::MAX), u64::MAX as u128);
}

#[test]
fn two_stakes_of_100_and_300_stay_within_the_budget() {
    for budget in [0u64, 1, 2, 3, 7, 399, 400, 401, 1000, 1001, 5_000_000_000_000_000, u64::MAX] {
        let first = daily_share(100, budget, 400);
        let second = daily_share(300, budget, 400);
        assert_eq!(first, (100u128 * budget as u128) / 400);
        assert_eq!(second, (300u128 * budget as u128) / 400);
        assert!(first + second <= budget as u128);
    }
    assert_eq!(daily_share(100, 1001, 400), 250);
    assert_eq!(daily_share(300, 1001, 400), 750);
    assert_eq!(daily_share(100, 3, 400) + daily_share(300, 3, 400), 2);
}

#[test]
fn three_equal_stakes_leave_dust_in_the_pool() {
    let each = daily_share(1, 100, 3);
    assert_eq!(each, 33);
    assert_eq!(3 * each, 99);
}

#[test]
fn scenario_with_two_days_of_rewards() {
    let rewards = ledger(&[1000, 2000]);
    let snapshots = ledger(&[100]);
    assert_eq!(calculate_user_rewards(100, 0, 1, &rewards, &snapshots), Some(1000));
}

#[test]
fn scenario_continued_over_both_days() {
    let rewards = ledger(&[1000, 2000]);
    let snapshots = ledger(&[100, 400]);
    assert_eq!(calculate_user_rewards(100, 0, 2, &rewards, &snapshots), Some(1000 + 500));
    assert_eq!(calculate_user_rewards(300, 1, 2, &rewards, &snapshots), Some(1500));
}

#[test]
fn nothing_accrues_before_the_claim_day() {
    let rewards = ledger(&[10, 20, 30, 40, 50, 60, 70, 80, 90, 100, 110, 120]);
    let snapshots = ledger(&[1, 1, 1, 1, 1, 1, 1, 1, 1, 1, 1, 1]);
    assert_eq!(calculate_user_rewards(1, 5, 10, &rewards, &snapshots), Some(60 + 70 + 80 + 90 + 100));
    assert_eq!(calculate_user_rewards(1, 0, 5, &rewards, &snapshots), Some(10 + 20 + 30 + 40 + 50));
    assert_eq!(calculate_user_rewards(1, 0, 10, &rewards, &snapshots), Some(550));
}

#[test]
fn days_outside_the_range_do_not_matter() {
    let rewards = ledger(&[10, 20, 30, 40, 50, 60, 70, 80, 90, 100, 110, 120]);
    let snapshots = ledger(&[4, 4, 4, 4, 4, 4, 4, 4, 4, 4, 4, 4]);
    let expected = calculate_user_rewards(4, 5, 10, &rewards, &snapshots);
    assert_eq!(expected, Some(400));
    let mut other_rewards = rewards;
    let mut other_snapshots = snapshots;
    for d in (0..5).chain(10..20) {
        other_rewards[d] = 999_999;
        other_snapshots[d] = 1;
    }
    assert_eq!(calculate_user_rewards(4, 5, 10, &other_rewards, &other_snapshots), expected);
}

#[test]
fn range_that_is_empty_accrues_nothing() {
    let rewards = ledger(&[10, 20, 30]);
    let snapshots = ledger(&[1, 1, 1]);
    assert_eq!(calculate_user_rewards(1, 0, 0, &rewards, &snapshots), Some(0));
    assert_eq!(calculate_user_rewards(1, 3, 3, &rewards, &snapshots), Some(0));
    assert_eq!(calculate_user_rewards(1, 7, 3, &rewards, &snapshots), Some(0));
    assert_eq!(calculate_user_rewards(1, u64::MAX, 20, &rewards, &snapshots), Some(0));
}

#[test]
fn days_without_a_snapshot_are_skipped() {
    let rewards = ledger(&[100, 200, 400]);
    let snapshots = ledger(&[10, 0, 10]);
    assert_eq!(calculate_user_rewards(10, 0, 3, &rewards, &snapshots), Some(500));
    let none = ledger(&[]);
    assert_eq!(calculate_user_rewards(10, 0, 20, &rewards, &none), Some(0));
}

#[test]
fn every_day_is_rounded_down_by_itself() {
    let rewards = ledger(&[10, 10, 10]);
    let snapshots = ledger(&[3, 3, 3]);
    assert_eq!(calculate_user_rewards(1, 0, 3, &rewards, &snapshots), Some(9));
    assert_eq!(calculate_user_rewards(2, 0, 3, &rewards, &snapshots), Some(18));
}

#[test]
fn all_twenty_days_are_counted() {
    let rewards = [5_000_000_000_000_000u64; 20];
    let snapshots = [1_000u64; 20];
    assert_eq!(
        calculate_user_rewards(1_000, 0, 20, &rewards, &snapshots),
        Some(100_000_000_000_000_000)
    );
    assert_eq!(
        calculate_user_rewards(250, 0, 20, &rewards, &snapshots),
        Some(25_000_000_000_000_000)
    );
    assert_eq!(
        calculate_user_rewards(250, 19, 20, &rewards, &snapshots),
        Some(1_250_000_000_000_000)
    );
}

#[test]
fn sum_that_does_not_fit_is_reported() {
    let rewards = ledger(&[u64::MAX, u64::MAX]);
    let snapshots = ledger(&[1, 1]);
    assert_eq!(calculate_user_rewards(1, 0, 1, &rewards, &snapshots), Some(u64::MAX));
    assert_eq!(calculate_user_rewards(1, 0, 2, &rewards, &snapshots), None);
    assert_eq!(calculate_user_rewards(2, 0, 1, &rewards, &snapshots), None);
    assert_eq!(calculate_user_rewards(u64::MAX, 0, 2, &rewards, &snapshots), None);
}

#[test]
fn largest_operands_do_not_overflow_the_sum() {
    let rewards = [u64::MAX; 20];
    let snapshots = [1u64; 20];
    assert_eq!(calculate_user_rewards(u64::MAX, 0, 20, &rewards, &snapshots), None);
    let whole = [u64::MAX; 20];
    assert_eq!(calculate_user_rewards(u64::MAX, 19, 20, &rewards, &whole), Some(u64::MAX));
}
