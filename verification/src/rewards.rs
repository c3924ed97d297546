//! The reward accrual engine: a staker's share of each day's budget, in
//! integers only, summed over the days that have a snapshot.

use vstd::prelude::*;
use crate::constants::TOTAL_DAYS;

verus! {

/// The share of one day's `budget` that a stake of `staked` earns when the
/// day's snapshot of total stake is `total`: the proportional share, rounded
/// down; nothing where the day has no snapshot.
pub open spec fn day_share(staked: nat, budget: nat, total: nat) -> nat {
    if total == 0 {
        0
    } else {
        ((staked * budget) / total) as nat
    }
}

/// The reward accrued by a stake of `staked` over the days `from <= d < to`.
pub open spec fn accrued(
    staked: nat,
    rewards: Seq<u64>,
    snapshots: Seq<u64>,
    from: int,
    to: int,
) -> nat
    decreases to - from,
{
    if to <= from {
        0
    } else {
        accrued(staked, rewards, snapshots, from, to - 1) + day_share(
            staked,
            rewards[to - 1] as nat,
            snapshots[to - 1] as nat,
        )
    }
}

/// Accrual only grows as more days are counted.
pub proof fn lemma_accrued_grows(
    staked: nat,
    rewards: Seq<u64>,
    snapshots: Seq<u64>,
    from: int,
    mid: int,
    to: int,
)
    requires
        mid <= to,
    ensures
        accrued(staked, rewards, snapshots, from, mid) <= accrued(
            staked,
            rewards,
            snapshots,
            from,
            to,
        ),
    decreases to - mid,
{
    if mid < to {
        lemma_accrued_grows(staked, rewards, snapshots, from, mid, to - 1);
        if to - 1 <= from {
            assert(accrued(staked, rewards, snapshots, from, to - 1) == 0);
            assert(accrued(staked, rewards, snapshots, from, mid) == 0);
        }
    }
}

/// Computes one day's share in double width, so that the product cannot
/// overflow.
pub fn daily_share(staked: u64, budget: u64, total: u64) -> (share: u128)
    ensures
        share == day_share(staked as nat, budget as nat, total as nat),
        share <= staked * budget,
{
    if total == 0 {
        return 0;
    }
    assert(staked * budget <= 0xffff_ffff_ffff_ffff * 0xffff_ffff_ffff_ffff) by (nonlinear_arith)
        requires
            staked <= 0xffff_ffff_ffff_ffff,
            budget <= 0xffff_ffff_ffff_ffff,
    ;
    let product: u128 = (staked as u128) * (budget as u128);
    assert(product / (total as u128) <= product) by (nonlinear_arith)
        requires
            total > 0,
    ;
    product / (total as u128)
}

/// Adds up a staker's shares over the days from `claim_day` up to, not
/// including, `snapshot_count`. `None` when the sum does not fit in 64 bits.
pub fn calculate_user_rewards(
    staked_amount: u64,
    claim_day: u64,
    snapshot_count: u8,
    daily_rewards: &[u64; 20],
    daily_snapshots: &[u64; 20],
) -> (total: Option<u64>)
    requires
        snapshot_count <= TOTAL_DAYS,
    ensures
        total == if accrued(
            staked_amount as nat,
            daily_rewards@,
            daily_snapshots@,
            claim_day as int,
            snapshot_count as int,
        ) <= u64::MAX {
            Some(
                accrued(
                    staked_amount as nat,
                    daily_rewards@,
                    daily_snapshots@,
                    claim_day as int,
                    snapshot_count as int,
                ) as u64,
            )
        } else {
            None
        },
{
    if claim_day >= snapshot_count as u64 {
        return Some(0);
    }
    let mut total_rewards: u128 = 0;
    let mut d: usize = claim_day as usize;
    while d < snapshot_count as usize
        invariant
            claim_day <= d <= snapshot_count <= TOTAL_DAYS,
            total_rewards <= u64::MAX,
            total_rewards == accrued(
                staked_amount as nat,
                daily_rewards@,
                daily_snapshots@,
                claim_day as int,
                d as int,
            ),
        decreases snapshot_count - d,
    {
        let user_share = daily_share(staked_amount, daily_rewards[d], daily_snapshots[d]);
        assert(staked_amount * daily_rewards@[d as int] <= 0xffff_ffff_ffff_ffff
            * 0xffff_ffff_ffff_ffff) by (nonlinear_arith)
            requires
                staked_amount <= 0xffff_ffff_ffff_ffff,
                daily_rewards@[d as int] <= 0xffff_ffff_ffff_ffff,
        ;
        total_rewards = total_rewards + user_share;
        d += 1;
        if total_rewards > u64::MAX as u128 {
            proof {
                lemma_accrued_grows(
                    staked_amount as nat,
                    daily_rewards@,
                    daily_snapshots@,
                    claim_day as int,
                    d as int,
                    snapshot_count as int,
                );
            }
            return None;
        }
    }
    Some(total_rewards as u64)
}

/// A share is the proportional share rounded down: it never pays more than
/// the exact proportion, and falls short of it by less than one unit.
pub proof fn lemma_share_rounds_down(staked: nat, budget: nat, total: nat)
    requires
        total > 0,
    ensures
        day_share(staked, budget, total) * total <= staked * budget,
        staked * budget < (day_share(staked, budget, total) + 1) * total,
{
    let product = (staked * budget) as int;
    let divisor = total as int;
    assert(product == divisor * (product / divisor) + product % divisor) by (nonlinear_arith)
        requires
            divisor > 0,
    ;
    assert(0 <= product % divisor < divisor) by (nonlinear_arith)
        requires
            divisor > 0,
    ;
    assert(product / divisor >= 0) by (nonlinear_arith)
        requires
            divisor > 0,
            product >= 0,
    ;
    assert((product / divisor) * divisor == divisor * (product / divisor)) by (nonlinear_arith);
    assert((product / divisor + 1) * divisor == divisor * (product / divisor) + divisor)
        by (nonlinear_arith);
}

/// A stake that is no larger than the day's snapshot earns no more than the
/// day's budget.
pub proof fn lemma_share_within_budget(staked: nat, budget: nat, total: nat)
    requires
        total == 0 || staked <= total,
    ensures
        day_share(staked, budget, total) <= budget,
{
    if total > 0 {
        lemma_share_rounds_down(staked, budget, total);
        let share = day_share(staked, budget, total);
        assert(share <= budget) by (nonlinear_arith)
            requires
                share * total <= staked * budget,
                staked <= total,
                total > 0,
        ;
    }
}

/// The sum of a sequence of stakes.
pub open spec fn stakes_total(stakes: Seq<nat>) -> nat
    decreases stakes.len(),
{
    if stakes.len() == 0 {
        0
    } else {
        stakes_total(stakes.drop_last()) + stakes.last()
    }
}

/// What one day pays to a sequence of stakes together.
pub open spec fn shares_total(stakes: Seq<nat>, budget: nat, total: nat) -> nat
    decreases stakes.len(),
{
    if stakes.len() == 0 {
        0
    } else {
        shares_total(stakes.drop_last(), budget, total) + day_share(stakes.last(), budget, total)
    }
}

/// What a day pays to any number of stakes is at most their exact proportion
/// of the budget taken together.
pub proof fn lemma_shares_round_down(stakes: Seq<nat>, budget: nat, total: nat)
    requires
        total > 0,
    ensures
        shares_total(stakes, budget, total) * total <= stakes_total(stakes) * budget,
    decreases stakes.len(),
{
    if stakes.len() > 0 {
        lemma_shares_round_down(stakes.drop_last(), budget, total);
        lemma_share_rounds_down(stakes.last(), budget, total);
        let paid_before = shares_total(stakes.drop_last(), budget, total);
        let staked_before = stakes_total(stakes.drop_last());
        let share = day_share(stakes.last(), budget, total);
        let last = stakes.last();
        assert((paid_before + share) * total <= (staked_before + last) * budget)
            by (nonlinear_arith)
            requires
                paid_before * total <= staked_before * budget,
                share * total <= last * budget,
        ;
    } else {
        assert(0 * total <= 0 * budget) by (nonlinear_arith);
    }
}

/// The stakes that a day's snapshot counts never earn more than the day's
/// budget together: what rounding leaves over stays in the pool.
pub proof fn lemma_day_never_overpaid(stakes: Seq<nat>, budget: nat, total: nat)
    requires
        stakes_total(stakes) <= total,
    ensures
        shares_total(stakes, budget, total) <= budget,
    decreases stakes.len(),
{
    if total == 0 {
        if stakes.len() > 0 {
            lemma_day_never_overpaid(stakes.drop_last(), budget, total);
        }
    } else {
        lemma_shares_round_down(stakes, budget, total);
        let paid = shares_total(stakes, budget, total);
        let staked = stakes_total(stakes);
        assert(paid <= budget) by (nonlinear_arith)
            requires
                paid * total <= staked * budget,
                staked <= total,
                total > 0,
        ;
    }
}

/// Two stakes that a day's snapshot counts earn no more than the day's budget
/// together.
pub proof fn lemma_pair_never_overpaid(first: nat, second: nat, budget: nat, total: nat)
    requires
        first + second <= total,
    ensures
        day_share(first, budget, total) + day_share(second, budget, total) <= budget,
{
    let stakes = seq![first, second];
    assert(stakes.drop_last() =~= seq![first]);
    assert(stakes.drop_last().drop_last() =~= Seq::<nat>::empty());
    assert(stakes_total(stakes.drop_last().drop_last()) == 0);
    assert(shares_total(stakes.drop_last().drop_last(), budget, total) == 0);
    assert(stakes_total(stakes.drop_last()) == first);
    assert(shares_total(stakes.drop_last(), budget, total) == day_share(first, budget, total));
    assert(stakes_total(stakes) == first + second);
    lemma_day_never_overpaid(stakes, budget, total);
}

/// Nothing accrues over an empty range of days: a stake earns nothing for the
/// days before its claim day.
pub proof fn lemma_nothing_accrues_before_claim(
    staked: nat,
    rewards: Seq<u64>,
    snapshots: Seq<u64>,
    claim_day: int,
    snapshot_count: int,
)
    requires
        snapshot_count <= claim_day,
    ensures
        accrued(staked, rewards, snapshots, claim_day, snapshot_count) == 0,
{
}

/// Accrual over a range of days is the accrual over its first part and the
/// accrual over the rest.
pub proof fn lemma_accrual_splits(
    staked: nat,
    rewards: Seq<u64>,
    snapshots: Seq<u64>,
    from: int,
    mid: int,
    to: int,
)
    requires
        from <= mid <= to,
    ensures
        accrued(staked, rewards, snapshots, from, to) == accrued(
            staked,
            rewards,
            snapshots,
            from,
            mid,
        ) + accrued(staked, rewards, snapshots, mid, to),
    decreases to - mid,
{
    if mid < to {
        lemma_accrual_splits(staked, rewards, snapshots, from, mid, to - 1);
    }
}

/// Accrual reads the days of its range and no others: two ledgers that agree
/// on the days from `from` up to `to` give the same accrual, whatever they
/// hold for the days before `from` and from `to` on.
pub proof fn lemma_accrual_reads_its_days_only(
    staked: nat,
    rewards: Seq<u64>,
    snapshots: Seq<u64>,
    other_rewards: Seq<u64>,
    other_snapshots: Seq<u64>,
    from: int,
    to: int,
)
    requires
        forall|d: int| from <= d < to ==> rewards[d] == other_rewards[d],
        forall|d: int| from <= d < to ==> snapshots[d] == other_snapshots[d],
    ensures
        accrued(staked, rewards, snapshots, from, to) == accrued(
            staked,
            other_rewards,
            other_snapshots,
            from,
            to,
        ),
    decreases to - from,
{
    if from < to {
        lemma_accrual_reads_its_days_only(
            staked,
            rewards,
            snapshots,
            other_rewards,
            other_snapshots,
            from,
            to - 1,
        );
    }
}

/// The budgets of the days `from <= d < to` together.
pub open spec fn budget_between(rewards: Seq<u64>, from: int, to: int) -> nat
    decreases to - from,
{
    if to <= from {
        0
    } else {
        budget_between(rewards, from, to - 1) + rewards[to - 1] as nat
    }
}

/// A stake that every snapshot of its range counts (each snapshot is at least
/// the stake, or absent) accrues no more than the budgets of those days.
pub proof fn lemma_accrual_within_budget(
    staked: nat,
    rewards: Seq<u64>,
    snapshots: Seq<u64>,
    from: int,
    to: int,
)
    requires
        forall|d: int| from <= d < to ==> snapshots[d] == 0 || staked <= snapshots[d],
    ensures
        accrued(staked, rewards, snapshots, from, to) <= budget_between(rewards, from, to),
    decreases to - from,
{
    if from < to {
        lemma_accrual_within_budget(staked, rewards, snapshots, from, to - 1);
        lemma_share_within_budget(staked, rewards[to - 1] as nat, snapshots[to - 1] as nat);
    }
}

} // verus!
