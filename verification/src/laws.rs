//! What holds of the pool whatever is asked of it, in whatever order: the
//! operations as moves of a state machine, and the laws of its runs.

use vstd::prelude::*;
use crate::constants::{TOTAL_DAYS, AIRDROP_POOL, STAKING_POOL};
use crate::accounts::{Unstake, TerminatePool};
use crate::rewards::{budget_between, lemma_accrual_within_budget};
use crate::model::{
    PoolStatus, PoolView, total_of, claim_refusal, claim_step, snapshot_refusal, slot_missing,
    snapshot_writes, snapshot_step, exit_refusal, exit_reward, exit_step, terminate_refusal,
    terminate_step, drainable, recoverable, pause_refusal, unpause_refusal, with_status,
};

verus! {

/// One request that can change a pool.
pub ghost enum Operation {
    Claim { already_claimed: bool, now: int, amount: u64, proof_valid: bool },
    Snapshot { now: int },
    Exit { leaving: Unstake, now: int },
    Terminate { accounts: TerminatePool },
    Pause { caller: Seq<u8> },
    Unpause { caller: Seq<u8> },
}

/// Whether `pool` accepts `op`: none of the operation's guards refuses it.
pub open spec fn accepted(pool: PoolView, op: Operation) -> bool {
    match op {
        Operation::Claim { already_claimed, now, amount, proof_valid } => claim_refusal(
            pool,
            already_claimed,
            now,
            amount,
            proof_valid,
        ) is None,
        Operation::Snapshot { now } => snapshot_refusal(pool, now) is None,
        Operation::Exit { leaving, now } => exit_refusal(pool, leaving, now) is None,
        Operation::Terminate { accounts } => terminate_refusal(pool, accounts) is None,
        Operation::Pause { caller } => pause_refusal(pool, caller) is None,
        Operation::Unpause { caller } => unpause_refusal(pool, caller) is None,
    }
}

/// The pool after `op` was asked of it: changed as the operation says when it
/// is accepted, untouched when it is refused.
pub open spec fn apply(pool: PoolView, op: Operation) -> PoolView {
    if !accepted(pool, op) {
        pool
    } else {
        match op {
            Operation::Claim { already_claimed, now, amount, proof_valid } => claim_step(
                pool,
                amount,
            ),
            Operation::Snapshot { now } => snapshot_step(pool, now),
            Operation::Exit { leaving, now } => exit_step(pool, leaving.user_stake.staked_amount),
            Operation::Terminate { accounts } => terminate_step(pool),
            Operation::Pause { caller } => with_status(pool, PoolStatus::Paused),
            Operation::Unpause { caller } => with_status(pool, PoolStatus::Active),
        }
    }
}

/// The pool after the requests of `ops`, one after the other.
pub open spec fn run(pool: PoolView, ops: Seq<Operation>) -> PoolView
    decreases ops.len(),
{
    if ops.len() == 0 {
        pool
    } else {
        apply(run(pool, ops.drop_last()), ops.last())
    }
}

/// What the accepted claims of a run issue together.
pub open spec fn claimed_in(pool: PoolView, ops: Seq<Operation>) -> nat
    decreases ops.len(),
{
    if ops.len() == 0 {
        0
    } else {
        let before = run(pool, ops.drop_last());
        claimed_in(pool, ops.drop_last()) + match ops.last() {
            Operation::Claim { already_claimed, now, amount, proof_valid } => if accepted(
                before,
                ops.last(),
            ) {
                amount as nat
            } else {
                0
            },
            _ => 0,
        }
    }
}

/// The principal that the accepted exits of a run take out together.
pub open spec fn exited_in(pool: PoolView, ops: Seq<Operation>) -> nat
    decreases ops.len(),
{
    if ops.len() == 0 {
        0
    } else {
        let before = run(pool, ops.drop_last());
        exited_in(pool, ops.drop_last()) + match ops.last() {
            Operation::Exit { leaving, now } => if accepted(before, ops.last()) {
                leaving.user_stake.staked_amount as nat
            } else {
                0
            },
            _ => 0,
        }
    }
}

/// The snapshot ledger of `after` continues that of `before`: it covers no
/// fewer days, and every slot that held a snapshot holds the same one.
pub open spec fn ledger_kept(before: PoolView, after: PoolView) -> bool {
    &&& after.snapshot_count >= before.snapshot_count
    &&& after.daily_snapshots.len() == before.daily_snapshots.len()
    &&& forall|d: int|
        0 <= d < before.daily_snapshots.len() && before.daily_snapshots[d] != 0
            ==> after.daily_snapshots[d] == before.daily_snapshots[d]
}

/// No operation breaks the pool's invariant.
pub proof fn lemma_apply_keeps_invariant(pool: PoolView, op: Operation)
    requires
        pool.wf(),
    ensures
        apply(pool, op).wf(),
{
}

/// The pool's invariant holds after every run.
pub proof fn lemma_run_keeps_invariant(pool: PoolView, ops: Seq<Operation>)
    requires
        pool.wf(),
    ensures
        run(pool, ops).wf(),
    decreases ops.len(),
{
    if ops.len() > 0 {
        lemma_run_keeps_invariant(pool, ops.drop_last());
        lemma_apply_keeps_invariant(run(pool, ops.drop_last()), ops.last());
    }
}

/// What is claimed is what the accepted claims issued, and what is staked is
/// that less the principal that the accepted exits took out.
pub proof fn lemma_totals_follow_claims_and_exits(pool: PoolView, ops: Seq<Operation>)
    requires
        pool.wf(),
    ensures
        run(pool, ops).total_airdrop_claimed == pool.total_airdrop_claimed + claimed_in(pool, ops),
        run(pool, ops).total_staked + exited_in(pool, ops) == pool.total_staked + claimed_in(
            pool,
            ops,
        ),
        run(pool, ops).total_airdrop_claimed <= AIRDROP_POOL,
    decreases ops.len(),
{
    if ops.len() > 0 {
        lemma_totals_follow_claims_and_exits(pool, ops.drop_last());
        lemma_run_keeps_invariant(pool, ops);
    }
}

/// Whether every request of `ops` is a claim.
pub open spec fn only_claims(ops: Seq<Operation>) -> bool {
    forall|i: int| 0 <= i < ops.len() ==> ops[i] is Claim
}

/// In a pool with nothing staked and nothing claimed, after any number of
/// claims, what is staked and what is claimed are both the sum of the amounts
/// of the claims that were accepted.
pub proof fn lemma_claims_add_up(pool: PoolView, ops: Seq<Operation>)
    requires
        pool.wf(),
        pool.total_staked == 0,
        pool.total_airdrop_claimed == 0,
        only_claims(ops),
    ensures
        run(pool, ops).total_staked == claimed_in(pool, ops),
        run(pool, ops).total_airdrop_claimed == claimed_in(pool, ops),
{
    lemma_totals_follow_claims_and_exits(pool, ops);
    lemma_only_claims_take_nothing_out(pool, ops);
}

/// A run of claims takes no principal out.
pub proof fn lemma_only_claims_take_nothing_out(pool: PoolView, ops: Seq<Operation>)
    requires
        only_claims(ops),
    ensures
        exited_in(pool, ops) == 0,
    decreases ops.len(),
{
    if ops.len() > 0 {
        assert(ops.last() is Claim);
        assert(only_claims(ops.drop_last()));
        lemma_only_claims_take_nothing_out(pool, ops.drop_last());
    }
}

/// A claim that would bring what is claimed above the whole allowance is
/// refused, whatever else holds of it.
pub proof fn lemma_claim_beyond_allowance_refused(
    pool: PoolView,
    already_claimed: bool,
    now: int,
    amount: u64,
    proof_valid: bool,
)
    requires
        pool.total_airdrop_claimed + amount > AIRDROP_POOL,
    ensures
        claim_refusal(pool, already_claimed, now, amount, proof_valid) is Some,
{
}

/// A claim whose proof does not lead to the pool's root is refused, and so is
/// the claim of a recipient whose marker is there, whatever else holds of them.
pub proof fn lemma_claim_needs_proof_and_no_marker(
    pool: PoolView,
    already_claimed: bool,
    now: int,
    amount: u64,
    proof_valid: bool,
)
    requires
        already_claimed || !proof_valid,
    ensures
        claim_refusal(pool, already_claimed, now, amount, proof_valid) is Some,
{
}

/// A second snapshot on the same day changes nothing and writes nothing.
pub proof fn lemma_snapshot_twice_is_once(pool: PoolView, now: int, later: int)
    requires
        pool.wf(),
        snapshot_refusal(pool, now) is None,
        pool.day_at(later) == pool.day_at(now),
    ensures
        snapshot_refusal(snapshot_step(pool, now), later) is None,
        snapshot_step(snapshot_step(pool, now), later) == snapshot_step(pool, now),
        !snapshot_writes(snapshot_step(pool, now), later),
{
    let once = snapshot_step(pool, now);
    let twice = snapshot_step(once, later);
    let day = pool.day_at(now);
    assert(once.day_at(later) == day);
    assert forall|d: int| !slot_missing(once, day, d) by {}
    assert(twice.daily_snapshots =~= once.daily_snapshots);
}

/// No operation takes a day's cover away or changes a snapshot once taken.
pub proof fn lemma_apply_keeps_ledger(pool: PoolView, op: Operation)
    requires
        pool.wf(),
    ensures
        ledger_kept(pool, apply(pool, op)),
{
}

/// Over any run the number of covered days never falls, and a slot that holds
/// a snapshot never changes.
pub proof fn lemma_run_keeps_ledger(pool: PoolView, ops: Seq<Operation>)
    requires
        pool.wf(),
    ensures
        ledger_kept(pool, run(pool, ops)),
    decreases ops.len(),
{
    if ops.len() > 0 {
        lemma_run_keeps_ledger(pool, ops.drop_last());
        lemma_run_keeps_invariant(pool, ops.drop_last());
        lemma_apply_keeps_ledger(run(pool, ops.drop_last()), ops.last());
    }
}

/// A terminated pool stays terminated, whatever is asked of it.
pub proof fn lemma_termination_is_final(pool: PoolView, ops: Seq<Operation>)
    requires
        pool.status == PoolStatus::Terminated,
    ensures
        run(pool, ops).status == PoolStatus::Terminated,
    decreases ops.len(),
{
    if ops.len() > 0 {
        lemma_termination_is_final(pool, ops.drop_last());
    }
}

/// Neither a pause nor a termination stands in the way of an exit: whether an
/// exit is accepted, and what it pays, does not depend on the pool's status.
pub proof fn lemma_exit_ignores_status(
    pool: PoolView,
    status: PoolStatus,
    accounts: Unstake,
    now: int,
)
    ensures
        exit_refusal(with_status(pool, status), accounts, now) == exit_refusal(pool, accounts, now),
        exit_reward(with_status(pool, status), accounts.user_stake, now) == exit_reward(
            pool,
            accounts.user_stake,
            now,
        ),
{
}

/// A pool is terminated only when every day has its snapshot, and what is
/// drained then leaves in custody the open stakes and the whole reward budget,
/// if custody held as much before.
pub proof fn lemma_termination_keeps_reserve(pool: PoolView, accounts: TerminatePool)
    requires
        pool.wf(),
        terminate_refusal(pool, accounts) is None,
    ensures
        pool.snapshot_count == TOTAL_DAYS,
        drainable(pool, accounts.pool_balance) <= accounts.pool_balance,
        accounts.pool_balance >= pool.total_staked + STAKING_POOL ==> accounts.pool_balance
            - drainable(pool, accounts.pool_balance) == pool.total_staked + STAKING_POOL,
        accounts.pool_balance < pool.total_staked + STAKING_POOL ==> drainable(
            pool,
            accounts.pool_balance,
        ) == 0,
{
}

/// What a recovery sweeps leaves the open stakes in custody, if custody held
/// as much before.
pub proof fn lemma_recovery_keeps_principal(pool: PoolView, balance: u64)
    ensures
        recoverable(pool, balance) <= balance,
        balance >= pool.total_staked ==> balance - recoverable(pool, balance) == pool.total_staked,
{
}

/// Once the exit window has closed, the owner of a stake that the pool still
/// counts exits without fail and is paid the principal and no reward.
pub proof fn lemma_exit_after_expiry(pool: PoolView, accounts: Unstake, now: int)
    requires
        pool.expired_at(now),
        accounts.user_stake.owner@ == accounts.user@,
        accounts.pool_token_account@ == pool.pool_token_account,
        0 < accounts.user_stake.staked_amount <= pool.total_staked,
    ensures
        exit_refusal(pool, accounts, now) is None,
        exit_reward(pool, accounts.user_stake, now) == 0,
{
}

/// The budgets of the first days together are no more than the budgets of all
/// the days.
pub proof fn lemma_budget_between_is_part(rewards: Seq<u64>, from: int, to: int)
    requires
        0 <= from,
        to <= rewards.len(),
    ensures
        budget_between(rewards, from, to) <= total_of(rewards),
    decreases rewards.len(),
{
    if rewards.len() == 0 {
    } else if to <= from {
    } else if to == rewards.len() {
        lemma_budget_between_is_part(rewards.drop_last(), from, to - 1);
        lemma_budget_between_reads_its_days_only(rewards, rewards.drop_last(), from, to - 1);
    } else {
        lemma_budget_between_is_part(rewards.drop_last(), from, to);
        lemma_budget_between_reads_its_days_only(rewards, rewards.drop_last(), from, to);
    }
}

/// The budget of a range of days is the same in two ledgers that agree on
/// those days.
pub proof fn lemma_budget_between_reads_its_days_only(
    rewards: Seq<u64>,
    other: Seq<u64>,
    from: int,
    to: int,
)
    requires
        forall|d: int| from <= d < to ==> rewards[d] == other[d],
    ensures
        budget_between(rewards, from, to) == budget_between(other, from, to),
    decreases to - from,
{
    if from < to {
        lemma_budget_between_reads_its_days_only(rewards, other, from, to - 1);
    }
}

/// A stake that every snapshot since its claim day counts is paid without
/// fail before the exit window closes, as soon as the snapshot of the day
/// before is there, and its reward is no more than the whole reward budget.
pub proof fn lemma_counted_stake_is_paid(pool: PoolView, accounts: Unstake, now: int)
    requires
        pool.wf(),
        accounts.user_stake.owner@ == accounts.user@,
        accounts.pool_token_account@ == pool.pool_token_account,
        0 < accounts.user_stake.staked_amount <= pool.total_staked,
        !pool.snapshot_due(now),
        forall|d: int|
            accounts.user_stake.claim_day <= d < pool.snapshot_count ==> pool.daily_snapshots[d]
                == 0 || accounts.user_stake.staked_amount <= pool.daily_snapshots[d],
    ensures
        exit_refusal(pool, accounts, now) is None,
        exit_reward(pool, accounts.user_stake, now) <= STAKING_POOL,
{
    let stake = accounts.user_stake;
    lemma_accrual_within_budget(
        stake.staked_amount as nat,
        pool.daily_rewards,
        pool.daily_snapshots,
        stake.claim_day as int,
        pool.snapshot_count as int,
    );
    lemma_budget_between_is_part(
        pool.daily_rewards,
        stake.claim_day as int,
        pool.snapshot_count as int,
    );
}

} // verus!
