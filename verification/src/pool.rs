//! The pool and its lifecycle: every operation checks its guards in a fixed
//! order, changes the pool only when all of them pass, and hands back what is
//! to be done outside: the record for the audit trail and the amounts to move.

use vstd::prelude::*;
use crate::constants::{TOTAL_DAYS, AIRDROP_POOL, STAKING_POOL};
use crate::error::ErrorCode;
use crate::bytes::bytes32_eq;
use crate::clock::{get_current_day, program_expired, reached_deadline};
use crate::merkle::{leaf_digest, proof_holds, leaf_hash, verify_merkle_proof};
use crate::rewards::{calculate_user_rewards, daily_share};
use crate::accounts::{
    UserStake, ClaimMarker, InitializePool, ClaimAirdrop, Unstake, TerminatePool,
    CalculateRewards, ClosePool, RecoverExpiredTokens, PausePool,
};
use crate::events::{
    PoolInitialized, AirdropClaimed, SnapshotTaken, Unstaked, PoolTerminated, TokensRecovered,
    PoolClosed, PoolPausedEvent, PoolUnpausedEvent,
};
use crate::model::{
    PoolStatus, PoolView, total_of, init_refusal, init_pool, claim_refusal, claim_step,
    snapshot_refusal, slot_missing, snapshot_writes, snapshot_step, exit_refusal, exit_reward,
    exit_step, terminate_refusal, terminate_step, drainable, recoverable, recover_refusal,
    close_refusal, pause_refusal, unpause_refusal, with_status, projected_reward,
    preview_refusal,
};

verus! {

/// A pool as it is stored: plain fields, with no promise that they fit
/// together.
#[derive(Clone, Copy, Debug, PartialEq, Eq)]
pub struct PoolRecord {
    pub admin: [u8; 32],
    pub token_mint: [u8; 32],
    pub pool_token_account: [u8; 32],
    pub merkle_root: [u8; 32],
    pub start_time: i64,
    pub total_staked: u64,
    pub total_airdrop_claimed: u64,
    pub snapshot_count: u8,
    pub status: PoolStatus,
    pub bump: u8,
    pub pool_token_bump: u8,
    pub daily_rewards: [u64; 20],
    pub daily_snapshots: [u64; 20],
}

impl View for PoolRecord {
    type V = PoolView;

    open spec fn view(&self) -> PoolView {
        PoolView {
            admin: self.admin@,
            token_mint: self.token_mint@,
            pool_token_account: self.pool_token_account@,
            merkle_root: self.merkle_root@,
            start_time: self.start_time as int,
            total_staked: self.total_staked as nat,
            total_airdrop_claimed: self.total_airdrop_claimed as nat,
            snapshot_count: self.snapshot_count as nat,
            status: self.status,
            bump: self.bump,
            pool_token_bump: self.pool_token_bump,
            daily_rewards: self.daily_rewards@,
            daily_snapshots: self.daily_snapshots@,
        }
    }
}

/// A pool whose fields fit together. It is made by `initialize_pool` or from a
/// stored record that passes the check, and changes only through the
/// operations of this module.
pub struct PoolState {
    record: PoolRecord,
}

impl View for PoolState {
    type V = PoolView;

    closed spec fn view(&self) -> PoolView {
        self.record@
    }
}

/// Adds up twenty amounts in double width.
pub fn sum_amounts(amounts: &[u64; 20]) -> (sum: u128)
    ensures
        sum == total_of(amounts@),
{
    let mut sum: u128 = 0;
    let mut d: usize = 0;
    while d < 20
        invariant
            d <= 20,
            sum == total_of(amounts@.take(d as int)),
            sum <= d * u64::MAX,
        decreases 20 - d,
    {
        proof {
            let upto = amounts@.take(d + 1);
            assert(upto.drop_last() =~= amounts@.take(d as int));
            assert(upto.last() == amounts@[d as int]);
        }
        sum = sum + amounts[d] as u128;
        d += 1;
    }
    assert(amounts@.take(20) =~= amounts@);
    sum
}

impl PoolState {
    #[verifier::type_invariant]
    pub closed spec fn inv(self) -> bool {
        self.record@.wf()
    }

    /// Takes a stored record for a pool, if its fields fit together.
    pub fn from_record(record: PoolRecord) -> (pool: Option<PoolState>)
        ensures
            pool is Some <==> record@.wf(),
            pool matches Some(p) ==> p@ == record@,
    {
        if record.total_staked > record.total_airdrop_claimed {
            return None;
        }
        if record.total_airdrop_claimed > AIRDROP_POOL {
            return None;
        }
        if record.snapshot_count as u64 > TOTAL_DAYS {
            return None;
        }
        if sum_amounts(&record.daily_rewards) != STAKING_POOL as u128 {
            return None;
        }
        Some(PoolState { record })
    }

    /// The pool's fields, to be stored or read.
    pub fn record(&self) -> (record: PoolRecord)
        ensures
            record@ == self@,
            record@.wf(),
    {
        proof {
            use_type_invariant(self);
        }
        self.record
    }
}

/// The stake, the marker and the audit record that a claim of `amount` on day
/// `day` creates.
pub open spec fn claim_receipt(accounts: ClaimAirdrop, amount: u64, day: int) -> (
    UserStake,
    ClaimMarker,
    AirdropClaimed,
) {
    (
        UserStake {
            owner: accounts.user,
            staked_amount: amount,
            claim_day: day as u64,
            bump: accounts.user_stake_bump,
        },
        ClaimMarker { bump: accounts.claim_marker_bump },
        AirdropClaimed { user: accounts.user, amount, claim_day: day as u64 },
    )
}

/// Books a claim whose proof has been judged: `proof_valid` is the verdict.
/// The guards are checked in the order of `claim_refusal`; when all pass, the
/// amount is added to what is staked and to what is claimed, and the new stake
/// and marker are handed out to be stored. The marker is to be kept for good:
/// it is what makes the next claim of the same recipient fail.
pub fn record_claim(
    pool: &mut PoolState,
    accounts: &ClaimAirdrop,
    now: i64,
    amount: u64,
    proof_valid: bool,
) -> (outcome: Result<(UserStake, ClaimMarker, AirdropClaimed), ErrorCode>)
    ensures
        match outcome {
            Ok(receipt) => {
                &&& claim_refusal(
                    old(pool)@,
                    accounts.already_claimed,
                    now as int,
                    amount,
                    proof_valid,
                ) is None
                &&& final(pool)@ == claim_step(old(pool)@, amount)
                &&& receipt == claim_receipt(*accounts, amount, old(pool)@.day_at(now as int))
            },
            Err(e) => {
                &&& claim_refusal(
                    old(pool)@,
                    accounts.already_claimed,
                    now as int,
                    amount,
                    proof_valid,
                ) == Some(e)
                &&& final(pool)@ == old(pool)@
            },
        },
        final(pool)@.wf(),
{
    proof {
        use_type_invariant(&*pool);
    }
    match pool.record.status {
        PoolStatus::Paused => {
            return Err(ErrorCode::PoolPaused);
        },
        PoolStatus::Terminated => {
            return Err(ErrorCode::PoolTerminated);
        },
        PoolStatus::Active => {},
    }
    if program_expired(pool.record.start_time, now) {
        return Err(ErrorCode::ProgramExpired);
    }
    if now <= pool.record.start_time {
        return Err(ErrorCode::PoolNotStartedYet);
    }
    let current_day = get_current_day(pool.record.start_time, now);
    if current_day >= 1 && (pool.record.snapshot_count as u64) < current_day {
        return Err(ErrorCode::SnapshotRequiredFirst);
    }
    if accounts.already_claimed {
        return Err(ErrorCode::AlreadyClaimed);
    }
    if !proof_valid {
        return Err(ErrorCode::InvalidMerkleProof);
    }
    if pool.record.total_airdrop_claimed as u128 + amount as u128 > AIRDROP_POOL as u128 {
        return Err(ErrorCode::AirdropPoolExhausted);
    }
    pool.record.total_airdrop_claimed = pool.record.total_airdrop_claimed + amount;
    pool.record.total_staked = pool.record.total_staked + amount;
    Ok(
        (
            UserStake {
                owner: accounts.user,
                staked_amount: amount,
                claim_day: current_day,
                bump: accounts.user_stake_bump,
            },
            ClaimMarker { bump: accounts.claim_marker_bump },
            AirdropClaimed { user: accounts.user, amount, claim_day: current_day },
        ),
    )
}

/// Claims `amount` for `accounts.user`: the leaf of the two is folded with
/// `proof` and held against the pool's root, and the claim is then booked as
/// `record_claim` does.
pub fn claim_airdrop(
    pool: &mut PoolState,
    accounts: &ClaimAirdrop,
    now: i64,
    amount: u64,
    proof: Vec<[u8; 32]>,
) -> (outcome: Result<(UserStake, ClaimMarker, AirdropClaimed), ErrorCode>)
    ensures
        match outcome {
            Ok(receipt) => {
                &&& claim_refusal(
                    old(pool)@,
                    accounts.already_claimed,
                    now as int,
                    amount,
                    proof_holds(
                        leaf_digest(accounts.user@, amount),
                        proof@,
                        old(pool)@.merkle_root,
                    ),
                ) is None
                &&& final(pool)@ == claim_step(old(pool)@, amount)
                &&& receipt == claim_receipt(*accounts, amount, old(pool)@.day_at(now as int))
            },
            Err(e) => {
                &&& claim_refusal(
                    old(pool)@,
                    accounts.already_claimed,
                    now as int,
                    amount,
                    proof_holds(
                        leaf_digest(accounts.user@, amount),
                        proof@,
                        old(pool)@.merkle_root,
                    ),
                ) == Some(e)
                &&& final(pool)@ == old(pool)@
            },
        },
        final(pool)@.wf(),
{
    let leaf = leaf_hash(&accounts.user, amount);
    let proof_valid = verify_merkle_proof(proof.as_slice(), &pool.record.merkle_root, &leaf);
    record_claim(pool, accounts, now, amount, proof_valid)
}

/// The audit record of an exit and the amount to pay: principal and reward.
pub open spec fn exit_receipt(pool: PoolView, accounts: Unstake, now: int) -> (Unstaked, u64) {
    let stake = accounts.user_stake;
    (
        Unstaked {
            user: stake.owner,
            principal: stake.staked_amount,
            rewards: exit_reward(pool, stake, now) as u64,
        },
        (stake.staked_amount + exit_reward(pool, stake, now)) as u64,
    )
}

/// Exits with a stake, for good. The guards are checked in the order of
/// `exit_refusal`; when all pass, the principal leaves the pool's total and the
/// amount to pay is the principal and the reward accrued, which is nothing
/// once the exit window has closed. A paused or terminated pool does not
/// block an exit.
pub fn unstake(pool: &mut PoolState, accounts: &Unstake, now: i64) -> (outcome: Result<
    (Unstaked, u64),
    ErrorCode,
>)
    ensures
        match outcome {
            Ok(receipt) => {
                &&& exit_refusal(old(pool)@, *accounts, now as int) is None
                &&& final(pool)@ == exit_step(old(pool)@, accounts.user_stake.staked_amount)
                &&& receipt == exit_receipt(old(pool)@, *accounts, now as int)
            },
            Err(e) => {
                &&& exit_refusal(old(pool)@, *accounts, now as int) == Some(e)
                &&& final(pool)@ == old(pool)@
            },
        },
        final(pool)@.wf(),
{
    proof {
        use_type_invariant(&*pool);
    }
    let user_stake = &accounts.user_stake;
    if !bytes32_eq(&user_stake.owner, &accounts.user) {
        return Err(ErrorCode::InvalidStakeOwner);
    }
    if !bytes32_eq(&accounts.pool_token_account, &pool.record.pool_token_account) {
        return Err(ErrorCode::InvalidPoolTokenAccount);
    }
    if user_stake.staked_amount == 0 {
        return Err(ErrorCode::NothingStaked);
    }
    let expired = program_expired(pool.record.start_time, now);
    let current_day = get_current_day(pool.record.start_time, now);
    if !expired && current_day >= 1 && (pool.record.snapshot_count as u64) < current_day {
        return Err(ErrorCode::SnapshotRequiredFirst);
    }
    if user_stake.staked_amount > pool.record.total_staked {
        return Err(ErrorCode::ArithmeticOverflow);
    }
    let rewards = if expired {
        Some(0)
    } else {
        calculate_user_rewards(
            user_stake.staked_amount,
            user_stake.claim_day,
            pool.record.snapshot_count,
            &pool.record.daily_rewards,
            &pool.record.daily_snapshots,
        )
    };
    let rewards = match rewards {
        Some(r) => r,
        None => {
            return Err(ErrorCode::ArithmeticOverflow);
        },
    };
    let total_payout = match user_stake.staked_amount.checked_add(rewards) {
        Some(t) => t,
        None => {
            return Err(ErrorCode::ArithmeticOverflow);
        },
    };
    pool.record.total_staked = pool.record.total_staked - user_stake.staked_amount;
    Ok(
        (
            Unstaked {
                user: user_stake.owner,
                principal: user_stake.staked_amount,
                rewards,
            },
            total_payout,
        ),
    )
}

/// Creates a pool that starts at `start_time`, commits to `merkle_root` and
/// pays `daily_rewards`. It is refused unless the start lies after `now` and
/// the rewards add up to the whole reward budget, to the unit.
pub fn initialize_pool(
    accounts: &InitializePool,
    now: i64,
    start_time: i64,
    merkle_root: [u8; 32],
    daily_rewards: [u64; 20],
) -> (outcome: Result<(PoolState, PoolInitialized), ErrorCode>)
    ensures
        match outcome {
            Ok((pool, event)) => {
                &&& init_refusal(now as int, start_time as int, daily_rewards@) is None
                &&& pool@ == init_pool(*accounts, start_time as int, merkle_root@, daily_rewards@)
                &&& pool@.wf()
                &&& event == (PoolInitialized {
                    admin: accounts.admin,
                    token_mint: accounts.token_mint,
                    start_time,
                })
            },
            Err(e) => init_refusal(now as int, start_time as int, daily_rewards@) == Some(e),
        },
{
    if start_time <= now {
        return Err(ErrorCode::StartTimeInPast);
    }
    if sum_amounts(&daily_rewards) != STAKING_POOL as u128 {
        return Err(ErrorCode::InvalidDailyRewards);
    }
    let record = PoolRecord {
        admin: accounts.admin,
        token_mint: accounts.token_mint,
        pool_token_account: accounts.pool_token_account,
        merkle_root,
        start_time,
        total_staked: 0,
        total_airdrop_claimed: 0,
        snapshot_count: 0,
        status: PoolStatus::Active,
        bump: accounts.pool_state_bump,
        pool_token_bump: accounts.pool_token_bump,
        daily_rewards,
        daily_snapshots: [0u64; 20],
    };
    assert(record@.daily_snapshots =~= Seq::new(TOTAL_DAYS as nat, |d: int| 0u64));
    Ok(
        (
            PoolState { record },
            PoolInitialized { admin: accounts.admin, token_mint: accounts.token_mint, start_time },
        ),
    )
}

/// Records the total stake of this moment for every day up to today that has
/// no snapshot yet, and never touches a slot that holds one. Refused on a
/// paused or terminated pool and before day 1. The audit record is handed out
/// only when a slot was written: a second call on the same day writes nothing.
pub fn snapshot(pool: &mut PoolState, now: i64) -> (outcome: Result<Option<SnapshotTaken>, ErrorCode>)
    ensures
        match outcome {
            Ok(event) => {
                &&& snapshot_refusal(old(pool)@, now as int) is None
                &&& final(pool)@ == snapshot_step(old(pool)@, now as int)
                &&& event == if snapshot_writes(old(pool)@, now as int) {
                    Some(
                        SnapshotTaken {
                            day: old(pool)@.day_at(now as int) as u64,
                            total_staked: old(pool)@.total_staked as u64,
                        },
                    )
                } else {
                    None
                }
            },
            Err(e) => {
                &&& snapshot_refusal(old(pool)@, now as int) == Some(e)
                &&& final(pool)@ == old(pool)@
            },
        },
        final(pool)@.wf(),
{
    proof {
        use_type_invariant(&*pool);
    }
    match pool.record.status {
        PoolStatus::Paused => {
            return Err(ErrorCode::PoolPaused);
        },
        PoolStatus::Terminated => {
            return Err(ErrorCode::PoolTerminated);
        },
        PoolStatus::Active => {},
    }
    let current_day = get_current_day(pool.record.start_time, now);
    if current_day < 1 {
        return Err(ErrorCode::InvalidDay);
    }
    let ghost before = pool@;
    let last = pool.record.snapshot_count as usize;
    let upper = if current_day as usize > last {
        current_day as usize
    } else {
        last
    };
    let total_staked = pool.record.total_staked;
    let mut wrote = false;
    let mut d = last;
    while d < upper
        invariant
            last <= d <= upper <= TOTAL_DAYS,
            before.wf(),
            last == before.snapshot_count,
            total_staked == before.total_staked,
            pool@ == (PoolView { daily_snapshots: pool@.daily_snapshots, ..before }),
            pool@.daily_snapshots.len() == TOTAL_DAYS,
            forall|k: int|
                0 <= k < TOTAL_DAYS ==> pool@.daily_snapshots[k] == if slot_missing(
                    before,
                    d as int,
                    k,
                ) {
                    total_staked
                } else {
                    before.daily_snapshots[k]
                },
            wrote <==> exists|k: int| slot_missing(before, d as int, k),
        decreases upper - d,
    {
        assert(!slot_missing(before, d as int, d as int));
        assert(pool@.daily_snapshots[d as int] == before.daily_snapshots[d as int]);
        let ghost wrote_before = wrote;
        if pool.record.daily_snapshots[d] == 0 {
            pool.record.daily_snapshots[d] = total_staked;
            wrote = true;
        }
        proof {
            let here = d as int;
            let next = d + 1;
            if before.daily_snapshots[here] == 0 {
                assert(slot_missing(before, next, here));
            } else if exists|k: int| slot_missing(before, next, k) {
                let k = choose|k: int| slot_missing(before, next, k);
                assert(slot_missing(before, here, k));
            }
            if wrote_before {
                let k = choose|k: int| slot_missing(before, here, k);
                assert(slot_missing(before, next, k));
            }
        }
        d += 1;
    }
    if current_day > pool.record.snapshot_count as u64 {
        pool.record.snapshot_count = current_day as u8;
    }
    proof {
        let day = before.day_at(now as int);
        assert forall|k: int| slot_missing(before, upper as int, k) == slot_missing(
            before,
            day,
            k,
        ) by {}
        assert(pool@.daily_snapshots =~= snapshot_step(before, now as int).daily_snapshots);
    }
    if wrote {
        Ok(Some(SnapshotTaken { day: current_day, total_staked }))
    } else {
        Ok(None)
    }
}

/// Terminates the pool, once and for good, when every day has its snapshot.
/// The audit record carries what is to be drained to the admin: what the
/// custody holds beyond the open stakes and the whole reward budget.
pub fn terminate_pool(pool: &mut PoolState, accounts: &TerminatePool) -> (outcome: Result<
    PoolTerminated,
    ErrorCode,
>)
    ensures
        match outcome {
            Ok(event) => {
                &&& terminate_refusal(old(pool)@, *accounts) is None
                &&& final(pool)@ == terminate_step(old(pool)@)
                &&& event.drained_amount == drainable(old(pool)@, accounts.pool_balance)
            },
            Err(e) => {
                &&& terminate_refusal(old(pool)@, *accounts) == Some(e)
                &&& final(pool)@ == old(pool)@
            },
        },
        final(pool)@.wf(),
{
    proof {
        use_type_invariant(&*pool);
    }
    if !bytes32_eq(&accounts.admin, &pool.record.admin) {
        return Err(ErrorCode::UnauthorizedAdmin);
    }
    if !bytes32_eq(&accounts.pool_token_account, &pool.record.pool_token_account) {
        return Err(ErrorCode::InvalidPoolTokenAccount);
    }
    match pool.record.status {
        PoolStatus::Terminated => {
            return Err(ErrorCode::AlreadyTerminated);
        },
        _ => {},
    }
    if (pool.record.snapshot_count as u64) < TOTAL_DAYS {
        return Err(ErrorCode::SnapshotsNotCompleted);
    }
    pool.record.status = PoolStatus::Terminated;
    let reserved = pool.record.total_staked + STAKING_POOL;
    let drained_amount = if accounts.pool_balance > reserved {
        accounts.pool_balance - reserved
    } else {
        0
    };
    Ok(PoolTerminated { drained_amount })
}

/// Previews the reward of the given stake for one day. A day that has its
/// snapshot is computed from it; a later day from the last snapshot taken, or
/// from the stake of this moment when there is none.
pub fn calculate_rewards(pool: &PoolState, accounts: &CalculateRewards, day: u64) -> (outcome:
    Result<u64, ErrorCode>)
    ensures
        match outcome {
            Ok(reward) => {
                &&& preview_refusal(pool@, accounts.user_stake, day as int) is None
                &&& reward == projected_reward(pool@, accounts.user_stake, day as int)
            },
            Err(e) => preview_refusal(pool@, accounts.user_stake, day as int) == Some(e),
        },
{
    proof {
        use_type_invariant(pool);
    }
    let user_stake = &accounts.user_stake;
    if day >= TOTAL_DAYS {
        return Err(ErrorCode::InvalidDay);
    }
    if day < user_stake.claim_day {
        return Ok(0);
    }
    let day_idx = day as usize;
    let snapshot_total = if (day as u8) < pool.record.snapshot_count {
        pool.record.daily_snapshots[day_idx]
    } else if pool.record.snapshot_count > 0 {
        pool.record.daily_snapshots[(pool.record.snapshot_count - 1) as usize]
    } else {
        pool.record.total_staked
    };
    let user_share = daily_share(
        user_stake.staked_amount,
        pool.record.daily_rewards[day_idx],
        snapshot_total,
    );
    if user_share > u64::MAX as u128 {
        return Err(ErrorCode::ArithmeticOverflow);
    }
    Ok(user_share as u64)
}

/// Tells what the admin may sweep from the deadline on, the deadline itself
/// included: what the custody holds beyond the open stakes, whose principal
/// stays protected. The pool itself does not change.
pub fn recover_expired_tokens(pool: &PoolState, accounts: &RecoverExpiredTokens, now: i64) -> (outcome:
    Result<TokensRecovered, ErrorCode>)
    ensures
        match outcome {
            Ok(event) => {
                &&& recover_refusal(pool@, *accounts, now as int) is None
                &&& event.amount == recoverable(pool@, accounts.pool_balance)
            },
            Err(e) => recover_refusal(pool@, *accounts, now as int) == Some(e),
        },
{
    if !bytes32_eq(&accounts.admin, &pool.record.admin) {
        return Err(ErrorCode::UnauthorizedAdmin);
    }
    if !bytes32_eq(&accounts.pool_token_account, &pool.record.pool_token_account) {
        return Err(ErrorCode::InvalidPoolTokenAccount);
    }
    if !reached_deadline(pool.record.start_time, now) {
        return Err(ErrorCode::ExitWindowNotFinished);
    }
    if accounts.pool_balance <= pool.record.total_staked {
        return Err(ErrorCode::NothingToRecover);
    }
    Ok(TokensRecovered { amount: accounts.pool_balance - pool.record.total_staked })
}

/// Judges whether the pool may be closed: it must be terminated and hold no
/// open stake. When it may, the audit record carries the storage deposit that
/// goes back to the admin.
pub fn close_pool(pool: &PoolState, accounts: &ClosePool) -> (outcome: Result<
    PoolClosed,
    ErrorCode,
>)
    ensures
        match outcome {
            Ok(event) => {
                &&& close_refusal(pool@, *accounts) is None
                &&& event.lamports_returned == accounts.pool_lamports
            },
            Err(e) => close_refusal(pool@, *accounts) == Some(e),
        },
{
    if !bytes32_eq(&accounts.admin, &pool.record.admin) {
        return Err(ErrorCode::UnauthorizedAdmin);
    }
    if !bytes32_eq(&accounts.pool_token_account, &pool.record.pool_token_account) {
        return Err(ErrorCode::InvalidPoolTokenAccount);
    }
    match pool.record.status {
        PoolStatus::Terminated => {},
        _ => {
            return Err(ErrorCode::PoolNotTerminated);
        },
    }
    if pool.record.total_staked != 0 {
        return Err(ErrorCode::PoolNotEmpty);
    }
    Ok(PoolClosed { lamports_returned: accounts.pool_lamports })
}

/// Pauses an active pool. A paused pool refuses claims and snapshots, and
/// never an exit.
pub fn pause_pool(pool: &mut PoolState, accounts: &PausePool) -> (outcome: Result<
    PoolPausedEvent,
    ErrorCode,
>)
    ensures
        match outcome {
            Ok(event) => {
                &&& pause_refusal(old(pool)@, accounts.admin@) is None
                &&& final(pool)@ == with_status(old(pool)@, PoolStatus::Paused)
                &&& event.admin == accounts.admin
            },
            Err(e) => {
                &&& pause_refusal(old(pool)@, accounts.admin@) == Some(e)
                &&& final(pool)@ == old(pool)@
            },
        },
        final(pool)@.wf(),
{
    proof {
        use_type_invariant(&*pool);
    }
    if !bytes32_eq(&accounts.admin, &pool.record.admin) {
        return Err(ErrorCode::UnauthorizedAdmin);
    }
    match pool.record.status {
        PoolStatus::Paused => {
            return Err(ErrorCode::AlreadyPaused);
        },
        PoolStatus::Terminated => {
            return Err(ErrorCode::PoolTerminated);
        },
        PoolStatus::Active => {},
    }
    pool.record.status = PoolStatus::Paused;
    Ok(PoolPausedEvent { admin: accounts.admin })
}

/// Resumes a paused pool.
pub fn unpause_pool(pool: &mut PoolState, accounts: &PausePool) -> (outcome: Result<
    PoolUnpausedEvent,
    ErrorCode,
>)
    ensures
        match outcome {
            Ok(event) => {
                &&& unpause_refusal(old(pool)@, accounts.admin@) is None
                &&& final(pool)@ == with_status(old(pool)@, PoolStatus::Active)
                &&& event.admin == accounts.admin
            },
            Err(e) => {
                &&& unpause_refusal(old(pool)@, accounts.admin@) == Some(e)
                &&& final(pool)@ == old(pool)@
            },
        },
        final(pool)@.wf(),
{
    proof {
        use_type_invariant(&*pool);
    }
    if !bytes32_eq(&accounts.admin, &pool.record.admin) {
        return Err(ErrorCode::UnauthorizedAdmin);
    }
    match pool.record.status {
        PoolStatus::Active => {
            return Err(ErrorCode::PoolNotPaused);
        },
        PoolStatus::Terminated => {
            return Err(ErrorCode::PoolTerminated);
        },
        PoolStatus::Paused => {},
    }
    pool.record.status = PoolStatus::Active;
    Ok(PoolUnpausedEvent { admin: accounts.admin })
}

} // verus!
