//! The pool as a mathematical record, and each operation as a pair of spec
//! functions: the first guard that refuses it, if any, and the record it
//! leaves behind when none does.

use vstd::prelude::*;
use crate::constants::{TOTAL_DAYS, AIRDROP_POOL, STAKING_POOL};
use crate::error::ErrorCode;
use crate::clock::{current_day, expired, deadline_reached};
use crate::rewards::{accrued, day_share};
use crate::accounts::{
    UserStake, InitializePool, Unstake, TerminatePool, ClosePool, RecoverExpiredTokens,
};

verus! {

/// Where a pool stands in its life. A closed pool is one that is no longer
/// stored.
#[derive(Clone, Copy, Debug, PartialEq, Eq, Structural)]
pub enum PoolStatus {
    Active,
    Paused,
    Terminated,
}

/// The sum of a sequence of amounts.
pub open spec fn total_of(amounts: Seq<u64>) -> nat
    decreases amounts.len(),
{
    if amounts.len() == 0 {
        0
    } else {
        total_of(amounts.drop_last()) + amounts.last() as nat
    }
}

/// What a pool holds, as plain mathematical values.
#[verifier::ext_equal]
pub ghost struct PoolView {
    /// Who may terminate, pause, recover and close.
    pub admin: Seq<u8>,
    pub token_mint: Seq<u8>,
    /// The custody account.
    pub pool_token_account: Seq<u8>,
    /// The commitment to the set of recipients and amounts.
    pub merkle_root: Seq<u8>,
    /// The instant at which day 0 begins.
    pub start_time: int,
    /// The sum of the principals of the open stakes.
    pub total_staked: nat,
    /// The allowance issued so far.
    pub total_airdrop_claimed: nat,
    /// The number of days covered by snapshots.
    pub snapshot_count: nat,
    pub status: PoolStatus,
    pub bump: u8,
    pub pool_token_bump: u8,
    /// The reward budget of each day.
    pub daily_rewards: Seq<u64>,
    /// The total stake recorded for each day; zero where none is recorded.
    pub daily_snapshots: Seq<u64>,
}

impl PoolView {
    /// The invariant of a pool: identities are 32 bytes long, no more is
    /// staked than was claimed, no more is claimed than the allowance, the
    /// snapshots cover no more days than there are, and the daily rewards add
    /// up to the reward budget.
    pub open spec fn wf(self) -> bool {
        &&& self.admin.len() == 32
        &&& self.token_mint.len() == 32
        &&& self.pool_token_account.len() == 32
        &&& self.merkle_root.len() == 32
        &&& self.total_staked <= self.total_airdrop_claimed <= AIRDROP_POOL
        &&& self.snapshot_count <= TOTAL_DAYS
        &&& self.daily_rewards.len() == TOTAL_DAYS
        &&& self.daily_snapshots.len() == TOTAL_DAYS
        &&& total_of(self.daily_rewards) == STAKING_POOL
    }

    /// The day of `now` on this pool's clock.
    pub open spec fn day_at(self, now: int) -> int {
        current_day(self.start_time, now)
    }

    /// Whether this pool's exit window has closed at `now`.
    pub open spec fn expired_at(self, now: int) -> bool {
        expired(self.start_time, now)
    }

    /// Whether the snapshot that a claim or an exit on the day of `now` waits
    /// for is missing: from day 1 on, the days before must be covered.
    pub open spec fn snapshot_due(self, now: int) -> bool {
        self.day_at(now) >= 1 && self.snapshot_count < self.day_at(now)
    }
}

// ── Creation ───────────────────────────────────────────────────────────────

/// Why a pool cannot be created at `now`, if it cannot.
pub open spec fn init_refusal(now: int, start_time: int, daily_rewards: Seq<u64>) -> Option<
    ErrorCode,
> {
    if start_time <= now {
        Some(ErrorCode::StartTimeInPast)
    } else if total_of(daily_rewards) != STAKING_POOL {
        Some(ErrorCode::InvalidDailyRewards)
    } else {
        None
    }
}

/// The pool as it is created: active, with nothing staked, claimed or recorded.
pub open spec fn init_pool(
    accounts: InitializePool,
    start_time: int,
    merkle_root: Seq<u8>,
    daily_rewards: Seq<u64>,
) -> PoolView {
    PoolView {
        admin: accounts.admin@,
        token_mint: accounts.token_mint@,
        pool_token_account: accounts.pool_token_account@,
        merkle_root,
        start_time,
        total_staked: 0,
        total_airdrop_claimed: 0,
        snapshot_count: 0,
        status: PoolStatus::Active,
        bump: accounts.pool_state_bump,
        pool_token_bump: accounts.pool_token_bump,
        daily_rewards,
        daily_snapshots: Seq::new(TOTAL_DAYS as nat, |d: int| 0u64),
    }
}

// ── Claim ──────────────────────────────────────────────────────────────────

/// Why a claim of `amount` at `now` is refused, if it is. `already_claimed`
/// says whether the recipient's marker is there, `proof_valid` whether the
/// claimant's proof leads to the pool's root. The state of the pool and the
/// time are judged first, for every recipient alike.
pub open spec fn claim_refusal(
    pool: PoolView,
    already_claimed: bool,
    now: int,
    amount: u64,
    proof_valid: bool,
) -> Option<ErrorCode> {
    if pool.status == PoolStatus::Paused {
        Some(ErrorCode::PoolPaused)
    } else if pool.status == PoolStatus::Terminated {
        Some(ErrorCode::PoolTerminated)
    } else if pool.expired_at(now) {
        Some(ErrorCode::ProgramExpired)
    } else if now <= pool.start_time {
        Some(ErrorCode::PoolNotStartedYet)
    } else if pool.snapshot_due(now) {
        Some(ErrorCode::SnapshotRequiredFirst)
    } else if already_claimed {
        Some(ErrorCode::AlreadyClaimed)
    } else if !proof_valid {
        Some(ErrorCode::InvalidMerkleProof)
    } else if pool.total_airdrop_claimed + amount > AIRDROP_POOL {
        Some(ErrorCode::AirdropPoolExhausted)
    } else {
        None
    }
}

/// The pool after a claim of `amount`: that much more is staked and claimed.
pub open spec fn claim_step(pool: PoolView, amount: u64) -> PoolView {
    PoolView {
        total_staked: pool.total_staked + amount as nat,
        total_airdrop_claimed: pool.total_airdrop_claimed + amount as nat,
        ..pool
    }
}

// ── Snapshot ───────────────────────────────────────────────────────────────

/// Why a snapshot at `now` is refused, if it is.
pub open spec fn snapshot_refusal(pool: PoolView, now: int) -> Option<ErrorCode> {
    if pool.status == PoolStatus::Paused {
        Some(ErrorCode::PoolPaused)
    } else if pool.status == PoolStatus::Terminated {
        Some(ErrorCode::PoolTerminated)
    } else if pool.day_at(now) < 1 {
        Some(ErrorCode::InvalidDay)
    } else {
        None
    }
}

/// Whether a snapshot on day `day` writes slot `d`: the slot lies between the
/// days already covered and `day`, and is still empty.
pub open spec fn slot_missing(pool: PoolView, day: int, d: int) -> bool {
    pool.snapshot_count <= d < day && pool.daily_snapshots[d] == 0
}

/// Whether a snapshot at `now` writes any slot.
pub open spec fn snapshot_writes(pool: PoolView, now: int) -> bool {
    exists|d: int| slot_missing(pool, pool.day_at(now), d)
}

/// The pool after a snapshot at `now`: every missing slot holds the stake of
/// this moment, every other slot is as before, and the days up to today are
/// covered.
pub open spec fn snapshot_step(pool: PoolView, now: int) -> PoolView {
    let day = pool.day_at(now);
    PoolView {
        snapshot_count: if day > pool.snapshot_count {
            day as nat
        } else {
            pool.snapshot_count
        },
        daily_snapshots: Seq::new(
            pool.daily_snapshots.len(),
            |d: int|
                if slot_missing(pool, day, d) {
                    pool.total_staked as u64
                } else {
                    pool.daily_snapshots[d]
                },
        ),
        ..pool
    }
}

// ── Exit ───────────────────────────────────────────────────────────────────

/// The reward that an exit at `now` pays on `stake`: nothing once the exit
/// window has closed, else what the stake accrued from its claim day over the
/// days covered by snapshots.
pub open spec fn exit_reward(pool: PoolView, stake: UserStake, now: int) -> nat {
    if pool.expired_at(now) {
        0
    } else {
        accrued(
            stake.staked_amount as nat,
            pool.daily_rewards,
            pool.daily_snapshots,
            stake.claim_day as int,
            pool.snapshot_count as int,
        )
    }
}

/// Why an exit at `now` is refused, if it is.
pub open spec fn exit_refusal(pool: PoolView, accounts: Unstake, now: int) -> Option<ErrorCode> {
    let stake = accounts.user_stake;
    if stake.owner@ != accounts.user@ {
        Some(ErrorCode::InvalidStakeOwner)
    } else if accounts.pool_token_account@ != pool.pool_token_account {
        Some(ErrorCode::InvalidPoolTokenAccount)
    } else if stake.staked_amount == 0 {
        Some(ErrorCode::NothingStaked)
    } else if !pool.expired_at(now) && pool.snapshot_due(now) {
        Some(ErrorCode::SnapshotRequiredFirst)
    } else if stake.staked_amount > pool.total_staked {
        Some(ErrorCode::ArithmeticOverflow)
    } else if stake.staked_amount + exit_reward(pool, stake, now) > u64::MAX {
        Some(ErrorCode::ArithmeticOverflow)
    } else {
        None
    }
}

/// The pool after an exit with a principal of `principal`.
pub open spec fn exit_step(pool: PoolView, principal: u64) -> PoolView {
    PoolView { total_staked: (pool.total_staked - principal) as nat, ..pool }
}

// ── Termination, recovery, closing ─────────────────────────────────────────

/// Why a termination is refused, if it is.
pub open spec fn terminate_refusal(pool: PoolView, accounts: TerminatePool) -> Option<ErrorCode> {
    if accounts.admin@ != pool.admin {
        Some(ErrorCode::UnauthorizedAdmin)
    } else if accounts.pool_token_account@ != pool.pool_token_account {
        Some(ErrorCode::InvalidPoolTokenAccount)
    } else if pool.status == PoolStatus::Terminated {
        Some(ErrorCode::AlreadyTerminated)
    } else if pool.snapshot_count < TOTAL_DAYS {
        Some(ErrorCode::SnapshotsNotCompleted)
    } else {
        None
    }
}

/// The pool after its termination.
pub open spec fn terminate_step(pool: PoolView) -> PoolView {
    PoolView { status: PoolStatus::Terminated, ..pool }
}

/// What a termination may drain from a custody of `balance`: what exceeds the
/// open stakes and the whole reward budget together.
pub open spec fn drainable(pool: PoolView, balance: u64) -> nat {
    if balance > pool.total_staked + STAKING_POOL {
        (balance - (pool.total_staked + STAKING_POOL)) as nat
    } else {
        0
    }
}

/// What a recovery may sweep from a custody of `balance`: what exceeds the
/// open stakes.
pub open spec fn recoverable(pool: PoolView, balance: u64) -> nat {
    if balance > pool.total_staked {
        (balance - pool.total_staked) as nat
    } else {
        0
    }
}

/// Why a recovery at `now` is refused, if it is. A recovery is open from the
/// deadline on, the deadline itself included.
pub open spec fn recover_refusal(pool: PoolView, accounts: RecoverExpiredTokens, now: int) -> Option<
    ErrorCode,
> {
    if accounts.admin@ != pool.admin {
        Some(ErrorCode::UnauthorizedAdmin)
    } else if accounts.pool_token_account@ != pool.pool_token_account {
        Some(ErrorCode::InvalidPoolTokenAccount)
    } else if !deadline_reached(pool.start_time, now) {
        Some(ErrorCode::ExitWindowNotFinished)
    } else if recoverable(pool, accounts.pool_balance) == 0 {
        Some(ErrorCode::NothingToRecover)
    } else {
        None
    }
}

/// Why the closing of a pool is refused, if it is.
pub open spec fn close_refusal(pool: PoolView, accounts: ClosePool) -> Option<ErrorCode> {
    if accounts.admin@ != pool.admin {
        Some(ErrorCode::UnauthorizedAdmin)
    } else if accounts.pool_token_account@ != pool.pool_token_account {
        Some(ErrorCode::InvalidPoolTokenAccount)
    } else if pool.status != PoolStatus::Terminated {
        Some(ErrorCode::PoolNotTerminated)
    } else if pool.total_staked != 0 {
        Some(ErrorCode::PoolNotEmpty)
    } else {
        None
    }
}

// ── Pause and resumption ───────────────────────────────────────────────────

/// Why a pause asked for by `caller` is refused, if it is.
pub open spec fn pause_refusal(pool: PoolView, caller: Seq<u8>) -> Option<ErrorCode> {
    if caller != pool.admin {
        Some(ErrorCode::UnauthorizedAdmin)
    } else if pool.status == PoolStatus::Paused {
        Some(ErrorCode::AlreadyPaused)
    } else if pool.status == PoolStatus::Terminated {
        Some(ErrorCode::PoolTerminated)
    } else {
        None
    }
}

/// Why a resumption asked for by `caller` is refused, if it is.
pub open spec fn unpause_refusal(pool: PoolView, caller: Seq<u8>) -> Option<ErrorCode> {
    if caller != pool.admin {
        Some(ErrorCode::UnauthorizedAdmin)
    } else if pool.status == PoolStatus::Active {
        Some(ErrorCode::PoolNotPaused)
    } else if pool.status == PoolStatus::Terminated {
        Some(ErrorCode::PoolTerminated)
    } else {
        None
    }
}

/// The pool with another status and nothing else changed.
pub open spec fn with_status(pool: PoolView, status: PoolStatus) -> PoolView {
    PoolView { status, ..pool }
}

// ── Preview ────────────────────────────────────────────────────────────────

/// The total stake that a preview of day `day` divides by: the day's own
/// snapshot where the day is covered, else the last snapshot taken, else the
/// stake of this moment.
pub open spec fn projected_total(pool: PoolView, day: int) -> nat {
    if day < pool.snapshot_count {
        pool.daily_snapshots[day] as nat
    } else if pool.snapshot_count > 0 {
        pool.daily_snapshots[pool.snapshot_count - 1] as nat
    } else {
        pool.total_staked
    }
}

/// The reward that `stake` is expected to earn on day `day`: nothing before
/// its claim day, else its share of the day's budget.
pub open spec fn projected_reward(pool: PoolView, stake: UserStake, day: int) -> nat {
    if day < stake.claim_day {
        0
    } else {
        day_share(
            stake.staked_amount as nat,
            pool.daily_rewards[day] as nat,
            projected_total(pool, day),
        )
    }
}

/// Why a preview of day `day` is refused, if it is.
pub open spec fn preview_refusal(pool: PoolView, stake: UserStake, day: int) -> Option<ErrorCode> {
    if day >= TOTAL_DAYS {
        Some(ErrorCode::InvalidDay)
    } else if projected_reward(pool, stake, day) > u64::MAX {
        Some(ErrorCode::ArithmeticOverflow)
    } else {
        None
    }
}

} // verus!
