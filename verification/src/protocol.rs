//! The pool together with what is stored around it: the open stakes, the
//! claim markers and a clock that never goes back. Over every run of requests
//! the pool's total is the sum of the open stakes, no recipient claims twice,
//! and no day pays out more than its budget.

use vstd::prelude::*;
use crate::constants::{TOTAL_DAYS, STAKING_POOL};
use crate::accounts::{UserStake, InitializePool, ClaimAirdrop, Unstake, TerminatePool};
use crate::rewards::{day_share, accrued, stakes_total, shares_total, lemma_day_never_overpaid};
use crate::model::{
    PoolStatus, PoolView, total_of, init_refusal, init_pool, claim_refusal, claim_step,
    snapshot_refusal, snapshot_step,
    exit_refusal, exit_reward, exit_step, terminate_refusal, terminate_step, drainable,
    recoverable, pause_refusal, unpause_refusal, with_status,
};
use crate::pool::claim_receipt;
use crate::laws::{Operation, apply};

verus! {

/// A pool and its surroundings.
pub ghost struct World {
    pub pool: PoolView,
    /// The time of the latest request.
    pub clock: int,
    /// The open stakes, in the order of their claims.
    pub stakes: Seq<UserStake>,
    /// The recipients whose claim marker is stored.
    pub markers: Set<Seq<u8>>,
    /// What has been paid in rewards so far, day by day.
    pub paid_for: Seq<nat>,
    /// What has been paid in rewards so far.
    pub paid: nat,
}

/// A request as it arrives from outside. The storage fills in what it holds:
/// whether the claimant's marker is there, and the stake of the one who exits.
pub ghost enum Request {
    Claim {
        user: [u8; 32],
        claim_marker_bump: u8,
        user_stake_bump: u8,
        now: int,
        amount: u64,
        proof_valid: bool,
    },
    Snapshot { now: int },
    Exit { user: [u8; 32], pool_token_account: [u8; 32], now: int },
    Terminate { accounts: TerminatePool },
    Pause { caller: Seq<u8> },
    Unpause { caller: Seq<u8> },
}

/// The principals of a sequence of stakes together.
pub open spec fn principal_sum(stakes: Seq<UserStake>) -> nat
    decreases stakes.len(),
{
    if stakes.len() == 0 {
        0
    } else {
        principal_sum(stakes.drop_last()) + stakes.last().staked_amount as nat
    }
}

/// What day `d` owes to one stake when its budget is `budget` and its
/// snapshot `total`: the stake's share if it was claimed by then.
pub open spec fn owed_to(stake: UserStake, d: int, budget: nat, total: nat) -> nat {
    if stake.claim_day <= d {
        day_share(stake.staked_amount as nat, budget, total)
    } else {
        0
    }
}

/// What day `d` owes to a sequence of stakes together.
pub open spec fn owed_for(stakes: Seq<UserStake>, d: int, budget: nat, total: nat) -> nat
    decreases stakes.len(),
{
    if stakes.len() == 0 {
        0
    } else {
        owed_for(stakes.drop_last(), d, budget, total) + owed_to(stakes.last(), d, budget, total)
    }
}

/// The sum of the first `upto` entries of a sequence of amounts.
pub open spec fn sum_upto(amounts: Seq<nat>, upto: int) -> nat
    decreases upto,
{
    if upto <= 0 {
        0
    } else {
        sum_upto(amounts, upto - 1) + amounts[upto - 1]
    }
}

/// Whether `user` has an open stake.
pub open spec fn holds_stake(stakes: Seq<UserStake>, user: Seq<u8>) -> bool {
    exists|i: int| 0 <= i < stakes.len() && #[trigger] stakes[i].owner@ == user
}

/// The place of the open stake of `user`.
pub open spec fn stake_index(stakes: Seq<UserStake>, user: Seq<u8>) -> int {
    choose|i: int| 0 <= i < stakes.len() && #[trigger] stakes[i].owner@ == user
}

/// The time that a request carries, if it carries one.
pub open spec fn request_time(request: Request) -> Option<int> {
    match request {
        Request::Claim { now, .. } => Some(now),
        Request::Snapshot { now } => Some(now),
        Request::Exit { now, .. } => Some(now),
        _ => None,
    }
}

/// Whether `request` can arrive in `world`: the clock never goes back.
pub open spec fn timely(world: World, request: Request) -> bool {
    request_time(request) matches Some(now) ==> now >= world.clock
}

/// The clock after `request`.
pub open spec fn clock_after(world: World, request: Request) -> int {
    match request_time(request) {
        Some(now) => now,
        None => world.clock,
    }
}

/// What the storage hands to a claim of `user`.
pub open spec fn claim_accounts(
    world: World,
    user: [u8; 32],
    claim_marker_bump: u8,
    user_stake_bump: u8,
) -> ClaimAirdrop {
    ClaimAirdrop {
        user,
        already_claimed: world.markers.contains(user@),
        claim_marker_bump,
        user_stake_bump,
    }
}

/// What the storage hands to an exit of `user`, who has an open stake.
pub open spec fn exit_accounts(world: World, user: [u8; 32], pool_token_account: [u8; 32]) -> Unstake {
    Unstake {
        user,
        user_stake: world.stakes[stake_index(world.stakes, user@)],
        pool_token_account,
    }
}

/// Whether `world` accepts `request`.
pub open spec fn served(world: World, request: Request) -> bool {
    match request {
        Request::Claim { user, claim_marker_bump, user_stake_bump, now, amount, proof_valid } => {
            claim_refusal(world.pool, world.markers.contains(user@), now, amount, proof_valid)
                is None
        },
        Request::Snapshot { now } => snapshot_refusal(world.pool, now) is None,
        Request::Exit { user, pool_token_account, now } => {
            &&& holds_stake(world.stakes, user@)
            &&& exit_refusal(world.pool, exit_accounts(world, user, pool_token_account), now)
                is None
        },
        Request::Terminate { accounts } => terminate_refusal(world.pool, accounts) is None,
        Request::Pause { caller } => pause_refusal(world.pool, caller) is None,
        Request::Unpause { caller } => unpause_refusal(world.pool, caller) is None,
    }
}

/// The rewards paid day by day, after a stake of `staked` claimed on
/// `claim_day` has been paid its shares of the days covered by snapshots.
pub open spec fn paid_after(pool: PoolView, paid_for: Seq<nat>, stake: UserStake) -> Seq<nat> {
    Seq::new(
        paid_for.len(),
        |d: int|
            if d < pool.snapshot_count {
                paid_for[d] + owed_to(
                    stake,
                    d,
                    pool.daily_rewards[d] as nat,
                    pool.daily_snapshots[d] as nat,
                )
            } else {
                paid_for[d]
            },
    )
}

/// The world after `request`: the clock shows the request's time, and where
/// the request is accepted the pool changes as the operation says, a claim
/// stores a stake and a marker, and an exit removes the stake and is paid.
pub open spec fn serve(world: World, request: Request) -> World {
    let clock = clock_after(world, request);
    if !served(world, request) {
        World { clock, ..world }
    } else {
        match request {
            Request::Claim {
                user,
                claim_marker_bump,
                user_stake_bump,
                now,
                amount,
                proof_valid,
            } => World {
                pool: claim_step(world.pool, amount),
                clock,
                stakes: world.stakes.push(
                    claim_receipt(
                        claim_accounts(world, user, claim_marker_bump, user_stake_bump),
                        amount,
                        world.pool.day_at(now),
                    ).0,
                ),
                markers: world.markers.insert(user@),
                ..world
            },
            Request::Snapshot { now } => World {
                pool: snapshot_step(world.pool, now),
                clock,
                ..world
            },
            Request::Exit { user, pool_token_account, now } => {
                let stake = exit_accounts(world, user, pool_token_account).user_stake;
                World {
                    pool: exit_step(world.pool, stake.staked_amount),
                    clock,
                    stakes: world.stakes.remove(stake_index(world.stakes, user@)),
                    paid_for: if world.pool.expired_at(now) {
                        world.paid_for
                    } else {
                        paid_after(world.pool, world.paid_for, stake)
                    },
                    paid: world.paid + exit_reward(world.pool, stake, now),
                    ..world
                }
            },
            Request::Terminate { accounts } => World { pool: terminate_step(world.pool), ..world },
            Request::Pause { caller } => World {
                pool: with_status(world.pool, PoolStatus::Paused),
                ..world
            },
            Request::Unpause { caller } => World {
                pool: with_status(world.pool, PoolStatus::Active),
                ..world
            },
        }
    }
}

/// The world after the requests of `requests`, one after the other.
pub open spec fn serve_all(world: World, requests: Seq<Request>) -> World
    decreases requests.len(),
{
    if requests.len() == 0 {
        world
    } else {
        serve(serve_all(world, requests.drop_last()), requests.last())
    }
}

/// Whether the requests of `requests` can arrive one after the other: none
/// carries a time before that of an earlier one.
pub open spec fn in_order(world: World, requests: Seq<Request>) -> bool
    decreases requests.len(),
{
    if requests.len() == 0 {
        true
    } else {
        &&& in_order(world, requests.drop_last())
        &&& timely(serve_all(world, requests.drop_last()), requests.last())
    }
}

/// What holds of a world at every moment: the pool's invariant; no day is
/// covered that the clock has not reached; the days not covered hold no
/// snapshot and have paid nothing; every open stake has its marker, no two
/// belong to one recipient, and none was claimed after the days covered; the
/// pool's total is the sum of the open stakes; every covered day has paid, and
/// owes to the open stakes, no more than its budget; and what has been paid is
/// what the days have paid together.
pub open spec fn sound(world: World) -> bool {
    let pool = world.pool;
    &&& pool.wf()
    &&& pool.snapshot_count <= pool.day_at(world.clock)
    &&& world.paid_for.len() == TOTAL_DAYS
    &&& forall|d: int|
        pool.snapshot_count <= d < TOTAL_DAYS ==> #[trigger] pool.daily_snapshots[d] == 0
    &&& forall|d: int| pool.snapshot_count <= d < TOTAL_DAYS ==> #[trigger] world.paid_for[d] == 0
    &&& forall|i: int|
        0 <= i < world.stakes.len() ==> world.markers.contains(#[trigger] world.stakes[i].owner@)
    &&& forall|i: int, j: int|
        0 <= i < j < world.stakes.len() ==> #[trigger] world.stakes[i].owner@
            != #[trigger] world.stakes[j].owner@
    &&& forall|i: int|
        0 <= i < world.stakes.len() ==> (#[trigger] world.stakes[i]).claim_day
            <= pool.snapshot_count
    &&& pool.total_staked == principal_sum(world.stakes)
    &&& forall|d: int|
        0 <= d < pool.snapshot_count ==> #[trigger] world.paid_for[d] + owed_for(
            world.stakes,
            d,
            pool.daily_rewards[d] as nat,
            pool.daily_snapshots[d] as nat,
        ) <= pool.daily_rewards[d]
    &&& world.paid == sum_upto(world.paid_for, TOTAL_DAYS as int)
}

/// A world that begins: nothing is staked, no day is covered or has paid, and
/// no stake is stored.
pub open spec fn fresh(world: World) -> bool {
    &&& world.pool.wf()
    &&& world.pool.total_staked == 0
    &&& world.pool.snapshot_count == 0
    &&& world.pool.daily_snapshots == Seq::new(TOTAL_DAYS as nat, |d: int| 0u64)
    &&& world.stakes.len() == 0
    &&& world.paid_for == Seq::new(TOTAL_DAYS as nat, |d: int| 0nat)
    &&& world.paid == 0
}

// ── Sums ───────────────────────────────────────────────────────────────────

/// Taking one stake out of a sequence takes its principal out of the sum.
pub proof fn lemma_principal_sum_remove(stakes: Seq<UserStake>, i: int)
    requires
        0 <= i < stakes.len(),
    ensures
        principal_sum(stakes.remove(i)) + stakes[i].staked_amount == principal_sum(stakes),
    decreases stakes.len(),
{
    if i == stakes.len() - 1 {
        assert(stakes.remove(i) =~= stakes.drop_last());
    } else {
        lemma_principal_sum_remove(stakes.drop_last(), i);
        assert(stakes.remove(i).drop_last() =~= stakes.drop_last().remove(i));
        assert(stakes.remove(i).last() == stakes.last());
    }
}

/// Taking one stake out of a sequence takes what a day owes to it out of what
/// the day owes to all.
pub proof fn lemma_owed_for_remove(
    stakes: Seq<UserStake>,
    i: int,
    d: int,
    budget: nat,
    total: nat,
)
    requires
        0 <= i < stakes.len(),
    ensures
        owed_for(stakes.remove(i), d, budget, total) + owed_to(stakes[i], d, budget, total)
            == owed_for(stakes, d, budget, total),
    decreases stakes.len(),
{
    if i == stakes.len() - 1 {
        assert(stakes.remove(i) =~= stakes.drop_last());
    } else {
        lemma_owed_for_remove(stakes.drop_last(), i, d, budget, total);
        assert(stakes.remove(i).drop_last() =~= stakes.drop_last().remove(i));
        assert(stakes.remove(i).last() == stakes.last());
    }
}

/// The principals that day `d` counts: of each stake its principal if it was
/// claimed by then, else nothing.
pub open spec fn counted_principals(stakes: Seq<UserStake>, d: int) -> Seq<nat> {
    Seq::new(
        stakes.len(),
        |i: int|
            if stakes[i].claim_day <= d {
                stakes[i].staked_amount as nat
            } else {
                0
            },
    )
}

/// What a day owes to a sequence of stakes is what it pays to the principals
/// it counts, and these are no more than the principals of all the stakes.
pub proof fn lemma_owed_for_is_shares_of_counted(
    stakes: Seq<UserStake>,
    d: int,
    budget: nat,
    total: nat,
)
    ensures
        owed_for(stakes, d, budget, total) == shares_total(
            counted_principals(stakes, d),
            budget,
            total,
        ),
        stakes_total(counted_principals(stakes, d)) <= principal_sum(stakes),
    decreases stakes.len(),
{
    if stakes.len() > 0 {
        lemma_owed_for_is_shares_of_counted(stakes.drop_last(), d, budget, total);
        let counted = counted_principals(stakes, d);
        assert(counted.drop_last() =~= counted_principals(stakes.drop_last(), d));
        assert(0 * budget == 0);
    }
}

/// A day whose snapshot is the sum of the stakes owes them no more than its
/// budget.
pub proof fn lemma_owed_for_within_budget(stakes: Seq<UserStake>, d: int, budget: nat, total: nat)
    requires
        principal_sum(stakes) == total,
    ensures
        owed_for(stakes, d, budget, total) <= budget,
{
    lemma_owed_for_is_shares_of_counted(stakes, d, budget, total);
    lemma_day_never_overpaid(counted_principals(stakes, d), budget, total);
}

/// What a stake was paid day by day.
pub open spec fn shares_of(pool: PoolView, stake: UserStake) -> Seq<nat> {
    Seq::new(
        TOTAL_DAYS as nat,
        |d: int|
            if d < pool.snapshot_count {
                owed_to(stake, d, pool.daily_rewards[d] as nat, pool.daily_snapshots[d] as nat)
            } else {
                0
            },
    )
}

/// The shares of a stake, day by day, add up to what it accrued.
pub proof fn lemma_shares_add_up_to_accrual(pool: PoolView, stake: UserStake, upto: int)
    requires
        pool.wf(),
        0 <= upto <= TOTAL_DAYS,
    ensures
        sum_upto(shares_of(pool, stake), upto) == accrued(
            stake.staked_amount as nat,
            pool.daily_rewards,
            pool.daily_snapshots,
            stake.claim_day as int,
            if upto <= pool.snapshot_count {
                upto
            } else {
                pool.snapshot_count as int
            },
        ),
    decreases upto,
{
    if upto > 0 {
        lemma_shares_add_up_to_accrual(pool, stake, upto - 1);
    }
}

/// The sum of two sequences of amounts added entry by entry is the sum of
/// their sums.
pub proof fn lemma_sum_upto_adds(first: Seq<nat>, second: Seq<nat>, both: Seq<nat>, upto: int)
    requires
        0 <= upto <= first.len(),
        upto <= second.len(),
        upto <= both.len(),
        forall|d: int| 0 <= d < upto ==> both[d] == first[d] + second[d],
    ensures
        sum_upto(both, upto) == sum_upto(first, upto) + sum_upto(second, upto),
    decreases upto,
{
    if upto > 0 {
        lemma_sum_upto_adds(first, second, both, upto - 1);
    }
}

/// Amounts that stay within the budgets day by day stay within the sum of the
/// budgets together.
pub proof fn lemma_sum_upto_within_budget(amounts: Seq<nat>, rewards: Seq<u64>, upto: int)
    requires
        0 <= upto <= amounts.len(),
        upto <= rewards.len(),
        forall|d: int| 0 <= d < upto ==> amounts[d] <= rewards[d],
    ensures
        sum_upto(amounts, upto) <= total_of(rewards.take(upto)),
    decreases upto,
{
    if upto > 0 {
        lemma_sum_upto_within_budget(amounts, rewards, upto - 1);
        assert(rewards.take(upto).drop_last() =~= rewards.take(upto - 1));
    }
}

// ── The invariant ──────────────────────────────────────────────────────────

/// The world of a pool just created: nothing is stored around it yet.
pub open spec fn beginning(pool: PoolView, clock: int) -> World {
    World {
        pool,
        clock,
        stakes: Seq::empty(),
        markers: Set::empty(),
        paid_for: Seq::new(TOTAL_DAYS as nat, |d: int| 0nat),
        paid: 0,
    }
}

/// The world of a pool as it is created begins.
pub proof fn lemma_created_pool_begins(
    accounts: InitializePool,
    now: int,
    start_time: int,
    merkle_root: Seq<u8>,
    daily_rewards: Seq<u64>,
)
    requires
        merkle_root.len() == 32,
        daily_rewards.len() == TOTAL_DAYS,
        init_refusal(now, start_time, daily_rewards) is None,
    ensures
        fresh(beginning(init_pool(accounts, start_time, merkle_root, daily_rewards), now)),
{
}

/// A world that begins is sound.
pub proof fn lemma_fresh_is_sound(world: World)
    requires
        fresh(world),
    ensures
        sound(world),
{
    lemma_sum_of_nothing(world.paid_for, TOTAL_DAYS as int);
    assert(principal_sum(world.stakes) == 0);
}

/// A sequence of zeros adds up to zero.
proof fn lemma_sum_of_nothing(amounts: Seq<nat>, upto: int)
    requires
        0 <= upto <= amounts.len(),
        forall|d: int| 0 <= d < upto ==> amounts[d] == 0,
    ensures
        sum_upto(amounts, upto) == 0,
    decreases upto,
{
    if upto > 0 {
        lemma_sum_of_nothing(amounts, upto - 1);
    }
}

/// The day never goes back when the clock does not.
proof fn lemma_day_follows_clock(pool: PoolView, earlier: int, later: int)
    requires
        earlier <= later,
    ensures
        pool.day_at(earlier) <= pool.day_at(later),
{
}

proof fn lemma_claim_keeps_sound(world: World, request: Request)
    requires
        sound(world),
        timely(world, request),
        served(world, request),
        request is Claim,
    ensures
        sound(serve(world, request)),
{
    let after = serve(world, request);
    match request {
        Request::Claim { user, claim_marker_bump, user_stake_bump, now, amount, proof_valid } => {
            let day = world.pool.day_at(now);
            lemma_day_follows_clock(world.pool, world.clock, now);
            let stake = claim_receipt(
                claim_accounts(world, user, claim_marker_bump, user_stake_bump),
                amount,
                day,
            ).0;
            assert(after.stakes == world.stakes.push(stake));
            assert(after.stakes.drop_last() =~= world.stakes);
            assert(after.stakes.last() == stake);
            assert(stake.claim_day == day);
            assert(day >= world.pool.snapshot_count);
            assert(!world.markers.contains(user@));
            assert forall|i: int| 0 <= i < after.stakes.len() implies after.markers.contains(
                #[trigger] after.stakes[i].owner@,
            ) by {
                if i < world.stakes.len() {
                    assert(after.stakes[i] == world.stakes[i]);
                    assert(world.markers.contains(world.stakes[i].owner@));
                }
            }
            assert forall|i: int, j: int| 0 <= i < j < after.stakes.len() implies #[trigger]
                after.stakes[i].owner@ != #[trigger] after.stakes[j].owner@ by {
                assert(after.stakes[i] == world.stakes[i]);
                if j < world.stakes.len() {
                    assert(after.stakes[j] == world.stakes[j]);
                } else {
                    assert(world.markers.contains(world.stakes[i].owner@));
                }
            }
            assert forall|i: int| 0 <= i < after.stakes.len() implies (
            #[trigger] after.stakes[i]).claim_day <= after.pool.snapshot_count by {
                if i < world.stakes.len() {
                    assert(after.stakes[i] == world.stakes[i]);
                }
            }
            assert forall|d: int| 0 <= d < after.pool.snapshot_count implies #[trigger]
                after.paid_for[d] + owed_for(
                after.stakes,
                d,
                after.pool.daily_rewards[d] as nat,
                after.pool.daily_snapshots[d] as nat,
            ) <= after.pool.daily_rewards[d] by {
                assert(world.paid_for[d] + owed_for(
                    world.stakes,
                    d,
                    world.pool.daily_rewards[d] as nat,
                    world.pool.daily_snapshots[d] as nat,
                ) <= world.pool.daily_rewards[d]);
            }
        },
        _ => {},
    }
}

proof fn lemma_snapshot_keeps_sound(world: World, request: Request)
    requires
        sound(world),
        timely(world, request),
        served(world, request),
        request is Snapshot,
    ensures
        sound(serve(world, request)),
{
    let after = serve(world, request);
    match request {
        Request::Snapshot { now } => {
            let day = world.pool.day_at(now);
            lemma_day_follows_clock(world.pool, world.clock, now);
            assert(after.pool.snapshot_count == day);
            assert forall|d: int| after.pool.snapshot_count <= d < TOTAL_DAYS implies #[trigger]
                after.pool.daily_snapshots[d] == 0 by {
                assert(world.pool.daily_snapshots[d] == 0);
            }
            assert forall|d: int| after.pool.snapshot_count <= d < TOTAL_DAYS implies #[trigger]
                after.paid_for[d] == 0 by {
                assert(world.paid_for[d] == 0);
            }
            assert forall|d: int| 0 <= d < after.pool.snapshot_count implies #[trigger]
                after.paid_for[d] + owed_for(
                after.stakes,
                d,
                after.pool.daily_rewards[d] as nat,
                after.pool.daily_snapshots[d] as nat,
            ) <= after.pool.daily_rewards[d] by {
                if d < world.pool.snapshot_count {
                    assert(after.pool.daily_snapshots[d] == world.pool.daily_snapshots[d]);
                    assert(world.paid_for[d] + owed_for(
                        world.stakes,
                        d,
                        world.pool.daily_rewards[d] as nat,
                        world.pool.daily_snapshots[d] as nat,
                    ) <= world.pool.daily_rewards[d]);
                } else {
                    assert(world.pool.daily_snapshots[d] == 0);
                    assert(world.paid_for[d] == 0);
                    assert(after.pool.daily_snapshots[d] == world.pool.total_staked);
                    lemma_owed_for_within_budget(
                        world.stakes,
                        d,
                        world.pool.daily_rewards[d] as nat,
                        world.pool.total_staked,
                    );
                }
            }
        },
        _ => {},
    }
}

proof fn lemma_exit_keeps_sound(world: World, request: Request)
    requires
        sound(world),
        timely(world, request),
        served(world, request),
        request is Exit,
    ensures
        sound(serve(world, request)),
{
    let after = serve(world, request);
    match request {
        Request::Exit { user, pool_token_account, now } => {
            lemma_day_follows_clock(world.pool, world.clock, now);
            let i = stake_index(world.stakes, user@);
            assert(0 <= i < world.stakes.len());
            let stake = world.stakes[i];
            assert(after.stakes == world.stakes.remove(i));
            lemma_principal_sum_remove(world.stakes, i);
            assert forall|k: int| 0 <= k < after.stakes.len() implies after.markers.contains(
                #[trigger] after.stakes[k].owner@,
            ) by {
                if k < i {
                    assert(after.stakes[k] == world.stakes[k]);
                } else {
                    assert(after.stakes[k] == world.stakes[k + 1]);
                }
            }
            assert forall|k: int, j: int| 0 <= k < j < after.stakes.len() implies #[trigger]
                after.stakes[k].owner@ != #[trigger] after.stakes[j].owner@ by {
                let k0 = if k < i {
                    k
                } else {
                    k + 1
                };
                let j0 = if j < i {
                    j
                } else {
                    j + 1
                };
                assert(after.stakes[k] == world.stakes[k0]);
                assert(after.stakes[j] == world.stakes[j0]);
                assert(world.stakes[k0].owner@ != world.stakes[j0].owner@);
            }
            assert forall|k: int| 0 <= k < after.stakes.len() implies (
            #[trigger] after.stakes[k]).claim_day <= after.pool.snapshot_count by {
                if k < i {
                    assert(after.stakes[k] == world.stakes[k]);
                } else {
                    assert(after.stakes[k] == world.stakes[k + 1]);
                }
            }
            assert forall|d: int| after.pool.snapshot_count <= d < TOTAL_DAYS implies #[trigger]
                after.paid_for[d] == 0 by {
                assert(world.paid_for[d] == 0);
            }
            assert forall|d: int| 0 <= d < after.pool.snapshot_count implies #[trigger]
                after.paid_for[d] + owed_for(
                after.stakes,
                d,
                after.pool.daily_rewards[d] as nat,
                after.pool.daily_snapshots[d] as nat,
            ) <= after.pool.daily_rewards[d] by {
                lemma_owed_for_remove(
                    world.stakes,
                    i,
                    d,
                    world.pool.daily_rewards[d] as nat,
                    world.pool.daily_snapshots[d] as nat,
                );
                assert(world.paid_for[d] + owed_for(
                    world.stakes,
                    d,
                    world.pool.daily_rewards[d] as nat,
                    world.pool.daily_snapshots[d] as nat,
                ) <= world.pool.daily_rewards[d]);
            }
            if !world.pool.expired_at(now) {
                let shares = shares_of(world.pool, stake);
                lemma_shares_add_up_to_accrual(world.pool, stake, TOTAL_DAYS as int);
                assert forall|d: int| 0 <= d < TOTAL_DAYS implies after.paid_for[d]
                    == world.paid_for[d] + shares[d] by {
                    if d >= world.pool.snapshot_count {
                        assert(world.paid_for[d] == 0);
                    }
                }
                lemma_sum_upto_adds(world.paid_for, shares, after.paid_for, TOTAL_DAYS as int);
            }
        },
        _ => {},
    }
}

/// Serving a request that arrives in time keeps a sound world sound.
pub proof fn lemma_serve_keeps_sound(world: World, request: Request)
    requires
        sound(world),
        timely(world, request),
    ensures
        sound(serve(world, request)),
{
    if !served(world, request) {
        lemma_day_follows_clock(world.pool, world.clock, clock_after(world, request));
    } else {
        match request {
            Request::Claim { .. } => lemma_claim_keeps_sound(world, request),
            Request::Snapshot { .. } => lemma_snapshot_keeps_sound(world, request),
            Request::Exit { .. } => lemma_exit_keeps_sound(world, request),
            _ => {},
        }
    }
}

/// Whatever is asked of a sound world, in whatever order, as long as the
/// clock never goes back, leaves it sound.
pub proof fn lemma_serve_all_keeps_sound(world: World, requests: Seq<Request>)
    requires
        sound(world),
        in_order(world, requests),
    ensures
        sound(serve_all(world, requests)),
    decreases requests.len(),
{
    if requests.len() > 0 {
        lemma_serve_all_keeps_sound(world, requests.drop_last());
        lemma_serve_keeps_sound(serve_all(world, requests.drop_last()), requests.last());
    }
}

// ── What follows from the invariant ────────────────────────────────────────

/// What the days covered by snapshots owe to the open stakes, day by day.
pub open spec fn owed_by_day(pool: PoolView, stakes: Seq<UserStake>) -> Seq<nat> {
    Seq::new(
        TOTAL_DAYS as nat,
        |d: int|
            if d < pool.snapshot_count {
                owed_for(stakes, d, pool.daily_rewards[d] as nat, pool.daily_snapshots[d] as nat)
            } else {
                0
            },
    )
}

/// What the open stakes have accrued together and not been paid yet.
pub open spec fn outstanding(pool: PoolView, stakes: Seq<UserStake>) -> nat
    decreases stakes.len(),
{
    if stakes.len() == 0 {
        0
    } else {
        outstanding(pool, stakes.drop_last()) + accrued(
            stakes.last().staked_amount as nat,
            pool.daily_rewards,
            pool.daily_snapshots,
            stakes.last().claim_day as int,
            pool.snapshot_count as int,
        )
    }
}

/// What the open stakes have accrued together is what the covered days owe
/// them together.
pub proof fn lemma_outstanding_by_day(pool: PoolView, stakes: Seq<UserStake>)
    requires
        pool.wf(),
    ensures
        outstanding(pool, stakes) == sum_upto(owed_by_day(pool, stakes), TOTAL_DAYS as int),
    decreases stakes.len(),
{
    if stakes.len() == 0 {
        lemma_sum_of_nothing(owed_by_day(pool, stakes), TOTAL_DAYS as int);
    } else {
        lemma_outstanding_by_day(pool, stakes.drop_last());
        lemma_shares_add_up_to_accrual(pool, stakes.last(), TOTAL_DAYS as int);
        lemma_sum_upto_adds(
            owed_by_day(pool, stakes.drop_last()),
            shares_of(pool, stakes.last()),
            owed_by_day(pool, stakes),
            TOTAL_DAYS as int,
        );
    }
}

/// In a sound world the pool's total is the sum of the open stakes, and the
/// rewards paid so far and those accrued and not paid yet stay within the
/// whole reward budget together.
pub proof fn lemma_sound_world_is_solvent(world: World)
    requires
        sound(world),
    ensures
        world.pool.total_staked == principal_sum(world.stakes),
        world.paid + outstanding(world.pool, world.stakes) <= STAKING_POOL,
{
    let pool = world.pool;
    let owed = owed_by_day(pool, world.stakes);
    let both = Seq::new(TOTAL_DAYS as nat, |d: int| world.paid_for[d] + owed[d]);
    lemma_outstanding_by_day(pool, world.stakes);
    lemma_sum_upto_adds(world.paid_for, owed, both, TOTAL_DAYS as int);
    assert forall|d: int| 0 <= d < TOTAL_DAYS implies both[d] <= pool.daily_rewards[d] by {
        if d < pool.snapshot_count {
            assert(world.paid_for[d] + owed_for(
                world.stakes,
                d,
                pool.daily_rewards[d] as nat,
                pool.daily_snapshots[d] as nat,
            ) <= pool.daily_rewards[d]);
        } else {
            assert(world.paid_for[d] == 0);
        }
    }
    lemma_sum_upto_within_budget(both, pool.daily_rewards, TOTAL_DAYS as int);
    assert(pool.daily_rewards.take(TOTAL_DAYS as int) =~= pool.daily_rewards);
}

/// From its beginning on, whatever is asked of the pool and in whatever
/// order, as long as the clock never goes back: the pool's total is the sum
/// of the open stakes, and the rewards paid so far and those accrued and not
/// paid yet stay within the whole reward budget together.
pub proof fn lemma_every_run_is_solvent(world: World, requests: Seq<Request>)
    requires
        fresh(world),
        in_order(world, requests),
    ensures
        serve_all(world, requests).pool.total_staked == principal_sum(
            serve_all(world, requests).stakes,
        ),
        serve_all(world, requests).paid + outstanding(
            serve_all(world, requests).pool,
            serve_all(world, requests).stakes,
        ) <= STAKING_POOL,
{
    lemma_fresh_is_sound(world);
    lemma_serve_all_keeps_sound(world, requests);
    lemma_sound_world_is_solvent(serve_all(world, requests));
}

/// One open stake has accrued no more than all of them together.
proof fn lemma_one_is_part_of_outstanding(pool: PoolView, stakes: Seq<UserStake>, i: int)
    requires
        0 <= i < stakes.len(),
    ensures
        accrued(
            stakes[i].staked_amount as nat,
            pool.daily_rewards,
            pool.daily_snapshots,
            stakes[i].claim_day as int,
            pool.snapshot_count as int,
        ) <= outstanding(pool, stakes),
    decreases stakes.len(),
{
    if i < stakes.len() - 1 {
        lemma_one_is_part_of_outstanding(pool, stakes.drop_last(), i);
    }
}

/// In a sound world the holder of a stake that is not empty exits without
/// fail: at any time once the exit window has closed, when no reward is paid,
/// and before that as soon as the snapshot of the day before is there.
pub proof fn lemma_holder_exits(
    world: World,
    user: [u8; 32],
    pool_token_account: [u8; 32],
    now: int,
)
    requires
        sound(world),
        holds_stake(world.stakes, user@),
        world.stakes[stake_index(world.stakes, user@)].staked_amount > 0,
        pool_token_account@ == world.pool.pool_token_account,
        world.pool.expired_at(now) || !world.pool.snapshot_due(now),
    ensures
        served(world, Request::Exit { user, pool_token_account, now }),
        world.pool.expired_at(now) ==> exit_reward(
            world.pool,
            world.stakes[stake_index(world.stakes, user@)],
            now,
        ) == 0,
{
    let i = stake_index(world.stakes, user@);
    lemma_principal_sum_remove(world.stakes, i);
    lemma_one_is_part_of_outstanding(world.pool, world.stakes, i);
    lemma_sound_world_is_solvent(world);
}

/// A marker, once stored, stays.
pub proof fn lemma_markers_stay(world: World, requests: Seq<Request>, user: Seq<u8>)
    requires
        world.markers.contains(user),
    ensures
        serve_all(world, requests).markers.contains(user),
    decreases requests.len(),
{
    if requests.len() > 0 {
        lemma_markers_stay(world, requests.drop_last(), user);
    }
}

/// A recipient claims once: after a claim that was accepted, whatever
/// happens then, an exit included, no claim of the same recipient is accepted.
pub proof fn lemma_no_second_claim(
    world: World,
    first: Request,
    later: Seq<Request>,
    second: Request,
)
    requires
        first is Claim,
        second is Claim,
        served(world, first),
        first->Claim_user@ == second->Claim_user@,
    ensures
        !served(serve_all(serve(world, first), later), second),
{
    lemma_markers_stay(serve(world, first), later, first->Claim_user@);
}

/// A termination leaves every claim payable: where custody held enough for
/// the open stakes and what they have accrued before the surplus was
/// drained, it holds enough after.
pub proof fn lemma_termination_leaves_claims_payable(world: World, accounts: TerminatePool)
    requires
        sound(world),
        terminate_refusal(world.pool, accounts) is None,
        accounts.pool_balance >= principal_sum(world.stakes) + outstanding(
            world.pool,
            world.stakes,
        ),
    ensures
        accounts.pool_balance - drainable(world.pool, accounts.pool_balance) >= principal_sum(
            world.stakes,
        ) + outstanding(world.pool, world.stakes),
{
    lemma_sound_world_is_solvent(world);
}

/// A recovery leaves every principal payable: where custody held enough for
/// the open stakes before the sweep, it holds enough after.
pub proof fn lemma_recovery_leaves_principal_payable(world: World, balance: u64)
    requires
        sound(world),
        balance >= principal_sum(world.stakes),
    ensures
        balance - recoverable(world.pool, balance) >= principal_sum(world.stakes),
{
}

/// The request as the pool sees it, once the storage has filled in what it
/// holds.
pub open spec fn as_operation(world: World, request: Request) -> Operation {
    match request {
        Request::Claim {
            user,
            claim_marker_bump,
            user_stake_bump,
            now,
            amount,
            proof_valid,
        } => Operation::Claim {
            already_claimed: world.markers.contains(user@),
            now,
            amount,
            proof_valid,
        },
        Request::Snapshot { now } => Operation::Snapshot { now },
        Request::Exit { user, pool_token_account, now } => Operation::Exit {
            leaving: exit_accounts(world, user, pool_token_account),
            now,
        },
        Request::Terminate { accounts } => Operation::Terminate { accounts },
        Request::Pause { caller } => Operation::Pause { caller },
        Request::Unpause { caller } => Operation::Unpause { caller },
    }
}

/// The pool of a world moves as a pool does: a request changes it as the
/// operation it stands for, and an exit of someone who holds no stake does not
/// reach it.
pub proof fn lemma_world_moves_as_pool(world: World, request: Request)
    ensures
        serve(world, request).pool == if request is Exit && !holds_stake(
            world.stakes,
            request->Exit_user@,
        ) {
            world.pool
        } else {
            apply(world.pool, as_operation(world, request))
        },
{
}

} // verus!
