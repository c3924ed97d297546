//! Airdrop-and-stake pool: eligibility by Merkle proof, one snapshot of total
//! stake per day, and integer-only proportional rewards over a fixed number of
//! days, under a strict pool lifecycle.

pub mod constants;
pub mod error;
pub mod events;
pub mod accounts;
pub mod bytes;
pub mod clock;
pub mod merkle;
pub mod rewards;
pub mod model;
pub mod pool;
pub mod laws;
pub mod protocol;

pub use crate::constants::{
    TOTAL_DAYS, SECONDS_PER_DAY, EXIT_WINDOW_DAYS, AIRDROP_POOL, STAKING_POOL,
};
pub use crate::error::ErrorCode;
pub use crate::events::{
    PoolInitialized, AirdropClaimed, SnapshotTaken, Unstaked, PoolTerminated, TokensRecovered,
    PoolClosed, PoolPausedEvent, PoolUnpausedEvent,
};
pub use crate::accounts::{
    UserStake, ClaimMarker, InitializePool, ClaimAirdrop, Unstake, TerminatePool,
    CalculateRewards, ClosePool, RecoverExpiredTokens, PausePool,
};
pub use crate::clock::{get_current_day, exit_deadline, program_expired, reached_deadline};
pub use crate::merkle::{leaf_hash, parent_hash, verify_merkle_proof};
pub use crate::rewards::{calculate_user_rewards, daily_share};
pub use crate::model::PoolStatus;
pub use crate::pool::{
    PoolState, PoolRecord, initialize_pool, claim_airdrop, record_claim, snapshot, unstake,
    terminate_pool, calculate_rewards, recover_expired_tokens, close_pool, pause_pool,
    unpause_pool,
};
