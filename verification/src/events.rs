//! The records that the operations hand out for the audit trail. Each names
//! the operation by its type and carries its key fields.

use vstd::prelude::*;

verus! {

/// A pool was created.
#[derive(Clone, Copy, Debug, PartialEq, Eq)]
pub struct PoolInitialized {
    pub admin: [u8; 32],
    pub token_mint: [u8; 32],
    pub start_time: i64,
}

/// An allowance was claimed and staked.
#[derive(Clone, Copy, Debug, PartialEq, Eq)]
pub struct AirdropClaimed {
    pub user: [u8; 32],
    pub amount: u64,
    pub claim_day: u64,
}

/// At least one day's snapshot was written.
#[derive(Clone, Copy, Debug, PartialEq, Eq)]
pub struct SnapshotTaken {
    pub day: u64,
    pub total_staked: u64,
}

/// A stake was paid out and closed.
#[derive(Clone, Copy, Debug, PartialEq, Eq)]
pub struct Unstaked {
    pub user: [u8; 32],
    pub principal: u64,
    pub rewards: u64,
}

/// The pool was terminated and its surplus drained.
#[derive(Clone, Copy, Debug, PartialEq, Eq)]
pub struct PoolTerminated {
    pub drained_amount: u64,
}

/// Tokens left after the exit window were recovered.
#[derive(Clone, Copy, Debug, PartialEq, Eq)]
pub struct TokensRecovered {
    pub amount: u64,
}

/// The pool's storage was given back.
#[derive(Clone, Copy, Debug, PartialEq, Eq)]
pub struct PoolClosed {
    pub lamports_returned: u64,
}

/// The pool was paused.
#[derive(Clone, Copy, Debug, PartialEq, Eq)]
pub struct PoolPausedEvent {
    pub admin: [u8; 32],
}

/// The pool was resumed.
#[derive(Clone, Copy, Debug, PartialEq, Eq)]
pub struct PoolUnpausedEvent {
    pub admin: [u8; 32],
}

} // verus!
