//! What each operation is handed besides the pool itself: the identities of
//! the parties, already authenticated, and what the presented accounts hold.

use vstd::prelude::*;

verus! {

/// One participant's open stake.
#[derive(Clone, Copy, Debug, PartialEq, Eq)]
pub struct UserStake {
    /// Who may exit with it.
    pub owner: [u8; 32],
    /// The principal, fixed when the stake is created.
    pub staked_amount: u64,
    /// The day on which the principal entered: rewards accrue from it on.
    pub claim_day: u64,
    pub bump: u8,
}

/// The lasting witness that a recipient has claimed. It outlives the stake.
#[derive(Clone, Copy, Debug, PartialEq, Eq)]
pub struct ClaimMarker {
    pub bump: u8,
}

/// The parties to the creation of a pool.
#[derive(Clone, Copy, Debug, PartialEq, Eq)]
pub struct InitializePool {
    pub admin: [u8; 32],
    pub token_mint: [u8; 32],
    pub pool_token_account: [u8; 32],
    pub pool_state_bump: u8,
    pub pool_token_bump: u8,
}

/// The parties to a claim.
#[derive(Clone, Copy, Debug, PartialEq, Eq)]
pub struct ClaimAirdrop {
    pub user: [u8; 32],
    /// Whether the recipient's claim marker is already there.
    pub already_claimed: bool,
    pub claim_marker_bump: u8,
    pub user_stake_bump: u8,
}

/// The parties to an exit.
#[derive(Clone, Copy, Debug, PartialEq, Eq)]
pub struct Unstake {
    pub user: [u8; 32],
    pub user_stake: UserStake,
    pub pool_token_account: [u8; 32],
}

/// The parties to a termination.
#[derive(Clone, Copy, Debug, PartialEq, Eq)]
pub struct TerminatePool {
    pub admin: [u8; 32],
    pub pool_token_account: [u8; 32],
    /// What the presented token account holds.
    pub pool_balance: u64,
}

/// The stake whose reward is previewed.
#[derive(Clone, Copy, Debug, PartialEq, Eq)]
pub struct CalculateRewards {
    pub user_stake: UserStake,
}

/// The parties to the closing of a pool.
#[derive(Clone, Copy, Debug, PartialEq, Eq)]
pub struct ClosePool {
    pub admin: [u8; 32],
    pub pool_token_account: [u8; 32],
    /// The storage deposit held by the pool's record.
    pub pool_lamports: u64,
}

/// The parties to a recovery after the exit window.
#[derive(Clone, Copy, Debug, PartialEq, Eq)]
pub struct RecoverExpiredTokens {
    pub admin: [u8; 32],
    pub pool_token_account: [u8; 32],
    /// What the presented token account holds.
    pub pool_balance: u64,
}

/// The party to a pause or a resumption.
#[derive(Clone, Copy, Debug, PartialEq, Eq)]
pub struct PausePool {
    pub admin: [u8; 32],
}

} // verus!
