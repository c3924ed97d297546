//! The ways in which an operation can be refused.

use vstd::prelude::*;

verus! {

/// Why an operation was refused. A refused operation changes nothing.
#[derive(Clone, Copy, Debug, PartialEq, Eq, Structural)]
pub enum ErrorCode {
    /// The start time is not in the future.
    StartTimeInPast,
    /// The claim would issue more than the whole allowance.
    AirdropPoolExhausted,
    /// The pool has been terminated.
    PoolTerminated,
    /// The pool is already terminated.
    AlreadyTerminated,
    /// The pool must be terminated first.
    PoolNotTerminated,
    /// Some stake is still open.
    PoolNotEmpty,
    /// The daily rewards do not add up to the reward budget.
    InvalidDailyRewards,
    /// The pool is paused.
    PoolPaused,
    /// The pool is not paused.
    PoolNotPaused,
    /// The pool is already paused.
    AlreadyPaused,
    /// The stake is empty.
    NothingStaked,
    /// The caller does not own the stake.
    InvalidStakeOwner,
    /// The caller is not the pool's admin.
    UnauthorizedAdmin,
    /// Access denied.
    Unauthorized,
    /// The Merkle proof does not lead to the committed root.
    InvalidMerkleProof,
    /// The day is outside the programme.
    InvalidDay,
    /// The day has not elapsed yet.
    SnapshotTooEarly,
    /// The snapshot of the previous day must be taken first.
    SnapshotRequiredFirst,
    /// The day already has a snapshot.
    SnapshotAlreadyExists,
    /// Not every day has its snapshot yet.
    SnapshotsNotCompleted,
    /// The token account is not the pool's.
    InvalidPoolTokenAccount,
    /// The user's token account is of another mint.
    InvalidUserTokenMint,
    /// The admin's token account is of another mint.
    InvalidAdminTokenMint,
    /// The exit window is still open.
    ExitWindowNotFinished,
    /// The pool holds nothing beyond the open stakes.
    NothingToRecover,
    /// The programme has not started yet.
    PoolNotStartedYet,
    /// The exit window has closed.
    ProgramExpired,
    /// The recipient has claimed before.
    AlreadyClaimed,
    /// An amount does not fit in 64 bits.
    ArithmeticOverflow,
}

} // verus!
