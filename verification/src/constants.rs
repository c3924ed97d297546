//! The fixed parameters of the programme.

use vstd::prelude::*;

verus! {

/// Number of reward days.
pub const TOTAL_DAYS: u64 = 20;

/// Length of one day in seconds.
pub const SECONDS_PER_DAY: u64 = 86400;

/// Days after the last reward day during which rewards can still be collected.
pub const EXIT_WINDOW_DAYS: u64 = 15;

/// Total allowance that can be claimed: 50,000,000 tokens of 9 decimals.
pub const AIRDROP_POOL: u64 = 50_000_000_000_000_000;

/// Total reward budget: 100,000,000 tokens of 9 decimals.
pub const STAKING_POOL: u64 = 100_000_000_000_000_000;


} // verus!
