//! The epoch clock: from absolute time to a bounded day index.

use vstd::prelude::*;
use crate::constants::{TOTAL_DAYS, SECONDS_PER_DAY, EXIT_WINDOW_DAYS};

verus! {

/// The day index at time `now` of a programme that starts at `start_time`:
/// zero up to and including the start, then the number of whole days elapsed,
/// never more than `TOTAL_DAYS`.
pub open spec fn current_day(start_time: int, now: int) -> int {
    if now <= start_time {
        0
    } else if (now - start_time) / (SECONDS_PER_DAY as int) >= TOTAL_DAYS as int {
        TOTAL_DAYS as int
    } else {
        (now - start_time) / (SECONDS_PER_DAY as int)
    }
}

/// The last instant at which the programme still runs.
pub open spec fn deadline(start_time: int) -> int {
    start_time + (TOTAL_DAYS + EXIT_WINDOW_DAYS) * SECONDS_PER_DAY
}

/// Whether the exit window has closed at time `now`.
pub open spec fn expired(start_time: int, now: int) -> bool {
    now > deadline(start_time)
}

/// Whether time `now` is the deadline or lies after it.
pub open spec fn deadline_reached(start_time: int, now: int) -> bool {
    now >= deadline(start_time)
}

/// Computes the capped day index of `now`.
pub fn get_current_day(start_time: i64, now: i64) -> (day: u64)
    ensures
        day == current_day(start_time as int, now as int),
        day <= TOTAL_DAYS,
{
    if now <= start_time {
        return 0;
    }
    let elapsed: i128 = now as i128 - start_time as i128;
    let day: i128 = elapsed / (SECONDS_PER_DAY as i128);
    if day >= TOTAL_DAYS as i128 {
        TOTAL_DAYS
    } else {
        day as u64
    }
}

/// Computes the end of the exit window.
pub fn exit_deadline(start_time: i64) -> (end: i64)
    requires
        deadline(start_time as int) <= i64::MAX,
    ensures
        end == deadline(start_time as int),
{
    start_time + ((TOTAL_DAYS + EXIT_WINDOW_DAYS) as i64 * SECONDS_PER_DAY as i64)
}

/// Tells whether the deadline has come, for any pair of timestamps.
pub fn reached_deadline(start_time: i64, now: i64) -> (reached: bool)
    ensures
        reached == deadline_reached(start_time as int, now as int),
{
    now as i128 >= start_time as i128 + ((TOTAL_DAYS + EXIT_WINDOW_DAYS) * SECONDS_PER_DAY) as i128
}

/// Tells whether the exit window has closed, for any pair of timestamps.
pub fn program_expired(start_time: i64, now: i64) -> (gone: bool)
    ensures
        gone == expired(start_time as int, now as int),
{
    now as i128 > start_time as i128 + ((TOTAL_DAYS + EXIT_WINDOW_DAYS) * SECONDS_PER_DAY) as i128
}

} // verus!
