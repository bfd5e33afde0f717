//! Adaptive batch sizing: each task should take a worker about thirty seconds.

use vstd::prelude::*;

verus! {

/// Narrowest range handed out as a new task.
pub const MIN_BATCH_SIZE: i64 = 1000;

/// Widest range handed out as a new task.
pub const MAX_BATCH_SIZE: i64 = 50000;

/// Seconds of work a new task is meant to hold.
pub const EXPECTED_RUNTIME_SECS: i64 = 30;

/// Throughput assumed for a worker that has not reported one, in IDs per second.
pub const DEFAULT_SPEED: u32 = 100;

/// The throughput a request stands for: the reported one, or the default.
pub open spec fn base_speed(last_performance: Option<u32>) -> int {
    match last_performance {
        Some(speed) => speed as int,
        None => DEFAULT_SPEED as int,
    }
}

/// `value` held between `low` and `high`.
pub open spec fn clamp_int(value: int, low: int, high: int) -> int {
    if value < low {
        low
    } else if value > high {
        high
    } else {
        value
    }
}

/// Width of a new range for a worker with the given throughput.
pub open spec fn batch_size_of(last_performance: Option<u32>) -> int {
    clamp_int(
        EXPECTED_RUNTIME_SECS as int * base_speed(last_performance),
        MIN_BATCH_SIZE as int,
        MAX_BATCH_SIZE as int,
    )
}

/// Width of the range to carve for a worker that last ran at
/// `last_performance` IDs per second.
pub fn calculate_batch_size(last_performance: Option<u32>) -> (size: i64)
    ensures
        size == batch_size_of(last_performance),
        MIN_BATCH_SIZE <= size <= MAX_BATCH_SIZE,
{
    let speed: i64 = match last_performance {
        Some(speed) => speed as i64,
        None => DEFAULT_SPEED as i64,
    };
    let size: i64 = speed * EXPECTED_RUNTIME_SECS;
    if size < MIN_BATCH_SIZE {
        MIN_BATCH_SIZE
    } else if size > MAX_BATCH_SIZE {
        MAX_BATCH_SIZE
    } else {
        size
    }
}

} // verus!
