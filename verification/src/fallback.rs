//! Deterministic fallback timestamp.
//!
//! When a request carries no external timestamps, the engine substitutes one
//! pseudo-timestamp derived from persistent host state, so that replaying the
//! same state always reproduces the same value. The host hands the core the
//! size of the stored counter record; the store access itself belongs to the
//! host.

use vstd::prelude::*;

verus! {

/// Base of the fallback timestamp scale (the first second of 2024).
pub const FALLBACK_BASE: u64 = 1704067200;

/// The fallback varies within one day of the base.
pub const FALLBACK_PERIOD: u64 = 86400;

/// Derives the deterministic fallback timestamp from the length of the
/// host's stored counter record.
pub fn fallback_timestamp(counter_len: u64) -> (r: u64)
    ensures
        r == FALLBACK_BASE + counter_len % FALLBACK_PERIOD,
{
    FALLBACK_BASE + counter_len % FALLBACK_PERIOD
}

} // verus!
