//! Shared concurrency and time limits for bounded gateways.

use crate::duration;
use std::time::Duration;
use vstd::prelude::*;

verus! {

/// Default per-call timeout for a gateway, in seconds.
pub const DEFAULT_TIMEOUT_SECS: u64 = 30;

/// Default cap on concurrent calls across a process.
pub const DEFAULT_MAX_CONCURRENT_CALLS: usize = 2;

/// Default per-call timeout for a gateway.
pub fn default_timeout() -> (r: Duration)
    ensures
        duration::nanos(r) == 30_000_000_000,
{
    Duration::from_secs(DEFAULT_TIMEOUT_SECS)
}

/// Limits for a shared gateway: how many calls may run at once, and how long each may take.
///
/// Policy is passed in by the consumer; the default is the generic one.
#[derive(Debug, Clone, Copy)]
pub struct ConcurrencyLimits {
    /// Cap on concurrent calls across all holders of the handle.
    pub max_concurrent_calls: usize,
    /// Per-call timeout.
    pub call_timeout: Duration,
}

impl Default for ConcurrencyLimits {
    fn default() -> (r: ConcurrencyLimits)
        ensures
            r.max_concurrent_calls == 2,
            duration::nanos(r.call_timeout) == 30_000_000_000,
    {
        ConcurrencyLimits {
            max_concurrent_calls: DEFAULT_MAX_CONCURRENT_CALLS,
            call_timeout: default_timeout(),
        }
    }
}

} // verus!
