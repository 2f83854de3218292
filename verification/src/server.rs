//! Limits of the localhost NDJSON server and the connection gate.

use std::time::Duration;

use vstd::prelude::*;

verus! {

/// Loopback address the server binds by default.
pub const DEFAULT_ADDR_STR: &'static str = "127.0.0.1:17421";

/// Port of [`DEFAULT_ADDR_STR`].
pub const DEFAULT_PORT: u16 = 17421;

/// Reject a single NDJSON line larger than this (1 MiB).
pub const MAX_LINE_BYTES: usize = 1024 * 1024;

/// Drop new TCP clients when this many handler threads are already running.
pub const MAX_CONNECTIONS: usize = 32;

/// Requests queued for the UI thread beyond this are refused.
pub const MAX_MAILBOX_DEPTH: usize = 128;

/// Seconds a connection may stay idle before it is closed.
pub const IDLE_TIMEOUT_SECS: u64 = 30;

/// `Duration` is `Copy`: its `clone` returns the same value.
pub assume_specification[ <Duration as Clone>::clone ](d: &Duration) -> (r: Duration)
    ensures
        r == *d,
;

/// The `Duration` of `secs` whole seconds (`Duration::from_secs(secs)`).
pub uninterp spec fn duration_of_secs(secs: u64) -> Duration;

/// `Duration::from_secs`: a span of `secs` whole seconds; it depends on
/// `secs` alone and never fails.
#[verifier::external_body]
fn duration_from_secs(secs: u64) -> (r: Duration)
    ensures
        r == duration_of_secs(secs),
{
    Duration::from_secs(secs)
}

/// Tunables for the localhost server. Defaults are conservative for a
/// developer control plane; tests may tighten them.
#[derive(Debug, Clone)]
pub struct ServerLimits {
    pub max_line_bytes: usize,
    pub max_connections: usize,
    pub idle_timeout: Duration,
}

impl Default for ServerLimits {
    /// The 1 MiB line cap, 32 connections and a 30 s idle timeout.
    fn default() -> (r: Self)
        ensures
            r.max_line_bytes == MAX_LINE_BYTES,
            r.max_connections == MAX_CONNECTIONS,
            r.idle_timeout == duration_of_secs(IDLE_TIMEOUT_SECS),
    {
        ServerLimits {
            max_line_bytes: MAX_LINE_BYTES,
            max_connections: MAX_CONNECTIONS,
            idle_timeout: duration_from_secs(IDLE_TIMEOUT_SECS),
        }
    }
}

} // verus!
