//! Caps how many connections are served at once.

use std::sync::atomic::AtomicUsize;
use std::sync::atomic::Ordering;

use vstd::prelude::*;

verus! {

/// A claim that found `prev` connections already in flight is admitted
/// exactly when fewer than `max` were.
pub fn claim_admits(prev: usize, max: usize) -> (r: bool)
    ensures
        r == (prev < max),
{
    prev < max
}

/// Claim one of `max` connection slots: the in-flight count is raised by
/// one, and the claim is admitted when the count it raised was below
/// `max` ([`claim_admits`]); a refused claim lowers the count again, giving
/// its slot back. The count seen depends on the other threads, so what is
/// fixed here is the rule, not the outcome; with no slots at all every
/// claim is refused.
pub fn claim_connection(inflight: &AtomicUsize, max: usize) -> (r: bool)
    ensures
        max == 0 ==> !r,
{
    let prev = inflight.fetch_add(1, Ordering::SeqCst);
    let admitted = claim_admits(prev, max);
    if !admitted {
        inflight.fetch_sub(1, Ordering::SeqCst);
    }
    admitted
}

} // verus!
