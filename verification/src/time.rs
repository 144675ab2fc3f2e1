//! Spans of time, for timeouts. What they measure is left to the clock.

use std::time::Duration;
use vstd::prelude::*;

verus! {

/// What `Duration::as_nanos` returns: the length of `d` in nanoseconds.
pub uninterp spec fn duration_nanos(d: Duration) -> nat;

/// `Duration::from_secs` gives a span of as many whole seconds.
#[verifier::external_body]
pub(crate) fn duration_of_secs(secs: u64) -> (d: Duration)
    ensures
        duration_nanos(d) == secs * 1_000_000_000,
{
    Duration::from_secs(secs)
}

} // verus!
