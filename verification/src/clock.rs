//! The clock that expiry times are measured on.

use vstd::prelude::*;

verus! {

/// Reads the clock through `time::precise_time_ns`: the nanoseconds that
/// have passed since some moment that nobody names. Nothing is claimed of
/// the number that comes back, so whoever calls this must be right for
/// every number.
#[verifier::external_body]
pub(crate) fn precise_time_ns() -> (now: u64) {
    time::precise_time_ns()
}

} // verus!
