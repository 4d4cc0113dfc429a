//! The clock and the random source that scheduling draws on.

use rand::Rng;
use vstd::prelude::*;

verus! {

/// Reads the current time as whole seconds since the Unix epoch, with
/// `time::now_utc` and `Tm::to_timespec`.
///
/// Trusted, and nothing is claimed of the value: it differs from call to
/// call.
#[verifier::external_body]
pub(crate) fn unix_seconds() -> (now: i64) {
    time::now_utc().to_timespec().sec
}

/// Draws a number from `low` up to but not including `high` with
/// `rand::thread_rng` and `Rng::gen_range`.
///
/// Trusted: the number lies in the range, as the source documents for every
/// draw. The source panics where `low >= high`, which `requires` leaves out.
#[verifier::external_body]
pub(crate) fn random_between(low: u64, high: u64) -> (drawn: u64)
    requires
        low < high,
    ensures
        low <= drawn < high,
{
    rand::thread_rng().gen_range(low, high)
}

} // verus!
