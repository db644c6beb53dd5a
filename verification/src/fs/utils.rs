//! Clock reads used as fallback timestamps by the metadata normalization
//! helpers.

use vstd::prelude::*;

verus! {

/// Relies on `std::time::SystemTime::now` and
/// `SystemTime::duration_since(UNIX_EPOCH)`: the current time in epoch
/// milliseconds, or 0 when the clock reads before the epoch. The result
/// depends on the clock, so nothing is promised of it.
#[verifier::external_body]
pub fn now() -> u64 {
    std::time::SystemTime::now()
        .duration_since(std::time::UNIX_EPOCH)
        .map(|d| d.as_millis() as u64)
        .unwrap_or(0)
}

} // verus!
