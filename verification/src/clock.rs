//! Wall-clock readings for visit timestamps.

use vstd::prelude::*;

verus! {

/// Relies on `std::time::SystemTime::now`: the current wall-clock time,
/// converted to milliseconds since the Unix epoch (0 if the clock reads
/// earlier than the epoch). The value depends on the machine's clock, so
/// nothing is promised of it; callers clamp it to keep their own timestamps
/// monotonic.
#[verifier::external_body]
pub fn wall_clock_millis() -> u128 {
    std::time::SystemTime::now()
        .duration_since(std::time::UNIX_EPOCH)
        .map(|d| d.as_millis())
        .unwrap_or(0)
}

} // verus!
