use vstd::prelude::*;

verus! {

/// Relies on std::time::SystemTime: the system clock's seconds since the
/// Unix epoch; a clock before the epoch reads as zero.
#[verifier::external_body]
fn unix_time_now() -> u64 {
    std::time::SystemTime::now()
        .duration_since(std::time::UNIX_EPOCH)
        .map(|d| d.as_secs())
        .unwrap_or(0)
}

/// The agent's clock: the capture time stamped on every envelope. The
/// reading depends on the machine's clock, so nothing more can be
/// promised of it.
pub fn current_timestamp() -> u64 {
    unix_time_now()
}

} // verus!
