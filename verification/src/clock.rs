//! The trusted boundary to the wall clock.

use vstd::prelude::*;

verus! {

/// Relies on std's `SystemTime::now`: milliseconds since the Unix epoch,
/// truncated to 64 bits. The value depends on the machine's clock;
/// nothing is promised of it.
#[verifier::external_body]
pub fn now_millis() -> u64 {
    match std::time::SystemTime::now().duration_since(std::time::UNIX_EPOCH) {
        Ok(d) => d.as_millis() as u64,
        Err(_) => 0,
    }
}

} // verus!
