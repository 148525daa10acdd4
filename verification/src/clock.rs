//! System clock access for timestamping.
//!
//! All state-changing logic takes timestamps as plain arguments (`*_at`
//! functions), so it is verified for every clock value; these helpers only
//! feed the real clock into them.

use vstd::prelude::*;

verus! {

/// Relies on `std::time::SystemTime::now`: milliseconds of the system clock
/// since the Unix epoch, saturated to `u64`.  Nothing is promised of the
/// value: the clock may move arbitrarily between calls.
#[verifier::external_body]
pub fn unix_now_millis() -> u64 {
    match std::time::SystemTime::now().duration_since(std::time::UNIX_EPOCH) {
        Ok(d) => {
            let ms = d.as_millis();
            if ms > u64::MAX as u128 {
                u64::MAX
            } else {
                ms as u64
            }
        },
        Err(_) => 0,
    }
}

/// Seconds of the system clock since the Unix epoch.
pub fn unix_now_secs() -> u64 {
    unix_now_millis() / 1000
}

} // verus!
