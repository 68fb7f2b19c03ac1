//! Wall-clock readings. Bookmark and history records carry the moment they
//! were made; only the host's clock can supply it, so nothing is promised
//! of these values.

use vstd::prelude::*;

verus! {

/// Relies on `std::time::SystemTime::now` and
/// `SystemTime::duration_since` for the milliseconds since the Unix
/// epoch; a clock set before the epoch reads as zero.
#[verifier::external_body]
pub fn now_unix_millis() -> u64 {
    match std::time::SystemTime::now().duration_since(std::time::UNIX_EPOCH) {
        Ok(d) => d.as_millis() as u64,
        Err(_) => 0,
    }
}

/// Relies on `std::time::SystemTime::now` and
/// `SystemTime::duration_since` for the seconds since the Unix epoch; a
/// clock set before the epoch reads as zero.
#[verifier::external_body]
pub fn now_unix_secs() -> u64 {
    match std::time::SystemTime::now().duration_since(std::time::UNIX_EPOCH) {
        Ok(d) => d.as_secs(),
        Err(_) => 0,
    }
}

} // verus!
