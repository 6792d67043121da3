//! Reading the wall clock.

use vstd::prelude::*;

verus! {

/// Relies on `std::time::SystemTime::now`, read as whole milliseconds since
/// the Unix epoch. Nothing is assumed of the value: what callers prove must
/// hold for every reading.
#[verifier::external_body]
pub(crate) fn now_ms() -> u64 {
    match std::time::SystemTime::now().duration_since(std::time::UNIX_EPOCH) {
        Ok(d) => d.as_millis() as u64,
        Err(_) => 0,
    }
}

} // verus!
