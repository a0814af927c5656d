//! The one place where the library reads the wall clock.

use vstd::prelude::*;

verus! {

/// Relies on `std::time::SystemTime::now` and `SystemTime::duration_since`:
/// whole seconds since the Unix epoch on the happy path, and the error when
/// the clock reads before the epoch. Nothing is promised of the value;
/// callers state what holds whatever the clock reads.
#[verifier::external_body]
pub(crate) fn now_unix_seconds() -> Result<u64, ()> {
    match std::time::SystemTime::now().duration_since(std::time::UNIX_EPOCH) {
        Ok(d) => Ok(d.as_secs()),
        Err(_) => Err(()),
    }
}

/// The clock reading clamped to the unsigned seconds the records carry;
/// a reading before the epoch counts as the epoch itself.
pub fn now_seconds() -> u64 {
    match now_unix_seconds() {
        Ok(s) => s,
        Err(()) => 0,
    }
}

} // verus!
