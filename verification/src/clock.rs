//! Reading the wall clock.

use vstd::prelude::*;

verus! {

/// Relies on std::time::SystemTime::now and duration_since: the
/// milliseconds elapsed since the Unix epoch, or nothing when the system
/// clock reads earlier than the epoch.  Nothing is promised of the value.
#[verifier::external_body]
pub fn now_millis() -> (r: Option<u128>) {
    std::time::SystemTime::now().duration_since(std::time::SystemTime::UNIX_EPOCH).ok().map(
        |d| d.as_millis(),
    )
}

} // verus!
