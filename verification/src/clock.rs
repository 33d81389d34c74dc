//! The process's one clock read.  Everything else in the crate takes
//! `now` as an argument, so all time-dependent logic is verified for
//! every possible reading.

use vstd::prelude::*;

verus! {

/// Relies on std::time::SystemTime::now and duration_since: the whole
/// seconds since the Unix epoch, or nothing when the host clock is set
/// before 1970 (duration_since then returns its error, which is
/// dropped here).  Nothing can be promised of the value itself.
#[verifier::external_body]
fn unix_epoch_elapsed() -> Option<u64> {
    match std::time::SystemTime::now().duration_since(std::time::UNIX_EPOCH) {
        Ok(d) => Some(d.as_secs()),
        Err(_) => None,
    }
}

/// The current wall-clock time as seconds since the Unix epoch; a
/// clock set before 1970 reads as zero.
pub fn now_seconds() -> u64 {
    match unix_epoch_elapsed() {
        Some(t) => t,
        None => 0,
    }
}

} // verus!
