//! The system clock.

use std::time::{Duration, SystemTime, SystemTimeError, UNIX_EPOCH};
use vstd::prelude::*;

verus! {

/// Declares `std::time::SystemTime`; nothing is known of what is inside.
#[verifier::external_type_specification]
#[verifier::external_body]
pub struct ExSystemTime(SystemTime);

/// Declares `std::time::SystemTimeError`; nothing is known of what is inside.
#[verifier::external_type_specification]
#[verifier::external_body]
pub struct ExSystemTimeError(SystemTimeError);

/// Trusted: `SystemTime::now` reads the system clock. Nothing is promised of the reading.
pub assume_specification[ SystemTime::now ]() -> SystemTime
;

/// Trusted: `Duration::as_secs` gives the whole seconds of a span. Nothing is promised of the
/// number, since a span read off the clock may be any.
pub assume_specification[ Duration::as_secs ](d: &Duration) -> u64
;

/// Trusted: `SystemTime::duration_since` gives the time from the Unix epoch to a reading of the
/// clock, or an error where the clock stands before the epoch. Nothing is promised of either.
#[verifier::external_body]
fn since_epoch(t: SystemTime) -> (span: Result<Duration, SystemTimeError>) {
    t.duration_since(UNIX_EPOCH)
}

/// The seconds from the Unix epoch to now; zero where the clock stands before the epoch.
/// What the clock says is left open.
pub fn seconds_since_epoch() -> (secs: u64) {
    or_zero(
        match since_epoch(SystemTime::now()) {
            Ok(span) => Some(span.as_secs()),
            Err(_) => None,
        },
    )
}

/// What a clock reads that stands a number of whole seconds after the Unix epoch: nothing where it
/// stands before.
pub open spec fn reading(clock: int) -> Option<u64> {
    if clock < 0 {
        None
    } else {
        Some(clock as u64)
    }
}

/// A reading of the clock; zero where it stands before the epoch.
pub open spec fn secs_of(reading: Option<u64>) -> u64 {
    match reading {
        Some(s) => s,
        None => 0,
    }
}

/// A reading of the clock; zero where it stands before the epoch.
pub fn or_zero(reading: Option<u64>) -> (secs: u64)
    ensures
        secs == secs_of(reading),
{
    match reading {
        Some(s) => s,
        None => 0,
    }
}

} // verus!
