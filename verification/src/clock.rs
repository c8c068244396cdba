//! The system clock, read as milliseconds since the Unix epoch.

use vstd::prelude::*;
use std::time::{Duration, SystemTime};

verus! {

/// A point in time of the system clock, `std::time::SystemTime`. Nothing is
/// known of what it holds.
#[verifier::external_type_specification]
#[verifier::external_body]
pub struct ExSystemTime(SystemTime);

/// Calls `std::time::SystemTime::now`.
///
/// Trusted: nothing is claimed of the time that is read.
#[verifier::external_body]
fn system_time_now() -> (now: SystemTime) {
    SystemTime::now()
}

/// Calls `std::time::SystemTime::duration_since` with the Unix epoch: the
/// time that has passed since the epoch, `None` where `time` stands before
/// it.
///
/// Trusted: nothing is claimed of the duration.
#[verifier::external_body]
fn since_unix_epoch(time: &SystemTime) -> (since: Option<Duration>) {
    time.duration_since(std::time::UNIX_EPOCH).ok()
}

/// Calls `std::time::Duration::as_millis`: the whole milliseconds of the
/// duration.
///
/// Trusted: nothing is claimed of the number.
#[verifier::external_body]
fn whole_millis(duration: &Duration) -> (millis: u128) {
    duration.as_millis()
}

/// A number of milliseconds as a time of the clock: the number itself where
/// it fits in 64 bits, else nothing.
pub open spec fn clock_of(millis: u128) -> Option<u64> {
    if millis <= u64::MAX {
        Some(millis as u64)
    } else {
        None
    }
}

/// A number of milliseconds as a time of the clock, see [`clock_of`].
pub fn clock_from_millis(millis: u128) -> (clock: Option<u64>)
    ensures
        clock == clock_of(millis),
{
    if millis <= u64::MAX as u128 {
        Some(millis as u64)
    } else {
        None
    }
}

/// Reads the system clock: the milliseconds since the Unix epoch, `None`
/// where the clock stands before the epoch or the milliseconds do not fit in
/// 64 bits.
///
/// Nothing is promised of the reading: a clock may stand at any time, so
/// every value is the reading of some clock. What is made of the
/// milliseconds that the clock gives is said by [`clock_from_millis`].
pub fn system_time_millis() -> (clock: Option<u64>) {
    let now = system_time_now();
    match since_unix_epoch(&now) {
        None => None,
        Some(since) => clock_from_millis(whole_millis(&since)),
    }
}

} // verus!
