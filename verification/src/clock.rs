//! Points in time and spans of time, counted in nanoseconds.
//!
//! A point in time is the number of nanoseconds since the Unix epoch.

use std::time::{Duration, SystemTime, SystemTimeError};
use vstd::prelude::*;

verus! {

/// Nanoseconds in a second.
pub const SECOND: u128 = 1_000_000_000;

/// The longest span that `std::time::Duration` can hold.
pub const LONGEST_SPAN: u128 = 18_446_744_073_709_551_615_999_999_999;

/// The clock reading of `std::time`.
#[verifier::external_type_specification]
#[verifier::external_body]
pub struct ExSystemTime(SystemTime);

/// The error of a subtraction of two clock readings.
#[verifier::external_type_specification]
#[verifier::external_body]
pub struct ExSystemTimeError(SystemTimeError);

/// `SystemTime::now`: nothing is claimed of what the clock shows.
pub assume_specification[ SystemTime::now ]() -> (reading: SystemTime);

/// `SystemTime::duration_since` the Unix epoch: nothing is claimed of the result.
#[verifier::external_body]
fn since_epoch(reading: SystemTime) -> (span: Result<Duration, SystemTimeError>) {
    reading.duration_since(SystemTime::UNIX_EPOCH)
}

/// `Duration::as_nanos`: all the nanoseconds of the span, whose whole seconds are a number of 64
/// bits and whose remaining nanoseconds are less than a second. How long the span is is not said.
pub assume_specification[ Duration::as_nanos ](span: &Duration) -> (nanos: u128)
    ensures
        nanos <= LONGEST_SPAN,
;

/// The time that the clock shows, given the nanoseconds since the epoch. A clock that is set
/// before the epoch counts as showing the epoch.
pub fn time_shown(since_epoch: Option<u128>) -> (time: u128)
    ensures
        time == match since_epoch {
            Some(nanos) => nanos,
            None => 0,
        },
{
    match since_epoch {
        Some(nanos) => nanos,
        None => 0,
    }
}

/// The current time. What the clock shows is not said, but the time since the epoch is a span
/// that `std::time::Duration` can hold.
pub fn now() -> (time: u128)
    ensures
        time <= LONGEST_SPAN,
{
    match since_epoch(SystemTime::now()) {
        Ok(span) => time_shown(Some(span.as_nanos())),
        Err(_) => time_shown(None),
    }
}

/// The whole seconds that have passed from `earlier` to `later`; none if `later` is the earlier.
pub open spec fn seconds_between(earlier: u128, later: u128) -> nat {
    if earlier <= later {
        ((later - earlier) / (SECOND as int)) as nat
    } else {
        0
    }
}

/// The whole seconds that have passed from `earlier` to `later`; none if `later` is the earlier.
pub fn whole_seconds(earlier: u128, later: u128) -> (seconds: u128)
    ensures
        seconds == seconds_between(earlier, later),
{
    if earlier <= later {
        (later - earlier) / SECOND
    } else {
        0
    }
}

/// Law: seconds are counted whole: whatever time less than a second is left over does not count. A
/// time that has not come yet is no seconds away.
pub proof fn law_whole_seconds(earlier: u128, later: u128, seconds: nat, rest: nat)
    ensures
        later == earlier + seconds * 1_000_000_000 + rest && rest < 1_000_000_000
            ==> seconds_between(earlier, later) == seconds,
        later <= earlier ==> seconds_between(earlier, later) == 0,
{
}

} // verus!
