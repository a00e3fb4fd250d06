//! The wall clock, as far as a frame's timestamp needs it.

use std::time::{Duration, SystemTime, SystemTimeError, UNIX_EPOCH};
use vstd::prelude::*;

verus! {

#[verifier::external_type_specification]
#[verifier::external_body]
pub struct ExSystemTime(SystemTime);

#[verifier::external_type_specification]
#[verifier::external_body]
pub struct ExSystemTimeError(SystemTimeError);

/// `SystemTime::now` reads the machine's clock; nothing is claimed of what
/// it returns.
pub assume_specification[ SystemTime::now ]() -> (now: SystemTime)
;

/// `SystemTime::duration_since` fails where `earlier` is the later of the
/// two; nothing is claimed of either outcome.
pub assume_specification[ SystemTime::duration_since ](
    time: &SystemTime,
    earlier: SystemTime,
) -> (elapsed: Result<Duration, SystemTimeError>)
;

/// `Duration::as_secs` gives the whole seconds of a duration; nothing is
/// claimed of the number.
pub assume_specification[ Duration::as_secs ](duration: &Duration) -> (secs: u64)
;

/// The start of the Unix epoch, `std::time::UNIX_EPOCH`.
#[verifier::external_body]
fn epoch() -> SystemTime {
    UNIX_EPOCH
}

/// The current time in whole seconds since the Unix epoch, reduced to 32
/// bits. A clock set before the epoch reads as zero.
pub fn unix_now() -> u32 {
    let now: SystemTime = SystemTime::now();
    let elapsed: Option<u64> = match now.duration_since(epoch()) {
        Ok(elapsed) => Some(elapsed.as_secs()),
        Err(_) => None,
    };
    timestamp_from(elapsed)
}

/// The timestamp of a clock that stands `elapsed` whole seconds past the
/// epoch, or before it where `elapsed` is `None`: the seconds reduced to
/// 32 bits, and zero for a clock before the epoch.
pub open spec fn timestamp_of(elapsed: Option<u64>) -> u32 {
    match elapsed {
        Some(secs) => (secs % 0x1_0000_0000) as u32,
        None => 0,
    }
}

/// The timestamp for what the clock read.
pub fn timestamp_from(elapsed: Option<u64>) -> (timestamp: u32)
    ensures
        timestamp == timestamp_of(elapsed),
{
    match elapsed {
        Some(secs) => (secs % 0x1_0000_0000) as u32,
        None => 0,
    }
}

} // verus!
