//! The clock: the time that visits are stamped with.

use vstd::prelude::*;
use std::time::{Duration, SystemTime, SystemTimeError, UNIX_EPOCH};

verus! {

/// `std::time::SystemTime`: a reading of the system clock.
#[verifier::external_type_specification]
#[verifier::external_body]
pub struct ExSystemTime(SystemTime);

/// `std::time::SystemTimeError`: the second of two readings was the earlier.
#[verifier::external_type_specification]
#[verifier::external_body]
pub struct ExSystemTimeError(SystemTimeError);

/// `SystemTime::now` reads the system clock; nothing is known of the reading.
pub assume_specification[ SystemTime::now ]() -> SystemTime
;

/// `SystemTime::duration_since` gives the time from `earlier` to the
/// reading, or an error; nothing is known of which.
pub assume_specification[ SystemTime::duration_since ](
    reading: &SystemTime,
    earlier: SystemTime,
) -> Result<Duration, SystemTimeError>
;

/// `Duration::as_secs` gives the whole seconds of a duration; nothing is
/// known of their number.
pub assume_specification[ Duration::as_secs ](duration: &Duration) -> u64
;

/// The epoch: `std::time::UNIX_EPOCH`, the start of 1970 in universal time.
#[verifier::external_body]
fn epoch() -> SystemTime {
    UNIX_EPOCH
}

/// The system's time in whole seconds since the epoch. A clock that is set
/// before the epoch reads as the epoch, and one beyond the range as its end.
pub fn current_seconds() -> (now: i64)
    ensures
        now >= 0,
        exists|reading: Option<u64>| now == #[trigger] seconds_of(reading),
{
    let reading: Option<u64> = match SystemTime::now().duration_since(epoch()) {
        Ok(elapsed) => Some(elapsed.as_secs()),
        Err(_) => None,
    };
    let now = seconds_of_reading(reading);
    assert(now == seconds_of(reading));
    now
}

/// The time that a reading of the clock stands for: the whole seconds that
/// it counts since the epoch, the end of the range where they lie beyond
/// it, and the epoch itself where the clock was found set before it (the
/// reading then holds no seconds).
pub open spec fn seconds_of(reading: Option<u64>) -> int {
    match reading {
        Some(seconds) => if seconds <= i64::MAX {
            seconds as int
        } else {
            i64::MAX as int
        },
        None => 0,
    }
}

/// The time that a reading of the clock stands for.
pub fn seconds_of_reading(reading: Option<u64>) -> (now: i64)
    ensures
        now == seconds_of(reading),
{
    match reading {
        Some(seconds) => {
            if seconds <= i64::MAX as u64 {
                seconds as i64
            } else {
                i64::MAX
            }
        },
        None => 0,
    }
}

} // verus!
