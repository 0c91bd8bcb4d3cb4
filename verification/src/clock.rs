//! Reading the system clock.
//!
//! The clock is outside the library's control: nothing is promised of what
//! these calls return, and the functions that use them take the readings as
//! arguments wherever their result matters.
use vstd::prelude::*;
use std::time::SystemTime;

verus! {

/// Declares `std::time::SystemTime`, held as an opaque value.
#[verifier::external_type_specification]
#[verifier::external_body]
pub struct ExSystemTime(std::time::SystemTime);

/// Calls `SystemTime::now`; the reading depends on the machine's clock.
#[verifier::external_body]
pub(crate) fn system_time_now() -> SystemTime {
    SystemTime::now()
}

/// Returns `std::time::UNIX_EPOCH`.
#[verifier::external_body]
pub(crate) fn unix_epoch() -> SystemTime {
    std::time::UNIX_EPOCH
}

/// Calls `SystemTime::duration_since` and gives the span in nanoseconds,
/// `None` where `earlier` lies after `now`. Nothing is stated of the value:
/// `SystemTime` is opaque here.
#[verifier::external_body]
pub(crate) fn nanos_since(now: &SystemTime, earlier: &SystemTime) -> Option<u128> {
    match now.duration_since(*earlier) {
        Ok(d) => Some(d.as_nanos()),
        Err(_) => None,
    }
}

/// Whole seconds in a span of `n` nanoseconds (capped at `u64::MAX`), 0
/// where there is no span.
pub open spec fn secs_of(n: Option<u128>) -> u64 {
    match n {
        Some(n) => if n / 1_000_000_000 > u64::MAX {
            u64::MAX
        } else {
            (n / 1_000_000_000) as u64
        },
        None => 0,
    }
}

/// Whole milliseconds in a span of `n` nanoseconds, taken modulo 2^64 as
/// a cast to `u64` does, 0 where there is no span.
pub open spec fn millis_of(n: Option<u128>) -> u64 {
    match n {
        Some(n) => ((n / 1_000_000) % 0x1_0000_0000_0000_0000) as u64,
        None => 0,
    }
}

/// Whole seconds in a span of `n` nanoseconds, 0 where there is no span.
pub fn secs_from_nanos(n: Option<u128>) -> (r: u64)
    ensures
        r == secs_of(n),
{
    match n {
        Some(n) => {
            let secs: u128 = n / 1_000_000_000;
            if secs > u64::MAX as u128 {
                u64::MAX
            } else {
                secs as u64
            }
        },
        None => 0,
    }
}

/// Whole milliseconds in a span of `n` nanoseconds, modulo 2^64, 0 where
/// there is no span.
pub fn millis_from_nanos(n: Option<u128>) -> (r: u64)
    ensures
        r == millis_of(n),
{
    match n {
        Some(n) => {
            let millis: u128 = n / 1_000_000;
            (millis % 0x1_0000_0000_0000_0000u128) as u64
        },
        None => 0,
    }
}

/// Whole seconds since the Unix epoch, 0 where the clock reads earlier.
pub fn epoch_now() -> (r: u64)
    ensures
        exists|reading: Option<u128>| r == #[trigger] secs_of(reading),
{
    let reading = nanos_since(&system_time_now(), &unix_epoch());
    secs_from_nanos(reading)
}

/// Whole milliseconds since the Unix epoch, 0 where the clock reads earlier.
pub fn epoch_millis_now() -> (r: u64)
    ensures
        exists|reading: Option<u128>| r == #[trigger] millis_of(reading),
{
    let reading = nanos_since(&system_time_now(), &unix_epoch());
    millis_from_nanos(reading)
}

} // verus!
