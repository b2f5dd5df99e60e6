//! Millisecond clocks for the debug output, saturated to `u64`.

use vstd::prelude::*;

verus! {

/// A `u128` clamped to the `u64` range.
pub fn saturating_u128_to_u64(value: u128) -> (r: u64)
    ensures
        r == (if value > u64::MAX { u64::MAX as u128 } else { value }),
{
    if value > u64::MAX as u128 {
        u64::MAX
    } else {
        value as u64
    }
}

#[verifier::external_type_specification]
#[verifier::external_body]
pub struct ExInstant(std::time::Instant);

#[verifier::external_type_specification]
#[verifier::external_body]
pub struct ExSystemTime(std::time::SystemTime);

/// Trusted: `Instant::elapsed`, the time since the instant; it depends on the clock, so
/// nothing is stated of it.
#[verifier::external_body]
fn instant_elapsed(instant: &std::time::Instant) -> std::time::Duration {
    instant.elapsed()
}

/// Trusted: `Duration::as_millis`, the whole milliseconds of a duration. A `Duration` is
/// opaque here, so nothing is stated of the result.
#[verifier::external_body]
fn duration_millis(duration: &std::time::Duration) -> u128 {
    duration.as_millis()
}

/// Trusted: `SystemTime::now`, the current wall-clock time; nothing is stated of it.
#[verifier::external_body]
fn system_time_now() -> std::time::SystemTime {
    std::time::SystemTime::now()
}

/// Trusted: `SystemTime::duration_since(UNIX_EPOCH)`, `None` for a time before the epoch;
/// it depends on the clock, so nothing is stated of it.
#[verifier::external_body]
fn since_unix_epoch(time: &std::time::SystemTime) -> Option<std::time::Duration> {
    match time.duration_since(std::time::UNIX_EPOCH) {
        Ok(duration) => Some(duration),
        Err(_) => None,
    }
}

/// Milliseconds since `instant`, saturated to `u64`.
pub fn elapsed_millis_u64(instant: std::time::Instant) -> (r: u64) {
    saturating_u128_to_u64(duration_millis(&instant_elapsed(&instant)))
}

/// A clock reading in milliseconds since the epoch, saturated to `u64`; 0 for a clock
/// that is before the epoch.
pub fn epoch_millis_from_reading(reading: Option<u128>) -> (r: u64)
    ensures
        r == match reading {
            Some(ms) => if ms > u64::MAX { u64::MAX as u128 } else { ms },
            None => 0,
        },
{
    match reading {
        Some(ms) => saturating_u128_to_u64(ms),
        None => 0,
    }
}

/// Milliseconds since the Unix epoch, saturated to `u64`; 0 when the clock is before the epoch.
pub fn unix_time_millis() -> (r: u64) {
    let reading = match since_unix_epoch(&system_time_now()) {
        Some(duration) => Some(duration_millis(&duration)),
        None => None,
    };
    epoch_millis_from_reading(reading)
}

} // verus!
