//! The wall clock, the one source of entropy for seeding.

use vstd::prelude::*;
use std::time::{Duration, SystemTime, SystemTimeError};

verus! {

#[verifier::external_type_specification]
#[verifier::external_body]
pub struct ExSystemTime(SystemTime);

#[verifier::external_type_specification]
#[verifier::external_body]
pub struct ExSystemTimeError(SystemTimeError);

/// Relies on SystemTime::now for the current time; nothing is known of its
/// value.
pub assume_specification[ SystemTime::now ]() -> SystemTime;

/// Relies on Duration::as_nanos for the length of a duration in
/// nanoseconds; nothing is stated of its value.
pub assume_specification[ Duration::as_nanos ](d: &Duration) -> u128;

/// Relies on SystemTime::duration_since, measured from UNIX_EPOCH: the time
/// elapsed since the epoch, or an error when `t` lies before it.
#[verifier::external_body]
fn since_epoch(t: &SystemTime) -> Result<Duration, SystemTimeError> {
    t.duration_since(std::time::UNIX_EPOCH)
}

/// A seed from a count of nanoseconds: its low 64 bits.
pub fn seed_from_nanos(nanos: u128) -> (r: u64)
    ensures
        r == nanos as u64,
        r == nanos % 0x1_0000_0000_0000_0000,
{
    proof {
        assert(nanos as u64 == nanos % 0x1_0000_0000_0000_0000) by (bit_vector);
    }
    nanos as u64
}

/// Nanoseconds since the Unix epoch, truncated to 64 bits by
/// `seed_from_nanos`; `None` when the clock reads a time before the epoch.
/// What the clock reads is not known here, so nothing is stated of the value.
pub fn current_time_seed() -> Option<u64> {
    match since_epoch(&SystemTime::now()) {
        Ok(d) => Some(seed_from_nanos(d.as_nanos())),
        Err(_) => None,
    }
}

} // verus!
