//! The seam to the wall clock. Nothing can be promised of what the clock
//! reads; callers treat the result as an arbitrary seconds count.

use vstd::prelude::*;

verus! {

#[verifier::external_type_specification]
#[verifier::external_body]
pub struct ExSystemTime(std::time::SystemTime);

/// Relies on `std::time::SystemTime::now`: the current wall-clock time.
#[verifier::external_body]
pub fn system_time_now() -> std::time::SystemTime {
    std::time::SystemTime::now()
}

/// Relies on `std::time::SystemTime::duration_since`: the whole seconds from
/// the epoch to the given time, or zero when the time lies before the epoch.
#[verifier::external_body]
pub fn unix_secs_of(t: &std::time::SystemTime) -> u64 {
    match t.duration_since(std::time::UNIX_EPOCH) {
        Ok(d) => d.as_secs(),
        Err(_) => 0,
    }
}

/// The unix timestamp of the given time, or of the present moment when none
/// is given, in whole seconds.
pub fn get_unix_timestamp(start: Option<std::time::SystemTime>) -> u64 {
    match start {
        Some(t) => unix_secs_of(&t),
        None => unix_secs_of(&system_time_now()),
    }
}

} // verus!
