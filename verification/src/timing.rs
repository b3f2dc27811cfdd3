//! The clock, behind trusted declarations: monotonic timing for spec bodies
//! and wall-clock stamps for a run's bounds. Nothing is assumed about what
//! the clock reads; callers treat every measurement as an arbitrary value.

use vstd::prelude::*;

verus! {

#[verifier::external_type_specification]
#[verifier::external_body]
pub struct ExInstant(std::time::Instant);

#[verifier::external_type_specification]
#[verifier::external_body]
pub struct ExSystemTime(std::time::SystemTime);

/// Relies on std's `Instant::now`; what the monotonic clock reads is not
/// modeled.
#[verifier::external_body]
pub(crate) fn instant_now() -> std::time::Instant {
    std::time::Instant::now()
}

/// Relies on std's `Instant::elapsed`; how much time passed is not modeled.
#[verifier::external_body]
pub(crate) fn instant_elapsed(since: &std::time::Instant) -> std::time::Duration {
    since.elapsed()
}

/// Relies on std's `Duration::as_nanos`: the whole elapsed time in
/// nanoseconds, for converting into the run's unit.
#[verifier::external_body]
pub(crate) fn duration_as_nanos(d: &std::time::Duration) -> u128 {
    d.as_nanos()
}

/// Relies on std's `SystemTime::now`; the wall clock is not modeled.
#[verifier::external_body]
pub(crate) fn system_now() -> std::time::SystemTime {
    std::time::SystemTime::now()
}

/// Relies on chrono's `impl From<SystemTime> for DateTime<Utc>` and the
/// `Display` impl of `DateTime`: renders a moment as a UTC timestamp string.
#[verifier::external_body]
pub(crate) fn utc_string(t: std::time::SystemTime) -> String {
    let dt: chrono::DateTime<chrono::offset::Utc> = t.into();
    dt.to_string()
}

} // verus!
