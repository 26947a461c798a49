use vstd::prelude::*;
use std::time::Duration;
use std::time::Instant;
use std::time::SystemTime;

verus! {

#[verifier::external_type_specification]
#[verifier::external_body]
pub struct ExInstant(Instant);

/// Relies on std::time::SystemTime::now and chrono's `DateTime<Utc>`
/// conversion and `DateTime::to_rfc3339` to read the current wall clock as
/// an RFC-3339 string. The result depends on the clock, so nothing is
/// promised of it.
#[verifier::external_body]
pub(crate) fn now_rfc3339() -> String {
    let t_now = SystemTime::now();
    let datetime: chrono::DateTime<chrono::offset::Utc> = t_now.into();
    datetime.to_rfc3339()
}

/// Relies on std::time::Instant::now: a reading of the monotonic clock. The
/// result depends on the clock, so nothing is promised of it.
pub assume_specification[ Instant::now ]() -> Instant;

/// Relies on std::time::Instant::elapsed: the time that passed since the
/// given monotonic reading. The result depends on the clock, so nothing is
/// promised of it.
pub assume_specification[ Instant::elapsed ](i: &Instant) -> Duration;

/// Relies on std::time::Duration::as_secs: the whole-second part of a
/// duration. A duration value is opaque here, so nothing is promised of the
/// result.
pub assume_specification[ Duration::as_secs ](d: &Duration) -> u64;

} // verus!
