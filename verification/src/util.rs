//! Session identifiers and versions for `o=` lines (RFC 4566 section 5.2).

use vstd::prelude::*;
use core::time::Duration;
use std::time::SystemTime;

verus! {

#[verifier::external_type_specification]
#[verifier::external_body]
pub struct ExSystemTime(SystemTime);

/// A random `u64` from `rand::random`; nothing is known of which one.
#[verifier::external_body]
pub(crate) fn random_u64() -> (r: u64) {
    rand::random::<u64>()
}

/// The current time of the system clock (`SystemTime::now`).
#[verifier::external_body]
fn system_time_now() -> (r: SystemTime) {
    SystemTime::now()
}

/// The time elapsed since the Unix epoch (`SystemTime::duration_since`), `None` where the
/// clock is before it.
#[verifier::external_body]
fn since_unix_epoch(t: &SystemTime) -> (r: Option<Duration>) {
    t.duration_since(std::time::UNIX_EPOCH).ok()
}

/// The fractional part of a duration in nanoseconds (`Duration::subsec_nanos`), which its
/// documentation gives as less than one billion.
#[verifier::external_body]
fn subsec_nanos(d: &Duration) -> (r: u32)
    ensures
        r < 1_000_000_000,
{
    d.subsec_nanos()
}

/// A new session id: a random number.
pub fn new_session_id() -> (r: u64) {
    random_u64()
}

/// The session version for the nanoseconds within the current second, where the clock gives
/// them: those nanoseconds, or 0.
pub fn session_version_of(nanos: Option<u32>) -> (r: u64)
    ensures
        r == match nanos {
            Some(n) => n as u64,
            None => 0u64,
        },
{
    match nanos {
        Some(n) => n as u64,
        None => 0,
    }
}

/// A new session version: the nanoseconds within the current second of the system clock,
/// or 0 where the clock is before the Unix epoch.
pub fn new_session_version() -> (r: u64)
    ensures
        r < 1_000_000_000,
{
    let now = system_time_now();
    let nanos = match since_unix_epoch(&now) {
        Some(d) => Some(subsec_nanos(&d)),
        None => None,
    };
    session_version_of(nanos)
}

} // verus!
