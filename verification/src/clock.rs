//! The local clock, read through chrono. Nothing is assumed of its value:
//! every routing function takes the timestamp as an argument and is
//! verified for all values; these functions only supply it.

use vstd::prelude::*;

verus! {

/// Relies on chrono::Utc::now / timestamp_millis: the wall clock in
/// milliseconds since the epoch; no value is assumed. chrono itself
/// panics inside Utc::now on a system clock set before the epoch.
#[verifier::external_body]
pub(crate) fn now_millis() -> i64 {
    chrono::Utc::now().timestamp_millis()
}

/// Relies on chrono::Utc::now / timestamp_nanos_opt: the wall clock in
/// nanoseconds since the epoch, when it fits the 64-bit range. chrono
/// itself panics inside Utc::now on a system clock set before the epoch.
#[verifier::external_body]
fn now_nanos() -> Option<i64> {
    chrono::Utc::now().timestamp_nanos_opt()
}

/// The receipt timestamp: the local clock at the moment a frame is
/// decoded, in nanoseconds. A clock outside the 64-bit range reads as 0
/// rather than failing the session.
pub fn local_timestamp() -> i64 {
    match now_nanos() {
        Some(t) => t,
        None => 0,
    }
}

} // verus!
