//! The wall clock.

use vstd::prelude::*;

verus! {

/// `Utc::now().timestamp_millis()` of chrono: the milliseconds that the
/// system clock counts since the start of 1970 in UTC. Nothing is claimed of
/// the number: two readings may differ in either direction. chrono gives up
/// where the system clock stands before 1970.
#[verifier::external_body]
pub(crate) fn now_millis() -> i64 {
    chrono::Utc::now().timestamp_millis()
}

} // verus!
