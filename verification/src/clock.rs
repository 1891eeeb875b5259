//! The wall clock and identifier source, behind trusted wrappers.
//!
//! All of the crate's logic takes instants and day numbers as arguments, so
//! these wrappers are only the place where a caller obtains them.

use vstd::prelude::*;

verus! {

/// Relies on chrono's `Utc::now` and `DateTime::timestamp_millis`: the
/// current wall-clock time as milliseconds since the Unix epoch. Nothing
/// can be promised of the time; a clock set before 1970 is reported as
/// zero.
#[verifier::external_body]
pub(crate) fn now_unix_millis() -> u64 {
    u64::try_from(chrono::Utc::now().timestamp_millis()).unwrap_or(0)
}

/// Relies on uuid's `Uuid::new_v4`: a random (version 4) UUID, returned as
/// its 128-bit value. Nothing can be promised of a random result.
#[verifier::external_body]
pub(crate) fn fresh_id() -> u128 {
    uuid::Uuid::new_v4().as_u128()
}

} // verus!
