//! The wall clock, read through an outside crate.

use vstd::prelude::*;

verus! {

/// Relies on time::OffsetDateTime::now_utc and unix_timestamp for the current
/// wall-clock time as whole seconds since the Unix epoch.  Nothing is assumed
/// of the value returned.
#[verifier::external_body]
pub fn unix_time_now() -> i64 {
    time::OffsetDateTime::now_utc().unix_timestamp()
}

} // verus!
