//! Access to the system clock, the one place the library reads it.

use vstd::prelude::*;
use std::time::{SystemTime, UNIX_EPOCH};

verus! {

/// Relies on std::time::SystemTime::now and duration_since: seconds since
/// the Unix epoch.  Nothing is promised of the value; a clock before the
/// epoch is reported as zero.
#[verifier::external_body]
pub fn unix_now() -> u64 {
    SystemTime::now().duration_since(UNIX_EPOCH).map(|d| d.as_secs()).unwrap_or(0)
}

} // verus!
