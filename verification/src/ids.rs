//! Fresh identifiers for tracing: time-sortable uuids.

use vstd::prelude::*;

verus! {

/// Relies on uuid::Uuid::now_v7 and its hyphenated rendering: a fresh
/// time-sortable uuid, 36 characters long.  The value depends on the clock
/// and on randomness, so nothing more is promised of it.  The uuid crate
/// aborts the process if the operating system's random source fails or
/// the clock reads before the epoch: environment faults that no caller
/// input can avoid.
#[verifier::external_body]
pub fn new_uuid_v7() -> (r: String)
    ensures
        r@.len() == 36,
{
    uuid::Uuid::now_v7().to_string()
}

} // verus!
