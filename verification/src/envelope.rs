//! The envelope that carries raw gateway text across the work queue,
//! preserving the shard of origin and a tracing uuid.

use vstd::prelude::*;
use crate::ids::new_uuid_v7;

verus! {

/// The envelope metadata: a time-sortable tracing uuid and the shard the
/// frame arrived on.  Once published, the metadata is immutable.
#[derive(Debug)]
pub struct DiscordEventMeta {
    pub uuid: String,
    pub shard: u32,
}

/// One queue message: metadata plus the raw frame text.
#[derive(Debug)]
pub struct DiscordEvent {
    pub meta: DiscordEventMeta,
    pub payload: String,
}

impl DiscordEvent {
    /// Wraps a raw frame for publication: the payload is carried through
    /// unchanged and a fresh tracing uuid is assigned.
    pub fn new(shard: u32, payload: String) -> (e: Self)
        ensures
            e.meta.shard == shard,
            e.payload@ == payload@,
            e.meta.uuid@.len() == 36,
    {
        DiscordEvent { meta: DiscordEventMeta { uuid: new_uuid_v7(), shard }, payload }
    }
}

} // verus!
