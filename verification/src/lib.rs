//! Core of a sharded chat-bot framework: gateway ingress state tracking,
//! envelope and key-value record codecs, handler registries, interaction
//! dispatch, module reconciliation, and cron task scheduling.

use vstd::prelude::*;

pub mod clock;
pub mod codec;
pub mod color;
pub mod dispatch;
pub mod duration;
pub mod emoji;
pub mod envelope;
pub mod metrics;
pub mod handler;
pub mod ids;
pub mod ingress;
pub mod modcore;
pub mod pk;
pub mod modreg;
pub mod registry;
pub mod schedule;
pub mod shard_state;
pub mod stats;
pub mod strmap;
pub mod text;

verus! {

/// Returns true when the given application id is the PluralKit proxy
/// application.
pub fn is_pk_proxy(application_id: &Option<u64>) -> (r: bool)
    ensures
        r == (application_id is Some && application_id->0 == 466378653216014359u64),
{
    match application_id {
        Some(id) => *id == 466378653216014359u64,
        None => false,
    }
}

} // verus!
