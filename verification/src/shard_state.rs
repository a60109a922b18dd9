//! Durable per-shard health snapshot and its liveness rule.

use vstd::prelude::*;
use crate::clock::unix_now;

verus! {

/// Health snapshot of one gateway shard, persisted to the key-value store
/// on every state transition.  All times are unix seconds; `latency` and
/// `heartbeat_interval` are milliseconds.
#[derive(Debug, Clone, Copy, PartialEq, Eq, Structural)]
pub struct ShardState {
    pub shard_id: u32,
    pub guild_count: u64,
    pub up: bool,
    pub disconnect_count: u64,
    pub latency: u64,
    pub heartbeat_interval: u64,
    pub last_started: u64,
    pub last_heartbeat: u64,
    pub last_connection: u64,
}

/// The allowance on heartbeat age: 1.2 times the heartbeat interval, with
/// the interval converted from milliseconds to whole seconds.
pub open spec fn spec_heartbeat_allowance(heartbeat_interval_ms: int) -> int {
    heartbeat_interval_ms * 12 / 10000
}

/// The liveness rule: a shard counts as up when its flag is set and its
/// last heartbeat is fresher than the allowance.
pub open spec fn spec_is_up(state: ShardState, now: int) -> bool {
    state.up && now - state.last_heartbeat < spec_heartbeat_allowance(
        state.heartbeat_interval as int,
    )
}

impl ShardState {
    /// A fresh snapshot for a shard whose session starts at `now`: down,
    /// with every counter at zero.
    pub fn new_at(shard_id: u32, now: u64) -> (s: Self)
        ensures
            s == (ShardState {
                shard_id,
                guild_count: 0,
                up: false,
                disconnect_count: 0,
                latency: 0,
                heartbeat_interval: 0,
                last_started: now,
                last_heartbeat: 0,
                last_connection: 0,
            }),
    {
        ShardState {
            shard_id,
            guild_count: 0,
            up: false,
            disconnect_count: 0,
            latency: 0,
            heartbeat_interval: 0,
            last_started: now,
            last_heartbeat: 0,
            last_connection: 0,
        }
    }

    /// A fresh snapshot started at the current wall-clock time.
    pub fn new(shard_id: u32) -> (s: Self)
        ensures
            s.shard_id == shard_id,
            s.guild_count == 0,
            !s.up,
            s.disconnect_count == 0,
            s.latency == 0,
            s.heartbeat_interval == 0,
            s.last_heartbeat == 0,
            s.last_connection == 0,
    {
        let now = unix_now();
        Self::new_at(shard_id, now)
    }

    /// Whether the shard counts as up at time `now`: the up flag is set and
    /// the time since the last heartbeat is under 1.2 times the heartbeat
    /// interval.
    pub fn is_up_at(&self, now: u64) -> (r: bool)
        ensures
            r == spec_is_up(*self, now as int),
            r ==> self.up && 10000 * (now - self.last_heartbeat) < 12
                * self.heartbeat_interval,
    {
        if !self.up {
            return false;
        }
        let allowance: u64 = ((self.heartbeat_interval as u128) * 12 / 10000) as u64;
        proof {
            assert((self.heartbeat_interval as int) * 12 / 10000 < 0x1_0000_0000_0000_0000)
                by (nonlinear_arith)
                requires
                    0 <= self.heartbeat_interval < 0x1_0000_0000_0000_0000,
            ;
            assert(allowance as int == spec_heartbeat_allowance(self.heartbeat_interval as int));
        }
        let r = now < self.last_heartbeat || now - self.last_heartbeat < allowance;
        proof {
            if r {
                let diff = now as int - self.last_heartbeat as int;
                let hb = self.heartbeat_interval as int;
                assert(diff < hb * 12 / 10000);
                assert(hb * 12 / 10000 * 10000 <= hb * 12) by (nonlinear_arith)
                    requires
                        hb >= 0,
                ;
                assert(10000 * (diff + 1) <= 10000 * (hb * 12 / 10000)) by (nonlinear_arith)
                    requires
                        diff + 1 <= hb * 12 / 10000,
                ;
            }
        }
        r
    }

    /// Whether the shard counts as up at the current wall-clock time.  The
    /// exact rule for a known time is `is_up_at`; whatever the clock reads,
    /// a shard whose up flag is clear is never reported up.
    pub fn is_up(&self) -> (r: bool)
        ensures
            r ==> self.up,
    {
        let now = unix_now();
        self.is_up_at(now)
    }
}

} // verus!
