//! Gateway ingress state: the set of guilds seen by a shard, the lifecycle
//! events that touch shard state, and the transition machine that keeps the
//! per-shard snapshot current.

use vstd::prelude::*;
use crate::shard_state::ShardState;
use crate::text::{
    dec_value, digit_run_end, find_lit, first_match, found_first_at, has_pattern, is_dec_digit, match_at,
    lemma_first_match, lemma_first_match_unique, parse_u64_at, skip_ws, ws_run_end,
};

verus! {

/// A set of guild ids, stored without duplicates.
pub struct GuildSet {
    pub ids: Vec<u64>,
}

impl View for GuildSet {
    type V = Set<u64>;

    open spec fn view(&self) -> Set<u64> {
        self.ids@.to_set()
    }
}

proof fn lemma_take_succ_to_set(s: Seq<u64>, i: int)
    requires
        0 <= i < s.len(),
    ensures
        s.take(i + 1).to_set() =~= s.take(i).to_set().insert(s[i]),
{
    let a = s.take(i + 1);
    let b = s.take(i);
    assert forall|x: u64| a.to_set().contains(x) implies b.to_set().contains(x) || x == s[i] by {
        let j = choose|j: int| 0 <= j < a.len() && a[j] == x;
        if j < i {
            assert(b[j] == x);
        }
    }
    assert forall|x: u64| b.to_set().contains(x) || x == s[i] implies a.to_set().contains(x) by {
        if b.to_set().contains(x) {
            let j = choose|j: int| 0 <= j < b.len() && b[j] == x;
            assert(a[j] == x);
        } else {
            assert(a[i] == x);
        }
    }
}

impl GuildSet {
    /// No guild id is stored twice.
    pub open spec fn wf(&self) -> bool {
        self.ids@.no_duplicates()
    }

    /// An empty set.
    pub fn new() -> (s: Self)
        ensures
            s.wf(),
            s@ =~= Set::<u64>::empty(),
    {
        let s = GuildSet { ids: Vec::new() };
        proof {
            assert forall|x: u64| !s.ids@.to_set().contains(x) by {
                assert(!s.ids@.contains(x));
            }
        }
        s
    }

    /// How many guilds are in the set.
    pub fn len(&self) -> (n: usize)
        requires
            self.wf(),
        ensures
            n as int == self@.len(),
    {
        proof {
            self.ids@.unique_seq_to_set();
        }
        self.ids.len()
    }

    /// Whether `id` is in the set.
    pub fn contains(&self, id: u64) -> (r: bool)
        ensures
            r == self@.contains(id),
    {
        let n = self.ids.len();
        let mut i: usize = 0;
        loop
            invariant
                0 <= i <= n,
                n == self.ids@.len(),
                forall|m: int| 0 <= m < i ==> self.ids@[m] != id,
            ensures
                i <= n,
                forall|m: int| 0 <= m < i ==> self.ids@[m] != id,
                i < n ==> self.ids@[i as int] == id,
            decreases n - i,
        {
            if i >= n {
                break;
            }
            if self.ids[i] == id {
                break;
            }
            i = i + 1;
        }
        if i < n {
            proof {
                assert(self.ids@.contains(id));
            }
            true
        } else {
            proof {
                assert(!self.ids@.contains(id));
            }
            false
        }
    }

    /// Adds `id`; reports whether it was new.
    pub fn insert(&mut self, id: u64) -> (added: bool)
        requires
            old(self).wf(),
        ensures
            final(self).wf(),
            final(self)@ =~= old(self)@.insert(id),
            added == !old(self)@.contains(id),
    {
        if self.contains(id) {
            proof {
                assert(old(self)@.insert(id) =~= old(self)@);
            }
            false
        } else {
            let ghost before = self.ids@;
            self.ids.push(id);
            proof {
                assert(self.ids@ =~= before.push(id));
                assert(self.ids@.take(before.len() as int) =~= before);
                lemma_take_succ_to_set(self.ids@, before.len() as int);
                assert(self.ids@.take(before.len() as int + 1) =~= self.ids@);
                assert(final(self)@ =~= old(self)@.insert(id));
                // uniqueness is kept: the new last element was absent
                assert forall|m: int, l: int|
                    0 <= m < l < self.ids@.len() implies self.ids@[m] != self.ids@[l] by {
                    if l == before.len() {
                        assert(before.contains(before[m]));
                    }
                }
            }
            true
        }
    }

    /// Removes `id`; reports whether it was present.
    pub fn remove(&mut self, id: u64) -> (removed: bool)
        requires
            old(self).wf(),
        ensures
            final(self).wf(),
            final(self)@ =~= old(self)@.remove(id),
            removed == old(self)@.contains(id),
    {
        let n = self.ids.len();
        let mut i: usize = 0;
        loop
            invariant
                0 <= i <= n,
                n == self.ids@.len(),
                self == old(self),
                forall|m: int| 0 <= m < i ==> self.ids@[m] != id,
            ensures
                self == old(self),
                i <= n,
                forall|m: int| 0 <= m < i ==> self.ids@[m] != id,
                i < n ==> self.ids@[i as int] == id,
            decreases n - i,
        {
            if i >= n {
                break;
            }
            if self.ids[i] == id {
                break;
            }
            i = i + 1;
        }
        if i >= n {
            proof {
                assert(!old(self).ids@.contains(id));
                assert(old(self)@.remove(id) =~= old(self)@);
            }
            return false;
        }
        let ghost before = self.ids@;
        self.ids.remove(i);
        proof {
            let after = self.ids@;
            assert(after =~= before.subrange(0, i as int) + before.subrange(
                i + 1,
                before.len() as int,
            ));
            // membership: everything but the removed id carries over
            assert forall|x: u64| after.to_set().contains(x) implies before.to_set().contains(x)
                && x != id by {
                let j = choose|j: int| 0 <= j < after.len() && after[j] == x;
                if j < i {
                    assert(before[j] == x);
                } else {
                    assert(before[j + 1] == x);
                }
            }
            assert forall|x: u64| before.to_set().contains(x) && x != id implies after
                .to_set()
                .contains(x) by {
                let j = choose|j: int| 0 <= j < before.len() && before[j] == x;
                if j < i {
                    assert(after[j] == x);
                } else {
                    assert(j != i);
                    assert(after[j - 1] == x);
                }
            }
            assert(final(self)@ =~= old(self)@.remove(id));
            assert forall|m: int, l: int|
                0 <= m < l < after.len() implies after[m] != after[l] by {
                let m0 = if m < i {
                    m
                } else {
                    m + 1
                };
                let l0 = if l < i {
                    l
                } else {
                    l + 1
                };
                assert(after[m] == before[m0]);
                assert(after[l] == before[l0]);
            }
            assert(old(self)@.contains(id)) by {
                assert(before[i as int] == id);
                assert(before.contains(id));
            }
        }
        true
    }
}

/// A gateway lifecycle event, reduced to the values the shard-state machine
/// reads.
pub enum ShardEvent {
    /// HELLO: the heartbeat interval in milliseconds.
    Hello { heartbeat_interval_ms: u64 },
    /// READY: the ids of the (unavailable) guilds in the session.
    Ready { guild_ids: Vec<u64> },
    /// RESUMED.
    Resumed,
    /// GUILD_CREATE.
    GuildCreate { guild_id: u64 },
    /// GUILD_DELETE.
    GuildDelete { guild_id: u64 },
    /// Heartbeat acknowledgement.
    HeartbeatAck,
    /// The websocket closed.
    GatewayClose,
}

/// What the ingress loop must do after a transition.
#[derive(Debug, PartialEq, Eq, Structural, Clone, Copy)]
pub struct IngressAction {
    /// Persist the shard snapshot to the key-value store.
    pub save: bool,
    /// Send the presence update that announces the build version.
    pub send_presence: bool,
}

/// A transition was rejected.
#[derive(Debug, PartialEq, Eq, Structural, Clone, Copy)]
pub enum IngressError {
    /// The event's payload is malformed, such as a zero or oversized
    /// heartbeat interval.
    Parse,
}

/// The per-shard ingress state: the guilds seen, the health snapshot, and
/// whether the version presence was already announced.
pub struct ShardManager {
    pub guild_ids: GuildSet,
    pub shard: ShardState,
    pub presence_sent: bool,
}

impl ShardManager {
    /// The guild set holds no duplicates and the snapshot's guild count is
    /// exactly the number of guilds.
    pub open spec fn wf(&self) -> bool {
        &&& self.guild_ids.wf()
        &&& self.shard.guild_count as int == self.guild_ids@.len()
    }

    /// A fresh manager for one shard, with an empty guild set and a
    /// snapshot started at `now`.
    pub fn new(shard_id: u32, now: u64) -> (m: Self)
        ensures
            m.wf(),
            m.guild_ids@ =~= Set::<u64>::empty(),
            m.shard == (ShardState {
                shard_id,
                guild_count: 0,
                up: false,
                disconnect_count: 0,
                latency: 0,
                heartbeat_interval: 0,
                last_started: now,
                last_heartbeat: 0,
                last_connection: 0,
            }),
            !m.presence_sent,
    {
        let m = ShardManager {
            guild_ids: GuildSet::new(),
            shard: ShardState::new_at(shard_id, now),
            presence_sent: false,
        };
        proof {
            m.guild_ids.ids@.unique_seq_to_set();
        }
        m
    }

    /// Applies one lifecycle event at time `now`.  `latency_ms` is the most
    /// recent heartbeat round-trip, when one has been measured; a heartbeat
    /// acknowledgement without a sample leaves the stored latency alone.
    /// Every accepted event mutates the snapshot exactly as the transition
    /// table says and asks for a save; only the first READY additionally
    /// asks for the presence announcement.  A HELLO whose interval is zero
    /// or over `u32::MAX` is rejected unchanged.
    pub fn handle_event(&mut self, event: &ShardEvent, latency_ms: Option<u64>, now: u64) -> (r:
        Result<IngressAction, IngressError>)
        requires
            old(self).wf(),
        ensures
            final(self).wf(),
            r is Err <==> ((*event) matches ShardEvent::Hello { heartbeat_interval_ms } && (
            heartbeat_interval_ms == 0 || heartbeat_interval_ms > u32::MAX)),
            r is Err ==> *final(self) == *old(self) && r->Err_0 == IngressError::Parse,
            r is Ok ==> r->Ok_0.send_presence == (event is Ready && !old(self).presence_sent),
            final(self).presence_sent == (old(self).presence_sent || (r is Ok && event is Ready)),
            (*event) matches ShardEvent::Hello { heartbeat_interval_ms } ==> r is Ok ==> {
                &&& final(self).shard == (ShardState {
                    heartbeat_interval: heartbeat_interval_ms,
                    last_connection: now,
                    ..old(self).shard
                })
                &&& final(self).guild_ids@ == old(self).guild_ids@
                &&& r->Ok_0.save
            },
            (*event) matches ShardEvent::Ready { guild_ids } ==> {
                &&& final(self).guild_ids@ =~= old(self).guild_ids@.union(guild_ids@.to_set())
                &&& final(self).shard == (ShardState {
                    up: true,
                    guild_count: final(self).shard.guild_count,
                    ..old(self).shard
                })
                &&& r->Ok_0.save
            },
            event is Resumed ==> {
                &&& final(self).shard == (ShardState {
                    up: true,
                    last_connection: now,
                    ..old(self).shard
                })
                &&& final(self).guild_ids@ == old(self).guild_ids@
                &&& r->Ok_0.save
            },
            (*event) matches ShardEvent::GuildCreate { guild_id } ==> {
                &&& final(self).guild_ids@ =~= old(self).guild_ids@.insert(guild_id)
                &&& final(self).shard == (ShardState {
                    guild_count: final(self).shard.guild_count,
                    ..old(self).shard
                })
                &&& r->Ok_0.save == !old(self).guild_ids@.contains(guild_id)
            },
            (*event) matches ShardEvent::GuildDelete { guild_id } ==> {
                &&& final(self).guild_ids@ =~= old(self).guild_ids@.remove(guild_id)
                &&& final(self).shard == (ShardState {
                    guild_count: final(self).shard.guild_count,
                    ..old(self).shard
                })
                &&& r->Ok_0.save == old(self).guild_ids@.contains(guild_id)
            },
            event is HeartbeatAck ==> {
                &&& final(self).shard == (ShardState {
                    up: true,
                    last_heartbeat: now,
                    latency: match latency_ms {
                        Some(ms) => ms,
                        None => old(self).shard.latency,
                    },
                    ..old(self).shard
                })
                &&& final(self).guild_ids@ == old(self).guild_ids@
                &&& r->Ok_0.save
            },
            event is GatewayClose ==> {
                &&& final(self).shard == (ShardState {
                    up: false,
                    disconnect_count: if old(self).shard.disconnect_count < u64::MAX {
                        (old(self).shard.disconnect_count + 1) as u64
                    } else {
                        u64::MAX
                    },
                    ..old(self).shard
                })
                &&& final(self).guild_ids@ == old(self).guild_ids@
                &&& r->Ok_0.save
            },
    {
        match event {
            ShardEvent::Hello { heartbeat_interval_ms } => {
                let iv = *heartbeat_interval_ms;
                if iv == 0 || iv > u32::MAX as u64 {
                    return Err(IngressError::Parse);
                }
                self.shard.heartbeat_interval = iv;
                self.shard.last_connection = now;
                Ok(IngressAction { save: true, send_presence: false })
            },
            ShardEvent::Ready { guild_ids } => {
                let n = guild_ids.len();
                let mut i: usize = 0;
                loop
                    invariant
                        0 <= i <= n,
                        n == guild_ids@.len(),
                        self.guild_ids.wf(),
                        self.guild_ids@ =~= old(self).guild_ids@.union(
                            guild_ids@.take(i as int).to_set(),
                        ),
                        self.shard == old(self).shard,
                        self.presence_sent == old(self).presence_sent,
                    ensures
                        self.guild_ids.wf(),
                        self.guild_ids@ =~= old(self).guild_ids@.union(guild_ids@.to_set()),
                        self.shard == old(self).shard,
                        self.presence_sent == old(self).presence_sent,
                    decreases n - i,
                {
                    if i >= n {
                        proof {
                            assert(guild_ids@.take(i as int) =~= guild_ids@);
                        }
                        break;
                    }
                    self.guild_ids.insert(guild_ids[i]);
                    proof {
                        lemma_take_succ_to_set(guild_ids@, i as int);
                    }
                    i = i + 1;
                }
                let count = self.guild_ids.len();
                self.shard.up = true;
                self.shard.guild_count = count as u64;
                let send_presence = !self.presence_sent;
                self.presence_sent = true;
                Ok(IngressAction { save: true, send_presence })
            },
            ShardEvent::Resumed => {
                self.shard.up = true;
                self.shard.last_connection = now;
                Ok(IngressAction { save: true, send_presence: false })
            },
            ShardEvent::GuildCreate { guild_id } => {
                let added = self.guild_ids.insert(*guild_id);
                let count = self.guild_ids.len();
                self.shard.guild_count = count as u64;
                Ok(IngressAction { save: added, send_presence: false })
            },
            ShardEvent::GuildDelete { guild_id } => {
                let removed = self.guild_ids.remove(*guild_id);
                let count = self.guild_ids.len();
                self.shard.guild_count = count as u64;
                Ok(IngressAction { save: removed, send_presence: false })
            },
            ShardEvent::HeartbeatAck => {
                self.shard.up = true;
                self.shard.last_heartbeat = now;
                match latency_ms {
                    Some(ms) => {
                        self.shard.latency = ms;
                    },
                    None => {},
                }
                Ok(IngressAction { save: true, send_presence: false })
            },
            ShardEvent::GatewayClose => {
                self.shard.up = false;
                if self.shard.disconnect_count < u64::MAX {
                    self.shard.disconnect_count = self.shard.disconnect_count + 1;
                }
                Ok(IngressAction { save: true, send_presence: false })
            },
        }
    }
}

/// The gateway opcodes.
#[derive(Debug, PartialEq, Eq, Structural, Clone, Copy)]
pub enum OpCode {
    Dispatch,
    Heartbeat,
    Identify,
    PresenceUpdate,
    VoiceStateUpdate,
    Resume,
    Reconnect,
    RequestGuildMembers,
    InvalidSession,
    Hello,
    HeartbeatAck,
}

/// The wire number of each opcode.
pub open spec fn opcode_num(op: OpCode) -> int {
    match op {
        OpCode::Dispatch => 0,
        OpCode::Heartbeat => 1,
        OpCode::Identify => 2,
        OpCode::PresenceUpdate => 3,
        OpCode::VoiceStateUpdate => 4,
        OpCode::Resume => 6,
        OpCode::Reconnect => 7,
        OpCode::RequestGuildMembers => 8,
        OpCode::InvalidSession => 9,
        OpCode::Hello => 10,
        OpCode::HeartbeatAck => 11,
    }
}

/// The opcode for a wire number, if it is one.
pub open spec fn spec_opcode_from_num(v: int) -> Option<OpCode> {
    if v == 0 {
        Some(OpCode::Dispatch)
    } else if v == 1 {
        Some(OpCode::Heartbeat)
    } else if v == 2 {
        Some(OpCode::Identify)
    } else if v == 3 {
        Some(OpCode::PresenceUpdate)
    } else if v == 4 {
        Some(OpCode::VoiceStateUpdate)
    } else if v == 6 {
        Some(OpCode::Resume)
    } else if v == 7 {
        Some(OpCode::Reconnect)
    } else if v == 8 {
        Some(OpCode::RequestGuildMembers)
    } else if v == 9 {
        Some(OpCode::InvalidSession)
    } else if v == 10 {
        Some(OpCode::Hello)
    } else if v == 11 {
        Some(OpCode::HeartbeatAck)
    } else {
        None
    }
}

/// The opcode for a wire number.
pub fn opcode_from_u64(v: u64) -> (r: Option<OpCode>)
    ensures
        r == spec_opcode_from_num(v as int),
{
    match v {
        0 => Some(OpCode::Dispatch),
        1 => Some(OpCode::Heartbeat),
        2 => Some(OpCode::Identify),
        3 => Some(OpCode::PresenceUpdate),
        4 => Some(OpCode::VoiceStateUpdate),
        6 => Some(OpCode::Resume),
        7 => Some(OpCode::Reconnect),
        8 => Some(OpCode::RequestGuildMembers),
        9 => Some(OpCode::InvalidSession),
        10 => Some(OpCode::Hello),
        11 => Some(OpCode::HeartbeatAck),
        _ => None,
    }
}

/// The key whose value the opcode scan reads.
pub open spec fn op_key() -> Seq<char> {
    seq!['"', 'o', 'p', '"', ':']
}

/// The number written after the first `"op":` in a frame: whitespace is
/// skipped, then a run of digits is read.  None when the key is missing or
/// no digit follows it.
pub open spec fn spec_frame_op_value(s: Seq<char>) -> Option<int> {
    if has_pattern(s, op_key()) {
        let j = ws_run_end(s, first_match(s, op_key()) + 5);
        let end = digit_run_end(s, j);
        if j < end {
            Some(dec_value(s.subrange(j, end)))
        } else {
            None
        }
    } else {
        None
    }
}

/// A frame that carries opcode 0, the only opcode whose frames are
/// published to the work queue.
pub open spec fn spec_is_dispatch(s: Seq<char>) -> bool {
    spec_frame_op_value(s) == Some(0int)
}

/// Reads the opcode of a raw text frame without deserializing the payload:
/// scans for the first `"op":`, skips whitespace, reads the number.  Errors
/// when there is no such key or no number after it (or the number is
/// absurdly large); an unknown opcode number is `Ok(None)`.
pub fn parse_opcode(text: &str) -> (r: Result<Option<OpCode>, IngressError>)
    ensures
        r is Err <==> (spec_frame_op_value(text@) is None || spec_frame_op_value(text@)->0
            > u64::MAX),
        r is Ok ==> r->Ok_0 == spec_opcode_from_num(spec_frame_op_value(text@)->0),
{
    proof {
        reveal_strlit("\"op\":");
        assert("\"op\":"@ =~= op_key());
    }
    let found = find_lit(text, "\"op\":");
    match found {
        None => Err(IngressError::Parse),
        Some(i) => {
            let len = text.unicode_len();
            proof {
                assert(match_at(text@, op_key(), i as int));
                lemma_first_match(text@, op_key());
                lemma_first_match_unique(
                    text@,
                    op_key(),
                    i as int,
                    first_match(text@, op_key()),
                );
            }
            let j = skip_ws(text, i + 5);
            match parse_u64_at(text, j) {
                None => {
                    proof {
                        crate::text::lemma_digit_run_end(text@, j as int);
                    }
                    Err(IngressError::Parse)
                },
                Some((v, _end)) => Ok(opcode_from_u64(v)),
            }
        },
    }
}

/// Whether a raw frame is published to the work queue: exactly the frames
/// whose opcode is 0.
pub fn should_publish(text: &str) -> (r: bool)
    ensures
        r == spec_is_dispatch(text@),
{
    match parse_opcode(text) {
        Ok(Some(op)) => op == OpCode::Dispatch,
        _ => false,
    }
}

/// The texts the ingress publishes out of a sequence of received frames, in
/// arrival order: the dispatch frames.
pub open spec fn spec_published(frames: Seq<Seq<char>>) -> Seq<Seq<char>>
    decreases frames.len(),
{
    if frames.len() == 0 {
        Seq::empty()
    } else {
        let rest = spec_published(frames.drop_last());
        if spec_is_dispatch(frames.last()) {
            rest.push(frames.last())
        } else {
            rest
        }
    }
}

/// The index in `frames` from which the `k`-th published text came.
pub open spec fn publish_src(frames: Seq<Seq<char>>, k: int) -> int
    decreases frames.len(),
{
    if frames.len() == 0 {
        0
    } else {
        let rest = spec_published(frames.drop_last());
        if spec_is_dispatch(frames.last()) && k == rest.len() {
            frames.len() - 1
        } else {
            publish_src(frames.drop_last(), k)
        }
    }
}

/// Each published text is one of the frames, at its source index, and is a
/// dispatch frame.  The opcode of every published payload is 0.
pub proof fn lemma_published_are_dispatch(frames: Seq<Seq<char>>, k: int)
    requires
        0 <= k < spec_published(frames).len(),
    ensures
        0 <= publish_src(frames, k) < frames.len(),
        frames[publish_src(frames, k)] == spec_published(frames)[k],
        spec_is_dispatch(spec_published(frames)[k]),
    decreases frames.len(),
{
    let rest = spec_published(frames.drop_last());
    if spec_is_dispatch(frames.last()) && k == rest.len() {
    } else {
        lemma_published_are_dispatch(frames.drop_last(), k);
    }
}

/// Consecutive publishes come from frames in arrival order: the second of
/// two consecutive published texts was received strictly after the first.
pub proof fn lemma_publish_order(frames: Seq<Seq<char>>, k: int)
    requires
        0 <= k,
        k + 1 < spec_published(frames).len(),
    ensures
        publish_src(frames, k) < publish_src(frames, k + 1),
    decreases frames.len(),
{
    let rest = spec_published(frames.drop_last());
    if spec_is_dispatch(frames.last()) && k + 1 == rest.len() {
        lemma_published_are_dispatch(frames.drop_last(), k);
    } else if spec_is_dispatch(frames.last()) && k + 1 == rest.len() + 1 {
        lemma_published_are_dispatch(frames.drop_last(), k);
    } else {
        lemma_publish_order(frames.drop_last(), k);
    }
}

/// Computes the texts to publish from the frames one connection received,
/// in order: exactly the dispatch frames.
pub fn published_texts(frames: &Vec<String>) -> (r: Vec<String>)
    ensures
        r.deep_view() =~= spec_published(frames.deep_view()),
{
    let n = frames.len();
    let mut out: Vec<String> = Vec::new();
    let mut i: usize = 0;
    proof {
        assert(frames.deep_view().take(0) =~= Seq::<Seq<char>>::empty());
        assert(out.deep_view() =~= Seq::<Seq<char>>::empty());
    }
    loop
        invariant
            0 <= i <= n,
            n == frames@.len(),
            frames.deep_view().len() == frames@.len(),
            forall|m: int|
                0 <= m < n ==> frames.deep_view()[m] == #[trigger] frames@[m]@,
            out.deep_view() =~= spec_published(frames.deep_view().take(i as int)),
        ensures
            out.deep_view() =~= spec_published(frames.deep_view().take(n as int)),
        decreases n - i,
    {
        if i >= n {
            break;
        }
        let ghost pre = out.deep_view();
        if should_publish(frames[i].as_str()) {
            out.push(frames[i].clone());
            proof {
                assert(out.deep_view() =~= pre.push(frames@[i as int]@));
            }
        }
        proof {
            let t = frames.deep_view().take(i as int + 1);
            assert(t.drop_last() =~= frames.deep_view().take(i as int));
            assert(t.last() == frames.deep_view()[i as int]);
        }
        i = i + 1;
    }
    proof {
        assert(frames.deep_view().take(n as int) =~= frames.deep_view());
    }
    out
}

/// The presence text announced once per process: the build version and
/// commit, with a dirty marker when the tree was modified.
pub open spec fn spec_presence(version: Seq<char>, sha: Seq<char>, dirty: bool) -> Seq<char> {
    " Version: "@ + version + " ("@ + sha + (if dirty {
        "-dirty"@
    } else {
        Seq::<char>::empty()
    }) + ")"@
}

/// Renders the version presence text.
pub fn format_presence(version: &str, sha: &str, dirty: bool) -> (r: String)
    ensures
        r@ == spec_presence(version@, sha@, dirty),
{
    let mut out = String::new();
    out.append(" Version: ");
    out.append(version);
    out.append(" (");
    out.append(sha);
    if dirty {
        out.append("-dirty");
    }
    out.append(")");
    proof {
        assert(out@ =~= spec_presence(version@, sha@, dirty));
    }
    out
}

} // verus!
