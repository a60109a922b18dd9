//! The stats commands' computations: decoding the stored shard
//! snapshots, aggregating them, and rendering the per-shard lines.

use vstd::multiset::Multiset;
use vstd::prelude::*;
use crate::codec::{decode_shard_state, spec_decode_shard_state};
use crate::duration::{format_significant_duration, spec_significant_duration};
use crate::shard_state::{spec_is_up, ShardState};
use crate::text::{append_u64, dec_digits, u64_to_string};

verus! {

broadcast use vstd::seq_lib::group_to_multiset_ensures;

/// The snapshots among the stored values that decode, in storage order.
pub open spec fn spec_decoded_shards(entries: Seq<Seq<char>>) -> Seq<ShardState>
    decreases entries.len(),
{
    if entries.len() == 0 {
        Seq::empty()
    } else {
        let rest = spec_decoded_shards(entries.drop_last());
        match spec_decode_shard_state(entries.last()) {
            Some(st) => rest.push(st),
            None => rest,
        }
    }
}

/// Decodes every stored snapshot, skipping the values that do not parse.
pub fn decode_all_shard_stats(entries: &Vec<String>) -> (r: Vec<ShardState>)
    ensures
        r@ =~= spec_decoded_shards(entries@.map_values(|s: String| s@)),
{
    let n = entries.len();
    let mut out: Vec<ShardState> = Vec::new();
    let mut i: usize = 0;
    let ghost ev = entries@.map_values(|s: String| s@);
    proof {
        assert(out@ =~= spec_decoded_shards(ev.take(0)));
    }
    loop
        invariant
            0 <= i <= n,
            n == entries@.len(),
            ev == entries@.map_values(|s: String| s@),
            out@ =~= spec_decoded_shards(ev.take(i as int)),
        ensures
            out@ =~= spec_decoded_shards(ev),
        decreases n - i,
    {
        if i >= n {
            proof {
                assert(ev.take(n as int) =~= ev);
            }
            break;
        }
        match decode_shard_state(entries[i].as_str()) {
            Some(st) => {
                out.push(st);
            },
            None => {},
        }
        proof {
            let t = ev.take(i as int + 1);
            assert(t.drop_last() =~= ev.take(i as int));
            assert(t.last() == ev[i as int]);
        }
        i = i + 1;
    }
    out
}

/// How many snapshots count as up at time `now`.
pub open spec fn spec_up_count(stats: Seq<ShardState>, now: int) -> int
    decreases stats.len(),
{
    if stats.len() == 0 {
        0
    } else {
        spec_up_count(stats.drop_last(), now) + (if spec_is_up(stats.last(), now) {
            1int
        } else {
            0int
        })
    }
}

/// The total guild count over all snapshots.
pub open spec fn spec_guild_sum(stats: Seq<ShardState>) -> int
    decreases stats.len(),
{
    if stats.len() == 0 {
        0
    } else {
        spec_guild_sum(stats.drop_last()) + stats.last().guild_count
    }
}

/// The global view the stats command renders.
#[derive(Debug, PartialEq, Eq, Structural, Clone, Copy)]
pub struct ShardStatsSummary {
    pub total_shards: u64,
    pub shards_up: u64,
    pub guild_count: u64,
}

/// Aggregates the decoded snapshots: how many shards exist, how many are
/// up at `now`, and how many guilds they serve in total (saturating).
pub fn aggregate_shard_stats(stats: &Vec<ShardState>, now: u64) -> (r: ShardStatsSummary)
    requires
        stats@.len() <= u64::MAX,
    ensures
        r.total_shards == stats@.len(),
        r.shards_up as int == spec_up_count(stats@, now as int),
        r.guild_count as int == (if spec_guild_sum(stats@) <= u64::MAX {
            spec_guild_sum(stats@)
        } else {
            u64::MAX as int
        }),
{
    let n = stats.len();
    let mut up: u64 = 0;
    let mut guilds: u64 = 0;
    let mut saturated = false;
    let mut i: usize = 0;
    proof {
        assert(stats@.take(0) =~= Seq::<ShardState>::empty());
    }
    loop
        invariant
            0 <= i <= n,
            n == stats@.len(),
            n <= u64::MAX,
            up as int == spec_up_count(stats@.take(i as int), now as int),
            up <= i,
            guilds as int == (if spec_guild_sum(stats@.take(i as int)) <= u64::MAX {
                spec_guild_sum(stats@.take(i as int))
            } else {
                u64::MAX as int
            }),
            spec_guild_sum(stats@.take(i as int)) >= 0,
        ensures
            up as int == spec_up_count(stats@, now as int),
            guilds as int == (if spec_guild_sum(stats@) <= u64::MAX {
                spec_guild_sum(stats@)
            } else {
                u64::MAX as int
            }),
        decreases n - i,
    {
        if i >= n {
            proof {
                assert(stats@.take(n as int) =~= stats@);
            }
            break;
        }
        proof {
            let t = stats@.take(i as int + 1);
            assert(t.drop_last() =~= stats@.take(i as int));
            assert(t.last() == stats@[i as int]);
        }
        if stats[i].is_up_at(now) {
            up = up + 1;
        }
        let g = stats[i].guild_count;
        if guilds > u64::MAX - g {
            guilds = u64::MAX;
        } else {
            guilds = guilds + g;
        }
        i = i + 1;
    }
    ShardStatsSummary { total_shards: n as u64, shards_up: up, guild_count: guilds }
}

/// `n` in decimal with thousands separated by commas, as the stats
/// replies render counts.
pub open spec fn spec_grouped(n: nat) -> Seq<char>
    decreases n,
{
    if n < 1000 {
        dec_digits(n)
    } else {
        spec_grouped(n / 1000) + seq![','] + spec_pad3((n % 1000) as nat)
    }
}

/// A value under a thousand, zero-padded to three digits.
pub open spec fn spec_pad3(m: nat) -> Seq<char> {
    if m < 10 {
        seq!['0', '0'] + dec_digits(m)
    } else if m < 100 {
        seq!['0'] + dec_digits(m)
    } else {
        dec_digits(m)
    }
}

/// Renders a value under a thousand zero-padded to three digits.
fn pad3(m: u64) -> (r: String)
    requires
        m < 1000,
    ensures
        r@ == spec_pad3(m as nat),
{
    proof {
        reveal_strlit("00");
        reveal_strlit("0");
    }
    if m < 10 {
        let mut s = String::new();
        s.append("00");
        append_u64(&mut s, m);
        proof {
            assert("00"@ =~= seq!['0', '0']);
            assert(s@ =~= spec_pad3(m as nat));
        }
        s
    } else if m < 100 {
        let mut s = String::new();
        s.append("0");
        append_u64(&mut s, m);
        proof {
            assert("0"@ =~= seq!['0']);
            assert(s@ =~= spec_pad3(m as nat));
        }
        s
    } else {
        u64_to_string(m)
    }
}

/// Renders `n` with thousands separators, like the formatted counts in
/// the stats replies.
pub fn format_u64_grouped(n: u64) -> (r: String)
    ensures
        r@ == spec_grouped(n as nat),
    decreases n,
{
    proof {
        reveal_strlit(",");
    }
    if n < 1000 {
        u64_to_string(n)
    } else {
        let mut s = format_u64_grouped(n / 1000);
        s.append(",");
        let tail = pad3(n % 1000);
        s.append(tail.as_str());
        proof {
            assert(","@ =~= seq![',']);
            assert(s@ =~= spec_grouped(n as nat));
        }
        s
    }
}

/// The text the shard listing shows for one shard: its latency, uptime,
/// guild count and disconnects when it is up, and "Down" otherwise.
pub open spec fn spec_shard_line(st: ShardState, now: int) -> Seq<char> {
    if spec_is_up(st, now) {
        "Latency: "@ + spec_grouped(st.latency as nat) + " ms / Uptime: "@
            + spec_significant_duration(
            (if now >= st.last_connection {
                now - st.last_connection
            } else {
                st.last_connection - now
            }) as nat,
        ) + " / Servers: "@ + spec_grouped(st.guild_count as nat) + " / Disconnects: "@
            + spec_grouped(st.disconnect_count as nat)
    } else {
        "Down"@
    }
}

/// Renders the shard listing line for one shard at time `now`.
pub fn format_shard_line(st: &ShardState, now: u64) -> (r: String)
    ensures
        r@ == spec_shard_line(*st, now as int),
{
    if !st.is_up_at(now) {
        return "Down".to_owned();
    }
    let uptime: u64 = if now >= st.last_connection {
        now - st.last_connection
    } else {
        st.last_connection - now
    };
    let mut out = String::new();
    out.append("Latency: ");
    let lat = format_u64_grouped(st.latency);
    out.append(lat.as_str());
    out.append(" ms / Uptime: ");
    let up = format_significant_duration(uptime);
    out.append(up.as_str());
    out.append(" / Servers: ");
    let servers = format_u64_grouped(st.guild_count);
    out.append(servers.as_str());
    out.append(" / Disconnects: ");
    let disc = format_u64_grouped(st.disconnect_count);
    out.append(disc.as_str());
    proof {
        assert(out@ =~= spec_shard_line(*st, now as int));
    }
    out
}

/// The snapshots in ascending shard-id order, as the shard listing shows
/// them: the same snapshots, sorted.
pub fn sort_shards_by_id(stats: &Vec<ShardState>) -> (r: Vec<ShardState>)
    ensures
        r@.len() == stats@.len(),
        r@.to_multiset() == stats@.to_multiset(),
        forall|a: int, b: int|
            0 <= a < b < r@.len() ==> (#[trigger] r@[a]).shard_id <= (#[trigger] r@[b]).shard_id,
{
    let n = stats.len();
    let mut remaining: Vec<ShardState> = Vec::new();
    let mut i: usize = 0;
    loop
        invariant
            0 <= i <= n,
            n == stats@.len(),
            remaining@ =~= stats@.take(i as int),
        ensures
            remaining@ =~= stats@,
        decreases n - i,
    {
        if i >= n {
            proof {
                assert(stats@.take(n as int) =~= stats@);
            }
            break;
        }
        remaining.push(stats[i]);
        proof {
            assert(stats@.take(i as int + 1) =~= stats@.take(i as int).push(stats@[i as int]));
        }
        i = i + 1;
    }
    let mut out: Vec<ShardState> = Vec::new();
    proof {
        assert(out@.to_multiset() =~= Multiset::<ShardState>::empty());
        assert(out@.to_multiset().add(remaining@.to_multiset()) =~= stats@.to_multiset());
    }
    loop
        invariant
            out@.len() + remaining@.len() == stats@.len(),
            out@.to_multiset().add(remaining@.to_multiset()) =~= stats@.to_multiset(),
            forall|a: int, b: int|
                0 <= a < b < out@.len() ==> (#[trigger] out@[a]).shard_id <= (
                #[trigger] out@[b]).shard_id,
            forall|a: int, m: int|
                0 <= a < out@.len() && 0 <= m < remaining@.len() ==> (
                #[trigger] out@[a]).shard_id <= (#[trigger] remaining@[m]).shard_id,
        ensures
            remaining@.len() == 0,
            out@.len() == stats@.len(),
            out@.to_multiset().add(remaining@.to_multiset()) =~= stats@.to_multiset(),
            forall|a: int, b: int|
                0 <= a < b < out@.len() ==> (#[trigger] out@[a]).shard_id <= (
                #[trigger] out@[b]).shard_id,
        decreases remaining@.len(),
    {
        let rn = remaining.len();
        if rn == 0 {
            break;
        }
        // the smallest remaining shard id
        let mut best: usize = 0;
        let mut m: usize = 1;
        loop
            invariant
                0 <= best < rn,
                1 <= m <= rn,
                rn == remaining@.len(),
                forall|q: int|
                    0 <= q < m ==> remaining@[best as int].shard_id <= (
                    #[trigger] remaining@[q]).shard_id,
            ensures
                0 <= best < rn,
                forall|q: int|
                    0 <= q < rn ==> remaining@[best as int].shard_id <= (
                    #[trigger] remaining@[q]).shard_id,
            decreases rn - m,
        {
            if m >= rn {
                break;
            }
            if remaining[m].shard_id < remaining[best].shard_id {
                best = m;
            }
            m = m + 1;
        }
        let ghost rempre = remaining@;
        let ghost outpre = out@;
        let x = remaining.remove(best);
        out.push(x);
        proof {
            assert(rempre.contains(x)) by {
                assert(rempre[best as int] == x);
            }
            assert(rempre.to_multiset().count(x) > 0);
            assert(out@ == outpre.push(x));
            assert(outpre.push(x).to_multiset() =~= outpre.to_multiset().insert(x));
            assert(remaining@ == rempre.remove(best as int));
            assert(rempre.remove(best as int).to_multiset() == rempre.to_multiset().remove(
                rempre[best as int],
            ));
            assert(out@.to_multiset().add(remaining@.to_multiset()) =~= stats@.to_multiset());
            // the popped minimum keeps both orderings
            assert forall|a: int, q: int|
                0 <= a < out@.len() && 0 <= q < remaining@.len() implies (
            #[trigger] out@[a]).shard_id <= (#[trigger] remaining@[q]).shard_id by {
                let q0 = if q < best {
                    q
                } else {
                    q + 1
                };
                assert(remaining@[q] == rempre[q0]);
                if a < outpre.len() {
                    assert(out@[a] == outpre[a]);
                } else {
                    assert(out@[a] == x);
                }
            }
        }
    }
    out
}

} // verus!
