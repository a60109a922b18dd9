//! The JSON codec for the key-value records: shard snapshots and process
//! metrics are written as fixed-shape JSON objects and read back exactly.
//! Decoding accepts precisely the encoder's output, so the two are
//! round-trippable bit for bit.

use vstd::prelude::*;
use crate::metrics::{ProcessMetrics, ProcessMetricsV};
use crate::shard_state::ShardState;
use crate::text::{
    append_u64, dec_digits, dec_value, digit_run_end, digit_val, is_dec_digit,
    lemma_dec_digits_wf, lemma_dec_value_append, lemma_dec_value_nonneg,
    lemma_dec_value_of_digits, lemma_digit_run_end, lemma_digit_run_end_unique, lemma_pow10_pos,
    parse_u64_at, pow10,
};

verus! {

/// Reads a literal off the front of `t`.
pub open spec fn spec_expect(t: Seq<char>, lit: Seq<char>) -> Option<Seq<char>> {
    if t.len() >= lit.len() && t.take(lit.len() as int) == lit {
        Some(t.skip(lit.len() as int))
    } else {
        None
    }
}

/// A literal at the front of a concatenation is read off whole.
pub proof fn lemma_expect_canonical(lit: Seq<char>, rest: Seq<char>)
    ensures
        spec_expect(lit + rest, lit) == Some(rest),
{
    assert((lit + rest).take(lit.len() as int) =~= lit);
    assert((lit + rest).skip(lit.len() as int) =~= rest);
}

/// Reads a number off the front of `t`: a maximal, nonempty digit run
/// with no leading zero, whose value fits in `u64`.
pub open spec fn spec_read_num(t: Seq<char>) -> Option<(u64, Seq<char>)> {
    let end = digit_run_end(t, 0);
    if end > 0 && dec_value(t.take(end)) <= u64::MAX && (end == 1 || t[0] != '0') {
        Some(((dec_value(t.take(end)) as u64), t.skip(end)))
    } else {
        None
    }
}

/// The rendering of any `u64` followed by a non-digit is read back as that
/// number.
pub proof fn lemma_read_num_canonical(n: u64, rest: Seq<char>)
    requires
        rest.len() == 0 || !is_dec_digit(rest[0]),
    ensures
        spec_read_num(dec_digits(n as nat) + rest) == Some((n, rest)),
{
    let d = dec_digits(n as nat);
    let t = d + rest;
    lemma_dec_digits_wf(n as nat);
    assert(t.take(d.len() as int) =~= d);
    assert(t.skip(d.len() as int) =~= rest);
    assert forall|m: int| 0 <= m < d.len() implies is_dec_digit(#[trigger] t[m]) by {
        assert(t[m] == d[m]);
    }
    lemma_digit_run_end_unique(t, 0, d.len() as int);
    lemma_dec_value_of_digits(n as nat);
    // no leading zero unless the number is zero itself
    if d.len() > 1 {
        assert(t[0] == d[0]);
        lemma_leading_digit_nonzero(n as nat);
    }
}

/// A multi-digit rendering never starts with a zero.
proof fn lemma_leading_digit_nonzero(n: nat)
    requires
        dec_digits(n).len() > 1,
    ensures
        dec_digits(n)[0] != '0',
    decreases n,
{
    if n >= 10 {
        lemma_dec_digits_wf(n / 10);
        if n / 10 >= 10 {
            lemma_dec_digits_wf(n / 100);
            assert(dec_digits(n / 10).len() > 1);
            lemma_leading_digit_nonzero(n / 10);
            assert(dec_digits(n)[0] == dec_digits(n / 10)[0]);
        } else {
            assert(dec_digits(n / 10) =~= seq![crate::text::digit_char((n / 10) as int)]);
            assert(dec_digits(n)[0] == crate::text::digit_char((n / 10) as int));
            assert(n / 10 >= 1);
            assert(crate::text::digit_char((n / 10) as int) as int == n / 10 + 48);
            assert('0' as int == 48);
        }
    }
}

/// A no-leading-zero digit run is the canonical rendering of its value.
pub proof fn lemma_digits_canonical(d: Seq<char>)
    requires
        d.len() >= 1,
        forall|m: int| 0 <= m < d.len() ==> is_dec_digit(#[trigger] d[m]),
        d.len() == 1 || d[0] != '0',
        dec_value(d) <= u64::MAX,
    ensures
        d =~= dec_digits(dec_value(d) as nat),
    decreases d.len(),
{
    if d.len() == 1 {
        assert(dec_value(d) == dec_value(d.drop_last()) * 10 + digit_val(d.last()));
        assert(d.drop_last() =~= Seq::<char>::empty());
        assert(dec_value(d) == digit_val(d[0]));
        assert(dec_digits(dec_value(d) as nat) =~= seq![
            crate::text::digit_char(dec_value(d)),
        ]);
        assert(crate::text::digit_char(dec_value(d)) as int == d[0] as int);
        assert(crate::text::digit_char(dec_value(d)) == d[0]);
    } else {
        let dp = d.drop_last();
        assert(forall|m: int| 0 <= m < dp.len() ==> is_dec_digit(#[trigger] dp[m]));
        lemma_dec_value_nonneg(dp);
        assert(dec_value(d) == dec_value(dp) * 10 + digit_val(d.last()));
        assert(0 <= digit_val(d.last()) <= 9);
        assert(dec_value(dp) <= u64::MAX) by (nonlinear_arith)
            requires
                dec_value(dp) * 10 + digit_val(d.last()) <= u64::MAX,
                dec_value(dp) >= 0,
                digit_val(d.last()) >= 0,
        ;
        // the prefix value is at least one, so its rendering recurses
        assert(dp[0] != '0');
        lemma_prefix_value_positive(dp);
        lemma_digits_canonical(dp);
        let v = dec_value(d);
        assert(v >= 10) by (nonlinear_arith)
            requires
                v == dec_value(dp) * 10 + digit_val(d.last()),
                dec_value(dp) >= 1,
                digit_val(d.last()) >= 0,
        ;
        assert(v / 10 == dec_value(dp) && v % 10 == digit_val(d.last())) by (nonlinear_arith)
            requires
                v == dec_value(dp) * 10 + digit_val(d.last()),
                0 <= digit_val(d.last()) <= 9,
        ;
        assert(dec_digits(v as nat) == dec_digits((v as nat) / 10) + seq![
            crate::text::digit_char(((v as nat) % 10) as int),
        ]);
        assert(crate::text::digit_char(v % 10) as int == d.last() as int);
        assert(crate::text::digit_char(v % 10) == d.last());
        assert(d =~= dp + seq![d.last()]);
    }
}

/// A digit run that does not start with zero has a positive value.
proof fn lemma_prefix_value_positive(d: Seq<char>)
    requires
        d.len() >= 1,
        forall|m: int| 0 <= m < d.len() ==> is_dec_digit(#[trigger] d[m]),
        d[0] != '0',
    ensures
        dec_value(d) >= 1,
{
    let first = d.take(1);
    let rest = d.skip(1);
    assert(d =~= first + rest);
    lemma_dec_value_append(first, rest);
    assert(dec_value(first) == dec_value(first.drop_last()) * 10 + digit_val(first.last()));
    assert(first.drop_last() =~= Seq::<char>::empty());
    assert(is_dec_digit(d[0]));
    assert(digit_val(d[0]) >= 1);
    assert(forall|m: int| 0 <= m < rest.len() ==> is_dec_digit(#[trigger] rest[m]));
    lemma_dec_value_nonneg(rest);
    lemma_pow10_pos(rest.len());
    assert(dec_value(first) * pow10(rest.len()) >= 1) by (nonlinear_arith)
        requires
            dec_value(first) >= 1,
            pow10(rest.len()) >= 1,
    ;
}

/// Checks that `lit` stands at character position `pos` of `s`, returning
/// the position after it.
pub fn expect_lit(s: &str, pos: usize, lit: &str) -> (r: Option<usize>)
    requires
        pos <= s@.len(),
    ensures
        r == match spec_expect(s@.skip(pos as int), lit@) {
            Some(rest) => Some::<usize>((pos + lit@.len()) as usize),
            None => None::<usize>,
        },
        r is Some ==> pos + lit@.len() <= s@.len() && r->0 as int == pos + lit@.len()
            && s@.skip(pos as int).take(lit@.len() as int) == lit@ && s@.skip(r->0 as int)
            == spec_expect(s@.skip(pos as int), lit@)->0,
{
    let slen = s.unicode_len();
    let llen = lit.unicode_len();
    if llen > slen - pos {
        return None;
    }
    let mut k: usize = 0;
    loop
        invariant
            0 <= k <= llen,
            pos + llen <= slen,
            slen == s@.len(),
            llen == lit@.len(),
            forall|m: int| 0 <= m < k ==> s@[pos + m] == lit@[m],
        ensures
            k <= llen,
            forall|m: int| 0 <= m < k ==> s@[pos + m] == lit@[m],
            k < llen ==> s@[pos + k] != lit@[k as int],
        decreases llen - k,
    {
        if k >= llen {
            break;
        }
        if s.get_char(pos + k) != lit.get_char(k) {
            break;
        }
        k = k + 1;
    }
    if k >= llen {
        proof {
            assert(s@.skip(pos as int).take(llen as int) =~= lit@);
            assert(s@.skip(pos as int).skip(llen as int) =~= s@.skip(pos + llen));
        }
        Some(pos + llen)
    } else {
        proof {
            if s@.skip(pos as int).len() >= llen && s@.skip(pos as int).take(llen as int)
                == lit@ {
                assert(s@.skip(pos as int).take(llen as int)[k as int] == s@[pos + k]);
            }
        }
        None
    }
}

/// Reads a number at character position `pos` of `s` as `spec_read_num`
/// does on the suffix.
pub fn read_num(s: &str, pos: usize) -> (r: Option<(u64, usize)>)
    requires
        pos <= s@.len(),
    ensures
        r is Some ==> {
            let (v, end) = r->0;
            &&& spec_read_num(s@.skip(pos as int)) is Some
            &&& (spec_read_num(s@.skip(pos as int))->0).0 == v
            &&& pos < end <= s@.len()
            &&& s@.skip(end as int) == (spec_read_num(s@.skip(pos as int))->0).1
        },
        r is None ==> spec_read_num(s@.skip(pos as int)) is None,
{
    proof {
        lemma_digit_run_end_shift(s@, pos as int);
    }
    let first_zero: bool = if pos < s.unicode_len() {
        s.get_char(pos) == '0'
    } else {
        false
    };
    match parse_u64_at(s, pos) {
        None => {
            proof {
                let t = s@.skip(pos as int);
                lemma_digit_run_end(t, 0);
                if spec_read_num(t) is Some {
                    let end = digit_run_end(t, 0);
                    assert(t.take(end) =~= s@.subrange(pos as int, pos + end));
                    assert(end > 0 ==> is_dec_digit(t[0]) && t[0] == s@[pos as int]);
                }
            }
            None
        },
        Some((v, end)) => {
            if first_zero && end > pos + 1 {
                proof {
                    let t = s@.skip(pos as int);
                    assert(t[0] == s@[pos as int]);
                    assert('0' as int == 48);
                }
                return None;
            }
            proof {
                let t = s@.skip(pos as int);
                let tend = digit_run_end(t, 0);
                assert(tend == end - pos);
                assert(t.take(tend) =~= s@.subrange(pos as int, end as int));
                assert(t.skip(tend) =~= s@.skip(end as int));
                lemma_digit_run_end(t, 0);
                assert(tend > 0);
                if tend > 1 {
                    assert(t[0] == s@[pos as int]);
                    assert(t[0] != '0');
                }
            }
            Some((v, end))
        },
    }
}

/// The digit run of a suffix is the digit run at the offset.
proof fn lemma_digit_run_end_shift(s: Seq<char>, pos: int)
    requires
        0 <= pos <= s.len(),
    ensures
        digit_run_end(s, pos) - pos == digit_run_end(s.skip(pos), 0),
{
    let t = s.skip(pos);
    lemma_digit_run_end(s, pos);
    let e = digit_run_end(s, pos);
    assert forall|m: int| 0 <= m < e - pos implies is_dec_digit(#[trigger] t[m]) by {
        assert(t[m] == s[pos + m]);
    }
    if e - pos < t.len() {
        assert(t[e - pos] == s[e]);
    }
    lemma_digit_run_end_unique(t, 0, e - pos);
}

/// The rendering of a boolean.
pub open spec fn spec_bool_str(b: bool) -> Seq<char> {
    if b {
        "true"@
    } else {
        "false"@
    }
}

/// Reads a boolean off the front of `t`.
pub open spec fn spec_read_bool(t: Seq<char>) -> Option<(bool, Seq<char>)> {
    if spec_expect(t, "true"@) is Some {
        Some((true, spec_expect(t, "true"@)->0))
    } else if spec_expect(t, "false"@) is Some {
        Some((false, spec_expect(t, "false"@)->0))
    } else {
        None
    }
}

/// The rendering of a boolean is read back as that boolean.
pub proof fn lemma_read_bool_canonical(b: bool, rest: Seq<char>)
    ensures
        spec_read_bool(spec_bool_str(b) + rest) == Some((b, rest)),
{
    reveal_strlit("true");
    reveal_strlit("false");
    lemma_expect_canonical(spec_bool_str(b), rest);
    if b {
    } else {
        let t = spec_bool_str(b) + rest;
        if spec_expect(t, "true"@) is Some {
            assert(t.take(4)[0] == 'f');
            assert(false);
        }
    }
}

/// Reads a boolean at character position `pos` of `s`.
pub fn read_bool(s: &str, pos: usize) -> (r: Option<(bool, usize)>)
    requires
        pos <= s@.len(),
    ensures
        r is Some ==> {
            let (v, end) = r->0;
            &&& spec_read_bool(s@.skip(pos as int)) is Some
            &&& (spec_read_bool(s@.skip(pos as int))->0).0 == v
            &&& pos < end <= s@.len()
            &&& s@.skip(end as int) == (spec_read_bool(s@.skip(pos as int))->0).1
        },
        r is None ==> spec_read_bool(s@.skip(pos as int)) is None,
{
    proof {
        reveal_strlit("true");
        reveal_strlit("false");
    }
    let r1 = expect_lit(s, pos, "true");
    match r1 {
        Some(end) => {
            proof {
                assert("true"@.len() == 4);
                assert(spec_read_bool(s@.skip(pos as int)) is Some);
            }
            Some((true, end))
        },
        None => {
            let r2 = expect_lit(s, pos, "false");
            match r2 {
                Some(end) => {
                    proof {
                        assert("false"@.len() == 5);
                        assert(spec_read_bool(s@.skip(pos as int)) is Some);
                    }
                    Some((false, end))
                },
                None => None,
            }
        },
    }
}

/// The tail of the stored JSON from the guild count on.
pub open spec fn spec_enc_tail1(st: ShardState) -> Seq<char> {
    ",\"guild_count\":"@ + dec_digits(st.guild_count as nat) + spec_enc_tail2(st)
}

pub open spec fn spec_enc_tail2(st: ShardState) -> Seq<char> {
    ",\"up\":"@ + spec_bool_str(st.up) + spec_enc_tail3(st)
}

pub open spec fn spec_enc_tail3(st: ShardState) -> Seq<char> {
    ",\"disconnect_count\":"@ + dec_digits(st.disconnect_count as nat) + spec_enc_tail4(st)
}

pub open spec fn spec_enc_tail4(st: ShardState) -> Seq<char> {
    ",\"latency\":"@ + dec_digits(st.latency as nat) + spec_enc_tail5(st)
}

pub open spec fn spec_enc_tail5(st: ShardState) -> Seq<char> {
    ",\"heartbeat_interval\":"@ + dec_digits(st.heartbeat_interval as nat) + spec_enc_tail6(st)
}

pub open spec fn spec_enc_tail6(st: ShardState) -> Seq<char> {
    ",\"last_started\":"@ + dec_digits(st.last_started as nat) + spec_enc_tail7(st)
}

pub open spec fn spec_enc_tail7(st: ShardState) -> Seq<char> {
    ",\"last_heartbeat\":"@ + dec_digits(st.last_heartbeat as nat) + spec_enc_tail8(st)
}

pub open spec fn spec_enc_tail8(st: ShardState) -> Seq<char> {
    ",\"last_connection\":"@ + dec_digits(st.last_connection as nat) + "}"@
}

/// The exact JSON text a shard snapshot is stored as.
pub open spec fn spec_encode_shard_state(st: ShardState) -> Seq<char> {
    "{\"shard_id\":"@ + dec_digits(st.shard_id as nat) + spec_enc_tail1(st)
}

/// Encodes a shard snapshot as its JSON text.
#[verifier::rlimit(100)]
pub fn encode_shard_state(st: &ShardState) -> (r: String)
    ensures
        r@ == spec_encode_shard_state(*st),
{
    let mut out = String::new();
    out.append("{\"shard_id\":");
    append_u64(&mut out, st.shard_id as u64);
    out.append(",\"guild_count\":");
    append_u64(&mut out, st.guild_count);
    out.append(",\"up\":");
    if st.up {
        out.append("true");
    } else {
        out.append("false");
    }
    out.append(",\"disconnect_count\":");
    append_u64(&mut out, st.disconnect_count);
    out.append(",\"latency\":");
    append_u64(&mut out, st.latency);
    out.append(",\"heartbeat_interval\":");
    append_u64(&mut out, st.heartbeat_interval);
    out.append(",\"last_started\":");
    append_u64(&mut out, st.last_started);
    out.append(",\"last_heartbeat\":");
    append_u64(&mut out, st.last_heartbeat);
    out.append(",\"last_connection\":");
    append_u64(&mut out, st.last_connection);
    out.append("}");
    proof {
        assert(out@ =~= spec_encode_shard_state(*st));
    }
    out
}

/// The spec-level strict reading of a snapshot's JSON text: exactly the
/// encoder's outputs are accepted.  Each stage reads one field.
pub open spec fn spec_decode_shard_state(t: Seq<char>) -> Option<ShardState> {
    spec_decode_stage0(t)
}

pub open spec fn spec_decode_stage0(t: Seq<char>) -> Option<ShardState> {
    match spec_expect(t, "{\"shard_id\":"@) {
        None => None,
        Some(t2) => match spec_read_num(t2) {
            None => None,
            Some((shard_id64, rest)) => spec_decode_stage1(rest, shard_id64),
        },
    }
}

pub open spec fn spec_decode_stage1(t: Seq<char>, shard_id64: u64) -> Option<ShardState> {
    match spec_expect(t, ",\"guild_count\":"@) {
        None => None,
        Some(t2) => match spec_read_num(t2) {
            None => None,
            Some((guild_count, rest)) => spec_decode_stage2(rest, shard_id64, guild_count),
        },
    }
}

pub open spec fn spec_decode_stage2(t: Seq<char>, shard_id64: u64, guild_count: u64) -> Option<ShardState> {
    match spec_expect(t, ",\"up\":"@) {
        None => None,
        Some(t2) => match spec_read_bool(t2) {
            None => None,
            Some((up, rest)) => spec_decode_stage3(rest, shard_id64, guild_count, up),
        },
    }
}

pub open spec fn spec_decode_stage3(t: Seq<char>, shard_id64: u64, guild_count: u64, up: bool) -> Option<ShardState> {
    match spec_expect(t, ",\"disconnect_count\":"@) {
        None => None,
        Some(t2) => match spec_read_num(t2) {
            None => None,
            Some((disconnect_count, rest)) => spec_decode_stage4(rest, shard_id64, guild_count, up, disconnect_count),
        },
    }
}

pub open spec fn spec_decode_stage4(t: Seq<char>, shard_id64: u64, guild_count: u64, up: bool, disconnect_count: u64) -> Option<ShardState> {
    match spec_expect(t, ",\"latency\":"@) {
        None => None,
        Some(t2) => match spec_read_num(t2) {
            None => None,
            Some((latency, rest)) => spec_decode_stage5(rest, shard_id64, guild_count, up, disconnect_count, latency),
        },
    }
}

pub open spec fn spec_decode_stage5(t: Seq<char>, shard_id64: u64, guild_count: u64, up: bool, disconnect_count: u64, latency: u64) -> Option<ShardState> {
    match spec_expect(t, ",\"heartbeat_interval\":"@) {
        None => None,
        Some(t2) => match spec_read_num(t2) {
            None => None,
            Some((heartbeat_interval, rest)) => spec_decode_stage6(rest, shard_id64, guild_count, up, disconnect_count, latency, heartbeat_interval),
        },
    }
}

pub open spec fn spec_decode_stage6(t: Seq<char>, shard_id64: u64, guild_count: u64, up: bool, disconnect_count: u64, latency: u64, heartbeat_interval: u64) -> Option<ShardState> {
    match spec_expect(t, ",\"last_started\":"@) {
        None => None,
        Some(t2) => match spec_read_num(t2) {
            None => None,
            Some((last_started, rest)) => spec_decode_stage7(rest, shard_id64, guild_count, up, disconnect_count, latency, heartbeat_interval, last_started),
        },
    }
}

pub open spec fn spec_decode_stage7(t: Seq<char>, shard_id64: u64, guild_count: u64, up: bool, disconnect_count: u64, latency: u64, heartbeat_interval: u64, last_started: u64) -> Option<ShardState> {
    match spec_expect(t, ",\"last_heartbeat\":"@) {
        None => None,
        Some(t2) => match spec_read_num(t2) {
            None => None,
            Some((last_heartbeat, rest)) => spec_decode_stage8(rest, shard_id64, guild_count, up, disconnect_count, latency, heartbeat_interval, last_started, last_heartbeat),
        },
    }
}

pub open spec fn spec_decode_stage8(t: Seq<char>, shard_id64: u64, guild_count: u64, up: bool, disconnect_count: u64, latency: u64, heartbeat_interval: u64, last_started: u64, last_heartbeat: u64) -> Option<ShardState> {
    match spec_expect(t, ",\"last_connection\":"@) {
        None => None,
        Some(t2) => match spec_read_num(t2) {
            None => None,
            Some((last_connection, rest)) => spec_decode_stage9(rest, shard_id64, guild_count, up, disconnect_count, latency, heartbeat_interval, last_started, last_heartbeat, last_connection),
        },
    }
}

pub open spec fn spec_decode_stage9(t: Seq<char>, shard_id64: u64, guild_count: u64, up: bool, disconnect_count: u64, latency: u64, heartbeat_interval: u64, last_started: u64, last_heartbeat: u64, last_connection: u64) -> Option<ShardState> {
    if shard_id64 > u32::MAX {
        None
    } else {
        match spec_expect(t, "}"@) {
            None => None,
            Some(rest) => if rest.len() == 0 {
                Some(
                    ShardState {
                        shard_id: shard_id64 as u32,
                        guild_count,
                        up,
                        disconnect_count,
                        latency,
                        heartbeat_interval,
                        last_started,
                        last_heartbeat,
                        last_connection,
                    },
                )
            } else {
                None
            },
        }
    }
}

/// Decoding what was encoded gives the snapshot back: the JSON form of a
/// shard snapshot is round-trippable bit for bit.
#[verifier::rlimit(100)]
pub proof fn lemma_shard_state_round_trip(st: ShardState)
    ensures
        spec_decode_shard_state(spec_encode_shard_state(st)) == Some(st),
{
    reveal_strlit("{\"shard_id\":");
    reveal_strlit(",\"guild_count\":");
    reveal_strlit(",\"up\":");
    reveal_strlit(",\"disconnect_count\":");
    reveal_strlit(",\"latency\":");
    reveal_strlit(",\"heartbeat_interval\":");
    reveal_strlit(",\"last_started\":");
    reveal_strlit(",\"last_heartbeat\":");
    reveal_strlit(",\"last_connection\":");
    reveal_strlit("}");
    reveal_strlit("true");
    reveal_strlit("false");
    let t = spec_encode_shard_state(st);
    assert(t =~= "{\"shard_id\":"@ + (dec_digits(st.shard_id as nat) + spec_enc_tail1(st)));
    lemma_expect_canonical("{\"shard_id\":"@, dec_digits(st.shard_id as nat) + spec_enc_tail1(st));
    assert(spec_enc_tail1(st)[0] == ',');
    lemma_read_num_canonical(st.shard_id as u64, spec_enc_tail1(st));
    assert(spec_enc_tail1(st) =~= ",\"guild_count\":"@ + (dec_digits(st.guild_count as nat)
        + spec_enc_tail2(st)));
    lemma_expect_canonical(",\"guild_count\":"@, dec_digits(st.guild_count as nat)
        + spec_enc_tail2(st));
    assert(spec_enc_tail2(st)[0] == ',');
    lemma_read_num_canonical(st.guild_count, spec_enc_tail2(st));
    assert(spec_enc_tail2(st) =~= ",\"up\":"@ + (spec_bool_str(st.up) + spec_enc_tail3(st)));
    lemma_expect_canonical(",\"up\":"@, spec_bool_str(st.up) + spec_enc_tail3(st));
    lemma_read_bool_canonical(st.up, spec_enc_tail3(st));
    assert(spec_enc_tail3(st) =~= ",\"disconnect_count\":"@ + (dec_digits(
        st.disconnect_count as nat,
    ) + spec_enc_tail4(st)));
    lemma_expect_canonical(",\"disconnect_count\":"@, dec_digits(st.disconnect_count as nat)
        + spec_enc_tail4(st));
    assert(spec_enc_tail4(st)[0] == ',');
    lemma_read_num_canonical(st.disconnect_count, spec_enc_tail4(st));
    assert(spec_enc_tail4(st) =~= ",\"latency\":"@ + (dec_digits(st.latency as nat)
        + spec_enc_tail5(st)));
    lemma_expect_canonical(",\"latency\":"@, dec_digits(st.latency as nat) + spec_enc_tail5(st));
    assert(spec_enc_tail5(st)[0] == ',');
    lemma_read_num_canonical(st.latency, spec_enc_tail5(st));
    assert(spec_enc_tail5(st) =~= ",\"heartbeat_interval\":"@ + (dec_digits(
        st.heartbeat_interval as nat,
    ) + spec_enc_tail6(st)));
    lemma_expect_canonical(",\"heartbeat_interval\":"@, dec_digits(st.heartbeat_interval as nat)
        + spec_enc_tail6(st));
    assert(spec_enc_tail6(st)[0] == ',');
    lemma_read_num_canonical(st.heartbeat_interval, spec_enc_tail6(st));
    assert(spec_enc_tail6(st) =~= ",\"last_started\":"@ + (dec_digits(st.last_started as nat)
        + spec_enc_tail7(st)));
    lemma_expect_canonical(",\"last_started\":"@, dec_digits(st.last_started as nat)
        + spec_enc_tail7(st));
    assert(spec_enc_tail7(st)[0] == ',');
    lemma_read_num_canonical(st.last_started, spec_enc_tail7(st));
    assert(spec_enc_tail7(st) =~= ",\"last_heartbeat\":"@ + (dec_digits(st.last_heartbeat as nat)
        + spec_enc_tail8(st)));
    lemma_expect_canonical(",\"last_heartbeat\":"@, dec_digits(st.last_heartbeat as nat)
        + spec_enc_tail8(st));
    assert(spec_enc_tail8(st)[0] == ',');
    lemma_read_num_canonical(st.last_heartbeat, spec_enc_tail8(st));
    assert(spec_enc_tail8(st) =~= ",\"last_connection\":"@ + (dec_digits(
        st.last_connection as nat,
    ) + ("}"@ + Seq::<char>::empty())));
    lemma_expect_canonical(",\"last_connection\":"@, dec_digits(st.last_connection as nat) + (
    "}"@ + Seq::<char>::empty()));
    assert(("}"@ + Seq::<char>::empty())[0] == '}');
    lemma_read_num_canonical(st.last_connection, "}"@ + Seq::<char>::empty());
    lemma_expect_canonical("}"@, Seq::<char>::empty());
    assert(st.shard_id as u64 <= u32::MAX);
    assert((st.shard_id as u64) as u32 == st.shard_id);
}

/// A rendered number followed by a literal that starts with a non-digit
/// is read back as the number with the literal left over.
proof fn lemma_num_then_lit(n: u64, lit_and_rest: Seq<char>, first: char)
    requires
        lit_and_rest.len() > 0,
        lit_and_rest[0] == first,
        !is_dec_digit(first),
    ensures
        spec_read_num(dec_digits(n as nat) + lit_and_rest) == Some((n, lit_and_rest)),
{
    lemma_read_num_canonical(n, lit_and_rest);
}

/// Decodes the JSON text of a shard snapshot, accepting exactly the
/// encoder's outputs.
#[verifier::rlimit(100)]
pub fn decode_shard_state(s: &str) -> (r: Option<ShardState>)
    ensures
        r == spec_decode_shard_state(s@),
{
    proof {
        assert(s@.skip(0) =~= s@);
    }
    let p0 = match expect_lit(s, 0, "{\"shard_id\":") {
        Some(p) => p,
        None => {
            return None;
        },
    };
    let (shard_id64, p1) = match read_num(s, p0) {
        Some(v) => v,
        None => {
            return None;
        },
    };
    let p2 = match expect_lit(s, p1, ",\"guild_count\":") {
        Some(p) => p,
        None => {
            return None;
        },
    };
    let (guild_count, p3) = match read_num(s, p2) {
        Some(v) => v,
        None => {
            return None;
        },
    };
    let p4 = match expect_lit(s, p3, ",\"up\":") {
        Some(p) => p,
        None => {
            return None;
        },
    };
    let (up, p5) = match read_bool(s, p4) {
        Some(v) => v,
        None => {
            return None;
        },
    };
    let p6 = match expect_lit(s, p5, ",\"disconnect_count\":") {
        Some(p) => p,
        None => {
            return None;
        },
    };
    let (disconnect_count, p7) = match read_num(s, p6) {
        Some(v) => v,
        None => {
            return None;
        },
    };
    let p8 = match expect_lit(s, p7, ",\"latency\":") {
        Some(p) => p,
        None => {
            return None;
        },
    };
    let (latency, p9) = match read_num(s, p8) {
        Some(v) => v,
        None => {
            return None;
        },
    };
    let p10 = match expect_lit(s, p9, ",\"heartbeat_interval\":") {
        Some(p) => p,
        None => {
            return None;
        },
    };
    let (heartbeat_interval, p11) = match read_num(s, p10) {
        Some(v) => v,
        None => {
            return None;
        },
    };
    let p12 = match expect_lit(s, p11, ",\"last_started\":") {
        Some(p) => p,
        None => {
            return None;
        },
    };
    let (last_started, p13) = match read_num(s, p12) {
        Some(v) => v,
        None => {
            return None;
        },
    };
    let p14 = match expect_lit(s, p13, ",\"last_heartbeat\":") {
        Some(p) => p,
        None => {
            return None;
        },
    };
    let (last_heartbeat, p15) = match read_num(s, p14) {
        Some(v) => v,
        None => {
            return None;
        },
    };
    let p16 = match expect_lit(s, p15, ",\"last_connection\":") {
        Some(p) => p,
        None => {
            return None;
        },
    };
    let (last_connection, p17) = match read_num(s, p16) {
        Some(v) => v,
        None => {
            return None;
        },
    };
    let p18 = match expect_lit(s, p17, "}") {
        Some(p) => p,
        None => {
            return None;
        },
    };
    if shard_id64 > u32::MAX as u64 {
        return None;
    }
    if p18 != s.unicode_len() {
        proof {
            assert(s@.skip(p18 as int).len() == s@.len() - p18);
        }
        return None;
    }
    proof {
        assert(s@.skip(p18 as int).len() == 0);
    }
    Some(
        ShardState {
            shard_id: shard_id64 as u32,
            guild_count,
            up,
            disconnect_count,
            latency,
            heartbeat_interval,
            last_started,
            last_heartbeat,
            last_connection,
        },
    )
}

/// A character that is stored in a JSON string without escaping.
pub open spec fn is_plain_char(c: char) -> bool {
    c != '"' && c != '\\' && c as int >= 32
}

/// Every character of the name is stored plainly.  The names this library
/// writes, such as "gateway-3", all are.
pub open spec fn spec_plain_name(name: Seq<char>) -> bool {
    forall|i: int| 0 <= i < name.len() ==> is_plain_char(#[trigger] name[i])
}

/// One past the run of plain characters starting at `pos`.
pub open spec fn plain_run_end(t: Seq<char>, pos: int) -> int
    decreases t.len() - pos when 0 <= pos <= t.len()
{
    if pos < t.len() && is_plain_char(t[pos]) {
        plain_run_end(t, pos + 1)
    } else {
        pos
    }
}

proof fn lemma_plain_run_end(t: Seq<char>, pos: int)
    requires
        0 <= pos <= t.len(),
    ensures
        pos <= plain_run_end(t, pos) <= t.len(),
        forall|m: int| pos <= m < plain_run_end(t, pos) ==> is_plain_char(#[trigger] t[m]),
        plain_run_end(t, pos) == t.len() || !is_plain_char(t[plain_run_end(t, pos)]),
    decreases t.len() - pos,
{
    if pos < t.len() && is_plain_char(t[pos]) {
        lemma_plain_run_end(t, pos + 1);
    }
}

proof fn lemma_plain_run_end_unique(t: Seq<char>, pos: int, i: int)
    requires
        0 <= pos <= i <= t.len(),
        forall|m: int| pos <= m < i ==> is_plain_char(#[trigger] t[m]),
        i == t.len() || !is_plain_char(t[i]),
    ensures
        plain_run_end(t, pos) == i,
    decreases i - pos,
{
    if pos < i {
        lemma_plain_run_end_unique(t, pos + 1, i);
    }
}

/// Reads a plain string off the front of `t`, up to a closing quote (which
/// is left in place for the following literal).
pub open spec fn spec_read_str(t: Seq<char>) -> Option<(Seq<char>, Seq<char>)> {
    let end = plain_run_end(t, 0);
    if end < t.len() && t[end] == '"' {
        Some((t.take(end), t.skip(end)))
    } else {
        None
    }
}

/// A plain name followed by a quote is read back whole.
pub proof fn lemma_read_str_canonical(name: Seq<char>, rest: Seq<char>)
    requires
        spec_plain_name(name),
        rest.len() > 0,
        rest[0] == '"',
    ensures
        spec_read_str(name + rest) == Some((name, rest)),
{
    let t = name + rest;
    assert forall|m: int| 0 <= m < name.len() implies is_plain_char(#[trigger] t[m]) by {
        assert(t[m] == name[m]);
    }
    assert(t[name.len() as int] == rest[0]);
    lemma_plain_run_end_unique(t, 0, name.len() as int);
    assert(t.take(name.len() as int) =~= name);
    assert(t.skip(name.len() as int) =~= rest);
}

/// Reads a plain string at character position `pos` of `s`.
pub fn read_plain_str(s: &str, pos: usize) -> (r: Option<(String, usize)>)
    requires
        pos <= s@.len(),
    ensures
        r is Some ==> {
            let (v, end) = r->0;
            &&& spec_read_str(s@.skip(pos as int)) is Some
            &&& (spec_read_str(s@.skip(pos as int))->0).0 == v@
            &&& pos <= end <= s@.len()
            &&& s@.skip(end as int) == (spec_read_str(s@.skip(pos as int))->0).1
        },
        r is None ==> spec_read_str(s@.skip(pos as int)) is None,
{
    let len = s.unicode_len();
    let mut i: usize = pos;
    loop
        invariant
            pos <= i <= len,
            len == s@.len(),
            forall|m: int| pos <= m < i ==> is_plain_char(#[trigger] s@[m]),
        ensures
            pos <= i <= len,
            forall|m: int| pos <= m < i ==> is_plain_char(#[trigger] s@[m]),
            i == len || !is_plain_char(s@[i as int]),
        decreases len - i,
    {
        if i >= len {
            break;
        }
        let c = s.get_char(i);
        if c == '"' || c == '\\' || (c as u32) < 32 {
            break;
        }
        i = i + 1;
    }
    proof {
        let t = s@.skip(pos as int);
        assert forall|m: int| 0 <= m < i - pos implies is_plain_char(#[trigger] t[m]) by {
            assert(t[m] == s@[pos + m]);
        }
        if i < len {
            assert(t[i - pos] == s@[i as int]);
        }
        lemma_plain_run_end_unique(t, 0, i - pos);
    }
    if i >= len {
        return None;
    }
    let c = s.get_char(i);
    if c != '"' {
        proof {
            assert(s@.skip(pos as int)[i - pos] == s@[i as int]);
        }
        return None;
    }
    let piece = s.substring_char(pos, i);
    proof {
        assert(piece@ =~= s@.skip(pos as int).take(i - pos));
        assert(s@.skip(i as int) =~= s@.skip(pos as int).skip(i - pos));
    }
    Some((piece.to_owned(), i))
}

/// The exact JSON text a process sample is stored as.
pub open spec fn spec_encode_metrics(m: ProcessMetricsV) -> Seq<char> {
    "{\"name\":\""@ + m.name + spec_enc_metrics_tail(m)
}

pub open spec fn spec_enc_metrics_tail(m: ProcessMetricsV) -> Seq<char> {
    "\",\"cpu_permille\":"@ + dec_digits(m.cpu_permille as nat) + spec_enc_metrics_tail2(m)
}

pub open spec fn spec_enc_metrics_tail2(m: ProcessMetricsV) -> Seq<char> {
    ",\"memory_usage\":"@ + dec_digits(m.memory_usage as nat) + "}"@
}

/// Encodes a process sample as its JSON text.  The name must be plain:
/// the names this library writes never need escaping.
pub fn encode_metrics(m: &ProcessMetrics) -> (r: String)
    requires
        spec_plain_name(m.name@),
    ensures
        r@ == spec_encode_metrics(m@),
{
    let mut out = String::new();
    out.append("{\"name\":\"");
    out.append(m.name.as_str());
    out.append("\",\"cpu_permille\":");
    append_u64(&mut out, m.cpu_permille);
    out.append(",\"memory_usage\":");
    append_u64(&mut out, m.memory_usage);
    out.append("}");
    proof {
        assert(out@ =~= spec_encode_metrics(m@));
    }
    out
}

/// The spec-level strict reading of a process sample's JSON text.
pub open spec fn spec_decode_metrics(t: Seq<char>) -> Option<ProcessMetricsV> {
    match spec_expect(t, "{\"name\":\""@) {
        None => None,
        Some(t1) => match spec_read_str(t1) {
            None => None,
            Some((name, t2)) => spec_decode_metrics_stage1(t2, name),
        },
    }
}

pub open spec fn spec_decode_metrics_stage1(t: Seq<char>, name: Seq<char>) -> Option<
    ProcessMetricsV,
> {
    match spec_expect(t, "\",\"cpu_permille\":"@) {
        None => None,
        Some(t1) => match spec_read_num(t1) {
            None => None,
            Some((cpu_permille, t2)) => spec_decode_metrics_stage2(t2, name, cpu_permille),
        },
    }
}

pub open spec fn spec_decode_metrics_stage2(t: Seq<char>, name: Seq<char>, cpu_permille: u64) -> Option<
    ProcessMetricsV,
> {
    match spec_expect(t, ",\"memory_usage\":"@) {
        None => None,
        Some(t1) => match spec_read_num(t1) {
            None => None,
            Some((memory_usage, t2)) => match spec_expect(t2, "}"@) {
                None => None,
                Some(t3) => if t3.len() == 0 {
                    Some(ProcessMetricsV { name, cpu_permille, memory_usage })
                } else {
                    None
                },
            },
        },
    }
}

/// Decoding what was encoded gives the sample back: the JSON form of a
/// process sample with a plain name is round-trippable bit for bit.
#[verifier::rlimit(100)]
pub proof fn lemma_metrics_round_trip(m: ProcessMetricsV)
    requires
        spec_plain_name(m.name),
    ensures
        spec_decode_metrics(spec_encode_metrics(m)) == Some(m),
{
    reveal_strlit("{\"name\":\"");
    reveal_strlit("\",\"cpu_permille\":");
    reveal_strlit(",\"memory_usage\":");
    reveal_strlit("}");
    let t = spec_encode_metrics(m);
    assert(t =~= "{\"name\":\""@ + (m.name + spec_enc_metrics_tail(m)));
    lemma_expect_canonical("{\"name\":\""@, m.name + spec_enc_metrics_tail(m));
    assert(spec_enc_metrics_tail(m)[0] == '"');
    lemma_read_str_canonical(m.name, spec_enc_metrics_tail(m));
    assert(spec_enc_metrics_tail(m) =~= "\",\"cpu_permille\":"@ + (dec_digits(
        m.cpu_permille as nat,
    ) + spec_enc_metrics_tail2(m)));
    lemma_expect_canonical("\",\"cpu_permille\":"@, dec_digits(m.cpu_permille as nat)
        + spec_enc_metrics_tail2(m));
    assert(spec_enc_metrics_tail2(m)[0] == ',');
    lemma_read_num_canonical(m.cpu_permille, spec_enc_metrics_tail2(m));
    assert(spec_enc_metrics_tail2(m) =~= ",\"memory_usage\":"@ + (dec_digits(
        m.memory_usage as nat,
    ) + ("}"@ + Seq::<char>::empty())));
    lemma_expect_canonical(",\"memory_usage\":"@, dec_digits(m.memory_usage as nat) + ("}"@
        + Seq::<char>::empty()));
    assert(("}"@ + Seq::<char>::empty())[0] == '}');
    lemma_read_num_canonical(m.memory_usage, "}"@ + Seq::<char>::empty());
    lemma_expect_canonical("}"@, Seq::<char>::empty());
}

/// Decodes the JSON text of a process sample, accepting exactly the
/// encoder's outputs.
#[verifier::rlimit(100)]
pub fn decode_metrics(s: &str) -> (r: Option<ProcessMetrics>)
    ensures
        r is Some ==> spec_decode_metrics(s@) == Some(r->0@),
        r is None ==> spec_decode_metrics(s@) is None,
{
    proof {
        assert(s@.skip(0) =~= s@);
    }
    let p0 = match expect_lit(s, 0, "{\"name\":\"") {
        Some(p) => p,
        None => {
            return None;
        },
    };
    let (name, p1) = match read_plain_str(s, p0) {
        Some(v) => v,
        None => {
            return None;
        },
    };
    let p2 = match expect_lit(s, p1, "\",\"cpu_permille\":") {
        Some(p) => p,
        None => {
            return None;
        },
    };
    let (cpu_permille, p3) = match read_num(s, p2) {
        Some(v) => v,
        None => {
            return None;
        },
    };
    let p4 = match expect_lit(s, p3, ",\"memory_usage\":") {
        Some(p) => p,
        None => {
            return None;
        },
    };
    let (memory_usage, p5) = match read_num(s, p4) {
        Some(v) => v,
        None => {
            return None;
        },
    };
    let p6 = match expect_lit(s, p5, "}") {
        Some(p) => p,
        None => {
            return None;
        },
    };
    if p6 != s.unicode_len() {
        proof {
            assert(s@.skip(p6 as int).len() == s@.len() - p6);
        }
        return None;
    }
    proof {
        assert(s@.skip(p6 as int).len() == 0);
    }
    Some(ProcessMetrics { name, cpu_permille, memory_usage })
}

} // verus!
