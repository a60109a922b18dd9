//! Tests of the shared types: colors, durations, shard state, envelopes,
//! and the key-value codec.

use tulpje::clock::unix_now;
use tulpje::codec::{decode_shard_state, encode_shard_state};
use tulpje::color::{Color, ColorParseError};
use tulpje::duration::format_significant_duration;
use tulpje::envelope::DiscordEvent;
use tulpje::is_pk_proxy;
use tulpje::metrics::MetricsSampler;
use tulpje::pk::{pk_color_to_discord, DEFAULT_ROLE_COLOR};
use tulpje::shard_state::ShardState;

#[test]
fn test_from_str() {
    assert_eq!(Color::from_str("#EEEEEE").unwrap(), Color(15658734));
}

#[test]
fn test_from_u32() {
    assert_eq!(Color::from(15658734u32), Color(15658734));
}

#[test]
fn test_to_string() {
    assert_eq!(Color(15658734).to_string(), "#EEEEEE");
}

#[test]
fn color_accepts_bare_and_prefixed_hex() {
    assert_eq!(Color::from_str("EEEEEE").unwrap(), Color(0xEEEEEE));
    assert_eq!(Color::from_str("#EEEEEE").unwrap(), Color(0xEEEEEE));
    assert_eq!(Color::from_str("zzz"), Err(ColorParseError::InvalidDigit));
    assert_eq!(Color::from_str(""), Err(ColorParseError::Empty));
    assert_eq!(Color::from_str("#123456789"), Err(ColorParseError::PosOverflow));
}

#[test]
fn test_pk_color_to_discord() {
    assert_eq!(
        pk_color_to_discord(Some("unparseable".to_string())),
        DEFAULT_ROLE_COLOR
    );
    assert_eq!(pk_color_to_discord(None), DEFAULT_ROLE_COLOR);
}

#[test]
fn format_significant_duration_test() {
    assert_eq!(format_significant_duration(2 * 86_400 + 4 * 3_600), "2d 4h");
    assert_eq!(format_significant_duration(5 * 3_600 + 5 * 60 + 5), "5h 5m");
    assert_eq!(format_significant_duration(20 * 60 + 1), "20m 1s");
    assert_eq!(format_significant_duration(0), "0s");
}

#[test]
fn is_pk_proxy_test() {
    assert!(is_pk_proxy(&Some(466378653216014359)));
    assert!(!is_pk_proxy(&Some(1)));
    assert!(!is_pk_proxy(&None));
}

#[test]
fn shard_state_is_up_test() {
    // if `up` is false we should be down
    let state = ShardState::new(0);
    assert!(!state.is_up());

    // if `up` is true but we have no heartbeat, should be down
    let mut state = ShardState::new(0);
    state.up = true;
    assert!(!state.is_up());

    // if `up` is true but we have no recent heartbeat, should be down
    let mut state = ShardState::new(0);
    state.up = true;
    state.last_heartbeat = unix_now() - 1_500;
    state.heartbeat_interval = 1_000;
    assert!(!state.is_up());

    // if `up` is true and we have recent heartbeat, should be up
    let mut state = ShardState::new(0);
    state.up = true;
    state.last_heartbeat = unix_now();
    state.heartbeat_interval = 1_000;
    assert!(state.is_up());
}

#[test]
fn shard_state_json_round_trip() {
    let state = ShardState {
        shard_id: 3,
        guild_count: 17,
        up: true,
        disconnect_count: 2,
        latency: 42,
        heartbeat_interval: 41250,
        last_started: 1700000000,
        last_heartbeat: 1700000100,
        last_connection: 1700000050,
    };
    let json = encode_shard_state(&state);
    assert_eq!(
        json,
        "{\"shard_id\":3,\"guild_count\":17,\"up\":true,\"disconnect_count\":2,\
         \"latency\":42,\"heartbeat_interval\":41250,\"last_started\":1700000000,\
         \"last_heartbeat\":1700000100,\"last_connection\":1700000050}"
    );
    assert_eq!(decode_shard_state(json.as_str()), Some(state));
    assert_eq!(decode_shard_state("not json"), None);
    // a non-canonical rendering is refused, so decoding is exact
    assert_eq!(decode_shard_state("{\"shard_id\":03}"), None);
}

#[test]
fn envelope_carries_payload_and_shard() {
    let raw = "{\"op\":0,\"t\":\"MESSAGE_CREATE\",\"d\":{}}";
    let event = DiscordEvent::new(3, raw.to_string());
    assert_eq!(event.meta.shard, 3);
    assert_eq!(event.payload, raw);
    assert_eq!(event.meta.uuid.len(), 36);
}

#[test]
fn metrics_sample_with_zero_interval_does_not_divide() {
    let mut sampler = MetricsSampler {
        name: String::from("handler-0"),
        interval_ms: 0,
        prev_cpu_ms: 100,
    };
    let record = sampler.update(400, 1024);
    assert_eq!(record.cpu_permille, 0);
    assert_eq!(record.memory_usage, 1024);

    let mut sampler = MetricsSampler::new(String::from("gateway-1"));
    sampler.prev_cpu_ms = 1000;
    let record = sampler.update(6000, 2048);
    // 5000 ms of processor time over a 10000 ms tick
    assert_eq!(record.cpu_permille, 500);
}

#[test]
fn process_metrics_json_round_trip() {
    let record = tulpje::metrics::ProcessMetrics {
        name: String::from("gateway-3"),
        cpu_permille: 35,
        memory_usage: 52428800,
    };
    let json = tulpje::codec::encode_metrics(&record);
    assert_eq!(
        json,
        "{\"name\":\"gateway-3\",\"cpu_permille\":35,\"memory_usage\":52428800}"
    );
    let decoded = tulpje::codec::decode_metrics(json.as_str()).unwrap();
    assert_eq!(decoded.name, "gateway-3");
    assert_eq!(decoded.cpu_permille, 35);
    assert_eq!(decoded.memory_usage, 52428800);
    assert!(tulpje::codec::decode_metrics("{}").is_none());
}
