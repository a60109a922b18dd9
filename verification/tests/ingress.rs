//! Tests of the gateway ingress: opcode scanning, the publish decision,
//! shard-state transitions, and the presence announcement.

use tulpje::envelope::DiscordEvent;
use tulpje::ingress::{
    format_presence, parse_opcode, published_texts, should_publish, IngressError, OpCode,
    ShardEvent, ShardManager,
};

#[test]
fn ingress_happy_path_publishes_dispatch() {
    let raw = "{\"op\":0,\"s\":1,\"t\":\"MESSAGE_CREATE\",\"d\":{\"content\":\"hi\"}}";
    assert_eq!(parse_opcode(raw).unwrap(), Some(OpCode::Dispatch));
    assert!(should_publish(raw));

    let event = DiscordEvent::new(3, raw.to_string());
    assert_eq!(event.meta.shard, 3);
    assert_eq!(event.payload, raw);

    // a MESSAGE_CREATE is no lifecycle event, so the shard state stays put
    let manager = ShardManager::new(3, 1000);
    assert_eq!(manager.shard.guild_count, 0);
    assert!(!manager.shard.up);
}

#[test]
fn heartbeat_ack_patches_state_and_is_not_published() {
    let raw = "{\"op\":11}";
    assert_eq!(parse_opcode(raw).unwrap(), Some(OpCode::HeartbeatAck));
    assert!(!should_publish(raw));

    let mut manager = ShardManager::new(0, 1000);
    manager.shard.heartbeat_interval = 41250;
    let action = manager
        .handle_event(&ShardEvent::HeartbeatAck, Some(42), 2000)
        .unwrap();
    assert!(action.save);
    assert!(!action.send_presence);
    assert!(manager.shard.up);
    assert_eq!(manager.shard.last_heartbeat, 2000);
    assert_eq!(manager.shard.latency, 42);
}

#[test]
fn hello_with_zero_interval_is_a_parse_error() {
    let mut manager = ShardManager::new(0, 1000);
    let r = manager.handle_event(
        &ShardEvent::Hello { heartbeat_interval_ms: 0 },
        None,
        2000,
    );
    assert_eq!(r, Err(IngressError::Parse));
    assert_eq!(manager.shard.heartbeat_interval, 0);

    let ok = manager.handle_event(
        &ShardEvent::Hello { heartbeat_interval_ms: 41250 },
        None,
        2000,
    );
    assert!(ok.is_ok());
    assert_eq!(manager.shard.heartbeat_interval, 41250);
    assert_eq!(manager.shard.last_connection, 2000);
}

#[test]
fn guild_count_follows_the_guild_set() {
    let mut manager = ShardManager::new(0, 1000);
    manager
        .handle_event(&ShardEvent::Ready { guild_ids: vec![1, 2, 2, 3] }, None, 2000)
        .unwrap();
    assert_eq!(manager.shard.guild_count, 3);
    assert!(manager.shard.up);

    let a = manager
        .handle_event(&ShardEvent::GuildCreate { guild_id: 4 }, None, 2001)
        .unwrap();
    assert!(a.save);
    assert_eq!(manager.shard.guild_count, 4);

    // creating a guild we already know changes nothing and saves nothing
    let a = manager
        .handle_event(&ShardEvent::GuildCreate { guild_id: 4 }, None, 2002)
        .unwrap();
    assert!(!a.save);
    assert_eq!(manager.shard.guild_count, 4);

    let a = manager
        .handle_event(&ShardEvent::GuildDelete { guild_id: 1 }, None, 2003)
        .unwrap();
    assert!(a.save);
    assert_eq!(manager.shard.guild_count, 3);

    let a = manager
        .handle_event(&ShardEvent::GatewayClose, None, 2004)
        .unwrap();
    assert!(a.save);
    assert!(!manager.shard.up);
    assert_eq!(manager.shard.disconnect_count, 1);
}

#[test]
fn presence_is_sent_exactly_once() {
    assert_eq!(
        format_presence("1.2.3", "abcdef", true),
        " Version: 1.2.3 (abcdef-dirty)"
    );
    assert_eq!(
        format_presence("1.2.3", "abcdef", false),
        " Version: 1.2.3 (abcdef)"
    );

    let mut manager = ShardManager::new(0, 1000);
    let first = manager
        .handle_event(&ShardEvent::Ready { guild_ids: vec![] }, None, 2000)
        .unwrap();
    assert!(first.send_presence);
    let second = manager
        .handle_event(&ShardEvent::Ready { guild_ids: vec![] }, None, 2001)
        .unwrap();
    assert!(!second.send_presence);
}

#[test]
fn published_texts_are_the_dispatch_frames_in_order() {
    let frames = vec![
        "{\"op\":10,\"d\":{\"heartbeat_interval\":41250}}".to_string(),
        "{\"op\":0,\"t\":\"READY\"}".to_string(),
        "{\"op\":11}".to_string(),
        "{\"op\":0,\"t\":\"MESSAGE_CREATE\"}".to_string(),
        "no opcode here".to_string(),
    ];
    let published = published_texts(&frames);
    assert_eq!(
        published,
        vec![
            "{\"op\":0,\"t\":\"READY\"}".to_string(),
            "{\"op\":0,\"t\":\"MESSAGE_CREATE\"}".to_string(),
        ]
    );
}

#[test]
fn opcode_scan_errors() {
    assert!(parse_opcode("{}").is_err());
    assert!(parse_opcode("{\"op\":}").is_err());
    // an unknown opcode number is recognized but unnamed
    assert_eq!(parse_opcode("{\"op\": 5}").unwrap(), None);
    assert_eq!(parse_opcode("{\"op\": 10}").unwrap(), Some(OpCode::Hello));
}
