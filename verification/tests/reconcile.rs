//! Tests of the PluralKit reconciliation helpers and the stats
//! rendering.

use tulpje::emoji::{clone_plan, count_emojis, emoji_use_delta, ClonePlan, Emoji};
use tulpje::pk::{
    fronter_channel_ops, get_member_name, get_ops, sanitize_system_id, MemberRole, PkMember,
    RoleChange,
};
use tulpje::shard_state::ShardState;
use tulpje::stats::{aggregate_shard_stats, format_shard_line, format_u64_grouped, sort_shards_by_id};

fn role(id: Option<u64>, name: &str, color: u32) -> MemberRole {
    MemberRole { id, name: name.to_string(), color }
}

#[test]
fn role_ops_cover_all_three_changes() {
    let current = vec![
        role(Some(1), "Ash (Alter)", 0x111111),
        role(Some(2), "Birch (Alter)", 0x222222),
        role(Some(3), "Cedar (Alter)", 0x333333),
    ];
    let desired = vec![
        role(None, "Ash (Alter)", 0x111111),    // unchanged: no op
        role(None, "Birch (Alter)", 0x999999),  // recolored: update
        role(None, "Dew (Alter)", 0x444444),    // new: create
    ];
    let ops = get_ops(&current, &desired);
    assert_eq!(ops.len(), 3);
    let mut created = 0;
    let mut updated = 0;
    let mut deleted = 0;
    for op in &ops {
        match op {
            RoleChange::Create { name, color } => {
                created += 1;
                assert_eq!(name, "Dew (Alter)");
                assert_eq!(*color, 0x444444);
            }
            RoleChange::Update { id, name, color } => {
                updated += 1;
                assert_eq!(*id, 2);
                assert_eq!(name, "Birch (Alter)");
                assert_eq!(*color, 0x999999);
            }
            RoleChange::Delete { id, name } => {
                deleted += 1;
                assert_eq!(*id, 3);
                assert_eq!(name, "Cedar (Alter)");
            }
        }
    }
    assert_eq!((created, deleted, updated), (1, 1, 1));
}

#[test]
fn member_names_prefer_display_names() {
    let with_display = PkMember {
        name: String::from("ash"),
        display_name: Some(String::from("Ash (she/her)")),
        color: None,
    };
    assert_eq!(get_member_name(&with_display), "Ash (she/her)");
    let plain = PkMember {
        name: String::from("birch"),
        display_name: None,
        color: None,
    };
    assert_eq!(get_member_name(&plain), "birch");
}

#[test]
fn system_ids_are_sanitized() {
    assert_eq!(sanitize_system_id("  AB-cde "), Some(String::from("abcde")));
    assert_eq!(sanitize_system_id("abcde"), Some(String::from("abcde")));
    assert_eq!(sanitize_system_id("ab3de"), None);
    assert_eq!(sanitize_system_id("ex mpl"), None);
}

#[test]
fn fronter_channels_are_reconciled() {
    let current = vec![String::from("Ash"), String::from("Birch")];
    let desired = vec![String::from("Birch"), String::from("Cedar")];
    let (to_create, to_delete) = fronter_channel_ops(&current, &desired);
    assert_eq!(to_create, vec![String::from("Cedar")]);
    assert_eq!(to_delete, vec![String::from("Ash")]);
}

#[test]
fn edits_record_only_new_uses() {
    fn emoji(id: u64) -> Emoji {
        Emoji::new(id, 1, String::from("e"), false)
    }
    let old_counts = count_emojis(vec![emoji(1), emoji(1), emoji(2)]);
    let new_counts = count_emojis(vec![emoji(1), emoji(1), emoji(1), emoji(3)]);
    let delta = emoji_use_delta(&old_counts, &new_counts);
    // emoji 1 gained a use and emoji 3 is new; emoji 2 only disappeared
    assert_eq!(delta, vec![emoji(1), emoji(3)]);
}

#[test]
fn clone_plans_follow_the_argument_rules() {
    fn emoji(id: u64, name: &str) -> Emoji {
        Emoji::new(id, 1, name.to_string(), false)
    }
    assert!(matches!(clone_plan(&vec![], None, None), ClonePlan::NoEmojis));
    assert!(matches!(
        clone_plan(&vec![emoji(1, "a"), emoji(2, "b")], Some(String::from("x")), None),
        ClonePlan::NameNeedsSingleEmoji
    ));
    match clone_plan(&vec![emoji(1, "a")], Some(String::from("fancy")), None) {
        ClonePlan::Single { name } => assert_eq!(name, "fancy"),
        _ => panic!("expected a single clone"),
    }
    let eleven: Vec<Emoji> = (1..=11).map(|i| emoji(i, "e")).collect();
    assert!(matches!(clone_plan(&eleven, None, None), ClonePlan::TooMany));
    match clone_plan(
        &vec![emoji(1, "a"), emoji(2, "b")],
        None,
        Some(String::from("pk_")),
    ) {
        ClonePlan::Multi { names } => {
            assert_eq!(names, vec![String::from("pk_a"), String::from("pk_b")])
        }
        _ => panic!("expected a multi clone"),
    }
}

#[test]
fn shard_stats_aggregate_and_render() {
    let up = ShardState {
        shard_id: 0,
        guild_count: 1234567,
        up: true,
        disconnect_count: 2,
        latency: 42,
        heartbeat_interval: 41250,
        last_started: 999,
        last_heartbeat: 1_700_000_000,
        last_connection: 1_699_900_000,
    };
    let down = ShardState { shard_id: 1, up: false, ..up };
    let now = 1_700_000_001;

    let summary = aggregate_shard_stats(&vec![up, down], now);
    assert_eq!(summary.total_shards, 2);
    assert_eq!(summary.shards_up, 1);
    assert_eq!(summary.guild_count, 2 * 1234567);

    // the listing shows shards in ascending id order
    let sorted = sort_shards_by_id(&vec![down, up]);
    assert_eq!(sorted[0].shard_id, 0);
    assert_eq!(sorted[1].shard_id, 1);

    assert_eq!(format_u64_grouped(1234567), "1,234,567");
    assert_eq!(format_u64_grouped(1000), "1,000");
    assert_eq!(format_u64_grouped(999), "999");
    assert_eq!(format_u64_grouped(1_000_005), "1,000,005");

    assert_eq!(
        format_shard_line(&up, now),
        "Latency: 42 ms / Uptime: 1d 3h / Servers: 1,234,567 / Disconnects: 2"
    );
    assert_eq!(format_shard_line(&down, now), "Down");
}
