//! Tests of the handler framework: modules, registries, dispatch, the
//! module reconciler, the scheduler, and the emoji helpers.

use tulpje::dispatch::{get_arg_string, get_arg_string_optional, route_interaction, DispatchError, InteractionData, OptionValue};
use tulpje::emoji::{count_emojis, parse_emojis_from_string, Emoji, StatsSort};
use tulpje::handler::{CommandDef, CommandKind, HandlerFn, TaskHandler};
use tulpje::modcore::{available_modules, format_modules_reply, guild_commands, GuildModules};
use tulpje::modreg::{ModuleBuilder, Registry};
use tulpje::registry::TaskService;
use tulpje::shard_state::ShardState;
use tulpje::schedule::{CronSchedule, ScheduleError, Scheduler};

fn simple_command(name: &str) -> CommandDef {
    CommandDef {
        name: name.to_string(),
        description: String::from("a command"),
        kind: CommandKind::ChatInput,
        dm_permission: false,
        default_member_permissions: None,
        options: Vec::new(),
    }
}

fn pluralkit_module() -> tulpje::modreg::Module {
    ModuleBuilder::new("pluralkit")
        .guild()
        .command(simple_command("setup-pk"), HandlerFn(1))
        .command(simple_command("update-fronters"), HandlerFn(2))
        .build()
}

#[test]
fn unknown_command_is_a_route_miss() {
    let registry = Registry::new();
    let data = InteractionData::ApplicationCommand {
        name: String::from("does-not-exist"),
        options: Vec::new(),
    };
    match route_interaction(&registry, &data) {
        Err(DispatchError::RouteMiss(name)) => assert_eq!(name, "does-not-exist"),
        _ => panic!("expected a route miss"),
    }
}

#[test]
fn register_twice_is_register_once() {
    let mut registry = Registry::new();
    registry.register(pluralkit_module());
    registry.register(pluralkit_module());
    assert!(registry.find_command("setup-pk").is_some());
    assert_eq!(registry.guild_module_names(), vec![String::from("pluralkit")]);
    assert_eq!(registry.module_commands("pluralkit").unwrap().len(), 2);
    // the global set has nothing: pluralkit is guild-scoped
    assert_eq!(registry.global_commands().len(), 0);
}

#[test]
fn enable_then_list() {
    let mut registry = Registry::new();
    registry.register(pluralkit_module());
    registry.register(
        ModuleBuilder::new("emoji")
            .guild()
            .command(simple_command("emoji-stats"), HandlerFn(3))
            .build(),
    );

    let mut table = GuildModules::new();
    assert!(table.enable(7, "pluralkit"));
    // enabling twice adds no second row
    assert!(!table.enable(7, "pluralkit"));
    assert_eq!(table.rows.len(), 1);

    let enabled = table.modules_for_guild(7);
    assert_eq!(enabled, vec![String::from("pluralkit")]);

    let all = registry.guild_module_names();
    let available = available_modules(&all, &enabled);
    assert_eq!(available, vec![String::from("emoji")]);

    assert_eq!(
        format_modules_reply(&enabled, &available),
        "Enabled: pluralkit\nAvailable: emoji"
    );

    // the guild's upstream command set is exactly the pluralkit commands
    let commands = guild_commands(&registry, &enabled);
    let names: Vec<String> = commands.iter().map(|c| c.name.clone()).collect();
    assert_eq!(names, vec![String::from("setup-pk"), String::from("update-fronters")]);

    assert!(table.disable(7, "pluralkit"));
    assert_eq!(table.modules_for_guild(7).len(), 0);
}

#[test]
fn five_field_cron_is_rejected_at_build_time() {
    assert!(matches!(CronSchedule::parse("* * * * *"), Err(ScheduleError::Parse)));
    assert!(CronSchedule::parse("0 * * * * *").is_ok());

    let r = ModuleBuilder::new("pk").task("pk:update", "0 * * * *", HandlerFn(9));
    assert!(r.is_err());
    let r = ModuleBuilder::new("pk").task("pk:update", "0 * * * * *", HandlerFn(9));
    assert!(r.is_ok());
}

#[test]
fn re_adding_a_task_recomputes_next_fire_fresh() {
    let schedule = CronSchedule::parse("0 * * * * *").unwrap();
    let now: i64 = 1_700_000_000;

    let mut sched = Scheduler::new();
    assert!(sched.enable_task("pk:update-fronters", &schedule, now));
    let first = sched.jobs.last().unwrap().next_fire;

    assert!(sched.disable_task("pk:update-fronters"));
    assert_eq!(sched.jobs.len(), 0);
    assert!(sched.enable_task("pk:update-fronters", &schedule, now));
    let re_added = sched.jobs.last().unwrap().next_fire;

    let mut fresh = Scheduler::new();
    assert!(fresh.enable_task("pk:update-fronters", &schedule, now));
    let fresh_fire = fresh.jobs.last().unwrap().next_fire;

    assert_eq!(re_added, first);
    assert_eq!(re_added, fresh_fire);
}

#[test]
fn overrunning_task_keeps_firing() {
    // fires every second; the handler takes three seconds, and the
    // scheduler neither waits for it nor skips a fire
    let schedule = CronSchedule::parse("*/1 * * * * *").unwrap();
    let start: i64 = 1_700_000_000;
    let mut in_flight: Vec<i64> = Vec::new();
    let mut t = start;
    for _ in 0..3 {
        let next = schedule.next_after(t).unwrap();
        assert_eq!(next, t + 1);
        // the handler started here sleeps three seconds; nothing completes
        in_flight.push(next);
        t = next;
    }
    assert_eq!(in_flight, vec![start + 1, start + 2, start + 3]);
    assert_eq!(in_flight.len(), 3);
}

#[test]
fn parse_emojis_from_string_test() {
    let result = parse_emojis_from_string(1, "<a:animated:1> <:static:2>");
    assert_eq!(
        result,
        vec![
            Emoji::new(1, 1, String::from("animated"), true),
            Emoji::new(2, 1, String::from("animated"), true),
        ]
    );
}

#[test]
fn count_emojis_test() {
    // emoji creation helper func
    fn emoji(id: u64) -> Emoji {
        Emoji::new(id, 1, String::from("foo"), false)
    }

    let result = count_emojis(vec![emoji(1), emoji(1), emoji(2)]);
    assert_eq!(result, vec![(emoji(1), 2), (emoji(2), 1)]);
}

#[test]
fn stats_sort_identifiers_round_trip() {
    for sort in [
        StatsSort::CountDesc,
        StatsSort::CountAsc,
        StatsSort::DateDesc,
        StatsSort::DateAsc,
    ] {
        assert_eq!(StatsSort::try_from_string(sort.id()).unwrap(), sort);
    }
    assert!(StatsSort::try_from_string("newest").is_err());
    assert_eq!(StatsSort::CountDesc.name(), "Most Used");
}

#[test]
fn liveness_rule_is_exact() {
    let state = ShardState {
        shard_id: 0,
        guild_count: 0,
        up: true,
        disconnect_count: 0,
        latency: 0,
        heartbeat_interval: 41250,   // allowance: 41250 * 1.2 / 1000 = 49 s
        last_started: 0,
        last_heartbeat: 1000,
        last_connection: 0,
    };
    assert!(state.is_up_at(1048));
    assert!(!state.is_up_at(1049));
    let down = ShardState { up: false, ..state };
    assert!(!down.is_up_at(1000));
}

#[test]
fn tasks_register_before_the_scheduler_runs() {
    let mut service = TaskService::new();
    service.insert(TaskHandler {
        module: String::from("pluralkit"),
        name: String::from("pk:update-fronters"),
        cron: String::from("0 * * * * *"),
        func: HandlerFn(7),
    });
    let jobs = service.run();
    assert_eq!(jobs.len(), 1);
    assert_eq!(jobs[0].0, "pk:update-fronters");
    assert_eq!(jobs[0].1, "0 * * * * *");
    assert!(service.remove("pk:update-fronters"));
    assert!(!service.remove("pk:update-fronters"));
}

#[test]
fn string_options_are_extracted_by_name() {
    let options = vec![
        (String::from("module"), OptionValue::Text(String::from("pluralkit"))),
        (String::from("limit"), OptionValue::Integer(3)),
    ];
    assert_eq!(get_arg_string(&options, "module").unwrap(), "pluralkit");
    assert_eq!(get_arg_string_optional(&options, "absent").unwrap(), None);
    assert!(get_arg_string(&options, "limit").is_err());
    assert!(get_arg_string(&options, "absent").is_err());
}

#[test]
fn launching_a_task_list_registers_each_live_schedule() {
    let mut sched = Scheduler::new();
    let tasks = vec![
        (
            String::from("pk:update-fronters"),
            CronSchedule::parse("0 * * * * *").unwrap(),
        ),
        (
            String::from("emoji:refresh"),
            CronSchedule::parse("*/5 * * * * *").unwrap(),
        ),
    ];
    let launched = sched.run(&tasks, 1_700_000_000);
    assert_eq!(launched, 2);
    assert_eq!(sched.jobs.len(), 2);
    assert_eq!(sched.jobs[0].name, "pk:update-fronters");
    assert_eq!(sched.jobs[1].name, "emoji:refresh");
    assert!(sched.jobs[0].next_fire > 1_700_000_000);
}
