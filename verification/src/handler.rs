//! The four handler families: tagged records carrying a handler capability
//! token plus the metadata the registries route on.  The token is an opaque
//! id that the embedding process maps to the actual future-returning
//! function.

use vstd::prelude::*;

verus! {

/// An opaque reference to a handler function, resolved by the embedding
/// process.
#[derive(Debug, PartialEq, Eq, Structural, Clone, Copy)]
pub struct HandlerFn(pub u64);

/// The kind of a chat command.
#[derive(Debug, PartialEq, Eq, Structural, Clone, Copy)]
pub enum CommandKind {
    ChatInput,
    Message,
    User,
}

/// The gateway event kinds handlers can subscribe to.
#[derive(Debug, PartialEq, Eq, Structural, Clone, Copy, Hash)]
pub enum EventKind {
    Ready,
    Resumed,
    MessageCreate,
    MessageUpdate,
    MessageDelete,
    ReactionAdd,
    ReactionRemove,
    InteractionCreate,
    GuildCreate,
    GuildDelete,
    Other,
}

/// One option of a command definition.
#[derive(Debug)]
pub struct CommandOptionDef {
    pub name: String,
    pub description: String,
    pub required: bool,
    /// Fixed choices, as (label, value) pairs.
    pub choices: Vec<(String, String)>,
}

/// The mathematical value of an option definition.
#[verifier::ext_equal]
pub ghost struct CommandOptionDefV {
    pub name: Seq<char>,
    pub description: Seq<char>,
    pub required: bool,
    pub choices: Seq<(Seq<char>, Seq<char>)>,
}

impl View for CommandOptionDef {
    type V = CommandOptionDefV;

    open spec fn view(&self) -> CommandOptionDefV {
        CommandOptionDefV {
            name: self.name@,
            description: self.description@,
            required: self.required,
            choices: self.choices@.map_values(|c: (String, String)| (c.0@, c.1@)),
        }
    }
}

/// A command definition as published upstream.
#[derive(Debug)]
pub struct CommandDef {
    pub name: String,
    pub description: String,
    pub kind: CommandKind,
    pub dm_permission: bool,
    pub default_member_permissions: Option<u64>,
    pub options: Vec<CommandOptionDef>,
}

/// The mathematical value of a command definition.
#[verifier::ext_equal]
pub ghost struct CommandDefV {
    pub name: Seq<char>,
    pub description: Seq<char>,
    pub kind: CommandKind,
    pub dm_permission: bool,
    pub default_member_permissions: Option<u64>,
    pub options: Seq<CommandOptionDefV>,
}

impl View for CommandDef {
    type V = CommandDefV;

    open spec fn view(&self) -> CommandDefV {
        CommandDefV {
            name: self.name@,
            description: self.description@,
            kind: self.kind,
            dm_permission: self.dm_permission,
            default_member_permissions: self.default_member_permissions,
            options: self.options@.map_values(|o: CommandOptionDef| o@),
        }
    }
}

/// A field-for-field copy of an option definition.
pub fn duplicate_option_def(o: &CommandOptionDef) -> (r: CommandOptionDef)
    ensures
        r@ == o@,
{
    let n = o.choices.len();
    let mut choices: Vec<(String, String)> = Vec::new();
    let mut i: usize = 0;
    loop
        invariant
            0 <= i <= n,
            n == o.choices@.len(),
            choices@ =~= o.choices@.take(i as int),
        ensures
            choices@ =~= o.choices@,
        decreases n - i,
    {
        if i >= n {
            proof {
                assert(o.choices@.take(n as int) =~= o.choices@);
            }
            break;
        }
        choices.push((o.choices[i].0.clone(), o.choices[i].1.clone()));
        proof {
            assert(choices@ =~= o.choices@.take(i as int).push(o.choices@[i as int]));
            assert(o.choices@.take(i as int + 1).drop_last() =~= o.choices@.take(i as int));
            assert(o.choices@.take(i as int + 1) =~= o.choices@.take(i as int).push(
                o.choices@[i as int],
            ));
        }
        i = i + 1;
    }
    let r = CommandOptionDef {
        name: o.name.clone(),
        description: o.description.clone(),
        required: o.required,
        choices,
    };
    proof {
        assert(r@ =~= o@);
    }
    r
}

/// A field-for-field copy of a command definition.
pub fn duplicate_def(d: &CommandDef) -> (r: CommandDef)
    ensures
        r@ == d@,
{
    let n = d.options.len();
    let mut options: Vec<CommandOptionDef> = Vec::new();
    let mut i: usize = 0;
    loop
        invariant
            0 <= i <= n,
            n == d.options@.len(),
            options@.map_values(|o: CommandOptionDef| o@) =~= d.options@.take(
                i as int,
            ).map_values(|o: CommandOptionDef| o@),
        ensures
            options@.map_values(|o: CommandOptionDef| o@) =~= d.options@.map_values(
                |o: CommandOptionDef| o@,
            ),
        decreases n - i,
    {
        if i >= n {
            proof {
                assert(d.options@.take(n as int) =~= d.options@);
            }
            break;
        }
        let ghost pre = options@;
        options.push(duplicate_option_def(&d.options[i]));
        proof {
            let f = |o: CommandOptionDef| o@;
            assert(options@.map_values(f) =~= pre.map_values(f).push(d.options@[i as int]@));
            assert(d.options@.take(i as int + 1) =~= d.options@.take(i as int).push(
                d.options@[i as int],
            ));
            assert(d.options@.take(i as int + 1).map_values(f) =~= d.options@.take(
                i as int,
            ).map_values(f).push(d.options@[i as int]@));
        }
        i = i + 1;
    }
    let r = CommandDef {
        name: d.name.clone(),
        description: d.description.clone(),
        kind: d.kind,
        dm_permission: d.dm_permission,
        default_member_permissions: d.default_member_permissions,
        options,
    };
    proof {
        assert(r@ =~= d@);
    }
    r
}

/// A chat command with its handler.
#[derive(Debug)]
pub struct CommandHandler {
    /// The module that registered it.
    pub module: String,
    pub definition: CommandDef,
    pub func: HandlerFn,
}

/// The mathematical value of a command handler.
#[verifier::ext_equal]
pub ghost struct CommandHandlerV {
    pub module: Seq<char>,
    pub definition: CommandDefV,
    pub func: HandlerFn,
}

impl View for CommandHandler {
    type V = CommandHandlerV;

    open spec fn view(&self) -> CommandHandlerV {
        CommandHandlerV { module: self.module@, definition: self.definition@, func: self.func }
    }
}

/// A field-for-field copy of a command handler.
pub fn duplicate_command_handler(h: &CommandHandler) -> (r: CommandHandler)
    ensures
        r@ == h@,
{
    CommandHandler {
        module: h.module.clone(),
        definition: duplicate_def(&h.definition),
        func: h.func,
    }
}

/// A message-component interaction handler, routed by custom id.
#[derive(Debug)]
pub struct ComponentInteractionHandler {
    pub module: String,
    pub custom_id: String,
    pub func: HandlerFn,
}

/// The mathematical value of a component handler.
#[verifier::ext_equal]
pub ghost struct ComponentInteractionHandlerV {
    pub module: Seq<char>,
    pub custom_id: Seq<char>,
    pub func: HandlerFn,
}

impl View for ComponentInteractionHandler {
    type V = ComponentInteractionHandlerV;

    open spec fn view(&self) -> ComponentInteractionHandlerV {
        ComponentInteractionHandlerV {
            module: self.module@,
            custom_id: self.custom_id@,
            func: self.func,
        }
    }
}

/// A field-for-field copy of a component handler.
pub fn duplicate_component_handler(h: &ComponentInteractionHandler) -> (r:
    ComponentInteractionHandler)
    ensures
        r@ == h@,
{
    ComponentInteractionHandler {
        module: h.module.clone(),
        custom_id: h.custom_id.clone(),
        func: h.func,
    }
}

/// A gateway event subscriber, identified by (uuid, event kind).
#[derive(Debug)]
pub struct EventHandler {
    pub module: String,
    pub uuid: String,
    pub event: EventKind,
    pub func: HandlerFn,
}

/// The mathematical value of an event handler.
#[verifier::ext_equal]
pub ghost struct EventHandlerV {
    pub module: Seq<char>,
    pub uuid: Seq<char>,
    pub event: EventKind,
    pub func: HandlerFn,
}

impl View for EventHandler {
    type V = EventHandlerV;

    open spec fn view(&self) -> EventHandlerV {
        EventHandlerV {
            module: self.module@,
            uuid: self.uuid@,
            event: self.event,
            func: self.func,
        }
    }
}

/// A field-for-field copy of an event handler.
pub fn duplicate_event_handler(h: &EventHandler) -> (r: EventHandler)
    ensures
        r@ == h@,
{
    EventHandler {
        module: h.module.clone(),
        uuid: h.uuid.clone(),
        event: h.event,
        func: h.func,
    }
}

/// A periodic task with its cron expression.
#[derive(Debug)]
pub struct TaskHandler {
    pub module: String,
    pub name: String,
    /// A cron expression the cron crate accepts.
    pub cron: String,
    pub func: HandlerFn,
}

/// The mathematical value of a task handler.
#[verifier::ext_equal]
pub ghost struct TaskHandlerV {
    pub module: Seq<char>,
    pub name: Seq<char>,
    pub cron: Seq<char>,
    pub func: HandlerFn,
}

impl View for TaskHandler {
    type V = TaskHandlerV;

    open spec fn view(&self) -> TaskHandlerV {
        TaskHandlerV {
            module: self.module@,
            name: self.name@,
            cron: self.cron@,
            func: self.func,
        }
    }
}

/// A field-for-field copy of a task handler.
pub fn duplicate_task_handler(h: &TaskHandler) -> (r: TaskHandler)
    ensures
        r@ == h@,
{
    TaskHandler {
        module: h.module.clone(),
        name: h.name.clone(),
        cron: h.cron.clone(),
        func: h.func,
    }
}

/// Something routed by a string key.
pub trait InteractionHandler {
    /// The key this handler is registered under.
    spec fn spec_key(&self) -> Seq<char>;

    /// The key this handler is registered under.
    fn key(&self) -> (r: String)
        ensures
            r@ == self.spec_key(),
    ;
}

impl InteractionHandler for CommandHandler {
    open spec fn spec_key(&self) -> Seq<char> {
        self.definition.name@
    }

    fn key(&self) -> (r: String)
        ensures
            r@ == self.spec_key(),
    {
        self.definition.name.clone()
    }
}

impl InteractionHandler for ComponentInteractionHandler {
    open spec fn spec_key(&self) -> Seq<char> {
        self.custom_id@
    }

    fn key(&self) -> (r: String)
        ensures
            r@ == self.spec_key(),
    {
        self.custom_id.clone()
    }
}

} // verus!
