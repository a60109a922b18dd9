//! Modules: named bundles of handlers, built fluently and registered into
//! a registry that flattens them into lookup maps.  Later registrations of
//! the same name win, and registering identical contents twice changes
//! nothing.

use vstd::prelude::*;
use crate::handler::{
    duplicate_command_handler, duplicate_component_handler, duplicate_def,
    duplicate_event_handler, duplicate_task_handler, CommandDef, CommandDefV, CommandHandler, CommandHandlerV,
    ComponentInteractionHandler, ComponentInteractionHandlerV, EventHandler, EventHandlerV,
    EventKind, HandlerFn, TaskHandler, TaskHandlerV,
};
use crate::ids::new_uuid_v7;
use crate::registry::EventRegistry;
use crate::schedule::{cron_accepts, cron_validate, ScheduleError};
use crate::strmap::{
    lemma_prefix_view_map_full, lemma_union_insert_right, lemma_union_prefer_right_idempotent,
    prefix_view_map, view_map, StringMap,
};

verus! {

/// A statically registered bundle of handlers.
pub struct Module {
    pub name: String,
    pub guild_scoped: bool,
    pub commands: StringMap<CommandHandler>,
    pub components: StringMap<ComponentInteractionHandler>,
    pub events: Vec<EventHandler>,
    pub tasks: StringMap<TaskHandler>,
}

/// The mathematical value of a module.
#[verifier::ext_equal]
pub ghost struct ModuleV {
    pub name: Seq<char>,
    pub guild_scoped: bool,
    pub commands: Map<Seq<char>, CommandHandlerV>,
    pub components: Map<Seq<char>, ComponentInteractionHandlerV>,
    pub events: Seq<EventHandlerV>,
    pub tasks: Map<Seq<char>, TaskHandlerV>,
}

impl View for Module {
    type V = ModuleV;

    open spec fn view(&self) -> ModuleV {
        ModuleV {
            name: self.name@,
            guild_scoped: self.guild_scoped,
            commands: view_map(self.commands),
            components: view_map(self.components),
            events: self.events@.map_values(|h: EventHandler| h@),
            tasks: view_map(self.tasks),
        }
    }
}

impl Module {
    /// Keys agree with the handlers stored under them, and every task's
    /// cron expression is one the cron crate accepts.
    pub open spec fn wf(&self) -> bool {
        &&& self.commands.wf()
        &&& self.components.wf()
        &&& self.tasks.wf()
        &&& forall|k: Seq<char>|
            self.commands.as_map().dom().contains(k) ==> (
            #[trigger] self.commands.as_map()[k]).definition.name@ == k
        &&& forall|k: Seq<char>|
            self.components.as_map().dom().contains(k) ==> (
            #[trigger] self.components.as_map()[k]).custom_id@ == k
        &&& forall|k: Seq<char>|
            self.tasks.as_map().dom().contains(k) ==> (#[trigger] self.tasks.as_map()[k]).name@
                == k && cron_accepts(self.tasks.as_map()[k].cron@)
    }
}

/// Builds a module by chaining handler registrations.
pub struct ModuleBuilder {
    pub name: String,
    pub guild_scoped: bool,
    pub commands: StringMap<CommandHandler>,
    pub components: StringMap<ComponentInteractionHandler>,
    pub events: Vec<EventHandler>,
    pub tasks: StringMap<TaskHandler>,
}

impl ModuleBuilder {
    /// The same key/handler agreement a finished module has.
    pub open spec fn wf(&self) -> bool {
        (Module {
            name: self.name,
            guild_scoped: self.guild_scoped,
            commands: self.commands,
            components: self.components,
            events: self.events,
            tasks: self.tasks,
        }).wf()
    }

    /// An empty builder for a module with this name.
    pub fn new(name: &str) -> (b: Self)
        ensures
            b.wf(),
            b.name@ == name@,
            !b.guild_scoped,
            b.commands.entries@.len() == 0,
            b.components.entries@.len() == 0,
            b.events@.len() == 0,
            b.tasks.entries@.len() == 0,
    {
        ModuleBuilder {
            name: name.to_owned(),
            guild_scoped: false,
            commands: StringMap::new(),
            components: StringMap::new(),
            events: Vec::new(),
            tasks: StringMap::new(),
        }
    }

    /// Marks the module guild-scoped: its commands are published only to
    /// guilds that enabled it.
    pub fn guild(self) -> (b: Self)
        requires
            self.wf(),
        ensures
            b.wf(),
            b.guild_scoped,
            b.name == self.name,
            b.commands == self.commands,
            b.components == self.components,
            b.events == self.events,
            b.tasks == self.tasks,
    {
        ModuleBuilder { guild_scoped: true, ..self }
    }

    /// Adds a command under its definition's name; a command of the same
    /// name is replaced.
    pub fn command(self, definition: CommandDef, func: HandlerFn) -> (b: Self)
        requires
            self.wf(),
        ensures
            b.wf(),
            b.name == self.name,
            b.guild_scoped == self.guild_scoped,
            view_map(b.commands) =~~= view_map(self.commands).insert(
                definition@.name,
                CommandHandlerV { module: self.name@, definition: definition@, func },
            ),
            b.components == self.components,
            b.events == self.events,
            b.tasks == self.tasks,
    {
        let mut b = self;
        let key = definition.name.clone();
        let handler = CommandHandler { module: b.name.clone(), definition, func };
        let ghost pre = b.commands;
        b.commands.insert(key, handler);
        proof {
            lemma_view_map_insert(pre, b.commands, handler.definition.name@, handler);
            assert forall|k: Seq<char>|
                b.commands.as_map().dom().contains(k) implies (
            #[trigger] b.commands.as_map()[k]).definition.name@ == k by {
                if k != handler.definition.name@ {
                    assert(pre.as_map().dom().contains(k));
                }
            }
        }
        b
    }

    /// Adds a component handler under its custom id.
    pub fn component(self, custom_id: &str, func: HandlerFn) -> (b: Self)
        requires
            self.wf(),
        ensures
            b.wf(),
            b.name == self.name,
            b.guild_scoped == self.guild_scoped,
            view_map(b.components) =~~= view_map(self.components).insert(
                custom_id@,
                ComponentInteractionHandlerV {
                    module: self.name@,
                    custom_id: custom_id@,
                    func,
                },
            ),
            b.commands == self.commands,
            b.events == self.events,
            b.tasks == self.tasks,
    {
        let mut b = self;
        let handler = ComponentInteractionHandler {
            module: b.name.clone(),
            custom_id: custom_id.to_owned(),
            func,
        };
        let ghost pre = b.components;
        b.components.insert(custom_id.to_owned(), handler);
        proof {
            lemma_view_map_insert(pre, b.components, custom_id@, handler);
            assert forall|k: Seq<char>|
                b.components.as_map().dom().contains(k) implies (
            #[trigger] b.components.as_map()[k]).custom_id@ == k by {
                if k != custom_id@ {
                    assert(pre.as_map().dom().contains(k));
                }
            }
        }
        b
    }

    /// Adds an event subscriber under a fresh uuid.
    pub fn event(self, event: EventKind, func: HandlerFn) -> (b: Self)
        requires
            self.wf(),
        ensures
            b.wf(),
            b.name == self.name,
            b.guild_scoped == self.guild_scoped,
            b.events@.len() == self.events@.len() + 1,
            b.events@.drop_last() == self.events@,
            b.events@.last().module@ == self.name@,
            b.events@.last().event == event,
            b.events@.last().func == func,
            b.events@.last().uuid@.len() == 36,
            b.commands == self.commands,
            b.components == self.components,
            b.tasks == self.tasks,
    {
        let mut b = self;
        let handler = EventHandler {
            module: b.name.clone(),
            uuid: new_uuid_v7(),
            event,
            func,
        };
        b.events.push(handler);
        proof {
            assert(b.events@.drop_last() =~= self.events@);
        }
        b
    }

    /// Adds a periodic task; the cron expression is validated here, and a
    /// malformed one (such as a five-field expression) is rejected.
    pub fn task(self, name: &str, schedule: &str, func: HandlerFn) -> (r: Result<
        Self,
        ScheduleError,
    >)
        requires
            self.wf(),
        ensures
            r is Ok <==> cron_accepts(schedule@),
            r is Err ==> r->Err_0 == ScheduleError::Parse,
            r is Ok ==> {
                let b = r->Ok_0;
                &&& b.wf()
                &&& b.name == self.name
                &&& b.guild_scoped == self.guild_scoped
                &&& view_map(b.tasks) =~~= view_map(self.tasks).insert(
                    name@,
                    TaskHandlerV {
                        module: self.name@,
                        name: name@,
                        cron: schedule@,
                        func,
                    },
                )
                &&& b.commands == self.commands
                &&& b.components == self.components
                &&& b.events == self.events
            },
    {
        if !cron_validate(schedule) {
            return Err(ScheduleError::Parse);
        }
        let mut b = self;
        let handler = TaskHandler {
            module: b.name.clone(),
            name: name.to_owned(),
            cron: schedule.to_owned(),
            func,
        };
        let ghost pre = b.tasks;
        b.tasks.insert(name.to_owned(), handler);
        proof {
            lemma_view_map_insert(pre, b.tasks, name@, handler);
            assert forall|k: Seq<char>|
                b.tasks.as_map().dom().contains(k) implies (#[trigger] b.tasks.as_map()[k]).name@
                == k && cron_accepts(b.tasks.as_map()[k].cron@) by {
                if k != name@ {
                    assert(pre.as_map().dom().contains(k));
                }
            }
        }
        Ok(b)
    }

    /// Finishes the module.
    pub fn build(self) -> (m: Module)
        requires
            self.wf(),
        ensures
            m.wf(),
            m.name == self.name,
            m.guild_scoped == self.guild_scoped,
            m.commands == self.commands,
            m.components == self.components,
            m.events == self.events,
            m.tasks == self.tasks,
    {
        Module {
            name: self.name,
            guild_scoped: self.guild_scoped,
            commands: self.commands,
            components: self.components,
            events: self.events,
            tasks: self.tasks,
        }
    }
}

/// After inserting into a well-formed string map, the view map is the old
/// view map with the view of the new value inserted.
proof fn lemma_view_map_insert<V: View>(pre: StringMap<V>, post: StringMap<V>, k: Seq<char>, v: V)
    requires
        pre.wf(),
        post.wf(),
        post.as_map() =~= pre.as_map().insert(k, v),
    ensures
        view_map(post) =~~= view_map(pre).insert(k, v@),
{
    assert forall|q: Seq<char>|
        view_map(post).dom().contains(q) implies view_map(post)[q] == view_map(pre).insert(
        k,
        v@,
    )[q] by {
        if q != k {
            assert(pre.as_map().dom().contains(q));
        }
    }
}

/// Some stored subscriber already has this (uuid, event kind) identity.
pub open spec fn has_identity(base: Seq<EventHandlerV>, h: EventHandlerV) -> bool {
    exists|m: int|
        0 <= m < base.len() && (#[trigger] base[m]).uuid == h.uuid && base[m].event == h.event
}

/// One dedup-insert of an event subscriber at the view level: a subscriber
/// whose (uuid, event) identity is already present changes nothing.
pub open spec fn spec_event_insert(base: Seq<EventHandlerV>, h: EventHandlerV) -> Seq<
    EventHandlerV,
> {
    if has_identity(base, h) {
        base
    } else {
        base.push(h)
    }
}

/// Sequential dedup-insert of several subscribers.
pub open spec fn spec_event_insert_all(base: Seq<EventHandlerV>, add: Seq<EventHandlerV>) -> Seq<
    EventHandlerV,
>
    decreases add.len(),
{
    if add.len() == 0 {
        base
    } else {
        spec_event_insert(spec_event_insert_all(base, add.drop_last()), add.last())
    }
}

/// The registry the runtime routes through: the known modules plus flat
/// lookup maps over every registered handler.
pub struct Registry {
    pub modules: StringMap<Module>,
    pub commands: StringMap<CommandHandler>,
    pub components: StringMap<ComponentInteractionHandler>,
    pub events: EventRegistry,
    pub tasks: StringMap<TaskHandler>,
}

/// The mathematical value of a registry.
#[verifier::ext_equal]
pub ghost struct RegistryV {
    pub modules: Map<Seq<char>, ModuleV>,
    pub commands: Map<Seq<char>, CommandHandlerV>,
    pub components: Map<Seq<char>, ComponentInteractionHandlerV>,
    pub events: Seq<EventHandlerV>,
    pub tasks: Map<Seq<char>, TaskHandlerV>,
}

impl View for Registry {
    type V = RegistryV;

    open spec fn view(&self) -> RegistryV {
        RegistryV {
            modules: view_map(self.modules),
            commands: view_map(self.commands),
            components: view_map(self.components),
            events: self.events.handlers@.map_values(|h: EventHandler| h@),
            tasks: view_map(self.tasks),
        }
    }
}

/// What registering a module does: each flat map is extended with the
/// module's handlers (the module's win on collision), its event subscribers
/// are inserted with deduplication, and the module is stored under its
/// name.
pub open spec fn spec_register(r: RegistryV, m: ModuleV) -> RegistryV {
    RegistryV {
        modules: r.modules.insert(m.name, m),
        commands: r.commands.union_prefer_right(m.commands),
        components: r.components.union_prefer_right(m.components),
        events: spec_event_insert_all(r.events, m.events),
        tasks: r.tasks.union_prefer_right(m.tasks),
    }
}

impl Registry {
    pub open spec fn wf(&self) -> bool {
        &&& self.modules.wf()
        &&& self.commands.wf()
        &&& self.components.wf()
        &&& self.events.wf()
        &&& self.tasks.wf()
    }

    /// An empty registry.
    pub fn new() -> (r: Self)
        ensures
            r.wf(),
            r@.modules =~= Map::<Seq<char>, ModuleV>::empty(),
            r@.commands =~= Map::<Seq<char>, CommandHandlerV>::empty(),
            r@.components =~= Map::<Seq<char>, ComponentInteractionHandlerV>::empty(),
            r@.events =~= Seq::<EventHandlerV>::empty(),
            r@.tasks =~= Map::<Seq<char>, TaskHandlerV>::empty(),
    {
        let r = Registry {
            modules: StringMap::new(),
            commands: StringMap::new(),
            components: StringMap::new(),
            events: EventRegistry::new(),
            tasks: StringMap::new(),
        };
        proof {
            assert(view_map(r.modules) =~= Map::<Seq<char>, ModuleV>::empty());
            assert(view_map(r.commands) =~= Map::<Seq<char>, CommandHandlerV>::empty());
            assert(view_map(r.components) =~= Map::<
                Seq<char>,
                ComponentInteractionHandlerV,
            >::empty());
            assert(view_map(r.tasks) =~= Map::<Seq<char>, TaskHandlerV>::empty());
        }
        r
    }

    /// Registers a module: flattens its handlers into the lookup maps and
    /// stores it under its name.
    pub fn register(&mut self, module: Module)
        requires
            old(self).wf(),
            module.wf(),
        ensures
            final(self).wf(),
            final(self)@ =~~= spec_register(old(self)@, module@),
    {
        // commands
        let n = module.commands.entries.len();
        let mut i: usize = 0;
        proof {
            assert(view_map(self.commands).union_prefer_right(
                prefix_view_map(module.commands.entries@, 0),
            ) =~= view_map(self.commands));
        }
        loop
            invariant
                0 <= i <= n,
                n == module.commands.entries@.len(),
                module.wf(),
                self.commands.wf(),
                self.modules == old(self).modules,
                self.components == old(self).components,
                self.events == old(self).events,
                self.tasks == old(self).tasks,
                view_map(self.commands) =~~= view_map(old(self).commands).union_prefer_right(
                    prefix_view_map(module.commands.entries@, i as int),
                ),
            ensures
                self.commands.wf(),
                self.modules == old(self).modules,
                self.components == old(self).components,
                self.events == old(self).events,
                self.tasks == old(self).tasks,
                view_map(self.commands) =~~= view_map(old(self).commands).union_prefer_right(
                    view_map(module.commands),
                ),
            decreases n - i,
        {
            if i >= n {
                proof {
                    lemma_prefix_view_map_full(module.commands);
                }
                break;
            }
            let entry_key = module.commands.entries[i].0.clone();
            let dup = duplicate_command_handler(&module.commands.entries[i].1);
            let ghost pre = self.commands;
            self.commands.insert(entry_key, dup);
            proof {
                lemma_view_map_insert(
                    pre,
                    self.commands,
                    module.commands.entries@[i as int].0@,
                    dup,
                );
                lemma_union_insert_right(
                    view_map(old(self).commands),
                    prefix_view_map(module.commands.entries@, i as int),
                    module.commands.entries@[i as int].0@,
                    dup@,
                );
            }
            i = i + 1;
        }
        // components
        let n2 = module.components.entries.len();
        let mut i2: usize = 0;
        proof {
            assert(view_map(self.components).union_prefer_right(
                prefix_view_map(module.components.entries@, 0),
            ) =~= view_map(self.components));
        }
        loop
            invariant
                0 <= i2 <= n2,
                n2 == module.components.entries@.len(),
                module.wf(),
                self.components.wf(),
                self.modules == old(self).modules,
                self.events == old(self).events,
                self.tasks == old(self).tasks,
                self.commands.wf(),
                view_map(self.commands) =~~= view_map(old(self).commands).union_prefer_right(
                    view_map(module.commands),
                ),
                view_map(self.components) =~~= view_map(old(self).components).union_prefer_right(
                    prefix_view_map(module.components.entries@, i2 as int),
                ),
            ensures
                self.components.wf(),
                self.commands.wf(),
                self.modules == old(self).modules,
                self.events == old(self).events,
                self.tasks == old(self).tasks,
                view_map(self.commands) =~~= view_map(old(self).commands).union_prefer_right(
                    view_map(module.commands),
                ),
                view_map(self.components) =~~= view_map(old(self).components).union_prefer_right(
                    view_map(module.components),
                ),
            decreases n2 - i2,
        {
            if i2 >= n2 {
                proof {
                    lemma_prefix_view_map_full(module.components);
                }
                break;
            }
            let entry_key = module.components.entries[i2].0.clone();
            let dup = duplicate_component_handler(&module.components.entries[i2].1);
            let ghost pre = self.components;
            self.components.insert(entry_key, dup);
            proof {
                lemma_view_map_insert(
                    pre,
                    self.components,
                    module.components.entries@[i2 as int].0@,
                    dup,
                );
                lemma_union_insert_right(
                    view_map(old(self).components),
                    prefix_view_map(module.components.entries@, i2 as int),
                    module.components.entries@[i2 as int].0@,
                    dup@,
                );
            }
            i2 = i2 + 1;
        }
        // tasks
        let n3 = module.tasks.entries.len();
        let mut i3: usize = 0;
        proof {
            assert(view_map(self.tasks).union_prefer_right(
                prefix_view_map(module.tasks.entries@, 0),
            ) =~= view_map(self.tasks));
        }
        loop
            invariant
                0 <= i3 <= n3,
                n3 == module.tasks.entries@.len(),
                module.wf(),
                self.tasks.wf(),
                self.commands.wf(),
                self.components.wf(),
                self.modules == old(self).modules,
                self.events == old(self).events,
                view_map(self.commands) =~~= view_map(old(self).commands).union_prefer_right(
                    view_map(module.commands),
                ),
                view_map(self.components) =~~= view_map(old(self).components).union_prefer_right(
                    view_map(module.components),
                ),
                view_map(self.tasks) =~~= view_map(old(self).tasks).union_prefer_right(
                    prefix_view_map(module.tasks.entries@, i3 as int),
                ),
            ensures
                self.tasks.wf(),
                self.commands.wf(),
                self.components.wf(),
                self.modules == old(self).modules,
                self.events == old(self).events,
                view_map(self.commands) =~~= view_map(old(self).commands).union_prefer_right(
                    view_map(module.commands),
                ),
                view_map(self.components) =~~= view_map(old(self).components).union_prefer_right(
                    view_map(module.components),
                ),
                view_map(self.tasks) =~~= view_map(old(self).tasks).union_prefer_right(
                    view_map(module.tasks),
                ),
            decreases n3 - i3,
        {
            if i3 >= n3 {
                proof {
                    lemma_prefix_view_map_full(module.tasks);
                }
                break;
            }
            let entry_key = module.tasks.entries[i3].0.clone();
            let dup = duplicate_task_handler(&module.tasks.entries[i3].1);
            let ghost pre = self.tasks;
            self.tasks.insert(entry_key, dup);
            proof {
                lemma_view_map_insert(
                    pre,
                    self.tasks,
                    module.tasks.entries@[i3 as int].0@,
                    dup,
                );
                lemma_union_insert_right(
                    view_map(old(self).tasks),
                    prefix_view_map(module.tasks.entries@, i3 as int),
                    module.tasks.entries@[i3 as int].0@,
                    dup@,
                );
            }
            i3 = i3 + 1;
        }
        // events, with deduplication by (uuid, event kind)
        let n4 = module.events.len();
        let mut i4: usize = 0;
        let ghost evf = |h: EventHandler| h@;
        proof {
            assert(module.events@.take(0).map_values(evf) =~= Seq::<EventHandlerV>::empty());
        }
        loop
            invariant
                0 <= i4 <= n4,
                n4 == module.events@.len(),
                self.events.wf(),
                self.commands.wf(),
                self.components.wf(),
                self.tasks.wf(),
                self.modules == old(self).modules,
                view_map(self.commands) =~~= view_map(old(self).commands).union_prefer_right(
                    view_map(module.commands),
                ),
                view_map(self.components) =~~= view_map(old(self).components).union_prefer_right(
                    view_map(module.components),
                ),
                view_map(self.tasks) =~~= view_map(old(self).tasks).union_prefer_right(
                    view_map(module.tasks),
                ),
                self.events.handlers@.map_values(evf) =~~= spec_event_insert_all(
                    old(self).events.handlers@.map_values(evf),
                    module.events@.take(i4 as int).map_values(evf),
                ),
                evf == (|h: EventHandler| h@),
            ensures
                self.events.wf(),
                self.commands.wf(),
                self.components.wf(),
                self.tasks.wf(),
                self.modules == old(self).modules,
                view_map(self.commands) =~~= view_map(old(self).commands).union_prefer_right(
                    view_map(module.commands),
                ),
                view_map(self.components) =~~= view_map(old(self).components).union_prefer_right(
                    view_map(module.components),
                ),
                view_map(self.tasks) =~~= view_map(old(self).tasks).union_prefer_right(
                    view_map(module.tasks),
                ),
                self.events.handlers@.map_values(evf) =~~= spec_event_insert_all(
                    old(self).events.handlers@.map_values(evf),
                    module.events@.map_values(evf),
                ),
            decreases n4 - i4,
        {
            if i4 >= n4 {
                proof {
                    assert(module.events@.take(n4 as int) =~= module.events@);
                }
                break;
            }
            let dup = duplicate_event_handler(&module.events[i4]);
            let ghost pre = self.events.handlers@;
            let ghost added_v = module.events@[i4 as int]@;
            let added = self.events.insert(dup);
            proof {
                let t = module.events@.take(i4 as int + 1);
                assert(t.drop_last() =~= module.events@.take(i4 as int));
                assert(t.last() == module.events@[i4 as int]);
                assert(t.map_values(evf).drop_last() =~= module.events@.take(
                    i4 as int,
                ).map_values(evf));
                assert(t.map_values(evf).last() == added_v);
                if added {
                    assert(self.events.handlers@.map_values(evf) =~= pre.map_values(evf).push(
                        added_v,
                    ));
                    assert forall|m: int|
                        0 <= m < pre.len() implies !((#[trigger] pre.map_values(evf)[m]).uuid
                        == added_v.uuid && pre.map_values(evf)[m].event == added_v.event) by {
                        assert(pre[m].uuid@ == pre.map_values(evf)[m].uuid);
                    }
                } else {
                    let m = choose|m: int|
                        0 <= m < pre.len() && (#[trigger] pre[m].uuid@) == dup.uuid@
                            && pre[m].event == dup.event;
                    assert(pre.map_values(evf)[m].uuid == added_v.uuid && pre.map_values(
                        evf,
                    )[m].event == added_v.event);
                }
            }
            i4 = i4 + 1;
        }
        // the module itself
        let ghost premod = self.modules;
        let name = module.name.clone();
        let ghost mv = module@;
        self.modules.insert(name, module);
        proof {
            lemma_view_map_insert_general(premod, self.modules, mv.name, mv);
            let evf2 = |h: EventHandler| h@;
            assert(final(self)@.modules =~~= spec_register(old(self)@, mv).modules);
            assert(final(self)@.commands =~~= spec_register(old(self)@, mv).commands);
            assert(final(self)@.components =~~= spec_register(old(self)@, mv).components);
            assert(final(self)@.tasks =~~= spec_register(old(self)@, mv).tasks);
            assert(final(self)@.events =~~= spec_register(old(self)@, mv).events);
        }
    }
}

/// After inserting into a well-formed string map, the view map is the old
/// view map with the given view inserted (stated for a value whose view is
/// known).
proof fn lemma_view_map_insert_general<V: View>(
    pre: StringMap<V>,
    post: StringMap<V>,
    k: Seq<char>,
    vv: V::V,
)
    requires
        pre.wf(),
        post.wf(),
        exists|v: V| #[trigger] v@ == vv && post.as_map() =~= pre.as_map().insert(k, v),
    ensures
        view_map(post) =~~= view_map(pre).insert(k, vv),
{
    let v = choose|v: V| #[trigger] v@ == vv && post.as_map() =~= pre.as_map().insert(k, v);
    lemma_view_map_insert(pre, post, k, v);
}

/// When every identity among `add` is already present in `base`, the
/// dedup-insert of `add` changes nothing.
proof fn lemma_event_insert_all_absorbed(base: Seq<EventHandlerV>, add: Seq<EventHandlerV>)
    requires
        forall|j: int| 0 <= j < add.len() ==> has_identity(base, #[trigger] add[j]),
    ensures
        spec_event_insert_all(base, add) =~= base,
    decreases add.len(),
{
    if add.len() > 0 {
        assert forall|j: int|
            0 <= j < add.drop_last().len() implies has_identity(
            base,
            #[trigger] add.drop_last()[j],
        ) by {
            assert(add[j] == add.drop_last()[j]);
        }
        lemma_event_insert_all_absorbed(base, add.drop_last());
        assert(has_identity(base, add[add.len() - 1]));
        assert(add[add.len() - 1] == add.last());
    }
}

/// Every identity among `add` is present after a dedup-insert of `add`.
proof fn lemma_event_insert_all_covers(base: Seq<EventHandlerV>, add: Seq<EventHandlerV>, j: int)
    requires
        0 <= j < add.len(),
    ensures
        has_identity(spec_event_insert_all(base, add), add[j]),
    decreases add.len(),
{
    let full = spec_event_insert_all(base, add);
    let prev = spec_event_insert_all(base, add.drop_last());
    if j == add.len() - 1 {
        if has_identity(prev, add.last()) {
            let m = choose|m: int|
                0 <= m < prev.len() && (#[trigger] prev[m]).uuid == add.last().uuid
                    && prev[m].event == add.last().event;
            assert(full[m] == prev[m]);
        } else {
            assert(full[full.len() - 1] == add.last());
        }
    } else {
        lemma_event_insert_all_covers(base, add.drop_last(), j);
        let m = choose|m: int|
            0 <= m < prev.len() && (#[trigger] prev[m]).uuid == add.drop_last()[j].uuid
                && prev[m].event == add.drop_last()[j].event;
        if has_identity(prev, add.last()) {
            assert(full[m] == prev[m]);
        } else {
            assert(full[m] == prev[m]);
        }
        assert(add.drop_last()[j] == add[j]);
    }
}

/// Registering a module twice with identical contents yields the registry
/// that one registration yields: the flat maps absorb the second union and
/// the second dedup-insert of the same subscribers adds nothing.
pub proof fn lemma_register_idempotent(r: RegistryV, m: ModuleV)
    ensures
        spec_register(spec_register(r, m), m) =~~= spec_register(r, m),
{
    lemma_union_prefer_right_idempotent(r.commands, m.commands);
    lemma_union_prefer_right_idempotent(r.components, m.components);
    lemma_union_prefer_right_idempotent(r.tasks, m.tasks);
    let once = spec_event_insert_all(r.events, m.events);
    assert forall|j: int| 0 <= j < m.events.len() implies has_identity(
        once,
        #[trigger] m.events[j],
    ) by {
        lemma_event_insert_all_covers(r.events, m.events, j);
    }
    lemma_event_insert_all_absorbed(once, m.events);
}

/// The command definitions of the non-guild-scoped modules among `mods`,
/// in registration order.
pub open spec fn spec_global_defs(mods: Seq<(String, Module)>) -> Seq<CommandDefV>
    decreases mods.len(),
{
    if mods.len() == 0 {
        Seq::empty()
    } else {
        spec_global_defs(mods.drop_last()) + (if !mods.last().1.guild_scoped {
            mods.last().1.commands.entries@.map_values(
                |e: (String, CommandHandler)| e.1.definition@,
            )
        } else {
            Seq::empty()
        })
    }
}

/// The names of the guild-scoped modules among `mods`, in registration
/// order.
pub open spec fn spec_guild_module_names(mods: Seq<(String, Module)>) -> Seq<Seq<char>>
    decreases mods.len(),
{
    if mods.len() == 0 {
        Seq::empty()
    } else {
        spec_guild_module_names(mods.drop_last()) + (if mods.last().1.guild_scoped {
            seq![mods.last().0@]
        } else {
            Seq::empty()
        })
    }
}

impl Registry {
    /// The handler registered for a command name, if any.
    pub fn find_command(&self, name: &str) -> (r: Option<&CommandHandler>)
        requires
            self.wf(),
        ensures
            r is Some <==> self.commands.as_map().dom().contains(name@),
            r is Some ==> *r->0 == self.commands.as_map()[name@],
    {
        self.commands.get(name)
    }

    /// The command definitions contributed to the global set: those of
    /// every module that is not guild-scoped.
    pub fn global_commands(&self) -> (r: Vec<CommandDef>)
        requires
            self.wf(),
        ensures
            r@.map_values(|d: CommandDef| d@) =~= spec_global_defs(self.modules.entries@),
    {
        let n = self.modules.entries.len();
        let mut out: Vec<CommandDef> = Vec::new();
        let mut i: usize = 0;
        proof {
            assert(out@.map_values(|d: CommandDef| d@) =~= spec_global_defs(
                self.modules.entries@.take(0),
            ));
        }
        loop
            invariant
                0 <= i <= n,
                n == self.modules.entries@.len(),
                out@.map_values(|d: CommandDef| d@) =~= spec_global_defs(
                    self.modules.entries@.take(i as int),
                ),
            ensures
                out@.map_values(|d: CommandDef| d@) =~= spec_global_defs(self.modules.entries@),
            decreases n - i,
        {
            if i >= n {
                proof {
                    assert(self.modules.entries@.take(n as int) =~= self.modules.entries@);
                }
                break;
            }
            let ghost pre = out@;
            let m = &self.modules.entries[i].1;
            if !m.guild_scoped {
                let hn = m.commands.entries.len();
                let mut j: usize = 0;
                loop
                    invariant
                        0 <= j <= hn,
                        hn == m.commands.entries@.len(),
                        out@.map_values(|d: CommandDef| d@) =~= pre.map_values(
                            |d: CommandDef| d@,
                        ) + m.commands.entries@.take(j as int).map_values(
                            |e: (String, CommandHandler)| e.1.definition@,
                        ),
                    ensures
                        out@.map_values(|d: CommandDef| d@) =~= pre.map_values(
                            |d: CommandDef| d@,
                        ) + m.commands.entries@.map_values(
                            |e: (String, CommandHandler)| e.1.definition@,
                        ),
                    decreases hn - j,
                {
                    if j >= hn {
                        proof {
                            assert(m.commands.entries@.take(hn as int) =~= m.commands.entries@);
                        }
                        break;
                    }
                    let ghost outpre = out@;
                    out.push(duplicate_def(&m.commands.entries[j].1.definition));
                    proof {
                        let f = |d: CommandDef| d@;
                        let g = |e: (String, CommandHandler)| e.1.definition@;
                        assert(out@.map_values(f) =~= outpre.map_values(f).push(
                            m.commands.entries@[j as int].1.definition@,
                        ));
                        let t = m.commands.entries@.take(j as int + 1);
                        assert(t.drop_last() =~= m.commands.entries@.take(j as int));
                        assert(t.last() == m.commands.entries@[j as int]);
                        assert(t.map_values(g) =~= m.commands.entries@.take(
                            j as int,
                        ).map_values(g).push(g(m.commands.entries@[j as int])));
                    }
                    j = j + 1;
                }
            }
            proof {
                let t = self.modules.entries@.take(i as int + 1);
                assert(t.drop_last() =~= self.modules.entries@.take(i as int));
                assert(t.last() == self.modules.entries@[i as int]);
            }
            i = i + 1;
        }
        out
    }

    /// The command definitions of the named module, in registration order,
    /// or None when no module of that name is registered.
    pub fn module_commands(&self, module: &str) -> (r: Option<Vec<CommandDef>>)
        requires
            self.wf(),
        ensures
            r is Some <==> self.modules.as_map().dom().contains(module@),
            r is Some ==> r->0@.map_values(|d: CommandDef| d@) =~= self.modules.as_map()[
                module@].commands.entries@.map_values(
                |e: (String, CommandHandler)| e.1.definition@,
            ),
    {
        match self.modules.get(module) {
            None => None,
            Some(m) => {
                let hn = m.commands.entries.len();
                let mut out: Vec<CommandDef> = Vec::new();
                let mut j: usize = 0;
                proof {
                    assert(out@.map_values(|d: CommandDef| d@) =~= m.commands.entries@.take(
                        0,
                    ).map_values(|e: (String, CommandHandler)| e.1.definition@));
                }
                loop
                    invariant
                        0 <= j <= hn,
                        hn == m.commands.entries@.len(),
                        out@.map_values(|d: CommandDef| d@) =~= m.commands.entries@.take(
                            j as int,
                        ).map_values(|e: (String, CommandHandler)| e.1.definition@),
                    ensures
                        out@.map_values(|d: CommandDef| d@) =~= m.commands.entries@.map_values(
                            |e: (String, CommandHandler)| e.1.definition@,
                        ),
                    decreases hn - j,
                {
                    if j >= hn {
                        proof {
                            assert(m.commands.entries@.take(hn as int) =~= m.commands.entries@);
                        }
                        break;
                    }
                    let ghost outpre = out@;
                    out.push(duplicate_def(&m.commands.entries[j].1.definition));
                    proof {
                        let f = |d: CommandDef| d@;
                        let g = |e: (String, CommandHandler)| e.1.definition@;
                        assert(out@.map_values(f) =~= outpre.map_values(f).push(
                            m.commands.entries@[j as int].1.definition@,
                        ));
                        let t = m.commands.entries@.take(j as int + 1);
                        assert(t.drop_last() =~= m.commands.entries@.take(j as int));
                        assert(t.last() == m.commands.entries@[j as int]);
                        assert(t.map_values(g) =~= m.commands.entries@.take(j as int).map_values(
                            g,
                        ).push(g(m.commands.entries@[j as int])));
                    }
                    j = j + 1;
                }
                Some(out)
            },
        }
    }

    /// The names of the guild-scoped modules, in registration order.
    pub fn guild_module_names(&self) -> (r: Vec<String>)
        requires
            self.wf(),
        ensures
            r@.map_values(|s: String| s@) =~= spec_guild_module_names(self.modules.entries@),
    {
        let n = self.modules.entries.len();
        let mut out: Vec<String> = Vec::new();
        let mut i: usize = 0;
        proof {
            assert(out@.map_values(|s: String| s@) =~= spec_guild_module_names(
                self.modules.entries@.take(0),
            ));
        }
        loop
            invariant
                0 <= i <= n,
                n == self.modules.entries@.len(),
                out@.map_values(|s: String| s@) =~= spec_guild_module_names(
                    self.modules.entries@.take(i as int),
                ),
            ensures
                out@.map_values(|s: String| s@) =~= spec_guild_module_names(
                    self.modules.entries@,
                ),
            decreases n - i,
        {
            if i >= n {
                proof {
                    assert(self.modules.entries@.take(n as int) =~= self.modules.entries@);
                }
                break;
            }
            let ghost outpre = out@;
            if self.modules.entries[i].1.guild_scoped {
                out.push(self.modules.entries[i].0.clone());
                proof {
                    assert(out@.map_values(|s: String| s@) =~= outpre.map_values(
                        |s: String| s@,
                    ).push(self.modules.entries@[i as int].0@));
                }
            }
            proof {
                let t = self.modules.entries@.take(i as int + 1);
                assert(t.drop_last() =~= self.modules.entries@.take(i as int));
                assert(t.last() == self.modules.entries@[i as int]);
            }
            i = i + 1;
        }
        out
    }
}

} // verus!
