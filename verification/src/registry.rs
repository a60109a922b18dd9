//! The handler registries: keyed stores for command, component, event, and
//! task handlers, plus the aggregate registry the runtime routes through.

use vstd::prelude::*;
use crate::handler::{
    duplicate_def, CommandDef, CommandHandler, ComponentInteractionHandler, EventHandler,
    EventKind, InteractionHandler, TaskHandler,
};
use crate::strmap::StringMap;

verus! {

/// A registry of handlers routed by their string key.
pub struct InteractionRegistry<T: InteractionHandler> {
    pub interactions: StringMap<T>,
}

impl<T: InteractionHandler> InteractionRegistry<T> {
    pub open spec fn wf(&self) -> bool {
        self.interactions.wf()
    }

    /// The handlers by key.
    pub open spec fn as_map(&self) -> Map<Seq<char>, T> {
        self.interactions.as_map()
    }

    /// An empty registry.
    pub fn new() -> (r: Self)
        ensures
            r.wf(),
            r.as_map() =~= Map::<Seq<char>, T>::empty(),
            r.interactions.entries@.len() == 0,
    {
        InteractionRegistry { interactions: StringMap::new() }
    }

    /// The stored handlers, in storage order.
    pub fn values(&self) -> (r: Vec<&T>)
        ensures
            r@.len() == self.interactions.entries@.len(),
            forall|i: int|
                0 <= i < r@.len() ==> *r@[i] == #[trigger] self.interactions.entries@[i].1,
    {
        let n = self.interactions.entries.len();
        let mut out: Vec<&T> = Vec::new();
        let mut i: usize = 0;
        loop
            invariant
                0 <= i <= n,
                n == self.interactions.entries@.len(),
                out@.len() == i,
                forall|m: int|
                    0 <= m < i ==> *out@[m] == #[trigger] self.interactions.entries@[m].1,
            ensures
                out@.len() == n,
                forall|m: int|
                    0 <= m < n ==> *out@[m] == #[trigger] self.interactions.entries@[m].1,
            decreases n - i,
        {
            if i >= n {
                break;
            }
            out.push(&self.interactions.entries[i].1);
            i = i + 1;
        }
        out
    }

    /// Stores a handler under its own key, returning the handler it
    /// replaced.
    pub fn insert(&mut self, val: T) -> (displaced: Option<T>)
        requires
            old(self).wf(),
        ensures
            final(self).wf(),
            final(self).as_map() =~= old(self).as_map().insert(val.spec_key(), val),
            displaced is Some <==> old(self).as_map().dom().contains(val.spec_key()),
            displaced is Some ==> displaced->0 == old(self).as_map()[val.spec_key()],
    {
        let key = val.key();
        self.interactions.insert(key, val)
    }

    /// Removes the handler stored under `val`'s key.
    pub fn remove(&mut self, val: T) -> (removed: Option<T>)
        requires
            old(self).wf(),
        ensures
            final(self).wf(),
            final(self).as_map() =~= old(self).as_map().remove(val.spec_key()),
            removed is Some <==> old(self).as_map().dom().contains(val.spec_key()),
            removed is Some ==> removed->0 == old(self).as_map()[val.spec_key()],
    {
        let key = val.key();
        self.interactions.remove(key.as_str())
    }

    /// The handler stored under `key`, if any.
    pub fn get(&self, key: &str) -> (r: Option<&T>)
        requires
            self.wf(),
        ensures
            r is Some <==> self.as_map().dom().contains(key@),
            r is Some ==> *r->0 == self.as_map()[key@],
    {
        self.interactions.get(key)
    }
}

/// The event subscribers a sequence of handlers holds for one kind, in
/// storage order.
pub open spec fn spec_events_for(handlers: Seq<EventHandler>, kind: EventKind) -> Seq<
    EventHandler,
>
    decreases handlers.len(),
{
    if handlers.len() == 0 {
        Seq::empty()
    } else {
        let rest = spec_events_for(handlers.drop_last(), kind);
        if handlers.last().event == kind {
            rest.push(handlers.last())
        } else {
            rest
        }
    }
}

/// A registry of gateway event subscribers, deduplicated by their
/// (uuid, event kind) identity.
pub struct EventRegistry {
    pub handlers: Vec<EventHandler>,
}

impl EventRegistry {
    /// No two stored subscribers share a (uuid, event kind) identity.
    pub open spec fn wf(&self) -> bool {
        self.handlers@.map_values(|h: EventHandler| (h.uuid@, h.event)).no_duplicates()
    }

    /// An empty registry.
    pub fn new() -> (r: Self)
        ensures
            r.wf(),
            r.handlers@.len() == 0,
    {
        EventRegistry { handlers: Vec::new() }
    }

    /// The index of the subscriber with this identity, if stored.
    fn index_of(&self, uuid: &str, kind: EventKind) -> (r: Option<usize>)
        ensures
            r is Some ==> 0 <= r->0 < self.handlers@.len() && self.handlers@[r->0 as int].uuid@
                == uuid@ && self.handlers@[r->0 as int].event == kind,
            r is None ==> forall|m: int|
                0 <= m < self.handlers@.len() ==> !(#[trigger] self.handlers@[m].uuid@ == uuid@
                    && self.handlers@[m].event == kind),
    {
        let n = self.handlers.len();
        let mut i: usize = 0;
        loop
            invariant
                0 <= i <= n,
                n == self.handlers@.len(),
                forall|m: int|
                    0 <= m < i ==> !(#[trigger] self.handlers@[m].uuid@ == uuid@
                        && self.handlers@[m].event == kind),
            ensures
                i <= n,
                forall|m: int|
                    0 <= m < i ==> !(#[trigger] self.handlers@[m].uuid@ == uuid@
                        && self.handlers@[m].event == kind),
                i < n ==> self.handlers@[i as int].uuid@ == uuid@
                    && self.handlers@[i as int].event == kind,
            decreases n - i,
        {
            if i >= n {
                break;
            }
            if crate::text::str_eq(self.handlers[i].uuid.as_str(), uuid) && self.handlers[i].event
                == kind {
                break;
            }
            i = i + 1;
        }
        if i < n {
            Some(i)
        } else {
            None
        }
    }

    /// Adds a subscriber; one with the same (uuid, event kind) identity is
    /// already stored leaves the registry unchanged, so double registration
    /// is idempotent.
    pub fn insert(&mut self, val: EventHandler) -> (added: bool)
        requires
            old(self).wf(),
        ensures
            final(self).wf(),
            added ==> final(self).handlers@ =~= old(self).handlers@.push(val),
            !added ==> final(self).handlers@ == old(self).handlers@,
            added == !(exists|m: int|
                0 <= m < old(self).handlers@.len() && (#[trigger] old(self).handlers@[m].uuid@)
                    == val.uuid@ && old(self).handlers@[m].event == val.event),
    {
        let found = self.index_of(val.uuid.as_str(), val.event);
        match found {
            Some(i) => {
                proof {
                    assert(old(self).handlers@[i as int].uuid@ == val.uuid@);
                }
                false
            },
            None => {
                let ghost pre = self.handlers@;
                self.handlers.push(val);
                proof {
                    let f = |h: EventHandler| (h.uuid@, h.event);
                    assert forall|m: int, l: int|
                        0 <= m < l < self.handlers@.len() implies #[trigger] self.handlers@.map_values(f)[m]
                        != #[trigger] self.handlers@.map_values(f)[l] by {
                        if l < pre.len() {
                            assert(pre.map_values(f)[m] == self.handlers@.map_values(f)[m]);
                            assert(pre.map_values(f)[l] == self.handlers@.map_values(f)[l]);
                        } else {
                            assert(self.handlers@[l] == val);
                            assert(self.handlers@[m] == pre[m]);
                        }
                    }
                }
                true
            },
        }
    }

    /// Removes the subscriber with `val`'s identity; reports whether one
    /// was stored.
    pub fn remove(&mut self, val: EventHandler) -> (removed: bool)
        requires
            old(self).wf(),
        ensures
            final(self).wf(),
            removed == (exists|m: int|
                0 <= m < old(self).handlers@.len() && (#[trigger] old(self).handlers@[m].uuid@)
                    == val.uuid@ && old(self).handlers@[m].event == val.event),
    {
        let found = self.index_of(val.uuid.as_str(), val.event);
        match found {
            None => false,
            Some(i) => {
                let ghost pre = self.handlers@;
                self.handlers.remove(i);
                proof {
                    let f = |h: EventHandler| (h.uuid@, h.event);
                    let ri = i as int;
                    assert forall|m: int, l: int|
                        0 <= m < l < self.handlers@.len() implies #[trigger] self.handlers@.map_values(f)[m]
                        != #[trigger] self.handlers@.map_values(f)[l] by {
                        let m0 = if m < ri {
                            m
                        } else {
                            m + 1
                        };
                        let l0 = if l < ri {
                            l
                        } else {
                            l + 1
                        };
                        assert(self.handlers@[m] == pre[m0]);
                        assert(self.handlers@[l] == pre[l0]);
                        assert(pre.map_values(f)[m0] != pre.map_values(f)[l0]);
                    }
                    assert(pre[ri].uuid@ == val.uuid@);
                }
                true
            },
        }
    }

    /// The subscribers for one event kind, in storage order; None when
    /// there are none.
    pub fn get_all(&self, key: EventKind) -> (r: Option<Vec<&EventHandler>>)
        ensures
            r is Some <==> spec_events_for(self.handlers@, key).len() > 0,
            r is Some ==> {
                let picked = spec_events_for(self.handlers@, key);
                &&& r->0@.len() == picked.len()
                &&& forall|m: int| 0 <= m < picked.len() ==> *(#[trigger] r->0@[m]) == picked[m]
            },
    {
        let n = self.handlers.len();
        let mut out: Vec<&EventHandler> = Vec::new();
        let mut i: usize = 0;
        proof {
            assert(spec_events_for(self.handlers@.take(0), key) =~= Seq::<EventHandler>::empty());
        }
        loop
            invariant
                0 <= i <= n,
                n == self.handlers@.len(),
                out@.len() == spec_events_for(self.handlers@.take(i as int), key).len(),
                forall|m: int|
                    0 <= m < out@.len() ==> *(#[trigger] out@[m]) == spec_events_for(
                        self.handlers@.take(i as int),
                        key,
                    )[m],
            ensures
                out@.len() == spec_events_for(self.handlers@, key).len(),
                forall|m: int|
                    0 <= m < out@.len() ==> *(#[trigger] out@[m]) == spec_events_for(
                        self.handlers@,
                        key,
                    )[m],
            decreases n - i,
        {
            if i >= n {
                proof {
                    assert(self.handlers@.take(n as int) =~= self.handlers@);
                }
                break;
            }
            proof {
                let t = self.handlers@.take(i as int + 1);
                assert(t.drop_last() =~= self.handlers@.take(i as int));
                assert(t.last() == self.handlers@[i as int]);
            }
            if self.handlers[i].event == key {
                out.push(&self.handlers[i]);
            }
            i = i + 1;
        }
        if out.len() > 0 {
            Some(out)
        } else {
            None
        }
    }
}

/// The periodic tasks, registered before the scheduler starts and handed to
/// it when the service runs.
pub struct TaskService {
    pub handlers: StringMap<TaskHandler>,
    pub running: bool,
}

impl TaskService {
    pub open spec fn wf(&self) -> bool {
        self.handlers.wf()
    }

    /// An empty service, not yet running.
    pub fn new() -> (r: Self)
        ensures
            r.wf(),
            !r.running,
            r.handlers.as_map() =~= Map::<Seq<char>, TaskHandler>::empty(),
    {
        TaskService { handlers: StringMap::new(), running: false }
    }

    /// Registers a task under its name.  Tasks can only be added before the
    /// scheduler runs.
    pub fn insert(&mut self, handler: TaskHandler)
        requires
            old(self).wf(),
            !old(self).running,
        ensures
            final(self).wf(),
            !final(self).running,
            final(self).handlers.as_map() =~= old(self).handlers.as_map().insert(
                handler.name@,
                handler,
            ),
    {
        let name = handler.name.clone();
        self.handlers.insert(name, handler);
    }

    /// Forgets the named task; reports whether it was registered.  Already
    /// running invocations are not touched.
    pub fn remove(&mut self, name: &str) -> (existed: bool)
        requires
            old(self).wf(),
        ensures
            final(self).wf(),
            final(self).running == old(self).running,
            final(self).handlers.as_map() =~= old(self).handlers.as_map().remove(name@),
            existed == old(self).handlers.as_map().dom().contains(name@),
    {
        let removed = self.handlers.remove(name);
        removed.is_some()
    }

    /// Marks the service running and hands out each task's name and cron
    /// expression for the scheduler to launch.
    pub fn run(&mut self) -> (jobs: Vec<(String, String)>)
        requires
            old(self).wf(),
            !old(self).running,
        ensures
            final(self).wf(),
            final(self).running,
            final(self).handlers == old(self).handlers,
            jobs@.len() == old(self).handlers.entries@.len(),
            forall|m: int|
                0 <= m < jobs@.len() ==> (#[trigger] jobs@[m]).0@ == old(
                    self,
                ).handlers.entries@[m].1.name@ && jobs@[m].1@ == old(
                    self,
                ).handlers.entries@[m].1.cron@,
    {
        let n = self.handlers.entries.len();
        let mut jobs: Vec<(String, String)> = Vec::new();
        let mut i: usize = 0;
        loop
            invariant
                0 <= i <= n,
                n == self.handlers.entries@.len(),
                self == old(self),
                jobs@.len() == i,
                forall|m: int|
                    0 <= m < i ==> (#[trigger] jobs@[m]).0@ == self.handlers.entries@[m].1.name@
                        && jobs@[m].1@ == self.handlers.entries@[m].1.cron@,
            ensures
                self == old(self),
                jobs@.len() == n,
                forall|m: int|
                    0 <= m < n ==> (#[trigger] jobs@[m]).0@ == self.handlers.entries@[m].1.name@
                        && jobs@[m].1@ == self.handlers.entries@[m].1.cron@,
            decreases n - i,
        {
            if i >= n {
                break;
            }
            let h = &self.handlers.entries[i].1;
            jobs.push((h.name.clone(), h.cron.clone()));
            i = i + 1;
        }
        self.running = true;
        jobs
    }
}

/// Per-module groups of guild-scoped command handlers.
pub struct GuildCommandRegistry {
    pub groups: StringMap<InteractionRegistry<CommandHandler>>,
}

impl GuildCommandRegistry {
    pub open spec fn wf(&self) -> bool {
        &&& self.groups.wf()
        &&& forall|g: Seq<char>|
            self.groups.as_map().dom().contains(g) ==> (#[trigger] self.groups.as_map()[g]).wf()
    }

    /// An empty registry.
    pub fn new() -> (r: Self)
        ensures
            r.wf(),
            r.groups.as_map() =~= Map::<Seq<char>, InteractionRegistry<CommandHandler>>::empty(),
    {
        GuildCommandRegistry { groups: StringMap::new() }
    }

    /// Adds a handler to the named group, creating the group on first use.
    pub fn insert(&mut self, group: String, handler: CommandHandler)
        requires
            old(self).wf(),
        ensures
            final(self).wf(),
            final(self).groups.as_map().dom() =~= old(self).groups.as_map().dom().insert(group@),
            final(self).groups.as_map()[group@].as_map() =~= (if old(
                self,
            ).groups.as_map().dom().contains(group@) {
                old(self).groups.as_map()[group@].as_map()
            } else {
                Map::<Seq<char>, CommandHandler>::empty()
            }).insert(handler.spec_key(), handler),
            forall|g: Seq<char>|
                old(self).groups.as_map().dom().contains(g) && g != group@
                    ==> #[trigger] final(self).groups.as_map()[g] == old(self).groups.as_map()[g],
    {
        let mut reg = match self.groups.remove(group.as_str()) {
            Some(r) => r,
            None => InteractionRegistry::new(),
        };
        reg.insert(handler);
        self.groups.insert(group, reg);
    }

    /// The handlers of the named group, in storage order.
    pub fn get_group(&self, key: &String) -> (r: Option<Vec<&CommandHandler>>)
        requires
            self.wf(),
        ensures
            r is Some <==> self.groups.as_map().dom().contains(key@),
            r is Some ==> r->0@.len() == self.groups.as_map()[
                key@].interactions.entries@.len(),
            r is Some ==> forall|m: int|
                0 <= m < r->0@.len() ==> *(#[trigger] r->0@[m]) == self.groups.as_map()[
                    key@].interactions.entries@[m].1,
    {
        match self.groups.get(key.as_str()) {
            Some(reg) => Some(reg.values()),
            None => None,
        }
    }

    /// The handler with this command name, searching every group.
    pub fn find_command(&self, name: &String) -> (r: Option<&CommandHandler>)
        requires
            self.wf(),
        ensures
            r is Some <==> (exists|i: int|
                0 <= i < self.groups.entries@.len() && (#[trigger] self.groups.entries@[i].1)
                    .as_map().dom().contains(name@)),
            r is Some ==> (exists|i: int|
                0 <= i < self.groups.entries@.len() && (#[trigger] self.groups.entries@[i].1)
                    .as_map().dom().contains(name@) && *r->0 == self.groups.entries@[i].1.as_map()[
                    name@]),
    {
        let n = self.groups.entries.len();
        let mut i: usize = 0;
        loop
            invariant
                0 <= i <= n,
                n == self.groups.entries@.len(),
                self.wf(),
                forall|m: int|
                    0 <= m < i ==> !(#[trigger] self.groups.entries@[m].1).as_map().dom().contains(
                        name@,
                    ),
            ensures
                i <= n,
                forall|m: int|
                    0 <= m < i ==> !(#[trigger] self.groups.entries@[m].1).as_map().dom().contains(
                        name@,
                    ),
                i < n ==> self.groups.entries@[i as int].1.as_map().dom().contains(name@),
            decreases n - i,
        {
            if i >= n {
                break;
            }
            proof {
                self.groups.lemma_entry_is_value(i as int);
                assert(self.groups.entries@[i as int].1.wf());
            }
            if self.groups.entries[i].1.interactions.contains_key(name.as_str()) {
                break;
            }
            i = i + 1;
        }
        if i < n {
            proof {
                self.groups.lemma_entry_is_value(i as int);
                assert(self.groups.entries@[i as int].1.wf());
            }
            self.groups.entries[i].1.get(name.as_str())
        } else {
            None
        }
    }

    /// Each group's command definitions, as (group, definitions) pairs in
    /// storage order.
    pub fn get_definitions(&self) -> (r: Vec<(String, Vec<CommandDef>)>)
        requires
            self.wf(),
        ensures
            r@.len() == self.groups.entries@.len(),
            forall|m: int|
                0 <= m < r@.len() ==> (#[trigger] r@[m]).0@ == self.groups.entries@[m].0@
                    && r@[m].1@.len() == self.groups.entries@[m].1.interactions.entries@.len(),
            forall|m: int, j: int|
                0 <= m < r@.len() && 0 <= j < (#[trigger] r@[m]).1@.len() ==> ((
                #[trigger] r@[m].1@[j])@ == self.groups.entries@[m].1.interactions.entries@[
                    j].1.definition@),
    {
        let n = self.groups.entries.len();
        let mut out: Vec<(String, Vec<CommandDef>)> = Vec::new();
        let mut i: usize = 0;
        loop
            invariant
                0 <= i <= n,
                n == self.groups.entries@.len(),
                out@.len() == i,
                forall|m: int|
                    0 <= m < i ==> (#[trigger] out@[m]).0@ == self.groups.entries@[m].0@
                        && out@[m].1@.len()
                        == self.groups.entries@[m].1.interactions.entries@.len(),
                forall|m: int, j: int|
                    0 <= m < i && 0 <= j < (#[trigger] out@[m]).1@.len() ==> ((
                    #[trigger] out@[m].1@[j])@ == self.groups.entries@[m].1.interactions.entries@[
                        j].1.definition@),
            ensures
                out@.len() == n,
                forall|m: int, j: int|
                    0 <= m < n && 0 <= j < (#[trigger] out@[m]).1@.len() ==> ((
                    #[trigger] out@[m].1@[j])@ == self.groups.entries@[m].1.interactions.entries@[
                        j].1.definition@),
                forall|m: int|
                    0 <= m < n ==> (#[trigger] out@[m]).0@ == self.groups.entries@[m].0@
                        && out@[m].1@.len()
                        == self.groups.entries@[m].1.interactions.entries@.len(),
            decreases n - i,
        {
            if i >= n {
                break;
            }
            let reg = &self.groups.entries[i].1;
            let hn = reg.interactions.entries.len();
            let mut defs: Vec<CommandDef> = Vec::new();
            let mut j: usize = 0;
            loop
                invariant
                    0 <= j <= hn,
                    hn == reg.interactions.entries@.len(),
                    reg == &self.groups.entries@[i as int].1,
                    defs@.len() == j,
                    forall|q: int|
                        0 <= q < j ==> (#[trigger] defs@[q])@
                            == reg.interactions.entries@[q].1.definition@,
                ensures
                    defs@.len() == hn,
                    forall|q: int|
                        0 <= q < hn ==> (#[trigger] defs@[q])@
                            == self.groups.entries@[i as int].1.interactions.entries@[
                            q].1.definition@,
                decreases hn - j,
            {
                if j >= hn {
                    break;
                }
                defs.push(duplicate_def(&reg.interactions.entries[j].1.definition));
                j = j + 1;
            }
            out.push((self.groups.entries[i].0.clone(), defs));
            i = i + 1;
        }
        out
    }
}

/// The aggregate registry the runtime routes through: global commands,
/// guild-scoped command groups, component handlers, event subscribers, and
/// tasks.
pub struct Registry {
    pub command: InteractionRegistry<CommandHandler>,
    pub guild_command: GuildCommandRegistry,
    pub component_interaction: InteractionRegistry<ComponentInteractionHandler>,
    pub event: EventRegistry,
    pub task: TaskService,
}

impl Registry {
    pub open spec fn wf(&self) -> bool {
        &&& self.command.wf()
        &&& self.guild_command.wf()
        &&& self.component_interaction.wf()
        &&& self.event.wf()
        &&& self.task.wf()
    }

    /// An empty registry.
    pub fn new() -> (r: Self)
        ensures
            r.wf(),
            r.command.as_map() =~= Map::<Seq<char>, CommandHandler>::empty(),
            r.guild_command.groups.as_map() =~= Map::<
                Seq<char>,
                InteractionRegistry<CommandHandler>,
            >::empty(),
            r.component_interaction.as_map() =~= Map::<
                Seq<char>,
                ComponentInteractionHandler,
            >::empty(),
            r.event.handlers@.len() == 0,
            !r.task.running,
    {
        Registry {
            command: InteractionRegistry::new(),
            guild_command: GuildCommandRegistry::new(),
            component_interaction: InteractionRegistry::new(),
            event: EventRegistry::new(),
            task: TaskService::new(),
        }
    }

    /// The handler for a command name: the global command when one is
    /// registered, otherwise the handler a search of the guild-scoped
    /// groups finds; None exactly when neither has the name.
    pub fn find_command(&self, name: &String) -> (r: Option<&CommandHandler>)
        requires
            self.wf(),
        ensures
            self.command.as_map().dom().contains(name@) ==> r is Some && *r->0
                == self.command.as_map()[name@],
            !self.command.as_map().dom().contains(name@) && r is Some ==> (exists|i: int|
                0 <= i < self.guild_command.groups.entries@.len() && (
                #[trigger] self.guild_command.groups.entries@[i].1).as_map().dom().contains(
                    name@,
                ) && *r->0 == self.guild_command.groups.entries@[i].1.as_map()[name@]),
            r is Some <==> (self.command.as_map().dom().contains(name@) || (exists|i: int|
                0 <= i < self.guild_command.groups.entries@.len() && (
                #[trigger] self.guild_command.groups.entries@[i].1).as_map().dom().contains(
                    name@,
                ))),
    {
        match self.command.get(name.as_str()) {
            Some(command) => Some(command),
            None => self.guild_command.find_command(name),
        }
    }

    /// The definitions of every global command, in storage order.
    pub fn get_global_commands(&self) -> (r: Vec<CommandDef>)
        requires
            self.wf(),
        ensures
            r@.len() == self.command.interactions.entries@.len(),
            forall|m: int|
                0 <= m < r@.len() ==> (#[trigger] r@[m])@
                    == self.command.interactions.entries@[m].1.definition@,
    {
        let n = self.command.interactions.entries.len();
        let mut out: Vec<CommandDef> = Vec::new();
        let mut i: usize = 0;
        loop
            invariant
                0 <= i <= n,
                n == self.command.interactions.entries@.len(),
                out@.len() == i,
                forall|m: int|
                    0 <= m < i ==> (#[trigger] out@[m])@
                        == self.command.interactions.entries@[m].1.definition@,
            ensures
                out@.len() == n,
                forall|m: int|
                    0 <= m < n ==> (#[trigger] out@[m])@
                        == self.command.interactions.entries@[m].1.definition@,
            decreases n - i,
        {
            if i >= n {
                break;
            }
            out.push(duplicate_def(&self.command.interactions.entries[i].1.definition));
            i = i + 1;
        }
        out
    }
}

} // verus!
