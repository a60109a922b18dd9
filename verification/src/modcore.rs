//! The module reconciler: per-guild module enablement rows, the per-guild
//! command set they induce, and the replies of the management commands.

use vstd::prelude::*;
use crate::handler::{CommandDef, CommandDefV, CommandHandler};
use crate::modreg::Registry;
use crate::text::str_eq;

verus! {

/// The durable guild-module table: which optional modules each guild has
/// enabled.  A row is a (guild id, module name) pair, stored at most once.
pub struct GuildModules {
    pub rows: Vec<(u64, String)>,
}

impl View for GuildModules {
    type V = Set<(u64, Seq<char>)>;

    open spec fn view(&self) -> Set<(u64, Seq<char>)> {
        self.rows@.map_values(|r: (u64, String)| (r.0, r.1@)).to_set()
    }
}

impl GuildModules {
    /// No row is stored twice.
    pub open spec fn wf(&self) -> bool {
        self.rows@.map_values(|r: (u64, String)| (r.0, r.1@)).no_duplicates()
    }

    /// An empty table.
    pub fn new() -> (t: Self)
        ensures
            t.wf(),
            t@ =~= Set::<(u64, Seq<char>)>::empty(),
    {
        let t = GuildModules { rows: Vec::new() };
        proof {
            let vs = t.rows@.map_values(|r: (u64, String)| (r.0, r.1@));
            assert forall|p: (u64, Seq<char>)| !t@.contains(p) by {
                assert(!vs.contains(p));
            }
        }
        t
    }

    /// The index of a row, if stored.
    fn index_of(&self, guild_id: u64, module: &str) -> (r: Option<usize>)
        ensures
            r is Some ==> 0 <= r->0 < self.rows@.len() && self.rows@[r->0 as int].0 == guild_id
                && self.rows@[r->0 as int].1@ == module@,
            r is None ==> !self@.contains((guild_id, module@)),
    {
        let n = self.rows.len();
        let mut i: usize = 0;
        loop
            invariant
                0 <= i <= n,
                n == self.rows@.len(),
                forall|m: int|
                    0 <= m < i ==> !((#[trigger] self.rows@[m]).0 == guild_id
                        && self.rows@[m].1@ == module@),
            ensures
                i <= n,
                forall|m: int|
                    0 <= m < i ==> !((#[trigger] self.rows@[m]).0 == guild_id
                        && self.rows@[m].1@ == module@),
                i < n ==> self.rows@[i as int].0 == guild_id && self.rows@[i as int].1@
                    == module@,
            decreases n - i,
        {
            if i >= n {
                break;
            }
            if self.rows[i].0 == guild_id && str_eq(self.rows[i].1.as_str(), module) {
                break;
            }
            i = i + 1;
        }
        if i < n {
            Some(i)
        } else {
            proof {
                let vs = self.rows@.map_values(|r: (u64, String)| (r.0, r.1@));
                if vs.contains((guild_id, module@)) {
                    let j = choose|j: int| 0 <= j < vs.len() && vs[j] == (guild_id, module@);
                    assert(self.rows@[j].0 == guild_id && self.rows@[j].1@ == module@);
                }
            }
            None
        }
    }

    /// Enables a module for a guild: inserts the row unless it is already
    /// there, so enabling twice is the same as enabling once.
    pub fn enable(&mut self, guild_id: u64, module: &str) -> (added: bool)
        requires
            old(self).wf(),
        ensures
            final(self).wf(),
            final(self)@ =~= old(self)@.insert((guild_id, module@)),
            added == !old(self)@.contains((guild_id, module@)),
    {
        match self.index_of(guild_id, module) {
            Some(i) => {
                proof {
                    let vs = self.rows@.map_values(|r: (u64, String)| (r.0, r.1@));
                    assert(vs[i as int] == (guild_id, module@));
                    assert(vs.contains((guild_id, module@)));
                    assert(old(self)@.insert((guild_id, module@)) =~= old(self)@);
                }
                false
            },
            None => {
                let ghost pre = self.rows@;
                self.rows.push((guild_id, module.to_owned()));
                proof {
                    let f = |r: (u64, String)| (r.0, r.1@);
                    let vs = self.rows@.map_values(f);
                    let pvs = pre.map_values(f);
                    assert(vs =~= pvs.push((guild_id, module@)));
                    assert forall|p: (u64, Seq<char>)|
                        vs.to_set().contains(p) == old(self)@.insert(
                            (guild_id, module@),
                        ).contains(p) by {
                        if vs.to_set().contains(p) {
                            let j = choose|j: int| 0 <= j < vs.len() && vs[j] == p;
                            if j < pvs.len() {
                                assert(pvs[j] == p);
                            }
                        }
                        if old(self)@.contains(p) {
                            let j = choose|j: int| 0 <= j < pvs.len() && pvs[j] == p;
                            assert(vs[j] == p);
                        }
                        if p == (guild_id, module@) {
                            assert(vs[vs.len() - 1] == p);
                        }
                    }
                    assert forall|m: int, l: int|
                        0 <= m < l < vs.len() implies vs[m] != vs[l] by {
                        if l < pvs.len() {
                            assert(pvs[m] == vs[m] && pvs[l] == vs[l]);
                        } else {
                            assert(vs[m] == pvs[m]);
                            assert(pvs.contains(pvs[m]));
                        }
                    }
                }
                true
            },
        }
    }

    /// Disables a module for a guild: deletes the row if present.
    pub fn disable(&mut self, guild_id: u64, module: &str) -> (removed: bool)
        requires
            old(self).wf(),
        ensures
            final(self).wf(),
            final(self)@ =~= old(self)@.remove((guild_id, module@)),
            removed == old(self)@.contains((guild_id, module@)),
    {
        match self.index_of(guild_id, module) {
            None => {
                proof {
                    assert(old(self)@.remove((guild_id, module@)) =~= old(self)@);
                }
                false
            },
            Some(i) => {
                let ghost pre = self.rows@;
                self.rows.remove(i);
                proof {
                    let f = |r: (u64, String)| (r.0, r.1@);
                    let vs = self.rows@.map_values(f);
                    let pvs = pre.map_values(f);
                    let ri = i as int;
                    assert(self.rows@ =~= pre.subrange(0, ri) + pre.subrange(
                        ri + 1,
                        pre.len() as int,
                    ));
                    assert forall|m: int| 0 <= m < vs.len() implies vs[m] == pvs[if m < ri {
                        m
                    } else {
                        m + 1
                    }] by {}
                    assert forall|p: (u64, Seq<char>)|
                        vs.to_set().contains(p) == old(self)@.remove(
                            (guild_id, module@),
                        ).contains(p) by {
                        if vs.to_set().contains(p) {
                            let j = choose|j: int| 0 <= j < vs.len() && vs[j] == p;
                            let j0 = if j < ri {
                                j
                            } else {
                                j + 1
                            };
                            assert(pvs[j0] == p);
                            assert(pvs.contains(p));
                            assert(p != (guild_id, module@)) by {
                                if p == (guild_id, module@) {
                                    assert(pvs[ri] == p);
                                    assert(j0 != ri);
                                    assert(false);
                                }
                            }
                        }
                        if old(self)@.contains(p) && p != (guild_id, module@) {
                            let j = choose|j: int| 0 <= j < pvs.len() && pvs[j] == p;
                            assert(j != ri);
                            let j1 = if j < ri {
                                j
                            } else {
                                j - 1
                            };
                            assert(vs[j1] == p);
                        }
                    }
                    assert forall|m: int, l: int|
                        0 <= m < l < vs.len() implies vs[m] != vs[l] by {
                        let m0 = if m < ri {
                            m
                        } else {
                            m + 1
                        };
                        let l0 = if l < ri {
                            l
                        } else {
                            l + 1
                        };
                        assert(vs[m] == pvs[m0] && vs[l] == pvs[l0]);
                    }
                    assert(pvs[ri] == (guild_id, module@));
                    assert(pvs.contains((guild_id, module@)));
                }
                true
            },
        }
    }

    /// The modules enabled for a guild, in row order.
    pub fn modules_for_guild(&self, guild_id: u64) -> (r: Vec<String>)
        ensures
            forall|m: int|
                0 <= m < r@.len() ==> self@.contains((guild_id, (#[trigger] r@[m])@)),
            forall|p: (u64, Seq<char>)|
                #[trigger] self@.contains(p) && p.0 == guild_id ==> (exists|m: int|
                    0 <= m < r@.len() && (#[trigger] r@[m])@ == p.1),
    {
        let n = self.rows.len();
        let mut out: Vec<String> = Vec::new();
        let mut i: usize = 0;
        loop
            invariant
                0 <= i <= n,
                n == self.rows@.len(),
                forall|m: int|
                    0 <= m < out@.len() ==> self@.contains((guild_id, (#[trigger] out@[m])@)),
                forall|j: int|
                    0 <= j < i && (#[trigger] self.rows@[j]).0 == guild_id ==> (exists|m: int|
                        0 <= m < out@.len() && (#[trigger] out@[m])@ == self.rows@[j].1@),
            ensures
                forall|m: int|
                    0 <= m < out@.len() ==> self@.contains((guild_id, (#[trigger] out@[m])@)),
                forall|j: int|
                    0 <= j < n && (#[trigger] self.rows@[j]).0 == guild_id ==> (exists|m: int|
                        0 <= m < out@.len() && (#[trigger] out@[m])@ == self.rows@[j].1@),
            decreases n - i,
        {
            if i >= n {
                break;
            }
            let ghost outpre = out@;
            if self.rows[i].0 == guild_id {
                out.push(self.rows[i].1.clone());
                proof {
                    let f = |r: (u64, String)| (r.0, r.1@);
                    let vs = self.rows@.map_values(f);
                    assert(vs[i as int] == (guild_id, self.rows@[i as int].1@));
                    assert(vs.contains((guild_id, self.rows@[i as int].1@)));
                    assert((out@[out@.len() - 1])@ == self.rows@[i as int].1@);
                    assert forall|j: int|
                        0 <= j < i + 1 && (#[trigger] self.rows@[j]).0 == guild_id implies (
                    exists|m: int|
                        0 <= m < out@.len() && (#[trigger] out@[m])@ == self.rows@[j].1@) by {
                        if j == i {
                            assert(out@[out@.len() - 1]@ == self.rows@[j].1@);
                        } else {
                            let m = choose|m: int|
                                0 <= m < outpre.len() && (#[trigger] outpre[m])@
                                    == self.rows@[j].1@;
                            assert(out@[m] == outpre[m]);
                        }
                    }
                }
            }
            i = i + 1;
        }
        proof {
            assert forall|p: (u64, Seq<char>)|
                #[trigger] self@.contains(p) && p.0 == guild_id implies (exists|m: int|
                0 <= m < out@.len() && (#[trigger] out@[m])@ == p.1) by {
                let f = |r: (u64, String)| (r.0, r.1@);
                let vs = self.rows@.map_values(f);
                assert(vs.contains(p));
                let j = choose|j: int| 0 <= j < vs.len() && vs[j] == p;
                assert(self.rows@[j].0 == guild_id && self.rows@[j].1@ == p.1);
            }
        }
        out
    }
}

/// The command definitions a guild gets: the concatenation of the command
/// definitions of each enabled module that the registry knows, in order.
pub open spec fn spec_guild_defs(reg: &Registry, enabled: Seq<Seq<char>>) -> Seq<CommandDefV>
    decreases enabled.len(),
{
    if enabled.len() == 0 {
        Seq::empty()
    } else {
        spec_guild_defs(reg, enabled.drop_last()) + (if reg.modules.as_map().dom().contains(
            enabled.last(),
        ) {
            reg.modules.as_map()[enabled.last()].commands.entries@.map_values(
                |e: (String, CommandHandler)| e.1.definition@,
            )
        } else {
            Seq::empty()
        })
    }
}

/// Computes the full command set for a guild from its enabled modules:
/// exactly the union (as a concatenation) of the known modules' commands.
/// This is what the reconciler publishes upstream in one bulk call.
pub fn guild_commands(reg: &Registry, enabled: &Vec<String>) -> (r: Vec<CommandDef>)
    requires
        reg.wf(),
    ensures
        r@.map_values(|d: CommandDef| d@) =~= spec_guild_defs(
            reg,
            enabled@.map_values(|s: String| s@),
        ),
{
    let n = enabled.len();
    let mut out: Vec<CommandDef> = Vec::new();
    let mut i: usize = 0;
    let ghost ens = enabled@.map_values(|s: String| s@);
    proof {
        assert(out@.map_values(|d: CommandDef| d@) =~= spec_guild_defs(reg, ens.take(0)));
    }
    loop
        invariant
            0 <= i <= n,
            n == enabled@.len(),
            reg.wf(),
            ens == enabled@.map_values(|s: String| s@),
            out@.map_values(|d: CommandDef| d@) =~= spec_guild_defs(reg, ens.take(i as int)),
        ensures
            out@.map_values(|d: CommandDef| d@) =~= spec_guild_defs(reg, ens),
        decreases n - i,
    {
        if i >= n {
            proof {
                assert(ens.take(n as int) =~= ens);
            }
            break;
        }
        let ghost pre = out@;
        match reg.module_commands(enabled[i].as_str()) {
            Some(mut defs) => {
                let dn = defs.len();
                let ghost defsv = defs@.map_values(|d: CommandDef| d@);
                let mut j: usize = 0;
                loop
                    invariant
                        0 <= j <= dn,
                        dn == defs@.len(),
                        defsv == defs@.map_values(|d: CommandDef| d@),
                        out@.map_values(|d: CommandDef| d@) =~= pre.map_values(
                            |d: CommandDef| d@,
                        ) + defsv.take(j as int),
                    ensures
                        out@.map_values(|d: CommandDef| d@) =~= pre.map_values(
                            |d: CommandDef| d@,
                        ) + defsv,
                    decreases dn - j,
                {
                    if j >= dn {
                        proof {
                            assert(defsv.take(dn as int) =~= defsv);
                        }
                        break;
                    }
                    let ghost outpre = out@;
                    let d = crate::handler::duplicate_def(&defs[j]);
                    out.push(d);
                    proof {
                        assert(out@.map_values(|x: CommandDef| x@) =~= outpre.map_values(
                            |x: CommandDef| x@,
                        ).push(defsv[j as int]));
                        assert(defsv.take(j as int + 1) =~= defsv.take(j as int).push(
                            defsv[j as int],
                        ));
                    }
                    j = j + 1;
                }
            },
            None => {},
        }
        proof {
            let t = ens.take(i as int + 1);
            assert(t.drop_last() =~= ens.take(i as int));
            assert(t.last() == ens[i as int]);
            assert(ens[i as int] == enabled@[i as int]@);
        }
        i = i + 1;
    }
    out
}

/// Every command of every enabled module that the registry knows is in the
/// guild's published command set: after a reconcile with no intervening
/// change, a module's commands are a subset of its guilds' upstream set.
pub proof fn lemma_guild_defs_cover(
    reg: &Registry,
    enabled: Seq<Seq<char>>,
    mi: int,
    ci: int,
)
    requires
        0 <= mi < enabled.len(),
        reg.modules.as_map().dom().contains(enabled[mi]),
        0 <= ci < reg.modules.as_map()[enabled[mi]].commands.entries@.len(),
    ensures
        spec_guild_defs(reg, enabled).contains(
            reg.modules.as_map()[enabled[mi]].commands.entries@[ci].1.definition@,
        ),
    decreases enabled.len(),
{
    let g = |e: (String, CommandHandler)| e.1.definition@;
    let target = reg.modules.as_map()[enabled[mi]].commands.entries@[ci].1.definition@;
    if mi == enabled.len() - 1 {
        let tail = reg.modules.as_map()[enabled.last()].commands.entries@.map_values(g);
        assert(tail[ci] == target);
        assert(spec_guild_defs(reg, enabled)[spec_guild_defs(reg, enabled.drop_last()).len()
            + ci] == target);
    } else {
        assert(enabled.drop_last()[mi] == enabled[mi]);
        lemma_guild_defs_cover(reg, enabled.drop_last(), mi, ci);
        let prev = spec_guild_defs(reg, enabled.drop_last());
        let j = choose|j: int| 0 <= j < prev.len() && prev[j] == target;
        assert(spec_guild_defs(reg, enabled)[j] == target);
    }
}

/// Enabling a module twice is enabling it once: the row set, and with it
/// the guild's published command set, are unchanged by the second call.
pub proof fn lemma_enable_idempotent(rows: Set<(u64, Seq<char>)>, guild_id: u64, module: Seq<char>)
    ensures
        rows.insert((guild_id, module)).insert((guild_id, module)) =~= rows.insert(
            (guild_id, module),
        ),
{
}

/// Renders the module management reply: the enabled modules, then the
/// remaining available ones.
pub fn format_modules_reply(enabled: &Vec<String>, available: &Vec<String>) -> (r: String)
    ensures
        r@ == "Enabled: "@ + spec_join(enabled@.map_values(|s: String| s@), ", "@)
            + "\nAvailable: "@ + spec_join(available@.map_values(|s: String| s@), ", "@),
{
    let mut out = String::new();
    out.append("Enabled: ");
    let e = join_comma(enabled);
    out.append(e.as_str());
    out.append("\nAvailable: ");
    let a = join_comma(available);
    out.append(a.as_str());
    out
}

/// The elements of `parts` joined by `sep`.
pub open spec fn spec_join(parts: Seq<Seq<char>>, sep: Seq<char>) -> Seq<char>
    decreases parts.len(),
{
    if parts.len() == 0 {
        Seq::empty()
    } else if parts.len() == 1 {
        parts[0]
    } else {
        spec_join(parts.drop_last(), sep) + sep + parts.last()
    }
}

/// Joins strings with ", ".
pub fn join_comma(parts: &Vec<String>) -> (r: String)
    ensures
        r@ == spec_join(parts@.map_values(|s: String| s@), ", "@),
{
    let n = parts.len();
    let mut out = String::new();
    let mut i: usize = 0;
    let ghost pv = parts@.map_values(|s: String| s@);
    proof {
        assert(pv.take(0) =~= Seq::<Seq<char>>::empty());
    }
    loop
        invariant
            0 <= i <= n,
            n == parts@.len(),
            pv == parts@.map_values(|s: String| s@),
            out@ == spec_join(pv.take(i as int), ", "@),
        ensures
            out@ == spec_join(pv, ", "@),
        decreases n - i,
    {
        if i >= n {
            proof {
                assert(pv.take(n as int) =~= pv);
            }
            break;
        }
        if i > 0 {
            out.append(", ");
        }
        out.append(parts[i].as_str());
        proof {
            let t = pv.take(i as int + 1);
            assert(t.drop_last() =~= pv.take(i as int));
            assert(t.last() == pv[i as int]);
            if i == 0 {
                assert(t.len() == 1);
                assert(out@ =~= t[0]);
                assert(out@ == spec_join(t, ", "@));
            }
        }
        i = i + 1;
    }
    out
}

/// The guild-scoped modules that are not currently enabled, in order.
pub fn available_modules(all_guild_modules: &Vec<String>, enabled: &Vec<String>) -> (r: Vec<
    String,
>)
    ensures
        r@.map_values(|s: String| s@) =~= all_guild_modules@.map_values(
            |s: String| s@,
        ).filter(
            |name: Seq<char>| !enabled@.map_values(|s: String| s@).contains(name),
        ),
{
    let n = all_guild_modules.len();
    let mut out: Vec<String> = Vec::new();
    let mut i: usize = 0;
    let ghost av = all_guild_modules@.map_values(|s: String| s@);
    let ghost ev = enabled@.map_values(|s: String| s@);
    let ghost pred = |name: Seq<char>| !ev.contains(name);
    proof {
        reveal(Seq::filter);
        assert(out@.map_values(|s: String| s@) =~= av.take(0).filter(pred));
    }
    loop
        invariant
            0 <= i <= n,
            n == all_guild_modules@.len(),
            av == all_guild_modules@.map_values(|s: String| s@),
            ev == enabled@.map_values(|s: String| s@),
            pred == (|name: Seq<char>| !ev.contains(name)),
            out@.map_values(|s: String| s@) =~= av.take(i as int).filter(pred),
        ensures
            out@.map_values(|s: String| s@) =~= av.filter(pred),
        decreases n - i,
    {
        if i >= n {
            proof {
                assert(av.take(n as int) =~= av);
            }
            break;
        }
        let mut found = false;
        let en = enabled.len();
        let mut j: usize = 0;
        loop
            invariant
                0 <= j <= en,
                en == enabled@.len(),
                ev == enabled@.map_values(|s: String| s@),
                i < n,
                n == all_guild_modules@.len(),
                av == all_guild_modules@.map_values(|s: String| s@),
                !found ==> forall|m: int| 0 <= m < j ==> ev[m] != av[i as int],
                found ==> ev.contains(av[i as int]),
            ensures
                found == ev.contains(av[i as int]),
            decreases en - j,
        {
            if j >= en {
                proof {
                    if ev.contains(av[i as int]) && !found {
                        let w = choose|w: int| 0 <= w < ev.len() && ev[w] == av[i as int];
                        assert(false);
                    }
                }
                break;
            }
            if str_eq(enabled[j].as_str(), all_guild_modules[i].as_str()) {
                found = true;
                proof {
                    assert(ev[j as int] == av[i as int]);
                    assert(ev.contains(av[i as int]));
                }
                j = en;
            } else {
                j = j + 1;
            }
        }
        let ghost outpre = out@;
        if !found {
            out.push(all_guild_modules[i].clone());
        }
        proof {
            reveal(Seq::filter);
            let t = av.take(i as int + 1);
            assert(t.drop_last() =~= av.take(i as int));
            assert(t.last() == av[i as int]);
            if !found {
                assert(out@.map_values(|s: String| s@) =~= outpre.map_values(
                    |s: String| s@,
                ).push(av[i as int]));
            }
        }
        i = i + 1;
    }
    out
}

} // verus!
