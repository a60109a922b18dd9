//! Cron schedules and the task scheduler's decision model: which jobs are
//! due, and what their next fire times are.  The cron grammar and time
//! arithmetic come from the `cron` crate (re-exported by
//! `async-cron-scheduler`); the scheduling decisions around it are verified.

use vstd::prelude::*;
use crate::strmap::StringMap;

verus! {

/// The latest schedule instant the library asks about, in unix seconds.
/// chrono's datetimes end around the year 262000; the cron crate probes
/// one second past the given instant, so instants at or beyond this bound
/// (about a quarter of a million years from now) are kept out.
pub const MAX_SCHEDULE_INSTANT: i64 = 8_000_000_000_000;

/// Whether the cron crate accepts this expression (six fields: seconds,
/// minutes, hours, day of month, month, day of week; a seventh for years is
/// also accepted there, as are shorthands such as `@hourly`).
pub uninterp spec fn cron_accepts(expr: Seq<char>) -> bool;

/// The first scheduled time strictly after `after_unix`, by the cron
/// crate's reading of the expression; None when the expression is invalid,
/// the time is out of range, or the schedule is exhausted.
pub uninterp spec fn cron_next(expr: Seq<char>, after_unix: int) -> Option<int>;

/// Relies on cron::Schedule::from_str: whether the expression parses.
#[verifier::external_body]
pub fn cron_validate(expr: &str) -> (r: bool)
    ensures
        r == cron_accepts(expr@),
{
    <async_cron_scheduler::cron::Schedule as std::str::FromStr>::from_str(expr).is_ok()
}

/// Relies on cron::Schedule::after, which yields schedule times strictly
/// after its argument, converted to and from unix seconds with chrono.
/// The crate probes `after + 1s`, which would overflow chrono's datetime
/// range at the end of its calendar, so such instants are excluded.
#[verifier::external_body]
pub fn cron_next_after(expr: &str, after_unix: i64) -> (r: Option<i64>)
    requires
        after_unix < MAX_SCHEDULE_INSTANT,
    ensures
        (r is Some) == (cron_next(expr@, after_unix as int) is Some),
        r is Some ==> r->0 as int == cron_next(expr@, after_unix as int)->0,
        r is Some ==> r->0 > after_unix,
{
    let sched = match <async_cron_scheduler::cron::Schedule as std::str::FromStr>::from_str(
        expr,
    ) {
        Ok(s) => s,
        Err(_) => return None,
    };
    let after = match chrono::DateTime::<chrono::Utc>::from_timestamp(after_unix, 0) {
        Some(t) => t,
        None => return None,
    };
    sched.after(&after).next().map(|dt| dt.timestamp())
}

/// A schedule rejected at registration time.
#[derive(Debug, PartialEq, Eq, Structural, Clone, Copy)]
pub enum ScheduleError {
    /// The cron expression does not parse (for example, it has only five
    /// fields).
    Parse,
}

/// A validated cron expression.
#[derive(Debug)]
pub struct CronSchedule {
    pub expr: String,
}

impl CronSchedule {
    /// The stored expression is one the cron crate accepts.
    pub open spec fn wf(&self) -> bool {
        cron_accepts(self.expr@)
    }

    /// Validates and wraps a cron expression; exactly the expressions the
    /// cron crate accepts are accepted.
    pub fn parse(expr: &str) -> (r: Result<Self, ScheduleError>)
        ensures
            r is Ok <==> cron_accepts(expr@),
            r is Ok ==> r->Ok_0.expr@ == expr@ && r->Ok_0.wf(),
    {
        if cron_validate(expr) {
            Ok(CronSchedule { expr: expr.to_owned() })
        } else {
            Err(ScheduleError::Parse)
        }
    }

    /// The first scheduled time strictly after `after_unix`, which must
    /// lie within the calendar the cron crate can probe.
    pub fn next_after(&self, after_unix: i64) -> (r: Option<i64>)
        requires
            after_unix < MAX_SCHEDULE_INSTANT,
        ensures
            (r is Some) == (cron_next(self.expr@, after_unix as int) is Some),
            r is Some ==> r->0 as int == cron_next(self.expr@, after_unix as int)->0,
            r is Some ==> r->0 > after_unix,
    {
        cron_next_after(self.expr.as_str(), after_unix)
    }
}

/// One scheduled job: a task name, its cron expression, and when it fires
/// next.
pub struct ScheduledJob {
    pub id: u64,
    pub name: String,
    pub expr: String,
    pub next_fire: i64,
}

/// The scheduler's state: the pending jobs and the id for the next job.
/// Running a job never blocks the scheduler and jobs are never serialized
/// per task: a task whose handler overruns its period simply has several
/// invocations in flight.
pub struct Scheduler {
    pub jobs: Vec<ScheduledJob>,
    pub job_map: StringMap<u64>,
    pub next_job_id: u64,
}

impl Scheduler {
    pub open spec fn wf(&self) -> bool {
        self.job_map.wf()
    }

    /// An empty scheduler.
    pub fn new() -> (s: Self)
        ensures
            s.wf(),
            s.jobs@.len() == 0,
            s.job_map.as_map() =~= Map::<Seq<char>, u64>::empty(),
    {
        Scheduler { jobs: Vec::new(), job_map: StringMap::new(), next_job_id: 0 }
    }

    /// Registers a task under `name`: its next fire time is computed fresh
    /// from `now`, so re-adding a task after removing it leaves the next
    /// fire time equal to a fresh computation.  A schedule with no time
    /// after `now` registers nothing.
    pub fn enable_task(&mut self, name: &str, schedule: &CronSchedule, now: i64) -> (enabled:
        bool)
        requires
            old(self).wf(),
            old(self).next_job_id < u64::MAX,
            now < MAX_SCHEDULE_INSTANT,
        ensures
            final(self).wf(),
            enabled == (cron_next(schedule.expr@, now as int) is Some),
            enabled ==> {
                &&& final(self).jobs@ =~= old(self).jobs@.push(final(self).jobs@.last())
                &&& final(self).jobs@.last().name@ == name@
                &&& final(self).jobs@.last().expr@ == schedule.expr@
                &&& final(self).jobs@.last().next_fire as int == cron_next(
                    schedule.expr@,
                    now as int,
                )->0
                &&& final(self).jobs@.last().next_fire > now
                &&& final(self).jobs@.last().id == old(self).next_job_id
                &&& final(self).next_job_id == old(self).next_job_id + 1
                &&& final(self).job_map.as_map() =~= old(self).job_map.as_map().insert(
                    name@,
                    old(self).next_job_id,
                )
            },
            !enabled ==> *final(self) == *old(self),
    {
        match schedule.next_after(now) {
            Some(t) => {
                let id = self.next_job_id;
                self.next_job_id = id + 1;
                self.jobs.push(
                    ScheduledJob {
                        id,
                        name: name.to_owned(),
                        expr: schedule.expr.clone(),
                        next_fire: t,
                    },
                );
                self.job_map.insert(name.to_owned(), id);
                true
            },
            None => false,
        }
    }

    /// Cancels all future fires of the named task.  In-flight invocations
    /// are not touched: the scheduler only forgets the job.
    pub fn disable_task(&mut self, name: &str) -> (removed: bool)
        requires
            old(self).wf(),
        ensures
            final(self).wf(),
            removed == old(self).job_map.as_map().dom().contains(name@),
            final(self).job_map.as_map() =~= old(self).job_map.as_map().remove(name@),
            final(self).jobs@ =~= old(self).jobs@.filter(
                |j: ScheduledJob| j.name@ != name@,
            ),
            final(self).next_job_id == old(self).next_job_id,
    {
        let n = self.jobs.len();
        let mut kept: Vec<ScheduledJob> = Vec::new();
        let mut i: usize = 0;
        proof {
            assert(old(self).jobs@.take(0).filter(|j: ScheduledJob| j.name@ != name@)
                =~= Seq::<ScheduledJob>::empty());
        }
        loop
            invariant
                0 <= i <= n,
                n == self.jobs@.len(),
                self.jobs@ == old(self).jobs@,
                self.job_map == old(self).job_map,
                self.next_job_id == old(self).next_job_id,
                kept@ =~= old(self).jobs@.take(i as int).filter(
                    |j: ScheduledJob| j.name@ != name@,
                ),
            ensures
                self.jobs@ == old(self).jobs@,
                self.job_map == old(self).job_map,
                self.next_job_id == old(self).next_job_id,
                kept@ =~= old(self).jobs@.filter(|j: ScheduledJob| j.name@ != name@),
            decreases n - i,
        {
            if i >= n {
                proof {
                    assert(old(self).jobs@.take(n as int) =~= old(self).jobs@);
                }
                break;
            }
            let keep = !crate::text::str_eq(self.jobs[i].name.as_str(), name);
            proof {
                let pred = |j: ScheduledJob| j.name@ != name@;
                let t = old(self).jobs@.take(i as int + 1);
                assert(t.drop_last() =~= old(self).jobs@.take(i as int));
                assert(t.last() == old(self).jobs@[i as int]);
                reveal(Seq::filter);
            }
            if keep {
                let j = duplicate_job(&self.jobs[i]);
                kept.push(j);
            }
            i = i + 1;
        }
        self.jobs = kept;
        let removed = self.job_map.remove(name);
        removed.is_some()
    }
}

/// A field-for-field copy of a scheduled job.
fn duplicate_job(j: &ScheduledJob) -> (r: ScheduledJob)
    ensures
        r == *j,
{
    ScheduledJob {
        id: j.id,
        name: j.name.clone(),
        expr: j.expr.clone(),
        next_fire: j.next_fire,
    }
}

/// The jobs that launching a task list creates: one per task whose
/// schedule has a time after `now`, in list order, with consecutive ids
/// from `start_id`.
pub open spec fn spec_launched_jobs(
    tasks: Seq<(Seq<char>, Seq<char>)>,
    now: int,
    start_id: int,
) -> Seq<(int, Seq<char>, Seq<char>, int)>
    decreases tasks.len(),
{
    if tasks.len() == 0 {
        Seq::empty()
    } else {
        let rest = spec_launched_jobs(tasks.drop_last(), now, start_id);
        match cron_next(tasks.last().1, now) {
            Some(t) => rest.push(
                (start_id + rest.len(), tasks.last().0, tasks.last().1, t),
            ),
            None => rest,
        }
    }
}

impl Scheduler {
    /// Launches a task list: every task whose schedule still has a time
    /// after `now` is registered with a fresh fire time, in order.  A
    /// task whose schedule is exhausted is skipped.  Returns how many
    /// jobs were registered.
    pub fn run(&mut self, tasks: &Vec<(String, CronSchedule)>, now: i64) -> (launched: usize)
        requires
            old(self).wf(),
            old(self).next_job_id + tasks@.len() <= u64::MAX,
            now < MAX_SCHEDULE_INSTANT,
        ensures
            final(self).wf(),
            launched <= tasks@.len(),
            final(self).next_job_id == old(self).next_job_id + launched,
            final(self).jobs@.len() == old(self).jobs@.len() + launched,
            final(self).jobs@.map_values(
                |j: ScheduledJob| (j.id as int, j.name@, j.expr@, j.next_fire as int),
            ) =~= old(self).jobs@.map_values(
                |j: ScheduledJob| (j.id as int, j.name@, j.expr@, j.next_fire as int),
            ) + spec_launched_jobs(
                tasks@.map_values(|t: (String, CronSchedule)| (t.0@, t.1.expr@)),
                now as int,
                old(self).next_job_id as int,
            ),
    {
        let n = tasks.len();
        let mut i: usize = 0;
        let mut launched: usize = 0;
        let ghost tv = tasks@.map_values(|t: (String, CronSchedule)| (t.0@, t.1.expr@));
        let ghost jview = |j: ScheduledJob| (j.id as int, j.name@, j.expr@, j.next_fire as int);
        proof {
            assert(self.jobs@.map_values(jview) =~= old(self).jobs@.map_values(jview)
                + spec_launched_jobs(tv.take(0), now as int, old(self).next_job_id as int));
        }
        loop
            invariant
                0 <= launched <= i <= n,
                n == tasks@.len(),
                tv == tasks@.map_values(|t: (String, CronSchedule)| (t.0@, t.1.expr@)),
                jview == (|j: ScheduledJob| (
                    j.id as int,
                    j.name@,
                    j.expr@,
                    j.next_fire as int,
                )),
                self.wf(),
                old(self).next_job_id + tasks@.len() <= u64::MAX,
                now < MAX_SCHEDULE_INSTANT,
                self.next_job_id == old(self).next_job_id + launched,
                self.jobs@.len() == old(self).jobs@.len() + launched,
                spec_launched_jobs(tv.take(i as int), now as int, old(self).next_job_id as int)
                    .len() == launched,
                self.jobs@.map_values(jview) =~= old(self).jobs@.map_values(jview)
                    + spec_launched_jobs(
                    tv.take(i as int),
                    now as int,
                    old(self).next_job_id as int,
                ),
            ensures
                launched <= n,
                self.wf(),
                self.next_job_id == old(self).next_job_id + launched,
                self.jobs@.len() == old(self).jobs@.len() + launched,
                self.jobs@.map_values(jview) =~= old(self).jobs@.map_values(jview)
                    + spec_launched_jobs(tv, now as int, old(self).next_job_id as int),
            decreases n - i,
        {
            if i >= n {
                proof {
                    assert(tv.take(n as int) =~= tv);
                }
                break;
            }
            let ghost jobspre = self.jobs@;
            let enabled = self.enable_task(tasks[i].0.as_str(), &tasks[i].1, now);
            proof {
                let t = tv.take(i as int + 1);
                assert(t.drop_last() =~= tv.take(i as int));
                assert(t.last() == tv[i as int]);
                assert(tv[i as int].1 == tasks@[i as int].1.expr@);
                if enabled {
                    assert(self.jobs@.map_values(jview) =~= jobspre.map_values(jview).push(
                        jview(self.jobs@.last()),
                    ));
                }
            }
            if enabled {
                launched = launched + 1;
            }
            i = i + 1;
        }
        launched
    }
}

} // verus!
