//! Deciding when a scheduled job runs.
//!
//! A scheduler is ticked by its caller, often several times a second. Each
//! tick decides whether the job starts now; the caller reads the clocks,
//! knows whether a run is still busy, and starts the job where told to.
use vstd::prelude::*;

use crate::pattern::{standard_pattern, PatternModel};
use crate::search::{
    answers, first_match, found_by_rule, job_type_spec, nearest_by_rule, on_walk_from,
    once_in_zone, rule_answer, search_owed_from, walked_without_answer,
};
use crate::time::cursor::Cursor;
use crate::time::{CivilDateTime, CronDateTime};
use crate::{Cron, Direction};

verus! {

/// Whether a scheduler is running its job.
#[derive(Debug, Clone, Copy, PartialEq, Eq, Structural)]
pub enum SchedulerState {
    Running,
    Paused,
    Stopped,
}

/// What a tick asks of the caller.
#[derive(Debug, Clone, Copy, PartialEq, Eq, Structural)]
pub enum TickAction {
    /// No further work: the scheduler is stopped, or no occurrence is
    /// left.
    Finished,
    /// Nothing to do on this tick.
    Wait,
    /// Start the job now.
    Run,
}

/// The value handed to each run of a scheduled job, if one was given.
pub struct ScheduledTaskContext<C> where C: Send + Sync + 'static {
    context: Option<C>,
}

impl<C> ScheduledTaskContext<C> where C: Send + Sync + 'static {
    /// The value held.
    pub closed spec fn held(&self) -> Option<C> {
        self.context
    }

    /// A context that holds `context`.
    pub fn new(context: C) -> (s: Self)
        ensures
            s.held() == Some(context),
    {
        ScheduledTaskContext { context: Some(context) }
    }

    /// The value held, by reference.
    pub fn get(&self) -> (r: Option<&C>)
        ensures
            r matches Some(c) ==> self.held() == Some(*c),
            r is None <==> self.held() is None,
    {
        match &self.context {
            Some(c) => Some(c),
            None => None,
        }
    }
}

/// Whether a tick may start the job: the scheduler is not stopped, no run
/// holds its only worker, and it has not started a run in this second.
pub open spec fn may_run(
    state: SchedulerState,
    last_start: Option<i64>,
    now_second: i64,
    busy: bool,
    single_worker: bool,
) -> bool {
    &&& !(state is Stopped)
    &&& !(busy && single_worker)
    &&& !(last_start matches Some(l) && now_second <= l)
}

/// Whether no matching wall clock time that reads as `now` answers a search
/// from `now` with `now`'s own instant, by the rules.
pub open spec fn no_answer_now<T: CronDateTime>(p: PatternModel, now: T) -> bool {
    forall|m: CivilDateTime, x: T|
        #![trigger now.resolution_spec(m), x.instant()]
        m@ == now.civil_spec() && m@.wf() && p.matches(m@) && rule_answer(
            p,
            now,
            m,
            job_type_spec(p),
            true,
            Direction::Forward,
            x,
        ) ==> x.instant() != now.instant()
}

/// A schedule with the state that decides its runs.
pub struct CronScheduler {
    cron: Cron,
    state: SchedulerState,
    last_start: Option<i64>,
    max_executions: Option<usize>,
}

impl CronScheduler {
    /// The schedule.
    pub closed spec fn cron(&self) -> Cron {
        self.cron
    }

    /// Whether the scheduler runs, is paused or is stopped.
    pub closed spec fn state(&self) -> SchedulerState {
        self.state
    }

    /// The second, in seconds since the epoch, at which the job last
    /// started.
    pub closed spec fn last_start(&self) -> Option<i64> {
        self.last_start
    }

    /// The most runs configured.
    pub closed spec fn max_executions(&self) -> Option<usize> {
        self.max_executions
    }

    /// A stopped scheduler for a schedule, that has never run.
    pub fn new(cron: Cron) -> (s: CronScheduler)
        ensures
            s.cron() == cron,
            s.state() == SchedulerState::Stopped,
            s.last_start() is None,
            s.max_executions() is None,
    {
        CronScheduler {
            cron,
            state: SchedulerState::Stopped,
            last_start: None,
            max_executions: None,
        }
    }

    /// Starts running the job.
    pub fn start(&mut self)
        ensures
            final(self).state() == SchedulerState::Running,
            final(self).cron() == old(self).cron(),
            final(self).last_start() == old(self).last_start(),
            final(self).max_executions() == old(self).max_executions(),
    {
        self.state = SchedulerState::Running;
    }

    /// Pauses the scheduler.
    pub fn pause(&mut self)
        ensures
            final(self).state() == SchedulerState::Paused,
            final(self).cron() == old(self).cron(),
            final(self).last_start() == old(self).last_start(),
            final(self).max_executions() == old(self).max_executions(),
    {
        self.state = SchedulerState::Paused;
    }

    /// Resumes running the job.
    pub fn resume(&mut self)
        ensures
            final(self).state() == SchedulerState::Running,
            final(self).cron() == old(self).cron(),
            final(self).last_start() == old(self).last_start(),
            final(self).max_executions() == old(self).max_executions(),
    {
        self.state = SchedulerState::Running;
    }

    /// Sets the most runs.
    pub fn with_max_executions(self, max: usize) -> (s: CronScheduler)
        ensures
            s.max_executions() == Some(max),
            s.cron() == self.cron(),
            s.state() == self.state(),
            s.last_start() == self.last_start(),
    {
        CronScheduler { max_executions: Some(max), ..self }
    }

    /// Whether the scheduler runs.
    pub fn is_running(&self) -> (b: bool)
        ensures
            b == (self.state() == SchedulerState::Running),
    {
        match self.state {
            SchedulerState::Running => true,
            _ => false,
        }
    }

    /// Whether the scheduler is stopped.
    pub fn is_stopped(&self) -> (b: bool)
        ensures
            b == (self.state() == SchedulerState::Stopped),
    {
        match self.state {
            SchedulerState::Stopped => true,
            _ => false,
        }
    }

    /// The second at which the job last started, if it has.
    pub fn previous_or_current_run(&self) -> (r: Option<i64>)
        ensures
            r == self.last_start(),
    {
        self.last_start
    }

    /// The next run at or after `from`, or `None` where the search finds
    /// none.
    pub fn next_run_from<T: CronDateTime>(&self, from: &T) -> (r: Option<T>)
        ensures
            r matches Some(x) ==> from.instant() <= x.instant() && answers(
                self.cron().pattern@,
                x.civil_spec(),
            ),
            r matches Some(x) ==> found_by_rule(
                self.cron().pattern@,
                *from,
                true,
                Direction::Forward,
                x,
            ),
            once_in_zone(*from) ==> (r matches Some(x) ==> nearest_by_rule(
                self.cron().pattern@,
                *from,
                true,
                Direction::Forward,
                x,
            )),
            from.fixed_offset() is Some ==> (r matches Some(x) ==> first_match(
                self.cron().pattern@,
                from.civil_spec(),
                x.civil_spec(),
                true,
                Direction::Forward,
            ) && x.fixed_offset() == from.fixed_offset() && x.civil_spec().wf() && x.instant()
                - from.instant() == (x.civil_spec().seconds() - from.civil_spec().seconds())
                * 1_000_000_000),
            from.fixed_offset() is Some && standard_pattern(self.cron().pattern@) && search_owed_from(
                self.cron().pattern@,
                from.civil_spec(),
                true,
                Direction::Forward,
            ) ==> r is Some,
    {
        match self.cron.find_next_occurrence(from, true) {
            Ok(x) => Some(x),
            Err(_) => None,
        }
    }

    /// The next run after `after`, or `None` where the search finds none.
    pub fn next_run_after<T: CronDateTime>(&self, after: &T) -> (r: Option<T>)
        ensures
            r matches Some(x) ==> after.instant() < x.instant() && answers(
                self.cron().pattern@,
                x.civil_spec(),
            ),
            r matches Some(x) ==> found_by_rule(
                self.cron().pattern@,
                *after,
                false,
                Direction::Forward,
                x,
            ),
            once_in_zone(*after) ==> (r matches Some(x) ==> nearest_by_rule(
                self.cron().pattern@,
                *after,
                false,
                Direction::Forward,
                x,
            )),
            after.fixed_offset() is Some ==> (r matches Some(x) ==> first_match(
                self.cron().pattern@,
                after.civil_spec(),
                x.civil_spec(),
                false,
                Direction::Forward,
            ) && x.fixed_offset() == after.fixed_offset() && x.civil_spec().wf() && x.instant()
                - after.instant() == (x.civil_spec().seconds() - after.civil_spec().seconds())
                * 1_000_000_000),
            after.fixed_offset() is Some && standard_pattern(self.cron().pattern@) && search_owed_from(
                self.cron().pattern@,
                after.civil_spec(),
                false,
                Direction::Forward,
            ) ==> r is Some,
    {
        match self.cron.find_next_occurrence(after, false) {
            Ok(x) => Some(x),
            Err(_) => None,
        }
    }

    /// Up to `count` runs after `after`, in order; fewer where the search
    /// ends early.
    pub fn next_runs<T: CronDateTime>(&self, after: T, count: usize) -> (runs: Vec<T>)
        ensures
            runs.len() <= count,
            forall|i: int|
                0 <= i < runs.len() ==> answers(self.cron().pattern@, #[trigger] runs[i].civil_spec()),
            runs.len() > 0 ==> after.instant() < runs[0].instant(),
            forall|i: int|
                0 < i < runs.len() ==> #[trigger] runs[i - 1].instant() < runs[i].instant(),
            after.fixed_offset() is Some && runs.len() > 0 ==> first_match(
                self.cron().pattern@,
                after.civil_spec(),
                runs[0].civil_spec(),
                false,
                Direction::Forward,
            ),
            after.fixed_offset() is Some ==> forall|i: int|
                0 < i < runs.len() ==> first_match(
                    self.cron().pattern@,
                    runs[i - 1].civil_spec(),
                    #[trigger] runs[i].civil_spec(),
                    false,
                    Direction::Forward,
                ),
            after.fixed_offset() is Some && standard_pattern(self.cron().pattern@) && runs.len()
                < count ==> !search_owed_from(
                self.cron().pattern@,
                if runs.len() == 0 {
                    after.civil_spec()
                } else {
                    runs@.last().civil_spec()
                },
                false,
                Direction::Forward,
            ),
    {
        let mut it = self.cron.iter_after(after);
        let ghost p = self.cron().pattern@;
        let ghost start = it.current();
        let mut runs: Vec<T> = Vec::new();
        while runs.len() < count
            invariant
                runs.len() <= count,
                it.cron().pattern@ == p,
                p == self.cron().pattern@,
                it.direction() == Direction::Forward,
                !it.includes_current(),
                start == after,
                runs.len() == 0 ==> it.current() == start,
                forall|i: int| 0 <= i < runs.len() ==> answers(p, #[trigger] runs[i].civil_spec()),
                forall|i: int|
                    0 < i < runs.len() ==> #[trigger] runs[i - 1].instant() < runs[i].instant(),
                runs.len() > 0 ==> {
                    &&& after.instant() < runs[0].instant()
                    &&& it.current().instant() == runs@.last().instant()
                    &&& it.current().civil_spec() == runs@.last().civil_spec()
                    &&& after.fixed_offset() is Some ==> it.current().fixed_offset()
                        == after.fixed_offset()
                },
                after.fixed_offset() is Some && runs.len() > 0 ==> first_match(
                    p,
                    after.civil_spec(),
                    runs[0].civil_spec(),
                    false,
                    Direction::Forward,
                ),
                after.fixed_offset() is Some ==> forall|i: int|
                    0 < i < runs.len() ==> first_match(
                        p,
                        runs[i - 1].civil_spec(),
                        #[trigger] runs[i].civil_spec(),
                        false,
                        Direction::Forward,
                    ),
            ensures
                after.fixed_offset() is Some && standard_pattern(p) && runs.len() < count
                    ==> !search_owed_from(
                    p,
                    if runs.len() == 0 {
                        after.civil_spec()
                    } else {
                        runs@.last().civil_spec()
                    },
                    false,
                    Direction::Forward,
                ),
            decreases count - runs.len(),
        {
            let ghost before = it.current();
            match it.next() {
                Some(x) => {
                    runs.push(x);
                },
                None => {
                    break ;
                },
            }
            proof {
                if runs.len() > 1 {
                    let k = runs.len() - 1;
                    assert(runs[k - 1].instant() == before.instant());
                }
            }
        }
        runs
    }

    /// Where the next run from `now` lies after it, and `now` is on no
    /// repeated range, no matching time that reads as `now` answers with
    /// `now`'s instant.
    proof fn lemma_no_answer_now<T: CronDateTime>(&self, now: T, next: T)
        requires
            nearest_by_rule(self.cron().pattern@, now, true, Direction::Forward, next),
            now.instant() < next.instant(),
        ensures
            no_answer_now(self.cron().pattern@, now),
    {
        let p = self.cron().pattern@;
        let m0 = choose|m: CivilDateTime|
            #![trigger now.resolution_spec(m)]
            m@.wf() && p.matches(m@) && on_walk_from(now.civil_spec(), true, Direction::Forward, m@)
                && rule_answer(p, now, m, job_type_spec(p), true, Direction::Forward, next)
                && walked_without_answer(p, now, true, Direction::Forward, m@);
        assert forall|m: CivilDateTime, x: T|
            #![trigger now.resolution_spec(m), x.instant()]
            m@ == now.civil_spec() && m@.wf() && p.matches(m@) && rule_answer(
                p,
                now,
                m,
                job_type_spec(p),
                true,
                Direction::Forward,
                x,
            ) implies x.instant() != now.instant() by {
            if m0@.seconds() == m@.seconds() {
                crate::search::lemma_single_second(m0@, m@);
                crate::time::lemma_civil_view_injective(m0, m);
                crate::search::lemma_rule_answer_unique(
                    p,
                    now,
                    m,
                    job_type_spec(p),
                    true,
                    Direction::Forward,
                    x,
                    next,
                );
            } else {
                assert(crate::search::in_walk(now.civil_spec(), true, Direction::Forward, m@, m0@));
            }
        }
    }

    /// Decides one tick at the time `now`. `now_second` is `now` in
    /// seconds since the epoch, `clock_second` the present second of the
    /// clock that stamps the start of runs, `busy` whether a run is still
    /// going, and `single_worker` whether one run at a time can go.
    ///
    /// A stopped scheduler is finished. A busy single worker waits, and so
    /// does a tick in a second no later than the last start. Otherwise the
    /// job runs where the next occurrence from `now` is `now` itself; it
    /// waits where that occurrence is later, and the schedule is finished
    /// where the search finds none.
    pub fn tick<T: CronDateTime>(
        &mut self,
        now: &T,
        now_second: i64,
        clock_second: i64,
        busy: bool,
        single_worker: bool,
    ) -> (a: TickAction)
        ensures
            final(self).cron() == old(self).cron(),
            final(self).state() == old(self).state(),
            final(self).max_executions() == old(self).max_executions(),
            final(self).last_start() == (if a is Run {
                Some(clock_second)
            } else {
                old(self).last_start()
            }),
            old(self).state() is Stopped ==> a is Finished,
            !(old(self).state() is Stopped) && busy && single_worker ==> a is Wait,
            !(old(self).state() is Stopped) && !(busy && single_worker) && (old(
                self,
            ).last_start() matches Some(l) && now_second <= l) ==> a is Wait,
            a is Run ==> !(old(self).state() is Stopped) && !(busy && single_worker) && !(old(
                self,
            ).last_start() matches Some(l) && now_second <= l),
            a is Run ==> exists|x: T|
                #![trigger x.civil_spec()]
                x.instant() == now.instant() && answers(old(self).cron().pattern@, x.civil_spec()),
            now.fixed_offset() is Some ==> (a is Run ==> old(self).cron().pattern@.matches(
                now.civil_spec(),
            )),
            now.fixed_offset() is Some ==> (a is Wait && !(old(self).state() is Stopped) && !(busy
                && single_worker) && !(old(self).last_start() matches Some(l) && now_second <= l)
                ==> !old(self).cron().pattern@.matches(now.civil_spec())),
            now.fixed_offset() is Some && standard_pattern(old(self).cron().pattern@)
                && search_owed_from(
                old(self).cron().pattern@,
                now.civil_spec(),
                true,
                Direction::Forward,
            ) && !(old(self).state() is Stopped) ==> !(a is Finished),
            a is Run ==> exists|x: T|
                #![trigger x.civil_spec()]
                x.instant() == now.instant() && found_by_rule(
                    old(self).cron().pattern@,
                    *now,
                    true,
                    Direction::Forward,
                    x,
                ),
            may_run(old(self).state(), old(self).last_start(), now_second, busy, single_worker) && a is Wait
                ==> exists|x: T|
                #![trigger x.civil_spec()]
                now.instant() < x.instant() && found_by_rule(
                    old(self).cron().pattern@,
                    *now,
                    true,
                    Direction::Forward,
                    x,
                ),
            may_run(old(self).state(), old(self).last_start(), now_second, busy, single_worker) && a is Wait
                && once_in_zone(*now) ==> no_answer_now(old(self).cron().pattern@, *now),
    {
        if let SchedulerState::Stopped = self.state {
            return TickAction::Finished;
        }
        if busy && single_worker {
            return TickAction::Wait;
        }
        if let Some(last) = self.last_start {
            if now_second <= last {
                return TickAction::Wait;
            }
        }
        let _ = Cursor::new(now);
        match self.next_run_from(now) {
            Some(next) => {
                if now.is_before(&next) {
                    proof {
                        if once_in_zone(*now) {
                            self.lemma_no_answer_now(*now, next);
                        }
                    }
                    TickAction::Wait
                } else {
                    proof {
                        if now.fixed_offset() is Some {
                            crate::search::lemma_single_second(now.civil_spec(), next.civil_spec());
                        }
                    }
                    self.last_start = Some(clock_second);
                    TickAction::Run
                }
            },
            None => TickAction::Finished,
        }
    }
}

} // verus!
