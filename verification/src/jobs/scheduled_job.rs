//! A job together with its schedule.
use crate::database::Database;
use crate::jobs::job::Job;
use crate::jobs::scheduling_strategy::{
    start_of, validation, SchedulingStrategy, SchedulingStrategyError,
};
use vstd::prelude::*;

verus! {

/// The instant one interval after `start`, where it can be told in 64 bits.
pub open spec fn next_start(start: i64, interval: i64) -> Option<i64> {
    if i64::MIN <= start + interval <= i64::MAX {
        Some((start + interval) as i64)
    } else {
        None
    }
}

/// The strategy after one run, and whether that run was the last.
///
/// A single run is the last. Of `n` runs the strategy goes on with one run
/// less, and the run that leaves none is the last. Between two instants the
/// run is the last when the next would not fall before the end. A run whose
/// successor cannot be told in 64 bits is the last as well, and the strategy
/// stays as it is.
pub open spec fn advanced(strategy: SchedulingStrategy) -> (SchedulingStrategy, bool) {
    match strategy {
        SchedulingStrategy::Once { start_at } => (strategy, true),
        SchedulingStrategy::NTimes { n, start_at, interval } => match next_start(
            start_at,
            interval,
        ) {
            Some(next) if n > 0 => (
                SchedulingStrategy::NTimes { n: (n - 1) as u64, start_at: next, interval },
                n == 1,
            ),
            _ => (strategy, true),
        },
        SchedulingStrategy::Between { start_at, end_at, interval } => match next_start(
            start_at,
            interval,
        ) {
            Some(next) if end_at - start_at > interval => (
                SchedulingStrategy::Between { start_at: next, end_at, interval },
                false,
            ),
            _ => (strategy, true),
        },
        SchedulingStrategy::Indefinite { start_at, interval } => match next_start(
            start_at,
            interval,
        ) {
            Some(next) => (SchedulingStrategy::Indefinite { start_at: next, interval }, false),
            None => (strategy, true),
        },
    }
}

/// A job, its schedule, the instant of its next run, and whether it has
/// any run left.
pub struct ScheduledJob<J: Job> {
    task: J,
    scheduling_strategy: SchedulingStrategy,
    next_run: i64,
    expired: bool,
}

/// `after` is `before` one run later: the strategy has gone on by one run,
/// the job has expired if it had before or the run was its last, and the
/// instant of its next run is the strategy's start.
pub open spec fn stepped<J: Job>(before: ScheduledJob<J>, after: ScheduledJob<J>) -> bool {
    &&& after.strategy() == advanced(before.strategy()).0
    &&& after.expired() == (before.expired() || advanced(before.strategy()).1)
    &&& after.wf()
}

impl<J: Job> ScheduledJob<J> {
    /// What the job does when it runs.
    pub closed spec fn task(&self) -> J {
        self.task
    }

    /// The schedule as it stands.
    pub closed spec fn strategy(&self) -> SchedulingStrategy {
        self.scheduling_strategy
    }

    /// The instant of the next run.
    pub closed spec fn next_run(&self) -> i64 {
        self.next_run
    }

    /// Whether no run is left.
    pub closed spec fn expired(&self) -> bool {
        self.expired
    }

    /// The next run is at the strategy's start.
    pub closed spec fn wf(&self) -> bool {
        self.next_run == start_of(self.scheduling_strategy)
    }

    /// A job that is in order runs next at the start of its strategy.
    pub proof fn runs_at_start(&self)
        requires
            self.wf(),
        ensures
            self.next_run() == start_of(self.strategy()),
    {
    }

    /// A job for `task` on the schedule `scheduling_strategy`, if the schedule
    /// is a valid one at `now`.
    pub fn try_new(task: J, scheduling_strategy: SchedulingStrategy, now: i64) -> (r: Result<
        Self,
        SchedulingStrategyError,
    >)
        ensures
            match validation(scheduling_strategy, now) {
                Ok(_) => r is Ok && r->Ok_0.wf() && r->Ok_0.task() == task
                    && r->Ok_0.strategy() == scheduling_strategy && !r->Ok_0.expired(),
                Err(e) => r is Err && r->Err_0 == e,
            },
    {
        match scheduling_strategy.validate(now) {
            Err(e) => Err(e),
            Ok(_) => {
                let next_run = scheduling_strategy.get_start_at();
                Ok(ScheduledJob { task, scheduling_strategy, next_run, expired: false })
            },
        }
    }

    /// Whether no run is left.
    pub fn has_expired(&self) -> (expired: bool)
        ensures
            expired == self.expired(),
    {
        self.expired
    }

    /// Whether the next run is at `now` or before it.
    pub fn is_due(&self, now: i64) -> (due: bool)
        ensures
            due == (self.next_run() <= now),
    {
        self.next_run <= now
    }

    /// The instant of the next run.
    pub fn due_at(&self) -> (at: i64)
        ensures
            at == self.next_run(),
    {
        self.next_run
    }

    /// Moves the schedule on by one run without doing the work.
    pub fn advance(&mut self)
        requires
            old(self).wf(),
        ensures
            stepped(*old(self), *final(self)),
            final(self).task() == old(self).task(),
    {
        match self.scheduling_strategy {
            SchedulingStrategy::Once { start_at } => {
                self.expired = true;
            },
            SchedulingStrategy::NTimes { n, start_at, interval } => {
                match start_at.checked_add(interval) {
                    Some(next) if n > 0 => {
                        if n == 1 {
                            self.expired = true;
                        }
                        self.scheduling_strategy =
                        SchedulingStrategy::NTimes { n: n - 1, start_at: next, interval };
                        self.next_run = next;
                    },
                    _ => {
                        self.expired = true;
                    },
                }
            },
            SchedulingStrategy::Between { start_at, end_at, interval } => {
                let within = match end_at.checked_sub(start_at) {
                    Some(span) => span > interval,
                    None => end_at > start_at,
                };
                match start_at.checked_add(interval) {
                    Some(next) if within => {
                        self.scheduling_strategy =
                        SchedulingStrategy::Between { start_at: next, end_at, interval };
                        self.next_run = next;
                    },
                    _ => {
                        self.expired = true;
                    },
                }
            },
            SchedulingStrategy::Indefinite { start_at, interval } => {
                match start_at.checked_add(interval) {
                    Some(next) => {
                        self.scheduling_strategy =
                        SchedulingStrategy::Indefinite { start_at: next, interval };
                        self.next_run = next;
                    },
                    None => {
                        self.expired = true;
                    },
                }
            },
        }
    }

    /// Moves the schedule on by one run and does the work. The outcome is
    /// that of the work's run on the store as it was handed over.
    pub fn run(&mut self, store: &mut Database) -> (outcome: Result<(), ()>)
        requires
            old(self).wf(),
            old(store).wf(),
        ensures
            stepped(*old(self), *final(self)),
            final(store).wf(),
            old(self).task().ran(old(store)@, outcome, &final(self).task(), final(store)@),
    {
        self.advance();
        self.task.run(store)
    }
}

} // verus!
