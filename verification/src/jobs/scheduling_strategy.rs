//! When and how often a job runs.
use std::cmp::Ordering;
use vstd::prelude::*;
use vstd::std_specs::cmp::{PartialEqSpecImpl, PartialOrdSpecImpl};

verus! {

/// How far in the past, in milliseconds, a job may be set to start.
pub const GRACE: i64 = 10;

/// Why a schedule is not a valid one. Each error carries what broke the rule.
#[derive(Debug, Clone, Copy, PartialEq, Eq, Structural)]
pub enum SchedulingStrategyError {
    /// The interval, which is zero or negative.
    NonPositiveInterval(i64),
    /// The start and the end, where the end is not after the start.
    InvalidEndDate(i64, i64),
    /// The start, which lies too far in the past.
    InvalidStartDate(i64),
    /// The number of runs, which is below two.
    InvalidNumberOfRuns(u64),
}

/// When a job runs.
#[derive(Debug, Clone, Copy)]
pub enum SchedulingStrategy {
    /// One run at `start_at`.
    Once { start_at: i64 },
    /// `n` runs, the first at `start_at` and each `interval` after the one before.
    NTimes { n: u64, start_at: i64, interval: i64 },
    /// Runs from `start_at` on, each `interval` after the one before, as long
    /// as they fall before `end_at`.
    Between { start_at: i64, end_at: i64, interval: i64 },
    /// Runs from `start_at` on without end, each `interval` after the one before.
    Indefinite { start_at: i64, interval: i64 },
}

/// The start is at most `GRACE` milliseconds before `now`.
pub open spec fn start_allowed(start: i64, now: i64) -> bool {
    start >= now - GRACE
}

/// What the rule on the start finds.
pub open spec fn start_validation(start: i64, now: i64) -> Result<(), SchedulingStrategyError> {
    if start_allowed(start, now) {
        Ok(())
    } else {
        Err(SchedulingStrategyError::InvalidStartDate(start))
    }
}

/// What the rule on the end finds.
pub open spec fn end_validation(start: i64, end: i64) -> Result<(), SchedulingStrategyError> {
    if end > start {
        Ok(())
    } else {
        Err(SchedulingStrategyError::InvalidEndDate(start, end))
    }
}

/// What the rule on the interval finds.
pub open spec fn interval_validation(interval: i64) -> Result<(), SchedulingStrategyError> {
    if interval > 0 {
        Ok(())
    } else {
        Err(SchedulingStrategyError::NonPositiveInterval(interval))
    }
}

/// What validating `strategy` at `now` finds: the first rule that it breaks,
/// in the order number of runs, interval, start, end.
pub open spec fn validation(strategy: SchedulingStrategy, now: i64) -> Result<
    (),
    SchedulingStrategyError,
> {
    match strategy {
        SchedulingStrategy::Once { start_at } => start_validation(start_at, now),
        SchedulingStrategy::NTimes { n, start_at, interval } => if n <= 1 {
            Err(SchedulingStrategyError::InvalidNumberOfRuns(n))
        } else if interval_validation(interval) is Err {
            interval_validation(interval)
        } else {
            start_validation(start_at, now)
        },
        SchedulingStrategy::Between { start_at, end_at, interval } => if interval_validation(
            interval,
        ) is Err {
            interval_validation(interval)
        } else if start_validation(start_at, now) is Err {
            start_validation(start_at, now)
        } else {
            end_validation(start_at, end_at)
        },
        SchedulingStrategy::Indefinite { start_at, interval } => if interval_validation(
            interval,
        ) is Err {
            interval_validation(interval)
        } else {
            start_validation(start_at, now)
        },
    }
}

/// The instant of the next run.
pub open spec fn start_of(strategy: SchedulingStrategy) -> i64 {
    match strategy {
        SchedulingStrategy::Once { start_at } => start_at,
        SchedulingStrategy::NTimes { start_at, .. } => start_at,
        SchedulingStrategy::Between { start_at, .. } => start_at,
        SchedulingStrategy::Indefinite { start_at, .. } => start_at,
    }
}

/// How `a` stands to `b` in the queue's order: the strategy that starts
/// earlier is the greater one, and two that start together are equal.
pub open spec fn priority(a: SchedulingStrategy, b: SchedulingStrategy) -> Ordering {
    if start_of(a) < start_of(b) {
        Ordering::Greater
    } else if start_of(a) == start_of(b) {
        Ordering::Equal
    } else {
        Ordering::Less
    }
}

impl SchedulingStrategy {
    /// Holds the strategy to the rules, at the instant `now`.
    pub fn validate(&self, now: i64) -> (r: Result<(), SchedulingStrategyError>)
        ensures
            r == validation(*self, now),
    {
        match self {
            SchedulingStrategy::Once { start_at } => SchedulingStrategy::validate_start_date(
                *start_at,
                now,
            ),
            SchedulingStrategy::NTimes { n, start_at, interval } => {
                if *n <= 1 {
                    return Err(SchedulingStrategyError::InvalidNumberOfRuns(*n));
                }
                match SchedulingStrategy::validate_invterval(*interval) {
                    Err(e) => Err(e),
                    Ok(_) => SchedulingStrategy::validate_start_date(*start_at, now),
                }
            },
            SchedulingStrategy::Between { start_at, end_at, interval } => {
                match SchedulingStrategy::validate_invterval(*interval) {
                    Err(e) => Err(e),
                    Ok(_) => match SchedulingStrategy::validate_start_date(*start_at, now) {
                        Err(e) => Err(e),
                        Ok(_) => SchedulingStrategy::validate_end_date(*start_at, *end_at),
                    },
                }
            },
            SchedulingStrategy::Indefinite { start_at, interval } => {
                match SchedulingStrategy::validate_invterval(*interval) {
                    Err(e) => Err(e),
                    Ok(_) => SchedulingStrategy::validate_start_date(*start_at, now),
                }
            },
        }
    }

    /// A start may lie up to `GRACE` milliseconds before `now`, and anywhere after it.
    pub fn validate_start_date(start: i64, now: i64) -> (r: Result<(), SchedulingStrategyError>)
        ensures
            r == start_validation(start, now),
    {
        if now < i64::MIN + GRACE || start >= now - GRACE {
            Ok(())
        } else {
            Err(SchedulingStrategyError::InvalidStartDate(start))
        }
    }

    /// The end has to lie after the start.
    pub fn validate_end_date(start: i64, end: i64) -> (r: Result<(), SchedulingStrategyError>)
        ensures
            r == end_validation(start, end),
    {
        if end > start {
            Ok(())
        } else {
            Err(SchedulingStrategyError::InvalidEndDate(start, end))
        }
    }

    /// The interval has to be more than nothing.
    pub fn validate_invterval(interval: i64) -> (r: Result<(), SchedulingStrategyError>)
        ensures
            r == interval_validation(interval),
    {
        if interval > 0 {
            Ok(())
        } else {
            Err(SchedulingStrategyError::NonPositiveInterval(interval))
        }
    }

    /// The instant of the next run.
    pub fn get_start_at(&self) -> (start: i64)
        ensures
            start == start_of(*self),
    {
        match self {
            SchedulingStrategy::Once { start_at } => *start_at,
            SchedulingStrategy::NTimes { start_at, .. } => *start_at,
            SchedulingStrategy::Between { start_at, .. } => *start_at,
            SchedulingStrategy::Indefinite { start_at, .. } => *start_at,
        }
    }

    /// How this strategy stands to `other` in the queue's order.
    pub fn cmp(&self, other: &Self) -> (r: Ordering)
        ensures
            r == priority(*self, *other),
    {
        let mine = self.get_start_at();
        let theirs = other.get_start_at();
        if mine < theirs {
            Ordering::Greater
        } else if mine == theirs {
            Ordering::Equal
        } else {
            Ordering::Less
        }
    }
}

impl PartialEq for SchedulingStrategy {
    fn eq(&self, other: &Self) -> (r: bool) {
        self.get_start_at() == other.get_start_at()
    }
}

impl PartialEqSpecImpl for SchedulingStrategy {
    open spec fn obeys_eq_spec() -> bool {
        true
    }

    open spec fn eq_spec(&self, other: &Self) -> bool {
        start_of(*self) == start_of(*other)
    }
}

impl Eq for SchedulingStrategy {

}

impl PartialOrd for SchedulingStrategy {
    fn partial_cmp(&self, other: &Self) -> (r: Option<Ordering>) {
        Some(self.cmp(other))
    }
}

impl PartialOrdSpecImpl for SchedulingStrategy {
    open spec fn obeys_partial_cmp_spec() -> bool {
        true
    }

    open spec fn partial_cmp_spec(&self, other: &Self) -> Option<Ordering> {
        Some(priority(*self, *other))
    }
}

} // verus!
