use respdb::database::Database;
use respdb::jobs::job::Job;
use respdb::jobs::job_queue::{batch_failed, batch_result, run_or_advance, JobQueue, WorkerStep};
use respdb::jobs::scheduled_job::ScheduledJob;
use respdb::jobs::scheduling_strategy::{SchedulingStrategy, SchedulingStrategyError};
use std::cell::Cell;
use std::cmp::Ordering;
use std::rc::Rc;

struct Counted {
    runs: Rc<Cell<u32>>,
    fails: bool,
}

impl Job for Counted {
    fn run(&mut self, store: &mut Database) -> Result<(), ()> {
        self.runs.set(self.runs.get() + 1);
        let _ = store.set("ran".to_string(), vec![self.runs.get() as u8], None, 0);
        if self.fails {
            Err(())
        } else {
            Ok(())
        }
    }
}

fn counted(fails: bool) -> (Counted, Rc<Cell<u32>>) {
    let runs = Rc::new(Cell::new(0));
    (Counted { runs: runs.clone(), fails }, runs)
}

#[test]
fn strategies_are_validated() {
    let now = 1_000;
    assert_eq!(SchedulingStrategy::Once { start_at: 1_000 }.validate(now), Ok(()));
    assert_eq!(SchedulingStrategy::Once { start_at: 990 }.validate(now), Ok(()));
    assert_eq!(SchedulingStrategy::Once { start_at: 5_000 }.validate(now), Ok(()));
    assert_eq!(
        SchedulingStrategy::Once { start_at: 989 }.validate(now),
        Err(SchedulingStrategyError::InvalidStartDate(989))
    );
    assert_eq!(
        SchedulingStrategy::NTimes { n: 1, start_at: 1_000, interval: 10 }.validate(now),
        Err(SchedulingStrategyError::InvalidNumberOfRuns(1))
    );
    assert_eq!(
        SchedulingStrategy::NTimes { n: 0, start_at: 0, interval: 0 }.validate(now),
        Err(SchedulingStrategyError::InvalidNumberOfRuns(0))
    );
    assert_eq!(
        SchedulingStrategy::NTimes { n: 2, start_at: 0, interval: 0 }.validate(now),
        Err(SchedulingStrategyError::NonPositiveInterval(0))
    );
    assert_eq!(
        SchedulingStrategy::NTimes { n: 2, start_at: 0, interval: 5 }.validate(now),
        Err(SchedulingStrategyError::InvalidStartDate(0))
    );
    assert_eq!(SchedulingStrategy::NTimes { n: 2, start_at: 1_000, interval: 5 }.validate(now), Ok(()));
    assert_eq!(
        SchedulingStrategy::Between { start_at: 1_000, end_at: 1_000, interval: 5 }.validate(now),
        Err(SchedulingStrategyError::InvalidEndDate(1_000, 1_000))
    );
    assert_eq!(
        SchedulingStrategy::Between { start_at: 1_000, end_at: 900, interval: -5 }.validate(now),
        Err(SchedulingStrategyError::NonPositiveInterval(-5))
    );
    assert_eq!(
        SchedulingStrategy::Between { start_at: 1_000, end_at: 1_001, interval: 5 }.validate(now),
        Ok(())
    );
    assert_eq!(
        SchedulingStrategy::Indefinite { start_at: 1_000, interval: -1 }.validate(now),
        Err(SchedulingStrategyError::NonPositiveInterval(-1))
    );
    assert_eq!(SchedulingStrategy::Indefinite { start_at: 1_000, interval: 1 }.validate(now), Ok(()));
    assert_eq!(SchedulingStrategy::Once { start_at: i64::MIN }.validate(i64::MIN + 3), Ok(()));
}

#[test]
fn single_validations() {
    assert_eq!(SchedulingStrategy::validate_start_date(90, 100), Ok(()));
    assert_eq!(
        SchedulingStrategy::validate_start_date(89, 100),
        Err(SchedulingStrategyError::InvalidStartDate(89))
    );
    assert_eq!(SchedulingStrategy::validate_end_date(1, 2), Ok(()));
    assert_eq!(
        SchedulingStrategy::validate_end_date(2, 1),
        Err(SchedulingStrategyError::InvalidEndDate(2, 1))
    );
    assert_eq!(SchedulingStrategy::validate_invterval(1), Ok(()));
    assert_eq!(
        SchedulingStrategy::validate_invterval(0),
        Err(SchedulingStrategyError::NonPositiveInterval(0))
    );
}

#[test]
fn the_earlier_strategy_is_the_greater() {
    let early = SchedulingStrategy::Once { start_at: 10 };
    let late = SchedulingStrategy::Indefinite { start_at: 20, interval: 1 };
    let also_early = SchedulingStrategy::NTimes { n: 2, start_at: 10, interval: 3 };
    assert_eq!(early.cmp(&late), Ordering::Greater);
    assert_eq!(late.cmp(&early), Ordering::Less);
    assert_eq!(early.cmp(&also_early), Ordering::Equal);
    assert_eq!(early.partial_cmp(&late), Some(Ordering::Greater));
    assert!(early > late);
    assert!(late < early);
    assert!(early == also_early);
    assert!(early != late);
    assert_eq!(late.get_start_at(), 20);
}

#[test]
fn invalid_strategies_make_no_job() {
    let (task, _) = counted(false);
    assert_eq!(
        ScheduledJob::try_new(task, SchedulingStrategy::Once { start_at: 0 }, 100).err(),
        Some(SchedulingStrategyError::InvalidStartDate(0))
    );
    let (task, _) = counted(false);
    let job = ScheduledJob::try_new(task, SchedulingStrategy::Once { start_at: 150 }, 100).ok().unwrap();
    assert!(!job.has_expired());
    assert_eq!(job.due_at(), 150);
    assert!(!job.is_due(149));
    assert!(job.is_due(150));
    assert!(job.is_due(151));
}

#[test]
fn a_job_that_runs_once_expires() {
    let mut db = Database::new();
    let (task, runs) = counted(false);
    let mut job = ScheduledJob::try_new(task, SchedulingStrategy::Once { start_at: 100 }, 100).ok().unwrap();
    assert_eq!(job.run(&mut db), Ok(()));
    assert!(job.has_expired());
    assert_eq!(runs.get(), 1);
    assert_eq!(db.get("ran"), Some(vec![1]));
}

#[test]
fn a_job_between_two_instants() {
    let mut db = Database::new();
    let (task, runs) = counted(false);
    let strategy = SchedulingStrategy::Between { start_at: 100, end_at: 125, interval: 10 };
    let mut job = ScheduledJob::try_new(task, strategy, 100).ok().unwrap();
    assert_eq!(job.run(&mut db), Ok(()));
    assert_eq!((job.due_at(), job.has_expired()), (110, false));
    assert_eq!(job.run(&mut db), Ok(()));
    assert_eq!((job.due_at(), job.has_expired()), (120, false));
    assert_eq!(job.run(&mut db), Ok(()));
    assert_eq!((job.due_at(), job.has_expired()), (120, true));
    assert_eq!(runs.get(), 3);
}

#[test]
fn a_job_without_end() {
    let mut db = Database::new();
    let (task, _) = counted(true);
    let strategy = SchedulingStrategy::Indefinite { start_at: i64::MAX - 15, interval: 10 };
    let mut job = ScheduledJob::try_new(task, strategy, 0).ok().unwrap();
    assert_eq!(job.run(&mut db), Err(()));
    assert_eq!((job.due_at(), job.has_expired()), (i64::MAX - 5, false));
    job.advance();
    assert_eq!((job.due_at(), job.has_expired()), (i64::MAX - 5, true));
}

#[test]
fn three_runs_ten_milliseconds_apart() {
    let mut db = Database::new();
    let mut queue = JobQueue::new();
    let (task, runs) = counted(false);
    let t = 5_000;
    let strategy = SchedulingStrategy::NTimes { n: 3, start_at: t, interval: 10 };
    queue.push(ScheduledJob::try_new(task, strategy, t).ok().unwrap());
    assert_eq!(queue.next_step(t - 1), WorkerStep::SleepUntil(t));
    assert_eq!(queue.next_step(t), WorkerStep::RunBatch);
    assert_eq!(queue.run_pending_jobs(&mut db, t), Ok(()));
    assert_eq!(runs.get(), 1);
    assert_eq!(queue.next_step(t), WorkerStep::SleepUntil(t + 10));
    assert_eq!(queue.run_pending_jobs(&mut db, t + 5), Ok(()));
    assert_eq!(runs.get(), 1);
    assert_eq!(queue.run_pending_jobs(&mut db, t + 10), Ok(()));
    assert_eq!(runs.get(), 2);
    assert_eq!(queue.peek().map(|job| (job.due_at(), job.has_expired())), Some((t + 20, false)));
    assert_eq!(queue.run_pending_jobs(&mut db, t + 20), Ok(()));
    assert_eq!(runs.get(), 3);
    assert!(queue.peek().is_none());
    assert_eq!(queue.next_step(t + 30), WorkerStep::AwaitJob);
    assert_eq!(queue.run_pending_jobs(&mut db, t + 30), Ok(()));
    assert_eq!(runs.get(), 3);
}

#[test]
fn after_a_failure_the_batch_only_advances() {
    let mut db = Database::new();
    let mut queue = JobQueue::new();
    let t = 100;
    let (first, first_runs) = counted(false);
    let (second, second_runs) = counted(true);
    let (third, third_runs) = counted(false);
    let (later, later_runs) = counted(false);
    queue.push(
        ScheduledJob::try_new(first, SchedulingStrategy::Indefinite { start_at: t, interval: 100 }, t)
            .ok()
            .unwrap(),
    );
    queue.push(
        ScheduledJob::try_new(second, SchedulingStrategy::Indefinite { start_at: t + 1, interval: 100 }, t)
            .ok()
            .unwrap(),
    );
    queue.push(
        ScheduledJob::try_new(third, SchedulingStrategy::NTimes { n: 2, start_at: t + 2, interval: 100 }, t)
            .ok()
            .unwrap(),
    );
    queue.push(
        ScheduledJob::try_new(later, SchedulingStrategy::Once { start_at: t + 50 }, t).ok().unwrap(),
    );
    assert_eq!(queue.run_pending_jobs(&mut db, t + 10), Err(()));
    assert_eq!((first_runs.get(), second_runs.get(), third_runs.get(), later_runs.get()), (1, 1, 0, 0));
    assert_eq!(queue.pop().map(|job| job.due_at()), Some(t + 50));
    assert_eq!(queue.pop().map(|job| job.due_at()), Some(t + 100));
    assert_eq!(queue.pop().map(|job| job.due_at()), Some(t + 101));
    assert_eq!(queue.pop().map(|job| (job.due_at(), job.has_expired())), Some((t + 102, false)));
    assert!(queue.pop().is_none());
}

#[test]
fn the_queue_keeps_jobs_in_the_order_of_their_instants() {
    let mut queue = JobQueue::new();
    for start_at in [30, 10, 20, 10] {
        let (task, _) = counted(false);
        queue.push(ScheduledJob::try_new(task, SchedulingStrategy::Once { start_at }, 0).ok().unwrap());
    }
    assert_eq!(queue.peek().map(|job| job.due_at()), Some(10));
    assert_eq!(queue.pop().map(|job| job.due_at()), Some(10));
    assert_eq!(queue.pop().map(|job| job.due_at()), Some(10));
    assert_eq!(queue.pop().map(|job| job.due_at()), Some(20));
    queue.clear();
    assert!(queue.pop().is_none());
}

#[test]
fn the_worker_is_told_of_an_earlier_job() {
    let mut queue = JobQueue::new();
    assert!(!queue.take_signal());
    let (task, _) = counted(false);
    queue.push(ScheduledJob::try_new(task, SchedulingStrategy::Once { start_at: 20 }, 0).ok().unwrap());
    assert!(queue.take_signal());
    assert!(!queue.take_signal());
    let (task, _) = counted(false);
    queue.push(ScheduledJob::try_new(task, SchedulingStrategy::Once { start_at: 30 }, 0).ok().unwrap());
    assert!(!queue.take_signal());
    let (task, _) = counted(false);
    queue.push(ScheduledJob::try_new(task, SchedulingStrategy::Once { start_at: 20 }, 0).ok().unwrap());
    assert!(!queue.take_signal());
    let (task, _) = counted(false);
    queue.push(ScheduledJob::try_new(task, SchedulingStrategy::Once { start_at: 19 }, 0).ok().unwrap());
    assert!(queue.take_signal());
}

#[test]
fn a_batch_fails_with_its_first_failed_job() {
    assert!(!batch_failed(false, Ok(())));
    assert!(batch_failed(false, Err(())));
    assert!(batch_failed(true, Ok(())));
    assert!(batch_failed(true, Err(())));
    assert_eq!(batch_result(false), Ok(()));
    assert_eq!(batch_result(true), Err(()));
}

#[test]
fn a_job_of_a_failed_batch_only_advances() {
    let mut db = Database::new();
    let (task, runs) = counted(true);
    let strategy = SchedulingStrategy::Indefinite { start_at: 100, interval: 10 };
    let mut job = ScheduledJob::try_new(task, strategy, 100).ok().unwrap();
    assert_eq!(run_or_advance(&mut job, &mut db, true), None);
    assert_eq!((job.due_at(), runs.get()), (110, 0));
    assert_eq!(db.get("ran"), None);
    assert_eq!(run_or_advance(&mut job, &mut db, false), Some(Err(())));
    assert_eq!((job.due_at(), runs.get()), (120, 1));
    assert_eq!(db.get("ran"), Some(vec![1]));
    let (task, runs) = counted(false);
    let mut job = ScheduledJob::try_new(task, SchedulingStrategy::Once { start_at: 100 }, 100).ok().unwrap();
    assert_eq!(run_or_advance(&mut job, &mut db, false), Some(Ok(())));
    assert_eq!((job.has_expired(), runs.get()), (true, 1));
}

#[test]
fn a_batch_of_jobs_that_succeed_succeeds() {
    let mut db = Database::new();
    let mut queue = JobQueue::new();
    let mut counters = Vec::new();
    for start_at in [100, 101, 102] {
        let (task, runs) = counted(false);
        counters.push(runs);
        let strategy = SchedulingStrategy::Indefinite { start_at, interval: 50 };
        queue.push(ScheduledJob::try_new(task, strategy, 100).ok().unwrap());
    }
    let (task, late) = counted(true);
    queue.push(ScheduledJob::try_new(task, SchedulingStrategy::Once { start_at: 120 }, 100).ok().unwrap());
    assert_eq!(queue.run_pending_jobs(&mut db, 110), Ok(()));
    assert_eq!(counters.iter().map(|runs| runs.get()).collect::<Vec<u32>>(), vec![1, 1, 1]);
    assert_eq!(late.get(), 0);
    assert_eq!(queue.pop().map(|job| job.due_at()), Some(120));
    assert_eq!(queue.pop().map(|job| job.due_at()), Some(150));
    assert_eq!(queue.pop().map(|job| job.due_at()), Some(151));
    assert_eq!(queue.pop().map(|job| job.due_at()), Some(152));
    assert!(queue.pop().is_none());
}
