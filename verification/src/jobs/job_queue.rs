//! The queue of scheduled jobs, the one that falls due first in front.
use crate::database::{Database, State};
use crate::jobs::job::Job;
use crate::jobs::scheduled_job::{stepped, ScheduledJob};
use vstd::prelude::*;

verus! {

/// Each job falls due no later than the jobs behind it.
pub open spec fn in_order<J: Job>(jobs: Seq<ScheduledJob<J>>) -> bool {
    forall|i: int, j: int|
        0 <= i < j < jobs.len() ==> (#[trigger] jobs[i]).next_run() <= (#[trigger] jobs[j]).next_run()
}

/// The number of jobs at the front of `jobs` that fall due at `at` or before.
pub open spec fn slot<J: Job>(jobs: Seq<ScheduledJob<J>>, at: i64) -> nat
    decreases jobs.len(),
{
    if jobs.len() == 0 || jobs[0].next_run() > at {
        0
    } else {
        1 + slot(jobs.drop_first(), at)
    }
}

/// The queue with `job` in it: behind the jobs that fall due no later than
/// it, in front of the others.
pub open spec fn enqueued<J: Job>(jobs: Seq<ScheduledJob<J>>, job: ScheduledJob<J>) -> Seq<
    ScheduledJob<J>,
> {
    jobs.insert(slot(jobs, job.next_run()) as int, job)
}

/// The queue after the jobs of `ran` that have not expired were put back, in
/// the order of `ran`.
pub open spec fn requeued<J: Job>(jobs: Seq<ScheduledJob<J>>, ran: Seq<ScheduledJob<J>>) -> Seq<
    ScheduledJob<J>,
>
    decreases ran.len(),
{
    if ran.len() == 0 {
        jobs
    } else if ran[0].expired() {
        requeued(jobs, ran.drop_first())
    } else {
        requeued(enqueued(jobs, ran[0]), ran.drop_first())
    }
}

/// Whether a batch has failed once one more of its jobs was run and came to
/// `outcome`: it has if it had before, or if that job failed.
pub open spec fn failed_after(failed: bool, outcome: Result<(), ()>) -> bool {
    failed || outcome is Err
}

/// Whether one of the first `n` jobs of a batch was run and failed. Of each
/// job `outcomes` holds what its run came to, or nothing where it was not run.
pub open spec fn failed_within(outcomes: Seq<Option<Result<(), ()>>>, n: nat) -> bool
    decreases n,
{
    if n == 0 {
        false
    } else {
        match outcomes[n - 1] {
            Some(outcome) => failed_after(failed_within(outcomes, (n - 1) as nat), outcome),
            None => failed_within(outcomes, (n - 1) as nat),
        }
    }
}

/// What a batch did to the jobs that were due, and what it came to.
///
/// Each job went on by one run. A job was left unrun exactly where a job
/// before it had been run and had failed. Of each job `outcomes` holds what
/// its run came to, or nothing where it was left unrun, and `stores` holds the
/// store as it was before each job and after the last. A job that was run was
/// run once, on the store as the jobs before had left it. A job that was left
/// unrun has its work as it was and left the store as it was. The batch fails
/// exactly where one of its jobs was run and failed.
pub open spec fn batch_outcome<J: Job>(
    due: Seq<ScheduledJob<J>>,
    ran: Seq<ScheduledJob<J>>,
    outcomes: Seq<Option<Result<(), ()>>>,
    stores: Seq<State>,
    outcome: Result<(), ()>,
) -> bool {
    &&& ran.len() == due.len()
    &&& outcomes.len() == due.len()
    &&& stores.len() == due.len() + 1
    &&& forall|i: int| 0 <= i < due.len() ==> stepped(#[trigger] due[i], ran[i])
    &&& forall|i: int|
        0 <= i < due.len() ==> ((#[trigger] outcomes[i]) is None <==> failed_within(
            outcomes,
            i as nat,
        ))
    &&& forall|i: int|
        0 <= i < due.len() ==> match #[trigger] outcomes[i] {
            Some(result) => due[i].task().ran(stores[i], result, &ran[i].task(), stores[i + 1]),
            None => ran[i].task() == due[i].task() && stores[i + 1] == stores[i],
        }
    &&& outcome is Err <==> failed_within(outcomes, due.len())
}

/// Whether a job among the first `n` failed depends on those `n` only.
pub proof fn lemma_failed_within_prefix(
    a: Seq<Option<Result<(), ()>>>,
    b: Seq<Option<Result<(), ()>>>,
    n: nat,
)
    requires
        n <= a.len(),
        n <= b.len(),
        forall|i: int| 0 <= i < n ==> a[i] == b[i],
    ensures
        failed_within(a, n) == failed_within(b, n),
    decreases n,
{
    if n > 0 {
        lemma_failed_within_prefix(a, b, (n - 1) as nat);
    }
}

/// One of the first `n` jobs was run and failed exactly where there is such a job.
pub proof fn lemma_failed_within(outcomes: Seq<Option<Result<(), ()>>>, n: nat)
    requires
        n <= outcomes.len(),
    ensures
        failed_within(outcomes, n) <==> exists|j: int|
            0 <= j < n && #[trigger] outcomes[j] == Some(Err::<(), ()>(())),
    decreases n,
{
    if n > 0 {
        lemma_failed_within(outcomes, (n - 1) as nat);
        if failed_within(outcomes, n) && !failed_within(outcomes, (n - 1) as nat) {
            let last = outcomes[n - 1]->Some_0;
            assert(last is Err);
            assert(last->Err_0 == ());
            assert(last == Err::<(), ()>(()));
            assert(outcomes[n - 1] == Some(last));
        }
    }
}

/// A batch in which no job fails runs every job that is due and succeeds.
pub proof fn batch_without_failure_succeeds<J: Job>(
    due: Seq<ScheduledJob<J>>,
    ran: Seq<ScheduledJob<J>>,
    outcomes: Seq<Option<Result<(), ()>>>,
    stores: Seq<State>,
    outcome: Result<(), ()>,
)
    requires
        batch_outcome(due, ran, outcomes, stores, outcome),
        forall|i: int| 0 <= i < due.len() ==> #[trigger] outcomes[i] != Some(Err::<(), ()>(())),
    ensures
        outcome is Ok,
        forall|i: int| 0 <= i < due.len() ==> (#[trigger] outcomes[i]) is Some,
{
    lemma_failed_within(outcomes, due.len());
    assert forall|i: int| 0 <= i < due.len() implies (#[trigger] outcomes[i]) is Some by {
        lemma_failed_within(outcomes, i as nat);
    }
}

/// Once a job of a batch has failed, no job after it is run, and the batch fails.
pub proof fn batch_stops_at_failure<J: Job>(
    due: Seq<ScheduledJob<J>>,
    ran: Seq<ScheduledJob<J>>,
    outcomes: Seq<Option<Result<(), ()>>>,
    stores: Seq<State>,
    outcome: Result<(), ()>,
    failed: int,
)
    requires
        batch_outcome(due, ran, outcomes, stores, outcome),
        0 <= failed < due.len(),
        outcomes[failed] == Some(Err::<(), ()>(())),
    ensures
        outcome is Err,
        forall|i: int|
            failed < i < due.len() ==> (#[trigger] outcomes[i]) is None && ran[i].task()
                == due[i].task() && stores[i + 1] == stores[i],
{
    lemma_failed_within(outcomes, due.len());
    assert forall|i: int| failed < i < due.len() implies (#[trigger] outcomes[i]) is None
        && ran[i].task() == due[i].task() && stores[i + 1] == stores[i] by {
        lemma_failed_within(outcomes, i as nat);
    }
}

/// Whether the batch has failed, now that one more of its jobs was run and
/// came to `outcome`.
pub fn batch_failed(failed: bool, outcome: Result<(), ()>) -> (now_failed: bool)
    ensures
        now_failed == failed_after(failed, outcome),
{
    failed || outcome.is_err()
}

/// What a batch comes to: failure where one of its jobs failed.
pub fn batch_result(failed: bool) -> (outcome: Result<(), ()>)
    ensures
        outcome is Err <==> failed,
{
    if failed {
        Err(())
    } else {
        Ok(())
    }
}

/// Deals with one job of a batch. In a batch that has not failed the job is
/// run, and what its run came to is handed back. In a batch that has failed
/// the job only goes on by one run: its work is left as it was, the store is
/// not touched, and nothing is handed back.
pub fn run_or_advance<J: Job>(job: &mut ScheduledJob<J>, store: &mut Database, failed: bool) -> (ran:
    Option<Result<(), ()>>)
    requires
        old(job).wf(),
        old(store).wf(),
    ensures
        stepped(*old(job), *final(job)),
        final(store).wf(),
        failed ==> ran is None && final(job).task() == old(job).task() && final(store)@ == old(store)@,
        !failed ==> ran is Some && old(job).task().ran(
            old(store)@,
            ran->Some_0,
            &final(job).task(),
            final(store)@,
        ),
{
    if failed {
        job.advance();
        None
    } else {
        Some(job.run(store))
    }
}

/// In a queue that is in order, the slot of an instant parts the jobs that
/// fall due by then from the others.
pub proof fn lemma_slot<J: Job>(jobs: Seq<ScheduledJob<J>>, at: i64)
    requires
        in_order(jobs),
    ensures
        slot(jobs, at) <= jobs.len(),
        forall|i: int| 0 <= i < slot(jobs, at) ==> (#[trigger] jobs[i]).next_run() <= at,
        forall|i: int| slot(jobs, at) <= i < jobs.len() ==> (#[trigger] jobs[i]).next_run() > at,
    decreases jobs.len(),
{
    if jobs.len() > 0 && jobs[0].next_run() <= at {
        let rest = jobs.drop_first();
        assert forall|i: int, j: int| 0 <= i < j < rest.len() implies (#[trigger] rest[i]).next_run()
            <= (#[trigger] rest[j]).next_run() by {
            assert(rest[i] == jobs[i + 1] && rest[j] == jobs[j + 1]);
        }
        lemma_slot(rest, at);
        assert forall|i: int| 0 <= i < slot(jobs, at) implies (#[trigger] jobs[i]).next_run()
            <= at by {
            if i > 0 {
                assert(jobs[i] == rest[i - 1]);
            }
        }
        assert forall|i: int| slot(jobs, at) <= i < jobs.len() implies (#[trigger] jobs[i]).next_run()
            > at by {
            assert(jobs[i] == rest[i - 1]);
        }
    } else if jobs.len() > 0 {
        assert forall|i: int| 0 <= i < jobs.len() implies (#[trigger] jobs[i]).next_run() > at by {
            if i > 0 {
                assert(jobs[0].next_run() <= jobs[i].next_run());
            }
        }
    }
}

/// A number that parts the jobs that fall due by `at` from the others is the slot of `at`.
pub proof fn lemma_slot_is<J: Job>(jobs: Seq<ScheduledJob<J>>, at: i64, place: int)
    requires
        0 <= place <= jobs.len(),
        forall|i: int| 0 <= i < place ==> (#[trigger] jobs[i]).next_run() <= at,
        place < jobs.len() ==> jobs[place].next_run() > at,
    ensures
        slot(jobs, at) == place,
    decreases jobs.len(),
{
    if place > 0 {
        let rest = jobs.drop_first();
        assert(jobs[0].next_run() <= at);
        assert forall|i: int| 0 <= i < place - 1 implies (#[trigger] rest[i]).next_run() <= at by {
            assert(rest[i] == jobs[i + 1]);
        }
        lemma_slot_is(rest, at, place - 1);
    }
}

/// Putting a job into a queue that is in order leaves it in order.
pub proof fn lemma_enqueued_in_order<J: Job>(jobs: Seq<ScheduledJob<J>>, job: ScheduledJob<J>)
    requires
        in_order(jobs),
    ensures
        in_order(enqueued(jobs, job)),
{
    let place = slot(jobs, job.next_run()) as int;
    lemma_slot(jobs, job.next_run());
    let after = enqueued(jobs, job);
    assert forall|i: int, j: int| 0 <= i < j < after.len() implies (#[trigger] after[i]).next_run()
        <= (#[trigger] after[j]).next_run() by {
        let low = if i < place { i } else { i - 1 };
        let high = if j < place { j } else { j - 1 };
        if i != place {
            assert(after[i] == jobs[low]);
        }
        if j != place {
            assert(after[j] == jobs[high]);
        }
        if i != place && j != place {
            assert(jobs[low].next_run() <= jobs[high].next_run());
        }
    }
}

/// What the worker that runs the jobs does next.
#[derive(Clone, Copy, Debug, PartialEq, Eq, Structural)]
pub enum WorkerStep {
    /// A job is due: run the batch of jobs that are.
    RunBatch,
    /// The first job falls due at this instant: sleep until then, or until a
    /// job that falls due earlier is announced.
    SleepUntil(i64),
    /// The queue is empty: wait for a job to be announced.
    AwaitJob,
}

/// The scheduled jobs, in the order in which they fall due.
pub struct JobQueue<J: Job> {
    queue: Vec<ScheduledJob<J>>,
    signal: bool,
}

impl<J: Job> JobQueue<J> {
    /// The jobs, the one that falls due first in front.
    pub closed spec fn jobs(&self) -> Seq<ScheduledJob<J>> {
        self.queue@
    }

    /// Whether the worker has been told of a job that falls due before all others.
    pub closed spec fn signal(&self) -> bool {
        self.signal
    }

    /// The jobs are in the order in which they fall due, and each is in order itself.
    pub open spec fn wf(&self) -> bool {
        &&& in_order(self.jobs())
        &&& forall|i: int| 0 <= i < self.jobs().len() ==> (#[trigger] self.jobs()[i]).wf()
    }

    /// An empty queue.
    pub fn new() -> (queue: Self)
        ensures
            queue.wf(),
            queue.jobs() == Seq::<ScheduledJob<J>>::empty(),
            !queue.signal(),
    {
        JobQueue { queue: Vec::new(), signal: false }
    }

    /// The place in the queue for a job that falls due at `at`.
    fn place_for(&self, at: i64) -> (place: usize)
        requires
            self.wf(),
        ensures
            place == slot(self.jobs(), at),
            place <= self.jobs().len(),
    {
        let mut i: usize = 0;
        while i < self.queue.len() && self.queue[i].is_due(at)
            invariant
                i <= self.queue@.len(),
                forall|j: int| 0 <= j < i ==> (#[trigger] self.queue@[j]).next_run() <= at,
            decreases self.queue@.len() - i,
        {
            i += 1;
        }
        proof {
            lemma_slot_is(self.queue@, at, i as int);
        }
        i
    }

    /// Puts `job` into the queue, behind the jobs that fall due no later. The
    /// worker is told where the job falls due before all that were there.
    pub fn push(&mut self, job: ScheduledJob<J>)
        requires
            old(self).wf(),
            job.wf(),
        ensures
            final(self).wf(),
            final(self).jobs() == enqueued(old(self).jobs(), job),
            final(self).signal() == (old(self).signal() || slot(old(self).jobs(), job.next_run())
                == 0),
    {
        let place = self.place_for(job.due_at());
        proof {
            lemma_enqueued_in_order(self.queue@, job);
        }
        if place == 0 {
            self.signal = true;
        }
        let ghost before = self.queue@;
        self.queue.insert(place, job);
        assert forall|i: int| 0 <= i < self.queue@.len() implies (#[trigger] self.queue@[i]).wf() by {
            if i < place {
                assert(self.queue@[i] == before[i]);
            } else if i > place {
                assert(self.queue@[i] == before[i - 1]);
            }
        }
    }

    /// The job that falls due first.
    pub fn peek(&self) -> (first: Option<&ScheduledJob<J>>)
        ensures
            match first {
                Some(job) => self.jobs().len() > 0 && *job == self.jobs()[0],
                None => self.jobs().len() == 0,
            },
    {
        if self.queue.len() == 0 {
            None
        } else {
            Some(&self.queue[0])
        }
    }

    /// Takes the job that falls due first out of the queue.
    pub fn pop(&mut self) -> (first: Option<ScheduledJob<J>>)
        requires
            old(self).wf(),
        ensures
            final(self).wf(),
            final(self).signal() == old(self).signal(),
            match first {
                Some(job) => old(self).jobs().len() > 0 && job == old(self).jobs()[0] && final(self).jobs() == old(self).jobs().drop_first(),
                None => old(self).jobs().len() == 0 && final(self).jobs() == old(self).jobs(),
            },
    {
        if self.queue.len() == 0 {
            None
        } else {
            let ghost before = self.queue@;
            let job = self.queue.remove(0);
            assert(self.queue@ =~= before.drop_first());
            assert forall|i: int| 0 <= i < self.queue@.len() implies (#[trigger] self.queue@[i]).wf() by {
                assert(self.queue@[i] == before[i + 1]);
            }
            assert forall|i: int, j: int| 0 <= i < j < self.queue@.len() implies (
            #[trigger] self.queue@[i]).next_run() <= (#[trigger] self.queue@[j]).next_run() by {
                assert(self.queue@[i] == before[i + 1] && self.queue@[j] == before[j + 1]);
            }
            Some(job)
        }
    }

    /// Empties the queue.
    pub fn clear(&mut self)
        ensures
            final(self).wf(),
            final(self).jobs() == Seq::<ScheduledJob<J>>::empty(),
            final(self).signal() == old(self).signal(),
    {
        self.queue.clear();
    }

    /// Whether the worker has been told of an earlier job since this was last
    /// asked. Asking takes the word back.
    pub fn take_signal(&mut self) -> (raised: bool)
        ensures
            raised == old(self).signal(),
            !final(self).signal(),
            final(self).jobs() == old(self).jobs(),
    {
        let raised = self.signal;
        self.signal = false;
        raised
    }

    /// What the worker does next at `now`.
    pub fn next_step(&self, now: i64) -> (step: WorkerStep)
        ensures
            step == if self.jobs().len() == 0 {
                WorkerStep::AwaitJob
            } else if self.jobs()[0].next_run() <= now {
                WorkerStep::RunBatch
            } else {
                WorkerStep::SleepUntil(self.jobs()[0].next_run())
            },
    {
        match self.peek() {
            None => WorkerStep::AwaitJob,
            Some(job) => {
                if job.is_due(now) {
                    WorkerStep::RunBatch
                } else {
                    WorkerStep::SleepUntil(job.due_at())
                }
            },
        }
    }

    /// Runs the jobs that are due at `now`, in the order in which they fall
    /// due. Once a job has failed, the jobs after it go on by one run without
    /// being run, and the batch fails. The jobs that have not expired by then
    /// go back into the queue.
    #[verifier::rlimit(40)]
    pub fn run_pending_jobs(&mut self, store: &mut Database, now: i64) -> (outcome: Result<(), ()>)
        requires
            old(self).wf(),
            old(store).wf(),
        ensures
            final(self).wf(),
            final(store).wf(),
            final(self).signal() == old(self).signal(),
            slot(old(self).jobs(), now) == 0 ==> outcome is Ok,
            exists|
                ran: Seq<ScheduledJob<J>>,
                outcomes: Seq<Option<Result<(), ()>>>,
                stores: Seq<State>,
            | #[trigger]
                batch_outcome(
                    old(self).jobs().take(slot(old(self).jobs(), now) as int),
                    ran,
                    outcomes,
                    stores,
                    outcome,
                ) && stores[0] == old(store)@ && stores.last() == final(store)@ && final(self).jobs() == requeued(
                    old(self).jobs().skip(slot(old(self).jobs(), now) as int),
                    ran,
                ),
    {
        let ghost all = self.queue@;
        let ghost count = slot(all, now) as int;
        proof {
            lemma_slot(all, now);
        }
        let ghost due = all.take(count);
        let mut executed: Vec<ScheduledJob<J>> = Vec::new();
        let mut failed = false;
        let ghost mut outcomes: Seq<Option<Result<(), ()>>> = Seq::empty();
        let ghost mut stores: Seq<State> = seq![store@];
        assert(self.queue@ =~= all.skip(0));
        while self.queue.len() > 0 && self.queue[0].is_due(now)
            invariant
                store.wf(),
                0 <= count <= all.len(),
                due == all.take(count),
                executed@.len() <= count,
                self.queue@ == all.skip(executed@.len() as int),
                self.signal == old(self).signal,
                forall|i: int| 0 <= i < count ==> (#[trigger] all[i]).next_run() <= now,
                forall|i: int| count <= i < all.len() ==> (#[trigger] all[i]).next_run() > now,
                forall|i: int| 0 <= i < all.len() ==> (#[trigger] all[i]).wf(),
                forall|i: int| 0 <= i < executed@.len() ==> stepped(due[i], #[trigger] executed@[i]),
                outcomes.len() == executed@.len(),
                stores.len() == executed@.len() + 1,
                stores[0] == old(store)@,
                stores.last() == store@,
                failed == failed_within(outcomes, outcomes.len()),
                forall|i: int|
                    0 <= i < outcomes.len() ==> ((#[trigger] outcomes[i]) is None
                        <==> failed_within(outcomes, i as nat)),
                forall|i: int|
                    0 <= i < outcomes.len() ==> match #[trigger] outcomes[i] {
                        Some(result) => due[i].task().ran(
                            stores[i],
                            result,
                            &executed@[i].task(),
                            stores[i + 1],
                        ),
                        None => executed@[i].task() == due[i].task() && stores[i + 1] == stores[i],
                    },
            decreases self.queue@.len(),
        {
            let ghost done = executed@.len() as int;
            assert(self.queue@[0] == all[done]);
            let mut job = self.queue.remove(0);
            assert(job == due[done]);
            let ran = run_or_advance(&mut job, store, failed);
            let ghost before = outcomes;
            let ghost stores_before = stores;
            proof {
                stores = stores_before.push(store@);
                outcomes = before.push(ran);
                assert forall|n: nat| n <= done implies #[trigger] failed_within(outcomes, n)
                    == failed_within(before, n) by {
                    lemma_failed_within_prefix(outcomes, before, n);
                }
            }
            let ghost had_failed = failed;
            failed = match ran {
                Some(outcome) => batch_failed(failed, outcome),
                None => failed,
            };
            proof {
                assert(outcomes[done] == ran);
                assert(failed_within(outcomes, done as nat) == had_failed);
                assert(failed_within(outcomes, (done + 1) as nat) == failed);
            }
            executed.push(job);
            assert(self.queue@ =~= all.skip(done + 1));
        }
        let ghost ran = executed@;
        let ghost rest = all.skip(count);
        proof {
            if executed@.len() < count {
                assert(self.queue@[0] == all[executed@.len() as int]);
            }
            assert(ran.len() == count);
            assert(self.queue@ == rest);
            assert forall|i: int, j: int| 0 <= i < j < rest.len() implies (#[trigger] rest[i]).next_run()
                <= (#[trigger] rest[j]).next_run() by {
                assert(rest[i] == all[count + i] && rest[j] == all[count + j]);
            }
        }
        let outcome = batch_result(failed);
        assert(batch_outcome(due, ran, outcomes, stores, outcome));
        self.put_back(executed);
        outcome
    }

    /// Puts the jobs of `ran` that have not expired back into the queue, in
    /// the order of `ran`.
    fn put_back(&mut self, ran: Vec<ScheduledJob<J>>)
        requires
            old(self).wf(),
            forall|i: int| 0 <= i < ran@.len() ==> (#[trigger] ran@[i]).wf(),
        ensures
            final(self).wf(),
            final(self).signal() == old(self).signal(),
            final(self).jobs() == requeued(old(self).jobs(), ran@),
    {
        let mut executed = ran;
        while executed.len() > 0
            invariant
                self.signal == old(self).signal,
                in_order(self.queue@),
                forall|i: int| 0 <= i < self.queue@.len() ==> (#[trigger] self.queue@[i]).wf(),
                forall|i: int| 0 <= i < executed@.len() ==> (#[trigger] executed@[i]).wf(),
                requeued(self.queue@, executed@) == requeued(old(self).queue@, ran@),
            decreases executed@.len(),
        {
            let ghost waiting = executed@;
            let ghost held = self.queue@;
            let job = executed.remove(0);
            assert(executed@ =~= waiting.drop_first());
            assert forall|i: int| 0 <= i < executed@.len() implies (#[trigger] executed@[i]).wf() by {
                assert(executed@[i] == waiting[i + 1]);
            }
            if !job.has_expired() {
                let place = self.place_for(job.due_at());
                proof {
                    lemma_enqueued_in_order(held, job);
                }
                self.queue.insert(place, job);
                assert forall|i: int| 0 <= i < self.queue@.len() implies (
                #[trigger] self.queue@[i]).wf() by {
                    if i < place {
                        assert(self.queue@[i] == held[i]);
                    } else if i > place {
                        assert(self.queue@[i] == held[i - 1]);
                    }
                }
            }
        }
        assert(requeued(self.queue@, executed@) == self.queue@);
    }
}

} // verus!
