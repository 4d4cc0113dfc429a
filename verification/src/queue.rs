//! A bucket's job queue: jobs ordered by ascending execution time.
//!
//! Among jobs with the same execution time the one queued first comes
//! first. Draining the queue at a time `now` dispatches the head job as long
//! as it is due, each dispatch followed by putting the job back one
//! interval later.

use crate::job::{rescheduled, rescheduled_times, OperationJob, OperationJobView};
use vstd::prelude::*;

verus! {

/// The views of a sequence of jobs.
pub open spec fn job_views(jobs: Seq<OperationJob>) -> Seq<OperationJobView> {
    Seq::new(jobs.len(), |i: int| jobs[i]@)
}

/// Whether the jobs stand in ascending order of execution time.
pub open spec fn ordered(queue: Seq<OperationJobView>) -> bool {
    forall|i: int, j: int|
        0 <= i <= j < queue.len() ==> queue[i].execution_time <= queue[j].execution_time
}

/// Whether every job has a positive interval.
pub open spec fn intervals_positive(queue: Seq<OperationJobView>) -> bool {
    forall|i: int| 0 <= i < queue.len() ==> #[trigger] queue[i].interval > 0
}

/// Whether the sequence is a queue: ordered, with positive intervals.
pub open spec fn queue_valid(queue: Seq<OperationJobView>) -> bool {
    ordered(queue) && intervals_positive(queue)
}

/// Where a job with execution time `time` enters the queue: behind the last
/// job whose execution time does not exceed `time`.
pub open spec fn insertion_point(queue: Seq<OperationJobView>, time: i64) -> int
    decreases queue.len(),
{
    if queue.len() == 0 || queue.last().execution_time <= time {
        queue.len() as int
    } else {
        insertion_point(queue.drop_last(), time)
    }
}

/// The queue with `job` put in at its place.
pub open spec fn inserted(queue: Seq<OperationJobView>, job: OperationJobView) -> Seq<
    OperationJobView,
> {
    queue.insert(insertion_point(queue, job.execution_time), job)
}

/// By how many seconds `job` is overdue at `now`; 0 where it is not due.
pub open spec fn overdue(job: OperationJobView, now: i64) -> nat {
    if job.execution_time < now {
        (now - job.execution_time) as nat
    } else {
        0
    }
}

/// The seconds by which the jobs of the queue are overdue at `now`, summed.
pub open spec fn total_overdue(queue: Seq<OperationJobView>, now: i64) -> nat
    decreases queue.len(),
{
    if queue.len() == 0 {
        0
    } else {
        total_overdue(queue.drop_last(), now) + overdue(queue.last(), now)
    }
}

/// What draining the queue at `now` yields: the jobs dispatched, in dispatch
/// order and each as it was when dispatched, and the queue left behind.
///
/// While the head job's execution time lies before `now`, it is dispatched
/// and put back rescheduled.
pub open spec fn drained(queue: Seq<OperationJobView>, now: i64) -> (
    Seq<OperationJobView>,
    Seq<OperationJobView>,
)
    decreases total_overdue(queue, now),
    when intervals_positive(queue)
    via drained_decreases
{
    if queue.len() > 0 && queue[0].execution_time < now {
        let rest = drained(inserted(queue.drop_first(), rescheduled(queue[0])), now);
        (seq![queue[0]] + rest.0, rest.1)
    } else {
        (Seq::empty(), queue)
    }
}

#[via_fn]
proof fn drained_decreases(queue: Seq<OperationJobView>, now: i64) {
    if queue.len() > 0 && queue[0].execution_time < now {
        lemma_requeue_less_overdue(queue, now);
    }
}

/// The insertion point lies within the queue's bounds; in an ordered queue
/// no job before it is later than `time` and every job from it on is.
pub proof fn lemma_insertion_point(queue: Seq<OperationJobView>, time: i64)
    ensures
        0 <= insertion_point(queue, time) <= queue.len(),
        forall|i: int|
            insertion_point(queue, time) <= i < queue.len() ==> queue[i].execution_time > time,
        ordered(queue) ==> forall|i: int|
            0 <= i < insertion_point(queue, time) ==> queue[i].execution_time <= time,
    decreases queue.len(),
{
    if !(queue.len() == 0 || queue.last().execution_time <= time) {
        lemma_insertion_point(queue.drop_last(), time);
        let shorter = queue.drop_last();
        assert forall|i: int|
            insertion_point(queue, time) <= i < queue.len() implies queue[i].execution_time
            > time by {
            if i < shorter.len() {
                assert(shorter[i] == queue[i]);
            }
        }
        if ordered(queue) {
            assert(ordered(shorter)) by {
                assert forall|i: int, j: int| 0 <= i <= j < shorter.len() implies shorter[i].execution_time
                    <= shorter[j].execution_time by {
                    assert(shorter[i] == queue[i] && shorter[j] == queue[j]);
                }
            }
            assert forall|i: int| 0 <= i < insertion_point(queue, time) implies queue[i].execution_time
                <= time by {
                assert(shorter[i] == queue[i]);
            }
        }
    }
}

/// Putting a job with a positive interval into a queue leaves a queue.
pub proof fn lemma_inserted_valid(queue: Seq<OperationJobView>, job: OperationJobView)
    requires
        queue_valid(queue),
        job.interval > 0,
    ensures
        queue_valid(inserted(queue, job)),
        inserted(queue, job).len() == queue.len() + 1,
{
    lemma_insertion_point(queue, job.execution_time);
}

/// Putting a job in anywhere adds what it is overdue to the sum.
proof fn lemma_total_overdue_insert(
    queue: Seq<OperationJobView>,
    at: int,
    job: OperationJobView,
    now: i64,
)
    requires
        0 <= at <= queue.len(),
    ensures
        total_overdue(queue.insert(at, job), now) == total_overdue(queue, now) + overdue(job, now),
    decreases queue.len(),
{
    let longer = queue.insert(at, job);
    if at == queue.len() {
        assert(longer.drop_last() =~= queue);
    } else {
        lemma_total_overdue_insert(queue.drop_last(), at, job, now);
        assert(longer.drop_last() =~= queue.drop_last().insert(at, job));
        assert(longer.last() == queue.last());
    }
}

/// Taking the head job out removes what it is overdue from the sum.
proof fn lemma_total_overdue_drop_first(queue: Seq<OperationJobView>, now: i64)
    requires
        queue.len() > 0,
    ensures
        total_overdue(queue.drop_first(), now) + overdue(queue[0], now) == total_overdue(
            queue,
            now,
        ),
    decreases queue.len(),
{
    if queue.len() == 1 {
        assert(queue.drop_first() =~= Seq::empty());
        assert(queue.drop_last() =~= Seq::empty());
    } else {
        lemma_total_overdue_drop_first(queue.drop_last(), now);
        assert(queue.drop_first().drop_last() =~= queue.drop_last().drop_first());
        assert(queue.drop_first().last() == queue.last());
    }
}

/// Dispatching a due head job and putting it back lowers the sum.
proof fn lemma_requeue_less_overdue(queue: Seq<OperationJobView>, now: i64)
    requires
        intervals_positive(queue),
        queue.len() > 0,
        queue[0].execution_time < now,
    ensures
        total_overdue(inserted(queue.drop_first(), rescheduled(queue[0])), now) < total_overdue(
            queue,
            now,
        ),
{
    let job = rescheduled(queue[0]);
    lemma_insertion_point(queue.drop_first(), job.execution_time);
    lemma_total_overdue_insert(
        queue.drop_first(),
        insertion_point(queue.drop_first(), job.execution_time),
        job,
        now,
    );
    lemma_total_overdue_drop_first(queue, now);
    assert(queue[0].interval > 0);
}

/// Taking the head job out of a queue leaves a queue.
proof fn lemma_drop_first_valid(queue: Seq<OperationJobView>)
    requires
        queue_valid(queue),
        queue.len() > 0,
    ensures
        queue_valid(queue.drop_first()),
{
    let rest = queue.drop_first();
    assert forall|i: int, j: int| 0 <= i <= j < rest.len() implies rest[i].execution_time
        <= rest[j].execution_time by {
        assert(rest[i] == queue[i + 1] && rest[j] == queue[j + 1]);
    }
    assert forall|i: int| 0 <= i < rest.len() implies #[trigger] rest[i].interval > 0 by {
        assert(rest[i] == queue[i + 1]);
    }
}

/// Draining loses no job and leaves a queue in which nothing is due; every
/// dispatched job was due, and the dispatches come in ascending order of
/// execution time, none earlier than the head of the queue.
pub proof fn lemma_drained(queue: Seq<OperationJobView>, now: i64)
    requires
        queue_valid(queue),
    ensures
        queue_valid(drained(queue, now).1),
        drained(queue, now).1.len() == queue.len(),
        forall|i: int|
            0 <= i < queue.len() ==> (#[trigger] drained(queue, now).1[i]).execution_time >= now,
        forall|i: int|
            0 <= i < drained(queue, now).0.len() ==> (#[trigger] drained(
                queue,
                now,
            ).0[i]).execution_time < now,
        ordered(drained(queue, now).0),
        drained(queue, now).0.len() > 0 ==> drained(queue, now).0[0] == queue[0],
    decreases total_overdue(queue, now),
{
    if queue.len() > 0 && queue[0].execution_time < now {
        let head = queue[0];
        let requeued = inserted(queue.drop_first(), rescheduled(head));
        lemma_requeue_less_overdue(queue, now);
        lemma_drop_first_valid(queue);
        lemma_inserted_valid(queue.drop_first(), rescheduled(head));
        lemma_drained(requeued, now);
        let rest = drained(requeued, now);
        let dispatched = drained(queue, now).0;
        assert(dispatched == seq![head] + rest.0);
        lemma_insertion_point(queue.drop_first(), rescheduled(head).execution_time);
        assert(requeued.len() > 0);
        assert(head.execution_time <= requeued[0].execution_time) by {
            let at = insertion_point(queue.drop_first(), rescheduled(head).execution_time);
            if at == 0 {
                assert(requeued[0] == rescheduled(head));
            } else {
                assert(requeued[0] == queue.drop_first()[0]);
                assert(queue.drop_first()[0] == queue[1]);
            }
        }
        assert forall|i: int, j: int| 0 <= i <= j < dispatched.len() implies dispatched[i].execution_time
            <= dispatched[j].execution_time by {
            if i > 0 {
                assert(dispatched[i] == rest.0[i - 1] && dispatched[j] == rest.0[j - 1]);
            } else if j > 0 {
                assert(dispatched[j] == rest.0[j - 1]);
                assert(rest.0[0].execution_time <= rest.0[j - 1].execution_time);
            }
        }
        assert forall|i: int| 0 <= i < dispatched.len() implies (#[trigger] dispatched[i]).execution_time
            < now by {
            if i > 0 {
                assert(dispatched[i] == rest.0[i - 1]);
            }
        }
    } else {
        assert forall|i: int| 0 <= i < queue.len() implies queue[i].execution_time >= now by {
            assert(queue[0].execution_time <= queue[i].execution_time);
        }
    }
}

/// Whether `job` is `origin` after `count` dispatches.
pub open spec fn dispatched_times(job: OperationJobView, origin: OperationJobView, count: nat) -> bool {
    job == rescheduled_times(origin, count)
}

/// Whether `job` is a job of `queue` after some number of dispatches.
#[verifier::opaque]
pub open spec fn descends(job: OperationJobView, queue: Seq<OperationJobView>) -> bool {
    exists|index: int, count: nat|
        0 <= index < queue.len() && #[trigger] dispatched_times(job, queue[index], count)
}

/// Dispatching a job `first` times and then `then` times is dispatching it
/// `first + then` times.
proof fn lemma_rescheduled_times_add(job: OperationJobView, first: nat, then: nat)
    ensures
        rescheduled_times(rescheduled_times(job, first), then) == rescheduled_times(
            job,
            first + then,
        ),
    decreases then,
{
    if then > 0 {
        lemma_rescheduled_times_add(job, first, (then - 1) as nat);
    }
}

/// What descends from a queue whose jobs descend from another descends
/// from that other queue.
proof fn lemma_descends_through(
    job: OperationJobView,
    middle: Seq<OperationJobView>,
    queue: Seq<OperationJobView>,
)
    requires
        descends(job, middle),
        forall|i: int| 0 <= i < middle.len() ==> descends(#[trigger] middle[i], queue),
    ensures
        descends(job, queue),
{
    reveal(descends);
    let (i, then) = choose|i: int, then: nat|
        0 <= i < middle.len() && #[trigger] dispatched_times(job, middle[i], then);
    assert(descends(middle[i], queue));
    let (j, first) = choose|j: int, first: nat|
        0 <= j < queue.len() && #[trigger] dispatched_times(middle[i], queue[j], first);
    lemma_rescheduled_times_add(queue[j], first, then);
    assert(dispatched_times(job, queue[j], first + then));
}

/// Every job of a queue descends from the queue.
proof fn lemma_descends_itself(queue: Seq<OperationJobView>)
    ensures
        forall|i: int| 0 <= i < queue.len() ==> descends(#[trigger] queue[i], queue),
{
    reveal(descends);
    assert forall|i: int| 0 <= i < queue.len() implies descends(#[trigger] queue[i], queue) by {
        assert(dispatched_times(queue[i], queue[i], 0));
    }
}

/// Every job of a queue whose head was dispatched and put back descends
/// from the queue as it was.
proof fn lemma_requeued_descends(queue: Seq<OperationJobView>)
    requires
        queue.len() > 0,
    ensures
        forall|i: int|
            0 <= i < queue.len() ==> descends(
                #[trigger] inserted(queue.drop_first(), rescheduled(queue[0]))[i],
                queue,
            ),
{
    reveal(descends);
    let requeued = inserted(queue.drop_first(), rescheduled(queue[0]));
    lemma_insertion_point(queue.drop_first(), rescheduled(queue[0]).execution_time);
    let at = insertion_point(queue.drop_first(), rescheduled(queue[0]).execution_time);
    assert forall|i: int| 0 <= i < queue.len() implies descends(#[trigger] requeued[i], queue) by {
        if i == at {
            assert(rescheduled_times(queue[0], 0) == queue[0]);
            assert(dispatched_times(requeued[i], queue[0], 1));
        } else {
            let k = if i < at {
                i + 1
            } else {
                i
            };
            assert(requeued[i] == queue[k]);
            assert(dispatched_times(requeued[i], queue[k], 0));
        }
    }
}

/// Draining changes nothing but execution times: every job dispatched and
/// every job left in the queue is a job of the queue as it was, after some
/// number of dispatches.
pub proof fn lemma_drained_descends(queue: Seq<OperationJobView>, now: i64)
    requires
        queue_valid(queue),
    ensures
        forall|i: int|
            0 <= i < drained(queue, now).0.len() ==> descends(
                #[trigger] drained(queue, now).0[i],
                queue,
            ),
        forall|i: int|
            0 <= i < drained(queue, now).1.len() ==> descends(
                #[trigger] drained(queue, now).1[i],
                queue,
            ),
    decreases total_overdue(queue, now),
{
    lemma_descends_itself(queue);
    if queue.len() > 0 && queue[0].execution_time < now {
        let head = queue[0];
        let requeued = inserted(queue.drop_first(), rescheduled(head));
        lemma_requeue_less_overdue(queue, now);
        lemma_drop_first_valid(queue);
        lemma_inserted_valid(queue.drop_first(), rescheduled(head));
        lemma_requeued_descends(queue);
        lemma_drained_descends(requeued, now);
        let rest = drained(requeued, now);
        let dispatched = drained(queue, now).0;
        assert(dispatched == seq![head] + rest.0);
        assert(drained(queue, now).1 == rest.1);
        assert forall|i: int| 0 <= i < dispatched.len() implies descends(
            #[trigger] dispatched[i],
            queue,
        ) by {
            if i > 0 {
                assert(dispatched[i] == rest.0[i - 1]);
                lemma_descends_through(rest.0[i - 1], requeued, queue);
            } else {
                assert(dispatched[0] == queue[0]);
            }
        }
        assert forall|i: int| 0 <= i < rest.1.len() implies descends(
            #[trigger] rest.1[i],
            queue,
        ) by {
            lemma_descends_through(rest.1[i], requeued, queue);
        }
    }
}

/// A bucket's jobs, ordered by ascending execution time.
#[derive(Debug)]
pub struct JobQueue {
    jobs: Vec<OperationJob>,
}

impl View for JobQueue {
    type V = Seq<OperationJobView>;

    closed spec fn view(&self) -> Seq<OperationJobView> {
        job_views(self.jobs@)
    }
}

impl JobQueue {
    /// Whether the jobs held form a queue, as every `JobQueue`'s do.
    pub open spec fn wf(&self) -> bool {
        queue_valid(self@)
    }

    /// Makes an empty queue.
    pub fn new() -> (queue: JobQueue)
        ensures
            queue.wf(),
            queue@ == Seq::<OperationJobView>::empty(),
    {
        let queue = JobQueue { jobs: Vec::new() };
        assert(queue@ =~= Seq::<OperationJobView>::empty());
        queue
    }

    /// The number of jobs held.
    pub fn len(&self) -> (count: usize)
        ensures
            count == self@.len(),
    {
        self.jobs.len()
    }

    /// The jobs held, in the order in which they run.
    pub fn jobs(&self) -> (jobs: &Vec<OperationJob>)
        ensures
            job_views(jobs@) == self@,
    {
        &self.jobs
    }

    /// The job that runs next, if any.
    pub fn peek(&self) -> (head: Option<&OperationJob>)
        ensures
            match head {
                Some(job) => self@.len() > 0 && job@ == self@[0],
                None => self@.len() == 0,
            },
    {
        if self.jobs.len() > 0 {
            Some(&self.jobs[0])
        } else {
            None
        }
    }

    /// Puts `job` in behind the jobs that run no later than it.
    pub fn push(&mut self, job: OperationJob)
        requires
            old(self).wf(),
            job.interval > 0,
        ensures
            final(self).wf(),
            final(self)@ == inserted(old(self)@, job@),
    {
        let mut at: usize = self.jobs.len();
        assert(self@.take(at as int) =~= self@);
        while at > 0 && self.jobs[at - 1].execution_time > job.execution_time
            invariant
                at <= self.jobs.len(),
                insertion_point(self@, job.execution_time) == insertion_point(
                    self@.take(at as int),
                    job.execution_time,
                ),
            decreases at,
        {
            proof {
                let prefix = self@.take(at as int);
                assert(prefix.last() == self.jobs[at - 1]@);
                assert(prefix.drop_last() =~= self@.take(at - 1));
            }
            at -= 1;
        }
        proof {
            let prefix = self@.take(at as int);
            if at > 0 {
                assert(prefix.last() == self.jobs[at - 1]@);
            }
            assert(insertion_point(self@, job.execution_time) == at);
            lemma_inserted_valid(self@, job@);
        }
        let ghost before = self@;
        self.jobs.insert(at, job);
        assert(self@ =~= before.insert(at as int, job@));
    }

    /// Takes out the job that runs next, if any.
    pub fn pop(&mut self) -> (head: Option<OperationJob>)
        requires
            old(self).wf(),
        ensures
            final(self).wf(),
            match head {
                Some(job) => old(self)@.len() > 0 && job@ == old(self)@[0] && final(self)@ == old(
                    self,
                )@.drop_first(),
                None => old(self)@.len() == 0 && final(self)@ == old(self)@,
            },
    {
        if self.jobs.len() > 0 {
            proof {
                lemma_drop_first_valid(self@);
            }
            let ghost before = self@;
            let job = self.jobs.remove(0);
            assert(self@ =~= before.drop_first());
            Some(job)
        } else {
            None
        }
    }

    /// Dispatches every job that is due at `now`: while the head job's
    /// execution time lies before `now`, a copy of it is handed out and the
    /// job is put back one interval later. The copies come in dispatch
    /// order.
    pub fn drain_due(&mut self, now: i64) -> (dispatched: Vec<OperationJob>)
        requires
            old(self).wf(),
        ensures
            final(self).wf(),
            job_views(dispatched@) == drained(old(self)@, now).0,
            final(self)@ == drained(old(self)@, now).1,
            final(self)@.len() == old(self)@.len(),
            forall|i: int|
                0 <= i < final(self)@.len() ==> (#[trigger] final(self)@[i]).execution_time >= now,
            forall|i: int|
                0 <= i < dispatched.len() ==> (#[trigger] dispatched[i]).execution_time < now,
            ordered(job_views(dispatched@)),
    {
        let mut dispatched: Vec<OperationJob> = Vec::new();
        let ghost start = self@;
        assert(job_views(dispatched@) + drained(self@, now).0 =~= drained(self@, now).0);
        while self.jobs.len() > 0 && self.jobs[0].execution_time < now
            invariant
                self.wf(),
                intervals_positive(start),
                drained(start, now).0 == job_views(dispatched@) + drained(self@, now).0,
                drained(start, now).1 == drained(self@, now).1,
            decreases total_overdue(self@, now),
        {
            let ghost before = self@;
            let ghost sent = job_views(dispatched@);
            proof {
                lemma_requeue_less_overdue(before, now);
            }
            let mut job = self.pop().unwrap();
            dispatched.push(job.clone());
            job.reschedule();
            self.push(job);
            proof {
                let rest = drained(self@, now);
                assert(job_views(dispatched@) =~= sent.push(before[0]));
                assert(sent.push(before[0]) + rest.0 =~= sent + (seq![before[0]] + rest.0));
            }
        }
        proof {
            assert(job_views(dispatched@) + Seq::<OperationJobView>::empty() =~= job_views(
                dispatched@,
            ));
            lemma_drained(start, now);
            assert forall|i: int| 0 <= i < dispatched.len() implies (#[trigger] dispatched[i]).execution_time
                < now by {
                assert(job_views(dispatched@)[i] == dispatched[i]@);
            }
        }
        dispatched
    }
}

} // verus!
