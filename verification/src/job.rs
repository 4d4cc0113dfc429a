//! Scheduled jobs and the queue that orders them by execution time.

use crate::clock::unix_seconds;
use crate::operation::{Operation, OperationView};
use vstd::prelude::*;

verus! {

/// What an [`OperationJob`] holds.
pub struct OperationJobView {
    pub execution_time: i64,
    pub operation: OperationView,
    pub interval: i64,
}

/// An operation scheduled on an agent: it runs every `interval` seconds,
/// next at `execution_time`, given in seconds since the Unix epoch.
#[derive(Debug)]
pub struct OperationJob {
    pub execution_time: i64,
    pub operation: Operation,
    pub interval: i64,
}

impl View for OperationJob {
    type V = OperationJobView;

    open spec fn view(&self) -> OperationJobView {
        OperationJobView {
            execution_time: self.execution_time,
            operation: self.operation@,
            interval: self.interval,
        }
    }
}

impl Clone for OperationJob {
    fn clone(&self) -> (res: Self)
        ensures
            res@ == self@,
    {
        OperationJob {
            execution_time: self.execution_time,
            operation: self.operation.clone(),
            interval: self.interval,
        }
    }
}

/// The remainder of `value` divided by a positive `divisor`, with the sign
/// of `value`, as the machine computes it.
pub open spec fn remainder(value: int, divisor: int) -> int {
    if value >= 0 {
        value % divisor
    } else {
        -((-value) % divisor)
    }
}

/// `time` moved forward by `interval`, held at the greatest representable
/// time where the sum would pass it.
pub open spec fn advanced(time: int, interval: int) -> i64 {
    if time + interval > i64::MAX {
        i64::MAX
    } else {
        (time + interval) as i64
    }
}

/// The first execution time of a job created at `now`: the next multiple of
/// `interval` after `now`, counted from the epoch.
pub open spec fn first_execution(now: i64, interval: i64) -> i64 {
    advanced(now - remainder(now as int, interval as int), interval as int)
}

/// The job as it is after one dispatch: its execution time moved forward by
/// its interval.
pub open spec fn rescheduled(job: OperationJobView) -> OperationJobView {
    OperationJobView {
        execution_time: advanced(job.execution_time as int, job.interval as int),
        ..job
    }
}

/// The job as it is after `count` dispatches.
pub open spec fn rescheduled_times(job: OperationJobView, count: nat) -> OperationJobView
    decreases count,
{
    if count == 0 {
        job
    } else {
        rescheduled(rescheduled_times(job, (count - 1) as nat))
    }
}

/// After `count` dispatches a job's execution time is its first one plus
/// `count` times its interval, as long as that time is representable; its
/// operation and interval stay.
pub proof fn lemma_rescheduled_times(job: OperationJobView, count: nat)
    requires
        job.interval > 0,
        job.execution_time + count * job.interval <= i64::MAX,
    ensures
        rescheduled_times(job, count) == (OperationJobView {
            execution_time: (job.execution_time + count * job.interval) as i64,
            ..job
        }),
    decreases count,
{
    if count > 0 {
        assert(count * job.interval == (count - 1) * job.interval + job.interval)
            by (nonlinear_arith);
        assert((count - 1) * job.interval >= 0) by (nonlinear_arith)
            requires
                count >= 1,
                job.interval > 0,
        ;
        lemma_rescheduled_times(job, (count - 1) as nat);
        let before = rescheduled_times(job, (count - 1) as nat);
        assert(before.execution_time == job.execution_time + (count - 1) * job.interval);
        assert(rescheduled(before).execution_time == job.execution_time + count * job.interval);
    } else {
        assert(count * job.interval == 0) by (nonlinear_arith)
            requires
                count == 0,
        ;
    }
}

/// Moves `time` forward by `interval`, stopping at `i64::MAX`.
fn advance(time: i64, interval: i64) -> (moved: i64)
    requires
        interval > 0,
    ensures
        moved == advanced(time as int, interval as int),
{
    if time > i64::MAX - interval {
        i64::MAX
    } else {
        time + interval
    }
}

impl OperationJob {
    /// Schedules `operation` every `interval` seconds from the current time
    /// on: the job first runs at the next multiple of `interval`.
    pub fn new(operation: Operation, interval: i64) -> (job: OperationJob)
        requires
            interval > 0,
        ensures
            job@.operation == operation@,
            job@.interval == interval,
            exists|now: i64| job@.execution_time == first_execution(now, interval),
    {
        let now = unix_seconds();
        OperationJob::starting_at(operation, interval, now)
    }

    /// Schedules `operation` every `interval` seconds as of the time `now`:
    /// the job first runs at the next multiple of `interval` after `now`.
    pub fn starting_at(operation: Operation, interval: i64, now: i64) -> (job: OperationJob)
        requires
            interval > 0,
        ensures
            job@ == (OperationJobView {
                execution_time: first_execution(now, interval),
                operation: operation@,
                interval,
            }),
    {
        let aligned = now - now % interval;
        OperationJob { execution_time: advance(aligned, interval), operation, interval }
    }

    /// Moves the job's execution time forward by its interval, as after a
    /// dispatch.
    pub fn reschedule(&mut self)
        requires
            old(self).interval > 0,
        ensures
            final(self)@ == rescheduled(old(self)@),
    {
        self.execution_time = advance(self.execution_time, self.interval);
    }
}

} // verus!
