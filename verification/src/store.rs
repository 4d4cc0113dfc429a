//! An agent's assignments: per bucket, the fingerprint last agreed with the
//! coordinator and the queue of jobs to run.
//!
//! A bucket that a synchronisation response names is replaced as a whole:
//! its fingerprint is computed anew over the operations received, and its
//! queue is rebuilt from those that pass the tag filter.

use crate::bucket::{bucket_boundaries, even_boundary};
use crate::clock::unix_seconds;
use crate::job::{first_execution, OperationJob, OperationJobView};
use crate::operation::{
    fingerprint, operation_views, operations_written, Operation, OperationView,
};
use crate::queue::{
    drained, inserted, insertion_point, job_views, lemma_drained, lemma_inserted_valid,
    lemma_insertion_point, queue_valid, JobQueue,
};
use crate::tags::{
    derived_interval, intervals_positive, lemma_derived_interval_positive, TagFilter,
    TagFilterView,
};
use std::collections::hash_map::DefaultHasher;
use std::collections::HashMap;
use std::hash::Hasher;
use vstd::prelude::*;

verus! {

/// What one bucket of an [`AssignmentStore`] holds.
pub struct BucketView {
    pub key: u64,
    pub fingerprint: u64,
    pub jobs: Seq<OperationJobView>,
}

#[derive(Debug)]
struct Bucket {
    key: u64,
    fingerprint: u64,
    jobs: JobQueue,
}

impl View for Bucket {
    type V = BucketView;

    closed spec fn view(&self) -> BucketView {
        BucketView { key: self.key, fingerprint: self.fingerprint, jobs: self.jobs@ }
    }
}

/// An agent's buckets, in ascending order of key.
#[derive(Debug)]
pub struct AssignmentStore {
    buckets: Vec<Bucket>,
}

impl View for AssignmentStore {
    type V = Seq<BucketView>;

    closed spec fn view(&self) -> Seq<BucketView> {
        Seq::new(self.buckets@.len(), |i: int| self.buckets@[i]@)
    }
}

/// Whether the buckets stand in strictly ascending order of key and each
/// holds a queue.
pub open spec fn store_valid(store: Seq<BucketView>) -> bool {
    &&& forall|i: int, j: int| 0 <= i < j < store.len() ==> store[i].key < store[j].key
    &&& forall|i: int| 0 <= i < store.len() ==> queue_valid(#[trigger] store[i].jobs)
}

/// The job that `operation` becomes when it is accepted at `now` to run
/// every `interval` seconds.
pub open spec fn job_for(operation: OperationView, interval: i64, now: i64) -> OperationJobView {
    OperationJobView { execution_time: first_execution(now, interval), operation, interval }
}

/// The queue built from `operations` received at `now`: each operation that
/// passes `filter` is queued, in the order received, at the interval
/// derived from its tags.
pub open spec fn scheduled(operations: Seq<OperationView>, filter: TagFilterView, now: i64) -> Seq<
    OperationJobView,
>
    decreases operations.len(),
{
    if operations.len() == 0 {
        Seq::empty()
    } else {
        let before = scheduled(operations.drop_last(), filter, now);
        match derived_interval(operations.last().tags, filter) {
            Some(interval) => inserted(before, job_for(operations.last(), interval, now)),
            None => before,
        }
    }
}

/// A bucket as it is after a response replaced its operations.
pub open spec fn replaced(
    key: u64,
    operations: Seq<OperationView>,
    filter: TagFilterView,
    now: i64,
) -> BucketView {
    BucketView {
        key,
        fingerprint: fingerprint(operations),
        jobs: scheduled(operations, filter, now),
    }
}

/// The operations of each bucket of a response, by bucket key.
pub open spec fn response_views(response: Map<u64, Vec<Operation>>) -> Map<
    u64,
    Seq<OperationView>,
> {
    Map::new(
        |key: u64| response.contains_key(key),
        |key: u64| operation_views(response[key]@),
    )
}

/// The store as it is after a response was applied at `now`: every bucket
/// that the response names is replaced, every other stays as it is.
pub open spec fn applied(
    store: Seq<BucketView>,
    response: Map<u64, Seq<OperationView>>,
    filter: TagFilterView,
    now: i64,
) -> Seq<BucketView> {
    Seq::new(
        store.len(),
        |i: int|
            if response.contains_key(store[i].key) {
                replaced(store[i].key, response[store[i].key], filter, now)
            } else {
                store[i]
            },
    )
}

/// The number of jobs that applying a response puts into the first `count`
/// buckets.
pub open spec fn accepted(
    store: Seq<BucketView>,
    response: Map<u64, Seq<OperationView>>,
    filter: TagFilterView,
    now: i64,
    count: int,
) -> nat
    decreases count,
{
    if count <= 0 {
        0
    } else {
        let before = accepted(store, response, filter, now, count - 1);
        if response.contains_key(store[count - 1].key) {
            before + scheduled(response[store[count - 1].key], filter, now).len()
        } else {
            before
        }
    }
}

/// A count as a machine number: itself, or the greatest machine number
/// where it is greater.
pub open spec fn counted(count: nat) -> usize {
    if count > usize::MAX {
        usize::MAX
    } else {
        count as usize
    }
}

/// The fingerprints that the store holds, by bucket key: what the agent
/// sends with a synchronisation request.
pub open spec fn fingerprints_of(store: Seq<BucketView>) -> Map<u64, u64>
    decreases store.len(),
{
    if store.len() == 0 {
        Map::empty()
    } else {
        fingerprints_of(store.drop_last()).insert(store.last().key, store.last().fingerprint)
    }
}

/// The jobs dispatched by draining the first `count` buckets at `now`,
/// bucket after bucket.
pub open spec fn dispatched_from(store: Seq<BucketView>, now: i64, count: int) -> Seq<
    OperationJobView,
>
    decreases count,
{
    if count <= 0 {
        Seq::empty()
    } else {
        dispatched_from(store, now, count - 1) + drained(store[count - 1].jobs, now).0
    }
}

/// The store as it is after every bucket was drained at `now`.
pub open spec fn settled(store: Seq<BucketView>, now: i64) -> Seq<BucketView> {
    Seq::new(
        store.len(),
        |i: int| BucketView { jobs: drained(store[i].jobs, now).1, ..store[i] },
    )
}

/// Whether `job` is what the `index`-th of `operations` becomes when it
/// passes `filter` at `now`.
pub open spec fn stems_from(
    job: OperationJobView,
    operations: Seq<OperationView>,
    filter: TagFilterView,
    now: i64,
    index: int,
) -> bool {
    &&& 0 <= index < operations.len()
    &&& derived_interval(operations[index].tags, filter) is Some
    &&& job == job_for(
        operations[index],
        derived_interval(operations[index].tags, filter)->0,
        now,
    )
}

/// Whether `job` is what one of `operations` becomes when it passes
/// `filter` at `now`.
pub open spec fn accepted_from(
    job: OperationJobView,
    operations: Seq<OperationView>,
    filter: TagFilterView,
    now: i64,
) -> bool {
    exists|i: int| stems_from(job, operations, filter, now, i)
}

/// The number of `operations` that pass `filter`.
pub open spec fn passing(operations: Seq<OperationView>, filter: TagFilterView) -> nat
    decreases operations.len(),
{
    if operations.len() == 0 {
        0
    } else if derived_interval(operations.last().tags, filter) is Some {
        passing(operations.drop_last(), filter) + 1
    } else {
        passing(operations.drop_last(), filter)
    }
}

/// The queue built from received operations is a queue with one job for
/// each operation that passes the filter; each of its jobs stems from such
/// an operation, runs at the interval derived from that operation's tags
/// and first at the next multiple of it after `now`.
pub proof fn lemma_scheduled(operations: Seq<OperationView>, filter: TagFilterView, now: i64)
    requires
        intervals_positive(filter),
    ensures
        queue_valid(scheduled(operations, filter, now)),
        scheduled(operations, filter, now).len() == passing(operations, filter),
        passing(operations, filter) <= operations.len(),
        forall|j: int|
            0 <= j < scheduled(operations, filter, now).len() ==> accepted_from(
                #[trigger] scheduled(operations, filter, now)[j],
                operations,
                filter,
                now,
            ),
    decreases operations.len(),
{
    if operations.len() == 0 {
        assert(scheduled(operations, filter, now).len() == 0);
    } else {
        let shorter = operations.drop_last();
        lemma_scheduled(shorter, filter, now);
        let before = scheduled(shorter, filter, now);
        let queue = scheduled(operations, filter, now);
        assert forall|job: OperationJobView, i: int|
            stems_from(job, shorter, filter, now, i) implies stems_from(
            job,
            operations,
            filter,
            now,
            i,
        ) by {
            assert(operations[i] == shorter[i]);
        }
        let derived = derived_interval(operations.last().tags, filter);
        if derived is Some {
            lemma_derived_interval_positive(operations.last().tags, filter);
            let job = job_for(operations.last(), derived->0, now);
            lemma_inserted_valid(before, job);
            lemma_insertion_point(before, job.execution_time);
            let at = insertion_point(before, job.execution_time);
            assert forall|j: int| 0 <= j < queue.len() implies accepted_from(
                #[trigger] queue[j],
                operations,
                filter,
                now,
            ) by {
                if j == at {
                    assert(stems_from(queue[j], operations, filter, now, operations.len() - 1));
                } else {
                    let k = if j < at {
                        j
                    } else {
                        j - 1
                    };
                    assert(queue[j] == before[k]);
                    let i = choose|i: int| stems_from(before[k], shorter, filter, now, i);
                    assert(stems_from(queue[j], operations, filter, now, i));
                }
            }
        } else {
            assert forall|j: int| 0 <= j < queue.len() implies accepted_from(
                #[trigger] queue[j],
                operations,
                filter,
                now,
            ) by {
                let i = choose|i: int| stems_from(before[j], shorter, filter, now, i);
                assert(stems_from(queue[j], operations, filter, now, i));
            }
        }
    }
}

/// The strictly ascending order of evenly spaced boundaries.
proof fn lemma_even_boundaries_ascend(bucket_count: int, i: int, j: int)
    requires
        0 < bucket_count <= u64::MAX,
        0 <= i < j < bucket_count,
    ensures
        0 <= even_boundary(bucket_count, i) < even_boundary(bucket_count, j) <= u64::MAX,
{
    let step = 0x1_0000_0000_0000_0000int / bucket_count;
    assert(step >= 1 && bucket_count * step <= 0x1_0000_0000_0000_0000int) by (nonlinear_arith)
        requires
            step == 0x1_0000_0000_0000_0000int / bucket_count,
            0 < bucket_count <= 0xffff_ffff_ffff_ffff,
    ;
    assert(0 <= i * step < j * step && j * step <= bucket_count * step - step)
        by (nonlinear_arith)
        requires
            0 <= i < j < bucket_count,
            step >= 1,
    ;
}

/// The fingerprints held name exactly the store's buckets, each with the
/// fingerprint the store holds for it.
pub proof fn lemma_fingerprints_of(store: Seq<BucketView>)
    requires
        store_valid(store),
    ensures
        forall|key: u64|
            fingerprints_of(store).contains_key(key) <==> exists|i: int|
                0 <= i < store.len() && #[trigger] store[i].key == key,
        forall|i: int|
            0 <= i < store.len() ==> fingerprints_of(store)[#[trigger] store[i].key]
                == store[i].fingerprint,
    decreases store.len(),
{
    if store.len() > 0 {
        let shorter = store.drop_last();
        assert(store_valid(shorter)) by {
            assert forall|i: int, j: int| 0 <= i < j < shorter.len() implies shorter[i].key
                < shorter[j].key by {
                assert(shorter[i] == store[i] && shorter[j] == store[j]);
            }
            assert forall|i: int| 0 <= i < shorter.len() implies queue_valid(
                #[trigger] shorter[i].jobs,
            ) by {
                assert(shorter[i] == store[i]);
            }
        }
        lemma_fingerprints_of(shorter);
        assert forall|key: u64|
            fingerprints_of(store).contains_key(key) <==> exists|i: int|
                0 <= i < store.len() && #[trigger] store[i].key == key by {
            let last = store.len() - 1;
            if fingerprints_of(store).contains_key(key) {
                if key == store.last().key {
                    assert(store[last].key == key);
                } else {
                    assert(fingerprints_of(shorter).contains_key(key));
                    let i = choose|i: int|
                        0 <= i < shorter.len() && #[trigger] shorter[i].key == key;
                    assert(store[i].key == key);
                }
            }
            if exists|i: int| 0 <= i < store.len() && #[trigger] store[i].key == key {
                let i = choose|i: int| 0 <= i < store.len() && #[trigger] store[i].key == key;
                if i < last {
                    assert(shorter[i].key == key);
                    assert(fingerprints_of(shorter).contains_key(key));
                }
            }
        }
        assert forall|i: int| 0 <= i < store.len() implies fingerprints_of(store)[#[trigger] store[i].key]
            == store[i].fingerprint by {
            if i < shorter.len() {
                assert(shorter[i] == store[i]);
                assert(store[i].key < store[store.len() - 1].key);
            }
        }
    }
}

/// Builds a bucket's queue from the operations received for it and computes
/// their fingerprint.
fn schedule(operations: &Vec<Operation>, filter: &TagFilter, now: i64) -> (bucket: (JobQueue, u64))
    requires
        filter.wf(),
    ensures
        bucket.0.wf(),
        bucket.0@ == scheduled(operation_views(operations@), filter@, now),
        bucket.1 == fingerprint(operation_views(operations@)),
{
    let ghost views = operation_views(operations@);
    let mut jobs = JobQueue::new();
    let mut hasher = DefaultHasher::new();
    let mut i: usize = 0;
    assert(views.take(0) =~= Seq::<OperationView>::empty());
    while i < operations.len()
        invariant
            i <= operations.len(),
            views == operation_views(operations@),
            filter.wf(),
            jobs.wf(),
            jobs@ == scheduled(views.take(i as int), filter@, now),
            hasher@ == operations_written(Seq::empty(), views.take(i as int)),
        decreases operations.len() - i,
    {
        let operation = &operations[i];
        proof {
            let next = views.take(i + 1);
            assert(next.drop_last() =~= views.take(i as int));
            assert(next.last() == operation@);
        }
        operation.hash(&mut hasher);
        match filter.interval_for(&operation.tags) {
            Some(interval) => {
                proof {
                    lemma_derived_interval_positive(operation@.tags, filter@);
                }
                jobs.push(OperationJob::starting_at(operation.clone(), interval, now));
            },
            None => {},
        }
        i += 1;
    }
    assert(views.take(i as int) =~= views);
    (jobs, hasher.finish())
}

impl AssignmentStore {
    /// Whether the buckets are in order and each holds a queue, as every
    /// store's are and do.
    pub open spec fn wf(&self) -> bool {
        store_valid(self@)
    }

    /// Makes a store of `bucket_count` buckets whose boundaries are spaced
    /// evenly over the hash space, each empty and never synchronised:
    /// its fingerprint is 0.
    pub fn new(bucket_count: u64) -> (store: AssignmentStore)
        requires
            0 < bucket_count <= usize::MAX,
        ensures
            store.wf(),
            store@.len() == bucket_count,
            forall|i: int|
                0 <= i < bucket_count ==> #[trigger] store@[i] == (BucketView {
                    key: even_boundary(bucket_count as int, i) as u64,
                    fingerprint: 0,
                    jobs: Seq::empty(),
                }),
    {
        let boundaries = bucket_boundaries(bucket_count);
        let mut buckets: Vec<Bucket> = Vec::new();
        let mut i: usize = 0;
        while i < boundaries.len()
            invariant
                i <= boundaries.len(),
                buckets.len() == i,
                forall|k: int|
                    0 <= k < i ==> (#[trigger] buckets[k])@ == (BucketView {
                        key: boundaries[k],
                        fingerprint: 0,
                        jobs: Seq::empty(),
                    }),
            decreases boundaries.len() - i,
        {
            buckets.push(Bucket { key: boundaries[i], fingerprint: 0, jobs: JobQueue::new() });
            i += 1;
        }
        let store = AssignmentStore { buckets };
        proof {
            assert forall|a: int, b: int| 0 <= a < b < store@.len() implies store@[a].key
                < store@[b].key by {
                lemma_even_boundaries_ascend(bucket_count as int, a, b);
            }
            assert forall|k: int| 0 <= k < bucket_count implies #[trigger] store@[k]
                == (BucketView {
                key: even_boundary(bucket_count as int, k) as u64,
                fingerprint: 0,
                jobs: Seq::empty(),
            }) by {
                assert(store@[k] == buckets[k]@);
            }
        }
        store
    }

    /// The number of buckets.
    pub fn len(&self) -> (count: usize)
        ensures
            count == self@.len(),
    {
        self.buckets.len()
    }

    /// The key of the bucket at `index`, counted in ascending order of key;
    /// `None` if and only if there is no such bucket.
    pub fn key_at(&self, index: usize) -> (key: Option<u64>)
        ensures
            key == if index < self@.len() {
                Some(self@[index as int].key)
            } else {
                None
            },
    {
        if index < self.buckets.len() {
            Some(self.buckets[index].key)
        } else {
            None
        }
    }

    /// The fingerprint held for the bucket at `index`; `None` if and only if
    /// there is no such bucket.
    pub fn fingerprint_at(&self, index: usize) -> (fingerprint: Option<u64>)
        ensures
            fingerprint == if index < self@.len() {
                Some(self@[index as int].fingerprint)
            } else {
                None
            },
    {
        if index < self.buckets.len() {
            Some(self.buckets[index].fingerprint)
        } else {
            None
        }
    }

    /// The queue of the bucket at `index`; `None` if and only if there is
    /// no such bucket.
    pub fn queue_at(&self, index: usize) -> (queue: Option<&JobQueue>)
        ensures
            match queue {
                Some(queue) => index < self@.len() && queue@ == self@[index as int].jobs,
                None => index >= self@.len(),
            },
    {
        if index < self.buckets.len() {
            Some(&self.buckets[index].jobs)
        } else {
            None
        }
    }

    /// The fingerprint held for each bucket, by bucket key: the request that
    /// the agent sends to synchronise.
    pub fn fingerprints(&self) -> (request: HashMap<u64, u64>)
        ensures
            request@ == fingerprints_of(self@),
    {
        let mut request: HashMap<u64, u64> = HashMap::new();
        let mut i: usize = 0;
        assert(self@.take(0) =~= Seq::<BucketView>::empty());
        while i < self.buckets.len()
            invariant
                i <= self.buckets.len(),
                request@ == fingerprints_of(self@.take(i as int)),
            decreases self.buckets.len() - i,
        {
            proof {
                let next = self@.take(i + 1);
                assert(next.drop_last() =~= self@.take(i as int));
                assert(next.last() == self.buckets[i as int]@);
            }
            request.insert(self.buckets[i].key, self.buckets[i].fingerprint);
            i += 1;
        }
        assert(self@.take(i as int) =~= self@);
        request
    }

    /// Applies a synchronisation response received at `now`: every bucket
    /// that the response names is replaced as a whole, its queue rebuilt
    /// from the received operations that pass `filter` and its fingerprint
    /// computed over all of them; every other bucket stays as it is.
    /// Returns the number of jobs queued, held at `usize::MAX`.
    pub fn apply_response(
        &mut self,
        response: &HashMap<u64, Vec<Operation>>,
        filter: &TagFilter,
        now: i64,
    ) -> (count: usize)
        requires
            old(self).wf(),
            filter.wf(),
        ensures
            final(self).wf(),
            final(self)@ == applied(old(self)@, response_views(response@), filter@, now),
            count == counted(
                accepted(
                    old(self)@,
                    response_views(response@),
                    filter@,
                    now,
                    old(self)@.len() as int,
                ),
            ),
    {
        let ghost before = self@;
        let ghost received = response_views(response@);
        let mut count: usize = 0;
        let mut i: usize = 0;
        while i < self.buckets.len()
            invariant
                i <= self.buckets.len(),
                filter.wf(),
                self@.len() == before.len(),
                store_valid(before),
                received == response_views(response@),
                forall|k: int| 0 <= k < i ==> #[trigger] self@[k] == applied(
                    before,
                    received,
                    filter@,
                    now,
                )[k],
                forall|k: int| i <= k < self@.len() ==> #[trigger] self@[k] == before[k],
                count == counted(accepted(before, received, filter@, now, i as int)),
            decreases self.buckets.len() - i,
        {
            let key = self.buckets[i].key;
            assert(self@[i as int] == self.buckets[i as int]@);
            assert(before[i as int].key == key);
            let ghost earlier = self@;
            match response.get(&key) {
                Some(operations) => {
                    assert(response@.contains_key(key) && response@[key] == *operations);
                    assert(received.contains_key(key));
                    assert(received[key] == operation_views(operations@));
                    let (jobs, fingerprint) = schedule(operations, filter, now);
                    let queued = jobs.len();
                    count = if queued > usize::MAX - count {
                        usize::MAX
                    } else {
                        count + queued
                    };
                    self.buckets.set(i, Bucket { key, fingerprint, jobs });
                    assert(self@[i as int] == self.buckets[i as int]@);
                    assert(self@[i as int] == replaced(key, received[key], filter@, now));
                },
                None => {
                    assert(!response@.contains_key(key));
                    assert(!received.contains_key(key));
                },
            }
            assert forall|k: int| 0 <= k < self@.len() && k != i implies #[trigger] self@[k]
                == earlier[k] by {
                assert(self@[k] == self.buckets[k]@);
            }
            assert(self@[i as int] == applied(before, received, filter@, now)[i as int]);
            i += 1;
        }
        proof {
            assert(self@ =~= applied(before, received, filter@, now));
            assert forall|k: int| 0 <= k < self@.len() implies queue_valid(
                #[trigger] self@[k].jobs,
            ) by {
                if received.contains_key(before[k].key) {
                    lemma_scheduled(received[before[k].key], filter@, now);
                }
            }
            assert forall|a: int, b: int| 0 <= a < b < self@.len() implies self@[a].key
                < self@[b].key by {
                assert(self@[a].key == before[a].key && self@[b].key == before[b].key);
            }
        }
        count
    }

    /// Applies a synchronisation response as of the current time; see
    /// [`AssignmentStore::apply_response`].
    pub fn update_operations(
        &mut self,
        response: &HashMap<u64, Vec<Operation>>,
        filter: &TagFilter,
    ) -> (count: usize)
        requires
            old(self).wf(),
            filter.wf(),
        ensures
            final(self).wf(),
            exists|now: i64|
                {
                    &&& final(self)@ == applied(
                        old(self)@,
                        response_views(response@),
                        filter@,
                        now,
                    )
                    &&& count == counted(
                        accepted(
                            old(self)@,
                            response_views(response@),
                            filter@,
                            now,
                            old(self)@.len() as int,
                        ),
                    )
                },
    {
        let now = unix_seconds();
        self.apply_response(response, filter, now)
    }

    /// Dispatches every job that is due at `now`, bucket after bucket in
    /// ascending order of key and within a bucket in ascending order of
    /// execution time. Each dispatch hands out a copy of the job and puts
    /// the job back one interval later.
    pub fn drain_due(&mut self, now: i64) -> (dispatched: Vec<OperationJob>)
        requires
            old(self).wf(),
        ensures
            final(self).wf(),
            final(self)@ == settled(old(self)@, now),
            job_views(dispatched@) == dispatched_from(old(self)@, now, old(self)@.len() as int),
    {
        let ghost before = self@;
        let mut dispatched: Vec<OperationJob> = Vec::new();
        let mut i: usize = 0;
        assert(job_views(dispatched@) =~= Seq::<OperationJobView>::empty());
        while i < self.buckets.len()
            invariant
                i <= self.buckets.len(),
                self@.len() == before.len(),
                store_valid(before),
                forall|k: int| 0 <= k < i ==> #[trigger] self@[k] == settled(before, now)[k],
                forall|k: int| i <= k < self@.len() ==> #[trigger] self@[k] == before[k],
                job_views(dispatched@) == dispatched_from(before, now, i as int),
            decreases self.buckets.len() - i,
        {
            assert(self@[i as int] == self.buckets[i as int]@);
            assert(queue_valid(before[i as int].jobs));
            let ghost earlier = self@;
            let ghost sent = job_views(dispatched@);
            let mut due = self.buckets[i].jobs.drain_due(now);
            assert(self@[i as int] == self.buckets[i as int]@);
            assert(self@[i as int] == settled(before, now)[i as int]);
            assert forall|k: int| 0 <= k < self@.len() && k != i implies #[trigger] self@[k]
                == earlier[k] by {
                assert(self@[k] == self.buckets[k]@);
            }
            let ghost batch = job_views(due@);
            dispatched.append(&mut due);
            assert(job_views(dispatched@) =~= sent + batch);
            i += 1;
        }
        proof {
            assert(self@ =~= settled(before, now));
            assert forall|k: int| 0 <= k < self@.len() implies queue_valid(
                #[trigger] self@[k].jobs,
            ) by {
                lemma_drained(before[k].jobs, now);
            }
            assert forall|a: int, b: int| 0 <= a < b < self@.len() implies self@[a].key
                < self@[b].key by {
                assert(self@[a].key == before[a].key && self@[b].key == before[b].key);
            }
        }
        dispatched
    }

    /// Dispatches every job that is due at the current time; see
    /// [`AssignmentStore::drain_due`].
    pub fn execute_operations(&mut self) -> (dispatched: Vec<OperationJob>)
        requires
            old(self).wf(),
        ensures
            final(self).wf(),
            exists|now: i64|
                final(self)@ == settled(old(self)@, now) && job_views(dispatched@)
                    == dispatched_from(old(self)@, now, old(self)@.len() as int),
    {
        let now = unix_seconds();
        self.drain_due(now)
    }
}

} // verus!
