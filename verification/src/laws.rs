//! What holds between the agent's and the coordinator's side of a
//! synchronisation.

use crate::operation::{fingerprint, operation_views, Operation, OperationView};
use crate::queue::queue_valid;
use crate::store::{
    accepted_from, applied, fingerprints_of, lemma_fingerprints_of, lemma_scheduled, replaced,
    response_views, store_valid, BucketView,
};
use crate::sync::{bucket_changed, bucket_operations};
use crate::tags::{intervals_positive, TagFilterView};
use vstd::prelude::*;

verus! {

/// Whether `response` is the coordinator's answer to `request` over the
/// operations `stored`: it names exactly the changed buckets, each with the
/// operations that belong to it.
pub open spec fn answers(
    response: Map<u64, Seq<OperationView>>,
    request: Map<u64, u64>,
    stored: Seq<OperationView>,
) -> bool {
    &&& forall|key: u64| response.contains_key(key) <==> bucket_changed(request, stored, key)
    &&& forall|key: u64| #[trigger]
        response.contains_key(key) ==> response[key] == bucket_operations(
            request.dom(),
            stored,
            key,
        )
}

/// What the coordinator returns for a request is an answer to it, as the
/// agent reads it.
pub proof fn lemma_coordinator_answers(
    buckets: Map<u64, Vec<Operation>>,
    request: Map<u64, u64>,
    stored: Seq<OperationView>,
)
    requires
        forall|key: u64| buckets.contains_key(key) <==> bucket_changed(request, stored, key),
        forall|key: u64| #[trigger]
            buckets.contains_key(key) ==> operation_views(buckets[key]@) == bucket_operations(
                request.dom(),
                stored,
                key,
            ),
    ensures
        answers(response_views(buckets), request, stored),
{
    let response = response_views(buckets);
    assert forall|key: u64| #[trigger] response.contains_key(key) implies response[key]
        == bucket_operations(request.dom(), stored, key) by {
        assert(buckets.contains_key(key));
    }
}

/// Applying a response to a store leaves a store with the same bucket keys.
pub proof fn lemma_applied_valid(
    store: Seq<BucketView>,
    response: Map<u64, Seq<OperationView>>,
    filter: TagFilterView,
    now: i64,
)
    requires
        store_valid(store),
        intervals_positive(filter),
    ensures
        store_valid(applied(store, response, filter, now)),
        applied(store, response, filter, now).len() == store.len(),
        forall|i: int|
            0 <= i < store.len() ==> (#[trigger] applied(store, response, filter, now)[i]).key
                == store[i].key,
{
    let after = applied(store, response, filter, now);
    assert forall|i: int| 0 <= i < after.len() implies queue_valid(#[trigger] after[i].jobs) by {
        if response.contains_key(store[i].key) {
            lemma_scheduled(response[store[i].key], filter, now);
        }
    }
    assert forall|i: int, j: int| 0 <= i < j < after.len() implies after[i].key
        < after[j].key by {
        assert(after[i].key == store[i].key && after[j].key == store[j].key);
    }
}

/// Where every requested fingerprint is the one the coordinator computes
/// for that bucket, no bucket has changed: the answer is empty.
pub proof fn lemma_matching_request_changes_nothing(
    request: Map<u64, u64>,
    stored: Seq<OperationView>,
    response: Map<u64, Seq<OperationView>>,
)
    requires
        forall|key: u64| #[trigger]
            request.contains_key(key) ==> request[key] == fingerprint(
                bucket_operations(request.dom(), stored, key),
            ),
        answers(response, request, stored),
    ensures
        response =~= Map::empty(),
{
    assert forall|key: u64| !response.contains_key(key) by {
        if response.contains_key(key) {
            assert(bucket_changed(request, stored, key));
        }
    }
}

/// The agent and the coordinator compute the same fingerprint for a bucket:
/// once the agent has applied the coordinator's answer to its request, each
/// of its fingerprints is the one the coordinator computes over the same
/// stored operations, so that a second request changes nothing.
pub proof fn lemma_fingerprints_agree(
    store: Seq<BucketView>,
    stored: Seq<OperationView>,
    response: Map<u64, Seq<OperationView>>,
    filter: TagFilterView,
    now: i64,
)
    requires
        store_valid(store),
        intervals_positive(filter),
        answers(response, fingerprints_of(store), stored),
    ensures
        fingerprints_of(applied(store, response, filter, now)).dom() =~= fingerprints_of(
            store,
        ).dom(),
        forall|key: u64| #[trigger]
            fingerprints_of(store).contains_key(key) ==> fingerprints_of(
                applied(store, response, filter, now),
            )[key] == fingerprint(bucket_operations(fingerprints_of(store).dom(), stored, key)),
        forall|key: u64|
            !bucket_changed(fingerprints_of(applied(store, response, filter, now)), stored, key),
{
    let after = applied(store, response, filter, now);
    let request = fingerprints_of(store);
    lemma_applied_valid(store, response, filter, now);
    lemma_fingerprints_of(store);
    lemma_fingerprints_of(after);
    assert forall|key: u64| fingerprints_of(after).contains_key(key) <==> request.contains_key(
        key,
    ) by {
        if request.contains_key(key) {
            let i = choose|i: int| 0 <= i < store.len() && #[trigger] store[i].key == key;
            assert(after[i].key == key);
        }
        if fingerprints_of(after).contains_key(key) {
            let i = choose|i: int| 0 <= i < after.len() && #[trigger] after[i].key == key;
            assert(store[i].key == key);
        }
    }
    assert(fingerprints_of(after).dom() =~= request.dom());
    assert forall|key: u64| #[trigger] request.contains_key(key) implies fingerprints_of(
        after,
    )[key] == fingerprint(bucket_operations(request.dom(), stored, key)) by {
        let i = choose|i: int| 0 <= i < store.len() && #[trigger] store[i].key == key;
        assert(after[i].key == key);
        assert(fingerprints_of(after)[after[i].key] == after[i].fingerprint);
        assert(request[store[i].key] == store[i].fingerprint);
        if response.contains_key(key) {
            assert(after[i] == replaced(key, response[key], filter, now));
        } else {
            assert(after[i] == store[i]);
            assert(!bucket_changed(request, stored, key));
        }
    }
}

/// A bucket that a response names is replaced as a whole: each job it holds
/// afterwards stems from an operation of the response, and nothing of its
/// former queue stays unless the response brings it again.
pub proof fn lemma_replacement_is_total(
    store: Seq<BucketView>,
    response: Map<u64, Seq<OperationView>>,
    filter: TagFilterView,
    now: i64,
    index: int,
)
    requires
        intervals_positive(filter),
        0 <= index < store.len(),
        response.contains_key(store[index].key),
    ensures
        applied(store, response, filter, now)[index] == replaced(
            store[index].key,
            response[store[index].key],
            filter,
            now,
        ),
        forall|j: int|
            0 <= j < applied(store, response, filter, now)[index].jobs.len() ==> accepted_from(
                #[trigger] applied(store, response, filter, now)[index].jobs[j],
                response[store[index].key],
                filter,
                now,
            ),
{
    lemma_scheduled(response[store[index].key], filter, now);
}

} // verus!
