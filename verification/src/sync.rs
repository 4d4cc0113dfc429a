//! The coordinator's side of assignment synchronisation.
//!
//! An agent names its buckets and the fingerprint it holds for each. The
//! coordinator sorts its current operations into those buckets, computes each
//! bucket's fingerprint, and answers with the full contents of exactly the
//! buckets whose fingerprint differs.

use crate::bucket::{bucket_key, get_bucket_key, hash_string, spec_hash_string};
use crate::error::ProddleError;
use crate::operation::{
    fingerprint, operation_views, operations_written, Operation, OperationView,
};
use std::collections::hash_map::DefaultHasher;
use std::collections::HashMap;
use std::hash::Hasher;
use vstd::prelude::*;
use vstd::std_specs::iter::IteratorSpec;

verus! {

/// The key of the bucket that an operation belongs to: that of its domain's
/// hash.
pub open spec fn operation_bucket(boundaries: Set<u64>, operation: OperationView) -> u64 {
    bucket_key(boundaries, spec_hash_string(operation.domain))
}

/// The operations of `stored` that belong to bucket `key`, in the order in
/// which `stored` lists them.
pub open spec fn bucket_operations(
    boundaries: Set<u64>,
    stored: Seq<OperationView>,
    key: u64,
) -> Seq<OperationView>
    decreases stored.len(),
{
    if stored.len() == 0 {
        Seq::empty()
    } else {
        let before = bucket_operations(boundaries, stored.drop_last(), key);
        if operation_bucket(boundaries, stored.last()) == key {
            before.push(stored.last())
        } else {
            before
        }
    }
}

/// Whether the first `count` operations of `stored` all belong to buckets
/// that `request` names.
pub open spec fn all_placed(request: Map<u64, u64>, stored: Seq<OperationView>, count: int) -> bool {
    forall|i: int|
        0 <= i < count ==> request.contains_key(
            #[trigger] operation_bucket(request.dom(), stored[i]),
        )
}

/// Whether `request` names bucket `key` with another fingerprint than the
/// one that `stored` gives it.
pub open spec fn bucket_changed(request: Map<u64, u64>, stored: Seq<OperationView>, key: u64) -> bool {
    request.contains_key(key) && fingerprint(bucket_operations(request.dom(), stored, key))
        != request[key]
}

/// Lists the keys of `request`, each once, in the order the map yields them.
fn request_keys(request: &HashMap<u64, u64>) -> (keys: Vec<u64>)
    ensures
        keys@.no_duplicates(),
        keys@.to_set() =~= request@.dom(),
{
    let mut keys: Vec<u64> = Vec::new();
    let ghost all = request.keys().remaining();
    for key in it: request.keys()
        invariant
            it.seq() == all,
            keys@ == all.take(it.index() as int).unref(),
    {
        keys.push(*key);
    }
    assert(all.take(all.len() as int) =~= all);
    keys
}

/// Finds where `key` stands in `keys`.
fn position(keys: &Vec<u64>, key: u64) -> (index: Option<usize>)
    ensures
        match index {
            Some(i) => i < keys.len() && keys[i as int] == key,
            None => !keys@.contains(key),
        },
{
    let mut i: usize = 0;
    while i < keys.len()
        invariant
            i <= keys.len(),
            forall|j: int| 0 <= j < i ==> keys[j] != key,
        decreases keys.len() - i,
    {
        if keys[i] == key {
            return Some(i);
        }
        i += 1;
    }
    None
}

/// Answers a synchronisation request against the operations currently
/// stored, given in the order the store lists them.
///
/// The answer holds exactly the requested buckets whose fingerprint differs
/// from the requested one, each with all its operations in store order. It
/// fails, with nothing answered, if and only if some operation belongs to a
/// bucket that the request does not name; the error carries the bucket of
/// the first such operation.
pub fn changed_buckets(request: &HashMap<u64, u64>, stored: &Vec<Operation>) -> (response: Result<
    HashMap<u64, Vec<Operation>>,
    ProddleError,
>)
    ensures
        match response {
            Ok(buckets) => {
                &&& all_placed(request@, operation_views(stored@), stored.len() as int)
                &&& forall|key: u64|
                    buckets@.contains_key(key) <==> bucket_changed(
                        request@,
                        operation_views(stored@),
                        key,
                    )
                &&& forall|key: u64| #[trigger]
                    buckets@.contains_key(key) ==> operation_views(buckets@[key]@)
                        == bucket_operations(request@.dom(), operation_views(stored@), key)
            },
            Err(error) => exists|i: int|
                {
                    &&& 0 <= i < stored.len()
                    &&& all_placed(request@, operation_views(stored@), i)
                    &&& !request@.contains_key(
                        operation_bucket(request@.dom(), operation_views(stored@)[i]),
                    )
                    &&& error == ProddleError::UnknownBucket(
                        operation_bucket(request@.dom(), operation_views(stored@)[i]),
                    )
                },
        },
{
    let keys = request_keys(request);
    let ghost boundaries = request@.dom();
    let ghost views = operation_views(stored@);
    let mut hashers: Vec<DefaultHasher> = Vec::new();
    let mut contents: Vec<Vec<Operation>> = Vec::new();
    let mut b: usize = 0;
    while b < keys.len()
        invariant
            b <= keys.len(),
            hashers.len() == b,
            contents.len() == b,
            forall|k: int| 0 <= k < b ==> (#[trigger] hashers[k])@ == Seq::<Seq<u8>>::empty(),
            forall|k: int| 0 <= k < b ==> (#[trigger] contents[k])@ == Seq::<Operation>::empty(),
        decreases keys.len() - b,
    {
        hashers.push(DefaultHasher::new());
        contents.push(Vec::new());
        b += 1;
    }
    assert forall|k: int| 0 <= k < keys.len() implies operation_views((#[trigger] contents[k])@)
        == bucket_operations(boundaries, views.take(0), keys[k]) by {
        assert(operation_views(contents[k]@) =~= Seq::<OperationView>::empty());
    }
    let mut i: usize = 0;
    while i < stored.len()
        invariant
            i <= stored.len(),
            boundaries == request@.dom(),
            views == operation_views(stored@),
            keys@.no_duplicates(),
            keys@.to_set() =~= boundaries,
            hashers.len() == keys.len(),
            contents.len() == keys.len(),
            all_placed(request@, views, i as int),
            forall|k: int|
                0 <= k < keys.len() ==> (#[trigger] hashers[k])@ == operations_written(
                    Seq::empty(),
                    bucket_operations(boundaries, views.take(i as int), keys[k]),
                ),
            forall|k: int|
                0 <= k < keys.len() ==> operation_views((#[trigger] contents[k])@)
                    == bucket_operations(boundaries, views.take(i as int), keys[k]),
        decreases stored.len() - i,
    {
        let operation = &stored[i];
        let hash = hash_string(operation.domain.as_str());
        let key = get_bucket_key(&keys, hash).unwrap();
        assert(views[i as int] == operation@);
        assert(key == operation_bucket(boundaries, views[i as int]));
        let ghost next = views.take(i + 1);
        assert(next.drop_last() =~= views.take(i as int));
        assert(next.last() == operation@);
        match position(&keys, key) {
            None => {
                assert(!boundaries.contains(key));
                return Err(ProddleError::UnknownBucket(key));
            },
            Some(at) => {
                assert(keys@.to_set().contains(keys[at as int]));
                let ghost old_hashers = hashers@;
                let ghost old_contents = contents@;
                operation.hash(&mut hashers[at]);
                contents[at].push(operation.clone());
                assert(operation_views(contents[at as int]@) =~= operation_views(
                    old_contents[at as int]@,
                ).push(operation@));
                assert forall|k: int| 0 <= k < keys.len() implies (#[trigger] hashers[k])@
                    == operations_written(
                    Seq::empty(),
                    bucket_operations(boundaries, next, keys[k]),
                ) by {
                    if k != at {
                        assert(hashers[k] == old_hashers[k]);
                        assert(keys[k] != keys[at as int]);
                    } else {
                        let before = bucket_operations(boundaries, views.take(i as int), key);
                        assert(before.push(operation@).drop_last() =~= before);
                        assert(before.push(operation@).last() == operation@);
                    }
                }
                assert forall|k: int| 0 <= k < keys.len() implies operation_views(
                    (#[trigger] contents[k])@,
                ) == bucket_operations(boundaries, next, keys[k]) by {
                    if k != at {
                        assert(contents[k] == old_contents[k]);
                        assert(keys[k] != keys[at as int]);
                    }
                }
            },
        }
        i += 1;
    }
    assert(views.take(i as int) =~= views);
    let mut buckets: HashMap<u64, Vec<Operation>> = HashMap::new();
    let mut left: usize = keys.len();
    while left > 0
        invariant
            left <= keys.len(),
            boundaries == request@.dom(),
            keys@.no_duplicates(),
            keys@.to_set() =~= boundaries,
            hashers.len() == left,
            contents.len() == left,
            forall|k: int|
                0 <= k < left ==> (#[trigger] hashers[k])@ == operations_written(
                    Seq::empty(),
                    bucket_operations(boundaries, views, keys[k]),
                ),
            forall|k: int|
                0 <= k < left ==> operation_views((#[trigger] contents[k])@) == bucket_operations(
                    boundaries,
                    views,
                    keys[k],
                ),
            forall|key: u64|
                buckets@.contains_key(key) <==> (exists|k: int|
                    left <= k < keys.len() && keys[k] == key) && bucket_changed(
                    request@,
                    views,
                    key,
                ),
            forall|key: u64| #[trigger]
                buckets@.contains_key(key) ==> operation_views(buckets@[key]@)
                    == bucket_operations(boundaries, views, key),
        decreases left,
    {
        left -= 1;
        let hasher = hashers.pop().unwrap();
        let bucket = contents.pop().unwrap();
        let key = keys[left];
        assert(keys@.to_set().contains(key));
        let known = *request.get(&key).unwrap();
        if hasher.finish() != known {
            buckets.insert(key, bucket);
        }
        assert forall|other: u64|
            buckets@.contains_key(other) <==> (exists|k: int|
                left <= k < keys.len() && keys[k] == other) && bucket_changed(
                request@,
                views,
                other,
            ) by {
            if other == key {
                assert(keys[left as int] == other);
            } else {
                if exists|k: int| left <= k < keys.len() && keys[k] == other {
                    let k = choose|k: int| left <= k < keys.len() && keys[k] == other;
                    assert(left + 1 <= k);
                }
            }
        }
    }
    assert forall|key: u64|
        buckets@.contains_key(key) <==> bucket_changed(request@, views, key) by {
        if bucket_changed(request@, views, key) {
            assert(keys@.to_set().contains(key));
            let k = choose|k: int| 0 <= k < keys.len() && keys[k] == key;
            assert(keys[k] == key);
        }
    }
    Ok(buckets)
}

} // verus!
