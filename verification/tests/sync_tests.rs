use proddle::bucket::hash_string;
use proddle::error::ProddleError;
use proddle::operation::{Operation, Parameter};
use proddle::store::AssignmentStore;
use proddle::sync::changed_buckets;
use proddle::tags::{IncludeTag, TagFilter};
use std::collections::hash_map::DefaultHasher;
use std::collections::HashMap;
use std::hash::{Hash, Hasher};

const QUARTER: u64 = 1 << 62;
const EMPTY_FINGERPRINT: u64 = 15130871412783076140;

fn operation(timestamp: i64, domain: &str, parameters: &[(&str, &str)], tags: &[&str]) -> Operation {
    Operation {
        timestamp,
        measurement_class: "HttpGet".to_string(),
        domain: domain.to_string(),
        parameters: parameters
            .iter()
            .map(|(name, value)| Parameter { name: name.to_string(), value: value.to_string() })
            .collect(),
        tags: tags.iter().map(|tag| tag.to_string()).collect(),
    }
}

fn first() -> Operation {
    operation(1, "a.com", &[("timeout", "30")], &["web"])
}

fn second() -> Operation {
    operation(2, "b.com", &[], &["web", "core"])
}

fn stored() -> Vec<Operation> {
    vec![
        first(),
        second(),
        operation(3, "d.net", &[], &["mail"]),
        operation(4, "e.io", &[("timeout", "5")], &["web", "beta"]),
        operation(5, "h.com", &[], &["core"]),
    ]
}

fn web_filter() -> TagFilter {
    TagFilter::new(
        vec![
            IncludeTag { tag: "web".to_string(), interval: 60 },
            IncludeTag { tag: "core".to_string(), interval: 30 },
        ],
        vec!["beta".to_string()],
    )
    .unwrap()
}

fn request(pairs: &[(u64, u64)]) -> HashMap<u64, u64> {
    pairs.iter().cloned().collect()
}

fn reference_fingerprint(operations: &[Operation]) -> u64 {
    let mut hasher = DefaultHasher::new();
    for operation in operations {
        operation.timestamp.hash(&mut hasher);
        operation.measurement_class.hash(&mut hasher);
        operation.domain.hash(&mut hasher);
        for parameter in &operation.parameters {
            parameter.name.hash(&mut hasher);
            parameter.value.hash(&mut hasher);
        }
        for tag in &operation.tags {
            tag.hash(&mut hasher);
        }
    }
    hasher.finish()
}

fn domains(operations: &[Operation]) -> Vec<String> {
    operations.iter().map(|operation| operation.domain.clone()).collect()
}

#[test]
fn operation_hash_feeds_every_field() {
    let mut hasher = DefaultHasher::new();
    first().hash(&mut hasher);
    assert_eq!(hasher.finish(), 7960806474331500806);
    let mut hasher = DefaultHasher::new();
    first().hash(&mut hasher);
    second().hash(&mut hasher);
    assert_eq!(hasher.finish(), 341564347093525705);
}

#[test]
fn operation_hash_tells_operations_apart() {
    let variants = vec![
        first(),
        operation(9, "a.com", &[("timeout", "30")], &["web"]),
        operation(1, "a.org", &[("timeout", "30")], &["web"]),
        operation(1, "a.com", &[("timeout", "31")], &["web"]),
        operation(1, "a.com", &[("retries", "30")], &["web"]),
        operation(1, "a.com", &[("timeout", "30")], &["mail"]),
        operation(1, "a.com", &[("timeout", "30")], &["web", "core"]),
        operation(1, "a.com", &[], &["web"]),
    ];
    let mut seen = Vec::new();
    for variant in &variants {
        let mut hasher = DefaultHasher::new();
        variant.hash(&mut hasher);
        let fingerprint = hasher.finish();
        assert_eq!(fingerprint, reference_fingerprint(std::slice::from_ref(variant)));
        assert!(!seen.contains(&fingerprint));
        seen.push(fingerprint);
    }
}

#[test]
fn first_sync_returns_every_bucket() {
    let request = request(&[(0, 0), (QUARTER, 0), (2 * QUARTER, 0), (3 * QUARTER, 0)]);
    let response = changed_buckets(&request, &stored()).unwrap();
    assert_eq!(response.len(), 4);
    assert_eq!(domains(&response[&0]), vec!["d.net".to_string()]);
    assert_eq!(
        domains(&response[&QUARTER]),
        vec!["a.com".to_string(), "e.io".to_string(), "h.com".to_string()]
    );
    assert_eq!(domains(&response[&(2 * QUARTER)]), vec!["b.com".to_string()]);
    assert!(response[&(3 * QUARTER)].is_empty());
}

#[test]
fn first_sync_of_an_empty_store_returns_every_bucket_empty() {
    let request = request(&[(0, 0), (QUARTER, 0), (2 * QUARTER, 0), (3 * QUARTER, 0)]);
    let response = changed_buckets(&request, &Vec::new()).unwrap();
    assert_eq!(response.len(), 4);
    for bucket in response.values() {
        assert!(bucket.is_empty());
    }
}

#[test]
fn matching_fingerprints_return_no_bucket() {
    let all = stored();
    let request = request(&[
        (0, reference_fingerprint(&all[2..3])),
        (QUARTER, reference_fingerprint(&[all[0].clone(), all[3].clone(), all[4].clone()])),
        (2 * QUARTER, reference_fingerprint(&all[1..2])),
        (3 * QUARTER, EMPTY_FINGERPRINT),
    ]);
    let response = changed_buckets(&request, &all).unwrap();
    assert!(response.is_empty());
}

#[test]
fn only_changed_buckets_are_returned() {
    let all = stored();
    let request = request(&[
        (0, reference_fingerprint(&all[2..3])),
        (QUARTER, reference_fingerprint(&all[0..1])),
        (2 * QUARTER, 17),
        (3 * QUARTER, EMPTY_FINGERPRINT),
    ]);
    let response = changed_buckets(&request, &all).unwrap();
    let mut keys: Vec<u64> = response.keys().cloned().collect();
    keys.sort();
    assert_eq!(keys, vec![QUARTER, 2 * QUARTER]);
    assert_eq!(response[&QUARTER].len(), 3);
    assert_eq!(response[&QUARTER][1].parameters[0].value, "5");
    assert_eq!(response[&QUARTER][1].tags, vec!["web".to_string(), "beta".to_string()]);
    assert_eq!(response[&(2 * QUARTER)][0].timestamp, 2);
}

#[test]
fn fingerprint_depends_on_the_order_of_the_store() {
    let forward = vec![first(), operation(4, "e.io", &[], &["web"])];
    let backward = vec![operation(4, "e.io", &[], &["web"]), first()];
    let request = request(&[(0, reference_fingerprint(&forward))]);
    assert!(changed_buckets(&request, &forward).unwrap().is_empty());
    assert_eq!(changed_buckets(&request, &backward).unwrap().len(), 1);
}

#[test]
fn operation_without_a_requested_bucket_fails_the_request() {
    let request = request(&[(QUARTER, 0), (2 * QUARTER, 0)]);
    match changed_buckets(&request, &stored()) {
        Err(ProddleError::UnknownBucket(key)) => assert_eq!(key, 0),
        _ => panic!("an operation below every boundary must fail the request"),
    }
    let above = vec![first(), second()];
    assert_eq!(changed_buckets(&request, &above).unwrap().len(), 2);
}

#[test]
fn empty_request_succeeds_only_on_an_empty_store() {
    assert!(changed_buckets(&HashMap::new(), &Vec::new()).unwrap().is_empty());
    assert!(matches!(
        changed_buckets(&HashMap::new(), &stored()),
        Err(ProddleError::UnknownBucket(0))
    ));
}

#[test]
fn new_store_has_evenly_spaced_empty_buckets() {
    let store = AssignmentStore::new(4);
    assert_eq!(store.len(), 4);
    for (index, key) in [0, QUARTER, 2 * QUARTER, 3 * QUARTER].iter().enumerate() {
        assert_eq!(store.key_at(index), Some(*key));
        assert_eq!(store.fingerprint_at(index), Some(0));
        assert_eq!(store.queue_at(index).unwrap().len(), 0);
    }
    assert_eq!(store.key_at(4), None);
    assert_eq!(store.fingerprint_at(4), None);
    assert!(store.queue_at(4).is_none());
    let fingerprints = store.fingerprints();
    assert_eq!(fingerprints, request(&[(0, 0), (QUARTER, 0), (2 * QUARTER, 0), (3 * QUARTER, 0)]));
}

#[test]
fn applying_a_response_replaces_the_named_buckets() {
    let mut store = AssignmentStore::new(4);
    let mut response = HashMap::new();
    response.insert(QUARTER, vec![first(), operation(4, "e.io", &[], &["web", "beta"])]);
    let count = store.apply_response(&response, &web_filter(), 125);
    assert_eq!(count, 1);
    assert_eq!(store.fingerprint_at(0), Some(0));
    assert_eq!(
        store.fingerprint_at(1),
        Some(reference_fingerprint(&[first(), operation(4, "e.io", &[], &["web", "beta"])]))
    );
    let queue = store.queue_at(1).unwrap();
    assert_eq!(queue.len(), 1);
    assert_eq!(queue.jobs()[0].operation.domain, "a.com");
    assert_eq!(queue.jobs()[0].interval, 60);
    assert_eq!(queue.jobs()[0].execution_time, 180);
    assert_eq!(store.queue_at(0).unwrap().len(), 0);
    assert_eq!(store.queue_at(2).unwrap().len(), 0);
}

#[test]
fn replaced_bucket_keeps_nothing_of_its_former_queue() {
    let mut store = AssignmentStore::new(4);
    let mut response = HashMap::new();
    response.insert(QUARTER, vec![first(), operation(5, "h.com", &[], &["core"])]);
    response.insert(2 * QUARTER, vec![second()]);
    assert_eq!(store.apply_response(&response, &web_filter(), 125), 3);
    let mut update = HashMap::new();
    update.insert(QUARTER, vec![operation(6, "e.io", &[], &["web"])]);
    assert_eq!(store.apply_response(&update, &web_filter(), 1000), 1);
    let queue = store.queue_at(1).unwrap();
    assert_eq!(queue.len(), 1);
    assert_eq!(queue.jobs()[0].operation.domain, "e.io");
    assert_eq!(queue.jobs()[0].execution_time, 1020);
    let untouched = store.queue_at(2).unwrap();
    assert_eq!(untouched.len(), 1);
    assert_eq!(untouched.jobs()[0].operation.domain, "b.com");
    assert_eq!(untouched.jobs()[0].interval, 30);
    assert_eq!(untouched.jobs()[0].execution_time, 150);
}

#[test]
fn response_with_an_empty_bucket_empties_the_queue() {
    let mut store = AssignmentStore::new(4);
    let mut response = HashMap::new();
    response.insert(QUARTER, vec![first()]);
    store.apply_response(&response, &web_filter(), 125);
    let mut update = HashMap::new();
    update.insert(QUARTER, Vec::new());
    assert_eq!(store.apply_response(&update, &web_filter(), 130), 0);
    assert_eq!(store.queue_at(1).unwrap().len(), 0);
    assert_eq!(store.fingerprint_at(1), Some(EMPTY_FINGERPRINT));
}

#[test]
fn bucket_that_the_store_does_not_hold_is_passed_over() {
    let mut store = AssignmentStore::new(4);
    let mut response = HashMap::new();
    response.insert(12345, vec![first()]);
    assert_eq!(store.apply_response(&response, &web_filter(), 125), 0);
    assert_eq!(store.len(), 4);
    assert_eq!(store.fingerprints(), request(&[(0, 0), (QUARTER, 0), (2 * QUARTER, 0), (3 * QUARTER, 0)]));
}

#[test]
fn agent_and_coordinator_agree_after_one_sync() {
    let all = stored();
    let mut store = AssignmentStore::new(4);
    let response = changed_buckets(&store.fingerprints(), &all).unwrap();
    assert_eq!(response.len(), 4);
    let count = store.apply_response(&response, &web_filter(), 125);
    assert_eq!(count, 3);
    let again = changed_buckets(&store.fingerprints(), &all).unwrap();
    assert!(again.is_empty());
    assert_eq!(store.fingerprint_at(3), Some(EMPTY_FINGERPRINT));
    assert_eq!(store.fingerprint_at(2), Some(reference_fingerprint(&all[1..2])));
}

#[test]
fn change_in_the_store_changes_one_bucket() {
    let mut all = stored();
    let mut store = AssignmentStore::new(4);
    let response = changed_buckets(&store.fingerprints(), &all).unwrap();
    store.apply_response(&response, &web_filter(), 125);
    all.push(operation(6, "c.org", &[], &["web"]));
    let update = changed_buckets(&store.fingerprints(), &all).unwrap();
    let keys: Vec<u64> = update.keys().cloned().collect();
    assert_eq!(keys, vec![2 * QUARTER]);
    assert_eq!(domains(&update[&(2 * QUARTER)]), vec!["b.com".to_string(), "c.org".to_string()]);
    assert_eq!(store.apply_response(&update, &web_filter(), 200), 2);
    assert!(changed_buckets(&store.fingerprints(), &all).unwrap().is_empty());
}

#[test]
fn scenario_of_four_buckets_and_one_web_operation() {
    let mut store = AssignmentStore::new(4);
    assert_eq!(store.key_at(1), Some(QUARTER));
    assert!(hash_string("a.com") >= QUARTER && hash_string("a.com") < 2 * QUARTER);
    let all = vec![operation(1, "a.com", &[], &["web"])];
    let response = changed_buckets(&store.fingerprints(), &all).unwrap();
    assert_eq!(response.len(), 4);
    let filter = TagFilter::new(
        vec![IncludeTag { tag: "web".to_string(), interval: 60 }],
        Vec::new(),
    )
    .unwrap();
    let now = 1_700_000_015;
    assert_eq!(store.apply_response(&response, &filter, now), 1);
    let queue = store.queue_at(1).unwrap();
    assert_eq!(queue.jobs()[0].interval, 60);
    assert_eq!(queue.jobs()[0].execution_time, 1_700_000_040);
    assert_eq!(queue.jobs()[0].execution_time % 60, 0);
}

#[test]
fn update_operations_schedules_from_the_current_time() {
    let mut store = AssignmentStore::new(4);
    let mut response = HashMap::new();
    response.insert(QUARTER, vec![first()]);
    assert_eq!(store.update_operations(&response, &web_filter()), 1);
    let job = &store.queue_at(1).unwrap().jobs()[0];
    assert_eq!(job.execution_time % 60, 0);
    assert!(job.execution_time > 1_600_000_000);
}

#[test]
fn store_drains_bucket_after_bucket() {
    let mut store = AssignmentStore::new(4);
    let response = changed_buckets(&store.fingerprints(), &stored()).unwrap();
    store.apply_response(&response, &web_filter(), 125);
    let dispatched = store.drain_due(185);
    let sent: Vec<(String, i64)> = dispatched
        .iter()
        .map(|job| (job.operation.domain.clone(), job.execution_time))
        .collect();
    assert_eq!(
        sent,
        vec![
            ("h.com".to_string(), 150),
            ("a.com".to_string(), 180),
            ("h.com".to_string(), 180),
            ("b.com".to_string(), 150),
            ("b.com".to_string(), 180),
        ]
    );
    let queue = store.queue_at(1).unwrap();
    assert_eq!(queue.jobs()[0].operation.domain, "h.com");
    assert_eq!(queue.jobs()[0].execution_time, 210);
    assert_eq!(queue.jobs()[1].operation.domain, "a.com");
    assert_eq!(queue.jobs()[1].execution_time, 240);
    assert!(store.drain_due(185).is_empty());
}

#[test]
fn execute_operations_dispatches_nothing_that_lies_ahead() {
    let mut store = AssignmentStore::new(4);
    let mut response = HashMap::new();
    response.insert(QUARTER, vec![first()]);
    store.update_operations(&response, &web_filter());
    let dispatched = store.execute_operations();
    assert!(dispatched.len() <= 1);
    assert_eq!(store.queue_at(1).unwrap().len(), 1);
}
