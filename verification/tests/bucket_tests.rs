use proddle::bucket::{bucket_boundaries, get_bucket_key, hash_string};
use std::collections::hash_map::DefaultHasher;
use std::hash::{Hash, Hasher};

const QUARTER: u64 = 1 << 62;

#[test]
fn hash_string_of_known_domains() {
    assert_eq!(hash_string("a.com"), 5360296152560109504);
    assert_eq!(hash_string("b.com"), 11557536833131712184);
    assert_eq!(hash_string(""), 3476900567878811119);
}

#[test]
fn hash_string_is_the_default_hashers_hash() {
    for domain in ["a.com", "b.com", "example.org", "", "a-very-long-domain.example.net"] {
        let mut hasher = DefaultHasher::new();
        domain.hash(&mut hasher);
        assert_eq!(hash_string(domain), hasher.finish());
    }
}

#[test]
fn hash_string_depends_on_the_string() {
    assert_ne!(hash_string("a.com"), hash_string("b.com"));
    assert_eq!(hash_string("a.com"), hash_string("a.com"));
}

#[test]
fn boundaries_of_four_buckets() {
    assert_eq!(bucket_boundaries(4), vec![0, QUARTER, 2 * QUARTER, 3 * QUARTER]);
}

#[test]
fn boundaries_of_one_and_three_buckets() {
    assert_eq!(bucket_boundaries(1), vec![0]);
    assert_eq!(
        bucket_boundaries(3),
        vec![0, 6148914691236517205, 12297829382473034410]
    );
}

#[test]
fn boundaries_start_at_zero_and_ascend() {
    let boundaries = bucket_boundaries(1000);
    assert_eq!(boundaries.len(), 1000);
    assert_eq!(boundaries[0], 0);
    for i in 1..boundaries.len() {
        assert!(boundaries[i - 1] < boundaries[i]);
        assert_eq!(boundaries[i] - boundaries[i - 1], boundaries[1]);
    }
}

#[test]
fn bucket_key_is_greatest_boundary_not_above() {
    let boundaries = vec![0, QUARTER, 2 * QUARTER, 3 * QUARTER];
    assert_eq!(get_bucket_key(&boundaries, 0), Some(0));
    assert_eq!(get_bucket_key(&boundaries, QUARTER - 1), Some(0));
    assert_eq!(get_bucket_key(&boundaries, QUARTER), Some(QUARTER));
    assert_eq!(get_bucket_key(&boundaries, QUARTER + 1), Some(QUARTER));
    assert_eq!(get_bucket_key(&boundaries, 3 * QUARTER - 1), Some(2 * QUARTER));
    assert_eq!(get_bucket_key(&boundaries, u64::MAX), Some(3 * QUARTER));
}

#[test]
fn bucket_key_below_all_boundaries_is_zero() {
    let boundaries = vec![100, 200, 300];
    assert_eq!(get_bucket_key(&boundaries, 99), Some(0));
    assert_eq!(get_bucket_key(&boundaries, 100), Some(100));
    assert_eq!(get_bucket_key(&Vec::new(), 12345), Some(0));
}

#[test]
fn bucket_key_does_not_depend_on_the_order_of_boundaries() {
    let ascending = vec![0, 10, 20, 30];
    let shuffled = vec![20, 0, 30, 10];
    for hash in [0u64, 5, 10, 19, 20, 29, 30, 1000] {
        assert_eq!(get_bucket_key(&ascending, hash), get_bucket_key(&shuffled, hash));
    }
}

#[test]
fn domain_a_com_falls_into_the_second_of_four_buckets() {
    let boundaries = bucket_boundaries(4);
    assert_eq!(get_bucket_key(&boundaries, hash_string("a.com")), Some(QUARTER));
}
