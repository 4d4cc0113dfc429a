//! Hashing domains and partitioning the hash space into buckets.
//!
//! A bucket is named by its boundary key. A hash belongs to the bucket with
//! the greatest boundary that does not exceed it, and to bucket 0 when every
//! boundary exceeds it.

use crate::hashing::{hash_str, str_written};
use std::collections::hash_map::DefaultHasher;
use std::hash::Hasher;
use vstd::prelude::*;
use vstd::std_specs::hash::DefaultHasherAdditionalSpecFns;

verus! {

/// The 64-bit hash of a string: what a fresh hasher yields after the string
/// alone was hashed into it.
pub open spec fn spec_hash_string(value: Seq<char>) -> u64 {
    DefaultHasher::spec_finish(str_written(Seq::empty(), value))
}

/// Whether `boundary` is one of `boundaries` and does not exceed `hash`.
pub open spec fn covers(boundaries: Set<u64>, boundary: u64, hash: u64) -> bool {
    boundaries.contains(boundary) && boundary <= hash
}

/// Whether `key` is the greatest of `boundaries` that does not exceed `hash`.
pub open spec fn greatest_covering(boundaries: Set<u64>, key: u64, hash: u64) -> bool {
    &&& covers(boundaries, key, hash)
    &&& forall|b: u64| #[trigger] covers(boundaries, b, hash) ==> b <= key
}

/// The key of the bucket that `hash` belongs to: the greatest boundary that
/// does not exceed `hash`, or 0 where there is none.
pub open spec fn bucket_key(boundaries: Set<u64>, hash: u64) -> u64 {
    if exists|k: u64| greatest_covering(boundaries, k, hash) {
        choose|k: u64| greatest_covering(boundaries, k, hash)
    } else {
        0
    }
}

/// The `index`-th of `bucket_count` boundaries spaced evenly over the 64-bit
/// hash space, starting at 0.
pub open spec fn even_boundary(bucket_count: int, index: int) -> int {
    index * (0x1_0000_0000_0000_0000int / bucket_count)
}

/// Two keys that are each the greatest covering boundary are the same key.
pub proof fn lemma_greatest_covering_unique(boundaries: Set<u64>, hash: u64, a: u64, b: u64)
    requires
        greatest_covering(boundaries, a, hash),
        greatest_covering(boundaries, b, hash),
    ensures
        a == b,
{
    assert(covers(boundaries, a, hash));
    assert(covers(boundaries, b, hash));
}

/// The bucket key never exceeds the hash. It is the greatest boundary that
/// does not exceed the hash where there is such a boundary, and 0 where
/// every boundary exceeds the hash.
pub proof fn lemma_bucket_key(boundaries: Set<u64>, hash: u64)
    requires
        boundaries.finite(),
    ensures
        bucket_key(boundaries, hash) <= hash,
        (exists|b: u64| covers(boundaries, b, hash)) ==> greatest_covering(
            boundaries,
            bucket_key(boundaries, hash),
            hash,
        ),
        (forall|b: u64| !covers(boundaries, b, hash)) ==> bucket_key(boundaries, hash) == 0,
{
    if exists|b: u64| covers(boundaries, b, hash) {
        let b = choose|b: u64| covers(boundaries, b, hash);
        lemma_greatest_exists(boundaries, hash, b);
    }
}

/// Among finitely many boundaries, one of which does not exceed the hash,
/// there is a greatest that does not.
proof fn lemma_greatest_exists(boundaries: Set<u64>, hash: u64, witness: u64)
    requires
        boundaries.finite(),
        covers(boundaries, witness, hash),
    ensures
        exists|k: u64| greatest_covering(boundaries, k, hash),
    decreases boundaries.len(),
{
    if forall|b: u64| #[trigger] covers(boundaries, b, hash) ==> b <= witness {
        assert(greatest_covering(boundaries, witness, hash));
    } else {
        let greater = choose|b: u64| #[trigger] covers(boundaries, b, hash) && b > witness;
        let fewer = boundaries.remove(witness);
        lemma_greatest_exists(fewer, hash, greater);
        let k = choose|k: u64| greatest_covering(fewer, k, hash);
        assert(covers(fewer, greater, hash));
        assert forall|b: u64| #[trigger] covers(boundaries, b, hash) implies b <= k by {
            if b != witness {
                assert(covers(fewer, b, hash));
            }
        }
        assert(greatest_covering(boundaries, k, hash));
    }
}

/// Hashes a string to 64 bits with the standard library's default hasher in
/// its fixed initial state, so that every process computes the same value.
pub fn hash_string(value: &str) -> (hash: u64)
    ensures
        hash == spec_hash_string(value@),
{
    let mut hasher = DefaultHasher::new();
    hash_str(&mut hasher, value);
    hasher.finish()
}

/// Finds the bucket that `key` hashes into among `boundaries`, which may be
/// listed in any order; always `Some`.
pub fn get_bucket_key(boundaries: &Vec<u64>, key: u64) -> (bucket: Option<u64>)
    ensures
        bucket == Some(bucket_key(boundaries@.to_set(), key)),
        bucket matches Some(found) && if exists|b: u64| covers(boundaries@.to_set(), b, key) {
            greatest_covering(boundaries@.to_set(), found, key)
        } else {
            found == 0
        },
{
    let mut best: u64 = 0;
    let mut found = false;
    let mut i: usize = 0;
    while i < boundaries.len()
        invariant
            i <= boundaries.len(),
            found ==> covers(boundaries@.to_set(), best, key),
            !found ==> best == 0,
            forall|j: int| 0 <= j < i && boundaries[j] <= key ==> found && boundaries[j] <= best,
        decreases boundaries.len() - i,
    {
        let boundary = boundaries[i];
        if boundary <= key && (!found || boundary > best) {
            assert(boundaries@.to_set().contains(boundary));
            best = boundary;
            found = true;
        }
        i += 1;
    }
    proof {
        let set = boundaries@.to_set();
        if found {
            assert forall|b: u64| #[trigger] covers(set, b, key) implies b <= best by {
                let j = choose|j: int| 0 <= j < boundaries.len() && boundaries[j] == b;
                assert(boundaries[j] <= key);
            }
            assert(greatest_covering(set, best, key));
            lemma_greatest_covering_unique(set, key, best, bucket_key(set, key));
        } else {
            assert forall|k: u64| !greatest_covering(set, k, key) by {
                if covers(set, k, key) {
                    let j = choose|j: int| 0 <= j < boundaries.len() && boundaries[j] == k;
                    assert(boundaries[j] <= key);
                }
            }
        }
    }
    Some(best)
}

/// Lists `bucket_count` boundaries spaced evenly over the hash space, in
/// ascending order; the first is 0.
pub fn bucket_boundaries(bucket_count: u64) -> (boundaries: Vec<u64>)
    requires
        0 < bucket_count <= usize::MAX,
    ensures
        boundaries.len() == bucket_count,
        forall|i: int|
            0 <= i < bucket_count ==> #[trigger] boundaries[i] == even_boundary(
                bucket_count as int,
                i,
            ),
{
    let step: u128 = 0x1_0000_0000_0000_0000u128 / (bucket_count as u128);
    let mut boundaries: Vec<u64> = Vec::new();
    let mut next: u128 = 0;
    let mut i: u64 = 0;
    while i < bucket_count
        invariant
            i <= bucket_count,
            0 < bucket_count <= usize::MAX,
            step == 0x1_0000_0000_0000_0000int / (bucket_count as int),
            next == i * step,
            boundaries.len() == i,
            forall|j: int|
                0 <= j < i ==> #[trigger] boundaries[j] == even_boundary(bucket_count as int, j),
        decreases bucket_count - i,
    {
        assert(next + step <= 0x1_0000_0000_0000_0000int) by (nonlinear_arith)
            requires
                next == i * step,
                i < bucket_count,
                step == 0x1_0000_0000_0000_0000int / (bucket_count as int),
                0 < bucket_count,
        {
            assert(bucket_count * step <= 0x1_0000_0000_0000_0000int);
            assert((i + 1) * step <= bucket_count * step);
        }
        assert(step >= 1) by (nonlinear_arith)
            requires
                step == 0x1_0000_0000_0000_0000int / (bucket_count as int),
                0 < bucket_count <= 0xffff_ffff_ffff_ffff,
        ;
        assert((i + 1) * step == i * step + step) by (nonlinear_arith);
        boundaries.push(next as u64);
        next = next + step;
        i += 1;
    }
    boundaries
}

} // verus!
