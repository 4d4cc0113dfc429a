//! Feeding values into the standard library's default hasher.
//!
//! The hasher's state is modelled by vstd as the sequence of writes it has
//! received. What a value writes when it is hashed is left to the standard
//! library; it is named here and nothing more is claimed about it than that
//! it depends on the state before and on the value alone.

use std::collections::hash_map::DefaultHasher;
use std::hash::Hash;
use vstd::prelude::*;

verus! {

/// The writes a hasher has received after a string was hashed into it.
pub uninterp spec fn str_written(before: Seq<Seq<u8>>, value: Seq<char>) -> Seq<Seq<u8>>;

/// The writes a hasher has received after a signed 64-bit integer was hashed
/// into it.
pub uninterp spec fn i64_written(before: Seq<Seq<u8>>, value: i64) -> Seq<Seq<u8>>;

/// Hashes `value` into `state` with `<str as Hash>::hash`.
///
/// Trusted: the state afterwards is a function of the state before and of
/// the characters of `value`.
#[verifier::external_body]
pub(crate) fn hash_str(state: &mut DefaultHasher, value: &str)
    ensures
        final(state)@ == str_written(old(state)@, value@),
{
    value.hash(state);
}

/// Hashes `value` into `state` with `<i64 as Hash>::hash`.
///
/// Trusted: the state afterwards is a function of the state before and of
/// `value`.
#[verifier::external_body]
pub(crate) fn hash_i64(state: &mut DefaultHasher, value: i64)
    ensures
        final(state)@ == i64_written(old(state)@, value),
{
    value.hash(state);
}

} // verus!
