//! Operations: the measurement assignments that agents synchronise.

use crate::hashing::{hash_i64, hash_str, i64_written, str_written};
use std::collections::hash_map::DefaultHasher;
use vstd::prelude::*;
use vstd::std_specs::hash::DefaultHasherAdditionalSpecFns;

verus! {

/// What a [`Parameter`] holds.
pub struct ParameterView {
    pub name: Seq<char>,
    pub value: Seq<char>,
}

/// A named argument handed to a measurement.
#[derive(Debug)]
pub struct Parameter {
    pub name: String,
    pub value: String,
}

impl View for Parameter {
    type V = ParameterView;

    open spec fn view(&self) -> ParameterView {
        ParameterView { name: self.name@, value: self.value@ }
    }
}

impl Clone for Parameter {
    fn clone(&self) -> (res: Self)
        ensures
            res@ == self@,
    {
        Parameter { name: self.name.clone(), value: self.value.clone() }
    }
}

/// What an [`Operation`] holds.
pub struct OperationView {
    pub timestamp: i64,
    pub measurement_class: Seq<char>,
    pub domain: Seq<char>,
    pub parameters: Seq<ParameterView>,
    pub tags: Seq<Seq<char>>,
}

/// One measurement assignment: a measurement class to run against a domain.
///
/// Two operations with the same view are interchangeable.
#[derive(Debug)]
pub struct Operation {
    pub timestamp: i64,
    pub measurement_class: String,
    pub domain: String,
    pub parameters: Vec<Parameter>,
    pub tags: Vec<String>,
}

/// The views of a sequence of parameters.
pub open spec fn parameter_views(parameters: Seq<Parameter>) -> Seq<ParameterView> {
    Seq::new(parameters.len(), |i: int| parameters[i]@)
}

/// The views of a sequence of strings.
pub open spec fn string_views(strings: Seq<String>) -> Seq<Seq<char>> {
    Seq::new(strings.len(), |i: int| strings[i]@)
}

/// The views of a sequence of operations.
pub open spec fn operation_views(operations: Seq<Operation>) -> Seq<OperationView> {
    Seq::new(operations.len(), |i: int| operations[i]@)
}

impl View for Operation {
    type V = OperationView;

    open spec fn view(&self) -> OperationView {
        OperationView {
            timestamp: self.timestamp,
            measurement_class: self.measurement_class@,
            domain: self.domain@,
            parameters: parameter_views(self.parameters@),
            tags: string_views(self.tags@),
        }
    }
}

/// The hasher writes after the names and values of `parameters` were hashed
/// in order, each name before its value.
pub open spec fn parameters_written(before: Seq<Seq<u8>>, parameters: Seq<ParameterView>) -> Seq<
    Seq<u8>,
>
    decreases parameters.len(),
{
    if parameters.len() == 0 {
        before
    } else {
        let last = parameters.last();
        str_written(
            str_written(parameters_written(before, parameters.drop_last()), last.name),
            last.value,
        )
    }
}

/// The hasher writes after `tags` were hashed in order.
pub open spec fn tags_written(before: Seq<Seq<u8>>, tags: Seq<Seq<char>>) -> Seq<Seq<u8>>
    decreases tags.len(),
{
    if tags.len() == 0 {
        before
    } else {
        str_written(tags_written(before, tags.drop_last()), tags.last())
    }
}

/// The hasher writes after one operation was hashed: its timestamp, class
/// and domain, then its parameters, then its tags.
pub open spec fn operation_written(before: Seq<Seq<u8>>, operation: OperationView) -> Seq<Seq<u8>> {
    tags_written(
        parameters_written(
            str_written(
                str_written(i64_written(before, operation.timestamp), operation.measurement_class),
                operation.domain,
            ),
            operation.parameters,
        ),
        operation.tags,
    )
}

/// The hasher writes after `operations` were hashed in order.
pub open spec fn operations_written(before: Seq<Seq<u8>>, operations: Seq<OperationView>) -> Seq<
    Seq<u8>,
>
    decreases operations.len(),
{
    if operations.len() == 0 {
        before
    } else {
        operation_written(
            operations_written(before, operations.drop_last()),
            operations.last(),
        )
    }
}

/// The fingerprint of a bucket: what a fresh hasher yields after the
/// bucket's operations were hashed into it in order.
pub open spec fn fingerprint(operations: Seq<OperationView>) -> u64 {
    DefaultHasher::spec_finish(operations_written(Seq::empty(), operations))
}

impl Clone for Operation {
    fn clone(&self) -> (res: Self)
        ensures
            res@ == self@,
    {
        let mut parameters: Vec<Parameter> = Vec::new();
        let mut i: usize = 0;
        while i < self.parameters.len()
            invariant
                i <= self.parameters.len(),
                parameters.len() == i,
                forall|k: int| 0 <= k < i ==> parameters[k]@ == self.parameters[k]@,
            decreases self.parameters.len() - i,
        {
            parameters.push(self.parameters[i].clone());
            i += 1;
        }
        let mut tags: Vec<String> = Vec::new();
        let mut j: usize = 0;
        while j < self.tags.len()
            invariant
                j <= self.tags.len(),
                tags.len() == j,
                forall|k: int| 0 <= k < j ==> tags[k]@ == self.tags[k]@,
            decreases self.tags.len() - j,
        {
            tags.push(self.tags[j].clone());
            j += 1;
        }
        let res = Operation {
            timestamp: self.timestamp,
            measurement_class: self.measurement_class.clone(),
            domain: self.domain.clone(),
            parameters,
            tags,
        };
        assert(res@.parameters =~= self@.parameters);
        assert(res@.tags =~= self@.tags);
        res
    }
}

impl Operation {
    /// Feeds the operation into `state`: timestamp, measurement class and
    /// domain, then each parameter's name and value, then each tag.
    pub fn hash(&self, state: &mut DefaultHasher)
        ensures
            final(state)@ == operation_written(old(state)@, self@),
    {
        hash_i64(state, self.timestamp);
        hash_str(state, self.measurement_class.as_str());
        hash_str(state, self.domain.as_str());
        let ghost start = state@;
        let mut i: usize = 0;
        while i < self.parameters.len()
            invariant
                i <= self.parameters.len(),
                state@ == parameters_written(start, self@.parameters.take(i as int)),
            decreases self.parameters.len() - i,
        {
            proof {
                let next = self@.parameters.take(i + 1);
                assert(next.drop_last() =~= self@.parameters.take(i as int));
                assert(next.last() == self.parameters[i as int]@);
            }
            hash_str(state, self.parameters[i].name.as_str());
            hash_str(state, self.parameters[i].value.as_str());
            i += 1;
        }
        assert(self@.parameters.take(i as int) =~= self@.parameters);
        let ghost middle = state@;
        let mut j: usize = 0;
        while j < self.tags.len()
            invariant
                j <= self.tags.len(),
                state@ == tags_written(middle, self@.tags.take(j as int)),
            decreases self.tags.len() - j,
        {
            proof {
                let next = self@.tags.take(j + 1);
                assert(next.drop_last() =~= self@.tags.take(j as int));
                assert(next.last() == self.tags[j as int]@);
            }
            hash_str(state, self.tags[j].as_str());
            j += 1;
        }
        assert(self@.tags.take(j as int) =~= self@.tags);
    }
}

} // verus!
