//! The searches that the coordinator and its tools run against the document
//! store, as plain descriptions that a store client carries out.

use vstd::prelude::*;

verus! {

/// The collection that a search runs on.
#[derive(Debug, Clone, Copy, PartialEq, Eq, Structural)]
pub enum Collection {
    Measurements,
    Operations,
}

/// The order in which a search yields what it finds.
#[derive(Debug, Clone, Copy, PartialEq, Eq, Structural)]
pub enum Sort {
    /// Whatever order the store yields.
    Unsorted,
    /// Highest version first.
    VersionDescending,
    /// Latest timestamp first.
    TimestampDescending,
    /// In order of insertion.
    IdAscending,
}

/// What a [`Query`] holds.
pub struct QueryView {
    pub collection: Collection,
    pub name: Option<Seq<char>>,
    pub version: Option<i32>,
    pub domain: Option<Seq<char>>,
    pub measurement: Option<Seq<char>>,
    pub limit: Option<i64>,
    pub sort: Sort,
}

/// A search: the collection, the fields that a document must match where
/// they are given, the greatest number of documents wanted and the order.
#[derive(Debug)]
pub struct Query {
    pub collection: Collection,
    pub name: Option<String>,
    pub version: Option<i32>,
    pub domain: Option<String>,
    pub measurement: Option<String>,
    pub limit: Option<i64>,
    pub sort: Sort,
}

/// The characters of a string that may be absent.
pub open spec fn text_view(text: Option<String>) -> Option<Seq<char>> {
    match text {
        Some(text) => Some(text@),
        None => None,
    }
}

/// The characters of a string slice that may be absent.
pub open spec fn slice_view(text: Option<&str>) -> Option<Seq<char>> {
    match text {
        Some(text) => Some(text@),
        None => None,
    }
}

impl View for Query {
    type V = QueryView;

    open spec fn view(&self) -> QueryView {
        QueryView {
            collection: self.collection,
            name: text_view(self.name),
            version: self.version,
            domain: text_view(self.domain),
            measurement: text_view(self.measurement),
            limit: self.limit,
            sort: self.sort,
        }
    }
}

/// The order of a search for measurements.
pub open spec fn version_order(order_by_version: bool) -> Sort {
    if order_by_version {
        Sort::VersionDescending
    } else {
        Sort::Unsorted
    }
}

/// The order of a search for operations.
pub open spec fn timestamp_order(order_by_timestamp: bool) -> Sort {
    if order_by_timestamp {
        Sort::TimestampDescending
    } else {
        Sort::IdAscending
    }
}

fn owned(text: Option<&str>) -> (copy: Option<String>)
    ensures
        text_view(copy) == slice_view(text),
{
    match text {
        Some(text) => Some(text.to_owned()),
        None => None,
    }
}

/// Describes the search for one measurement by name and, where given, by
/// version.
pub fn find_measurement(measurement_name: &str, version: Option<i32>, order_by_version: bool) -> (query:
    Query)
    ensures
        query@ == (QueryView {
            collection: Collection::Measurements,
            name: Some(measurement_name@),
            version,
            domain: None,
            measurement: None,
            limit: Some(1i64),
            sort: version_order(order_by_version),
        }),
{
    Query {
        collection: Collection::Measurements,
        name: Some(measurement_name.to_owned()),
        version,
        domain: None,
        measurement: None,
        limit: Some(1),
        sort: if order_by_version {
            Sort::VersionDescending
        } else {
            Sort::Unsorted
        },
    }
}

/// Describes the search for measurements by name and version, each where
/// given, up to `limit` of them.
pub fn find_measurements(
    measurement_name: Option<&str>,
    version: Option<i32>,
    limit: Option<i64>,
    order_by_version: bool,
) -> (query: Query)
    ensures
        query@ == (QueryView {
            collection: Collection::Measurements,
            name: slice_view(measurement_name),
            version,
            domain: None,
            measurement: None,
            limit,
            sort: version_order(order_by_version),
        }),
{
    Query {
        collection: Collection::Measurements,
        name: owned(measurement_name),
        version,
        domain: None,
        measurement: None,
        limit,
        sort: if order_by_version {
            Sort::VersionDescending
        } else {
            Sort::Unsorted
        },
    }
}

/// Describes the search for one operation by domain and, where given, by
/// measurement.
pub fn find_operation(domain: &str, measurement_name: Option<&str>, order_by_timestamp: bool) -> (query:
    Query)
    ensures
        query@ == (QueryView {
            collection: Collection::Operations,
            name: None,
            version: None,
            domain: Some(domain@),
            measurement: slice_view(measurement_name),
            limit: Some(1i64),
            sort: timestamp_order(order_by_timestamp),
        }),
{
    Query {
        collection: Collection::Operations,
        name: None,
        version: None,
        domain: Some(domain.to_owned()),
        measurement: owned(measurement_name),
        limit: Some(1),
        sort: if order_by_timestamp {
            Sort::TimestampDescending
        } else {
            Sort::IdAscending
        },
    }
}

/// Describes the search for operations by domain and measurement, each
/// where given, up to `limit` of them.
pub fn find_operations(
    domain: Option<&str>,
    measurement_name: Option<&str>,
    limit: Option<i64>,
    order_by_timestamp: bool,
) -> (query: Query)
    ensures
        query@ == (QueryView {
            collection: Collection::Operations,
            name: None,
            version: None,
            domain: slice_view(domain),
            measurement: slice_view(measurement_name),
            limit,
            sort: timestamp_order(order_by_timestamp),
        }),
{
    Query {
        collection: Collection::Operations,
        name: None,
        version: None,
        domain: owned(domain),
        measurement: owned(measurement_name),
        limit,
        sort: if order_by_timestamp {
            Sort::TimestampDescending
        } else {
            Sort::IdAscending
        },
    }
}

} // verus!
