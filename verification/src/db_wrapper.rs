//! The coordinator's access to the document store: how to reach it, and
//! what the coordinator computes from what it reads there.

use crate::error::ProddleError;
use crate::operation::{operation_views, Operation};
use crate::sync::{all_placed, bucket_changed, bucket_operations, changed_buckets, operation_bucket};
use std::collections::HashMap;
use vstd::prelude::*;

verus! {

/// What a [`DbWrapper`] holds.
pub struct DbWrapperView {
    pub ip_address: Seq<char>,
    pub port: u16,
    pub username: Seq<char>,
    pub password: Seq<char>,
    pub ca_file: Seq<char>,
    pub certificate_file: Seq<char>,
    pub key_file: Seq<char>,
}

/// Where the document store is and how to authenticate against it.
pub struct DbWrapper {
    ip_address: String,
    port: u16,
    username: String,
    password: String,
    ca_file: String,
    certificate_file: String,
    key_file: String,
}

impl View for DbWrapper {
    type V = DbWrapperView;

    closed spec fn view(&self) -> DbWrapperView {
        DbWrapperView {
            ip_address: self.ip_address@,
            port: self.port,
            username: self.username@,
            password: self.password@,
            ca_file: self.ca_file@,
            certificate_file: self.certificate_file@,
            key_file: self.key_file@,
        }
    }
}

/// Whether the connection is encrypted: it is unless the certificate
/// authority file, the certificate file and the key file are all left
/// empty.
pub open spec fn encrypted(settings: DbWrapperView) -> bool {
    !(settings.ca_file == Seq::<char>::empty() && settings.certificate_file == Seq::<
        char,
    >::empty() && settings.key_file == Seq::<char>::empty())
}

/// Whether `failures` lists, in ascending order, exactly the indices at
/// which `decoded` is false.
pub open spec fn lists_failures(failures: Seq<usize>, decoded: Seq<bool>) -> bool {
    &&& forall|i: int, j: int| 0 <= i < j < failures.len() ==> failures[i] < failures[j]
    &&& forall|i: int| 0 <= i < failures.len() ==> (#[trigger] failures[i]) < decoded.len()
        && !decoded[failures[i] as int]
    &&& forall|k: int| 0 <= k < decoded.len() && !decoded[k] ==> exists|i: int|
        0 <= i < failures.len() && #[trigger] failures[i] == k
}

impl DbWrapper {
    /// Keeps the store's address and the credentials; always `Ok`.
    pub fn new(
        ip_address: &str,
        port: u16,
        username: &str,
        password: &str,
        ca_file: &str,
        certificate_file: &str,
        key_file: &str,
    ) -> (wrapper: Result<DbWrapper, ProddleError>)
        ensures
            wrapper matches Ok(w) && w@ == (DbWrapperView {
                ip_address: ip_address@,
                port,
                username: username@,
                password: password@,
                ca_file: ca_file@,
                certificate_file: certificate_file@,
                key_file: key_file@,
            }),
    {
        Ok(
            DbWrapper {
                ip_address: ip_address.to_owned(),
                port,
                username: username.to_owned(),
                password: password.to_owned(),
                ca_file: ca_file.to_owned(),
                certificate_file: certificate_file.to_owned(),
                key_file: key_file.to_owned(),
            },
        )
    }

    /// The store's address.
    pub fn ip_address(&self) -> (address: &String)
        ensures
            address@ == self@.ip_address,
    {
        &self.ip_address
    }

    /// The store's port.
    pub fn port(&self) -> (port: u16)
        ensures
            port == self@.port,
    {
        self.port
    }

    /// The name to authenticate with.
    pub fn username(&self) -> (username: &String)
        ensures
            username@ == self@.username,
    {
        &self.username
    }

    /// The password to authenticate with.
    pub fn password(&self) -> (password: &String)
        ensures
            password@ == self@.password,
    {
        &self.password
    }

    /// The certificate authority file, the certificate file and the key
    /// file, in this order.
    pub fn tls_files(&self) -> (files: (&String, &String, &String))
        ensures
            files.0@ == self@.ca_file,
            files.1@ == self@.certificate_file,
            files.2@ == self@.key_file,
    {
        (&self.ca_file, &self.certificate_file, &self.key_file)
    }

    /// Whether the connection to the store is to be encrypted.
    pub fn uses_tls(&self) -> (tls: bool)
        ensures
            tls == encrypted(self@),
    {
        let empty = String::new();
        !(self.ca_file == empty && self.certificate_file == empty && self.key_file == empty)
    }

    /// Lists the indices of the measurements that could not be decoded,
    /// given for each measurement of a batch whether it could.
    pub fn send_measurements(&self, decoded: &Vec<bool>) -> (failures: Vec<usize>)
        ensures
            lists_failures(failures@, decoded@),
    {
        let mut failures: Vec<usize> = Vec::new();
        let mut i: usize = 0;
        while i < decoded.len()
            invariant
                i <= decoded.len(),
                lists_failures(failures@, decoded@.take(i as int)),
            decreases decoded.len() - i,
        {
            let ghost before = failures@;
            if !decoded[i] {
                failures.push(i);
                assert forall|k: int| 0 <= k <= i && !decoded[k] implies exists|j: int|
                    0 <= j < failures.len() && #[trigger] failures[j] == k by {
                    if k < i {
                        assert(!decoded@.take(i as int)[k]);
                        let j = choose|j: int| 0 <= j < before.len() && #[trigger] before[j] == k;
                        assert(failures[j] == k);
                    } else {
                        assert(failures[failures.len() - 1] == k);
                    }
                }
            } else {
                assert forall|k: int| 0 <= k <= i && !decoded[k] implies exists|j: int|
                    0 <= j < failures.len() && #[trigger] failures[j] == k by {
                    assert(!decoded@.take(i as int)[k]);
                }
            }
            i += 1;
        }
        assert(decoded@.take(i as int) =~= decoded@);
        failures
    }

    /// Answers a synchronisation request against the operations read from
    /// the store, given in the order the store lists them.
    ///
    /// The answer holds exactly the requested buckets whose fingerprint
    /// differs from the requested one, each with all its operations in
    /// store order. It fails, with nothing answered, if and only if some
    /// operation belongs to a bucket that the request does not name.
    pub fn update_operations(
        &self,
        stored: &Vec<Operation>,
        operation_bucket_hashes: &HashMap<u64, u64>,
    ) -> (response: Result<HashMap<u64, Vec<Operation>>, ProddleError>)
        ensures
            match response {
                Ok(buckets) => {
                    &&& all_placed(
                        operation_bucket_hashes@,
                        operation_views(stored@),
                        stored.len() as int,
                    )
                    &&& forall|key: u64|
                        buckets@.contains_key(key) <==> bucket_changed(
                            operation_bucket_hashes@,
                            operation_views(stored@),
                            key,
                        )
                    &&& forall|key: u64| #[trigger]
                        buckets@.contains_key(key) ==> operation_views(buckets@[key]@)
                            == bucket_operations(
                            operation_bucket_hashes@.dom(),
                            operation_views(stored@),
                            key,
                        )
                },
                Err(error) => exists|i: int|
                    {
                        &&& 0 <= i < stored.len()
                        &&& all_placed(operation_bucket_hashes@, operation_views(stored@), i)
                        &&& !operation_bucket_hashes@.contains_key(
                            operation_bucket(
                                operation_bucket_hashes@.dom(),
                                operation_views(stored@)[i],
                            ),
                        )
                        &&& error == ProddleError::UnknownBucket(
                            operation_bucket(
                                operation_bucket_hashes@.dom(),
                                operation_views(stored@)[i],
                            ),
                        )
                    },
            },
    {
        changed_buckets(operation_bucket_hashes, stored)
    }
}

} // verus!
