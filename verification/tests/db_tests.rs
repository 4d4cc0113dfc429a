use proddle::db_wrapper::DbWrapper;
use proddle::operation::Operation;
use proddle::query::{
    find_measurement, find_measurements, find_operation, find_operations, Collection, Sort,
};
use proddle::server::ServerImpl;
use std::collections::HashMap;

fn wrapper(ca_file: &str, certificate_file: &str, key_file: &str) -> DbWrapper {
    match DbWrapper::new("10.0.0.7", 27017, "agent", "SECRET-REDACTED", ca_file, certificate_file, key_file) {
        Ok(wrapper) => wrapper,
        Err(_) => panic!("the settings are always accepted"),
    }
}

#[test]
fn wrapper_keeps_its_settings() {
    let wrapper = wrapper("ca.pem", "cert.pem", "key.pem");
    assert_eq!(wrapper.ip_address(), "10.0.0.7");
    assert_eq!(wrapper.port(), 27017);
    assert_eq!(wrapper.username(), "agent");
    assert_eq!(wrapper.password(), "SECRET-REDACTED");
    let (ca_file, certificate_file, key_file) = wrapper.tls_files();
    assert_eq!(ca_file, "ca.pem");
    assert_eq!(certificate_file, "cert.pem");
    assert_eq!(key_file, "key.pem");
}

#[test]
fn connection_is_plain_only_without_any_file() {
    assert!(!wrapper("", "", "").uses_tls());
    assert!(wrapper("ca.pem", "", "").uses_tls());
    assert!(wrapper("", "cert.pem", "").uses_tls());
    assert!(wrapper("", "", "key.pem").uses_tls());
    assert!(wrapper("ca.pem", "cert.pem", "key.pem").uses_tls());
}

#[test]
fn failures_are_the_indices_that_did_not_decode() {
    let wrapper = wrapper("", "", "");
    assert_eq!(wrapper.send_measurements(&vec![true, false, true, false, false]), vec![1, 3, 4]);
    assert_eq!(wrapper.send_measurements(&vec![true, true]), Vec::<usize>::new());
    assert_eq!(wrapper.send_measurements(&vec![false]), vec![0]);
    assert_eq!(wrapper.send_measurements(&Vec::new()), Vec::<usize>::new());
}

#[test]
fn wrapper_answers_a_synchronisation_request() {
    let wrapper = wrapper("", "", "");
    let stored = vec![Operation {
        timestamp: 1,
        measurement_class: "HttpGet".to_string(),
        domain: "a.com".to_string(),
        parameters: Vec::new(),
        tags: vec!["web".to_string()],
    }];
    let mut request = HashMap::new();
    request.insert(0u64, 0u64);
    let response = wrapper.update_operations(&stored, &request).unwrap();
    assert_eq!(response.len(), 1);
    assert_eq!(response[&0][0].domain, "a.com");
}

#[test]
fn server_keeps_host_and_port() {
    let server = ServerImpl::new("127.0.0.1", 27017);
    assert_eq!(server.mongodb_host(), "127.0.0.1");
    assert_eq!(server.mongodb_port(), 27017);
}

#[test]
fn search_for_one_measurement() {
    let query = find_measurement("HttpGet", Some(3), true);
    assert_eq!(query.collection, Collection::Measurements);
    assert_eq!(query.name, Some("HttpGet".to_string()));
    assert_eq!(query.version, Some(3));
    assert_eq!(query.domain, None);
    assert_eq!(query.measurement, None);
    assert_eq!(query.limit, Some(1));
    assert_eq!(query.sort, Sort::VersionDescending);
    let query = find_measurement("HttpGet", None, false);
    assert_eq!(query.version, None);
    assert_eq!(query.sort, Sort::Unsorted);
}

#[test]
fn search_for_measurements() {
    let query = find_measurements(None, None, None, false);
    assert_eq!(query.collection, Collection::Measurements);
    assert_eq!(query.name, None);
    assert_eq!(query.version, None);
    assert_eq!(query.limit, None);
    assert_eq!(query.sort, Sort::Unsorted);
    let query = find_measurements(Some("HttpGet"), Some(2), Some(10), true);
    assert_eq!(query.name, Some("HttpGet".to_string()));
    assert_eq!(query.version, Some(2));
    assert_eq!(query.limit, Some(10));
    assert_eq!(query.sort, Sort::VersionDescending);
    assert_eq!(find_measurements(None, Some(2), Some(1), true).name, None);
}

#[test]
fn search_for_one_operation() {
    let query = find_operation("a.com", Some("HttpGet"), true);
    assert_eq!(query.collection, Collection::Operations);
    assert_eq!(query.domain, Some("a.com".to_string()));
    assert_eq!(query.measurement, Some("HttpGet".to_string()));
    assert_eq!(query.name, None);
    assert_eq!(query.version, None);
    assert_eq!(query.limit, Some(1));
    assert_eq!(query.sort, Sort::TimestampDescending);
    let query = find_operation("a.com", None, false);
    assert_eq!(query.measurement, None);
    assert_eq!(query.sort, Sort::IdAscending);
}

#[test]
fn search_for_operations() {
    let query = find_operations(None, None, None, false);
    assert_eq!(query.collection, Collection::Operations);
    assert_eq!(query.domain, None);
    assert_eq!(query.measurement, None);
    assert_eq!(query.limit, None);
    assert_eq!(query.sort, Sort::IdAscending);
    let query = find_operations(Some("a.com"), Some("HttpGet"), Some(5), true);
    assert_eq!(query.domain, Some("a.com".to_string()));
    assert_eq!(query.measurement, Some("HttpGet".to_string()));
    assert_eq!(query.limit, Some(5));
    assert_eq!(query.sort, Sort::TimestampDescending);
    assert_eq!(find_operations(None, Some("HttpGet"), None, true).domain, None);
}
