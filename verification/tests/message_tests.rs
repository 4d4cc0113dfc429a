use proddle::error::ProddleError;
use proddle::message::{Message, MessageType, Request};
use proddle::operation::Operation;
use std::collections::HashMap;

fn operation(domain: &str) -> Operation {
    Operation {
        timestamp: 1,
        measurement_class: "HttpGet".to_string(),
        domain: domain.to_string(),
        parameters: Vec::new(),
        tags: vec!["web".to_string()],
    }
}

fn payloads(message: &Message) -> [bool; 5] {
    [
        message.error.is_some(),
        message.update_operations_request.is_some(),
        message.update_operations_response.is_some(),
        message.send_measurements_request.is_some(),
        message.send_measurements_response.is_some(),
    ]
}

#[test]
fn error_message_carries_its_text() {
    let message = Message::error("store unreachable".to_string());
    assert_eq!(message.message_type, MessageType::Error);
    assert_eq!(message.error, Some("store unreachable".to_string()));
    assert_eq!(payloads(&message), [true, false, false, false, false]);
}

#[test]
fn update_operations_request_carries_the_fingerprints() {
    let mut hashes = HashMap::new();
    hashes.insert(0u64, 17u64);
    hashes.insert(100u64, 0u64);
    let message = Message::update_operations_request(hashes.clone());
    assert_eq!(message.message_type, MessageType::UpdateOperationsRequest);
    assert_eq!(message.update_operations_request, Some(hashes));
    assert_eq!(payloads(&message), [false, true, false, false, false]);
}

#[test]
fn new_update_operations_request_carries_nothing() {
    let message = Message::new_update_operations_request();
    assert_eq!(message.message_type, MessageType::UpdateOperationsRequest);
    assert_eq!(payloads(&message), [false, false, false, false, false]);
}

#[test]
fn update_operations_response_carries_the_buckets() {
    let mut buckets = HashMap::new();
    buckets.insert(100u64, vec![operation("a.com"), operation("b.com")]);
    let message = Message::update_operations_response(buckets);
    assert_eq!(message.message_type, MessageType::UpdateOperationsResponse);
    assert_eq!(payloads(&message), [false, false, true, false, false]);
    let carried = message.update_operations_response.unwrap();
    assert_eq!(carried.len(), 1);
    assert_eq!(carried[&100][1].domain, "b.com");
}

#[test]
fn send_measurements_request_carries_the_measurements() {
    let message = Message::send_measurements_request(vec![vec![1, 2, 3], vec![]]);
    assert_eq!(message.message_type, MessageType::SendMeasurementsRequest);
    assert_eq!(message.send_measurements_request, Some(vec![vec![1, 2, 3], vec![]]));
    assert_eq!(payloads(&message), [false, false, false, true, false]);
}

#[test]
fn send_measurements_response_carries_the_failures() {
    let message = Message::send_measurements_response(vec![0, 4]);
    assert_eq!(message.message_type, MessageType::SendMeasurementsResponse);
    assert_eq!(message.send_measurements_response, Some(vec![0, 4]));
    assert_eq!(payloads(&message), [false, false, false, false, true]);
}

#[test]
fn requests_are_read_out_of_their_messages() {
    match Message::send_measurements_request(vec![vec![9]]).into_request() {
        Ok(Request::SendMeasurements(measurements)) => assert_eq!(measurements, vec![vec![9]]),
        _ => panic!("a delivery request must be served"),
    }
    let mut hashes = HashMap::new();
    hashes.insert(5u64, 6u64);
    match Message::update_operations_request(hashes.clone()).into_request() {
        Ok(Request::UpdateOperations(carried)) => assert_eq!(carried, hashes),
        _ => panic!("a synchronisation request must be served"),
    }
}

#[test]
fn request_without_payload_is_refused() {
    assert!(matches!(
        Message::new_update_operations_request().into_request(),
        Err(ProddleError::MissingPayload)
    ));
    let mut message = Message::send_measurements_request(Vec::new());
    message.send_measurements_request = None;
    assert!(matches!(message.into_request(), Err(ProddleError::MissingPayload)));
}

#[test]
fn other_messages_are_not_served() {
    assert!(matches!(
        Message::error("x".to_string()).into_request(),
        Err(ProddleError::UnsupportedMessage)
    ));
    assert!(matches!(
        Message::send_measurements_response(Vec::new()).into_request(),
        Err(ProddleError::UnsupportedMessage)
    ));
    assert!(matches!(
        Message::update_operations_response(HashMap::new()).into_request(),
        Err(ProddleError::UnsupportedMessage)
    ));
    let mut dummy = Message::new_update_operations_request();
    dummy.message_type = MessageType::Dummy;
    assert!(matches!(dummy.into_request(), Err(ProddleError::UnsupportedMessage)));
}

#[test]
fn buckets_are_read_out_of_a_synchronisation_response() {
    let mut buckets = HashMap::new();
    buckets.insert(100u64, vec![operation("a.com")]);
    let received = Message::update_operations_response(buckets).into_operation_buckets().unwrap();
    assert_eq!(received[&100][0].domain, "a.com");
}

#[test]
fn error_answer_to_a_synchronisation_reports_the_peers_text() {
    match Message::error("store unreachable".to_string()).into_operation_buckets() {
        Err(ProddleError::Remote(text)) => assert_eq!(text, "store unreachable"),
        _ => panic!("an error message must yield its error"),
    }
    let mut silent = Message::error(String::new());
    silent.error = None;
    assert!(matches!(silent.into_operation_buckets(), Err(ProddleError::MalformedError)));
}

#[test]
fn unexpected_answer_to_a_synchronisation_is_refused() {
    assert!(matches!(
        Message::send_measurements_response(Vec::new()).into_operation_buckets(),
        Err(ProddleError::UnexpectedMessage)
    ));
    let mut empty = Message::update_operations_response(HashMap::new());
    empty.update_operations_response = None;
    assert!(matches!(empty.into_operation_buckets(), Err(ProddleError::MissingPayload)));
}

#[test]
fn delivery_response_acknowledges_the_batch() {
    assert!(Message::send_measurements_response(vec![1]).into_delivery().is_ok());
    let mut bare = Message::send_measurements_response(Vec::new());
    bare.send_measurements_response = None;
    assert!(bare.into_delivery().is_ok());
}

#[test]
fn other_answers_to_a_delivery_are_errors() {
    match Message::error("disk full".to_string()).into_delivery() {
        Err(ProddleError::Remote(text)) => assert_eq!(text, "disk full"),
        _ => panic!("an error message must yield its error"),
    }
    let mut silent = Message::error(String::new());
    silent.error = None;
    assert!(matches!(silent.into_delivery(), Err(ProddleError::MalformedError)));
    assert!(matches!(
        Message::update_operations_response(HashMap::new()).into_delivery(),
        Err(ProddleError::UnexpectedMessage)
    ));
}
