//! The messages that agent and coordinator exchange, and what each side
//! reads out of a message it receives.

use crate::error::ProddleError;
use crate::operation::Operation;
use std::collections::HashMap;
use vstd::prelude::*;

verus! {

/// What a message is meant to be.
#[derive(Debug, Clone, Copy, PartialEq, Eq, Structural)]
pub enum MessageType {
    Dummy,
    Error,
    UpdateOperationsRequest,
    UpdateOperationsResponse,
    SendMeasurementsRequest,
    SendMeasurementsResponse,
}

/// A message: its type and, in the field that belongs to the type, its
/// payload.
#[derive(Debug)]
pub struct Message {
    pub message_type: MessageType,
    pub error: Option<String>,
    pub update_operations_request: Option<HashMap<u64, u64>>,
    pub update_operations_response: Option<HashMap<u64, Vec<Operation>>>,
    pub send_measurements_request: Option<Vec<Vec<u8>>>,
    pub send_measurements_response: Option<Vec<usize>>,
}

/// A request as the coordinator serves it.
#[derive(Debug)]
pub enum Request {
    /// Store these encoded measurements.
    SendMeasurements(Vec<Vec<u8>>),
    /// Answer with the buckets that differ from these fingerprints.
    UpdateOperations(HashMap<u64, u64>),
}

impl Message {
    /// Whether the message carries no payload but the one named.
    pub open spec fn carries_only(&self, message_type: MessageType) -> bool {
        &&& self.message_type == message_type
        &&& message_type != MessageType::Error ==> self.error is None
        &&& message_type != MessageType::UpdateOperationsRequest
            ==> self.update_operations_request is None
        &&& message_type != MessageType::UpdateOperationsResponse
            ==> self.update_operations_response is None
        &&& message_type != MessageType::SendMeasurementsRequest
            ==> self.send_measurements_request is None
        &&& message_type != MessageType::SendMeasurementsResponse
            ==> self.send_measurements_response is None
    }

    /// Makes an error message with the text `error`.
    pub fn error(error: String) -> (message: Message)
        ensures
            message.carries_only(MessageType::Error),
            message.error == Some(error),
    {
        Message {
            message_type: MessageType::Error,
            error: Some(error),
            update_operations_request: None,
            update_operations_response: None,
            send_measurements_request: None,
            send_measurements_response: None,
        }
    }

    /// Makes a synchronisation request that carries no fingerprints yet.
    pub fn new_update_operations_request() -> (message: Message)
        ensures
            message.carries_only(MessageType::UpdateOperationsRequest),
            message.update_operations_request is None,
    {
        Message {
            message_type: MessageType::UpdateOperationsRequest,
            error: None,
            update_operations_request: None,
            update_operations_response: None,
            send_measurements_request: None,
            send_measurements_response: None,
        }
    }

    /// Makes a synchronisation request with the agent's fingerprints by
    /// bucket key.
    pub fn update_operations_request(operation_bucket_hashes: HashMap<u64, u64>) -> (message:
        Message)
        ensures
            message.carries_only(MessageType::UpdateOperationsRequest),
            message.update_operations_request == Some(operation_bucket_hashes),
    {
        Message {
            message_type: MessageType::UpdateOperationsRequest,
            error: None,
            update_operations_request: Some(operation_bucket_hashes),
            update_operations_response: None,
            send_measurements_request: None,
            send_measurements_response: None,
        }
    }

    /// Makes a synchronisation response with the changed buckets.
    pub fn update_operations_response(operation_buckets: HashMap<u64, Vec<Operation>>) -> (message:
        Message)
        ensures
            message.carries_only(MessageType::UpdateOperationsResponse),
            message.update_operations_response == Some(operation_buckets),
    {
        Message {
            message_type: MessageType::UpdateOperationsResponse,
            error: None,
            update_operations_request: None,
            update_operations_response: Some(operation_buckets),
            send_measurements_request: None,
            send_measurements_response: None,
        }
    }

    /// Makes a delivery request with the encoded measurements.
    pub fn send_measurements_request(measurements: Vec<Vec<u8>>) -> (message: Message)
        ensures
            message.carries_only(MessageType::SendMeasurementsRequest),
            message.send_measurements_request == Some(measurements),
    {
        Message {
            message_type: MessageType::SendMeasurementsRequest,
            error: None,
            update_operations_request: None,
            update_operations_response: None,
            send_measurements_request: Some(measurements),
            send_measurements_response: None,
        }
    }

    /// Makes a delivery response with the indices of the measurements that
    /// could not be decoded.
    pub fn send_measurements_response(measurement_failures: Vec<usize>) -> (message: Message)
        ensures
            message.carries_only(MessageType::SendMeasurementsResponse),
            message.send_measurements_response == Some(measurement_failures),
    {
        Message {
            message_type: MessageType::SendMeasurementsResponse,
            error: None,
            update_operations_request: None,
            update_operations_response: None,
            send_measurements_request: None,
            send_measurements_response: Some(measurement_failures),
        }
    }

    /// Makes the answer to a synchronisation request: the changed buckets,
    /// or the error in words where answering failed.
    pub fn answer_update(outcome: Result<HashMap<u64, Vec<Operation>>, ProddleError>) -> (message:
        Message)
        ensures
            match outcome {
                Ok(buckets) => message.carries_only(MessageType::UpdateOperationsResponse)
                    && message.update_operations_response == Some(buckets),
                Err(error) => {
                    &&& message.carries_only(MessageType::Error)
                    &&& message.error matches Some(text) && text@ == error.text()
                },
            },
    {
        match outcome {
            Ok(buckets) => Message::update_operations_response(buckets),
            Err(error) => Message::error(error.message()),
        }
    }

    /// Makes the answer to a delivery request: the indices of the
    /// measurements that could not be decoded, or the error in words where
    /// the delivery failed.
    pub fn answer_delivery(outcome: Result<Vec<usize>, ProddleError>) -> (message: Message)
        ensures
            match outcome {
                Ok(failures) => message.carries_only(MessageType::SendMeasurementsResponse)
                    && message.send_measurements_response == Some(failures),
                Err(error) => {
                    &&& message.carries_only(MessageType::Error)
                    &&& message.error matches Some(text) && text@ == error.text()
                },
            },
    {
        match outcome {
            Ok(failures) => Message::send_measurements_response(failures),
            Err(error) => Message::error(error.message()),
        }
    }

    /// Reads a request out of a received message. A delivery or a
    /// synchronisation request yields its payload and fails without one;
    /// a message of any other type is not served.
    pub fn into_request(self) -> (request: Result<Request, ProddleError>)
        ensures
            match self.message_type {
                MessageType::SendMeasurementsRequest => match self.send_measurements_request {
                    Some(measurements) => request matches Ok(Request::SendMeasurements(m)) && m
                        == measurements,
                    None => request matches Err(ProddleError::MissingPayload),
                },
                MessageType::UpdateOperationsRequest => match self.update_operations_request {
                    Some(hashes) => request matches Ok(Request::UpdateOperations(h)) && h
                        == hashes,
                    None => request matches Err(ProddleError::MissingPayload),
                },
                _ => request matches Err(ProddleError::UnsupportedMessage),
            },
    {
        match self.message_type {
            MessageType::SendMeasurementsRequest => match self.send_measurements_request {
                Some(measurements) => Ok(Request::SendMeasurements(measurements)),
                None => Err(ProddleError::MissingPayload),
            },
            MessageType::UpdateOperationsRequest => match self.update_operations_request {
                Some(hashes) => Ok(Request::UpdateOperations(hashes)),
                None => Err(ProddleError::MissingPayload),
            },
            _ => Err(ProddleError::UnsupportedMessage),
        }
    }

    /// Reads the error that an error message reports: the peer's text, or
    /// that the message carries none.
    fn into_error(self) -> (error: ProddleError)
        ensures
            match self.error {
                Some(text) => error matches ProddleError::Remote(t) && t == text,
                None => error matches ProddleError::MalformedError,
            },
    {
        match self.error {
            Some(text) => ProddleError::Remote(text),
            None => ProddleError::MalformedError,
        }
    }

    /// Reads the changed buckets out of the answer to a synchronisation
    /// request. An error message yields the error it reports; a message of
    /// any other type than a synchronisation response is unexpected.
    pub fn into_operation_buckets(self) -> (buckets: Result<
        HashMap<u64, Vec<Operation>>,
        ProddleError,
    >)
        ensures
            match self.message_type {
                MessageType::UpdateOperationsResponse => match self.update_operations_response {
                    Some(received) => buckets matches Ok(b) && b == received,
                    None => buckets matches Err(ProddleError::MissingPayload),
                },
                MessageType::Error => match self.error {
                    Some(text) => buckets matches Err(ProddleError::Remote(t)) && t == text,
                    None => buckets matches Err(ProddleError::MalformedError),
                },
                _ => buckets matches Err(ProddleError::UnexpectedMessage),
            },
    {
        match self.message_type {
            MessageType::UpdateOperationsResponse => match self.update_operations_response {
                Some(received) => Ok(received),
                None => Err(ProddleError::MissingPayload),
            },
            MessageType::Error => Err(self.into_error()),
            _ => Err(ProddleError::UnexpectedMessage),
        }
    }

    /// Reads out of the answer to a delivery request whether the batch was
    /// taken. A delivery response says so whatever it carries; an error
    /// message yields the error it reports; a message of any other type is
    /// unexpected.
    pub fn into_delivery(self) -> (taken: Result<(), ProddleError>)
        ensures
            match self.message_type {
                MessageType::SendMeasurementsResponse => taken is Ok,
                MessageType::Error => match self.error {
                    Some(text) => taken matches Err(ProddleError::Remote(t)) && t == text,
                    None => taken matches Err(ProddleError::MalformedError),
                },
                _ => taken matches Err(ProddleError::UnexpectedMessage),
            },
    {
        match self.message_type {
            MessageType::SendMeasurementsResponse => Ok(()),
            MessageType::Error => Err(self.into_error()),
            _ => Err(ProddleError::UnexpectedMessage),
        }
    }
}

} // verus!
