//! The errors that the library reports.

use vstd::prelude::*;
use vstd::string::StringExecFns;

verus! {

/// Why a request, a response or a job could not be handled.
#[derive(Debug)]
pub enum ProddleError {
    /// The peer answered with an error message of its own.
    Remote(String),
    /// The peer answered with an error message that carries no text.
    MalformedError,
    /// The peer answered with a message of another type than the one awaited.
    UnexpectedMessage,
    /// The message has the awaited type but lacks its payload.
    MissingPayload,
    /// The message is of a type that cannot be served.
    UnsupportedMessage,
    /// An operation hashes into a bucket that the request does not name.
    UnknownBucket(u64),
    /// No measurement is registered under this class name.
    UnknownMeasurementClass(String),
    /// A payload is too long for its length prefix or for the buffer.
    PayloadTooLong,
    /// A frame announces a length shorter than its own header.
    FrameTooShort,
}

impl ProddleError {
    /// The error in words.
    pub open spec fn text(self) -> Seq<char> {
        match self {
            ProddleError::Remote(text) => "ProddleError: "@ + text@,
            ProddleError::MalformedError => "ProddleError: malformed error message"@,
            ProddleError::UnexpectedMessage => "ProddleError: unexpected message type"@,
            ProddleError::MissingPayload => "ProddleError: message without payload"@,
            ProddleError::UnsupportedMessage => "ProddleError: unsupported message type"@,
            ProddleError::UnknownBucket(_) => "ProddleError: failed to retrieve bucket"@,
            ProddleError::UnknownMeasurementClass(name) => "ProddleError: unknown measurement class '"@
                + name@ + "'."@,
            ProddleError::PayloadTooLong => "ProddleError: payload too long"@,
            ProddleError::FrameTooShort => "ProddleError: frame shorter than its header"@,
        }
    }

    /// Puts the error in words, as an error message carries it.
    pub fn message(&self) -> (message: String)
        ensures
            message@ == self.text(),
    {
        match self {
            ProddleError::Remote(text) => "ProddleError: ".to_owned().concat(text.as_str()),
            ProddleError::MalformedError => "ProddleError: malformed error message".to_owned(),
            ProddleError::UnexpectedMessage => "ProddleError: unexpected message type".to_owned(),
            ProddleError::MissingPayload => "ProddleError: message without payload".to_owned(),
            ProddleError::UnsupportedMessage => "ProddleError: unsupported message type".to_owned(),
            ProddleError::UnknownBucket(_) => "ProddleError: failed to retrieve bucket".to_owned(),
            ProddleError::UnknownMeasurementClass(name) => "ProddleError: unknown measurement class '".to_owned().concat(
                name.as_str(),
            ).concat("'."),
            ProddleError::PayloadTooLong => "ProddleError: payload too long".to_owned(),
            ProddleError::FrameTooShort => "ProddleError: frame shorter than its header".to_owned(),
        }
    }
}

} // verus!
