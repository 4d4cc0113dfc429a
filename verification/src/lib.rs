//! Assignment synchronisation and scheduling for a fleet of measurement agents.
//!
//! Agents mirror a coordinator's set of measurement operations bucket by
//! bucket, comparing one fingerprint per bucket, and turn what they hold into
//! periodic, retried measurement jobs whose results are delivered in batches.
//!
//! The coordinator's side is in [`sync`] and [`db_wrapper`], the agent's in
//! [`store`], [`queue`], [`tags`], [`executor`] and [`batcher`]. What both
//! sides share is in [`operation`], [`bucket`] and [`message`]; [`laws`]
//! states what holds between the two sides.

pub mod batcher;
pub mod bucket;
pub mod clock;
pub mod codec;
pub mod db_wrapper;
pub mod error;
pub mod executor;
pub mod frame;
pub mod hashing;
pub mod job;
pub mod laws;
pub mod message;
pub mod operation;
pub mod query;
pub mod queue;
pub mod server;
pub mod store;
pub mod sync;
pub mod tags;

pub use bucket::{get_bucket_key, hash_string};
pub use error::ProddleError;
pub use job::OperationJob;
pub use message::{Message, MessageType};
pub use operation::{Operation, Parameter};
pub use query::{find_measurement, find_measurements, find_operation, find_operations};
