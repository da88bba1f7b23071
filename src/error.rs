//! The error kinds of the library.
use crate::time::Timestamp;
use vstd::prelude::*;

verus! {

/// Everything that can go wrong in the domain and storage operations.
#[derive(Debug, Clone)]
pub enum HlaviError {
    TicketNotFound(String),
    BoardNotInitialized,
    InvalidStatusTransition { from: String, to: String },
    InvalidTicketId(String),
    InvalidDateRange { start: Timestamp, end: Timestamp },
    StorageError(String),
    IoError(String),
    SerializationError(String),
    ConfigError(String),
    AcceptanceCriteriaNotFound,
    ProjectNotInitialized,
    Other(String),
}

} // verus!
