//! Errors of the scheduler.

use vstd::prelude::*;

verus! {

/// chrono's error for text that is not a date in the expected format,
/// carried through as it is.
#[verifier::external_type_specification]
#[verifier::external_body]
pub struct ExParseError(chrono::ParseError);

/// A failure of the record store, with the store's own message.
#[derive(Debug)]
pub enum RepositoryError {
    InternalLibSqlError(String),
    DeserializationError(String),
}

#[derive(Debug)]
pub enum StudyServiceError {
    /// The record store failed; the operation was abandoned.
    RepositoryError(RepositoryError),
    /// A stored date is not `%Y-%m-%d` text.
    ParseDateError(chrono::ParseError),
    /// A stored date lies after today.
    FutureDate,
    /// No session has the given id.
    SessionNotFound(i64),
}

} // verus!
