use vstd::prelude::*;

use crate::parser::grammar::ParseError;

verus! {

/// Why a transaction could not go on.
#[derive(Debug, Clone, PartialEq, Eq)]
pub enum TransactionError {
    /// A lock could not be had in time.
    LockGiveUpError,
    /// No buffer could be had in time.
    BufferAbortError,
    /// A block too small for one record: block size, record size.
    TooSmallBlockError(usize, usize),
    /// A table of that name exists already.
    TableAlreadyExists(String),
    /// The file system failed; the message says how.
    IO(String),
}

/// No buffer became free in time.
#[derive(Debug, Clone, Copy, PartialEq, Eq)]
pub struct BufferAbortError {}

/// Why a statement could not be read.
#[derive(Debug, Clone, PartialEq, Eq)]
pub enum QueryError {
    ParseError(ParseError),
}

impl From<ParseError> for QueryError {
    fn from(e: ParseError) -> (r: Self) {
        QueryError::ParseError(e)
    }
}

impl vstd::std_specs::convert::FromSpecImpl<ParseError> for QueryError {
    open spec fn obeys_from_spec() -> bool {
        true
    }

    open spec fn from_spec(e: ParseError) -> Self {
        QueryError::ParseError(e)
    }
}

/// Why a statement could not be carried out: it could not be read, or its
/// transaction could not go on.
#[derive(Debug, Clone, PartialEq, Eq)]
pub enum ExecutionError {
    TransactionError(TransactionError),
    QueryError(QueryError),
}

impl From<TransactionError> for ExecutionError {
    fn from(e: TransactionError) -> (r: Self) {
        ExecutionError::TransactionError(e)
    }
}

impl vstd::std_specs::convert::FromSpecImpl<TransactionError> for ExecutionError {
    open spec fn obeys_from_spec() -> bool {
        true
    }

    open spec fn from_spec(e: TransactionError) -> Self {
        ExecutionError::TransactionError(e)
    }
}

impl From<QueryError> for ExecutionError {
    fn from(e: QueryError) -> (r: Self) {
        ExecutionError::QueryError(e)
    }
}

impl vstd::std_specs::convert::FromSpecImpl<QueryError> for ExecutionError {
    open spec fn obeys_from_spec() -> bool {
        true
    }

    open spec fn from_spec(e: QueryError) -> Self {
        ExecutionError::QueryError(e)
    }
}

} // verus!
