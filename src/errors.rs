use vstd::prelude::*;

verus! {

/// The only failure conditions that callers of the access layer see.
#[derive(Debug, Clone, PartialEq, Eq)]
pub enum DatabaseError {
    /// No row matched the full primary key.
    NotFound,
    /// A uniqueness constraint was violated.
    UniqueViolation,
    /// An update was requested with an empty update set; nothing was written.
    NoFieldsToUpdate,
    /// No connection handle could be acquired.
    ConnectionError,
    /// Any other backend failure, with a diagnostic message.
    QueryError(String),
}

/// Result of every access-layer operation.
pub type StorageResult<T> = Result<T, DatabaseError>;

/// A failure as a backend reports it, before normalisation.
#[derive(Debug, Clone, PartialEq, Eq)]
pub enum BackendFailure {
    /// The statement expected a row and found none.
    NoRows,
    /// A unique or primary-key constraint rejected the statement.
    UniqueConstraint,
    /// An update statement was built with no assigned columns.
    EmptyChangeset,
    /// The pool could not hand out a connection in time.
    PoolUnavailable,
    /// A foreign-key constraint rejected the statement.
    ForeignKeyConstraint(String),
    /// Anything else, with the backend's message.
    Other(String),
}

/// The taxonomy entry for a backend failure.
pub open spec fn normalized(f: BackendFailure) -> DatabaseError {
    match f {
        BackendFailure::NoRows => DatabaseError::NotFound,
        BackendFailure::UniqueConstraint => DatabaseError::UniqueViolation,
        BackendFailure::EmptyChangeset => DatabaseError::NoFieldsToUpdate,
        BackendFailure::PoolUnavailable => DatabaseError::ConnectionError,
        BackendFailure::ForeignKeyConstraint(m) => DatabaseError::QueryError(m),
        BackendFailure::Other(m) => DatabaseError::QueryError(m),
    }
}

/// Maps a backend failure onto the access layer's error taxonomy, so that no
/// backend-specific failure leaks past the layer.
pub fn normalize(f: BackendFailure) -> (e: DatabaseError)
    ensures
        e == normalized(f),
{
    match f {
        BackendFailure::NoRows => DatabaseError::NotFound,
        BackendFailure::UniqueConstraint => DatabaseError::UniqueViolation,
        BackendFailure::EmptyChangeset => DatabaseError::NoFieldsToUpdate,
        BackendFailure::PoolUnavailable => DatabaseError::ConnectionError,
        BackendFailure::ForeignKeyConstraint(m) => DatabaseError::QueryError(m),
        BackendFailure::Other(m) => DatabaseError::QueryError(m),
    }
}

} // verus!
