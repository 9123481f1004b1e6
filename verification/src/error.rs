//! Errors surfaced by the storage layer and its transactions.

use vstd::prelude::*;
use vstd::std_specs::convert::FromSpecImpl;

verus! {

/// `std::io::Error` carries the substrate's failure detail; the storage layer
/// propagates it without reading it.
#[verifier::external_type_specification]
#[verifier::external_body]
pub struct ExIoError(std::io::Error);

/// Error returned by a finished transaction.
#[derive(Debug)]
pub enum TransactionError<T> {
    /// A failure returned by the transaction closure, which aborted and
    /// rolled back the transaction.
    Abort(T),
    /// A storage-level failure.
    Storage(std::io::Error),
}

/// Error returned by the mutating methods of a transaction handle.  A
/// `Conflict` must be returned to the substrate unchanged so that it can
/// retry the closure.
#[derive(Debug)]
pub enum UnabortableTransactionError {
    Conflict,
    /// A storage-level failure.
    Storage(std::io::Error),
}

/// Error returned by a transaction closure.
#[derive(Debug)]
pub enum ConflictableTransactionError<T> {
    /// A failure chosen by the closure; aborts and rolls back the
    /// transaction.
    Abort(T),
    /// An internal conflict: the substrate will retry the closure.
    Conflict,
    /// A storage-level failure.
    Storage(std::io::Error),
}

impl<T> From<UnabortableTransactionError> for ConflictableTransactionError<T> {
    fn from(e: UnabortableTransactionError) -> (r: Self) {
        match e {
            UnabortableTransactionError::Conflict => ConflictableTransactionError::Conflict,
            UnabortableTransactionError::Storage(err) => ConflictableTransactionError::Storage(
                err,
            ),
        }
    }
}

impl<T> FromSpecImpl<UnabortableTransactionError> for ConflictableTransactionError<T> {
    open spec fn obeys_from_spec() -> bool {
        true
    }

    open spec fn from_spec(e: UnabortableTransactionError) -> Self {
        match e {
            UnabortableTransactionError::Conflict => ConflictableTransactionError::Conflict,
            UnabortableTransactionError::Storage(err) => ConflictableTransactionError::Storage(
                err,
            ),
        }
    }
}

} // verus!
