//! Error types of the library.

use vstd::prelude::*;

verus! {

/// Errors of the deduplication and relink engine.
#[derive(Clone, Copy, Debug, PartialEq, Eq, Structural)]
pub enum MergeError {
    /// An entity id did not resolve to an existing row.
    NotFound,
    /// The two ids of a merge were equal, or the request crossed entity kinds.
    InvalidOperation,
    /// A step inside a merge failed; the whole merge was rolled back.
    TransactionFailure,
    /// A non-transactional storage operation failed, e.g. the id space of a
    /// table is exhausted.
    StorageError,
    /// Deleting an entity would have left dangling link rows behind.
    Conflict,
}

/// The coarse error of the top-level client.
#[derive(Clone, Copy, Debug, PartialEq, Eq, Structural)]
pub enum CalibreError {
    DatabaseError,
}

} // verus!
