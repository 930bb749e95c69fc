//! The errors that the store reports.

use vstd::prelude::*;

verus! {

/// Why a request or an operation of the store failed.
#[derive(Debug, Clone, Copy, PartialEq, Eq, Structural)]
pub enum StoreError {
    /// A key, value or path does not have the required shape.
    ValidationError,
    /// The key is not in the store.
    NotFoundError,
    /// The JSON backend already holds its maximum number of entries.
    CapacityExceededError,
    /// A file could not be read, written or deleted.
    IOError,
    /// An envelope is malformed or fails authentication.
    CryptoError,
    /// Persisted state could not be parsed at start-up.
    LoadError,
}

} // verus!
