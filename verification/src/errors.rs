//! The error taxonomy of the core. Validation failures are detected before
//! any storage access; `NotFound` is a lookup by id that matched no row;
//! `Storage` stands for a connectivity, constraint or driver-level fault of
//! the storage layer.

use vstd::prelude::*;

verus! {

/// Failure of a read operation.
#[derive(Clone, Copy, Debug, PartialEq, Eq, Structural)]
pub enum CoreError {
    /// A lookup by id yielded no row.
    NotFound,
    /// A fault of the storage layer itself. The in-memory store never raises
    /// this; the storage adapter in front of a real database maps its driver
    /// errors to it.
    Storage,
}

/// Failure of the atomic pairing write.
#[derive(Clone, Copy, Debug, PartialEq, Eq, Structural)]
pub enum PairingError {
    /// A word of the pair was missing or empty; nothing was written.
    Validation,
    /// A storage step of the pairing transaction failed; the whole
    /// transaction was rolled back.
    Storage,
}

} // verus!
