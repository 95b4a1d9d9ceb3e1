//! The error taxonomy surfaced by the storage core.

use vstd::prelude::*;

verus! {

/// Errors surfaced by the storage core. No operation retries or swallows one.
#[derive(Clone, Debug, PartialEq, Eq)]
pub enum StorageError {
    /// The voyage's database is absent, or its row is missing.
    VoyageNotFound(u128),
    /// A database for this voyage already exists.
    VoyageAlreadyExists(u128),
    /// Ending a voyage that has already ended, or making it active again.
    VoyageAlreadyEnded(u128),
    /// An end recorded before the voyage's creation.
    EndBeforeCreation(u128),
    /// No artifact is stored under the hash.
    ArtifactNotFound(String),
    /// The stored bytes under the hash do not decompress.
    ArtifactCorrupt(String),
    /// The underlying engine refused the operation.
    Database(String),
    /// A filesystem error not attributable to the engine.
    Io(String),
    /// JSON encode or decode at the storage boundary.
    Serialization(String),
    /// zstd could not compress the payload.
    Compression(String),
    /// A stored timestamp does not parse.
    TimeParse(String),
}

} // verus!
