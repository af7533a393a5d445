//! The error type of the library.

use vstd::prelude::*;
use crate::cli::validate::ValidationError;
use crate::merge::VersionMergeError;
use crate::sync;

verus! {

/// What the library answers.
pub type VResult<T> = Result<T, Error>;

/// What the library can fail with.
#[derive(Debug)]
pub enum Error {
    /// Synchronization error
    Sync(sync::Error),
    /// Invalid JSON
    Json,
    /// Invalid Base64
    Base64Decode,
    /// Book version merge error
    BookVersionMergeError(VersionMergeError),
    /// Vault bytes are corrupted
    VaultCorrupted,
    /// Wrong password (the bytes can also be corrupted, but unlikely)
    WrongPassword,
    /// Item already exists, duplicate item names are not allowed
    ItemAlreadyExists(String),
    /// Item doesn't exist
    NoSuchItem(String),
    /// The identifier drawn for a new item is already in the book
    IdCollision,
    /// Name format not allowed
    VaultNameInvalid(ValidationError),
    /// No password set for item
    ItemNoPasswordSet,
    /// Synchronization transfer string not valid
    SynchronizationTransferString,
    /// Synchronization transfer string from another version
    SynchronizationTransferStringVersion(u8, u8),
}

impl From<sync::Error> for Error {
    /// The error that stands for a synchronization error.
    fn from(error: sync::Error) -> (r: Error)
        ensures
            r == Error::Sync(error),
    {
        Error::Sync(error)
    }
}

impl vstd::std_specs::convert::FromSpecImpl<sync::Error> for Error {
    open spec fn obeys_from_spec() -> bool {
        true
    }

    open spec fn from_spec(error: sync::Error) -> Error {
        Error::Sync(error)
    }
}

impl From<VersionMergeError> for Error {
    /// The error that stands for a merge error.
    fn from(error: VersionMergeError) -> (r: Error)
        ensures
            r == Error::BookVersionMergeError(error),
    {
        Error::BookVersionMergeError(error)
    }
}

impl vstd::std_specs::convert::FromSpecImpl<VersionMergeError> for Error {
    open spec fn obeys_from_spec() -> bool {
        true
    }

    open spec fn from_spec(error: VersionMergeError) -> Error {
        Error::BookVersionMergeError(error)
    }
}

} // verus!
