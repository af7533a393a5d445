//! What can go wrong with a remote.

use vstd::prelude::*;
use crate::book::Timestamp;

verus! {

/// What a remote, or the way to it, can fail with.
#[derive(Debug)]
pub enum Error {
    /// API rate limit reached, try again at
    ApiRateLimit(Timestamp),
    /// Requested key doesn't exist
    NoSuchKey(String),
    /// HTTP connection error, with its message
    Http(String),
    /// HTTP status code implies error; the body of the answer, if it had one
    HttpStatus(u16, Option<String>),
    /// Generic IO error, with its message
    Io(String),
    /// Invalid credentials
    InvalidCredentials(String),
    /// Miscellaneous API error
    Misc(String),
    /// Invalid or missing configuration item
    ConfigurationItem,
    /// Invalid update key was given
    InvalidUpdateKey,
    /// Remote has not been set
    NoRemoteSet,
    /// Remote is not a proper remote of this program
    InvalidRemote,
    /// Remote has insufficient security, e.g. a public repository
    InsufficientSecurity(String),
    /// Key already exists, not overwriting
    KeyAlreadyExists(String),
}

} // verus!
