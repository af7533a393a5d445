//! Which names a vault and an item may have.

use vstd::prelude::*;
use vstd::string::StrSliceExecFns;
use crate::cli::error::{Error, VResult};

verus! {

/// Human readable validation error
#[derive(Debug, Clone, Copy, PartialEq, Eq, Structural)]
pub enum ValidationError {
    Empty,
    InvalidCharacters,
    InvalidPattern,
}

/// The character is an ASCII letter or digit, an underscore or a dot.
pub open spec fn allowed(c: char) -> bool {
    ('0' <= c <= '9') || ('A' <= c <= 'Z') || ('a' <= c <= 'z') || c == '_' || c == '.'
}

/// Two dots stand side by side at position `i`.
pub open spec fn dots_at(name: Seq<char>, i: int) -> bool {
    name[i] == '.' && name[i + 1] == '.'
}

/// What is wrong with a name, if anything: it is empty, holds a character
/// that is not allowed, or holds two dots side by side.
pub open spec fn verdict(name: Seq<char>) -> Option<ValidationError> {
    if name.len() == 0 {
        Some(ValidationError::Empty)
    } else if exists|i: int| 0 <= i < name.len() && !allowed(#[trigger] name[i]) {
        Some(ValidationError::InvalidCharacters)
    } else if exists|i: int| 0 <= i < name.len() - 1 && #[trigger] dots_at(name, i) {
        Some(ValidationError::InvalidPattern)
    } else {
        None
    }
}

/// Tests whether a character is allowed in a name.
pub fn is_allowed(c: char) -> (r: bool)
    ensures
        r == allowed(c),
{
    ('0' <= c && c <= '9') || ('A' <= c && c <= 'Z') || ('a' <= c && c <= 'z') || c == '_' || c
        == '.'
}

/// Validate a name: letters, digits, underscores and dots, at least one
/// character, no adjacent dots.
pub fn validate(name: &str) -> (r: Result<(), ValidationError>)
    ensures
        match r {
            Ok(_) => verdict(name@) is None,
            Err(e) => verdict(name@) == Some(e),
        },
{
    let len = name.unicode_len();
    if len == 0 {
        return Err(ValidationError::Empty);
    }
    let mut i: usize = 0;
    while i < len
        invariant
            i <= len,
            len == name@.len(),
            forall|j: int| 0 <= j < i ==> allowed(#[trigger] name@[j]),
        decreases len - i,
    {
        if !is_allowed(name.get_char(i)) {
            assert(!allowed(name@[i as int]));
            return Err(ValidationError::InvalidCharacters);
        }
        i += 1;
    }
    let mut k: usize = 0;
    while k + 1 < len
        invariant
            k < len,
            len == name@.len(),
            forall|j: int| 0 <= j < len ==> allowed(#[trigger] name@[j]),
            forall|j: int| 0 <= j < k ==> !#[trigger] dots_at(name@, j),
        decreases len - k,
    {
        if name.get_char(k) == '.' && name.get_char(k + 1) == '.' {
            assert(dots_at(name@, k as int));
            return Err(ValidationError::InvalidPattern);
        }
        k += 1;
    }
    Ok(())
}

/// Validate vault name, [a-zA-Z0-9._]+ no adjacent dots
pub fn vault_name(name: &str) -> (r: VResult<()>)
    ensures
        match r {
            Ok(_) => verdict(name@) is None,
            Err(Error::VaultNameInvalid(e)) => verdict(name@) == Some(e),
            Err(_) => false,
        },
{
    match validate(name) {
        Ok(_) => Ok(()),
        Err(e) => Err(Error::VaultNameInvalid(e)),
    }
}

/// Validate item name, [a-zA-Z0-9._]+ no adjacent dots
pub fn item_name(name: &str) -> (r: VResult<()>)
    ensures
        match r {
            Ok(_) => verdict(name@) is None,
            Err(Error::VaultNameInvalid(e)) => verdict(name@) == Some(e),
            Err(_) => false,
        },
{
    match validate(name) {
        Ok(_) => Ok(()),
        Err(e) => Err(Error::VaultNameInvalid(e)),
    }
}

} // verus!
