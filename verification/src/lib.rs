//! A local-first secret manager: an event-sourced book of items, a
//! password-sealed envelope for it, and the rules by which copies of one
//! book are reconciled through a remote key-value store.

pub mod book;
pub mod cli;
pub mod laws;
pub mod log;
pub mod merge;
pub mod sync;
pub mod vault;

use vstd::prelude::*;

pub use book::{Book, Item, ItemId, ItemMetadata, Password, Timestamp};
pub use cli::error::{Error, VResult};
use vault::{EncryptedVault, Vault, decrypted, parsed};

verus! {

/// Decrypt vault bytes to the content of the vault. Fails with
/// `VaultCorrupted` exactly where the bytes are no stored vault, and with
/// `WrongPassword` exactly where the vault does not open under the key of
/// the password: the password is wrong or the data was tampered with, and
/// the two cannot be told apart.
pub fn decrypt(data: &[u8], password: &str) -> (r: VResult<Vec<u8>>)
    ensures
        match r {
            Ok(content) => parsed(data@) is Some && decrypted(parsed(data@)->0, password@) == Some(
                content@,
            ),
            Err(Error::VaultCorrupted) => parsed(data@) is None,
            Err(Error::WrongPassword) => parsed(data@) is Some && decrypted(
                parsed(data@)->0,
                password@,
            ) is None,
            Err(_) => false,
        },
{
    let vault = match EncryptedVault::from_bytes(data) {
        Ok(v) => v,
        Err(_) => {
            return Err(Error::VaultCorrupted);
        },
    };
    match vault.decrypt(password) {
        Some(v) => Ok(v.content),
        None => Err(Error::WrongPassword),
    }
}

/// Encrypt the content of a vault to vault bytes: a stored vault that
/// opens to the content under the same password.
pub fn encrypt(password: &str, content: Vec<u8>) -> (r: VResult<Vec<u8>>)
    ensures
        r matches Ok(bytes) && parsed(bytes@) is Some && decrypted(parsed(bytes@)->0, password@)
            == Some(content@),
{
    let v = Vault::new(content).encrypt(password);
    proof {
        vault::stored_round_trip(v@);
    }
    Ok(v.to_bytes())
}

} // verus!
