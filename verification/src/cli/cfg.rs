//! The settings of the front end.

use vstd::prelude::*;

verus! {

#[derive(Debug)]
pub struct Config {
    pub default_vault: Option<String>,
}

impl Config {
    /// The settings of a fresh installation: no default vault.
    pub fn default() -> (r: Self)
        ensures
            r.default_vault is None,
    {
        Self { default_vault: None }
    }
}

} // verus!
