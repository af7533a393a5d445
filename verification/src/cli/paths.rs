//! How the files of a vault are named.

use vstd::prelude::*;
use vstd::string::StringExecFns;

verus! {

/// The extension of a vault file, with its dot.
pub open spec fn vault_extension() -> Seq<char> {
    ".vpass_vault"@
}

/// The name of the file of a vault, which is also its key on a remote.
pub fn vault_filename(name: &str) -> (r: String)
    ensures
        r@ == name@ + vault_extension(),
{
    String::from_str(name).concat(".vpass_vault")
}

/// The name of the file of the settings inside the data directory.
pub open spec fn config_name() -> Seq<char> {
    "config.json"@
}

/// Where the settings are kept.
#[derive(Debug)]
pub enum ConfigFile {
    /// In the file that was named on the command line
    Given(String),
    /// In the file of this name inside the data directory
    InDataDir(String),
}

/// Where the settings are kept: in the file that the command line names,
/// or else in `config.json` inside the data directory. Not to be asked
/// where the use of settings is switched off.
pub fn config_file(disable_config: bool, config: Option<String>) -> (r: ConfigFile)
    requires
        !disable_config,
    ensures
        match config {
            Some(path) => r matches ConfigFile::Given(p) && p@ == path@,
            None => r matches ConfigFile::InDataDir(name) && name@ == config_name(),
        },
{
    match config {
        Some(path) => ConfigFile::Given(path),
        None => ConfigFile::InDataDir(String::from_str("config.json")),
    }
}

} // verus!
