//! Uses a directory of the file system as a repository. An empty file
//! called `VPassFile` marks the directory as one.

use vstd::prelude::*;

verus! {

/// Where the repository lies.
#[derive(Debug)]
pub struct Config {
    pub path: String,
}

/// A repository in a directory.
#[derive(Debug)]
pub struct FileSystem {
    pub config: Config,
}

/// The update key of stored bytes: their first byte, or 0 where there is none.
pub open spec fn first_byte(data: Seq<u8>) -> u8 {
    if data.len() > 0 {
        data[0]
    } else {
        0
    }
}

impl FileSystem {
    /// The repository that lies at the path.
    pub fn load(config: Config) -> (r: Self)
        ensures
            r.config == config,
    {
        FileSystem { config }
    }

    /// The update key that this provider gives to stored bytes.
    pub fn update_key_of(data: &Vec<u8>) -> (r: u8)
        ensures
            r == first_byte(data@),
    {
        if data.len() > 0 {
            data[0]
        } else {
            0
        }
    }
}

} // verus!
