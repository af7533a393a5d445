//! The providers of remote storage.

pub mod filesystem;
pub mod github;
pub mod mock;

use vstd::prelude::*;

verus! {

/// Which service a book is synchronized with.
#[derive(Debug, Clone, Copy, PartialEq, Eq, Structural, Hash)]
pub enum Provider {
    GitHub,
    FileSystem,
    Mock,
}

impl Provider {
    /// The byte that stands for the provider inside a transfer string.
    pub open spec fn spec_tag(self) -> u8 {
        match self {
            Provider::GitHub => 0,
            Provider::FileSystem => 1,
            Provider::Mock => 2,
        }
    }

    /// The provider that a byte stands for inside a transfer string.
    pub open spec fn spec_from_tag(tag: u8) -> Option<Provider> {
        if tag == 0 {
            Some(Provider::GitHub)
        } else if tag == 1 {
            Some(Provider::FileSystem)
        } else if tag == 2 {
            Some(Provider::Mock)
        } else {
            None
        }
    }

    /// The byte that stands for the provider inside a transfer string.
    pub fn tag(self) -> (r: u8)
        ensures
            r == self.spec_tag(),
    {
        match self {
            Provider::GitHub => 0,
            Provider::FileSystem => 1,
            Provider::Mock => 2,
        }
    }

    /// The provider that a byte stands for inside a transfer string.
    pub fn from_tag(tag: u8) -> (r: Option<Provider>)
        ensures
            r == Provider::spec_from_tag(tag),
    {
        if tag == 0 {
            Some(Provider::GitHub)
        } else if tag == 1 {
            Some(Provider::FileSystem)
        } else if tag == 2 {
            Some(Provider::Mock)
        } else {
            None
        }
    }

    /// Every provider is found again by its byte.
    pub proof fn tag_round_trip(p: Provider)
        ensures
            Provider::spec_from_tag(p.spec_tag()) == Some(p),
    {
    }
}

} // verus!
