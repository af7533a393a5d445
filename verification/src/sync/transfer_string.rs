//! The transfer string: a synchronization configuration as a short text
//! that carries a version and a checksum, for setting up another device.

use vstd::prelude::*;
use vstd::bytes::{
    spec_u16_from_le_bytes, spec_u16_to_le_bytes, u16_from_le_bytes, u16_to_le_bytes,
    lemma_auto_spec_u16_to_from_le_bytes,
};
use vstd::slice::slice_subrange;
use vstd::string::{StrSliceExecFns, StringExecFns};
use crate::cli::error::{Error, VResult};
use crate::sync::config::{
    SyncConfig, Decoded, agrees, canonical, compressed, decompressed, compress_round_trip,
};

verus! {

/// The major version that transfer strings are written with.
pub const VERSION_MAJOR: u8 = 0;

/// The minor version that transfer strings are written with.
pub const VERSION_MINOR: u8 = 1;

/// The base64 text of bytes.
pub uninterp spec fn base64_text(data: Seq<u8>) -> Seq<char>;

/// The bytes that a text is the base64 of; nothing where it is none.
pub uninterp spec fn base64_bytes(text: Seq<char>) -> Option<Seq<u8>>;

/// The X.25 checksum of bytes.
pub uninterp spec fn crc16_x25(data: Seq<u8>) -> u16;

/// Calls `base64::encode`: the text is determined by the bytes, and
/// decodes to the bytes again. (The call panics where the length of the text
/// does not fit a `usize`; no vector is that long.)
#[verifier::external_body]
fn base64_encode(data: &Vec<u8>) -> (r: String)
    ensures
        r@ == base64_text(data@),
        base64_bytes(r@) == Some(data@),
{
    base64::encode(data)
}

/// Calls `base64::decode`: the bytes that the text stands for, nothing
/// where it is no base64.
#[verifier::external_body]
fn base64_decode(text: &str) -> (r: Option<Vec<u8>>)
    ensures
        match r {
            Some(b) => base64_bytes(text@) == Some(b@),
            None => base64_bytes(text@) is None,
        },
{
    base64::decode(text).ok()
}

/// Calls `crc::crc16::checksum_x25`.
#[verifier::external_body]
fn checksum_x25(data: &[u8]) -> (r: u16)
    ensures
        r == crc16_x25(data@),
{
    crc::crc16::checksum_x25(data)
}

/// The marker that every transfer string begins with.
pub fn prefix() -> (r: &'static str)
    ensures
        r@ == marker(),
        r@.len() == 6,
{
    proof {
        reveal_strlit("VPASS_");
    }
    "VPASS_"
}

/// The marker that every transfer string begins with.
pub open spec fn marker() -> Seq<char> {
    "VPASS_"@
}

/// What stands before the payload of a transfer string.
#[derive(Debug, Clone, Copy, PartialEq, Eq, Structural)]
pub struct Metadata {
    pub major: u8,
    pub minor: u8,
    pub crc16: u16,
}

/// What checking a payload against metadata comes to.
pub open spec fn checked(meta: Metadata, data: Seq<u8>) -> Decoded {
    if meta.crc16 != crc16_x25(data) {
        Decoded::Invalid
    } else if meta.major != VERSION_MAJOR || meta.minor != VERSION_MINOR {
        Decoded::Version
    } else {
        decompressed(data)
    }
}

/// The metadata in bytes: major version, minor version, and the checksum
/// with its lower byte first.
pub open spec fn meta_bytes(meta: Metadata) -> Seq<u8> {
    seq![meta.major, meta.minor] + spec_u16_to_le_bytes(meta.crc16)
}

/// The metadata that four bytes hold.
pub open spec fn meta_of(bytes: Seq<u8>) -> Metadata {
    Metadata { major: bytes[0], minor: bytes[1], crc16: spec_u16_from_le_bytes(bytes.subrange(2, 4)) }
}

/// The metadata of this version for a payload.
pub open spec fn fresh_meta(data: Seq<u8>) -> Metadata {
    Metadata { major: VERSION_MAJOR, minor: VERSION_MINOR, crc16: crc16_x25(data) }
}

impl Metadata {
    /// Checks a payload against the metadata: first the checksum, then
    /// the version.
    pub fn check(&self, data: &[u8]) -> (r: VResult<()>)
        ensures
            match r {
                Ok(_) => self.crc16 == crc16_x25(data@) && self.major == VERSION_MAJOR && self.minor
                    == VERSION_MINOR,
                Err(Error::SynchronizationTransferString) => self.crc16 != crc16_x25(data@),
                Err(Error::SynchronizationTransferStringVersion(major, minor)) => self.crc16
                    == crc16_x25(data@) && (self.major != VERSION_MAJOR || self.minor
                    != VERSION_MINOR) && major == VERSION_MAJOR && minor == VERSION_MINOR,
                Err(_) => false,
            },
    {
        let cmp = Self::new(data);
        if cmp.crc16 != self.crc16 {
            Err(Error::SynchronizationTransferString)
        } else if cmp.major != self.major || cmp.minor != self.minor {
            Err(Error::SynchronizationTransferStringVersion(cmp.major, cmp.minor))
        } else {
            Ok(())
        }
    }

    /// The metadata of this version for a payload.
    pub fn new(data: &[u8]) -> (r: Self)
        ensures
            r == fresh_meta(data@),
    {
        Self { major: VERSION_MAJOR, minor: VERSION_MINOR, crc16: checksum_x25(data) }
    }

    /// The metadata in four bytes.
    pub fn to_bytes(&self) -> (r: Vec<u8>)
        ensures
            r@ == meta_bytes(*self),
            r@.len() == 4,
    {
        let mut out: Vec<u8> = Vec::new();
        out.push(self.major);
        out.push(self.minor);
        let mut crc = u16_to_le_bytes(self.crc16);
        out.append(&mut crc);
        assert(out@ =~= meta_bytes(*self));
        out
    }

    /// The metadata that four bytes hold.
    pub fn from_bytes(bytes: &[u8]) -> (r: Self)
        requires
            bytes@.len() == 4,
        ensures
            r == meta_of(bytes@),
    {
        Metadata {
            major: bytes[0],
            minor: bytes[1],
            crc16: u16_from_le_bytes(slice_subrange(bytes, 2, 4)),
        }
    }
}

/// Metadata is read back from its bytes, whatever follows them.
pub proof fn lemma_meta_round_trip(meta: Metadata, rest: Seq<u8>)
    ensures
        meta_bytes(meta).len() == 4,
        meta_of((meta_bytes(meta) + rest).subrange(0, 4)) == meta,
        (meta_bytes(meta) + rest).skip(4) == rest,
{
    lemma_auto_spec_u16_to_from_le_bytes();
    let b = meta_bytes(meta) + rest;
    assert(spec_u16_to_le_bytes(meta.crc16).len() == 2);
    assert(b.subrange(0, 4).subrange(2, 4) =~= spec_u16_to_le_bytes(meta.crc16));
    assert(b.skip(4) =~= rest);
}

/// The transfer string of a payload: the marker, then the base64 of the
/// metadata and the payload.
pub open spec fn encoded(payload: Seq<u8>) -> Seq<char> {
    marker() + base64_text(meta_bytes(fresh_meta(payload)) + payload)
}

/// What reading a transfer string comes to.
pub open spec fn decoded(text: Seq<char>) -> Decoded {
    if text.len() < 6 || text.subrange(0, 6) != marker() {
        Decoded::Invalid
    } else {
        match base64_bytes(text.subrange(6, text.len() as int)) {
            None => Decoded::Base64,
            Some(bytes) => if bytes.len() < 4 {
                Decoded::Invalid
            } else {
                checked(meta_of(bytes.subrange(0, 4)), bytes.skip(4))
            },
        }
    }
}

/// Writes a configuration as a transfer string; nothing where the
/// configuration has no compressed form. A configuration in canonical form
/// is read back from its transfer string.
pub fn encode(c: &SyncConfig) -> (r: Option<String>)
    ensures
        match r {
            Some(s) => compressed(c@) is Some && s@ == encoded(compressed(c@)->0),
            None => compressed(c@) is None,
        },
        canonical(c@) ==> r is Some && decoded(r->0@) == Decoded::Config(c@),
{
    proof {
        if canonical(c@) {
            compress_round_trip(c@);
        }
    }
    let mut data = c.compress()?;
    let ghost payload = data@;
    let meta = Metadata::new(data.as_slice());
    let mut bytes = meta.to_bytes();
    bytes.append(&mut data);
    let text = base64_encode(&bytes);
    let out = String::from_str(prefix()).concat(text.as_str());
    proof {
        lemma_meta_round_trip(meta, payload);
        assert(out@.subrange(0, 6) =~= marker());
        assert(out@.subrange(6, out@.len() as int) =~= text@);
    }
    Some(out)
}

/// Reads a transfer string: rejects a string without the marker or with
/// less than the metadata, a payload that does not match the checksum, a
/// string of another version, and a payload that is no configuration.
pub fn decode(s: &str) -> (r: VResult<SyncConfig>)
    ensures
        agrees(r, decoded(s@)),
        r matches Err(Error::SynchronizationTransferStringVersion(major, minor)) ==> major
            == VERSION_MAJOR && minor == VERSION_MINOR,
{
    let len = s.unicode_len();
    if len < 6 {
        return Err(Error::SynchronizationTransferString);
    }
    let head = String::from_str(s.substring_char(0, 6));
    if head != String::from_str(prefix()) {
        return Err(Error::SynchronizationTransferString);
    }
    let bytes = match base64_decode(s.substring_char(6, len)) {
        Some(b) => b,
        None => {
            return Err(Error::Base64Decode);
        },
    };
    if bytes.len() < 4 {
        return Err(Error::SynchronizationTransferString);
    }
    let meta = Metadata::from_bytes(slice_subrange(bytes.as_slice(), 0, 4));
    let payload = slice_subrange(bytes.as_slice(), 4, bytes.len());
    assert(payload@ =~= bytes@.skip(4));
    match meta.check(payload) {
        Ok(_) => SyncConfig::decompress(payload),
        Err(e) => Err(e),
    }
}

} // verus!
