//! The vault envelope: content sealed under a key that is derived from a
//! password, and the bytes in which a sealed vault is stored.

use vstd::prelude::*;
use vstd::bytes::{
    spec_u32_from_le_bytes, spec_u32_to_le_bytes, spec_u64_from_le_bytes, spec_u64_to_le_bytes,
    u32_from_le_bytes, u32_to_le_bytes, u64_from_le_bytes, u64_to_le_bytes,
    lemma_auto_spec_u32_to_from_le_bytes, lemma_auto_spec_u64_to_from_le_bytes,
};
use vstd::slice::slice_subrange;

verus! {

/// The byte that every stored vault begins with.
pub const MAGIC: u8 = 0xd7;

/// The version of the stored form.
pub const VERSION: u32 = 0;

/// The key that the password hash derives from a password and a salt.
pub uninterp spec fn derived_key(password: Seq<char>, salt: Seq<u8>) -> Seq<u8>;

/// The sealed form of a message under a nonce and a key.
pub uninterp spec fn sealed(message: Seq<u8>, nonce: Seq<u8>, key: Seq<u8>) -> Seq<u8>;

/// The message that sealed bytes open to under a nonce and a key, where
/// they are authentic.
pub uninterp spec fn opened(data: Seq<u8>, nonce: Seq<u8>, key: Seq<u8>) -> Option<Seq<u8>>;

/// The compressed form of bytes.
pub uninterp spec fn gzipped(data: Seq<u8>) -> Seq<u8>;

/// The bytes that a compressed form expands to, where it is one.
pub uninterp spec fn gunzipped(data: Seq<u8>) -> Option<Seq<u8>>;

/// A random salt, as
/// `sodiumoxide::crypto::pwhash::scryptsalsa208sha256::gen_salt` draws it.
/// Nothing is claimed of the value.
#[verifier::external_body]
fn random_salt() -> (r: [u8; 32]) {
    sodiumoxide::crypto::pwhash::scryptsalsa208sha256::gen_salt().0
}

/// A random nonce, as `sodiumoxide::crypto::secretbox::gen_nonce` draws
/// it. Nothing is claimed of the value.
#[verifier::external_body]
fn random_nonce() -> (r: [u8; 24]) {
    sodiumoxide::crypto::secretbox::gen_nonce().0
}

/// Calls `sodiumoxide::crypto::pwhash::scryptsalsa208sha256::derive_key`
/// with the interactive limits: the key is the one that password and salt
/// determine. The call fails where the system refuses it the memory; as
/// with any allocation that fails, the program then ends.
#[verifier::external_body]
fn derive_key(password: &str, salt: &[u8; 32]) -> (r: [u8; 32])
    ensures
        r@ == derived_key(password@, salt@),
{
    let mut key = [0u8; 32];
    let salt = sodiumoxide::crypto::pwhash::scryptsalsa208sha256::Salt(*salt);
    sodiumoxide::crypto::pwhash::scryptsalsa208sha256::derive_key(
        &mut key,
        password.as_bytes(),
        &salt,
        sodiumoxide::crypto::pwhash::scryptsalsa208sha256::OPSLIMIT_INTERACTIVE,
        sodiumoxide::crypto::pwhash::scryptsalsa208sha256::MEMLIMIT_INTERACTIVE,
    ).expect("Key derivation failed");
    key
}

/// Calls `sodiumoxide::crypto::secretbox::seal`: the result is determined
/// by message, nonce and key, and opens to the message under the same
/// nonce and key.
#[verifier::external_body]
fn seal(message: &Vec<u8>, nonce: &[u8; 24], key: &[u8; 32]) -> (r: Vec<u8>)
    ensures
        r@ == sealed(message@, nonce@, key@),
        opened(r@, nonce@, key@) == Some(message@),
{
    let n = sodiumoxide::crypto::secretbox::Nonce(*nonce);
    let k = sodiumoxide::crypto::secretbox::Key(*key);
    sodiumoxide::crypto::secretbox::seal(message, &n, &k)
}

/// Calls `sodiumoxide::crypto::secretbox::open`: the message where the
/// data is authentic under nonce and key, nothing otherwise.
#[verifier::external_body]
fn open(data: &Vec<u8>, nonce: &[u8; 24], key: &[u8; 32]) -> (r: Option<Vec<u8>>)
    ensures
        match r {
            Some(m) => opened(data@, nonce@, key@) == Some(m@),
            None => opened(data@, nonce@, key@) is None,
        },
{
    let n = sodiumoxide::crypto::secretbox::Nonce(*nonce);
    let k = sodiumoxide::crypto::secretbox::Key(*key);
    sodiumoxide::crypto::secretbox::open(data, &n, &k).ok()
}

/// Compresses with `flate2::write::GzEncoder` at the best level, into
/// memory: the result is determined by the data and expands to the data
/// again. The encoder reports an error where its writer does, which a
/// vector never does, or where the compressor refuses its own stream;
/// either is a fault that ends the program.
#[verifier::external_body]
fn gzip(data: &Vec<u8>) -> (r: Vec<u8>)
    ensures
        r@ == gzipped(data@),
        gunzipped(r@) == Some(data@),
{
    let mut e = flate2::write::GzEncoder::new(Vec::new(), flate2::Compression::best());
    std::io::Write::write_all(&mut e, data).expect("Compression failed");
    e.finish().expect("Compression failed")
}

/// Expands with `flate2::read::GzDecoder`: the expanded bytes, or nothing
/// where the data is no compressed form.
#[verifier::external_body]
fn gunzip(data: &Vec<u8>) -> (r: Option<Vec<u8>>)
    ensures
        match r {
            Some(m) => gunzipped(data@) == Some(m@),
            None => gunzipped(data@) is None,
        },
{
    let mut gz = flate2::read::GzDecoder::new(data.as_slice());
    let mut out: Vec<u8> = Vec::new();
    std::io::Read::read_to_end(&mut gz, &mut out).ok()?;
    Some(out)
}

/// What sealed and compressed data holds under a nonce and a key.
pub open spec fn unsealed(data: Seq<u8>, nonce: Seq<u8>, key: Seq<u8>) -> Option<Seq<u8>> {
    match opened(data, nonce, key) {
        Some(z) => gunzipped(z),
        None => None,
    }
}

/// A key and the salt it was derived with, as mathematical values.
pub struct VaultKeyView {
    pub key: Seq<u8>,
    pub salt: Seq<u8>,
}

/// Vault encryption/decryption key+salt from password
pub struct VaultKey {
    key: [u8; 32],
    salt: [u8; 32],
}

impl View for VaultKey {
    type V = VaultKeyView;

    closed spec fn view(&self) -> VaultKeyView {
        VaultKeyView { key: self.key@, salt: self.salt@ }
    }
}

impl VaultKey {
    /// The key of a password under a fresh random salt.
    pub fn new(password: &str) -> (r: VaultKey)
        ensures
            r@.key == derived_key(password@, r@.salt),
            r@.salt.len() == 32,
    {
        VaultKey::reconstruct(password, random_salt())
    }

    /// The key of a password under the given salt.
    pub fn reconstruct(password: &str, salt: [u8; 32]) -> (r: VaultKey)
        ensures
            r@ == (VaultKeyView { key: derived_key(password@, salt@), salt: salt@ }),
    {
        let key = derive_key(password, &salt);
        VaultKey { key, salt }
    }

    /// The salt that the key was derived with.
    pub fn salt(&self) -> (r: [u8; 32])
        ensures
            r@ == self@.salt,
    {
        self.salt
    }
}

/// Content that is to be sealed, or that was.
#[derive(Debug)]
pub struct Vault<T> {
    pub content: T,
}

impl<T> Vault<T> {
    /// The vault that holds the content.
    pub fn new(content: T) -> (r: Self)
        ensures
            r.content == content,
    {
        Self { content }
    }
}

/// A sealed vault, as mathematical values.
#[verifier::ext_equal]
pub struct EncryptedVaultView {
    pub magic: u8,
    pub version: u32,
    pub salt: Seq<u8>,
    pub nonce: Seq<u8>,
    pub data: Seq<u8>,
}

/// The sealed vault of a content under a password, a salt and a nonce.
pub open spec fn envelope(
    content: Seq<u8>,
    password: Seq<char>,
    salt: Seq<u8>,
    nonce: Seq<u8>,
) -> EncryptedVaultView {
    EncryptedVaultView {
        magic: MAGIC,
        version: VERSION,
        salt,
        nonce,
        data: sealed(gzipped(content), nonce, derived_key(password, salt)),
    }
}

/// The content of a sealed vault under a password: nothing where the data
/// is not authentic under the key of the password, or is no compressed form.
pub open spec fn decrypted(vault: EncryptedVaultView, password: Seq<char>) -> Option<Seq<u8>> {
    unsealed(vault.data, vault.nonce, derived_key(password, vault.salt))
}

/// A sealed vault.
#[derive(Debug)]
pub struct EncryptedVault {
    /// Magic byte 0xd7
    magic: u8,
    /// Version, enough space for feature bits if needed in the future
    version: u32,
    /// Salt for the password
    salt: [u8; 32],
    /// Nonce of the sealing
    nonce: [u8; 24],
    /// The actual data as bytes
    data: Vec<u8>,
}

impl View for EncryptedVault {
    type V = EncryptedVaultView;

    closed spec fn view(&self) -> EncryptedVaultView {
        EncryptedVaultView {
            magic: self.magic,
            version: self.version,
            salt: self.salt@,
            nonce: self.nonce@,
            data: self.data@,
        }
    }
}

impl Vault<Vec<u8>> {
    /// Seals the content under a key, with the given nonce: the content is
    /// compressed, the compressed bytes are sealed, and the vault holds
    /// them with the salt of the key and the nonce. The vault opens to the
    /// content under the same key.
    pub fn seal_with_key(&self, key: &VaultKey, nonce: [u8; 24]) -> (r: EncryptedVault)
        ensures
            r.wf(),
            r@ == (EncryptedVaultView {
                magic: MAGIC,
                version: VERSION,
                salt: key@.salt,
                nonce: nonce@,
                data: sealed(gzipped(self.content@), nonce@, key@.key),
            }),
            unsealed(r@.data, r@.nonce, key@.key) == Some(self.content@),
            r@.data.len() <= usize::MAX,
    {
        let compressed = gzip(&self.content);
        let data = seal(&compressed, &nonce, &key.key);
        assert(key.salt@.len() == 32);
        assert(nonce@.len() == 24);
        assert(data@.len() == data.len());
        EncryptedVault { magic: MAGIC, version: VERSION, salt: key.salt, nonce, data }
    }

    /// Seals the content under the key of the password, with the given
    /// salt and nonce. The vault opens to the content under the same
    /// password.
    pub fn encrypt_with(&self, password: &str, salt: [u8; 32], nonce: [u8; 24]) -> (r:
        EncryptedVault)
        ensures
            r@ == envelope(self.content@, password@, salt@, nonce@),
            decrypted(r@, password@) == Some(self.content@),
            r.wf(),
            r@.data.len() <= usize::MAX,
    {
        let key = VaultKey::reconstruct(password, salt);
        self.seal_with_key(&key, nonce)
    }

    /// Seals the content under the key of the password, with a fresh random
    /// salt and a fresh random nonce. The vault opens to the content under
    /// the same password.
    pub fn encrypt(&self, password: &str) -> (r: EncryptedVault)
        ensures
            r@ == envelope(self.content@, password@, r@.salt, r@.nonce),
            decrypted(r@, password@) == Some(self.content@),
            r.wf(),
            r@.data.len() <= usize::MAX,
    {
        self.encrypt_with(password, random_salt(), random_nonce())
    }
}

impl Clone for EncryptedVault {
    fn clone(&self) -> (r: Self)
        ensures
            r@ == self@,
    {
        EncryptedVault {
            magic: self.magic,
            version: self.version,
            salt: self.salt,
            nonce: self.nonce,
            data: self.data.clone(),
        }
    }
}

/// Tests whether two vectors hold the same bytes.
pub fn same_bytes(a: &Vec<u8>, b: &Vec<u8>) -> (r: bool)
    ensures
        r == (a@ == b@),
{
    if a.len() != b.len() {
        return false;
    }
    let mut i: usize = 0;
    while i < a.len()
        invariant
            i <= a.len(),
            a.len() == b.len(),
            forall|j: int| 0 <= j < i ==> a@[j] == b@[j],
        decreases a.len() - i,
    {
        if a[i] != b[i] {
            return false;
        }
        i += 1;
    }
    assert(a@ =~= b@);
    true
}

impl EncryptedVault {
    /// The vault holds the magic byte and the version of this library.
    pub open spec fn wf(&self) -> bool {
        self@.magic == MAGIC && self@.version == VERSION && self@.salt.len() == 32
            && self@.nonce.len() == 24
    }

    /// Opens the vault with a key: the content, or nothing where the data
    /// is not authentic under the key or is no compressed form.
    pub fn decrypt_with_key(&self, key: &VaultKey) -> (r: Option<Vault<Vec<u8>>>)
        ensures
            match r {
                Some(v) => unsealed(self@.data, self@.nonce, key@.key) == Some(v.content@),
                None => unsealed(self@.data, self@.nonce, key@.key) is None,
            },
    {
        let compressed = open(&self.data, &self.nonce, &key.key)?;
        let content = gunzip(&compressed)?;
        Some(Vault { content })
    }

    /// Opens the vault with a password: the content, or nothing where
    /// the data is not authentic under the key of the password or is no
    /// compressed form. A wrong password and corrupted data cannot be told
    /// apart.
    pub fn decrypt(self, password: &str) -> (r: Option<Vault<Vec<u8>>>)
        ensures
            match r {
                Some(v) => decrypted(self@, password@) == Some(v.content@),
                None => decrypted(self@, password@) is None,
            },
    {
        let key = VaultKey::reconstruct(password, self.salt);
        self.decrypt_with_key(&key)
    }

    /// The stored form of the vault.
    pub fn to_bytes(&self) -> (r: Vec<u8>)
        ensures
            r@ == encoded(self@),
    {
        let mut out: Vec<u8> = Vec::new();
        out.push(self.magic);
        let mut version = u32_to_le_bytes(self.version);
        out.append(&mut version);
        let mut salt_len = u64_to_le_bytes(32);
        out.append(&mut salt_len);
        let mut i: usize = 0;
        while i < 32
            invariant
                i <= 32,
                out@ == seq![self.magic] + spec_u32_to_le_bytes(self.version) + spec_u64_to_le_bytes(32)
                    + self.salt@.take(i as int),
            decreases 32 - i,
        {
            out.push(self.salt[i]);
            assert(self.salt@.take(i + 1) =~= self.salt@.take(i as int).push(self.salt@[i as int]));
            i += 1;
        }
        assert(self.salt@.take(32) =~= self.salt@);
        let mut nonce_len = u64_to_le_bytes(24);
        out.append(&mut nonce_len);
        let ghost head = out@;
        let mut j: usize = 0;
        while j < 24
            invariant
                j <= 24,
                out@ == head + self.nonce@.take(j as int),
            decreases 24 - j,
        {
            out.push(self.nonce[j]);
            assert(self.nonce@.take(j + 1) =~= self.nonce@.take(j as int).push(self.nonce@[j as int]));
            j += 1;
        }
        assert(self.nonce@.take(24) =~= self.nonce@);
        let mut data_len = u64_to_le_bytes(self.data.len() as u64);
        out.append(&mut data_len);
        let mut data = self.data.clone();
        out.append(&mut data);
        assert(out@ =~= encoded(self@));
        out
    }

    /// Reads a vault from its stored form. Fails where the bytes are no
    /// stored form, or show another magic byte or version.
    pub fn from_bytes(data: &[u8]) -> (r: Result<Self, ()>)
        ensures
            match r {
                Ok(v) => parsed(data@) == Some(v@) && v.wf(),
                Err(_) => parsed(data@) is None,
            },
    {
        if data.len() < 85 {
            return Err(());
        }
        let magic = data[0];
        let version = u32_from_le_bytes(slice_subrange(data, 1, 5));
        let salt_len = u64_from_le_bytes(slice_subrange(data, 5, 13));
        let nonce_len = u64_from_le_bytes(slice_subrange(data, 45, 53));
        let data_len = u64_from_le_bytes(slice_subrange(data, 77, 85));
        if magic != MAGIC || version != VERSION || salt_len != 32 || nonce_len != 24 {
            return Err(());
        }
        if data_len > (data.len() - 85) as u64 {
            return Err(());
        }
        let mut salt = [0u8; 32];
        let mut i: usize = 0;
        while i < 32
            invariant
                i <= 32,
                data.len() >= 85,
                forall|k: int| 0 <= k < i ==> salt@[k] == data@[13 + k],
            decreases 32 - i,
        {
            salt[i] = data[13 + i];
            i += 1;
        }
        let mut nonce = [0u8; 24];
        let mut j: usize = 0;
        while j < 24
            invariant
                j <= 24,
                data.len() >= 85,
                forall|k: int| 0 <= k < j ==> nonce@[k] == data@[53 + k],
            decreases 24 - j,
        {
            nonce[j] = data[53 + j];
            j += 1;
        }
        let mut body: Vec<u8> = Vec::new();
        let mut k: usize = 0;
        while k < data_len as usize
            invariant
                k <= data_len,
                data_len <= data.len() - 85,
                body@ == data@.subrange(85, 85 + k),
            decreases data_len - k,
        {
            body.push(data[85 + k]);
            assert(data@.subrange(85, 85 + k + 1) =~= data@.subrange(85, 85 + k).push(data@[85 + k]));
            k += 1;
        }
        assert(salt@ =~= data@.subrange(13, 45));
        assert(nonce@ =~= data@.subrange(53, 77));
        Ok(EncryptedVault { magic, version, salt, nonce, data: body })
    }

    /// The salt that the key of the vault was derived with.
    pub fn salt(&self) -> (r: [u8; 32])
        ensures
            r@ == self@.salt,
    {
        self.salt
    }

    /// The nonce that the vault was sealed with.
    pub fn nonce(&self) -> (r: [u8; 24])
        ensures
            r@ == self@.nonce,
    {
        self.nonce
    }

    /// Tests whether two vaults hold the same.
    pub fn same(&self, other: &EncryptedVault) -> (r: bool)
        ensures
            r == (self@ == other@),
    {
        let mut eq = self.magic == other.magic && self.version == other.version;
        let mut i: usize = 0;
        while i < 32
            invariant
                i <= 32,
                eq ==> self.magic == other.magic && self.version == other.version,
                eq ==> forall|k: int| 0 <= k < i ==> self.salt@[k] == other.salt@[k],
                !eq ==> self@ != other@,
            decreases 32 - i,
        {
            if self.salt[i] != other.salt[i] {
                eq = false;
            }
            i += 1;
        }
        let mut j: usize = 0;
        while j < 24
            invariant
                j <= 24,
                eq ==> forall|k: int| 0 <= k < j ==> self.nonce@[k] == other.nonce@[k],
                eq ==> self.magic == other.magic && self.version == other.version,
                eq ==> self.salt@ =~= other.salt@,
                !eq ==> self@ != other@,
            decreases 24 - j,
        {
            if self.nonce[j] != other.nonce[j] {
                eq = false;
            }
            j += 1;
        }
        let r = eq && same_bytes(&self.data, &other.data);
        proof {
            if r {
                assert(self.nonce@ =~= other.nonce@);
                assert(self@ =~= other@);
            }
        }
        r
    }
}

/// The stored form of a sealed vault: the magic byte, the version in four
/// bytes, then salt, nonce and data, each behind its length in eight
/// bytes; all numbers with the lowest byte first.
pub open spec fn encoded(v: EncryptedVaultView) -> Seq<u8> {
    seq![v.magic] + spec_u32_to_le_bytes(v.version) + spec_u64_to_le_bytes(v.salt.len() as u64)
        + v.salt + spec_u64_to_le_bytes(v.nonce.len() as u64) + v.nonce + spec_u64_to_le_bytes(
        v.data.len() as u64,
    ) + v.data
}

/// The sealed vault that bytes are the stored form of. Bytes behind the
/// data do not count.
pub open spec fn parsed(bytes: Seq<u8>) -> Option<EncryptedVaultView> {
    if bytes.len() < 85 || bytes[0] != MAGIC || spec_u32_from_le_bytes(bytes.subrange(1, 5))
        != VERSION || spec_u64_from_le_bytes(bytes.subrange(5, 13)) != 32
        || spec_u64_from_le_bytes(bytes.subrange(45, 53)) != 24 || spec_u64_from_le_bytes(
        bytes.subrange(77, 85),
    ) > bytes.len() - 85 {
        None
    } else {
        Some(
            EncryptedVaultView {
                magic: MAGIC,
                version: VERSION,
                salt: bytes.subrange(13, 45),
                nonce: bytes.subrange(53, 77),
                data: bytes.subrange(85, 85 + spec_u64_from_le_bytes(bytes.subrange(77, 85))),
            },
        )
    }
}

/// Reading the stored form of a vault gives the vault back.
pub proof fn stored_round_trip(v: EncryptedVaultView)
    requires
        v.magic == MAGIC,
        v.version == VERSION,
        v.salt.len() == 32,
        v.nonce.len() == 24,
        v.data.len() <= u64::MAX,
    ensures
        parsed(encoded(v)) == Some(v),
{
    lemma_auto_spec_u32_to_from_le_bytes();
    lemma_auto_spec_u64_to_from_le_bytes();
    let b = encoded(v);
    assert(spec_u32_to_le_bytes(v.version).len() == 4);
    assert(spec_u64_to_le_bytes(32).len() == 8);
    assert(spec_u64_to_le_bytes(24).len() == 8);
    assert(spec_u64_to_le_bytes(v.data.len() as u64).len() == 8);
    assert(b.len() == 85 + v.data.len());
    assert(b.subrange(1, 5) =~= spec_u32_to_le_bytes(v.version));
    assert(b.subrange(5, 13) =~= spec_u64_to_le_bytes(32));
    assert(b.subrange(13, 45) =~= v.salt);
    assert(b.subrange(45, 53) =~= spec_u64_to_le_bytes(24));
    assert(b.subrange(53, 77) =~= v.nonce);
    assert(b.subrange(77, 85) =~= spec_u64_to_le_bytes(v.data.len() as u64));
    assert(b.subrange(85, 85 + v.data.len() as int) =~= v.data);
    assert(b[0] == v.magic);
}

} // verus!
