//! Synchronization abstraction layer: any sync service is a key-value store.

pub mod config;
pub mod error;
pub mod providers;
pub mod transfer_string;

use vstd::prelude::*;
use crate::book::{Book, BookView};
use crate::cli::error::Error as VError;
use crate::cli::error::VResult;
use crate::log::{find_by_name, has_name, read, well_formed, Log};
use crate::sync::config::{book_read, config_item};
use crate::merge::{merged, VersionMergeError};
use crate::vault::{decrypted, parsed};

pub use self::error::Error;

verus! {

/// What a remote answers.
pub type SyncResult<T> = Result<T, Error>;

/// The token that a remote hands out with what it stores under a key, and
/// wants back with the next write.
#[derive(Debug)]
pub struct UpdateKey(Vec<u8>);

impl View for UpdateKey {
    type V = Seq<u8>;

    closed spec fn view(&self) -> Seq<u8> {
        self.0@
    }
}

impl Clone for UpdateKey {
    fn clone(&self) -> (r: Self)
        ensures
            r@ == self@,
    {
        UpdateKey(self.0.clone())
    }
}

impl UpdateKey {
    /// The key that holds the given bytes.
    pub fn from_bytes(bytes: &[u8]) -> (r: Self)
        ensures
            r@ == bytes@,
    {
        Self(vstd::slice::slice_to_vec(bytes))
    }

    /// The key that holds the one byte.
    pub fn from_byte(byte: u8) -> (r: Self)
        ensures
            r@ == seq![byte],
    {
        let mut v: Vec<u8> = Vec::new();
        v.push(byte);
        assert(v@ =~= seq![byte]);
        Self(v)
    }

    /// The key that holds the bytes of a text: `to_string` gives the text
    /// back.
    pub fn from_string(s: String) -> (r: Self)
        ensures
            r@ == vstd::utf8::encode_utf8(s@),
            vstd::utf8::valid_utf8(r@),
            vstd::utf8::decode_utf8(r@) == s@,
    {
        proof {
            vstd::utf8::encode_utf8_valid_utf8(s@);
            vstd::utf8::encode_utf8_decode_utf8(s@);
        }
        Self(vstd::slice::slice_to_vec(s.as_str().as_bytes()))
    }

    /// Tests whether the key holds the bytes of a text.
    pub fn is_text(&self) -> (r: bool)
        ensures
            r == vstd::utf8::valid_utf8(self@),
    {
        crate::sync::providers::github::string_from_utf8(self.0.clone()).is_some()
    }

    /// The text of a key that holds the bytes of one.
    pub fn to_string(&self) -> (r: String)
        requires
            vstd::utf8::valid_utf8(self@),
        ensures
            r@ == vstd::utf8::decode_utf8(self@),
    {
        match crate::sync::providers::github::string_from_utf8(self.0.clone()) {
            Some(s) => s,
            None => vstd::pervasive::unreached(),
        }
    }

    /// Tests whether two keys are the same.
    pub fn same(&self, other: &UpdateKey) -> (r: bool)
        ensures
            r == (self@ == other@),
    {
        crate::vault::same_bytes(&self.0, &other.0)
    }
}

/// A remote: a store of values under keys, which guards every write with
/// the update key that it handed out with the last read.
///
/// The methods carry no contract here: what a remote answers is its own
/// affair. The operations of this module say what they do with a remote
/// over the contract that the remote itself gives to its methods:
/// `call_ensures(P::read, (a, key), x)` says that the remote `a` may
/// answer a read of `key` with `x`, where `*a` is the remote before the
/// call and `*final(a)` the remote after it.
pub trait SyncProvider {
    /// Check access and authentication.
    /// Can also act as a session refresh heartbeat.
    fn ping(&mut self) -> SyncResult<()>;

    /// Run sanity checks on the remote.
    /// Ping is always called successfully before this.
    fn test(&mut self) -> SyncResult<()>;

    /// Create a new key and set value
    fn create(&mut self, key: &str, value: Vec<u8>) -> SyncResult<()>;

    /// Update value to key, overriding the previous value
    fn update(&mut self, key: &str, value: Vec<u8>, update_key: UpdateKey) -> SyncResult<()>;

    /// Read value by key. Also returns UpdateKey to update.
    fn read(&mut self, key: &str) -> SyncResult<(Vec<u8>, UpdateKey)>;

    /// Delete value by key
    fn delete(&mut self, key: &str) -> SyncResult<()>;
}

/// Whether a book went through a synchronization as it was, or is now the
/// reconciliation of some remote version with it.
pub open spec fn kept_or_merged(before: BookView, after: BookView) -> bool {
    after == before || exists|remote: BookView|
        well_formed(remote.events) && remote.created == before.created && #[trigger] merged(
            remote.events,
            before.events,
        ) == after.events && after.created == before.created
}

/// What the answer to a read says of whether the key exists.
pub open spec fn found(x: SyncResult<(Vec<u8>, UpdateKey)>) -> SyncResult<bool> {
    match x {
        Ok(_) => Ok(true),
        Err(Error::NoSuchKey(_)) => Ok(false),
        Err(e) => Err(e),
    }
}

/// Check if key exists: reads the key once; a read that finds no such key
/// says that it does not, and any other error of the read is the answer.
pub fn has_key<P: SyncProvider>(sp: &mut P, key: &str) -> (r: SyncResult<bool>)
    ensures
        exists|a: &mut P, x: SyncResult<(Vec<u8>, UpdateKey)>|
            *a == *old(sp) && *final(a) == *final(sp) && call_ensures(P::read, (a, key), x) && r
                == found(x),
{
    match sp.read(key) {
        Ok(_) => Ok(true),
        Err(Error::NoSuchKey(_)) => Ok(false),
        Err(e) => Err(e),
    }
}

/// The stored configuration of a book that has one: the password of the
/// reserved item.
pub open spec fn config_text(log: Log) -> Option<Seq<char>> {
    read(log, find_by_name(log, config_item())->0)->0.password
}

/// What the answer to "is the key taken" means for someone who wants the
/// key to be free: the key is free, or the error that it exists already,
/// or the error of the remote.
pub open spec fn free(key: Seq<char>, taken: SyncResult<bool>, r: VResult<()>) -> bool {
    match (taken, r) {
        (Ok(false), Ok(_)) => true,
        (Ok(true), Err(VError::Sync(Error::KeyAlreadyExists(k)))) => k@ == key,
        (Err(e), Err(VError::Sync(f))) => e == f,
        _ => false,
    }
}

/// What the answer to "is the key taken" means for someone who wants the
/// key to be free.
pub fn key_free(key: &str, taken: SyncResult<bool>) -> (r: VResult<()>)
    ensures
        free(key@, taken, r),
{
    match taken {
        Ok(false) => Ok(()),
        Ok(true) => Err(VError::Sync(Error::KeyAlreadyExists(key.to_owned()))),
        Err(e) => Err(VError::from(e)),
    }
}

/// What the answer of a remote to a call that returns nothing comes to
/// for the caller: its error is passed on as a synchronization error.
pub open spec fn passed_on(x: SyncResult<()>) -> VResult<()> {
    match x {
        Ok(_) => Ok(()),
        Err(e) => Err(VError::Sync(e)),
    }
}

/// Checks credentials and access, then runs the sanity checks of the
/// remote: the answer is the error of the ping, or else what the test
/// answers. The test is not run where the ping fails.
pub fn probe<P: SyncProvider>(sp: &mut P) -> (r: VResult<()>)
    ensures
        r matches Err(e) ==> e is Sync,
        exists|a: &mut P, ping: SyncResult<()>|
            *a == *old(sp) && call_ensures(P::ping, (a,), ping) && match ping {
                Err(e) => r == Err::<(), VError>(VError::Sync(e)) && *final(a) == *final(sp),
                Ok(_) => exists|b: &mut P, test: SyncResult<()>|
                    *b == *final(a) && *final(b) == *final(sp) && call_ensures(P::test, (b,), test)
                        && r == passed_on(test),
            },
{
    match sp.ping() {
        Ok(_) => {},
        Err(e) => {
            return Err(VError::from(e));
        },
    }
    match sp.test() {
        Ok(_) => Ok(()),
        Err(e) => Err(VError::from(e)),
    }
}

/// The remote that the configuration of a book names, once it has passed
/// the checks. `load` makes the remote from the stored configuration, or
/// nothing where the stored text is no configuration. A book without a
/// configuration has no remote, which is no error; a reserved item
/// without a text, or with a text that is no configuration, is one. The
/// remote is pinged and then tested, and the first error is the answer.
pub fn load_service<P: SyncProvider, L: FnOnce(&String) -> Option<P>>(book: &Book, load: L) -> (r:
    VResult<Option<P>>)
    requires
        forall|text: &String| load.requires((text,)),
    ensures
        r matches Ok(None) <==> !has_name(book@.events, config_item()),
        r matches Err(e) ==> e is Sync,
        has_name(book@.events, config_item()) ==> match config_text(book@.events) {
            None => r == Err::<Option<P>, VError>(VError::Sync(Error::ConfigurationItem)),
            Some(stored) => exists|text: &String, loaded: Option<P>|
                text@ == stored && #[trigger] load.ensures((text,), loaded) && match loaded {
                    None => r == Err::<Option<P>, VError>(VError::Sync(Error::ConfigurationItem)),
                    Some(remote) => exists|a: &mut P, ping: SyncResult<()>|
                        *a == remote && #[trigger] call_ensures(P::ping, (a,), ping) && match ping {
                            Err(e) => r == Err::<Option<P>, VError>(VError::Sync(e)),
                            Ok(_) => exists|b: &mut P, test: SyncResult<()>|
                                *b == *final(a) && #[trigger] call_ensures(P::test, (b,), test)
                                    && match test {
                                    Err(e) => r == Err::<Option<P>, VError>(VError::Sync(e)),
                                    Ok(_) => r == Ok::<Option<P>, VError>(Some(*final(b))),
                                },
                        },
                },
        },
{
    match book_read(book) {
        Ok(None) => Ok(None),
        Ok(Some(text)) => match load(&text) {
            Some(sp) => {
                let mut sp = sp;
                match probe(&mut sp) {
                    Ok(_) => Ok(Some(sp)),
                    Err(e) => Err(e),
                }
            },
            None => Err(VError::Sync(Error::ConfigurationItem)),
        },
        Err(e) => Err(e),
    }
}

/// Check if some other key on the same sync repository is free.
/// Checked before renaming vaults on remote.
/// Unsynchronized books always return Ok. Otherwise the remote is loaded
/// and checked as `load_service` does, the new key is read once, and the
/// answer is what `key_free` makes of that read.
pub fn check_rename<P: SyncProvider, L: FnOnce(&String) -> Option<P>>(
    new_key: &str,
    book: &Book,
    load: L,
) -> (r: VResult<()>)
    requires
        forall|text: &String| load.requires((text,)),
    ensures
        !has_name(book@.events, config_item()) ==> r is Ok,
        r matches Err(e) ==> e is Sync,
        has_name(book@.events, config_item()) ==> match config_text(book@.events) {
            None => r == Err::<(), VError>(VError::Sync(Error::ConfigurationItem)),
            Some(stored) => exists|text: &String, loaded: Option<P>|
                text@ == stored && #[trigger] load.ensures((text,), loaded) && match loaded {
                    None => r == Err::<(), VError>(VError::Sync(Error::ConfigurationItem)),
                    Some(remote) => exists|a: &mut P, ping: SyncResult<()>|
                        *a == remote && #[trigger] call_ensures(P::ping, (a,), ping) && match ping {
                            Err(e) => r == Err::<(), VError>(VError::Sync(e)),
                            Ok(_) => exists|b: &mut P, test: SyncResult<()>|
                                *b == *final(a) && #[trigger] call_ensures(P::test, (b,), test)
                                    && match test {
                                    Err(e) => r == Err::<(), VError>(VError::Sync(e)),
                                    Ok(_) => exists|c: &mut P, x: SyncResult<(Vec<u8>, UpdateKey)>|
                                        *c == *final(b) && #[trigger] call_ensures(
                                            P::read,
                                            (c, new_key),
                                            x,
                                        ) && free(new_key@, found(x), r),
                                },
                        },
                },
        },
{
    match load_service(book, load) {
        Ok(Some(sp)) => {
            let mut sp = sp;
            let taken = has_key(&mut sp, new_key);
            key_free(new_key, taken)
        },
        Ok(None) => Ok(()),
        Err(e) => Err(e),
    }
}

/// Pushes new vault to remote, causes error if it already exists.
/// Unsynchronized books are skipped with Ok. Otherwise the remote is
/// loaded and checked as `load_service` does and the key is read once;
/// where the remote holds nothing under it, what `to_bytes` makes of the
/// book is sealed and created there.
pub fn create<P: SyncProvider, L: FnOnce(&String) -> Option<P>, E: Fn(&Book) -> Vec<u8>>(
    key: &str,
    book: &Book,
    password: &str,
    load: L,
    to_bytes: E,
) -> (r: VResult<()>)
    requires
        forall|text: &String| load.requires((text,)),
        to_bytes.requires((book,)),
    ensures
        !has_name(book@.events, config_item()) ==> r is Ok,
        r matches Err(e) ==> e is Sync,
        has_name(book@.events, config_item()) ==> match config_text(book@.events) {
            None => r == Err::<(), VError>(VError::Sync(Error::ConfigurationItem)),
            Some(stored) => exists|text: &String, loaded: Option<P>|
                text@ == stored && #[trigger] load.ensures((text,), loaded) && match loaded {
                    None => r == Err::<(), VError>(VError::Sync(Error::ConfigurationItem)),
                    Some(remote) => exists|a: &mut P, ping: SyncResult<()>|
                        *a == remote && #[trigger] call_ensures(P::ping, (a,), ping) && match ping {
                            Err(e) => r == Err::<(), VError>(VError::Sync(e)),
                            Ok(_) => exists|b: &mut P, test: SyncResult<()>|
                                *b == *final(a) && #[trigger] call_ensures(P::test, (b,), test)
                                    && match test {
                                    Err(e) => r == Err::<(), VError>(VError::Sync(e)),
                                    Ok(_) => exists|c: &mut P, x: SyncResult<(Vec<u8>, UpdateKey)>|
                                        *c == *final(b) && #[trigger] call_ensures(
                                            P::read,
                                            (c, key),
                                            x,
                                        ) && match x {
                                            Err(Error::NoSuchKey(_)) => exists|
                                                content: Vec<u8>,
                                                data: Vec<u8>,
                                                d: &mut P,
                                                w: SyncResult<()>,
                                            |
                                                #[trigger] to_bytes.ensures((book,), content)
                                                    && #[trigger] opens_to(
                                                    data@,
                                                    password@,
                                                    content@,
                                                ) && *d == *final(c) && #[trigger] call_ensures(
                                                    P::create,
                                                    (d, key, data),
                                                    w,
                                                ) && r == passed_on(w),
                                            _ => free(key@, found(x), r),
                                        },
                                },
                        },
                },
        },
{
    match load_service(book, load) {
        Ok(Some(sp)) => {
            let mut sp = sp;
            let taken = has_key(&mut sp, key);
            match key_free(key, taken) {
                Ok(_) => {},
                Err(e) => {
                    return Err(e);
                },
            }
            let content = to_bytes(book);
            let ghost plain = content;
            let data = match crate::encrypt(password, content) {
                Ok(d) => d,
                Err(e) => {
                    return Err(e);
                },
            };
            assert(to_bytes.ensures((book,), plain) && opens_to(data@, password@, plain@));
            match sp.create(key, data) {
                Ok(_) => Ok(()),
                Err(e) => Err(VError::from(e)),
            }
        },
        Ok(None) => Ok(()),
        Err(e) => Err(e),
    }
}

/// The bytes are a stored vault that opens to the content under the
/// password.
pub open spec fn opens_to(data: Seq<u8>, password: Seq<char>, content: Seq<u8>) -> bool {
    parsed(data) is Some && decrypted(parsed(data)->0, password) == Some(content)
}

/// What opening stored bytes fails with: bytes that are no stored vault
/// are corrupted; a vault that does not open under the key of the password
/// has the wrong password.
pub open spec fn refused(data: Seq<u8>, password: Seq<char>, e: VError) -> bool {
    match e {
        VError::VaultCorrupted => parsed(data) is None,
        VError::WrongPassword => parsed(data) is Some && decrypted(parsed(data)->0, password) is None,
        _ => false,
    }
}

/// What reading a book from stored bytes comes to: the book that
/// `from_bytes` makes of the content of the vault; the error that the vault
/// is corrupted where `from_bytes` makes none; or what opening the bytes
/// fails with.
pub open spec fn book_of<D: Fn(&Vec<u8>) -> Option<Book>>(
    data: Seq<u8>,
    password: Seq<char>,
    from_bytes: D,
    r: VResult<Book>,
) -> bool {
    match r {
        Ok(book) => exists|content: &Vec<u8>|
            opens_to(data, password, content@) && #[trigger] from_bytes.ensures(
                (content,),
                Some(book),
            ),
        Err(e) => refused(data, password, e) || (e is VaultCorrupted && exists|content: &Vec<u8>|
            opens_to(data, password, content@) && #[trigger] from_bytes.ensures(
                (content,),
                None::<Book>,
            )),
    }
}

/// Downloads a book from remote: checks the remote, reads what it holds
/// under the key, opens it with the password and makes a book of the
/// content. The error of the first step that fails is the answer.
pub fn download_book<P: SyncProvider, D: Fn(&Vec<u8>) -> Option<Book>>(
    sp: &mut P,
    key: &str,
    password: &str,
    from_bytes: D,
) -> (r: VResult<Book>)
    requires
        forall|d: &Vec<u8>| from_bytes.requires((d,)),
        forall|d: &Vec<u8>, out: Option<Book>| from_bytes.ensures((d,), out) && out is Some ==> out->0.wf(),
    ensures
        r matches Ok(book) ==> book.wf(),
        exists|a: &mut P, ping: SyncResult<()>|
            *a == *old(sp) && call_ensures(P::ping, (a,), ping) && match ping {
                Err(e) => r == Err::<Book, VError>(VError::Sync(e)) && *final(a) == *final(sp),
                Ok(_) => exists|b: &mut P, test: SyncResult<()>|
                    *b == *final(a) && call_ensures(P::test, (b,), test) && match test {
                        Err(e) => r == Err::<Book, VError>(VError::Sync(e))
                            && *final(b) == *final(sp),
                        Ok(_) => exists|c: &mut P, x: SyncResult<(Vec<u8>, UpdateKey)>|
                            *c == *final(b) && *final(c) == *final(sp) && call_ensures(
                                P::read,
                                (c, key),
                                x,
                            ) && match x {
                                Err(e) => r == Err::<Book, VError>(VError::Sync(e)),
                                Ok((data, _)) => book_of(data@, password@, from_bytes, r),
                            },
                    },
            },
{
    match probe(sp) {
        Ok(_) => {},
        Err(e) => {
            return Err(e);
        },
    }
    let (vault_data, _) = match sp.read(key) {
        Ok(x) => x,
        Err(e) => {
            return Err(VError::from(e));
        },
    };
    let content = match crate::decrypt(vault_data.as_slice(), password) {
        Ok(c) => c,
        Err(e) => {
            return Err(e);
        },
    };
    assert(opens_to(vault_data@, password@, content@));
    match from_bytes(&content) {
        Some(book) => {
            proof {
                let res = Ok::<Book, VError>(book);
                assert(res matches Ok(bk) && bk == book);
                assert(from_bytes.ensures((&content,), Some(book)));
                assert(opens_to(vault_data@, password@, (&content)@));
                assert(book_of(vault_data@, password@, from_bytes, res) == (exists|c: &Vec<u8>|
                    opens_to(vault_data@, password@, c@) && #[trigger] from_bytes.ensures(
                        (c,),
                        Some(book),
                    )));
            }
            Ok(book)
        },
        None => {
            assert(from_bytes.ensures((&content,), None::<Book>));
            assert(book_of(
                vault_data@,
                password@,
                from_bytes,
                Err::<Book, VError>(VError::VaultCorrupted),
            ));
            Err(VError::VaultCorrupted)
        },
    }
}

/// Delete a vault from the remote.
/// Unsynchronized books are skipped with Ok. Otherwise the remote is
/// loaded and checked as `load_service` does, and the answer is what it
/// answers to the deletion of the key.
pub fn delete<P: SyncProvider, L: FnOnce(&String) -> Option<P>>(key: &str, book: &Book, load: L) -> (r:
    VResult<()>)
    requires
        forall|text: &String| load.requires((text,)),
    ensures
        !has_name(book@.events, config_item()) ==> r is Ok,
        r matches Err(e) ==> e is Sync,
        has_name(book@.events, config_item()) ==> match config_text(book@.events) {
            None => r == Err::<(), VError>(VError::Sync(Error::ConfigurationItem)),
            Some(stored) => exists|text: &String, loaded: Option<P>|
                text@ == stored && #[trigger] load.ensures((text,), loaded) && match loaded {
                    None => r == Err::<(), VError>(VError::Sync(Error::ConfigurationItem)),
                    Some(remote) => exists|a: &mut P, ping: SyncResult<()>|
                        *a == remote && #[trigger] call_ensures(P::ping, (a,), ping) && match ping {
                            Err(e) => r == Err::<(), VError>(VError::Sync(e)),
                            Ok(_) => exists|b: &mut P, test: SyncResult<()>|
                                *b == *final(a) && #[trigger] call_ensures(P::test, (b,), test)
                                    && match test {
                                    Err(e) => r == Err::<(), VError>(VError::Sync(e)),
                                    Ok(_) => exists|c: &mut P, w: SyncResult<()>|
                                        *c == *final(b) && #[trigger] call_ensures(
                                            P::delete,
                                            (c, key),
                                            w,
                                        ) && r == passed_on(w),
                                },
                        },
                },
        },
{
    match load_service(book, load) {
        Ok(Some(sp)) => {
            let mut sp = sp;
            match sp.delete(key) {
                Ok(_) => Ok(()),
                Err(e) => Err(VError::from(e)),
            }
        },
        Ok(None) => Ok(()),
        Err(e) => Err(e),
    }
}

/// What reconciling a remote version with the local one comes to: nothing
/// to do where they are the same, else the merged book, or the error
/// that they have different origins.
pub fn reconcile(remote: Book, local: &Book) -> (r: Result<Option<Book>, VersionMergeError>)
    requires
        remote.wf(),
        local.wf(),
    ensures
        match r {
            Ok(None) => remote@ == local@,
            Ok(Some(book)) => remote@ != local@ && remote@.created == local@.created && book.wf()
                && book@ == (BookView {
                created: local@.created,
                events: merged(remote@.events, local@.events),
            }),
            Err(e) => e == VersionMergeError::DifferentOrigins && remote@.created != local@.created,
        },
{
    if remote.same(local) {
        Ok(None)
    } else {
        match remote.merge_versions(local) {
            Ok(book) => Ok(Some(book)),
            Err(e) => Err(e),
        }
    }
}

/// Synchronizes local changes to remote: reads the remote version,
/// reconciles it with the local book, writes the outcome back with the
/// update key of the read, and only then takes the outcome as the local
/// book. Where the remote holds nothing under the key, the local book is
/// created there. A failure leaves the local book as it was, and the
/// error of the first step that fails is the answer.
pub fn synchronize<P: SyncProvider, E: Fn(&Book) -> Vec<u8>, D: Fn(&Vec<u8>) -> Option<Book>>(
    sp: &mut P,
    key: &str,
    book: &mut Book,
    password: &str,
    to_bytes: E,
    from_bytes: D,
) -> (r: VResult<()>)
    requires
        old(book).wf(),
        forall|b: &Book| b.wf() ==> to_bytes.requires((b,)),
        forall|d: &Vec<u8>| from_bytes.requires((d,)),
        forall|d: &Vec<u8>, out: Option<Book>| from_bytes.ensures((d,), out) && out is Some ==> out->0.wf(),
    ensures
        final(book).wf(),
        r is Err ==> final(book)@ == old(book)@,
        r is Ok ==> kept_or_merged(old(book)@, final(book)@),
        exists|a: &mut P, x: SyncResult<(Vec<u8>, UpdateKey)>|
            *a == *old(sp) && #[trigger] call_ensures(P::read, (a, key), x) && match x {
                Ok((stored, update_key)) => exists|opened: VResult<Book>| #[trigger]
                    book_of(stored@, password@, from_bytes, opened) && match opened {
                        Err(e) => r == Err::<(), VError>(e) && *final(a) == *final(sp),
                        Ok(remote) => if remote@ == old(book)@ {
                            r is Ok && final(book)@ == old(book)@ && *final(a) == *final(sp)
                        } else if remote@.created != old(book)@.created {
                            r == Err::<(), VError>(
                                VError::BookVersionMergeError(VersionMergeError::DifferentOrigins),
                            ) && *final(a) == *final(sp)
                        } else {
                            exists|
                                outcome: &Book,
                                content: Vec<u8>,
                                data: Vec<u8>,
                                b: &mut P,
                                w: SyncResult<()>,
                            |
                                outcome@ == (BookView {
                                    created: old(book)@.created,
                                    events: merged(remote@.events, old(book)@.events),
                                }) && #[trigger] to_bytes.ensures((outcome,), content)
                                    && #[trigger] opens_to(data@, password@, content@) && *b
                                    == *final(a) && *final(b) == *final(sp)
                                    && #[trigger] call_ensures(
                                    P::update,
                                    (b, key, data, update_key),
                                    w,
                                ) && r == passed_on(w) && (w is Ok ==> final(book)@ == outcome@)
                        },
                    },
                Err(Error::NoSuchKey(_)) => final(book)@ == old(book)@ && (exists|
                    local: &Book,
                    content: Vec<u8>,
                    data: Vec<u8>,
                    b: &mut P,
                    w: SyncResult<()>,
                |
                    local@ == old(book)@ && #[trigger] to_bytes.ensures((local,), content)
                        && #[trigger] opens_to(data@, password@, content@) && *b == *final(a)
                        && *final(b) == *final(sp) && #[trigger] call_ensures(
                        P::create,
                        (b, key, data),
                        w,
                    ) && r == passed_on(w)),
                Err(e) => r == Err::<(), VError>(VError::Sync(e)) && *final(a) == *final(sp),
            },
{
    match sp.read(key) {
        Ok((old_data, update_key)) => {
            let ghost stored = old_data@;
            let content = match crate::decrypt(old_data.as_slice(), password) {
                Ok(c) => c,
                Err(e) => {
                    assert(book_of(stored, password@, from_bytes, Err::<Book, VError>(e)));
                    return Err(e);
                },
            };
            assert(opens_to(stored, password@, content@));
            let b_old = match from_bytes(&content) {
                Some(b) => b,
                None => {
                    assert(from_bytes.ensures((&content,), None::<Book>));
                    assert(book_of(
                        stored,
                        password@,
                        from_bytes,
                        Err::<Book, VError>(VError::VaultCorrupted),
                    ));
                    return Err(VError::VaultCorrupted);
                },
            };
            let ghost remote = b_old;
            proof {
                let res = Ok::<Book, VError>(b_old);
                assert(res matches Ok(bk) && bk == b_old);
                assert(from_bytes.ensures((&content,), Some(b_old)));
                assert(opens_to(stored, password@, (&content)@));
                assert(book_of(stored, password@, from_bytes, res) == (exists|c: &Vec<u8>|
                    opens_to(stored, password@, c@) && #[trigger] from_bytes.ensures(
                        (c,),
                        Some(b_old),
                    )));
                assert(book_of(stored, password@, from_bytes, res));
            }
            match reconcile(b_old, book) {
                Ok(None) => Ok(()),
                Ok(Some(b_new)) => {
                    // The book is not replaced until the new version is written to
                    // the remote: if the write fails, the local book is as it was.
                    let plain = to_bytes(&b_new);
                    let ghost content = plain;
                    let data = match crate::encrypt(password, plain) {
                        Ok(d) => d,
                        Err(e) => {
                            return Err(e);
                        },
                    };
                    assert(to_bytes.ensures((&b_new,), content) && opens_to(
                        data@,
                        password@,
                        content@,
                    ));
                    match sp.update(key, data, update_key) {
                        Ok(_) => {},
                        Err(e) => {
                            return Err(VError::from(e));
                        },
                    }
                    *book = b_new;
                    assert(merged(remote@.events, old(book)@.events) == book@.events);
                    Ok(())
                },
                Err(e) => Err(VError::from(e)),
            }
        },
        Err(Error::NoSuchKey(_)) => {
            let plain = to_bytes(book);
            let ghost content = plain;
            let data = match crate::encrypt(password, plain) {
                Ok(d) => d,
                Err(e) => {
                    return Err(e);
                },
            };
            assert(to_bytes.ensures((&*book,), content) && opens_to(data@, password@, content@));
            match sp.create(key, data) {
                Ok(_) => Ok(()),
                Err(e) => Err(VError::from(e)),
            }
        },
        Err(e) => Err(VError::from(e)),
    }
}

/// Pushes sealed bytes to the remote: reads the key once, then writes
/// the bytes with the update key of that read, or creates them where the
/// remote holds nothing under the key. The answer is that of the write;
/// another error of the read is passed on, and nothing is written then.
pub fn push_sealed<P: SyncProvider>(sp: &mut P, key: &str, data: Vec<u8>) -> (r: VResult<()>)
    ensures
        r matches Err(e) ==> e is Sync,
        exists|a: &mut P, x: SyncResult<(Vec<u8>, UpdateKey)>|
            *a == *old(sp) && #[trigger] call_ensures(P::read, (a, key), x) && match x {
                Ok((_, update_key)) => exists|b: &mut P, w: SyncResult<()>|
                    *b == *final(a) && *final(b) == *final(sp) && #[trigger] call_ensures(
                        P::update,
                        (b, key, data, update_key),
                        w,
                    ) && r == passed_on(w),
                Err(Error::NoSuchKey(_)) => exists|b: &mut P, w: SyncResult<()>|
                    *b == *final(a) && *final(b) == *final(sp) && #[trigger] call_ensures(
                        P::create,
                        (b, key, data),
                        w,
                    ) && r == passed_on(w),
                Err(e) => r == Err::<(), VError>(VError::Sync(e)) && *final(a) == *final(sp),
            },
{
    match sp.read(key) {
        Ok((_, update_key)) => match sp.update(key, data, update_key) {
            Ok(_) => Ok(()),
            Err(e) => Err(VError::from(e)),
        },
        Err(Error::NoSuchKey(_)) => match sp.create(key, data) {
            Ok(_) => Ok(()),
            Err(e) => Err(VError::from(e)),
        },
        Err(e) => Err(VError::from(e)),
    }
}

/// Synchronize vault, overwriting the old value: seals what `to_bytes`
/// makes of the local book and pushes the sealed book as `push_sealed`
/// does, without looking at what the remote holds.
pub fn synchronize_overwrite<P: SyncProvider, E: Fn(&Book) -> Vec<u8>>(
    sp: &mut P,
    key: &str,
    book: &Book,
    password: &str,
    to_bytes: E,
) -> (r: VResult<()>)
    requires
        to_bytes.requires((book,)),
    ensures
        r matches Err(e) ==> e is Sync,
        exists|content: Vec<u8>, data: Vec<u8>, a: &mut P, x: SyncResult<(Vec<u8>, UpdateKey)>|
            #[trigger] to_bytes.ensures((book,), content) && #[trigger] opens_to(
                data@,
                password@,
                content@,
            ) && *a == *old(sp) && #[trigger] call_ensures(P::read, (a, key), x) && match x {
                Ok((_, update_key)) => exists|b: &mut P, w: SyncResult<()>|
                    *b == *final(a) && *final(b) == *final(sp) && #[trigger] call_ensures(
                        P::update,
                        (b, key, data, update_key),
                        w,
                    ) && r == passed_on(w),
                Err(Error::NoSuchKey(_)) => exists|b: &mut P, w: SyncResult<()>|
                    *b == *final(a) && *final(b) == *final(sp) && #[trigger] call_ensures(
                        P::create,
                        (b, key, data),
                        w,
                    ) && r == passed_on(w),
                Err(e) => r == Err::<(), VError>(VError::Sync(e)) && *final(a) == *final(sp),
            },
{
    let content = to_bytes(book);
    let ghost plain = content;
    let data = match crate::encrypt(password, content) {
        Ok(d) => d,
        Err(e) => {
            return Err(e);
        },
    };
    assert(to_bytes.ensures((book,), plain) && opens_to(data@, password@, plain@));
    push_sealed(sp, key, data)
}

/// Synchronizes local changes to remote.
/// Unsynchronized books are skipped with Ok. Otherwise the remote is
/// loaded and checked as `load_service` does, and the book is
/// synchronized with it as `synchronize` does.
pub fn vault<
    P: SyncProvider,
    L: FnOnce(&String) -> Option<P>,
    E: Fn(&Book) -> Vec<u8>,
    D: Fn(&Vec<u8>) -> Option<Book>,
>(key: &str, book: &mut Book, password: &str, load: L, to_bytes: E, from_bytes: D) -> (r: VResult<()>)
    requires
        old(book).wf(),
        forall|text: &String| load.requires((text,)),
        forall|b: &Book| b.wf() ==> to_bytes.requires((b,)),
        forall|d: &Vec<u8>| from_bytes.requires((d,)),
        forall|d: &Vec<u8>, out: Option<Book>| from_bytes.ensures((d,), out) && out is Some ==> out->0.wf(),
    ensures
        final(book).wf(),
        !has_name(old(book)@.events, config_item()) ==> r is Ok && final(book)@ == old(book)@,
        r is Err ==> final(book)@ == old(book)@,
        r is Ok ==> kept_or_merged(old(book)@, final(book)@),
        has_name(old(book)@.events, config_item()) ==> match config_text(old(book)@.events) {
            None => r == Err::<(), VError>(VError::Sync(Error::ConfigurationItem)),
            Some(stored) => exists|text: &String, loaded: Option<P>|
                text@ == stored && #[trigger] load.ensures((text,), loaded) && match loaded {
                    None => r == Err::<(), VError>(VError::Sync(Error::ConfigurationItem)),
                    Some(remote) => exists|a: &mut P, ping: SyncResult<()>|
                        *a == remote && #[trigger] call_ensures(P::ping, (a,), ping) && match ping {
                            Err(e) => r == Err::<(), VError>(VError::Sync(e)),
                            Ok(_) => exists|b: &mut P, test: SyncResult<()>|
                                *b == *final(a) && #[trigger] call_ensures(P::test, (b,), test)
                                    && match test {
                                    Err(e) => r == Err::<(), VError>(VError::Sync(e)),
                                    Ok(_) => exists|c: &mut P, x: SyncResult<(Vec<u8>, UpdateKey)>|
                                        *c == *final(b) && #[trigger] call_ensures(
                                            P::read,
                                            (c, key),
                                            x,
                                        ) && match x {
                                            Ok((held, update_key)) => exists|
                                                opened: VResult<Book>,
                                            | #[trigger]
                                                book_of(held@, password@, from_bytes, opened)
                                                    && match opened {
                                                    Err(e) => r == Err::<(), VError>(e),
                                                    Ok(theirs) => if theirs@ == old(book)@ {
                                                        r is Ok && final(book)@ == old(book)@
                                                    } else if theirs@.created != old(book)@.created {
                                                        r == Err::<(), VError>(
                                                            VError::BookVersionMergeError(
                                                                VersionMergeError::DifferentOrigins,
                                                            ),
                                                        )
                                                    } else {
                                                        exists|
                                                            outcome: &Book,
                                                            content: Vec<u8>,
                                                            data: Vec<u8>,
                                                            d: &mut P,
                                                            w: SyncResult<()>,
                                                        |
                                                            outcome@ == (BookView {
                                                                created: old(book)@.created,
                                                                events: merged(
                                                                    theirs@.events,
                                                                    old(book)@.events,
                                                                ),
                                                            }) && #[trigger] to_bytes.ensures(
                                                                (outcome,),
                                                                content,
                                                            ) && #[trigger] opens_to(
                                                                data@,
                                                                password@,
                                                                content@,
                                                            ) && *d == *final(c)
                                                                && #[trigger] call_ensures(
                                                                P::update,
                                                                (d, key, data, update_key),
                                                                w,
                                                            ) && r == passed_on(w) && (w is Ok
                                                                ==> final(book)@ == outcome@)
                                                    },
                                                },
                                            Err(Error::NoSuchKey(_)) => final(book)@ == old(book)@ && (exists|
                                                local: &Book,
                                                content: Vec<u8>,
                                                data: Vec<u8>,
                                                d: &mut P,
                                                w: SyncResult<()>,
                                            |
                                                local@ == old(book)@ && #[trigger] to_bytes.ensures(
                                                    (local,),
                                                    content,
                                                ) && #[trigger] opens_to(
                                                    data@,
                                                    password@,
                                                    content@,
                                                ) && *d == *final(c) && #[trigger] call_ensures(
                                                    P::create,
                                                    (d, key, data),
                                                    w,
                                                ) && r == passed_on(w)),
                                            Err(e) => r == Err::<(), VError>(VError::Sync(e)),
                                        },
                                },
                        },
                },
        },
{
    match load_service(book, load) {
        Ok(Some(sp)) => {
            let mut sp = sp;
            synchronize(&mut sp, key, book, password, to_bytes, from_bytes)
        },
        Ok(None) => Ok(()),
        Err(e) => Err(e),
    }
}

/// Force pushes local changes to remote.
/// Doesn't even check if they have same origin.
/// Unsynchronized books are skipped with Ok. Otherwise the remote is
/// loaded and checked as `load_service` does, and the book is pushed as
/// `synchronize_overwrite` does.
pub fn vault_overwrite<P: SyncProvider, L: FnOnce(&String) -> Option<P>, E: Fn(&Book) -> Vec<u8>>(
    key: &str,
    book: &Book,
    password: &str,
    load: L,
    to_bytes: E,
) -> (r: VResult<()>)
    requires
        forall|text: &String| load.requires((text,)),
        to_bytes.requires((book,)),
    ensures
        !has_name(book@.events, config_item()) ==> r is Ok,
        r matches Err(e) ==> e is Sync,
        has_name(book@.events, config_item()) ==> match config_text(book@.events) {
            None => r == Err::<(), VError>(VError::Sync(Error::ConfigurationItem)),
            Some(stored) => exists|text: &String, loaded: Option<P>|
                text@ == stored && #[trigger] load.ensures((text,), loaded) && match loaded {
                    None => r == Err::<(), VError>(VError::Sync(Error::ConfigurationItem)),
                    Some(remote) => exists|a: &mut P, ping: SyncResult<()>|
                        *a == remote && #[trigger] call_ensures(P::ping, (a,), ping) && match ping {
                            Err(e) => r == Err::<(), VError>(VError::Sync(e)),
                            Ok(_) => exists|b: &mut P, test: SyncResult<()>|
                                *b == *final(a) && #[trigger] call_ensures(P::test, (b,), test)
                                    && match test {
                                    Err(e) => r == Err::<(), VError>(VError::Sync(e)),
                                    Ok(_) => exists|
                                        content: Vec<u8>,
                                        data: Vec<u8>,
                                        c: &mut P,
                                        x: SyncResult<(Vec<u8>, UpdateKey)>,
                                    |
                                        #[trigger] to_bytes.ensures((book,), content)
                                            && #[trigger] opens_to(data@, password@, content@)
                                            && *c == *final(b) && #[trigger] call_ensures(
                                            P::read,
                                            (c, key),
                                            x,
                                        ) && match x {
                                            Ok((_, update_key)) => exists|
                                                d: &mut P,
                                                w: SyncResult<()>,
                                            |
                                                *d == *final(c) && #[trigger] call_ensures(
                                                    P::update,
                                                    (d, key, data, update_key),
                                                    w,
                                                ) && r == passed_on(w),
                                            Err(Error::NoSuchKey(_)) => exists|
                                                d: &mut P,
                                                w: SyncResult<()>,
                                            |
                                                *d == *final(c) && #[trigger] call_ensures(
                                                    P::create,
                                                    (d, key, data),
                                                    w,
                                                ) && r == passed_on(w),
                                            Err(e) => r == Err::<(), VError>(VError::Sync(e)),
                                        },
                                },
                        },
                },
        },
{
    match load_service(book, load) {
        Ok(Some(sp)) => {
            let mut sp = sp;
            synchronize_overwrite(&mut sp, key, book, password, to_bytes)
        },
        Ok(None) => Ok(()),
        Err(e) => Err(e),
    }
}

} // verus!
