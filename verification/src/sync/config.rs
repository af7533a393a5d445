//! The synchronization configuration of a book: which provider, and what
//! the provider needs to know. It is kept inside the book itself, as the
//! password of a reserved item.

use vstd::prelude::*;
use vstd::slice::slice_subrange;
use vstd::utf8::encode_utf8;
use crate::book::{Book, Item, ItemId, ItemView, Password};
use crate::cli::error::{Error, VResult};
use crate::log::{EventView, appended, appended_item, find_by_name, has_name, is_created, read};
use crate::sync::providers::Provider;
use crate::sync::providers::github;

verus! {

/// The canonical text of the JSON value that bytes hold; nothing where
/// they hold none.
pub uninterp spec fn json_canonical(data: Seq<u8>) -> Option<Seq<char>>;

/// Reads bytes as a JSON value with `serde_json::from_slice` and writes the
/// value out again with `serde_json::to_string`.
#[verifier::external_body]
fn canonical_json(data: &[u8]) -> (r: Option<String>)
    ensures
        match r {
            Some(s) => json_canonical(data@) == Some(s@),
            None => json_canonical(data@) is None,
        },
{
    let value: serde_json::Value = serde_json::from_slice(data).ok()?;
    serde_json::to_string(&value).ok()
}

/// What a provider needs to know, as mathematical values.
pub enum ConfigDataView {
    GitHub(github::ConfigView),
    Json(Seq<char>),
}

/// What a provider needs to know: for the hosted-git provider its own
/// record, for the others a JSON text that only they interpret.
pub enum ConfigData {
    GitHub(github::Config),
    Json(String),
}

impl View for ConfigData {
    type V = ConfigDataView;

    open spec fn view(&self) -> ConfigDataView {
        match self {
            ConfigData::GitHub(c) => ConfigDataView::GitHub(c@),
            ConfigData::Json(t) => ConfigDataView::Json(t@),
        }
    }
}

/// A synchronization configuration, as mathematical values.
pub struct SyncConfigView {
    pub service: Provider,
    pub data: ConfigDataView,
}

/// Which remote a book is synchronized with, and how it is reached.
pub struct SyncConfig {
    /// Provider service
    pub service: Provider,
    /// Per-service persistent configuration data
    pub data: ConfigData,
}

impl View for SyncConfig {
    type V = SyncConfigView;

    open spec fn view(&self) -> SyncConfigView {
        SyncConfigView { service: self.service, data: self.data@ }
    }
}

/// What a provider makes of its data when a configuration is compressed.
/// Nothing where the data does not belong to the provider, cannot be
/// packed, or is no JSON.
pub open spec fn data_compressed(service: Provider, data: ConfigDataView) -> Option<Seq<u8>> {
    match (service, data) {
        (Provider::GitHub, ConfigDataView::GitHub(g)) => if github::packable(g) {
            Some(github::packed(g))
        } else {
            None
        },
        (Provider::GitHub, _) => None,
        (_, ConfigDataView::Json(t)) => match json_canonical(encode_utf8(t)) {
            Some(text) => Some(encode_utf8(text)),
            None => None,
        },
        _ => None,
    }
}

/// The data that a provider reads from its part of a compressed
/// configuration; nothing where the bytes are not what the provider
/// writes.
pub open spec fn data_decompressed(service: Provider, data: Seq<u8>) -> Option<ConfigDataView> {
    match service {
        Provider::GitHub => match github::unpacked(data) {
            Some(g) => Some(ConfigDataView::GitHub(g)),
            None => None,
        },
        _ => match json_canonical(data) {
            Some(t) => Some(ConfigDataView::Json(t)),
            None => None,
        },
    }
}

/// The compressed form of a configuration: the byte of the provider, then
/// what the provider makes of its data. Nothing where the data does not
/// belong to the provider, cannot be packed, or is no JSON.
pub open spec fn compressed(c: SyncConfigView) -> Option<Seq<u8>> {
    match data_compressed(c.service, c.data) {
        Some(b) => Some(seq![c.service.spec_tag()] + b),
        None => None,
    }
}

/// What reading a compressed configuration, or a transfer string, comes to.
pub enum Decoded {
    /// The configuration that was read
    Config(SyncConfigView),
    /// The marker, the metadata, the checksum, the provider or the packed
    /// data is not as it must be
    Invalid,
    /// The string was written by another version
    Version,
    /// The string is no base64
    Base64,
    /// The data is no JSON
    Json,
}

/// What reading a compressed configuration comes to: the first byte says
/// which provider reads the rest.
pub open spec fn decompressed(data: Seq<u8>) -> Decoded {
    if data.len() == 0 {
        Decoded::Invalid
    } else {
        match Provider::spec_from_tag(data[0]) {
            None => Decoded::Invalid,
            Some(service) => match data_decompressed(service, data.skip(1)) {
                Some(d) => Decoded::Config(SyncConfigView { service, data: d }),
                None => if service == Provider::GitHub {
                    Decoded::Invalid
                } else {
                    Decoded::Json
                },
            },
        }
    }
}

/// The configuration is in the form in which its provider writes it: a
/// token in lower case for the hosted-git provider, a JSON text in
/// canonical form for the others.
pub open spec fn canonical(c: SyncConfigView) -> bool {
    match (c.service, c.data) {
        (Provider::GitHub, ConfigDataView::GitHub(g)) => github::canonical(g),
        (Provider::GitHub, _) => false,
        (_, ConfigDataView::Json(t)) => json_canonical(encode_utf8(t)) == Some(t),
        _ => false,
    }
}

/// Transfer codec round trip, inner part: a configuration in canonical
/// form, compressed and read back, is the same configuration.
pub proof fn compress_round_trip(c: SyncConfigView)
    requires
        canonical(c),
    ensures
        compressed(c) is Some,
        decompressed(compressed(c)->0) == Decoded::Config(c),
{
    Provider::tag_round_trip(c.service);
    let bytes = compressed(c)->0;
    match (c.service, c.data) {
        (Provider::GitHub, ConfigDataView::GitHub(g)) => {
            github::packed_round_trip(g, Seq::empty());
            assert(github::packed(g) + Seq::<u8>::empty() =~= github::packed(g));
            assert(bytes.skip(1) =~= github::packed(g));
        },
        (_, ConfigDataView::Json(t)) => {
            assert(bytes.skip(1) =~= encode_utf8(t));
        },
        _ => {},
    }
}

/// Tests whether what a result holds and what a reading comes to agree.
pub open spec fn agrees(r: VResult<SyncConfig>, d: Decoded) -> bool {
    match r {
        Ok(c) => d == Decoded::Config(c@),
        Err(Error::SynchronizationTransferString) => d is Invalid,
        Err(Error::SynchronizationTransferStringVersion(_, _)) => d is Version,
        Err(Error::Base64Decode) => d is Base64,
        Err(Error::Json) => d is Json,
        Err(_) => false,
    }
}

impl Provider {
    /// What the provider makes of its data when a configuration is
    /// compressed: the hosted-git provider packs its record, the others
    /// write their JSON in canonical form.
    pub fn configuration_compress(self, data: &ConfigData) -> (r: Option<Vec<u8>>)
        ensures
            match r {
                Some(b) => data_compressed(self, data@) == Some(b@),
                None => data_compressed(self, data@) is None,
            },
    {
        match (self, data) {
            (Provider::GitHub, ConfigData::GitHub(g)) => g.compress(),
            (Provider::GitHub, _) => None,
            (_, ConfigData::Json(t)) => {
                let text = canonical_json(t.as_str().as_bytes())?;
                Some(vstd::slice::slice_to_vec(text.as_str().as_bytes()))
            },
            _ => None,
        }
    }

    /// Reads the data of the provider from its part of a compressed
    /// configuration. The hosted-git provider rejects bytes that are no
    /// packed record as an invalid transfer string, the others reject
    /// bytes that are no JSON as invalid JSON.
    pub fn configuration_decompress(self, data: &[u8]) -> (r: VResult<ConfigData>)
        ensures
            match r {
                Ok(d) => data_decompressed(self, data@) == Some(d@),
                Err(Error::SynchronizationTransferString) => self == Provider::GitHub
                    && data_decompressed(self, data@) is None,
                Err(Error::Json) => self != Provider::GitHub && data_decompressed(self, data@) is None,
                Err(_) => false,
            },
    {
        match self {
            Provider::GitHub => match github::Config::decompress(data) {
                Some(g) => Ok(ConfigData::GitHub(g)),
                None => Err(Error::SynchronizationTransferString),
            },
            _ => match canonical_json(data) {
                Some(t) => Ok(ConfigData::Json(t)),
                None => Err(Error::Json),
            },
        }
    }
}

impl SyncConfig {
    /// The compressed form of the configuration: the byte of the provider,
    /// then what the provider makes of the data. Nothing where it has none.
    pub fn compress(&self) -> (r: Option<Vec<u8>>)
        ensures
            match r {
                Some(b) => compressed(self@) == Some(b@),
                None => compressed(self@) is None,
            },
    {
        let mut result: Vec<u8> = Vec::new();
        result.push(self.service.tag());
        let mut data = self.service.configuration_compress(&self.data)?;
        result.append(&mut data);
        Some(result)
    }

    /// Reads a compressed configuration: the first byte says which
    /// provider reads the rest.
    pub fn decompress(data: &[u8]) -> (r: VResult<Self>)
        ensures
            agrees(r, decompressed(data@)),
    {
        if data.len() == 0 {
            return Err(Error::SynchronizationTransferString);
        }
        let rest = slice_subrange(data, 1, data.len());
        assert(rest@ =~= data@.skip(1));
        match Provider::from_tag(data[0]) {
            None => Err(Error::SynchronizationTransferString),
            Some(service) => match service.configuration_decompress(rest) {
                Ok(data) => Ok(SyncConfig { service, data }),
                Err(e) => Err(e),
            },
        }
    }
}

/// The name of the item that holds the synchronization configuration.
pub fn item_name_sync_config() -> (r: &'static str)
    ensures
        r@ == "vpass/sync_config.json"@,
{
    "vpass/sync_config.json"
}

/// The name of the item that holds the synchronization configuration.
pub open spec fn config_item() -> Seq<char> {
    "vpass/sync_config.json"@
}

/// Read the stored form of the synchronization configuration from a book:
/// nothing where the book has none, an error where the reserved item
/// holds no password.
pub fn book_read(book: &Book) -> (r: VResult<Option<String>>)
    ensures
        match r {
            Ok(None) => !has_name(book@.events, config_item()),
            Ok(Some(text)) => has_name(book@.events, config_item()) && read(
                book@.events,
                find_by_name(book@.events, config_item())->0,
            )->0.password == Some(text@),
            Err(Error::Sync(crate::sync::Error::ConfigurationItem)) => has_name(
                book@.events,
                config_item(),
            ) && read(book@.events, find_by_name(book@.events, config_item())->0)->0.password is None,
            Err(_) => false,
        },
{
    if !book.has_item(item_name_sync_config()) {
        return Ok(None);
    }
    match book.get_item_by_name(item_name_sync_config()) {
        Ok(item) => match item.password {
            Some(p) => Ok(Some(p.plaintext())),
            None => Err(Error::Sync(crate::sync::Error::ConfigurationItem)),
        },
        Err(_) => Ok(None),
    }
}

/// Remove synchronization configuration from a book. A book without one
/// stays as it is.
pub fn book_remove(book: &mut Book) -> (r: VResult<()>)
    requires
        old(book).wf(),
    ensures
        final(book).wf(),
        final(book)@.created == old(book)@.created,
        r is Ok,
        if has_name(old(book)@.events, config_item()) {
            exists|now: crate::book::Timestamp|
                final(book)@.events == appended(
                    old(book)@.events,
                    now,
                    EventView::Remove(find_by_name(old(book)@.events, config_item())->0),
                )
        } else {
            final(book)@ == old(book)@
        },
{
    // Only error Book::remove can give is a missing item, which is ok here
    let _ = book.remove(item_name_sync_config());
    Ok(())
}

/// Setup synchronization configuration for a book: stores the text under
/// the reserved name. Fails where the book has a configuration already.
pub fn book_setup(book: &mut Book, stored: &str) -> (r: VResult<()>)
    requires
        old(book).wf(),
    ensures
        final(book).wf(),
        final(book)@.created == old(book)@.created,
        match r {
            Ok(_) => !has_name(old(book)@.events, config_item()) && exists|
                now: crate::book::Timestamp,
                id: ItemId,
            |
                !is_created(old(book)@.events, id) && final(book)@.events == appended_item(
                    old(book)@.events,
                    now,
                    id,
                    (ItemView {
                        name: config_item(),
                        password: Some(stored@),
                        tags: Set::empty(),
                        notes: Seq::empty(),
                    }),
                ),
            Err(Error::ItemAlreadyExists(n)) => has_name(old(book)@.events, config_item()) && n@
                == config_item() && final(book)@ == old(book)@,
            Err(_) => false,
        },
{
    let mut item = Item::new(item_name_sync_config());
    item.password = Some(Password::new(stored));
    match book.add(item) {
        Ok(_) => Ok(()),
        Err(e) => Err(e),
    }
}

} // verus!
