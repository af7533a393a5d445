use std::cell::RefCell;
use std::collections::{HashMap, HashSet};
use std::rc::Rc;
use vpass::book::{Event, EventFrame};
use vpass::cli::opt::{OptAdd, OptEdit};
use vpass::cli::paths::vault_filename;
use vpass::cli::validate;
use vpass::sync::config::{book_read, book_setup, ConfigData, SyncConfig};
use vpass::sync::providers::mock::Mock;
use vpass::sync::providers::Provider;
use vpass::sync::{self, transfer_string, SyncProvider, SyncResult, UpdateKey};
use vpass::{Book, Error, Item, ItemId, Password, Timestamp};

type Row = (i64, u32, u8, String, Option<(String, Option<String>, Vec<String>, Vec<String>)>);

fn to_bytes(book: &Book) -> Vec<u8> {
    let created = book.creation_time();
    let rows: Vec<Row> = book
        .events()
        .iter()
        .map(|f| {
            let (kind, id, item) = match &f.event {
                Event::Create(id) => (0u8, id, None),
                Event::Update(id, item) => (1u8, id, Some(item)),
                Event::Remove(id) => (2u8, id, None),
            };
            let item = item.map(|i| {
                (
                    i.name.clone(),
                    i.password.as_ref().map(|p| p.plaintext()),
                    i.tags.clone(),
                    i.notes.clone(),
                )
            });
            (f.time.secs, f.time.nanos, kind, id.as_u128().to_string(), item)
        })
        .collect();
    serde_json::to_vec(&((created.secs, created.nanos), rows)).unwrap()
}

fn from_bytes(bytes: &Vec<u8>) -> Option<Book> {
    let ((secs, nanos), rows): ((i64, u32), Vec<Row>) = serde_json::from_slice(bytes).ok()?;
    let mut events = Vec::new();
    for (s, n, kind, id, item) in rows {
        let id = ItemId::from_u128(id.parse().ok()?);
        let event = match (kind, item) {
            (0, None) => Event::Create(id),
            (1, Some((name, password, tags, notes))) => Event::Update(
                id,
                Item { name, password: password.map(|p| Password::new(&p)), tags, notes },
            ),
            (2, None) => Event::Remove(id),
            _ => return None,
        };
        events.push(EventFrame { time: Timestamp { secs: s, nanos: n }, event });
    }
    Book::from_parts(Timestamp { secs, nanos }, events)
}

/// A remote that several holders share.
#[derive(Clone)]
struct Shared(Rc<RefCell<Mock>>);

impl Shared {
    fn new() -> Self {
        Shared(Rc::new(RefCell::new(Mock::load())))
    }

    fn stored(&self, key: &str) -> Option<Vec<u8>> {
        self.0.borrow_mut().read(key).ok().map(|(data, _)| data)
    }
}

impl SyncProvider for Shared {
    fn ping(&mut self) -> SyncResult<()> {
        self.0.borrow_mut().ping()
    }

    fn test(&mut self) -> SyncResult<()> {
        self.0.borrow_mut().test()
    }

    fn create(&mut self, key: &str, value: Vec<u8>) -> SyncResult<()> {
        self.0.borrow_mut().create(key, value)
    }

    fn update(&mut self, key: &str, value: Vec<u8>, update_key: UpdateKey) -> SyncResult<()> {
        self.0.borrow_mut().update(key, value, update_key)
    }

    fn read(&mut self, key: &str) -> SyncResult<(Vec<u8>, UpdateKey)> {
        self.0.borrow_mut().read(key)
    }

    fn delete(&mut self, key: &str) -> SyncResult<()> {
        self.0.borrow_mut().delete(key)
    }
}


/// The vaults of one user: the stored bytes of each, under its name.
struct Vaults(HashMap<String, Vec<u8>>);

fn init() -> Vaults {
    sodiumoxide::init().expect("Sodium init failed");
    Vaults(HashMap::new())
}

fn read(td: &Vaults, name: &str, password: &str) -> Result<Book, Error> {
    let data = td.0.get(name).expect("no such vault");
    let content = vpass::decrypt(data, password)?;
    Ok(from_bytes(&content).expect("the vault holds no book"))
}

fn write(td: &mut Vaults, name: &str, password: &str, book: &Book) {
    td.0.insert(name.to_owned(), vpass::encrypt(password, to_bytes(book)).unwrap());
}

fn vault_create(td: &mut Vaults, name: &str, password: &str) {
    validate::vault_name(name).unwrap();
    assert!(!td.0.contains_key(name), "the vault exists already");
    write(td, name, password, &Book::new());
}

fn vault_delete(td: &mut Vaults, name: &str) {
    td.0.remove(name).expect("no such vault");
}

fn vault_change_password(td: &mut Vaults, name: &str, old_password: &str, new_password: &str) {
    let book = read(td, name, old_password).unwrap();
    write(td, name, new_password, &book);
}

fn check_password(td: &Vaults, name: &str, password: &str) {
    read(td, name, password).unwrap().item_names();
}

fn add_item(td: &mut Vaults, name: &str, password: &str, item_name: &str, item_password: &str) {
    validate::item_name(item_name).unwrap();
    let mut book = read(td, name, password).unwrap();
    let opt = OptAdd {
        name: item_name.to_owned(),
        tags: vec![],
        notes: vec![],
        password: Some(item_password.to_owned()),
        skip_password: false,
    };
    book.add(opt.item(None)).unwrap();
    write(td, name, password, &book);
}

fn remove_item(td: &mut Vaults, name: &str, password: &str, item_name: &str) {
    let mut book = read(td, name, password).unwrap();
    book.remove(item_name).unwrap();
    write(td, name, password, &book);
}

fn edit() -> OptEdit {
    OptEdit {
        name: String::new(),
        tags: vec![],
        remove_tags: vec![],
        notes: vec![],
        remove_notes: vec![],
        password: None,
        change_password: false,
    }
}

fn edit_item(td: &mut Vaults, name: &str, password: &str, opt: OptEdit) {
    let mut book = read(td, name, password).unwrap();
    book.modify_by_name(&opt.name, |item: &mut Item| opt.apply(item, None)).unwrap();
    write(td, name, password, &book);
}

fn edit_item_change_password(
    td: &mut Vaults,
    name: &str,
    password: &str,
    item_name: &str,
    new_password: &str,
) {
    let opt =
        OptEdit { name: item_name.to_owned(), password: Some(new_password.to_owned()), ..edit() };
    edit_item(td, name, password, opt);
}

fn edit_item_add_tag(td: &mut Vaults, name: &str, password: &str, item_name: &str, tag: &str) {
    let opt = OptEdit { name: item_name.to_owned(), tags: vec![tag.to_owned()], ..edit() };
    edit_item(td, name, password, opt);
}

fn get_item(td: &Vaults, name: &str, password: &str, item_name: &str) -> Item {
    read(td, name, password).unwrap().get_item_by_name(item_name).unwrap()
}

#[test]
fn test_vault_change_password() {
    let mut td = init();
    vault_create(&mut td, "test1", "password");
    vault_change_password(&mut td, "test1", "password", "new_password");
    check_password(&td, "test1", "new_password");
}

#[test]
#[should_panic]
fn test_vault_wrong_password() {
    let mut td = init();
    vault_create(&mut td, "test1", "p1");
    check_password(&td, "test1", "p2");
}

#[test]
fn wrong_password_is_told_from_corruption() {
    let mut td = init();
    vault_create(&mut td, "test1", "p1");
    assert!(matches!(read(&td, "test1", "p2"), Err(Error::WrongPassword)));
    td.0.get_mut("test1").unwrap()[0] ^= 1;
    assert!(matches!(read(&td, "test1", "p1"), Err(Error::VaultCorrupted)));
}

#[test]
fn test_new_item() {
    let mut td = init();
    vault_create(&mut td, "test", "password");
    add_item(&mut td, "test", "password", "item_name", "item_password");
    let item = get_item(&td, "test", "password", "item_name");
    assert_eq!(item.password.unwrap().plaintext(), "item_password");
}

#[test]
fn test_remove_item() {
    let mut td = init();
    vault_create(&mut td, "test", "password");
    add_item(&mut td, "test", "password", "item_name", "item_password");
    remove_item(&mut td, "test", "password", "item_name");
    assert!(!read(&td, "test", "password").unwrap().has_item("item_name"));
}

#[test]
fn test_remove_readd_item() {
    let mut td = init();
    vault_create(&mut td, "test", "password");
    add_item(&mut td, "test", "password", "item_name", "item_password");
    remove_item(&mut td, "test", "password", "item_name");
    add_item(&mut td, "test", "password", "item_name", "item_password2");
    let item = get_item(&td, "test", "password", "item_name");
    assert_eq!(item.password.unwrap().plaintext(), "item_password2");
}

#[test]
fn test_edit_item_password() {
    let mut td = init();
    vault_create(&mut td, "test", "password");
    add_item(&mut td, "test", "password", "item_name", "item_password");
    edit_item_change_password(&mut td, "test", "password", "item_name", "new_password");
    let item = get_item(&td, "test", "password", "item_name");
    assert_eq!(item.password.unwrap().plaintext(), "new_password");
}

#[test]
fn test_edit_item_tags() {
    let mut td = init();
    vault_create(&mut td, "test", "password");
    add_item(&mut td, "test", "password", "item_name", "item_password");
    edit_item_add_tag(&mut td, "test", "password", "item_name", "tag1");
    edit_item_add_tag(&mut td, "test", "password", "item_name", "tag2");
    let item = get_item(&td, "test", "password", "item_name");
    let tags = item.tags.into_iter().collect::<HashSet<_>>();
    let wanted: HashSet<String> = vec!["tag1".to_owned(), "tag2".to_owned()].into_iter().collect();
    assert_eq!(tags, wanted);
}

/// The remote that a stored configuration names: the shared store, where
/// the configuration names the directory that stands for it.
fn loader(remote: &Shared) -> impl FnOnce(&String) -> Option<Shared> {
    let remote = remote.clone();
    move |text: &String| {
        let value: serde_json::Value = serde_json::from_str(text).ok()?;
        if value.get("service")?.as_str()? == "FileSystem"
            && value.get("data")?.get("path")?.as_str()? == "/sync"
        {
            Some(remote)
        } else {
            None
        }
    }
}

fn sync_setup(td: &mut Vaults, name: &str, password: &str, json: &str, remote: &Shared) {
    let mut book = read(td, name, password).unwrap();
    loader(remote)(&json.to_owned()).expect("no such remote").ping().unwrap();
    book_setup(&mut book, json).unwrap();
    write(td, name, password, &book);
}

fn sync_vault(td: &mut Vaults, name: &str, password: &str, remote: &Shared) {
    let mut book = read(td, name, password).unwrap();
    sync::vault(&vault_filename(name), &mut book, password, loader(remote), to_bytes, from_bytes)
        .unwrap();
    write(td, name, password, &book);
}

fn sync_export(td: &Vaults, name: &str, password: &str) -> String {
    let book = read(td, name, password).unwrap();
    let stored = book_read(&book).unwrap().expect("synchronization is not set up");
    let value: serde_json::Value = serde_json::from_str(&stored).unwrap();
    assert_eq!(value["service"], "FileSystem");
    let config = SyncConfig {
        service: Provider::FileSystem,
        data: ConfigData::Json(value["data"].to_string()),
    };
    transfer_string::encode(&config).unwrap()
}

fn vault_import(td: &mut Vaults, name: &str, password: &str, import_string: &str, remote: &Shared) {
    validate::vault_name(name).unwrap();
    let config = transfer_string::decode(import_string).unwrap();
    assert_eq!(config.service, Provider::FileSystem);
    let data = match config.data {
        ConfigData::Json(text) => text,
        ConfigData::GitHub(_) => panic!("not the configuration of a directory"),
    };
    let stored = format!("{{\"service\":\"FileSystem\",\"data\":{}}}", data);
    let mut service = loader(remote)(&stored).expect("no such remote");
    let book =
        sync::download_book(&mut service, &vault_filename(name), password, from_bytes).unwrap();
    write(td, name, password, &book);
}

const SYNC_JSON: &str = "{\"service\":\"FileSystem\",\"data\":{\"path\":\"/sync\"}}";

#[test]
fn test_sync_push() {
    let mut td = init();
    let td_sync = Shared::new();

    vault_create(&mut td, "testvault", "password");
    sync_setup(&mut td, "testvault", "password", SYNC_JSON, &td_sync);

    sync_vault(&mut td, "testvault", "password", &td_sync);

    assert!(td.0.contains_key("testvault"));
    assert!(td_sync.stored("testvault.vpass_vault").is_some());
}

#[test]
fn test_sync_import_data() {
    let mut td = init();
    let td_sync = Shared::new();

    vault_create(&mut td, "testvault", "password");
    sync_setup(&mut td, "testvault", "password", SYNC_JSON, &td_sync);

    add_item(&mut td, "testvault", "password", "testitem", "testpassword");
    sync_vault(&mut td, "testvault", "password", &td_sync);
    let import_string = sync_export(&td, "testvault", "password");
    assert!(import_string.as_bytes().starts_with(b"VPASS_"));
    vault_delete(&mut td, "testvault");

    vault_import(&mut td, "testvault", "password", import_string.trim(), &td_sync);

    let data = get_item(&td, "testvault", "password", "testitem");
    assert_eq!(data.password.map(|p| p.plaintext()).as_deref(), Some("testpassword"));
}
