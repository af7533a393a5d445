use std::cell::RefCell;
use std::rc::Rc;
use vpass::book::{Event, EventFrame};
use vpass::sync::providers::filesystem::FileSystem;
use vpass::sync::providers::mock::Mock;
use vpass::sync::{self, SyncProvider, SyncResult, UpdateKey};
use vpass::{Book, Error, Item, ItemId, Password, Timestamp};

fn init() {
    sodiumoxide::init().expect("Sodium init failed");
}

fn ts(secs: i64) -> Timestamp {
    Timestamp { secs, nanos: 0 }
}

type Row = (i64, u32, u8, String, Option<(String, Option<String>, Vec<String>, Vec<String>)>);

fn to_bytes(book: &Book) -> Vec<u8> {
    let created = book.creation_time();
    let rows: Vec<Row> = book
        .events()
        .iter()
        .map(|f| {
            let (kind, id, item) = match &f.event {
                Event::Create(id) => (0u8, id, None),
                Event::Update(id, item) => (1u8, id, Some(item)),
                Event::Remove(id) => (2u8, id, None),
            };
            let item = item.map(|i| {
                (
                    i.name.clone(),
                    i.password.as_ref().map(|p| p.plaintext()),
                    i.tags.clone(),
                    i.notes.clone(),
                )
            });
            (f.time.secs, f.time.nanos, kind, id.as_u128().to_string(), item)
        })
        .collect();
    serde_json::to_vec(&((created.secs, created.nanos), rows)).unwrap()
}

fn from_bytes(bytes: &Vec<u8>) -> Option<Book> {
    let ((secs, nanos), rows): ((i64, u32), Vec<Row>) = serde_json::from_slice(bytes).ok()?;
    let mut events = Vec::new();
    for (s, n, kind, id, item) in rows {
        let id = ItemId::from_u128(id.parse().ok()?);
        let event = match (kind, item) {
            (0, None) => Event::Create(id),
            (1, Some((name, password, tags, notes))) => Event::Update(
                id,
                Item { name, password: password.map(|p| Password::new(&p)), tags, notes },
            ),
            (2, None) => Event::Remove(id),
            _ => return None,
        };
        events.push(EventFrame { time: Timestamp { secs: s, nanos: n }, event });
    }
    Book::from_parts(Timestamp { secs, nanos }, events)
}

/// A remote whose writes fail.
struct ReadOnly(Mock);

impl SyncProvider for ReadOnly {
    fn ping(&mut self) -> SyncResult<()> {
        self.0.ping()
    }

    fn test(&mut self) -> SyncResult<()> {
        self.0.test()
    }

    fn create(&mut self, _: &str, _: Vec<u8>) -> SyncResult<()> {
        Err(sync::Error::Io("read only".to_owned()))
    }

    fn update(&mut self, _: &str, _: Vec<u8>, _: UpdateKey) -> SyncResult<()> {
        Err(sync::Error::Io("read only".to_owned()))
    }

    fn read(&mut self, key: &str) -> SyncResult<(Vec<u8>, UpdateKey)> {
        self.0.read(key)
    }

    fn delete(&mut self, _: &str) -> SyncResult<()> {
        Err(sync::Error::Io("read only".to_owned()))
    }
}

#[test]
fn test_codec_round_trips() {
    let mut book = Book::new();
    let mut item = Item::new("a");
    item.password = Some(Password::new("pw"));
    item.tags = vec!["t".to_owned()];
    item.notes = vec!["n".to_owned()];
    book.add(item).unwrap();
    book.remove("a").unwrap();
    assert!(from_bytes(&to_bytes(&book)).unwrap().same(&book));
}

#[test]
fn mock_stores_and_reads() {
    let mut mock = Mock::load();
    assert!(matches!(mock.read("k"), Err(sync::Error::NoSuchKey(k)) if k == "k"));
    assert!(mock.ping().is_ok());
    assert!(mock.test().is_ok());
    mock.create("k", vec![1, 2, 3]).unwrap();
    let (data, key) = mock.read("k").unwrap();
    assert_eq!(data, vec![1, 2, 3]);
    assert!(key.same(&UpdateKey::from_byte(3)));
    mock.create("empty", vec![]).unwrap();
    assert!(mock.read("empty").unwrap().1.same(&UpdateKey::from_byte(0)));
    assert_eq!(sync::has_key(&mut mock, "k").unwrap(), true);
    assert_eq!(sync::has_key(&mut mock, "other").unwrap(), false);
    mock.delete("k").unwrap();
    assert!(mock.read("k").is_err());
    assert_eq!(mock.read("empty").unwrap().0, Vec::<u8>::new());
    mock.delete("k").unwrap();
}

#[test]
fn create_refuses_a_key_that_exists() {
    let mut mock = Mock::load();
    mock.create("k", vec![1, 2, 3]).unwrap();
    assert!(matches!(
        mock.create("k", vec![4]),
        Err(sync::Error::KeyAlreadyExists(k)) if k == "k"
    ));
    assert_eq!(mock.read("k").unwrap().0, vec![1, 2, 3]);
    mock.create("other", vec![4]).unwrap();
    assert_eq!(mock.read("other").unwrap().0, vec![4]);
    assert_eq!(mock.read("k").unwrap().0, vec![1, 2, 3]);
    mock.delete("k").unwrap();
    mock.create("k", vec![5]).unwrap();
    assert_eq!(mock.read("k").unwrap().0, vec![5]);
}

#[test]
fn concurrent_update_rejection() {
    let mut mock = Mock::load();
    mock.create("k", vec![1, 2, 3]).unwrap();
    let (_, fresh) = mock.read("k").unwrap();
    let stale = UpdateKey::from_byte(9);
    assert!(matches!(mock.update("k", vec![4], stale), Err(sync::Error::InvalidUpdateKey)));
    assert_eq!(mock.read("k").unwrap().0, vec![1, 2, 3]);
    mock.update("k", vec![4, 5], fresh.clone()).unwrap();
    assert_eq!(mock.read("k").unwrap().0, vec![4, 5]);
    assert!(matches!(mock.update("k", vec![6], fresh), Err(sync::Error::InvalidUpdateKey)));
    assert_eq!(mock.read("k").unwrap().0, vec![4, 5]);
    assert!(matches!(
        mock.update("missing", vec![6], UpdateKey::from_byte(0)),
        Err(sync::Error::NoSuchKey(_))
    ));
}

#[test]
fn update_keys() {
    assert!(UpdateKey::from_bytes(&[1, 2]).same(&UpdateKey::from_bytes(&[1, 2])));
    assert!(!UpdateKey::from_bytes(&[1, 2]).same(&UpdateKey::from_byte(1)));
    assert_eq!(UpdateKey::from_string("abc".to_owned()).to_string(), "abc");
    assert!(UpdateKey::from_string("abc".to_owned()).is_text());
    assert!(UpdateKey::from_string("a".to_owned()).same(&UpdateKey::from_byte(b'a')));
    assert!(!UpdateKey::from_bytes(&[0xff]).is_text());
    assert_eq!(FileSystem::update_key_of(&vec![7, 8]), 7);
    assert_eq!(FileSystem::update_key_of(&vec![]), 0);
}

/// A remote that several holders share.
#[derive(Clone)]
struct Shared(Rc<RefCell<Mock>>);

impl Shared {
    fn new() -> Self {
        Shared(Rc::new(RefCell::new(Mock::load())))
    }

    /// Makes the remote from the configuration text "mock".
    fn loader(&self) -> impl FnOnce(&String) -> Option<Shared> {
        let remote = self.clone();
        move |text: &String| if text == "mock" { Some(remote) } else { None }
    }

    fn stored(&self, key: &str) -> Option<Vec<u8>> {
        self.0.borrow_mut().read(key).ok().map(|(data, _)| data)
    }
}

impl SyncProvider for Shared {
    fn ping(&mut self) -> SyncResult<()> {
        self.0.borrow_mut().ping()
    }

    fn test(&mut self) -> SyncResult<()> {
        self.0.borrow_mut().test()
    }

    fn create(&mut self, key: &str, value: Vec<u8>) -> SyncResult<()> {
        self.0.borrow_mut().create(key, value)
    }

    fn update(&mut self, key: &str, value: Vec<u8>, update_key: UpdateKey) -> SyncResult<()> {
        self.0.borrow_mut().update(key, value, update_key)
    }

    fn read(&mut self, key: &str) -> SyncResult<(Vec<u8>, UpdateKey)> {
        self.0.borrow_mut().read(key)
    }

    fn delete(&mut self, key: &str) -> SyncResult<()> {
        self.0.borrow_mut().delete(key)
    }
}

const CONFIG: &str = "vpass/sync_config.json";

/// A book that names the shared remote as its remote.
fn configured(created: i64) -> Book {
    let mut book = Book::new_at(ts(created));
    let mut item = Item::new(CONFIG);
    item.password = Some(Password::new("mock"));
    book.add_at(item, ItemId::from_u128(99), ts(created)).unwrap();
    book
}

fn unreachable_loader(_: &String) -> Option<Shared> {
    panic!("a book without a configuration has no remote to load")
}

#[test]
fn synchronize_creates_then_merges() {
    init();
    let remote = Shared::new();
    let base = configured(0);
    let mut here = base.clone();
    let mut there = base.clone();
    here.add_at(Item::new("here"), ItemId::from_u128(1), ts(1)).unwrap();
    there.add_at(Item::new("there"), ItemId::from_u128(2), ts(2)).unwrap();

    sync::vault("v", &mut here, "pw", remote.loader(), to_bytes, from_bytes).unwrap();
    assert_eq!(here.item_names(), vec![CONFIG.to_owned(), "here".to_owned()]);
    let stored = sync::download_book(&mut remote.clone(), "v", "pw", from_bytes).unwrap();
    assert!(stored.same(&here));

    // nothing to do where remote and local are the same
    let before = remote.stored("v").unwrap();
    sync::vault("v", &mut here, "pw", remote.loader(), to_bytes, from_bytes).unwrap();
    assert_eq!(remote.stored("v").unwrap(), before);

    sync::vault("v", &mut there, "pw", remote.loader(), to_bytes, from_bytes).unwrap();
    assert_eq!(
        there.item_names(),
        vec![CONFIG.to_owned(), "here".to_owned(), "there".to_owned()]
    );
    let stored = sync::download_book(&mut remote.clone(), "v", "pw", from_bytes).unwrap();
    assert!(stored.same(&there));

    sync::synchronize(&mut remote.clone(), "v", &mut here, "pw", to_bytes, from_bytes).unwrap();
    assert!(here.same(&there));
}

#[test]
fn unconfigured_books_are_skipped() {
    init();
    let remote = Shared::new();
    let mut book = Book::new_at(ts(0));
    book.add_at(Item::new("a"), ItemId::from_u128(1), ts(1)).unwrap();
    let before = book.clone();
    sync::vault("v", &mut book, "pw", unreachable_loader, to_bytes, from_bytes).unwrap();
    assert!(book.same(&before));
    sync::vault_overwrite("v", &book, "pw", unreachable_loader, to_bytes).unwrap();
    sync::create("v", &book, "pw", unreachable_loader, to_bytes).unwrap();
    sync::check_rename("w", &book, unreachable_loader).unwrap();
    sync::delete("v", &book, unreachable_loader).unwrap();
    assert!(sync::load_service(&book, unreachable_loader).unwrap().is_none());
    assert_eq!(remote.stored("v"), None);
}

#[test]
fn a_configuration_that_cannot_be_read_is_an_error() {
    init();
    let remote = Shared::new();
    let mut book = Book::new_at(ts(0));
    let mut item = Item::new(CONFIG);
    item.password = Some(Password::new("something else"));
    book.add_at(item, ItemId::from_u128(99), ts(0)).unwrap();
    assert!(matches!(
        sync::vault("v", &mut book, "pw", remote.loader(), to_bytes, from_bytes),
        Err(Error::Sync(sync::Error::ConfigurationItem))
    ));
    assert!(matches!(
        sync::create("v", &book, "pw", remote.loader(), to_bytes),
        Err(Error::Sync(sync::Error::ConfigurationItem))
    ));

    let mut bare = Book::new_at(ts(0));
    bare.add_at(Item::new(CONFIG), ItemId::from_u128(99), ts(0)).unwrap();
    assert!(matches!(
        sync::delete("v", &bare, remote.loader()),
        Err(Error::Sync(sync::Error::ConfigurationItem))
    ));
    assert_eq!(remote.stored("v"), None);
}

#[test]
fn a_remote_that_fails_its_checks_is_not_used() {
    init();
    struct Down;
    impl SyncProvider for Down {
        fn ping(&mut self) -> SyncResult<()> {
            Err(sync::Error::InvalidCredentials("down".to_owned()))
        }

        fn test(&mut self) -> SyncResult<()> {
            Ok(())
        }

        fn create(&mut self, _: &str, _: Vec<u8>) -> SyncResult<()> {
            panic!("not probed")
        }

        fn update(&mut self, _: &str, _: Vec<u8>, _: UpdateKey) -> SyncResult<()> {
            panic!("not probed")
        }

        fn read(&mut self, _: &str) -> SyncResult<(Vec<u8>, UpdateKey)> {
            panic!("not probed")
        }

        fn delete(&mut self, _: &str) -> SyncResult<()> {
            panic!("not probed")
        }
    }
    let mut book = configured(0);
    let before = book.clone();
    let r = sync::vault("v", &mut book, "pw", |_: &String| Some(Down), to_bytes, from_bytes);
    assert!(matches!(r, Err(Error::Sync(sync::Error::InvalidCredentials(_)))));
    assert!(book.same(&before));
    assert!(matches!(sync::probe(&mut Down), Err(Error::Sync(sync::Error::InvalidCredentials(_)))));
}

#[test]
fn failed_push_leaves_the_local_book_as_it_was() {
    init();
    let shared = Shared::new();
    let base = configured(0);
    let mut there = base.clone();
    there.add_at(Item::new("there"), ItemId::from_u128(2), ts(2)).unwrap();
    sync::create("v", &there, "pw", shared.loader(), to_bytes).unwrap();
    let mut mock = Mock::load();
    mock.create("v", shared.stored("v").unwrap()).unwrap();

    let mut here = base.clone();
    here.add_at(Item::new("here"), ItemId::from_u128(1), ts(1)).unwrap();
    let before = here.clone();
    let r = sync::vault("v", &mut here, "pw", |_: &String| Some(ReadOnly(mock)), to_bytes, from_bytes);
    assert!(matches!(r, Err(Error::Sync(sync::Error::Io(_)))));
    assert!(here.same(&before));
}

#[test]
fn synchronize_with_wrong_password_or_other_origin_fails() {
    init();
    let remote = Shared::new();
    let there = configured(0);
    sync::create("v", &there, "pw", remote.loader(), to_bytes).unwrap();

    let mut here = configured(0);
    here.add_at(Item::new("here"), ItemId::from_u128(1), ts(1)).unwrap();
    let before = here.clone();
    let r = sync::vault("v", &mut here, "other", remote.loader(), to_bytes, from_bytes);
    assert!(matches!(r, Err(Error::WrongPassword)));
    assert!(here.same(&before));

    let mut stranger = configured(5);
    let r = sync::vault("v", &mut stranger, "pw", remote.loader(), to_bytes, from_bytes);
    assert!(matches!(r, Err(Error::BookVersionMergeError(_))));
    assert_eq!(stranger.creation_time(), ts(5));
}

#[test]
fn create_refuses_a_taken_key() {
    init();
    let remote = Shared::new();
    let book = configured(0);
    assert!(sync::check_rename("v", &book, remote.loader()).is_ok());
    sync::create("v", &book, "pw", remote.loader(), to_bytes).unwrap();
    assert!(matches!(
        sync::create("v", &book, "pw", remote.loader(), to_bytes),
        Err(Error::Sync(sync::Error::KeyAlreadyExists(k))) if k == "v"
    ));
    assert!(matches!(
        sync::check_rename("v", &book, remote.loader()),
        Err(Error::Sync(sync::Error::KeyAlreadyExists(_)))
    ));
    assert!(sync::key_free("k", Ok(false)).is_ok());
    assert!(matches!(
        sync::key_free("k", Ok(true)),
        Err(Error::Sync(sync::Error::KeyAlreadyExists(k))) if k == "k"
    ));
    assert!(matches!(
        sync::key_free("k", Err(sync::Error::InvalidRemote)),
        Err(Error::Sync(sync::Error::InvalidRemote))
    ));
    sync::delete("v", &book, remote.loader()).unwrap();
    assert_eq!(remote.stored("v"), None);
    assert!(sync::check_rename("v", &book, remote.loader()).is_ok());
}

#[test]
fn overwrite_pushes_the_local_book() {
    init();
    let remote = Shared::new();
    let mut there = configured(0);
    there.add_at(Item::new("there"), ItemId::from_u128(2), ts(2)).unwrap();
    sync::vault_overwrite("v", &there, "pw", remote.loader(), to_bytes).unwrap();
    let stored = sync::download_book(&mut remote.clone(), "v", "pw", from_bytes).unwrap();
    assert!(stored.same(&there));

    let other = Book::new_at(ts(9));
    sync::synchronize_overwrite(&mut remote.clone(), "v", &other, "new", to_bytes).unwrap();
    let stored = sync::download_book(&mut remote.clone(), "v", "new", from_bytes).unwrap();
    assert!(stored.same(&other));
    assert!(matches!(
        sync::download_book(&mut remote.clone(), "missing", "new", from_bytes),
        Err(Error::Sync(sync::Error::NoSuchKey(_)))
    ));
}

#[test]
fn push_writes_with_the_key_of_its_read_or_creates() {
    let mut mock = Mock::load();
    sync::push_sealed(&mut mock, "k", vec![1, 2, 3]).unwrap();
    assert_eq!(mock.read("k").unwrap().0, vec![1, 2, 3]);
    sync::push_sealed(&mut mock, "k", vec![4, 5]).unwrap();
    assert_eq!(mock.read("k").unwrap().0, vec![4, 5]);
    sync::push_sealed(&mut mock, "other", vec![6]).unwrap();
    assert_eq!(mock.read("k").unwrap().0, vec![4, 5]);
    assert_eq!(mock.read("other").unwrap().0, vec![6]);

    let mut read_only = ReadOnly(mock);
    assert!(matches!(
        sync::push_sealed(&mut read_only, "k", vec![7]),
        Err(Error::Sync(sync::Error::Io(_)))
    ));
    assert!(matches!(
        sync::push_sealed(&mut read_only, "missing", vec![7]),
        Err(Error::Sync(sync::Error::Io(_)))
    ));
    assert_eq!(read_only.read("k").unwrap().0, vec![4, 5]);
}

#[test]
fn reconcile_decides() {
    let base = Book::new_at(ts(0));
    let mut there = base.clone();
    there.add_at(Item::new("there"), ItemId::from_u128(2), ts(2)).unwrap();
    assert!(sync::reconcile(base.clone(), &base).unwrap().is_none());
    let merged = sync::reconcile(there.clone(), &base).unwrap().unwrap();
    assert!(merged.same(&there));
    assert!(sync::reconcile(Book::new_at(ts(1)), &base).is_err());
}
