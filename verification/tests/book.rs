use std::collections::HashSet;

use vpass::book::{Event, EventFrame};
use vpass::merge::VersionMergeError;
use vpass::{Book, Error, Item, ItemId, Password, Timestamp};

fn ts(secs: i64) -> Timestamp {
    Timestamp { secs, nanos: 0 }
}

fn created_key(meta: &vpass::ItemMetadata) -> (i64, u32) {
    (meta.created.secs, meta.created.nanos)
}

fn names(book: &Book) -> HashSet<String> {
    book.items().iter().map(|item| item.name.clone()).collect()
}

#[test]
fn book_build() {
    let mut book = Book::new();
    book.add(Item::new("Test 1")).unwrap();

    book.modify_by_name("Test 1", |it| {
        it.password = Some(Password::new("SecondPass123"));
    })
    .unwrap();

    let mut item1 = Item::new("Test 2");
    item1.password = Some(Password::new("TestPass456"));
    book.add(item1).unwrap();

    book.add(Item::new("Test 3")).unwrap();

    let mut items = book.items_metadata();
    items.sort_by_key(|(_, meta)| created_key(meta));
    assert_eq!(items.len(), 3);
    assert_eq!(items[0].0.name, "Test 1");
    assert_eq!(items[1].0.name, "Test 2");
    assert_eq!(items[2].0.name, "Test 3");
    assert!(items[0].0.password.is_some());
    assert!(items[1].0.password.is_some());
    assert!(items[2].0.password.is_none());
}

#[test]
fn book_book_build() {
    let mut book = Book::new();
    let id0 = book.add(Item::new("Test 1")).unwrap();

    book.modify(id0, |it| {
        it.password = Some(Password::new("SecondPass123"));
    })
    .unwrap();

    let mut item1 = Item::new("Test 2");
    item1.password = Some(Password::new("TestPass456"));
    book.add(item1).unwrap();

    book.add(Item::new("Test 3")).unwrap();

    let mut items = book.items_metadata();
    items.sort_by_key(|(_, meta)| created_key(meta));
    assert_eq!(items.len(), 3);
    assert_eq!(items[0].0.name, "Test 1");
    assert_eq!(items[1].0.name, "Test 2");
    assert_eq!(items[2].0.name, "Test 3");
    assert!(items[0].0.password.is_some());
    assert!(items[1].0.password.is_some());
    assert!(items[2].0.password.is_none());
}

#[test]
fn book_differ_index() {
    let mut book1 = Book::new();

    assert_eq!(book1.differ_index(&book1), None);

    book1.add(Item::new("Test 1")).unwrap();
    assert_eq!(book1.differ_index(&book1), None);

    let mut book2 = book1.clone();
    book2.add(Item::new("Test 2")).unwrap();
    assert_eq!(book1.differ_index(&book2), Some(2));

    book2.add(Item::new("Test 3")).unwrap();
    assert_eq!(book1.differ_index(&book2), Some(2));

    book2.remove("Test 3").unwrap();
    assert_eq!(book1.differ_index(&book2), Some(2));
}

#[test]
fn book_book_differ_index() {
    let mut book1 = Book::new();

    assert_eq!(book1.differ_index(&book1), None);

    book1.add(Item::new("Test 1")).unwrap();
    assert_eq!(book1.differ_index(&book1), None);

    let mut book2 = book1.clone();
    book2.add(Item::new("Test 2")).unwrap();
    assert_eq!(book1.differ_index(&book2), Some(2));

    let t3 = book2.add(Item::new("Test 3")).unwrap();
    assert_eq!(book1.differ_index(&book2), Some(2));

    book2.remove_id(t3);
    assert_eq!(book1.differ_index(&book2), Some(2));
}

#[test]
fn book_merge_versions() {
    let mut book1 = Book::new();
    let mut book2 = book1.clone();

    book1.add(Item::new("Test 1")).unwrap();
    book1.add(Item::new("Test 2")).unwrap();

    book2.add(Item::new("Test 3")).unwrap();

    let mut book3 = book2.clone();
    book3.add(Item::new("Test 4")).unwrap();

    assert_eq!(book1.item_ids().len(), 2);
    assert_eq!(book2.item_ids().len(), 1);
    assert_eq!(book3.item_ids().len(), 2);

    book3.remove("Test 3").unwrap();

    assert_eq!(book3.item_ids().len(), 1);

    let merged_12 = book1.merge_versions(&book2).unwrap();
    assert_eq!(merged_12.item_ids().len(), 3);

    let merged_123 = merged_12.merge_versions(&book3).unwrap();
    let wanted: HashSet<String> =
        vec!["Test 1".to_owned(), "Test 2".to_owned(), "Test 4".to_owned()].into_iter().collect();
    assert_eq!(names(&merged_123), wanted);

    let merged_1233 = merged_123.clone().merge_versions(&book3).unwrap();
    let mut items_123 = merged_123.items_metadata();
    items_123.sort_by_key(|(_, meta)| created_key(meta));
    let mut items_1233 = merged_1233.items_metadata();
    items_1233.sort_by_key(|(_, meta)| created_key(meta));
    assert_eq!(items_123.len(), items_1233.len());
    for (a, b) in items_123.iter().zip(items_1233.iter()) {
        assert!(a.0.same(&b.0));
        assert_eq!(a.1, b.1);
    }
}

#[test]
fn book_book_merge_versions() {
    let mut book1 = Book::new();
    let mut book2 = book1.clone();

    book1.add(Item::new("Test 1")).unwrap();
    book1.add(Item::new("Test 2")).unwrap();

    let item3 = book2.add(Item::new("Test 3")).unwrap();

    let mut book3 = book2.clone();
    book3.add(Item::new("Test 4")).unwrap();

    assert_eq!(book1.item_ids().len(), 2);
    assert_eq!(book2.item_ids().len(), 1);
    assert_eq!(book3.item_ids().len(), 2);

    book3.remove_id(item3);

    assert_eq!(book3.item_ids().len(), 1);

    let merged_12 = book1.merge_versions(&book2).unwrap();
    assert_eq!(merged_12.item_ids().len(), 3);

    let merged_123 = merged_12.merge_versions(&book3).unwrap();
    let wanted: HashSet<String> =
        vec!["Test 1".to_owned(), "Test 2".to_owned(), "Test 4".to_owned()].into_iter().collect();
    assert_eq!(names(&merged_123), wanted);

    let merged_1233 = merged_123.clone().merge_versions(&book3).unwrap();
    let mut items_123 = merged_123.items_metadata();
    items_123.sort_by_key(|(_, meta)| created_key(meta));
    let mut items_1233 = merged_1233.items_metadata();
    items_1233.sort_by_key(|(_, meta)| created_key(meta));
    assert_eq!(items_123.len(), items_1233.len());
    for (a, b) in items_123.iter().zip(items_1233.iter()) {
        assert!(a.0.same(&b.0));
        assert_eq!(a.1, b.1);
    }
}

#[test]
#[should_panic]
fn book_remove_nonexistent() {
    let mut book = Book::new();
    book.remove("Nonexistent").unwrap();
}

#[test]
fn remove_nonexistent_is_no_such_item() {
    let mut book = Book::new();
    match book.remove("Nonexistent") {
        Err(Error::NoSuchItem(name)) => assert_eq!(name, "Nonexistent"),
        other => panic!("unexpected: {:?}", other),
    }
    assert_eq!(book.events().len(), 0);
}

#[test]
fn add_twice_is_already_exists() {
    let mut book = Book::new_at(ts(1));
    book.add_at(Item::new("a"), ItemId::from_u128(1), ts(2)).unwrap();
    match book.add_at(Item::new("a"), ItemId::from_u128(2), ts(3)) {
        Err(Error::ItemAlreadyExists(name)) => assert_eq!(name, "a"),
        other => panic!("unexpected: {:?}", other),
    }
    assert_eq!(book.events().len(), 2);
}

#[test]
fn add_with_used_identifier_is_collision() {
    let mut book = Book::new_at(ts(1));
    book.add_at(Item::new("a"), ItemId::from_u128(1), ts(2)).unwrap();
    assert!(matches!(
        book.add_at(Item::new("b"), ItemId::from_u128(1), ts(3)),
        Err(Error::IdCollision)
    ));
    assert_eq!(book.events().len(), 2);
}

#[test]
fn add_appends_create_and_update_at_one_time() {
    let mut book = Book::new_at(ts(1));
    let id = book.add_at(Item::new("a"), ItemId::from_u128(7), ts(5)).unwrap();
    assert_eq!(id, ItemId::from_u128(7));
    let events = book.events();
    assert_eq!(events.len(), 2);
    assert_eq!(events[0].time, ts(5));
    assert_eq!(events[1].time, ts(5));
    assert!(matches!(events[0].event, Event::Create(i) if i == id));
    assert!(matches!(&events[1].event, Event::Update(i, item) if *i == id && item.name == "a"));
}

#[test]
fn time_never_steps_back_in_the_log() {
    let mut book = Book::new_at(ts(1));
    let id = book.add_at(Item::new("a"), ItemId::from_u128(1), ts(10)).unwrap();
    book.update_at(id, Item::new("b"), ts(3));
    let events = book.events();
    assert_eq!(events[2].time, ts(10));
    assert_eq!(book.read_item_metadata(id).unwrap().changed, ts(10));
}

#[test]
fn add_remove_readd() {
    let mut book = Book::new_at(ts(0));
    let id0 = book.add_at(Item::new("a"), ItemId::from_u128(10), ts(1)).unwrap();
    book.remove_id_at(id0, ts(2));
    let id1 = book.add_at(Item::new("a"), ItemId::from_u128(11), ts(3)).unwrap();
    assert_ne!(id0, id1);
    let meta = book.read_item_metadata(id1).unwrap();
    assert_eq!(meta.created, ts(3));
    assert_eq!(meta.changed, ts(3));
    assert_eq!(book.item_ids(), vec![id1]);
    assert!(!book.is_live(id0));
    assert_eq!(book.find_id_by_name("a"), Some(id1));
    // what the removed item held is not among the items any more
    let held: Vec<u128> = book.id_items().iter().map(|(id, _)| id.as_u128()).collect();
    assert_eq!(held, vec![11]);
    assert_eq!(book.items().len(), 1);
    assert_eq!(book.items_metadata().len(), 1);
}

#[test]
fn add_remove_readd_with_random_identifiers() {
    let mut book = Book::new();
    let id0 = book.add(Item::new("a")).unwrap();
    book.remove("a").unwrap();
    let id1 = book.add(Item::new("a")).unwrap();
    assert_ne!(id0, id1);
    assert_eq!(book.item_ids(), vec![id1]);
}

#[test]
fn concrete_scenario() {
    let mut book = Book::new();
    let id0 = book.add(Item::new("a")).unwrap();
    let id1 = book.add(Item::new("b")).unwrap();
    book.remove_id(id0);
    let items = book.items();
    assert_eq!(items.len(), 1);
    assert_eq!(items[0].name, "b");
    assert_eq!(book.item_ids(), vec![id1]);
    assert_eq!(book.item_names(), vec!["b".to_owned()]);
    assert_eq!(book.item_count(), 1);
}

#[test]
fn read_gives_latest_update() {
    let mut book = Book::new_at(ts(0));
    let id = book.add_at(Item::new("a"), ItemId::from_u128(1), ts(1)).unwrap();
    let mut changed = Item::new("a");
    changed.notes.push("note".to_owned());
    book.update_at(id, changed, ts(2));
    let item = book.read_item(id).unwrap();
    assert_eq!(item.notes, vec!["note".to_owned()]);
    let meta = book.read_item_metadata(id).unwrap();
    assert_eq!(meta.created, ts(1));
    assert_eq!(meta.changed, ts(2));
    assert!(book.read_item(ItemId::from_u128(99)).is_none());
    assert!(book.read_item_metadata(ItemId::from_u128(99)).is_none());
}

#[test]
fn names_are_looked_up_among_live_items() {
    let mut book = Book::new_at(ts(0));
    book.add_at(Item::new("a"), ItemId::from_u128(1), ts(1)).unwrap();
    assert!(book.has_item("a"));
    assert!(!book.has_item("b"));
    assert!(book.verify_exists("a").is_ok());
    assert!(matches!(book.verify_exists("b"), Err(Error::NoSuchItem(n)) if n == "b"));
    assert!(book.verify_not_exists("b").is_ok());
    assert!(matches!(book.verify_not_exists("a"), Err(Error::ItemAlreadyExists(n)) if n == "a"));
    assert_eq!(book.get_item_by_name("a").unwrap().name, "a");
    assert!(matches!(book.get_item_by_name("b"), Err(Error::NoSuchItem(_))));
    let (item, meta) = book.get_item_and_metadata("a").unwrap();
    assert_eq!(item.name, "a");
    assert_eq!(meta.created, ts(1));
    assert!(matches!(book.get_id_by_name("b"), Err(Error::NoSuchItem(_))));
    book.remove_at("a", ts(2)).unwrap();
    assert!(!book.has_item("a"));
}

#[test]
fn modify_by_name_of_missing_item_is_no_such_item() {
    let mut book = Book::new_at(ts(0));
    let r = book.modify_by_name("a", |item| item.notes.len());
    assert!(matches!(r, Err(Error::NoSuchItem(n)) if n == "a"));
    assert_eq!(book.events().len(), 0);
}

#[test]
fn modify_returns_what_the_closure_returns() {
    let mut book = Book::new_at(ts(0));
    let id = book.add_at(Item::new("a"), ItemId::from_u128(1), ts(1)).unwrap();
    let r = book.modify(id, |item| {
        item.tags.push("t".to_owned());
        17
    });
    assert_eq!(r, Some(17));
    assert_eq!(book.read_item(id).unwrap().tags, vec!["t".to_owned()]);
    assert_eq!(book.modify(ItemId::from_u128(5), |_| 1), None);
}

#[test]
fn tags_are_compared_as_a_set() {
    let mut a = Item::new("x");
    a.tags = vec!["one".to_owned(), "two".to_owned()];
    let mut b = Item::new("x");
    b.tags = vec!["two".to_owned(), "one".to_owned(), "two".to_owned()];
    assert!(a.same(&b));
    b.tags.push("three".to_owned());
    assert!(!a.same(&b));
    let mut c = Item::new("x");
    c.notes = vec!["n".to_owned()];
    assert!(!a.same(&c));
}

#[test]
fn from_parts_checks_the_invariant() {
    let id = ItemId::from_u128(1);
    let good = vec![
        EventFrame { time: ts(1), event: Event::Create(id) },
        EventFrame { time: ts(1), event: Event::Update(id, Item::new("a")) },
    ];
    let book = Book::from_parts(ts(0), good).unwrap();
    assert_eq!(book.item_count(), 1);
    assert_eq!(book.creation_time(), ts(0));

    let dangling = vec![EventFrame { time: ts(1), event: Event::Create(id) }];
    assert!(Book::from_parts(ts(0), dangling).is_none());

    let late_update = vec![
        EventFrame { time: ts(1), event: Event::Create(id) },
        EventFrame { time: ts(2), event: Event::Update(id, Item::new("a")) },
    ];
    assert!(Book::from_parts(ts(0), late_update).is_none());

    let unordered = vec![
        EventFrame { time: ts(2), event: Event::Remove(id) },
        EventFrame { time: ts(1), event: Event::Remove(id) },
    ];
    assert!(Book::from_parts(ts(0), unordered).is_none());

    // the first event of an item is its creation
    let removal_only = vec![EventFrame { time: ts(1), event: Event::Remove(id) }];
    assert!(Book::from_parts(ts(0), removal_only).is_none());
    let update_first = vec![
        EventFrame { time: ts(1), event: Event::Update(id, Item::new("a")) },
        EventFrame { time: ts(1), event: Event::Create(id) },
        EventFrame { time: ts(1), event: Event::Update(id, Item::new("a")) },
    ];
    assert!(Book::from_parts(ts(0), update_first).is_none());
    let other = ItemId::from_u128(2);
    let removed_then_other = vec![
        EventFrame { time: ts(1), event: Event::Create(id) },
        EventFrame { time: ts(1), event: Event::Update(id, Item::new("a")) },
        EventFrame { time: ts(2), event: Event::Remove(id) },
        EventFrame { time: ts(3), event: Event::Update(other, Item::new("b")) },
    ];
    assert!(Book::from_parts(ts(0), removed_then_other).is_none());
    let removed = vec![
        EventFrame { time: ts(1), event: Event::Create(id) },
        EventFrame { time: ts(1), event: Event::Update(id, Item::new("a")) },
        EventFrame { time: ts(2), event: Event::Remove(id) },
    ];
    assert!(Book::from_parts(ts(0), removed).is_some());
}

#[test]
fn re_added_item_has_the_time_of_the_second_add() {
    let mut book = Book::new_at(ts(0));
    let id0 = book.add_at(Item::new("a"), ItemId::from_u128(10), ts(5)).unwrap();
    book.remove_id_at(id0, ts(6));
    // a clock that stepped back: the events bear the time of the last event
    let id1 = book.add_at(Item::new("a"), ItemId::from_u128(11), ts(2)).unwrap();
    let meta = book.read_item_metadata(id1).unwrap();
    assert_eq!(meta.created, ts(6));
    assert_eq!(meta.changed, ts(6));
    let id2 = book.add_at(Item::new("b"), ItemId::from_u128(12), ts(9)).unwrap();
    let meta = book.read_item_metadata(id2).unwrap();
    assert_eq!(meta.created, ts(9));
    assert_eq!(meta.changed, ts(9));
}

#[test]
fn origin_mismatch() {
    let a = Book::new_at(ts(1));
    let b = Book::new_at(ts(2));
    assert!(!a.has_same_origin(&b));
    assert!(a.has_same_origin(&a.clone()));
    assert!(matches!(a.merge_versions(&b), Err(VersionMergeError::DifferentOrigins)));
}

#[test]
fn merge_identity() {
    let mut a = Book::new_at(ts(0));
    a.add_at(Item::new("a"), ItemId::from_u128(1), ts(1)).unwrap();
    a.add_at(Item::new("b"), ItemId::from_u128(2), ts(2)).unwrap();
    let merged = a.clone().merge_versions(&a).unwrap();
    assert!(merged.same(&a));
    assert_eq!(merged.item_ids(), a.item_ids());
}

fn fork() -> (Book, Book) {
    let mut base = Book::new_at(ts(0));
    base.add_at(Item::new("shared"), ItemId::from_u128(1), ts(1)).unwrap();
    let mut a = base.clone();
    let mut b = base.clone();
    a.add_at(Item::new("left"), ItemId::from_u128(2), ts(2)).unwrap();
    b.add_at(Item::new("right"), ItemId::from_u128(3), ts(3)).unwrap();
    a.update_at(ItemId::from_u128(1), Item::new("shared renamed"), ts(4));
    b.remove_id_at(ItemId::from_u128(3), ts(5));
    (a, b)
}

fn live(book: &Book) -> HashSet<(u128, String)> {
    book.id_items().iter().map(|(id, item)| (id.as_u128(), item.name.clone())).collect()
}

#[test]
fn merge_sorts_the_tails_and_keeps_the_prefix() {
    let (a, b) = fork();
    let merged = a.clone().merge_versions(&b).unwrap();
    let times: Vec<i64> = merged.events().iter().map(|f| f.time.secs).collect();
    assert_eq!(times, vec![1, 1, 2, 2, 3, 3, 4, 5]);
    assert_eq!(a.differ_index(&b), Some(2));
}

#[test]
fn merge_outcome_symmetry() {
    let (a, b) = fork();
    let ab = a.clone().merge_versions(&b).unwrap();
    let ba = b.clone().merge_versions(&a).unwrap();
    assert_eq!(live(&ab), live(&ba));
    let wanted: HashSet<(u128, String)> =
        vec![(1, "shared renamed".to_owned()), (2, "left".to_owned())].into_iter().collect();
    assert_eq!(live(&ab), wanted);
}

#[test]
fn merge_ties_keep_local_before_remote() {
    let base = Book::new_at(ts(0));
    let mut a = base.clone();
    let mut b = base.clone();
    a.add_at(Item::new("left"), ItemId::from_u128(1), ts(1)).unwrap();
    b.add_at(Item::new("right"), ItemId::from_u128(2), ts(1)).unwrap();
    let ab = a.clone().merge_versions(&b).unwrap();
    let ba = b.clone().merge_versions(&a).unwrap();
    assert_eq!(ab.item_names(), vec!["left".to_owned(), "right".to_owned()]);
    assert_eq!(ba.item_names(), vec!["right".to_owned(), "left".to_owned()]);
    assert_eq!(live(&ab), live(&ba));
}

#[test]
fn merge_takes_the_later_of_two_updates_either_way() {
    let mut base = Book::new_at(ts(0));
    base.add_at(Item::new("shared"), ItemId::from_u128(1), ts(1)).unwrap();
    let mut a = base.clone();
    let mut b = base.clone();
    a.update_at(ItemId::from_u128(1), Item::new("early"), ts(2));
    a.update_at(ItemId::from_u128(1), Item::new("late"), ts(5));
    b.update_at(ItemId::from_u128(1), Item::new("between"), ts(3));
    let ab = a.clone().merge_versions(&b).unwrap();
    let ba = b.clone().merge_versions(&a).unwrap();
    assert_eq!(ab.item_names(), vec!["late".to_owned()]);
    assert_eq!(ba.item_names(), vec!["late".to_owned()]);
}

#[test]
fn merge_tie_on_one_item_takes_the_value_of_the_other_book() {
    let mut base = Book::new_at(ts(0));
    base.add_at(Item::new("shared"), ItemId::from_u128(1), ts(1)).unwrap();
    let mut a = base.clone();
    let mut b = base.clone();
    a.update_at(ItemId::from_u128(1), Item::new("mine"), ts(2));
    b.update_at(ItemId::from_u128(1), Item::new("theirs"), ts(2));
    let ab = a.clone().merge_versions(&b).unwrap();
    let ba = b.clone().merge_versions(&a).unwrap();
    assert_eq!(ab.item_names(), vec!["theirs".to_owned()]);
    assert_eq!(ba.item_names(), vec!["mine".to_owned()]);
    assert_eq!(ab.item_ids(), ba.item_ids());
}

#[test]
fn merge_associativity_without_conflicts() {
    let base = Book::new_at(ts(0));
    let mut a = base.clone();
    let mut b = base.clone();
    let mut c = base.clone();
    a.add_at(Item::new("a"), ItemId::from_u128(1), ts(1)).unwrap();
    b.add_at(Item::new("b"), ItemId::from_u128(2), ts(2)).unwrap();
    c.add_at(Item::new("c"), ItemId::from_u128(3), ts(3)).unwrap();
    let left = a.clone().merge_versions(&b).unwrap().merge_versions(&c).unwrap();
    let bc = b.clone().merge_versions(&c).unwrap();
    let right = a.clone().merge_versions(&bc).unwrap();
    assert_eq!(live(&left), live(&right));
    assert_eq!(live(&left).len(), 3);
}

#[test]
fn merge_again_keeps_metadata() {
    let (x, y) = fork();
    let once = x.clone().merge_versions(&y).unwrap();
    let twice = once.clone().merge_versions(&y).unwrap();
    assert_eq!(once.item_ids(), twice.item_ids());
    for id in once.item_ids() {
        assert_eq!(once.read_item_metadata(id), twice.read_item_metadata(id));
    }
}

#[test]
fn merge_drops_repeated_removals() {
    let mut base = Book::new_at(ts(0));
    let id = base.add_at(Item::new("a"), ItemId::from_u128(1), ts(1)).unwrap();
    let mut a = base.clone();
    let mut b = base.clone();
    a.remove_id_at(id, ts(2));
    b.remove_id_at(id, ts(3));
    let merged = a.merge_versions(&b).unwrap();
    let removals = merged.events().iter().filter(|f| matches!(f.event, Event::Remove(_))).count();
    assert_eq!(removals, 1);
    assert_eq!(merged.events().last().unwrap().time, ts(2));
    assert_eq!(merged.item_count(), 0);
}
