//! The mathematical model of an event log: what a sequence of timestamped
//! events says about the items of a book.

use vstd::prelude::*;
use crate::book::{ItemId, ItemView, Timestamp, ItemMetadata};

verus! {

/// An event, as a mathematical value.
#[verifier::ext_equal]
pub enum EventView {
    Create(ItemId),
    Update(ItemId, ItemView),
    Remove(ItemId),
}

impl EventView {
    /// The item that the event is about.
    pub open spec fn id(self) -> ItemId {
        match self {
            EventView::Create(id) => id,
            EventView::Update(id, _) => id,
            EventView::Remove(id) => id,
        }
    }
}

/// An event and the time at which it happened, as a mathematical value.
#[verifier::ext_equal]
pub struct FrameView {
    pub time: Timestamp,
    pub event: EventView,
}

/// The events of a book, oldest first.
pub type Log = Seq<FrameView>;

/// Times never decrease along the log.
pub open spec fn sorted(log: Log) -> bool {
    forall|i: int, j: int| 0 <= i <= j < log.len() ==> (#[trigger] log[i]).time.le((#[trigger] log[j]).time)
}

/// Position `i` holds the creation of an item and nothing follows it that
/// gives the item its first value at the same time.
pub open spec fn dangling_at(log: Log, i: int) -> bool {
    log[i].event is Create && !(i + 1 < log.len() && log[i + 1].event is Update && log[i
        + 1].event.id() == log[i].event.id() && log[i + 1].time == log[i].time)
}

/// Every creation is directly followed by an update of the same item at the
/// same time.
pub open spec fn paired(log: Log) -> bool {
    forall|i: int| 0 <= i < log.len() ==> !#[trigger] dangling_at(log, i)
}

/// Some event before position `i` creates `id`.
pub open spec fn created_before(log: Log, i: int, id: ItemId) -> bool {
    exists|j: int| 0 <= j < i && j < log.len() && #[trigger] log[j].event == EventView::Create(id)
}

/// Position `i` holds an update or a removal of an item that no earlier
/// event creates.
pub open spec fn orphan_at(log: Log, i: int) -> bool {
    !(log[i].event is Create) && !created_before(log, i, log[i].event.id())
}

/// The first event of every item is its creation: every update and every
/// removal follows a creation of its item.
pub open spec fn grounded(log: Log) -> bool {
    forall|i: int| 0 <= i < log.len() ==> !#[trigger] orphan_at(log, i)
}

/// The invariant of a book's log.
pub open spec fn well_formed(log: Log) -> bool {
    sorted(log) && paired(log) && grounded(log)
}

/// Some event of the log creates `id`.
pub open spec fn is_created(log: Log, id: ItemId) -> bool {
    exists|i: int| 0 <= i < log.len() && #[trigger] log[i].event == EventView::Create(id)
}

/// Some event of the log removes `id`.
pub open spec fn is_removed(log: Log, id: ItemId) -> bool {
    exists|i: int| 0 <= i < log.len() && #[trigger] log[i].event == EventView::Remove(id)
}

/// `id` has been created and never removed.
pub open spec fn is_live(log: Log, id: ItemId) -> bool {
    is_created(log, id) && !is_removed(log, id)
}

/// The live identifiers: all created ones without all removed ones.
pub open spec fn live_ids(log: Log) -> Set<ItemId> {
    Set::new(|id: ItemId| is_live(log, id))
}

/// The value that the latest update of `id` gave it, if there is one.
pub open spec fn read(log: Log, id: ItemId) -> Option<ItemView>
    decreases log.len(),
{
    if log.len() == 0 {
        None
    } else {
        match log.last().event {
            EventView::Update(e_id, item) if e_id == id => Some(item),
            _ => read(log.drop_last(), id),
        }
    }
}

/// The time of the latest update of `id`, if there is one.
pub open spec fn changed_time(log: Log, id: ItemId) -> Option<Timestamp>
    decreases log.len(),
{
    if log.len() == 0 {
        None
    } else {
        match log.last().event {
            EventView::Update(e_id, _) if e_id == id => Some(log.last().time),
            _ => changed_time(log.drop_last(), id),
        }
    }
}

/// The time of the first creation of `id`, if there is one.
pub open spec fn created_time(log: Log, id: ItemId) -> Option<Timestamp>
    decreases log.len(),
{
    if log.len() == 0 {
        None
    } else {
        match created_time(log.drop_last(), id) {
            Some(t) => Some(t),
            None => if log.last().event == EventView::Create(id) {
                Some(log.last().time)
            } else {
                None
            },
        }
    }
}

/// When `id` was first created and last updated; nothing if either is missing.
pub open spec fn metadata(log: Log, id: ItemId) -> Option<ItemMetadata> {
    match (created_time(log, id), changed_time(log, id)) {
        (Some(created), Some(changed)) => Some(ItemMetadata { created, changed }),
        _ => None,
    }
}

/// The live identifiers whose creation lies among the first `n` events, in
/// the order of their first creation.
pub open spec fn live_prefix(log: Log, n: int) -> Seq<ItemId>
    decreases n,
{
    if n <= 0 || n > log.len() {
        Seq::empty()
    } else {
        let before = live_prefix(log, n - 1);
        match log[n - 1].event {
            EventView::Create(id) if !before.contains(id) && !is_removed(log, id) => before.push(id),
            _ => before,
        }
    }
}

/// The live identifiers, in the order of their first creation.
pub open spec fn live_seq(log: Log) -> Seq<ItemId> {
    live_prefix(log, log.len() as int)
}

/// The item `id` has a value and its name is `name`.
pub open spec fn carries(log: Log, id: ItemId, name: Seq<char>) -> bool {
    read(log, id) is Some && read(log, id)->0.name == name
}

/// The first live identifier, from position `k` of the order of creation
/// on, whose current name is `name`.
pub open spec fn find_from(log: Log, name: Seq<char>, k: int) -> Option<ItemId>
    decreases live_seq(log).len() - k,
{
    if k < 0 || k >= live_seq(log).len() {
        None
    } else if carries(log, live_seq(log)[k], name) {
        Some(live_seq(log)[k])
    } else {
        find_from(log, name, k + 1)
    }
}

/// The live identifier that `name` stands for: the first one, in the order
/// of creation, whose current name it is.
pub open spec fn find_by_name(log: Log, name: Seq<char>) -> Option<ItemId> {
    find_from(log, name, 0)
}

/// Some live item carries the name.
pub open spec fn has_name(log: Log, name: Seq<char>) -> bool {
    find_by_name(log, name) is Some
}

/// The time that an event appended now gets: the given time, or the time of
/// the last event where the given one lies before it.
pub open spec fn stamp(log: Log, now: Timestamp) -> Timestamp {
    if log.len() > 0 && now.lt(log.last().time) {
        log.last().time
    } else {
        now
    }
}

/// The log after an event was appended at the time `now`.
pub open spec fn appended(log: Log, now: Timestamp, event: EventView) -> Log {
    log.push(FrameView { time: stamp(log, now), event })
}

/// The log after the item `id` was added with a first value at the time `now`.
pub open spec fn appended_item(log: Log, now: Timestamp, id: ItemId, item: ItemView) -> Log {
    log.push(FrameView { time: stamp(log, now), event: EventView::Create(id) }).push(
        FrameView { time: stamp(log, now), event: EventView::Update(id, item) },
    )
}

/// The values of the live items, in the order of their first creation.
pub open spec fn live_items(log: Log) -> Seq<ItemView> {
    live_seq(log).map_values(|id: ItemId| read(log, id)->0)
}

/// The names of the live items, in the order of their first creation.
pub open spec fn live_names(log: Log) -> Seq<Seq<char>> {
    live_seq(log).map_values(|id: ItemId| read(log, id)->0.name)
}

/// An update at position `k` gives its item a value and a time of change.
pub proof fn lemma_update_read(log: Log, id: ItemId, k: int)
    requires
        0 <= k < log.len(),
        log[k].event is Update,
        log[k].event.id() == id,
    ensures
        read(log, id) is Some,
        changed_time(log, id) is Some,
    decreases log.len(),
{
    if k < log.len() - 1 {
        lemma_update_read(log.drop_last(), id, k);
    }
}

/// An item has a value exactly if it has a time of change.
pub proof fn lemma_changed_iff_read(log: Log, id: ItemId)
    ensures
        changed_time(log, id) is Some <==> read(log, id) is Some,
    decreases log.len(),
{
    if log.len() > 0 {
        lemma_changed_iff_read(log.drop_last(), id);
    }
}

/// An item has a time of creation exactly if some event creates it.
pub proof fn lemma_created_time(log: Log, id: ItemId)
    ensures
        created_time(log, id) is Some <==> is_created(log, id),
    decreases log.len(),
{
    if log.len() > 0 {
        let init = log.drop_last();
        lemma_created_time(init, id);
        if is_created(init, id) {
            let i = choose|i: int| 0 <= i < init.len() && #[trigger] init[i].event == EventView::Create(id);
            assert(log[i].event == EventView::Create(id));
        }
        if is_created(log, id) && !is_created(init, id) {
            let i = choose|i: int| 0 <= i < log.len() && #[trigger] log[i].event == EventView::Create(id);
            if i < init.len() {
                assert(init[i].event == EventView::Create(id));
            }
        }
        if log.last().event == EventView::Create(id) {
            assert(log[log.len() - 1].event == EventView::Create(id));
        }
    }
}

/// In a well-formed log every created item has a value and metadata.
pub proof fn lemma_created_has_value(log: Log, id: ItemId)
    requires
        paired(log),
        is_created(log, id),
    ensures
        read(log, id) is Some,
        metadata(log, id) is Some,
{
    let i = choose|i: int| 0 <= i < log.len() && #[trigger] log[i].event == EventView::Create(id);
    assert(!dangling_at(log, i));
    lemma_update_read(log, id, i + 1);
    lemma_created_time(log, id);
}

/// What the first `n` events contribute to the live identifiers: each
/// identifier once, created there and removed nowhere.
pub proof fn lemma_live_prefix(log: Log, n: int)
    requires
        0 <= n <= log.len(),
    ensures
        live_prefix(log, n).no_duplicates(),
        forall|id: ItemId| #[trigger]
            live_prefix(log, n).contains(id) <==> (!is_removed(log, id) && exists|i: int|
                0 <= i < n && #[trigger] log[i].event == EventView::Create(id)),
    decreases n,
{
    if n > 0 {
        lemma_live_prefix(log, n - 1);
        let before = live_prefix(log, n - 1);
        let now = live_prefix(log, n);
        assert forall|id: ItemId| #[trigger]
            now.contains(id) <==> (!is_removed(log, id) && exists|i: int|
                0 <= i < n && #[trigger] log[i].event == EventView::Create(id)) by {
            if now.contains(id) {
                let k = choose|k: int| 0 <= k < now.len() && now[k] == id;
                if k < before.len() {
                    assert(before[k] == id);
                    assert(before.contains(id));
                    let i = choose|i: int| 0 <= i < n - 1 && #[trigger] log[i].event == EventView::Create(id);
                    assert(log[i].event == EventView::Create(id));
                } else {
                    assert(log[n - 1].event == EventView::Create(id));
                }
            }
            if !is_removed(log, id) && exists|i: int|
                0 <= i < n && #[trigger] log[i].event == EventView::Create(id) {
                let i = choose|i: int| 0 <= i < n && #[trigger] log[i].event == EventView::Create(id);
                if i < n - 1 {
                    assert(before.contains(id));
                    let k = choose|k: int| 0 <= k < before.len() && before[k] == id;
                    assert(now[k] == id);
                } else if before.contains(id) {
                    let k = choose|k: int| 0 <= k < before.len() && before[k] == id;
                    assert(now[k] == id);
                } else {
                    assert(now == before.push(id));
                    assert(now[before.len() as int] == id);
                }
            }
        }
    }
}

/// The ordered live identifiers are the live identifiers, each once.
pub proof fn lemma_live_seq(log: Log)
    ensures
        live_seq(log).no_duplicates(),
        live_seq(log).to_set() == live_ids(log),
        forall|id: ItemId| #[trigger] live_seq(log).contains(id) <==> is_live(log, id),
{
    lemma_live_prefix(log, log.len() as int);
    assert forall|id: ItemId| #[trigger] live_seq(log).contains(id) <==> is_live(log, id) by {
        if is_live(log, id) {
            let i = choose|i: int| 0 <= i < log.len() && #[trigger] log[i].event == EventView::Create(id);
            assert(log[i].event == EventView::Create(id));
        }
    }
    assert(live_seq(log).to_set() =~= live_ids(log));
}

/// What a search by name finds is live and carries the name, and nothing
/// before it in the order of creation does.
pub proof fn lemma_find_from(log: Log, name: Seq<char>, k: int)
    requires
        0 <= k,
    ensures
        match find_from(log, name, k) {
            Some(id) => carries(log, id, name) && live_seq(log).contains(id),
            None => forall|j: int| k <= j < live_seq(log).len() ==> !carries(log, #[trigger] live_seq(log)[j], name),
        },
    decreases live_seq(log).len() - k,
{
    if k < live_seq(log).len() && !carries(log, live_seq(log)[k], name) {
        lemma_find_from(log, name, k + 1);
    }
}

/// A name is taken exactly if some live item carries it.
pub proof fn lemma_has_name(log: Log, name: Seq<char>)
    ensures
        has_name(log, name) <==> exists|id: ItemId| is_live(log, id) && #[trigger] carries(log, id, name),
{
    lemma_find_from(log, name, 0);
    lemma_live_seq(log);
    if has_name(log, name) {
        let id = find_by_name(log, name)->0;
        assert(is_live(log, id) && carries(log, id, name));
    }
    if exists|id: ItemId| is_live(log, id) && #[trigger] carries(log, id, name) {
        let id = choose|id: ItemId| is_live(log, id) && #[trigger] carries(log, id, name);
        assert(live_seq(log).contains(id));
        let j = choose|j: int| 0 <= j < live_seq(log).len() && live_seq(log)[j] == id;
        assert(carries(log, live_seq(log)[j], name));
    }
}

/// Appending an update or a removal of a created item keeps a log
/// well-formed.
pub proof fn lemma_appended_wf(log: Log, now: Timestamp, event: EventView)
    requires
        well_formed(log),
        !(event is Create),
        is_created(log, event.id()),
    ensures
        well_formed(appended(log, now, event)),
{
    let next = appended(log, now, event);
    assert forall|i: int| 0 <= i < next.len() implies !#[trigger] orphan_at(next, i) by {
        if i < log.len() {
            assert(!orphan_at(log, i));
            if !(log[i].event is Create) {
                let j = choose|j: int|
                    0 <= j < i && j < log.len() && #[trigger] log[j].event == EventView::Create(
                        log[i].event.id(),
                    );
                assert(next[j].event == EventView::Create(next[i].event.id()));
            }
        } else {
            let j = choose|j: int|
                0 <= j < log.len() && #[trigger] log[j].event == EventView::Create(event.id());
            assert(next[j].event == EventView::Create(next[i].event.id()));
        }
    }
    assert forall|i: int, j: int| 0 <= i <= j < next.len() implies (#[trigger] next[i]).time.le(
        (#[trigger] next[j]).time,
    ) by {
        if j == log.len() && i < log.len() {
            assert(log[i].time.le(log[log.len() - 1].time));
        }
    }
    assert forall|i: int| 0 <= i < next.len() implies !#[trigger] dangling_at(next, i) by {
        if i < log.len() {
            assert(!dangling_at(log, i));
        }
    }
}

/// A new item is created and last changed at the time of the event that
/// added it, is alive, and has the value it was added with.
pub proof fn lemma_appended_item_fresh(log: Log, now: Timestamp, id: ItemId, item: ItemView)
    requires
        !is_created(log, id),
    ensures
        metadata(appended_item(log, now, id, item), id) == Some(
            ItemMetadata { created: stamp(log, now), changed: stamp(log, now) },
        ),
        read(appended_item(log, now, id, item), id) == Some(item),
{
    let mid = log.push(FrameView { time: stamp(log, now), event: EventView::Create(id) });
    let next = appended_item(log, now, id, item);
    lemma_created_time(log, id);
    assert(mid.drop_last() =~= log);
    assert(next.drop_last() =~= mid);
    assert(mid.last().event == EventView::Create(id));
    assert(created_time(log, id) is None);
    assert(created_time(mid, id) == Some(stamp(log, now)));
    assert(created_time(next, id) == Some(stamp(log, now)));
    assert(changed_time(next, id) == Some(stamp(log, now)));
}

/// Appending a new item with its first value keeps a log well-formed.
pub proof fn lemma_appended_item_wf(log: Log, now: Timestamp, id: ItemId, item: ItemView)
    requires
        well_formed(log),
    ensures
        well_formed(appended_item(log, now, id, item)),
{
    let next = appended_item(log, now, id, item);
    assert forall|i: int| 0 <= i < next.len() implies !#[trigger] orphan_at(next, i) by {
        if i < log.len() {
            assert(!orphan_at(log, i));
            if !(log[i].event is Create) {
                let j = choose|j: int|
                    0 <= j < i && j < log.len() && #[trigger] log[j].event == EventView::Create(
                        log[i].event.id(),
                    );
                assert(next[j].event == EventView::Create(next[i].event.id()));
            }
        } else if i == log.len() + 1 {
            assert(next[log.len() as int].event == EventView::Create(next[i].event.id()));
        }
    }
    assert forall|i: int, j: int| 0 <= i <= j < next.len() implies (#[trigger] next[i]).time.le(
        (#[trigger] next[j]).time,
    ) by {
        if j >= log.len() && i < log.len() {
            assert(log[i].time.le(log[log.len() - 1].time));
        }
    }
    assert forall|i: int| 0 <= i < next.len() implies !#[trigger] dangling_at(next, i) by {
        if i < log.len() {
            assert(!dangling_at(log, i));
        }
    }
}

/// A log does not create more items than it has events.
pub proof fn lemma_created_count(log: Log, ids: Set<ItemId>)
    requires
        ids.finite(),
        forall|id: ItemId| ids.contains(id) ==> is_created(log, id),
    ensures
        ids.len() <= log.len(),
    decreases log.len(),
{
    if log.len() == 0 {
        assert(ids =~= Set::<ItemId>::empty());
    } else {
        let init = log.drop_last();
        let rest = match log.last().event {
            EventView::Create(m) => ids.remove(m),
            _ => ids,
        };
        assert forall|id: ItemId| rest.contains(id) implies is_created(init, id) by {
            let i = choose|i: int| 0 <= i < log.len() && #[trigger] log[i].event == EventView::Create(id);
            assert(init[i].event == EventView::Create(id));
        }
        lemma_created_count(init, rest);
    }
}

} // verus!
