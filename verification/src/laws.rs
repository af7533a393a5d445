//! What holds of reconciled books, whatever the books.

use vstd::prelude::*;
use crate::book::{ItemId, ItemView, Timestamp};
use crate::log::{
    EventView, FrameView, Log, changed_time, created_time, is_created, is_live, is_removed,
    live_ids, metadata, read, sorted, well_formed,
};
use crate::merge::{
    clean, fork, insert, merged, stable_sort, lemma_clean_contains, lemma_fork, lemma_merged_wf,
    lemma_sort_contains, lemma_sort_sorted,
};

verus! {

/// Two logs state the same facts: they hold the same creations and
/// updates, and remove the same items.
pub open spec fn same_facts(m1: Log, m2: Log) -> bool {
    &&& forall|e: FrameView| !(e.event is Remove) ==> (#[trigger] m1.contains(e) <==> m2.contains(e))
    &&& forall|id: ItemId| #[trigger] is_removed(m1, id) <==> is_removed(m2, id)
}

/// The log `m` states the facts of `a` and of `b`, and no others.
pub open spec fn facts_of_both(m: Log, a: Log, b: Log) -> bool {
    &&& forall|e: FrameView|
        !(e.event is Remove) ==> (#[trigger] m.contains(e) <==> (a.contains(e) || b.contains(e)))
    &&& forall|id: ItemId| #[trigger] is_removed(m, id) <==> (is_removed(a, id) || is_removed(b, id))
}

/// Two events do not give one item two values at one time.
pub open spec fn agree(e1: FrameView, e2: FrameView) -> bool {
    e1.event is Update && e2.event is Update && e1.event.id() == e2.event.id() && e1.time
        == e2.time ==> e1 == e2
}

/// No two updates of the log give one item two values at one time.
pub open spec fn unambiguous(s: Log) -> bool {
    forall|e1: FrameView, e2: FrameView| #[trigger] s.contains(e1) && #[trigger] s.contains(e2) ==> agree(e1, e2)
}

/// What a concatenation holds.
pub proof fn lemma_concat_contains(a: Log, b: Log)
    ensures
        forall|e: FrameView| #[trigger] (a + b).contains(e) <==> (a.contains(e) || b.contains(e)),
{
    assert forall|e: FrameView| #[trigger] (a + b).contains(e) <==> (a.contains(e) || b.contains(e)) by {
        if (a + b).contains(e) {
            let i = choose|i: int| 0 <= i < (a + b).len() && (a + b)[i] == e;
            if i < a.len() {
                assert(a[i] == e);
            } else {
                assert(b[i - a.len()] == e);
            }
        }
        if a.contains(e) {
            let i = choose|i: int| 0 <= i < a.len() && a[i] == e;
            assert((a + b)[i] == e);
        }
        if b.contains(e) {
            let i = choose|i: int| 0 <= i < b.len() && b[i] == e;
            assert((a + b)[i + a.len()] == e);
        }
    }
}

/// Some event removes `id` exactly if the log holds a removal of `id`.
pub proof fn lemma_removed_contains(s: Log, id: ItemId)
    ensures
        is_removed(s, id) <==> exists|e: FrameView| #[trigger] s.contains(e) && e.event == EventView::Remove(id),
{
    if is_removed(s, id) {
        let i = choose|i: int| 0 <= i < s.len() && #[trigger] s[i].event == EventView::Remove(id);
        assert(s.contains(s[i]));
    }
    if exists|e: FrameView| #[trigger] s.contains(e) && e.event == EventView::Remove(id) {
        let e = choose|e: FrameView| #[trigger] s.contains(e) && e.event == EventView::Remove(id);
        let i = choose|i: int| 0 <= i < s.len() && s[i] == e;
        assert(s[i].event == EventView::Remove(id));
    }
}

/// Some event creates `id` exactly if the log holds a creation of `id`.
pub proof fn lemma_created_contains(s: Log, id: ItemId)
    ensures
        is_created(s, id) <==> exists|e: FrameView| #[trigger] s.contains(e) && e.event == EventView::Create(id),
{
    if is_created(s, id) {
        let i = choose|i: int| 0 <= i < s.len() && #[trigger] s[i].event == EventView::Create(id);
        assert(s.contains(s[i]));
    }
    if exists|e: FrameView| #[trigger] s.contains(e) && e.event == EventView::Create(id) {
        let e = choose|e: FrameView| #[trigger] s.contains(e) && e.event == EventView::Create(id);
        let i = choose|i: int| 0 <= i < s.len() && s[i] == e;
        assert(s[i].event == EventView::Create(id));
    }
}

/// The reconciled log states the facts of both logs, and no others.
pub proof fn lemma_merged_facts(a: Log, b: Log)
    ensures
        facts_of_both(merged(a, b), a, b),
{
    if a != b {
        lemma_fork(a, b);
        let f = fork(a, b);
        let prefix = a.take(f);
        let ta = a.skip(f);
        let tb = b.skip(f);
        let s = ta + tb;
        let st = stable_sort(s);
        let whole = prefix + st;
        assert(a =~= prefix + ta);
        assert(b =~= prefix + tb);
        lemma_sort_contains(s);
        lemma_concat_contains(ta, tb);
        lemma_concat_contains(prefix, st);
        lemma_concat_contains(prefix, ta);
        lemma_concat_contains(prefix, tb);
        lemma_clean_contains(whole);
        assert forall|e: FrameView| #[trigger] whole.contains(e) <==> (a.contains(e) || b.contains(e)) by {
            assert(st.contains(e) <==> s.contains(e));
        }
        assert forall|id: ItemId| #[trigger]
            is_removed(merged(a, b), id) <==> (is_removed(a, id) || is_removed(b, id)) by {
            lemma_removed_contains(whole, id);
            lemma_removed_contains(a, id);
            lemma_removed_contains(b, id);
            assert(is_removed(clean(whole), id) <==> is_removed(whole, id));
            if is_removed(whole, id) {
                let e = choose|e: FrameView| #[trigger] whole.contains(e) && e.event == EventView::Remove(id);
                assert(a.contains(e) || b.contains(e));
            }
            if is_removed(a, id) {
                let e = choose|e: FrameView| #[trigger] a.contains(e) && e.event == EventView::Remove(id);
                assert(whole.contains(e));
            }
            if is_removed(b, id) {
                let e = choose|e: FrameView| #[trigger] b.contains(e) && e.event == EventView::Remove(id);
                assert(whole.contains(e));
            }
        }
        assert forall|e: FrameView| !(e.event is Remove) implies (#[trigger] merged(a, b).contains(e) <==> (
            a.contains(e) || b.contains(e))) by {
            assert(whole.contains(e) <==> (a.contains(e) || b.contains(e)));
            if clean(whole).contains(e) {
                assert(whole.contains(e));
            }
            if whole.contains(e) {
                assert(clean(whole).contains(e));
            }
        }
    } else {
        assert(merged(a, b) == a);
    }
}

/// Logs that state the same facts have the same items alive.
pub proof fn lemma_same_live(m1: Log, m2: Log)
    requires
        same_facts(m1, m2),
    ensures
        live_ids(m1) == live_ids(m2),
        forall|id: ItemId| is_created(m1, id) <==> is_created(m2, id),
{
    assert forall|id: ItemId| is_created(m1, id) <==> is_created(m2, id) by {
        lemma_created_contains(m1, id);
        lemma_created_contains(m2, id);
        if is_created(m1, id) {
            let e = choose|e: FrameView| #[trigger] m1.contains(e) && e.event == EventView::Create(id);
            assert(m2.contains(e));
        }
        if is_created(m2, id) {
            let e = choose|e: FrameView| #[trigger] m2.contains(e) && e.event == EventView::Create(id);
            assert(m1.contains(e));
        }
    }
    assert forall|id: ItemId| is_live(m1, id) <==> is_live(m2, id) by {
        assert(is_removed(m1, id) <==> is_removed(m2, id));
    }
    assert(live_ids(m1) =~= live_ids(m2));
}

/// The latest update of `id`, where there is one: the value and the time
/// of change stem from it, and no update of `id` follows it.
pub proof fn lemma_last_update(m: Log, id: ItemId)
    ensures
        read(m, id) is Some <==> changed_time(m, id) is Some,
        read(m, id) is Some ==> exists|k: int|
            0 <= k < m.len() && #[trigger] m[k].event == EventView::Update(id, read(m, id)->0)
                && changed_time(m, id) == Some(m[k].time) && forall|j: int|
                k < j < m.len() ==> !((#[trigger] m[j]).event is Update && m[j].event.id() == id),
        read(m, id) is None ==> forall|j: int|
            0 <= j < m.len() ==> !((#[trigger] m[j]).event is Update && m[j].event.id() == id),
    decreases m.len(),
{
    if m.len() > 0 {
        let init = m.drop_last();
        lemma_last_update(init, id);
        match m.last().event {
            EventView::Update(e_id, item) if e_id == id => {
                assert(m[m.len() - 1].event == EventView::Update(id, read(m, id)->0));
            },
            _ => {
                if read(m, id) is Some {
                    let k = choose|k: int|
                        0 <= k < init.len() && #[trigger] init[k].event == EventView::Update(
                            id,
                            read(init, id)->0,
                        ) && changed_time(init, id) == Some(init[k].time) && forall|j: int|
                            k < j < init.len() ==> !((#[trigger] init[j]).event is Update
                                && init[j].event.id() == id);
                    assert(m[k].event == EventView::Update(id, read(m, id)->0));
                    assert forall|j: int| k < j < m.len() implies !((#[trigger] m[j]).event is Update
                        && m[j].event.id() == id) by {
                        if j < init.len() {
                            assert(init[j] == m[j]);
                        }
                    }
                } else {
                    assert forall|j: int| 0 <= j < m.len() implies !((#[trigger] m[j]).event is Update
                        && m[j].event.id() == id) by {
                        if j < init.len() {
                            assert(init[j] == m[j]);
                        }
                    }
                }
            },
        }
    }
}

/// The first creation of `id`, where there is one: the time of creation
/// stems from it, and no creation of `id` precedes it.
pub proof fn lemma_first_create(m: Log, id: ItemId)
    ensures
        created_time(m, id) is Some ==> exists|k: int|
            0 <= k < m.len() && #[trigger] m[k].event == EventView::Create(id) && created_time(m, id)
                == Some(m[k].time) && forall|j: int|
                0 <= j < k ==> (#[trigger] m[j]).event != EventView::Create(id),
        created_time(m, id) is None ==> forall|j: int|
            0 <= j < m.len() ==> (#[trigger] m[j]).event != EventView::Create(id),
    decreases m.len(),
{
    if m.len() > 0 {
        let init = m.drop_last();
        lemma_first_create(init, id);
        if created_time(init, id) is Some {
            let k = choose|k: int|
                0 <= k < init.len() && #[trigger] init[k].event == EventView::Create(id)
                    && created_time(init, id) == Some(init[k].time) && forall|j: int|
                    0 <= j < k ==> (#[trigger] init[j]).event != EventView::Create(id);
            assert(m[k].event == EventView::Create(id));
            assert forall|j: int| 0 <= j < k implies (#[trigger] m[j]).event != EventView::Create(id) by {
                assert(init[j] == m[j]);
            }
        } else {
            assert forall|j: int| 0 <= j < init.len() implies (#[trigger] m[j]).event != EventView::Create(id) by {
                assert(init[j] == m[j]);
            }
            if m.last().event == EventView::Create(id) {
                assert(m[m.len() - 1].event == EventView::Create(id));
            }
        }
    }
}

/// In ordered logs that state the same facts, every item was created and
/// last changed at the same times.
pub proof fn lemma_same_metadata(m1: Log, m2: Log, id: ItemId)
    requires
        sorted(m1),
        sorted(m2),
        same_facts(m1, m2),
    ensures
        created_time(m1, id) == created_time(m2, id),
        changed_time(m1, id) == changed_time(m2, id),
        metadata(m1, id) == metadata(m2, id),
{
    lemma_first_create(m1, id);
    lemma_first_create(m2, id);
    lemma_last_update(m1, id);
    lemma_last_update(m2, id);
    if created_time(m1, id) is Some {
        let k1 = choose|k: int|
            0 <= k < m1.len() && #[trigger] m1[k].event == EventView::Create(id) && created_time(m1, id)
                == Some(m1[k].time) && forall|j: int|
                0 <= j < k ==> (#[trigger] m1[j]).event != EventView::Create(id);
        assert(m1.contains(m1[k1]));
        assert(m2.contains(m1[k1]));
        let i2 = choose|i: int| 0 <= i < m2.len() && m2[i] == m1[k1];
        assert(m2[i2].event == EventView::Create(id));
        let k2 = choose|k: int|
            0 <= k < m2.len() && #[trigger] m2[k].event == EventView::Create(id) && created_time(m2, id)
                == Some(m2[k].time) && forall|j: int|
                0 <= j < k ==> (#[trigger] m2[j]).event != EventView::Create(id);
        assert(m2.contains(m2[k2]));
        assert(m1.contains(m2[k2]));
        let i1 = choose|i: int| 0 <= i < m1.len() && m1[i] == m2[k2];
        assert(m1[i1].event == EventView::Create(id));
        assert(k1 <= i1);
        assert(k2 <= i2);
        assert(m1[k1].time.le(m1[i1].time));
        assert(m2[k2].time.le(m2[i2].time));
    } else if created_time(m2, id) is Some {
        let k2 = choose|k: int|
            0 <= k < m2.len() && #[trigger] m2[k].event == EventView::Create(id) && created_time(m2, id)
                == Some(m2[k].time) && forall|j: int|
                0 <= j < k ==> (#[trigger] m2[j]).event != EventView::Create(id);
        assert(m2.contains(m2[k2]));
        assert(m1.contains(m2[k2]));
        let i1 = choose|i: int| 0 <= i < m1.len() && m1[i] == m2[k2];
        assert(m1[i1].event == EventView::Create(id));
    }
    if read(m1, id) is Some {
        let k1 = choose|k: int|
            0 <= k < m1.len() && #[trigger] m1[k].event == EventView::Update(id, read(m1, id)->0)
                && changed_time(m1, id) == Some(m1[k].time) && forall|j: int|
                k < j < m1.len() ==> !((#[trigger] m1[j]).event is Update && m1[j].event.id() == id);
        assert(m1.contains(m1[k1]));
        assert(m2.contains(m1[k1]));
        let i2 = choose|i: int| 0 <= i < m2.len() && m2[i] == m1[k1];
        assert(m2[i2].event is Update && m2[i2].event.id() == id);
        let k2 = choose|k: int|
            0 <= k < m2.len() && #[trigger] m2[k].event == EventView::Update(id, read(m2, id)->0)
                && changed_time(m2, id) == Some(m2[k].time) && forall|j: int|
                k < j < m2.len() ==> !((#[trigger] m2[j]).event is Update && m2[j].event.id() == id);
        assert(m2.contains(m2[k2]));
        assert(m1.contains(m2[k2]));
        let i1 = choose|i: int| 0 <= i < m1.len() && m1[i] == m2[k2];
        assert(m1[i1].event is Update && m1[i1].event.id() == id);
        assert(i1 <= k1);
        assert(i2 <= k2);
        assert(m1[i1].time.le(m1[k1].time));
        assert(m2[i2].time.le(m2[k2].time));
    } else if read(m2, id) is Some {
        let k2 = choose|k: int|
            0 <= k < m2.len() && #[trigger] m2[k].event == EventView::Update(id, read(m2, id)->0)
                && changed_time(m2, id) == Some(m2[k].time) && forall|j: int|
                k < j < m2.len() ==> !((#[trigger] m2[j]).event is Update && m2[j].event.id() == id);
        assert(m2.contains(m2[k2]));
        assert(m1.contains(m2[k2]));
        let i1 = choose|i: int| 0 <= i < m1.len() && m1[i] == m2[k2];
        assert(m1[i1].event is Update && m1[i1].event.id() == id);
    }
}

/// In ordered logs that state the same facts, none of which gives one item
/// two values at one time, every item has the same value.
pub proof fn lemma_same_value(m1: Log, m2: Log, id: ItemId)
    requires
        sorted(m1),
        sorted(m2),
        same_facts(m1, m2),
        unambiguous(m1 + m2),
    ensures
        read(m1, id) == read(m2, id),
{
    lemma_same_metadata(m1, m2, id);
    lemma_last_update(m1, id);
    lemma_last_update(m2, id);
    lemma_concat_contains(m1, m2);
    if read(m1, id) is Some {
        let k1 = choose|k: int|
            0 <= k < m1.len() && #[trigger] m1[k].event == EventView::Update(id, read(m1, id)->0)
                && changed_time(m1, id) == Some(m1[k].time) && forall|j: int|
                k < j < m1.len() ==> !((#[trigger] m1[j]).event is Update && m1[j].event.id() == id);
        let k2 = choose|k: int|
            0 <= k < m2.len() && #[trigger] m2[k].event == EventView::Update(id, read(m2, id)->0)
                && changed_time(m2, id) == Some(m2[k].time) && forall|j: int|
                k < j < m2.len() ==> !((#[trigger] m2[j]).event is Update && m2[j].event.id() == id);
        assert(m1.contains(m1[k1]));
        assert(m2.contains(m2[k2]));
        assert((m1 + m2).contains(m1[k1]));
        assert((m1 + m2).contains(m2[k2]));
        assert(agree(m1[k1], m2[k2]));
    }
}

/// A log that states the facts of `a` and `b` states the same facts as any
/// other that does.
pub proof fn lemma_facts_agree(m1: Log, m2: Log, a: Log, b: Log)
    requires
        facts_of_both(m1, a, b),
        facts_of_both(m2, a, b),
    ensures
        same_facts(m1, m2),
{
    assert forall|e: FrameView| !(e.event is Remove) implies (#[trigger] m1.contains(e) <==> m2.contains(e)) by {
        assert(m2.contains(e) <==> (a.contains(e) || b.contains(e)));
    }
    assert forall|id: ItemId| #[trigger] is_removed(m1, id) <==> is_removed(m2, id) by {
        assert(is_removed(m2, id) <==> (is_removed(a, id) || is_removed(b, id)));
    }
}

/// Every event of a reconciled log stems from one of the two logs.
pub proof fn lemma_merged_within(a: Log, b: Log)
    ensures
        forall|e: FrameView| #[trigger] merged(a, b).contains(e) ==> (a + b).contains(e),
{
    lemma_merged_facts(a, b);
    lemma_concat_contains(a, b);
    if a != b {
        lemma_fork(a, b);
        let f = fork(a, b);
        let s = a.skip(f) + b.skip(f);
        let whole = a.take(f) + stable_sort(s);
        lemma_sort_contains(s);
        lemma_concat_contains(a.skip(f), b.skip(f));
        lemma_concat_contains(a.take(f), stable_sort(s));
        lemma_concat_contains(a.take(f), a.skip(f));
        lemma_concat_contains(a.take(f), b.skip(f));
        lemma_clean_contains(whole);
        assert(a =~= a.take(f) + a.skip(f));
        assert(b =~= a.take(f) + b.skip(f));
        assert forall|e: FrameView| #[trigger] merged(a, b).contains(e) implies (a + b).contains(e) by {
            assert(whole.contains(e));
            assert(stable_sort(s).contains(e) <==> s.contains(e));
        }
    }
}

/// Merge identity: a book reconciled with itself is the book itself, so
/// its live items are the same.
pub proof fn merge_identity(a: Log)
    ensures
        merged(a, a) == a,
        live_ids(merged(a, a)) == live_ids(a),
{
}

/// An ordered log is its own ordering.
pub proof fn lemma_sorted_fixed(s: Log)
    requires
        sorted(s),
    ensures
        stable_sort(s) == s,
    decreases s.len(),
{
    if s.len() > 0 {
        let init = s.drop_last();
        assert forall|i: int, j: int| 0 <= i <= j < init.len() implies (#[trigger] init[i]).time.le(
            (#[trigger] init[j]).time,
        ) by {
            assert(s[i].time.le(s[j].time));
        }
        lemma_sorted_fixed(init);
        if init.len() > 0 {
            assert(s[init.len() - 1].time.le(s[s.len() - 1].time));
            assert(init.last() == s[init.len() - 1]);
        }
        assert(init.push(s.last()) =~= s);
    }
}

/// In an ordered log no update of an item is later than its latest one,
/// and the latest one is not later than the last event.
pub proof fn lemma_changed_is_latest(m: Log, id: ItemId)
    requires
        sorted(m),
        changed_time(m, id) is Some,
    ensures
        m.len() > 0,
        changed_time(m, id)->0.le(m.last().time),
        forall|j: int|
            0 <= j < m.len() && (#[trigger] m[j]).event is Update && m[j].event.id() == id
                ==> m[j].time.le(changed_time(m, id)->0),
{
    lemma_last_update(m, id);
    let k = choose|k: int|
        0 <= k < m.len() && #[trigger] m[k].event == EventView::Update(id, read(m, id)->0)
            && changed_time(m, id) == Some(m[k].time) && forall|j: int|
            k < j < m.len() ==> !((#[trigger] m[j]).event is Update && m[j].event.id() == id);
    assert(m[k].time.le(m[m.len() - 1].time));
    assert forall|j: int|
        0 <= j < m.len() && (#[trigger] m[j]).event is Update && m[j].event.id() == id implies m[j].time.le(
        changed_time(m, id)->0,
    ) by {
        assert(j <= k);
        assert(m[j].time.le(m[k].time));
    }
}

/// Whether an event, put into an ordered log, gives an item its value: it
/// is an update of the item, and no update of the item in the log is later.
pub open spec fn takes_over(r: Log, y: FrameView, id: ItemId) -> bool {
    y.event is Update && y.event.id() == id && !(changed_time(r, id) is Some && y.time.lt(
        changed_time(r, id)->0,
    ))
}

/// The value and the time of change of an item after an event was put
/// into an ordered log.
pub proof fn lemma_read_insert(r: Log, y: FrameView, id: ItemId)
    requires
        sorted(r),
    ensures
        read(insert(r, y), id) == (if takes_over(r, y, id) {
            Some(y.event->Update_1)
        } else {
            read(r, id)
        }),
        changed_time(insert(r, y), id) == (if takes_over(r, y, id) {
            Some(y.time)
        } else {
            changed_time(r, id)
        }),
    decreases r.len(),
{
    if r.len() == 0 || r.last().time.le(y.time) {
        let out = r.push(y);
        assert(out.drop_last() =~= r);
        assert(out.last() == y);
        if changed_time(r, id) is Some {
            lemma_changed_is_latest(r, id);
        }
    } else {
        let init = r.drop_last();
        assert forall|i: int, j: int| 0 <= i <= j < init.len() implies (#[trigger] init[i]).time.le(
            (#[trigger] init[j]).time,
        ) by {
            assert(r[i].time.le(r[j].time));
        }
        lemma_read_insert(init, y, id);
        let out = insert(init, y).push(r.last());
        assert(out.drop_last() =~= insert(init, y));
        assert(out.last() == r.last());
    }
}

/// The value of an item in two ordered logs that are brought into one
/// order: that of the log whose latest update of the item is the later
/// one, and on a tie that of the second log.
pub open spec fn later_value(x: Log, y: Log, id: ItemId) -> Option<ItemView> {
    match (changed_time(x, id), changed_time(y, id)) {
        (_, None) => read(x, id),
        (None, Some(_)) => read(y, id),
        (Some(tx), Some(ty)) => if ty.lt(tx) {
            read(x, id)
        } else {
            read(y, id)
        },
    }
}

/// The time of change of an item in two ordered logs that are brought
/// into one order.
pub open spec fn later_time(x: Log, y: Log, id: ItemId) -> Option<Timestamp> {
    match (changed_time(x, id), changed_time(y, id)) {
        (_, None) => changed_time(x, id),
        (None, Some(_)) => changed_time(y, id),
        (Some(tx), Some(ty)) => if ty.lt(tx) {
            Some(tx)
        } else {
            Some(ty)
        },
    }
}

/// What the one order of two ordered logs says of an item.
pub proof fn lemma_read_sorted_concat(x: Log, y: Log, id: ItemId)
    requires
        sorted(x),
        sorted(y),
    ensures
        read(stable_sort(x + y), id) == later_value(x, y, id),
        changed_time(stable_sort(x + y), id) == later_time(x, y, id),
    decreases y.len(),
{
    lemma_last_update(x, id);
    lemma_last_update(y, id);
    if y.len() == 0 {
        assert(x + y =~= x);
        lemma_sorted_fixed(x);
    } else {
        let init = y.drop_last();
        let e = y.last();
        assert forall|i: int, j: int| 0 <= i <= j < init.len() implies (#[trigger] init[i]).time.le(
            (#[trigger] init[j]).time,
        ) by {
            assert(y[i].time.le(y[j].time));
        }
        lemma_read_sorted_concat(x, init, id);
        assert((x + y).drop_last() =~= x + init);
        assert((x + y).last() == e);
        let r = stable_sort(x + init);
        lemma_sort_sorted(x + init);
        lemma_read_insert(r, e, id);
        lemma_last_update(init, id);
        if changed_time(init, id) is Some {
            lemma_changed_is_latest(init, id);
            assert(init.last() == y[y.len() - 2]);
            assert(y[y.len() - 2].time.le(y[y.len() - 1].time));
        }
    }
}

/// What a log that continues another says of an item: what the
/// continuation says, or else what the continued log says.
pub proof fn lemma_read_concat(p: Log, s: Log, id: ItemId)
    ensures
        read(p + s, id) == (if read(s, id) is Some {
            read(s, id)
        } else {
            read(p, id)
        }),
    decreases s.len(),
{
    if s.len() == 0 {
        assert(p + s =~= p);
    } else {
        lemma_read_concat(p, s.drop_last(), id);
        assert((p + s).drop_last() =~= p + s.drop_last());
        assert((p + s).last() == s.last());
    }
}

/// Cleaning changes the value of no item.
pub proof fn lemma_read_clean(m: Log, id: ItemId)
    ensures
        read(clean(m), id) == read(m, id),
    decreases m.len(),
{
    if m.len() > 0 {
        lemma_read_clean(m.drop_last(), id);
        match m.last().event {
            EventView::Remove(r) if is_removed(m.drop_last(), r) => {},
            _ => {
                let out = clean(m.drop_last()).push(m.last());
                assert(out.drop_last() =~= clean(m.drop_last()));
                assert(out.last() == m.last());
            },
        }
    }
}

/// Where the latest updates of an item in the two divergent tails bear the
/// same time, they give the item the same value.
pub open spec fn tie_agrees(a: Log, b: Log, id: ItemId) -> bool {
    let ta = a.skip(fork(a, b));
    let tb = b.skip(fork(a, b));
    changed_time(ta, id) is Some && changed_time(ta, id) == changed_time(tb, id) ==> read(ta, id)
        == read(tb, id)
}

/// The tail of an ordered log is ordered.
pub proof fn lemma_skip_sorted(a: Log, f: int)
    requires
        sorted(a),
        0 <= f <= a.len(),
    ensures
        sorted(a.skip(f)),
{
    assert forall|i: int, j: int| 0 <= i <= j < a.skip(f).len() implies (#[trigger] a.skip(f)[i]).time.le(
        (#[trigger] a.skip(f)[j]).time,
    ) by {
        assert(a[f + i].time.le(a[f + j].time));
    }
}

/// Merge outcome symmetry: whichever of two books is reconciled with the
/// other, the same items are alive, created and last changed at the same
/// times, and every item has the same value, but for an item whose latest
/// updates in the two divergent tails bear the same time and differ.
pub proof fn merge_symmetry(a: Log, b: Log)
    requires
        well_formed(a),
        well_formed(b),
    ensures
        live_ids(merged(a, b)) == live_ids(merged(b, a)),
        forall|id: ItemId| #[trigger] metadata(merged(a, b), id) == metadata(merged(b, a), id),
        forall|id: ItemId|
            tie_agrees(a, b, id) <==> #[trigger] read(merged(a, b), id) == read(merged(b, a), id),
{
    let m1 = merged(a, b);
    let m2 = merged(b, a);
    lemma_merged_facts(a, b);
    lemma_merged_facts(b, a);
    lemma_merged_wf(a, b);
    lemma_merged_wf(b, a);
    assert(facts_of_both(m2, a, b));
    lemma_facts_agree(m1, m2, a, b);
    lemma_same_live(m1, m2);
    assert forall|id: ItemId| #[trigger] metadata(m1, id) == metadata(m2, id) by {
        lemma_same_metadata(m1, m2, id);
    }
    lemma_fork(a, b);
    lemma_fork(b, a);
    let f = fork(a, b);
    let prefix = a.take(f);
    let ta = a.skip(f);
    let tb = b.skip(f);
    lemma_skip_sorted(a, f);
    lemma_skip_sorted(b, f);
    assert forall|id: ItemId|
        tie_agrees(a, b, id) <==> #[trigger] read(m1, id) == read(m2, id) by {
        lemma_last_update(ta, id);
        lemma_last_update(tb, id);
        if a == b {
            assert(ta =~= tb);
        } else {
            lemma_read_sorted_concat(ta, tb, id);
            lemma_read_sorted_concat(tb, ta, id);
            lemma_read_concat(prefix, stable_sort(ta + tb), id);
            lemma_read_concat(prefix, stable_sort(tb + ta), id);
            lemma_read_clean(prefix + stable_sort(ta + tb), id);
            lemma_read_clean(prefix + stable_sort(tb + ta), id);
            assert(b.take(f) == prefix);
        }
    }
}

/// The event gives `id` a value.
pub open spec fn gives_value(e: FrameView, id: ItemId) -> bool {
    e.event is Update && e.event.id() == id
}

/// The updates of an item in a log, in the order of the log.
pub open spec fn updates_of(m: Log, id: ItemId) -> Log
    decreases m.len(),
{
    if m.len() == 0 {
        Seq::empty()
    } else if gives_value(m.last(), id) {
        updates_of(m.drop_last(), id).push(m.last())
    } else {
        updates_of(m.drop_last(), id)
    }
}

/// The value of an item is that of the last of its updates. The updates
/// of an item in a log are events of the log, and hold each event of the
/// log that gives the item a value.
pub proof fn lemma_updates(m: Log, id: ItemId)
    ensures
        read(m, id) == (if updates_of(m, id).len() > 0 {
            Some(updates_of(m, id).last().event->Update_1)
        } else {
            None
        }),
        forall|j: int|
            0 <= j < updates_of(m, id).len() ==> gives_value(#[trigger] updates_of(m, id)[j], id)
                && m.contains(updates_of(m, id)[j]),
        forall|j: int|
            0 <= j < m.len() && gives_value(#[trigger] m[j], id) ==> updates_of(m, id).contains(m[j]),
    decreases m.len(),
{
    if m.len() > 0 {
        let init = m.drop_last();
        lemma_updates(init, id);
        let u = updates_of(m, id);
        let v = updates_of(init, id);
        assert forall|j: int| 0 <= j < u.len() implies gives_value(#[trigger] u[j], id) && m.contains(
            u[j],
        ) by {
            if j < v.len() {
                assert(u[j] == v[j]);
                let k = choose|k: int| 0 <= k < init.len() && init[k] == v[j];
                assert(m[k] == v[j]);
            } else {
                assert(u[j] == m[m.len() - 1]);
            }
        }
        assert forall|j: int| 0 <= j < m.len() && gives_value(#[trigger] m[j], id) implies u.contains(
            m[j],
        ) by {
            if j < init.len() {
                assert(init[j] == m[j]);
                let k = choose|k: int| 0 <= k < v.len() && v[k] == init[j];
                assert(u[k] == m[j]);
            } else {
                assert(u[u.len() - 1] == m[j]);
            }
        }
    }
}

/// The updates of an item in a log that continues another.
pub proof fn lemma_updates_concat(p: Log, s: Log, id: ItemId)
    ensures
        updates_of(p + s, id) == updates_of(p, id) + updates_of(s, id),
    decreases s.len(),
{
    if s.len() == 0 {
        assert(p + s =~= p);
        assert(updates_of(p, id) + updates_of(s, id) =~= updates_of(p, id));
    } else {
        lemma_updates_concat(p, s.drop_last(), id);
        assert((p + s).drop_last() =~= p + s.drop_last());
        assert((p + s).last() == s.last());
        if gives_value(s.last(), id) {
            assert((updates_of(p, id) + updates_of(s.drop_last(), id)).push(s.last()) =~= updates_of(
                p,
                id,
            ) + updates_of(s, id));
        }
    }
}

/// Cleaning keeps the updates of every item.
pub proof fn lemma_updates_clean(m: Log, id: ItemId)
    ensures
        updates_of(clean(m), id) == updates_of(m, id),
    decreases m.len(),
{
    if m.len() > 0 {
        lemma_updates_clean(m.drop_last(), id);
        match m.last().event {
            EventView::Remove(r) if is_removed(m.drop_last(), r) => {},
            _ => {
                let out = clean(m.drop_last()).push(m.last());
                assert(out.drop_last() =~= clean(m.drop_last()));
                assert(out.last() == m.last());
            },
        }
    }
}

/// Putting an event into a log that gives the item no value keeps the
/// updates of the item.
pub proof fn lemma_updates_insert_other(r: Log, y: FrameView, id: ItemId)
    requires
        !gives_value(y, id),
    ensures
        updates_of(insert(r, y), id) == updates_of(r, id),
    decreases r.len(),
{
    if r.len() == 0 || r.last().time.le(y.time) {
        let out = r.push(y);
        assert(out.drop_last() =~= r);
        assert(out.last() == y);
    } else {
        lemma_updates_insert_other(r.drop_last(), y, id);
        let out = insert(r.drop_last(), y).push(r.last());
        assert(out.drop_last() =~= insert(r.drop_last(), y));
        assert(out.last() == r.last());
    }
}

/// An update of the item that is put into a log in which no update of the
/// item is later becomes the last of its updates.
pub proof fn lemma_updates_insert_last(r: Log, y: FrameView, id: ItemId)
    requires
        gives_value(y, id),
        forall|j: int| 0 <= j < r.len() && gives_value(#[trigger] r[j], id) ==> r[j].time.le(y.time),
    ensures
        updates_of(insert(r, y), id) == updates_of(r, id).push(y),
    decreases r.len(),
{
    if r.len() == 0 || r.last().time.le(y.time) {
        let out = r.push(y);
        assert(out.drop_last() =~= r);
        assert(out.last() == y);
    } else {
        let init = r.drop_last();
        assert(!gives_value(r[r.len() - 1], id));
        assert forall|j: int| 0 <= j < init.len() && gives_value(#[trigger] init[j], id) implies init[j].time.le(
            y.time,
        ) by {
            assert(init[j] == r[j]);
        }
        lemma_updates_insert_last(init, y, id);
        let out = insert(init, y).push(r.last());
        assert(out.drop_last() =~= insert(init, y));
        assert(out.last() == r.last());
    }
}

/// Where only the first of two ordered logs updates an item, their one
/// order holds the updates of the item as the first log does.
pub proof fn lemma_updates_sort_left(x: Log, y: Log, id: ItemId)
    requires
        sorted(x),
        updates_of(y, id).len() == 0,
    ensures
        updates_of(stable_sort(x + y), id) == updates_of(x, id),
    decreases y.len(),
{
    if y.len() == 0 {
        assert(x + y =~= x);
        lemma_sorted_fixed(x);
    } else {
        let init = y.drop_last();
        assert((x + y).drop_last() =~= x + init);
        assert((x + y).last() == y.last());
        lemma_updates_sort_left(x, init, id);
        lemma_updates_insert_other(stable_sort(x + init), y.last(), id);
    }
}

/// Where only the second of two ordered logs updates an item, their one
/// order holds the updates of the item as the second log does.
pub proof fn lemma_updates_sort_right(x: Log, y: Log, id: ItemId)
    requires
        sorted(x),
        sorted(y),
        updates_of(x, id).len() == 0,
    ensures
        updates_of(stable_sort(x + y), id) == updates_of(y, id),
    decreases y.len(),
{
    if y.len() == 0 {
        assert(x + y =~= x);
        lemma_sorted_fixed(x);
    } else {
        let init = y.drop_last();
        let e = y.last();
        assert((x + y).drop_last() =~= x + init);
        assert((x + y).last() == e);
        assert forall|i: int, j: int| 0 <= i <= j < init.len() implies (#[trigger] init[i]).time.le(
            (#[trigger] init[j]).time,
        ) by {
            assert(y[i].time.le(y[j].time));
        }
        lemma_updates_sort_right(x, init, id);
        let r = stable_sort(x + init);
        if gives_value(e, id) {
            lemma_sort_contains(x + init);
            lemma_updates(x, id);
            assert forall|j: int| 0 <= j < r.len() && gives_value(#[trigger] r[j], id) implies r[j].time.le(
                e.time,
            ) by {
                assert(r.contains(r[j]));
                assert((x + init).contains(r[j]));
                let k = choose|k: int| 0 <= k < (x + init).len() && (x + init)[k] == r[j];
                if k < x.len() {
                    assert(x[k] == r[j]);
                    assert(updates_of(x, id).contains(x[k]));
                } else {
                    assert(y[k - x.len()] == r[j]);
                    assert(y[k - x.len()].time.le(y[y.len() - 1].time));
                }
            }
            lemma_updates_insert_last(r, e, id);
        } else {
            lemma_updates_insert_other(r, e, id);
        }
    }
}

/// At most one of the two divergent tails of `x` and `y` updates `id`.
pub open spec fn touched_once(x: Log, y: Log, id: ItemId) -> bool {
    x == y || updates_of(x.skip(fork(x, y)), id).len() == 0 || updates_of(
        y.skip(fork(x, y)),
        id,
    ).len() == 0
}

/// Where at most one of the two divergent tails updates an item, the
/// reconciled log holds the updates of the item as one of the two logs
/// does, and the other log holds a beginning of them.
pub proof fn lemma_touched_once(x: Log, y: Log, id: ItemId)
    requires
        well_formed(x),
        well_formed(y),
        touched_once(x, y, id),
    ensures
        (updates_of(merged(x, y), id) == updates_of(x, id) && updates_of(y, id).is_prefix_of(
            updates_of(x, id),
        )) || (updates_of(merged(x, y), id) == updates_of(y, id) && updates_of(x, id).is_prefix_of(
            updates_of(y, id),
        )),
{
    if x != y {
        lemma_fork(x, y);
        let f = fork(x, y);
        let p = x.take(f);
        let tx = x.skip(f);
        let ty = y.skip(f);
        lemma_skip_sorted(x, f);
        lemma_skip_sorted(y, f);
        assert(x =~= p + tx);
        assert(y =~= p + ty);
        lemma_updates_concat(p, tx, id);
        lemma_updates_concat(p, ty, id);
        lemma_updates_concat(p, stable_sort(tx + ty), id);
        lemma_updates_clean(p + stable_sort(tx + ty), id);
        let up = updates_of(p, id);
        if updates_of(ty, id).len() == 0 {
            lemma_updates_sort_left(tx, ty, id);
            assert(updates_of(y, id) =~= up);
            assert(up =~= (up + updates_of(tx, id)).subrange(0, up.len() as int));
        } else {
            lemma_updates_sort_right(tx, ty, id);
            assert(updates_of(x, id) =~= up);
            assert(up =~= (up + updates_of(ty, id)).subrange(0, up.len() as int));
        }
    } else {
        assert(updates_of(x, id) =~= updates_of(x, id).subrange(0, updates_of(x, id).len() as int));
    }
}

/// A beginning of a beginning is a beginning.
pub proof fn lemma_prefix_trans(a: Log, b: Log, c: Log)
    requires
        a.is_prefix_of(b),
        b.is_prefix_of(c),
    ensures
        a.is_prefix_of(c),
{
    assert(a =~= c.subrange(0, a.len() as int)) by {
        assert forall|i: int| 0 <= i < a.len() implies a[i] == c[i] by {
            assert(a[i] == b.subrange(0, a.len() as int)[i]);
            assert(b[i] == c.subrange(0, b.len() as int)[i]);
        }
    }
}

/// Two logs that are beginnings of each other are the same.
pub proof fn lemma_prefix_antisym(a: Log, b: Log)
    requires
        a.is_prefix_of(b),
        b.is_prefix_of(a),
    ensures
        a == b,
{
    assert(a =~= b.subrange(0, a.len() as int));
    assert(b.subrange(0, a.len() as int) =~= b);
}

/// Every log is a beginning of itself.
pub proof fn lemma_prefix_refl(a: Log)
    ensures
        a.is_prefix_of(a),
{
    assert(a =~= a.subrange(0, a.len() as int));
}

/// Where no merge of either grouping finds an item updated in both
/// divergent tails, the two groupings hold the same updates of the item
/// in the same order.
pub proof fn lemma_assoc_updates(a: Log, b: Log, c: Log, id: ItemId)
    requires
        well_formed(a),
        well_formed(b),
        well_formed(c),
        touched_once(a, b, id),
        touched_once(merged(a, b), c, id),
        touched_once(b, c, id),
        touched_once(a, merged(b, c), id),
    ensures
        updates_of(merged(merged(a, b), c), id) == updates_of(merged(a, merged(b, c)), id),
{
    let ab = merged(a, b);
    let bc = merged(b, c);
    let m1 = merged(ab, c);
    let m2 = merged(a, bc);
    lemma_merged_wf(a, b);
    lemma_merged_wf(b, c);
    lemma_touched_once(a, b, id);
    lemma_touched_once(ab, c, id);
    lemma_touched_once(b, c, id);
    lemma_touched_once(a, bc, id);
    let ua = updates_of(a, id);
    let ub = updates_of(b, id);
    let uc = updates_of(c, id);
    let uab = updates_of(ab, id);
    let ubc = updates_of(bc, id);
    let u1 = updates_of(m1, id);
    let u2 = updates_of(m2, id);
    lemma_prefix_refl(ua);
    lemma_prefix_refl(ub);
    lemma_prefix_refl(uc);
    lemma_prefix_refl(uab);
    lemma_prefix_refl(ubc);
    // each outcome holds the updates of one of the three logs, and the
    // other two hold beginnings of them
    assert(ua.is_prefix_of(uab) && ub.is_prefix_of(uab));
    assert(ub.is_prefix_of(ubc) && uc.is_prefix_of(ubc));
    assert(uab.is_prefix_of(u1) && uc.is_prefix_of(u1));
    assert(ua.is_prefix_of(u2) && ubc.is_prefix_of(u2));
    lemma_prefix_trans(ua, uab, u1);
    lemma_prefix_trans(ub, uab, u1);
    lemma_prefix_trans(ub, ubc, u2);
    lemma_prefix_trans(uc, ubc, u2);
    assert(u1 == ua || u1 == ub || u1 == uc);
    assert(u2 == ua || u2 == ub || u2 == uc);
    assert(u1.is_prefix_of(u2));
    assert(u2.is_prefix_of(u1));
    lemma_prefix_antisym(u1, u2);
}

/// Associativity: three books reconciled in either grouping have the same
/// items alive, created and last changed at the same times. An item that
/// no merge of either grouping finds updated in both divergent tails also
/// has the same value; and so has every item where no two updates give
/// one item two values at one time.
pub proof fn merge_associativity(a: Log, b: Log, c: Log)
    requires
        well_formed(a),
        well_formed(b),
        well_formed(c),
    ensures
        live_ids(merged(merged(a, b), c)) == live_ids(merged(a, merged(b, c))),
        forall|id: ItemId| #[trigger]
            metadata(merged(merged(a, b), c), id) == metadata(merged(a, merged(b, c)), id),
        forall|id: ItemId|
            touched_once(a, b, id) && touched_once(merged(a, b), c, id) && touched_once(b, c, id)
                && touched_once(a, merged(b, c), id) ==> #[trigger] read(
                merged(merged(a, b), c),
                id,
            ) == read(merged(a, merged(b, c)), id),
        unambiguous(a + b + c) ==> forall|id: ItemId| #[trigger]
            read(merged(merged(a, b), c), id) == read(merged(a, merged(b, c)), id),
{
    assert forall|id: ItemId|
        touched_once(a, b, id) && touched_once(merged(a, b), c, id) && touched_once(b, c, id)
            && touched_once(a, merged(b, c), id) implies #[trigger] read(
        merged(merged(a, b), c),
        id,
    ) == read(merged(a, merged(b, c)), id) by {
        lemma_assoc_updates(a, b, c, id);
        lemma_updates(merged(merged(a, b), c), id);
        lemma_updates(merged(a, merged(b, c)), id);
    }
    let ab = merged(a, b);
    let bc = merged(b, c);
    let m1 = merged(ab, c);
    let m2 = merged(a, bc);
    lemma_merged_facts(a, b);
    lemma_merged_facts(b, c);
    lemma_merged_facts(ab, c);
    lemma_merged_facts(a, bc);
    lemma_merged_wf(a, b);
    lemma_merged_wf(b, c);
    lemma_merged_wf(ab, c);
    lemma_merged_wf(a, bc);
    assert forall|e: FrameView| !(e.event is Remove) implies (#[trigger] m1.contains(e) <==> m2.contains(e)) by {
        assert(m1.contains(e) <==> (ab.contains(e) || c.contains(e)));
        assert(m2.contains(e) <==> (a.contains(e) || bc.contains(e)));
        assert(ab.contains(e) <==> (a.contains(e) || b.contains(e)));
        assert(bc.contains(e) <==> (b.contains(e) || c.contains(e)));
    }
    assert forall|id: ItemId| #[trigger] is_removed(m1, id) <==> is_removed(m2, id) by {
        assert(is_removed(m1, id) <==> (is_removed(ab, id) || is_removed(c, id)));
        assert(is_removed(m2, id) <==> (is_removed(a, id) || is_removed(bc, id)));
        assert(is_removed(ab, id) <==> (is_removed(a, id) || is_removed(b, id)));
        assert(is_removed(bc, id) <==> (is_removed(b, id) || is_removed(c, id)));
    }
    lemma_same_live(m1, m2);
    assert forall|id: ItemId| #[trigger] metadata(m1, id) == metadata(m2, id) by {
        lemma_same_metadata(m1, m2, id);
    }
    if unambiguous(a + b + c) {
        lemma_merged_within(a, b);
        lemma_merged_within(b, c);
        lemma_merged_within(ab, c);
        lemma_merged_within(a, bc);
        lemma_concat_contains(a, b);
        lemma_concat_contains(b, c);
        lemma_concat_contains(ab, c);
        lemma_concat_contains(a, bc);
        lemma_concat_contains(a + b, c);
        lemma_concat_contains(m1, m2);
        assert forall|e1: FrameView, e2: FrameView| #[trigger] (m1 + m2).contains(e1)
            && #[trigger] (m1 + m2).contains(e2) implies agree(e1, e2) by {
            assert((a + b + c).contains(e1)) by {
                if m1.contains(e1) {
                    assert((ab + c).contains(e1));
                    if ab.contains(e1) {
                        assert((a + b).contains(e1));
                    }
                } else {
                    assert((a + bc).contains(e1));
                    if bc.contains(e1) {
                        assert((b + c).contains(e1));
                    }
                }
            }
            assert((a + b + c).contains(e2)) by {
                if m1.contains(e2) {
                    assert((ab + c).contains(e2));
                    if ab.contains(e2) {
                        assert((a + b).contains(e2));
                    }
                } else {
                    assert((a + bc).contains(e2));
                    if bc.contains(e2) {
                        assert((b + c).contains(e2));
                    }
                }
            }
        }
        assert forall|id: ItemId| #[trigger] read(m1, id) == read(m2, id) by {
            lemma_same_value(m1, m2, id);
        }
    }
}

/// Idempotent re-merge: reconciling the outcome once more with the same
/// book changes neither which items are alive nor when any item was
/// created and last changed.
pub proof fn merge_idempotent(x: Log, y: Log)
    requires
        well_formed(x),
        well_formed(y),
    ensures
        live_ids(merged(merged(x, y), y)) == live_ids(merged(x, y)),
        forall|id: ItemId| #[trigger]
            metadata(merged(merged(x, y), y), id) == metadata(merged(x, y), id),
{
    let m = merged(x, y);
    let again = merged(m, y);
    lemma_merged_facts(x, y);
    lemma_merged_facts(m, y);
    lemma_merged_wf(x, y);
    lemma_merged_wf(m, y);
    assert forall|e: FrameView| !(e.event is Remove) implies (#[trigger] again.contains(e) <==> m.contains(e)) by {
        assert(again.contains(e) <==> (m.contains(e) || y.contains(e)));
        assert(m.contains(e) <==> (x.contains(e) || y.contains(e)));
    }
    assert forall|id: ItemId| #[trigger] is_removed(again, id) <==> is_removed(m, id) by {
        assert(is_removed(again, id) <==> (is_removed(m, id) || is_removed(y, id)));
        assert(is_removed(m, id) <==> (is_removed(x, id) || is_removed(y, id)));
    }
    lemma_same_live(again, m);
    assert forall|id: ItemId| #[trigger] metadata(again, id) == metadata(m, id) by {
        lemma_same_metadata(again, m, id);
    }
}

} // verus!
