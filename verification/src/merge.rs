//! Reconciling two versions of one book: where they fork, how their
//! divergent tails are combined, and what the combined log keeps.

use vstd::prelude::*;
use crate::book::{Book, BookView, EventFrame, ItemId, contains_id, frames};
use crate::log::{
    EventView, FrameView, Log, created_before, dangling_at, grounded, is_created, is_removed,
    orphan_at, sorted, well_formed,
};

verus! {

/// Error when merging two versions of a password book together
#[derive(Debug, Clone, Copy, PartialEq, Eq, Structural)]
pub enum VersionMergeError {
    DifferentOrigins,
}

/// The first position from `k` on at which two logs disagree, or the
/// length of the shorter one where they do not.
pub open spec fn fork_from(a: Log, b: Log, k: int) -> int
    decreases a.len() - k,
{
    if k < 0 || k >= a.len() || k >= b.len() || a[k] != b[k] {
        k
    } else {
        fork_from(a, b, k + 1)
    }
}

/// The fork point of two logs: the first position at which they disagree,
/// or the length of the shorter one where one is a prefix of the other.
pub open spec fn fork(a: Log, b: Log) -> int {
    fork_from(a, b, 0)
}

/// The log with `x` put behind every event that is not later than it.
pub open spec fn insert(r: Log, x: FrameView) -> Log
    decreases r.len(),
{
    if r.len() == 0 || r.last().time.le(x.time) {
        r.push(x)
    } else {
        insert(r.drop_last(), x).push(r.last())
    }
}

/// The events ordered by time; events of the same time keep their order.
pub open spec fn stable_sort(s: Log) -> Log
    decreases s.len(),
{
    if s.len() == 0 {
        s
    } else {
        insert(stable_sort(s.drop_last()), s.last())
    }
}

/// The log without the removals of an item that an earlier event has
/// removed already.
pub open spec fn clean(s: Log) -> Log
    decreases s.len(),
{
    if s.len() == 0 {
        s
    } else {
        match s.last().event {
            EventView::Remove(id) if is_removed(s.drop_last(), id) => clean(s.drop_last()),
            _ => clean(s.drop_last()).push(s.last()),
        }
    }
}

/// The log that reconciles `a` with `b`: their common prefix, then their
/// divergent tails in one order by time (on a tie `a` before `b`), without
/// repeated removals. Equal logs stay as they are.
pub open spec fn merged(a: Log, b: Log) -> Log {
    if a == b {
        a
    } else {
        clean(a.take(fork(a, b)) + stable_sort(a.skip(fork(a, b)) + b.skip(fork(a, b))))
    }
}

/// The position at which `insert` puts `x`.
pub open spec fn insert_pos(r: Log, x: FrameView) -> int
    decreases r.len(),
{
    if r.len() == 0 || r.last().time.le(x.time) {
        r.len() as int
    } else {
        insert_pos(r.drop_last(), x)
    }
}

/// What `insert` yields, position by position.
pub proof fn lemma_insert(r: Log, x: FrameView)
    ensures
        0 <= insert_pos(r, x) <= r.len(),
        insert(r, x).len() == r.len() + 1,
        forall|j: int| 0 <= j < insert_pos(r, x) ==> insert(r, x)[j] == r[j],
        insert(r, x)[insert_pos(r, x)] == x,
        forall|j: int| insert_pos(r, x) < j <= r.len() ==> insert(r, x)[j] == r[j - 1],
        forall|j: int| insert_pos(r, x) <= j < r.len() ==> !(#[trigger] r[j]).time.le(x.time),
        insert_pos(r, x) > 0 ==> r[insert_pos(r, x) - 1].time.le(x.time),
    decreases r.len(),
{
    if !(r.len() == 0 || r.last().time.le(x.time)) {
        let init = r.drop_last();
        lemma_insert(init, x);
        let k = insert_pos(r, x);
        let out = insert(r, x);
        assert(k == insert_pos(init, x));
        assert(out == insert(init, x).push(r.last()));
        assert forall|j: int| 0 <= j < k implies out[j] == r[j] by {
            assert(insert(init, x)[j] == init[j]);
        }
        assert forall|j: int| k < j <= r.len() implies out[j] == r[j - 1] by {
            if j < r.len() {
                assert(insert(init, x)[j] == init[j - 1]);
            }
        }
        assert forall|j: int| k <= j < r.len() implies !(#[trigger] r[j]).time.le(x.time) by {
            if j < init.len() {
                assert(!init[j].time.le(x.time));
            }
        }
        if k > 0 {
            assert(init[k - 1] == r[k - 1]);
        }
    }
}

/// The fork point lies within both logs, and before it they agree.
pub proof fn lemma_fork_from(a: Log, b: Log, k: int)
    requires
        0 <= k <= a.len(),
        k <= b.len(),
        forall|j: int| 0 <= j < k ==> a[j] == b[j],
    ensures
        k <= fork_from(a, b, k) <= a.len(),
        fork_from(a, b, k) <= b.len(),
        forall|j: int| 0 <= j < fork_from(a, b, k) ==> a[j] == b[j],
        fork_from(a, b, k) < a.len() && fork_from(a, b, k) < b.len() ==> a[fork_from(a, b, k)]
            != b[fork_from(a, b, k)],
        fork_from(a, b, k) == fork_from(b, a, k),
    decreases a.len() - k,
{
    if !(k >= a.len() || k >= b.len() || a[k] != b[k]) {
        lemma_fork_from(a, b, k + 1);
    }
}

/// The fork point lies within both logs, before it they agree, and it
/// does not depend on the order of the two.
pub proof fn lemma_fork(a: Log, b: Log)
    ensures
        0 <= fork(a, b) <= a.len(),
        fork(a, b) <= b.len(),
        a.take(fork(a, b)) == b.take(fork(a, b)),
        fork(a, b) < a.len() && fork(a, b) < b.len() ==> a[fork(a, b)] != b[fork(a, b)],
        fork(a, b) == fork(b, a),
        (fork(a, b) == a.len() && fork(a, b) == b.len()) <==> a == b,
{
    lemma_fork_from(a, b, 0);
    let f = fork(a, b);
    assert(a.take(f) =~= b.take(f));
    if f == a.len() && f == b.len() {
        assert(a =~= b);
    }
}

/// Putting an event into an ordered log keeps the log ordered.
pub proof fn lemma_insert_sorted(r: Log, x: FrameView)
    requires
        sorted(r),
    ensures
        sorted(insert(r, x)),
{
    lemma_insert(r, x);
    let k = insert_pos(r, x);
    let out = insert(r, x);
    assert forall|i: int, j: int| 0 <= i <= j < out.len() implies (#[trigger] out[i]).time.le(
        (#[trigger] out[j]).time,
    ) by {
        if i < k && j < k {
            assert(r[i].time.le(r[j].time));
        } else if i < k && j == k {
            assert(r[i].time.le(r[k - 1].time));
        } else if i < k && j > k {
            assert(r[i].time.le(r[j - 1].time));
        } else if i == k && j > k {
            assert(!r[j - 1].time.le(x.time));
        } else if i > k {
            assert(r[i - 1].time.le(r[j - 1].time));
        }
    }
}

/// The ordered events are as many as before, and they are ordered.
pub proof fn lemma_sort_sorted(s: Log)
    ensures
        stable_sort(s).len() == s.len(),
        sorted(stable_sort(s)),
    decreases s.len(),
{
    if s.len() > 0 {
        lemma_sort_sorted(s.drop_last());
        lemma_insert(stable_sort(s.drop_last()), s.last());
        lemma_insert_sorted(stable_sort(s.drop_last()), s.last());
    }
}

/// `insert` adds the one event and loses none.
pub proof fn lemma_insert_contains(r: Log, x: FrameView)
    ensures
        forall|e: FrameView| #[trigger] insert(r, x).contains(e) <==> (r.contains(e) || e == x),
{
    lemma_insert(r, x);
    let k = insert_pos(r, x);
    let out = insert(r, x);
    assert forall|e: FrameView| #[trigger] out.contains(e) <==> (r.contains(e) || e == x) by {
        if out.contains(e) {
            let j = choose|j: int| 0 <= j < out.len() && out[j] == e;
            if j < k {
                assert(r[j] == e);
            } else if j > k {
                assert(r[j - 1] == e);
            }
        }
        if r.contains(e) {
            let j = choose|j: int| 0 <= j < r.len() && r[j] == e;
            if j < k {
                assert(out[j] == e);
            } else {
                assert(out[j + 1] == e);
            }
        }
        if e == x {
            assert(out[k] == e);
        }
    }
}

/// Ordering neither adds nor loses an event.
pub proof fn lemma_sort_contains(s: Log)
    ensures
        forall|e: FrameView| #[trigger] stable_sort(s).contains(e) <==> s.contains(e),
    decreases s.len(),
{
    if s.len() > 0 {
        let init = s.drop_last();
        lemma_sort_contains(init);
        lemma_insert_contains(stable_sort(init), s.last());
        assert forall|e: FrameView| #[trigger] stable_sort(s).contains(e) <==> s.contains(e) by {
            if s.contains(e) {
                let j = choose|j: int| 0 <= j < s.len() && s[j] == e;
                if j < init.len() {
                    assert(init[j] == e);
                }
            }
            if init.contains(e) {
                let j = choose|j: int| 0 <= j < init.len() && init[j] == e;
                assert(s[j] == e);
            }
            if e == s.last() {
                assert(s[s.len() - 1] == e);
            }
        }
    }
}

/// An event that is first and earliest stays first.
pub proof fn lemma_sort_first(s: Log)
    requires
        s.len() > 0,
        forall|j: int| 0 <= j < s.len() ==> s[0].time.le((#[trigger] s[j]).time),
    ensures
        stable_sort(s).len() == s.len(),
        stable_sort(s)[0] == s[0],
    decreases s.len(),
{
    let init = s.drop_last();
    lemma_sort_sorted(s);
    lemma_insert(stable_sort(init), s.last());
    if init.len() > 0 {
        assert forall|j: int| 0 <= j < init.len() implies init[0].time.le((#[trigger] init[j]).time) by {
            assert(s[j] == init[j]);
        }
        lemma_sort_first(init);
        lemma_sort_sorted(init);
        assert(s[0] == init[0]);
        assert(s[0].time.le(s[s.len() - 1].time));
        assert(stable_sort(init)[0].time.le(s.last().time));
    }
}

/// Some event of a log with one more event removes `id` exactly if the
/// last one does or one before it.
pub proof fn lemma_is_removed_step(s: Log, id: ItemId)
    requires
        s.len() > 0,
    ensures
        is_removed(s, id) <==> (is_removed(s.drop_last(), id) || s.last().event
            == EventView::Remove(id)),
{
    let init = s.drop_last();
    if is_removed(s, id) {
        let i = choose|i: int| 0 <= i < s.len() && #[trigger] s[i].event == EventView::Remove(id);
        if i < init.len() {
            assert(init[i].event == EventView::Remove(id));
        }
    }
    if is_removed(init, id) {
        let i = choose|i: int| 0 <= i < init.len() && #[trigger] init[i].event == EventView::Remove(id);
        assert(s[i].event == EventView::Remove(id));
    }
    if s.last().event == EventView::Remove(id) {
        assert(s[s.len() - 1].event == EventView::Remove(id));
    }
}

/// Cleaning keeps events in their order: every kept event stems from the
/// log, and a log that ends in a creation keeps it at its end.
pub proof fn lemma_clean_contains(s: Log)
    ensures
        clean(s).len() <= s.len(),
        forall|e: FrameView| #[trigger] clean(s).contains(e) ==> s.contains(e),
        forall|e: FrameView| #[trigger] s.contains(e) && !(e.event is Remove) ==> clean(s).contains(e),
        forall|id: ItemId| #[trigger] is_removed(clean(s), id) <==> is_removed(s, id),
        s.len() > 0 && !(s.last().event is Remove) ==> clean(s).len() > 0 && clean(s).last()
            == s.last(),
    decreases s.len(),
{
    if s.len() > 0 {
        let init = s.drop_last();
        let x = s.last();
        lemma_clean_contains(init);
        let c = clean(init);
        let out = clean(s);
        assert forall|e: FrameView| #[trigger] out.contains(e) implies s.contains(e) by {
            let j = choose|j: int| 0 <= j < out.len() && out[j] == e;
            if j < c.len() {
                assert(c[j] == e);
                assert(c.contains(e));
                let i = choose|i: int| 0 <= i < init.len() && init[i] == e;
                assert(s[i] == e);
            } else {
                assert(s[s.len() - 1] == e);
            }
        }
        assert forall|e: FrameView| #[trigger] s.contains(e) && !(e.event is Remove) implies out.contains(e) by {
            let i = choose|i: int| 0 <= i < s.len() && s[i] == e;
            if i < init.len() {
                assert(init[i] == e);
                assert(init.contains(e));
                let j = choose|j: int| 0 <= j < c.len() && c[j] == e;
                assert(out[j] == e);
            } else {
                assert(out[out.len() - 1] == e);
            }
        }
        assert forall|id: ItemId| #[trigger] is_removed(out, id) <==> is_removed(s, id) by {
            lemma_is_removed_step(s, id);
            if out.len() > 0 && out.drop_last() =~= c && out.last() == x {
                lemma_is_removed_step(out, id);
            }
        }
    }
}

/// Cleaning an ordered log leaves it ordered.
pub proof fn lemma_clean_sorted(s: Log)
    requires
        sorted(s),
    ensures
        sorted(clean(s)),
    decreases s.len(),
{
    if s.len() > 0 {
        let init = s.drop_last();
        let c = clean(init);
        let out = clean(s);
        assert forall|i: int, j: int| 0 <= i <= j < init.len() implies (#[trigger] init[i]).time.le(
            (#[trigger] init[j]).time,
        ) by {
            assert(s[i].time.le(s[j].time));
        }
        lemma_clean_sorted(init);
        lemma_clean_contains(init);
        assert forall|i: int, j: int| 0 <= i <= j < out.len() implies (#[trigger] out[i]).time.le(
            (#[trigger] out[j]).time,
        ) by {
            if j < c.len() {
                assert(c[i].time.le(c[j].time));
            } else if i < c.len() {
                assert(c.contains(c[i]));
                let k = choose|k: int| 0 <= k < init.len() && init[k] == c[i];
                assert(s[k].time.le(s[s.len() - 1].time));
            }
        }
    }
}

/// No creation but the last event of the log lacks its first update.
pub open spec fn paired_but_last(s: Log) -> bool {
    forall|i: int| 0 <= i < s.len() - 1 ==> !#[trigger] dangling_at(s, i)
}

/// Ordering keeps every creation directly before its first update. Where the
/// log ends in a creation, that creation alone stands without one, before
/// events that are all later.
pub proof fn lemma_sort_paired(s: Log)
    requires
        paired_but_last(s),
    ensures
        forall|i: int|
            0 <= i < stable_sort(s).len() && #[trigger] dangling_at(stable_sort(s), i) ==> s.len()
                > 0 && s.last().event is Create && stable_sort(s)[i] == s.last() && forall|j: int|
                i < j < stable_sort(s).len() ==> !(#[trigger] stable_sort(s)[j]).time.le(
                    s.last().time,
                ),
    decreases s.len(),
{
    if s.len() > 0 {
        let init = s.drop_last();
        let x = s.last();
        let r = stable_sort(init);
        let out = stable_sort(s);
        assert forall|i: int| 0 <= i < init.len() - 1 implies !#[trigger] dangling_at(init, i) by {
            assert(!dangling_at(s, i));
        }
        lemma_sort_paired(init);
        lemma_sort_sorted(init);
        lemma_insert(r, x);
        let k = insert_pos(r, x);
        assert forall|i: int| 0 <= i < out.len() && #[trigger] dangling_at(out, i) implies x.event is Create
            && out[i] == x && forall|j: int|
            i < j < out.len() ==> !(#[trigger] out[j]).time.le(x.time) by {
            if i < k {
                assert(out[i] == r[i]);
                if dangling_at(r, i) {
                    // the creation that ended `init`: `x` is its first update
                    assert(init.last().event is Create);
                    assert(!dangling_at(s, s.len() - 2));
                    assert(x.time == init.last().time);
                    if i + 1 < k {
                        assert(!r[i + 1].time.le(init.last().time));
                        assert(r[i + 1].time.le(r[k - 1].time));
                    }
                    assert(i + 1 == k);
                    assert(out[i + 1] == x);
                    assert(false);
                } else {
                    assert(i + 1 < r.len());
                    if i + 1 == k {
                        assert(!r[k].time.le(x.time));
                        assert(r[i].time.le(r[k - 1].time));
                        assert(false);
                    }
                    assert(out[i + 1] == r[i + 1]);
                    assert(false);
                }
            } else if i > k {
                assert(out[i] == r[i - 1]);
                if i < out.len() - 1 {
                    assert(out[i + 1] == r[i]);
                }
                assert(dangling_at(r, i - 1));
                assert(!r[i - 1].time.le(x.time));
                assert(init.last().event is Create);
                assert(!dangling_at(s, s.len() - 2));
                assert(false);
            } else {
                assert forall|j: int| i < j < out.len() implies !(#[trigger] out[j]).time.le(x.time) by {
                    assert(out[j] == r[j - 1]);
                }
            }
        }
    }
}

/// Cleaning keeps every creation directly before its first update. Where the
/// log ends in a creation, that creation alone stands without one, at the end.
pub proof fn lemma_clean_paired(s: Log)
    requires
        paired_but_last(s),
    ensures
        forall|i: int|
            0 <= i < clean(s).len() && #[trigger] dangling_at(clean(s), i) ==> s.len() > 0
                && s.last().event is Create && i == clean(s).len() - 1,
    decreases s.len(),
{
    if s.len() > 0 {
        let init = s.drop_last();
        let x = s.last();
        let c = clean(init);
        let out = clean(s);
        assert forall|i: int| 0 <= i < init.len() - 1 implies !#[trigger] dangling_at(init, i) by {
            assert(!dangling_at(s, i));
        }
        lemma_clean_paired(init);
        lemma_clean_contains(init);
        assert forall|i: int| 0 <= i < out.len() && #[trigger] dangling_at(out, i) implies x.event is Create
            && i == out.len() - 1 by {
            if i < c.len() {
                assert(out[i] == c[i]);
                if dangling_at(c, i) {
                    assert(init.last().event is Create);
                    assert(i == c.len() - 1);
                    assert(!dangling_at(s, s.len() - 2));
                    assert(out == c.push(x));
                    assert(out[i + 1] == x);
                    assert(false);
                } else {
                    assert(out[i + 1] == c[i + 1]);
                    assert(false);
                }
            }
        }
    }
}

/// Position `i` of `out` holds a creation, or follows a creation of its
/// item, or its item is created in `base`.
pub open spec fn rooted_at(base: Log, out: Log, i: int) -> bool {
    out[i].event is Create || created_before(out, i, out[i].event.id()) || is_created(
        base,
        out[i].event.id(),
    )
}

/// Every update and removal of `out` follows a creation of its item in
/// `out`, or its item is created in `base`.
pub open spec fn rooted(base: Log, out: Log) -> bool {
    forall|i: int| 0 <= i < out.len() ==> #[trigger] rooted_at(base, out, i)
}

/// Position `i` of `s` holds a creation, or an earlier event of `s` that
/// is not later creates its item, or its item is created in `base`.
pub open spec fn rooted_in_time_at(base: Log, s: Log, i: int) -> bool {
    s[i].event is Create || is_created(base, s[i].event.id()) || exists|j: int|
        0 <= j < i && #[trigger] s[j].event == EventView::Create(s[i].event.id()) && s[j].time.le(
            s[i].time,
        )
}

/// Putting an event into a log keeps every event behind the creation of
/// its item, where a creation of the new event's item that is not later
/// is in the log already.
pub proof fn lemma_insert_rooted(base: Log, r: Log, x: FrameView)
    requires
        rooted(base, r),
        x.event is Create || is_created(base, x.event.id()) || exists|j: int|
            0 <= j < r.len() && #[trigger] r[j].event == EventView::Create(x.event.id())
                && r[j].time.le(x.time),
    ensures
        rooted(base, insert(r, x)),
{
    lemma_insert(r, x);
    let k = insert_pos(r, x);
    let out = insert(r, x);
    assert forall|q: int| 0 <= q < out.len() implies #[trigger] rooted_at(base, out, q) by {
        let id = out[q].event.id();
        if q < k {
            assert(rooted_at(base, r, q));
            if created_before(r, q, id) {
                let p = choose|p: int|
                    0 <= p < q && p < r.len() && #[trigger] r[p].event == EventView::Create(id);
                assert(out[p].event == EventView::Create(id));
            }
        } else if q == k {
            if !(x.event is Create) && !is_created(base, id) {
                let j = choose|j: int|
                    0 <= j < r.len() && #[trigger] r[j].event == EventView::Create(x.event.id())
                        && r[j].time.le(x.time);
                assert(j < k);
                assert(out[j].event == EventView::Create(id));
            }
        } else {
            assert(rooted_at(base, r, q - 1));
            if created_before(r, q - 1, id) {
                let p = choose|p: int|
                    0 <= p < q - 1 && p < r.len() && #[trigger] r[p].event == EventView::Create(id);
                if p < k {
                    assert(out[p].event == EventView::Create(id));
                } else {
                    assert(out[p + 1].event == EventView::Create(id));
                }
            }
        }
    }
}

/// Ordering by time keeps every event behind the creation of its item,
/// where the creation stood before it and was not later.
pub proof fn lemma_sort_rooted(base: Log, s: Log)
    requires
        forall|i: int| 0 <= i < s.len() ==> #[trigger] rooted_in_time_at(base, s, i),
    ensures
        rooted(base, stable_sort(s)),
    decreases s.len(),
{
    if s.len() > 0 {
        let init = s.drop_last();
        let x = s.last();
        assert forall|i: int| 0 <= i < init.len() implies #[trigger] rooted_in_time_at(
            base,
            init,
            i,
        ) by {
            assert(rooted_in_time_at(base, s, i));
            if !(s[i].event is Create) && !is_created(base, s[i].event.id()) {
                let j = choose|j: int|
                    0 <= j < i && #[trigger] s[j].event == EventView::Create(s[i].event.id())
                        && s[j].time.le(s[i].time);
                assert(init[j].event == EventView::Create(init[i].event.id()));
            }
        }
        lemma_sort_rooted(base, init);
        lemma_sort_contains(init);
        lemma_sort_sorted(init);
        let r = stable_sort(init);
        assert(rooted_in_time_at(base, s, s.len() - 1));
        if !(x.event is Create) && !is_created(base, x.event.id()) {
            let j = choose|j: int|
                0 <= j < s.len() - 1 && #[trigger] s[j].event == EventView::Create(x.event.id())
                    && s[j].time.le(x.time);
            assert(init[j] == s[j]);
            assert(init.contains(s[j]));
            assert(r.contains(s[j]));
            let m = choose|m: int| 0 <= m < r.len() && r[m] == s[j];
            assert(r[m].event == EventView::Create(x.event.id()) && r[m].time.le(x.time));
        }
        lemma_insert_rooted(base, r, x);
    }
}

/// Cleaning keeps every event behind the creation of its item.
pub proof fn lemma_clean_grounded(s: Log)
    requires
        grounded(s),
    ensures
        grounded(clean(s)),
    decreases s.len(),
{
    if s.len() > 0 {
        let init = s.drop_last();
        let x = s.last();
        assert forall|i: int| 0 <= i < init.len() implies !#[trigger] orphan_at(init, i) by {
            assert(!orphan_at(s, i));
            if !(s[i].event is Create) {
                let j = choose|j: int|
                    0 <= j < i && j < s.len() && #[trigger] s[j].event == EventView::Create(
                        s[i].event.id(),
                    );
                assert(init[j].event == EventView::Create(init[i].event.id()));
            }
        }
        lemma_clean_grounded(init);
        lemma_clean_contains(init);
        let c = clean(init);
        let out = clean(s);
        if out.len() == c.len() + 1 && out.drop_last() =~= c && out.last() == x {
            assert forall|i: int| 0 <= i < out.len() implies !#[trigger] orphan_at(out, i) by {
                let id = out[i].event.id();
                if i < c.len() {
                    assert(!orphan_at(c, i));
                    assert(out[i] == c[i]);
                    if !(c[i].event is Create) {
                        let j = choose|j: int|
                            0 <= j < i && j < c.len() && #[trigger] c[j].event
                                == EventView::Create(id);
                        assert(out[j].event == EventView::Create(id));
                    }
                } else if !(x.event is Create) {
                    assert(!orphan_at(s, s.len() - 1));
                    let j = choose|j: int|
                        0 <= j < s.len() - 1 && j < s.len() && #[trigger] s[j].event
                            == EventView::Create(id);
                    assert(init[j] == s[j]);
                    assert(init.contains(s[j]));
                    assert(c.contains(s[j]));
                    let m = choose|m: int| 0 <= m < c.len() && c[m] == s[j];
                    assert(out[m].event == EventView::Create(id));
                }
            }
        } else {
            assert(out == c);
        }
    }
}

/// Reconciling two well-formed logs yields a well-formed log.
pub proof fn lemma_merged_wf(a: Log, b: Log)
    requires
        well_formed(a),
        well_formed(b),
    ensures
        well_formed(merged(a, b)),
{
    if a != b {
        lemma_fork(a, b);
        let f = fork(a, b);
        let prefix = a.take(f);
        let ta = a.skip(f);
        let tb = b.skip(f);
        let s = ta + tb;
        let st = stable_sort(s);
        let whole = prefix + st;
        lemma_sort_sorted(s);
        lemma_sort_contains(s);
        // the combined tail pairs every creation with its first update
        assert forall|i: int| 0 <= i < s.len() implies !#[trigger] dangling_at(s, i) by {
            if i < ta.len() {
                assert(s[i] == a[f + i]);
                assert(!dangling_at(a, f + i));
                if s[i].event is Create {
                    assert(s[i + 1] == a[f + i + 1]);
                }
            } else {
                assert(s[i] == b[f + i - ta.len()]);
                assert(!dangling_at(b, f + i - ta.len()));
                if s[i].event is Create {
                    assert(s[i + 1] == b[f + i - ta.len() + 1]);
                }
            }
        }
        lemma_sort_paired(s);
        if s.len() > 0 {
            assert(!dangling_at(s, s.len() - 1));
        }
        // every event of the tails is at least as late as the common prefix
        assert forall|i: int, j: int| 0 <= i < f && 0 <= j < st.len() implies (#[trigger] prefix[i]).time.le(
            (#[trigger] st[j]).time,
        ) by {
            assert(st.contains(st[j]));
            assert(s.contains(st[j]));
            let m = choose|m: int| 0 <= m < s.len() && s[m] == st[j];
            if m < ta.len() {
                assert(a[i].time.le(a[f + m].time));
            } else {
                assert(b[i].time.le(b[f + m - ta.len()].time));
                assert(prefix[i] == b.take(f)[i]);
            }
        }
        assert forall|i: int, j: int| 0 <= i <= j < whole.len() implies (#[trigger] whole[i]).time.le(
            (#[trigger] whole[j]).time,
        ) by {
            if j < f {
                assert(a[i].time.le(a[j].time));
            } else if i < f {
                assert(prefix[i].time.le(st[j - f].time));
            } else {
                assert(st[i - f].time.le(st[j - f].time));
            }
        }
        assert forall|i: int| 0 <= i < whole.len() implies !#[trigger] dangling_at(whole, i) by {
            if i < f - 1 {
                assert(!dangling_at(a, i));
                assert(whole[i] == a[i]);
                assert(whole[i + 1] == a[i + 1]);
            } else if i == f - 1 {
                assert(whole[i] == a[i]);
                assert(!dangling_at(a, i));
                if a[i].event is Create {
                    // the first update follows in both tails, and it is the earliest there
                    assert(prefix[i] == b.take(f)[i]);
                    assert(!dangling_at(b, i));
                    assert(s[0] == a[f]);
                    assert forall|j: int| 0 <= j < s.len() implies s[0].time.le((#[trigger] s[j]).time) by {
                        if j < ta.len() {
                            assert(a[f].time.le(a[f + j].time));
                        } else {
                            assert(b[f].time.le(b[f + j - ta.len()].time));
                        }
                    }
                    lemma_sort_first(s);
                    assert(whole[i + 1] == st[0]);
                }
            } else {
                assert(whole[i] == st[i - f]);
                assert(!dangling_at(st, i - f));
                if st[i - f].event is Create {
                    assert(whole[i + 1] == st[i - f + 1]);
                }
            }
        }
        lemma_clean_sorted(whole);
        assert(paired_but_last(whole));
        lemma_clean_paired(whole);
        if whole.len() > 0 {
            assert(!dangling_at(whole, whole.len() - 1));
        }
        // the creation of an item stands before its other events in each
        // tail, or in the common prefix, and is not later than they are
        assert forall|i: int| 0 <= i < s.len() implies #[trigger] rooted_in_time_at(prefix, s, i) by {
            let id = s[i].event.id();
            if !(s[i].event is Create) {
                if i < ta.len() {
                    assert(s[i] == a[f + i]);
                    assert(!orphan_at(a, f + i));
                    let j = choose|j: int|
                        0 <= j < f + i && j < a.len() && #[trigger] a[j].event == EventView::Create(
                            id,
                        );
                    if j < f {
                        assert(prefix[j].event == EventView::Create(id));
                    } else {
                        assert(s[j - f] == a[j]);
                        assert(a[j].time.le(a[f + i].time));
                    }
                } else {
                    let n = f + i - ta.len();
                    assert(s[i] == b[n]);
                    assert(!orphan_at(b, n));
                    let j = choose|j: int|
                        0 <= j < n && j < b.len() && #[trigger] b[j].event == EventView::Create(id);
                    if j < f {
                        assert(prefix[j] == b.take(f)[j]);
                        assert(prefix[j].event == EventView::Create(id));
                    } else {
                        assert(s[ta.len() + j - f] == b[j]);
                        assert(b[j].time.le(b[n].time));
                    }
                }
            }
        }
        lemma_sort_rooted(prefix, s);
        assert forall|i: int| 0 <= i < whole.len() implies !#[trigger] orphan_at(whole, i) by {
            let id = whole[i].event.id();
            if !(whole[i].event is Create) {
                if i < f {
                    assert(whole[i] == a[i]);
                    assert(!orphan_at(a, i));
                    let j = choose|j: int|
                        0 <= j < i && j < a.len() && #[trigger] a[j].event == EventView::Create(id);
                    assert(whole[j].event == EventView::Create(id));
                } else {
                    assert(whole[i] == st[i - f]);
                    assert(rooted_at(prefix, st, i - f));
                    if created_before(st, i - f, id) {
                        let j = choose|j: int|
                            0 <= j < i - f && j < st.len() && #[trigger] st[j].event
                                == EventView::Create(id);
                        assert(whole[f + j].event == EventView::Create(id));
                    } else {
                        let j = choose|j: int|
                            0 <= j < prefix.len() && #[trigger] prefix[j].event
                                == EventView::Create(id);
                        assert(whole[j].event == EventView::Create(id));
                    }
                }
            }
        }
        lemma_clean_grounded(whole);
    }
}

/// Orders events by time; events of the same time keep their order.
pub fn sort_frames(v: &Vec<EventFrame>) -> (r: Vec<EventFrame>)
    ensures
        frames(r@) == stable_sort(frames(v@)),
{
    let ghost log = frames(v@);
    let mut out: Vec<EventFrame> = Vec::new();
    let mut i: usize = 0;
    assert(log.take(0) =~= Seq::<FrameView>::empty());
    assert(frames(out@) =~= Seq::<FrameView>::empty());
    while i < v.len()
        invariant
            i <= v.len(),
            log == frames(v@),
            out.len() == i,
            frames(out@) == stable_sort(log.take(i as int)),
        decreases v.len() - i,
    {
        let x = v[i].clone();
        let ghost before = frames(out@);
        let mut k: usize = out.len();
        while k > 0 && !out[k - 1].time.not_after(&x.time)
            invariant
                k <= out.len(),
                before == frames(out@),
                forall|j: int| k <= j < out.len() ==> !(#[trigger] before[j]).time.le(x.time),
            decreases k,
        {
            assert(before[k - 1] == out@[k - 1]@);
            k -= 1;
        }
        proof {
            lemma_insert(before, x@);
            let p = insert_pos(before, x@);
            if k > 0 {
                assert(before[k - 1] == out@[k - 1]@);
            }
            if (k as int) < p {
                assert(!before[p - 1].time.le(x.time));
            }
            if (k as int) > p {
                assert(!before[k - 1].time.le(x.time));
            }
            assert(k == p);
            assert(log.take(i + 1).drop_last() =~= log.take(i as int));
            assert(log.take(i + 1).last() == v@[i as int]@);
        }
        let ghost prev = out@;
        out.insert(k, x);
        proof {
            let after = frames(out@);
            let want = insert(before, x@);
            assert(after.len() == want.len());
            assert forall|j: int| 0 <= j < after.len() implies after[j] == want[j] by {
                assert(after[j] == out@[j]@);
                if j < k {
                    assert(before[j] == prev[j]@);
                } else if j > k {
                    assert(before[j - 1] == prev[j - 1]@);
                }
            }
            assert(after =~= want);
        }
        i += 1;
    }
    assert(log.take(i as int) =~= log);
    out
}

/// Drops the removals of an item that an earlier event has removed already.
pub fn clean_frames(v: &Vec<EventFrame>) -> (r: Vec<EventFrame>)
    ensures
        frames(r@) == clean(frames(v@)),
{
    let ghost log = frames(v@);
    let mut out: Vec<EventFrame> = Vec::new();
    let mut removed: Vec<ItemId> = Vec::new();
    let mut i: usize = 0;
    assert(log.take(0) =~= Seq::<FrameView>::empty());
    assert(frames(out@) =~= Seq::<FrameView>::empty());
    while i < v.len()
        invariant
            i <= v.len(),
            log == frames(v@),
            frames(out@) == clean(log.take(i as int)),
            forall|id: ItemId| removed@.contains(id) <==> is_removed(log.take(i as int), id),
        decreases v.len() - i,
    {
        let ghost before = frames(out@);
        let ghost seen = removed@;
        proof {
            assert(log.take(i + 1).drop_last() =~= log.take(i as int));
            assert(log.take(i + 1).last() == v@[i as int]@);
        }
        let keep = match v[i].removes_id() {
            Some(id) => {
                if contains_id(&removed, id) {
                    false
                } else {
                    removed.push(id);
                    true
                }
            },
            None => true,
        };
        if keep {
            out.push(v[i].clone());
            assert(frames(out@) =~= before.push(v@[i as int]@));
        }
        proof {
            assert forall|id: ItemId| removed@.contains(id) <==> is_removed(log.take(i + 1), id) by {
                lemma_is_removed_step(log.take(i + 1), id);
                if seen.contains(id) && removed@ != seen {
                    let j = choose|j: int| 0 <= j < seen.len() && seen[j] == id;
                    assert(removed@[j] == id);
                }
                if removed@ != seen {
                    assert(removed@ == seen.push(removed@[seen.len() as int]));
                    if removed@.contains(id) && !seen.contains(id) {
                        let j = choose|j: int| 0 <= j < removed@.len() && removed@[j] == id;
                        if j < seen.len() {
                            assert(seen[j] == id);
                        }
                    }
                }
            }
        }
        i += 1;
    }
    assert(log.take(i as int) =~= log);
    out
}

impl Book {
    /// Check if two books have same origin, i.e. creation time, and can be merged together
    pub fn has_same_origin(&self, other: &Self) -> (r: bool)
        ensures
            r == (self@.created == other@.created),
    {
        self.creation_time() == other.creation_time()
    }

    /// Where the two books fork; nothing where they hold the same events.
    pub fn differ_index(&self, other: &Self) -> (r: Option<usize>)
        ensures
            match r {
                None => self@.events == other@.events,
                Some(k) => self@.events != other@.events && k == fork(self@.events, other@.events),
            },
    {
        let ghost a = self@.events;
        let ghost b = other@.events;
        let mine = self.events();
        let theirs = other.events();
        proof {
            lemma_fork(a, b);
        }
        let mut i: usize = 0;
        while i < mine.len() && i < theirs.len()
            invariant
                i <= mine.len(),
                i <= theirs.len(),
                a == frames(mine@),
                b == frames(theirs@),
                a == self@.events,
                b == other@.events,
                fork(a, b) == fork_from(a, b, i as int),
            decreases mine.len() - i,
        {
            assert(a[i as int] == mine@[i as int]@);
            assert(b[i as int] == theirs@[i as int]@);
            if !mine[i].same(&theirs[i]) {
                assert(a[i as int] != b[i as int]);
                return Some(i);
            }
            i += 1;
        }
        if mine.len() == theirs.len() {
            None
        } else {
            Some(i)
        }
    }

    /// Merge two versions of one password book together: the common
    /// prefix of the two logs, then both divergent tails in one order by
    /// time, without repeated removals.
    pub fn merge_versions(self, other: &Self) -> (r: Result<Self, VersionMergeError>)
        requires
            self.wf(),
            other.wf(),
        ensures
            match r {
                Ok(book) => self@.created == other@.created && book.wf() && book@ == (BookView {
                    created: self@.created,
                    events: merged(self@.events, other@.events),
                }),
                Err(e) => e == VersionMergeError::DifferentOrigins && self@.created
                    != other@.created,
            },
    {
        if !self.has_same_origin(other) {
            return Err(VersionMergeError::DifferentOrigins);
        }
        match self.differ_index(other) {
            None => Ok(self),
            Some(di) => {
                let ghost a = self@.events;
                let ghost b = other@.events;
                proof {
                    lemma_fork(a, b);
                    lemma_merged_wf(a, b);
                }
                let mine = self.events();
                let theirs = other.events();
                let mut tail: Vec<EventFrame> = Vec::new();
                let mut i: usize = di;
                while i < mine.len()
                    invariant
                        di <= i <= mine.len(),
                        a == frames(mine@),
                        frames(tail@) == a.subrange(di as int, i as int),
                    decreases mine.len() - i,
                {
                    let ghost before = frames(tail@);
                    tail.push(mine[i].clone());
                    assert(frames(tail@) =~= before.push(mine@[i as int]@));
                    assert(a.subrange(di as int, i + 1) =~= a.subrange(di as int, i as int).push(a[i as int]));
                    i += 1;
                }
                let mut j: usize = di;
                while j < theirs.len()
                    invariant
                        di <= j <= theirs.len(),
                        b == frames(theirs@),
                        frames(tail@) == a.skip(di as int) + b.subrange(di as int, j as int),
                    decreases theirs.len() - j,
                {
                    let ghost before = frames(tail@);
                    tail.push(theirs[j].clone());
                    assert(frames(tail@) =~= before.push(theirs@[j as int]@));
                    assert(a.skip(di as int) + b.subrange(di as int, j + 1) =~= (a.skip(di as int)
                        + b.subrange(di as int, j as int)).push(b[j as int]));
                    j += 1;
                }
                assert(b.subrange(di as int, j as int) =~= b.skip(di as int));
                let tail = sort_frames(&tail);
                let mut whole: Vec<EventFrame> = Vec::new();
                let mut k: usize = 0;
                while k < di
                    invariant
                        k <= di <= mine.len(),
                        a == frames(mine@),
                        frames(whole@) == a.take(k as int),
                    decreases di - k,
                {
                    let ghost before = frames(whole@);
                    whole.push(mine[k].clone());
                    assert(frames(whole@) =~= before.push(mine@[k as int]@));
                    assert(a.take(k + 1) =~= a.take(k as int).push(a[k as int]));
                    k += 1;
                }
                let mut m: usize = 0;
                while m < tail.len()
                    invariant
                        m <= tail.len(),
                        frames(whole@) == a.take(di as int) + frames(tail@).take(m as int),
                    decreases tail.len() - m,
                {
                    let ghost before = frames(whole@);
                    whole.push(tail[m].clone());
                    assert(frames(whole@) =~= before.push(tail@[m as int]@));
                    assert(a.take(di as int) + frames(tail@).take(m + 1) =~= (a.take(di as int)
                        + frames(tail@).take(m as int)).push(frames(tail@)[m as int]));
                    m += 1;
                }
                assert(frames(tail@).take(m as int) =~= frames(tail@));
                let events = clean_frames(&whole);
                Ok(Book::assemble(self.creation_time(), events))
            },
        }
    }
}

} // verus!
