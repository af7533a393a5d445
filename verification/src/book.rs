//! The event store: an append-only log of timestamped events, and the
//! views of items that are derived from it.

use vstd::prelude::*;
use crate::cli::error::{Error, VResult};
use crate::log::{
    EventView, FrameView, Log, well_formed, dangling_at, orphan_at, created_before, is_created, is_removed, is_live, read,
    changed_time, created_time, metadata, live_prefix, live_seq, live_items, live_names, carries,
    find_from, find_by_name, has_name, stamp, appended, appended_item, lemma_changed_iff_read,
    lemma_created_time, lemma_created_has_value, lemma_live_seq, lemma_find_from,
    lemma_appended_wf, lemma_appended_item_wf, lemma_appended_item_fresh, lemma_created_count,
};

verus! {

/// A point in time: whole seconds since the Unix epoch and the nanoseconds
/// within that second. Ordered by seconds first, nanoseconds second.
#[derive(Clone, Copy, Debug, PartialEq, Eq, Structural, Hash)]
pub struct Timestamp {
    pub secs: i64,
    pub nanos: u32,
}

impl Timestamp {
    /// `self` is not later than `other`.
    pub open spec fn le(self, other: Timestamp) -> bool {
        self.secs < other.secs || (self.secs == other.secs && self.nanos <= other.nanos)
    }

    /// `self` is strictly earlier than `other`.
    pub open spec fn lt(self, other: Timestamp) -> bool {
        self.secs < other.secs || (self.secs == other.secs && self.nanos < other.nanos)
    }

    /// Tests whether `self` is not later than `other`.
    pub fn not_after(&self, other: &Timestamp) -> (r: bool)
        ensures
            r == self.le(*other),
    {
        self.secs < other.secs || (self.secs == other.secs && self.nanos <= other.nanos)
    }
}

/// Identifier of an item. Carries 128 bits; only equality is meaningful.
#[derive(Clone, Copy, Debug, PartialEq, Eq, Structural, Hash)]
pub struct ItemId(u128);

impl ItemId {
    /// The identifier that carries the given 128 bits.
    pub fn from_u128(bits: u128) -> (r: ItemId)
        ensures
            r.bits() == bits,
    {
        ItemId(bits)
    }

    /// The 128 bits of the identifier.
    pub closed spec fn bits(self) -> u128 {
        self.0
    }

    /// The 128 bits of the identifier.
    pub fn as_u128(&self) -> (r: u128)
        ensures
            r == self.bits(),
    {
        self.0
    }
}

/// A secret in plain text, kept in a type of its own so that it does not
/// show up where an item is printed.
#[derive(Debug)]
pub struct Password(String);

impl View for Password {
    type V = Seq<char>;

    closed spec fn view(&self) -> Seq<char> {
        self.0@
    }
}

impl Password {
    /// The password with the given plain text.
    pub fn new(s: &str) -> (r: Self)
        ensures
            r@ == s@,
    {
        Password(s.to_owned())
    }

    /// Read plaintext password
    pub fn plaintext(&self) -> (r: String)
        ensures
            r@ == self@,
    {
        self.0.clone()
    }

    /// Tests whether two passwords hold the same text.
    pub fn same(&self, other: &Password) -> (r: bool)
        ensures
            r == (self@ == other@),
    {
        self.0 == other.0
    }
}

impl Clone for Password {
    fn clone(&self) -> (r: Self)
        ensures
            r@ == self@,
    {
        Password(self.0.clone())
    }
}

/// What an item holds, as mathematical values. Tags form a set: their order
/// and repetitions in the executable value do not count.
#[verifier::ext_equal]
pub struct ItemView {
    pub name: Seq<char>,
    pub password: Option<Seq<char>>,
    pub tags: Set<Seq<char>>,
    pub notes: Seq<Seq<char>>,
}

/// A named secret record.
#[derive(Debug)]
pub struct Item {
    /// Although all items have ids, names must still be unique among live items.
    pub name: String,
    /// Password itself, if set
    pub password: Option<Password>,
    /// One word tags; read as a set
    pub tags: Vec<String>,
    /// Free-form text notes
    pub notes: Vec<String>,
}

/// The texts of a vector of strings, in order.
pub open spec fn texts(v: Seq<String>) -> Seq<Seq<char>> {
    v.map_values(|s: String| s@)
}

impl View for Item {
    type V = ItemView;

    open spec fn view(&self) -> ItemView {
        ItemView {
            name: self.name@,
            password: match self.password {
                Some(p) => Some(p@),
                None => None,
            },
            tags: texts(self.tags@).to_set(),
            notes: texts(self.notes@),
        }
    }
}

/// Copies a vector of strings.
pub fn clone_strings(v: &Vec<String>) -> (r: Vec<String>)
    ensures
        texts(r@) == texts(v@),
{
    let mut out: Vec<String> = Vec::new();
    let mut i: usize = 0;
    while i < v.len()
        invariant
            i <= v.len(),
            out.len() == i,
            forall|j: int| 0 <= j < i ==> out@[j]@ == v@[j]@,
        decreases v.len() - i,
    {
        out.push(v[i].clone());
        i += 1;
    }
    assert(texts(out@) =~= texts(v@));
    out
}

/// Tests whether a text occurs in a vector of strings.
pub fn contains_text(v: &Vec<String>, s: &String) -> (r: bool)
    ensures
        r == texts(v@).contains(s@),
{
    let mut i: usize = 0;
    while i < v.len()
        invariant
            i <= v.len(),
            forall|j: int| 0 <= j < i ==> v@[j]@ != s@,
        decreases v.len() - i,
    {
        if v[i] == *s {
            assert(texts(v@)[i as int] == s@);
            return true;
        }
        i += 1;
    }
    assert forall|j: int| 0 <= j < texts(v@).len() implies texts(v@)[j] != s@ by {
        assert(texts(v@)[j] == v@[j]@);
    }
    false
}

/// Tests whether every text of `a` occurs in `b`.
pub fn texts_within(a: &Vec<String>, b: &Vec<String>) -> (r: bool)
    ensures
        r == texts(a@).to_set().subset_of(texts(b@).to_set()),
{
    let mut i: usize = 0;
    while i < a.len()
        invariant
            i <= a.len(),
            forall|j: int| 0 <= j < i ==> texts(b@).contains(#[trigger] texts(a@)[j]),
        decreases a.len() - i,
    {
        if !contains_text(b, &a[i]) {
            assert(texts(a@)[i as int] == a@[i as int]@);
            assert(texts(a@).to_set().contains(texts(a@)[i as int]));
            return false;
        }
        assert(texts(a@)[i as int] == a@[i as int]@);
        i += 1;
    }
    true
}

/// Tests whether two vectors of strings hold the same texts in the same order.
pub fn same_texts(a: &Vec<String>, b: &Vec<String>) -> (r: bool)
    ensures
        r == (texts(a@) == texts(b@)),
{
    if a.len() != b.len() {
        assert(texts(a@).len() != texts(b@).len());
        return false;
    }
    let mut i: usize = 0;
    while i < a.len()
        invariant
            i <= a.len(),
            a.len() == b.len(),
            forall|j: int| 0 <= j < i ==> a@[j]@ == b@[j]@,
        decreases a.len() - i,
    {
        if a[i] != b[i] {
            assert(texts(a@)[i as int] != texts(b@)[i as int]);
            return false;
        }
        i += 1;
    }
    assert(texts(a@) =~= texts(b@));
    true
}

impl Item {
    /// An item with the given name, no password, no tags and no notes.
    pub fn new(name: &str) -> (r: Item)
        ensures
            r@ == (ItemView {
                name: name@,
                password: None,
                tags: Set::empty(),
                notes: Seq::empty(),
            }),
    {
        let r = Item { name: name.to_owned(), password: None, tags: Vec::new(), notes: Vec::new() };
        assert(texts(r.tags@) =~= Seq::empty());
        assert(texts(r.notes@) =~= Seq::empty());
        assert(r@.tags =~= Set::empty());
        r
    }

    /// Tests whether two items hold the same name, password, set of tags and notes.
    pub fn same(&self, other: &Item) -> (r: bool)
        ensures
            r == (self@ == other@),
    {
        let pw = match (&self.password, &other.password) {
            (Some(a), Some(b)) => a.same(b),
            (None, None) => true,
            _ => false,
        };
        let r = self.name == other.name && pw && texts_within(&self.tags, &other.tags)
            && texts_within(&other.tags, &self.tags) && same_texts(&self.notes, &other.notes);
        proof {
            if r {
                assert(self@.tags =~= other@.tags);
                assert(self@ =~= other@);
            }
        }
        r
    }
}

impl Clone for Item {
    fn clone(&self) -> (r: Self)
        ensures
            r@ == self@,
    {
        let password = match &self.password {
            Some(p) => Some(p.clone()),
            None => None,
        };
        Item {
            name: self.name.clone(),
            password,
            tags: clone_strings(&self.tags),
            notes: clone_strings(&self.notes),
        }
    }
}

/// When an item was created and last changed.
#[derive(Clone, Copy, Debug, PartialEq, Eq, Structural)]
pub struct ItemMetadata {
    pub created: Timestamp,
    pub changed: Timestamp,
}

/// Actual event that occurred
#[derive(Debug)]
pub enum Event {
    Create(ItemId),
    Update(ItemId, Item),
    Remove(ItemId),
}

impl View for Event {
    type V = EventView;

    open spec fn view(&self) -> EventView {
        match self {
            Event::Create(id) => EventView::Create(*id),
            Event::Update(id, item) => EventView::Update(*id, item@),
            Event::Remove(id) => EventView::Remove(*id),
        }
    }
}

impl Event {
    /// Tests whether two events say the same.
    pub fn same(&self, other: &Event) -> (r: bool)
        ensures
            r == (self@ == other@),
    {
        match (self, other) {
            (Event::Create(a), Event::Create(b)) => *a == *b,
            (Event::Update(a, x), Event::Update(b, y)) => *a == *b && x.same(y),
            (Event::Remove(a), Event::Remove(b)) => *a == *b,
            _ => false,
        }
    }

    /// The item that the event creates, if it creates one.
    pub fn creates_id(&self) -> (r: Option<ItemId>)
        ensures
            r == (match self@ {
                EventView::Create(id) => Some(id),
                _ => None,
            }),
    {
        match self {
            Event::Create(id) => Some(*id),
            _ => None,
        }
    }

    /// The item that the event removes, if it removes one.
    pub fn removes_id(&self) -> (r: Option<ItemId>)
        ensures
            r == (match self@ {
                EventView::Remove(id) => Some(id),
                _ => None,
            }),
    {
        match self {
            Event::Remove(id) => Some(*id),
            _ => None,
        }
    }
}

impl Clone for Event {
    fn clone(&self) -> (r: Self)
        ensures
            r@ == self@,
    {
        match self {
            Event::Create(id) => Event::Create(*id),
            Event::Update(id, item) => Event::Update(*id, item.clone()),
            Event::Remove(id) => Event::Remove(*id),
        }
    }
}

/// An event and its context in the book
#[derive(Debug)]
pub struct EventFrame {
    pub time: Timestamp,
    pub event: Event,
}

impl View for EventFrame {
    type V = FrameView;

    open spec fn view(&self) -> FrameView {
        FrameView { time: self.time, event: self.event@ }
    }
}

impl EventFrame {
    /// Tests whether two frames hold the same event at the same time.
    pub fn same(&self, other: &EventFrame) -> (r: bool)
        ensures
            r == (self@ == other@),
    {
        self.time == other.time && self.event.same(&other.event)
    }

    /// The item that the event creates, if it creates one.
    pub fn creates_id(&self) -> (r: Option<ItemId>)
        ensures
            r == (match self@.event {
                EventView::Create(id) => Some(id),
                _ => None,
            }),
    {
        self.event.creates_id()
    }

    /// The item that the event removes, if it removes one.
    pub fn removes_id(&self) -> (r: Option<ItemId>)
        ensures
            r == (match self@.event {
                EventView::Remove(id) => Some(id),
                _ => None,
            }),
    {
        self.event.removes_id()
    }
}

impl Clone for EventFrame {
    fn clone(&self) -> (r: Self)
        ensures
            r@ == self@,
    {
        EventFrame { time: self.time, event: self.event.clone() }
    }
}

/// The frames of a vector of events, as mathematical values.
pub open spec fn frames(v: Seq<EventFrame>) -> Log {
    v.map_values(|f: EventFrame| f@)
}

/// Copies a vector of events.
pub fn clone_frames(v: &Vec<EventFrame>) -> (r: Vec<EventFrame>)
    ensures
        frames(r@) == frames(v@),
{
    let mut out: Vec<EventFrame> = Vec::new();
    let mut i: usize = 0;
    while i < v.len()
        invariant
            i <= v.len(),
            out.len() == i,
            forall|j: int| 0 <= j < i ==> out@[j]@ == v@[j]@,
        decreases v.len() - i,
    {
        out.push(v[i].clone());
        i += 1;
    }
    assert(frames(out@) =~= frames(v@));
    out
}

/// Tests whether an identifier occurs in a vector of identifiers.
pub fn contains_id(v: &Vec<ItemId>, id: ItemId) -> (r: bool)
    ensures
        r == v@.contains(id),
{
    let mut i: usize = 0;
    while i < v.len()
        invariant
            i <= v.len(),
            forall|j: int| 0 <= j < i ==> v@[j] != id,
        decreases v.len() - i,
    {
        if v[i] == id {
            return true;
        }
        i += 1;
    }
    false
}

/// The current time of the machine's clock, as `chrono::Utc::now` gives
/// it. Nothing is claimed of the value: a clock may stand still or step
/// back. (The call panics where the clock stands before 1970.)
#[verifier::external_body]
fn now() -> (r: Timestamp) {
    let t = chrono::Utc::now();
    Timestamp { secs: t.timestamp(), nanos: t.timestamp_subsec_nanos() }
}

/// A random identifier, as `uuid::Uuid::new_v4` draws it. Nothing is
/// claimed of the value: it may repeat an earlier one.
#[verifier::external_body]
fn random_id() -> (r: ItemId) {
    ItemId(uuid::Uuid::new_v4().as_u128())
}

/// A book, as a mathematical value: where it comes from and what happened to it.
#[verifier::ext_equal]
pub struct BookView {
    pub created: Timestamp,
    pub events: Log,
}

/// The event-sourced container of all items of one vault.
#[derive(Debug)]
pub struct Book {
    events: Vec<EventFrame>,
    created: Timestamp,
}

impl View for Book {
    type V = BookView;

    closed spec fn view(&self) -> BookView {
        BookView { created: self.created, events: frames(self.events@) }
    }
}

impl Clone for Book {
    fn clone(&self) -> (r: Self)
        ensures
            r@ == self@,
    {
        Book { events: clone_frames(&self.events), created: self.created }
    }
}

impl Book {
    /// The invariant of a book: its log is ordered by time, every
    /// creation is directly followed by the first value of the item, and
    /// the first event of every item is its creation.
    pub open spec fn wf(&self) -> bool {
        well_formed(self@.events)
    }

    /// An empty book whose origin is the current time.
    pub fn new() -> (r: Book)
        ensures
            r.wf(),
            r@.events == Seq::<FrameView>::empty(),
    {
        Book::new_at(now())
    }

    /// An empty book with the given origin.
    pub fn new_at(created: Timestamp) -> (r: Book)
        ensures
            r.wf(),
            r@ == (BookView { created, events: Seq::empty() }),
    {
        let r = Book { events: Vec::new(), created };
        assert(frames(r.events@) =~= Seq::empty());
        r
    }

    /// The events of the book, in order.
    pub fn events(&self) -> (r: &Vec<EventFrame>)
        ensures
            frames(r@) == self@.events,
    {
        &self.events
    }

    /// The book with the given origin and events, where these keep the
    /// invariant of a book; nothing otherwise.
    pub fn from_parts(created: Timestamp, events: Vec<EventFrame>) -> (r: Option<Book>)
        ensures
            r is Some <==> well_formed(frames(events@)),
            r is Some ==> r->0@ == (BookView { created, events: frames(events@) }),
    {
        if is_well_formed(&events) {
            Some(Book { events, created })
        } else {
            None
        }
    }

    /// The book with the given origin and events.
    pub(crate) fn assemble(created: Timestamp, events: Vec<EventFrame>) -> (r: Book)
        requires
            well_formed(frames(events@)),
        ensures
            r.wf(),
            r@ == (BookView { created, events: frames(events@) }),
    {
        Book { events, created }
    }

    /// The time at which the book was first made: the origin that all
    /// versions of one book share.
    pub fn creation_time(&self) -> (r: Timestamp)
        ensures
            r == self@.created,
    {
        self.created
    }
}

/// The values of a vector of items, in order.
pub open spec fn item_views(v: Seq<Item>) -> Seq<ItemView> {
    v.map_values(|it: Item| it@)
}

impl Book {
    /// Tests whether some event of the book creates `id`.
    pub fn has_created(&self, id: ItemId) -> (r: bool)
        ensures
            r == is_created(self@.events, id),
    {
        let ghost log = self@.events;
        let mut i: usize = 0;
        while i < self.events.len()
            invariant
                i <= self.events.len(),
                log == frames(self.events@),
                forall|j: int| 0 <= j < i ==> (#[trigger] log[j]).event != EventView::Create(id),
            decreases self.events.len() - i,
        {
            assert(log[i as int] == self.events@[i as int]@);
            if self.events[i].creates_id() == Some(id) {
                return true;
            }
            i += 1;
        }
        false
    }

    /// Tests whether some event of the book removes `id`.
    pub fn has_removed(&self, id: ItemId) -> (r: bool)
        ensures
            r == is_removed(self@.events, id),
    {
        let ghost log = self@.events;
        let mut i: usize = 0;
        while i < self.events.len()
            invariant
                i <= self.events.len(),
                log == frames(self.events@),
                forall|j: int| 0 <= j < i ==> (#[trigger] log[j]).event != EventView::Remove(id),
            decreases self.events.len() - i,
        {
            assert(log[i as int] == self.events@[i as int]@);
            if self.events[i].removes_id() == Some(id) {
                return true;
            }
            i += 1;
        }
        false
    }

    /// Tests whether `id` has been created and never removed.
    pub fn is_live(&self, id: ItemId) -> (r: bool)
        ensures
            r == is_live(self@.events, id),
    {
        self.has_created(id) && !self.has_removed(id)
    }

    /// The live identifiers, each once, in the order of their first creation.
    pub fn item_ids(&self) -> (r: Vec<ItemId>)
        ensures
            r@ == live_seq(self@.events),
            r@.no_duplicates(),
            r@.to_set() == crate::log::live_ids(self@.events),
    {
        let ghost log = self@.events;
        let mut out: Vec<ItemId> = Vec::new();
        let mut i: usize = 0;
        while i < self.events.len()
            invariant
                i <= self.events.len(),
                log == frames(self.events@),
                log == self@.events,
                out@ == live_prefix(log, i as int),
            decreases self.events.len() - i,
        {
            assert(log[i as int] == self.events@[i as int]@);
            match self.events[i].creates_id() {
                Some(id) => {
                    if !contains_id(&out, id) && !self.has_removed(id) {
                        out.push(id);
                    }
                },
                None => {},
            }
            i += 1;
        }
        proof {
            lemma_live_seq(log);
        }
        out
    }

    /// The current value of `id`: what its latest update gave it.
    pub fn read_item(&self, id: ItemId) -> (r: Option<Item>)
        ensures
            match r {
                Some(item) => read(self@.events, id) == Some(item@),
                None => read(self@.events, id) is None,
            },
    {
        let ghost log = self@.events;
        let mut i: usize = self.events.len();
        assert(log.take(i as int) =~= log);
        while i > 0
            invariant
                i <= self.events.len(),
                log == frames(self.events@),
                read(log, id) == read(log.take(i as int), id),
            decreases i,
        {
            i -= 1;
            assert(log.take(i + 1).last() == self.events@[i as int]@);
            assert(log.take(i + 1).drop_last() =~= log.take(i as int));
            match &self.events[i].event {
                Event::Update(e_id, item) => {
                    if *e_id == id {
                        return Some(item.clone());
                    }
                },
                _ => {},
            }
        }
        None
    }

    /// When `id` was first created and last updated.
    pub fn read_item_metadata(&self, id: ItemId) -> (r: Option<ItemMetadata>)
        ensures
            r == metadata(self@.events, id),
    {
        let ghost log = self@.events;
        let mut created: Option<Timestamp> = None;
        let mut changed: Option<Timestamp> = None;
        let mut i: usize = 0;
        while i < self.events.len()
            invariant
                i <= self.events.len(),
                log == frames(self.events@),
                created == created_time(log.take(i as int), id),
                changed == changed_time(log.take(i as int), id),
            decreases self.events.len() - i,
        {
            assert(log.take(i + 1).last() == self.events@[i as int]@);
            assert(log.take(i + 1).drop_last() =~= log.take(i as int));
            match &self.events[i].event {
                Event::Create(e_id) => {
                    if *e_id == id && created.is_none() {
                        created = Some(self.events[i].time);
                    }
                },
                Event::Update(e_id, _) => {
                    if *e_id == id {
                        changed = Some(self.events[i].time);
                    }
                },
                _ => {},
            }
            i += 1;
        }
        assert(log.take(i as int) =~= log);
        match (created, changed) {
            (Some(created), Some(changed)) => Some(ItemMetadata { created, changed }),
            _ => None,
        }
    }

    /// The values of the live items, in the order of their first creation.
    pub fn items(&self) -> (r: Vec<Item>)
        requires
            self.wf(),
        ensures
            item_views(r@) == live_items(self@.events),
    {
        let ghost log = self@.events;
        let ids = self.item_ids();
        let mut out: Vec<Item> = Vec::new();
        let mut i: usize = 0;
        while i < ids.len()
            invariant
                i <= ids.len(),
                out.len() == i,
                self.wf(),
                log == self@.events,
                ids@ == live_seq(log),
                forall|j: int| 0 <= j < i ==> Some(out@[j]@) == read(log, ids@[j]),
            decreases ids.len() - i,
        {
            proof {
                lemma_live_seq(log);
                assert(ids@.contains(ids@[i as int]));
                lemma_created_has_value(log, ids@[i as int]);
            }
            match self.read_item(ids[i]) {
                Some(item) => out.push(item),
                None => {},
            }
            i += 1;
        }
        assert(item_views(out@) =~= live_items(log));
        out
    }

    /// The live identifiers with their values, in the order of their first creation.
    pub fn id_items(&self) -> (r: Vec<(ItemId, Item)>)
        requires
            self.wf(),
        ensures
            r.len() == live_seq(self@.events).len(),
            forall|j: int| 0 <= j < r.len() ==> (#[trigger] r@[j]).0 == live_seq(self@.events)[j]
                && Some(r@[j].1@) == read(self@.events, r@[j].0),
    {
        let ghost log = self@.events;
        let ids = self.item_ids();
        let mut out: Vec<(ItemId, Item)> = Vec::new();
        let mut i: usize = 0;
        while i < ids.len()
            invariant
                i <= ids.len(),
                out.len() == i,
                self.wf(),
                log == self@.events,
                ids@ == live_seq(log),
                forall|j: int| 0 <= j < i ==> (#[trigger] out@[j]).0 == ids@[j] && Some(out@[j].1@) == read(log, ids@[j]),
            decreases ids.len() - i,
        {
            proof {
                lemma_live_seq(log);
                assert(ids@.contains(ids@[i as int]));
                lemma_created_has_value(log, ids@[i as int]);
            }
            match self.read_item(ids[i]) {
                Some(item) => out.push((ids[i], item)),
                None => {},
            }
            i += 1;
        }
        out
    }

    /// Items and associated metadata, in the order of their first creation.
    pub fn items_metadata(&self) -> (r: Vec<(Item, ItemMetadata)>)
        requires
            self.wf(),
        ensures
            r.len() == live_seq(self@.events).len(),
            forall|j: int| 0 <= j < r.len() ==> Some((#[trigger] r@[j]).0@) == read(self@.events, live_seq(self@.events)[j])
                && Some(r@[j].1) == metadata(self@.events, live_seq(self@.events)[j]),
    {
        let ghost log = self@.events;
        let ids = self.item_ids();
        let mut out: Vec<(Item, ItemMetadata)> = Vec::new();
        let mut i: usize = 0;
        while i < ids.len()
            invariant
                i <= ids.len(),
                out.len() == i,
                self.wf(),
                log == self@.events,
                ids@ == live_seq(log),
                forall|j: int| 0 <= j < i ==> Some((#[trigger] out@[j]).0@) == read(log, ids@[j]) && Some(out@[j].1) == metadata(log, ids@[j]),
            decreases ids.len() - i,
        {
            proof {
                lemma_live_seq(log);
                assert(ids@.contains(ids@[i as int]));
                lemma_created_has_value(log, ids@[i as int]);
            }
            match (self.read_item(ids[i]), self.read_item_metadata(ids[i])) {
                (Some(item), Some(meta)) => out.push((item, meta)),
                _ => {},
            }
            i += 1;
        }
        out
    }

    /// The live identifier that `name` stands for: the first one, in the
    /// order of creation, whose current name it is.
    pub fn find_id_by_name(&self, name: &str) -> (r: Option<ItemId>)
        ensures
            r == find_by_name(self@.events, name@),
    {
        let ghost log = self@.events;
        let ids = self.item_ids();
        let wanted = name.to_owned();
        let mut i: usize = 0;
        while i < ids.len()
            invariant
                i <= ids.len(),
                log == self@.events,
                ids@ == live_seq(log),
                wanted@ == name@,
                find_by_name(log, name@) == find_from(log, name@, i as int),
            decreases ids.len() - i,
        {
            match self.read_item(ids[i]) {
                Some(item) => {
                    if item.name == wanted {
                        return Some(ids[i]);
                    }
                },
                None => {},
            }
            i += 1;
        }
        None
    }

    /// Tests whether some live item carries the name.
    pub fn has_item(&self, name: &str) -> (r: bool)
        ensures
            r == has_name(self@.events, name@),
            r <==> exists|id: ItemId|
                is_live(self@.events, id) && #[trigger] carries(self@.events, id, name@),
    {
        proof {
            crate::log::lemma_has_name(self@.events, name@);
        }
        self.find_id_by_name(name).is_some()
    }

    /// The live identifier that `name` stands for, or the error that no
    /// item carries the name.
    pub fn get_id_by_name(&self, name: &str) -> (r: VResult<ItemId>)
        ensures
            match r {
                Ok(id) => find_by_name(self@.events, name@) == Some(id),
                Err(Error::NoSuchItem(n)) => !has_name(self@.events, name@) && n@ == name@,
                Err(_) => false,
            },
    {
        match self.find_id_by_name(name) {
            Some(id) => Ok(id),
            None => Err(Error::NoSuchItem(name.to_owned())),
        }
    }

    /// The value of the item that `name` stands for, or the error that no
    /// item carries the name.
    pub fn get_item_by_name(&self, name: &str) -> (r: VResult<Item>)
        ensures
            match r {
                Ok(item) => has_name(self@.events, name@) && Some(item@) == read(
                    self@.events,
                    find_by_name(self@.events, name@)->0,
                ),
                Err(Error::NoSuchItem(n)) => !has_name(self@.events, name@) && n@ == name@,
                Err(_) => false,
            },
    {
        let id = self.get_id_by_name(name)?;
        proof {
            lemma_find_from(self@.events, name@, 0);
        }
        match self.read_item(id) {
            Some(item) => Ok(item),
            None => Err(Error::NoSuchItem(name.to_owned())),
        }
    }

    /// The value and the metadata of the item that `name` stands for, or the
    /// error that no item carries the name.
    pub fn get_item_and_metadata(&self, name: &str) -> (r: VResult<(Item, ItemMetadata)>)
        ensures
            match r {
                Ok((item, meta)) => has_name(self@.events, name@) && Some(item@) == read(
                    self@.events,
                    find_by_name(self@.events, name@)->0,
                ) && Some(meta) == metadata(self@.events, find_by_name(self@.events, name@)->0),
                Err(Error::NoSuchItem(n)) => !has_name(self@.events, name@) && n@ == name@,
                Err(_) => false,
            },
    {
        let id = self.get_id_by_name(name)?;
        proof {
            lemma_find_from(self@.events, name@, 0);
            lemma_live_seq(self@.events);
            lemma_created_time(self@.events, id);
            lemma_changed_iff_read(self@.events, id);
        }
        match (self.read_item(id), self.read_item_metadata(id)) {
            (Some(item), Some(meta)) => Ok((item, meta)),
            _ => Err(Error::NoSuchItem(name.to_owned())),
        }
    }

    /// Succeeds exactly if some live item carries the name.
    pub fn verify_exists(&self, name: &str) -> (r: VResult<()>)
        ensures
            match r {
                Ok(_) => has_name(self@.events, name@),
                Err(Error::NoSuchItem(n)) => !has_name(self@.events, name@) && n@ == name@,
                Err(_) => false,
            },
    {
        if self.has_item(name) {
            Ok(())
        } else {
            Err(Error::NoSuchItem(name.to_owned()))
        }
    }

    /// Succeeds exactly if no live item carries the name.
    pub fn verify_not_exists(&self, name: &str) -> (r: VResult<()>)
        ensures
            match r {
                Ok(_) => !has_name(self@.events, name@),
                Err(Error::ItemAlreadyExists(n)) => has_name(self@.events, name@) && n@ == name@,
                Err(_) => false,
            },
    {
        if self.has_item(name) {
            Err(Error::ItemAlreadyExists(name.to_owned()))
        } else {
            Ok(())
        }
    }

    /// The number of live items.
    pub fn item_count(&self) -> (r: usize)
        ensures
            r == live_seq(self@.events).len(),
    {
        self.item_ids().len()
    }

    /// The names of the live items, in the order of their first creation.
    pub fn item_names(&self) -> (r: Vec<String>)
        requires
            self.wf(),
        ensures
            texts(r@) == live_names(self@.events),
    {
        let ghost log = self@.events;
        let items = self.items();
        let mut out: Vec<String> = Vec::new();
        let mut i: usize = 0;
        while i < items.len()
            invariant
                i <= items.len(),
                out.len() == i,
                item_views(items@) == live_items(log),
                forall|j: int| 0 <= j < i ==> out@[j]@ == items@[j]@.name,
            decreases items.len() - i,
        {
            out.push(items[i].name.clone());
            i += 1;
        }
        assert(item_views(items@).len() == items.len());
        assert(live_items(log).len() == live_seq(log).len());
        assert forall|j: int| 0 <= j < out.len() implies texts(out@)[j] == live_names(log)[j] by {
            assert(item_views(items@)[j] == items@[j]@);
            assert(live_items(log)[j] == read(log, live_seq(log)[j])->0);
        }
        assert(texts(out@) =~= live_names(log));
        out
    }
}

/// The identifiers whose bits lie below `n`.
pub closed spec fn ids_below(n: int) -> Set<ItemId> {
    Set::new(|id: ItemId| id.0 < n)
}

/// There are as many identifiers with bits below `n` as `n` says.
proof fn lemma_ids_below(n: int)
    requires
        0 <= n <= u128::MAX,
    ensures
        ids_below(n).finite(),
        ids_below(n).len() == n,
    decreases n,
{
    if n == 0 {
        assert(ids_below(0) =~= Set::<ItemId>::empty());
    } else {
        lemma_ids_below(n - 1);
        assert(ids_below(n) =~= ids_below(n - 1).insert(ItemId((n - 1) as u128)));
    }
}

impl Book {
    /// An identifier that the book has not used: the drawn one where it is
    /// unused, else the one with the lowest bits that is.
    fn unused_id(&self, drawn: ItemId) -> (r: ItemId)
        ensures
            !is_created(self@.events, r),
            !is_created(self@.events, drawn) ==> r == drawn,
    {
        if !self.has_created(drawn) {
            return drawn;
        }
        let ghost log = self@.events;
        let mut c: u128 = 0;
        loop
            invariant
                log == self@.events,
                log.len() == self.events.len(),
                c <= log.len(),
                is_created(log, drawn),
                forall|id: ItemId| ids_below(c as int).contains(id) ==> is_created(log, id),
            decreases log.len() - c,
        {
            let candidate = ItemId(c);
            if !self.has_created(candidate) {
                return candidate;
            }
            proof {
                lemma_ids_below(c + 1);
                assert forall|id: ItemId| ids_below(c + 1).contains(id) implies is_created(log, id) by {
                    if !ids_below(c as int).contains(id) {
                        assert(id == candidate);
                    }
                }
                lemma_created_count(log, ids_below(c + 1));
            }
            c += 1;
        }
    }

    /// The time that an event appended now gets.
    fn stamp_time(&self, now: Timestamp) -> (r: Timestamp)
        ensures
            r == stamp(self@.events, now),
    {
        let n = self.events.len();
        if n > 0 {
            assert(self@.events.last() == self.events@[n - 1]@);
            if !self.events[n - 1].time.not_after(&now) {
                return self.events[n - 1].time;
            }
        }
        now
    }

    /// Appends an event that creates nothing.
    fn push_frame(&mut self, now: Timestamp, event: Event)
        requires
            old(self).wf(),
            !(event@ is Create),
            is_created(old(self)@.events, event@.id()),
        ensures
            final(self).wf(),
            final(self)@ == (BookView {
                created: old(self)@.created,
                events: appended(old(self)@.events, now, event@),
            }),
    {
        let time = self.stamp_time(now);
        proof {
            lemma_appended_wf(self@.events, now, event@);
        }
        self.events.push(EventFrame { time, event });
        assert(self@.events =~= appended(old(self)@.events, now, event@));
    }

    /// Adds an item under the identifier `id` at the time `now`: a creation
    /// and a first update. Fails, and leaves the book as it is, where a live
    /// item carries the name already or the identifier has been used. The
    /// new item is created and last changed at the time of its events: `now`,
    /// or the time of the last event where `now` lies before it.
    pub fn add_at(&mut self, item: Item, id: ItemId, now: Timestamp) -> (r: VResult<ItemId>)
        requires
            old(self).wf(),
        ensures
            final(self).wf(),
            final(self)@.created == old(self)@.created,
            match r {
                Ok(rid) => rid == id && !has_name(old(self)@.events, item@.name) && !is_created(
                    old(self)@.events,
                    id,
                ) && final(self)@.events == appended_item(old(self)@.events, now, id, item@)
                    && metadata(final(self)@.events, id) == Some(
                    ItemMetadata {
                        created: stamp(old(self)@.events, now),
                        changed: stamp(old(self)@.events, now),
                    },
                ),
                Err(Error::ItemAlreadyExists(n)) => has_name(old(self)@.events, item@.name) && n@
                    == item@.name && final(self)@ == old(self)@,
                Err(Error::IdCollision) => !has_name(old(self)@.events, item@.name) && is_created(
                    old(self)@.events,
                    id,
                ) && final(self)@ == old(self)@,
                Err(_) => false,
            },
    {
        if self.has_item(item.name.as_str()) {
            return Err(Error::ItemAlreadyExists(item.name.clone()));
        }
        if self.has_created(id) {
            return Err(Error::IdCollision);
        }
        let time = self.stamp_time(now);
        proof {
            lemma_appended_item_wf(self@.events, now, id, item@);
            lemma_appended_item_fresh(self@.events, now, id, item@);
        }
        self.events.push(EventFrame { time, event: Event::Create(id) });
        self.events.push(EventFrame { time, event: Event::Update(id, item) });
        assert(self@.events =~= appended_item(old(self)@.events, now, id, item@));
        Ok(id)
    }

    /// Create and update with data: adds an item at the current time, under
    /// a random identifier that the book has not used. Fails, and leaves the
    /// book as it is, exactly where a live item carries the name already.
    pub fn add(&mut self, item: Item) -> (r: VResult<ItemId>)
        requires
            old(self).wf(),
        ensures
            final(self).wf(),
            final(self)@.created == old(self)@.created,
            match r {
                Ok(id) => !has_name(old(self)@.events, item@.name) && !is_created(
                    old(self)@.events,
                    id,
                ) && exists|now: Timestamp|
                    final(self)@.events == appended_item(old(self)@.events, now, id, item@)
                        && metadata(final(self)@.events, id) == Some(
                        ItemMetadata {
                            created: stamp(old(self)@.events, now),
                            changed: stamp(old(self)@.events, now),
                        },
                    ),
                Err(Error::ItemAlreadyExists(n)) => has_name(old(self)@.events, item@.name) && n@
                    == item@.name && final(self)@ == old(self)@,
                Err(_) => false,
            },
    {
        let id = self.unused_id(random_id());
        let now = now();
        self.add_at(item, id, now)
    }

    /// Gives the live item `id` a new value at the time `now`.
    pub fn update_at(&mut self, item_id: ItemId, item: Item, now: Timestamp)
        requires
            old(self).wf(),
            is_live(old(self)@.events, item_id),
        ensures
            final(self).wf(),
            final(self)@ == (BookView {
                created: old(self)@.created,
                events: appended(old(self)@.events, now, EventView::Update(item_id, item@)),
            }),
    {
        self.push_frame(now, Event::Update(item_id, item));
    }

    /// Updates item using new value
    pub fn update(&mut self, item_id: ItemId, item: Item)
        requires
            old(self).wf(),
            is_live(old(self)@.events, item_id),
        ensures
            final(self).wf(),
            final(self)@.created == old(self)@.created,
            exists|now: Timestamp|
                final(self)@.events == appended(
                    old(self)@.events,
                    now,
                    EventView::Update(item_id, item@),
                ),
    {
        let now = now();
        self.update_at(item_id, item, now);
    }

    /// Updates item by mapping the old value. Nothing happens where the
    /// item has no value.
    pub fn modify<F, R>(&mut self, item_id: ItemId, f: F) -> (r: Option<R>) where
        F: FnOnce(&mut Item) -> R,

        requires
            old(self).wf(),
            read(old(self)@.events, item_id) is Some ==> is_live(old(self)@.events, item_id),
            forall|a: &mut Item| Some((*a)@) == read(old(self)@.events, item_id) ==> f.requires((a,)),
        ensures
            final(self).wf(),
            final(self)@.created == old(self)@.created,
            match r {
                Some(out) => exists|a: &mut Item, now: Timestamp|
                    Some((*a)@) == read(old(self)@.events, item_id) && f.ensures((a,), out)
                        && final(self)@.events == appended(
                        old(self)@.events,
                        now,
                        EventView::Update(item_id, (*final(a))@),
                    ),
                None => read(old(self)@.events, item_id) is None && final(self)@ == old(self)@,
            },
    {
        match self.read_item(item_id) {
            Some(mut item) => {
                let r = f(&mut item);
                self.update(item_id, item);
                Some(r)
            },
            None => None,
        }
    }

    /// Updates the item that `name` stands for by mapping the old value.
    pub fn modify_by_name<F, R>(&mut self, name: &str, f: F) -> (r: VResult<R>) where
        F: FnOnce(&mut Item) -> R,

        requires
            old(self).wf(),
            forall|a: &mut Item| (*a)@.name == name@ ==> f.requires((a,)),
        ensures
            final(self).wf(),
            final(self)@.created == old(self)@.created,
            match r {
                Ok(out) => has_name(old(self)@.events, name@) && exists|a: &mut Item, now: Timestamp|
                    Some((*a)@) == read(
                        old(self)@.events,
                        find_by_name(old(self)@.events, name@)->0,
                    ) && f.ensures((a,), out) && final(self)@.events == appended(
                        old(self)@.events,
                        now,
                        EventView::Update(
                            find_by_name(old(self)@.events, name@)->0,
                            (*final(a))@,
                        ),
                    ),
                Err(Error::NoSuchItem(n)) => !has_name(old(self)@.events, name@) && n@ == name@
                    && final(self)@ == old(self)@,
                Err(_) => false,
            },
    {
        let id = self.get_id_by_name(name)?;
        proof {
            lemma_find_from(self@.events, name@, 0);
            lemma_live_seq(self@.events);
        }
        match self.modify(id, f) {
            Some(out) => Ok(out),
            None => Err(Error::NoSuchItem(name.to_owned())),
        }
    }

    /// Removes the live item `id` at the time `now`.
    pub fn remove_id_at(&mut self, item_id: ItemId, now: Timestamp)
        requires
            old(self).wf(),
            is_live(old(self)@.events, item_id),
        ensures
            final(self).wf(),
            final(self)@ == (BookView {
                created: old(self)@.created,
                events: appended(old(self)@.events, now, EventView::Remove(item_id)),
            }),
    {
        self.push_frame(now, Event::Remove(item_id));
    }

    /// Removes the live item `id`.
    pub fn remove_id(&mut self, item_id: ItemId)
        requires
            old(self).wf(),
            is_live(old(self)@.events, item_id),
        ensures
            final(self).wf(),
            final(self)@.created == old(self)@.created,
            exists|now: Timestamp|
                final(self)@.events == appended(old(self)@.events, now, EventView::Remove(item_id)),
    {
        let now = now();
        self.remove_id_at(item_id, now);
    }

    /// Removes the item that `name` stands for at the time `now`.
    pub fn remove_at(&mut self, name: &str, now: Timestamp) -> (r: VResult<()>)
        requires
            old(self).wf(),
        ensures
            final(self).wf(),
            final(self)@.created == old(self)@.created,
            match r {
                Ok(_) => has_name(old(self)@.events, name@) && final(self)@.events == appended(
                    old(self)@.events,
                    now,
                    EventView::Remove(find_by_name(old(self)@.events, name@)->0),
                ),
                Err(Error::NoSuchItem(n)) => !has_name(old(self)@.events, name@) && n@ == name@
                    && final(self)@ == old(self)@,
                Err(_) => false,
            },
    {
        let id = self.get_id_by_name(name)?;
        proof {
            lemma_find_from(self@.events, name@, 0);
            lemma_live_seq(self@.events);
        }
        self.push_frame(now, Event::Remove(id));
        Ok(())
    }

    /// Removes the item that `name` stands for.
    pub fn remove(&mut self, name: &str) -> (r: VResult<()>)
        requires
            old(self).wf(),
        ensures
            final(self).wf(),
            final(self)@.created == old(self)@.created,
            match r {
                Ok(_) => has_name(old(self)@.events, name@) && exists|now: Timestamp|
                    final(self)@.events == appended(
                        old(self)@.events,
                        now,
                        EventView::Remove(find_by_name(old(self)@.events, name@)->0),
                    ),
                Err(Error::NoSuchItem(n)) => !has_name(old(self)@.events, name@) && n@ == name@
                    && final(self)@ == old(self)@,
                Err(_) => false,
            },
    {
        let now = now();
        self.remove_at(name, now)
    }
}

impl Book {
    /// Tests whether two books have the same origin and hold the same events.
    pub fn same(&self, other: &Book) -> (r: bool)
        ensures
            r == (self@ == other@),
    {
        if self.created != other.created || self.events.len() != other.events.len() {
            assert(self@.events.len() == self.events.len());
            assert(other@.events.len() == other.events.len());
            return false;
        }
        let mut i: usize = 0;
        while i < self.events.len()
            invariant
                i <= self.events.len(),
                self.events.len() == other.events.len(),
                self.created == other.created,
                forall|j: int| 0 <= j < i ==> self.events@[j]@ == other.events@[j]@,
            decreases self.events.len() - i,
        {
            if !self.events[i].same(&other.events[i]) {
                assert(self@.events[i as int] == self.events@[i as int]@);
                assert(other@.events[i as int] == other.events@[i as int]@);
                return false;
            }
            i += 1;
        }
        assert(self@.events =~= other@.events);
        assert(self@ =~= other@);
        true
    }
}

/// Tests the invariant of a book on a vector of events.
/// Tests whether one of the first `n` events creates `id`.
pub fn creates_before(events: &Vec<EventFrame>, n: usize, id: ItemId) -> (r: bool)
    requires
        n <= events.len(),
    ensures
        r == created_before(frames(events@), n as int, id),
{
    let ghost log = frames(events@);
    let mut j: usize = 0;
    while j < n
        invariant
            j <= n <= events.len(),
            log == frames(events@),
            forall|k: int| 0 <= k < j ==> (#[trigger] log[k]).event != EventView::Create(id),
        decreases n - j,
    {
        assert(log[j as int] == events@[j as int]@);
        if events[j].creates_id() == Some(id) {
            return true;
        }
        j += 1;
    }
    false
}

pub fn is_well_formed(events: &Vec<EventFrame>) -> (r: bool)
    ensures
        r == well_formed(frames(events@)),
{
    let ghost log = frames(events@);
    let mut i: usize = 0;
    while i < events.len()
        invariant
            i <= events.len(),
            log == frames(events@),
            forall|a: int, b: int| 0 <= a <= b < i ==> (#[trigger] log[a]).time.le((#[trigger] log[b]).time),
            forall|a: int| 0 <= a < i ==> !#[trigger] dangling_at(log, a),
            forall|a: int| 0 <= a < i ==> !#[trigger] orphan_at(log, a),
        decreases events.len() - i,
    {
        assert(log[i as int] == events@[i as int]@);
        if i > 0 {
            assert(log[i - 1] == events@[i - 1]@);
            if !events[i - 1].time.not_after(&events[i].time) {
                assert(!log[i - 1].time.le(log[i as int].time));
                return false;
            }
        }
        match &events[i].event {
            Event::Create(id) => {
                if i + 1 >= events.len() {
                    assert(dangling_at(log, i as int));
                    return false;
                }
                assert(log[i + 1] == events@[i + 1]@);
                let ok = match &events[i + 1].event {
                    Event::Update(next, _) => *next == *id && events[i + 1].time == events[i].time,
                    _ => false,
                };
                if !ok {
                    assert(dangling_at(log, i as int));
                    return false;
                }
            },
            Event::Update(id, _) => {
                if !creates_before(events, i, *id) {
                    assert(orphan_at(log, i as int));
                    return false;
                }
            },
            Event::Remove(id) => {
                if !creates_before(events, i, *id) {
                    assert(orphan_at(log, i as int));
                    return false;
                }
            },
        }
        i += 1;
    }
    true
}

} // verus!
