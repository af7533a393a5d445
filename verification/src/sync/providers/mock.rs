//! Stores values in memory instead of saving them somewhere. All data is
//! discarded with the provider. Used for testing.

use vstd::prelude::*;
use crate::sync::{Error, SyncProvider, SyncResult, UpdateKey};

verus! {

/// The update key of stored bytes: their last byte, or 0 where there is none.
pub open spec fn last_byte(data: Seq<u8>) -> u8 {
    if data.len() > 0 {
        data.last()
    } else {
        0
    }
}

/// A key with the value that was stored under it.
pub struct Entry {
    pub key: String,
    pub value: Vec<u8>,
}

/// A key with its value, as mathematical values.
pub struct EntryView {
    pub key: Seq<char>,
    pub value: Seq<u8>,
}

impl View for Entry {
    type V = EntryView;

    open spec fn view(&self) -> EntryView {
        EntryView { key: self.key@, value: self.value@ }
    }
}

/// The entries as mathematical values.
pub open spec fn views(entries: Seq<Entry>) -> Seq<EntryView> {
    entries.map_values(|e: Entry| e@)
}

/// What is stored under a key, among entries of which the later ones
/// replace the earlier.
pub open spec fn lookup(entries: Seq<EntryView>, key: Seq<char>) -> Option<Seq<u8>>
    decreases entries.len(),
{
    if entries.len() == 0 {
        None
    } else if entries.last().key == key {
        Some(entries.last().value)
    } else {
        lookup(entries.drop_last(), key)
    }
}

/// The entries without those of a key.
pub open spec fn without(entries: Seq<EntryView>, key: Seq<char>) -> Seq<EntryView>
    decreases entries.len(),
{
    if entries.len() == 0 {
        entries
    } else if entries.last().key == key {
        without(entries.drop_last(), key)
    } else {
        without(entries.drop_last(), key).push(entries.last())
    }
}

/// A remote in memory.
pub struct Mock {
    entries: Vec<Entry>,
}

impl Mock {
    /// What the remote stores under a key.
    pub closed spec fn stored(&self, key: Seq<char>) -> Option<Seq<u8>> {
        lookup(views(self.entries@), key)
    }

    /// An empty remote.
    pub fn load() -> (r: Self)
        ensures
            forall|k: Seq<char>| r.stored(k) is None,
    {
        Mock { entries: Vec::new() }
    }

    /// The position of the entry that holds the value of a key.
    fn position(&self, key: &str) -> (r: Option<usize>)
        ensures
            match r {
                Some(i) => i < self.entries.len() && self.stored(key@) == Some(
                    self.entries@[i as int].value@,
                ),
                None => self.stored(key@) is None,
            },
    {
        let wanted = key.to_owned();
        let ghost all = views(self.entries@);
        let mut i: usize = self.entries.len();
        assert(all.take(i as int) =~= all);
        while i > 0
            invariant
                i <= self.entries.len(),
                wanted@ == key@,
                all == views(self.entries@),
                self.stored(key@) == lookup(all.take(i as int), key@),
            decreases i,
        {
            i -= 1;
            assert(all.take(i + 1).drop_last() =~= all.take(i as int));
            assert(all.take(i + 1).last() == self.entries@[i as int]@);
            if self.entries[i].key == wanted {
                return Some(i);
            }
        }
        None
    }
}

/// Stored values stay as they are under every key but `key`.
pub open spec fn others_kept(before: Mock, after: Mock, key: Seq<char>) -> bool {
    forall|k: Seq<char>| k != key ==> #[trigger] after.stored(k) == before.stored(k)
}

/// Dropping the entries of a key leaves the other keys as they are.
proof fn lemma_without(entries: Seq<EntryView>, key: Seq<char>, k: Seq<char>)
    ensures
        lookup(without(entries, key), k) == (if k == key {
            None
        } else {
            lookup(entries, k)
        }),
    decreases entries.len(),
{
    if entries.len() > 0 {
        lemma_without(entries.drop_last(), key, k);
        if entries.last().key != key {
            assert(without(entries, key).drop_last() =~= without(entries.drop_last(), key));
        }
    }
}

impl SyncProvider for Mock {
    /// Check access and authentication: always granted.
    fn ping(&mut self) -> (r: SyncResult<()>)
        ensures
            r is Ok,
            forall|k: Seq<char>| final(self).stored(k) == old(self).stored(k),
    {
        Ok(())
    }

    /// Run sanity checks on the remote: always passed.
    fn test(&mut self) -> (r: SyncResult<()>)
        ensures
            r is Ok,
            forall|k: Seq<char>| final(self).stored(k) == old(self).stored(k),
    {
        Ok(())
    }

    /// Create a new key and set its value. Fails, and leaves every stored
    /// value as it is, where the key exists already.
    fn create(&mut self, key: &str, value: Vec<u8>) -> (r: SyncResult<()>)
        ensures
            others_kept(*old(self), *final(self), key@),
            match r {
                Ok(_) => old(self).stored(key@) is None && final(self).stored(key@) == Some(value@),
                Err(Error::KeyAlreadyExists(k)) => old(self).stored(key@) is Some && k@ == key@
                    && final(self).stored(key@) == old(self).stored(key@),
                Err(_) => false,
            },
    {
        match self.position(key) {
            Some(_) => Err(Error::KeyAlreadyExists(key.to_owned())),
            None => {
                self.entries.push(Entry { key: key.to_owned(), value });
                assert(views(self.entries@).drop_last() =~= views(old(self).entries@));
                Ok(())
            },
        }
    }

    /// Update value to key, overriding the previous value. Fails, and
    /// leaves every stored value as it is, where the key does not exist or
    /// the update key is not the one of the stored value.
    fn update(&mut self, key: &str, value: Vec<u8>, update_key: UpdateKey) -> (r: SyncResult<()>)
        ensures
            others_kept(*old(self), *final(self), key@),
            match r {
                Ok(_) => old(self).stored(key@) is Some && update_key@ == seq![
                    last_byte(old(self).stored(key@)->0),
                ] && final(self).stored(key@) == Some(value@),
                Err(Error::NoSuchKey(k)) => old(self).stored(key@) is None && k@ == key@ && final(self).stored(key@) == old(self).stored(key@),
                Err(Error::InvalidUpdateKey) => old(self).stored(key@) is Some && update_key@
                    != seq![last_byte(old(self).stored(key@)->0)] && final(self).stored(key@) == old(self).stored(key@),
                Err(_) => false,
            },
    {
        let (_, uk) = self.read(key)?;
        if !uk.same(&update_key) {
            return Err(Error::InvalidUpdateKey);
        }
        let ghost before = views(self.entries@);
        self.entries.push(Entry { key: key.to_owned(), value });
        assert(views(self.entries@).drop_last() =~= before);
        Ok(())
    }

    /// Read value by key. Also returns the update key: the last byte of
    /// the value.
    fn read(&mut self, key: &str) -> (r: SyncResult<(Vec<u8>, UpdateKey)>)
        ensures
            forall|k: Seq<char>| final(self).stored(k) == old(self).stored(k),
            match r {
                Ok((data, update_key)) => old(self).stored(key@) == Some(data@) && update_key@
                    == seq![last_byte(data@)],
                Err(Error::NoSuchKey(k)) => old(self).stored(key@) is None && k@ == key@,
                Err(_) => false,
            },
    {
        match self.position(key) {
            Some(i) => {
                let data = self.entries[i].value.clone();
                let uk = if data.len() > 0 {
                    data[data.len() - 1]
                } else {
                    0
                };
                Ok((data, UpdateKey::from_byte(uk)))
            },
            None => Err(Error::NoSuchKey(key.to_owned())),
        }
    }

    /// Removes a key with its value, whether the key exists or not.
    fn delete(&mut self, key: &str) -> (r: SyncResult<()>)
        ensures
            r is Ok,
            final(self).stored(key@) is None,
            others_kept(*old(self), *final(self), key@),
    {
        let wanted = key.to_owned();
        let ghost before = views(self.entries@);
        let mut kept: Vec<Entry> = Vec::new();
        let mut i: usize = 0;
        assert(views(kept@) =~= without(before.take(0), key@));
        while i < self.entries.len()
            invariant
                i <= self.entries.len(),
                views(self.entries@) == before,
                wanted@ == key@,
                views(kept@) == without(before.take(i as int), key@),
            decreases self.entries.len() - i,
        {
            proof {
                assert(before.take(i + 1).drop_last() =~= before.take(i as int));
                assert(before.take(i + 1).last() == self.entries@[i as int]@);
            }
            if self.entries[i].key != wanted {
                let ghost sofar = views(kept@);
                kept.push(Entry { key: self.entries[i].key.clone(), value: self.entries[i].value.clone() });
                assert(views(kept@) =~= sofar.push(self.entries@[i as int]@));
            }
            i += 1;
        }
        assert(before.take(i as int) =~= before);
        self.entries = kept;
        proof {
            assert forall|k: Seq<char>| #[trigger] self.stored(k) == (if k == key@ {
                None
            } else {
                old(self).stored(k)
            }) by {
                lemma_without(before, key@, k);
            }
        }
        Ok(())
    }
}

} // verus!
