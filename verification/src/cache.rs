//! Position reports that could not be delivered, kept on disk until they
//! can be.
//!
//! The reports lie in a [`sled`] database, an ordered store of byte strings
//! under byte strings. What this module states of the database itself is
//! taken on trust from `sled`; what [`Persistence`] makes of it is proved.

use vstd::prelude::*;

verus! {

/// The working set that the database is asked to keep in memory, in bytes.
pub const CACHE_CAPACITY: u64 = 500_000;

/// The database handle of `sled`.
#[verifier::external_type_specification]
#[verifier::external_body]
pub struct ExDb(sled::Db);

/// The error type of `sled`.
#[verifier::external_type_specification]
#[verifier::external_body]
pub struct ExSledError(sled::Error);

/// The keys that a database holds, each with its value.
pub uninterp spec fn db_contents(db: sled::Db) -> Map<Seq<u8>, Seq<u8>>;

/// A store that holds nothing.
pub open spec fn empty_store() -> Map<Seq<u8>, Seq<u8>> {
    Map::empty()
}

/// Whether `a` comes before `b` in the order of the store: byte by byte,
/// and a string before every string that it begins.
pub open spec fn bytes_lt(a: Seq<u8>, b: Seq<u8>) -> bool
    decreases a.len(),
{
    if b.len() == 0 {
        false
    } else if a.len() == 0 {
        true
    } else if a[0] != b[0] {
        a[0] < b[0]
    } else {
        bytes_lt(a.skip(1), b.skip(1))
    }
}

/// Whether `contents` holds `value` under `key`, and every other key comes
/// after `key`.
pub open spec fn is_first(contents: Map<Seq<u8>, Seq<u8>>, key: Seq<u8>, value: Seq<u8>) -> bool {
    &&& contents.contains_key(key)
    &&& contents[key] == value
    &&& forall|other: Seq<u8>| #[trigger]
        contents.contains_key(other) ==> other == key || bytes_lt(key, other)
}

/// What each of the entries holds.
pub open spec fn entry_views(entries: Seq<(Vec<u8>, Vec<u8>)>) -> Seq<(Seq<u8>, Seq<u8>)> {
    entries.map_values(|e: (Vec<u8>, Vec<u8>)| (e.0@, e.1@))
}

/// Whether `entries` lists what `contents` holds: every key once, with its
/// value, in ascending order of the keys.
pub open spec fn lists(entries: Seq<(Seq<u8>, Seq<u8>)>, contents: Map<Seq<u8>, Seq<u8>>) -> bool {
    &&& forall|i: int|
        0 <= i < entries.len() ==> contents.contains_key(#[trigger] entries[i].0) && contents[entries[i].0]
            == entries[i].1
    &&& forall|i: int, j: int|
        0 <= i < j < entries.len() ==> bytes_lt(#[trigger] entries[i].0, #[trigger] entries[j].0)
    &&& forall|k: Seq<u8>| #[trigger]
        contents.contains_key(k) ==> exists|i: int| 0 <= i < entries.len() && #[trigger] entries[i].0 == k
}

/// Opens the database in the directory `path`, creating it if it is not
/// there, with the given cache capacity: `sled::Config::open`. Nothing is
/// claimed of what the database holds.
#[verifier::external_body]
fn db_open(path: &str, cache_capacity: u64) -> (r: Result<sled::Db, sled::Error>) {
    sled::Config::default().cache_capacity(cache_capacity).path(path).open()
}

/// Puts `value` under `key`: `sled::Tree::insert`. If the call succeeds,
/// the database holds what it held, but `value` under `key`, and the value
/// that `key` had before is handed back.
#[verifier::external_body]
fn db_insert(db: &mut sled::Db, key: &[u8], value: &[u8]) -> (r: Result<
    Option<Vec<u8>>,
    sled::Error,
>)
    ensures
        r matches Ok(previous) ==> {
            &&& db_contents(*final(db)) == db_contents(*old(db)).insert(key@, value@)
            &&& match previous {
                Some(v) => db_contents(*old(db)).contains_key(key@) && db_contents(*old(db))[key@]
                    == v@,
                None => !db_contents(*old(db)).contains_key(key@),
            }
        },
{
    db.insert(key, value).map(|previous| previous.map(|v| v.to_vec()))
}

/// Looks up `key`: `sled::Tree::get`. If the call succeeds, it hands back
/// the value under `key`, or nothing if the database holds no such key.
#[verifier::external_body]
fn db_get(db: &sled::Db, key: &[u8]) -> (r: Result<Option<Vec<u8>>, sled::Error>)
    ensures
        r matches Ok(found) ==> match found {
            Some(v) => db_contents(*db).contains_key(key@) && db_contents(*db)[key@] == v@,
            None => !db_contents(*db).contains_key(key@),
        },
{
    db.get(key).map(|found| found.map(|v| v.to_vec()))
}

/// Takes `key` out: `sled::Tree::remove`. If the call succeeds, the
/// database holds what it held, without `key`, and the value that `key`
/// had is handed back.
#[verifier::external_body]
fn db_remove(db: &mut sled::Db, key: &[u8]) -> (r: Result<Option<Vec<u8>>, sled::Error>)
    ensures
        r matches Ok(previous) ==> {
            &&& db_contents(*final(db)) == db_contents(*old(db)).remove(key@)
            &&& match previous {
                Some(v) => db_contents(*old(db)).contains_key(key@) && db_contents(*old(db))[key@]
                    == v@,
                None => !db_contents(*old(db)).contains_key(key@),
            }
        },
{
    db.remove(key).map(|previous| previous.map(|v| v.to_vec()))
}

/// Walks the database from its first key to its last: `sled::Tree::iter`.
/// If no entry fails to be read, the entries that come back are what the
/// database holds, in ascending order of the keys.
#[verifier::external_body]
fn db_entries(db: &sled::Db) -> (r: Result<Vec<(Vec<u8>, Vec<u8>)>, sled::Error>)
    ensures
        r matches Ok(entries) ==> lists(entry_views(entries@), db_contents(*db)),
{
    db.iter().map(|item| item.map(|(k, v)| (k.to_vec(), v.to_vec()))).collect()
}

/// The entry with the first key: `sled::Tree::first`. If the call
/// succeeds, it hands back the key that comes before all the others, with
/// its value, or nothing if the database holds nothing.
#[verifier::external_body]
fn db_first(db: &sled::Db) -> (r: Result<Option<(Vec<u8>, Vec<u8>)>, sled::Error>)
    ensures
        r matches Ok(found) ==> match found {
            Some(entry) => is_first(db_contents(*db), entry.0@, entry.1@),
            None => db_contents(*db).dom() =~= Set::empty(),
        },
{
    db.first().map(|found| found.map(|(k, v)| (k.to_vec(), v.to_vec())))
}

/// Forces what was written to the disk: `sled::Tree::flush`. The number
/// that comes back says how many bytes were written.
#[verifier::external_body]
fn db_flush(db: &sled::Db) -> (r: Result<usize, sled::Error>) {
    db.flush()
}

/// Takes every key out: `sled::Tree::clear`. If the call succeeds, the
/// database holds nothing.
#[verifier::external_body]
fn db_clear(db: &mut sled::Db) -> (r: Result<(), sled::Error>)
    ensures
        r is Ok ==> db_contents(*final(db)) == empty_store(),
{
    db.clear()
}

/// Why the store could not do what was asked.
#[derive(Clone, Copy, Debug, PartialEq, Eq, Structural)]
pub enum PersistenceError {
    /// The database could not be opened or read through.
    Open,
    /// The database reported an error.
    Storage,
    /// The store holds as many entries as can be counted.
    Full,
}

/// What a lookup is worth to the one who asked: the value that the database
/// found, and nothing where it found none or failed to read.
pub fn found_value(outcome: Result<Option<Vec<u8>>, sled::Error>) -> (r: Option<Vec<u8>>)
    ensures
        r == match outcome {
            Ok(found) => found,
            Err(_) => None,
        },
{
    match outcome {
        Ok(found) => found,
        Err(_) => None,
    }
}

/// What a flush is worth to the one who asked: done, if the database wrote
/// everything out, and a storage error if it did not.
pub fn flush_outcome(outcome: Result<usize, sled::Error>) -> (r: Result<(), PersistenceError>)
    ensures
        match outcome {
            Ok(_) => r is Ok,
            Err(_) => r matches Err(e) && e == PersistenceError::Storage,
        },
{
    match outcome {
        Ok(_) => Ok(()),
        Err(_) => Err(PersistenceError::Storage),
    }
}

/// No byte string comes before itself.
pub proof fn lemma_bytes_lt_irreflexive(a: Seq<u8>)
    ensures
        !bytes_lt(a, a),
    decreases a.len(),
{
    if a.len() > 0 {
        lemma_bytes_lt_irreflexive(a.skip(1));
    }
}

/// A store that can be listed holds as many entries as the list is long.
pub proof fn lemma_listed_len(entries: Seq<(Seq<u8>, Seq<u8>)>, contents: Map<Seq<u8>, Seq<u8>>)
    requires
        lists(entries, contents),
    ensures
        contents.dom().finite(),
        contents.dom().len() == entries.len(),
{
    let keys = entries.map_values(|e: (Seq<u8>, Seq<u8>)| e.0);
    assert forall|i: int, j: int| 0 <= i < keys.len() && 0 <= j < keys.len() && i != j implies keys[i]
        != keys[j] by {
        lemma_bytes_lt_irreflexive(keys[i]);
        if i < j {
            assert(bytes_lt(entries[i].0, entries[j].0));
        } else {
            assert(bytes_lt(entries[j].0, entries[i].0));
        }
    }
    assert(keys.no_duplicates());
    keys.unique_seq_to_set();
    assert(keys.to_set() =~= contents.dom()) by {
        assert forall|k: Seq<u8>| keys.to_set().contains(k) implies contents.dom().contains(k) by {
            let i = choose|i: int| 0 <= i < keys.len() && keys[i] == k;
            assert(contents.contains_key(entries[i].0));
        }
        assert forall|k: Seq<u8>| contents.dom().contains(k) implies keys.to_set().contains(k) by {
            assert(contents.contains_key(k));
            let i = choose|i: int| 0 <= i < entries.len() && entries[i].0 == k;
            assert(keys[i] == k);
        }
    }
}

/// The store of the reports that wait for delivery, with the number of
/// its entries at hand.
pub struct Persistence {
    db: sled::Db,
    count: usize,
}

impl View for Persistence {
    type V = Map<Seq<u8>, Seq<u8>>;

    closed spec fn view(&self) -> Map<Seq<u8>, Seq<u8>> {
        db_contents(self.db)
    }
}

impl Persistence {
    /// The number of entries that the store has counted.
    pub closed spec fn counted(&self) -> nat {
        self.count as nat
    }

    /// The store has finitely many entries and has counted them right.
    pub open spec fn wf(&self) -> bool {
        &&& self@.dom().finite()
        &&& self.counted() == self@.len()
    }

    /// Opens the store in the directory `cache_dir` and counts what it
    /// holds from earlier runs. A store that cannot be read through cannot
    /// be counted, and is not opened.
    pub fn new(cache_dir: &str) -> (r: Result<Persistence, PersistenceError>)
        ensures
            match r {
                Ok(store) => store.wf(),
                Err(e) => e == PersistenceError::Open,
            },
    {
        let db = match db_open(cache_dir, CACHE_CAPACITY) {
            Ok(db) => db,
            Err(_) => {
                return Err(PersistenceError::Open);
            },
        };
        match db_entries(&db) {
            Ok(entries) => {
                proof {
                    lemma_listed_len(entry_views(entries@), db_contents(db));
                }
                Ok(Persistence { db, count: entries.len() })
            },
            Err(_) => Err(PersistenceError::Open),
        }
    }

    /// Puts `value` under `key`, in place of what was there. The count
    /// goes up only if the key is new.
    pub fn store(&mut self, key: &[u8], value: &[u8]) -> (r: Result<(), PersistenceError>)
        requires
            old(self).wf(),
        ensures
            match r {
                Ok(_) => final(self).wf() && final(self)@ == old(self)@.insert(key@, value@),
                Err(PersistenceError::Full) => final(self).wf() && final(self)@ == old(self)@,
                Err(e) => e == PersistenceError::Storage,
            },
            r matches Err(PersistenceError::Full) <==> old(self).counted() == usize::MAX,
    {
        if self.count == usize::MAX {
            return Err(PersistenceError::Full);
        }
        match db_insert(&mut self.db, key, value) {
            Ok(previous) => {
                if previous.is_none() {
                    self.count = self.count + 1;
                }
                Ok(())
            },
            Err(_) => Err(PersistenceError::Storage),
        }
    }

    /// The entries of the store in ascending order of their keys.
    pub fn iter(&self) -> (r: Result<Vec<(Vec<u8>, Vec<u8>)>, PersistenceError>)
        ensures
            match r {
                Ok(entries) => lists(entry_views(entries@), self@),
                Err(e) => e == PersistenceError::Storage,
            },
    {
        match db_entries(&self.db) {
            Ok(entries) => Ok(entries),
            Err(_) => Err(PersistenceError::Storage),
        }
    }

    /// The entry with the first key, or nothing if the store is empty.
    pub fn first(&self) -> (r: Result<Option<(Vec<u8>, Vec<u8>)>, PersistenceError>)
        ensures
            match r {
                Ok(Some(entry)) => is_first(self@, entry.0@, entry.1@),
                Ok(None) => self@.dom() =~= Set::empty(),
                Err(e) => e == PersistenceError::Storage,
            },
    {
        match db_first(&self.db) {
            Ok(found) => Ok(found),
            Err(_) => Err(PersistenceError::Storage),
        }
    }

    /// The value under `key`. A key that cannot be read counts as not
    /// found: the database decides whether the read succeeds, and
    /// [`found_value`] says what is made of its answer.
    pub fn get(&self, key: &[u8]) -> (r: Option<Vec<u8>>)
        ensures
            r matches Some(v) ==> self@.contains_key(key@) && self@[key@] == v@,
    {
        found_value(db_get(&self.db, key))
    }

    /// Takes `key` out of the store. The count goes down only if the key
    /// was there.
    pub fn remove(&mut self, key: &[u8]) -> (r: Result<(), PersistenceError>)
        requires
            old(self).wf(),
        ensures
            match r {
                Ok(_) => final(self).wf() && final(self)@ == old(self)@.remove(key@),
                Err(e) => e == PersistenceError::Storage,
            },
    {
        match db_remove(&mut self.db, key) {
            Ok(previous) => {
                if previous.is_some() {
                    assert(old(self)@.dom().contains(key@));
                    assert(old(self)@.dom().len() > 0) by {
                        if old(self)@.dom().len() == 0 {
                            assert(old(self)@.dom() =~= Set::empty());
                        }
                    }
                    self.count = self.count - 1;
                }
                Ok(())
            },
            Err(_) => Err(PersistenceError::Storage),
        }
    }

    /// Forces what was written to the disk. The database decides whether
    /// that succeeds, and [`flush_outcome`] says what is made of its
    /// answer. The store holds afterwards what it held before.
    pub fn flush(&self) -> (r: Result<(), PersistenceError>)
        ensures
            r matches Err(e) ==> e == PersistenceError::Storage,
    {
        flush_outcome(db_flush(&self.db))
    }

    /// Empties the store.
    pub fn clear(&mut self) -> (r: Result<(), PersistenceError>)
        ensures
            match r {
                Ok(_) => final(self).wf() && final(self)@ == empty_store(),
                Err(e) => e == PersistenceError::Storage,
            },
    {
        match db_clear(&mut self.db) {
            Ok(_) => {
                self.count = 0;
                Ok(())
            },
            Err(_) => Err(PersistenceError::Storage),
        }
    }

    /// The number of entries in the store.
    pub fn count(&self) -> (n: usize)
        ensures
            n == self.counted(),
            self.wf() ==> n == self@.len(),
    {
        self.count
    }
}

} // verus!
