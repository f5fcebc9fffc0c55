//! Ingestion: a reading is stored once, under its fingerprint.
//!
//! A meter that is polled every second shows the same counter value many
//! times. The fingerprint of a reading covers its rate and its energy and not
//! its time, so a value that was stored before is known again whenever it
//! comes back, and the time that is kept is that of its first observation.
//!
//! The store itself is a service outside this library. The library says what
//! to ask of it (`insertion`) and what the answer means (`ingested`); `Store`
//! is a store in memory that keeps the same contract.

use crate::state::{fingerprint, lemma_record_round_trip, record_bytes, record_state, State};
use vstd::prelude::*;

verus! {

/// A failure of the store.
#[derive(Debug, Clone, Copy, PartialEq, Eq, Structural)]
pub enum StoreError {
    /// The store could not be read or written.
    Io,
    /// The store holds what it should not.
    Corruption,
}

/// What is asked of the store for one reading: to insert `value` under
/// `key`, unless the key is there already.
#[derive(Debug)]
pub struct Insertion {
    pub key: String,
    pub value: Vec<u8>,
}

/// One entry of a store.
pub struct Entry {
    pub key: Seq<char>,
    pub value: Seq<u8>,
}

/// Whether `entries` hold an entry under `key`.
pub open spec fn has_key(entries: Seq<Entry>, key: Seq<char>) -> bool {
    exists|i: int| 0 <= i < entries.len() && #[trigger] entries[i].key == key
}

/// Whether no key occurs twice in `entries`.
pub open spec fn distinct_keys(entries: Seq<Entry>) -> bool {
    forall|i: int, j: int|
        0 <= i < j < entries.len() ==> #[trigger] entries[i].key != #[trigger] entries[j].key
}

/// The entries after an insertion of `value` under `key` that leaves a
/// present key alone.
pub open spec fn inserted_if_absent(entries: Seq<Entry>, key: Seq<char>, value: Seq<u8>) -> Seq<
    Entry,
> {
    if has_key(entries, key) {
        entries
    } else {
        entries.push(Entry { key, value })
    }
}

/// The entries of a store after the ingestion of `reading`.
pub open spec fn after_ingest(entries: Seq<Entry>, reading: State) -> Seq<Entry> {
    inserted_if_absent(entries, fingerprint(reading), record_bytes(reading))
}

/// What the ingestion of `reading` returns: the reading where it is new,
/// `None` where its fingerprint is in the store already.
pub open spec fn ingest_result(entries: Seq<Entry>, reading: State) -> Option<State> {
    if has_key(entries, fingerprint(reading)) {
        None
    } else {
        Some(reading)
    }
}

/// The readings that the entries hold, in their order. A value that is no
/// record of a reading is left out.
pub open spec fn stored_states(entries: Seq<Entry>) -> Seq<State>
    decreases entries.len(),
{
    if entries.len() == 0 {
        Seq::empty()
    } else {
        let before = stored_states(entries.drop_last());
        match record_state(entries.last().value) {
            Some(state) => before.push(state),
            None => before,
        }
    }
}

/// What to ask of the store for `reading`: its record, under its
/// fingerprint.
pub fn insertion(reading: &State) -> (request: Insertion)
    ensures
        request.key@ == fingerprint(*reading),
        request.value@ == record_bytes(*reading),
{
    Insertion { key: reading.checksum(), value: reading.to_record() }
}

/// What the answer of the store means for `reading`. `outcome` tells whether
/// the store inserted the record: then the reading is new. Where the key was
/// there the reading is a duplicate, and `None`. A failure of the store is
/// handed on.
pub fn ingested(reading: State, outcome: Result<bool, StoreError>) -> (result: Result<
    Option<State>,
    StoreError,
>)
    ensures
        result == (match outcome {
            Ok(true) => Ok(Some(reading)),
            Ok(false) => Ok(None),
            Err(error) => Err(error),
        }),
{
    match outcome {
        Ok(true) => Ok(Some(reading)),
        Ok(false) => Ok(None),
        Err(error) => Err(error),
    }
}

/// The entries that keys and values make, one by one.
spec fn paired(keys: Seq<String>, values: Seq<Vec<u8>>) -> Seq<Entry> {
    Seq::new(keys.len(), |i: int| Entry { key: keys[i]@, value: values[i]@ })
}

/// A store in memory: entries in the order of their insertion, no key twice.
pub struct Store {
    keys: Vec<String>,
    values: Vec<Vec<u8>>,
}

impl Store {
    #[verifier::type_invariant]
    spec fn well_formed(self) -> bool {
        self.keys.len() == self.values.len() && distinct_keys(self.entries())
    }

    /// The entries of the store, in the order of their insertion.
    pub closed spec fn entries(self) -> Seq<Entry> {
        paired(self.keys@, self.values@)
    }

    /// A store without entries.
    pub fn new() -> (store: Store)
        ensures
            store.entries().len() == 0,
    {
        Store { keys: Vec::new(), values: Vec::new() }
    }

    /// The number of entries.
    pub fn len(&self) -> (count: usize)
        ensures
            count == self.entries().len(),
            distinct_keys(self.entries()),
    {
        proof {
            use_type_invariant(self);
        }
        self.keys.len()
    }

    /// Whether the store holds an entry under `key`.
    pub fn contains_key(&self, key: &String) -> (found: bool)
        ensures
            found == has_key(self.entries(), key@),
    {
        let mut i: usize = 0;
        while i < self.keys.len()
            invariant
                i <= self.keys.len(),
                self.entries().len() == self.keys.len(),
                forall|k: int| 0 <= k < i ==> (#[trigger] self.entries()[k]).key != key@,
            decreases self.keys.len() - i,
        {
            if self.keys[i] == *key {
                assert(self.entries()[i as int].key == key@);
                return true;
            }
            i += 1;
        }
        false
    }

    /// Inserts `value` under `key`, unless the key is there already: then the
    /// store stays as it is. Returns whether it inserted.
    pub fn insert_if_absent(&mut self, key: String, value: Vec<u8>) -> (inserted: bool)
        ensures
            inserted == !has_key(old(self).entries(), key@),
            final(self).entries() == inserted_if_absent(old(self).entries(), key@, value@),
            distinct_keys(final(self).entries()),
    {
        proof {
            use_type_invariant(&*self);
        }
        if self.contains_key(&key) {
            return false;
        }
        let ghost before = self.entries();
        let ghost entry = Entry { key: key@, value: value@ };
        let mut taken = Store::new();
        core::mem::swap(self, &mut taken);
        let Store { mut keys, mut values } = taken;
        keys.push(key);
        values.push(value);
        proof {
            let filled = paired(keys@, values@);
            assert(filled =~= before.push(entry));
            assert forall|i: int, j: int| 0 <= i < j < filled.len() implies (
            #[trigger] filled[i]).key != (#[trigger] filled[j]).key by {
                if j < before.len() {
                    assert(before[i].key != before[j].key);
                } else {
                    assert(before[i].key != entry.key);
                }
            }
        }
        *self = Store { keys, values };
        true
    }

    /// The readings that the store holds, in the order of their insertion. A
    /// value that is no record of a reading is left out.
    pub fn states(&self) -> (found: Vec<State>)
        ensures
            found@ == stored_states(self.entries()),
    {
        proof {
            use_type_invariant(self);
        }
        let mut found: Vec<State> = Vec::new();
        let mut i: usize = 0;
        while i < self.values.len()
            invariant
                i <= self.values.len(),
                self.keys.len() == self.values.len(),
                found@ == stored_states(self.entries().take(i as int)),
            decreases self.values.len() - i,
        {
            proof {
                assert(self.entries().take(i + 1).drop_last() == self.entries().take(i as int));
            }
            match State::from_record(self.values[i].as_slice()) {
                Some(state) => {
                    found.push(state);
                },
                None => {},
            }
            i += 1;
        }
        assert(self.entries().take(i as int) == self.entries());
        found
    }
}

/// Stores `reading` unless a reading of the same rate and energy is stored
/// already. Returns the reading where it is new and `None` where it is a
/// duplicate; the store in memory does not fail.
pub fn ingest(store: &mut Store, reading: State) -> (result: Result<Option<State>, StoreError>)
    ensures
        result == Ok::<Option<State>, StoreError>(ingest_result(old(store).entries(), reading)),
        final(store).entries() == after_ingest(old(store).entries(), reading),
        distinct_keys(final(store).entries()),
{
    let request = insertion(&reading);
    let inserted = store.insert_if_absent(request.key, request.value);
    ingested(reading, Ok(inserted))
}

/// Ingestion is idempotent. A reading that is ingested is new exactly where
/// its fingerprint was not stored. Any reading of the same rate and energy
/// that is ingested after it, whatever its time, is a duplicate, and leaves
/// the store as it was.
pub proof fn lemma_ingest_idempotent(entries: Seq<Entry>, reading: State, again: State)
    requires
        again.rate == reading.rate,
        again.energy == reading.energy,
    ensures
        ingest_result(entries, reading) == Some(reading) <==> !has_key(
            entries,
            fingerprint(reading),
        ),
        ingest_result(after_ingest(entries, reading), again) is None,
        after_ingest(after_ingest(entries, reading), again) == after_ingest(entries, reading),
{
    let stored = after_ingest(entries, reading);
    if has_key(entries, fingerprint(reading)) {
    } else {
        assert(stored[entries.len() as int].key == fingerprint(again));
    }
}

/// What was stored stays stored: ingestion never removes or changes an
/// entry, and adds at most one.
pub proof fn lemma_ingest_keeps_entries(entries: Seq<Entry>, reading: State)
    ensures
        entries.is_prefix_of(after_ingest(entries, reading)),
        after_ingest(entries, reading).len() <= entries.len() + 1,
        has_key(after_ingest(entries, reading), fingerprint(reading)),
{
    let stored = after_ingest(entries, reading);
    if !has_key(entries, fingerprint(reading)) {
        assert(stored[entries.len() as int].key == fingerprint(reading));
    }
}

/// A reading that is new is the last of the readings that the store holds
/// afterwards, and the readings before it are those that the store held.
pub proof fn lemma_ingest_stores_reading(entries: Seq<Entry>, reading: State)
    requires
        !has_key(entries, fingerprint(reading)),
    ensures
        stored_states(after_ingest(entries, reading)) == stored_states(entries).push(reading),
{
    let stored = after_ingest(entries, reading);
    lemma_record_round_trip(reading);
    assert(stored.drop_last() == entries);
}

} // verus!
