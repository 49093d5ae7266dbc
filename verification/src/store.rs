//! The ordered store of one type of record.
//!
//! A store maps 64-bit keys to the encodings of records, and hands its
//! entries out by ascending key. It lives in a region of the backing memory
//! and keeps nothing outside of it.

use vstd::prelude::*;
use core::marker::PhantomData;
use crate::error::{corrupt, corrupt_wording, size_exceeded_wording, Error};
use crate::listing::{
    is_listing, keyed_views, lemma_listing_is_listing_of, listable, listing_of, values, views,
};
use crate::record::{
    decode, decoding, encode, encoding, fits, lemma_round_trip, valid, Record, MAX_RECORD_SIZE,
};
use crate::region::{RegionId, Regions};
use crate::stable::{
    blob_as_slice, blob_bytes, blob_from_slice, entry_bytes, map_entries, map_get, map_init,
    map_insert, map_list, map_region, map_remove, RecordMap,
};

verus! {

/// The record that stored bytes are read as: the record that they are the
/// encoding of, and `None` where there is none, or where the bytes are more
/// than a stored record may take.
pub open spec fn readable<T: Record>(bytes: Seq<u8>) -> Option<T::V> {
    if bytes.len() <= MAX_RECORD_SIZE {
        decoding::<T>(bytes)
    } else {
        None
    }
}

/// The record stored under a key: `None` where nothing is stored under it,
/// and where what is stored is not a record.
pub open spec fn stored<T: Record>(entries: Map<u64, Seq<u8>>, key: u64) -> Option<T::V> {
    if entries.contains_key(key) {
        readable::<T>(entries[key])
    } else {
        None
    }
}

/// Something is stored under the key that is not a record.
pub open spec fn corrupt_at<T: Record>(entries: Map<u64, Seq<u8>>, key: u64) -> bool {
    entries.contains_key(key) && readable::<T>(entries[key]) is None
}

/// Every record is stored under its own key.
pub open spec fn own_keys<T: Record>(entries: Map<u64, Seq<u8>>) -> bool {
    forall|key: u64|
        #![trigger stored::<T>(entries, key)]
        stored::<T>(entries, key) matches Some(record) ==> T::key(record) == key
}

/// Everything stored is a record.
pub open spec fn intact<T: Record>(entries: Map<u64, Seq<u8>>) -> bool {
    forall|key: u64| !corrupt_at::<T>(entries, key)
}

/// The least key under which something is stored that is not a record.
pub open spec fn is_first_corrupt<T: Record>(entries: Map<u64, Seq<u8>>, key: u64) -> bool {
    &&& corrupt_at::<T>(entries, key)
    &&& forall|other: u64| other < key ==> !corrupt_at::<T>(entries, other)
}

/// The records stored, by key.
pub open spec fn records<T: Record>(entries: Map<u64, Seq<u8>>) -> Map<u64, T::V> {
    Map::new(
        |key: u64| stored::<T>(entries, key) is Some,
        |key: u64| stored::<T>(entries, key).unwrap(),
    )
}

/// The records stored, by ascending key.
pub open spec fn listed<T: Record>(entries: Map<u64, Seq<u8>>) -> Seq<T::V> {
    values(listing_of(records::<T>(entries)))
}

/// An ordered store of records of one type.
pub struct Store<T: Record> {
    map: RecordMap,
    kind: PhantomData<T>,
}

impl<T: Record> View for Store<T> {
    type V = Map<u64, Seq<u8>>;

    /// The bytes stored, by key.
    closed spec fn view(&self) -> Map<u64, Seq<u8>> {
        map_entries(self.map)
    }
}

impl<T: Record> Store<T> {
    /// The number of the region of the backing memory that the store was
    /// opened in.
    pub closed spec fn region_number(&self) -> u8 {
        map_region(self.map)
    }

    /// Opens the store in the region of the backing memory that holds the
    /// records of its type, which is then in use. The store holds what
    /// that region held.
    pub(crate) fn open(regions: &mut Regions) -> (store: Self)
        requires
            !old(regions).in_use(T::region()),
        ensures
            store.region_number() == T::region().number(),
            forall|id: RegionId|
                final(regions).in_use(id) == (id == T::region() || old(regions).in_use(id)),
    {
        Store { map: map_init(regions.claim(T::region_id())), kind: PhantomData }
    }

    /// Stores an encoded record under a key, in place of what was stored
    /// there.
    pub(crate) fn put(&mut self, key: u64, bytes: &Vec<u8>)
        requires
            bytes@.len() <= MAX_RECORD_SIZE,
        ensures
            final(self)@ == old(self)@.insert(key, bytes@),
            final(self).region_number() == old(self).region_number(),
    {
        match blob_from_slice(bytes.as_slice()) {
            Ok(blob) => {
                map_insert(&mut self.map, key, blob);
            },
            // Bytes that are not too many for a record always make a blob.
            Err(_) => {},
        }
    }

    /// Reads stored bytes as a record. Bytes that are more than a stored
    /// record may take are no record, whatever they hold.
    fn read(key: u64, bytes: &[u8]) -> (result: Result<T, Error>)
        ensures
            match result {
                Ok(record) => readable::<T>(bytes@) == Some(record@),
                Err(error) => {
                    &&& readable::<T>(bytes@) is None
                    &&& error is CorruptRecord
                    &&& error.message() == corrupt_wording(T::label(), key)
                },
            },
    {
        if bytes.len() > MAX_RECORD_SIZE {
            Err(corrupt(T::name(), key))
        } else {
            decode::<T>(key, bytes)
        }
    }

    /// Reads the record stored under a key.
    ///
    /// Returns `None` where nothing is stored under the key, and fails with
    /// `CorruptRecord` where what is stored is not a record.
    pub fn get(&self, key: u64) -> (result: Result<Option<T>, Error>)
        ensures
            match result {
                Ok(Some(record)) => stored::<T>(self@, key) == Some(record@),
                Ok(None) => !self@.contains_key(key),
                Err(error) => {
                    &&& corrupt_at::<T>(self@, key)
                    &&& error is CorruptRecord
                    &&& error.message() == corrupt_wording(T::label(), key)
                },
            },
    {
        match map_get(&self.map, key) {
            Some(blob) => {
                match Self::read(key, blob_as_slice(&blob)) {
                    Ok(record) => Ok(Some(record)),
                    Err(error) => Err(error),
                }
            },
            None => Ok(None),
        }
    }

    /// Stores a record under a key, in place of what was stored there.
    ///
    /// Fails with `SizeExceeded` exactly when the record is too large to
    /// store. Nothing is written then.
    pub fn insert(&mut self, key: u64, record: &T) -> (result: Result<(), Error>)
        ensures
            valid::<T>(record@),
            final(self).region_number() == old(self).region_number(),
            match result {
                Ok(()) => fits::<T>(record@) && final(self)@ == old(self)@.insert(
                    key,
                    encoding::<T>(record@),
                ),
                Err(error) => {
                    &&& !fits::<T>(record@)
                    &&& final(self)@ == old(self)@
                    &&& error is SizeExceeded
                    &&& error.message() == size_exceeded_wording(T::label(), key)
                },
            },
    {
        let bytes = encode::<T>(key, record)?;
        self.put(key, &bytes);
        Ok(())
    }

    /// Removes what is stored under a key, and tells whether anything was.
    pub fn delete(&mut self, key: u64) -> (existed: bool)
        ensures
            existed == old(self)@.contains_key(key),
            final(self)@ == old(self)@.remove(key),
            final(self).region_number() == old(self).region_number(),
    {
        match map_remove(&mut self.map, key) {
            Some(_) => true,
            None => false,
        }
    }

    /// Tells whether anything is stored under a key.
    pub fn contains(&self, key: u64) -> (found: bool)
        ensures
            found == self@.contains_key(key),
    {
        match map_get(&self.map, key) {
            Some(_) => true,
            None => false,
        }
    }

    /// Reads all records with their keys, by ascending key.
    ///
    /// Fails with `CorruptRecord` when something stored is not a record;
    /// the message names the least key under which that is so.
    pub fn iterate(&self) -> (result: Result<Vec<(u64, T)>, Error>)
        ensures
            match result {
                Ok(items) => {
                    &&& intact::<T>(self@)
                    &&& is_listing(records::<T>(self@), keyed_views(items@))
                },
                Err(error) => {
                    &&& error is CorruptRecord
                    &&& exists|key: u64|
                        is_first_corrupt::<T>(self@, key) && error.message() == corrupt_wording(
                            T::label(),
                            key,
                        )
                },
            },
    {
        let blobs = map_list(&self.map);
        let ghost raw = entry_bytes(blobs@);
        let mut items: Vec<(u64, T)> = Vec::new();
        let mut i: usize = 0;
        while i < blobs.len()
            invariant
                i <= blobs.len(),
                raw == entry_bytes(blobs@),
                is_listing(self@, raw),
                items@.len() == i,
                forall|j: int|
                    0 <= j < i ==> (#[trigger] items@[j]).0 == raw[j].0 && readable::<T>(raw[j].1)
                        == Some(items@[j].1@),
            decreases blobs.len() - i,
        {
            let key: u64 = blobs[i].0;
            assert(raw[i as int].0 == key);
            assert(raw[i as int].1 == blob_bytes(blobs@[i as int].1));
            match Self::read(key, blob_as_slice(&blobs[i].1)) {
                Ok(record) => {
                    items.push((key, record));
                },
                Err(error) => {
                    proof {
                        assert(corrupt_at::<T>(self@, key));
                        assert forall|other: u64| other < key implies !corrupt_at::<T>(
                            self@,
                            other,
                        ) by {
                            if self@.contains_key(other) {
                                let j = choose|j: int|
                                    0 <= j < raw.len() && (#[trigger] raw[j]).0 == other;
                                if j >= i {
                                    assert(raw[i as int].0 <= raw[j].0);
                                }
                                assert(items@[j].0 == raw[j].0);
                            }
                        }
                        assert(is_first_corrupt::<T>(self@, key));
                    }
                    return Err(error);
                },
            }
            i += 1;
        }
        proof {
            let typed = records::<T>(self@);
            let listing = keyed_views(items@);
            assert forall|key: u64| !corrupt_at::<T>(self@, key) by {
                if self@.contains_key(key) {
                    let j = choose|j: int| 0 <= j < raw.len() && (#[trigger] raw[j]).0 == key;
                    assert(items@[j].0 == raw[j].0);
                }
            }
            assert forall|a: int, b: int| 0 <= a < b < listing.len() implies (
            #[trigger] listing[a]).0 < (#[trigger] listing[b]).0 by {
                assert(items@[a].0 == raw[a].0);
                assert(items@[b].0 == raw[b].0);
            }
            assert forall|a: int| 0 <= a < listing.len() implies typed.contains_key(
                (#[trigger] listing[a]).0,
            ) && typed[listing[a].0] == listing[a].1 by {
                assert(items@[a].0 == raw[a].0);
            }
            assert forall|key: u64| #[trigger] typed.contains_key(key) implies exists|a: int|
                0 <= a < listing.len() && (#[trigger] listing[a]).0 == key by {
                let j = choose|j: int| 0 <= j < raw.len() && (#[trigger] raw[j]).0 == key;
                assert(items@[j].0 == raw[j].0);
                assert(listing[j].0 == key);
            }
        }
        Ok(items)
    }

    /// Reads all records, by ascending key.
    ///
    /// Fails as [`Store::iterate`] does.
    pub fn list(&self) -> (result: Result<Vec<T>, Error>)
        ensures
            match result {
                Ok(items) => {
                    &&& intact::<T>(self@)
                    &&& listable(records::<T>(self@))
                    &&& views(items@) == listed::<T>(self@)
                },
                Err(error) => {
                    &&& error is CorruptRecord
                    &&& exists|key: u64|
                        is_first_corrupt::<T>(self@, key) && error.message() == corrupt_wording(
                            T::label(),
                            key,
                        )
                },
            },
    {
        let keyed = self.iterate()?;
        let ghost listing = keyed_views(keyed@);
        proof {
            lemma_listing_is_listing_of(records::<T>(self@), listing);
        }
        let mut items: Vec<T> = Vec::new();
        for entry in entries: keyed
            invariant
                entries.seq() == keyed@,
                listing == keyed_views(keyed@),
                items@.len() == entries.index(),
                forall|j: int| 0 <= j < items@.len() ==> (#[trigger] items@[j])@ == listing[j].1,
        {
            items.push(entry.1);
        }
        assert(views(items@) =~= values(listing));
        Ok(items)
    }
}

/// A record that is stored is valid and fits, and the bytes stored for it
/// are its encoding.
pub proof fn lemma_stored_fits<T: Record>(entries: Map<u64, Seq<u8>>, key: u64)
    requires
        stored::<T>(entries, key) is Some,
    ensures
        entries.contains_key(key),
        valid::<T>(stored::<T>(entries, key).unwrap()),
        fits::<T>(stored::<T>(entries, key).unwrap()),
        encoding::<T>(stored::<T>(entries, key).unwrap()) == entries[key],
{
}

/// What is stored under a key is read back from it: the record, where it
/// is valid and fits.
pub proof fn lemma_stored_after_insert<T: Record>(
    entries: Map<u64, Seq<u8>>,
    key: u64,
    record: T::V,
)
    requires
        valid::<T>(record),
        fits::<T>(record),
    ensures
        stored::<T>(entries.insert(key, encoding::<T>(record)), key) == Some(record),
        forall|other: u64|
            other != key ==> stored::<T>(entries.insert(key, encoding::<T>(record)), other)
                == stored::<T>(entries, other),
{
    lemma_round_trip::<T>(record);
}

/// After a key is deleted nothing is stored under it, deleting it again
/// finds nothing, and what is stored under other keys is as before.
pub proof fn lemma_stored_after_delete<T: Record>(entries: Map<u64, Seq<u8>>, key: u64)
    ensures
        stored::<T>(entries.remove(key), key) is None,
        !entries.remove(key).contains_key(key),
        entries.remove(key).remove(key) == entries.remove(key),
        forall|other: u64|
            other != key ==> stored::<T>(entries.remove(key), other) == stored::<T>(
                entries,
                other,
            ),
{
    assert(entries.remove(key).remove(key) =~= entries.remove(key));
}

/// Storing a record under its own key keeps every record under its own
/// key, and so does deleting.
pub proof fn lemma_own_keys_kept<T: Record>(entries: Map<u64, Seq<u8>>, key: u64, record: T::V)
    requires
        own_keys::<T>(entries),
    ensures
        valid::<T>(record) && fits::<T>(record) && T::key(record) == key ==> own_keys::<T>(
            entries.insert(key, encoding::<T>(record)),
        ),
        own_keys::<T>(entries.remove(key)),
{
    if valid::<T>(record) && fits::<T>(record) && T::key(record) == key {
        let after = entries.insert(key, encoding::<T>(record));
        lemma_stored_after_insert::<T>(entries, key, record);
        assert forall|other: u64| #![trigger stored::<T>(after, other)]
            stored::<T>(after, other) is Some implies T::key(stored::<T>(after, other).unwrap())
            == other by {
            if other != key {
                assert(stored::<T>(after, other) == stored::<T>(entries, other));
            }
        }
    }
    let without = entries.remove(key);
    assert forall|other: u64| #![trigger stored::<T>(without, other)]
        stored::<T>(without, other) is Some implies T::key(stored::<T>(without, other).unwrap())
        == other by {
        if other != key {
            assert(stored::<T>(without, other) == stored::<T>(entries, other));
        }
    }
}

/// Where every record is stored under its own key, the listing of the
/// records ascends by their own keys.
pub proof fn lemma_listed_by_own_key<T: Record>(entries: Map<u64, Seq<u8>>, i: int, j: int)
    requires
        own_keys::<T>(entries),
        listable(records::<T>(entries)),
        0 <= i < j < listed::<T>(entries).len(),
    ensures
        T::key(listed::<T>(entries)[i]) < T::key(listed::<T>(entries)[j]),
{
    let listing = listing_of(records::<T>(entries));
    assert(records::<T>(entries).contains_key(listing[i].0));
    assert(records::<T>(entries).contains_key(listing[j].0));
    assert(stored::<T>(entries, listing[i].0) == Some(listing[i].1));
    assert(stored::<T>(entries, listing[j].0) == Some(listing[j].1));
}

} // verus!
