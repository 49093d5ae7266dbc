//! What the operations on a store come to.
//!
//! Each predicate here says, for one kind of operation, which result goes
//! with which state of the store before and after. The operations in
//! [`crate::service`] are stated through them.

use vstd::prelude::*;
use crate::error::{corrupt_wording, not_found, not_found_wording, size_exceeded_wording, Error};
use crate::listing::{listable, views};
use crate::record::{encoding, fits, valid, Record};
use crate::store::{
    corrupt_at, intact, is_first_corrupt, lemma_own_keys_kept, lemma_stored_after_insert, own_keys,
    records, stored, Store,
};

verus! {

/// The error says why no record can be read under the key: `NotFound` where
/// nothing is stored under it, `CorruptRecord` where what is stored is not a
/// record.
pub open spec fn explains_missing<T: Record>(
    entries: Map<u64, Seq<u8>>,
    key: u64,
    error: Error,
) -> bool {
    if entries.contains_key(key) {
        &&& corrupt_at::<T>(entries, key)
        &&& error is CorruptRecord
        &&& error.message() == corrupt_wording(T::label(), key)
    } else {
        &&& error is NotFound
        &&& error.message() == not_found_wording(T::label(), key)
    }
}

/// The result of reading the record under a key: the record where one is
/// stored, and otherwise the error that says why none can be read.
pub open spec fn is_read<T: Record>(
    entries: Map<u64, Seq<u8>>,
    key: u64,
    result: Result<T, Error>,
) -> bool {
    match result {
        Ok(record) => stored::<T>(entries, key) == Some(record@),
        Err(error) => explains_missing::<T>(entries, key, error),
    }
}

/// The result of storing a record under a key: the record is stored where
/// it fits, and otherwise nothing changes and the error is `SizeExceeded`.
pub open spec fn is_written<T: Record>(
    before: Map<u64, Seq<u8>>,
    after: Map<u64, Seq<u8>>,
    key: u64,
    record: T::V,
    result: Result<(), Error>,
) -> bool {
    match result {
        Ok(()) => {
            &&& valid::<T>(record)
            &&& fits::<T>(record)
            &&& after == before.insert(key, encoding::<T>(record))
        },
        Err(error) => {
            &&& !fits::<T>(record)
            &&& after == before
            &&& error is SizeExceeded
            &&& error.message() == size_exceeded_wording(T::label(), key)
        },
    }
}

/// The result of putting a changed record in place of the one stored under
/// a key. `changed` is what the record becomes, where one is stored.
pub open spec fn is_rewritten<T: Record>(
    before: Map<u64, Seq<u8>>,
    after: Map<u64, Seq<u8>>,
    key: u64,
    changed: Option<T::V>,
    result: Result<(), Error>,
) -> bool {
    match changed {
        Some(record) => is_written::<T>(before, after, key, record, result),
        None => result matches Err(error) && explains_missing::<T>(before, key, error) && after
            == before,
    }
}

/// The result of deleting the record under a key: the entry is gone where
/// there was one, and otherwise nothing changes and the error is
/// `NotFound`.
pub open spec fn is_deleted<T: Record>(
    before: Map<u64, Seq<u8>>,
    after: Map<u64, Seq<u8>>,
    key: u64,
    result: Result<(), Error>,
) -> bool {
    match result {
        Ok(()) => before.contains_key(key) && after == before.remove(key),
        Err(error) => {
            &&& !before.contains_key(key)
            &&& after == before
            &&& error is NotFound
            &&& error.message() == not_found_wording(T::label(), key)
        },
    }
}

/// The result of a listing: the expected items where everything stored is a
/// record, and otherwise a `CorruptRecord` error that names the least key
/// under which something else is stored.
pub open spec fn is_listed<T: Record>(
    entries: Map<u64, Seq<u8>>,
    expected: Seq<T::V>,
    result: Result<Vec<T>, Error>,
) -> bool {
    match result {
        Ok(items) => {
            &&& intact::<T>(entries)
            &&& listable(records::<T>(entries))
            &&& views(items@) == expected
        },
        Err(error) => {
            &&& error is CorruptRecord
            &&& exists|key: u64|
                is_first_corrupt::<T>(entries, key) && error.message() == corrupt_wording(
                    T::label(),
                    key,
                )
        },
    }
}

/// A record that was written under a key is the record read under that
/// key, and what is read under other keys is as before.
pub proof fn lemma_written_is_read<T: Record>(
    before: Map<u64, Seq<u8>>,
    after: Map<u64, Seq<u8>>,
    key: u64,
    record: T::V,
    result: Result<(), Error>,
)
    requires
        is_written::<T>(before, after, key, record, result),
        result is Ok,
    ensures
        stored::<T>(after, key) == Some(record),
        forall|other: u64| other != key ==> stored::<T>(after, other) == stored::<T>(before, other),
{
    lemma_stored_after_insert::<T>(before, key, record);
}

/// After a record was put in place of another, the record read under the
/// key is the changed one.
pub proof fn lemma_rewritten_is_read<T: Record>(
    before: Map<u64, Seq<u8>>,
    after: Map<u64, Seq<u8>>,
    key: u64,
    changed: Option<T::V>,
    result: Result<(), Error>,
)
    requires
        is_rewritten::<T>(before, after, key, changed, result),
        result is Ok,
    ensures
        changed is Some,
        stored::<T>(after, key) == changed,
{
    lemma_stored_after_insert::<T>(before, key, changed.unwrap());
}

/// After a record was deleted, reading it fails with `NotFound`, and so
/// does deleting it again.
pub proof fn lemma_deleted_is_gone<T: Record>(
    before: Map<u64, Seq<u8>>,
    after: Map<u64, Seq<u8>>,
    key: u64,
    result: Result<(), Error>,
)
    requires
        is_deleted::<T>(before, after, key, result),
        result is Ok,
    ensures
        stored::<T>(after, key) is None,
        forall|read: Result<T, Error>| #[trigger]
            is_read::<T>(after, key, read) ==> (read matches Err(error) && error is NotFound),
        forall|last: Map<u64, Seq<u8>>, again: Result<(), Error>| #[trigger]
            is_deleted::<T>(after, last, key, again) ==> (again matches Err(error) && error
                is NotFound && last == after),
{
}

/// Writing a record under its own key keeps every record under its own
/// key.
pub proof fn lemma_written_keeps_own_keys<T: Record>(
    before: Map<u64, Seq<u8>>,
    after: Map<u64, Seq<u8>>,
    key: u64,
    record: T::V,
    result: Result<(), Error>,
)
    requires
        own_keys::<T>(before),
        is_written::<T>(before, after, key, record, result),
        T::key(record) == key,
    ensures
        own_keys::<T>(after),
{
    lemma_own_keys_kept::<T>(before, key, record);
}

/// Putting a changed record in place of the one under a key keeps every
/// record under its own key, where the change leaves the record's key as it
/// is.
pub proof fn lemma_rewritten_keeps_own_keys<T: Record>(
    before: Map<u64, Seq<u8>>,
    after: Map<u64, Seq<u8>>,
    key: u64,
    changed: Option<T::V>,
    result: Result<(), Error>,
)
    requires
        own_keys::<T>(before),
        is_rewritten::<T>(before, after, key, changed, result),
        changed matches Some(record) ==> T::key(record) == key,
    ensures
        own_keys::<T>(after),
{
    if changed is Some {
        lemma_own_keys_kept::<T>(before, key, changed.unwrap());
    }
}

/// Deleting keeps every record under its own key.
pub proof fn lemma_deleted_keeps_own_keys<T: Record>(
    before: Map<u64, Seq<u8>>,
    after: Map<u64, Seq<u8>>,
    key: u64,
    result: Result<(), Error>,
)
    requires
        own_keys::<T>(before),
        is_deleted::<T>(before, after, key, result),
    ensures
        own_keys::<T>(after),
{
    lemma_own_keys_kept::<T>(before, key, arbitrary());
}

/// Reads the record stored under a key, which is expected to be there.
pub fn read_existing<T: Record>(store: &Store<T>, key: u64) -> (result: Result<T, Error>)
    ensures
        is_read::<T>(store@, key, result),
{
    match store.get(key)? {
        Some(record) => Ok(record),
        None => Err(not_found(T::name(), key)),
    }
}

/// Stores a record under its own key, in place of what was stored there.
pub fn write_record<T: Record>(store: &mut Store<T>, record: &T) -> (result: Result<(), Error>)
    ensures
        is_written::<T>(old(store)@, final(store)@, T::key(record@), record@, result),
        final(store).region_number() == old(store).region_number(),
{
    store.insert(record.key_of(), record)
}

/// Deletes the record stored under a key, which is expected to be there.
pub fn delete_existing<T: Record>(store: &mut Store<T>, key: u64) -> (result: Result<(), Error>)
    ensures
        is_deleted::<T>(old(store)@, final(store)@, key, result),
        final(store).region_number() == old(store).region_number(),
{
    if store.delete(key) {
        Ok(())
    } else {
        assert(store@ =~= old(store)@);
        Err(not_found(T::name(), key))
    }
}

} // verus!
