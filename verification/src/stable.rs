//! The stable structures that the storage is built on.
//!
//! Everything in this file is trusted: it declares types of the crate
//! `ic_stable_structures` and states, without proof, what the functions of
//! that crate do. The rest of the library is proved against what is stated
//! here.
//!
//! All of it assumes that the backing memory can grow when a structure asks
//! for more, that it holds nothing but what this library wrote, and that
//! each region is used by one structure only. Where memory runs out, where
//! it holds what another program wrote, or where two structures are opened
//! on one region, the calls below can stop the program, and what is stated
//! here of one structure does not hold while the other is written. The
//! library hands out each region of a backing memory once (see
//! `crate::region::Regions`) and opens the backing memory once.

use vstd::prelude::*;
use ic_stable_structures::cell::{InitError, ValueError};
use ic_stable_structures::memory_manager::{MemoryId, MemoryManager, VirtualMemory};
use ic_stable_structures::storable::{Blob, TryFromSliceError};
use ic_stable_structures::{Cell, DefaultMemoryImpl, StableBTreeMap};
use crate::listing::is_listing;

verus! {

/// `storable::Blob`: a byte string of at most `N` bytes.
#[verifier::external_type_specification]
#[verifier::external_body]
pub struct ExBlob<const N: usize>(Blob<N>);

/// `storable::TryFromSliceError`: what `Blob::try_from` fails with.
#[verifier::external_type_specification]
#[verifier::external_body]
pub struct ExTryFromSliceError(TryFromSliceError);

/// `cell::InitError`: what `Cell::init` fails with.
#[verifier::external_type_specification]
#[verifier::external_body]
pub struct ExInitError(InitError);

/// `cell::ValueError`: what `Cell::set` fails with.
#[verifier::external_type_specification]
#[verifier::external_body]
pub struct ExValueError(ValueError);

/// A `MemoryManager` over the default memory: the one backing memory,
/// divided into regions.
#[verifier::external_body]
pub struct BackingMemory {
    manager: MemoryManager<DefaultMemoryImpl>,
}

/// A `VirtualMemory`: the memory of one region.
#[verifier::external_body]
pub struct RegionMemory {
    memory: VirtualMemory<DefaultMemoryImpl>,
}

/// A `Cell` that holds one `u64` in a region.
#[verifier::external_body]
pub struct CounterCell {
    cell: Cell<u64, VirtualMemory<DefaultMemoryImpl>>,
}

/// A `StableBTreeMap` from `u64` keys to byte strings of at most 1024
/// bytes, in a region.
#[verifier::external_body]
pub struct RecordMap {
    map: StableBTreeMap<u64, Blob<1024>, VirtualMemory<DefaultMemoryImpl>>,
}

/// The bytes that a blob holds.
pub uninterp spec fn blob_bytes(blob: Blob<1024>) -> Seq<u8>;

/// The number that a cell holds.
pub uninterp spec fn cell_value(cell: CounterCell) -> u64;

/// The entries that a map holds: for each key, the bytes stored under it.
pub uninterp spec fn map_entries(map: RecordMap) -> Map<u64, Seq<u8>>;

/// The number of the region that a region memory is the memory of.
pub uninterp spec fn memory_region(memory: RegionMemory) -> u8;

/// The number of the region that a map was opened in, and lives in.
pub uninterp spec fn map_region(map: RecordMap) -> u8;

/// The number of the region that a cell was opened in, and lives in.
pub uninterp spec fn cell_region(cell: CounterCell) -> u8;

/// The keys and byte strings of a list of entries.
pub open spec fn entry_bytes(entries: Seq<(u64, Blob<1024>)>) -> Seq<(u64, Seq<u8>)> {
    Seq::new(entries.len(), |i: int| (entries[i].0, blob_bytes(entries[i].1)))
}

/// `MemoryManager::init` on `DefaultMemoryImpl::default()`: opens the
/// backing memory. What the regions hold is whatever the memory held
/// before, so nothing is stated of it.
#[verifier::external_body]
pub(crate) fn open_backing_memory() -> BackingMemory {
    BackingMemory { manager: MemoryManager::init(DefaultMemoryImpl::default()) }
}

/// `MemoryManager::get` on `MemoryId::new(number)`: the memory of the
/// region with that number. `MemoryId::new` does not accept 255.
#[verifier::external_body]
pub(crate) fn region_memory(backing: &BackingMemory, number: u8) -> (memory: RegionMemory)
    requires
        number != 255,
    ensures
        memory_region(memory) == number,
{
    RegionMemory { memory: backing.manager.get(MemoryId::new(number)) }
}

/// `Cell::init`: opens the cell in a region, and the cell keeps the memory
/// that it is given. The cell holds the number that the region held, or
/// `default` where it held none, so nothing is stated of it.
#[verifier::external_body]
pub(crate) fn cell_init(memory: RegionMemory, default: u64) -> (result: Result<
    CounterCell,
    InitError,
>)
    ensures
        result matches Ok(cell) ==> cell_region(cell) == memory_region(memory),
{
    match Cell::init(memory.memory, default) {
        Ok(cell) => Ok(CounterCell { cell }),
        Err(error) => Err(error),
    }
}

/// `Cell::get`: the number that the cell holds.
#[verifier::external_body]
pub(crate) fn cell_get(cell: &CounterCell) -> (value: u64)
    ensures
        value == cell_value(*cell),
{
    *cell.cell.get()
}

/// `Cell::set`: writes the number and returns the one held before. The
/// write of a number succeeds: `Cell::set` fails only where the region has
/// to grow and cannot, and a region in which a cell was opened has a page,
/// which is room for a number. The cell stays in its region.
#[verifier::external_body]
pub(crate) fn cell_set(cell: &mut CounterCell, value: u64) -> (result: Result<u64, ValueError>)
    ensures
        cell_region(*final(cell)) == cell_region(*old(cell)),
        result is Ok,
        result matches Ok(previous) ==> previous == cell_value(*old(cell)),
        cell_value(*final(cell)) == value,
{
    cell.cell.set(value)
}

/// `StableBTreeMap::init`: opens the map in a region, and the map keeps
/// the memory that it is given. The map holds the entries that the region
/// held, so nothing is stated of them.
#[verifier::external_body]
pub(crate) fn map_init(memory: RegionMemory) -> (map: RecordMap)
    ensures
        map_region(map) == memory_region(memory),
{
    RecordMap { map: StableBTreeMap::init(memory.memory) }
}

/// `StableBTreeMap::get`: the blob stored under the key, if there is one.
#[verifier::external_body]
pub(crate) fn map_get(map: &RecordMap, key: u64) -> (result: Option<Blob<1024>>)
    ensures
        result is Some <==> map_entries(*map).contains_key(key),
        result matches Some(blob) ==> blob_bytes(blob) == map_entries(*map)[key],
{
    map.map.get(&key)
}

/// `StableBTreeMap::insert`: stores the blob under the key, in place of
/// what was stored there. The map stays in its region.
#[verifier::external_body]
pub(crate) fn map_insert(map: &mut RecordMap, key: u64, value: Blob<1024>)
    ensures
        map_region(*final(map)) == map_region(*old(map)),
        map_entries(*final(map)) == map_entries(*old(map)).insert(key, blob_bytes(value)),
{
    map.map.insert(key, value);
}

/// `StableBTreeMap::remove`: removes the entry of the key, and returns
/// something exactly when there was one. The map stays in its region.
#[verifier::external_body]
pub(crate) fn map_remove(map: &mut RecordMap, key: u64) -> (result: Option<Blob<1024>>)
    ensures
        map_region(*final(map)) == map_region(*old(map)),
        map_entries(*final(map)) == map_entries(*old(map)).remove(key),
        result is Some <==> map_entries(*old(map)).contains_key(key),
{
    map.map.remove(&key)
}

/// `StableBTreeMap::iter`, collected: all entries of the map, by ascending
/// key.
#[verifier::external_body]
pub(crate) fn map_list(map: &RecordMap) -> (listing: Vec<(u64, Blob<1024>)>)
    ensures
        is_listing(map_entries(*map), entry_bytes(listing@)),
{
    map.map.iter().collect()
}

/// `Blob::try_from` a slice: a blob of the given bytes. Fails exactly when
/// there are more than 1024 of them.
#[verifier::external_body]
pub(crate) fn blob_from_slice(bytes: &[u8]) -> (result: Result<Blob<1024>, TryFromSliceError>)
    ensures
        result is Ok <==> bytes@.len() <= 1024,
        result matches Ok(blob) ==> blob_bytes(blob) == bytes@,
{
    Blob::try_from(bytes)
}

/// `Blob::as_slice`: the bytes that the blob holds.
#[verifier::external_body]
pub(crate) fn blob_as_slice(blob: &Blob<1024>) -> (bytes: &[u8])
    ensures
        bytes@ == blob_bytes(*blob),
{
    blob.as_slice()
}

} // verus!
