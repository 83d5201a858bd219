//! The persistent ordered maps that hold the records, and what is taken on
//! trust about them.

use ic_stable_structures::btreemap::InsertError;
use ic_stable_structures::memory_manager::{MemoryId, MemoryManager, VirtualMemory};
use ic_stable_structures::{DefaultMemoryImpl, StableBTreeMap};
use vstd::prelude::*;

use crate::error::Error;

verus! {

/// `InsertError` of `ic_stable_structures::btreemap`, as the crate defines
/// it: which of the two sizes was too large, the size given and the limit.
#[verifier::external_type_specification]
pub struct ExInsertError(InsertError);

/// The persistent memory of the process, parted into memories that grow
/// independently. It wraps a `MemoryManager` over `DefaultMemoryImpl`.
#[verifier::external_body]
pub struct MemoryPool {
    inner: MemoryManager<DefaultMemoryImpl>,
}

/// A persistent map in which records are kept as bytes, each under a number.
/// It wraps a `StableBTreeMap` with `u64` keys and `Vec<u8>` values.
#[verifier::external_body]
pub struct RecordMap {
    inner: StableBTreeMap<VirtualMemory<DefaultMemoryImpl>, u64, Vec<u8>>,
}

/// The bytes that a key takes in a record map: a `u64` is stored as eight.
pub const KEY_BYTES: usize = 8;

/// What a record map holds: the bytes stored under each key.
pub uninterp spec fn record_entries(map: RecordMap) -> Map<u64, Seq<u8>>;

/// The contents of a map that holds nothing.
pub open spec fn no_records() -> Map<u64, Seq<u8>> {
    Map::empty()
}

/// The most bytes a key may have in a record map; fixed when the map is made.
pub uninterp spec fn record_key_limit(map: RecordMap) -> nat;

/// The most bytes a value may have in a record map; fixed when the map is
/// made.
pub uninterp spec fn record_value_limit(map: RecordMap) -> nat;

/// `MemoryManager::init` on `DefaultMemoryImpl::default()`: the persistent
/// memory of the process, with what earlier runs left in it. It stops the
/// process where that memory holds a layout it does not know. A process
/// opens its memory once: the maps that are made of the pool have their
/// memories alone as long as no second pool is opened beside them.
#[verifier::external_body]
pub(crate) fn memory_pool_open() -> MemoryPool {
    MemoryPool { inner: MemoryManager::init(DefaultMemoryImpl::default()) }
}

/// `StableBTreeMap::new_with_sizes` on two memories of the pool, which
/// `MemoryManager::get` hands out: two empty maps, whatever the memories
/// held, each with the limits given for it. The pool is used up, and the two
/// memories differ, so that each map has its memory alone. `MemoryId::new`
/// refuses 255.
#[verifier::external_body]
pub(crate) fn record_maps_create(
    pool: MemoryPool,
    first_id: u8,
    first_key_limit: u32,
    first_value_limit: u32,
    second_id: u8,
    second_key_limit: u32,
    second_value_limit: u32,
) -> (made: (RecordMap, RecordMap))
    requires
        first_id != second_id,
        first_id != 255,
        second_id != 255,
    ensures
        record_entries(made.0) == no_records(),
        record_key_limit(made.0) == first_key_limit,
        record_value_limit(made.0) == first_value_limit,
        record_entries(made.1) == no_records(),
        record_key_limit(made.1) == second_key_limit,
        record_value_limit(made.1) == second_value_limit,
{
    let first = pool.inner.get(MemoryId::new(first_id));
    let second = pool.inner.get(MemoryId::new(second_id));
    (
        RecordMap {
            inner: StableBTreeMap::new_with_sizes(first, first_key_limit, first_value_limit),
        },
        RecordMap {
            inner: StableBTreeMap::new_with_sizes(second, second_key_limit, second_value_limit),
        },
    )
}

/// `StableBTreeMap::init_with_sizes` on two memories of the pool, which
/// `MemoryManager::get` hands out: for each the map that earlier runs of the
/// process left there, or an empty one where there is none. The limits of a
/// map are those it was first made with, and no smaller than those given for
/// it: where an earlier run made the map with smaller ones, the process
/// stops. Nothing is known of what the maps hold. The pool is used up, and
/// the two memories differ, so that each map has its memory alone and no map
/// is opened over a memory in which this run has made one. `MemoryId::new`
/// refuses 255.
#[verifier::external_body]
pub(crate) fn record_maps_open(
    pool: MemoryPool,
    first_id: u8,
    first_key_limit: u32,
    first_value_limit: u32,
    second_id: u8,
    second_key_limit: u32,
    second_value_limit: u32,
) -> (opened: (RecordMap, RecordMap))
    requires
        first_id != second_id,
        first_id != 255,
        second_id != 255,
    ensures
        record_key_limit(opened.0) >= first_key_limit,
        record_value_limit(opened.0) >= first_value_limit,
        record_key_limit(opened.1) >= second_key_limit,
        record_value_limit(opened.1) >= second_value_limit,
{
    let first = pool.inner.get(MemoryId::new(first_id));
    let second = pool.inner.get(MemoryId::new(second_id));
    (
        RecordMap {
            inner: StableBTreeMap::init_with_sizes(first, first_key_limit, first_value_limit),
        },
        RecordMap {
            inner: StableBTreeMap::init_with_sizes(second, second_key_limit, second_value_limit),
        },
    )
}

/// `StableBTreeMap::get`: a copy of the bytes stored under `key`, if there are
/// any.
#[verifier::external_body]
pub(crate) fn record_get(map: &RecordMap, key: u64) -> (r: Option<Vec<u8>>)
    ensures
        r is Some <==> record_entries(*map).dom().contains(key),
        r matches Some(v) ==> v@ == record_entries(*map)[key],
{
    map.inner.get(&key)
}

/// `StableBTreeMap::insert`. A key or a value over its limit is refused, the
/// key first, and the map stays as it was; the error tells the size given and
/// the limit. Otherwise the value is stored under the key, and what was stored
/// there before is returned. The limits never change. Where the memory cannot
/// grow to hold the entry, the process stops.
#[verifier::external_body]
pub(crate) fn record_insert(map: &mut RecordMap, key: u64, value: Vec<u8>) -> (r: Result<
    Option<Vec<u8>>,
    InsertError,
>)
    ensures
        record_key_limit(*final(map)) == record_key_limit(*old(map)),
        record_value_limit(*final(map)) == record_value_limit(*old(map)),
        KEY_BYTES > record_key_limit(*old(map)) ==> (r matches Err(
            InsertError::KeyTooLarge { given, max },
        ) && given == KEY_BYTES && max == record_key_limit(*old(map))),
        KEY_BYTES <= record_key_limit(*old(map)) && value@.len() > record_value_limit(*old(map))
            ==> (r matches Err(InsertError::ValueTooLarge { given, max }) && given == value@.len()
            && max == record_value_limit(*old(map))),
        r is Err ==> record_entries(*final(map)) == record_entries(*old(map)),
        r is Ok <==> KEY_BYTES <= record_key_limit(*old(map)) && value@.len()
            <= record_value_limit(*old(map)),
        r matches Ok(before) ==> {
            &&& record_entries(*final(map)) == record_entries(*old(map)).insert(key, value@)
            &&& before is Some <==> record_entries(*old(map)).dom().contains(key)
            &&& before matches Some(b) ==> b@ == record_entries(*old(map))[key]
        },
{
    map.inner.insert(key, value)
}

/// `StableBTreeMap::remove`: takes out what is stored under `key`, if there is
/// anything, and returns it.
#[verifier::external_body]
pub(crate) fn record_remove(map: &mut RecordMap, key: u64) -> (r: Option<Vec<u8>>)
    ensures
        record_key_limit(*final(map)) == record_key_limit(*old(map)),
        record_value_limit(*final(map)) == record_value_limit(*old(map)),
        record_entries(*final(map)) == record_entries(*old(map)).remove(key),
        r is Some <==> record_entries(*old(map)).dom().contains(key),
        r matches Some(v) ==> v@ == record_entries(*old(map))[key],
{
    map.inner.remove(&key)
}

/// `StableBTreeMap::iter`, walked to its end: every entry of the map once, by
/// rising key.
#[verifier::external_body]
pub(crate) fn record_list(map: &RecordMap) -> (r: Vec<(u64, Vec<u8>)>)
    ensures
        forall|i: int, j: int| 0 <= i < j < r@.len() ==> r@[i].0 < r@[j].0,
        forall|i: int|
            0 <= i < r@.len() ==> record_entries(*map).dom().contains(#[trigger] r@[i].0)
                && record_entries(*map)[r@[i].0] == r@[i].1@,
        forall|k: u64|
            record_entries(*map).dom().contains(k) ==> exists|i: int|
                0 <= i < r@.len() && #[trigger] r@[i].0 == k,
{
    map.inner.iter().collect()
}

/// Why a record of `record_len` bytes cannot be stored under the fresh number
/// `next_id`, if it cannot: the number is the last there is or is taken, or
/// the map refuses the key or the value for its size.
pub open spec fn allocation_error(map: RecordMap, next_id: u64, record_len: nat) -> Option<Error> {
    if next_id == u64::MAX || record_entries(map).dom().contains(next_id) {
        Some(Error::AlreadyAllocated)
    } else if KEY_BYTES > record_key_limit(map) {
        Some(Error::KeyTooLarge)
    } else if record_len > record_value_limit(map) {
        Some(Error::ValueTooLarge)
    } else {
        None
    }
}

/// Stores `bytes` under the fresh number `next_id`, unless that number is the
/// last there is or is taken, or the map refuses the record for its size; the
/// map then stays as it was.
pub(crate) fn record_allocate(map: &mut RecordMap, next_id: u64, bytes: Vec<u8>) -> (r: Result<
    (),
    Error,
>)
    ensures
        record_key_limit(*final(map)) == record_key_limit(*old(map)),
        record_value_limit(*final(map)) == record_value_limit(*old(map)),
        match allocation_error(*old(map), next_id, bytes@.len()) {
            Some(e) => r == Err::<(), Error>(e) && record_entries(*final(map))
                == record_entries(*old(map)),
            None => r is Ok && record_entries(*final(map)) == record_entries(*old(map)).insert(
                next_id,
                bytes@,
            ),
        },
{
    if next_id == u64::MAX {
        return Err(Error::AlreadyAllocated);
    }
    if record_get(map, next_id).is_some() {
        return Err(Error::AlreadyAllocated);
    }
    match record_insert(map, next_id, bytes) {
        Ok(_) => Ok(()),
        Err(InsertError::KeyTooLarge { given: _, max: _ }) => Err(Error::KeyTooLarge),
        Err(InsertError::ValueTooLarge { given: _, max: _ }) => Err(Error::ValueTooLarge),
    }
}

} // verus!
