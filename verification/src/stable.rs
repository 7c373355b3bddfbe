//! The durable medium: segments of stable memory, the cell that keeps the
//! identifier counter and the ordered map that keeps the records.
//!
//! Everything here is believed, not proved. Each type hides a structure of
//! `ic_stable_structures`, and each function makes one call into that crate
//! and states what the call does. The rest of the crate is verified against
//! these statements.
//!
//! Two things stop the process inside that crate, and no statement here
//! speaks of them: a write that has to enlarge a medium which cannot grow,
//! as an allocation of `std` does, and the reading of a medium that holds a
//! structure in a layout which the crate does not know.
//!
//! A cell and a map keep what the statements here say only while each has
//! its segment to itself: `ic_stable_structures` takes the memory that a
//! structure is given to be reserved for it. [`segment_id`],
//! [`counter_segment`] and [`records_segment`] name the segment of a handle
//! and of a structure, so that the store can say that its two structures lie
//! in two segments.

use ic_stable_structures::cell::{InitError, ValueError};
use ic_stable_structures::memory_manager::{MemoryId, MemoryManager, VirtualMemory};
use ic_stable_structures::storable::Blob;
use ic_stable_structures::{Cell, DefaultMemoryImpl, StableBTreeMap};
use vstd::prelude::*;

verus! {

/// The error of `Cell::init`.
#[verifier::external_type_specification]
#[verifier::external_body]
pub struct ExInitError(InitError);

/// The error of `Cell::set`.
#[verifier::external_type_specification]
#[verifier::external_body]
pub struct ExValueError(ValueError);

/// A `MemoryManager` over the default memory: it parts one flat memory
/// into segments that grow independently.
#[verifier::external_body]
pub struct Segments {
    inner: MemoryManager<DefaultMemoryImpl>,
}

/// A `VirtualMemory`: the handle to one segment.
#[verifier::external_body]
pub struct Segment {
    inner: VirtualMemory<DefaultMemoryImpl>,
}

/// A `Cell` that keeps one `u64` in a segment.
#[verifier::external_body]
pub struct StableCounter {
    inner: Cell<u64, VirtualMemory<DefaultMemoryImpl>>,
}

/// A `StableBTreeMap` from `u64` keys to byte strings of at most 1024 bytes
/// (`Blob<1024>`), kept in a segment.
#[verifier::external_body]
pub struct StableRecords {
    inner: StableBTreeMap<u64, Blob<1024>, VirtualMemory<DefaultMemoryImpl>>,
}

/// The number that the cell holds.
pub uninterp spec fn counter_value(counter: StableCounter) -> u64;

/// The entries that the map holds.
pub uninterp spec fn record_bytes(records: StableRecords) -> Map<u64, Seq<u8>>;

/// The number of the segment that the handle stands for: the `MemoryId`
/// that the `VirtualMemory` was made with.
pub uninterp spec fn segment_id(segment: Segment) -> u8;

/// The number of the segment that keeps the cell: that of the memory which
/// the cell was made over.
pub uninterp spec fn counter_segment(counter: StableCounter) -> u8;

/// The number of the segment that keeps the map: that of the memory which
/// the map was made over.
pub uninterp spec fn records_segment(records: StableRecords) -> u8;

/// `MemoryManager::init` on `DefaultMemoryImpl::default()`. Nothing is
/// claimed of what the memory holds.
#[verifier::external_body]
pub(crate) fn segments_open() -> Segments {
    Segments { inner: MemoryManager::init(DefaultMemoryImpl::default()) }
}

/// `MemoryManager::get` for `MemoryId::new(id)`, which refuses 255: the
/// handle to the segment with that number.
#[verifier::external_body]
pub(crate) fn segment(segments: &Segments, id: u8) -> (res: Segment)
    requires
        id != 255,
    ensures
        segment_id(res) == id,
{
    Segment { inner: segments.inner.get(MemoryId::new(id)) }
}

/// `Cell::init`: the cell that the segment holds, or a new one that holds
/// `initial` where the segment holds none. Which of the two comes back
/// depends on the medium, so nothing is claimed of the value. The cell is
/// made over the memory that it is given.
#[verifier::external_body]
pub(crate) fn counter_init(segment: Segment, initial: u64) -> (res: Result<
    StableCounter,
    InitError,
>)
    ensures
        res matches Ok(counter) ==> counter_segment(counter) == segment_id(segment),
{
    Cell::init(segment.inner, initial).map(|inner| StableCounter { inner })
}

/// `Cell::get`: the number that the cell holds.
#[verifier::external_body]
pub(crate) fn counter_get(counter: &StableCounter) -> (value: u64)
    ensures
        value == counter_value(*counter),
{
    *counter.inner.get()
}

/// `Cell::set`: writes `value` through to the segment and hands back the
/// number held before. The write is always made: `set` fails only where
/// its `flush_value` has to enlarge the memory and cannot, which is where the
/// memory has no page yet or the value does not fit into the pages that are
/// there. A cell that exists was written when `Cell::init` made it, so its
/// memory has a page, and a `u64` takes eight bytes. The cell stays over its
/// memory.
#[verifier::external_body]
pub(crate) fn counter_set(counter: &mut StableCounter, value: u64) -> (res: Result<
    u64,
    ValueError,
>)
    ensures
        res matches Ok(before) && before == counter_value(*old(counter)),
        counter_value(*final(counter)) == value,
        counter_segment(*final(counter)) == counter_segment(*old(counter)),
{
    counter.inner.set(value)
}

/// `StableBTreeMap::init`: the map that the segment holds, or an empty
/// one where the segment holds none. Nothing is claimed of the entries. The
/// map is made over the memory that it is given.
#[verifier::external_body]
pub(crate) fn records_init(segment: Segment) -> (res: StableRecords)
    ensures
        records_segment(res) == segment_id(segment),
{
    StableRecords { inner: StableBTreeMap::init(segment.inner) }
}

/// `StableBTreeMap::get`: the bytes under `key`, if there are any.
#[verifier::external_body]
pub(crate) fn records_get(records: &StableRecords, key: u64) -> (res: Option<Vec<u8>>)
    ensures
        match res {
            Some(bytes) => record_bytes(*records).contains_pair(key, bytes@),
            None => !record_bytes(*records).contains_key(key),
        },
{
    records.inner.get(&key).map(|blob| blob.as_slice().to_vec())
}

/// `StableBTreeMap::insert`: puts `bytes` under `key`, in place of what was
/// there. The map refuses more than 1024 bytes. The map stays over its
/// memory.
#[verifier::external_body]
pub(crate) fn records_insert(records: &mut StableRecords, key: u64, bytes: &[u8])
    requires
        bytes@.len() <= 1024,
    ensures
        record_bytes(*final(records)) == record_bytes(*old(records)).insert(key, bytes@),
        records_segment(*final(records)) == records_segment(*old(records)),
{
    let _ = records.inner.insert(key, Blob::try_from(bytes).unwrap());
}

/// `StableBTreeMap::remove`: takes out the entry under `key` and hands its
/// bytes back, if there is one. The map stays over its memory.
#[verifier::external_body]
pub(crate) fn records_remove(records: &mut StableRecords, key: u64) -> (res: Option<Vec<u8>>)
    ensures
        record_bytes(*final(records)) == record_bytes(*old(records)).remove(key),
        records_segment(*final(records)) == records_segment(*old(records)),
        match res {
            Some(bytes) => record_bytes(*old(records)).contains_pair(key, bytes@),
            None => !record_bytes(*old(records)).contains_key(key),
        },
{
    records.inner.remove(&key).map(|blob| blob.as_slice().to_vec())
}

/// `StableBTreeMap::len`: the number of entries.
#[verifier::external_body]
pub(crate) fn records_len(records: &StableRecords) -> (count: u64)
    ensures
        count == record_bytes(*records).dom().len(),
{
    records.inner.len()
}

/// `StableBTreeMap::iter`, walked to its end: every entry once, by
/// ascending key.
#[verifier::external_body]
pub(crate) fn records_entries(records: &StableRecords) -> (entries: Vec<(u64, Vec<u8>)>)
    ensures
        forall|i: int|
            0 <= i < entries@.len() ==> record_bytes(*records).contains_pair(
                (#[trigger] entries@[i]).0,
                entries@[i].1@,
            ),
        forall|i: int, j: int|
            0 <= i < j < entries@.len() ==> (#[trigger] entries@[i]).0 < (#[trigger] entries@[j]).0,
        forall|key: u64| #[trigger]
            record_bytes(*records).contains_key(key) ==> exists|i: int|
                0 <= i < entries@.len() && (#[trigger] entries@[i]).0 == key,
{
    records.inner.iter().map(|(key, blob)| (key, blob.as_slice().to_vec())).collect()
}

} // verus!
