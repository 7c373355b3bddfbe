//! The identifier counter: one persisted number that only grows.

use crate::stable::{
    counter_get, counter_init, counter_segment, counter_set, counter_value, segment_id, Segment,
    StableCounter,
};
use ic_stable_structures::cell::{InitError, ValueError};
use vstd::prelude::*;

verus! {

/// The number that the counter of a new medium starts at: the first
/// identifier issued is one more.
pub const COUNTER_START: u64 = 0;

/// The allocator of identifiers. Its view is the identifier issued last,
/// 0 where none was issued yet.
pub struct IdCounter {
    cell: StableCounter,
}

impl View for IdCounter {
    type V = u64;

    closed spec fn view(&self) -> u64 {
        counter_value(self.cell)
    }
}

impl IdCounter {
    /// The number of the segment that keeps the counter.
    pub closed spec fn segment(&self) -> u8 {
        counter_segment(self.cell)
    }

    /// The counter that `segment` keeps, starting at [`COUNTER_START`] on
    /// a new medium; nothing where the medium cannot hold the counter. What
    /// comes back is for the medium to decide; [`IdCounter::opened`] says what
    /// is made of it.
    pub(crate) fn init(segment: Segment) -> (res: Option<IdCounter>)
        ensures
            res matches Some(counter) ==> counter.segment() == segment_id(segment),
    {
        IdCounter::opened(counter_init(segment, COUNTER_START))
    }

    /// The identifier issued last.
    pub fn last_id(&self) -> (id: u64)
        ensures
            id == self@,
    {
        counter_get(&self.cell)
    }

    /// Issues the next identifier: one more than the last, persisted before
    /// it is handed out. Nothing is issued, and the counter stays as it is,
    /// where the last identifier is the largest number.
    pub fn next_id(&mut self) -> (res: Option<u64>)
        ensures
            res == (if old(self)@ < u64::MAX {
                Some((old(self)@ + 1) as u64)
            } else {
                None::<u64>
            }),
            final(self)@ == (if old(self)@ < u64::MAX {
                (old(self)@ + 1) as u64
            } else {
                old(self)@
            }),
            final(self).segment() == old(self).segment(),
    {
        let current: u64 = counter_get(&self.cell);
        match current.checked_add(1) {
            Some(id) => IdCounter::issued(id, counter_set(&mut self.cell, id)),
            None => None,
        }
    }

    /// The counter over the cell that the medium gave, where it gave one.
    pub fn opened(cell: Result<StableCounter, InitError>) -> (res: Option<IdCounter>)
        ensures
            res is Some <==> cell is Ok,
            res matches Some(counter) ==> counter@ == counter_value(cell->Ok_0)
                && counter.segment() == counter_segment(cell->Ok_0),
    {
        match cell {
            Ok(cell) => Some(IdCounter { cell }),
            Err(_) => None,
        }
    }

    /// What the write of `id` to the medium has issued: `id` where the
    /// medium took the write, nothing where it refused.
    pub fn issued(id: u64, written: Result<u64, ValueError>) -> (res: Option<u64>)
        ensures
            res == (if written is Ok {
                Some(id)
            } else {
                None::<u64>
            }),
    {
        match written {
            Ok(_) => Some(id),
            Err(_) => None,
        }
    }
}

} // verus!
