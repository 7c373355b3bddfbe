//! The store as a mathematical value, and what each operation makes of it.
//!
//! The contracts of the operations are written over these functions, and the
//! laws of the store are proved of them.

use crate::codec::{fits, payload_fits};
use crate::mission::{MissionView, PayloadView};
use crate::order::values_ascending;
use vstd::prelude::*;

verus! {

/// The state of a store: the identifier issued last, and the missions by
/// identifier.
pub struct StoreView {
    pub last_id: u64,
    pub missions: Map<u64, MissionView>,
}

/// The test of the missions that are to arrive at `date` or before.
pub open spec fn arrives_by(date: u64) -> spec_fn(MissionView) -> bool {
    |m: MissionView| m.estimated_arrival_date <= date
}

/// The test of the missions that are to arrive at `date` or after.
pub open spec fn arrives_from(date: u64) -> spec_fn(MissionView) -> bool {
    |m: MissionView| m.estimated_arrival_date >= date
}

/// The test of the missions that go to `destination`.
pub open spec fn goes_to(destination: Seq<char>) -> spec_fn(MissionView) -> bool {
    |m: MissionView| m.destination == destination
}

/// The mission of `missions` that is to arrive first; of several that are to
/// arrive at the same time, the one that stands first.
pub open spec fn earliest(missions: Seq<MissionView>) -> Option<MissionView>
    decreases missions.len(),
{
    if missions.len() == 0 {
        None
    } else {
        match earliest(missions.drop_last()) {
            None => Some(missions.last()),
            Some(best) => if missions.last().estimated_arrival_date
                < best.estimated_arrival_date {
                Some(missions.last())
            } else {
                Some(best)
            },
        }
    }
}

impl StoreView {
    /// Whether `id` was issued.
    pub open spec fn issued(self, id: u64) -> bool {
        1 <= id <= self.last_id
    }

    /// Whether every mission stands under its own identifier, that
    /// identifier was issued, and the mission's record is within the size
    /// bound.
    pub open spec fn consistent(self) -> bool {
        forall|id: u64| #[trigger]
            self.missions.contains_key(id) ==> self.issued(id) && self.missions[id].id == id
                && fits(self.missions[id])
    }

    /// The mission under `id`, if there is one.
    pub open spec fn read(self, id: u64) -> Option<MissionView> {
        if self.missions.contains_key(id) {
            Some(self.missions[id])
        } else {
            None
        }
    }

    /// All missions, by ascending identifier.
    pub open spec fn records(self) -> Seq<MissionView> {
        values_ascending(self.missions)
    }

    /// The state with `m` under its identifier.
    pub open spec fn put(self, m: MissionView) -> StoreView {
        StoreView { last_id: self.last_id, missions: self.missions.insert(m.id, m) }
    }

    /// The state without the mission under `id`.
    pub open spec fn delete(self, id: u64) -> StoreView {
        StoreView { last_id: self.last_id, missions: self.missions.remove(id) }
    }

    /// Whether a mission can be created from `item` at `now`: an identifier
    /// is left, the moved dates fit in 64 bits, and the record is within the
    /// size bound.
    pub open spec fn can_create(self, item: PayloadView, now: u64) -> bool {
        &&& self.last_id < u64::MAX
        &&& item.schedulable(now)
        &&& payload_fits(item)
    }

    /// The mission that creating from `item` at `now` stores: it gets the
    /// next identifier, and its dates are moved by one day plus `now`.
    pub open spec fn created(self, item: PayloadView, now: u64) -> MissionView {
        item.scheduled((self.last_id + 1) as u64, now)
    }

    /// The state after creating from `item` at `now`.
    pub open spec fn create(self, item: PayloadView, now: u64) -> StoreView {
        StoreView {
            last_id: (self.last_id + 1) as u64,
            missions: self.missions.insert((self.last_id + 1) as u64, self.created(item, now)),
        }
    }

    /// The missions that are to arrive at `date` or before, in table order.
    pub open spec fn arriving_by(self, date: u64) -> Seq<MissionView> {
        self.records().filter(arrives_by(date))
    }

    /// The missions that go to `destination`, in table order.
    pub open spec fn bound_for(self, destination: Seq<char>) -> Seq<MissionView> {
        self.records().filter(goes_to(destination))
    }

    /// Of the missions that are to arrive at `target` or after, the one
    /// that is to arrive first; of several at the same time, the one with
    /// the lowest identifier.
    pub open spec fn nearest_after(self, target: u64) -> Option<MissionView> {
        earliest(self.records().filter(arrives_from(target)))
    }
}

/// Putting a mission under an issued identifier of its own keeps a state
/// consistent.
pub proof fn lemma_put_consistent(state: StoreView, m: MissionView)
    requires
        state.consistent(),
        state.issued(m.id),
        fits(m),
    ensures
        state.put(m).consistent(),
{
}

/// Deleting keeps a state consistent.
pub proof fn lemma_delete_consistent(state: StoreView, id: u64)
    requires
        state.consistent(),
    ensures
        state.delete(id).consistent(),
{
}

/// Creating keeps a state consistent, and the new identifier was free.
pub proof fn lemma_create_consistent(state: StoreView, item: PayloadView, now: u64)
    requires
        state.consistent(),
        state.can_create(item, now),
    ensures
        state.create(item, now).consistent(),
        !state.missions.contains_key(state.created(item, now).id),
{
}

} // verus!
