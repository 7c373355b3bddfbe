//! What holds of every store, whatever is done with it.
//!
//! Each function here is a theorem over the model of the store, the same
//! model that the contracts of the operations are written over.

use crate::codec::fits;
use crate::mission::{MissionView, PayloadView};
use crate::model::{
    arrives_by, arrives_from, earliest, lemma_create_consistent, lemma_delete_consistent,
    lemma_put_consistent, StoreView,
};
use crate::order::{keys_from, lemma_count, lemma_insert_above, lemma_values_from_lists};
use vstd::prelude::*;

verus! {

/// One change of a store.
pub enum Change {
    /// A mission is created from `item` at the time `now`.
    Create { item: PayloadView, now: u64 },
    /// `m` is written under its identifier.
    Put { m: MissionView },
    /// The mission under `id` is removed.
    Delete { id: u64 },
}

impl StoreView {
    /// The state after `change`. A change that cannot be made leaves the
    /// state as it is.
    pub open spec fn apply(self, change: Change) -> StoreView {
        match change {
            Change::Create { item, now } => if self.can_create(item, now) {
                self.create(item, now)
            } else {
                self
            },
            Change::Put { m } => if self.issued(m.id) && fits(m) {
                self.put(m)
            } else {
                self
            },
            Change::Delete { id } => self.delete(id),
        }
    }

    /// The identifier that `change` hands out, if it hands out one.
    pub open spec fn issues(self, change: Change) -> Option<u64> {
        match change {
            Change::Create { item, now } => if self.can_create(item, now) {
                Some(self.created(item, now).id)
            } else {
                None
            },
            _ => None,
        }
    }

    /// The identifier of the one mission that `change` touches.
    pub open spec fn target(self, change: Change) -> u64 {
        match change {
            Change::Create { item, now } => self.created(item, now).id,
            Change::Put { m } => m.id,
            Change::Delete { id } => id,
        }
    }

    /// The state after `changes`, made one after the other.
    pub open spec fn after(self, changes: Seq<Change>) -> StoreView
        decreases changes.len(),
    {
        if changes.len() == 0 {
            self
        } else {
            self.after(changes.drop_last()).apply(changes.last())
        }
    }
}

/// A change leaves every mission but the one that it touches as it was.
pub proof fn other_missions_stay(state: StoreView, change: Change, id: u64)
    requires
        id != state.target(change),
    ensures
        state.apply(change).read(id) == state.read(id),
{
}

/// No change takes the counter back, and none breaks a consistent state.
pub proof fn counter_never_falls(start: StoreView, changes: Seq<Change>, earlier: int)
    requires
        0 <= earlier <= changes.len(),
    ensures
        start.after(changes.take(earlier)).last_id <= start.after(changes).last_id,
        start.consistent() ==> start.after(changes).consistent(),
    decreases changes.len(),
{
    if changes.len() > 0 {
        let before = changes.drop_last();
        let state = start.after(before);
        if earlier == changes.len() {
            counter_never_falls(start, before, earlier - 1);
            assert(changes.take(earlier) =~= changes);
        } else {
            counter_never_falls(start, before, earlier);
            assert(changes.take(earlier) =~= before.take(earlier));
        }
        if start.consistent() {
            match changes.last() {
                Change::Create { item, now } => {
                    if state.can_create(item, now) {
                        lemma_create_consistent(state, item, now);
                    }
                },
                Change::Put { m } => {
                    if state.issued(m.id) && fits(m) {
                        lemma_put_consistent(state, m);
                    }
                },
                Change::Delete { id } => {
                    lemma_delete_consistent(state, id);
                },
            }
        }
    }
}

/// Identifiers are handed out in strictly ascending order, so none is handed
/// out twice, whatever is created, written or removed in between.
pub proof fn identifiers_ascend(start: StoreView, changes: Seq<Change>, first: int, second: int)
    requires
        0 <= first < second < changes.len(),
        start.after(changes.take(first)).issues(changes[first]) is Some,
        start.after(changes.take(second)).issues(changes[second]) is Some,
    ensures
        start.after(changes.take(first)).issues(changes[first])->Some_0 < start.after(
            changes.take(second),
        ).issues(changes[second])->Some_0,
{
    // The counter behind the first creation is the first identifier; it has
    // not fallen when the second creation adds one to it.
    let upto = changes.take(second);
    assert(upto.take(first + 1).drop_last() =~= changes.take(first));
    counter_never_falls(start, upto, first + 1);
}

/// The identifier that a creation hands out was never in use: no mission
/// stands under it, nor under any identifier above it.
pub proof fn created_identifier_is_fresh(state: StoreView, item: PayloadView, now: u64, id: u64)
    requires
        state.consistent(),
        state.can_create(item, now),
        id >= state.created(item, now).id,
    ensures
        state.read(id) is None,
{
}

/// A read of the identifier that a creation returned gives the mission that
/// the creation returned.
pub proof fn read_after_create(state: StoreView, item: PayloadView, now: u64)
    requires
        state.can_create(item, now),
    ensures
        state.create(item, now).read(state.created(item, now).id) == Some(
            state.created(item, now),
        ),
{
}

/// After a removal nothing stands under the identifier, so a read of it
/// and a second removal find nothing; and a removal of what is not there
/// changes nothing.
pub proof fn read_after_delete(state: StoreView, id: u64)
    ensures
        state.delete(id).read(id) is None,
        state.read(id) is None ==> state.delete(id) == state,
{
    if state.read(id) is None {
        assert(state.delete(id).missions =~= state.missions);
    }
}

/// The listing of a consistent state holds every mission once, by strictly
/// ascending identifier, and nothing else.
pub proof fn records_list_the_missions(state: StoreView)
    requires
        state.consistent(),
    ensures
        state.records().len() == state.missions.dom().len(),
        forall|i: int|
            0 <= i < state.records().len() ==> state.read((#[trigger] state.records()[i]).id)
                == Some(state.records()[i]),
        forall|i: int, j: int|
            0 <= i < j < state.records().len() ==> (#[trigger] state.records()[i]).id < (
            #[trigger] state.records()[j]).id,
        forall|id: u64| #[trigger]
            state.missions.contains_key(id) ==> state.records().contains(state.missions[id]),
{
    let keys = keys_from(state.missions, 0);
    let records = state.records();
    lemma_values_from_lists(state.missions, 0);
    lemma_count(state.missions);
    assert forall|i: int| 0 <= i < records.len() implies (#[trigger] records[i]).id == keys[i]
        by {
        assert(state.missions.contains_key(keys[i]));
    }
}

/// A created mission is listed last: its identifier is above all others.
pub proof fn created_mission_is_listed_last(state: StoreView, item: PayloadView, now: u64)
    requires
        state.consistent(),
        state.can_create(item, now),
    ensures
        state.create(item, now).records() == state.records().push(state.created(item, now)),
{
    let created = state.created(item, now);
    assert forall|other: u64| #[trigger] state.missions.contains_key(other) implies other
        < created.id by {
        assert(state.issued(other));
    }
    lemma_insert_above(state.missions, created.id, created, 0);
}

/// The missions to arrive by a date are exactly those of the listing that
/// are to arrive by then.
pub proof fn arriving_by_is_the_subset(state: StoreView, date: u64)
    ensures
        state.arriving_by(date).len() <= state.records().len(),
        forall|m: MissionView|
            state.arriving_by(date).contains(m) <==> state.records().contains(m)
                && m.estimated_arrival_date <= date,
{
    let records = state.records();
    let pred = arrives_by(date);
    let kept = records.filter(pred);
    records.lemma_filter_len(pred);
    assert forall|m: MissionView| kept.contains(m) implies records.contains(m)
        && m.estimated_arrival_date <= date by {
        records.lemma_filter_contains_rev(pred, m);
        let at = choose|at: int| 0 <= at < kept.len() && kept[at] == m;
        records.lemma_filter_pred(pred, at);
    }
}

/// The first of the earliest missions of a run.
proof fn lemma_earliest(missions: Seq<MissionView>)
    ensures
        earliest(missions) is None <==> missions.len() == 0,
        earliest(missions) matches Some(best) ==> exists|at: int|
            {
                &&& 0 <= at < missions.len()
                &&& missions[at] == best
                &&& forall|i: int|
                    0 <= i < missions.len() ==> best.estimated_arrival_date <= (
                    #[trigger] missions[i]).estimated_arrival_date
                &&& forall|i: int|
                    0 <= i < at ==> best.estimated_arrival_date < (
                    #[trigger] missions[i]).estimated_arrival_date
            },
    decreases missions.len(),
{
    if missions.len() > 0 {
        let before = missions.drop_last();
        lemma_earliest(before);
        let last = missions.last();
        if let Some(best) = earliest(before) {
            let at = choose|at: int|
                {
                    &&& 0 <= at < before.len()
                    &&& before[at] == best
                    &&& forall|i: int|
                        0 <= i < before.len() ==> best.estimated_arrival_date <= (
                        #[trigger] before[i]).estimated_arrival_date
                    &&& forall|i: int|
                        0 <= i < at ==> best.estimated_arrival_date < (
                        #[trigger] before[i]).estimated_arrival_date
                };
            if last.estimated_arrival_date < best.estimated_arrival_date {
                // The last mission is earlier than all before it.
                assert forall|i: int|
                    0 <= i < missions.len() - 1 implies last.estimated_arrival_date < (
                    #[trigger] missions[i]).estimated_arrival_date by {
                    assert(missions[i] == before[i]);
                }
            } else {
                // The best of the missions before stays the best, at its place.
                assert forall|i: int| 0 <= i < missions.len() implies best.estimated_arrival_date
                    <= (#[trigger] missions[i]).estimated_arrival_date by {
                    if i < before.len() {
                        assert(missions[i] == before[i]);
                    }
                }
                assert forall|i: int| 0 <= i < at implies best.estimated_arrival_date < (
                #[trigger] missions[i]).estimated_arrival_date by {
                    assert(missions[i] == before[i]);
                }
            }
        }
    }
}

/// A search for the nearest arrival finds nothing if and only if no mission
/// is to arrive at the target or after. What it finds is a mission of the
/// store that is to arrive at the target or after, and no such mission is to
/// arrive before it.
pub proof fn nearest_after_is_the_minimum(state: StoreView, target: u64)
    ensures
        state.nearest_after(target) is None <==> forall|i: int|
            0 <= i < state.records().len() ==> (
            #[trigger] state.records()[i]).estimated_arrival_date < target,
        state.nearest_after(target) matches Some(best) ==> {
            &&& state.records().contains(best)
            &&& best.estimated_arrival_date >= target
            &&& forall|i: int|
                0 <= i < state.records().len() && (
                #[trigger] state.records()[i]).estimated_arrival_date >= target
                    ==> best.estimated_arrival_date <= state.records()[i].estimated_arrival_date
        },
{
    let records = state.records();
    let pred = arrives_from(target);
    let late = records.filter(pred);
    lemma_earliest(late);
    if late.len() == 0 {
        assert forall|i: int| 0 <= i < records.len() implies (
        #[trigger] records[i]).estimated_arrival_date < target by {
            if pred(records[i]) {
                records.lemma_filter_contains(pred, i);
            }
        }
    } else {
        records.lemma_filter_pred(pred, 0);
        records.lemma_filter_contains_rev(pred, late[0]);
        let best = earliest(late)->Some_0;
        let at = choose|at: int| 0 <= at < late.len() && late[at] == best;
        records.lemma_filter_pred(pred, at);
        records.lemma_filter_contains_rev(pred, best);
        assert forall|i: int|
            0 <= i < records.len() && (#[trigger] records[i]).estimated_arrival_date
                >= target implies best.estimated_arrival_date
            <= records[i].estimated_arrival_date by {
            records.lemma_filter_contains(pred, i);
        }
    }
}

/// Whether `x` stands somewhere in `s` and `y` somewhere behind it.
spec fn stands_before<A>(s: Seq<A>, x: A, y: A) -> bool {
    exists|i: int, j: int| 0 <= i < j < s.len() && s[i] == x && s[j] == y
}

/// Filtering keeps the order in which the elements stand.
proof fn lemma_filter_keeps_order<A>(s: Seq<A>, pred: spec_fn(A) -> bool)
    ensures
        forall|a: int, b: int|
            0 <= a < b < s.filter(pred).len() ==> stands_before(
                s,
                #[trigger] s.filter(pred)[a],
                #[trigger] s.filter(pred)[b],
            ),
    decreases s.len(),
{
    reveal(Seq::filter);
    if s.len() > 0 {
        let before = s.drop_last();
        let kept = s.filter(pred);
        let kept_before = before.filter(pred);
        lemma_filter_keeps_order(before, pred);
        assert forall|a: int, b: int| 0 <= a < b < kept.len() implies stands_before(
            s,
            #[trigger] kept[a],
            #[trigger] kept[b],
        ) by {
            if b == kept_before.len() {
                // `kept[b]` is the last of `s`, and `kept[a]` stands before it.
                before.lemma_filter_contains_rev(pred, kept_before[a]);
            }
        }
    }
}

/// Of several missions that are to arrive at the same nearest time, a
/// search finds the one with the lowest identifier.
pub proof fn nearest_after_prefers_the_lowest_identifier(state: StoreView, target: u64)
    requires
        state.consistent(),
        state.nearest_after(target) is Some,
    ensures
        forall|i: int|
            0 <= i < state.records().len() && (
            #[trigger] state.records()[i]).estimated_arrival_date == state.nearest_after(
                target,
            )->Some_0.estimated_arrival_date ==> state.nearest_after(target)->Some_0.id
                <= state.records()[i].id,
{
    let records = state.records();
    let pred = arrives_from(target);
    let late = records.filter(pred);
    let best = state.nearest_after(target)->Some_0;
    lemma_earliest(late);
    records_list_the_missions(state);
    lemma_filter_keeps_order(records, pred);
    let at = choose|at: int|
        {
            &&& 0 <= at < late.len()
            &&& late[at] == best
            &&& forall|i: int|
                0 <= i < late.len() ==> best.estimated_arrival_date <= (
                #[trigger] late[i]).estimated_arrival_date
            &&& forall|i: int|
                0 <= i < at ==> best.estimated_arrival_date < (
                #[trigger] late[i]).estimated_arrival_date
        };
    records.lemma_filter_pred(pred, at);
    assert forall|i: int|
        0 <= i < records.len() && (#[trigger] records[i]).estimated_arrival_date
            == best.estimated_arrival_date implies best.id <= records[i].id by {
        // The mission is among the late ones, and not before the best: one
        // before it would be to arrive strictly after it.
        records.lemma_filter_contains(pred, i);
        let k = choose|k: int| 0 <= k < late.len() && late[k] == records[i];
        assert(at <= k);
    }
}

} // verus!
