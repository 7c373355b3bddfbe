//! The store and its operations.
//!
//! A [`MissionStore`] owns the segments of the medium, the identifier
//! counter and the record table. Every operation takes the store that it
//! works on; none keeps state of its own. The two operations that go by the
//! time come in two forms: one asks the clock of the host, the other is handed
//! the time, in nanoseconds, and is what the first does once it has the time.

use crate::clock::host_time;
use crate::codec::{fits, payload_fits};
use crate::counter::IdCounter;
use crate::error::{
    already_arrived, arrival_not_found, delete_not_found, launch_not_found, not_found,
    read_not_found, remaining_not_found, update_not_found, Error,
};
use crate::mission::{mission_views, MissionView, SpaceMission, SpaceMissionPayload};
use crate::model::{
    arrives_by, arrives_from, earliest, goes_to, lemma_create_consistent, lemma_delete_consistent,
    lemma_put_consistent, StoreView,
};
use crate::order::{keys_from, lemma_count, lemma_values_from_lists, lists_from};
use crate::stable::{segment, segments_open, Segments};
use crate::table::RecordTable;
use vstd::prelude::*;
use vstd::string::StringExecFns;

verus! {

/// The segment that keeps the identifier counter.
pub const COUNTER_SEGMENT: u8 = 0;

/// The segment that keeps the record table.
pub const RECORDS_SEGMENT: u8 = 1;

/// The store of missions.
pub struct MissionStore {
    segments: Segments,
    counter: IdCounter,
    table: RecordTable,
}

impl View for MissionStore {
    type V = StoreView;

    closed spec fn view(&self) -> StoreView {
        StoreView { last_id: self.counter@, missions: self.table@ }
    }
}

impl Segments {
    /// The segments of the default memory of the process: the stable memory
    /// of a canister, a new empty memory elsewhere. A canister opens them
    /// once in its life, since two sets of segments over one memory would
    /// write over each other. What the memory holds is for the medium to
    /// decide, and nothing is said of the handle that comes back.
    pub fn open() -> Segments {
        segments_open()
    }
}

/// One more mission of a run, filtered.
proof fn lemma_filter_next<A>(s: Seq<A>, i: int, pred: spec_fn(A) -> bool)
    requires
        0 <= i < s.len(),
    ensures
        s.take(i + 1).filter(pred) == if pred(s[i]) {
            s.take(i).filter(pred).push(s[i])
        } else {
            s.take(i).filter(pred)
        },
{
    reveal(Seq::filter);
    assert(s.take(i + 1).drop_last() =~= s.take(i));
}

/// The views of a run of missions with one more at its end.
proof fn lemma_views_push(missions: Seq<SpaceMission>, m: SpaceMission)
    ensures
        mission_views(missions.push(m)) == mission_views(missions).push(m@),
{
    assert(mission_views(missions.push(m)) =~= mission_views(missions).push(m@));
}

impl MissionStore {
    /// Whether the medium under the table holds nothing but records of
    /// missions. Every store that a function of this crate hands out is so.
    pub closed spec fn kept(&self) -> bool {
        self.table.wf()
    }

    /// The number of the segment that keeps the counter.
    pub closed spec fn counter_segment(&self) -> u8 {
        self.counter.segment()
    }

    /// The number of the segment that keeps the table.
    pub closed spec fn records_segment(&self) -> u8 {
        self.table.segment()
    }

    /// Whether the store is as every operation leaves it: the counter lies
    /// in its segment and the table in its own, so that neither writes over
    /// the other; the medium holds nothing but records of missions; and the
    /// missions are consistent with the counter.
    pub open spec fn wf(&self) -> bool {
        &&& self.counter_segment() == COUNTER_SEGMENT
        &&& self.records_segment() == RECORDS_SEGMENT
        &&& self.kept()
        &&& self@.consistent()
    }

    /// The segments that keep the store. No operation exchanges them.
    pub closed spec fn medium(&self) -> Segments {
        self.segments
    }

    /// The store over the counter and the table that the medium gave, each
    /// in its segment. It is there if and only if the medium gave both and
    /// every mission of the table stands under an identifier that the counter
    /// has issued.
    pub fn assemble(
        segments: Segments,
        counter: Option<IdCounter>,
        table: Option<RecordTable>,
    ) -> (res: Option<MissionStore>)
        requires
            counter matches Some(c) ==> c.segment() == COUNTER_SEGMENT,
            table matches Some(t) ==> t.wf() && t.segment() == RECORDS_SEGMENT,
        ensures
            res is Some <==> counter is Some && table is Some && (StoreView {
                last_id: counter->Some_0@,
                missions: table->Some_0@,
            }).consistent(),
            res matches Some(store) ==> store.wf() && store.medium() == segments && store@ == (
            StoreView { last_id: counter->Some_0@, missions: table->Some_0@ }),
    {
        match (counter, table) {
            (Some(counter), Some(table)) => MissionStore::from_parts(segments, counter, table),
            _ => None,
        }
    }

    /// The store over a counter and a table, each in its segment. It is
    /// there if and only if every mission of the table stands under an
    /// identifier that the counter has issued.
    pub fn from_parts(segments: Segments, counter: IdCounter, table: RecordTable) -> (res: Option<
        MissionStore,
    >)
        requires
            counter.segment() == COUNTER_SEGMENT,
            table.wf(),
            table.segment() == RECORDS_SEGMENT,
        ensures
            res is Some <==> (StoreView { last_id: counter@, missions: table@ }).consistent(),
            res matches Some(store) ==> store.wf() && store.medium() == segments && store@ == (
            StoreView { last_id: counter@, missions: table@ }),
    {
        let last: u64 = counter.last_id();
        let all = table.missions();
        let ghost state = StoreView { last_id: counter@, missions: table@ };
        let ghost keys = keys_from(table@, 0);
        let ghost views = mission_views(all@);
        proof {
            table.lemma_kept();
            lemma_values_from_lists(table@, 0);
        }
        let mut i: usize = 0;
        while i < all.len()
            invariant
                i <= all@.len(),
                last == state.last_id,
                state == (StoreView { last_id: counter@, missions: table@ }),
                views == mission_views(all@),
                lists_from(state.missions, 0, keys, views),
                forall|j: int| 0 <= j < i ==> state.issued(#[trigger] keys[j]),
                forall|id: u64| #[trigger]
                    state.missions.contains_key(id) ==> state.missions[id].id == id,
            decreases all@.len() - i,
        {
            let id: u64 = all[i].id;
            proof {
                assert(state.missions.contains_key(keys[i as int]));
                assert(views[i as int] == all@[i as int]@);
            }
            if id < 1 || id > last {
                assert(state.missions.contains_key(keys[i as int]) && !state.issued(
                    keys[i as int],
                ));
                return None;
            }
            i += 1;
        }
        proof {
            assert forall|id: u64| #[trigger] state.missions.contains_key(id) implies state.issued(
                id,
            ) by {
                let at = choose|at: int| 0 <= at < keys.len() && #[trigger] keys[at] == id;
                assert(state.issued(keys[at]));
            }
        }
        Some(MissionStore { segments, counter, table })
    }

    /// The store that `segments` keep: the counter in segment 0, the table
    /// in segment 1. On a new medium the store is empty and has issued no
    /// identifier. There is no store where the medium cannot hold the counter,
    /// or holds an entry that is no record of a mission under an issued
    /// identifier of its own. What the segments hold is for the medium to
    /// decide; [`MissionStore::assemble`] says what is made of it.
    pub fn init(segments: Segments) -> (res: Option<MissionStore>)
        ensures
            res matches Some(store) ==> store.wf() && store.medium() == segments,
    {
        let counter = IdCounter::init(segment(&segments, COUNTER_SEGMENT));
        let table = RecordTable::init(segment(&segments, RECORDS_SEGMENT));
        MissionStore::assemble(segments, counter, table)
    }

    /// Gives up the store and hands back the segments that keep it.
    pub fn close(self) -> (segments: Segments)
        ensures
            segments == self.medium(),
    {
        self.segments
    }

    /// The identifier issued last, 0 where none was issued.
    pub fn last_id(&self) -> (id: u64)
        ensures
            id == self@.last_id,
    {
        self.counter.last_id()
    }
}

/// Writes `item` under its identifier, in place of what was there. The
/// identifier must have been issued.
pub fn do_insert_space_mission(store: &mut MissionStore, item: &SpaceMission)
    requires
        old(store).wf(),
        old(store)@.issued(item.id),
        fits(item@),
    ensures
        final(store).wf(),
        final(store).medium() == old(store).medium(),
        final(store)@ == old(store)@.put(item@),
{
    proof {
        lemma_put_consistent(store@, item@);
    }
    store.table.insert(item);
}

/// The mission under `id`, if there is one.
pub fn _get_space_mission(store: &MissionStore, id: &u64) -> (res: Option<SpaceMission>)
    requires
        store.wf(),
    ensures
        match res {
            Some(m) => store@.read(*id) == Some(m@),
            None => store@.read(*id) is None,
        },
{
    store.table.get(*id)
}

/// The mission under `id`, or `NotFound` where there is none.
pub fn get_space_mission(store: &MissionStore, id: u64) -> (res: Result<SpaceMission, Error>)
    requires
        store.wf(),
    ensures
        match res {
            Ok(m) => store@.read(id) == Some(m@),
            Err(e) => {
                &&& store@.read(id) is None
                &&& e.message() == read_not_found(id)
            },
        },
{
    match _get_space_mission(store, &id) {
        Some(item) => Ok(item),
        None => Err(not_found("space mission with id=", id, " not found")),
    }
}

/// Creates a mission from `item` at the time of the host: it gets the next
/// identifier, and its two dates are those of `item` moved by one day plus
/// that time. The store is left as it was, and nothing is returned, where no
/// mission can be created at that time (see [`StoreView::can_create`]). What
/// the time is, is for the host to say; [`add_space_mission_at`] is what
/// this function does once it has the time.
pub fn add_space_mission(store: &mut MissionStore, item: SpaceMissionPayload) -> (res: Option<
    SpaceMission,
>)
    requires
        old(store).wf(),
    ensures
        final(store).wf(),
        final(store).medium() == old(store).medium(),
        match res {
            Some(m) => exists|now: u64|
                #![trigger old(store)@.can_create(item@, now)]
                {
                    &&& old(store)@.can_create(item@, now)
                    &&& m@ == old(store)@.created(item@, now)
                    &&& final(store)@ == old(store)@.create(item@, now)
                },
            None => final(store)@ == old(store)@,
        },
{
    let now: u64 = host_time();
    add_space_mission_at(store, item, now)
}

/// Creates a mission from `item` at the time `now`: it gets the next
/// identifier, and its two dates are those of `item` moved by one day plus
/// `now`. A mission is created if and only if one can be (see
/// [`StoreView::can_create`]): an identifier is left, the moved dates fit in
/// 64 bits, and the record is within the size bound. Otherwise the store is
/// left as it was, and nothing is returned.
pub fn add_space_mission_at(store: &mut MissionStore, item: SpaceMissionPayload, now: u64) -> (res:
    Option<SpaceMission>)
    requires
        old(store).wf(),
    ensures
        final(store).wf(),
        final(store).medium() == old(store).medium(),
        res is Some <==> old(store)@.can_create(item@, now),
        match res {
            Some(m) => {
                &&& m@ == old(store)@.created(item@, now)
                &&& final(store)@ == old(store)@.create(item@, now)
            },
            None => final(store)@ == old(store)@,
        },
{
    let last: u64 = store.counter.last_id();
    if last == u64::MAX {
        return None;
    }
    let space_mission = match SpaceMission::schedule(last + 1, item, now) {
        Some(space_mission) => space_mission,
        None => { return None; },
    };
    if !space_mission.fits() {
        return None;
    }
    proof {
        lemma_create_consistent(store@, item@, now);
    }
    let issued = store.counter.next_id();
    add_issued_space_mission(store, issued, space_mission)
}

/// Ends a creation by what the counter answered: where it issued the
/// identifier that `space_mission` carries, the mission is written under it
/// and returned; where it issued none, nothing is done.
pub fn add_issued_space_mission(
    store: &mut MissionStore,
    issued: Option<u64>,
    space_mission: SpaceMission,
) -> (res: Option<SpaceMission>)
    requires
        old(store).wf(),
        issued matches Some(id) ==> id == space_mission.id && old(store)@.issued(id) && fits(
            space_mission@,
        ),
    ensures
        final(store).wf(),
        final(store).medium() == old(store).medium(),
        match issued {
            Some(_) => {
                &&& res matches Some(m) && m@ == space_mission@
                &&& final(store)@ == old(store)@.put(space_mission@)
            },
            None => res is None && final(store)@ == old(store)@,
        },
{
    match issued {
        Some(_) => {
            do_insert_space_mission(store, &space_mission);
            Some(space_mission)
        },
        None => None,
    }
}

/// Replaces every field of the mission under `id` by that of `item`,
/// verbatim; the identifier stays. Where there is such a mission, the new
/// record must be within the size bound.
pub fn update_space_mission(store: &mut MissionStore, id: u64, item: SpaceMissionPayload) -> (res:
    Result<SpaceMission, Error>)
    requires
        old(store).wf(),
        old(store)@.read(id) is Some ==> payload_fits(item@),
    ensures
        final(store).wf(),
        final(store).medium() == old(store).medium(),
        match res {
            Ok(m) => {
                &&& old(store)@.read(id) is Some
                &&& m@ == item@.with_id(id)
                &&& final(store)@ == old(store)@.put(m@)
            },
            Err(e) => {
                &&& old(store)@.read(id) is None
                &&& e.message() == update_not_found(id)
                &&& final(store)@ == old(store)@
            },
        },
{
    match store.table.get(id) {
        Some(_) => {
            let space_mission = SpaceMission::from_payload(id, item);
            proof {
                assert(store@.missions.contains_key(id));
                lemma_put_consistent(store@, space_mission@);
            }
            store.table.insert(&space_mission);
            Ok(space_mission)
        },
        None => Err(
            not_found("couldn't update space mission with id=", id, ". item not found"),
        ),
    }
}

/// Removes the mission under `id` and hands it back. The counter stays
/// as it is: the identifier is not issued again.
pub fn delete_space_mission(store: &mut MissionStore, id: u64) -> (res: Result<
    SpaceMission,
    Error,
>)
    requires
        old(store).wf(),
    ensures
        final(store).wf(),
        final(store).medium() == old(store).medium(),
        match res {
            Ok(m) => {
                &&& old(store)@.read(id) == Some(m@)
                &&& final(store)@ == old(store)@.delete(id)
            },
            Err(e) => {
                &&& old(store)@.read(id) is None
                &&& e.message() == delete_not_found(id)
                &&& final(store)@ == old(store)@
            },
        },
{
    proof {
        lemma_delete_consistent(store@, id);
    }
    match store.table.remove(id) {
        Some(space_mission) => Ok(space_mission),
        None => {
            assert(store@.missions =~= old(store)@.missions);
            Err(not_found("couldn't delete space mission with id=", id, ". item not found."))
        },
    }
}

/// The missions that are to arrive at `estimated_arrival_date` or before,
/// in table order.
pub fn get_space_missions_before_date(store: &MissionStore, estimated_arrival_date: u64) -> (res:
    Vec<SpaceMission>)
    requires
        store.wf(),
    ensures
        mission_views(res@) == store@.arriving_by(estimated_arrival_date),
{
    let all = store.table.missions();
    let ghost views = mission_views(all@);
    let ghost pred = arrives_by(estimated_arrival_date);
    let mut res: Vec<SpaceMission> = Vec::new();
    let mut i: usize = 0;
    assert(views.take(0).filter(pred) =~= Seq::<MissionView>::empty()) by {
        reveal(Seq::filter);
    }
    assert(mission_views(res@) =~= Seq::<MissionView>::empty());
    while i < all.len()
        invariant
            i <= all@.len(),
            views == mission_views(all@),
            pred == arrives_by(estimated_arrival_date),
            mission_views(res@) == views.take(i as int).filter(pred),
        decreases all@.len() - i,
    {
        proof {
            lemma_filter_next(views, i as int, pred);
        }
        if all[i].estimated_arrival_date <= estimated_arrival_date {
            let mission = all[i].clone();
            proof {
                lemma_views_push(res@, mission);
            }
            res.push(mission);
        }
        i += 1;
    }
    assert(views.take(all@.len() as int) =~= views);
    res
}

/// Sets the estimated arrival date of the mission under `id`; its other
/// fields stay.
pub fn update_estimated_arrival_date(
    store: &mut MissionStore,
    id: u64,
    new_estimated_arrival_date: u64,
) -> (res: Result<SpaceMission, Error>)
    requires
        old(store).wf(),
    ensures
        final(store).wf(),
        final(store).medium() == old(store).medium(),
        match res {
            Ok(m) => {
                &&& old(store)@.read(id) is Some
                &&& m@ == old(store)@.missions[id].with_estimated_arrival_date(
                    new_estimated_arrival_date,
                )
                &&& final(store)@ == old(store)@.put(m@)
            },
            Err(e) => {
                &&& old(store)@.read(id) is None
                &&& e.message() == arrival_not_found(id)
                &&& final(store)@ == old(store)@
            },
        },
{
    match store.table.get(id) {
        Some(mut space_mission) => {
            space_mission.estimated_arrival_date = new_estimated_arrival_date;
            proof {
                assert(store@.missions.contains_key(id));
                lemma_put_consistent(store@, space_mission@);
            }
            store.table.insert(&space_mission);
            Ok(space_mission)
        },
        None => Err(
            not_found(
                "couldn't update estimated arrival date for space mission with id=",
                id,
                ". item not found",
            ),
        ),
    }
}

/// All missions, by ascending identifier.
pub fn get_all_space_missions(store: &MissionStore) -> (res: Vec<SpaceMission>)
    requires
        store.wf(),
    ensures
        mission_views(res@) == store@.records(),
{
    store.table.missions()
}

/// The number of missions.
pub fn get_total_space_missions(store: &MissionStore) -> (count: u64)
    ensures
        count == store@.missions.dom().len(),
        count == store@.records().len(),
{
    proof {
        lemma_count(store@.missions);
    }
    store.table.len()
}

/// The number of missions that are to arrive at `estimated_arrival_date`
/// or before.
pub fn get_space_missions_count_before_date(
    store: &MissionStore,
    estimated_arrival_date: u64,
) -> (count: usize)
    requires
        store.wf(),
    ensures
        count == store@.arriving_by(estimated_arrival_date).len(),
{
    let all = store.table.missions();
    let ghost views = mission_views(all@);
    let ghost pred = arrives_by(estimated_arrival_date);
    let mut count: usize = 0;
    let mut i: usize = 0;
    assert(views.take(0).filter(pred) =~= Seq::<MissionView>::empty()) by {
        reveal(Seq::filter);
    }
    while i < all.len()
        invariant
            i <= all@.len(),
            views == mission_views(all@),
            pred == arrives_by(estimated_arrival_date),
            count == views.take(i as int).filter(pred).len(),
            count <= i,
        decreases all@.len() - i,
    {
        proof {
            lemma_filter_next(views, i as int, pred);
        }
        if all[i].estimated_arrival_date <= estimated_arrival_date {
            count += 1;
        }
        i += 1;
    }
    assert(views.take(all@.len() as int) =~= views);
    count
}

/// Of the missions that are to arrive at `target_date` or after, the one
/// that is to arrive first; of several at the same time, the one with the
/// lowest identifier. Nothing where no mission is to arrive that late.
pub fn find_closest_space_mission(store: &MissionStore, target_date: u64) -> (res: Option<
    SpaceMission,
>)
    requires
        store.wf(),
    ensures
        match res {
            Some(m) => store@.nearest_after(target_date) == Some(m@),
            None => store@.nearest_after(target_date) is None,
        },
{
    let all = store.table.missions();
    let ghost views = mission_views(all@);
    let ghost pred = arrives_from(target_date);
    let mut best: Option<SpaceMission> = None;
    let mut i: usize = 0;
    assert(views.take(0).filter(pred) =~= Seq::<MissionView>::empty()) by {
        reveal(Seq::filter);
    }
    while i < all.len()
        invariant
            i <= all@.len(),
            views == mission_views(all@),
            pred == arrives_from(target_date),
            match best {
                Some(m) => earliest(views.take(i as int).filter(pred)) == Some(m@),
                None => earliest(views.take(i as int).filter(pred)) is None,
            },
        decreases all@.len() - i,
    {
        proof {
            lemma_filter_next(views, i as int, pred);
            let before = views.take(i as int).filter(pred);
            assert(before.push(views[i as int]).drop_last() =~= before);
        }
        if all[i].estimated_arrival_date >= target_date {
            let closer = match &best {
                Some(m) => all[i].estimated_arrival_date < m.estimated_arrival_date,
                None => true,
            };
            if closer {
                best = Some(all[i].clone());
            }
        }
        i += 1;
    }
    assert(views.take(all@.len() as int) =~= views);
    best
}

/// The time from now, by the clock of the host, until the mission under
/// `id` is to arrive, in nanoseconds; `NotFound` where there is no such
/// mission, or where it is to arrive now or was to arrive before.
pub fn calculate_remaining_days_for_arrival(store: &MissionStore, id: u64) -> (res: Result<
    u64,
    Error,
>)
    requires
        store.wf(),
    ensures
        match store@.read(id) {
            Some(m) => match res {
                Ok(left) => 0 < left <= m.estimated_arrival_date,
                Err(e) => e.message() == already_arrived(),
            },
            None => res matches Err(e) && e.message() == remaining_not_found(id),
        },
{
    let now: u64 = host_time();
    calculate_remaining_days_for_arrival_at(store, id, now)
}

/// The time from `now` until the mission under `id` is to arrive, in
/// nanoseconds; `NotFound` where there is no such mission, or where it is to
/// arrive at `now` or was to arrive before.
pub fn calculate_remaining_days_for_arrival_at(store: &MissionStore, id: u64, now: u64) -> (res:
    Result<u64, Error>)
    requires
        store.wf(),
    ensures
        match store@.read(id) {
            Some(m) => if m.estimated_arrival_date > now {
                res == Ok::<u64, Error>((m.estimated_arrival_date - now) as u64)
            } else {
                res matches Err(e) && e.message() == already_arrived()
            },
            None => res matches Err(e) && e.message() == remaining_not_found(id),
        },
{
    match store.table.get(id) {
        Some(space_mission) => {
            if space_mission.estimated_arrival_date > now {
                Ok(space_mission.estimated_arrival_date - now)
            } else {
                Err(Error::NotFound { msg: String::from_str("Space Mission has already arrived") })
            }
        },
        None => Err(not_found("Couldn't find Space Mission with id=", id, ". Item not found")),
    }
}

/// The missions that go to `destination`, in table order.
pub fn get_space_missions_by_destination(store: &MissionStore, destination: String) -> (res: Vec<
    SpaceMission,
>)
    requires
        store.wf(),
    ensures
        mission_views(res@) == store@.bound_for(destination@),
{
    let all = store.table.missions();
    let ghost views = mission_views(all@);
    let ghost pred = goes_to(destination@);
    let mut res: Vec<SpaceMission> = Vec::new();
    let mut i: usize = 0;
    assert(views.take(0).filter(pred) =~= Seq::<MissionView>::empty()) by {
        reveal(Seq::filter);
    }
    assert(mission_views(res@) =~= Seq::<MissionView>::empty());
    while i < all.len()
        invariant
            i <= all@.len(),
            views == mission_views(all@),
            pred == goes_to(destination@),
            mission_views(res@) == views.take(i as int).filter(pred),
        decreases all@.len() - i,
    {
        proof {
            lemma_filter_next(views, i as int, pred);
        }
        if all[i].destination == destination {
            let mission = all[i].clone();
            proof {
                lemma_views_push(res@, mission);
            }
            res.push(mission);
        }
        i += 1;
    }
    assert(views.take(all@.len() as int) =~= views);
    res
}

/// Sets the launch date of the mission under `id`; its other fields stay.
pub fn update_launch_date(store: &mut MissionStore, id: u64, new_launch_date: u64) -> (res:
    Result<SpaceMission, Error>)
    requires
        old(store).wf(),
    ensures
        final(store).wf(),
        final(store).medium() == old(store).medium(),
        match res {
            Ok(m) => {
                &&& old(store)@.read(id) is Some
                &&& m@ == old(store)@.missions[id].with_launch_date(new_launch_date)
                &&& final(store)@ == old(store)@.put(m@)
            },
            Err(e) => {
                &&& old(store)@.read(id) is None
                &&& e.message() == launch_not_found(id)
                &&& final(store)@ == old(store)@
            },
        },
{
    match store.table.get(id) {
        Some(mut space_mission) => {
            space_mission.launch_date = new_launch_date;
            proof {
                assert(store@.missions.contains_key(id));
                lemma_put_consistent(store@, space_mission@);
            }
            store.table.insert(&space_mission);
            Ok(space_mission)
        },
        None => Err(
            not_found(
                "Couldn't update launch date for Space Mission with id=",
                id,
                ". Item not found",
            ),
        ),
    }
}

} // verus!
