//! The record table: an ordered durable mapping from identifier to mission.
//!
//! The medium keeps each mission as the record that the codec writes. The
//! table's view is the mapping from identifier to mission that those records
//! spell. A table is only ever built over a medium where every entry is a
//! record of a mission that carries the entry's key as its identifier, and
//! every operation keeps the medium so.

use crate::codec::{
    decoding, encoding, fits, decoding_inverts_encoding, encoding_inverts_decoding,
};
use crate::mission::{mission_views, MissionView, SpaceMission};
use crate::order::{lemma_listing_is_unique, lists_from, values_ascending};
use crate::stable::{
    record_bytes, records_entries, records_get, records_init, records_insert, records_len,
    records_remove, records_segment, segment_id, Segment, StableRecords,
};
use vstd::prelude::*;

verus! {

/// Whether `bytes` is the record of a mission whose identifier is `key`.
pub open spec fn holds_mission(key: u64, bytes: Seq<u8>) -> bool {
    decoding(bytes) matches Some(m) && m.id == key
}

/// Whether every entry of `raw` is the record of a mission that stands
/// under its own identifier.
pub open spec fn well_kept(raw: Map<u64, Seq<u8>>) -> bool {
    forall|key: u64| #[trigger] raw.contains_key(key) ==> holds_mission(key, raw[key])
}

/// The missions that the records of `raw` spell.
pub open spec fn missions_in(raw: Map<u64, Seq<u8>>) -> Map<u64, MissionView> {
    Map::new(|key: u64| raw.contains_key(key), |key: u64| decoding(raw[key])->Some_0)
}

/// Whether `entries` holds every entry of `raw` once, by ascending key.
pub open spec fn walks(raw: Map<u64, Seq<u8>>, entries: Seq<(u64, Vec<u8>)>) -> bool {
    &&& forall|i: int|
        0 <= i < entries.len() ==> raw.contains_pair((#[trigger] entries[i]).0, entries[i].1@)
    &&& forall|i: int, j: int|
        0 <= i < j < entries.len() ==> (#[trigger] entries[i]).0 < (#[trigger] entries[j]).0
    &&& forall|key: u64| #[trigger]
        raw.contains_key(key) ==> exists|i: int|
            0 <= i < entries.len() && (#[trigger] entries[i]).0 == key
}

/// The table of missions.
pub struct RecordTable {
    records: StableRecords,
}

impl View for RecordTable {
    type V = Map<u64, MissionView>;

    closed spec fn view(&self) -> Map<u64, MissionView> {
        missions_in(record_bytes(self.records))
    }
}

impl RecordTable {
    /// Whether the medium holds nothing but records of missions, each
    /// under its own identifier.
    pub closed spec fn wf(&self) -> bool {
        well_kept(record_bytes(self.records))
    }

    /// The number of the segment that keeps the table.
    pub closed spec fn segment(&self) -> u8 {
        records_segment(self.records)
    }

    /// Every mission of a table stands under its own identifier, and its
    /// record is within the size bound.
    pub proof fn lemma_kept(&self)
        requires
            self.wf(),
        ensures
            forall|id: u64| #[trigger]
                self@.contains_key(id) ==> self@[id].id == id && fits(self@[id]),
    {
        let raw = record_bytes(self.records);
        assert forall|id: u64| #[trigger] self@.contains_key(id) implies self@[id].id == id
            && fits(self@[id]) by {
            assert(raw.contains_key(id));
            encoding_inverts_decoding(raw[id]);
        }
    }

    /// The table over `records`, which is there if and only if every entry
    /// is the record of a mission under its own identifier.
    pub fn from_records(records: StableRecords) -> (res: Option<RecordTable>)
        ensures
            res is Some <==> well_kept(record_bytes(records)),
            res matches Some(table) ==> table.wf() && table@ == missions_in(record_bytes(records))
                && table.segment() == records_segment(records),
    {
        let ghost raw = record_bytes(records);
        let entries = records_entries(&records);
        assert(walks(raw, entries@));
        let mut i: usize = 0;
        while i < entries.len()
            invariant
                i <= entries@.len(),
                raw == record_bytes(records),
                walks(raw, entries@),
                forall|j: int|
                    0 <= j < i ==> holds_mission((#[trigger] entries@[j]).0, entries@[j].1@),
            decreases entries@.len() - i,
        {
            let kept = match SpaceMission::decode(entries[i].1.as_slice()) {
                Some(m) => m.id == entries[i].0,
                None => false,
            };
            if !kept {
                proof {
                    let key = entries@[i as int].0;
                    assert(raw.contains_pair(key, entries@[i as int].1@));
                    assert(raw.contains_key(key) && !holds_mission(key, raw[key]));
                }
                return None;
            }
            i += 1;
        }
        proof {
            assert forall|key: u64| #[trigger] raw.contains_key(key) implies holds_mission(
                key,
                raw[key],
            ) by {
                let at = choose|at: int|
                    0 <= at < entries@.len() && (#[trigger] entries@[at]).0 == key;
                assert(raw.contains_pair(entries@[at].0, entries@[at].1@));
            }
        }
        Some(RecordTable { records })
    }

    /// The table that `segment` keeps, empty on a new medium; nothing
    /// where the medium holds an entry that is no record of a mission under
    /// its own identifier. What the segment holds is for the medium to
    /// decide; [`RecordTable::from_records`] says what is made of it.
    pub(crate) fn init(segment: Segment) -> (res: Option<RecordTable>)
        ensures
            res matches Some(table) ==> table.wf() && table.segment() == segment_id(segment),
    {
        RecordTable::from_records(records_init(segment))
    }

    /// The mission under `id`, if there is one.
    pub fn get(&self, id: u64) -> (res: Option<SpaceMission>)
        requires
            self.wf(),
        ensures
            match res {
                Some(m) => self@.contains_pair(id, m@),
                None => !self@.contains_key(id),
            },
    {
        match records_get(&self.records, id) {
            Some(bytes) => Some(SpaceMission::from_bytes(bytes.as_slice())),
            None => None,
        }
    }

    /// Puts `item` under its identifier, in place of what was there.
    pub fn insert(&mut self, item: &SpaceMission)
        requires
            old(self).wf(),
            fits(item@),
        ensures
            final(self).wf(),
            final(self).segment() == old(self).segment(),
            final(self)@ == old(self)@.insert(item.id, item@),
    {
        let bytes = item.to_bytes();
        proof {
            decoding_inverts_encoding(item@);
            encoding_inverts_decoding(encoding(item@));
        }
        records_insert(&mut self.records, item.id, bytes.as_slice());
        assert(self@ =~= old(self)@.insert(item.id, item@));
    }

    /// Takes out the mission under `id` and hands it back, if there is one.
    pub fn remove(&mut self, id: u64) -> (res: Option<SpaceMission>)
        requires
            old(self).wf(),
        ensures
            final(self).wf(),
            final(self).segment() == old(self).segment(),
            final(self)@ == old(self)@.remove(id),
            match res {
                Some(m) => old(self)@.contains_pair(id, m@),
                None => !old(self)@.contains_key(id),
            },
    {
        let removed = records_remove(&mut self.records, id);
        assert(self@ =~= old(self)@.remove(id));
        match removed {
            Some(bytes) => Some(SpaceMission::from_bytes(bytes.as_slice())),
            None => None,
        }
    }

    /// The number of missions.
    pub fn len(&self) -> (count: u64)
        ensures
            count == self@.dom().len(),
    {
        assert(self@.dom() =~= record_bytes(self.records).dom());
        records_len(&self.records)
    }

    /// All missions, by ascending identifier.
    pub fn missions(&self) -> (all: Vec<SpaceMission>)
        requires
            self.wf(),
        ensures
            mission_views(all@) == values_ascending(self@),
    {
        let ghost raw = record_bytes(self.records);
        let entries = records_entries(&self.records);
        assert(walks(raw, entries@));
        let mut all: Vec<SpaceMission> = Vec::new();
        let mut i: usize = 0;
        while i < entries.len()
            invariant
                i <= entries@.len(),
                all@.len() == i,
                well_kept(raw),
                walks(raw, entries@),
                forall|j: int|
                    0 <= j < i ==> decoding((#[trigger] entries@[j]).1@) == Some(all@[j]@),
            decreases entries@.len() - i,
        {
            proof {
                let key = entries@[i as int].0;
                assert(raw.contains_pair(key, entries@[i as int].1@));
                assert(holds_mission(key, raw[key]));
            }
            let m = SpaceMission::from_bytes(entries[i].1.as_slice());
            all.push(m);
            i += 1;
        }
        proof {
            let keys = entries@.map_values(|entry: (u64, Vec<u8>)| entry.0);
            let values = mission_views(all@);
            assert forall|j: int| 0 <= j < keys.len() implies 0 <= #[trigger] keys[j]
                && self@.contains_key(keys[j]) && self@[keys[j]] == values[j] by {
                assert(raw.contains_pair(entries@[j].0, entries@[j].1@));
            }
            assert forall|a: int, b: int| 0 <= a < b < keys.len() implies #[trigger] keys[a]
                < #[trigger] keys[b] by {
                assert(entries@[a].0 < entries@[b].0);
            }
            assert forall|key: u64| 0 <= key && #[trigger] self@.contains_key(key) implies exists|
                j: int,
            |
                0 <= j < keys.len() && #[trigger] keys[j] == key by {
                assert(raw.contains_key(key));
                let at = choose|at: int|
                    0 <= at < entries@.len() && (#[trigger] entries@[at]).0 == key;
                assert(keys[at] == key);
            }
            assert(lists_from(self@, 0, keys, values));
            lemma_listing_is_unique(self@, 0, keys, values);
        }
        all
    }
}

} // verus!
