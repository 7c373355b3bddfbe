//! The mission record, the payload that creates or replaces one, and their
//! mathematical views.

use vstd::prelude::*;

verus! {

/// One day, in nanoseconds.
pub const NANOS_PER_DAY: u64 = 86_400_000_000_000;

/// A scheduled journey as the store keeps it.
#[derive(Debug, PartialEq, Eq)]
pub struct SpaceMission {
    pub id: u64,
    pub mission_name: String,
    pub destination: String,
    pub launch_date: u64,
    pub estimated_arrival_date: u64,
    pub description: String,
}

/// What a caller hands over to create a mission or to replace its fields.
#[derive(Debug, PartialEq, Eq)]
pub struct SpaceMissionPayload {
    pub mission_name: String,
    pub destination: String,
    pub launch_date: u64,
    pub estimated_arrival_date: u64,
    pub description: String,
}

/// A mission as a mathematical value: the texts are sequences of characters.
pub struct MissionView {
    pub id: u64,
    pub mission_name: Seq<char>,
    pub destination: Seq<char>,
    pub launch_date: u64,
    pub estimated_arrival_date: u64,
    pub description: Seq<char>,
}

/// A payload as a mathematical value.
pub struct PayloadView {
    pub mission_name: Seq<char>,
    pub destination: Seq<char>,
    pub launch_date: u64,
    pub estimated_arrival_date: u64,
    pub description: Seq<char>,
}

impl View for SpaceMission {
    type V = MissionView;

    open spec fn view(&self) -> MissionView {
        MissionView {
            id: self.id,
            mission_name: self.mission_name@,
            destination: self.destination@,
            launch_date: self.launch_date,
            estimated_arrival_date: self.estimated_arrival_date,
            description: self.description@,
        }
    }
}

impl View for SpaceMissionPayload {
    type V = PayloadView;

    open spec fn view(&self) -> PayloadView {
        PayloadView {
            mission_name: self.mission_name@,
            destination: self.destination@,
            launch_date: self.launch_date,
            estimated_arrival_date: self.estimated_arrival_date,
            description: self.description@,
        }
    }
}

impl PayloadView {
    /// The mission that carries this payload's fields verbatim under `id`.
    pub open spec fn with_id(self, id: u64) -> MissionView {
        MissionView {
            id,
            mission_name: self.mission_name,
            destination: self.destination,
            launch_date: self.launch_date,
            estimated_arrival_date: self.estimated_arrival_date,
            description: self.description,
        }
    }

    /// Whether both dates, moved one day past `now`, still fit in 64 bits.
    pub open spec fn schedulable(self, now: u64) -> bool {
        &&& self.launch_date + NANOS_PER_DAY + now <= u64::MAX
        &&& self.estimated_arrival_date + NANOS_PER_DAY + now <= u64::MAX
    }

    /// The new mission that this payload describes when it is created at
    /// `now` under `id`: both dates are moved by one day plus `now`.
    pub open spec fn scheduled(self, id: u64, now: u64) -> MissionView {
        MissionView {
            id,
            mission_name: self.mission_name,
            destination: self.destination,
            launch_date: (self.launch_date + NANOS_PER_DAY + now) as u64,
            estimated_arrival_date: (self.estimated_arrival_date + NANOS_PER_DAY + now) as u64,
            description: self.description,
        }
    }
}

impl MissionView {
    pub open spec fn with_launch_date(self, date: u64) -> MissionView {
        MissionView { launch_date: date, ..self }
    }

    pub open spec fn with_estimated_arrival_date(self, date: u64) -> MissionView {
        MissionView { estimated_arrival_date: date, ..self }
    }
}

/// The views of a run of missions, in the same order.
pub open spec fn mission_views(missions: Seq<SpaceMission>) -> Seq<MissionView> {
    missions.map_values(|m: SpaceMission| m@)
}

impl Clone for SpaceMission {
    fn clone(&self) -> (res: Self)
        ensures
            res@ == self@,
    {
        SpaceMission {
            id: self.id,
            mission_name: self.mission_name.clone(),
            destination: self.destination.clone(),
            launch_date: self.launch_date,
            estimated_arrival_date: self.estimated_arrival_date,
            description: self.description.clone(),
        }
    }
}

impl Default for SpaceMission {
    fn default() -> (res: Self)
        ensures
            res.id == 0,
            res.launch_date == 0,
            res.estimated_arrival_date == 0,
            res.mission_name@.len() == 0,
            res.destination@.len() == 0,
            res.description@.len() == 0,
    {
        SpaceMission {
            id: 0,
            mission_name: String::new(),
            destination: String::new(),
            launch_date: 0,
            estimated_arrival_date: 0,
            description: String::new(),
        }
    }
}

impl Default for SpaceMissionPayload {
    fn default() -> (res: Self)
        ensures
            res.launch_date == 0,
            res.estimated_arrival_date == 0,
            res.mission_name@.len() == 0,
            res.destination@.len() == 0,
            res.description@.len() == 0,
    {
        SpaceMissionPayload {
            mission_name: String::new(),
            destination: String::new(),
            launch_date: 0,
            estimated_arrival_date: 0,
            description: String::new(),
        }
    }
}

impl SpaceMission {
    /// The mission that carries `item`'s fields verbatim under `id`.
    pub fn from_payload(id: u64, item: SpaceMissionPayload) -> (res: Self)
        ensures
            res@ == item@.with_id(id),
    {
        SpaceMission {
            id,
            mission_name: item.mission_name,
            destination: item.destination,
            launch_date: item.launch_date,
            estimated_arrival_date: item.estimated_arrival_date,
            description: item.description,
        }
    }

    /// The new mission that `item` describes when it is created at `now`
    /// under `id`, or nothing where a date would leave the 64-bit range.
    pub fn schedule(id: u64, item: SpaceMissionPayload, now: u64) -> (res: Option<Self>)
        ensures
            res is Some <==> item@.schedulable(now),
            res matches Some(m) ==> m@ == item@.scheduled(id, now),
    {
        let offset = match NANOS_PER_DAY.checked_add(now) {
            Some(offset) => offset,
            None => { return None; },
        };
        let launch_date = match item.launch_date.checked_add(offset) {
            Some(date) => date,
            None => { return None; },
        };
        let estimated_arrival_date = match item.estimated_arrival_date.checked_add(offset) {
            Some(date) => date,
            None => { return None; },
        };
        Some(
            SpaceMission {
                id,
                mission_name: item.mission_name,
                destination: item.destination,
                launch_date,
                estimated_arrival_date,
                description: item.description,
            },
        )
    }
}

} // verus!
