//! A durable store of space missions.
//!
//! Missions live in an ordered table kept in stable memory, keyed by an
//! identifier that a persisted counter issues and never reuses. Every
//! executable function carries a contract that Verus proves; the contracts
//! are written over a mathematical model of the store.
//!
//! - [`mission`]: the mission, the payload that creates or replaces one, and
//!   their views.
//! - [`codec`]: the binary layout of a stored mission, and the proof that
//!   reading is the inverse of writing.
//! - [`stable`] and [`clock`]: what is believed of the stable memory and of
//!   the clock of the host.
//! - [`counter`] and [`table`]: the identifier counter and the record table.
//! - [`model`] and [`order`]: the store as a mathematical value.
//! - [`store`]: the store and its operations.
//! - [`laws`]: what holds of every store.
//! - [`error`]: the error of the operations and its texts.

pub mod clock;
pub mod codec;
pub mod counter;
pub mod error;
pub mod laws;
pub mod mission;
pub mod model;
pub mod order;
pub mod stable;
pub mod store;
pub mod table;

pub use crate::error::Error;
pub use crate::mission::{SpaceMission, SpaceMissionPayload, NANOS_PER_DAY};
pub use crate::stable::Segments;
pub use crate::store::{
    _get_space_mission, add_issued_space_mission, add_space_mission, add_space_mission_at,
    calculate_remaining_days_for_arrival, calculate_remaining_days_for_arrival_at,
    delete_space_mission, do_insert_space_mission, find_closest_space_mission,
    get_all_space_missions, get_space_mission, get_space_missions_before_date,
    get_space_missions_by_destination, get_space_missions_count_before_date,
    get_total_space_missions, update_estimated_arrival_date, update_launch_date,
    update_space_mission, MissionStore,
};
