use mission_store::{
    add_space_mission_at, delete_space_mission, find_closest_space_mission,
    get_all_space_missions, get_space_mission, get_space_missions_before_date,
    get_space_missions_by_destination, get_space_missions_count_before_date,
    get_total_space_missions, update_estimated_arrival_date, update_launch_date,
    update_space_mission, MissionStore, Segments, SpaceMission, SpaceMissionPayload,
    NANOS_PER_DAY,
};
use std::collections::BTreeMap;

fn next(seed: &mut u64) -> u64 {
    *seed = seed.wrapping_mul(6364136223846793005).wrapping_add(1442695040888963407);
    *seed >> 33
}

fn item(seed: &mut u64) -> SpaceMissionPayload {
    let destinations = ["Moon", "Mars", "Venus", "Europa"];
    SpaceMissionPayload {
        mission_name: format!("mission {}", next(seed) % 1000),
        destination: destinations[(next(seed) % 4) as usize].to_string(),
        launch_date: next(seed) % 100,
        estimated_arrival_date: next(seed) % 100,
        description: "d".repeat((next(seed) % 300) as usize),
    }
}

fn check(store: &MissionStore, model: &BTreeMap<u64, SpaceMission>, seed: &mut u64) {
    let all: Vec<SpaceMission> = model.values().cloned().collect();
    assert_eq!(get_all_space_missions(store), all);
    assert_eq!(get_total_space_missions(store), all.len() as u64);
    let date = next(seed) % 120;
    let before: Vec<SpaceMission> =
        all.iter().filter(|m| m.estimated_arrival_date <= date).cloned().collect();
    assert_eq!(get_space_missions_before_date(store, date), before);
    assert_eq!(get_space_missions_count_before_date(store, date), before.len());
    let to_mars: Vec<SpaceMission> =
        all.iter().filter(|m| m.destination == "Mars").cloned().collect();
    assert_eq!(get_space_missions_by_destination(store, "Mars".to_string()), to_mars);
    let mut nearest: Option<&SpaceMission> = None;
    for m in all.iter().filter(|m| m.estimated_arrival_date >= date) {
        if nearest.map_or(true, |best| m.estimated_arrival_date < best.estimated_arrival_date) {
            nearest = Some(m);
        }
    }
    assert_eq!(find_closest_space_mission(store, date), nearest.cloned());
}

#[test]
fn store_behaves_as_an_ordered_map_under_mixed_operations() {
    let mut seed: u64 = 20240229;
    let mut store = MissionStore::init(Segments::open()).unwrap();
    let mut model: BTreeMap<u64, SpaceMission> = BTreeMap::new();
    let mut last_id = 0;
    for round in 0..1500 {
        let id = next(&mut seed) % (last_id + 2);
        match next(&mut seed) % 6 {
            0 | 1 => {
                let now = next(&mut seed) % 50;
                let payload = item(&mut seed);
                let expected = SpaceMission {
                    id: last_id + 1,
                    mission_name: payload.mission_name.clone(),
                    destination: payload.destination.clone(),
                    launch_date: payload.launch_date + NANOS_PER_DAY + now,
                    estimated_arrival_date: payload.estimated_arrival_date + NANOS_PER_DAY + now,
                    description: payload.description.clone(),
                };
                let created = add_space_mission_at(&mut store, payload, now).unwrap();
                assert_eq!(created, expected);
                last_id += 1;
                model.insert(created.id, created);
            }
            2 => {
                let removed = delete_space_mission(&mut store, id).ok();
                assert_eq!(removed, model.remove(&id));
            }
            3 => {
                let payload = item(&mut seed);
                let expected = model.get(&id).map(|_| SpaceMission {
                    id,
                    mission_name: payload.mission_name.clone(),
                    destination: payload.destination.clone(),
                    launch_date: payload.launch_date,
                    estimated_arrival_date: payload.estimated_arrival_date,
                    description: payload.description.clone(),
                });
                let updated = update_space_mission(&mut store, id, payload).ok();
                assert_eq!(updated, expected);
                if let Some(m) = expected {
                    model.insert(id, m);
                }
            }
            4 => {
                let date = next(&mut seed) % 100;
                let updated = update_estimated_arrival_date(&mut store, id, date).ok();
                if let Some(m) = model.get_mut(&id) {
                    m.estimated_arrival_date = date;
                }
                assert_eq!(updated, model.get(&id).cloned());
            }
            _ => {
                let date = next(&mut seed) % 100;
                let updated = update_launch_date(&mut store, id, date).ok();
                if let Some(m) = model.get_mut(&id) {
                    m.launch_date = date;
                }
                assert_eq!(updated, model.get(&id).cloned());
            }
        }
        assert_eq!(store.last_id(), last_id);
        assert_eq!(get_space_mission(&store, id).ok(), model.get(&id).cloned());
        if round % 25 == 0 {
            check(&store, &model, &mut seed);
        }
    }
    check(&store, &model, &mut seed);
    let segments = store.close();
    let store = MissionStore::init(segments).unwrap();
    assert_eq!(store.last_id(), last_id);
    check(&store, &model, &mut seed);
}
