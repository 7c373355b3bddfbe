use mission_store::error::{decimal_text, not_found};
use mission_store::{Error, SpaceMission, SpaceMissionPayload};

#[test]
fn decimal_text_of_small_and_large_numbers() {
    assert_eq!(decimal_text(0), "0");
    assert_eq!(decimal_text(7), "7");
    assert_eq!(decimal_text(9), "9");
    assert_eq!(decimal_text(10), "10");
    assert_eq!(decimal_text(999), "999");
    assert_eq!(decimal_text(1_000_000), "1000000");
    assert_eq!(decimal_text(1234567890), "1234567890");
    assert_eq!(decimal_text(u64::MAX), "18446744073709551615");
}

#[test]
fn decimal_text_is_what_std_prints() {
    for n in [0u64, 1, 9, 10, 11, 99, 100, 101, 4096, 65535, 1 << 40, u64::MAX - 1] {
        assert_eq!(decimal_text(n), n.to_string());
    }
}

#[test]
fn not_found_names_the_identifier_between_the_parts() {
    let e = not_found("before ", 42, " after");
    assert_eq!(e, Error::NotFound { msg: "before 42 after".to_string() });
    assert_eq!(e.to_text(), "before 42 after");
}

#[test]
fn mission_from_payload_keeps_the_fields() {
    let item = SpaceMissionPayload {
        mission_name: "Ares".to_string(),
        destination: "Mars".to_string(),
        launch_date: 3,
        estimated_arrival_date: 4,
        description: "first".to_string(),
    };
    let m = SpaceMission::from_payload(9, item);
    assert_eq!(
        m,
        SpaceMission {
            id: 9,
            mission_name: "Ares".to_string(),
            destination: "Mars".to_string(),
            launch_date: 3,
            estimated_arrival_date: 4,
            description: "first".to_string(),
        }
    );
}

#[test]
fn schedule_moves_the_dates_or_gives_nothing() {
    let item = SpaceMissionPayload {
        mission_name: "Ares".to_string(),
        destination: "Mars".to_string(),
        launch_date: 3,
        estimated_arrival_date: 4,
        description: "first".to_string(),
    };
    let m = SpaceMission::schedule(2, item, 1000).unwrap();
    assert_eq!(m.id, 2);
    assert_eq!(m.launch_date, 86_400_000_000_003 + 1000);
    assert_eq!(m.estimated_arrival_date, 86_400_000_000_004 + 1000);
    let late = SpaceMissionPayload {
        mission_name: String::new(),
        destination: String::new(),
        launch_date: 0,
        estimated_arrival_date: u64::MAX - 86_400_000_000_000,
        description: String::new(),
    };
    assert_eq!(SpaceMission::schedule(1, late, 1), None);
}

#[test]
fn default_mission_is_blank() {
    let m = SpaceMission::default();
    assert_eq!(
        m,
        SpaceMission {
            id: 0,
            mission_name: String::new(),
            destination: String::new(),
            launch_date: 0,
            estimated_arrival_date: 0,
            description: String::new(),
        }
    );
    let item = SpaceMissionPayload::default();
    assert_eq!(SpaceMission::from_payload(0, item), m);
}

#[test]
fn clone_of_a_mission_is_equal() {
    let m = SpaceMission {
        id: 9,
        mission_name: "Ares".to_string(),
        destination: "Mars".to_string(),
        launch_date: 3,
        estimated_arrival_date: 4,
        description: "first".to_string(),
    };
    assert_eq!(m.clone(), m);
}
