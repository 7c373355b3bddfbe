use mission_store::codec::{FIXED_PART_SIZE, FORMAT_VERSION, MAX_RECORD_SIZE};
use mission_store::{SpaceMission, SpaceMissionPayload};

fn sample() -> SpaceMission {
    SpaceMission {
        id: 1,
        mission_name: "A".to_string(),
        destination: "B".to_string(),
        launch_date: 2,
        estimated_arrival_date: 3,
        description: "C".to_string(),
    }
}

fn with_description(len: usize) -> SpaceMission {
    SpaceMission {
        id: 7,
        mission_name: String::new(),
        destination: String::new(),
        launch_date: 0,
        estimated_arrival_date: 0,
        description: "x".repeat(len),
    }
}

#[test]
fn record_layout_is_exact() {
    let bytes = sample().to_bytes();
    let expected: Vec<u8> = vec![
        1, // version
        1, 0, 0, 0, 0, 0, 0, 0, // id
        2, 0, 0, 0, 0, 0, 0, 0, // launch date
        3, 0, 0, 0, 0, 0, 0, 0, // estimated arrival date
        1, 0, b'A', // name
        1, 0, b'B', // destination
        1, 0, b'C', // description
    ];
    assert_eq!(bytes, expected);
}

#[test]
fn record_numbers_are_little_endian() {
    let mut m = sample();
    m.id = 0x0102030405060708;
    m.launch_date = u64::MAX;
    m.estimated_arrival_date = 256;
    let bytes = m.to_bytes();
    assert_eq!(bytes[0], FORMAT_VERSION);
    assert_eq!(&bytes[1..9], &[8, 7, 6, 5, 4, 3, 2, 1]);
    assert_eq!(&bytes[9..17], &[255; 8]);
    assert_eq!(&bytes[17..25], &[0, 1, 0, 0, 0, 0, 0, 0]);
}

#[test]
fn record_reads_back_as_the_mission() {
    let m = SpaceMission {
        id: 42,
        mission_name: "Voyager 3".to_string(),
        destination: "Proxima Centauri b".to_string(),
        launch_date: 1_700_000_000_000_000_000,
        estimated_arrival_date: u64::MAX,
        description: "long haul \u{1F680} with \u{00e9}t\u{00e9} stops".to_string(),
    };
    let bytes = m.to_bytes();
    assert_eq!(SpaceMission::decode(&bytes), Some(m.clone()));
    assert_eq!(SpaceMission::from_bytes(&bytes), m);
}

#[test]
fn record_of_empty_texts_reads_back() {
    let m = SpaceMission::default();
    let bytes = m.to_bytes();
    assert_eq!(bytes.len(), FIXED_PART_SIZE + 6);
    assert_eq!(SpaceMission::decode(&bytes), Some(m.clone()));
    assert_eq!(SpaceMission::from_bytes(&bytes), m);
}

#[test]
fn encoding_is_deterministic() {
    assert_eq!(sample().to_bytes(), sample().to_bytes());
}

#[test]
fn bytes_that_read_as_a_mission_are_its_record() {
    let bytes = sample().to_bytes();
    let m = SpaceMission::from_bytes(&bytes);
    assert_eq!(m.to_bytes(), bytes);
}

#[test]
fn text_length_counts_bytes_not_characters() {
    let mut m = sample();
    m.mission_name = "\u{00e9}".to_string();
    let bytes = m.to_bytes();
    assert_eq!(&bytes[25..29], &[2, 0, 0xc3, 0xa9]);
}

#[test]
fn largest_record_fits_and_one_more_byte_does_not() {
    let room = MAX_RECORD_SIZE - FIXED_PART_SIZE - 6;
    let full = with_description(room);
    assert!(full.fits());
    let bytes = full.to_bytes();
    assert_eq!(bytes.len(), MAX_RECORD_SIZE);
    assert_eq!(SpaceMission::decode(&bytes), Some(full.clone()));
    assert_eq!(SpaceMission::from_bytes(&bytes), full);
    assert!(!with_description(room + 1).fits());
}

#[test]
fn size_bound_counts_all_three_texts() {
    let room = MAX_RECORD_SIZE - FIXED_PART_SIZE - 6;
    let m = SpaceMission {
        id: 1,
        mission_name: "n".repeat(400),
        destination: "d".repeat(400),
        launch_date: 0,
        estimated_arrival_date: 0,
        description: "e".repeat(room - 800),
    };
    assert!(m.fits());
    let over = SpaceMission { description: "e".repeat(room - 799), ..m };
    assert!(!over.fits());
}

#[test]
fn payload_fits_as_its_mission_does() {
    let room = MAX_RECORD_SIZE - FIXED_PART_SIZE - 6;
    let fitting = SpaceMissionPayload {
        mission_name: "n".repeat(room),
        destination: String::new(),
        launch_date: u64::MAX,
        estimated_arrival_date: u64::MAX,
        description: String::new(),
    };
    assert!(fitting.fits());
    let over = SpaceMissionPayload { destination: "d".to_string(), ..fitting };
    assert!(!over.fits());
}

#[test]
fn huge_text_does_not_fit() {
    assert!(!with_description(70_000).fits());
}

#[test]
fn empty_bytes_are_no_record() {
    assert_eq!(SpaceMission::decode(&[]), None);
}

#[test]
fn wrong_version_is_no_record() {
    let mut bytes = sample().to_bytes();
    bytes[0] = 2;
    assert_eq!(SpaceMission::decode(&bytes), None);
    bytes[0] = 0;
    assert_eq!(SpaceMission::decode(&bytes), None);
}

#[test]
fn cut_record_is_no_record() {
    let bytes = sample().to_bytes();
    for len in 0..bytes.len() {
        assert_eq!(SpaceMission::decode(&bytes[..len]), None);
    }
}

#[test]
fn trailing_byte_is_no_record() {
    let mut bytes = sample().to_bytes();
    bytes.push(0);
    assert_eq!(SpaceMission::decode(&bytes), None);
}

#[test]
fn text_that_is_not_utf8_is_no_record() {
    let mut bytes = sample().to_bytes();
    bytes[27] = 0xff;
    assert_eq!(SpaceMission::decode(&bytes), None);
}

#[test]
fn text_length_past_the_end_is_no_record() {
    let mut bytes = sample().to_bytes();
    let last_len = bytes.len() - 3;
    bytes[last_len] = 2;
    assert_eq!(SpaceMission::decode(&bytes), None);
}

#[test]
fn record_over_the_size_bound_is_no_record() {
    let mut bytes = vec![FORMAT_VERSION];
    bytes.extend_from_slice(&[0; 24]);
    bytes.extend_from_slice(&[0, 0, 0, 0]);
    let len: u16 = 1000;
    bytes.extend_from_slice(&len.to_le_bytes());
    bytes.extend_from_slice(&[b'x'; 1000]);
    assert_eq!(bytes.len(), 1031);
    assert_eq!(SpaceMission::decode(&bytes), None);
}
