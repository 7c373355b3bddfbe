use ic_stable_structures::cell::{InitError, ValueError};
use mission_store::counter::IdCounter;

#[test]
fn write_that_the_medium_took_issues_the_identifier() {
    assert_eq!(IdCounter::issued(5, Ok(4)), Some(5));
    assert_eq!(IdCounter::issued(1, Ok(0)), Some(1));
    assert_eq!(IdCounter::issued(u64::MAX, Ok(7)), Some(u64::MAX));
}

#[test]
fn write_that_the_medium_refused_issues_nothing() {
    assert_eq!(IdCounter::issued(5, Err(ValueError::ValueTooLarge { value_size: 8 })), None);
}

#[test]
fn no_counter_where_the_medium_gave_no_cell() {
    assert!(IdCounter::opened(Err(InitError::ValueTooLarge { value_size: 8 })).is_none());
    let unknown = InitError::IncompatibleVersion { last_supported_version: 1, decoded_version: 2 };
    assert!(IdCounter::opened(Err(unknown)).is_none());
}
