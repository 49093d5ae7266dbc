use ic_stable_structures::cell::ValueError;
use legal_records::advisor::Rating;
use legal_records::counter::{advance, handed_out, increment_failure};
use legal_records::error::Error;
use legal_records::region::RegionId;
use legal_records::service::{add_legal_advisor, initiate_legal_consultation, provide_feedback};
use legal_records::storage::Storage;

#[test]
fn the_id_after_a_number_is_one_more() {
    assert_eq!(advance(0), Some(1));
    assert_eq!(advance(41), Some(42));
    assert_eq!(advance(u64::MAX - 1), Some(u64::MAX));
}

#[test]
fn no_id_follows_the_highest_number() {
    assert_eq!(advance(u64::MAX), None);
}

#[test]
fn an_id_that_was_written_is_handed_out() {
    assert_eq!(handed_out(5, Ok(4)).unwrap(), 5);
}

#[test]
fn an_id_that_was_not_written_is_not_handed_out() {
    match handed_out(5, Err(ValueError::ValueTooLarge { value_size: 8 })) {
        Err(Error::CounterFailure { msg }) => assert_eq!(msg, "Cannot increment id counter"),
        other => panic!("expected CounterFailure, got {:?}", other),
    }
}

#[test]
fn increment_failure_message() {
    assert_eq!(increment_failure().to_text(), "Cannot increment id counter");
}

#[test]
fn a_new_counter_is_at_zero() {
    let storage = Storage::open().unwrap();
    assert_eq!(storage.counter.current(), 0);
}

#[test]
fn ids_grow_by_one_and_never_repeat() {
    let mut storage = Storage::open().unwrap();
    let mut seen: Vec<u64> = Vec::new();
    for expected in 1..=200u64 {
        let id = storage.counter.next_id().unwrap();
        assert_eq!(id, expected);
        assert_eq!(storage.counter.current(), expected);
        assert!(seen.iter().all(|earlier| *earlier < id));
        seen.push(id);
    }
}

#[test]
fn one_counter_serves_every_kind_of_record() {
    let mut storage = Storage::open().unwrap();
    let consultation =
        initiate_legal_consultation(&mut storage, 1, "first".to_string(), 0).unwrap();
    let advisor = add_legal_advisor(
        &mut storage,
        "A".to_string(),
        "JD".to_string(),
        Rating::from_bits(1.0f32.to_bits()),
    )
    .unwrap();
    provide_feedback(&mut storage, 99, advisor.id, 5, "fine".to_string()).unwrap();
    let next = initiate_legal_consultation(&mut storage, 1, "second".to_string(), 0).unwrap();
    assert_eq!(consultation.id, 1);
    assert_eq!(advisor.id, 2);
    assert_eq!(next.id, 3);
    assert_eq!(storage.counter.current(), 3);
}

#[test]
fn regions_have_fixed_numbers() {
    assert_eq!(RegionId::Counter.to_number(), 0);
    assert_eq!(RegionId::Consultations.to_number(), 1);
    assert_eq!(RegionId::Advisors.to_number(), 2);
    assert_eq!(RegionId::Feedback.to_number(), 3);
}
