use legal_records::advisor::{LegalAdvisor, Rating};
use legal_records::consultation::LegalConsultation;
use legal_records::error::{corrupt, describe, not_found, size_exceeded, Error};
use legal_records::feedback::Feedback;
use legal_records::ordering::sort_by_rank;
use legal_records::search::select_matching;
use legal_records::outcome::{delete_existing, read_existing, write_record};
use legal_records::storage::Storage;

fn consultation(id: u64, details: &str, created_at: u64) -> LegalConsultation {
    LegalConsultation {
        id,
        advisor_id: 1,
        details: details.to_string(),
        created_at,
        closed_at: None,
        is_completed: false,
    }
}

#[test]
fn a_store_holds_what_is_put_under_each_key() {
    let mut storage = Storage::open().unwrap();
    let store = &mut storage.consultations;
    assert!(!store.contains(10));
    store.insert(10, &consultation(1, "under ten", 0)).unwrap();
    store.insert(20, &consultation(2, "under twenty", 0)).unwrap();
    assert!(store.contains(10));
    assert_eq!(store.get(10).unwrap(), Some(consultation(1, "under ten", 0)));
    assert_eq!(store.get(20).unwrap(), Some(consultation(2, "under twenty", 0)));
    assert_eq!(store.get(1).unwrap(), None);
}

#[test]
fn a_store_overwrites_and_deletes() {
    let mut storage = Storage::open().unwrap();
    let store = &mut storage.consultations;
    store.insert(10, &consultation(1, "first", 0)).unwrap();
    store.insert(10, &consultation(1, "second", 0)).unwrap();
    assert_eq!(store.get(10).unwrap(), Some(consultation(1, "second", 0)));
    assert!(store.delete(10));
    assert_eq!(store.get(10).unwrap(), None);
    assert!(!store.delete(10));
    assert!(!store.contains(10));
}

#[test]
fn a_store_is_iterated_by_ascending_key() {
    let mut storage = Storage::open().unwrap();
    let store = &mut storage.consultations;
    for key in [5u64, 1, 3, u64::MAX, 0, 4, 2] {
        store.insert(key, &consultation(100 - (key % 10), "x", 0)).unwrap();
    }
    let keys: Vec<u64> = store.iterate().unwrap().iter().map(|entry| entry.0).collect();
    assert_eq!(keys, vec![0, 1, 2, 3, 4, 5, u64::MAX]);
    let ids: Vec<u64> = store.list().unwrap().iter().map(|c| c.id).collect();
    assert_eq!(ids, vec![100, 99, 98, 97, 96, 95, 95]);
    // a second pass starts from the lowest key again
    assert_eq!(store.iterate().unwrap().len(), 7);
    assert_eq!(store.iterate().unwrap()[0].0, 0);
}

#[test]
fn a_store_with_many_records() {
    let mut storage = Storage::open().unwrap();
    let store = &mut storage.consultations;
    for key in (0..300u64).rev() {
        store.insert(key * 7 % 300, &consultation(key, "x", key)).unwrap();
    }
    for key in (0..300u64).step_by(2) {
        assert!(store.delete(key));
    }
    let keys: Vec<u64> = store.iterate().unwrap().iter().map(|entry| entry.0).collect();
    assert_eq!(keys, (0..300u64).filter(|k| k % 2 == 1).collect::<Vec<u64>>());
}

#[test]
fn a_store_refuses_a_record_that_is_too_large() {
    let mut storage = Storage::open().unwrap();
    let store = &mut storage.consultations;
    store.insert(10, &consultation(1, "fits", 0)).unwrap();
    match store.insert(10, &consultation(1, &"x".repeat(2000), 0)) {
        Err(Error::SizeExceeded { msg }) => {
            assert_eq!(msg, "Legal consultation with id=10 is too large to store")
        }
        other => panic!("expected SizeExceeded, got {:?}", other),
    }
    assert_eq!(store.get(10).unwrap(), Some(consultation(1, "fits", 0)));
}

#[test]
fn reading_and_deleting_what_is_expected_to_be_there() {
    let mut storage = Storage::open().unwrap();
    storage.consultations.insert(10, &consultation(1, "x", 0)).unwrap();
    assert_eq!(read_existing(&storage.consultations, 10).unwrap(), consultation(1, "x", 0));
    delete_existing(&mut storage.consultations, 10).unwrap();
    match read_existing(&storage.consultations, 10) {
        Err(Error::NotFound { msg }) => {
            assert_eq!(msg, "Legal consultation with id=10 not found")
        }
        other => panic!("expected NotFound, got {:?}", other),
    }
    match delete_existing(&mut storage.advisors, 10) {
        Err(Error::NotFound { msg }) => assert_eq!(msg, "Legal advisor with id=10 not found"),
        other => panic!("expected NotFound, got {:?}", other),
    }
}

#[test]
fn a_record_is_written_under_its_own_key() {
    let mut storage = Storage::open().unwrap();
    write_record(&mut storage.consultations, &consultation(31, "x", 0)).unwrap();
    assert_eq!(storage.consultations.get(31).unwrap(), Some(consultation(31, "x", 0)));
    assert_eq!(storage.consultations.iterate().unwrap().len(), 1);
}

#[test]
fn sorting_keeps_items_of_one_rank_in_place() {
    let items = vec![
        consultation(1, "c", 3),
        consultation(2, "a", 1),
        consultation(3, "c again", 3),
        consultation(4, "b", 2),
        consultation(5, "a again", 1),
        consultation(6, "max", u64::MAX),
        consultation(7, "zero", 0),
    ];
    let ids: Vec<u64> = sort_by_rank(items).iter().map(|c| c.id).collect();
    assert_eq!(ids, vec![7, 2, 5, 4, 1, 3, 6]);
}

#[test]
fn sorting_what_is_sorted_changes_nothing() {
    let items: Vec<LegalConsultation> = (0..50).map(|i| consultation(i, "x", i / 3)).collect();
    assert_eq!(sort_by_rank(items.clone()), items);
    let reversed: Vec<LegalConsultation> =
        (0..50).rev().map(|i| consultation(i, "x", 7)).collect();
    assert_eq!(sort_by_rank(reversed.clone()), reversed);
    assert_eq!(sort_by_rank(Vec::<LegalConsultation>::new()), vec![]);
}

#[test]
fn selecting_keeps_the_order_of_what_matches() {
    let items = vec![
        consultation(1, "tax audit", 0),
        consultation(2, "audit", 0),
        consultation(3, "Audit", 0),
        consultation(4, "aud it", 0),
        consultation(5, "pre-audit advice", 0),
        consultation(6, "", 0),
    ];
    let ids: Vec<u64> = select_matching(items.clone(), "audit").iter().map(|c| c.id).collect();
    assert_eq!(ids, vec![1, 2, 5]);
    assert_eq!(select_matching(items.clone(), "").len(), 6);
    assert_eq!(select_matching(items, "audits"), vec![]);
}

#[test]
fn messages_name_the_record_and_its_key() {
    assert_eq!(describe("Feedback", 0, " not found"), "Feedback with id=0 not found");
    assert_eq!(describe("Feedback", 9, "!"), "Feedback with id=9!");
    assert_eq!(describe("x", 10, ""), "x with id=10");
    assert_eq!(describe("", 1234567890, ""), " with id=1234567890");
    assert_eq!(describe("x", u64::MAX, ""), "x with id=18446744073709551615");
    assert_eq!(not_found("Legal advisor", 3).to_text(), "Legal advisor with id=3 not found");
    assert_eq!(size_exceeded("Feedback", 4).to_text(), "Feedback with id=4 is too large to store");
    assert_eq!(corrupt("Feedback", 5).to_text(), "Feedback with id=5 cannot be decoded");
    assert!(matches!(not_found("x", 1), Error::NotFound { .. }));
    assert!(matches!(size_exceeded("x", 1), Error::SizeExceeded { .. }));
    assert!(matches!(corrupt("x", 1), Error::CorruptRecord { .. }));
}

#[test]
fn records_by_default() {
    assert_eq!(
        LegalConsultation::default(),
        LegalConsultation {
            id: 0,
            advisor_id: 0,
            details: String::new(),
            created_at: 0,
            closed_at: None,
            is_completed: false,
        }
    );
    assert_eq!(Rating::default().to_bits(), 0.0f32.to_bits());
    assert_eq!(
        LegalAdvisor::default(),
        LegalAdvisor {
            id: 0,
            name: String::new(),
            credentials: String::new(),
            rating: Rating::from_bits(0),
        }
    );
    assert_eq!(
        Feedback::default(),
        Feedback { client_id: 0, advisor_id: 0, rating: 0, comments: String::new() }
    );
}
