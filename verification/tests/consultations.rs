use legal_records::consultation::LegalConsultation;
use legal_records::error::Error;
use legal_records::service::{
    _get_legal_consultation, close_legal_consultation, delete_legal_consultation,
    do_insert_legal_consultation, get_legal_consultation, initiate_legal_consultation,
    list_all_legal_consultations, list_paginated_legal_consultations,
    mark_consultation_as_completed, search_legal_consultations, sort_legal_consultations_by_date,
    update_legal_consultation,
};
use legal_records::storage::Storage;

fn consultation(id: u64, details: &str, created_at: u64) -> LegalConsultation {
    LegalConsultation {
        id,
        advisor_id: 7,
        details: details.to_string(),
        created_at,
        closed_at: None,
        is_completed: false,
    }
}

fn not_found_message(result: Result<LegalConsultation, Error>) -> String {
    match result {
        Err(Error::NotFound { msg }) => msg,
        other => panic!("expected NotFound, got {:?}", other),
    }
}

#[test]
fn consultation_lifecycle() {
    let mut storage = Storage::open().unwrap();
    let created =
        initiate_legal_consultation(&mut storage, 7, "breach of contract".to_string(), 1_000)
            .unwrap();
    assert_eq!(
        created,
        LegalConsultation {
            id: 1,
            advisor_id: 7,
            details: "breach of contract".to_string(),
            created_at: 1_000,
            closed_at: None,
            is_completed: false,
        }
    );
    assert_eq!(get_legal_consultation(&storage, 1).unwrap(), created);

    mark_consultation_as_completed(&mut storage, 1).unwrap();
    let completed = get_legal_consultation(&storage, 1).unwrap();
    assert_eq!(completed, LegalConsultation { is_completed: true, ..created.clone() });

    delete_legal_consultation(&mut storage, 1).unwrap();
    assert_eq!(
        not_found_message(get_legal_consultation(&storage, 1)),
        "Legal consultation with id=1 not found"
    );
}

#[test]
fn ids_are_handed_out_in_order() {
    let mut storage = Storage::open().unwrap();
    let a = initiate_legal_consultation(&mut storage, 1, "a".to_string(), 10).unwrap();
    let b = initiate_legal_consultation(&mut storage, 1, "b".to_string(), 20).unwrap();
    let c = initiate_legal_consultation(&mut storage, 1, "c".to_string(), 30).unwrap();
    assert_eq!((a.id, b.id, c.id), (1, 2, 3));
    assert_eq!(storage.counter.current(), 3);
}

#[test]
fn listing_is_by_ascending_key_whatever_the_insertion_order() {
    let mut storage = Storage::open().unwrap();
    for id in [5u64, 1, 3] {
        do_insert_legal_consultation(&mut storage, &consultation(id, "x", 0)).unwrap();
    }
    let ids: Vec<u64> =
        list_all_legal_consultations(&storage).unwrap().iter().map(|c| c.id).collect();
    assert_eq!(ids, vec![1, 3, 5]);

    let first = list_all_legal_consultations(&storage).unwrap();
    for id in [1u64, 3, 5] {
        delete_legal_consultation(&mut storage, id).unwrap();
    }
    assert_eq!(list_all_legal_consultations(&storage).unwrap(), vec![]);
    for id in [3u64, 5, 1] {
        do_insert_legal_consultation(&mut storage, &consultation(id, "x", 0)).unwrap();
    }
    assert_eq!(list_all_legal_consultations(&storage).unwrap(), first);
}

#[test]
fn reading_a_consultation_that_is_not_stored() {
    let storage = Storage::open().unwrap();
    assert_eq!(_get_legal_consultation(&storage, &1).unwrap(), None);
    assert_eq!(
        not_found_message(get_legal_consultation(&storage, 0)),
        "Legal consultation with id=0 not found"
    );
    assert_eq!(
        not_found_message(get_legal_consultation(&storage, u64::MAX)),
        "Legal consultation with id=18446744073709551615 not found"
    );
}

#[test]
fn what_is_inserted_is_read_back() {
    let mut storage = Storage::open().unwrap();
    let stored = LegalConsultation {
        closed_at: Some(99),
        is_completed: true,
        ..consultation(17, "unpaid wages", 5)
    };
    do_insert_legal_consultation(&mut storage, &stored).unwrap();
    assert_eq!(get_legal_consultation(&storage, 17).unwrap(), stored);
    assert_eq!(_get_legal_consultation(&storage, &17).unwrap(), Some(stored));
    assert_eq!(storage.counter.current(), 0);
}

#[test]
fn inserting_under_a_stored_id_overwrites() {
    let mut storage = Storage::open().unwrap();
    do_insert_legal_consultation(&mut storage, &consultation(2, "old", 1)).unwrap();
    do_insert_legal_consultation(&mut storage, &consultation(2, "new", 2)).unwrap();
    assert_eq!(list_all_legal_consultations(&storage).unwrap(), vec![consultation(2, "new", 2)]);
}

#[test]
fn deleting_twice_finds_nothing_the_second_time() {
    let mut storage = Storage::open().unwrap();
    do_insert_legal_consultation(&mut storage, &consultation(4, "x", 0)).unwrap();
    do_insert_legal_consultation(&mut storage, &consultation(5, "y", 0)).unwrap();
    delete_legal_consultation(&mut storage, 4).unwrap();
    assert_eq!(_get_legal_consultation(&storage, &4).unwrap(), None);
    match delete_legal_consultation(&mut storage, 4) {
        Err(Error::NotFound { msg }) => {
            assert_eq!(msg, "Legal consultation with id=4 not found")
        }
        other => panic!("expected NotFound, got {:?}", other),
    }
    assert_eq!(list_all_legal_consultations(&storage).unwrap(), vec![consultation(5, "y", 0)]);
}

#[test]
fn updating_the_details_leaves_the_other_fields() {
    let mut storage = Storage::open().unwrap();
    let created = initiate_legal_consultation(&mut storage, 7, "draft".to_string(), 50).unwrap();
    update_legal_consultation(&mut storage, created.id, None, Some("final".to_string()), None)
        .unwrap();
    assert_eq!(
        get_legal_consultation(&storage, created.id).unwrap(),
        LegalConsultation { details: "final".to_string(), ..created }
    );
}

#[test]
fn updating_each_field_alone_and_all_together() {
    let mut storage = Storage::open().unwrap();
    let created = initiate_legal_consultation(&mut storage, 7, "draft".to_string(), 50).unwrap();
    let id = created.id;

    update_legal_consultation(&mut storage, id, Some(8), None, None).unwrap();
    let after = get_legal_consultation(&storage, id).unwrap();
    assert_eq!(after, LegalConsultation { advisor_id: 8, ..created.clone() });

    update_legal_consultation(&mut storage, id, None, None, Some(true)).unwrap();
    let after = get_legal_consultation(&storage, id).unwrap();
    assert_eq!(after, LegalConsultation { advisor_id: 8, is_completed: true, ..created.clone() });

    update_legal_consultation(&mut storage, id, None, None, None).unwrap();
    assert_eq!(get_legal_consultation(&storage, id).unwrap(), after);

    update_legal_consultation(&mut storage, id, Some(9), Some("done".to_string()), Some(false))
        .unwrap();
    assert_eq!(
        get_legal_consultation(&storage, id).unwrap(),
        LegalConsultation { advisor_id: 9, details: "done".to_string(), ..created }
    );
}

#[test]
fn changing_a_consultation_that_is_not_stored() {
    let mut storage = Storage::open().unwrap();
    let expected = "Legal consultation with id=3 not found";
    for result in [
        update_legal_consultation(&mut storage, 3, Some(1), None, None),
        mark_consultation_as_completed(&mut storage, 3),
        close_legal_consultation(&mut storage, 3, 10),
        delete_legal_consultation(&mut storage, 3),
    ] {
        match result {
            Err(Error::NotFound { msg }) => assert_eq!(msg, expected),
            other => panic!("expected NotFound, got {:?}", other),
        }
    }
    assert_eq!(list_all_legal_consultations(&storage).unwrap(), vec![]);
}

#[test]
fn completing_twice_is_completing_once() {
    let mut storage = Storage::open().unwrap();
    let created = initiate_legal_consultation(&mut storage, 7, "x".to_string(), 50).unwrap();
    mark_consultation_as_completed(&mut storage, created.id).unwrap();
    let once = get_legal_consultation(&storage, created.id).unwrap();
    mark_consultation_as_completed(&mut storage, created.id).unwrap();
    assert_eq!(get_legal_consultation(&storage, created.id).unwrap(), once);
    assert!(once.is_completed);
}

#[test]
fn closing_sets_the_time_whatever_it_was() {
    let mut storage = Storage::open().unwrap();
    let created = initiate_legal_consultation(&mut storage, 7, "x".to_string(), 50).unwrap();
    close_legal_consultation(&mut storage, created.id, 60).unwrap();
    assert_eq!(
        get_legal_consultation(&storage, created.id).unwrap(),
        LegalConsultation { closed_at: Some(60), ..created.clone() }
    );
    close_legal_consultation(&mut storage, created.id, 40).unwrap();
    assert_eq!(
        get_legal_consultation(&storage, created.id).unwrap(),
        LegalConsultation { closed_at: Some(40), ..created }
    );
}

#[test]
fn a_consultation_that_is_too_large_is_not_opened() {
    let mut storage = Storage::open().unwrap();
    initiate_legal_consultation(&mut storage, 7, "fits".to_string(), 1).unwrap();
    match initiate_legal_consultation(&mut storage, 7, "x".repeat(990), 2) {
        Err(Error::SizeExceeded { msg }) => {
            assert_eq!(msg, "Legal consultation with id=2 is too large to store")
        }
        other => panic!("expected SizeExceeded, got {:?}", other),
    }
    assert_eq!(storage.counter.current(), 1);
    assert_eq!(list_all_legal_consultations(&storage).unwrap().len(), 1);
    let next = initiate_legal_consultation(&mut storage, 7, "x".repeat(989), 3).unwrap();
    assert_eq!(next.id, 2);
    assert_eq!(get_legal_consultation(&storage, 2).unwrap(), next);
}

#[test]
fn an_update_that_makes_a_consultation_too_large_changes_nothing() {
    let mut storage = Storage::open().unwrap();
    let created = initiate_legal_consultation(&mut storage, 7, "x".repeat(989), 1).unwrap();
    match close_legal_consultation(&mut storage, created.id, 5) {
        Err(Error::SizeExceeded { msg }) => {
            assert_eq!(msg, "Legal consultation with id=1 is too large to store")
        }
        other => panic!("expected SizeExceeded, got {:?}", other),
    }
    match update_legal_consultation(&mut storage, created.id, None, Some("y".repeat(990)), None) {
        Err(Error::SizeExceeded { .. }) => {}
        other => panic!("expected SizeExceeded, got {:?}", other),
    }
    assert_eq!(get_legal_consultation(&storage, created.id).unwrap(), created);
}

#[test]
fn the_largest_consultation_can_be_completed() {
    let mut storage = Storage::open().unwrap();
    let created = initiate_legal_consultation(&mut storage, 7, "x".repeat(989), 1).unwrap();
    mark_consultation_as_completed(&mut storage, created.id).unwrap();
    mark_consultation_as_completed(&mut storage, created.id).unwrap();
    update_legal_consultation(&mut storage, created.id, None, None, None).unwrap();
    assert_eq!(
        get_legal_consultation(&storage, created.id).unwrap(),
        LegalConsultation { is_completed: true, ..created }
    );
}

#[test]
fn records_are_read_under_their_own_id() {
    let mut storage = Storage::open().unwrap();
    for details in ["a", "b", "c"] {
        initiate_legal_consultation(&mut storage, 1, details.to_string(), 0).unwrap();
    }
    update_legal_consultation(&mut storage, 2, Some(9), None, None).unwrap();
    close_legal_consultation(&mut storage, 3, 5).unwrap();
    delete_legal_consultation(&mut storage, 1).unwrap();
    for id in [2u64, 3] {
        assert_eq!(get_legal_consultation(&storage, id).unwrap().id, id);
    }
    let ids: Vec<u64> =
        list_all_legal_consultations(&storage).unwrap().iter().map(|c| c.id).collect();
    assert_eq!(ids, vec![2, 3]);
}

#[test]
fn consultations_are_searched_by_details() {
    let mut storage = Storage::open().unwrap();
    for details in ["breach of contract", "Contract dispute", "custody", "subcontractor"] {
        initiate_legal_consultation(&mut storage, 1, details.to_string(), 0).unwrap();
    }
    let found: Vec<String> = search_legal_consultations(&storage, "contract".to_string())
        .unwrap()
        .into_iter()
        .map(|c| c.details)
        .collect();
    assert_eq!(found, vec!["breach of contract", "subcontractor"]);
    assert_eq!(search_legal_consultations(&storage, "c.*t".to_string()).unwrap(), vec![]);
    assert_eq!(search_legal_consultations(&storage, String::new()).unwrap().len(), 4);
    assert_eq!(
        search_legal_consultations(&storage, "custody".to_string()).unwrap().len(),
        1
    );
    assert_eq!(search_legal_consultations(&storage, "custody ".to_string()).unwrap(), vec![]);
}

#[test]
fn search_matches_whole_characters() {
    let mut storage = Storage::open().unwrap();
    initiate_legal_consultation(&mut storage, 1, "naïf café".to_string(), 0).unwrap();
    assert_eq!(search_legal_consultations(&storage, "ï".to_string()).unwrap().len(), 1);
    assert_eq!(search_legal_consultations(&storage, "é".to_string()).unwrap().len(), 1);
    assert_eq!(search_legal_consultations(&storage, "e".to_string()).unwrap().len(), 0);
    assert_eq!(search_legal_consultations(&storage, "i".to_string()).unwrap().len(), 0);
}

#[test]
fn consultations_are_sorted_by_the_time_they_were_opened() {
    let mut storage = Storage::open().unwrap();
    for (id, created_at) in [(1u64, 30u64), (2, 10), (3, 20), (4, 10), (5, 0), (6, 10)] {
        do_insert_legal_consultation(&mut storage, &consultation(id, "x", created_at)).unwrap();
    }
    let ids: Vec<u64> =
        sort_legal_consultations_by_date(&storage).unwrap().iter().map(|c| c.id).collect();
    assert_eq!(ids, vec![5, 2, 4, 6, 3, 1]);
}

#[test]
fn sorting_nothing_gives_nothing() {
    let storage = Storage::open().unwrap();
    assert_eq!(sort_legal_consultations_by_date(&storage).unwrap(), vec![]);
    assert_eq!(list_all_legal_consultations(&storage).unwrap(), vec![]);
    assert_eq!(list_paginated_legal_consultations(&storage, 0, 10).unwrap(), vec![]);
}

#[test]
fn pages_of_consultations() {
    let mut storage = Storage::open().unwrap();
    for _ in 0..5 {
        initiate_legal_consultation(&mut storage, 1, "x".to_string(), 0).unwrap();
    }
    let page = |storage: &Storage, page: usize, size: usize| -> Vec<u64> {
        list_paginated_legal_consultations(storage, page, size)
            .unwrap()
            .iter()
            .map(|c| c.id)
            .collect()
    };
    assert_eq!(page(&storage, 0, 2), vec![1, 2]);
    assert_eq!(page(&storage, 1, 2), vec![3, 4]);
    assert_eq!(page(&storage, 2, 2), vec![5]);
    assert_eq!(page(&storage, 3, 2), Vec::<u64>::new());
    assert_eq!(page(&storage, 0, 0), Vec::<u64>::new());
    assert_eq!(page(&storage, 0, 100), vec![1, 2, 3, 4, 5]);
    assert_eq!(page(&storage, usize::MAX, 2), Vec::<u64>::new());
}

#[test]
fn the_stores_do_not_see_each_other() {
    let mut storage = Storage::open().unwrap();
    do_insert_legal_consultation(&mut storage, &consultation(1, "x", 0)).unwrap();
    assert_eq!(legal_records::service::_get_legal_advisor(&storage, &1).unwrap(), None);
    assert_eq!(legal_records::service::_get_feedback(&storage, &1).unwrap(), None);
    legal_records::service::provide_feedback(&mut storage, 1, 2, 3, "ok".to_string()).unwrap();
    delete_legal_consultation(&mut storage, 1).unwrap();
    assert_eq!(legal_records::service::get_feedback(&storage, 1).unwrap().rating, 3);
}

#[test]
fn a_consultation_is_opened_neither_closed_nor_completed() {
    assert_eq!(
        LegalConsultation::open(3, 7, "lease".to_string(), 11),
        LegalConsultation {
            id: 3,
            advisor_id: 7,
            details: "lease".to_string(),
            created_at: 11,
            closed_at: None,
            is_completed: false,
        }
    );
}

#[test]
fn changes_to_a_consultation_touch_their_own_fields_only() {
    let opened = LegalConsultation::open(3, 7, "lease".to_string(), 11);
    assert_eq!(opened.clone().update(None, None, None), opened);
    assert_eq!(
        opened.clone().update(Some(8), None, None),
        LegalConsultation { advisor_id: 8, ..opened.clone() }
    );
    assert_eq!(
        opened.clone().update(None, Some(String::new()), None),
        LegalConsultation { details: String::new(), ..opened.clone() }
    );
    assert_eq!(
        opened.clone().update(None, None, Some(true)),
        LegalConsultation { is_completed: true, ..opened.clone() }
    );
    assert_eq!(
        opened.clone().complete(),
        LegalConsultation { is_completed: true, ..opened.clone() }
    );
    assert_eq!(opened.clone().complete().complete(), opened.clone().complete());
    assert_eq!(
        opened.clone().close(0),
        LegalConsultation { closed_at: Some(0), ..opened.clone() }
    );
    assert_eq!(opened.clone().close(5).close(4), opened.clone().close(4));
    assert_eq!(
        opened.clone().complete().update(None, None, Some(false)),
        opened
    );
}
