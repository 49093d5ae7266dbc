use legal_records::error::Error;
use legal_records::feedback::Feedback;
use legal_records::service::{
    _get_feedback, delete_feedback, do_insert_feedback, get_feedback, provide_feedback,
    update_feedback,
};
use legal_records::storage::Storage;

fn feedback(client_id: u64, rating: u8, comments: &str) -> Feedback {
    Feedback { client_id, advisor_id: 3, rating, comments: comments.to_string() }
}

fn expect_not_found<T: std::fmt::Debug>(result: Result<T, Error>, message: &str) {
    match result {
        Err(Error::NotFound { msg }) => assert_eq!(msg, message),
        other => panic!("expected NotFound, got {:?}", other),
    }
}

#[test]
fn feedback_is_stored_under_the_id_of_the_client() {
    let mut storage = Storage::open().unwrap();
    provide_feedback(&mut storage, 50, 3, 4, "helpful".to_string()).unwrap();
    assert_eq!(get_feedback(&storage, 50).unwrap(), feedback(50, 4, "helpful"));
    assert_eq!(_get_feedback(&storage, &50).unwrap(), Some(feedback(50, 4, "helpful")));
    assert_eq!(_get_feedback(&storage, &1).unwrap(), None);
}

#[test]
fn providing_feedback_hands_out_no_id() {
    let mut storage = Storage::open().unwrap();
    assert_eq!(storage.counter.next_id().unwrap(), 1);
    provide_feedback(&mut storage, 50, 3, 4, "a".to_string()).unwrap();
    provide_feedback(&mut storage, 51, 3, 4, "b".to_string()).unwrap();
    provide_feedback(&mut storage, 50, 3, 4, "c".to_string()).unwrap();
    assert_eq!(storage.counter.current(), 1);
    assert_eq!(storage.counter.next_id().unwrap(), 2);
}

#[test]
fn the_last_feedback_of_a_client_counts() {
    let mut storage = Storage::open().unwrap();
    provide_feedback(&mut storage, 50, 3, 4, "helpful".to_string()).unwrap();
    provide_feedback(&mut storage, 50, 8, 1, "changed my mind".to_string()).unwrap();
    assert_eq!(
        get_feedback(&storage, 50).unwrap(),
        Feedback { client_id: 50, advisor_id: 8, rating: 1, comments: "changed my mind".to_string() }
    );
}

#[test]
fn inserting_feedback_does_not_use_up_an_id() {
    let mut storage = Storage::open().unwrap();
    do_insert_feedback(&mut storage, &feedback(6, 2, "meh")).unwrap();
    assert_eq!(get_feedback(&storage, 6).unwrap(), feedback(6, 2, "meh"));
    assert_eq!(storage.counter.current(), 0);
}

#[test]
fn missing_feedback_is_not_found() {
    let mut storage = Storage::open().unwrap();
    expect_not_found(get_feedback(&storage, 7), "Feedback with id=7 not found");
    expect_not_found(
        update_feedback(&mut storage, 7, Some(1), None),
        "Feedback with id=7 not found",
    );
    expect_not_found(delete_feedback(&mut storage, 7), "Feedback with id=7 not found");
}

#[test]
fn updating_feedback_changes_what_is_given() {
    let mut storage = Storage::open().unwrap();
    do_insert_feedback(&mut storage, &feedback(6, 2, "meh")).unwrap();

    update_feedback(&mut storage, 6, Some(5), None).unwrap();
    assert_eq!(get_feedback(&storage, 6).unwrap(), feedback(6, 5, "meh"));

    update_feedback(&mut storage, 6, None, Some("great".to_string())).unwrap();
    assert_eq!(get_feedback(&storage, 6).unwrap(), feedback(6, 5, "great"));

    update_feedback(&mut storage, 6, None, None).unwrap();
    assert_eq!(get_feedback(&storage, 6).unwrap(), feedback(6, 5, "great"));

    update_feedback(&mut storage, 6, Some(0), Some(String::new())).unwrap();
    assert_eq!(get_feedback(&storage, 6).unwrap(), feedback(6, 0, ""));
}

#[test]
fn deleted_feedback_is_gone() {
    let mut storage = Storage::open().unwrap();
    do_insert_feedback(&mut storage, &feedback(6, 2, "meh")).unwrap();
    delete_feedback(&mut storage, 6).unwrap();
    expect_not_found(get_feedback(&storage, 6), "Feedback with id=6 not found");
    expect_not_found(delete_feedback(&mut storage, 6), "Feedback with id=6 not found");
}

#[test]
fn feedback_that_is_too_large_is_not_stored() {
    let mut storage = Storage::open().unwrap();
    match provide_feedback(&mut storage, 9, 3, 4, "x".repeat(1024)) {
        Err(Error::SizeExceeded { msg }) => {
            assert_eq!(msg, "Feedback with id=9 is too large to store")
        }
        other => panic!("expected SizeExceeded, got {:?}", other),
    }
    assert_eq!(storage.counter.current(), 0);
    assert_eq!(_get_feedback(&storage, &9).unwrap(), None);
    // 26 bytes besides the comments
    provide_feedback(&mut storage, 9, 3, 4, "x".repeat(1024 - 26)).unwrap();
    match provide_feedback(&mut storage, 9, 3, 4, "x".repeat(1024 - 25)) {
        Err(Error::SizeExceeded { .. }) => {}
        other => panic!("expected SizeExceeded, got {:?}", other),
    }
    assert_eq!(get_feedback(&storage, 9).unwrap().comments.len(), 1024 - 26);
}

#[test]
fn changes_to_feedback_touch_their_own_fields_only() {
    let given = feedback(6, 2, "meh");
    assert_eq!(given.clone().update(None, None), given);
    assert_eq!(given.clone().update(Some(9), None), feedback(6, 9, "meh"));
    assert_eq!(given.clone().update(None, Some("ok".to_string())), feedback(6, 2, "ok"));
    assert_eq!(given.update(Some(1), Some("bad".to_string())), feedback(6, 1, "bad"));
}
