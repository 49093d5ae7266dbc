//! The operations on consultations, advisors and feedback.
//!
//! Every operation takes the storage it works on. One that fails leaves the
//! storage as it was.

use vstd::prelude::*;
use crate::advisor::{AdvisorView, LegalAdvisor, Rating};
use crate::consultation::{lemma_completing_keeps_size, ConsultationView, LegalConsultation};
use crate::counter::{advance, id_after, increment_failure, is_increment_failure};
use crate::error::{not_found, not_found_wording, size_exceeded_wording, Error};
use crate::feedback::{Feedback, FeedbackView};
use crate::listing::views;
use crate::ordering::{sort_by_rank, sorted_by_rank};
use crate::outcome::{
    delete_existing, explains_missing, is_deleted, is_listed, is_read, is_rewritten, is_written,
    read_existing, write_record,
};
use crate::paging::{page_of, paginate};
use crate::record::{encode, encoding, fits, text_view, valid, Record};
use crate::search::{matching, select_matching};
use crate::storage::{Storage, StorageView};
use crate::store::{lemma_own_keys_kept, listed, stored};

verus! {

// Consultations

/// Reads the consultation with the given id.
pub fn get_legal_consultation(storage: &Storage, id: u64) -> (result: Result<
    LegalConsultation,
    Error,
>)
    ensures
        is_read::<LegalConsultation>(storage@.consultations, id, result),
{
    read_existing(&storage.consultations, id)
}

/// Reads the consultation with the given id, if there is one.
pub fn _get_legal_consultation(storage: &Storage, id: &u64) -> (result: Result<
    Option<LegalConsultation>,
    Error,
>)
    ensures
        match result {
            Ok(Some(consultation)) => stored::<LegalConsultation>(storage@.consultations, *id)
                == Some(consultation@),
            Ok(None) => !storage@.consultations.contains_key(*id),
            Err(error) => storage@.consultations.contains_key(*id) && explains_missing::<
                LegalConsultation,
            >(storage@.consultations, *id, error),
        },
{
    storage.consultations.get(*id)
}

/// Stores the consultation under its id, in place of what was stored there.
pub fn do_insert_legal_consultation(storage: &mut Storage, consultation: &LegalConsultation) -> (result:
    Result<(), Error>)
    ensures
        is_written::<LegalConsultation>(
            old(storage)@.consultations,
            final(storage)@.consultations,
            consultation.id,
            consultation@,
            result,
        ),
        final(storage)@ == (StorageView {
            consultations: final(storage)@.consultations,
            ..old(storage)@
        }),
        old(storage)@.own_keys() ==> final(storage)@.own_keys(),
        old(storage).placed() ==> final(storage).placed(),
{
    proof {
        if storage@.own_keys() {
            lemma_own_keys_kept::<LegalConsultation>(
                storage@.consultations,
                consultation.id,
                consultation@,
            );
        }
    }
    write_record(&mut storage.consultations, consultation)
}

/// Opens a consultation with an advisor at the time `now`, under the next
/// id.
///
/// Fails with `CounterFailure` exactly when there is no id left to hand
/// out, and otherwise with `SizeExceeded` exactly when the consultation is
/// too large to store.
pub fn initiate_legal_consultation(
    storage: &mut Storage,
    advisor_id: u64,
    details: String,
    now: u64,
) -> (result: Result<LegalConsultation, Error>)
    ensures
        match result {
            Ok(consultation) => {
                &&& id_after(old(storage)@.last_id) == Some(consultation.id)
                &&& consultation@ == ConsultationView::opened(
                    consultation.id,
                    advisor_id,
                    details@,
                    now,
                )
                &&& valid::<LegalConsultation>(consultation@)
                &&& fits::<LegalConsultation>(consultation@)
                &&& final(storage)@ == (StorageView {
                    last_id: consultation.id,
                    consultations: old(storage)@.consultations.insert(
                        consultation.id,
                        encoding::<LegalConsultation>(consultation@),
                    ),
                    ..old(storage)@
                })
            },
            Err(error) => {
                &&& final(storage)@ == old(storage)@
                &&& match id_after(old(storage)@.last_id) {
                    Some(id) => {
                        &&& !fits::<LegalConsultation>(
                            ConsultationView::opened(id, advisor_id, details@, now),
                        )
                        &&& error is SizeExceeded
                        &&& error.message() == size_exceeded_wording(
                            LegalConsultation::label(),
                            id,
                        )
                    },
                    None => is_increment_failure(error),
                }
            },
        },
        (id_after(old(storage)@.last_id) matches Some(id) && fits::<LegalConsultation>(
            ConsultationView::opened(id, advisor_id, details@, now),
        )) ==> result is Ok,
        old(storage)@.own_keys() ==> final(storage)@.own_keys(),
        old(storage).placed() ==> final(storage).placed(),
{
    let id = match advance(storage.counter.current()) {
        Some(id) => id,
        None => {
            return Err(increment_failure());
        },
    };
    let consultation = LegalConsultation::open(id, advisor_id, details, now);
    let bytes = encode(id, &consultation)?;
    proof {
        if storage@.own_keys() {
            lemma_own_keys_kept::<LegalConsultation>(storage@.consultations, id, consultation@);
        }
    }
    storage.counter.next_id()?;
    storage.consultations.put(id, &bytes);
    Ok(consultation)
}

/// Puts each of the given fields in place of the consultation's own and
/// leaves every other field as it was.
pub fn update_legal_consultation(
    storage: &mut Storage,
    id: u64,
    advisor_id: Option<u64>,
    details: Option<String>,
    is_completed: Option<bool>,
) -> (result: Result<(), Error>)
    ensures
        is_rewritten::<LegalConsultation>(
            old(storage)@.consultations,
            final(storage)@.consultations,
            id,
            match stored::<LegalConsultation>(old(storage)@.consultations, id) {
                Some(current) => Some(current.updated(advisor_id, text_view(details), is_completed)),
                None => None,
            },
            result,
        ),
        final(storage)@ == (StorageView {
            consultations: final(storage)@.consultations,
            ..old(storage)@
        }),
        old(storage)@.own_keys() ==> final(storage)@.own_keys(),
        old(storage).placed() ==> final(storage).placed(),
{
    let current = read_existing(&storage.consultations, id)?;
    let changed = current.update(advisor_id, details, is_completed);
    proof {
        if storage@.own_keys() {
            lemma_own_keys_kept::<LegalConsultation>(storage@.consultations, id, changed@);
        }
    }
    storage.consultations.insert(id, &changed)
}

/// Marks the consultation as completed. One that is completed stays so.
/// A consultation that is stored can always be completed: completing does
/// not make it any larger.
pub fn mark_consultation_as_completed(storage: &mut Storage, id: u64) -> (result: Result<
    (),
    Error,
>)
    ensures
        is_rewritten::<LegalConsultation>(
            old(storage)@.consultations,
            final(storage)@.consultations,
            id,
            match stored::<LegalConsultation>(old(storage)@.consultations, id) {
                Some(current) => Some(current.completed()),
                None => None,
            },
            result,
        ),
        final(storage)@ == (StorageView {
            consultations: final(storage)@.consultations,
            ..old(storage)@
        }),
        stored::<LegalConsultation>(old(storage)@.consultations, id) is Some ==> result is Ok,
        old(storage)@.own_keys() ==> final(storage)@.own_keys(),
        old(storage).placed() ==> final(storage).placed(),
{
    let current = read_existing(&storage.consultations, id)?;
    proof {
        lemma_completing_keeps_size(current@);
    }
    let changed = current.complete();
    proof {
        if storage@.own_keys() {
            lemma_own_keys_kept::<LegalConsultation>(storage@.consultations, id, changed@);
        }
    }
    storage.consultations.insert(id, &changed)
}

/// Closes the consultation at the given time, whether or not it is
/// completed, and whatever time it was closed at before.
pub fn close_legal_consultation(storage: &mut Storage, id: u64, closed_at: u64) -> (result: Result<
    (),
    Error,
>)
    ensures
        is_rewritten::<LegalConsultation>(
            old(storage)@.consultations,
            final(storage)@.consultations,
            id,
            match stored::<LegalConsultation>(old(storage)@.consultations, id) {
                Some(current) => Some(current.closed(closed_at)),
                None => None,
            },
            result,
        ),
        final(storage)@ == (StorageView {
            consultations: final(storage)@.consultations,
            ..old(storage)@
        }),
        old(storage)@.own_keys() ==> final(storage)@.own_keys(),
        old(storage).placed() ==> final(storage).placed(),
{
    let current = read_existing(&storage.consultations, id)?;
    let changed = current.close(closed_at);
    proof {
        if storage@.own_keys() {
            lemma_own_keys_kept::<LegalConsultation>(storage@.consultations, id, changed@);
        }
    }
    storage.consultations.insert(id, &changed)
}

/// Deletes the consultation with the given id.
pub fn delete_legal_consultation(storage: &mut Storage, id: u64) -> (result: Result<(), Error>)
    ensures
        is_deleted::<LegalConsultation>(
            old(storage)@.consultations,
            final(storage)@.consultations,
            id,
            result,
        ),
        final(storage)@ == (StorageView {
            consultations: final(storage)@.consultations,
            ..old(storage)@
        }),
        old(storage)@.own_keys() ==> final(storage)@.own_keys(),
        old(storage).placed() ==> final(storage).placed(),
{
    proof {
        if storage@.own_keys() {
            lemma_own_keys_kept::<LegalConsultation>(storage@.consultations, id, arbitrary());
        }
    }
    delete_existing(&mut storage.consultations, id)
}

/// Lists all consultations, by ascending key.
pub fn list_all_legal_consultations(storage: &Storage) -> (result: Result<
    Vec<LegalConsultation>,
    Error,
>)
    ensures
        is_listed::<LegalConsultation>(
            storage@.consultations,
            listed::<LegalConsultation>(storage@.consultations),
            result,
        ),
{
    storage.consultations.list()
}

/// Lists the consultations whose details hold the criteria, by ascending
/// key.
pub fn search_legal_consultations(storage: &Storage, criteria: String) -> (result: Result<
    Vec<LegalConsultation>,
    Error,
>)
    ensures
        is_listed::<LegalConsultation>(
            storage@.consultations,
            matching::<LegalConsultation>(
                listed::<LegalConsultation>(storage@.consultations),
                criteria@,
            ),
            result,
        ),
{
    let all = storage.consultations.list()?;
    Ok(select_matching(all, criteria.as_str()))
}

/// Lists all consultations by the time they were opened, earliest first.
/// Consultations opened at the same time stay in the order of their keys.
pub fn sort_legal_consultations_by_date(storage: &Storage) -> (result: Result<
    Vec<LegalConsultation>,
    Error,
>)
    ensures
        is_listed::<LegalConsultation>(
            storage@.consultations,
            sorted_by_rank::<LegalConsultation>(
                listed::<LegalConsultation>(storage@.consultations),
            ),
            result,
        ),
{
    let all = storage.consultations.list()?;
    Ok(sort_by_rank(all))
}

/// Lists one page of the consultations by ascending key. A page past the end
/// is empty.
pub fn list_paginated_legal_consultations(storage: &Storage, page: usize, page_size: usize) -> (result:
    Result<Vec<LegalConsultation>, Error>)
    ensures
        is_listed::<LegalConsultation>(
            storage@.consultations,
            page_of(
                listed::<LegalConsultation>(storage@.consultations),
                page as nat,
                page_size as nat,
            ),
            result,
        ),
{
    let all = storage.consultations.list()?;
    let items = paginate(all, page, page_size);
    assert(views(items@) =~= page_of(views(all@), page as nat, page_size as nat));
    Ok(items)
}

// Advisors

/// Reads the advisor with the given id.
pub fn get_legal_advisor(storage: &Storage, id: u64) -> (result: Result<LegalAdvisor, Error>)
    ensures
        is_read::<LegalAdvisor>(storage@.advisors, id, result),
{
    read_existing(&storage.advisors, id)
}

/// Reads the advisor with the given id, if there is one.
pub fn _get_legal_advisor(storage: &Storage, id: &u64) -> (result: Result<
    Option<LegalAdvisor>,
    Error,
>)
    ensures
        match result {
            Ok(Some(advisor)) => stored::<LegalAdvisor>(storage@.advisors, *id) == Some(advisor@),
            Ok(None) => !storage@.advisors.contains_key(*id),
            Err(error) => storage@.advisors.contains_key(*id) && explains_missing::<LegalAdvisor>(
                storage@.advisors,
                *id,
                error,
            ),
        },
{
    storage.advisors.get(*id)
}

/// Stores the advisor under its id, in place of what was stored there.
pub fn do_insert_legal_advisor(storage: &mut Storage, advisor: &LegalAdvisor) -> (result: Result<
    (),
    Error,
>)
    ensures
        is_written::<LegalAdvisor>(
            old(storage)@.advisors,
            final(storage)@.advisors,
            advisor.id,
            advisor@,
            result,
        ),
        final(storage)@ == (StorageView { advisors: final(storage)@.advisors, ..old(storage)@ }),
        old(storage)@.own_keys() ==> final(storage)@.own_keys(),
        old(storage).placed() ==> final(storage).placed(),
{
    proof {
        if storage@.own_keys() {
            lemma_own_keys_kept::<LegalAdvisor>(storage@.advisors, advisor.id, advisor@);
        }
    }
    write_record(&mut storage.advisors, advisor)
}

/// Stores the advisor under its id, in place of what was stored there.
pub fn do_update_legal_advisor(storage: &mut Storage, advisor: &LegalAdvisor) -> (result: Result<
    (),
    Error,
>)
    ensures
        is_written::<LegalAdvisor>(
            old(storage)@.advisors,
            final(storage)@.advisors,
            advisor.id,
            advisor@,
            result,
        ),
        final(storage)@ == (StorageView { advisors: final(storage)@.advisors, ..old(storage)@ }),
        old(storage)@.own_keys() ==> final(storage)@.own_keys(),
        old(storage).placed() ==> final(storage).placed(),
{
    proof {
        if storage@.own_keys() {
            lemma_own_keys_kept::<LegalAdvisor>(storage@.advisors, advisor.id, advisor@);
        }
    }
    write_record(&mut storage.advisors, advisor)
}

/// Adds an advisor, under the next id.
///
/// Fails with `CounterFailure` exactly when there is no id left to hand
/// out, and otherwise with `SizeExceeded` exactly when the advisor is too
/// large to store.
pub fn add_legal_advisor(
    storage: &mut Storage,
    name: String,
    credentials: String,
    rating: Rating,
) -> (result: Result<LegalAdvisor, Error>)
    ensures
        match result {
            Ok(advisor) => {
                &&& id_after(old(storage)@.last_id) == Some(advisor.id)
                &&& advisor@ == (AdvisorView {
                    id: advisor.id,
                    name: name@,
                    credentials: credentials@,
                    rating,
                })
                &&& valid::<LegalAdvisor>(advisor@)
                &&& fits::<LegalAdvisor>(advisor@)
                &&& final(storage)@ == (StorageView {
                    last_id: advisor.id,
                    advisors: old(storage)@.advisors.insert(
                        advisor.id,
                        encoding::<LegalAdvisor>(advisor@),
                    ),
                    ..old(storage)@
                })
            },
            Err(error) => {
                &&& final(storage)@ == old(storage)@
                &&& match id_after(old(storage)@.last_id) {
                    Some(id) => {
                        &&& !fits::<LegalAdvisor>(
                            AdvisorView { id, name: name@, credentials: credentials@, rating },
                        )
                        &&& error is SizeExceeded
                        &&& error.message() == size_exceeded_wording(LegalAdvisor::label(), id)
                    },
                    None => is_increment_failure(error),
                }
            },
        },
        (id_after(old(storage)@.last_id) matches Some(id) && fits::<LegalAdvisor>(
            AdvisorView { id, name: name@, credentials: credentials@, rating },
        )) ==> result is Ok,
        old(storage)@.own_keys() ==> final(storage)@.own_keys(),
        old(storage).placed() ==> final(storage).placed(),
{
    let id = match advance(storage.counter.current()) {
        Some(id) => id,
        None => {
            return Err(increment_failure());
        },
    };
    let advisor = LegalAdvisor { id, name, credentials, rating };
    let bytes = encode(id, &advisor)?;
    proof {
        if storage@.own_keys() {
            lemma_own_keys_kept::<LegalAdvisor>(storage@.advisors, id, advisor@);
        }
    }
    storage.counter.next_id()?;
    storage.advisors.put(id, &bytes);
    Ok(advisor)
}

/// Puts an advisor of the given name, credentials and rating in place of
/// what is stored under the given id: all of it, not parts.
///
/// Fails with `NotFound` when nothing is stored under the id, and with
/// `SizeExceeded` when the advisor is too large to store.
pub fn update_legal_advisor(
    storage: &mut Storage,
    id: u64,
    name: String,
    credentials: String,
    rating: Rating,
) -> (result: Result<LegalAdvisor, Error>)
    ensures
        if old(storage)@.advisors.contains_key(id) {
            is_written::<LegalAdvisor>(
                old(storage)@.advisors,
                final(storage)@.advisors,
                id,
                AdvisorView { id, name: name@, credentials: credentials@, rating },
                match result {
                    Ok(_) => Ok(()),
                    Err(error) => Err(error),
                },
            )
        } else {
            &&& result matches Err(error)
            &&& error is NotFound
            &&& error.message() == not_found_wording(LegalAdvisor::label(), id)
            &&& final(storage)@.advisors == old(storage)@.advisors
        },
        result matches Ok(advisor) ==> advisor@ == (AdvisorView {
            id,
            name: name@,
            credentials: credentials@,
            rating,
        }),
        final(storage)@ == (StorageView { advisors: final(storage)@.advisors, ..old(storage)@ }),
        old(storage)@.own_keys() ==> final(storage)@.own_keys(),
        old(storage).placed() ==> final(storage).placed(),
{
    if !storage.advisors.contains(id) {
        return Err(not_found(LegalAdvisor::name(), id));
    }
    let advisor = LegalAdvisor { id, name, credentials, rating };
    proof {
        if storage@.own_keys() {
            lemma_own_keys_kept::<LegalAdvisor>(storage@.advisors, id, advisor@);
        }
    }
    storage.advisors.insert(id, &advisor)?;
    Ok(advisor)
}

/// Lists all advisors, by ascending key.
pub fn list_all_legal_advisors(storage: &Storage) -> (result: Result<Vec<LegalAdvisor>, Error>)
    ensures
        is_listed::<LegalAdvisor>(
            storage@.advisors,
            listed::<LegalAdvisor>(storage@.advisors),
            result,
        ),
{
    storage.advisors.list()
}

/// Lists the advisors whose name holds the criteria, by ascending key.
pub fn search_legal_advisors(storage: &Storage, criteria: String) -> (result: Result<
    Vec<LegalAdvisor>,
    Error,
>)
    ensures
        is_listed::<LegalAdvisor>(
            storage@.advisors,
            matching::<LegalAdvisor>(listed::<LegalAdvisor>(storage@.advisors), criteria@),
            result,
        ),
{
    let all = storage.advisors.list()?;
    Ok(select_matching(all, criteria.as_str()))
}

/// Lists all advisors by rating, highest first. Advisors of the same
/// rating stay in the order of their keys, and advisors whose rating is no
/// number come last.
pub fn sort_legal_advisors_by_rating(storage: &Storage) -> (result: Result<
    Vec<LegalAdvisor>,
    Error,
>)
    ensures
        is_listed::<LegalAdvisor>(
            storage@.advisors,
            sorted_by_rank::<LegalAdvisor>(listed::<LegalAdvisor>(storage@.advisors)),
            result,
        ),
{
    let all = storage.advisors.list()?;
    Ok(sort_by_rank(all))
}

/// Lists one page of the advisors by ascending key. A page past the end is
/// empty.
pub fn list_paginated_legal_advisors(storage: &Storage, page: usize, page_size: usize) -> (result:
    Result<Vec<LegalAdvisor>, Error>)
    ensures
        is_listed::<LegalAdvisor>(
            storage@.advisors,
            page_of(listed::<LegalAdvisor>(storage@.advisors), page as nat, page_size as nat),
            result,
        ),
{
    let all = storage.advisors.list()?;
    let items = paginate(all, page, page_size);
    assert(views(items@) =~= page_of(views(all@), page as nat, page_size as nat));
    Ok(items)
}

// Feedback

/// Reads the feedback of the client with the given id.
pub fn get_feedback(storage: &Storage, id: u64) -> (result: Result<Feedback, Error>)
    ensures
        is_read::<Feedback>(storage@.feedback, id, result),
{
    read_existing(&storage.feedback, id)
}

/// Reads the feedback of the client with the given id, if there is one.
pub fn _get_feedback(storage: &Storage, id: &u64) -> (result: Result<Option<Feedback>, Error>)
    ensures
        match result {
            Ok(Some(feedback)) => stored::<Feedback>(storage@.feedback, *id) == Some(feedback@),
            Ok(None) => !storage@.feedback.contains_key(*id),
            Err(error) => storage@.feedback.contains_key(*id) && explains_missing::<Feedback>(
                storage@.feedback,
                *id,
                error,
            ),
        },
{
    storage.feedback.get(*id)
}

/// Stores the feedback under the id of its client, in place of what was
/// stored there.
pub fn do_insert_feedback(storage: &mut Storage, feedback: &Feedback) -> (result: Result<
    (),
    Error,
>)
    ensures
        is_written::<Feedback>(
            old(storage)@.feedback,
            final(storage)@.feedback,
            feedback.client_id,
            feedback@,
            result,
        ),
        final(storage)@ == (StorageView { feedback: final(storage)@.feedback, ..old(storage)@ }),
        old(storage)@.own_keys() ==> final(storage)@.own_keys(),
        old(storage).placed() ==> final(storage).placed(),
{
    proof {
        if storage@.own_keys() {
            lemma_own_keys_kept::<Feedback>(storage@.feedback, feedback.client_id, feedback@);
        }
    }
    write_record(&mut storage.feedback, feedback)
}

/// Stores the feedback of a client on an advisor under the id of the
/// client, in place of any feedback the client gave before. No id is
/// handed out for it: the counter stays as it is.
///
/// Fails with `SizeExceeded` exactly when the feedback is too large to
/// store.
pub fn provide_feedback(
    storage: &mut Storage,
    client_id: u64,
    advisor_id: u64,
    rating: u8,
    comments: String,
) -> (result: Result<(), Error>)
    ensures
        is_written::<Feedback>(
            old(storage)@.feedback,
            final(storage)@.feedback,
            client_id,
            FeedbackView { client_id, advisor_id, rating, comments: comments@ },
            result,
        ),
        final(storage)@ == (StorageView { feedback: final(storage)@.feedback, ..old(storage)@ }),
        old(storage)@.own_keys() ==> final(storage)@.own_keys(),
        old(storage).placed() ==> final(storage).placed(),
{
    let feedback = Feedback { client_id, advisor_id, rating, comments };
    proof {
        if storage@.own_keys() {
            lemma_own_keys_kept::<Feedback>(storage@.feedback, client_id, feedback@);
        }
    }
    write_record(&mut storage.feedback, &feedback)
}

/// Puts each of the given fields in place of the feedback's own and leaves
/// every other field as it was.
pub fn update_feedback(
    storage: &mut Storage,
    id: u64,
    new_rating: Option<u8>,
    new_comments: Option<String>,
) -> (result: Result<(), Error>)
    ensures
        is_rewritten::<Feedback>(
            old(storage)@.feedback,
            final(storage)@.feedback,
            id,
            match stored::<Feedback>(old(storage)@.feedback, id) {
                Some(current) => Some(current.updated(new_rating, text_view(new_comments))),
                None => None,
            },
            result,
        ),
        final(storage)@ == (StorageView { feedback: final(storage)@.feedback, ..old(storage)@ }),
        old(storage)@.own_keys() ==> final(storage)@.own_keys(),
        old(storage).placed() ==> final(storage).placed(),
{
    let current = read_existing(&storage.feedback, id)?;
    let changed = current.update(new_rating, new_comments);
    proof {
        if storage@.own_keys() {
            lemma_own_keys_kept::<Feedback>(storage@.feedback, id, changed@);
        }
    }
    storage.feedback.insert(id, &changed)
}

/// Deletes the feedback of the client with the given id.
pub fn delete_feedback(storage: &mut Storage, id: u64) -> (result: Result<(), Error>)
    ensures
        is_deleted::<Feedback>(old(storage)@.feedback, final(storage)@.feedback, id, result),
        final(storage)@ == (StorageView { feedback: final(storage)@.feedback, ..old(storage)@ }),
        old(storage)@.own_keys() ==> final(storage)@.own_keys(),
        old(storage).placed() ==> final(storage).placed(),
{
    proof {
        if storage@.own_keys() {
            lemma_own_keys_kept::<Feedback>(storage@.feedback, id, arbitrary());
        }
    }
    delete_existing(&mut storage.feedback, id)
}

} // verus!
