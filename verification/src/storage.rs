//! The storage: the id counter and the three stores, each in its own region
//! of one backing memory.
//!
//! A `Storage` is opened once, when the program starts, and handed to every
//! operation. Nothing is kept outside of it.

use vstd::prelude::*;
use crate::advisor::LegalAdvisor;
use crate::consultation::LegalConsultation;
use crate::counter::Counter;
use crate::error::Error;
use crate::feedback::Feedback;
use crate::record::Record;
use crate::region::{RegionId, Regions};
use crate::store::{own_keys, Store};

verus! {

/// The id counter and the stores of consultations, advisors and feedback.
pub struct Storage {
    pub counter: Counter,
    pub consultations: Store<LegalConsultation>,
    pub advisors: Store<LegalAdvisor>,
    pub feedback: Store<Feedback>,
}

/// What a [`Storage`] holds: the last id handed out, and the bytes stored
/// in each store, by key.
pub struct StorageView {
    pub last_id: u64,
    pub consultations: Map<u64, Seq<u8>>,
    pub advisors: Map<u64, Seq<u8>>,
    pub feedback: Map<u64, Seq<u8>>,
}

impl StorageView {
    /// In each store, every record is stored under its own key: a
    /// consultation and an advisor under their id, a feedback under the id
    /// of its client.
    pub open spec fn own_keys(self) -> bool {
        &&& own_keys::<LegalConsultation>(self.consultations)
        &&& own_keys::<LegalAdvisor>(self.advisors)
        &&& own_keys::<Feedback>(self.feedback)
    }
}

impl View for Storage {
    type V = StorageView;

    open spec fn view(&self) -> StorageView {
        StorageView {
            last_id: self.counter.last_id(),
            consultations: self.consultations@,
            advisors: self.advisors@,
            feedback: self.feedback@,
        }
    }
}

/// The counter and the three stores each have a region of their own: no
/// region holds two of them.
pub proof fn lemma_one_region_each()
    ensures
        LegalConsultation::region().number() != RegionId::Counter.number(),
        LegalAdvisor::region().number() != RegionId::Counter.number(),
        Feedback::region().number() != RegionId::Counter.number(),
        LegalConsultation::region().number() != LegalAdvisor::region().number(),
        LegalConsultation::region().number() != Feedback::region().number(),
        LegalAdvisor::region().number() != Feedback::region().number(),
{
}

impl Storage {
    /// Each of the counter and the stores lives in the region that is its
    /// own.
    pub open spec fn placed(&self) -> bool {
        &&& self.counter.region_number() == RegionId::Counter.number()
        &&& self.consultations.region_number() == LegalConsultation::region().number()
        &&& self.advisors.region_number() == LegalAdvisor::region().number()
        &&& self.feedback.region_number() == Feedback::region().number()
    }

    /// Opens the storage on the backing memory, with the counter and each
    /// store in the region that is its own.
    ///
    /// The storage holds what the memory held: on memory that was never
    /// written, the counter is at 0 and the stores are empty. Fails with
    /// `CounterFailure` when the counter cannot be opened.
    ///
    /// A program opens its storage once. Where the backing memory is the
    /// one memory that outlives the program, a second storage is a second
    /// view of the same bytes, and what is stated of either does not hold
    /// while the other is written.
    pub fn open() -> (result: Result<Storage, Error>)
        ensures
            match result {
                Ok(storage) => storage.placed(),
                Err(error) => error is CounterFailure && error.message()
                    == "Cannot create a counter"@,
            },
    {
        let mut regions = Regions::open();
        let counter = Counter::open(&mut regions)?;
        let consultations = Store::open(&mut regions);
        let advisors = Store::open(&mut regions);
        let feedback = Store::open(&mut regions);
        Ok(Storage { counter, consultations, advisors, feedback })
    }
}

} // verus!
