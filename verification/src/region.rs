//! The regions of the backing memory.
//!
//! The backing memory is divided into regions that do not overlap. Which
//! region holds what is fixed: it is the same in every run, so that what one
//! run stores the next one finds. Each region is handed out once, to the
//! one structure that lives in it.

use vstd::prelude::*;
use crate::stable::{memory_region, open_backing_memory, region_memory, BackingMemory, RegionMemory};

verus! {

/// A region of the backing memory.
#[derive(Clone, Copy, Debug, PartialEq, Eq)]
pub enum RegionId {
    /// Holds the id counter.
    Counter,
    /// Holds the consultations.
    Consultations,
    /// Holds the advisors.
    Advisors,
    /// Holds the feedback.
    Feedback,
}

impl RegionId {
    /// The number of the region in the backing memory.
    pub open spec fn number(self) -> u8 {
        match self {
            RegionId::Counter => 0,
            RegionId::Consultations => 1,
            RegionId::Advisors => 2,
            RegionId::Feedback => 3,
        }
    }

    /// Computes [`RegionId::number`].
    pub fn to_number(self) -> (number: u8)
        ensures
            number == self.number(),
    {
        match self {
            RegionId::Counter => 0,
            RegionId::Consultations => 1,
            RegionId::Advisors => 2,
            RegionId::Feedback => 3,
        }
    }
}

/// Different regions have different numbers, so no two of them share
/// memory, and every number is one that the backing memory accepts.
pub proof fn lemma_regions_disjoint(a: RegionId, b: RegionId)
    ensures
        a.number() == b.number() ==> a == b,
        a.number() < 4,
{
}

/// The backing memory, and which of its regions were handed out.
pub struct Regions {
    backing: BackingMemory,
    counter: bool,
    consultations: bool,
    advisors: bool,
    feedback: bool,
}

impl Regions {
    /// The region was handed out.
    pub closed spec fn in_use(&self, id: RegionId) -> bool {
        match id {
            RegionId::Counter => self.counter,
            RegionId::Consultations => self.consultations,
            RegionId::Advisors => self.advisors,
            RegionId::Feedback => self.feedback,
        }
    }

    /// Opens the backing memory. None of its regions is handed out yet.
    pub(crate) fn open() -> (regions: Regions)
        ensures
            forall|id: RegionId| !regions.in_use(id),
    {
        Regions {
            backing: open_backing_memory(),
            counter: false,
            consultations: false,
            advisors: false,
            feedback: false,
        }
    }

    /// Hands out the memory of a region that was not handed out before.
    pub(crate) fn claim(&mut self, id: RegionId) -> (memory: RegionMemory)
        requires
            !old(self).in_use(id),
        ensures
            memory_region(memory) == id.number(),
            forall|other: RegionId|
                final(self).in_use(other) == (other == id || old(self).in_use(other)),
    {
        match id {
            RegionId::Counter => {
                self.counter = true;
            },
            RegionId::Consultations => {
                self.consultations = true;
            },
            RegionId::Advisors => {
                self.advisors = true;
            },
            RegionId::Feedback => {
                self.feedback = true;
            },
        }
        region_memory(&self.backing, id.to_number())
    }
}

} // verus!
