//! The id counter.
//!
//! The counter holds the last id that was handed out, and 0 before the first.
//! Each new id is one more than the last, so ids only grow and none is handed
//! out twice. The counter is shared by everything that needs ids.

use vstd::prelude::*;
use vstd::string::*;
use ic_stable_structures::cell::ValueError;
use crate::error::Error;
use crate::region::{RegionId, Regions};
use crate::stable::{cell_get, cell_init, cell_region, cell_set, cell_value, CounterCell};

verus! {

/// The id that follows `last`, or `None` when `last` is the highest number
/// there is.
pub open spec fn id_after(last: u64) -> Option<u64> {
    if last < u64::MAX {
        Some((last + 1) as u64)
    } else {
        None
    }
}

/// The ids that `n` requests in a row hand out, from a counter whose last
/// id is `last`. Once the highest number there is was handed out, no
/// request hands out an id.
pub open spec fn ids_from(last: u64, n: nat) -> Seq<u64>
    decreases n,
{
    if n == 0 {
        Seq::empty()
    } else {
        match id_after(last) {
            Some(id) => seq![id] + ids_from(id, (n - 1) as nat),
            None => Seq::empty(),
        }
    }
}

/// Every request hands out an id as long as there are higher numbers, and
/// the `i`-th id after `last` is `last + 1 + i`.
pub proof fn lemma_ids_from(last: u64, n: nat)
    ensures
        ids_from(last, n).len() == if last + n <= u64::MAX {
            n as int
        } else {
            u64::MAX - last
        },
        forall|i: int|
            0 <= i < ids_from(last, n).len() ==> #[trigger] ids_from(last, n)[i] == last + 1 + i,
    decreases n,
{
    if n > 0 && last < u64::MAX {
        let id = id_after(last).unwrap();
        let rest = ids_from(id, (n - 1) as nat);
        lemma_ids_from(id, (n - 1) as nat);
        assert forall|i: int| 0 <= i < ids_from(last, n).len() implies #[trigger] ids_from(
            last,
            n,
        )[i] == last + 1 + i by {
            if i > 0 {
                assert(ids_from(last, n)[i] == rest[i - 1]);
            }
        }
    }
}

/// The ids that any number of requests hand out grow strictly: each is
/// above the one before it and above the last id before them all, so no
/// two of them are the same.
pub proof fn lemma_ids_strictly_increasing(last: u64, n: nat)
    ensures
        forall|i: int| 0 <= i < ids_from(last, n).len() ==> last < #[trigger] ids_from(last, n)[i],
        forall|i: int, j: int|
            0 <= i < j < ids_from(last, n).len() ==> #[trigger] ids_from(last, n)[i]
                < #[trigger] ids_from(last, n)[j],
        forall|i: int, j: int|
            0 <= i < ids_from(last, n).len() && 0 <= j < ids_from(last, n).len() && i != j
                ==> #[trigger] ids_from(last, n)[i] != #[trigger] ids_from(last, n)[j],
{
    lemma_ids_from(last, n);
}

/// The error is the one for an id that could not be handed out.
pub open spec fn is_increment_failure(error: Error) -> bool {
    error is CounterFailure && error.message() == "Cannot increment id counter"@
}

/// The next id to hand out after `last`.
pub fn advance(last: u64) -> (next: Option<u64>)
    ensures
        next == id_after(last),
{
    if last < u64::MAX {
        Some(last + 1)
    } else {
        None
    }
}

/// The id counter.
pub struct Counter {
    cell: CounterCell,
}

impl Counter {
    /// The last id that was handed out, or 0 if none was.
    pub closed spec fn last_id(&self) -> u64 {
        cell_value(self.cell)
    }

    /// The number of the region of the backing memory that the counter was
    /// opened in.
    pub closed spec fn region_number(&self) -> u8 {
        cell_region(self.cell)
    }

    /// Opens the counter in its region of the backing memory, which is
    /// then in use. A counter that is opened on memory that holds none
    /// starts at 0.
    pub(crate) fn open(regions: &mut Regions) -> (result: Result<Counter, Error>)
        requires
            !old(regions).in_use(RegionId::Counter),
        ensures
            forall|id: RegionId|
                final(regions).in_use(id) == (id == RegionId::Counter || old(regions).in_use(id)),
            match result {
                Ok(counter) => counter.region_number() == RegionId::Counter.number(),
                Err(error) => error is CounterFailure && error.message()
                    == "Cannot create a counter"@,
            },
    {
        match cell_init(regions.claim(RegionId::Counter), 0) {
            Ok(cell) => Ok(Counter { cell }),
            Err(_) => Err(
                Error::CounterFailure { msg: String::from_str("Cannot create a counter") },
            ),
        }
    }

    /// Reads the last id that was handed out.
    pub fn current(&self) -> (last: u64)
        ensures
            last == self.last_id(),
    {
        cell_get(&self.cell)
    }

    /// Hands out the next id: one more than the last.
    ///
    /// Fails with `CounterFailure` exactly when there is no higher id. The
    /// counter then stays as it was.
    pub fn next_id(&mut self) -> (result: Result<u64, Error>)
        ensures
            match result {
                Ok(id) => id_after(old(self).last_id()) == Some(id) && final(self).last_id() == id,
                Err(error) => {
                    &&& id_after(old(self).last_id()) is None
                    &&& is_increment_failure(error)
                    &&& final(self).last_id() == old(self).last_id()
                },
            },
            id_after(old(self).last_id()) is Some ==> result is Ok,
            final(self).region_number() == old(self).region_number(),
    {
        let last: u64 = cell_get(&self.cell);
        match advance(last) {
            Some(id) => {
                let written = cell_set(&mut self.cell, id);
                handed_out(id, written)
            },
            None => Err(increment_failure()),
        }
    }
}

/// The error for an id that could not be handed out.
pub fn increment_failure() -> (error: Error)
    ensures
        is_increment_failure(error),
{
    Error::CounterFailure { msg: String::from_str("Cannot increment id counter") }
}

/// The outcome of handing out `id`, given what became of writing it to the
/// counter: the id where it was written, and a `CounterFailure` where it
/// was not.
pub fn handed_out(id: u64, written: Result<u64, ValueError>) -> (result: Result<u64, Error>)
    ensures
        match result {
            Ok(handed) => written is Ok && handed == id,
            Err(error) => written is Err && is_increment_failure(error),
        },
{
    match written {
        Ok(_) => Ok(id),
        Err(_) => Err(increment_failure()),
    }
}

} // verus!
