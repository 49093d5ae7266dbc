//! Search by text.
//!
//! A record matches when the text that is searched holds the criteria as a
//! piece of it, character for character: no wildcards, and case counts.

use vstd::prelude::*;
use crate::std_specs::text_contains;
use crate::listing::views;

verus! {

/// `pattern` stands somewhere in `text`, in one piece. The empty pattern
/// stands in every text.
pub open spec fn occurs_in(pattern: Seq<char>, text: Seq<char>) -> bool {
    exists|at: int|
        0 <= at && at + pattern.len() <= text.len() && #[trigger] text.subrange(
            at,
            at + pattern.len(),
        ) == pattern
}

/// Something with a text to be searched.
pub trait Searchable: View {
    /// The text of an item that is searched.
    spec fn searched(value: Self::V) -> Seq<char>;

    fn searched_text(&self) -> (text: &str)
        ensures
            text@ == Self::searched(self@),
    ;
}

/// The items whose searched text holds the criteria, in the order given.
pub open spec fn matching<T: Searchable>(items: Seq<T::V>, criteria: Seq<char>) -> Seq<T::V> {
    items.filter(|value: T::V| occurs_in(criteria, T::searched(value)))
}

/// Keeps the items whose searched text holds the criteria.
pub fn select_matching<T: Searchable>(items: Vec<T>, criteria: &str) -> (found: Vec<T>)
    ensures
        views(found@) == matching::<T>(views(items@), criteria@),
{
    let ghost given = views(items@);
    let ghost wanted = |value: T::V| occurs_in(criteria@, T::searched(value));
    let mut found: Vec<T> = Vec::new();
    assert(given.take(0).filter(wanted) =~= Seq::<T::V>::empty());
    for item in it: items
        invariant
            it.seq() == items@,
            given == views(items@),
            wanted == |value: T::V| occurs_in(criteria@, T::searched(value)),
            views(found@) == given.take(it.index() as int).filter(wanted),
    {
        let ghost k = it.index() as int;
        let ghost before = views(found@);
        proof {
            assert(given.take(k + 1) =~= given.take(k) + seq![given[k]]);
            Seq::filter_distributes_over_add(given.take(k), seq![given[k]], wanted);
            reveal_with_fuel(Seq::filter, 2);
            assert(seq![given[k]].drop_last() =~= Seq::<T::V>::empty());
            assert(seq![given[k]].last() == given[k]);
        }
        if text_contains(item.searched_text(), criteria) {
            found.push(item);
            assert(views(found@) =~= before.push(given[k]));
            assert(seq![given[k]].filter(wanted) =~= seq![given[k]]);
        } else {
            assert(seq![given[k]].filter(wanted) =~= Seq::<T::V>::empty());
        }
    }
    assert(given.take(items@.len() as int) =~= given);
    found
}

} // verus!
