//! Listings of a map with integer keys: its entries by ascending key.

use vstd::prelude::*;

verus! {

/// `listing` lists the entries of `entries`, each once, by ascending key.
pub open spec fn is_listing<V>(entries: Map<u64, V>, listing: Seq<(u64, V)>) -> bool {
    &&& forall|i: int, j: int|
        0 <= i < j < listing.len() ==> (#[trigger] listing[i]).0 < (#[trigger] listing[j]).0
    &&& forall|i: int|
        0 <= i < listing.len() ==> entries.contains_key((#[trigger] listing[i]).0)
            && entries[listing[i].0] == listing[i].1
    &&& forall|key: u64| #[trigger]
        entries.contains_key(key) ==> exists|i: int|
            0 <= i < listing.len() && (#[trigger] listing[i]).0 == key
}

/// The map can be listed: it has finitely many entries.
pub open spec fn listable<V>(entries: Map<u64, V>) -> bool {
    exists|listing: Seq<(u64, V)>| is_listing(entries, listing)
}

/// The listing of a map that can be listed.
pub open spec fn listing_of<V>(entries: Map<u64, V>) -> Seq<(u64, V)> {
    choose|listing: Seq<(u64, V)>| is_listing(entries, listing)
}

/// The second parts of a list of pairs.
pub open spec fn values<V>(listing: Seq<(u64, V)>) -> Seq<V> {
    Seq::new(listing.len(), |i: int| listing[i].1)
}

/// The views of a list of items.
pub open spec fn views<T: View>(items: Seq<T>) -> Seq<T::V> {
    Seq::new(items.len(), |i: int| items[i]@)
}

/// The keys and views of a list of items with their keys.
pub open spec fn keyed_views<T: View>(items: Seq<(u64, T)>) -> Seq<(u64, T::V)> {
    Seq::new(items.len(), |i: int| (items[i].0, items[i].1@))
}

/// A map has one listing only: the order of a listing is given by the keys,
/// whatever the order in which the entries were put into the map.
pub proof fn lemma_listing_unique<V>(entries: Map<u64, V>, a: Seq<(u64, V)>, b: Seq<(u64, V)>)
    requires
        is_listing(entries, a),
        is_listing(entries, b),
    ensures
        a == b,
    decreases a.len(),
{
    if a.len() == 0 {
        if b.len() > 0 {
            assert(entries.contains_key(b[0].0));
        }
        assert(a =~= b);
    } else {
        let last_a = a.last();
        assert(entries.contains_key(last_a.0));
        let j = choose|j: int| 0 <= j < b.len() && (#[trigger] b[j]).0 == last_a.0;
        let last_b = b.last();
        assert(entries.contains_key(last_b.0));
        let i = choose|i: int| 0 <= i < a.len() && (#[trigger] a[i]).0 == last_b.0;
        assert(a[i].0 <= last_a.0);
        assert(b[j].0 <= last_b.0);
        assert(last_a.0 == last_b.0);
        assert(last_a == last_b);
        let rest = entries.remove(last_a.0);
        let front_a = a.drop_last();
        let front_b = b.drop_last();
        assert(is_listing(rest, front_a)) by {
            lemma_listing_front(entries, a);
        }
        assert(is_listing(rest, front_b)) by {
            lemma_listing_front(entries, b);
        }
        lemma_listing_unique(rest, front_a, front_b);
        assert(a =~= front_a.push(last_a));
        assert(b =~= front_b.push(last_b));
    }
}

/// A listing without its last entry lists the map without that entry.
proof fn lemma_listing_front<V>(entries: Map<u64, V>, listing: Seq<(u64, V)>)
    requires
        is_listing(entries, listing),
        listing.len() > 0,
    ensures
        is_listing(entries.remove(listing.last().0), listing.drop_last()),
{
    let last = listing.last();
    let rest = entries.remove(last.0);
    let front = listing.drop_last();
    assert forall|i: int| 0 <= i < front.len() implies rest.contains_key((#[trigger] front[i]).0)
        && rest[front[i].0] == front[i].1 by {
        assert(front[i] == listing[i]);
        assert(listing[i].0 < listing[listing.len() - 1].0);
    }
    assert forall|key: u64| #[trigger] rest.contains_key(key) implies exists|i: int|
        0 <= i < front.len() && (#[trigger] front[i]).0 == key by {
        assert(entries.contains_key(key));
        let i = choose|i: int| 0 <= i < listing.len() && (#[trigger] listing[i]).0 == key;
        assert(i < front.len());
        assert(front[i] == listing[i]);
    }
    assert forall|i: int, j: int| 0 <= i < j < front.len() implies (#[trigger] front[i]).0 < (
    #[trigger] front[j]).0 by {
        assert(front[i] == listing[i]);
        assert(front[j] == listing[j]);
    }
}

/// Whatever lists a map is its listing.
pub proof fn lemma_listing_is_listing_of<V>(entries: Map<u64, V>, listing: Seq<(u64, V)>)
    requires
        is_listing(entries, listing),
    ensures
        listing_of(entries) == listing,
{
    lemma_listing_unique(entries, listing_of(entries), listing);
}

/// Putting two entries under different keys into a map gives the same
/// listing in either order.
pub proof fn lemma_listing_ignores_insertion_order<V>(
    entries: Map<u64, V>,
    first_key: u64,
    first: V,
    second_key: u64,
    second: V,
)
    requires
        first_key != second_key,
    ensures
        listing_of(entries.insert(first_key, first).insert(second_key, second)) == listing_of(
            entries.insert(second_key, second).insert(first_key, first),
        ),
{
    assert(entries.insert(first_key, first).insert(second_key, second) =~= entries.insert(
        second_key,
        second,
    ).insert(first_key, first));
}

} // verus!
