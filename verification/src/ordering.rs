//! Stable ordering by rank.
//!
//! Items are put in the order of their ranks, lowest first. Items of one
//! rank stay in the order in which they were given.

use vstd::prelude::*;
use crate::listing::views;

verus! {

/// Something that has a rank to be ordered by.
pub trait Ranked: View {
    /// The rank of an item.
    spec fn rank(value: Self::V) -> u64;

    fn rank_of(&self) -> (rank: u64)
        ensures
            rank == Self::rank(self@),
    ;
}

/// The ranks of a list of items.
pub open spec fn ranks_of<T: Ranked>(items: Seq<T::V>) -> Seq<u64> {
    Seq::new(items.len(), |i: int| T::rank(items[i]))
}

/// Position `a` comes before position `b`: its rank is lower, or the ranks
/// are the same and `a` is the earlier position.
pub open spec fn precedes(ranks: Seq<u64>, a: int, b: int) -> bool {
    ranks[a] < ranks[b] || (ranks[a] == ranks[b] && a < b)
}

/// `order` names each of the positions in `members` once, in the order in
/// which [`precedes`] puts them.
pub open spec fn orders(ranks: Seq<u64>, members: Set<int>, order: Seq<int>) -> bool {
    &&& forall|i: int| 0 <= i < order.len() ==> members.contains(#[trigger] order[i])
    &&& forall|position: int| members.contains(position) ==> #[trigger] order.contains(position)
    &&& forall|i: int, j: int|
        0 <= i < j < order.len() ==> precedes(ranks, #[trigger] order[i], #[trigger] order[j])
}

/// The first `n` positions.
pub open spec fn positions(n: int) -> Set<int> {
    Set::new(|position: int| 0 <= position < n)
}

/// `order` is the stable order of the positions of `ranks`: it names each
/// position once, a lower rank before a higher one, and positions of one
/// rank as they stand.
pub open spec fn is_stable_order(ranks: Seq<u64>, order: Seq<int>) -> bool {
    orders(ranks, positions(ranks.len() as int), order)
}

/// The stable order of the positions of `ranks`.
pub open spec fn stable_order(ranks: Seq<u64>) -> Seq<int> {
    choose|order: Seq<int>| is_stable_order(ranks, order)
}

/// The items at the positions that `order` names, in that order.
pub open spec fn arranged<V>(items: Seq<V>, order: Seq<int>) -> Seq<V> {
    Seq::new(order.len(), |i: int| items[order[i]])
}

/// The items in the stable order of their ranks.
pub open spec fn sorted_by_rank<T: Ranked>(items: Seq<T::V>) -> Seq<T::V> {
    arranged(items, stable_order(ranks_of::<T>(items)))
}

/// There is one order only of given positions.
pub proof fn lemma_order_unique(ranks: Seq<u64>, members: Set<int>, a: Seq<int>, b: Seq<int>)
    requires
        orders(ranks, members, a),
        orders(ranks, members, b),
    ensures
        a == b,
    decreases a.len(),
{
    if a.len() == 0 {
        if b.len() > 0 {
            assert(members.contains(b[0]));
            assert(a.contains(b[0]));
        }
        assert(a =~= b);
    } else {
        let last_a = a.last();
        assert(members.contains(last_a));
        assert(b.contains(last_a));
        let j = choose|j: int| 0 <= j < b.len() && b[j] == last_a;
        let last_b = b.last();
        assert(members.contains(last_b));
        assert(a.contains(last_b));
        let i = choose|i: int| 0 <= i < a.len() && a[i] == last_b;
        if i < a.len() - 1 {
            assert(precedes(ranks, a[i], a[a.len() - 1]));
        }
        if j < b.len() - 1 {
            assert(precedes(ranks, b[j], b[b.len() - 1]));
        }
        assert(last_a == last_b);
        lemma_order_front(ranks, members, a);
        lemma_order_front(ranks, members, b);
        lemma_order_unique(ranks, members.remove(last_a), a.drop_last(), b.drop_last());
        assert(a =~= a.drop_last().push(last_a));
        assert(b =~= b.drop_last().push(last_b));
    }
}

/// An order without its last position orders the other positions.
proof fn lemma_order_front(ranks: Seq<u64>, members: Set<int>, order: Seq<int>)
    requires
        orders(ranks, members, order),
        order.len() > 0,
    ensures
        orders(ranks, members.remove(order.last()), order.drop_last()),
{
    let last = order.last();
    let front = order.drop_last();
    let rest = members.remove(last);
    assert forall|i: int| 0 <= i < front.len() implies rest.contains(#[trigger] front[i]) by {
        assert(front[i] == order[i]);
        assert(precedes(ranks, order[i], order[order.len() - 1]));
    }
    assert forall|position: int| rest.contains(position) implies #[trigger] front.contains(
        position,
    ) by {
        assert(order.contains(position));
        let i = choose|i: int| 0 <= i < order.len() && order[i] == position;
        assert(front[i] == position);
    }
    assert forall|i: int, j: int| 0 <= i < j < front.len() implies precedes(
        ranks,
        #[trigger] front[i],
        #[trigger] front[j],
    ) by {
        assert(front[i] == order[i]);
        assert(front[j] == order[j]);
    }
}

/// Whatever is a stable order of the ranks is their stable order.
pub proof fn lemma_stable_order_unique(ranks: Seq<u64>, order: Seq<int>)
    requires
        is_stable_order(ranks, order),
    ensures
        stable_order(ranks) == order,
{
    lemma_order_unique(ranks, positions(ranks.len() as int), stable_order(ranks), order);
}

/// In the stable order, two positions of the same rank stand as they stood:
/// the earlier one comes first.
pub proof fn lemma_equal_ranks_keep_their_order(ranks: Seq<u64>, order: Seq<int>, i: int, j: int)
    requires
        is_stable_order(ranks, order),
        0 <= i < order.len(),
        0 <= j < order.len(),
        ranks[order[i]] == ranks[order[j]],
        order[i] < order[j],
    ensures
        i < j,
{
    if j < i {
        assert(precedes(ranks, order[j], order[i]));
    }
}

/// Putting position `k` into an order of the positions before it, after the
/// positions of no higher rank and before those of a higher rank, gives an
/// order of the positions up to `k`.
proof fn lemma_order_insert(ranks: Seq<u64>, order: Seq<int>, k: int, at: int)
    requires
        0 <= k < ranks.len(),
        orders(ranks, positions(k), order),
        0 <= at <= order.len(),
        forall|m: int| 0 <= m < at ==> ranks[#[trigger] order[m]] <= ranks[k],
        at < order.len() ==> ranks[order[at]] > ranks[k],
    ensures
        orders(ranks, positions(k + 1), order.insert(at, k)),
{
    let longer = order.insert(at, k);
    order.insert_ensures(at, k);
    assert forall|i: int| 0 <= i < longer.len() implies positions(k + 1).contains(
        #[trigger] longer[i],
    ) by {
        if i < at {
            assert(positions(k).contains(order[i]));
        } else if i > at {
            assert(positions(k).contains(order[i - 1]));
        }
    }
    assert forall|position: int| positions(k + 1).contains(
        position,
    ) implies #[trigger] longer.contains(position) by {
        if position == k {
            assert(longer[at] == k);
        } else {
            assert(positions(k).contains(position));
            assert(order.contains(position));
            let i = choose|i: int| 0 <= i < order.len() && order[i] == position;
            if i < at {
                assert(longer[i] == position);
            } else {
                assert(longer[i + 1] == position);
            }
        }
    }
    assert forall|i: int, j: int| 0 <= i < j < longer.len() implies precedes(
        ranks,
        #[trigger] longer[i],
        #[trigger] longer[j],
    ) by {
        if i == at {
            // k before a later position: that one has a higher rank.
            assert(longer[j] == order[j - 1]);
            if j - 1 > at {
                assert(precedes(ranks, order[at], order[j - 1]));
            }
        } else if j == at {
            // an earlier position before k: no higher rank, and it stood
            // before k.
            assert(longer[i] == order[i]);
            assert(positions(k).contains(order[i]));
        } else {
            let a = if i < at {
                i
            } else {
                i - 1
            };
            let b = if j < at {
                j
            } else {
                j - 1
            };
            assert(longer[i] == order[a]);
            assert(longer[j] == order[b]);
            assert(precedes(ranks, order[a], order[b]));
        }
    }
}

/// The first place from `from` on in `order` that holds a position of a
/// rank above `rank`, or the length of `order` if there is none.
proof fn lemma_first_above(ranks: Seq<u64>, order: Seq<int>, rank: u64, from: int) -> (at: int)
    requires
        0 <= from <= order.len(),
        forall|m: int| 0 <= m < from ==> ranks[#[trigger] order[m]] <= rank,
    ensures
        from <= at <= order.len(),
        forall|m: int| 0 <= m < at ==> ranks[#[trigger] order[m]] <= rank,
        at < order.len() ==> ranks[order[at]] > rank,
    decreases order.len() - from,
{
    if from == order.len() || ranks[order[from]] > rank {
        from
    } else {
        lemma_first_above(ranks, order, rank, from + 1)
    }
}

/// Every list of ranks has a stable order, and that order names as many
/// positions as there are ranks.
pub proof fn lemma_stable_order(ranks: Seq<u64>)
    ensures
        is_stable_order(ranks, stable_order(ranks)),
        stable_order(ranks).len() == ranks.len(),
{
    let order = lemma_order_built(ranks, ranks.len() as int);
    lemma_stable_order_unique(ranks, order);
}

/// The first `n` positions can be put in an order of length `n`.
proof fn lemma_order_built(ranks: Seq<u64>, n: int) -> (order: Seq<int>)
    requires
        0 <= n <= ranks.len(),
    ensures
        orders(ranks, positions(n), order),
        order.len() == n,
    decreases n,
{
    if n == 0 {
        Seq::empty()
    } else {
        let before = lemma_order_built(ranks, n - 1);
        let at = lemma_first_above(ranks, before, ranks[n - 1], 0);
        lemma_order_insert(ranks, before, n - 1, at);
        before.insert_ensures(at, n - 1);
        before.insert(at, n - 1)
    }
}

/// The sorted items are the given items, each once: as many as were given,
/// and each given item stands somewhere among them.
pub proof fn lemma_sorted_holds_the_same<T: Ranked>(items: Seq<T::V>)
    ensures
        sorted_by_rank::<T>(items).len() == items.len(),
        forall|i: int| 0 <= i < items.len() ==> sorted_by_rank::<T>(items).contains(
            #[trigger] items[i],
        ),
        forall|i: int|
            0 <= i < items.len() ==> items.contains(#[trigger] sorted_by_rank::<T>(items)[i]),
{
    let ranks = ranks_of::<T>(items);
    let order = stable_order(ranks);
    let sorted = sorted_by_rank::<T>(items);
    lemma_stable_order(ranks);
    assert forall|i: int| 0 <= i < items.len() implies sorted.contains(#[trigger] items[i]) by {
        assert(positions(ranks.len() as int).contains(i));
        assert(order.contains(i));
        let at = choose|at: int| 0 <= at < order.len() && order[at] == i;
        assert(sorted[at] == items[i]);
    }
    assert forall|i: int| 0 <= i < items.len() implies items.contains(#[trigger] sorted[i]) by {
        assert(positions(ranks.len() as int).contains(order[i]));
        assert(items[order[i]] == sorted[i]);
    }
}

/// The sorted items stand by rank, lowest first.
pub proof fn lemma_sorted_ascends<T: Ranked>(items: Seq<T::V>, i: int, j: int)
    requires
        0 <= i <= j < items.len(),
    ensures
        sorted_by_rank::<T>(items).len() == items.len(),
        T::rank(sorted_by_rank::<T>(items)[i]) <= T::rank(sorted_by_rank::<T>(items)[j]),
{
    let ranks = ranks_of::<T>(items);
    let order = stable_order(ranks);
    lemma_stable_order(ranks);
    assert(positions(ranks.len() as int).contains(order[i]));
    assert(positions(ranks.len() as int).contains(order[j]));
    if i < j {
        assert(precedes(ranks, order[i], order[j]));
    }
}

/// Puts the items in the stable order of their ranks.
pub fn sort_by_rank<T: Ranked>(items: Vec<T>) -> (sorted: Vec<T>)
    ensures
        views(sorted@) == sorted_by_rank::<T>(views(items@)),
{
    let ghost given = views(items@);
    let ghost ranks = ranks_of::<T>(given);
    let ghost mut order: Seq<int> = Seq::empty();
    let mut sorted: Vec<T> = Vec::new();
    for item in it: items
        invariant
            it.seq() == items@,
            given == views(items@),
            ranks == ranks_of::<T>(given),
            orders(ranks, positions(it.index() as int), order),
            sorted@.len() == order.len(),
            views(sorted@) == arranged(given, order),
    {
        let ghost k = it.index() as int;
        let ghost before = sorted@;
        assert(item@ == given[k]);
        let rank = item.rank_of();
        let mut at: usize = 0;
        while at < sorted.len() && sorted[at].rank_of() <= rank
            invariant
                at <= sorted@.len(),
                sorted@ == before,
                sorted@.len() == order.len(),
                views(sorted@) == arranged(given, order),
                ranks == ranks_of::<T>(given),
                orders(ranks, positions(k), order),
                0 <= k < given.len(),
                forall|m: int| 0 <= m < at ==> ranks[#[trigger] order[m]] <= rank,
            decreases sorted@.len() - at,
        {
            proof {
                assert(views(sorted@)[at as int] == arranged(given, order)[at as int]);
                assert(positions(k).contains(order[at as int]));
                assert(ranks[order[at as int]] == T::rank(given[order[at as int]]));
            }
            at += 1;
        }
        proof {
            if at < sorted@.len() {
                assert(views(sorted@)[at as int] == arranged(given, order)[at as int]);
                assert(positions(k).contains(order[at as int]));
                assert(ranks[order[at as int]] == T::rank(given[order[at as int]]));
            }
            lemma_order_insert(ranks, order, k, at as int);
            order.insert_ensures(at as int, k);
            before.insert_ensures(at as int, item);
        }
        sorted.insert(at, item);
        proof {
            order = order.insert(at as int, k);
            assert(views(sorted@) =~= arranged(given, order)) by {
                assert forall|i: int| 0 <= i < sorted@.len() implies views(sorted@)[i] == arranged(
                    given,
                    order,
                )[i] by {
                    if i < at {
                        assert(views(before)[i] == given[order[i]]);
                    } else if i > at {
                        assert(views(before)[i - 1] == given[order[i]]);
                    }
                }
            }
        }
    }
    proof {
        assert(items@.len() == given.len());
        lemma_stable_order_unique(ranks, order);
    }
    sorted
}

} // verus!
