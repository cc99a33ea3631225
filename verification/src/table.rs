//! Bounded tables: rows in the order of their insertion, the lowest-ranked leaving first.

use vstd::prelude::*;

verus! {

/// A row that has a place in the order in which rows are evicted.
pub trait Ranked: View + Sized {
    /// The rank of a row; the lowest goes first.
    spec fn rank_of(row: Self::V) -> int;

    /// The rank of this row.
    fn rank(&self) -> (rank: u128)
        ensures
            rank == Self::rank_of(self@),
    ;
}

/// What rows say.
pub open spec fn views<R: View>(rows: Seq<R>) -> Seq<R::V> {
    rows.map_values(|row: R| row@)
}

/// The ranks of rows.
pub open spec fn ranks<R: Ranked>(rows: Seq<R::V>) -> Seq<int> {
    rows.map_values(|row: R::V| R::rank_of(row))
}

/// The position of the lowest rank, the first of several; for at least one rank.
pub open spec fn first_lowest(ranks: Seq<int>) -> int
    decreases ranks.len(),
{
    if ranks.len() <= 1 {
        0
    } else {
        let before = first_lowest(ranks.drop_last());
        if ranks.last() < ranks[before] {
            ranks.len() - 1
        } else {
            before
        }
    }
}

/// The lowest rank stands at a position, no rank is below it, and none before it is equal.
pub proof fn lemma_first_lowest(ranks: Seq<int>)
    requires
        ranks.len() > 0,
    ensures
        0 <= first_lowest(ranks) < ranks.len(),
        forall|i: int| 0 <= i < ranks.len() ==> ranks[first_lowest(ranks)] <= #[trigger] ranks[i],
        forall|i: int| 0 <= i < first_lowest(ranks) ==> ranks[first_lowest(ranks)] < #[trigger] ranks[i],
    decreases ranks.len(),
{
    if ranks.len() > 1 {
        let head = ranks.drop_last();
        lemma_first_lowest(head);
        assert forall|i: int| 0 <= i < ranks.len() implies ranks[first_lowest(ranks)] <= #[trigger] ranks[i] by {
            if i < head.len() {
                assert(head[i] == ranks[i]);
            }
        }
        assert forall|i: int| 0 <= i < first_lowest(ranks) implies ranks[first_lowest(ranks)] < #[trigger] ranks[i] by {
            assert(head[i] == ranks[i]);
        }
    }
}

/// The rows that stay when a table is cut down to a capacity: the lowest-ranked leave, one by
/// one, the oldest first among equals.
pub open spec fn evicted<R: Ranked>(rows: Seq<R::V>, capacity: nat) -> Seq<R::V>
    decreases rows.len(),
{
    if rows.len() <= capacity {
        rows
    } else {
        let lowest = first_lowest(ranks::<R>(rows));
        if 0 <= lowest < rows.len() {
            evicted::<R>(rows.remove(lowest), capacity)
        } else {
            rows
        }
    }
}

/// Cutting a table down leaves at most the capacity, loses no more than it must, and what stays
/// was there before.
pub proof fn lemma_evicted<R: Ranked>(rows: Seq<R::V>, capacity: nat)
    ensures
        evicted::<R>(rows, capacity).len() == if rows.len() <= capacity {
            rows.len()
        } else {
            capacity
        },
        forall|i: int|
            0 <= i < evicted::<R>(rows, capacity).len() ==> rows.contains(
                #[trigger] evicted::<R>(rows, capacity)[i],
            ),
    decreases rows.len(),
{
    if rows.len() > capacity {
        let lowest = first_lowest(ranks::<R>(rows));
        lemma_first_lowest(ranks::<R>(rows));
        let rest = rows.remove(lowest);
        lemma_evicted::<R>(rest, capacity);
        assert forall|i: int| 0 <= i < evicted::<R>(rows, capacity).len() implies rows.contains(
            #[trigger] evicted::<R>(rows, capacity)[i],
        ) by {
            let row = evicted::<R>(rest, capacity)[i];
            assert(rest.contains(row));
            let k = choose|k: int| 0 <= k < rest.len() && rest[k] == row;
            if k < lowest {
                assert(rows[k] == row);
            } else {
                assert(rows[k + 1] == row);
            }
        }
    } else {
        assert forall|i: int| 0 <= i < rows.len() implies rows.contains(#[trigger] rows[i]) by {}
    }
}

/// A property that holds between any two rows of a table holds of what stays.
pub proof fn lemma_evicted_pairwise<R: Ranked>(
    rows: Seq<R::V>,
    capacity: nat,
    related: spec_fn(R::V, R::V) -> bool,
)
    requires
        forall|i: int, j: int| 0 <= i < j < rows.len() ==> #[trigger] related(rows[i], rows[j]),
    ensures
        forall|i: int, j: int|
            0 <= i < j < evicted::<R>(rows, capacity).len() ==> #[trigger] related(
                evicted::<R>(rows, capacity)[i],
                evicted::<R>(rows, capacity)[j],
            ),
    decreases rows.len(),
{
    if rows.len() > capacity {
        let lowest = first_lowest(ranks::<R>(rows));
        lemma_first_lowest(ranks::<R>(rows));
        let rest = rows.remove(lowest);
        assert forall|i: int, j: int| 0 <= i < j < rest.len() implies #[trigger] related(
            rest[i],
            rest[j],
        ) by {
            let a = if i < lowest {
                i
            } else {
                i + 1
            };
            let b = if j < lowest {
                j
            } else {
                j + 1
            };
            assert(related(rows[a], rows[b]));
        }
        lemma_evicted_pairwise::<R>(rest, capacity, related);
        assert(evicted::<R>(rows, capacity) == evicted::<R>(rest, capacity));
    } else {
        assert(evicted::<R>(rows, capacity) == rows);
    }
}

/// A row that outranks at least as many rows as have to leave stays.
pub proof fn lemma_evicted_keeps_last<R: Ranked>(rows: Seq<R::V>, capacity: nat)
    requires
        rows.len() == capacity + 1,
        capacity >= 1,
        R::rank_of(rows.last()) >= R::rank_of(rows[0]),
    ensures
        evicted::<R>(rows, capacity).len() == capacity,
        evicted::<R>(rows, capacity).last() == rows.last(),
{
    let all = ranks::<R>(rows);
    let lowest = first_lowest(all);
    lemma_first_lowest(all);
    assert(all[0] == R::rank_of(rows[0]));
    assert(all[rows.len() - 1] == R::rank_of(rows.last()));
    assert(lowest < rows.len() - 1);
    let rest = rows.remove(lowest);
    assert(evicted::<R>(rows, capacity) == evicted::<R>(rest, capacity));
    assert(evicted::<R>(rest, capacity) == rest);
}

/// The position of the lowest-ranked row, the first of several.
pub fn lowest_ranked<R: Ranked>(rows: &Vec<R>) -> (position: usize)
    requires
        rows@.len() > 0,
    ensures
        position < rows@.len(),
        position == first_lowest(ranks::<R>(views(rows@))),
{
    let mut position: usize = 0;
    let mut lowest: u128 = rows[0].rank();
    let mut i: usize = 1;
    let ghost all = ranks::<R>(views(rows@));
    assert(all.take(1).len() == 1);
    while i < rows.len()
        invariant
            1 <= i <= rows@.len(),
            position < i,
            all == ranks::<R>(views(rows@)),
            lowest == all[position as int],
            position == first_lowest(all.take(i as int)),
        decreases rows@.len() - i,
    {
        let rank: u128 = rows[i].rank();
        assert(rank == all[i as int]);
        assert(all.take(i + 1).drop_last() =~= all.take(i as int));
        if rank < lowest {
            lowest = rank;
            position = i;
        }
        i += 1;
    }
    assert(all.take(i as int) =~= all);
    position
}

/// Cuts a table down to its capacity.
pub fn enforce_capacity<R: Ranked>(rows: &mut Vec<R>, capacity: usize)
    ensures
        views(final(rows)@) == evicted::<R>(views(old(rows)@), capacity as nat),
{
    while rows.len() > capacity
        invariant
            evicted::<R>(views(rows@), capacity as nat) == evicted::<R>(
                views(old(rows)@),
                capacity as nat,
            ),
        decreases rows@.len(),
    {
        let position: usize = lowest_ranked(rows);
        let ghost before = rows@;
        let _ = rows.remove(position);
        assert(views(rows@) =~= views(before).remove(position as int));
    }
}

// ---------------------------------------------------------------------------------------------
// Which rows are meant
// ---------------------------------------------------------------------------------------------

/// The positions are exactly those below `len` that are wanted, each once, in ascending order.
pub open spec fn lists(from: Seq<int>, len: nat, wanted: spec_fn(int) -> bool) -> bool {
    &&& forall|j: int|
        0 <= j < from.len() ==> 0 <= (#[trigger] from[j]) < len && wanted(from[j])
    &&& forall|j: int, k: int|
        0 <= j < k < from.len() ==> (#[trigger] from[j]) < (#[trigger] from[k])
    &&& forall|i: int| 0 <= i < len && #[trigger] wanted(i) ==> from.contains(i)
}

/// The positions of the rows that pass a test, in ascending order.
pub open spec fn positions<V>(rows: Seq<V>, keeps: spec_fn(V) -> bool) -> Seq<int>
    decreases rows.len(),
{
    if rows.len() == 0 {
        Seq::empty()
    } else {
        let head = positions(rows.drop_last(), keeps);
        if keeps(rows.last()) {
            head.push(rows.len() - 1)
        } else {
            head
        }
    }
}

/// Filtering picks the rows that pass the test, all of them, in their order.
pub proof fn lemma_positions<V>(rows: Seq<V>, keeps: spec_fn(V) -> bool)
    ensures
        lists(positions(rows, keeps), rows.len(), |i: int| keeps(rows[i])),
        positions(rows, keeps).len() == rows.filter(keeps).len(),
        forall|j: int|
            #![trigger rows.filter(keeps)[j]]
            #![trigger positions(rows, keeps)[j]]
            0 <= j < rows.filter(keeps).len() ==> rows.filter(keeps)[j] == rows[positions(
                rows,
                keeps,
            )[j]],
    decreases rows.len(),
{
    reveal(Seq::filter);
    let wanted = |i: int| keeps(rows[i]);
    let from = positions(rows, keeps);
    let kept = rows.filter(keeps);
    if rows.len() > 0 {
        let head = rows.drop_last();
        lemma_positions(head, keeps);
        let before = positions(head, keeps);
        let last = rows.len() - 1;
        assert forall|j: int| 0 <= j < from.len() implies 0 <= (#[trigger] from[j]) < rows.len()
            && wanted(from[j]) && kept[j] == rows[from[j]] by {
            if j < before.len() {
                assert(from[j] == before[j]);
                assert(head[before[j]] == rows[before[j]]);
                assert(kept[j] == head.filter(keeps)[j]);
            }
        }
        assert forall|j: int, k: int| 0 <= j < k < from.len() implies (#[trigger] from[j]) < (
        #[trigger] from[k]) by {
            assert(from[j] == before[j]);
            if k < before.len() {
                assert(from[k] == before[k]);
            }
        }
        assert forall|i: int| 0 <= i < rows.len() && #[trigger] wanted(i) implies from.contains(i) by {
            if i < last {
                assert(head[i] == rows[i]);
                let head_wanted = |i: int| keeps(head[i]);
                assert(head_wanted(i));
                let j = choose|j: int| 0 <= j < before.len() && before[j] == i;
                assert(from[j] == i);
            } else {
                assert(from[from.len() - 1] == i);
            }
        }
    }
}

} // verus!
