//! Putting records in order of time.

use vstd::prelude::*;

use crate::table;

verus! {

/// A record with a time.
pub trait Timed: View + Sized {
    /// The time of a record.
    spec fn time_of(record: Self::V) -> u64;

    /// The time of this record.
    fn time(&self) -> (time: u64)
        ensures
            time == Self::time_of(self@),
    ;
}

/// Where a record of the given time goes among records in order: behind all that are not later.
pub open spec fn slot<R: Timed>(ordered: Seq<R::V>, time: u64) -> int
    decreases ordered.len(),
{
    if ordered.len() == 0 {
        0
    } else if R::time_of(ordered.last()) <= time {
        ordered.len() as int
    } else {
        slot::<R>(ordered.drop_last(), time)
    }
}

/// Records from the earliest to the latest; those of one time stay as they were.
pub open spec fn by_time<R: Timed>(records: Seq<R::V>) -> Seq<R::V>
    decreases records.len(),
{
    if records.len() == 0 {
        records
    } else {
        let ordered = by_time::<R>(records.drop_last());
        ordered.insert(slot::<R>(ordered, R::time_of(records.last())), records.last())
    }
}

/// No record is later than the one after it.
pub open spec fn in_order<R: Timed>(records: Seq<R::V>) -> bool {
    forall|i: int, j: int|
        0 <= i < j < records.len() ==> R::time_of(#[trigger] records[i]) <= R::time_of(
            #[trigger] records[j],
        )
}

proof fn lemma_slot<R: Timed>(ordered: Seq<R::V>, time: u64)
    ensures
        0 <= slot::<R>(ordered, time) <= ordered.len(),
        slot::<R>(ordered, time) > 0 ==> R::time_of(ordered[slot::<R>(ordered, time) - 1]) <= time,
        forall|i: int|
            slot::<R>(ordered, time) <= i < ordered.len() ==> R::time_of(#[trigger] ordered[i])
                > time,
    decreases ordered.len(),
{
    if ordered.len() > 0 && R::time_of(ordered.last()) > time {
        let head = ordered.drop_last();
        lemma_slot::<R>(head, time);
        assert forall|i: int| slot::<R>(ordered, time) <= i < ordered.len() implies R::time_of(
            #[trigger] ordered[i],
        ) > time by {
            if i < head.len() {
                assert(head[i] == ordered[i]);
            }
        }
    }
}

/// Ordering by time orders by time, and neither adds nor loses a record.
pub proof fn law_by_time_orders<R: Timed>(records: Seq<R::V>)
    ensures
        in_order::<R>(by_time::<R>(records)),
        by_time::<R>(records).to_multiset() == records.to_multiset(),
        by_time::<R>(records).len() == records.len(),
    decreases records.len(),
{
    broadcast use vstd::seq_lib::group_to_multiset_ensures;

    if records.len() > 0 {
        let head = records.drop_last();
        let last = records.last();
        law_by_time_orders::<R>(head);
        let ordered = by_time::<R>(head);
        let at = slot::<R>(ordered, R::time_of(last));
        lemma_slot::<R>(ordered, R::time_of(last));
        let all = ordered.insert(at, last);
        assert forall|i: int, j: int| 0 <= i < j < all.len() implies R::time_of(#[trigger] all[i])
            <= R::time_of(#[trigger] all[j]) by {
            let a = if i < at {
                i
            } else {
                i - 1
            };
            let b = if j < at {
                j
            } else {
                j - 1
            };
            if i != at && j != at {
                assert(ordered[a] == all[i] && ordered[b] == all[j]);
            } else if i == at {
                assert(ordered[b] == all[j]);
            } else {
                assert(ordered[a] == all[i]);
                if a < at - 1 {
                    assert(R::time_of(ordered[a]) <= R::time_of(ordered[at - 1]));
                }
            }
        }
        assert(records =~= head.push(last));
        assert(ordered.insert(at, last).to_multiset() == ordered.to_multiset().insert(last));
        assert(head.push(last).to_multiset() == head.to_multiset().insert(last));
    } else {
        assert(by_time::<R>(records) == records);
    }
}

/// The records at the given positions.
pub open spec fn picked<V>(records: Seq<V>, positions: Seq<usize>) -> Seq<V> {
    Seq::new(positions.len(), |i: int| records[positions[i] as int])
}

/// All positions are positions of records.
pub open spec fn within(positions: Seq<usize>, len: nat) -> bool {
    forall|i: int| 0 <= i < positions.len() ==> (#[trigger] positions[i]) < len
}

/// The positions of records in order of time.
pub fn order_by_time<R: Timed>(records: &Vec<R>) -> (positions: Vec<usize>)
    ensures
        within(positions@, records@.len()),
        picked(table::views(records@), positions@) == by_time::<R>(table::views(records@)),
{
    let ghost all = table::views(records@);
    let mut positions: Vec<usize> = Vec::new();
    let mut i: usize = 0;
    assert(picked(all, positions@) =~= by_time::<R>(all.take(0)));
    while i < records.len()
        invariant
            i <= records@.len(),
            all == table::views(records@),
            within(positions@, i as nat),
            picked(all, positions@) == by_time::<R>(all.take(i as int)),
        decreases records@.len() - i,
    {
        let time: u64 = records[i].time();
        let ghost ordered = picked(all, positions@);
        assert(all[i as int] == records@[i as int]@);
        assert(all.take(i + 1).drop_last() =~= all.take(i as int));
        assert(all.take(i + 1).last() == all[i as int]);
        let mut at: usize = positions.len();
        assert(ordered.take(at as int) =~= ordered);
        while at > 0 && records[positions[at - 1]].time() > time
            invariant
                at <= positions@.len(),
                all == table::views(records@),
                i < records@.len(),
                within(positions@, i as nat),
                ordered == picked(all, positions@),
                slot::<R>(ordered.take(at as int), time) == slot::<R>(ordered, time),
            decreases at,
        {
            assert(ordered[at - 1] == records@[positions@[at - 1] as int]@);
            assert(ordered.take(at as int).drop_last() =~= ordered.take(at - 1));
            at -= 1;
        }
        assert(slot::<R>(ordered, time) == at) by {
            if at > 0 {
                assert(ordered.take(at as int).last() == ordered[at - 1]);
                assert(ordered[at - 1] == records@[positions@[at - 1] as int]@);
            }
        }
        let ghost before = positions@;
        positions.insert(at, i);
        i += 1;
        assert(positions@ == before.insert(at as int, (i - 1) as usize));
        assert(within(positions@, i as nat)) by {
            assert forall|k: int| 0 <= k < positions@.len() implies (#[trigger] positions@[k]) < i by {
                if k < at {
                    assert(positions@[k] == before[k]);
                } else if k > at {
                    assert(positions@[k] == before[k - 1]);
                }
            }
        }
        assert(picked(all, positions@) =~= ordered.insert(at as int, all[i - 1]));
    }
    assert(all.take(i as int) =~= all);
    positions
}

/// Ordering by time rearranges: every record is there once, an earlier one stands before a later
/// one, and those of one time stand as they stood.
pub proof fn law_by_time_rearranges<R: Timed>(records: Seq<R::V>) -> (from: Seq<int>)
    ensures
        from.len() == records.len(),
        by_time::<R>(records).len() == records.len(),
        forall|k: int|
            0 <= k < from.len() ==> 0 <= (#[trigger] from[k]) < records.len() && by_time::<R>(
                records,
            )[k] == records[from[k]],
        forall|k: int, l: int|
            0 <= k < l < from.len() ==> {
                &&& (#[trigger] from[k]) != (#[trigger] from[l])
                &&& R::time_of(records[from[k]]) <= R::time_of(records[from[l]])
                &&& R::time_of(records[from[k]]) == R::time_of(records[from[l]]) ==> from[k]
                    < from[l]
            },
        forall|i: int| 0 <= i < records.len() ==> #[trigger] from.contains(i),
    decreases records.len(),
{
    if records.len() == 0 {
        Seq::empty()
    } else {
        let head = records.drop_last();
        let last = records.last();
        let n = records.len() - 1;
        let before = law_by_time_rearranges::<R>(head);
        let ordered = by_time::<R>(head);
        let time = R::time_of(last);
        let at = slot::<R>(ordered, time);
        lemma_slot::<R>(ordered, time);
        let from = before.insert(at, n);
        let all = by_time::<R>(records);
        assert(all == ordered.insert(at, last));
        assert forall|k: int| 0 <= k < from.len() implies 0 <= (#[trigger] from[k]) < records.len()
            && all[k] == records[from[k]] by {
            if k < at {
                assert(from[k] == before[k]);
                assert(ordered[k] == head[before[k]]);
            } else if k > at {
                assert(from[k] == before[k - 1]);
                assert(ordered[k - 1] == head[before[k - 1]]);
            }
        }
        assert forall|k: int, l: int| 0 <= k < l < from.len() implies {
            &&& (#[trigger] from[k]) != (#[trigger] from[l])
            &&& R::time_of(records[from[k]]) <= R::time_of(records[from[l]])
            &&& R::time_of(records[from[k]]) == R::time_of(records[from[l]]) ==> from[k] < from[l]
        } by {
            let a = if k < at {
                k
            } else {
                k - 1
            };
            let b = if l < at {
                l
            } else {
                l - 1
            };
            if k != at && l != at {
                assert(from[k] == before[a] && from[l] == before[b]);
                assert(before[a] != before[b]);
                assert(head[before[a]] == records[before[a]]);
                assert(head[before[b]] == records[before[b]]);
            } else if k == at {
                assert(from[l] == before[b]);
                assert(ordered[b] == head[before[b]]);
                assert(R::time_of(ordered[b]) > time);
            } else {
                assert(from[k] == before[a]);
                assert(ordered[a] == head[before[a]]);
                assert(ordered[at - 1] == head[before[at - 1]]);
                if a < at - 1 {
                    assert(before[a] != before[at - 1]);
                    assert(R::time_of(head[before[a]]) <= R::time_of(head[before[at - 1]]));
                }
            }
        }
        assert forall|i: int| 0 <= i < records.len() implies #[trigger] from.contains(i) by {
            if i < n {
                assert(before.contains(i));
                let k = choose|k: int| 0 <= k < before.len() && before[k] == i;
                if k < at {
                    assert(from[k] == i);
                } else {
                    assert(from[k + 1] == i);
                }
            } else {
                assert(from[at] == i);
            }
        }
        from
    }
}

} // verus!
