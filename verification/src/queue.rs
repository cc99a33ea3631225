//! Queues that forget their oldest item rather than grow without bound.

use std::collections::VecDeque;
use vstd::prelude::*;

use crate::table;

verus! {

/// The items after one more has come: where that is too many, the oldest is gone.
pub open spec fn queued<V>(items: Seq<V>, item: V, capacity: nat) -> Seq<V> {
    let all = items.push(item);
    if all.len() > capacity {
        all.drop_first()
    } else {
        all
    }
}

/// Items waiting to be taken, in the order in which they came.
pub struct BoundedQueue<T> {
    items: VecDeque<T>,
    capacity: usize,
}

impl<T: View> View for BoundedQueue<T> {
    type V = Seq<T::V>;

    closed spec fn view(&self) -> Seq<T::V> {
        table::views(self.items@)
    }
}

impl<T: View> BoundedQueue<T> {
    /// How many items are kept at most.
    pub closed spec fn limit(self) -> nat {
        self.capacity as nat
    }

    /// Nothing waiting.
    pub fn new(capacity: usize) -> (queue: BoundedQueue<T>)
        ensures
            queue@ == Seq::<T::V>::empty(),
            queue.limit() == capacity,
    {
        let queue = BoundedQueue { items: VecDeque::new(), capacity };
        assert(queue@ =~= Seq::<T::V>::empty());
        queue
    }

    /// Puts an item behind all others.
    pub fn push(&mut self, item: T)
        ensures
            final(self)@ == queued(old(self)@, item@, old(self).limit()),
            final(self).limit() == old(self).limit(),
    {
        self.items.push_back(item);
        assert(self@ =~= old(self)@.push(item@));
        if self.items.len() > self.capacity {
            let _ = self.items.pop_front();
        }
        assert(self@ =~= queued(old(self)@, item@, old(self).limit()));
    }

    /// Takes the oldest item.
    pub fn pop(&mut self) -> (item: Option<T>)
        ensures
            item is None <==> old(self)@.len() == 0,
            match item {
                Some(i) => i@ == old(self)@[0] && final(self)@ == old(self)@.drop_first(),
                None => final(self)@ == old(self)@,
            },
            final(self).limit() == old(self).limit(),
    {
        let item = self.items.pop_front();
        assert(item is Some ==> self@ =~= old(self)@.drop_first());
        item
    }

    /// How many items are waiting.
    pub fn len(&self) -> (len: usize)
        ensures
            len == self@.len(),
    {
        self.items.len()
    }
}

/// A queue within its bound stays within it.
pub proof fn law_queue_stays_bounded<V>(items: Seq<V>, item: V, capacity: nat)
    requires
        items.len() <= capacity,
    ensures
        queued(items, item, capacity).len() <= capacity,
{
}

/// The item that came last is waiting, behind those that were waiting before it.
pub proof fn law_latest_item_waits<V>(items: Seq<V>, item: V, capacity: nat)
    requires
        items.len() <= capacity,
        capacity >= 1,
    ensures
        queued(items, item, capacity).len() >= 1,
        queued(items, item, capacity).last() == item,
        queued(items, item, capacity).drop_last() == if items.len() < capacity {
            items
        } else {
            items.drop_first()
        },
{
    assert(queued(items, item, capacity).drop_last() =~= if items.len() < capacity {
        items
    } else {
        items.drop_first()
    });
}

} // verus!
