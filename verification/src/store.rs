//! Short-term memory of message ids alone.

use vstd::prelude::*;

use crate::bytes;
use crate::flood_guard;

verus! {

/// Remembers which message ids have been met.
pub struct SeenCache {
    order: Vec<[u8; 16]>,
    capacity: usize,
}

impl View for SeenCache {
    type V = Seq<[u8; 16]>;

    /// The ids remembered, oldest first.
    closed spec fn view(&self) -> Seq<[u8; 16]> {
        self.order@
    }
}

impl SeenCache {
    /// How many ids are remembered at most.
    pub closed spec fn limit(&self) -> nat {
        self.capacity as nat
    }

    /// An empty memory of the given capacity.
    pub fn new(capacity: usize) -> (cache: SeenCache)
        ensures
            cache@ == Seq::<[u8; 16]>::empty(),
            cache.limit() == capacity,
            flood_guard::well_kept(cache@, cache.limit()),
    {
        SeenCache { order: Vec::new(), capacity }
    }

    /// Records an id; `true` where it was not remembered.
    pub fn check_and_insert(&mut self, id: [u8; 16]) -> (fresh: bool)
        ensures
            fresh == !old(self)@.contains(id),
            final(self)@ == flood_guard::recorded(old(self)@, id, old(self).limit()),
            final(self).limit() == old(self).limit(),
            flood_guard::well_kept(old(self)@, old(self).limit()) ==> flood_guard::well_kept(
                final(self)@,
                final(self).limit(),
            ),
    {
        proof {
            if flood_guard::well_kept(self@, self.limit()) {
                flood_guard::law_memory_stays_bounded(self@, id, self.limit());
            }
        }
        let mut i: usize = 0;
        while i < self.order.len()
            invariant
                i <= self.order@.len(),
                forall|j: int| 0 <= j < i ==> self.order@[j] != id,
            decreases self.order@.len() - i,
        {
            if bytes::same_array(&self.order[i], &id) {
                return false;
            }
            i += 1;
        }
        assert(!self.order@.contains(id));
        let ghost before = self.order@;
        self.order.push(id);
        if self.order.len() > self.capacity {
            let _ = self.order.remove(0);
            assert(self.order@ =~= before.push(id).drop_first());
        }
        true
    }
}

} // verus!
