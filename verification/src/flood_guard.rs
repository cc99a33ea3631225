//! Short-term memory of packets: have we met this one since the node started?
//!
//! Held in memory only and forgotten at restart. It is the only check live call frames get, for
//! which a durable record would be too slow and of no use; durable replay protection is a
//! separate matter.

use vstd::prelude::*;

use crate::bytes;
use crate::identity::NodeId;

verus! {

/// How many packets are remembered by default.
pub const DEFAULT_CAPACITY: usize = 4096;

/// The memory after `key` has been met: added at the end unless it is there, and the oldest
/// forgotten where there are more than `capacity`.
pub open spec fn recorded<K>(seen: Seq<K>, key: K, capacity: nat) -> Seq<K> {
    if seen.contains(key) {
        seen
    } else if seen.len() + 1 > capacity {
        seen.push(key).drop_first()
    } else {
        seen.push(key)
    }
}

/// Nothing is remembered twice, and no more than the capacity.
pub open spec fn well_kept<K>(seen: Seq<K>, capacity: nat) -> bool {
    seen.no_duplicates() && seen.len() <= capacity
}

/// Remembering keeps the memory free of duplicates and within its capacity.
pub proof fn law_memory_stays_bounded<K>(seen: Seq<K>, key: K, capacity: nat)
    requires
        well_kept(seen, capacity),
    ensures
        well_kept(recorded(seen, key, capacity), capacity),
{
    let all = seen.push(key);
    if !seen.contains(key) {
        assert(all.no_duplicates());
        assert(all.drop_first().no_duplicates());
    }
}

/// What has just been met is met again: the second time it is not new. A memory of no capacity
/// at all remembers nothing.
pub proof fn law_met_again_is_not_new<K>(seen: Seq<K>, key: K, capacity: nat)
    requires
        capacity >= 1,
        seen.len() <= capacity,
    ensures
        recorded(seen, key, capacity).contains(key),
        recorded(recorded(seen, key, capacity), key, capacity) == recorded(seen, key, capacity),
{
    if !seen.contains(key) {
        let all = seen.push(key);
        assert(all[seen.len() as int] == key);
        if seen.len() + 1 > capacity {
            assert(all.drop_first()[seen.len() - 1] == key);
        }
    }
}

/// Meeting one packet makes no other look met.
pub proof fn law_others_stay_new<K>(seen: Seq<K>, key: K, other: K, capacity: nat)
    requires
        key != other,
        !seen.contains(other),
    ensures
        !recorded(seen, key, capacity).contains(other),
{
    let all = seen.push(key);
    assert(!all.contains(other));
    if all.drop_first().contains(other) {
        let i = choose|i: int| 0 <= i < all.drop_first().len() && all.drop_first()[i] == other;
        assert(all[i + 1] == other);
    }
}

/// Remembers which packets have been met.
pub struct FloodGuard {
    order: Vec<(NodeId, [u8; 16])>,
    capacity: usize,
}

impl View for FloodGuard {
    type V = Seq<(NodeId, [u8; 16])>;

    /// The packets remembered, oldest first.
    closed spec fn view(&self) -> Seq<(NodeId, [u8; 16])> {
        self.order@
    }
}

impl FloodGuard {
    /// How many packets are remembered at most.
    pub closed spec fn limit(&self) -> nat {
        self.capacity as nat
    }

    /// An empty memory of the default capacity.
    pub fn new() -> (guard: FloodGuard)
        ensures
            guard@ == Seq::<(NodeId, [u8; 16])>::empty(),
            guard.limit() == DEFAULT_CAPACITY,
            well_kept(guard@, guard.limit()),
    {
        Self::with_capacity(DEFAULT_CAPACITY)
    }

    /// An empty memory of the given capacity.
    pub fn with_capacity(capacity: usize) -> (guard: FloodGuard)
        ensures
            guard@ == Seq::<(NodeId, [u8; 16])>::empty(),
            guard.limit() == capacity,
            well_kept(guard@, guard.limit()),
    {
        FloodGuard { order: Vec::new(), capacity }
    }

    /// Records a packet; `true` where it was not remembered.
    pub fn check_and_insert(&mut self, sender: &NodeId, message_id: &[u8; 16]) -> (fresh: bool)
        ensures
            fresh == !old(self)@.contains((*sender, *message_id)),
            final(self)@ == recorded(old(self)@, (*sender, *message_id), old(self).limit()),
            final(self).limit() == old(self).limit(),
            well_kept(old(self)@, old(self).limit()) ==> well_kept(
                final(self)@,
                final(self).limit(),
            ),
    {
        proof {
            if well_kept(self@, self.limit()) {
                law_memory_stays_bounded(self@, (*sender, *message_id), self.limit());
            }
        }
        let mut i: usize = 0;
        while i < self.order.len()
            invariant
                i <= self.order@.len(),
                forall|j: int| 0 <= j < i ==> self.order@[j] != (*sender, *message_id),
            decreases self.order@.len() - i,
        {
            if bytes::same_array(&self.order[i].0, sender) && bytes::same_array(
                &self.order[i].1,
                message_id,
            ) {
                assert(self.order@[i as int] == (*sender, *message_id));
                return false;
            }
            i += 1;
        }
        assert(!self.order@.contains((*sender, *message_id)));
        let ghost before = self.order@;
        self.order.push((*sender, *message_id));
        if self.order.len() > self.capacity {
            let _ = self.order.remove(0);
            assert(self.order@ =~= before.push((*sender, *message_id)).drop_first());
        }
        true
    }
}

impl Default for FloodGuard {
    fn default() -> (guard: FloodGuard)
        ensures
            guard@ == Seq::<(NodeId, [u8; 16])>::empty(),
            guard.limit() == DEFAULT_CAPACITY,
    {
        FloodGuard::new()
    }
}

/// What was met stays remembered as long as there is room; without room only the one met longest
/// ago is forgotten.
pub proof fn law_memory_keeps_the_latest<K>(seen: Seq<K>, key: K, capacity: nat, i: int)
    requires
        0 <= i < seen.len(),
        i > 0 || seen.len() < capacity,
    ensures
        recorded(seen, key, capacity).contains(seen[i]),
{
    let all = seen.push(key);
    if seen.contains(key) {
        assert(recorded(seen, key, capacity)[i] == seen[i]);
    } else if seen.len() + 1 > capacity {
        assert(all.drop_first()[i - 1] == seen[i]);
    } else {
        assert(all[i] == seen[i]);
    }
}

} // verus!
