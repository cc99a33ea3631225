//! Durable replay protection: which messages have been handled for good.
//!
//! A message enters only once whatever it was protecting has happened: it was accepted, or
//! forwarded to everyone. Entries are kept until the message has expired with clock skew allowed
//! for, and the oldest leave where there are too many.
//!
//! The store is a table in memory; keeping it on disk is up to the caller, who reads the rows
//! after a change and hands them back when the node starts.

use vstd::prelude::*;

use crate::bytes;
use crate::identity::NodeId;
use crate::message::CLOCK_SKEW_TOLERANCE_MS;
use crate::table;
use crate::table::Ranked;

verus! {

/// How many messages are remembered by default.
pub const DEFAULT_REPLAY_STORE_CAPACITY: usize = 50_000;

/// One message that has been handled.
#[derive(Clone, Copy, Debug)]
pub struct SeenMessage {
    pub sender: NodeId,
    pub message_id: [u8; 16],
    pub first_seen_at: u64,
    pub retain_until: u64,
}

impl View for SeenMessage {
    type V = SeenMessage;

    open spec fn view(&self) -> SeenMessage {
        *self
    }
}

impl Ranked for SeenMessage {
    open spec fn rank_of(row: SeenMessage) -> int {
        row.first_seen_at as int
    }

    fn rank(&self) -> (rank: u128) {
        self.first_seen_at as u128
    }
}

/// Whether a message is in the table.
pub open spec fn has_seen(rows: Seq<SeenMessage>, sender: NodeId, message_id: [u8; 16]) -> bool {
    exists|i: int|
        0 <= i < rows.len() && (#[trigger] rows[i]).sender == sender && rows[i].message_id
            == message_id
}

/// No message is in the table twice.
pub open spec fn one_row_each(rows: Seq<SeenMessage>) -> bool {
    forall|i: int, j: int|
        0 <= i < j < rows.len() ==> #[trigger] apart(rows[i], rows[j])
}

/// Two rows are of different messages.
pub open spec fn apart(a: SeenMessage, b: SeenMessage) -> bool {
    a.sender != b.sender || a.message_id != b.message_id
}

/// How long a message handled at `now_ms` is remembered: past its expiry and past now, by the
/// clock skew.
pub open spec fn retained_until(now_ms: u64, expires_at_ms: u64) -> u64 {
    let latest = if expires_at_ms > now_ms {
        expires_at_ms
    } else {
        now_ms
    };
    if latest + CLOCK_SKEW_TOLERANCE_MS > u64::MAX {
        u64::MAX
    } else {
        (latest + CLOCK_SKEW_TOLERANCE_MS) as u64
    }
}

/// The row of a message handled at `now_ms`.
pub open spec fn seen_row(sender: NodeId, message_id: [u8; 16], now_ms: u64, expires_at_ms: u64) -> SeenMessage {
    SeenMessage {
        sender,
        message_id,
        first_seen_at: now_ms,
        retain_until: retained_until(now_ms, expires_at_ms),
    }
}

/// The rows still wanted at `now_ms`.
pub open spec fn unexpired(rows: Seq<SeenMessage>, now_ms: u64) -> Seq<SeenMessage> {
    rows.filter(|row: SeenMessage| row.retain_until >= now_ms)
}

/// The rows after expired ones have left and the capacity has been enforced.
pub open spec fn tidied(rows: Seq<SeenMessage>, now_ms: u64, capacity: nat) -> Seq<SeenMessage> {
    table::evicted::<SeenMessage>(unexpired(rows, now_ms), capacity)
}

/// The rows with a message added, unless it is there.
pub open spec fn with_seen(rows: Seq<SeenMessage>, row: SeenMessage) -> Seq<SeenMessage> {
    if has_seen(rows, row.sender, row.message_id) {
        rows
    } else {
        rows.push(row)
    }
}

/// Of the rows of each message the first, in the order of the rows.
pub open spec fn first_rows(rows: Seq<SeenMessage>) -> Seq<SeenMessage>
    decreases rows.len(),
{
    if rows.len() == 0 {
        rows
    } else {
        with_seen(first_rows(rows.drop_last()), rows.last())
    }
}

/// The rows after a message has been marked.
pub open spec fn marked(
    rows: Seq<SeenMessage>,
    sender: NodeId,
    message_id: [u8; 16],
    now_ms: u64,
    expires_at_ms: u64,
    capacity: nat,
) -> Seq<SeenMessage> {
    tidied(
        with_seen(rows, seen_row(sender, message_id, now_ms, expires_at_ms)),
        now_ms,
        capacity,
    )
}

/// The messages that have been handled.
pub struct ReplayStore {
    rows: Vec<SeenMessage>,
    capacity: usize,
}

impl View for ReplayStore {
    type V = Seq<SeenMessage>;

    /// The rows, in order of insertion.
    closed spec fn view(&self) -> Seq<SeenMessage> {
        self.rows@
    }
}

impl ReplayStore {
    /// How many messages are remembered at most.
    pub closed spec fn limit(&self) -> nat {
        self.capacity as nat
    }

    /// No message twice.
    pub open spec fn well_formed(&self) -> bool {
        one_row_each(self@)
    }

    /// An empty store of the default capacity.
    pub fn in_memory() -> (store: ReplayStore)
        ensures
            store@ == Seq::<SeenMessage>::empty(),
            store.limit() == DEFAULT_REPLAY_STORE_CAPACITY,
            store.well_formed(),
    {
        Self::in_memory_with_capacity(DEFAULT_REPLAY_STORE_CAPACITY)
    }

    /// An empty store of the given capacity.
    pub fn in_memory_with_capacity(capacity: usize) -> (store: ReplayStore)
        ensures
            store@ == Seq::<SeenMessage>::empty(),
            store.limit() == capacity,
            store.well_formed(),
    {
        ReplayStore { rows: Vec::new(), capacity }
    }

    /// A store with the rows of an earlier run, in their order, a second row of a message left
    /// out.
    pub fn from_rows(rows: Vec<SeenMessage>, capacity: usize) -> (store: ReplayStore)
        ensures
            store.limit() == capacity,
            store.well_formed(),
            store@ == first_rows(rows@),
            one_row_each(rows@) ==> store@ == rows@,
            forall|sender: NodeId, message_id: [u8; 16]|
                has_seen(store@, sender, message_id) <==> has_seen(rows@, sender, message_id),
    {
        let mut store = ReplayStore { rows: Vec::new(), capacity };
        let mut i: usize = 0;
        assert(rows@.take(0) =~= Seq::<SeenMessage>::empty());
        while i < rows.len()
            invariant
                i <= rows@.len(),
                store.limit() == capacity,
                store.well_formed(),
                store@ == first_rows(rows@.take(i as int)),
                one_row_each(rows@) ==> store@ == rows@.take(i as int),
                forall|sender: NodeId, message_id: [u8; 16]|
                    has_seen(store@, sender, message_id) <==> has_seen(
                        rows@.take(i as int),
                        sender,
                        message_id,
                    ),
            decreases rows@.len() - i,
        {
            let row = rows[i];
            let ghost before = store@;
            let ghost head = rows@.take(i as int);
            let known = store.contains(&row.sender, &row.message_id);
            if !known {
                store.rows.push(row);
            }
            i += 1;
            proof {
                let next = rows@.take(i as int);
                assert(next =~= head.push(row));
                assert(next.drop_last() =~= head);
                assert(store@ == with_seen(before, row));
                lemma_with_seen(before, row);
                lemma_with_seen(head, row);
                assert forall|sender: NodeId, message_id: [u8; 16]|
                    has_seen(store@, sender, message_id) <==> has_seen(next, sender, message_id) by {
                    lemma_pushed(head, row, sender, message_id);
                    lemma_pushed(before, row, sender, message_id);
                }
                if one_row_each(rows@) && known {
                    let j = choose|j: int|
                        0 <= j < head.len() && (#[trigger] head[j]).sender == row.sender
                            && head[j].message_id == row.message_id;
                    assert(apart(rows@[j], rows@[i - 1]));
                }
            }
        }
        assert(rows@.take(i as int) =~= rows@);
        store
    }

    /// The rows, in order of insertion, to be kept on disk.
    pub fn rows(&self) -> (rows: &Vec<SeenMessage>)
        ensures
            rows@ == self@,
    {
        &self.rows
    }

    /// Whether a message has been handled. Looking changes nothing.
    pub fn contains(&self, sender: &NodeId, message_id: &[u8; 16]) -> (found: bool)
        ensures
            found == has_seen(self@, *sender, *message_id),
    {
        let mut i: usize = 0;
        while i < self.rows.len()
            invariant
                i <= self.rows@.len(),
                forall|j: int|
                    0 <= j < i ==> !((#[trigger] self.rows@[j]).sender == *sender
                        && self.rows@[j].message_id == *message_id),
            decreases self.rows@.len() - i,
        {
            if bytes::same_array(&self.rows[i].sender, sender) && bytes::same_array(
                &self.rows[i].message_id,
                message_id,
            ) {
                assert(self@[i as int].sender == *sender);
                return true;
            }
            i += 1;
        }
        false
    }

    /// Records that a message has been handled, whether or not it is recorded already.
    pub fn mark_seen(&mut self, sender: &NodeId, message_id: &[u8; 16], now_ms: u64, expires_at_ms: u64)
        ensures
            final(self)@ == marked(
                old(self)@,
                *sender,
                *message_id,
                now_ms,
                expires_at_ms,
                old(self).limit(),
            ),
            final(self).limit() == old(self).limit(),
            old(self).well_formed() ==> final(self).well_formed(),
    {
        if !self.contains(sender, message_id) {
            self.insert(sender, message_id, now_ms, expires_at_ms);
        }
        let ghost before = self@;
        self.tidy(now_ms);
        proof {
            if one_row_each(old(self)@) {
                lemma_with_seen(
                    old(self)@,
                    seen_row(*sender, *message_id, now_ms, expires_at_ms),
                );
                lemma_tidied(before, now_ms, self.limit());
            }
        }
    }

    /// Records that a message has been handled; `false`, and nothing changed, where it was
    /// recorded already.
    pub fn check_and_insert(&mut self, sender: &NodeId, message_id: &[u8; 16], now_ms: u64, expires_at_ms: u64) -> (fresh: bool)
        ensures
            fresh == !has_seen(old(self)@, *sender, *message_id),
            final(self)@ == if fresh {
                marked(
                    old(self)@,
                    *sender,
                    *message_id,
                    now_ms,
                    expires_at_ms,
                    old(self).limit(),
                )
            } else {
                old(self)@
            },
            final(self).limit() == old(self).limit(),
            old(self).well_formed() ==> final(self).well_formed(),
    {
        if self.contains(sender, message_id) {
            return false;
        }
        self.insert(sender, message_id, now_ms, expires_at_ms);
        let ghost before = self@;
        self.tidy(now_ms);
        proof {
            if one_row_each(old(self)@) {
                lemma_with_seen(
                    old(self)@,
                    seen_row(*sender, *message_id, now_ms, expires_at_ms),
                );
                lemma_tidied(before, now_ms, self.limit());
            }
        }
        true
    }

    /// How many messages are remembered.
    pub fn len(&self) -> (len: usize)
        ensures
            len == self@.len(),
    {
        self.rows.len()
    }

    /// Whether none is remembered.
    pub fn is_empty(&self) -> (empty: bool)
        ensures
            empty == (self@.len() == 0),
    {
        self.rows.len() == 0
    }

    fn insert(&mut self, sender: &NodeId, message_id: &[u8; 16], now_ms: u64, expires_at_ms: u64)
        ensures
            final(self)@ == old(self)@.push(
                seen_row(*sender, *message_id, now_ms, expires_at_ms),
            ),
            final(self).limit() == old(self).limit(),
    {
        let latest: u64 = if expires_at_ms > now_ms {
            expires_at_ms
        } else {
            now_ms
        };
        self.rows.push(
            SeenMessage {
                sender: *sender,
                message_id: *message_id,
                first_seen_at: now_ms,
                retain_until: latest.saturating_add(CLOCK_SKEW_TOLERANCE_MS),
            },
        );
    }

    fn tidy(&mut self, now_ms: u64)
        ensures
            final(self)@ == tidied(old(self)@, now_ms, old(self).limit()),
            final(self).limit() == old(self).limit(),
    {
        let ghost all = self.rows@;
        let ghost keeps = |row: SeenMessage| row.retain_until >= now_ms;
        let mut kept: Vec<SeenMessage> = Vec::new();
        let mut i: usize = 0;
        assert(all.take(0).filter(keeps) =~= Seq::empty()) by {
            reveal(Seq::filter);
        }
        while i < self.rows.len()
            invariant
                i <= self.rows@.len(),
                self.rows@ == all,
                self.limit() == old(self).limit(),
                keeps == (|row: SeenMessage| row.retain_until >= now_ms),
                kept@ == all.take(i as int).filter(keeps),
            decreases self.rows@.len() - i,
        {
            let row = self.rows[i];
            assert(all.take(i + 1).drop_last() =~= all.take(i as int));
            if row.retain_until >= now_ms {
                kept.push(row);
            }
            i += 1;
            assert(kept@ =~= all.take(i as int).filter(keeps)) by {
                reveal(Seq::filter);
            }
        }
        assert(all.take(i as int) =~= all);
        assert(table::views(kept@) =~= kept@);
        table::enforce_capacity(&mut kept, self.capacity);
        assert(table::views(kept@) =~= kept@);
        self.rows = kept;
    }
}

proof fn lemma_pushed(rows: Seq<SeenMessage>, row: SeenMessage, sender: NodeId, message_id: [u8; 16])
    ensures
        has_seen(rows.push(row), sender, message_id) <==> has_seen(rows, sender, message_id) || (
        row.sender == sender && row.message_id == message_id),
{
    let all = rows.push(row);
    if has_seen(rows, sender, message_id) {
        let i = choose|i: int|
            0 <= i < rows.len() && (#[trigger] rows[i]).sender == sender && rows[i].message_id
                == message_id;
        assert(all[i] == rows[i]);
    }
    if row.sender == sender && row.message_id == message_id {
        assert(all[rows.len() as int] == row);
    }
    if has_seen(all, sender, message_id) {
        let i = choose|i: int|
            0 <= i < all.len() && (#[trigger] all[i]).sender == sender && all[i].message_id
                == message_id;
        if i < rows.len() {
            assert(rows[i] == all[i]);
        }
    }
}

proof fn lemma_with_seen(rows: Seq<SeenMessage>, row: SeenMessage)
    ensures
        has_seen(with_seen(rows, row), row.sender, row.message_id),
        one_row_each(rows) ==> one_row_each(with_seen(rows, row)),
{
    lemma_pushed(rows, row, row.sender, row.message_id);
    if one_row_each(rows) && !has_seen(rows, row.sender, row.message_id) {
        let all = rows.push(row);
        assert forall|i: int, j: int| 0 <= i < j < all.len() implies #[trigger] apart(
            all[i],
            all[j],
        ) by {
            if j < rows.len() {
                assert(apart(rows[i], rows[j]));
            } else {
                assert(rows[i] == all[i]);
            }
        }
    }
}

proof fn lemma_filtered_apart(rows: Seq<SeenMessage>, keeps: spec_fn(SeenMessage) -> bool)
    requires
        one_row_each(rows),
    ensures
        one_row_each(rows.filter(keeps)),
        forall|i: int|
            0 <= i < rows.filter(keeps).len() ==> rows.contains(#[trigger] rows.filter(keeps)[i]),
    decreases rows.len(),
{
    reveal(Seq::filter);
    if rows.len() > 0 {
        let head = rows.drop_last();
        assert(one_row_each(head)) by {
            assert forall|i: int, j: int| 0 <= i < j < head.len() implies #[trigger] apart(
                head[i],
                head[j],
            ) by {
                assert(apart(rows[i], rows[j]));
            }
        }
        lemma_filtered_apart(head, keeps);
        let kept = rows.filter(keeps);
        assert forall|i: int| 0 <= i < kept.len() implies rows.contains(#[trigger] kept[i]) by {
            if i < head.filter(keeps).len() {
                assert(kept[i] == head.filter(keeps)[i]);
                let k = choose|k: int| 0 <= k < head.len() && head[k] == kept[i];
                assert(rows[k] == kept[i]);
            } else {
                assert(rows[rows.len() - 1] == kept[i]);
            }
        }
        assert forall|i: int, j: int| 0 <= i < j < kept.len() implies #[trigger] apart(
            kept[i],
            kept[j],
        ) by {
            let inner = head.filter(keeps);
            if j < inner.len() {
                assert(apart(inner[i], inner[j]));
            } else {
                assert(head.contains(inner[i]));
                let k = choose|k: int| 0 <= k < head.len() && head[k] == inner[i];
                assert(apart(rows[k], rows[rows.len() - 1]));
            }
        }
    }
}

proof fn lemma_tidied(rows: Seq<SeenMessage>, now_ms: u64, capacity: nat)
    requires
        one_row_each(rows),
    ensures
        one_row_each(tidied(rows, now_ms, capacity)),
{
    lemma_filtered_apart(rows, |row: SeenMessage| row.retain_until >= now_ms);
    table::lemma_evicted_pairwise::<SeenMessage>(
        unexpired(rows, now_ms),
        capacity,
        |a: SeenMessage, b: SeenMessage| apart(a, b),
    );
    let kept = tidied(rows, now_ms, capacity);
    assert forall|i: int, j: int| 0 <= i < j < kept.len() implies #[trigger] apart(
        kept[i],
        kept[j],
    ) by {
        let related = |a: SeenMessage, b: SeenMessage| apart(a, b);
        assert(related(kept[i], kept[j]));
    }
}

// ---------------------------------------------------------------------------------------------
// Laws
// ---------------------------------------------------------------------------------------------

/// The store never holds more than its capacity.
pub proof fn law_capacity_is_never_exceeded(
    rows: Seq<SeenMessage>,
    sender: NodeId,
    message_id: [u8; 16],
    now_ms: u64,
    expires_at_ms: u64,
    capacity: nat,
)
    ensures
        marked(rows, sender, message_id, now_ms, expires_at_ms, capacity).len() <= capacity,
{
    table::lemma_evicted::<SeenMessage>(
        unexpired(
            with_seen(rows, seen_row(sender, message_id, now_ms, expires_at_ms)),
            now_ms,
        ),
        capacity,
    );
}

/// A message that has been marked is a replay from then on: while the clock does not run
/// backwards, what has just been recorded is not what is evicted.
pub proof fn law_marked_message_is_a_replay(
    rows: Seq<SeenMessage>,
    sender: NodeId,
    message_id: [u8; 16],
    now_ms: u64,
    expires_at_ms: u64,
    capacity: nat,
)
    requires
        capacity >= 1,
        rows.len() <= capacity,
        !has_seen(rows, sender, message_id),
        forall|i: int| 0 <= i < rows.len() ==> (#[trigger] rows[i]).first_seen_at <= now_ms,
    ensures
        has_seen(
            marked(rows, sender, message_id, now_ms, expires_at_ms, capacity),
            sender,
            message_id,
        ),
{
    let row = seen_row(sender, message_id, now_ms, expires_at_ms);
    let all = rows.push(row);
    let keeps = |row: SeenMessage| row.retain_until >= now_ms;
    reveal(Seq::filter);
    assert(all.drop_last() =~= rows);
    let kept = unexpired(all, now_ms);
    assert(kept == rows.filter(keeps).push(row));
    lemma_filter_len(rows, keeps);
    let left = marked(rows, sender, message_id, now_ms, expires_at_ms, capacity);
    if kept.len() > capacity {
        assert(rows.contains(kept[0])) by {
            lemma_filter_len(rows, keeps);
            assert(kept[0] == rows.filter(keeps)[0]);
        }
        table::lemma_evicted_keeps_last::<SeenMessage>(kept, capacity);
    }
    assert(left[left.len() - 1] == row);
}

proof fn lemma_filter_len(rows: Seq<SeenMessage>, keeps: spec_fn(SeenMessage) -> bool)
    ensures
        rows.filter(keeps).len() <= rows.len(),
        forall|i: int|
            0 <= i < rows.filter(keeps).len() ==> rows.contains(#[trigger] rows.filter(keeps)[i]),
    decreases rows.len(),
{
    reveal(Seq::filter);
    if rows.len() > 0 {
        let head = rows.drop_last();
        lemma_filter_len(head, keeps);
        let kept = rows.filter(keeps);
        assert forall|i: int| 0 <= i < kept.len() implies rows.contains(#[trigger] kept[i]) by {
            if i < head.filter(keeps).len() {
                assert(kept[i] == head.filter(keeps)[i]);
                let k = choose|k: int| 0 <= k < head.len() && head[k] == kept[i];
                assert(rows[k] == kept[i]);
            } else {
                assert(rows[rows.len() - 1] == kept[i]);
            }
        }
    }
}

/// Marking one message makes no other look handled: the same id from another sender, or another
/// id from the same sender, stays what it was or is forgotten.
pub proof fn law_other_messages_are_not_marked(
    rows: Seq<SeenMessage>,
    sender: NodeId,
    message_id: [u8; 16],
    now_ms: u64,
    expires_at_ms: u64,
    capacity: nat,
    other_sender: NodeId,
    other_id: [u8; 16],
)
    requires
        other_sender != sender || other_id != message_id,
        has_seen(
            marked(rows, sender, message_id, now_ms, expires_at_ms, capacity),
            other_sender,
            other_id,
        ),
    ensures
        has_seen(rows, other_sender, other_id),
{
    let row = seen_row(sender, message_id, now_ms, expires_at_ms);
    let all = with_seen(rows, row);
    let kept = unexpired(all, now_ms);
    let left = marked(rows, sender, message_id, now_ms, expires_at_ms, capacity);
    table::lemma_evicted::<SeenMessage>(kept, capacity);
    lemma_filter_len(all, |row: SeenMessage| row.retain_until >= now_ms);
    let i = choose|i: int|
        0 <= i < left.len() && (#[trigger] left[i]).sender == other_sender && left[i].message_id
            == other_id;
    assert(kept.contains(left[i]));
    let j = choose|j: int| 0 <= j < kept.len() && kept[j] == left[i];
    assert(all.contains(kept[j]));
    let k = choose|k: int| 0 <= k < all.len() && all[k] == kept[j];
    assert(has_seen(all, other_sender, other_id));
    lemma_pushed(rows, row, other_sender, other_id);
}

/// While there is room, nothing is forgotten before its time.
pub proof fn law_retained_until_expiry(
    rows: Seq<SeenMessage>,
    sender: NodeId,
    message_id: [u8; 16],
    now_ms: u64,
    expires_at_ms: u64,
    capacity: nat,
    known: int,
)
    requires
        rows.len() < capacity,
        0 <= known < rows.len(),
        rows[known].retain_until >= now_ms,
    ensures
        has_seen(
            marked(rows, sender, message_id, now_ms, expires_at_ms, capacity),
            rows[known].sender,
            rows[known].message_id,
        ),
{
    let row = seen_row(sender, message_id, now_ms, expires_at_ms);
    let all = with_seen(rows, row);
    let keeps = |row: SeenMessage| row.retain_until >= now_ms;
    assert(all[known] == rows[known]);
    lemma_filter_len(all, keeps);
    lemma_filter_keeps(all, keeps, known);
    let left = marked(rows, sender, message_id, now_ms, expires_at_ms, capacity);
    assert(left == unexpired(all, now_ms));
    let i = choose|i: int| 0 <= i < left.len() && left[i] == all[known];
    assert(left[i].sender == rows[known].sender);
}

proof fn lemma_filter_keeps(rows: Seq<SeenMessage>, keeps: spec_fn(SeenMessage) -> bool, at: int)
    requires
        0 <= at < rows.len(),
        keeps(rows[at]),
    ensures
        rows.filter(keeps).contains(rows[at]),
    decreases rows.len(),
{
    reveal(Seq::filter);
    let head = rows.drop_last();
    let kept = rows.filter(keeps);
    if at < head.len() {
        lemma_filter_keeps(head, keeps, at);
        let i = choose|i: int|
            0 <= i < head.filter(keeps).len() && head.filter(keeps)[i] == head[at];
        assert(kept[i] == rows[at]);
    } else {
        assert(kept[kept.len() - 1] == rows[at]);
    }
}

/// A message that was handled is a replay for as long as copies of it can be around: whatever else
/// is handled until five minutes after it has expired, and after it was handled, it is not
/// forgotten. There has to be room.
pub proof fn law_handled_message_outlives_its_copies(
    rows: Seq<SeenMessage>,
    sender: NodeId,
    message_id: [u8; 16],
    now_ms: u64,
    expires_at_ms: u64,
    other_sender: NodeId,
    other_id: [u8; 16],
    later_ms: u64,
    other_expires_ms: u64,
    capacity: nat,
)
    requires
        rows.len() + 1 < capacity,
        forall|i: int|
            0 <= i < rows.len() ==> !((#[trigger] rows[i]).sender == sender && rows[i].message_id
                == message_id),
        later_ms <= expires_at_ms + 300_000 || later_ms <= now_ms + 300_000,
    ensures
        ({
            let handled = marked(rows, sender, message_id, now_ms, expires_at_ms, capacity);
            let later = marked(
                handled,
                other_sender,
                other_id,
                later_ms,
                other_expires_ms,
                capacity,
            );
            &&& exists|i: int|
                0 <= i < handled.len() && (#[trigger] handled[i]).sender == sender
                    && handled[i].message_id == message_id
            &&& exists|i: int|
                0 <= i < later.len() && (#[trigger] later[i]).sender == sender
                    && later[i].message_id == message_id
        }),
{
    let row = seen_row(sender, message_id, now_ms, expires_at_ms);
    let keeps = |row: SeenMessage| row.retain_until >= now_ms;
    let all = rows.push(row);
    assert(!has_seen(rows, sender, message_id));
    lemma_filter_len(all, keeps);
    lemma_filter_keeps(all, keeps, rows.len() as int);
    let handled = marked(rows, sender, message_id, now_ms, expires_at_ms, capacity);
    assert(handled == unexpired(all, now_ms));
    assert(handled.contains(row));
    let known = choose|i: int| 0 <= i < handled.len() && handled[i] == row;
    assert(handled[known].sender == sender && handled[known].message_id == message_id);
    law_retained_until_expiry(
        handled,
        other_sender,
        other_id,
        later_ms,
        other_expires_ms,
        capacity,
        known,
    );
}

/// Where there is one message too many, the one handled first is forgotten; the others stay.
pub proof fn law_oldest_leaves(rows: Seq<SeenMessage>, capacity: nat) -> (gone: int)
    requires
        rows.len() == capacity + 1,
    ensures
        0 <= gone < rows.len(),
        table::evicted::<SeenMessage>(rows, capacity) == rows.remove(gone),
        forall|i: int|
            0 <= i < rows.len() ==> rows[gone].first_seen_at <= (#[trigger] rows[i]).first_seen_at,
{
    let all = table::ranks::<SeenMessage>(rows);
    table::lemma_first_lowest(all);
    let gone = table::first_lowest(all);
    assert(table::evicted::<SeenMessage>(rows.remove(gone), capacity) == rows.remove(gone));
    assert forall|i: int| 0 <= i < rows.len() implies rows[gone].first_seen_at <= (
    #[trigger] rows[i]).first_seen_at by {
        assert(all[gone] <= all[i]);
    }
    gone
}

/// With room, and where nothing is out of date, handling a message adds it, behind all others, and
/// changes nothing else; one that is there is not added. It is to be remembered until five minutes
/// after it has expired, and after now.
pub proof fn law_with_room_marking_only_adds(
    rows: Seq<SeenMessage>,
    sender: NodeId,
    message_id: [u8; 16],
    now_ms: u64,
    expires_at_ms: u64,
    capacity: nat,
)
    requires
        rows.len() < capacity,
        forall|i: int| 0 <= i < rows.len() ==> (#[trigger] rows[i]).retain_until >= now_ms,
    ensures
        ({
            let after = marked(rows, sender, message_id, now_ms, expires_at_ms, capacity);
            if exists|i: int|
                0 <= i < rows.len() && (#[trigger] rows[i]).sender == sender && rows[i].message_id
                    == message_id {
                after == rows
            } else {
                let latest = if expires_at_ms > now_ms {
                    expires_at_ms
                } else {
                    now_ms
                };
                &&& after.len() == rows.len() + 1
                &&& after.drop_last() == rows
                &&& after.last().sender == sender
                &&& after.last().message_id == message_id
                &&& after.last().first_seen_at == now_ms
                &&& after.last().retain_until >= now_ms
                &&& latest <= u64::MAX - 300_000 ==> after.last().retain_until == latest + 300_000
                &&& latest > u64::MAX - 300_000 ==> after.last().retain_until == u64::MAX
            }
        }),
{
    let row = seen_row(sender, message_id, now_ms, expires_at_ms);
    let all = with_seen(rows, row);
    let keeps = |row: SeenMessage| row.retain_until >= now_ms;
    lemma_filter_everything(all, keeps);
    assert(rows.push(row).drop_last() =~= rows);
}

proof fn lemma_filter_everything(rows: Seq<SeenMessage>, keeps: spec_fn(SeenMessage) -> bool)
    requires
        forall|i: int| 0 <= i < rows.len() ==> keeps(#[trigger] rows[i]),
    ensures
        rows.filter(keeps) == rows,
    decreases rows.len(),
{
    reveal(Seq::filter);
    if rows.len() > 0 {
        let head = rows.drop_last();
        assert forall|i: int| 0 <= i < head.len() implies keeps(#[trigger] head[i]) by {
            assert(rows[i] == head[i]);
        }
        lemma_filter_everything(head, keeps);
        assert(keeps(rows[rows.len() - 1]));
        assert(head.push(rows.last()) =~= rows);
    }
}

/// What a table holds after one row was added behind all others.
pub proof fn lemma_added(
    before: Seq<SeenMessage>,
    after: Seq<SeenMessage>,
    sender: NodeId,
    message_id: [u8; 16],
)
    requires
        after == before || after.len() == before.len() + 1 && after.drop_last() == before,
    ensures
        has_seen(before, sender, message_id) ==> has_seen(after, sender, message_id),
        has_seen(after, sender, message_id) ==> has_seen(before, sender, message_id) || (
        after.last().sender == sender && after.last().message_id == message_id),
        after.len() > 0 && after.last().sender == sender && after.last().message_id == message_id
            ==> has_seen(after, sender, message_id),
{
    if after != before {
        assert(after =~= before.push(after.last()));
        lemma_pushed(before, after.last(), sender, message_id);
    }
    if after.len() > 0 {
        assert(after[after.len() - 1] == after.last());
    }
}

/// Rows that are read back stay: of the rows of each message the first is kept, as it is, and
/// nothing is kept that was not there.
pub proof fn law_first_row_of_each_stays(rows: Seq<SeenMessage>, i: int)
    requires
        0 <= i < rows.len(),
    ensures
        (forall|k: int| 0 <= k < i ==> !((#[trigger] rows[k]).sender == rows[i].sender && rows[k].message_id == rows[i].message_id))
            ==> first_rows(rows).contains(rows[i]),
        forall|j: int|
            0 <= j < first_rows(rows).len() ==> rows.contains(#[trigger] first_rows(rows)[j]),
    decreases rows.len(),
{
    assert forall|j: int| 0 <= j < first_rows(rows).len() implies rows.contains(
        #[trigger] first_rows(rows)[j],
    ) by {
        lemma_first_rows_are_rows(rows, j);
    }
    let head = rows.drop_last();
    let last = rows.last();
    let before = first_rows(head);
    let all = first_rows(rows);
    if forall|k: int| 0 <= k < i ==> !((#[trigger] rows[k]).sender == rows[i].sender && rows[k].message_id == rows[i].message_id) {
        if i < head.len() {
            assert(head[i] == rows[i]);
            assert forall|k: int| 0 <= k < i implies !((#[trigger] head[k]).sender == head[i].sender && head[k].message_id == head[i].message_id) by {
                assert(rows[k] == head[k]);
            }
            law_first_row_of_each_stays(head, i);
            let j = choose|j: int| 0 <= j < before.len() && before[j] == rows[i];
            assert(all[j] == rows[i]);
        } else {
            if has_seen(before, last.sender, last.message_id) {
                let k = choose|k: int|
                    0 <= k < before.len() && (#[trigger] before[k]).sender == last.sender
                        && before[k].message_id == last.message_id;
                lemma_first_rows_are_rows(head, k);
                let j = choose|j: int| 0 <= j < head.len() && head[j] == before[k];
                assert(rows[j] == head[j]);
                assert(rows[j].sender == last.sender && rows[j].message_id == last.message_id);
            }
            assert(all[all.len() - 1] == rows[i]);
        }
    }
}

proof fn lemma_first_rows_are_rows(rows: Seq<SeenMessage>, j: int)
    requires
        0 <= j < first_rows(rows).len(),
    ensures
        rows.contains(first_rows(rows)[j]),
    decreases rows.len(),
{
    if rows.len() > 0 {
        let head = rows.drop_last();
        let before = first_rows(head);
        if j < before.len() {
            lemma_first_rows_are_rows(head, j);
            let k = choose|k: int| 0 <= k < head.len() && head[k] == before[j];
            assert(rows[k] == first_rows(rows)[j]);
        } else {
            assert(rows[rows.len() - 1] == first_rows(rows)[j]);
        }
    }
}

} // verus!
