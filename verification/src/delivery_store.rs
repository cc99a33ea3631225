//! Outgoing messages on their way: queued, retried, acknowledged or expired.
//!
//! A reliable message is stored before it is first sent, and sent again with growing delays
//! until its recipient acknowledges it or it expires. Acknowledged and expired messages are
//! final; they leave first where the store is full.
//!
//! The store is a table in memory; keeping it on disk is up to the caller, who reads the rows
//! after a change and hands them back when the node starts.

use vstd::prelude::*;
use vstd::string::*;

use crate::backoff;
use crate::bytes;
use crate::identity::NodeId;
use crate::table;
use crate::table::Ranked;

verus! {

/// How many messages are kept by default.
pub const DEFAULT_DELIVERY_STORE_CAPACITY: usize = 10_000;

/// Where an outgoing message stands.
#[derive(Clone, Copy, Debug, PartialEq, Eq, Structural)]
pub enum OutboundState {
    /// Not sent yet.
    Queued,
    /// Sent at least once, not acknowledged.
    Sent,
    /// The recipient has durably accepted it.
    Acknowledged,
    /// It expired unacknowledged.
    Expired,
}

impl OutboundState {
    /// The word a state is stored as.
    pub open spec fn word(self) -> &'static str {
        match self {
            OutboundState::Queued => "queued",
            OutboundState::Sent => "sent",
            OutboundState::Acknowledged => "acknowledged",
            OutboundState::Expired => "expired",
        }
    }

    /// The word this state is stored as.
    pub fn as_str(self) -> (word: &'static str)
        ensures
            word@ == self.word()@,
    {
        match self {
            OutboundState::Queued => "queued",
            OutboundState::Sent => "sent",
            OutboundState::Acknowledged => "acknowledged",
            OutboundState::Expired => "expired",
        }
    }

    /// The state stored as a word; `None` for any other word.
    pub fn from_str(s: &str) -> (state: Option<OutboundState>)
        ensures
            state matches Some(known) ==> s@ == known.word()@,
            state is None ==> forall|known: OutboundState| s@ != (#[trigger] known.word())@,
    {
        let word = s.to_owned();
        if word == "queued".to_owned() {
            Some(OutboundState::Queued)
        } else if word == "sent".to_owned() {
            Some(OutboundState::Sent)
        } else if word == "acknowledged".to_owned() {
            Some(OutboundState::Acknowledged)
        } else if word == "expired".to_owned() {
            Some(OutboundState::Expired)
        } else {
            None
        }
    }

    /// Nothing more is to be done for the message.
    pub open spec fn is_final(self) -> bool {
        self is Acknowledged || self is Expired
    }
}

/// Different states are stored as different words.
pub proof fn law_state_words_differ(a: OutboundState, b: OutboundState)
    requires
        a.word()@ == b.word()@,
    ensures
        a == b,
{
    reveal_strlit("queued");
    reveal_strlit("sent");
    reveal_strlit("acknowledged");
    reveal_strlit("expired");
    assert("queued"@.len() == 6 && "sent"@.len() == 4 && "acknowledged"@.len() == 12
        && "expired"@.len() == 7);
}

/// An outgoing message.
#[derive(Debug)]
pub struct OutboundMessage {
    pub message_id: [u8; 16],
    pub recipient: NodeId,
    /// The envelope, byte for byte as it is sent every time.
    pub envelope_bytes: Vec<u8>,
    pub state: OutboundState,
    pub attempts: u32,
    pub next_attempt_at: u64,
    pub expires_at: u64,
    pub created_at: u64,
}

/// What is known of an outgoing message.
pub struct OutboundData {
    pub message_id: [u8; 16],
    pub recipient: NodeId,
    pub envelope_bytes: Seq<u8>,
    pub state: OutboundState,
    pub attempts: u32,
    pub next_attempt_at: u64,
    pub expires_at: u64,
    pub created_at: u64,
}

impl View for OutboundMessage {
    type V = OutboundData;

    open spec fn view(&self) -> OutboundData {
        OutboundData {
            message_id: self.message_id,
            recipient: self.recipient,
            envelope_bytes: self.envelope_bytes@,
            state: self.state,
            attempts: self.attempts,
            next_attempt_at: self.next_attempt_at,
            expires_at: self.expires_at,
            created_at: self.created_at,
        }
    }
}

impl Ranked for OutboundMessage {
    /// Final messages go before all others, older ones before younger.
    open spec fn rank_of(row: OutboundData) -> int {
        if row.state.is_final() {
            row.created_at as int
        } else {
            row.created_at + 0x1_0000_0000_0000_0000
        }
    }

    fn rank(&self) -> (rank: u128) {
        let age: u128 = self.created_at as u128;
        match self.state {
            OutboundState::Acknowledged => age,
            OutboundState::Expired => age,
            _ => age + 0x1_0000_0000_0000_0000,
        }
    }
}

impl OutboundData {
    /// A message just queued.
    pub open spec fn queued(
        message_id: [u8; 16],
        recipient: NodeId,
        envelope_bytes: Seq<u8>,
        now_ms: u64,
        expires_at_ms: u64,
    ) -> OutboundData {
        OutboundData {
            message_id,
            recipient,
            envelope_bytes,
            state: OutboundState::Queued,
            attempts: 0,
            next_attempt_at: now_ms,
            expires_at: expires_at_ms,
            created_at: now_ms,
        }
    }

    /// The message is to be sent at `now_ms`: not final, its time has come, not expired.
    pub open spec fn due(self, now_ms: u64) -> bool {
        !self.state.is_final() && self.next_attempt_at <= now_ms && self.expires_at > now_ms
    }

    /// What is sent of the message.
    pub open spec fn to_send(self) -> DueData {
        DueData {
            message_id: self.message_id,
            recipient: self.recipient,
            envelope_bytes: self.envelope_bytes,
            attempts: self.attempts,
        }
    }

    /// The message after it has been sent once more. The attempt counter stops at its maximum,
    /// and so does the time.
    pub open spec fn attempted(self, now_ms: u64, random: u64) -> OutboundData {
        let attempts = if self.attempts < u32::MAX {
            (self.attempts + 1) as u32
        } else {
            u32::MAX
        };
        let next = now_ms + backoff::delay_with(attempts, random);
        OutboundData {
            state: OutboundState::Sent,
            attempts,
            next_attempt_at: if next > u64::MAX {
                u64::MAX
            } else {
                next as u64
            },
            ..self
        }
    }
}

/// A message that is to be sent now.
#[derive(Debug)]
pub struct DueMessage {
    pub message_id: [u8; 16],
    pub recipient: NodeId,
    pub envelope_bytes: Vec<u8>,
    pub attempts: u32,
}

/// What is to be sent.
pub struct DueData {
    pub message_id: [u8; 16],
    pub recipient: NodeId,
    pub envelope_bytes: Seq<u8>,
    pub attempts: u32,
}

impl View for DueMessage {
    type V = DueData;

    open spec fn view(&self) -> DueData {
        DueData {
            message_id: self.message_id,
            recipient: self.recipient,
            envelope_bytes: self.envelope_bytes@,
            attempts: self.attempts,
        }
    }
}

// ---------------------------------------------------------------------------------------------
// The table
// ---------------------------------------------------------------------------------------------

/// The ids in the table.
pub open spec fn ids(rows: Seq<OutboundData>) -> Seq<[u8; 16]> {
    rows.map_values(|row: OutboundData| row.message_id)
}

/// No id is in the table twice.
pub open spec fn one_row_each(rows: Seq<OutboundData>) -> bool {
    ids(rows).no_duplicates()
}

/// The rows after a message has been queued; one that is there already stays as it is.
pub open spec fn enqueued(rows: Seq<OutboundData>, row: OutboundData, capacity: nat) -> Seq<OutboundData> {
    table::evicted::<OutboundMessage>(
        if ids(rows).contains(row.message_id) {
            rows
        } else {
            rows.push(row)
        },
        capacity,
    )
}

/// The messages to be sent at `now_ms`, in the order they were queued.
pub open spec fn due(rows: Seq<OutboundData>, now_ms: u64) -> Seq<DueData> {
    rows.filter(|row: OutboundData| row.due(now_ms)).map_values(
        |row: OutboundData| row.to_send(),
    )
}

/// The rows after a message has been sent once more. A final message stays as it is.
pub open spec fn attempted(rows: Seq<OutboundData>, message_id: [u8; 16], now_ms: u64, random: u64) -> Seq<OutboundData> {
    rows.map_values(
        |row: OutboundData|
            if row.message_id == message_id && !row.state.is_final() {
                row.attempted(now_ms, random)
            } else {
                row
            },
    )
}

/// A row is the message `message_id` to the node `node`.
pub open spec fn addressed(row: OutboundData, message_id: [u8; 16], node: NodeId) -> bool {
    row.message_id == message_id && row.recipient == node
}

/// The rows after `node` has acknowledged a message. Only its recipient can, and a message that
/// has been given up stays so.
pub open spec fn acknowledged(rows: Seq<OutboundData>, message_id: [u8; 16], node: NodeId) -> Seq<OutboundData> {
    rows.map_values(
        |row: OutboundData|
            if addressed(row, message_id, node) && row.state != OutboundState::Expired {
                OutboundData { state: OutboundState::Acknowledged, ..row }
            } else {
                row
            },
    )
}

/// The rows after overdue messages have been given up.
pub open spec fn expired(rows: Seq<OutboundData>, now_ms: u64) -> Seq<OutboundData> {
    rows.map_values(
        |row: OutboundData|
            if !row.state.is_final() && row.expires_at <= now_ms {
                OutboundData { state: OutboundState::Expired, ..row }
            } else {
                row
            },
    )
}

/// The state of a message; `None` where it is not in the table.
pub open spec fn state_in(rows: Seq<OutboundData>, message_id: [u8; 16]) -> Option<OutboundState> {
    match ids(rows).index_of_first(message_id) {
        Some(i) => Some(rows[i].state),
        None => None,
    }
}

/// Of the rows of each message the first, in the order of the rows.
pub open spec fn first_rows(rows: Seq<OutboundData>) -> Seq<OutboundData>
    decreases rows.len(),
{
    if rows.len() == 0 {
        rows
    } else {
        let earlier = first_rows(rows.drop_last());
        if ids(earlier).contains(rows.last().message_id) {
            earlier
        } else {
            earlier.push(rows.last())
        }
    }
}

/// The outgoing messages.
pub struct DeliveryStore {
    rows: Vec<OutboundMessage>,
    capacity: usize,
}

impl View for DeliveryStore {
    type V = Seq<OutboundData>;

    /// The rows, in order of insertion.
    closed spec fn view(&self) -> Seq<OutboundData> {
        table::views(self.rows@)
    }
}

impl DeliveryStore {
    /// How many messages are kept at most.
    pub closed spec fn limit(&self) -> nat {
        self.capacity as nat
    }

    /// No message twice.
    pub open spec fn well_formed(&self) -> bool {
        one_row_each(self@)
    }

    /// An empty store of the default capacity.
    pub fn in_memory() -> (store: DeliveryStore)
        ensures
            store@ == Seq::<OutboundData>::empty(),
            store.limit() == DEFAULT_DELIVERY_STORE_CAPACITY,
            store.well_formed(),
    {
        Self::in_memory_with_capacity(DEFAULT_DELIVERY_STORE_CAPACITY)
    }

    /// An empty store of the given capacity.
    pub fn in_memory_with_capacity(capacity: usize) -> (store: DeliveryStore)
        ensures
            store@ == Seq::<OutboundData>::empty(),
            store.limit() == capacity,
            store.well_formed(),
    {
        let store = DeliveryStore { rows: Vec::new(), capacity };
        assert(store@ =~= Seq::<OutboundData>::empty());
        store
    }

    /// A store with the rows of an earlier run, in their order, a second row of a message left
    /// out.
    pub fn from_rows(rows: Vec<OutboundMessage>, capacity: usize) -> (store: DeliveryStore)
        ensures
            store.limit() == capacity,
            store.well_formed(),
            store@ == first_rows(table::views(rows@)),
            one_row_each(table::views(rows@)) ==> store@ == table::views(rows@),
    {
        let ghost all = table::views(rows@);
        let mut rest: Vec<OutboundMessage> = rows;
        let mut store = DeliveryStore { rows: Vec::new(), capacity };
        let ghost mut done: int = 0;
        assert(store@ =~= all.take(0));
        assert(table::views(rest@) =~= all.skip(0));
        while rest.len() > 0
            invariant
                0 <= done <= all.len(),
                table::views(rest@) == all.skip(done),
                store.limit() == capacity,
                store.well_formed(),
                store@ == first_rows(all.take(done)),
                one_row_each(all) ==> store@ == all.take(done),
            decreases rest@.len(),
        {
            let ghost left = rest@;
            let row = rest.remove(0);
            assert(row@ == table::views(left)[0]);
            assert(table::views(left).len() == left.len());
            assert(all.skip(done).len() == all.len() - done);
            assert(all.skip(done)[0] == all[done]);
            assert(table::views(rest@) =~= table::views(left).skip(1));
            assert(all.skip(done).skip(1) =~= all.skip(done + 1));
            let ghost before = store@;
            let known = store.position(&row.message_id);
            if known.is_none() {
                store.rows.push(row);
                assert(store@ =~= before.push(row@));
                assert(ids(store@) =~= ids(before).push(row@.message_id));
            } else {
                proof {
                    if one_row_each(all) {
                        let j = known->0 as int;
                        assert(ids(all)[j] == ids(before)[j]);
                        assert(ids(all)[done] == row@.message_id);
                        assert(false);
                    }
                }
            }
            proof {
                assert(all.take(done + 1).drop_last() =~= all.take(done));
                assert(all.take(done + 1).last() == all[done]);
                if one_row_each(all) {
                    assert(store@ =~= all.take(done + 1));
                }
                done = done + 1;
            }
        }
        assert(all.take(done) =~= all);
        store
    }

    /// The rows, in order of insertion, to be kept on disk.
    pub fn rows(&self) -> (rows: &Vec<OutboundMessage>)
        ensures
            table::views(rows@) == self@,
    {
        &self.rows
    }

    /// Where a message is.
    fn position(&self, message_id: &[u8; 16]) -> (position: Option<usize>)
        ensures
            match position {
                Some(i) => i < self.rows@.len() && ids(self@).index_of_first(*message_id) == Some(
                    i as int,
                ),
                None => !ids(self@).contains(*message_id) && ids(self@).index_of_first(*message_id)
                    is None,
            },
            position is Some ==> ids(self@).contains(*message_id) && ids(self@)[position->0 as int]
                == *message_id,
            self@.len() == self.rows@.len(),
    {
        let ghost all = ids(self@);
        proof {
            all.index_of_first_ensures(*message_id);
        }
        let mut i: usize = 0;
        while i < self.rows.len()
            invariant
                i <= self.rows@.len(),
                all == ids(self@),
                self@ == table::views(self.rows@),
                forall|j: int| 0 <= j < i ==> #[trigger] all[j] != *message_id,
                match all.index_of_first(*message_id) {
                    Some(k) => {
                        &&& 0 <= k < all.len()
                        &&& all[k] == *message_id
                        &&& forall|j: int| 0 <= j < k < all.len() ==> all[j] != *message_id
                    },
                    None => !all.contains(*message_id),
                },
            decreases self.rows@.len() - i,
        {
            assert(all[i as int] == self.rows@[i as int].message_id);
            if bytes::same_array(&self.rows[i].message_id, message_id) {
                return Some(i);
            }
            i += 1;
        }
        None
    }

    /// Queues a message for delivery. One that is there already keeps its state.
    pub fn enqueue(
        &mut self,
        message_id: &[u8; 16],
        recipient: &NodeId,
        envelope_bytes: &[u8],
        now_ms: u64,
        expires_at_ms: u64,
    )
        ensures
            final(self)@ == enqueued(
                old(self)@,
                OutboundData::queued(
                    *message_id,
                    *recipient,
                    envelope_bytes@,
                    now_ms,
                    expires_at_ms,
                ),
                old(self).limit(),
            ),
            final(self).limit() == old(self).limit(),
            old(self).well_formed() ==> final(self).well_formed(),
    {
        let ghost before = self@;
        if self.position(message_id).is_none() {
            let row = OutboundMessage {
                message_id: *message_id,
                recipient: *recipient,
                envelope_bytes: bytes::to_vec(envelope_bytes),
                state: OutboundState::Queued,
                attempts: 0,
                next_attempt_at: now_ms,
                expires_at: expires_at_ms,
                created_at: now_ms,
            };
            self.rows.push(row);
            assert(self@ =~= before.push(row@));
        }
        let ghost all = self@;
        table::enforce_capacity(&mut self.rows, self.capacity);
        proof {
            if one_row_each(before) {
                lemma_queued_once(
                    before,
                    OutboundData::queued(
                        *message_id,
                        *recipient,
                        envelope_bytes@,
                        now_ms,
                        expires_at_ms,
                    ),
                    self.limit(),
                );
            }
        }
    }

    /// The messages to be sent at `now_ms`.
    pub fn due_for_attempt(&self, now_ms: u64) -> (messages: Vec<DueMessage>)
        ensures
            table::views(messages@) == due(self@, now_ms),
    {
        let ghost all = self@;
        let ghost wanted = |row: OutboundData| row.due(now_ms);
        let mut messages: Vec<DueMessage> = Vec::new();
        let mut i: usize = 0;
        assert(all.take(0).filter(wanted) =~= Seq::empty()) by {
            reveal(Seq::filter);
        }
        assert(table::views(messages@) =~= due(all.take(0), now_ms));
        while i < self.rows.len()
            invariant
                i <= self.rows@.len(),
                all == table::views(self.rows@),
                wanted == (|row: OutboundData| row.due(now_ms)),
                table::views(messages@) == due(all.take(i as int), now_ms),
            decreases self.rows@.len() - i,
        {
            let ghost before = messages@;
            assert(all.take(i + 1).drop_last() =~= all.take(i as int));
            assert(all[i as int] == self.rows@[i as int]@);
            let row = &self.rows[i];
            let open = match row.state {
                OutboundState::Queued => true,
                OutboundState::Sent => true,
                _ => false,
            };
            if open && row.next_attempt_at <= now_ms && row.expires_at > now_ms {
                messages.push(
                    DueMessage {
                        message_id: row.message_id,
                        recipient: row.recipient,
                        envelope_bytes: bytes::to_vec(row.envelope_bytes.as_slice()),
                        attempts: row.attempts,
                    },
                );
            }
            proof {
                let head = all.take(i as int).filter(wanted);
                let next = all.take(i + 1).filter(wanted);
                let last = all[i as int];
                assert(all.take(i + 1).last() == last);
                assert(next == if wanted(last) {
                    head.push(last)
                } else {
                    head
                }) by {
                    reveal(Seq::filter);
                }
                assert(wanted(last) == last.due(now_ms));
                let sent = |row: OutboundData| row.to_send();
                if last.due(now_ms) {
                    assert(messages@.last()@ == last.to_send());
                    assert(table::views(messages@) =~= table::views(before).push(last.to_send()));
                    assert(head.push(last).map_values(sent) =~= head.map_values(sent).push(
                        last.to_send(),
                    ));
                }
                assert(table::views(messages@) =~= due(all.take(i + 1), now_ms));
            }
            i += 1;
        }
        assert(all.take(i as int) =~= all);
        messages
    }

    /// Records that a message has been sent once more, with fresh random jitter in the delay to
    /// the next attempt. A message that is final or unknown stays as it is.
    pub fn record_attempt(&mut self, message_id: &[u8; 16], now_ms: u64)
        ensures
            exists|random: u64|
                final(self)@ == #[trigger] attempted(old(self)@, *message_id, now_ms, random),
            final(self).limit() == old(self).limit(),
            old(self).well_formed() ==> final(self).well_formed(),
    {
        let random: u64 = backoff::random_jitter();
        self.record_attempt_with(message_id, now_ms, random);
    }

    /// Records that a message has been sent once more, with the given random number for jitter.
    pub fn record_attempt_with(&mut self, message_id: &[u8; 16], now_ms: u64, random: u64)
        ensures
            final(self)@ == attempted(old(self)@, *message_id, now_ms, random),
            final(self).limit() == old(self).limit(),
            old(self).well_formed() ==> final(self).well_formed(),
    {
        let ghost all = self@;
        let ghost wanted = attempted(all, *message_id, now_ms, random);
        let mut i: usize = 0;
        while i < self.rows.len()
            invariant
                i <= self.rows@.len(),
                self.rows@.len() == all.len(),
                self.limit() == old(self).limit(),
                wanted == attempted(all, *message_id, now_ms, random),
                forall|j: int| 0 <= j < i ==> (#[trigger] self.rows@[j])@ == wanted[j],
                forall|j: int| i <= j < all.len() ==> (#[trigger] self.rows@[j])@ == all[j],
            decreases self.rows@.len() - i,
        {
            let ghost before = self.rows@;
            let open = match self.rows[i].state {
                OutboundState::Queued => true,
                OutboundState::Sent => true,
                _ => false,
            };
            if open && bytes::same_array(&self.rows[i].message_id, message_id) {
                let attempts: u32 = self.rows[i].attempts.saturating_add(1);
                let delay: u64 = backoff::retry_delay_ms(attempts, random);
                self.rows[i].state = OutboundState::Sent;
                self.rows[i].attempts = attempts;
                self.rows[i].next_attempt_at = now_ms.saturating_add(delay);
            }
            i += 1;
        }
        assert(self@ =~= wanted);
        assert(ids(self@) =~= ids(all));
    }

    /// Records that `acking_node` has acknowledged a message; `true` where the message is in
    /// the store and `acking_node` is its recipient. Nobody else can settle a message, and one
    /// that has been given up stays so.
    pub fn acknowledge_from(&mut self, message_id: &[u8; 16], acking_node: &NodeId) -> (accepted: bool)
        ensures
            accepted <==> exists|i: int|
                0 <= i < old(self)@.len() && addressed(
                    #[trigger] old(self)@[i],
                    *message_id,
                    *acking_node,
                ),
            final(self)@ == acknowledged(old(self)@, *message_id, *acking_node),
            final(self).limit() == old(self).limit(),
            old(self).well_formed() ==> final(self).well_formed(),
    {
        let ghost all = self@;
        let ghost wanted = acknowledged(all, *message_id, *acking_node);
        let mut accepted = false;
        let mut i: usize = 0;
        while i < self.rows.len()
            invariant
                i <= self.rows@.len(),
                self.rows@.len() == all.len(),
                self.limit() == old(self).limit(),
                wanted == acknowledged(all, *message_id, *acking_node),
                accepted <==> exists|j: int|
                    0 <= j < i && addressed(#[trigger] all[j], *message_id, *acking_node),
                forall|j: int| 0 <= j < i ==> (#[trigger] self.rows@[j])@ == wanted[j],
                forall|j: int| i <= j < all.len() ==> (#[trigger] self.rows@[j])@ == all[j],
            decreases self.rows@.len() - i,
        {
            assert(self.rows@[i as int]@ == all[i as int]);
            if bytes::same_array(&self.rows[i].message_id, message_id) && bytes::same_array(
                &self.rows[i].recipient,
                acking_node,
            ) {
                if self.rows[i].state != OutboundState::Expired {
                    self.rows[i].state = OutboundState::Acknowledged;
                }
                accepted = true;
            }
            i += 1;
        }
        assert(self@ =~= wanted);
        assert(ids(self@) =~= ids(all));
        accepted
    }

    /// Gives up messages whose time is over.
    pub fn expire_overdue(&mut self, now_ms: u64)
        ensures
            final(self)@ == expired(old(self)@, now_ms),
            final(self).limit() == old(self).limit(),
            old(self).well_formed() ==> final(self).well_formed(),
    {
        let ghost all = self@;
        let ghost wanted = expired(all, now_ms);
        let mut i: usize = 0;
        while i < self.rows.len()
            invariant
                i <= self.rows@.len(),
                self.rows@.len() == all.len(),
                self.limit() == old(self).limit(),
                wanted == expired(all, now_ms),
                forall|j: int| 0 <= j < i ==> (#[trigger] self.rows@[j])@ == wanted[j],
                forall|j: int| i <= j < all.len() ==> (#[trigger] self.rows@[j])@ == all[j],
            decreases self.rows@.len() - i,
        {
            let open = match self.rows[i].state {
                OutboundState::Queued => true,
                OutboundState::Sent => true,
                _ => false,
            };
            if open && self.rows[i].expires_at <= now_ms {
                self.rows[i].state = OutboundState::Expired;
            }
            i += 1;
        }
        assert(self@ =~= wanted);
        assert(ids(self@) =~= ids(all));
    }

    /// The state of a message.
    pub fn state_of(&self, message_id: &[u8; 16]) -> (state: Option<OutboundState>)
        ensures
            state == state_in(self@, *message_id),
    {
        match self.position(message_id) {
            Some(i) => {
                assert(self@[i as int] == self.rows@[i as int]@);
                Some(self.rows[i].state)
            },
            None => None,
        }
    }

    /// How many messages are kept.
    pub fn len(&self) -> (len: usize)
        ensures
            len == self@.len(),
    {
        self.rows.len()
    }

    /// Whether none is kept.
    pub fn is_empty(&self) -> (empty: bool)
        ensures
            empty == (self@.len() == 0),
    {
        self.rows.len() == 0
    }
}

proof fn lemma_queued_once(rows: Seq<OutboundData>, row: OutboundData, capacity: nat)
    requires
        one_row_each(rows),
    ensures
        one_row_each(enqueued(rows, row, capacity)),
{
    let all = if ids(rows).contains(row.message_id) {
        rows
    } else {
        rows.push(row)
    };
    let related = |a: OutboundData, b: OutboundData| a.message_id != b.message_id;
    assert forall|i: int, j: int| 0 <= i < j < all.len() implies #[trigger] related(
        all[i],
        all[j],
    ) by {
        if j < rows.len() {
            assert(ids(rows)[i] != ids(rows)[j]);
        } else {
            assert(ids(rows)[i] == rows[i].message_id);
        }
    }
    table::lemma_evicted_pairwise::<OutboundMessage>(all, capacity, related);
    let left = enqueued(rows, row, capacity);
    assert forall|i: int, j: int| 0 <= i < ids(left).len() && 0 <= j < ids(left).len() && i != j implies ids(
        left,
    )[i] != ids(left)[j] by {
        if i < j {
            assert(related(left[i], left[j]));
        } else {
            assert(related(left[j], left[i]));
        }
    }
}

// ---------------------------------------------------------------------------------------------
// Laws
// ---------------------------------------------------------------------------------------------

/// Nobody but its recipient settles a message: an acknowledgement by any other node leaves every
/// message that is not to that node as it was.
pub proof fn law_only_the_recipient_settles(
    rows: Seq<OutboundData>,
    message_id: [u8; 16],
    node: NodeId,
    i: int,
)
    requires
        0 <= i < rows.len(),
    ensures
        !addressed(rows[i], message_id, node) ==> acknowledged(rows, message_id, node)[i]
            == rows[i],
        addressed(rows[i], message_id, node) && rows[i].state != OutboundState::Expired
            ==> acknowledged(rows, message_id, node)[i].state == OutboundState::Acknowledged,
{
}

/// A settled message is never sent again and never changes: it is not due, and neither a late
/// attempt nor a late acknowledgement nor expiry changes it.
pub proof fn law_settled_stays_settled(
    rows: Seq<OutboundData>,
    i: int,
    message_id: [u8; 16],
    node: NodeId,
    now_ms: u64,
    random: u64,
)
    requires
        0 <= i < rows.len(),
        rows[i].state.is_final(),
    ensures
        !rows[i].due(now_ms),
        attempted(rows, message_id, now_ms, random)[i] == rows[i],
        acknowledged(rows, message_id, node)[i] == rows[i],
        expired(rows, now_ms)[i] == rows[i],
{
}

/// A message is due the moment it is queued, unless it has expired by then; after an attempt it
/// waits at least a second, and once its time is over it is given up.
pub proof fn law_retry_schedule(row: OutboundData, now_ms: u64, random: u64, later_ms: u64)
    requires
        !row.state.is_final(),
        now_ms <= u64::MAX - 75_000,
    ensures
        OutboundData::queued(
            row.message_id,
            row.recipient,
            row.envelope_bytes,
            now_ms,
            row.expires_at,
        ).due(now_ms) <==> row.expires_at > now_ms,
        row.attempted(now_ms, random).due(later_ms) ==> later_ms >= now_ms + 1_000,
        row.attempted(now_ms, random).envelope_bytes == row.envelope_bytes,
        later_ms >= row.expires_at ==> expired(seq![row], later_ms)[0].state
            == OutboundState::Expired,
{
    let attempts = row.attempted(now_ms, random).attempts;
    backoff::law_delay_is_bounded(attempts, attempts, random);
}

/// Queueing a message that is there already changes nothing: its state and its attempts stay.
pub proof fn law_queueing_again_changes_nothing(
    rows: Seq<OutboundData>,
    row: OutboundData,
    capacity: nat,
)
    requires
        ids(rows).contains(row.message_id),
        rows.len() <= capacity,
    ensures
        enqueued(rows, row, capacity) == rows,
{
}

/// The store never holds more than its capacity.
pub proof fn law_capacity_is_never_exceeded(
    rows: Seq<OutboundData>,
    row: OutboundData,
    capacity: nat,
)
    ensures
        enqueued(rows, row, capacity).len() <= capacity,
{
    table::lemma_evicted::<OutboundMessage>(
        if ids(rows).contains(row.message_id) {
            rows
        } else {
            rows.push(row)
        },
        capacity,
    );
}

/// Where a message has to leave and one that is final is there, it is a final one that leaves.
pub proof fn law_final_messages_leave_first(rows: Seq<OutboundData>, capacity: nat, settled: int) -> (gone: int)
    requires
        rows.len() == capacity + 1,
        0 <= settled < rows.len(),
        rows[settled].state.is_final(),
    ensures
        0 <= gone < rows.len(),
        rows[gone].state.is_final(),
        table::evicted::<OutboundMessage>(rows, capacity) == rows.remove(gone),
{
    let all = table::ranks::<OutboundMessage>(rows);
    table::lemma_first_lowest(all);
    let gone = table::first_lowest(all);
    assert(all[gone] <= all[settled]);
    assert(all[settled] == OutboundMessage::rank_of(rows[settled]));
    assert(all[gone] == OutboundMessage::rank_of(rows[gone]));
    let left = rows.remove(gone);
    assert(table::evicted::<OutboundMessage>(left, capacity) == left);
    gone
}

/// What is to be sent at a time is every message that is open, whose next attempt has come and
/// that has not expired, however often it has been tried, and nothing else: each once, in the
/// order of the table, with its id, its recipient and the bytes it was stored with.
pub proof fn law_open_messages_are_due(rows: Seq<OutboundData>, now_ms: u64) -> (from: Seq<int>)
    ensures
        table::lists(
            from,
            rows.len(),
            |i: int|
                (rows[i].state == OutboundState::Queued || rows[i].state == OutboundState::Sent)
                    && rows[i].next_attempt_at <= now_ms && now_ms < rows[i].expires_at,
        ),
        due(rows, now_ms).len() == from.len(),
        forall|j: int|
            0 <= j < from.len() ==> {
                &&& (#[trigger] due(rows, now_ms)[j]).message_id == rows[from[j]].message_id
                &&& due(rows, now_ms)[j].recipient == rows[from[j]].recipient
                &&& due(rows, now_ms)[j].envelope_bytes == rows[from[j]].envelope_bytes
                &&& due(rows, now_ms)[j].attempts == rows[from[j]].attempts
            },
{
    let keeps = |row: OutboundData| row.due(now_ms);
    table::lemma_positions(rows, keeps);
    let from = table::positions(rows, keeps);
    let wanted = |i: int|
        (rows[i].state == OutboundState::Queued || rows[i].state == OutboundState::Sent)
            && rows[i].next_attempt_at <= now_ms && now_ms < rows[i].expires_at;
    let kept = |i: int| keeps(rows[i]);
    assert forall|i: int| 0 <= i < rows.len() && #[trigger] wanted(i) implies from.contains(i) by {
        assert(kept(i));
    }
    assert forall|j: int| 0 <= j < from.len() implies 0 <= (#[trigger] from[j]) < rows.len()
        && wanted(from[j]) by {
        assert(kept(from[j]));
    }
    assert forall|j: int| 0 <= j < from.len() implies {
        &&& (#[trigger] due(rows, now_ms)[j]).message_id == rows[from[j]].message_id
        &&& due(rows, now_ms)[j].recipient == rows[from[j]].recipient
        &&& due(rows, now_ms)[j].envelope_bytes == rows[from[j]].envelope_bytes
        &&& due(rows, now_ms)[j].attempts == rows[from[j]].attempts
    } by {
        assert(rows.filter(keeps)[j] == rows[from[j]]);
    }
    from
}

/// What sending a message once more does: the message counts as sent, one attempt more is
/// counted, and the next comes between one and seventy-five seconds later. Nothing else about it
/// changes, and neither does any other message, nor one that is settled.
pub proof fn law_an_attempt_counts(
    rows: Seq<OutboundData>,
    message_id: [u8; 16],
    now_ms: u64,
    random: u64,
    i: int,
)
    requires
        0 <= i < rows.len(),
    ensures
        attempted(rows, message_id, now_ms, random).len() == rows.len(),
        ({
            let before = rows[i];
            let after = attempted(rows, message_id, now_ms, random)[i];
            if before.message_id == message_id && (before.state == OutboundState::Queued
                || before.state == OutboundState::Sent) {
                &&& after.message_id == before.message_id
                &&& after.recipient == before.recipient
                &&& after.envelope_bytes == before.envelope_bytes
                &&& after.expires_at == before.expires_at
                &&& after.created_at == before.created_at
                &&& after.state == OutboundState::Sent
                &&& before.attempts < u32::MAX ==> after.attempts == before.attempts + 1
                &&& now_ms <= u64::MAX - 75_000 ==> now_ms + 1_000 <= after.next_attempt_at
                    <= now_ms + 75_000
                &&& now_ms <= u64::MAX - 75_000 && before.attempts < u32::MAX
                    ==> after.next_attempt_at == now_ms + backoff::delay_with(
                    (before.attempts + 1) as u32,
                    random,
                )
            } else {
                after == before
            }
        }),
{
    let attempts = rows[i].attempted(now_ms, random).attempts;
    backoff::law_delay_is_bounded(attempts, attempts, random);
}

/// A message is tried again for as long as it is open: however often it has been sent, at most
/// seventy-five seconds after the last time it is handed out again, with the same bytes for the
/// same recipient, until it is settled or expires.
pub proof fn law_message_is_tried_again(
    rows: Seq<OutboundData>,
    i: int,
    now_ms: u64,
    random: u64,
    later_ms: u64,
) -> (j: int)
    requires
        0 <= i < rows.len(),
        rows[i].state == OutboundState::Queued || rows[i].state == OutboundState::Sent,
        now_ms <= u64::MAX - 75_000,
        now_ms + 75_000 <= later_ms < rows[i].expires_at,
    ensures
        ({
            let again = due(attempted(rows, rows[i].message_id, now_ms, random), later_ms);
            &&& 0 <= j < again.len()
            &&& again[j].message_id == rows[i].message_id
            &&& again[j].recipient == rows[i].recipient
            &&& again[j].envelope_bytes == rows[i].envelope_bytes
        }),
{
    let after = attempted(rows, rows[i].message_id, now_ms, random);
    law_an_attempt_counts(rows, rows[i].message_id, now_ms, random, i);
    let from = law_open_messages_are_due(after, later_ms);
    let wanted = |i: int|
        (after[i].state == OutboundState::Queued || after[i].state == OutboundState::Sent)
            && after[i].next_attempt_at <= later_ms && later_ms < after[i].expires_at;
    assert(wanted(i));
    let j = choose|j: int| 0 <= j < from.len() && from[j] == i;
    assert(due(after, later_ms)[j].message_id == after[from[j]].message_id);
    j
}

/// A message that is queued is there, behind all others, to be sent at once, with the bytes it
/// was given; the others stay as they are. It has to be new, and there has to be room.
pub proof fn law_queued_message_is_kept(
    rows: Seq<OutboundData>,
    message_id: [u8; 16],
    recipient: NodeId,
    envelope_bytes: Seq<u8>,
    now_ms: u64,
    expires_at_ms: u64,
    capacity: nat,
)
    requires
        rows.len() < capacity,
        forall|i: int| 0 <= i < rows.len() ==> (#[trigger] rows[i]).message_id != message_id,
    ensures
        ({
            let after = enqueued(
                rows,
                OutboundData::queued(message_id, recipient, envelope_bytes, now_ms, expires_at_ms),
                capacity,
            );
            &&& after.len() == rows.len() + 1
            &&& after.drop_last() == rows
            &&& after.last().message_id == message_id
            &&& after.last().recipient == recipient
            &&& after.last().envelope_bytes == envelope_bytes
            &&& after.last().state == OutboundState::Queued
            &&& after.last().attempts == 0
            &&& after.last().next_attempt_at == now_ms
            &&& after.last().created_at == now_ms
            &&& after.last().expires_at == expires_at_ms
        }),
{
    let row = OutboundData::queued(message_id, recipient, envelope_bytes, now_ms, expires_at_ms);
    if ids(rows).contains(message_id) {
        let i = choose|i: int| 0 <= i < ids(rows).len() && ids(rows)[i] == message_id;
        assert(rows[i].message_id == message_id);
    }
    assert(rows.push(row).drop_last() =~= rows);
}

/// What an acknowledgement and the passing of time do to each message: the recipient's
/// acknowledgement settles an open message, the end of its time gives it up, and neither changes
/// anything else about any message.
pub proof fn law_messages_are_settled_or_given_up(
    rows: Seq<OutboundData>,
    message_id: [u8; 16],
    node: NodeId,
    now_ms: u64,
    i: int,
)
    requires
        0 <= i < rows.len(),
    ensures
        acknowledged(rows, message_id, node).len() == rows.len(),
        expired(rows, now_ms).len() == rows.len(),
        acknowledged(rows, message_id, node)[i] == (OutboundData {
            state: if rows[i].message_id == message_id && rows[i].recipient == node && (
            rows[i].state == OutboundState::Queued || rows[i].state == OutboundState::Sent) {
                OutboundState::Acknowledged
            } else {
                rows[i].state
            },
            ..rows[i]
        }),
        expired(rows, now_ms)[i] == (OutboundData {
            state: if rows[i].expires_at <= now_ms && (rows[i].state == OutboundState::Queued
                || rows[i].state == OutboundState::Sent) {
                OutboundState::Expired
            } else {
                rows[i].state
            },
            ..rows[i]
        }),
{
}

/// The state that is reported of a message is the state of its row, and none is reported of a
/// message that is not there.
pub proof fn law_state_is_that_of_the_row(rows: Seq<OutboundData>, message_id: [u8; 16])
    ensures
        state_in(rows, message_id) is None <==> (forall|i: int|
            0 <= i < rows.len() ==> (#[trigger] rows[i]).message_id != message_id),
        forall|i: int|
            0 <= i < rows.len() && (#[trigger] rows[i]).message_id == message_id && (forall|k: int|
                0 <= k < i ==> (#[trigger] rows[k]).message_id != message_id) ==> state_in(
                rows,
                message_id,
            ) == Some(rows[i].state),
{
    let all = ids(rows);
    all.index_of_first_ensures(message_id);
    if all.index_of_first(message_id) is None {
        assert forall|i: int| 0 <= i < rows.len() implies (#[trigger] rows[i]).message_id
            != message_id by {
            assert(all[i] == rows[i].message_id);
        }
    } else {
        let at = all.index_of_first(message_id)->0;
        assert(rows[at].message_id == message_id);
        assert forall|i: int|
            0 <= i < rows.len() && (#[trigger] rows[i]).message_id == message_id && (forall|k: int|
                0 <= k < i ==> (#[trigger] rows[k]).message_id != message_id) implies state_in(
            rows,
            message_id,
        ) == Some(rows[i].state) by {
            if at < i {
                assert(rows[at].message_id != message_id);
            }
            if i < at {
                assert(all[i] == rows[i].message_id);
            }
        }
    }
}

/// Where there is one message too many, the oldest settled one leaves, and where none is settled
/// the oldest of all; the others stay, in their order.
pub proof fn law_oldest_leaves(rows: Seq<OutboundData>, capacity: nat) -> (gone: int)
    requires
        rows.len() == capacity + 1,
    ensures
        0 <= gone < rows.len(),
        table::evicted::<OutboundMessage>(rows, capacity) == rows.remove(gone),
        forall|i: int|
            0 <= i < rows.len() ==> {
                let open = (#[trigger] rows[i]).state == OutboundState::Queued || rows[i].state
                    == OutboundState::Sent;
                let gone_open = rows[gone].state == OutboundState::Queued || rows[gone].state
                    == OutboundState::Sent;
                &&& gone_open ==> open
                &&& open == gone_open ==> rows[gone].created_at <= rows[i].created_at
            },
{
    let all = table::ranks::<OutboundMessage>(rows);
    table::lemma_first_lowest(all);
    let gone = table::first_lowest(all);
    assert(table::evicted::<OutboundMessage>(rows.remove(gone), capacity) == rows.remove(gone));
    assert forall|i: int| 0 <= i < rows.len() implies {
        let open = (#[trigger] rows[i]).state == OutboundState::Queued || rows[i].state
            == OutboundState::Sent;
        let gone_open = rows[gone].state == OutboundState::Queued || rows[gone].state
            == OutboundState::Sent;
        &&& gone_open ==> open
        &&& open == gone_open ==> rows[gone].created_at <= rows[i].created_at
    } by {
        assert(all[gone] <= all[i]);
        assert(all[i] == OutboundMessage::rank_of(rows[i]));
        assert(all[gone] == OutboundMessage::rank_of(rows[gone]));
    }
    gone
}

/// Rows that are read back stay: of the rows of each message the first is kept, as it is, and
/// nothing is kept that was not there.
pub proof fn law_first_row_of_each_stays(rows: Seq<OutboundData>, i: int)
    requires
        0 <= i < rows.len(),
    ensures
        (forall|k: int| 0 <= k < i ==> !((#[trigger] rows[k]).message_id == rows[i].message_id))
            ==> first_rows(rows).contains(rows[i]),
        forall|j: int|
            0 <= j < first_rows(rows).len() ==> rows.contains(#[trigger] first_rows(rows)[j]),
    decreases rows.len(),
{
    assert forall|j: int| 0 <= j < first_rows(rows).len() implies rows.contains(
        #[trigger] first_rows(rows)[j],
    ) by {
        lemma_first_rows_are_rows(rows, j);
    }
    let head = rows.drop_last();
    let last = rows.last();
    let before = first_rows(head);
    let all = first_rows(rows);
    if forall|k: int| 0 <= k < i ==> !((#[trigger] rows[k]).message_id == rows[i].message_id) {
        if i < head.len() {
            assert(head[i] == rows[i]);
            assert forall|k: int| 0 <= k < i implies !((#[trigger] head[k]).message_id == head[i].message_id) by {
                assert(rows[k] == head[k]);
            }
            law_first_row_of_each_stays(head, i);
            let j = choose|j: int| 0 <= j < before.len() && before[j] == rows[i];
            assert(all[j] == rows[i]);
        } else {
            if ids(before).contains(last.message_id) {
                let k = choose|k: int|
                    0 <= k < ids(before).len() && ids(before)[k] == last.message_id;
                lemma_first_rows_are_rows(head, k);
                let j = choose|j: int| 0 <= j < head.len() && head[j] == before[k];
                assert(rows[j] == head[j]);
                assert(rows[j].message_id == last.message_id);
            }
            assert(all[all.len() - 1] == rows[i]);
        }
    }
}

proof fn lemma_first_rows_are_rows(rows: Seq<OutboundData>, j: int)
    requires
        0 <= j < first_rows(rows).len(),
    ensures
        rows.contains(first_rows(rows)[j]),
    decreases rows.len(),
{
    if rows.len() > 0 {
        let head = rows.drop_last();
        let before = first_rows(head);
        if j < before.len() {
            lemma_first_rows_are_rows(head, j);
            let k = choose|k: int| 0 <= k < head.len() && head[k] == before[j];
            assert(rows[k] == first_rows(rows)[j]);
        } else {
            assert(rows[rows.len() - 1] == first_rows(rows)[j]);
        }
    }
}

} // verus!
