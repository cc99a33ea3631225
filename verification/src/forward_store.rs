//! Relayed messages on their way, one row for every neighbour.
//!
//! That one neighbour took a message says nothing of the others. So every neighbour known when a
//! message arrived has a row of its own, is retried on its own, and the message is done with
//! only once no row is pending. Neighbours that turn up later are not added.
//!
//! The store is a table in memory; keeping it on disk is up to the caller, who reads the rows
//! after a change and hands them back when the node starts.

use vstd::prelude::*;
use vstd::string::*;

use crate::backoff;
use crate::bytes;
use crate::identity::NodeId;
use crate::table;
use crate::table::Ranked;

verus! {

/// How many rows are kept by default.
pub const DEFAULT_FORWARD_STORE_CAPACITY: usize = 20_000;

/// Where a message stands with one neighbour.
#[derive(Clone, Copy, Debug, PartialEq, Eq, Structural)]
pub enum ForwardState {
    /// Still to be forwarded.
    Pending,
    /// Forwarded.
    Forwarded,
    /// Given up, because the message expired.
    Expired,
}

impl ForwardState {
    /// The word a state is stored as.
    pub open spec fn word(self) -> &'static str {
        match self {
            ForwardState::Pending => "pending",
            ForwardState::Forwarded => "forwarded",
            ForwardState::Expired => "expired",
        }
    }

    /// The word this state is stored as.
    pub fn as_str(self) -> (word: &'static str)
        ensures
            word@ == self.word()@,
    {
        match self {
            ForwardState::Pending => "pending",
            ForwardState::Forwarded => "forwarded",
            ForwardState::Expired => "expired",
        }
    }

    /// The state stored as a word; `None` for any other word.
    pub fn from_str(s: &str) -> (state: Option<ForwardState>)
        ensures
            state matches Some(known) ==> s@ == known.word()@,
            state is None ==> forall|known: ForwardState| s@ != (#[trigger] known.word())@,
    {
        let word = s.to_owned();
        if word == "pending".to_owned() {
            Some(ForwardState::Pending)
        } else if word == "forwarded".to_owned() {
            Some(ForwardState::Forwarded)
        } else if word == "expired".to_owned() {
            Some(ForwardState::Expired)
        } else {
            None
        }
    }
}

/// Different states are stored as different words.
pub proof fn law_state_words_differ(a: ForwardState, b: ForwardState)
    requires
        a.word()@ == b.word()@,
    ensures
        a == b,
{
    reveal_strlit("pending");
    reveal_strlit("forwarded");
    reveal_strlit("expired");
    assert("pending"@[0] == 'p' && "forwarded"@[0] == 'f' && "expired"@[0] == 'e');
}

/// A relayed message and one neighbour it is for.
#[derive(Debug)]
pub struct ForwardAttempt {
    pub message_id: [u8; 16],
    pub sender: NodeId,
    pub peer: String,
    /// The envelope, byte for byte as it is forwarded every time.
    pub envelope_bytes: Vec<u8>,
    pub state: ForwardState,
    pub attempts: u32,
    pub next_attempt_at: u64,
    pub expires_at: u64,
    pub created_at: u64,
}

/// What is known of a relayed message and one neighbour.
pub struct ForwardData {
    pub message_id: [u8; 16],
    pub sender: NodeId,
    pub peer: Seq<char>,
    pub envelope_bytes: Seq<u8>,
    pub state: ForwardState,
    pub attempts: u32,
    pub next_attempt_at: u64,
    pub expires_at: u64,
    pub created_at: u64,
}

impl View for ForwardAttempt {
    type V = ForwardData;

    open spec fn view(&self) -> ForwardData {
        ForwardData {
            message_id: self.message_id,
            sender: self.sender,
            peer: self.peer@,
            envelope_bytes: self.envelope_bytes@,
            state: self.state,
            attempts: self.attempts,
            next_attempt_at: self.next_attempt_at,
            expires_at: self.expires_at,
            created_at: self.created_at,
        }
    }
}

impl Ranked for ForwardAttempt {
    /// Rows that are done go before pending ones, older ones before younger.
    open spec fn rank_of(row: ForwardData) -> int {
        if row.state is Pending {
            row.created_at + 0x1_0000_0000_0000_0000
        } else {
            row.created_at as int
        }
    }

    fn rank(&self) -> (rank: u128) {
        let age: u128 = self.created_at as u128;
        match self.state {
            ForwardState::Pending => age + 0x1_0000_0000_0000_0000,
            _ => age,
        }
    }
}

impl ForwardData {
    /// A row just added.
    pub open spec fn pending(
        message_id: [u8; 16],
        sender: NodeId,
        peer: Seq<char>,
        envelope_bytes: Seq<u8>,
        now_ms: u64,
        expires_at_ms: u64,
    ) -> ForwardData {
        ForwardData {
            message_id,
            sender,
            peer,
            envelope_bytes,
            state: ForwardState::Pending,
            attempts: 0,
            next_attempt_at: now_ms,
            expires_at: expires_at_ms,
            created_at: now_ms,
        }
    }

    /// The row is of the given message and neighbour.
    pub open spec fn keyed(self, message_id: [u8; 16], peer: Seq<char>) -> bool {
        self.message_id == message_id && self.peer == peer
    }

    /// The message is to be forwarded at `now_ms`: pending, its time has come, not expired.
    pub open spec fn due(self, now_ms: u64) -> bool {
        self.state is Pending && self.next_attempt_at <= now_ms && self.expires_at > now_ms
    }

    /// What is forwarded.
    pub open spec fn to_send(self) -> DueForwardData {
        DueForwardData {
            message_id: self.message_id,
            peer: self.peer,
            envelope_bytes: self.envelope_bytes,
            attempts: self.attempts,
        }
    }

    /// The row after an attempt that failed. The attempt counter stops at its maximum, and so
    /// does the time.
    pub open spec fn failed(self, now_ms: u64, random: u64) -> ForwardData {
        let attempts = if self.attempts < u32::MAX {
            (self.attempts + 1) as u32
        } else {
            u32::MAX
        };
        let next = now_ms + backoff::delay_with(attempts, random);
        ForwardData {
            attempts,
            next_attempt_at: if next > u64::MAX {
                u64::MAX
            } else {
                next as u64
            },
            ..self
        }
    }
}

/// A message to be forwarded to one neighbour now.
#[derive(Debug)]
pub struct DueForward {
    pub message_id: [u8; 16],
    pub peer: String,
    pub envelope_bytes: Vec<u8>,
    pub attempts: u32,
}

/// What is to be forwarded.
pub struct DueForwardData {
    pub message_id: [u8; 16],
    pub peer: Seq<char>,
    pub envelope_bytes: Seq<u8>,
    pub attempts: u32,
}

impl View for DueForward {
    type V = DueForwardData;

    open spec fn view(&self) -> DueForwardData {
        DueForwardData {
            message_id: self.message_id,
            peer: self.peer@,
            envelope_bytes: self.envelope_bytes@,
            attempts: self.attempts,
        }
    }
}

// ---------------------------------------------------------------------------------------------
// The table
// ---------------------------------------------------------------------------------------------

/// The message and neighbour of every row.
pub open spec fn keys(rows: Seq<ForwardData>) -> Seq<([u8; 16], Seq<char>)> {
    rows.map_values(|row: ForwardData| (row.message_id, row.peer))
}

/// The message of every row.
pub open spec fn message_ids(rows: Seq<ForwardData>) -> Seq<[u8; 16]> {
    rows.map_values(|row: ForwardData| row.message_id)
}

/// No message is in the table twice for one neighbour.
pub open spec fn one_row_each(rows: Seq<ForwardData>) -> bool {
    keys(rows).no_duplicates()
}

/// The rows with one row added, unless there is one of that message and neighbour.
pub open spec fn with_row(rows: Seq<ForwardData>, row: ForwardData) -> Seq<ForwardData> {
    if keys(rows).contains((row.message_id, row.peer)) {
        rows
    } else {
        rows.push(row)
    }
}

/// Of the rows of each message and neighbour the first, in the order of the rows.
pub open spec fn first_rows(rows: Seq<ForwardData>) -> Seq<ForwardData>
    decreases rows.len(),
{
    if rows.len() == 0 {
        rows
    } else {
        with_row(first_rows(rows.drop_last()), rows.last())
    }
}

/// The rows with a pending row for each of `peers`, where there was none.
pub open spec fn with_peers(
    rows: Seq<ForwardData>,
    message_id: [u8; 16],
    sender: NodeId,
    peers: Seq<Seq<char>>,
    envelope_bytes: Seq<u8>,
    now_ms: u64,
    expires_at_ms: u64,
) -> Seq<ForwardData>
    decreases peers.len(),
{
    if peers.len() == 0 {
        rows
    } else {
        with_row(
            with_peers(
                rows,
                message_id,
                sender,
                peers.drop_last(),
                envelope_bytes,
                now_ms,
                expires_at_ms,
            ),
            ForwardData::pending(
                message_id,
                sender,
                peers.last(),
                envelope_bytes,
                now_ms,
                expires_at_ms,
            ),
        )
    }
}

/// The rows to be forwarded at `now_ms`, in the order they were added.
pub open spec fn due(rows: Seq<ForwardData>, now_ms: u64) -> Seq<DueForwardData> {
    rows.filter(|row: ForwardData| row.due(now_ms)).map_values(|row: ForwardData| row.to_send())
}

/// The rows after an attempt at one neighbour. Only a pending row changes.
pub open spec fn attempted(
    rows: Seq<ForwardData>,
    message_id: [u8; 16],
    peer: Seq<char>,
    succeeded: bool,
    now_ms: u64,
    random: u64,
) -> Seq<ForwardData> {
    rows.map_values(
        |row: ForwardData|
            if row.keyed(message_id, peer) && row.state is Pending {
                if succeeded {
                    ForwardData { state: ForwardState::Forwarded, ..row }
                } else {
                    row.failed(now_ms, random)
                }
            } else {
                row
            },
    )
}

/// The rows after overdue messages have been given up.
pub open spec fn expired(rows: Seq<ForwardData>, now_ms: u64) -> Seq<ForwardData> {
    rows.map_values(
        |row: ForwardData|
            if row.state is Pending && row.expires_at <= now_ms {
                ForwardData { state: ForwardState::Expired, ..row }
            } else {
                row
            },
    )
}

/// A row is of the given message and still pending.
pub open spec fn awaiting(row: ForwardData, message_id: [u8; 16]) -> bool {
    row.message_id == message_id && row.state is Pending
}

/// No neighbour still awaits the message.
pub open spec fn resolved(rows: Seq<ForwardData>, message_id: [u8; 16]) -> bool {
    forall|i: int| 0 <= i < rows.len() ==> !awaiting(#[trigger] rows[i], message_id)
}

/// The sender and expiry of a message, from its first row.
pub open spec fn origin(rows: Seq<ForwardData>, message_id: [u8; 16]) -> Option<(NodeId, u64)> {
    match message_ids(rows).index_of_first(message_id) {
        Some(i) => Some((rows[i].sender, rows[i].expires_at)),
        None => None,
    }
}

/// The state of a message with a neighbour.
pub open spec fn state_in(rows: Seq<ForwardData>, message_id: [u8; 16], peer: Seq<char>) -> Option<ForwardState> {
    match keys(rows).index_of_first((message_id, peer)) {
        Some(i) => Some(rows[i].state),
        None => None,
    }
}

/// The relayed messages.
pub struct ForwardStore {
    rows: Vec<ForwardAttempt>,
    capacity: usize,
}

impl View for ForwardStore {
    type V = Seq<ForwardData>;

    /// The rows, in order of insertion.
    closed spec fn view(&self) -> Seq<ForwardData> {
        table::views(self.rows@)
    }
}

impl ForwardStore {
    /// How many rows are kept at most.
    pub closed spec fn limit(&self) -> nat {
        self.capacity as nat
    }

    /// No message twice for one neighbour.
    pub open spec fn well_formed(&self) -> bool {
        one_row_each(self@)
    }

    /// An empty store of the default capacity.
    pub fn in_memory() -> (store: ForwardStore)
        ensures
            store@ == Seq::<ForwardData>::empty(),
            store.limit() == DEFAULT_FORWARD_STORE_CAPACITY,
            store.well_formed(),
    {
        Self::in_memory_with_capacity(DEFAULT_FORWARD_STORE_CAPACITY)
    }

    /// An empty store of the given capacity.
    pub fn in_memory_with_capacity(capacity: usize) -> (store: ForwardStore)
        ensures
            store@ == Seq::<ForwardData>::empty(),
            store.limit() == capacity,
            store.well_formed(),
    {
        let store = ForwardStore { rows: Vec::new(), capacity };
        assert(store@ =~= Seq::<ForwardData>::empty());
        store
    }

    /// A store with the rows of an earlier run, in their order, a second row of a message and
    /// neighbour left out.
    pub fn from_rows(rows: Vec<ForwardAttempt>, capacity: usize) -> (store: ForwardStore)
        ensures
            store.limit() == capacity,
            store.well_formed(),
            store@ == first_rows(table::views(rows@)),
            one_row_each(table::views(rows@)) ==> store@ == table::views(rows@),
    {
        let ghost all = table::views(rows@);
        let mut rest: Vec<ForwardAttempt> = rows;
        let mut store = ForwardStore { rows: Vec::new(), capacity };
        let ghost mut done: int = 0;
        assert(store@ =~= all.take(0));
        assert(table::views(rest@) =~= all.skip(0));
        while rest.len() > 0
            invariant
                0 <= done <= all.len(),
                table::views(rest@) == all.skip(done),
                store.limit() == capacity,
                store.well_formed(),
                store@ == first_rows(all.take(done)),
                one_row_each(all) ==> store@ == all.take(done),
            decreases rest@.len(),
        {
            let ghost left = rest@;
            let row = rest.remove(0);
            assert(row@ == table::views(left)[0]);
            assert(table::views(left).len() == left.len());
            assert(all.skip(done).len() == all.len() - done);
            assert(all.skip(done)[0] == all[done]);
            assert(table::views(rest@) =~= table::views(left).skip(1));
            assert(all.skip(done).skip(1) =~= all.skip(done + 1));
            let ghost before = store@;
            let known = store.position(&row.message_id, &row.peer);
            if known.is_none() {
                store.rows.push(row);
                assert(store@ =~= before.push(row@));
                assert(keys(store@) =~= keys(before).push((row@.message_id, row@.peer)));
            } else {
                proof {
                    if one_row_each(all) {
                        let j = known->0 as int;
                        assert(keys(all)[j] == keys(before)[j]);
                        assert(keys(all)[done] == (row@.message_id, row@.peer));
                        assert(false);
                    }
                }
            }
            proof {
                assert(all.take(done + 1).drop_last() =~= all.take(done));
                assert(all.take(done + 1).last() == all[done]);
                if one_row_each(all) {
                    assert(store@ =~= all.take(done + 1));
                }
                done = done + 1;
            }
        }
        assert(all.take(done) =~= all);
        store
    }

    /// The rows, in order of insertion, to be kept on disk.
    pub fn rows(&self) -> (rows: &Vec<ForwardAttempt>)
        ensures
            table::views(rows@) == self@,
    {
        &self.rows
    }

    /// Where the row of a message and a neighbour is.
    fn position(&self, message_id: &[u8; 16], peer: &String) -> (position: Option<usize>)
        ensures
            match position {
                Some(i) => i < self.rows@.len() && keys(self@).index_of_first((*message_id, peer@))
                    == Some(i as int),
                None => !keys(self@).contains((*message_id, peer@)) && keys(self@).index_of_first(
                    (*message_id, peer@),
                ) is None,
            },
            position is Some ==> keys(self@).contains((*message_id, peer@)) && keys(
                self@,
            )[position->0 as int] == (*message_id, peer@),
            self@.len() == self.rows@.len(),
    {
        let ghost all = keys(self@);
        let ghost key = (*message_id, peer@);
        proof {
            all.index_of_first_ensures(key);
        }
        let mut i: usize = 0;
        while i < self.rows.len()
            invariant
                i <= self.rows@.len(),
                all == keys(self@),
                key == (*message_id, peer@),
                self@ == table::views(self.rows@),
                forall|j: int| 0 <= j < i ==> #[trigger] all[j] != key,
                match all.index_of_first(key) {
                    Some(k) => {
                        &&& 0 <= k < all.len()
                        &&& all[k] == key
                        &&& forall|j: int| 0 <= j < k < all.len() ==> all[j] != key
                    },
                    None => !all.contains(key),
                },
            decreases self.rows@.len() - i,
        {
            assert(all[i as int] == (self.rows@[i as int].message_id, self.rows@[i as int].peer@));
            if bytes::same_array(&self.rows[i].message_id, message_id) && self.rows[i].peer == *peer {
                return Some(i);
            }
            i += 1;
        }
        None
    }

    /// Adds a pending row for every neighbour that has none yet. Rows that are there keep their
    /// state, so a message that comes again does not start over.
    pub fn enqueue_pending(
        &mut self,
        message_id: &[u8; 16],
        sender: &NodeId,
        peers: &[String],
        envelope_bytes: &[u8],
        now_ms: u64,
        expires_at_ms: u64,
    )
        ensures
            final(self)@ == table::evicted::<ForwardAttempt>(
                with_peers(
                    old(self)@,
                    *message_id,
                    *sender,
                    table::views(peers@),
                    envelope_bytes@,
                    now_ms,
                    expires_at_ms,
                ),
                old(self).limit(),
            ),
            final(self).limit() == old(self).limit(),
            old(self).well_formed() ==> final(self).well_formed(),
    {
        let ghost names = table::views(peers@);
        let mut i: usize = 0;
        assert(names.take(0) =~= Seq::empty());
        while i < peers.len()
            invariant
                i <= peers@.len(),
                names == table::views(peers@),
                self.limit() == old(self).limit(),
                self@ == with_peers(
                    old(self)@,
                    *message_id,
                    *sender,
                    names.take(i as int),
                    envelope_bytes@,
                    now_ms,
                    expires_at_ms,
                ),
                one_row_each(old(self)@) ==> one_row_each(self@),
            decreases peers@.len() - i,
        {
            let ghost before = self@;
            if self.position(message_id, &peers[i]).is_none() {
                let row = ForwardAttempt {
                    message_id: *message_id,
                    sender: *sender,
                    peer: peers[i].clone(),
                    envelope_bytes: bytes::to_vec(envelope_bytes),
                    state: ForwardState::Pending,
                    attempts: 0,
                    next_attempt_at: now_ms,
                    expires_at: expires_at_ms,
                    created_at: now_ms,
                };
                self.rows.push(row);
                assert(self@ =~= before.push(row@));
                assert(keys(self@) =~= keys(before).push((row@.message_id, row@.peer)));
            }
            assert(names.take(i + 1).drop_last() =~= names.take(i as int));
            assert(names.take(i + 1).last() == peers@[i as int]@);
            i += 1;
        }
        assert(names.take(i as int) =~= names);
        let ghost all = self@;
        table::enforce_capacity(&mut self.rows, self.capacity);
        proof {
            if one_row_each(all) {
                lemma_evicted_once(all, self.limit());
            }
        }
    }

    /// What is to be forwarded at `now_ms`.
    pub fn due_for_attempt(&self, now_ms: u64) -> (items: Vec<DueForward>)
        ensures
            table::views(items@) == due(self@, now_ms),
    {
        let ghost all = self@;
        let ghost wanted = |row: ForwardData| row.due(now_ms);
        let mut items: Vec<DueForward> = Vec::new();
        let mut i: usize = 0;
        assert(all.take(0).filter(wanted) =~= Seq::empty()) by {
            reveal(Seq::filter);
        }
        assert(table::views(items@) =~= due(all.take(0), now_ms));
        while i < self.rows.len()
            invariant
                i <= self.rows@.len(),
                all == table::views(self.rows@),
                wanted == (|row: ForwardData| row.due(now_ms)),
                table::views(items@) == due(all.take(i as int), now_ms),
            decreases self.rows@.len() - i,
        {
            let ghost before = items@;
            assert(all.take(i + 1).drop_last() =~= all.take(i as int));
            assert(all[i as int] == self.rows@[i as int]@);
            let row = &self.rows[i];
            let open = match row.state {
                ForwardState::Pending => true,
                _ => false,
            };
            if open && row.next_attempt_at <= now_ms && row.expires_at > now_ms {
                items.push(
                    DueForward {
                        message_id: row.message_id,
                        peer: row.peer.clone(),
                        envelope_bytes: bytes::to_vec(row.envelope_bytes.as_slice()),
                        attempts: row.attempts,
                    },
                );
            }
            proof {
                let head = all.take(i as int).filter(wanted);
                let next = all.take(i + 1).filter(wanted);
                let last = all[i as int];
                assert(all.take(i + 1).last() == last);
                assert(next == if wanted(last) {
                    head.push(last)
                } else {
                    head
                }) by {
                    reveal(Seq::filter);
                }
                assert(wanted(last) == last.due(now_ms));
                let sent = |row: ForwardData| row.to_send();
                if last.due(now_ms) {
                    assert(items@.last()@ == last.to_send());
                    assert(table::views(items@) =~= table::views(before).push(last.to_send()));
                    assert(head.push(last).map_values(sent) =~= head.map_values(sent).push(
                        last.to_send(),
                    ));
                }
                assert(table::views(items@) =~= due(all.take(i + 1), now_ms));
            }
            i += 1;
        }
        assert(all.take(i as int) =~= all);
        items
    }

    /// Records the outcome of an attempt at one neighbour, with fresh random jitter in the delay
    /// after a failure. A row that is done or unknown stays as it is.
    pub fn record_attempt_result(&mut self, message_id: &[u8; 16], peer: &str, succeeded: bool, now_ms: u64)
        ensures
            exists|random: u64|
                final(self)@ == #[trigger] attempted(
                    old(self)@,
                    *message_id,
                    peer@,
                    succeeded,
                    now_ms,
                    random,
                ),
            final(self).limit() == old(self).limit(),
            old(self).well_formed() ==> final(self).well_formed(),
    {
        let random: u64 = backoff::random_jitter();
        self.record_attempt_result_with(message_id, peer, succeeded, now_ms, random);
    }

    /// Records the outcome of an attempt at one neighbour, with the given random number for
    /// jitter.
    pub fn record_attempt_result_with(
        &mut self,
        message_id: &[u8; 16],
        peer: &str,
        succeeded: bool,
        now_ms: u64,
        random: u64,
    )
        ensures
            final(self)@ == attempted(
                old(self)@,
                *message_id,
                peer@,
                succeeded,
                now_ms,
                random,
            ),
            final(self).limit() == old(self).limit(),
            old(self).well_formed() ==> final(self).well_formed(),
    {
        let ghost all = self@;
        let ghost wanted = attempted(all, *message_id, peer@, succeeded, now_ms, random);
        let name = peer.to_owned();
        let mut i: usize = 0;
        while i < self.rows.len()
            invariant
                i <= self.rows@.len(),
                self.rows@.len() == all.len(),
                self.limit() == old(self).limit(),
                name@ == peer@,
                wanted == attempted(all, *message_id, peer@, succeeded, now_ms, random),
                forall|j: int| 0 <= j < i ==> (#[trigger] self.rows@[j])@ == wanted[j],
                forall|j: int| i <= j < all.len() ==> (#[trigger] self.rows@[j])@ == all[j],
            decreases self.rows@.len() - i,
        {
            let open = match self.rows[i].state {
                ForwardState::Pending => true,
                _ => false,
            };
            if open && bytes::same_array(&self.rows[i].message_id, message_id) && self.rows[i].peer
                == name {
                if succeeded {
                    self.rows[i].state = ForwardState::Forwarded;
                } else {
                    let attempts: u32 = self.rows[i].attempts.saturating_add(1);
                    let delay: u64 = backoff::retry_delay_ms(attempts, random);
                    self.rows[i].attempts = attempts;
                    self.rows[i].next_attempt_at = now_ms.saturating_add(delay);
                }
            }
            i += 1;
        }
        assert(self@ =~= wanted);
        assert(keys(self@) =~= keys(all));
    }

    /// Gives up on messages whose time is over.
    pub fn expire_overdue(&mut self, now_ms: u64)
        ensures
            final(self)@ == expired(old(self)@, now_ms),
            final(self).limit() == old(self).limit(),
            old(self).well_formed() ==> final(self).well_formed(),
    {
        let ghost all = self@;
        let ghost wanted = expired(all, now_ms);
        let mut i: usize = 0;
        while i < self.rows.len()
            invariant
                i <= self.rows@.len(),
                self.rows@.len() == all.len(),
                self.limit() == old(self).limit(),
                wanted == expired(all, now_ms),
                forall|j: int| 0 <= j < i ==> (#[trigger] self.rows@[j])@ == wanted[j],
                forall|j: int| i <= j < all.len() ==> (#[trigger] self.rows@[j])@ == all[j],
            decreases self.rows@.len() - i,
        {
            let open = match self.rows[i].state {
                ForwardState::Pending => true,
                _ => false,
            };
            if open && self.rows[i].expires_at <= now_ms {
                self.rows[i].state = ForwardState::Expired;
            }
            i += 1;
        }
        assert(self@ =~= wanted);
        assert(keys(self@) =~= keys(all));
    }

    /// Whether no neighbour still awaits the message. True of a message that was never added.
    pub fn all_peers_resolved(&self, message_id: &[u8; 16]) -> (done: bool)
        ensures
            done == resolved(self@, *message_id),
    {
        let mut i: usize = 0;
        while i < self.rows.len()
            invariant
                i <= self.rows@.len(),
                self@ == table::views(self.rows@),
                forall|j: int| 0 <= j < i ==> !awaiting(#[trigger] self@[j], *message_id),
            decreases self.rows@.len() - i,
        {
            assert(self@[i as int] == self.rows@[i as int]@);
            let open = match self.rows[i].state {
                ForwardState::Pending => true,
                _ => false,
            };
            if open && bytes::same_array(&self.rows[i].message_id, message_id) {
                assert(awaiting(self@[i as int], *message_id));
                return false;
            }
            i += 1;
        }
        true
    }

    /// The sender and expiry of a message.
    pub fn sender_and_expiry_of(&self, message_id: &[u8; 16]) -> (found: Option<(NodeId, u64)>)
        ensures
            found == origin(self@, *message_id),
    {
        let ghost all = message_ids(self@);
        proof {
            all.index_of_first_ensures(*message_id);
        }
        let mut i: usize = 0;
        while i < self.rows.len()
            invariant
                i <= self.rows@.len(),
                all == message_ids(self@),
                self@ == table::views(self.rows@),
                forall|j: int| 0 <= j < i ==> #[trigger] all[j] != *message_id,
                match all.index_of_first(*message_id) {
                    Some(k) => {
                        &&& 0 <= k < all.len()
                        &&& all[k] == *message_id
                        &&& forall|j: int| 0 <= j < k < all.len() ==> all[j] != *message_id
                    },
                    None => !all.contains(*message_id),
                },
            decreases self.rows@.len() - i,
        {
            assert(all[i as int] == self.rows@[i as int].message_id);
            assert(self@[i as int] == self.rows@[i as int]@);
            if bytes::same_array(&self.rows[i].message_id, message_id) {
                return Some((self.rows[i].sender, self.rows[i].expires_at));
            }
            i += 1;
        }
        None
    }

    /// The state of a message with a neighbour.
    pub fn state_of(&self, message_id: &[u8; 16], peer: &str) -> (state: Option<ForwardState>)
        ensures
            state == state_in(self@, *message_id, peer@),
    {
        let name = peer.to_owned();
        match self.position(message_id, &name) {
            Some(i) => {
                assert(self@[i as int] == self.rows@[i as int]@);
                Some(self.rows[i].state)
            },
            None => None,
        }
    }

    /// How many rows are kept.
    pub fn len(&self) -> (len: usize)
        ensures
            len == self@.len(),
    {
        self.rows.len()
    }

    /// Whether none is kept.
    pub fn is_empty(&self) -> (empty: bool)
        ensures
            empty == (self@.len() == 0),
    {
        self.rows.len() == 0
    }
}

proof fn lemma_evicted_once(rows: Seq<ForwardData>, capacity: nat)
    requires
        one_row_each(rows),
    ensures
        one_row_each(table::evicted::<ForwardAttempt>(rows, capacity)),
{
    let related = |a: ForwardData, b: ForwardData|
        (a.message_id, a.peer) != (b.message_id, b.peer);
    assert forall|i: int, j: int| 0 <= i < j < rows.len() implies #[trigger] related(
        rows[i],
        rows[j],
    ) by {
        assert(keys(rows)[i] != keys(rows)[j]);
    }
    table::lemma_evicted_pairwise::<ForwardAttempt>(rows, capacity, related);
    let left = table::evicted::<ForwardAttempt>(rows, capacity);
    assert forall|i: int, j: int| 0 <= i < keys(left).len() && 0 <= j < keys(left).len() && i != j implies keys(
        left,
    )[i] != keys(left)[j] by {
        if i < j {
            assert(related(left[i], left[j]));
        } else {
            assert(related(left[j], left[i]));
        }
    }
}

// ---------------------------------------------------------------------------------------------
// Laws
// ---------------------------------------------------------------------------------------------

/// Neighbours are independent: the outcome of an attempt at one changes no row of another.
pub proof fn law_neighbours_are_independent(
    rows: Seq<ForwardData>,
    message_id: [u8; 16],
    peer: Seq<char>,
    succeeded: bool,
    now_ms: u64,
    random: u64,
    i: int,
)
    requires
        0 <= i < rows.len(),
        !rows[i].keyed(message_id, peer),
    ensures
        attempted(rows, message_id, peer, succeeded, now_ms, random)[i] == rows[i],
{
}

/// While an attempt at a neighbour has failed, the message is not done with, however many others
/// have taken it; and it is the exact bytes of the first time that are tried again.
pub proof fn law_failed_neighbour_keeps_the_message_open(
    rows: Seq<ForwardData>,
    message_id: [u8; 16],
    peer: Seq<char>,
    now_ms: u64,
    random: u64,
    i: int,
)
    requires
        0 <= i < rows.len(),
        rows[i].keyed(message_id, peer),
        rows[i].state is Pending,
    ensures
        !resolved(attempted(rows, message_id, peer, false, now_ms, random), message_id),
        attempted(rows, message_id, peer, false, now_ms, random)[i].envelope_bytes
            == rows[i].envelope_bytes,
        attempted(rows, message_id, peer, true, now_ms, random)[i].state
            == ForwardState::Forwarded,
{
    let after = attempted(rows, message_id, peer, false, now_ms, random);
    assert(awaiting(after[i], message_id));
}

/// A message that comes again does not start over: every row that was there stays as it was.
pub proof fn law_coming_again_does_not_start_over(
    rows: Seq<ForwardData>,
    message_id: [u8; 16],
    sender: NodeId,
    peers: Seq<Seq<char>>,
    envelope_bytes: Seq<u8>,
    now_ms: u64,
    expires_at_ms: u64,
)
    ensures
        ({
            let after = with_peers(
                rows,
                message_id,
                sender,
                peers,
                envelope_bytes,
                now_ms,
                expires_at_ms,
            );
            &&& rows.len() <= after.len() <= rows.len() + peers.len()
            &&& after.take(rows.len() as int) == rows
        }),
    decreases peers.len(),
{
    let after = with_peers(rows, message_id, sender, peers, envelope_bytes, now_ms, expires_at_ms);
    if peers.len() > 0 {
        law_coming_again_does_not_start_over(
            rows,
            message_id,
            sender,
            peers.drop_last(),
            envelope_bytes,
            now_ms,
            expires_at_ms,
        );
    }
    assert(after.take(rows.len() as int) =~= rows);
}

/// Every neighbour known when a message arrived has a row.
pub proof fn law_every_neighbour_has_a_row(
    rows: Seq<ForwardData>,
    message_id: [u8; 16],
    sender: NodeId,
    peers: Seq<Seq<char>>,
    envelope_bytes: Seq<u8>,
    now_ms: u64,
    expires_at_ms: u64,
    i: int,
)
    requires
        0 <= i < peers.len(),
    ensures
        keys(
            with_peers(rows, message_id, sender, peers, envelope_bytes, now_ms, expires_at_ms),
        ).contains((message_id, peers[i])),
    decreases peers.len(),
{
    let before = with_peers(
        rows,
        message_id,
        sender,
        peers.drop_last(),
        envelope_bytes,
        now_ms,
        expires_at_ms,
    );
    let row = ForwardData::pending(
        message_id,
        sender,
        peers.last(),
        envelope_bytes,
        now_ms,
        expires_at_ms,
    );
    let after = with_row(before, row);
    if i < peers.len() - 1 {
        law_every_neighbour_has_a_row(
            rows,
            message_id,
            sender,
            peers.drop_last(),
            envelope_bytes,
            now_ms,
            expires_at_ms,
            i,
        );
        let k = choose|k: int|
            0 <= k < keys(before).len() && keys(before)[k] == (message_id, peers[i]);
        assert(keys(after)[k] == keys(before)[k]);
    } else if !keys(before).contains((message_id, peers.last())) {
        assert(keys(after)[before.len() as int] == (message_id, peers.last()));
    }
}

/// Once its time is over, a message is done with, whoever has not taken it.
pub proof fn law_expiry_resolves(rows: Seq<ForwardData>, message_id: [u8; 16], now_ms: u64)
    requires
        forall|i: int|
            0 <= i < rows.len() && (#[trigger] rows[i]).message_id == message_id
                ==> rows[i].expires_at <= now_ms,
    ensures
        resolved(expired(rows, now_ms), message_id),
{
    let after = expired(rows, now_ms);
    assert forall|i: int| 0 <= i < after.len() implies !awaiting(#[trigger] after[i], message_id) by {
        assert(after[i].message_id == rows[i].message_id);
    }
}

/// The store never holds more than its capacity.
pub proof fn law_capacity_is_never_exceeded(rows: Seq<ForwardData>, capacity: nat)
    ensures
        table::evicted::<ForwardAttempt>(rows, capacity).len() <= capacity,
{
    table::lemma_evicted::<ForwardAttempt>(rows, capacity);
}

/// What is to be forwarded at a time is every row that is pending, whose next attempt has come
/// and whose message has not expired, however often it has been tried, and nothing else: each
/// once, in the order of the table, with its message, its neighbour and the bytes it was stored
/// with.
pub proof fn law_pending_rows_are_due(rows: Seq<ForwardData>, now_ms: u64) -> (from: Seq<int>)
    ensures
        table::lists(
            from,
            rows.len(),
            |i: int|
                rows[i].state == ForwardState::Pending && rows[i].next_attempt_at <= now_ms
                    && now_ms < rows[i].expires_at,
        ),
        due(rows, now_ms).len() == from.len(),
        forall|j: int|
            0 <= j < from.len() ==> {
                &&& (#[trigger] due(rows, now_ms)[j]).message_id == rows[from[j]].message_id
                &&& due(rows, now_ms)[j].peer == rows[from[j]].peer
                &&& due(rows, now_ms)[j].envelope_bytes == rows[from[j]].envelope_bytes
                &&& due(rows, now_ms)[j].attempts == rows[from[j]].attempts
            },
{
    let keeps = |row: ForwardData| row.due(now_ms);
    table::lemma_positions(rows, keeps);
    let from = table::positions(rows, keeps);
    let wanted = |i: int|
        rows[i].state == ForwardState::Pending && rows[i].next_attempt_at <= now_ms && now_ms
            < rows[i].expires_at;
    let kept = |i: int| keeps(rows[i]);
    assert forall|i: int| 0 <= i < rows.len() && #[trigger] wanted(i) implies from.contains(i) by {
        assert(kept(i));
    }
    assert forall|j: int| 0 <= j < from.len() implies 0 <= (#[trigger] from[j]) < rows.len()
        && wanted(from[j]) by {
        assert(kept(from[j]));
    }
    assert forall|j: int| 0 <= j < from.len() implies {
        &&& (#[trigger] due(rows, now_ms)[j]).message_id == rows[from[j]].message_id
        &&& due(rows, now_ms)[j].peer == rows[from[j]].peer
        &&& due(rows, now_ms)[j].envelope_bytes == rows[from[j]].envelope_bytes
        &&& due(rows, now_ms)[j].attempts == rows[from[j]].attempts
    } by {
        assert(rows.filter(keeps)[j] == rows[from[j]]);
    }
    from
}

/// What an attempt at a neighbour does: one that succeeded settles the row; one that failed
/// counts, and the next comes between one and seventy-five seconds later. Nothing else about the
/// row changes, and neither does any other row, nor one that is settled.
pub proof fn law_an_attempt_counts(
    rows: Seq<ForwardData>,
    message_id: [u8; 16],
    peer: Seq<char>,
    succeeded: bool,
    now_ms: u64,
    random: u64,
    i: int,
)
    requires
        0 <= i < rows.len(),
    ensures
        attempted(rows, message_id, peer, succeeded, now_ms, random).len() == rows.len(),
        ({
            let before = rows[i];
            let after = attempted(rows, message_id, peer, succeeded, now_ms, random)[i];
            if before.message_id == message_id && before.peer == peer && before.state
                == ForwardState::Pending {
                if succeeded {
                    after == (ForwardData { state: ForwardState::Forwarded, ..before })
                } else {
                    &&& after == (ForwardData {
                        attempts: after.attempts,
                        next_attempt_at: after.next_attempt_at,
                        ..before
                    })
                    &&& before.attempts < u32::MAX ==> after.attempts == before.attempts + 1
                    &&& now_ms <= u64::MAX - 75_000 ==> now_ms + 1_000 <= after.next_attempt_at
                        <= now_ms + 75_000
                    &&& now_ms <= u64::MAX - 75_000 && before.attempts < u32::MAX
                        ==> after.next_attempt_at == now_ms + backoff::delay_with(
                        (before.attempts + 1) as u32,
                        random,
                    )
                }
            } else {
                after == before
            }
        }),
{
    let attempts = rows[i].failed(now_ms, random).attempts;
    backoff::law_delay_is_bounded(attempts, attempts, random);
}

/// A neighbour that awaits a message is tried again: however often it could not be reached, at
/// most seventy-five seconds after the last time the message is handed out for it again, with the
/// same bytes, until the neighbour has it or the message expires.
pub proof fn law_neighbour_is_tried_again(
    rows: Seq<ForwardData>,
    i: int,
    now_ms: u64,
    random: u64,
    later_ms: u64,
) -> (j: int)
    requires
        0 <= i < rows.len(),
        rows[i].state == ForwardState::Pending,
        now_ms <= u64::MAX - 75_000,
        now_ms + 75_000 <= later_ms < rows[i].expires_at,
    ensures
        ({
            let again = due(
                attempted(rows, rows[i].message_id, rows[i].peer, false, now_ms, random),
                later_ms,
            );
            &&& 0 <= j < again.len()
            &&& again[j].message_id == rows[i].message_id
            &&& again[j].peer == rows[i].peer
            &&& again[j].envelope_bytes == rows[i].envelope_bytes
        }),
{
    let after = attempted(rows, rows[i].message_id, rows[i].peer, false, now_ms, random);
    law_an_attempt_counts(rows, rows[i].message_id, rows[i].peer, false, now_ms, random, i);
    let from = law_pending_rows_are_due(after, later_ms);
    let wanted = |i: int|
        after[i].state == ForwardState::Pending && after[i].next_attempt_at <= later_ms && later_ms
            < after[i].expires_at;
    assert(wanted(i));
    let j = choose|j: int| 0 <= j < from.len() && from[j] == i;
    assert(due(after, later_ms)[j].message_id == after[from[j]].message_id);
    j
}

/// Every neighbour that had no row of the message gets one: pending, not tried yet, due at once,
/// with the bytes that came.
pub proof fn law_new_neighbour_is_due_at_once(
    rows: Seq<ForwardData>,
    message_id: [u8; 16],
    sender: NodeId,
    peers: Seq<Seq<char>>,
    envelope_bytes: Seq<u8>,
    now_ms: u64,
    expires_at_ms: u64,
    i: int,
) -> (at: int)
    requires
        0 <= i < peers.len(),
        forall|k: int|
            0 <= k < rows.len() ==> !((#[trigger] rows[k]).message_id == message_id && rows[k].peer
                == peers[i]),
    ensures
        ({
            let after = with_peers(
                rows,
                message_id,
                sender,
                peers,
                envelope_bytes,
                now_ms,
                expires_at_ms,
            );
            &&& rows.len() <= at < after.len()
            &&& after[at].message_id == message_id
            &&& after[at].sender == sender
            &&& after[at].peer == peers[i]
            &&& after[at].envelope_bytes == envelope_bytes
            &&& after[at].state == ForwardState::Pending
            &&& after[at].attempts == 0
            &&& after[at].next_attempt_at == now_ms
            &&& after[at].expires_at == expires_at_ms
            &&& after[at].created_at == now_ms
        }),
    decreases peers.len(),
{
    let after = with_peers(rows, message_id, sender, peers, envelope_bytes, now_ms, expires_at_ms);
    law_every_neighbour_has_a_row(
        rows,
        message_id,
        sender,
        peers,
        envelope_bytes,
        now_ms,
        expires_at_ms,
        i,
    );
    law_coming_again_does_not_start_over(
        rows,
        message_id,
        sender,
        peers,
        envelope_bytes,
        now_ms,
        expires_at_ms,
    );
    let key = (message_id, peers[i]);
    let at = choose|at: int| 0 <= at < keys(after).len() && keys(after)[at] == key;
    assert(after[at].message_id == message_id && after[at].peer == peers[i]);
    if at < rows.len() {
        assert(after.take(rows.len() as int)[at] == rows[at]);
    }
    lemma_added_rows(
        rows,
        message_id,
        sender,
        peers,
        envelope_bytes,
        now_ms,
        expires_at_ms,
        at,
    );
    at
}

proof fn lemma_added_rows(
    rows: Seq<ForwardData>,
    message_id: [u8; 16],
    sender: NodeId,
    peers: Seq<Seq<char>>,
    envelope_bytes: Seq<u8>,
    now_ms: u64,
    expires_at_ms: u64,
    at: int,
)
    requires
        rows.len() <= at < with_peers(
            rows,
            message_id,
            sender,
            peers,
            envelope_bytes,
            now_ms,
            expires_at_ms,
        ).len(),
    ensures
        ({
            let row = with_peers(
                rows,
                message_id,
                sender,
                peers,
                envelope_bytes,
                now_ms,
                expires_at_ms,
            )[at];
            row == ForwardData::pending(
                message_id,
                sender,
                row.peer,
                envelope_bytes,
                now_ms,
                expires_at_ms,
            )
        }),
    decreases peers.len(),
{
    if peers.len() > 0 {
        let before = with_peers(
            rows,
            message_id,
            sender,
            peers.drop_last(),
            envelope_bytes,
            now_ms,
            expires_at_ms,
        );
        if at < before.len() {
            lemma_added_rows(
                rows,
                message_id,
                sender,
                peers.drop_last(),
                envelope_bytes,
                now_ms,
                expires_at_ms,
                at,
            );
        }
    }
}

/// The passing of time gives up the rows that are pending when their message expires, and changes
/// nothing else about any row.
pub proof fn law_overdue_rows_are_given_up(rows: Seq<ForwardData>, now_ms: u64, i: int)
    requires
        0 <= i < rows.len(),
    ensures
        expired(rows, now_ms).len() == rows.len(),
        expired(rows, now_ms)[i] == (ForwardData {
            state: if rows[i].expires_at <= now_ms && rows[i].state == ForwardState::Pending {
                ForwardState::Expired
            } else {
                rows[i].state
            },
            ..rows[i]
        }),
{
}

/// A message is done with exactly when no neighbour awaits it, and its sender and expiry are
/// those of its first row.
pub proof fn law_message_is_done_when_nobody_awaits_it(rows: Seq<ForwardData>, message_id: [u8; 16])
    ensures
        resolved(rows, message_id) <==> (forall|i: int|
            0 <= i < rows.len() && (#[trigger] rows[i]).message_id == message_id ==> rows[i].state
                != ForwardState::Pending),
        origin(rows, message_id) is None <==> (forall|i: int|
            0 <= i < rows.len() ==> (#[trigger] rows[i]).message_id != message_id),
        forall|i: int|
            0 <= i < rows.len() && (#[trigger] rows[i]).message_id == message_id && (forall|k: int|
                0 <= k < i ==> (#[trigger] rows[k]).message_id != message_id) ==> origin(
                rows,
                message_id,
            ) == Some((rows[i].sender, rows[i].expires_at)),
{
    if !resolved(rows, message_id) {
        let i = choose|i: int| 0 <= i < rows.len() && awaiting(#[trigger] rows[i], message_id);
        assert(rows[i].message_id == message_id);
    } else {
        assert forall|i: int|
            0 <= i < rows.len() && (#[trigger] rows[i]).message_id == message_id implies rows[i].state
            != ForwardState::Pending by {
            assert(!awaiting(rows[i], message_id));
        }
    }
    let all = message_ids(rows);
    all.index_of_first_ensures(message_id);
    if all.index_of_first(message_id) is None {
        assert forall|i: int| 0 <= i < rows.len() implies (#[trigger] rows[i]).message_id
            != message_id by {
            assert(all[i] == rows[i].message_id);
        }
    } else {
        let at = all.index_of_first(message_id)->0;
        assert(rows[at].message_id == message_id);
        assert forall|i: int|
            0 <= i < rows.len() && (#[trigger] rows[i]).message_id == message_id && (forall|k: int|
                0 <= k < i ==> (#[trigger] rows[k]).message_id != message_id) implies origin(
            rows,
            message_id,
        ) == Some((rows[i].sender, rows[i].expires_at)) by {
            if at < i {
                assert(rows[at].message_id != message_id);
            }
            if i < at {
                assert(all[i] == rows[i].message_id);
            }
        }
    }
}

/// The state that is reported of a message and a neighbour is the state of their row, and none is
/// reported where they have none.
pub proof fn law_state_is_that_of_the_row(rows: Seq<ForwardData>, message_id: [u8; 16], peer: Seq<char>)
    ensures
        state_in(rows, message_id, peer) is None <==> (forall|i: int|
            0 <= i < rows.len() ==> !((#[trigger] rows[i]).message_id == message_id && rows[i].peer
                == peer)),
        forall|i: int|
            0 <= i < rows.len() && (#[trigger] rows[i]).message_id == message_id && rows[i].peer
                == peer && (forall|k: int|
                0 <= k < i ==> !((#[trigger] rows[k]).message_id == message_id && rows[k].peer
                    == peer)) ==> state_in(rows, message_id, peer) == Some(rows[i].state),
{
    let all = keys(rows);
    let key = (message_id, peer);
    all.index_of_first_ensures(key);
    if all.index_of_first(key) is None {
        assert forall|i: int| 0 <= i < rows.len() implies !((#[trigger] rows[i]).message_id
            == message_id && rows[i].peer == peer) by {
            assert(all[i] == (rows[i].message_id, rows[i].peer));
        }
    } else {
        let at = all.index_of_first(key)->0;
        assert(rows[at].message_id == message_id && rows[at].peer == peer);
        assert forall|i: int|
            0 <= i < rows.len() && (#[trigger] rows[i]).message_id == message_id && rows[i].peer
                == peer && (forall|k: int|
                0 <= k < i ==> !((#[trigger] rows[k]).message_id == message_id && rows[k].peer
                    == peer)) implies state_in(rows, message_id, peer) == Some(rows[i].state) by {
            if at < i {
                assert(rows[at].message_id == message_id);
            }
            if i < at {
                assert(all[i] == (rows[i].message_id, rows[i].peer));
            }
        }
    }
}

/// Where there is one row too many, the oldest settled one leaves, and where none is settled the
/// oldest of all; the others stay, in their order.
pub proof fn law_oldest_leaves(rows: Seq<ForwardData>, capacity: nat) -> (gone: int)
    requires
        rows.len() == capacity + 1,
    ensures
        0 <= gone < rows.len(),
        table::evicted::<ForwardAttempt>(rows, capacity) == rows.remove(gone),
        forall|i: int|
            0 <= i < rows.len() ==> {
                let open = (#[trigger] rows[i]).state == ForwardState::Pending;
                let gone_open = rows[gone].state == ForwardState::Pending;
                &&& gone_open ==> open
                &&& open == gone_open ==> rows[gone].created_at <= rows[i].created_at
            },
{
    let all = table::ranks::<ForwardAttempt>(rows);
    table::lemma_first_lowest(all);
    let gone = table::first_lowest(all);
    assert(table::evicted::<ForwardAttempt>(rows.remove(gone), capacity) == rows.remove(gone));
    assert forall|i: int| 0 <= i < rows.len() implies {
        let open = (#[trigger] rows[i]).state == ForwardState::Pending;
        let gone_open = rows[gone].state == ForwardState::Pending;
        &&& gone_open ==> open
        &&& open == gone_open ==> rows[gone].created_at <= rows[i].created_at
    } by {
        assert(all[gone] <= all[i]);
        assert(all[i] == ForwardAttempt::rank_of(rows[i]));
        assert(all[gone] == ForwardAttempt::rank_of(rows[gone]));
    }
    gone
}

/// Rows that are read back stay: of the rows of each message and neighbour the first is kept, as it is, and
/// nothing is kept that was not there.
pub proof fn law_first_row_of_each_stays(rows: Seq<ForwardData>, i: int)
    requires
        0 <= i < rows.len(),
    ensures
        (forall|k: int| 0 <= k < i ==> !((#[trigger] rows[k]).message_id == rows[i].message_id && rows[k].peer == rows[i].peer))
            ==> first_rows(rows).contains(rows[i]),
        forall|j: int|
            0 <= j < first_rows(rows).len() ==> rows.contains(#[trigger] first_rows(rows)[j]),
    decreases rows.len(),
{
    assert forall|j: int| 0 <= j < first_rows(rows).len() implies rows.contains(
        #[trigger] first_rows(rows)[j],
    ) by {
        lemma_first_rows_are_rows(rows, j);
    }
    let head = rows.drop_last();
    let last = rows.last();
    let before = first_rows(head);
    let all = first_rows(rows);
    if forall|k: int| 0 <= k < i ==> !((#[trigger] rows[k]).message_id == rows[i].message_id && rows[k].peer == rows[i].peer) {
        if i < head.len() {
            assert(head[i] == rows[i]);
            assert forall|k: int| 0 <= k < i implies !((#[trigger] head[k]).message_id == head[i].message_id && head[k].peer == head[i].peer) by {
                assert(rows[k] == head[k]);
            }
            law_first_row_of_each_stays(head, i);
            let j = choose|j: int| 0 <= j < before.len() && before[j] == rows[i];
            assert(all[j] == rows[i]);
        } else {
            if keys(before).contains((last.message_id, last.peer)) {
                let k = choose|k: int|
                    0 <= k < keys(before).len() && keys(before)[k] == (last.message_id, last.peer);
                lemma_first_rows_are_rows(head, k);
                let j = choose|j: int| 0 <= j < head.len() && head[j] == before[k];
                assert(rows[j] == head[j]);
                assert(rows[j].message_id == last.message_id && rows[j].peer == last.peer);
            }
            assert(all[all.len() - 1] == rows[i]);
        }
    }
}

proof fn lemma_first_rows_are_rows(rows: Seq<ForwardData>, j: int)
    requires
        0 <= j < first_rows(rows).len(),
    ensures
        rows.contains(first_rows(rows)[j]),
    decreases rows.len(),
{
    if rows.len() > 0 {
        let head = rows.drop_last();
        let before = first_rows(head);
        if j < before.len() {
            lemma_first_rows_are_rows(head, j);
            let k = choose|k: int| 0 <= k < head.len() && head[k] == before[j];
            assert(rows[k] == first_rows(rows)[j]);
        } else {
            assert(rows[rows.len() - 1] == first_rows(rows)[j]);
        }
    }
}

} // verus!
