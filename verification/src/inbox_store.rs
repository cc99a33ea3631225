//! The received messages: the record of what has been accepted for good.
//!
//! Content is sealed under a storage key, bound to the message it belongs to, so a row read from
//! the disk gives nothing away and cannot be passed off as another message. A row that cannot be
//! opened is left out, never shown in part.
//!
//! The store is a table in memory; keeping it on disk is up to the caller, who writes a sealed
//! row before it enters the table and hands the rows back when the node starts.

use vstd::prelude::*;

use crate::bytes;
use crate::identity::NodeId;
use crate::payload::{ContentData, ReceivedContent};
use crate::primitives;
use crate::table;
use crate::table::Ranked;
use crate::timeline;
use crate::timeline::Timed;
use crate::wire;

verus! {

/// How many messages are kept by default.
pub const DEFAULT_INBOX_STORE_CAPACITY: usize = 5_000;

/// Version of the layout of stored content.
pub const STORAGE_SCHEMA_VERSION: u8 = 1;

/// What became of a message handed to the store.
#[derive(Clone, Copy, Debug, PartialEq, Eq, Structural)]
pub enum InsertOutcome {
    Inserted,
    AlreadyPresent,
}

/// Why a message could not be stored.
#[derive(Clone, Copy, Debug, PartialEq, Eq, Structural)]
pub enum InboxError {
    /// The content is longer than the cipher can seal.
    TooLarge,
    /// The disk refused the row.
    Storage,
}

/// A received message.
#[derive(Debug)]
pub struct InboxMessage {
    pub sender: NodeId,
    pub message_id: [u8; 16],
    pub received_at: u64,
    pub content: ReceivedContent,
}

/// What a received message says.
pub struct InboxData {
    pub sender: NodeId,
    pub message_id: [u8; 16],
    pub received_at: u64,
    pub content: ContentData,
}

impl View for InboxMessage {
    type V = InboxData;

    open spec fn view(&self) -> InboxData {
        InboxData {
            sender: self.sender,
            message_id: self.message_id,
            received_at: self.received_at,
            content: self.content@,
        }
    }
}

/// A message as it is stored.
#[derive(Debug)]
pub struct StoredMessage {
    pub sender: NodeId,
    pub message_id: [u8; 16],
    pub received_at: u64,
    pub nonce: Vec<u8>,
    pub content_ciphertext: Vec<u8>,
}

/// What is stored of a message.
pub struct StoredData {
    pub sender: NodeId,
    pub message_id: [u8; 16],
    pub received_at: u64,
    pub nonce: Seq<u8>,
    pub content_ciphertext: Seq<u8>,
}

impl View for StoredMessage {
    type V = StoredData;

    open spec fn view(&self) -> StoredData {
        StoredData {
            sender: self.sender,
            message_id: self.message_id,
            received_at: self.received_at,
            nonce: self.nonce@,
            content_ciphertext: self.content_ciphertext@,
        }
    }
}

impl Ranked for StoredMessage {
    open spec fn rank_of(row: StoredData) -> int {
        row.received_at as int
    }

    fn rank(&self) -> (rank: u128) {
        self.received_at as u128
    }
}

impl Timed for StoredMessage {
    open spec fn time_of(row: StoredData) -> u64 {
        row.received_at
    }

    fn time(&self) -> (time: u64) {
        self.received_at
    }
}

/// What stored content is bound to: sender, message id, layout version.
pub open spec fn storage_aad(sender: Seq<u8>, message_id: Seq<u8>) -> Seq<u8> {
    sender + message_id + seq![STORAGE_SCHEMA_VERSION]
}

impl StoredData {
    /// The content of a row under a storage key; `None` where it does not open or makes no sense.
    pub open spec fn content(self, key: Seq<u8>) -> Option<ContentData> {
        if self.nonce.len() != 24 {
            None
        } else {
            match primitives::opened(
                key,
                self.nonce,
                storage_aad(self.sender@, self.message_id@),
                self.content_ciphertext,
            ) {
                Some(plaintext) => wire::content_in(plaintext),
                None => None,
            }
        }
    }

    /// The row is of the given message.
    pub open spec fn is_of(self, sender: NodeId, message_id: [u8; 16]) -> bool {
        self.sender == sender && self.message_id == message_id
    }

    /// The row is the sealed record of a message.
    pub open spec fn records(
        self,
        key: Seq<u8>,
        sender: NodeId,
        message_id: [u8; 16],
        received_at: u64,
        content: ContentData,
    ) -> bool {
        &&& self.sender == sender
        &&& self.message_id == message_id
        &&& self.received_at == received_at
        &&& self.content_ciphertext == primitives::xchacha_sealed(
            key,
            self.nonce,
            storage_aad(sender@, message_id@),
            wire::content_bytes(content),
        )
        &&& self.content(key) == Some(content)
    }
}

/// Whether a message is in the table.
pub open spec fn has_message(rows: Seq<StoredData>, sender: NodeId, message_id: [u8; 16]) -> bool {
    exists|i: int| 0 <= i < rows.len() && (#[trigger] rows[i]).is_of(sender, message_id)
}

/// Two rows are of different messages.
pub open spec fn apart(a: StoredData, b: StoredData) -> bool {
    !a.is_of(b.sender, b.message_id)
}

/// No message is in the table twice.
pub open spec fn one_row_each(rows: Seq<StoredData>) -> bool {
    forall|i: int, j: int| 0 <= i < j < rows.len() ==> #[trigger] apart(rows[i], rows[j])
}

/// The rows with a message added, unless it is there.
pub open spec fn with_row(rows: Seq<StoredData>, row: StoredData) -> Seq<StoredData> {
    if has_message(rows, row.sender, row.message_id) {
        rows
    } else {
        rows.push(row)
    }
}

/// Of the rows of each message the first, in the order of the rows.
pub open spec fn first_rows(rows: Seq<StoredData>) -> Seq<StoredData>
    decreases rows.len(),
{
    if rows.len() == 0 {
        rows
    } else {
        with_row(first_rows(rows.drop_last()), rows.last())
    }
}

/// The messages that rows hold, in the order of the rows, those that do not open left out.
pub open spec fn shown(rows: Seq<StoredData>, key: Seq<u8>) -> Seq<InboxData>
    decreases rows.len(),
{
    if rows.len() == 0 {
        Seq::empty()
    } else {
        let head = shown(rows.drop_last(), key);
        let last = rows.last();
        match last.content(key) {
            Some(content) => head.push(
                InboxData {
                    sender: last.sender,
                    message_id: last.message_id,
                    received_at: last.received_at,
                    content,
                },
            ),
            None => head,
        }
    }
}

/// The rows of one conversation from before a given time.
pub open spec fn conversation(rows: Seq<StoredData>, peer: NodeId, before: Option<u64>) -> Seq<StoredData> {
    rows.filter(
        |row: StoredData|
            row.sender == peer && match before {
                Some(time) => row.received_at < time,
                None => true,
            },
    )
}

/// The newest `limit` of rows, the newest first.
pub open spec fn newest(rows: Seq<StoredData>, limit: nat) -> Seq<StoredData> {
    let ordered = timeline::by_time::<StoredMessage>(rows).reverse();
    if ordered.len() <= limit {
        ordered
    } else {
        ordered.take(limit as int)
    }
}

/// The received messages.
pub struct InboxStore {
    rows: Vec<StoredMessage>,
    capacity: usize,
    key: [u8; 32],
}

impl View for InboxStore {
    type V = Seq<StoredData>;

    /// The rows, in order of insertion.
    closed spec fn view(&self) -> Seq<StoredData> {
        table::views(self.rows@)
    }
}

impl InboxStore {
    /// How many messages are kept at most.
    pub closed spec fn limit(&self) -> nat {
        self.capacity as nat
    }

    /// The storage key.
    pub closed spec fn storage_key(&self) -> Seq<u8> {
        self.key@
    }

    /// No message twice.
    pub open spec fn well_formed(&self) -> bool {
        one_row_each(self@)
    }

    /// An empty store of the default capacity under a fresh random key.
    pub fn in_memory() -> (store: InboxStore)
        ensures
            store@ == Seq::<StoredData>::empty(),
            store.limit() == DEFAULT_INBOX_STORE_CAPACITY,
            store.well_formed(),
    {
        Self::in_memory_with_capacity(DEFAULT_INBOX_STORE_CAPACITY)
    }

    /// An empty store of the given capacity under a fresh random key.
    pub fn in_memory_with_capacity(capacity: usize) -> (store: InboxStore)
        ensures
            store@ == Seq::<StoredData>::empty(),
            store.limit() == capacity,
            store.well_formed(),
    {
        Self::with_key(primitives::random_bytes(), capacity)
    }

    /// An empty store of the given capacity under a given key.
    pub fn with_key(key: [u8; 32], capacity: usize) -> (store: InboxStore)
        ensures
            store@ == Seq::<StoredData>::empty(),
            store.limit() == capacity,
            store.storage_key() == key@,
            store.well_formed(),
    {
        let store = InboxStore { rows: Vec::new(), capacity, key };
        assert(store@ =~= Seq::<StoredData>::empty());
        store
    }

    /// A store with the rows of an earlier run, in their order, a second row of a message left
    /// out. Rows sealed under another key stay, unreadable.
    pub fn from_rows(rows: Vec<StoredMessage>, key: [u8; 32], capacity: usize) -> (store: InboxStore)
        ensures
            store.limit() == capacity,
            store.storage_key() == key@,
            store.well_formed(),
            store@ == first_rows(table::views(rows@)),
            one_row_each(table::views(rows@)) ==> store@ == table::views(rows@),
    {
        let ghost all = table::views(rows@);
        let mut rest: Vec<StoredMessage> = rows;
        let mut store = InboxStore { rows: Vec::new(), capacity, key };
        let ghost mut done: int = 0;
        assert(store@ =~= all.take(0));
        assert(table::views(rest@) =~= all.skip(0));
        while rest.len() > 0
            invariant
                0 <= done <= all.len(),
                table::views(rest@) == all.skip(done),
                store.limit() == capacity,
                store.storage_key() == key@,
                store.well_formed(),
                store@ == first_rows(all.take(done)),
                one_row_each(all) ==> store@ == all.take(done),
            decreases rest@.len(),
        {
            let ghost left = rest@;
            let row = rest.remove(0);
            assert(row@ == table::views(left)[0]);
            assert(table::views(left).len() == left.len());
            assert(all.skip(done).len() == all.len() - done);
            assert(all.skip(done)[0] == all[done]);
            assert(table::views(rest@) =~= table::views(left).skip(1));
            assert(all.skip(done).skip(1) =~= all.skip(done + 1));
            let ghost before = store@;
            let known = store.contains(&row.sender, &row.message_id);
            if !known {
                store.rows.push(row);
                assert(store@ =~= before.push(row@));
            }
            proof {
                assert(all.take(done + 1).drop_last() =~= all.take(done));
                assert(all.take(done + 1).last() == all[done]);
                lemma_with_row(before, row@);
                if one_row_each(all) {
                    if known {
                        let j = choose|j: int|
                            0 <= j < before.len() && (#[trigger] before[j]).is_of(
                                row@.sender,
                                row@.message_id,
                            );
                        assert(apart(all[j], all[done]));
                        assert(false);
                    }
                    assert(store@ =~= all.take(done + 1));
                }
                done = done + 1;
            }
        }
        assert(all.take(done) =~= all);
        store
    }

    /// The rows, in order of insertion, to be kept on disk.
    pub fn rows(&self) -> (rows: &Vec<StoredMessage>)
        ensures
            table::views(rows@) == self@,
    {
        &self.rows
    }

    fn associated_data(sender: &NodeId, message_id: &[u8; 16]) -> (aad: Vec<u8>)
        ensures
            aad@ == storage_aad(sender@, message_id@),
    {
        let mut aad: Vec<u8> = Vec::new();
        bytes::append(&mut aad, sender.as_slice());
        bytes::append(&mut aad, message_id.as_slice());
        aad.push(STORAGE_SCHEMA_VERSION);
        assert(aad@ =~= storage_aad(sender@, message_id@));
        aad
    }

    /// Seals a message for storage under a fresh random nonce. Under this store's key it opens
    /// to the content again.
    pub fn seal_row(
        &self,
        sender: &NodeId,
        message_id: &[u8; 16],
        received_at: u64,
        content: &ReceivedContent,
    ) -> (result: Result<StoredMessage, InboxError>)
        ensures
            result is Ok <==> wire::content_len(content@) <= primitives::MAX_PLAINTEXT_LEN,
            result matches Err(e) ==> e == InboxError::TooLarge,
            result matches Ok(row) ==> row@.records(
                self.storage_key(),
                *sender,
                *message_id,
                received_at,
                content@,
            ),
    {
        let plaintext = wire::encode_content(content);
        if plaintext.len() as u64 > primitives::MAX_PLAINTEXT_LEN {
            return Err(InboxError::TooLarge);
        }
        let nonce: [u8; 24] = primitives::random_bytes();
        let aad = Self::associated_data(sender, message_id);
        let ciphertext = primitives::xchacha_encrypt(
            &self.key,
            &nonce,
            aad.as_slice(),
            plaintext.as_slice(),
        );
        Ok(
            StoredMessage {
                sender: *sender,
                message_id: *message_id,
                received_at,
                nonce: bytes::to_vec(nonce.as_slice()),
                content_ciphertext: ciphertext,
            },
        )
    }

    /// Opens a stored row.
    fn open_row(&self, row: &StoredMessage) -> (content: Option<ReceivedContent>)
        ensures
            content is Some <==> row@.content(self.storage_key()) is Some,
            content matches Some(c) ==> row@.content(self.storage_key()) == Some(c@),
    {
        let nonce: [u8; 24] = match bytes::to_array(row.nonce.as_slice()) {
            Some(nonce) => nonce,
            None => {
                return None;
            },
        };
        let aad = Self::associated_data(&row.sender, &row.message_id);
        match primitives::open(&self.key, &nonce, aad.as_slice(), row.content_ciphertext.as_slice()) {
            Some(plaintext) => wire::decode_content(plaintext.as_slice()),
            None => None,
        }
    }

    /// Adds a sealed row, unless its message is there.
    pub fn insert_row(&mut self, row: StoredMessage) -> (outcome: InsertOutcome)
        ensures
            outcome == if has_message(old(self)@, row@.sender, row@.message_id) {
                InsertOutcome::AlreadyPresent
            } else {
                InsertOutcome::Inserted
            },
            final(self)@ == table::evicted::<StoredMessage>(
                with_row(old(self)@, row@),
                old(self).limit(),
            ),
            final(self).limit() == old(self).limit(),
            final(self).storage_key() == old(self).storage_key(),
            old(self).well_formed() ==> final(self).well_formed(),
    {
        let ghost before = self@;
        let ghost data = row@;
        let known = self.contains(&row.sender, &row.message_id);
        if !known {
            self.rows.push(row);
            assert(self@ =~= before.push(data));
        }
        let ghost all = self@;
        table::enforce_capacity(&mut self.rows, self.capacity);
        proof {
            if one_row_each(before) {
                lemma_with_row(before, data);
                lemma_evicted_once(all, self.limit());
            }
        }
        if known {
            InsertOutcome::AlreadyPresent
        } else {
            InsertOutcome::Inserted
        }
    }

    /// Stores a message, unless it is there. A message that was there keeps its content and the
    /// time it was received.
    pub fn insert_if_absent(
        &mut self,
        sender: &NodeId,
        message_id: &[u8; 16],
        received_at: u64,
        content: &ReceivedContent,
    ) -> (result: Result<InsertOutcome, InboxError>)
        ensures
            match result {
                Ok(InsertOutcome::Inserted) => {
                    &&& !has_message(old(self)@, *sender, *message_id)
                    &&& exists|row: StoredData|
                        {
                            &&& #[trigger] row.records(
                                old(self).storage_key(),
                                *sender,
                                *message_id,
                                received_at,
                                content@,
                            )
                            &&& final(self)@ == table::evicted::<StoredMessage>(
                                old(self)@.push(row),
                                old(self).limit(),
                            )
                        }
                },
                Ok(InsertOutcome::AlreadyPresent) => {
                    &&& has_message(old(self)@, *sender, *message_id)
                    &&& final(self)@ == table::evicted::<StoredMessage>(
                        old(self)@,
                        old(self).limit(),
                    )
                },
                Err(e) => e == InboxError::TooLarge && final(self)@ == old(self)@,
            },
            result is Ok <==> wire::content_len(content@) <= primitives::MAX_PLAINTEXT_LEN,
            final(self).limit() == old(self).limit(),
            final(self).storage_key() == old(self).storage_key(),
            old(self).well_formed() ==> final(self).well_formed(),
    {
        match self.seal_row(sender, message_id, received_at, content) {
            Ok(row) => {
                let outcome = self.insert_row(row);
                Ok(outcome)
            },
            Err(e) => Err(e),
        }
    }

    /// Whether a message is there.
    pub fn contains(&self, sender: &NodeId, message_id: &[u8; 16]) -> (found: bool)
        ensures
            found == has_message(self@, *sender, *message_id),
    {
        let mut i: usize = 0;
        while i < self.rows.len()
            invariant
                i <= self.rows@.len(),
                self@ == table::views(self.rows@),
                forall|j: int| 0 <= j < i ==> !(#[trigger] self@[j]).is_of(*sender, *message_id),
            decreases self.rows@.len() - i,
        {
            assert(self@[i as int] == self.rows@[i as int]@);
            if bytes::same_array(&self.rows[i].sender, sender) && bytes::same_array(
                &self.rows[i].message_id,
                message_id,
            ) {
                assert(self@[i as int].is_of(*sender, *message_id));
                return true;
            }
            i += 1;
        }
        false
    }

    /// The messages in rows at the given positions, in that order, those that do not open left
    /// out.
    fn show(&self, positions: &Vec<usize>) -> (messages: Vec<InboxMessage>)
        requires
            timeline::within(positions@, self@.len()),
        ensures
            table::views(messages@) == shown(
                timeline::picked(self@, positions@),
                self.storage_key(),
            ),
    {
        let ghost wanted = timeline::picked(self@, positions@);
        let mut messages: Vec<InboxMessage> = Vec::new();
        let mut i: usize = 0;
        assert(table::views(messages@) =~= shown(wanted.take(0), self.storage_key()));
        while i < positions.len()
            invariant
                i <= positions@.len(),
                timeline::within(positions@, self@.len()),
                wanted == timeline::picked(self@, positions@),
                self@ == table::views(self.rows@),
                table::views(messages@) == shown(wanted.take(i as int), self.storage_key()),
            decreases positions@.len() - i,
        {
            let ghost before = messages@;
            assert(positions@[i as int] < self@.len());
            let row = &self.rows[positions[i]];
            assert(row@ == wanted[i as int]);
            assert(wanted.take(i + 1).drop_last() =~= wanted.take(i as int));
            assert(wanted.take(i + 1).last() == wanted[i as int]);
            match self.open_row(row) {
                Some(content) => {
                    let message = InboxMessage {
                        sender: row.sender,
                        message_id: row.message_id,
                        received_at: row.received_at,
                        content,
                    };
                    messages.push(message);
                    assert(table::views(messages@) =~= table::views(before).push(message@));
                },
                None => {},
            }
            i += 1;
        }
        assert(wanted.take(i as int) =~= wanted);
        messages
    }

    /// All messages, the oldest first.
    pub fn all_messages(&self) -> (messages: Vec<InboxMessage>)
        ensures
            table::views(messages@) == shown(
                timeline::by_time::<StoredMessage>(self@),
                self.storage_key(),
            ),
    {
        let positions = timeline::order_by_time(&self.rows);
        self.show(&positions)
    }

    /// The newest `limit` messages of one conversation, the newest first; with a time given, of
    /// those received before it.
    pub fn messages_for_peer(&self, peer: &NodeId, before_received_at: Option<u64>, limit: usize) -> (messages: Vec<InboxMessage>)
        ensures
            table::views(messages@) == shown(
                newest(conversation(self@, *peer, before_received_at), limit as nat),
                self.storage_key(),
            ),
    {
        let ordered = timeline::order_by_time(&self.rows);
        let ghost all = timeline::by_time::<StoredMessage>(self@);
        let ghost theirs = |row: StoredData|
            row.sender == *peer && match before_received_at {
                Some(time) => row.received_at < time,
                None => true,
            };
        let mut positions: Vec<usize> = Vec::new();
        let mut i: usize = ordered.len();
        assert(all.skip(i as int).filter(theirs) =~= Seq::empty()) by {
            reveal(Seq::filter);
        }
        assert(timeline::picked(self@, positions@) =~= all.skip(i as int).filter(theirs).reverse());
        while i > 0 && positions.len() < limit
            invariant
                i <= ordered@.len(),
                ordered@.len() == all.len(),
                timeline::within(ordered@, self@.len()),
                timeline::within(positions@, self@.len()),
                self@ == table::views(self.rows@),
                all == timeline::picked(self@, ordered@),
                positions@.len() <= limit,
                theirs == (|row: StoredData|
                    row.sender == *peer && match before_received_at {
                        Some(time) => row.received_at < time,
                        None => true,
                    }),
                timeline::picked(self@, positions@) == all.skip(i as int).filter(theirs).reverse(),
            decreases i,
        {
            i -= 1;
            let at: usize = ordered[i];
            let ghost tail = all.skip(i + 1).filter(theirs);
            let ghost before = positions@;
            assert(ordered@[i as int] < self@.len());
            let row = &self.rows[at];
            assert(row@ == all[i as int]);
            let recent = match before_received_at {
                Some(time) => row.received_at < time,
                None => true,
            };
            let wanted = bytes::same_array(&row.sender, peer) && recent;
            assert(wanted == theirs(all[i as int]));
            proof {
                assert(all.skip(i as int) =~= seq![all[i as int]] + all.skip(i + 1));
                lemma_filter_front(all[i as int], all.skip(i + 1), theirs);
            }
            if wanted {
                positions.push(at);
                proof {
                    let chosen = timeline::picked(self@, before);
                    assert(chosen == tail.reverse());
                    assert(positions@ == before.push(at));
                    assert(timeline::picked(self@, positions@) =~= chosen.push(all[i as int]));
                    assert((seq![all[i as int]] + tail).reverse() =~= tail.reverse().push(
                        all[i as int],
                    ));
                }
            }
        }
        proof {
            let chosen = timeline::picked(self@, positions@);
            let total = all.filter(theirs);
            assert(all =~= all.take(i as int) + all.skip(i as int));
            lemma_filter_concat(all.take(i as int), all.skip(i as int), theirs);
            let rest = all.skip(i as int).filter(theirs);
            let early = all.take(i as int).filter(theirs);
            assert(total == early + rest);
            assert(total.reverse() =~= rest.reverse() + early.reverse());
            if i == 0 {
                assert(early =~= Seq::empty()) by {
                    reveal(Seq::filter);
                }
            }
            lemma_filter_by_time(self@, theirs);
            assert(conversation(self@, *peer, before_received_at) == self@.filter(theirs));
            assert(chosen =~= newest(
                conversation(self@, *peer, before_received_at),
                limit as nat,
            ));
        }
        self.show(&positions)
    }

    /// How many messages are kept.
    pub fn len(&self) -> (len: usize)
        ensures
            len == self@.len(),
    {
        self.rows.len()
    }

    /// Whether none is kept.
    pub fn is_empty(&self) -> (empty: bool)
        ensures
            empty == (self@.len() == 0),
    {
        self.rows.len() == 0
    }
}

proof fn lemma_with_row(rows: Seq<StoredData>, row: StoredData)
    ensures
        one_row_each(rows) ==> one_row_each(with_row(rows, row)),
        has_message(with_row(rows, row), row.sender, row.message_id),
{
    let all = rows.push(row);
    assert(all[rows.len() as int].is_of(row.sender, row.message_id));
    if one_row_each(rows) && !has_message(rows, row.sender, row.message_id) {
        assert forall|i: int, j: int| 0 <= i < j < all.len() implies #[trigger] apart(
            all[i],
            all[j],
        ) by {
            if j < rows.len() {
                assert(apart(rows[i], rows[j]));
            } else {
                assert(!rows[i].is_of(row.sender, row.message_id));
            }
        }
    }
}

proof fn lemma_evicted_once(rows: Seq<StoredData>, capacity: nat)
    requires
        one_row_each(rows),
    ensures
        one_row_each(table::evicted::<StoredMessage>(rows, capacity)),
{
    let related = |a: StoredData, b: StoredData| apart(a, b);
    assert forall|i: int, j: int| 0 <= i < j < rows.len() implies #[trigger] related(
        rows[i],
        rows[j],
    ) by {
        assert(apart(rows[i], rows[j]));
    }
    table::lemma_evicted_pairwise::<StoredMessage>(rows, capacity, related);
    let left = table::evicted::<StoredMessage>(rows, capacity);
    assert forall|i: int, j: int| 0 <= i < j < left.len() implies #[trigger] apart(
        left[i],
        left[j],
    ) by {
        assert(related(left[i], left[j]));
    }
}

proof fn lemma_filter_concat(a: Seq<StoredData>, b: Seq<StoredData>, keeps: spec_fn(StoredData) -> bool)
    ensures
        (a + b).filter(keeps) == a.filter(keeps) + b.filter(keeps),
    decreases b.len(),
{
    reveal(Seq::filter);
    if b.len() == 0 {
        assert(a + b =~= a);
        assert(a.filter(keeps) + b.filter(keeps) =~= a.filter(keeps));
    } else {
        let all = a + b;
        assert(all.drop_last() =~= a + b.drop_last());
        lemma_filter_concat(a, b.drop_last(), keeps);
        assert(all.filter(keeps) =~= a.filter(keeps) + b.filter(keeps));
    }
}

proof fn lemma_filter_front(first: StoredData, rest: Seq<StoredData>, keeps: spec_fn(StoredData) -> bool)
    ensures
        (seq![first] + rest).filter(keeps) == if keeps(first) {
            seq![first] + rest.filter(keeps)
        } else {
            rest.filter(keeps)
        },
{
    lemma_filter_concat(seq![first], rest, keeps);
    assert(seq![first].filter(keeps) =~= if keeps(first) {
        seq![first]
    } else {
        Seq::empty()
    }) by {
        reveal_with_fuel(Seq::filter, 2);
        assert(seq![first].drop_last() =~= Seq::empty());
    }
    if !keeps(first) {
        assert(Seq::<StoredData>::empty() + rest.filter(keeps) =~= rest.filter(keeps));
    }
}

/// Picking a conversation out and putting it in order is the same as putting everything in order
/// and picking the conversation out.
proof fn lemma_filter_by_time(rows: Seq<StoredData>, keeps: spec_fn(StoredData) -> bool)
    ensures
        timeline::by_time::<StoredMessage>(rows).filter(keeps) == timeline::by_time::<
            StoredMessage,
        >(rows.filter(keeps)),
    decreases rows.len(),
{
    reveal(Seq::filter);
    if rows.len() > 0 {
        let head = rows.drop_last();
        let last = rows.last();
        lemma_filter_by_time(head, keeps);
        timeline::law_by_time_orders::<StoredMessage>(head);
        let ordered = timeline::by_time::<StoredMessage>(head);
        let at = timeline::slot::<StoredMessage>(ordered, last.received_at);
        lemma_slot_split(ordered, last.received_at);
        let early = ordered.take(at);
        let late = ordered.skip(at);
        assert(ordered =~= early + late);
        assert(ordered.insert(at, last) =~= early + (seq![last] + late));
        lemma_filter_concat(early, late, keeps);
        lemma_filter_concat(early, seq![last] + late, keeps);
        lemma_filter_front(last, late, keeps);
        if keeps(last) {
            let kept = ordered.filter(keeps);
            let (e, l) = (early.filter(keeps), late.filter(keeps));
            assert(kept == e + l);
            lemma_filter_all(early, keeps, |row: StoredData| row.received_at <= last.received_at);
            lemma_filter_all(late, keeps, |row: StoredData| row.received_at > last.received_at);
            lemma_slot_of(e, l, last.received_at);
            assert(rows.filter(keeps) == head.filter(keeps).push(last));
            assert(rows.filter(keeps).drop_last() =~= head.filter(keeps));
            assert(kept.insert(e.len() as int, last) =~= e + (seq![last] + l));
        } else {
            assert(rows.filter(keeps) == head.filter(keeps));
            assert(early.filter(keeps) + late.filter(keeps) == ordered.filter(keeps));
        }
    } else {
        assert(timeline::by_time::<StoredMessage>(rows) == rows);
    }
}

proof fn lemma_slot_split(ordered: Seq<StoredData>, time: u64)
    requires
        timeline::in_order::<StoredMessage>(ordered),
    ensures
        ({
            let at = timeline::slot::<StoredMessage>(ordered, time);
            &&& 0 <= at <= ordered.len()
            &&& forall|i: int| 0 <= i < at ==> (#[trigger] ordered[i]).received_at <= time
            &&& forall|i: int| at <= i < ordered.len() ==> (#[trigger] ordered[i]).received_at > time
        }),
    decreases ordered.len(),
{
    if ordered.len() > 0 {
        let head = ordered.drop_last();
        let last = ordered.len() - 1;
        if ordered[last].received_at <= time {
            assert forall|i: int| 0 <= i < ordered.len() implies (#[trigger] ordered[i]).received_at
                <= time by {
                if i < last {
                    assert(StoredMessage::time_of(ordered[i]) <= StoredMessage::time_of(
                        ordered[last],
                    ));
                }
            }
        } else {
            assert(timeline::in_order::<StoredMessage>(head)) by {
                assert forall|i: int, j: int| 0 <= i < j < head.len() implies StoredMessage::time_of(
                    #[trigger] head[i],
                ) <= StoredMessage::time_of(#[trigger] head[j]) by {
                    assert(StoredMessage::time_of(ordered[i]) <= StoredMessage::time_of(
                        ordered[j],
                    ));
                }
            }
            lemma_slot_split(head, time);
            let at = timeline::slot::<StoredMessage>(head, time);
            assert forall|i: int| 0 <= i < at implies (#[trigger] ordered[i]).received_at <= time by {
                assert(head[i] == ordered[i]);
            }
            assert forall|i: int| at <= i < ordered.len() implies (#[trigger] ordered[i]).received_at
                > time by {
                if i < head.len() {
                    assert(head[i] == ordered[i]);
                }
            }
        }
    }
}

proof fn lemma_filter_all(
    rows: Seq<StoredData>,
    keeps: spec_fn(StoredData) -> bool,
    all: spec_fn(StoredData) -> bool,
)
    requires
        forall|i: int| 0 <= i < rows.len() ==> all(#[trigger] rows[i]),
    ensures
        forall|i: int| 0 <= i < rows.filter(keeps).len() ==> all(#[trigger] rows.filter(keeps)[i]),
    decreases rows.len(),
{
    reveal(Seq::filter);
    if rows.len() > 0 {
        let head = rows.drop_last();
        assert forall|i: int| 0 <= i < head.len() implies all(#[trigger] head[i]) by {
            assert(rows[i] == head[i]);
        }
        lemma_filter_all(head, keeps, all);
        let kept = rows.filter(keeps);
        assert forall|i: int| 0 <= i < kept.len() implies all(#[trigger] kept[i]) by {
            if i < head.filter(keeps).len() {
                assert(kept[i] == head.filter(keeps)[i]);
            } else {
                assert(kept[i] == rows[rows.len() - 1]);
            }
        }
    }
}

proof fn lemma_slot_of(early: Seq<StoredData>, late: Seq<StoredData>, time: u64)
    requires
        forall|i: int| 0 <= i < early.len() ==> (#[trigger] early[i]).received_at <= time,
        forall|i: int| 0 <= i < late.len() ==> (#[trigger] late[i]).received_at > time,
    ensures
        timeline::slot::<StoredMessage>(early + late, time) == early.len(),
    decreases late.len(),
{
    let all = early + late;
    if late.len() == 0 {
        assert(all =~= early);
        if early.len() > 0 {
            assert(early[early.len() - 1].received_at <= time);
        }
    } else {
        assert(all.last() == late[late.len() - 1]);
        assert(all.drop_last() =~= early + late.drop_last());
        lemma_slot_of(early, late.drop_last(), time);
    }
}

// ---------------------------------------------------------------------------------------------
// Laws
// ---------------------------------------------------------------------------------------------

/// A message is stored once: storing it again, with whatever content, changes nothing.
pub proof fn law_stored_once(rows: Seq<StoredData>, first: StoredData, again: StoredData)
    requires
        again.is_of(first.sender, first.message_id),
    ensures
        with_row(with_row(rows, first), again) == with_row(rows, first),
{
    lemma_with_row(rows, first);
}

/// Stored content is bound to its message: no other sender and no other id have the same
/// associated data, so a row moved to another message does not open as it.
pub proof fn law_stored_content_is_bound(
    sender: NodeId,
    message_id: [u8; 16],
    other_sender: NodeId,
    other_id: [u8; 16],
)
    requires
        storage_aad(sender@, message_id@) == storage_aad(other_sender@, other_id@),
    ensures
        sender == other_sender,
        message_id == other_id,
{
    let version = seq![STORAGE_SCHEMA_VERSION];
    bytes::lemma_split(sender@ + message_id@, version, other_sender@ + other_id@, version);
    bytes::lemma_split(sender@, message_id@, other_sender@, other_id@);
    bytes::lemma_array_ext(sender, other_sender);
    bytes::lemma_array_ext(message_id, other_id);
}

/// What has been stored is shown: a sealed record in the table appears in the history with its
/// content.
pub proof fn law_stored_is_shown(
    rows: Seq<StoredData>,
    key: Seq<u8>,
    at: int,
    content: ContentData,
)
    requires
        0 <= at < rows.len(),
        rows[at].content(key) == Some(content),
    ensures
        shown(rows, key).contains(
            InboxData {
                sender: rows[at].sender,
                message_id: rows[at].message_id,
                received_at: rows[at].received_at,
                content,
            },
        ),
        shown(timeline::by_time::<StoredMessage>(rows), key).contains(
            InboxData {
                sender: rows[at].sender,
                message_id: rows[at].message_id,
                received_at: rows[at].received_at,
                content,
            },
        ),
{
    lemma_shown(rows, key, at, content);
    let ordered = timeline::by_time::<StoredMessage>(rows);
    timeline::law_by_time_orders::<StoredMessage>(rows);
    broadcast use vstd::seq_lib::group_to_multiset_ensures;

    assert(rows.to_multiset().count(rows[at]) > 0);
    assert(ordered.contains(rows[at]));
    let k = choose|k: int| 0 <= k < ordered.len() && ordered[k] == rows[at];
    lemma_shown(ordered, key, k, content);
}

proof fn lemma_shown(rows: Seq<StoredData>, key: Seq<u8>, at: int, content: ContentData)
    requires
        0 <= at < rows.len(),
        rows[at].content(key) == Some(content),
    ensures
        shown(rows, key).contains(
            InboxData {
                sender: rows[at].sender,
                message_id: rows[at].message_id,
                received_at: rows[at].received_at,
                content,
            },
        ),
    decreases rows.len(),
{
    let message = InboxData {
        sender: rows[at].sender,
        message_id: rows[at].message_id,
        received_at: rows[at].received_at,
        content,
    };
    let all = shown(rows, key);
    let head = shown(rows.drop_last(), key);
    if at < rows.len() - 1 {
        lemma_shown(rows.drop_last(), key, at, content);
        let k = choose|k: int| 0 <= k < head.len() && head[k] == message;
        assert(all[k] == message);
    } else {
        assert(all[all.len() - 1] == message);
    }
}

/// The history is in order: no message is later than the one after it. A page of a conversation
/// holds that conversation only, from before the given time, newest first, no more than asked.
pub proof fn law_history_is_in_order(rows: Seq<StoredData>, key: Seq<u8>, peer: NodeId, before: Option<u64>, limit: nat)
    ensures
        forall|i: int, j: int|
            #![trigger shown(timeline::by_time::<StoredMessage>(rows), key)[i], shown(
                timeline::by_time::<StoredMessage>(rows),
                key,
            )[j]]
            0 <= i < j < shown(timeline::by_time::<StoredMessage>(rows), key).len() ==> shown(
                timeline::by_time::<StoredMessage>(rows),
                key,
            )[i].received_at <= shown(
                timeline::by_time::<StoredMessage>(rows),
                key,
            )[j].received_at,
        ({
            let page = shown(newest(conversation(rows, peer, before), limit), key);
            &&& page.len() <= limit
            &&& forall|i: int|
                0 <= i < page.len() ==> (#[trigger] page[i]).sender == peer && (before matches Some(
                    time,
                ) ==> page[i].received_at < time)
            &&& forall|i: int, j: int|
                0 <= i < j < page.len() ==> (#[trigger] page[i]).received_at >= (
                #[trigger] page[j]).received_at
        }),
{
    let ordered = timeline::by_time::<StoredMessage>(rows);
    timeline::law_by_time_orders::<StoredMessage>(rows);
    lemma_shown_from(ordered, key);
    let all = shown(ordered, key);
    let from = shown_from(ordered, key);
    assert forall|i: int, j: int| 0 <= i < j < all.len() implies (#[trigger] all[i]).received_at <= (
    #[trigger] all[j]).received_at by {
        assert(from[i] < from[j]);
        assert(StoredMessage::time_of(ordered[from[i]]) <= StoredMessage::time_of(
            ordered[from[j]],
        ));
    }
    let theirs = conversation(rows, peer, before);
    let wanted = |row: StoredData|
        row.sender == peer && match before {
            Some(time) => row.received_at < time,
            None => true,
        };
    lemma_filter_holds(rows, wanted);
    let sorted = timeline::by_time::<StoredMessage>(theirs);
    timeline::law_by_time_orders::<StoredMessage>(theirs);
    let recent = newest(theirs, limit);
    lemma_shown_from(recent, key);
    let page = shown(recent, key);
    let source = shown_from(recent, key);
    assert forall|i: int| 0 <= i < recent.len() implies wanted(#[trigger] recent[i]) by {
        broadcast use vstd::seq_lib::group_to_multiset_ensures;

        let row = recent[i];
        assert(sorted[sorted.len() - 1 - i] == row);
        assert(sorted.contains(row));
        assert(theirs.to_multiset().count(row) > 0);
        assert(theirs.contains(row));
    }
    assert forall|i: int, j: int| 0 <= i < j < recent.len() implies (#[trigger] recent[i]).received_at
        >= (#[trigger] recent[j]).received_at by {
        assert(StoredMessage::time_of(sorted[sorted.len() - 1 - j]) <= StoredMessage::time_of(
            sorted[sorted.len() - 1 - i],
        ));
    }
    assert forall|i: int| 0 <= i < page.len() implies (#[trigger] page[i]).sender == peer && (
    before matches Some(time) ==> page[i].received_at < time) by {
        assert(wanted(recent[source[i]]));
    }
    assert forall|i: int, j: int| 0 <= i < j < page.len() implies (#[trigger] page[i]).received_at >= (
    #[trigger] page[j]).received_at by {
        assert(source[i] < source[j]);
        assert(recent[source[i]].received_at >= recent[source[j]].received_at);
    }
}

/// The positions of the rows that open.
spec fn shown_from(rows: Seq<StoredData>, key: Seq<u8>) -> Seq<int>
    decreases rows.len(),
{
    if rows.len() == 0 {
        Seq::empty()
    } else {
        let head = shown_from(rows.drop_last(), key);
        match rows.last().content(key) {
            Some(_) => head.push(rows.len() - 1),
            None => head,
        }
    }
}

proof fn lemma_shown_from(rows: Seq<StoredData>, key: Seq<u8>)
    ensures
        shown_from(rows, key).len() == shown(rows, key).len(),
        shown(rows, key).len() <= rows.len(),
        forall|i: int|
            #![trigger shown(rows, key)[i]]
            #![trigger shown_from(rows, key)[i]]
            0 <= i < shown(rows, key).len() ==> {
                &&& 0 <= shown_from(rows, key)[i] < rows.len()
                &&& shown(rows, key)[i].sender == rows[shown_from(rows, key)[i]].sender
                &&& shown(rows, key)[i].received_at == rows[shown_from(rows, key)[i]].received_at
            },
        forall|i: int, j: int|
            0 <= i < j < shown_from(rows, key).len() ==> (#[trigger] shown_from(rows, key)[i]) < (
            #[trigger] shown_from(rows, key)[j]),
    decreases rows.len(),
{
    if rows.len() > 0 {
        let head = rows.drop_last();
        lemma_shown_from(head, key);
        let all = shown(rows, key);
        let from = shown_from(rows, key);
        let head_shown = shown(head, key);
        let head_from = shown_from(head, key);
        assert forall|i: int| 0 <= i < all.len() implies {
            &&& 0 <= from[i] < rows.len()
            &&& all[i].sender == rows[from[i]].sender
            &&& all[i].received_at == rows[from[i]].received_at
        } by {
            if i < head_shown.len() {
                assert(all[i] == head_shown[i] && from[i] == head_from[i]);
                assert(head[head_from[i]] == rows[head_from[i]]);
            }
        }
        assert forall|i: int, j: int| 0 <= i < j < from.len() implies (#[trigger] from[i]) < (
        #[trigger] from[j]) by {
            assert(from[i] == head_from[i]);
            assert(head_shown[i] == head_shown[i]);
            if j < head_from.len() {
                assert(from[j] == head_from[j]);
            }
        }
    }
}

proof fn lemma_filter_holds(rows: Seq<StoredData>, keeps: spec_fn(StoredData) -> bool)
    ensures
        forall|row: StoredData| rows.filter(keeps).contains(row) ==> #[trigger] keeps(row),
    decreases rows.len(),
{
    reveal(Seq::filter);
    if rows.len() > 0 {
        let head = rows.drop_last();
        lemma_filter_holds(head, keeps);
        let kept = rows.filter(keeps);
        assert forall|row: StoredData| kept.contains(row) implies #[trigger] keeps(row) by {
            let i = choose|i: int| 0 <= i < kept.len() && kept[i] == row;
            if i < head.filter(keeps).len() {
                assert(head.filter(keeps)[i] == row);
                assert(head.filter(keeps).contains(row));
            }
        }
    }
}

/// The store never holds more than its capacity.
pub proof fn law_capacity_is_never_exceeded(rows: Seq<StoredData>, row: StoredData, capacity: nat)
    ensures
        table::evicted::<StoredMessage>(with_row(rows, row), capacity).len() <= capacity,
{
    table::lemma_evicted::<StoredMessage>(with_row(rows, row), capacity);
}

/// A message that is shown is a row and what its content opens to.
pub open spec fn shows(message: InboxData, row: StoredData, key: Seq<u8>) -> bool {
    &&& message.sender == row.sender
    &&& message.message_id == row.message_id
    &&& message.received_at == row.received_at
    &&& row.content(key) == Some(message.content)
}

/// Of some rows exactly those that open are shown, in their order, as they are.
pub proof fn law_rows_that_open_are_shown(rows: Seq<StoredData>, key: Seq<u8>) -> (from: Seq<int>)
    ensures
        table::lists(from, rows.len(), |i: int| rows[i].content(key) is Some),
        shown(rows, key).len() == from.len(),
        forall|j: int|
            0 <= j < from.len() ==> shows(#[trigger] shown(rows, key)[j], rows[from[j]], key),
    decreases rows.len(),
{
    let wanted = |i: int| rows[i].content(key) is Some;
    if rows.len() == 0 {
        Seq::empty()
    } else {
        let head = rows.drop_last();
        let before = law_rows_that_open_are_shown(head, key);
        let head_wanted = |i: int| head[i].content(key) is Some;
        let n = rows.len() - 1;
        let from = if rows.last().content(key) is Some {
            before.push(n)
        } else {
            before
        };
        let all = shown(rows, key);
        assert forall|j: int| 0 <= j < from.len() implies 0 <= (#[trigger] from[j]) < rows.len()
            && wanted(from[j]) && shows(all[j], rows[from[j]], key) by {
            if j < before.len() {
                assert(from[j] == before[j]);
                assert(head_wanted(before[j]));
                assert(head[before[j]] == rows[before[j]]);
                assert(all[j] == shown(head, key)[j]);
            }
        }
        assert forall|j: int, k: int| 0 <= j < k < from.len() implies (#[trigger] from[j]) < (
        #[trigger] from[k]) by {
            assert(from[j] == before[j]);
            if k < before.len() {
                assert(from[k] == before[k]);
            }
        }
        assert forall|i: int| 0 <= i < rows.len() && #[trigger] wanted(i) implies from.contains(i) by {
            if i < n {
                assert(head[i] == rows[i]);
                assert(head_wanted(i));
                let j = choose|j: int| 0 <= j < before.len() && before[j] == i;
                assert(from[j] == i);
            } else {
                assert(from[from.len() - 1] == i);
            }
        }
        from
    }
}

/// The history is complete: every row that opens is in it, once, with what it holds, and an
/// earlier one stands before a later one. `order` are all rows in the order of the history, `at`
/// those of them that open.
pub proof fn law_history_is_complete(rows: Seq<StoredData>, key: Seq<u8>) -> (result: (Seq<int>, Seq<int>))
    ensures
        ({
            let (order, at) = result;
            let history = shown(timeline::by_time::<StoredMessage>(rows), key);
            &&& order.len() == rows.len()
            &&& forall|i: int| 0 <= i < rows.len() ==> #[trigger] order.contains(i)
            &&& forall|k: int| 0 <= k < order.len() ==> 0 <= (#[trigger] order[k]) < rows.len()
            &&& forall|k: int, l: int|
                0 <= k < l < order.len() ==> (#[trigger] order[k]) != (#[trigger] order[l])
                    && rows[order[k]].received_at <= rows[order[l]].received_at
            &&& table::lists(at, order.len(), |k: int| rows[order[k]].content(key) is Some)
            &&& history.len() == at.len()
            &&& forall|j: int|
                0 <= j < at.len() ==> shows(#[trigger] history[j], rows[order[at[j]]], key)
        }),
{
    let ordered = timeline::by_time::<StoredMessage>(rows);
    let order = timeline::law_by_time_rearranges::<StoredMessage>(rows);
    let at = law_rows_that_open_are_shown(ordered, key);
    let opens = |i: int| ordered[i].content(key) is Some;
    let wanted = |k: int| rows[order[k]].content(key) is Some;
    assert forall|j: int| 0 <= j < at.len() implies 0 <= (#[trigger] at[j]) < order.len() && wanted(
        at[j],
    ) by {
        assert(opens(at[j]));
        assert(0 <= order[at[j]] < rows.len());
    }
    assert forall|k: int| 0 <= k < order.len() && #[trigger] wanted(k) implies at.contains(k) by {
        assert(0 <= order[k] < rows.len());
        assert(opens(k));
    }
    assert forall|k: int, l: int| 0 <= k < l < order.len() implies (#[trigger] order[k]) != (
    #[trigger] order[l]) && rows[order[k]].received_at <= rows[order[l]].received_at by {
        assert(StoredMessage::time_of(rows[order[k]]) <= StoredMessage::time_of(rows[order[l]]));
    }
    let history = shown(ordered, key);
    assert forall|j: int| 0 <= j < at.len() implies shows(
        #[trigger] history[j],
        rows[order[at[j]]],
        key,
    ) by {
        assert(0 <= at[j] < ordered.len());
        assert(0 <= order[at[j]] < rows.len());
        assert(ordered[at[j]] == rows[order[at[j]]]);
    }
    (order, at)
}

/// A page is complete. `all` are the rows of the conversation from before the given time; as many
/// of them as were asked for are picked, or all where there are fewer, the newest first; whatever
/// is left out was received no later than anything that is picked. Of the picked rows those that
/// open are on the page, in this order, with what they hold, which are the positions `at`.
pub proof fn law_page_is_complete(
    rows: Seq<StoredData>,
    key: Seq<u8>,
    peer: NodeId,
    before: Option<u64>,
    limit: nat,
) -> (result: (Seq<int>, Seq<int>, Seq<int>))
    ensures
        ({
            let (all, picked, at) = result;
            let page = shown(newest(conversation(rows, peer, before), limit), key);
            &&& table::lists(
                all,
                rows.len(),
                |i: int|
                    rows[i].sender == peer && (before is None || rows[i].received_at < before->0),
            )
            &&& picked.len() == if limit < all.len() {
                limit
            } else {
                all.len()
            }
            &&& forall|k: int| 0 <= k < picked.len() ==> all.contains(#[trigger] picked[k])
            &&& forall|k: int, l: int|
                0 <= k < l < picked.len() ==> (#[trigger] picked[k]) != (#[trigger] picked[l])
                    && rows[picked[k]].received_at >= rows[picked[l]].received_at
            &&& forall|i: int, k: int|
                #![trigger all.contains(i), picked[k]]
                all.contains(i) && !picked.contains(i) && 0 <= k < picked.len()
                    ==> rows[i].received_at <= rows[picked[k]].received_at
            &&& all.len() <= limit ==> forall|i: int|
                #[trigger] all.contains(i) ==> picked.contains(i)
            &&& table::lists(at, picked.len(), |k: int| rows[picked[k]].content(key) is Some)
            &&& page.len() == at.len()
            &&& forall|j: int|
                0 <= j < at.len() ==> shows(#[trigger] page[j], rows[picked[at[j]]], key)
        }),
{
    let keeps = |row: StoredData|
        row.sender == peer && match before {
            Some(time) => row.received_at < time,
            None => true,
        };
    let wanted = |i: int|
        rows[i].sender == peer && (before is None || rows[i].received_at < before->0);
    table::lemma_positions(rows, keeps);
    let all = table::positions(rows, keeps);
    let kept = |i: int| keeps(rows[i]);
    assert forall|i: int| 0 <= i < rows.len() && #[trigger] wanted(i) implies all.contains(i) by {
        assert(kept(i));
    }
    assert forall|j: int| 0 <= j < all.len() implies 0 <= (#[trigger] all[j]) < rows.len() && wanted(
        all[j],
    ) by {
        assert(kept(all[j]));
    }
    let theirs = conversation(rows, peer, before);
    let m = theirs.len();
    let order = timeline::law_by_time_rearranges::<StoredMessage>(theirs);
    let sorted = timeline::by_time::<StoredMessage>(theirs);
    let recent = newest(theirs, limit);
    let count = if limit < m {
        limit
    } else {
        m
    };
    assert(recent.len() == count);
    let picked = Seq::new(count, |k: int| all[order[m - 1 - k]]);
    assert forall|k: int| 0 <= k < picked.len() implies all.contains(#[trigger] picked[k])
        && recent[k] == rows[picked[k]] && 0 <= picked[k] < rows.len() by {
        let o = order[m - 1 - k];
        assert(0 <= o < m);
        assert(all[o] == picked[k]);
        assert(sorted[m - 1 - k] == theirs[o]);
        assert(recent[k] == sorted[m - 1 - k]);
        assert(theirs[o] == rows[all[o]]);
    }
    assert forall|k: int, l: int| 0 <= k < l < picked.len() implies (#[trigger] picked[k]) != (
    #[trigger] picked[l]) && rows[picked[k]].received_at >= rows[picked[l]].received_at by {
        let (a, b) = (order[m - 1 - k], order[m - 1 - l]);
        assert(b != a);
        assert(StoredMessage::time_of(theirs[b]) <= StoredMessage::time_of(theirs[a]));
        assert(theirs[a] == rows[all[a]] && theirs[b] == rows[all[b]]);
        if a < b {
            assert(all[a] < all[b]);
        } else {
            assert(all[b] < all[a]);
        }
    }
    assert forall|i: int, k: int|
        #![trigger all.contains(i), picked[k]]
        all.contains(i) && !picked.contains(i) && 0 <= k < picked.len() implies rows[i].received_at
        <= rows[picked[k]].received_at by {
        let o = choose|o: int| 0 <= o < all.len() && all[o] == i;
        assert(order.contains(o));
        let q = choose|q: int| 0 <= q < order.len() && order[q] == o;
        if m - 1 - q < count {
            assert(picked[m - 1 - q] == i);
        }
        let p = m - 1 - k;
        assert(q < p);
        assert(order[q] != order[p]);
        assert(StoredMessage::time_of(theirs[order[q]]) <= StoredMessage::time_of(
            theirs[order[p]],
        ));
        assert(theirs[o] == rows[all[o]]);
        assert(theirs[order[p]] == rows[all[order[p]]]);
    }
    if m <= limit {
        assert forall|i: int| #[trigger] all.contains(i) implies picked.contains(i) by {
            let o = choose|o: int| 0 <= o < all.len() && all[o] == i;
            assert(order.contains(o));
            let q = choose|q: int| 0 <= q < order.len() && order[q] == o;
            assert(picked[m - 1 - q] == i);
        }
    }
    let at = law_rows_that_open_are_shown(recent, key);
    let opens = |i: int| recent[i].content(key) is Some;
    let readable = |k: int| rows[picked[k]].content(key) is Some;
    assert forall|j: int| 0 <= j < at.len() implies 0 <= (#[trigger] at[j]) < picked.len()
        && readable(at[j]) by {
        assert(opens(at[j]));
        assert(all.contains(picked[at[j]]));
    }
    assert forall|k: int| 0 <= k < picked.len() && #[trigger] readable(k) implies at.contains(k) by {
        assert(all.contains(picked[k]));
        assert(opens(k));
    }
    let page = shown(recent, key);
    assert forall|j: int| 0 <= j < at.len() implies shows(
        #[trigger] page[j],
        rows[picked[at[j]]],
        key,
    ) by {
        assert(0 <= at[j] < picked.len());
        assert(all.contains(picked[at[j]]));
    }
    (all, picked, at)
}

/// A row that is added is there, behind all others, which stay as they are. It has to be of a
/// message that is not there yet, and there has to be room. One of a message that is there is not
/// added.
pub proof fn law_new_row_is_kept(rows: Seq<StoredData>, row: StoredData, capacity: nat)
    requires
        rows.len() < capacity,
    ensures
        (forall|i: int|
            0 <= i < rows.len() ==> !((#[trigger] rows[i]).sender == row.sender
                && rows[i].message_id == row.message_id)) ==> table::evicted::<StoredMessage>(
            with_row(rows, row),
            capacity,
        ) == rows.push(row),
        (exists|i: int|
            0 <= i < rows.len() && (#[trigger] rows[i]).sender == row.sender
                && rows[i].message_id == row.message_id) ==> table::evicted::<StoredMessage>(
            with_row(rows, row),
            capacity,
        ) == rows,
{
    if has_message(rows, row.sender, row.message_id) {
        let i = choose|i: int|
            0 <= i < rows.len() && (#[trigger] rows[i]).is_of(row.sender, row.message_id);
        assert(rows[i].sender == row.sender && rows[i].message_id == row.message_id);
    }
    if exists|i: int|
        0 <= i < rows.len() && (#[trigger] rows[i]).sender == row.sender && rows[i].message_id
            == row.message_id {
        let i = choose|i: int|
            0 <= i < rows.len() && (#[trigger] rows[i]).sender == row.sender && rows[i].message_id
                == row.message_id;
        assert(rows[i].is_of(row.sender, row.message_id));
    }
}

/// Where there is one message too many, the one received first leaves; the others stay, in their
/// order.
pub proof fn law_oldest_leaves(rows: Seq<StoredData>, capacity: nat) -> (gone: int)
    requires
        rows.len() == capacity + 1,
    ensures
        0 <= gone < rows.len(),
        table::evicted::<StoredMessage>(rows, capacity) == rows.remove(gone),
        forall|i: int|
            0 <= i < rows.len() ==> rows[gone].received_at <= (#[trigger] rows[i]).received_at,
{
    let all = table::ranks::<StoredMessage>(rows);
    table::lemma_first_lowest(all);
    let gone = table::first_lowest(all);
    assert(table::evicted::<StoredMessage>(rows.remove(gone), capacity) == rows.remove(gone));
    assert forall|i: int| 0 <= i < rows.len() implies rows[gone].received_at <= (
    #[trigger] rows[i]).received_at by {
        assert(all[gone] <= all[i]);
    }
    gone
}

/// Rows that are read back stay: of the rows of each message the first is kept, as it is, and
/// nothing is kept that was not there.
pub proof fn law_first_row_of_each_stays(rows: Seq<StoredData>, i: int)
    requires
        0 <= i < rows.len(),
    ensures
        (forall|k: int| 0 <= k < i ==> !((#[trigger] rows[k]).sender == rows[i].sender && rows[k].message_id == rows[i].message_id))
            ==> first_rows(rows).contains(rows[i]),
        forall|j: int|
            0 <= j < first_rows(rows).len() ==> rows.contains(#[trigger] first_rows(rows)[j]),
    decreases rows.len(),
{
    assert forall|j: int| 0 <= j < first_rows(rows).len() implies rows.contains(
        #[trigger] first_rows(rows)[j],
    ) by {
        lemma_first_rows_are_rows(rows, j);
    }
    let head = rows.drop_last();
    let last = rows.last();
    let before = first_rows(head);
    let all = first_rows(rows);
    if forall|k: int| 0 <= k < i ==> !((#[trigger] rows[k]).sender == rows[i].sender && rows[k].message_id == rows[i].message_id) {
        if i < head.len() {
            assert(head[i] == rows[i]);
            assert forall|k: int| 0 <= k < i implies !((#[trigger] head[k]).sender == head[i].sender && head[k].message_id == head[i].message_id) by {
                assert(rows[k] == head[k]);
            }
            law_first_row_of_each_stays(head, i);
            let j = choose|j: int| 0 <= j < before.len() && before[j] == rows[i];
            assert(all[j] == rows[i]);
        } else {
            if has_message(before, last.sender, last.message_id) {
                let k = choose|k: int|
                    0 <= k < before.len() && (#[trigger] before[k]).is_of(last.sender, last.message_id);
                lemma_first_rows_are_rows(head, k);
                let j = choose|j: int| 0 <= j < head.len() && head[j] == before[k];
                assert(rows[j] == head[j]);
                assert(rows[j].sender == last.sender && rows[j].message_id == last.message_id);
            }
            assert(all[all.len() - 1] == rows[i]);
        }
    }
}

proof fn lemma_first_rows_are_rows(rows: Seq<StoredData>, j: int)
    requires
        0 <= j < first_rows(rows).len(),
    ensures
        rows.contains(first_rows(rows)[j]),
    decreases rows.len(),
{
    if rows.len() > 0 {
        let head = rows.drop_last();
        let before = first_rows(head);
        if j < before.len() {
            lemma_first_rows_are_rows(head, j);
            let k = choose|k: int| 0 <= k < head.len() && head[k] == before[j];
            assert(rows[k] == first_rows(rows)[j]);
        } else {
            assert(rows[rows.len() - 1] == first_rows(rows)[j]);
        }
    }
}

} // verus!
