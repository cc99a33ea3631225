//! Putting chunks back together.
//!
//! Chunks may arrive in any order and more than once. A chunk with an index its transfer does not
//! have is passed over. A transfer that has been silent for two minutes is given up, and where too
//! many are in flight the one silent for longest goes.
//!
//! Time is measured on a clock that is never set, such as the time since the program started.

use vstd::prelude::*;
use vstd::string::*;
use vstd::utf8::*;

use crate::bytes;
use crate::payload;
use crate::payload::{Chunk, ChunkData, ContentData, ContentKind, ReceivedContent, TransferProgress};
use crate::session;
use crate::table;
use crate::table::Ranked;

verus! {

/// A transfer silent for this long is given up.
pub const TRANSFER_TIMEOUT_MS: u64 = 120_000;

/// How many transfers may be in flight before the most silent is dropped.
pub const MAX_IN_FLIGHT_TRANSFERS: usize = 64;

/// The name of a file that came without one.
pub const DEFAULT_FILE_NAME: &'static str = "file";

/// The MIME type of a file that came without one.
pub const DEFAULT_MIME_TYPE: &'static str = "application/octet-stream";

/// The text of bytes that are not UTF-8, the offending ones replaced.
pub uninterp spec fn lossy_text(data: Seq<u8>) -> Seq<char>;

/// The text that bytes stand for.
pub open spec fn text_from(data: Seq<u8>) -> Seq<char> {
    if valid_utf8(data) {
        decode_utf8(data)
    } else {
        lossy_text(data)
    }
}

/// Text that was turned into bytes comes back as it was.
pub proof fn law_text_survives(text: Seq<char>)
    ensures
        text_from(encode_utf8(text)) == text,
{
    encode_utf8_valid_utf8(text);
    encode_utf8_decode_utf8(text);
}

/// Calls `String::from_utf8_lossy`: valid UTF-8 is decoded, in anything else the offending bytes
/// are replaced.
#[verifier::external_body]
fn text_from_utf8_lossy(data: &[u8]) -> (text: String)
    ensures
        valid_utf8(data@) ==> text@ == decode_utf8(data@),
        !valid_utf8(data@) ==> text@ == lossy_text(data@),
{
    String::from_utf8_lossy(data).to_string()
}

// ---------------------------------------------------------------------------------------------
// One transfer
// ---------------------------------------------------------------------------------------------

/// What is known of a transfer in flight.
pub struct TransferData {
    pub transfer_id: [u8; 16],
    pub chunk_count: u32,
    pub kind: ContentKind,
    pub file_name: Option<Seq<char>>,
    pub mime_type: Option<Seq<char>>,
    /// The chunks that have arrived, by index.
    pub received: Map<u32, Seq<u8>>,
    pub last_seen_ms: u64,
}

/// The chunks below `count` in order, joined; for chunks that are all there.
pub open spec fn joined(received: Map<u32, Seq<u8>>, count: nat) -> Seq<u8>
    decreases count,
{
    if count == 0 {
        Seq::empty()
    } else {
        joined(received, (count - 1) as nat) + received[(count - 1) as u32]
    }
}

/// The content a transfer of the given kind stands for.
pub open spec fn content_of(
    transfer_id: [u8; 16],
    kind: ContentKind,
    file_name: Option<Seq<char>>,
    mime_type: Option<Seq<char>>,
    data: Seq<u8>,
) -> ContentData {
    match kind {
        ContentKind::Text => ContentData::Text(text_from(data)),
        _ => ContentData::File {
            transfer_id,
            name: match file_name {
                Some(name) => name,
                None => DEFAULT_FILE_NAME@,
            },
            mime: match mime_type {
                Some(mime) => mime,
                None => DEFAULT_MIME_TYPE@,
            },
            kind,
            data,
        },
    }
}

impl TransferData {
    /// A transfer of which nothing has arrived yet, described by its first chunk.
    pub open spec fn opened_by(chunk: ChunkData, now_ms: u64) -> TransferData {
        TransferData {
            transfer_id: chunk.transfer_id,
            chunk_count: chunk.chunk_count,
            kind: chunk.kind,
            file_name: chunk.file_name,
            mime_type: chunk.mime_type,
            received: Map::empty(),
            last_seen_ms: now_ms,
        }
    }

    /// The transfer after a chunk has arrived. One that arrives again replaces the earlier; one
    /// with an index the transfer does not have is passed over.
    pub open spec fn with_chunk(self, chunk: ChunkData, now_ms: u64) -> TransferData {
        TransferData {
            received: if chunk.chunk_index < self.chunk_count {
                self.received.insert(chunk.chunk_index, chunk.data)
            } else {
                self.received
            },
            last_seen_ms: now_ms,
            ..self
        }
    }

    /// Every chunk has arrived. A transfer of no chunks at all is never complete.
    pub open spec fn complete(self) -> bool {
        self.chunk_count > 0 && forall|k: u32|
            k < self.chunk_count ==> #[trigger] self.received.dom().contains(k)
    }

    /// How far the transfer has come.
    pub open spec fn progress(self) -> TransferProgress {
        TransferProgress {
            transfer_id: self.transfer_id,
            kind: self.kind,
            done_chunks: self.received.dom().len() as u32,
            total_chunks: self.chunk_count,
        }
    }

    /// What the transfer carries, once it is complete.
    pub open spec fn content(self) -> ContentData {
        content_of(
            self.transfer_id,
            self.kind,
            self.file_name,
            self.mime_type,
            joined(self.received, self.chunk_count as nat),
        )
    }

    /// The transfer has been heard of recently enough at `now_ms`.
    pub open spec fn live(self, now_ms: u64) -> bool {
        now_ms - self.last_seen_ms < TRANSFER_TIMEOUT_MS
    }
}

/// A transfer in flight. No index is held twice, and none the transfer does not have.
struct PartialTransfer {
    transfer_id: [u8; 16],
    chunk_count: u32,
    kind: ContentKind,
    file_name: Option<String>,
    mime_type: Option<String>,
    received: Vec<(u32, Vec<u8>)>,
    last_seen_ms: u64,
}

/// No index occurs twice.
spec fn distinct(entries: Seq<(u32, Vec<u8>)>) -> bool {
    forall|i: int, j: int|
        0 <= i < j < entries.len() ==> (#[trigger] entries[i]).0 != (#[trigger] entries[j]).0
}

/// Every index is one of a transfer of `count` chunks.
spec fn below(entries: Seq<(u32, Vec<u8>)>, count: u32) -> bool {
    forall|i: int| 0 <= i < entries.len() ==> (#[trigger] entries[i]).0 < count
}

/// Entries as a map from index to data.
spec fn as_map(entries: Seq<(u32, Vec<u8>)>) -> Map<u32, Seq<u8>>
    decreases entries.len(),
{
    if entries.len() == 0 {
        Map::empty()
    } else {
        as_map(entries.drop_last()).insert(entries.last().0, entries.last().1@)
    }
}

proof fn lemma_as_map(entries: Seq<(u32, Vec<u8>)>)
    requires
        distinct(entries),
    ensures
        as_map(entries).dom().finite(),
        as_map(entries).dom().len() == entries.len(),
        forall|k: u32|
            #[trigger] as_map(entries).dom().contains(k) ==> exists|i: int|
                0 <= i < entries.len() && (#[trigger] entries[i]).0 == k,
        forall|i: int|
            0 <= i < entries.len() ==> {
                &&& as_map(entries).dom().contains((#[trigger] entries[i]).0)
                &&& as_map(entries)[entries[i].0] == entries[i].1@
            },
    decreases entries.len(),
{
    if entries.len() > 0 {
        let head = entries.drop_last();
        assert(distinct(head));
        lemma_as_map(head);
        let last = entries.last();
        assert(!as_map(head).dom().contains(last.0)) by {
            if as_map(head).dom().contains(last.0) {
                let i = choose|i: int| 0 <= i < head.len() && (#[trigger] head[i]).0 == last.0;
                assert(entries[i].0 != entries[entries.len() - 1].0);
            }
        }
        assert forall|k: u32| #[trigger] as_map(entries).dom().contains(k) implies exists|i: int|
            0 <= i < entries.len() && (#[trigger] entries[i]).0 == k by {
            if k == last.0 {
                assert(entries[entries.len() - 1].0 == k);
            } else {
                assert(as_map(head).dom().contains(k));
                let i = choose|i: int| 0 <= i < head.len() && (#[trigger] head[i]).0 == k;
                assert(entries[i].0 == k);
            }
        }
        assert forall|i: int| 0 <= i < entries.len() implies {
            &&& as_map(entries).dom().contains((#[trigger] entries[i]).0)
            &&& as_map(entries)[entries[i].0] == entries[i].1@
        } by {
            if i < head.len() {
                assert(head[i] == entries[i]);
                assert(as_map(head).dom().contains(head[i].0));
            }
        }
    }
}

impl View for PartialTransfer {
    type V = TransferData;

    closed spec fn view(&self) -> TransferData {
        TransferData {
            transfer_id: self.transfer_id,
            chunk_count: self.chunk_count,
            kind: self.kind,
            file_name: session::text_of(self.file_name),
            mime_type: session::text_of(self.mime_type),
            received: as_map(self.received@),
            last_seen_ms: self.last_seen_ms,
        }
    }
}

impl Ranked for PartialTransfer {
    open spec fn rank_of(row: TransferData) -> int {
        row.last_seen_ms as int
    }

    fn rank(&self) -> (rank: u128) {
        self.last_seen_ms as u128
    }
}

impl PartialTransfer {
    #[verifier::type_invariant]
    spec fn well_formed(self) -> bool {
        distinct(self.received@) && below(self.received@, self.chunk_count)
    }

    fn open(chunk: &Chunk, now_ms: u64) -> (transfer: PartialTransfer)
        ensures
            transfer@ == TransferData::opened_by(chunk@, now_ms),
    {
        PartialTransfer {
            transfer_id: chunk.transfer_id,
            chunk_count: chunk.chunk_count,
            kind: chunk.kind,
            file_name: session::clone_text(&chunk.file_name),
            mime_type: session::clone_text(&chunk.mime_type),
            received: Vec::new(),
            last_seen_ms: now_ms,
        }
    }

    /// Takes in a chunk, or passes over one the transfer does not have.
    fn add(self, chunk_index: u32, data: Vec<u8>, now_ms: u64) -> (transfer: PartialTransfer)
        ensures
            forall|chunk: ChunkData|
                chunk.chunk_index == chunk_index && chunk.data == data@ ==> transfer@
                    == #[trigger] self@.with_chunk(chunk, now_ms),
    {
        proof {
            use_type_invariant(&self);
            lemma_as_map(self.received@);
        }
        let ghost before = self.received@;
        let PartialTransfer {
            transfer_id,
            chunk_count,
            kind,
            file_name,
            mime_type,
            received,
            last_seen_ms: _,
        } = self;
        let mut received: Vec<(u32, Vec<u8>)> = received;
        let mut i: usize = 0;
        while i < received.len() && received[i].0 != chunk_index
            invariant
                i <= received@.len(),
                received@ == before,
                forall|j: int| 0 <= j < i ==> (#[trigger] before[j]).0 != chunk_index,
            decreases received@.len() - i,
        {
            i += 1;
        }
        let ghost wanted = as_map(before).insert(chunk_index, data@);
        let known = chunk_index < chunk_count;
        if known && i < received.len() {
            let _ = received.remove(i);
            received.insert(i, (chunk_index, data));
            assert(received@ =~= before.update(i as int, (chunk_index, data)));
            assert(distinct(received@)) by {
                assert forall|a: int, b: int| 0 <= a < b < received@.len() implies (
                #[trigger] received@[a]).0 != (#[trigger] received@[b]).0 by {
                    assert(before[a].0 != before[b].0);
                }
            }
            proof {
                lemma_as_map(received@);
                lemma_replaced(before, i as int, (chunk_index, data), wanted);
            }
        } else if known {
            received.push((chunk_index, data));
            assert(received@.drop_last() =~= before);
            assert(distinct(received@));
            assert(as_map(received@) =~= wanted);
        }
        PartialTransfer {
            transfer_id,
            chunk_count,
            kind,
            file_name,
            mime_type,
            received,
            last_seen_ms: now_ms,
        }
    }

    /// How many chunks have arrived.
    fn count(&self) -> (count: u32)
        ensures
            count == self@.received.dom().len() as u32,
            self@.received.dom().len() <= self.chunk_count,
            self@.complete() <==> self.chunk_count > 0 && count == self.chunk_count,
            self@.chunk_count == self.chunk_count,
    {
        proof {
            use_type_invariant(self);
            lemma_as_map(self.received@);
            assert forall|k: u32| #[trigger] self@.received.dom().contains(k) implies k
                < self.chunk_count by {
                let i = choose|i: int|
                    0 <= i < self.received@.len() && (#[trigger] self.received@[i]).0 == k;
                assert(self.received@[i].0 < self.chunk_count);
            }
            lemma_all_there(self@.received.dom(), self.chunk_count);
        }
        self.received.len() as u32
    }

    /// The data of a chunk that has arrived.
    fn find(&self, index: u32) -> (position: Option<usize>)
        ensures
            position is Some <==> self@.received.dom().contains(index),
            position matches Some(p) ==> p < self.received@.len() && self@.received[index]
                == self.received@[p as int].1@,
    {
        proof {
            use_type_invariant(self);
            lemma_as_map(self.received@);
        }
        let mut i: usize = 0;
        while i < self.received.len()
            invariant
                i <= self.received@.len(),
                distinct(self.received@),
                self@.received == as_map(self.received@),
                forall|j: int|
                    0 <= j < self.received@.len() ==> {
                        &&& self@.received.dom().contains((#[trigger] self.received@[j]).0)
                        &&& self@.received[self.received@[j].0] == self.received@[j].1@
                    },
                forall|k: u32|
                    #[trigger] self@.received.dom().contains(k) ==> exists|j: int|
                        0 <= j < self.received@.len() && (#[trigger] self.received@[j]).0 == k,
                forall|j: int| 0 <= j < i ==> (#[trigger] self.received@[j]).0 != index,
            decreases self.received@.len() - i,
        {
            if self.received[i].0 == index {
                return Some(i);
            }
            i += 1;
        }
        None
    }

    /// Joins the chunks in order.
    fn join(&self) -> (data: Vec<u8>)
        requires
            self@.complete(),
        ensures
            data@ == joined(self@.received, self@.chunk_count as nat),
    {
        let mut data: Vec<u8> = Vec::new();
        let mut i: u32 = 0;
        assert(data@ =~= Seq::<u8>::empty());
        while i < self.chunk_count
            invariant
                i <= self.chunk_count,
                self@.chunk_count == self.chunk_count,
                self@.complete(),
                joined(self@.received, i as nat) == data@,
            decreases self.chunk_count - i,
        {
            assert(self@.received.dom().contains(i));
            if let Some(position) = self.find(i) {
                bytes::append(&mut data, self.received[position].1.as_slice());
            }
            i += 1;
            assert((i - 1) as nat as u32 == (i - 1) as u32);
        }
        data
    }
}

/// The first `count` indices.
spec fn indices(count: nat) -> Set<u32> {
    Set::new(|k: u32| k < count)
}

proof fn lemma_indices(count: nat)
    requires
        count <= u32::MAX,
    ensures
        indices(count).finite(),
        indices(count).len() == count,
    decreases count,
{
    if count == 0 {
        assert(indices(0) =~= Set::empty());
    } else {
        lemma_indices((count - 1) as nat);
        assert(indices(count) =~= indices((count - 1) as nat).insert((count - 1) as u32));
    }
}

/// Of `count` indices as many as there are have arrived exactly when each has.
proof fn lemma_all_there(arrived: Set<u32>, count: u32)
    requires
        arrived.finite(),
        forall|k: u32| #[trigger] arrived.contains(k) ==> k < count,
    ensures
        arrived.len() <= count,
        arrived.len() == count <==> (forall|k: u32| k < count ==> #[trigger] arrived.contains(k)),
{
    let all = indices(count as nat);
    lemma_indices(count as nat);
    assert(arrived.subset_of(all));
    vstd::set_lib::lemma_len_subset(arrived, all);
    if arrived.len() == count {
        vstd::set_lib::lemma_subset_equality(arrived, all);
        assert forall|k: u32| k < count implies #[trigger] arrived.contains(k) by {
            assert(all.contains(k));
        }
    }
    if forall|k: u32| k < count ==> #[trigger] arrived.contains(k) {
        assert(arrived =~= all);
    }
}

proof fn lemma_replaced(
    before: Seq<(u32, Vec<u8>)>,
    at: int,
    entry: (u32, Vec<u8>),
    wanted: Map<u32, Seq<u8>>,
)
    requires
        0 <= at < before.len(),
        distinct(before),
        before[at].0 == entry.0,
        wanted == as_map(before).insert(entry.0, entry.1@),
    ensures
        as_map(before.update(at, entry)) == wanted,
{
    let after = before.update(at, entry);
    assert(distinct(after)) by {
        assert forall|a: int, b: int| 0 <= a < b < after.len() implies (#[trigger] after[a]).0 != (
        #[trigger] after[b]).0 by {
            assert(before[a].0 != before[b].0);
        }
    }
    lemma_as_map(before);
    lemma_as_map(after);
    assert forall|k: u32| as_map(after).dom().contains(k) <==> wanted.dom().contains(k) by {
        if as_map(after).dom().contains(k) {
            let i = choose|i: int| 0 <= i < after.len() && (#[trigger] after[i]).0 == k;
            assert(before[i].0 == k);
        }
        if wanted.dom().contains(k) {
            if k == entry.0 {
                assert(after[at].0 == k);
            } else {
                assert(as_map(before).dom().contains(k));
                let i = choose|i: int| 0 <= i < before.len() && (#[trigger] before[i]).0 == k;
                assert(after[i].0 == k);
            }
        }
    }
    assert forall|k: u32| as_map(after).dom().contains(k) implies as_map(after)[k] == wanted[k] by {
        let i = choose|i: int| 0 <= i < after.len() && (#[trigger] after[i]).0 == k;
        assert(before[i].0 == k);
        if i != at {
            assert(before[i].0 != before[at].0) by {
                if i < at {
                    assert(before[i].0 != before[at].0);
                } else {
                    assert(before[at].0 != before[i].0);
                }
            }
        }
    }
    assert(as_map(after) =~= wanted);
}

// ---------------------------------------------------------------------------------------------
// All transfers
// ---------------------------------------------------------------------------------------------

/// What became of a chunk.
#[derive(Debug)]
pub enum Accepted {
    /// More chunks are awaited.
    Progress(TransferProgress),
    /// It was the last one.
    Complete(ReceivedContent),
}

/// What became of a chunk.
pub enum AcceptedData {
    Progress(TransferProgress),
    Complete(ContentData),
}

impl View for Accepted {
    type V = AcceptedData;

    open spec fn view(&self) -> AcceptedData {
        match self {
            Accepted::Progress(progress) => AcceptedData::Progress(*progress),
            Accepted::Complete(content) => AcceptedData::Complete(content@),
        }
    }
}

/// The position of the transfer with the lowest time of its last chunk, the first of several.
pub open spec fn most_silent(transfers: Seq<TransferData>) -> int {
    table::first_lowest(transfers.map_values(|t: TransferData| t.last_seen_ms as int))
}

/// The transfers that have been heard of recently enough at `now_ms`.
pub open spec fn live_at(transfers: Seq<TransferData>, now_ms: u64) -> Seq<TransferData> {
    transfers.filter(|t: TransferData| t.live(now_ms))
}

/// The transfers that are kept at `now_ms`: the live ones, less the most silent where there are
/// too many.
pub open spec fn swept(transfers: Seq<TransferData>, now_ms: u64) -> Seq<TransferData> {
    let live = live_at(transfers, now_ms);
    if live.len() > MAX_IN_FLIGHT_TRANSFERS {
        live.remove(most_silent(live))
    } else {
        live
    }
}

/// Where the transfer with the given id is.
pub open spec fn transfer_position(transfers: Seq<TransferData>, id: [u8; 16]) -> Option<int> {
    transfers.map_values(|t: TransferData| t.transfer_id).index_of_first(id)
}

/// The transfers after a chunk has been taken in, and what became of the chunk.
pub open spec fn accepted(
    transfers: Seq<TransferData>,
    chunk: ChunkData,
    now_ms: u64,
) -> (Seq<TransferData>, AcceptedData) {
    let live = swept(transfers, now_ms);
    let (at, base) = match transfer_position(live, chunk.transfer_id) {
        Some(at) => (at, live),
        None => (live.len() as int, live.push(TransferData::opened_by(chunk, now_ms))),
    };
    let transfer = base[at].with_chunk(chunk, now_ms);
    if !transfer.complete() {
        (base.update(at, transfer), AcceptedData::Progress(transfer.progress()))
    } else {
        (base.remove(at), AcceptedData::Complete(transfer.content()))
    }
}

/// All transfers in flight.
pub struct Reassembler {
    transfers: Vec<PartialTransfer>,
}

impl View for Reassembler {
    type V = Seq<TransferData>;

    closed spec fn view(&self) -> Seq<TransferData> {
        table::views(self.transfers@)
    }
}

impl Reassembler {
    /// No transfer in flight.
    pub fn new() -> (reassembler: Reassembler)
        ensures
            reassembler@ == Seq::<TransferData>::empty(),
    {
        let reassembler = Reassembler { transfers: Vec::new() };
        assert(reassembler@ =~= Seq::<TransferData>::empty());
        reassembler
    }

    /// Takes in a chunk and says what became of it.
    pub fn accept_chunk(&mut self, chunk: Chunk, now_ms: u64) -> (result: Accepted)
        ensures
            (final(self)@, result@) == accepted(old(self)@, chunk@, now_ms),
    {
        self.evict_stale(now_ms);
        let ghost live = self@;
        let ghost arrived = chunk@;
        let at: usize = self.position(&chunk.transfer_id);
        if at == self.transfers.len() {
            let fresh = PartialTransfer::open(&chunk, now_ms);
            self.transfers.push(fresh);
            assert(self@ =~= live.push(TransferData::opened_by(arrived, now_ms)));
        }
        let ghost base = self@;
        let transfer = self.transfers.remove(at);
        assert(transfer@ == base[at as int]);
        let transfer = transfer.add(chunk.chunk_index, chunk.data, now_ms);
        assert(transfer@ == base[at as int].with_chunk(arrived, now_ms));
        assert(self@ =~= base.remove(at as int));
        let count: u32 = transfer.count();
        if count != transfer.chunk_count || count == 0 {
            let progress = TransferProgress {
                transfer_id: transfer.transfer_id,
                kind: transfer.kind,
                done_chunks: count,
                total_chunks: transfer.chunk_count,
            };
            self.transfers.insert(at, transfer);
            assert(self@ =~= base.update(at as int, transfer@));
            return Accepted::Progress(progress);
        }
        let data = transfer.join();
        Accepted::Complete(finished(transfer, data))
    }

    /// Takes in a chunk and hands out the content once it is complete.
    pub fn accept(&mut self, chunk: Chunk, now_ms: u64) -> (content: Option<ReceivedContent>)
        ensures
            final(self)@ == accepted(old(self)@, chunk@, now_ms).0,
            content is Some <==> accepted(old(self)@, chunk@, now_ms).1 is Complete,
            content matches Some(c) ==> accepted(old(self)@, chunk@, now_ms).1
                == AcceptedData::Complete(c@),
    {
        match self.accept_chunk(chunk, now_ms) {
            Accepted::Complete(content) => Some(content),
            _ => None,
        }
    }

    /// The position of a transfer, or the number of transfers where there is none.
    fn position(&self, id: &[u8; 16]) -> (at: usize)
        ensures
            at <= self@.len(),
            match transfer_position(self@, *id) {
                Some(i) => at == i && 0 <= i < self@.len(),
                None => at == self@.len(),
            },
            self@.len() == self.transfers@.len(),
    {
        let ghost ids = self@.map_values(|t: TransferData| t.transfer_id);
        proof {
            ids.index_of_first_ensures(*id);
        }
        let mut i: usize = 0;
        while i < self.transfers.len()
            invariant
                i <= self.transfers@.len(),
                self@ == table::views(self.transfers@),
                ids == self@.map_values(|t: TransferData| t.transfer_id),
                forall|j: int| 0 <= j < i ==> #[trigger] ids[j] != *id,
                match ids.index_of_first(*id) {
                    Some(k) => {
                        &&& 0 <= k < ids.len()
                        &&& ids[k] == *id
                        &&& forall|j: int| 0 <= j < k < ids.len() ==> ids[j] != *id
                    },
                    None => !ids.contains(*id),
                },
            decreases self.transfers@.len() - i,
        {
            assert(ids[i as int] == self.transfers@[i as int]@.transfer_id);
            if bytes::same_array(&self.transfers[i].transfer_id, id) {
                return i;
            }
            i += 1;
        }
        i
    }

    /// Drops transfers that have been silent for too long, and the most silent one where there
    /// are too many.
    fn evict_stale(&mut self, now_ms: u64)
        ensures
            final(self)@ == swept(old(self)@, now_ms),
    {
        let ghost all = self@;
        let ghost live = |t: TransferData| t.live(now_ms);
        let ghost mut done: int = 0;
        let mut i: usize = 0;
        assert(all.take(0).filter(live) =~= Seq::empty()) by {
            reveal(Seq::filter);
        }
        assert(all.skip(0) =~= all);
        while i < self.transfers.len()
            invariant
                0 <= done <= all.len(),
                i <= self.transfers@.len(),
                live == (|t: TransferData| t.live(now_ms)),
                self@ == table::views(self.transfers@),
                self@.take(i as int) == all.take(done).filter(live),
                self@.skip(i as int) == all.skip(done),
                self.transfers@.len() - i == all.len() - done,
            decreases self.transfers@.len() - i,
        {
            let ghost before = self@;
            assert(before[i as int] == before.skip(i as int)[0]);
            assert(all[done] == all.skip(done)[0]);
            assert(all.take(done + 1).drop_last() =~= all.take(done));
            assert(before[i as int] == self.transfers@[i as int]@);
            let last_seen: u64 = self.transfers[i].last_seen_ms;
            let keep = now_ms < last_seen || now_ms - last_seen < TRANSFER_TIMEOUT_MS;
            assert(keep == live(all[done]));
            if keep {
                i += 1;
                assert(self@.take(i as int) =~= before.take(i - 1).push(all[done]));
                assert(self@.take(i as int) =~= all.take(done + 1).filter(live)) by {
                    reveal(Seq::filter);
                }
                assert(self@.skip(i as int) =~= before.skip(i - 1).skip(1));
            } else {
                let _ = self.transfers.remove(i);
                assert(self@ =~= before.remove(i as int));
                assert(self@.take(i as int) =~= before.take(i as int));
                assert(self@.take(i as int) =~= all.take(done + 1).filter(live)) by {
                    reveal(Seq::filter);
                }
                assert(self@.skip(i as int) =~= before.skip(i as int).skip(1));
            }
            assert(all.skip(done).skip(1) =~= all.skip(done + 1));
            proof {
                done = done + 1;
            }
        }
        assert(self@.take(i as int) =~= self@);
        assert(all.take(done) =~= all);
        if self.transfers.len() > MAX_IN_FLIGHT_TRANSFERS {
            let ghost before = self@;
            let oldest: usize = table::lowest_ranked(&self.transfers);
            assert(table::ranks::<PartialTransfer>(before) =~= before.map_values(
                |t: TransferData| t.last_seen_ms as int,
            ));
            let _ = self.transfers.remove(oldest);
            assert(self@ =~= before.remove(oldest as int));
        }
    }
}

/// The content of a transfer whose data has been joined.
fn finished(transfer: PartialTransfer, data: Vec<u8>) -> (content: ReceivedContent)
    ensures
        content@ == content_of(
            transfer@.transfer_id,
            transfer@.kind,
            transfer@.file_name,
            transfer@.mime_type,
            data@,
        ),
{
    match transfer.kind {
        ContentKind::Text => ReceivedContent::Text(text_from_utf8_lossy(data.as_slice())),
        kind => {
            let name = match transfer.file_name {
                Some(name) => name,
                None => DEFAULT_FILE_NAME.to_owned(),
            };
            let mime = match transfer.mime_type {
                Some(mime) => mime,
                None => DEFAULT_MIME_TYPE.to_owned(),
            };
            ReceivedContent::File { transfer_id: transfer.transfer_id, name, mime, kind, data }
        },
    }
}

// ---------------------------------------------------------------------------------------------
// Laws
// ---------------------------------------------------------------------------------------------

/// What has arrived of a transfer are pieces of `data`.
pub open spec fn holds_pieces_of(transfer: TransferData, whole: TransferData, data: Seq<u8>) -> bool {
    &&& transfer.transfer_id == whole.transfer_id
    &&& transfer.kind == whole.kind
    &&& transfer.file_name == whole.file_name
    &&& transfer.mime_type == whole.mime_type
    &&& transfer.chunk_count == payload::chunks_needed(data.len())
    &&& transfer.received.dom().finite()
    &&& forall|k: u32| #[trigger]
        transfer.received.dom().contains(k) ==> k < payload::chunks_needed(data.len())
            && transfer.received[k] == payload::piece(data, k as int)
}

/// The chunk with the given index of the transfer of `data` that `whole` describes.
pub open spec fn chunk_of(whole: TransferData, data: Seq<u8>, index: int) -> ChunkData {
    payload::chunks_of(whole.transfer_id, whole.kind, whole.file_name, whole.mime_type, data)[index]
}

/// Chunks may arrive in any order and more than once: whichever comes, what is held are still
/// pieces of the data, the one that came among them and none lost.
pub proof fn law_chunks_build_up(transfer: TransferData, whole: TransferData, data: Seq<u8>, index: int, now_ms: u64)
    requires
        payload::chunks_needed(data.len()) <= u32::MAX,
        0 <= index < payload::chunks_needed(data.len()),
        holds_pieces_of(transfer, whole, data),
    ensures
        holds_pieces_of(transfer.with_chunk(chunk_of(whole, data, index), now_ms), whole, data),
        transfer.with_chunk(chunk_of(whole, data, index), now_ms).received.dom()
            == transfer.received.dom().insert(index as u32),
        holds_pieces_of(
            TransferData::opened_by(chunk_of(whole, data, index), now_ms),
            whole,
            data,
        ),
{
    let chunk = chunk_of(whole, data, index);
    let next = transfer.with_chunk(chunk, now_ms);
    assert(next.received.dom() =~= transfer.received.dom().insert(index as u32));
}

spec fn has_piece(received: Map<u32, Seq<u8>>, data: Seq<u8>, k: u32) -> bool {
    received.dom().contains(k) && received[k] == payload::piece(data, k as int)
}

proof fn lemma_joined_pieces(received: Map<u32, Seq<u8>>, data: Seq<u8>, count: nat)
    requires
        count <= u32::MAX,
        forall|k: u32| k < count ==> #[trigger] has_piece(received, data, k),
    ensures
        joined(received, count) == payload::joined_pieces(data, count),
    decreases count,
{
    if count > 0 {
        lemma_joined_pieces(received, data, (count - 1) as nat);
        assert(has_piece(received, data, (count - 1) as u32));
    }
}

/// A transfer is complete exactly when every chunk has arrived, and what it then carries is the
/// data that was cut up.
pub proof fn law_complete_transfer_carries_the_data(transfer: TransferData, whole: TransferData, data: Seq<u8>)
    requires
        payload::chunks_needed(data.len()) <= u32::MAX,
        holds_pieces_of(transfer, whole, data),
    ensures
        transfer.complete() <==> (forall|k: u32|
            k < payload::chunks_needed(data.len()) ==> #[trigger] transfer.received.dom().contains(
                k,
            )),
        transfer.complete() ==> transfer.content() == content_of(
            whole.transfer_id,
            whole.kind,
            whole.file_name,
            whole.mime_type,
            data,
        ),
        transfer.complete() <==> transfer.progress().done_chunks == transfer.chunk_count,
{
    let n = payload::chunks_needed(data.len());
    lemma_all_there(transfer.received.dom(), n as u32);
    if transfer.complete() {
        assert forall|k: u32| k < n implies #[trigger] has_piece(transfer.received, data, k) by {
            assert(transfer.received.dom().contains(k));
        }
        lemma_joined_pieces(transfer.received, data, n);
        payload::law_pieces_join_to_the_data(data);
    }
}

/// Whatever the order, the chunk that was still missing completes the transfer and the data
/// comes out; while others are missing too, it only counts.
pub proof fn law_last_missing_chunk_completes(
    transfers: Seq<TransferData>,
    at: int,
    whole: TransferData,
    data: Seq<u8>,
    index: int,
    now_ms: u64,
)
    requires
        payload::chunks_needed(data.len()) <= u32::MAX,
        0 <= index < payload::chunks_needed(data.len()),
        transfer_position(swept(transfers, now_ms), whole.transfer_id) == Some(at),
        0 <= at < swept(transfers, now_ms).len(),
        holds_pieces_of(swept(transfers, now_ms)[at], whole, data),
    ensures
        (forall|k: u32|
            k < payload::chunks_needed(data.len()) && k != index ==> #[trigger] swept(
                transfers,
                now_ms,
            )[at].received.dom().contains(k)) ==> accepted(
            transfers,
            chunk_of(whole, data, index),
            now_ms,
        ).1 == AcceptedData::Complete(
            content_of(whole.transfer_id, whole.kind, whole.file_name, whole.mime_type, data),
        ),
        !(forall|k: u32|
            k < payload::chunks_needed(data.len()) && k != index ==> #[trigger] swept(
                transfers,
                now_ms,
            )[at].received.dom().contains(k)) ==> accepted(
            transfers,
            chunk_of(whole, data, index),
            now_ms,
        ).1 is Progress,
{
    let transfer = swept(transfers, now_ms)[at];
    let chunk = chunk_of(whole, data, index);
    let next = transfer.with_chunk(chunk, now_ms);
    law_chunks_build_up(transfer, whole, data, index, now_ms);
    law_complete_transfer_carries_the_data(next, whole, data);
    if forall|k: u32|
        k < payload::chunks_needed(data.len()) && k != index
            ==> #[trigger] transfer.received.dom().contains(k) {
        assert forall|k: u32|
            k < payload::chunks_needed(data.len()) implies #[trigger] next.received.dom().contains(
            k,
        ) by {
            if k != index {
                assert(transfer.received.dom().contains(k));
            }
        }
    } else {
        let k = choose|k: u32|
            k < payload::chunks_needed(data.len()) && k != index
                && !(#[trigger] transfer.received.dom().contains(k));
        assert(!next.received.dom().contains(k));
    }
}

/// A transfer of one chunk is complete the moment the chunk arrives.
pub proof fn law_single_chunk_completes_at_once(
    transfers: Seq<TransferData>,
    whole: TransferData,
    data: Seq<u8>,
    now_ms: u64,
)
    requires
        data.len() <= payload::CHUNK_SIZE,
        transfer_position(swept(transfers, now_ms), whole.transfer_id) is None,
    ensures
        accepted(transfers, chunk_of(whole, data, 0), now_ms).1 == AcceptedData::Complete(
            content_of(whole.transfer_id, whole.kind, whole.file_name, whole.mime_type, data),
        ),
        accepted(transfers, chunk_of(whole, data, 0), now_ms).0 == swept(transfers, now_ms),
{
    let chunk = chunk_of(whole, data, 0);
    let live = swept(transfers, now_ms);
    let opened = TransferData::opened_by(chunk, now_ms);
    let base = live.push(opened);
    assert(payload::chunks_needed(data.len()) == 1);
    assert(holds_pieces_of(opened, whole, data));
    law_chunks_build_up(opened, whole, data, 0, now_ms);
    let next = opened.with_chunk(chunk, now_ms);
    law_complete_transfer_carries_the_data(next, whole, data);
    assert(next.received.dom().contains(0u32));
    assert(base.remove(live.len() as int) =~= live);
}

// ---------------------------------------------------------------------------------------------
// A whole transfer
// ---------------------------------------------------------------------------------------------

/// The transfers after chunks have been taken in one after the other, each at its time.
pub open spec fn fed(transfers: Seq<TransferData>, stream: Seq<(ChunkData, u64)>) -> Seq<TransferData>
    decreases stream.len(),
{
    if stream.len() == 0 {
        transfers
    } else {
        accepted(fed(transfers, stream.drop_last()), stream.last().0, stream.last().1).0
    }
}

/// When a transfer was last heard of in a stream of chunks; `None` where it was not.
pub open spec fn last_heard(stream: Seq<(ChunkData, u64)>, id: [u8; 16]) -> Option<u64>
    decreases stream.len(),
{
    if stream.len() == 0 {
        None
    } else if stream.last().0.transfer_id == id {
        Some(stream.last().1)
    } else {
        last_heard(stream.drop_last(), id)
    }
}

/// The indices below `count` of the chunks of a transfer that a stream holds.
pub open spec fn arrived(stream: Seq<(ChunkData, u64)>, id: [u8; 16], count: nat) -> Set<u32>
    decreases stream.len(),
{
    if stream.len() == 0 {
        Set::empty()
    } else {
        let before = arrived(stream.drop_last(), id, count);
        let chunk = stream.last().0;
        if chunk.transfer_id == id && chunk.chunk_index < count {
            before.insert(chunk.chunk_index)
        } else {
            before
        }
    }
}

/// Every chunk of the transfer is in the stream.
pub open spec fn all_arrived(stream: Seq<(ChunkData, u64)>, id: [u8; 16], count: nat) -> bool {
    forall|k: u32| k < count ==> #[trigger] arrived(stream, id, count).contains(k)
}

/// A chunk is one of the transfer of `data` that `whole` describes, or a stray one that describes
/// itself the same but has an index the transfer does not have.
pub open spec fn belongs(chunk: ChunkData, whole: TransferData, data: Seq<u8>) -> bool {
    &&& chunk.transfer_id == whole.transfer_id
    &&& chunk.chunk_count == payload::chunks_needed(data.len())
    &&& chunk.kind == whole.kind
    &&& chunk.file_name == whole.file_name
    &&& chunk.mime_type == whole.mime_type
    &&& chunk.chunk_index < payload::chunks_needed(data.len()) ==> chunk.data == payload::piece(
        data,
        chunk.chunk_index as int,
    )
}

/// A stream carries a transfer: every chunk in it with the id of the transfer belongs to it, the
/// transfer is never silent for too long, and never too many are in flight. Chunks of other
/// transfers may stand between.
pub open spec fn carries(
    transfers: Seq<TransferData>,
    stream: Seq<(ChunkData, u64)>,
    whole: TransferData,
    data: Seq<u8>,
) -> bool {
    &&& forall|j: int|
        0 <= j < stream.len() && (#[trigger] stream[j]).0.transfer_id == whole.transfer_id
            ==> belongs(stream[j].0, whole, data)
    &&& forall|j: int|
        #![trigger stream[j]]
        0 <= j < stream.len() ==> {
            &&& last_heard(stream.take(j), whole.transfer_id) matches Some(heard) ==> stream[j].1
                - heard < TRANSFER_TIMEOUT_MS
            &&& live_at(fed(transfers, stream.take(j)), stream[j].1).len()
                <= MAX_IN_FLIGHT_TRANSFERS
        }
}

/// The transfer with an id stands at a position, and none before it has that id.
spec fn stands(transfers: Seq<TransferData>, id: [u8; 16], at: int) -> bool {
    &&& 0 <= at < transfers.len()
    &&& transfers[at].transfer_id == id
    &&& forall|j: int| 0 <= j < at ==> (#[trigger] transfers[j]).transfer_id != id
}

proof fn lemma_stands(transfers: Seq<TransferData>, id: [u8; 16])
    ensures
        forall|at: int| #[trigger]
            stands(transfers, id, at) ==> transfer_position(transfers, id) == Some(at),
        transfer_position(transfers, id) matches Some(at) ==> stands(transfers, id, at),
        transfer_position(transfers, id) is None <==> (forall|j: int|
            0 <= j < transfers.len() ==> (#[trigger] transfers[j]).transfer_id != id),
{
    let ids = transfers.map_values(|t: TransferData| t.transfer_id);
    ids.index_of_first_ensures(id);
    assert forall|j: int| 0 <= j < transfers.len() implies ids[j] == (
    #[trigger] transfers[j]).transfer_id by {}
    assert forall|at: int| #[trigger] stands(transfers, id, at) implies transfer_position(
        transfers,
        id,
    ) == Some(at) by {
        assert(ids[at] == id);
        assert(ids.contains(id));
        let first = ids.index_of_first(id)->0;
        assert(ids[first] == id);
        if first < at {
            assert(transfers[first].transfer_id != id);
        }
        if at < first {
            assert(ids[at] != id);
        }
    }
    if ids.index_of_first(id) is None {
        assert forall|j: int| 0 <= j < transfers.len() implies (
        #[trigger] transfers[j]).transfer_id != id by {
            assert(ids[j] == transfers[j].transfer_id);
        }
    } else {
        let first = ids.index_of_first(id)->0;
        assert(ids[first] == id);
        assert(transfers[first].transfer_id == id);
        assert forall|j: int| 0 <= j < first implies (#[trigger] transfers[j]).transfer_id
            != id by {
            assert(ids[j] != id);
        }
    }
}

/// The transfer with an id; `None` where there is none.
pub open spec fn held(transfers: Seq<TransferData>, id: [u8; 16]) -> Option<TransferData> {
    match transfer_position(transfers, id) {
        Some(at) => Some(transfers[at]),
        None => None,
    }
}

/// A live transfer stays when silent ones go.
proof fn lemma_live_stays(transfers: Seq<TransferData>, id: [u8; 16], now_ms: u64)
    requires
        held(transfers, id) matches Some(t) ==> t.live(now_ms),
    ensures
        held(live_at(transfers, now_ms), id) == held(transfers, id),
    decreases transfers.len(),
{
    let keeps = |t: TransferData| t.live(now_ms);
    reveal(Seq::filter);
    lemma_stands(transfers, id);
    lemma_stands(live_at(transfers, now_ms), id);
    if transfers.len() > 0 {
        let head = transfers.drop_last();
        let last = transfers.last();
        lemma_stands(head, id);
        let kept = live_at(head, now_ms);
        lemma_stands(kept, id);
        if held(transfers, id) is Some {
            let at = transfer_position(transfers, id)->0;
            if at < head.len() {
                assert forall|j: int| 0 <= j < at implies (#[trigger] head[j]).transfer_id != id by {
                    assert(transfers[j].transfer_id != id);
                }
                assert(stands(head, id, at));
                lemma_live_stays(head, id, now_ms);
                let k = transfer_position(kept, id)->0;
                let now_kept = live_at(transfers, now_ms);
                assert(now_kept == if keeps(last) {
                    kept.push(last)
                } else {
                    kept
                });
                assert forall|j: int| 0 <= j < k implies (#[trigger] now_kept[j]).transfer_id
                    != id by {
                    assert(kept[j].transfer_id != id);
                }
                assert(stands(now_kept, id, k));
            } else {
                assert forall|j: int| 0 <= j < head.len() implies (#[trigger] head[j]).transfer_id
                    != id by {
                    assert(transfers[j].transfer_id != id);
                }
                assert(held(head, id) is None);
                lemma_live_stays(head, id, now_ms);
                let now_kept = live_at(transfers, now_ms);
                assert(now_kept == kept.push(last));
                assert forall|j: int| 0 <= j < kept.len() implies (
                #[trigger] now_kept[j]).transfer_id != id by {
                    assert(kept[j].transfer_id != id);
                }
                assert(stands(now_kept, id, kept.len() as int));
            }
        } else {
            assert forall|j: int| 0 <= j < head.len() implies (#[trigger] head[j]).transfer_id
                != id by {
                assert(transfers[j].transfer_id != id);
            }
            assert(held(head, id) is None);
            lemma_live_stays(head, id, now_ms);
            assert(transfers[transfers.len() - 1].transfer_id != id);
            let now_kept = live_at(transfers, now_ms);
            assert(now_kept == if keeps(last) {
                kept.push(last)
            } else {
                kept
            });
            assert forall|j: int| 0 <= j < now_kept.len() implies (
            #[trigger] now_kept[j]).transfer_id != id by {
                if j < kept.len() {
                    assert(kept[j].transfer_id != id);
                }
            }
        }
    }
}

/// A chunk of another transfer leaves a live transfer alone.
proof fn lemma_others_leave_alone(
    transfers: Seq<TransferData>,
    chunk: ChunkData,
    id: [u8; 16],
    now_ms: u64,
)
    requires
        chunk.transfer_id != id,
        held(transfers, id) matches Some(t) ==> t.live(now_ms),
        live_at(transfers, now_ms).len() <= MAX_IN_FLIGHT_TRANSFERS,
    ensures
        held(accepted(transfers, chunk, now_ms).0, id) == held(transfers, id),
{
    let live = swept(transfers, now_ms);
    lemma_live_stays(transfers, id, now_ms);
    lemma_stands(live, id);
    lemma_stands(live, chunk.transfer_id);
    let (at, base) = match transfer_position(live, chunk.transfer_id) {
        Some(at) => (at, live),
        None => (live.len() as int, live.push(TransferData::opened_by(chunk, now_ms))),
    };
    assert(base[at].transfer_id == chunk.transfer_id);
    let after = accepted(transfers, chunk, now_ms).0;
    lemma_stands(after, id);
    let transfer = base[at].with_chunk(chunk, now_ms);
    if held(live, id) is Some {
        let k = transfer_position(live, id)->0;
        assert(k != at);
        let moved = if transfer.complete() && at < k {
            k - 1
        } else {
            k
        };
        assert(after[moved] == live[k]);
        assert forall|j: int| 0 <= j < moved implies (#[trigger] after[j]).transfer_id != id by {
            if transfer.complete() && j >= at {
                assert(live[j + 1].transfer_id != id);
            } else if j < live.len() {
                assert(live[j].transfer_id != id);
            }
        }
        assert(stands(after, id, moved));
    } else {
        assert forall|j: int| 0 <= j < after.len() implies (#[trigger] after[j]).transfer_id
            != id by {
            if transfer.complete() && j >= at {
                assert(after[j] == base[j + 1]);
                assert(live[j + 1].transfer_id != id);
            } else if j < live.len() {
                assert(live[j].transfer_id != id);
            }
        }
    }
}

/// What is held of a transfer while it is not complete: exactly the chunks that have arrived.
proof fn lemma_held_so_far(
    transfers: Seq<TransferData>,
    stream: Seq<(ChunkData, u64)>,
    whole: TransferData,
    data: Seq<u8>,
)
    requires
        payload::chunks_needed(data.len()) <= u32::MAX,
        transfer_position(transfers, whole.transfer_id) is None,
        carries(transfers, stream, whole, data),
        !all_arrived(stream, whole.transfer_id, payload::chunks_needed(data.len())),
    ensures
        match last_heard(stream, whole.transfer_id) {
            None => {
                &&& held(fed(transfers, stream), whole.transfer_id) is None
                &&& arrived(stream, whole.transfer_id, payload::chunks_needed(data.len()))
                    == Set::<u32>::empty()
            },
            Some(heard) => {
                let t = held(fed(transfers, stream), whole.transfer_id);
                &&& t is Some
                &&& holds_pieces_of(t->0, whole, data)
                &&& t->0.received.dom() == arrived(
                    stream,
                    whole.transfer_id,
                    payload::chunks_needed(data.len()),
                )
                &&& t->0.last_seen_ms == heard
            },
        },
    decreases stream.len(),
{
    let id = whole.transfer_id;
    let n = payload::chunks_needed(data.len());
    if stream.len() > 0 {
        let head = stream.drop_last();
        let (chunk, now_ms) = stream.last();
        lemma_carries_start(transfers, stream, whole, data);
        assert(!all_arrived(head, id, n)) by {
            let k = choose|k: u32| k < n && !(#[trigger] arrived(stream, id, n).contains(k));
            assert(!arrived(head, id, n).contains(k));
        }
        lemma_held_so_far(transfers, head, whole, data);
        let before = fed(transfers, head);
        assert(stream.take(stream.len() - 1) =~= head);
        assert(stream[stream.len() - 1] == stream.last());
        if chunk.transfer_id != id {
            lemma_others_leave_alone(before, chunk, id, now_ms);
        } else {
            lemma_own_chunk(before, chunk, now_ms, whole, data);
            let start = match held(before, id) {
                Some(t) => t,
                None => TransferData::opened_by(chunk, now_ms),
            };
            let next = start.with_chunk(chunk, now_ms);
            assert(next.received.dom() =~= arrived(stream, id, n));
            let k = choose|k: u32| k < n && !(#[trigger] arrived(stream, id, n).contains(k));
            assert(!next.received.dom().contains(k));
            assert(!next.complete());
        }
    }
}

/// The start of a stream that carries a transfer carries it.
proof fn lemma_carries_start(
    transfers: Seq<TransferData>,
    stream: Seq<(ChunkData, u64)>,
    whole: TransferData,
    data: Seq<u8>,
)
    requires
        stream.len() > 0,
        carries(transfers, stream, whole, data),
    ensures
        carries(transfers, stream.drop_last(), whole, data),
        stream.last().0.transfer_id == whole.transfer_id ==> belongs(stream.last().0, whole, data),
{
    let head = stream.drop_last();
    assert forall|j: int|
        0 <= j < head.len() && (#[trigger] head[j]).0.transfer_id == whole.transfer_id implies belongs(
        head[j].0,
        whole,
        data,
    ) by {
        assert(head[j] == stream[j]);
    }
    assert forall|j: int| #![trigger head[j]] 0 <= j < head.len() implies {
        &&& last_heard(head.take(j), whole.transfer_id) matches Some(heard) ==> head[j].1 - heard
            < TRANSFER_TIMEOUT_MS
        &&& live_at(fed(transfers, head.take(j)), head[j].1).len() <= MAX_IN_FLIGHT_TRANSFERS
    } by {
        assert(head[j] == stream[j]);
        assert(head.take(j) =~= stream.take(j));
    }
    assert(stream[stream.len() - 1] == stream.last());
}

/// What a chunk of the transfer itself does.
proof fn lemma_own_chunk(
    transfers: Seq<TransferData>,
    chunk: ChunkData,
    now_ms: u64,
    whole: TransferData,
    data: Seq<u8>,
)
    requires
        payload::chunks_needed(data.len()) <= u32::MAX,
        belongs(chunk, whole, data),
        held(transfers, whole.transfer_id) matches Some(t) ==> t.live(now_ms) && holds_pieces_of(
            t,
            whole,
            data,
        ),
        live_at(transfers, now_ms).len() <= MAX_IN_FLIGHT_TRANSFERS,
    ensures
        ({
            let start = match held(transfers, whole.transfer_id) {
                Some(t) => t,
                None => TransferData::opened_by(chunk, now_ms),
            };
            let next = start.with_chunk(chunk, now_ms);
            let (after, outcome) = accepted(transfers, chunk, now_ms);
            &&& holds_pieces_of(next, whole, data)
            &&& next.received.dom() == if chunk.chunk_index < payload::chunks_needed(data.len()) {
                start.received.dom().insert(chunk.chunk_index)
            } else {
                start.received.dom()
            }
            &&& next.complete() ==> outcome == AcceptedData::Complete(next.content())
            &&& !next.complete() ==> {
                &&& outcome == AcceptedData::Progress(next.progress())
                &&& held(after, whole.transfer_id) == Some(next)
            }
        }),
{
    let id = whole.transfer_id;
    let live = swept(transfers, now_ms);
    lemma_live_stays(transfers, id, now_ms);
    lemma_stands(live, id);
    let (at, base) = match transfer_position(live, id) {
        Some(at) => (at, live),
        None => (live.len() as int, live.push(TransferData::opened_by(chunk, now_ms))),
    };
    let start = base[at];
    let next = start.with_chunk(chunk, now_ms);
    assert(next.received.dom() =~= if chunk.chunk_index < payload::chunks_needed(data.len()) {
        start.received.dom().insert(chunk.chunk_index)
    } else {
        start.received.dom()
    });
    if !next.complete() {
        let after = base.update(at, next);
        lemma_stands(after, id);
        assert forall|j: int| 0 <= j < at implies (#[trigger] after[j]).transfer_id != id by {
            assert(live[j].transfer_id != id);
        }
        assert(stands(after, id, at));
    }
}

/// A transfer arrives. Its chunks may come in any order and more than once, with chunks of other
/// transfers and stray ones in between: the one that was still missing completes it, and the data
/// comes out as it was cut up; until then every chunk only counts.
pub proof fn law_transfer_arrives(
    transfers: Seq<TransferData>,
    stream: Seq<(ChunkData, u64)>,
    whole: TransferData,
    data: Seq<u8>,
)
    requires
        payload::chunks_needed(data.len()) <= u32::MAX,
        transfer_position(transfers, whole.transfer_id) is None,
        stream.len() > 0,
        stream.last().0.transfer_id == whole.transfer_id,
        carries(transfers, stream, whole, data),
        !all_arrived(
            stream.drop_last(),
            whole.transfer_id,
            payload::chunks_needed(data.len()),
        ),
    ensures
        ({
            let n = payload::chunks_needed(data.len());
            let outcome = accepted(
                fed(transfers, stream.drop_last()),
                stream.last().0,
                stream.last().1,
            ).1;
            if all_arrived(stream, whole.transfer_id, n) {
                outcome == AcceptedData::Complete(
                    content_of(
                        whole.transfer_id,
                        whole.kind,
                        whole.file_name,
                        whole.mime_type,
                        data,
                    ),
                )
            } else {
                outcome == AcceptedData::Progress(
                    TransferProgress {
                        transfer_id: whole.transfer_id,
                        kind: whole.kind,
                        done_chunks: arrived(stream, whole.transfer_id, n).len() as u32,
                        total_chunks: n as u32,
                    },
                )
            }
        }),
{
    let id = whole.transfer_id;
    let n = payload::chunks_needed(data.len());
    let head = stream.drop_last();
    let (chunk, now_ms) = stream.last();
    let before = fed(transfers, head);
    lemma_carries_start(transfers, stream, whole, data);
    lemma_held_so_far(transfers, head, whole, data);
    assert(stream.take(stream.len() - 1) =~= head);
    assert(stream[stream.len() - 1] == stream.last());
    lemma_own_chunk(before, chunk, now_ms, whole, data);
    let start = match held(before, id) {
        Some(t) => t,
        None => TransferData::opened_by(chunk, now_ms),
    };
    let next = start.with_chunk(chunk, now_ms);
    assert(next.received.dom() =~= arrived(stream, id, n));
    law_complete_transfer_carries_the_data(next, whole, data);
    if all_arrived(stream, id, n) {
        assert forall|k: u32| k < n implies #[trigger] next.received.dom().contains(k) by {
            assert(arrived(stream, id, n).contains(k));
        }
        assert(next.complete());
    } else {
        let k = choose|k: u32| k < n && !(#[trigger] arrived(stream, id, n).contains(k));
        assert(!next.received.dom().contains(k));
        assert(!next.complete());
    }
}

/// Unfinished transfers are kept for two minutes after they were last heard of, and longer ones
/// are given up. Only where more than sixty-four are in flight, the one that was silent for
/// longest goes too.
pub proof fn law_transfers_are_kept_for_two_minutes(transfers: Seq<TransferData>, now_ms: u64) -> (from: Seq<int>)
    ensures
        table::lists(
            from,
            transfers.len(),
            |i: int| now_ms - transfers[i].last_seen_ms < 120_000,
        ),
        from.len() <= 64 ==> {
            &&& swept(transfers, now_ms).len() == from.len()
            &&& forall|j: int|
                0 <= j < from.len() ==> (#[trigger] swept(transfers, now_ms)[j])
                    == transfers[from[j]]
        },
        from.len() > 64 ==> exists|gone: int|
            0 <= gone < from.len() && {
                &&& swept(transfers, now_ms).len() == from.len() - 1
                &&& forall|j: int|
                    0 <= j < from.len() ==> transfers[#[trigger] from[gone]].last_seen_ms
                        <= transfers[#[trigger] from[j]].last_seen_ms
                &&& forall|j: int|
                    0 <= j < gone ==> (#[trigger] swept(transfers, now_ms)[j])
                        == transfers[from[j]]
                &&& forall|j: int|
                    gone <= j < from.len() - 1 ==> (#[trigger] swept(transfers, now_ms)[j])
                        == transfers[from[j + 1]]
            },
{
    let keeps = |t: TransferData| t.live(now_ms);
    table::lemma_positions(transfers, keeps);
    let from = table::positions(transfers, keeps);
    let kept = |i: int| keeps(transfers[i]);
    let wanted = |i: int| now_ms - transfers[i].last_seen_ms < 120_000;
    assert forall|i: int| 0 <= i < transfers.len() && #[trigger] wanted(i) implies from.contains(
        i,
    ) by {
        assert(kept(i));
    }
    assert forall|j: int| 0 <= j < from.len() implies 0 <= (#[trigger] from[j]) < transfers.len()
        && wanted(from[j]) by {
        assert(kept(from[j]));
    }
    let live = live_at(transfers, now_ms);
    assert(live.len() == from.len());
    assert forall|j: int| 0 <= j < from.len() implies (#[trigger] live[j])
        == transfers[from[j]] by {
        assert(transfers.filter(keeps)[j] == transfers[from[j]]);
    }
    if from.len() > 64 {
        let times = live.map_values(|t: TransferData| t.last_seen_ms as int);
        table::lemma_first_lowest(times);
        let gone = most_silent(live);
        let left = swept(transfers, now_ms);
        assert(left == live.remove(gone));
        assert forall|j: int| 0 <= j < from.len() implies transfers[#[trigger] from[gone]].last_seen_ms
            <= transfers[#[trigger] from[j]].last_seen_ms by {
            assert(times[gone] <= times[j]);
            assert(live[j] == transfers[from[j]] && live[gone] == transfers[from[gone]]);
        }
        assert forall|j: int| 0 <= j < gone implies (#[trigger] left[j]) == transfers[from[j]] by {
            assert(left[j] == live[j]);
        }
        assert forall|j: int| gone <= j < from.len() - 1 implies (#[trigger] left[j])
            == transfers[from[j + 1]] by {
            assert(left[j] == live[j + 1]);
        }
    }
    from
}

/// What a transfer carries is what it was said to carry: text is text, and anything else is a file
/// of that kind with the bytes as they are, under the name and MIME type that came with it or,
/// without them, the usual ones.
pub proof fn law_content_is_what_was_sent(
    transfer_id: [u8; 16],
    kind: ContentKind,
    file_name: Option<Seq<char>>,
    mime_type: Option<Seq<char>>,
    data: Seq<u8>,
    text: Seq<char>,
)
    ensures
        content_of(transfer_id, ContentKind::Text, file_name, mime_type, encode_utf8(text))
            == ContentData::Text(text),
        kind != ContentKind::Text ==> content_of(transfer_id, kind, file_name, mime_type, data)
            == (ContentData::File {
            transfer_id,
            name: if file_name is Some {
                file_name->0
            } else {
                "file"@
            },
            mime: if mime_type is Some {
                mime_type->0
            } else {
                "application/octet-stream"@
            },
            kind,
            data,
        }),
{
    law_text_survives(text);
}

/// A transfer that is not in flight has no position.
pub proof fn lemma_not_there(transfers: Seq<TransferData>, id: [u8; 16])
    requires
        forall|i: int| 0 <= i < transfers.len() ==> (#[trigger] transfers[i]).transfer_id != id,
    ensures
        transfer_position(transfers, id) is None,
{
    lemma_stands(transfers, id);
}

/// Giving transfers up brings none in.
pub proof fn lemma_not_swept_in(transfers: Seq<TransferData>, now_ms: u64, id: [u8; 16])
    requires
        forall|i: int| 0 <= i < transfers.len() ==> (#[trigger] transfers[i]).transfer_id != id,
    ensures
        transfer_position(swept(transfers, now_ms), id) is None,
{
    let keeps = |t: TransferData| t.live(now_ms);
    table::lemma_positions(transfers, keeps);
    let from = table::positions(transfers, keeps);
    let live = live_at(transfers, now_ms);
    let left = swept(transfers, now_ms);
    assert forall|j: int| 0 <= j < live.len() implies (#[trigger] live[j]).transfer_id != id by {
        assert(live[j] == transfers[from[j]]);
    }
    if live.len() > MAX_IN_FLIGHT_TRANSFERS {
        table::lemma_first_lowest(live.map_values(|t: TransferData| t.last_seen_ms as int));
        let gone = most_silent(live);
        assert forall|j: int| 0 <= j < left.len() implies (#[trigger] left[j]).transfer_id != id by {
            if j < gone {
                assert(left[j] == live[j]);
            } else {
                assert(left[j] == live[j + 1]);
            }
        }
    }
    lemma_not_there(left, id);
}

/// A chunk that is in a stream has arrived.
pub proof fn lemma_arrived(stream: Seq<(ChunkData, u64)>, id: [u8; 16], count: nat, i: int)
    requires
        0 <= i < stream.len(),
        stream[i].0.transfer_id == id,
        stream[i].0.chunk_index < count,
    ensures
        arrived(stream, id, count).contains(stream[i].0.chunk_index),
    decreases stream.len(),
{
    if i < stream.len() - 1 {
        assert(stream.drop_last()[i] == stream[i]);
        lemma_arrived(stream.drop_last(), id, count, i);
    }
}

} // verus!
