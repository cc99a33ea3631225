//! What messages carry: text or a file, cut into chunks small enough for one network packet.
//!
//! A short text is a transfer of one chunk, so there is one path for everything.

use vstd::prelude::*;
use vstd::string::*;

use crate::bytes;
use crate::call::{CallMessage, CallMessageData};
use crate::primitives;
use crate::session;

verus! {

/// What a transfer carries, which is how the receiver knows to show it.
#[derive(Clone, Copy, Debug, PartialEq, Eq, Structural)]
pub enum ContentKind {
    Text,
    Image,
    Video,
    Voice,
    File,
}

impl ContentKind {
    /// The number of this kind on the wire.
    pub open spec fn number(self) -> u32 {
        match self {
            ContentKind::Text => 0,
            ContentKind::Image => 1,
            ContentKind::Video => 2,
            ContentKind::Voice => 3,
            ContentKind::File => 4,
        }
    }

    /// The kind with a given number on the wire.
    pub open spec fn of_number(number: u32) -> Option<ContentKind> {
        match number {
            0 => Some(ContentKind::Text),
            1 => Some(ContentKind::Image),
            2 => Some(ContentKind::Video),
            3 => Some(ContentKind::Voice),
            4 => Some(ContentKind::File),
            _ => None,
        }
    }

    /// The number of this kind on the wire.
    pub fn to_number(self) -> (number: u32)
        ensures
            number == self.number(),
    {
        match self {
            ContentKind::Text => 0,
            ContentKind::Image => 1,
            ContentKind::Video => 2,
            ContentKind::Voice => 3,
            ContentKind::File => 4,
        }
    }

    /// The kind with a given number on the wire; an unknown number is refused.
    pub fn from_number(number: u32) -> (kind: Option<ContentKind>)
        ensures
            kind == Self::of_number(number),
    {
        match number {
            0 => Some(ContentKind::Text),
            1 => Some(ContentKind::Image),
            2 => Some(ContentKind::Video),
            3 => Some(ContentKind::Voice),
            4 => Some(ContentKind::File),
            _ => None,
        }
    }
}

/// One piece of a transfer. The metadata is repeated on every chunk.
#[derive(Debug)]
pub struct Chunk {
    pub transfer_id: [u8; 16],
    pub chunk_index: u32,
    pub chunk_count: u32,
    pub kind: ContentKind,
    /// Present for files.
    pub file_name: Option<String>,
    /// Present for files.
    pub mime_type: Option<String>,
    pub data: Vec<u8>,
}

/// What a chunk says.
pub struct ChunkData {
    pub transfer_id: [u8; 16],
    pub chunk_index: u32,
    pub chunk_count: u32,
    pub kind: ContentKind,
    pub file_name: Option<Seq<char>>,
    pub mime_type: Option<Seq<char>>,
    pub data: Seq<u8>,
}

impl View for Chunk {
    type V = ChunkData;

    open spec fn view(&self) -> ChunkData {
        ChunkData {
            transfer_id: self.transfer_id,
            chunk_index: self.chunk_index,
            chunk_count: self.chunk_count,
            kind: self.kind,
            file_name: session::text_of(self.file_name),
            mime_type: session::text_of(self.mime_type),
            data: self.data@,
        }
    }
}

impl Clone for Chunk {
    fn clone(&self) -> (copy: Self)
        ensures
            copy@ == self@,
    {
        Chunk {
            transfer_id: self.transfer_id,
            chunk_index: self.chunk_index,
            chunk_count: self.chunk_count,
            kind: self.kind,
            file_name: session::clone_text(&self.file_name),
            mime_type: session::clone_text(&self.mime_type),
            data: bytes::to_vec(self.data.as_slice()),
        }
    }
}

/// Reassembled content.
#[derive(Debug)]
pub enum ReceivedContent {
    Text(String),
    File { transfer_id: [u8; 16], name: String, mime: String, kind: ContentKind, data: Vec<u8> },
}

/// What content says.
pub enum ContentData {
    Text(Seq<char>),
    File {
        transfer_id: [u8; 16],
        name: Seq<char>,
        mime: Seq<char>,
        kind: ContentKind,
        data: Seq<u8>,
    },
}

impl View for ReceivedContent {
    type V = ContentData;

    open spec fn view(&self) -> ContentData {
        match self {
            ReceivedContent::Text(text) => ContentData::Text(text@),
            ReceivedContent::File { transfer_id, name, mime, kind, data } => ContentData::File {
                transfer_id: *transfer_id,
                name: name@,
                mime: mime@,
                kind: *kind,
                data: data@,
            },
        }
    }
}

impl Clone for ReceivedContent {
    fn clone(&self) -> (copy: Self)
        ensures
            copy@ == self@,
    {
        match self {
            ReceivedContent::Text(text) => ReceivedContent::Text(text.clone()),
            ReceivedContent::File { transfer_id, name, mime, kind, data } => ReceivedContent::File {
                transfer_id: *transfer_id,
                name: name.clone(),
                mime: mime.clone(),
                kind: *kind,
                data: bytes::to_vec(data.as_slice()),
            },
        }
    }
}

/// How far a transfer has come.
#[derive(Clone, Copy, Debug)]
pub struct TransferProgress {
    pub transfer_id: [u8; 16],
    pub kind: ContentKind,
    pub done_chunks: u32,
    pub total_chunks: u32,
}

/// Confirmation that the recipient has durably accepted a message.
#[derive(Clone, Copy, Debug)]
pub struct DeliveryAck {
    pub acked_message_id: [u8; 16],
}

/// What an envelope's ciphertext decrypts to.
#[derive(Debug)]
pub enum WirePayload {
    Chunk(Chunk),
    Call(CallMessage),
    DeliveryAck(DeliveryAck),
}

/// What a payload says.
pub enum PayloadData {
    Chunk(ChunkData),
    Call(CallMessageData),
    DeliveryAck(DeliveryAck),
}

impl View for WirePayload {
    type V = PayloadData;

    open spec fn view(&self) -> PayloadData {
        match self {
            WirePayload::Chunk(chunk) => PayloadData::Chunk(chunk@),
            WirePayload::Call(message) => PayloadData::Call(message@),
            WirePayload::DeliveryAck(ack) => PayloadData::DeliveryAck(*ack),
        }
    }
}

// ---------------------------------------------------------------------------------------------
// Cutting data into chunks
// ---------------------------------------------------------------------------------------------

/// Data bytes in a chunk: few enough for a chunk to fit one network packet.
pub const CHUNK_SIZE: usize = 1024;

/// How many chunks `len` bytes are cut into. Nothing at all is one empty chunk.
pub open spec fn chunks_needed(len: nat) -> nat {
    if len == 0 {
        1
    } else {
        (len + CHUNK_SIZE - 1) as nat / CHUNK_SIZE as nat
    }
}

/// The bytes of the chunk with the given index.
pub open spec fn piece(data: Seq<u8>, index: int) -> Seq<u8> {
    let start = index * CHUNK_SIZE;
    let end = if start + CHUNK_SIZE < data.len() {
        start + CHUNK_SIZE
    } else {
        data.len() as int
    };
    data.subrange(start, end)
}

/// The chunks of a transfer.
pub open spec fn chunks_of(
    transfer_id: [u8; 16],
    kind: ContentKind,
    file_name: Option<Seq<char>>,
    mime_type: Option<Seq<char>>,
    data: Seq<u8>,
) -> Seq<ChunkData> {
    Seq::new(
        chunks_needed(data.len()),
        |i: int|
            ChunkData {
                transfer_id,
                chunk_index: i as u32,
                chunk_count: chunks_needed(data.len()) as u32,
                kind,
                file_name,
                mime_type,
                data: piece(data, i),
            },
    )
}

/// The views of chunks.
pub open spec fn chunk_views(chunks: Seq<Chunk>) -> Seq<ChunkData> {
    chunks.map_values(|c: Chunk| c@)
}

/// Cuts `data` into the chunks of the transfer `transfer_id`.
pub fn split_with_id(
    transfer_id: [u8; 16],
    kind: ContentKind,
    file_name: Option<String>,
    mime_type: Option<String>,
    data: &[u8],
) -> (chunks: Vec<Chunk>)
    ensures
        chunk_views(chunks@) == chunks_of(
            transfer_id,
            kind,
            session::text_of(file_name),
            session::text_of(mime_type),
            data@,
        ),
{
    let len: usize = data.len();
    let count: usize = if len == 0 {
        1
    } else {
        (len - 1) / CHUNK_SIZE + 1
    };
    assert(count == chunks_needed(data@.len()));
    let ghost wanted = chunks_of(
        transfer_id,
        kind,
        session::text_of(file_name),
        session::text_of(mime_type),
        data@,
    );
    let mut chunks: Vec<Chunk> = Vec::new();
    let mut i: usize = 0;
    let mut start: usize = 0;
    while i < count
        invariant
            i <= count,
            len == data@.len(),
            count == chunks_needed(data@.len()),
            i < count ==> start == i * CHUNK_SIZE && start <= len,
            wanted == chunks_of(
                transfer_id,
                kind,
                session::text_of(file_name),
                session::text_of(mime_type),
                data@,
            ),
            chunks@.len() == i,
            forall|j: int| 0 <= j < i ==> (#[trigger] chunks@[j])@ == wanted[j],
        decreases count - i,
    {
        let end: usize = if len - start > CHUNK_SIZE {
            start + CHUNK_SIZE
        } else {
            len
        };
        let part = bytes::subslice(data, start, end);
        assert(part@ == piece(data@, i as int));
        let chunk = Chunk {
            transfer_id,
            chunk_index: i as u32,
            chunk_count: count as u32,
            kind,
            file_name: session::clone_text(&file_name),
            mime_type: session::clone_text(&mime_type),
            data: part,
        };
        assert(chunk@ == wanted[i as int]);
        chunks.push(chunk);
        start = end;
        i += 1;
    }
    assert(chunk_views(chunks@) =~= wanted);
    chunks
}

/// Cuts `data` into the chunks of a transfer with a fresh random id.
pub fn split_into_chunks(
    kind: ContentKind,
    file_name: Option<String>,
    mime_type: Option<String>,
    data: &[u8],
) -> (chunks: Vec<Chunk>)
    ensures
        chunks@.len() >= 1,
        chunk_views(chunks@) == chunks_of(
            chunks@[0].transfer_id,
            kind,
            session::text_of(file_name),
            session::text_of(mime_type),
            data@,
        ),
{
    let transfer_id: [u8; 16] = primitives::random_bytes();
    let chunks = split_with_id(transfer_id, kind, file_name, mime_type, data);
    assert(chunk_views(chunks@).len() >= 1);
    assert(chunks@[0]@ == chunk_views(chunks@)[0]);
    chunks
}

/// The first `count` pieces, joined.
pub open spec fn joined_pieces(data: Seq<u8>, count: nat) -> Seq<u8>
    decreases count,
{
    if count == 0 {
        Seq::empty()
    } else {
        joined_pieces(data, (count - 1) as nat) + piece(data, count - 1)
    }
}

/// Joining all pieces in order gives the data back.
pub proof fn law_pieces_join_to_the_data(data: Seq<u8>)
    ensures
        joined_pieces(data, chunks_needed(data.len())) == data,
{
    let n = chunks_needed(data.len());
    if data.len() == 0 {
        reveal_with_fuel(joined_pieces, 2);
        assert(joined_pieces(data, n) =~= data);
    } else {
        assert((n - 1) * CHUNK_SIZE < data.len() <= n * CHUNK_SIZE);
        lemma_joined_prefix(data, (n - 1) as nat);
        assert(joined_pieces(data, n) =~= data);
    }
}

proof fn lemma_joined_prefix(data: Seq<u8>, count: nat)
    requires
        count * CHUNK_SIZE <= data.len(),
    ensures
        joined_pieces(data, count) == data.take((count * CHUNK_SIZE) as int),
    decreases count,
{
    if count == 0 {
        assert(data.take(0) =~= Seq::empty());
    } else {
        lemma_joined_prefix(data, (count - 1) as nat);
        assert(joined_pieces(data, count) =~= data.take((count * CHUNK_SIZE) as int));
    }
}

/// Nothing is lost in cutting: a transfer has as many chunks as it takes, each of at most a
/// kilobyte, numbered from nought, each with what the transfer is about, and every byte of the
/// data stands in the chunk and at the place that its position says.
pub proof fn law_chunks_hold_everything(
    transfer_id: [u8; 16],
    kind: ContentKind,
    file_name: Option<Seq<char>>,
    mime_type: Option<Seq<char>>,
    data: Seq<u8>,
)
    requires
        data.len() <= 1_024 * u32::MAX,
    ensures
        ({
            let chunks = chunks_of(transfer_id, kind, file_name, mime_type, data);
            &&& chunks.len() >= 1
            &&& (chunks.len() - 1) * 1_024 <= data.len() <= chunks.len() * 1_024
            &&& data.len() > 0 ==> (chunks.len() - 1) * 1_024 < data.len()
            &&& data.len() == 0 ==> chunks.len() == 1
            &&& forall|i: int|
                0 <= i < chunks.len() ==> {
                    &&& (#[trigger] chunks[i]).transfer_id == transfer_id
                    &&& chunks[i].chunk_index == i
                    &&& chunks[i].chunk_count == chunks.len()
                    &&& chunks[i].kind == kind
                    &&& chunks[i].file_name == file_name
                    &&& chunks[i].mime_type == mime_type
                    &&& chunks[i].data.len() <= 1_024
                    &&& i < chunks.len() - 1 ==> chunks[i].data.len() == 1_024
                    &&& i == chunks.len() - 1 ==> i * 1_024 + chunks[i].data.len() == data.len()
                    &&& forall|k: int|
                        0 <= k < chunks[i].data.len() ==> (#[trigger] chunks[i].data[k]) == data[i
                            * 1_024 + k]
                }
        }),
{
    let n = chunks_needed(data.len());
    assert((n - 1) * CHUNK_SIZE <= data.len() <= n * CHUNK_SIZE);
    assert(n <= u32::MAX);
}

} // verus!
