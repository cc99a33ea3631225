//! The binary encodings of what nodes exchange and store.
//!
//! The crate's own types are taken apart into plain records and put together again. An enum is the
//! number of its variant, followed by the fields of the variant; numbers no variant has are
//! refused.

use vstd::prelude::*;
use vstd::string::*;
use vstd::utf8::*;

use crate::bytes;
use crate::call::{CallFrame, CallFrameData, CallMessage, CallMessageData, CallSignal, MediaKind};
use crate::codec;
use crate::codec::{BodyFields, ChunkFields, EnvelopeFields, EnvelopeValues, FileFields, FrameFields, TextFields};
use crate::direct_crypto::{
    DirectCiphertext, DirectCiphertextData, DirectCryptoHeaderData, DirectCryptoHeaderV1,
    DirectEnvelopeBody, DirectEnvelopeBodyData,
};
use crate::message::{EncryptionMode, Envelope, EnvelopeData, MessageType};
use crate::payload::{Chunk, ChunkData, ContentData, ContentKind, DeliveryAck, PayloadData, ReceivedContent, WirePayload};
use crate::session;

verus! {

// ---------------------------------------------------------------------------------------------
// Envelopes
// ---------------------------------------------------------------------------------------------

/// The field values of an envelope.
pub open spec fn envelope_parts(e: EnvelopeData) -> EnvelopeValues {
    (
        e.protocol_version,
        e.message_id,
        e.sender,
        e.recipient,
        e.message_type.tag() as u32,
        e.encryption_mode.tag() as u32,
        e.created_at,
        e.expires_at,
        e.max_hops,
        e.hops_used,
        e.nonce,
        e.ciphertext,
        e.signature,
    )
}

/// The bytes of an envelope.
pub open spec fn envelope_bytes(e: EnvelopeData) -> Seq<u8> {
    codec::envelope_encoded(envelope_parts(e))
}

/// The envelope some bytes hold; an unknown message type or encryption mode is no envelope.
pub open spec fn envelope_in(encoded: Seq<u8>) -> Option<EnvelopeData> {
    match codec::envelope_decoded(encoded) {
        Some(v) => match (MessageType::of_number(v.4), EncryptionMode::of_number(v.5)) {
            (Some(message_type), Some(encryption_mode)) => Some(
                EnvelopeData {
                    protocol_version: v.0,
                    message_id: v.1,
                    sender: v.2,
                    recipient: v.3,
                    message_type,
                    encryption_mode,
                    created_at: v.6,
                    expires_at: v.7,
                    max_hops: v.8,
                    hops_used: v.9,
                    nonce: v.10,
                    ciphertext: v.11,
                    signature: v.12,
                },
            ),
            _ => None,
        },
        None => None,
    }
}

/// Encodes an envelope. Decoding gives it back.
pub fn encode_envelope(envelope: &Envelope) -> (encoded: Vec<u8>)
    ensures
        encoded@ == envelope_bytes(envelope@),
        envelope_in(encoded@) == Some(envelope@),
        encoded@.len() == codec::envelope_len(envelope_parts(envelope@)),
{
    let fields: EnvelopeFields = (
        envelope.protocol_version,
        envelope.message_id,
        envelope.sender,
        envelope.recipient,
        envelope.message_type.discriminant() as u32,
        envelope.encryption_mode.discriminant() as u32,
        envelope.created_at,
        envelope.expires_at,
        envelope.max_hops,
        envelope.hops_used,
        envelope.nonce,
        bytes::to_vec(envelope.ciphertext.as_slice()),
        bytes::to_vec(envelope.signature.as_slice()),
    );
    codec::encode_envelope_fields(&fields)
}

/// Decodes an envelope.
pub fn decode_envelope(encoded: &[u8]) -> (envelope: Option<Envelope>)
    ensures
        envelope is Some <==> envelope_in(encoded@) is Some,
        envelope matches Some(e) ==> envelope_in(encoded@) == Some(e@),
{
    let f: EnvelopeFields = match codec::decode_envelope_fields(encoded) {
        Some(f) => f,
        None => {
            return None;
        },
    };
    let message_type = match MessageType::from_number(f.4) {
        Some(message_type) => message_type,
        None => {
            return None;
        },
    };
    let encryption_mode = match EncryptionMode::from_number(f.5) {
        Some(encryption_mode) => encryption_mode,
        None => {
            return None;
        },
    };
    Some(
        Envelope {
            protocol_version: f.0,
            message_id: f.1,
            sender: f.2,
            recipient: f.3,
            message_type,
            encryption_mode,
            created_at: f.6,
            expires_at: f.7,
            max_hops: f.8,
            hops_used: f.9,
            nonce: f.10,
            ciphertext: f.11,
            signature: f.12,
        },
    )
}

// ---------------------------------------------------------------------------------------------
// Bodies of direct envelopes
// ---------------------------------------------------------------------------------------------

/// The body some bytes hold.
pub open spec fn body_in(encoded: Seq<u8>) -> Option<DirectEnvelopeBodyData> {
    match codec::body_decoded(encoded) {
        Some(v) => Some(
            DirectEnvelopeBodyData {
                header: DirectCryptoHeaderData {
                    sender_x25519_public: v.0.0@,
                    sender_x25519_signature: v.0.1,
                },
                message: DirectCiphertextData {
                    nonce: v.1.0@,
                    ciphertext: v.1.1,
                    signature: v.1.2,
                },
            },
        ),
        None => None,
    }
}

/// The bytes of a body, given its fixed-width fields as arrays.
pub open spec fn body_bytes(body: DirectEnvelopeBody) -> Seq<u8> {
    codec::body_encoded(
        (
            (body.header.sender_x25519_public, body.header.sender_x25519_signature@),
            (body.message.nonce, body.message.ciphertext@, body.message.signature@),
        ),
    )
}

/// Encodes a body. Decoding gives it back.
pub fn encode_body(body: &DirectEnvelopeBody) -> (encoded: Vec<u8>)
    ensures
        encoded@ == body_bytes(*body),
        body_in(encoded@) == Some(body@),
        encoded@.len() == 80 + body@.header.sender_x25519_signature.len()
            + body@.message.ciphertext.len() + body@.message.signature.len(),
{
    let fields: BodyFields = (
        (
            body.header.sender_x25519_public,
            bytes::to_vec(body.header.sender_x25519_signature.as_slice()),
        ),
        (
            body.message.nonce,
            bytes::to_vec(body.message.ciphertext.as_slice()),
            bytes::to_vec(body.message.signature.as_slice()),
        ),
    );
    codec::encode_body_fields(&fields)
}

/// Decodes a body.
pub fn decode_body(encoded: &[u8]) -> (body: Option<DirectEnvelopeBody>)
    ensures
        body is Some <==> body_in(encoded@) is Some,
        body matches Some(b) ==> body_in(encoded@) == Some(b@),
{
    match codec::decode_body_fields(encoded) {
        Some(f) => Some(
            DirectEnvelopeBody {
                header: DirectCryptoHeaderV1 {
                    sender_x25519_public: f.0.0,
                    sender_x25519_signature: f.0.1,
                },
                message: DirectCiphertext { nonce: f.1.0, ciphertext: f.1.1, signature: f.1.2 },
            },
        ),
        None => None,
    }
}

// ---------------------------------------------------------------------------------------------
// Payloads
// ---------------------------------------------------------------------------------------------

/// The number of a signal among the signals.
pub open spec fn signal_number(signal: CallSignal) -> u32 {
    match signal {
        CallSignal::Invite { call_id, video } => 0,
        CallSignal::Accept { call_id } => 1,
        CallSignal::Reject { call_id } => 2,
        CallSignal::End { call_id } => 3,
    }
}

/// The bytes of a payload.
pub open spec fn payload_bytes(payload: PayloadData) -> Seq<u8> {
    match payload {
        PayloadData::Chunk(c) => codec::chunk_encoded(
            (
                0,
                c.transfer_id,
                c.chunk_index,
                c.chunk_count,
                c.kind.number(),
                c.file_name,
                c.mime_type,
                c.data,
            ),
        ),
        PayloadData::Call(CallMessageData::Signal(signal)) => match signal {
            CallSignal::Invite { call_id, video } => codec::invite_encoded((1, 0, 0, call_id, video)),
            _ => codec::signal_encoded((1, 0, signal_number(signal), signal.call())),
        },
        PayloadData::Call(CallMessageData::Frame(f)) => codec::frame_encoded(
            (1, 1, f.call_id, f.media.number(), f.sequence, f.data),
        ),
        PayloadData::DeliveryAck(ack) => codec::ack_encoded((2, ack.acked_message_id)),
    }
}

/// How long the encoding of a payload is.
pub open spec fn payload_len(payload: PayloadData) -> int {
    match payload {
        PayloadData::Chunk(c) => 40 + codec::optional_text_len(c.file_name) + codec::optional_text_len(
            c.mime_type,
        ) + c.data.len(),
        PayloadData::Call(CallMessageData::Signal(signal)) => if signal is Invite {
            29
        } else {
            28
        },
        PayloadData::Call(CallMessageData::Frame(f)) => 40 + f.data.len() as int,
        PayloadData::DeliveryAck(ack) => 20,
    }
}

/// The chunk some bytes hold.
pub open spec fn chunk_in(encoded: Seq<u8>) -> Option<ChunkData> {
    match codec::chunk_decoded(encoded) {
        Some(v) => match ContentKind::of_number(v.4) {
            Some(kind) => Some(
                ChunkData {
                    transfer_id: v.1,
                    chunk_index: v.2,
                    chunk_count: v.3,
                    kind,
                    file_name: v.5,
                    mime_type: v.6,
                    data: v.7,
                },
            ),
            None => None,
        },
        None => None,
    }
}

/// The call signal some bytes hold.
pub open spec fn signal_in(encoded: Seq<u8>) -> Option<CallSignal> {
    match codec::signal_decoded(encoded) {
        Some(v) => match v.2 {
            0 => match codec::invite_decoded(encoded) {
                Some(i) => Some(CallSignal::Invite { call_id: i.3, video: i.4 }),
                None => None,
            },
            1 => Some(CallSignal::Accept { call_id: v.3 }),
            2 => Some(CallSignal::Reject { call_id: v.3 }),
            3 => Some(CallSignal::End { call_id: v.3 }),
            _ => None,
        },
        None => None,
    }
}

/// The call frame some bytes hold.
pub open spec fn frame_in(encoded: Seq<u8>) -> Option<CallFrameData> {
    match codec::frame_decoded(encoded) {
        Some(v) => match MediaKind::of_number(v.3) {
            Some(media) => Some(
                CallFrameData { call_id: v.2, media, sequence: v.4, data: v.5 },
            ),
            None => None,
        },
        None => None,
    }
}

/// The call message some bytes hold.
pub open spec fn call_in(encoded: Seq<u8>) -> Option<CallMessageData> {
    match codec::tag_pair_decoded(encoded) {
        Some(tags) => match tags.1 {
            0 => match signal_in(encoded) {
                Some(signal) => Some(CallMessageData::Signal(signal)),
                None => None,
            },
            1 => match frame_in(encoded) {
                Some(frame) => Some(CallMessageData::Frame(frame)),
                None => None,
            },
            _ => None,
        },
        None => None,
    }
}

/// The payload some bytes hold.
pub open spec fn payload_in(encoded: Seq<u8>) -> Option<PayloadData> {
    match codec::tag_decoded(encoded) {
        Some(0) => match chunk_in(encoded) {
            Some(chunk) => Some(PayloadData::Chunk(chunk)),
            None => None,
        },
        Some(1) => match call_in(encoded) {
            Some(message) => Some(PayloadData::Call(message)),
            None => None,
        },
        Some(2) => match codec::ack_decoded(encoded) {
            Some(v) => Some(PayloadData::DeliveryAck(DeliveryAck { acked_message_id: v.1 })),
            None => None,
        },
        _ => None,
    }
}

/// Encodes a payload. Decoding gives it back.
pub fn encode_payload(payload: &WirePayload) -> (encoded: Vec<u8>)
    ensures
        encoded@ == payload_bytes(payload@),
        payload_in(encoded@) == Some(payload@),
        encoded@.len() == payload_len(payload@),
{
    match payload {
        WirePayload::Chunk(c) => {
            let fields: ChunkFields = (
                0,
                c.transfer_id,
                c.chunk_index,
                c.chunk_count,
                c.kind.to_number(),
                session::clone_text(&c.file_name),
                session::clone_text(&c.mime_type),
                bytes::to_vec(c.data.as_slice()),
            );
            codec::encode_chunk_fields(&fields)
        },
        WirePayload::Call(CallMessage::Signal(signal)) => match signal {
            CallSignal::Invite { call_id, video } => codec::encode_invite_fields(
                &(1, 0, 0, *call_id, *video),
            ),
            CallSignal::Accept { call_id } => codec::encode_signal_fields(&(1, 0, 1, *call_id)),
            CallSignal::Reject { call_id } => codec::encode_signal_fields(&(1, 0, 2, *call_id)),
            CallSignal::End { call_id } => codec::encode_signal_fields(&(1, 0, 3, *call_id)),
        },
        WirePayload::Call(CallMessage::Frame(f)) => {
            let fields: FrameFields = (
                1,
                1,
                f.call_id,
                f.media.to_number(),
                f.sequence,
                bytes::to_vec(f.data.as_slice()),
            );
            codec::encode_frame_fields(&fields)
        },
        WirePayload::DeliveryAck(ack) => codec::encode_ack_fields(&(2, ack.acked_message_id)),
    }
}

fn decode_chunk(encoded: &[u8]) -> (chunk: Option<Chunk>)
    ensures
        chunk is Some <==> chunk_in(encoded@) is Some,
        chunk matches Some(c) ==> chunk_in(encoded@) == Some(c@),
{
    match codec::decode_chunk_fields(encoded) {
        Some(f) => match ContentKind::from_number(f.4) {
            Some(kind) => Some(
                Chunk {
                    transfer_id: f.1,
                    chunk_index: f.2,
                    chunk_count: f.3,
                    kind,
                    file_name: f.5,
                    mime_type: f.6,
                    data: f.7,
                },
            ),
            None => None,
        },
        None => None,
    }
}

fn decode_signal(encoded: &[u8]) -> (signal: Option<CallSignal>)
    ensures
        signal == signal_in(encoded@),
{
    match codec::decode_signal_fields(encoded) {
        Some(f) => match f.2 {
            0 => match codec::decode_invite_fields(encoded) {
                Some(i) => Some(CallSignal::Invite { call_id: i.3, video: i.4 }),
                None => None,
            },
            1 => Some(CallSignal::Accept { call_id: f.3 }),
            2 => Some(CallSignal::Reject { call_id: f.3 }),
            3 => Some(CallSignal::End { call_id: f.3 }),
            _ => None,
        },
        None => None,
    }
}

fn decode_frame(encoded: &[u8]) -> (frame: Option<CallFrame>)
    ensures
        frame is Some <==> frame_in(encoded@) is Some,
        frame matches Some(f) ==> frame_in(encoded@) == Some(f@),
{
    match codec::decode_frame_fields(encoded) {
        Some(f) => match MediaKind::from_number(f.3) {
            Some(media) => Some(
                CallFrame { call_id: f.2, media, sequence: f.4, data: f.5 },
            ),
            None => None,
        },
        None => None,
    }
}

fn decode_call(encoded: &[u8]) -> (message: Option<CallMessage>)
    ensures
        message is Some <==> call_in(encoded@) is Some,
        message matches Some(m) ==> call_in(encoded@) == Some(m@),
{
    match codec::decode_tag_pair(encoded) {
        Some(tags) => match tags.1 {
            0 => match decode_signal(encoded) {
                Some(signal) => Some(CallMessage::Signal(signal)),
                None => None,
            },
            1 => match decode_frame(encoded) {
                Some(frame) => Some(CallMessage::Frame(frame)),
                None => None,
            },
            _ => None,
        },
        None => None,
    }
}

/// Decodes a payload.
pub fn decode_payload(encoded: &[u8]) -> (payload: Option<WirePayload>)
    ensures
        payload is Some <==> payload_in(encoded@) is Some,
        payload matches Some(p) ==> payload_in(encoded@) == Some(p@),
{
    match codec::decode_tag(encoded) {
        Some(0) => match decode_chunk(encoded) {
            Some(chunk) => Some(WirePayload::Chunk(chunk)),
            None => None,
        },
        Some(1) => match decode_call(encoded) {
            Some(message) => Some(WirePayload::Call(message)),
            None => None,
        },
        Some(2) => match codec::decode_ack_fields(encoded) {
            Some(f) => Some(WirePayload::DeliveryAck(DeliveryAck { acked_message_id: f.1 })),
            None => None,
        },
        _ => None,
    }
}

// ---------------------------------------------------------------------------------------------
// Stored content
// ---------------------------------------------------------------------------------------------

/// The bytes of stored content.
pub open spec fn content_bytes(content: ContentData) -> Seq<u8> {
    match content {
        ContentData::Text(text) => codec::text_encoded((0, text)),
        ContentData::File { transfer_id, name, mime, kind, data } => codec::file_encoded(
            (1, transfer_id, name, mime, kind.number(), data),
        ),
    }
}

/// How long the encoding of stored content is.
pub open spec fn content_len(content: ContentData) -> int {
    match content {
        ContentData::Text(text) => 12 + encode_utf8(text).len() as int,
        ContentData::File { transfer_id, name, mime, kind, data } => 48 + encode_utf8(name).len()
            + encode_utf8(mime).len() + data.len() as int,
    }
}

/// The content some bytes hold.
pub open spec fn content_in(encoded: Seq<u8>) -> Option<ContentData> {
    match codec::tag_decoded(encoded) {
        Some(0) => match codec::text_decoded(encoded) {
            Some(v) => Some(ContentData::Text(v.1)),
            None => None,
        },
        Some(1) => match codec::file_decoded(encoded) {
            Some(v) => match ContentKind::of_number(v.4) {
                Some(kind) => Some(
                    ContentData::File {
                        transfer_id: v.1,
                        name: v.2,
                        mime: v.3,
                        kind,
                        data: v.5,
                    },
                ),
                None => None,
            },
            None => None,
        },
        _ => None,
    }
}

/// Encodes content for storage. Decoding gives it back.
pub fn encode_content(content: &ReceivedContent) -> (encoded: Vec<u8>)
    ensures
        encoded@ == content_bytes(content@),
        content_in(encoded@) == Some(content@),
        encoded@.len() == content_len(content@),
{
    match content {
        ReceivedContent::Text(text) => {
            let fields: TextFields = (0, text.clone());
            codec::encode_text_fields(&fields)
        },
        ReceivedContent::File { transfer_id, name, mime, kind, data } => {
            let fields: FileFields = (
                1,
                *transfer_id,
                name.clone(),
                mime.clone(),
                kind.to_number(),
                bytes::to_vec(data.as_slice()),
            );
            codec::encode_file_fields(&fields)
        },
    }
}

/// Decodes stored content.
pub fn decode_content(encoded: &[u8]) -> (content: Option<ReceivedContent>)
    ensures
        content is Some <==> content_in(encoded@) is Some,
        content matches Some(c) ==> content_in(encoded@) == Some(c@),
{
    match codec::decode_tag(encoded) {
        Some(0) => match codec::decode_text_fields(encoded) {
            Some(f) => Some(ReceivedContent::Text(f.1)),
            None => None,
        },
        Some(1) => match codec::decode_file_fields(encoded) {
            Some(f) => match ContentKind::from_number(f.4) {
                Some(kind) => Some(
                    ReceivedContent::File {
                        transfer_id: f.1,
                        name: f.2,
                        mime: f.3,
                        kind,
                        data: f.5,
                    },
                ),
                None => None,
            },
            None => None,
        },
        _ => None,
    }
}

// ---------------------------------------------------------------------------------------------
// Laws
// ---------------------------------------------------------------------------------------------

/// An envelope that was read, with another hop count, is written so that it reads back, and takes
/// no more room than the packet it was read from.
pub proof fn law_copy_reads_back(packet: Seq<u8>, e: EnvelopeData, hops: u8)
    requires
        envelope_in(packet) == Some(e),
        packet.len() <= u64::MAX,
    ensures
        ({
            let copy = EnvelopeData { hops_used: hops, ..e };
            &&& envelope_in(envelope_bytes(copy)) == Some(copy)
            &&& envelope_bytes(copy).len() <= packet.len()
        }),
{
    let v = codec::envelope_decoded(packet)->0;
    let copy = EnvelopeData { hops_used: hops, ..e };
    let w = envelope_parts(copy);
    assert(codec::envelope_encoded(v).is_prefix_of(packet));
    codec::lemma_envelope_len(v);
    codec::lemma_envelope_len(w);
    codec::lemma_envelope_written(w, envelope_bytes(copy));
}

/// What a field is written as is what it is read as: types, modes and kinds each have a number of
/// their own.
pub proof fn law_numbers_read_back(
    message_type: MessageType,
    mode: EncryptionMode,
    kind: ContentKind,
    media: MediaKind,
)
    ensures
        MessageType::of_number(message_type.tag() as u32) == Some(message_type),
        EncryptionMode::of_number(mode.tag() as u32) == Some(mode),
        ContentKind::of_number(kind.number()) == Some(kind),
        MediaKind::of_number(media.number()) == Some(media),
{
}

} // verus!
