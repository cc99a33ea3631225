//! Plain records and their bytes.
//!
//! The layout is bincode's: the fields of a record in order, with fixed widths and lengths in
//! front. The functions with an external body call bincode on tuples of plain values and say which
//! bytes that gives. Decoding gives the values whose bytes start the packet, and bytes behind them
//! are allowed; that there is at most one such set of values is proved here.

use vstd::prelude::*;
use vstd::utf8::*;

use crate::bytes;
use crate::layout;
use crate::session;

verus! {

// ---------------------------------------------------------------------------------------------
// Variant numbers
// ---------------------------------------------------------------------------------------------

/// The variant number at the start of an encoding; `None` where there are fewer than four bytes.
pub open spec fn tag_decoded(encoded: Seq<u8>) -> Option<u32> {
    if encoded.len() < 4 {
        None
    } else {
        Some(layout::le32_value(encoded))
    }
}

/// The two variant numbers at the start of an encoding; `None` where there are fewer than eight
/// bytes.
pub open spec fn tag_pair_decoded(encoded: Seq<u8>) -> Option<(u32, u32)> {
    if encoded.len() < 8 {
        None
    } else {
        Some((layout::le32_value(encoded), layout::le32_value(encoded.skip(4))))
    }
}

/// Calls `bincode::deserialize` for a `u32`: four bytes, least significant first. Bytes that
/// follow them are allowed.
#[verifier::external_body]
pub(crate) fn decode_tag(encoded: &[u8]) -> (tag: Option<u32>)
    ensures
        tag == tag_decoded(encoded@),
{
    bincode::deserialize(encoded).ok()
}

/// Calls `bincode::deserialize` for two `u32`s, each in four bytes, least significant first.
/// Bytes that follow them are allowed.
#[verifier::external_body]
pub(crate) fn decode_tag_pair(encoded: &[u8]) -> (tags: Option<(u32, u32)>)
    ensures
        tags == tag_pair_decoded(encoded@),
{
    bincode::deserialize(encoded).ok()
}

/// A record that starts with variant numbers is read as starting with them.
proof fn lemma_tags(fields: Seq<Seq<u8>>, first: u32, second: u32)
    requires
        fields.len() >= 1,
        fields[0] == layout::le32(first),
    ensures
        tag_decoded(layout::joined(fields)) == Some(first),
        fields.len() >= 2 && fields[1] == layout::le32(second) ==> tag_pair_decoded(
            layout::joined(fields),
        ) == Some((first, second)),
{
    reveal_with_fuel(layout::fields_from, 3);
    let whole = layout::joined(fields);
    let rest = layout::fields_from(fields, 1);
    assert(layout::le32(first) =~= whole.subrange(0, 4));
    layout::lemma_le32_value(first, whole);
    if fields.len() >= 2 && fields[1] == layout::le32(second) {
        assert(whole.skip(4) =~= rest);
        assert(layout::le32(second) =~= rest.subrange(0, 4));
        layout::lemma_le32_value(second, rest);
    }
}

// ---------------------------------------------------------------------------------------------
// Envelopes
// ---------------------------------------------------------------------------------------------

/// The fields of an envelope as bincode sees them.
pub type EnvelopeFields = (
    u8,
    [u8; 16],
    [u8; 32],
    Option<[u8; 32]>,
    u32,
    u32,
    u64,
    u64,
    u8,
    u8,
    [u8; 24],
    Vec<u8>,
    Vec<u8>,
);

/// The values of those fields.
pub type EnvelopeValues = (
    u8,
    [u8; 16],
    [u8; 32],
    Option<[u8; 32]>,
    u32,
    u32,
    u64,
    u64,
    u8,
    u8,
    [u8; 24],
    Seq<u8>,
    Seq<u8>,
);

/// The values of the fields of an envelope.
pub open spec fn envelope_values(f: EnvelopeFields) -> EnvelopeValues {
    (f.0, f.1, f.2, f.3, f.4, f.5, f.6, f.7, f.8, f.9, f.10, f.11@, f.12@)
}

/// The fields of an envelope as bytes.
pub open spec fn envelope_layout(v: EnvelopeValues) -> Seq<Seq<u8>> {
    seq![
        seq![v.0],
        v.1@,
        v.2@,
        layout::optional_id(v.3),
        layout::le32(v.4),
        layout::le32(v.5),
        bytes::le64(v.6),
        bytes::le64(v.7),
        seq![v.8],
        seq![v.9],
        v.10@,
        layout::blob(v.11),
        layout::blob(v.12),
    ]
}

/// The encoding of an envelope's fields.
pub open spec fn envelope_encoded(values: EnvelopeValues) -> Seq<u8> {
    layout::joined(envelope_layout(values))
}

/// The envelope fields that start an encoding.
pub open spec fn envelope_decoded(encoded: Seq<u8>) -> Option<EnvelopeValues> {
    if exists|v: EnvelopeValues| (#[trigger] envelope_encoded(v)).is_prefix_of(encoded) {
        Some(choose|v: EnvelopeValues| (#[trigger] envelope_encoded(v)).is_prefix_of(encoded))
    } else {
        None
    }
}

/// How long the encoding of an envelope's fields is: fixed widths, a presence byte before the
/// recipient, and an eight-byte length before each byte string.
pub open spec fn envelope_len(values: EnvelopeValues) -> int {
    let recipient: int = if values.3 is Some {
        33
    } else {
        1
    };
    115 + recipient + values.11.len() + values.12.len()
}

/// Calls `bincode::serialize`: the fields one after the other, in the layout above.
#[verifier::external_body]
fn serialize_envelope(fields: &EnvelopeFields) -> (encoded: Vec<u8>)
    ensures
        encoded@ == envelope_encoded(envelope_values(*fields)),
{
    bincode::serialize(fields).expect("plain values always have an encoding")
}

/// Calls `bincode::deserialize`: the fields whose bytes start the encoding, with any bytes
/// behind them; `None` where it starts with the bytes of no fields.
#[verifier::external_body]
fn deserialize_envelope(encoded: &[u8]) -> (fields: Option<EnvelopeFields>)
    ensures
        match fields {
            Some(f) => envelope_encoded(envelope_values(f)).is_prefix_of(encoded@),
            None => forall|v: EnvelopeValues| !(#[trigger] envelope_encoded(v)).is_prefix_of(encoded@),
        },
{
    bincode::deserialize(encoded).ok()
}

/// The envelope whose bytes start a packet is the one that is read from it.
proof fn lemma_envelope_read(v: EnvelopeValues, packet: Seq<u8>)
    requires
        envelope_encoded(v).is_prefix_of(packet),
        packet.len() <= u64::MAX,
    ensures
        envelope_decoded(packet) == Some(v),
{
    let w = envelope_decoded(packet)->0;
    let p = envelope_layout(v);
    let q = envelope_layout(w);
    layout::lemma_fixed(p[0], q[0]);
    layout::lemma_fixed(p[1], q[1]);
    layout::lemma_fixed(p[2], q[2]);
    layout::lemma_optional_id(v.3, w.3);
    layout::lemma_fixed(p[4], q[4]);
    layout::lemma_fixed(p[5], q[5]);
    layout::lemma_fixed(p[6], q[6]);
    layout::lemma_fixed(p[7], q[7]);
    layout::lemma_fixed(p[8], q[8]);
    layout::lemma_fixed(p[9], q[9]);
    layout::lemma_fixed(p[10], q[10]);
    layout::lemma_field_len(p, 11);
    layout::lemma_field_len(q, 11);
    layout::lemma_blob(v.11, w.11);
    layout::lemma_field_len(p, 12);
    layout::lemma_field_len(q, 12);
    layout::lemma_blob(v.12, w.12);
    assert forall|i: int| 0 <= i < p.len() implies layout::apart(#[trigger] p[i], q[i]) by {
        assert(i == 0 || i == 1 || i == 2 || i == 3 || i == 4 || i == 5 || i == 6 || i == 7
            || i == 8 || i == 9 || i == 10 || i == 11 || i == 12);
    }
    layout::lemma_same_fields(p, q, packet);
    assert(p[0] == q[0]);
    assert(p[0][0] == q[0][0]);
    assert(p[1] == q[1]);
    bytes::lemma_array_ext(v.1, w.1);
    assert(p[2] == q[2]);
    bytes::lemma_array_ext(v.2, w.2);
    assert(p[3] == q[3]);
    assert(p[4] == q[4]);
    layout::lemma_le32(v.4, w.4);
    assert(p[5] == q[5]);
    layout::lemma_le32(v.5, w.5);
    assert(p[6] == q[6]);
    bytes::lemma_64_injective(v.6, w.6);
    assert(p[7] == q[7]);
    bytes::lemma_64_injective(v.7, w.7);
    assert(p[8] == q[8]);
    assert(p[8][0] == q[8][0]);
    assert(p[9] == q[9]);
    assert(p[9][0] == q[9][0]);
    assert(p[10] == q[10]);
    bytes::lemma_array_ext(v.10, w.10);
    assert(p[11] == q[11]);
    assert(p[12] == q[12]);
}

/// How long the bytes of an envelope are.
pub proof fn lemma_envelope_len(v: EnvelopeValues)
    ensures
        envelope_encoded(v).len() == envelope_len(v),
{
    let fields = envelope_layout(v);
    layout::lemma_len_from(fields, 0);
    layout::lemma_len_from(fields, 1);
    layout::lemma_len_from(fields, 2);
    layout::lemma_len_from(fields, 3);
    layout::lemma_len_from(fields, 4);
    layout::lemma_len_from(fields, 5);
    layout::lemma_len_from(fields, 6);
    layout::lemma_len_from(fields, 7);
    layout::lemma_len_from(fields, 8);
    layout::lemma_len_from(fields, 9);
    layout::lemma_len_from(fields, 10);
    layout::lemma_len_from(fields, 11);
    layout::lemma_len_from(fields, 12);
    layout::lemma_len_from(fields, 13);
}

/// The bytes of an envelope are read as the envelope.
pub proof fn lemma_envelope_written(v: EnvelopeValues, packet: Seq<u8>)
    requires
        packet == envelope_encoded(v),
        packet.len() <= u64::MAX,
    ensures
        envelope_decoded(packet) == Some(v),
        packet.len() == envelope_len(v),
{
    lemma_envelope_len(v);
    assert(packet =~= packet.subrange(0, packet.len() as int));
    lemma_envelope_read(v, packet);
}

/// Encodes the fields of an envelope. Decoding gives them back.
pub(crate) fn encode_envelope_fields(fields: &EnvelopeFields) -> (encoded: Vec<u8>)
    ensures
        encoded@ == envelope_encoded(envelope_values(*fields)),
        envelope_decoded(encoded@) == Some(envelope_values(*fields)),
        encoded@.len() == envelope_len(envelope_values(*fields)),
{
    let encoded = serialize_envelope(fields);
    proof {
        assert(encoded.len() <= usize::MAX);
        lemma_envelope_written(envelope_values(*fields), encoded@);
    }
    encoded
}

/// Decodes the fields of an envelope.
pub(crate) fn decode_envelope_fields(encoded: &[u8]) -> (fields: Option<EnvelopeFields>)
    ensures
        fields is Some <==> envelope_decoded(encoded@) is Some,
        fields matches Some(f) ==> envelope_decoded(encoded@) == Some(envelope_values(f)),
{
    let fields = deserialize_envelope(encoded);
    proof {
        assert(encoded.len() <= usize::MAX);
        if fields is Some {
            lemma_envelope_read(envelope_values(fields->0), encoded@);
        }
    }
    fields
}

// ---------------------------------------------------------------------------------------------
// Bodies of direct envelopes
// ---------------------------------------------------------------------------------------------

/// The fields of a direct envelope's body: header key and signature, then nonce, ciphertext and
/// signature of the message.
pub type BodyFields = (([u8; 32], Vec<u8>), ([u8; 24], Vec<u8>, Vec<u8>));

/// The values of those fields.
pub type BodyValues = (([u8; 32], Seq<u8>), ([u8; 24], Seq<u8>, Seq<u8>));

/// The values of the fields of a body.
pub open spec fn body_values(f: BodyFields) -> BodyValues {
    ((f.0.0, f.0.1@), (f.1.0, f.1.1@, f.1.2@))
}

/// The fields of a body as bytes.
pub open spec fn body_layout(v: BodyValues) -> Seq<Seq<u8>> {
    seq![
        v.0.0@,
        layout::blob(v.0.1),
        v.1.0@,
        layout::blob(v.1.1),
        layout::blob(v.1.2),
    ]
}

/// The encoding of a body's fields.
pub open spec fn body_encoded(values: BodyValues) -> Seq<u8> {
    layout::joined(body_layout(values))
}

/// The body fields that start an encoding.
pub open spec fn body_decoded(encoded: Seq<u8>) -> Option<BodyValues> {
    if exists|v: BodyValues| (#[trigger] body_encoded(v)).is_prefix_of(encoded) {
        Some(choose|v: BodyValues| (#[trigger] body_encoded(v)).is_prefix_of(encoded))
    } else {
        None
    }
}

/// Calls `bincode::serialize`: the fields one after the other, in the layout above.
#[verifier::external_body]
fn serialize_body(fields: &BodyFields) -> (encoded: Vec<u8>)
    ensures
        encoded@ == body_encoded(body_values(*fields)),
{
    bincode::serialize(fields).expect("plain values always have an encoding")
}

/// Calls `bincode::deserialize`: the fields whose bytes start the encoding, with any bytes
/// behind them; `None` where it starts with the bytes of no fields.
#[verifier::external_body]
fn deserialize_body(encoded: &[u8]) -> (fields: Option<BodyFields>)
    ensures
        match fields {
            Some(f) => body_encoded(body_values(f)).is_prefix_of(encoded@),
            None => forall|v: BodyValues| !(#[trigger] body_encoded(v)).is_prefix_of(encoded@),
        },
{
    bincode::deserialize(encoded).ok()
}

/// The body whose bytes start a packet is the one that is read from it.
proof fn lemma_body_read(v: BodyValues, packet: Seq<u8>)
    requires
        body_encoded(v).is_prefix_of(packet),
        packet.len() <= u64::MAX,
    ensures
        body_decoded(packet) == Some(v),
{
    let w = body_decoded(packet)->0;
    let p = body_layout(v);
    let q = body_layout(w);
    layout::lemma_fixed(p[0], q[0]);
    layout::lemma_field_len(p, 1);
    layout::lemma_field_len(q, 1);
    layout::lemma_blob(v.0.1, w.0.1);
    layout::lemma_fixed(p[2], q[2]);
    layout::lemma_field_len(p, 3);
    layout::lemma_field_len(q, 3);
    layout::lemma_blob(v.1.1, w.1.1);
    layout::lemma_field_len(p, 4);
    layout::lemma_field_len(q, 4);
    layout::lemma_blob(v.1.2, w.1.2);
    assert forall|i: int| 0 <= i < p.len() implies layout::apart(#[trigger] p[i], q[i]) by {
        assert(i == 0 || i == 1 || i == 2 || i == 3 || i == 4);
    }
    layout::lemma_same_fields(p, q, packet);
    assert(p[0] == q[0]);
    bytes::lemma_array_ext(v.0.0, w.0.0);
    assert(p[1] == q[1]);
    assert(p[2] == q[2]);
    bytes::lemma_array_ext(v.1.0, w.1.0);
    assert(p[3] == q[3]);
    assert(p[4] == q[4]);
}

/// The bytes of a body are read as the body.
proof fn lemma_body_written(v: BodyValues, packet: Seq<u8>)
    requires
        packet == body_encoded(v),
        packet.len() <= u64::MAX,
    ensures
        body_decoded(packet) == Some(v),
        packet.len() == 80 + v.0.1.len() + v.1.1.len() + v.1.2.len(),
{
    let fields = body_layout(v);
    layout::lemma_len_from(fields, 0);
    layout::lemma_len_from(fields, 1);
    layout::lemma_len_from(fields, 2);
    layout::lemma_len_from(fields, 3);
    layout::lemma_len_from(fields, 4);
    layout::lemma_len_from(fields, 5);
    assert(packet =~= packet.subrange(0, packet.len() as int));
    lemma_body_read(v, packet);
}

/// Encodes the fields of a body. Decoding gives them back.
pub(crate) fn encode_body_fields(fields: &BodyFields) -> (encoded: Vec<u8>)
    ensures
        encoded@ == body_encoded(body_values(*fields)),
        body_decoded(encoded@) == Some(body_values(*fields)),
        encoded@.len() == 80 + fields.0.1@.len() + fields.1.1@.len() + fields.1.2@.len(),
{
    let encoded = serialize_body(fields);
    proof {
        assert(encoded.len() <= usize::MAX);
        lemma_body_written(body_values(*fields), encoded@);
    }
    encoded
}

/// Decodes the fields of a body.
pub(crate) fn decode_body_fields(encoded: &[u8]) -> (fields: Option<BodyFields>)
    ensures
        fields is Some <==> body_decoded(encoded@) is Some,
        fields matches Some(f) ==> body_decoded(encoded@) == Some(body_values(f)),
{
    let fields = deserialize_body(encoded);
    proof {
        assert(encoded.len() <= usize::MAX);
        if fields is Some {
            lemma_body_read(body_values(fields->0), encoded@);
        }
    }
    fields
}

// ---------------------------------------------------------------------------------------------
// Chunks
// ---------------------------------------------------------------------------------------------

/// A chunk: variant number, transfer id, index, count, kind, file name, MIME type, data.
pub type ChunkFields = (
    u32,
    [u8; 16],
    u32,
    u32,
    u32,
    Option<String>,
    Option<String>,
    Vec<u8>,
);

/// The values of those fields.
pub type ChunkValues = (
    u32,
    [u8; 16],
    u32,
    u32,
    u32,
    Option<Seq<char>>,
    Option<Seq<char>>,
    Seq<u8>,
);

/// The values of the fields of a chunk.
pub open spec fn chunk_values(f: ChunkFields) -> ChunkValues {
    (f.0, f.1, f.2, f.3, f.4, session::text_of(f.5), session::text_of(f.6), f.7@)
}

/// The fields of a chunk as bytes.
pub open spec fn chunk_layout(v: ChunkValues) -> Seq<Seq<u8>> {
    seq![
        layout::le32(v.0),
        v.1@,
        layout::le32(v.2),
        layout::le32(v.3),
        layout::le32(v.4),
        layout::optional_text(v.5),
        layout::optional_text(v.6),
        layout::blob(v.7),
    ]
}

/// The encoding of a chunk's fields.
pub open spec fn chunk_encoded(values: ChunkValues) -> Seq<u8> {
    layout::joined(chunk_layout(values))
}

/// The chunk fields that start an encoding.
pub open spec fn chunk_decoded(encoded: Seq<u8>) -> Option<ChunkValues> {
    if exists|v: ChunkValues| (#[trigger] chunk_encoded(v)).is_prefix_of(encoded) {
        Some(choose|v: ChunkValues| (#[trigger] chunk_encoded(v)).is_prefix_of(encoded))
    } else {
        None
    }
}

/// How long the encoding of an optional text is: a presence byte, an eight-byte length, and the
/// text in UTF-8.
pub open spec fn optional_text_len(text: Option<Seq<char>>) -> int {
    match text {
        Some(t) => 9 + encode_utf8(t).len() as int,
        None => 1,
    }
}

/// How long the encoding of a chunk's fields is.
pub open spec fn chunk_len(values: ChunkValues) -> int {
    40 + optional_text_len(values.5) + optional_text_len(values.6) + values.7.len()
}

/// Calls `bincode::serialize`: the fields one after the other, in the layout above.
#[verifier::external_body]
fn serialize_chunk(fields: &ChunkFields) -> (encoded: Vec<u8>)
    ensures
        encoded@ == chunk_encoded(chunk_values(*fields)),
{
    bincode::serialize(fields).expect("plain values always have an encoding")
}

/// Calls `bincode::deserialize`: the fields whose bytes start the encoding, with any bytes
/// behind them; `None` where it starts with the bytes of no fields.
#[verifier::external_body]
fn deserialize_chunk(encoded: &[u8]) -> (fields: Option<ChunkFields>)
    ensures
        match fields {
            Some(f) => chunk_encoded(chunk_values(f)).is_prefix_of(encoded@),
            None => forall|v: ChunkValues| !(#[trigger] chunk_encoded(v)).is_prefix_of(encoded@),
        },
{
    bincode::deserialize(encoded).ok()
}

/// The chunk whose bytes start a packet is the one that is read from it.
proof fn lemma_chunk_read(v: ChunkValues, packet: Seq<u8>)
    requires
        chunk_encoded(v).is_prefix_of(packet),
        packet.len() <= u64::MAX,
    ensures
        chunk_decoded(packet) == Some(v),
{
    let w = chunk_decoded(packet)->0;
    let p = chunk_layout(v);
    let q = chunk_layout(w);
    layout::lemma_fixed(p[0], q[0]);
    layout::lemma_fixed(p[1], q[1]);
    layout::lemma_fixed(p[2], q[2]);
    layout::lemma_fixed(p[3], q[3]);
    layout::lemma_fixed(p[4], q[4]);
    layout::lemma_field_len(p, 5);
    layout::lemma_field_len(q, 5);
    layout::lemma_optional_text(v.5, w.5);
    layout::lemma_field_len(p, 6);
    layout::lemma_field_len(q, 6);
    layout::lemma_optional_text(v.6, w.6);
    layout::lemma_field_len(p, 7);
    layout::lemma_field_len(q, 7);
    layout::lemma_blob(v.7, w.7);
    assert forall|i: int| 0 <= i < p.len() implies layout::apart(#[trigger] p[i], q[i]) by {
        assert(i == 0 || i == 1 || i == 2 || i == 3 || i == 4 || i == 5 || i == 6 || i == 7);
    }
    layout::lemma_same_fields(p, q, packet);
    assert(p[0] == q[0]);
    layout::lemma_le32(v.0, w.0);
    assert(p[1] == q[1]);
    bytes::lemma_array_ext(v.1, w.1);
    assert(p[2] == q[2]);
    layout::lemma_le32(v.2, w.2);
    assert(p[3] == q[3]);
    layout::lemma_le32(v.3, w.3);
    assert(p[4] == q[4]);
    layout::lemma_le32(v.4, w.4);
    assert(p[5] == q[5]);
    assert(p[6] == q[6]);
    assert(p[7] == q[7]);
}

/// The bytes of a chunk are read as the chunk.
proof fn lemma_chunk_written(v: ChunkValues, packet: Seq<u8>)
    requires
        packet == chunk_encoded(v),
        packet.len() <= u64::MAX,
    ensures
        chunk_decoded(packet) == Some(v),
        tag_decoded(packet) == Some(v.0),
        packet.len() == chunk_len(v),
{
    let fields = chunk_layout(v);
    layout::lemma_len_from(fields, 0);
    layout::lemma_len_from(fields, 1);
    layout::lemma_len_from(fields, 2);
    layout::lemma_len_from(fields, 3);
    layout::lemma_len_from(fields, 4);
    layout::lemma_len_from(fields, 5);
    layout::lemma_len_from(fields, 6);
    layout::lemma_len_from(fields, 7);
    layout::lemma_len_from(fields, 8);
    assert(packet =~= packet.subrange(0, packet.len() as int));
    lemma_chunk_read(v, packet);
    lemma_tags(chunk_layout(v), v.0, 0);
}

/// Encodes the fields of a chunk. Decoding gives them back.
pub(crate) fn encode_chunk_fields(fields: &ChunkFields) -> (encoded: Vec<u8>)
    ensures
        encoded@ == chunk_encoded(chunk_values(*fields)),
        chunk_decoded(encoded@) == Some(chunk_values(*fields)),
        tag_decoded(encoded@) == Some(fields.0),
        encoded@.len() == chunk_len(chunk_values(*fields)),
{
    let encoded = serialize_chunk(fields);
    proof {
        assert(encoded.len() <= usize::MAX);
        lemma_chunk_written(chunk_values(*fields), encoded@);
    }
    encoded
}

/// Decodes the fields of a chunk.
pub(crate) fn decode_chunk_fields(encoded: &[u8]) -> (fields: Option<ChunkFields>)
    ensures
        fields is Some <==> chunk_decoded(encoded@) is Some,
        fields matches Some(f) ==> chunk_decoded(encoded@) == Some(chunk_values(f)),
{
    let fields = deserialize_chunk(encoded);
    proof {
        assert(encoded.len() <= usize::MAX);
        if fields is Some {
            lemma_chunk_read(chunk_values(fields->0), encoded@);
        }
    }
    fields
}

// ---------------------------------------------------------------------------------------------
// Call invitations
// ---------------------------------------------------------------------------------------------

/// A call invitation: three variant numbers, call id, whether with video.
pub type InviteFields = (u32, u32, u32, [u8; 16], bool);

/// The fields of an invitation as bytes.
pub open spec fn invite_layout(v: InviteFields) -> Seq<Seq<u8>> {
    seq![
        layout::le32(v.0),
        layout::le32(v.1),
        layout::le32(v.2),
        v.3@,
        layout::flag(v.4),
    ]
}

/// The encoding of an invitation's fields.
pub open spec fn invite_encoded(values: InviteFields) -> Seq<u8> {
    layout::joined(invite_layout(values))
}

/// The invitation fields that start an encoding.
pub open spec fn invite_decoded(encoded: Seq<u8>) -> Option<InviteFields> {
    if exists|v: InviteFields| (#[trigger] invite_encoded(v)).is_prefix_of(encoded) {
        Some(choose|v: InviteFields| (#[trigger] invite_encoded(v)).is_prefix_of(encoded))
    } else {
        None
    }
}

/// Calls `bincode::serialize`: the fields one after the other, in the layout above.
#[verifier::external_body]
fn serialize_invite(fields: &InviteFields) -> (encoded: Vec<u8>)
    ensures
        encoded@ == invite_encoded(*fields),
{
    bincode::serialize(fields).expect("plain values always have an encoding")
}

/// Calls `bincode::deserialize`: the fields whose bytes start the encoding, with any bytes
/// behind them; `None` where it starts with the bytes of no fields.
#[verifier::external_body]
fn deserialize_invite(encoded: &[u8]) -> (fields: Option<InviteFields>)
    ensures
        match fields {
            Some(f) => invite_encoded(f).is_prefix_of(encoded@),
            None => forall|v: InviteFields| !(#[trigger] invite_encoded(v)).is_prefix_of(encoded@),
        },
{
    bincode::deserialize(encoded).ok()
}

/// The invitation whose bytes start a packet is the one that is read from it.
proof fn lemma_invite_read(v: InviteFields, packet: Seq<u8>)
    requires
        invite_encoded(v).is_prefix_of(packet),
        packet.len() <= u64::MAX,
    ensures
        invite_decoded(packet) == Some(v),
{
    let w = invite_decoded(packet)->0;
    let p = invite_layout(v);
    let q = invite_layout(w);
    layout::lemma_fixed(p[0], q[0]);
    layout::lemma_fixed(p[1], q[1]);
    layout::lemma_fixed(p[2], q[2]);
    layout::lemma_fixed(p[3], q[3]);
    layout::lemma_fixed(p[4], q[4]);
    assert forall|i: int| 0 <= i < p.len() implies layout::apart(#[trigger] p[i], q[i]) by {
        assert(i == 0 || i == 1 || i == 2 || i == 3 || i == 4);
    }
    layout::lemma_same_fields(p, q, packet);
    assert(p[0] == q[0]);
    layout::lemma_le32(v.0, w.0);
    assert(p[1] == q[1]);
    layout::lemma_le32(v.1, w.1);
    assert(p[2] == q[2]);
    layout::lemma_le32(v.2, w.2);
    assert(p[3] == q[3]);
    bytes::lemma_array_ext(v.3, w.3);
    assert(p[4] == q[4]);
    assert(p[4][0] == q[4][0]);
}

/// The bytes of an invitation are read as the invitation.
proof fn lemma_invite_written(v: InviteFields, packet: Seq<u8>)
    requires
        packet == invite_encoded(v),
        packet.len() <= u64::MAX,
    ensures
        invite_decoded(packet) == Some(v),
        tag_decoded(packet) == Some(v.0),
        tag_pair_decoded(packet) == Some((v.0, v.1)),
        signal_decoded(packet) == Some((v.0, v.1, v.2, v.3)),
        packet.len() == 29,
{
    let fields = invite_layout(v);
    layout::lemma_len_from(fields, 0);
    layout::lemma_len_from(fields, 1);
    layout::lemma_len_from(fields, 2);
    layout::lemma_len_from(fields, 3);
    layout::lemma_len_from(fields, 4);
    layout::lemma_len_from(fields, 5);
    assert(packet =~= packet.subrange(0, packet.len() as int));
    lemma_invite_read(v, packet);
    lemma_tags(invite_layout(v), v.0, v.1);
    layout::lemma_first_fields(invite_layout(v), 4);
    assert(invite_layout(v).take(4) =~= signal_layout((v.0, v.1, v.2, v.3)));
    lemma_signal_read((v.0, v.1, v.2, v.3), packet);
}

/// Encodes the fields of an invitation. Decoding gives them back.
pub(crate) fn encode_invite_fields(fields: &InviteFields) -> (encoded: Vec<u8>)
    ensures
        encoded@ == invite_encoded(*fields),
        invite_decoded(encoded@) == Some(*fields),
        tag_decoded(encoded@) == Some(fields.0),
        tag_pair_decoded(encoded@) == Some((fields.0, fields.1)),
        signal_decoded(encoded@) == Some((fields.0, fields.1, fields.2, fields.3)),
        encoded@.len() == 29,
{
    let encoded = serialize_invite(fields);
    proof {
        assert(encoded.len() <= usize::MAX);
        lemma_invite_written(*fields, encoded@);
    }
    encoded
}

/// Decodes the fields of an invitation.
pub(crate) fn decode_invite_fields(encoded: &[u8]) -> (fields: Option<InviteFields>)
    ensures
        fields == invite_decoded(encoded@),
{
    let fields = deserialize_invite(encoded);
    proof {
        assert(encoded.len() <= usize::MAX);
        if fields is Some {
            lemma_invite_read(fields->0, encoded@);
        }
    }
    fields
}

// ---------------------------------------------------------------------------------------------
// Call signals
// ---------------------------------------------------------------------------------------------

/// What all call signals have in common: three variant numbers and the call id.
pub type SignalFields = (u32, u32, u32, [u8; 16]);

/// The fields of a signal as bytes.
pub open spec fn signal_layout(v: SignalFields) -> Seq<Seq<u8>> {
    seq![
        layout::le32(v.0),
        layout::le32(v.1),
        layout::le32(v.2),
        v.3@,
    ]
}

/// The encoding of a signal's fields.
pub open spec fn signal_encoded(values: SignalFields) -> Seq<u8> {
    layout::joined(signal_layout(values))
}

/// The signal fields that start an encoding.
pub open spec fn signal_decoded(encoded: Seq<u8>) -> Option<SignalFields> {
    if exists|v: SignalFields| (#[trigger] signal_encoded(v)).is_prefix_of(encoded) {
        Some(choose|v: SignalFields| (#[trigger] signal_encoded(v)).is_prefix_of(encoded))
    } else {
        None
    }
}

/// Calls `bincode::serialize`: the fields one after the other, in the layout above.
#[verifier::external_body]
fn serialize_signal(fields: &SignalFields) -> (encoded: Vec<u8>)
    ensures
        encoded@ == signal_encoded(*fields),
{
    bincode::serialize(fields).expect("plain values always have an encoding")
}

/// Calls `bincode::deserialize`: the fields whose bytes start the encoding, with any bytes
/// behind them; `None` where it starts with the bytes of no fields.
#[verifier::external_body]
fn deserialize_signal(encoded: &[u8]) -> (fields: Option<SignalFields>)
    ensures
        match fields {
            Some(f) => signal_encoded(f).is_prefix_of(encoded@),
            None => forall|v: SignalFields| !(#[trigger] signal_encoded(v)).is_prefix_of(encoded@),
        },
{
    bincode::deserialize(encoded).ok()
}

/// The signal whose bytes start a packet is the one that is read from it.
proof fn lemma_signal_read(v: SignalFields, packet: Seq<u8>)
    requires
        signal_encoded(v).is_prefix_of(packet),
        packet.len() <= u64::MAX,
    ensures
        signal_decoded(packet) == Some(v),
{
    let w = signal_decoded(packet)->0;
    let p = signal_layout(v);
    let q = signal_layout(w);
    layout::lemma_fixed(p[0], q[0]);
    layout::lemma_fixed(p[1], q[1]);
    layout::lemma_fixed(p[2], q[2]);
    layout::lemma_fixed(p[3], q[3]);
    assert forall|i: int| 0 <= i < p.len() implies layout::apart(#[trigger] p[i], q[i]) by {
        assert(i == 0 || i == 1 || i == 2 || i == 3);
    }
    layout::lemma_same_fields(p, q, packet);
    assert(p[0] == q[0]);
    layout::lemma_le32(v.0, w.0);
    assert(p[1] == q[1]);
    layout::lemma_le32(v.1, w.1);
    assert(p[2] == q[2]);
    layout::lemma_le32(v.2, w.2);
    assert(p[3] == q[3]);
    bytes::lemma_array_ext(v.3, w.3);
}

/// The bytes of a signal are read as the signal.
proof fn lemma_signal_written(v: SignalFields, packet: Seq<u8>)
    requires
        packet == signal_encoded(v),
        packet.len() <= u64::MAX,
    ensures
        signal_decoded(packet) == Some(v),
        tag_decoded(packet) == Some(v.0),
        tag_pair_decoded(packet) == Some((v.0, v.1)),
        packet.len() == 28,
{
    let fields = signal_layout(v);
    layout::lemma_len_from(fields, 0);
    layout::lemma_len_from(fields, 1);
    layout::lemma_len_from(fields, 2);
    layout::lemma_len_from(fields, 3);
    layout::lemma_len_from(fields, 4);
    assert(packet =~= packet.subrange(0, packet.len() as int));
    lemma_signal_read(v, packet);
    lemma_tags(signal_layout(v), v.0, v.1);
}

/// Encodes the fields of a signal. Decoding gives them back.
pub(crate) fn encode_signal_fields(fields: &SignalFields) -> (encoded: Vec<u8>)
    ensures
        encoded@ == signal_encoded(*fields),
        signal_decoded(encoded@) == Some(*fields),
        tag_decoded(encoded@) == Some(fields.0),
        tag_pair_decoded(encoded@) == Some((fields.0, fields.1)),
        encoded@.len() == 28,
{
    let encoded = serialize_signal(fields);
    proof {
        assert(encoded.len() <= usize::MAX);
        lemma_signal_written(*fields, encoded@);
    }
    encoded
}

/// Decodes the fields of a signal.
pub(crate) fn decode_signal_fields(encoded: &[u8]) -> (fields: Option<SignalFields>)
    ensures
        fields == signal_decoded(encoded@),
{
    let fields = deserialize_signal(encoded);
    proof {
        assert(encoded.len() <= usize::MAX);
        if fields is Some {
            lemma_signal_read(fields->0, encoded@);
        }
    }
    fields
}

// ---------------------------------------------------------------------------------------------
// Call frames
// ---------------------------------------------------------------------------------------------

/// A call frame: two variant numbers, call id, medium, sequence number, data.
pub type FrameFields = (u32, u32, [u8; 16], u32, u32, Vec<u8>);

/// The values of those fields.
pub type FrameValues = (u32, u32, [u8; 16], u32, u32, Seq<u8>);

/// The values of the fields of a frame.
pub open spec fn frame_values(f: FrameFields) -> FrameValues {
    (f.0, f.1, f.2, f.3, f.4, f.5@)
}

/// The fields of a frame as bytes.
pub open spec fn frame_layout(v: FrameValues) -> Seq<Seq<u8>> {
    seq![
        layout::le32(v.0),
        layout::le32(v.1),
        v.2@,
        layout::le32(v.3),
        layout::le32(v.4),
        layout::blob(v.5),
    ]
}

/// The encoding of a frame's fields.
pub open spec fn frame_encoded(values: FrameValues) -> Seq<u8> {
    layout::joined(frame_layout(values))
}

/// The frame fields that start an encoding.
pub open spec fn frame_decoded(encoded: Seq<u8>) -> Option<FrameValues> {
    if exists|v: FrameValues| (#[trigger] frame_encoded(v)).is_prefix_of(encoded) {
        Some(choose|v: FrameValues| (#[trigger] frame_encoded(v)).is_prefix_of(encoded))
    } else {
        None
    }
}

/// Calls `bincode::serialize`: the fields one after the other, in the layout above.
#[verifier::external_body]
fn serialize_frame(fields: &FrameFields) -> (encoded: Vec<u8>)
    ensures
        encoded@ == frame_encoded(frame_values(*fields)),
{
    bincode::serialize(fields).expect("plain values always have an encoding")
}

/// Calls `bincode::deserialize`: the fields whose bytes start the encoding, with any bytes
/// behind them; `None` where it starts with the bytes of no fields.
#[verifier::external_body]
fn deserialize_frame(encoded: &[u8]) -> (fields: Option<FrameFields>)
    ensures
        match fields {
            Some(f) => frame_encoded(frame_values(f)).is_prefix_of(encoded@),
            None => forall|v: FrameValues| !(#[trigger] frame_encoded(v)).is_prefix_of(encoded@),
        },
{
    bincode::deserialize(encoded).ok()
}

/// The frame whose bytes start a packet is the one that is read from it.
proof fn lemma_frame_read(v: FrameValues, packet: Seq<u8>)
    requires
        frame_encoded(v).is_prefix_of(packet),
        packet.len() <= u64::MAX,
    ensures
        frame_decoded(packet) == Some(v),
{
    let w = frame_decoded(packet)->0;
    let p = frame_layout(v);
    let q = frame_layout(w);
    layout::lemma_fixed(p[0], q[0]);
    layout::lemma_fixed(p[1], q[1]);
    layout::lemma_fixed(p[2], q[2]);
    layout::lemma_fixed(p[3], q[3]);
    layout::lemma_fixed(p[4], q[4]);
    layout::lemma_field_len(p, 5);
    layout::lemma_field_len(q, 5);
    layout::lemma_blob(v.5, w.5);
    assert forall|i: int| 0 <= i < p.len() implies layout::apart(#[trigger] p[i], q[i]) by {
        assert(i == 0 || i == 1 || i == 2 || i == 3 || i == 4 || i == 5);
    }
    layout::lemma_same_fields(p, q, packet);
    assert(p[0] == q[0]);
    layout::lemma_le32(v.0, w.0);
    assert(p[1] == q[1]);
    layout::lemma_le32(v.1, w.1);
    assert(p[2] == q[2]);
    bytes::lemma_array_ext(v.2, w.2);
    assert(p[3] == q[3]);
    layout::lemma_le32(v.3, w.3);
    assert(p[4] == q[4]);
    layout::lemma_le32(v.4, w.4);
    assert(p[5] == q[5]);
}

/// The bytes of a frame are read as the frame.
proof fn lemma_frame_written(v: FrameValues, packet: Seq<u8>)
    requires
        packet == frame_encoded(v),
        packet.len() <= u64::MAX,
    ensures
        frame_decoded(packet) == Some(v),
        tag_decoded(packet) == Some(v.0),
        tag_pair_decoded(packet) == Some((v.0, v.1)),
        packet.len() == 40 + v.5.len(),
{
    let fields = frame_layout(v);
    layout::lemma_len_from(fields, 0);
    layout::lemma_len_from(fields, 1);
    layout::lemma_len_from(fields, 2);
    layout::lemma_len_from(fields, 3);
    layout::lemma_len_from(fields, 4);
    layout::lemma_len_from(fields, 5);
    layout::lemma_len_from(fields, 6);
    assert(packet =~= packet.subrange(0, packet.len() as int));
    lemma_frame_read(v, packet);
    lemma_tags(frame_layout(v), v.0, v.1);
}

/// Encodes the fields of a frame. Decoding gives them back.
pub(crate) fn encode_frame_fields(fields: &FrameFields) -> (encoded: Vec<u8>)
    ensures
        encoded@ == frame_encoded(frame_values(*fields)),
        frame_decoded(encoded@) == Some(frame_values(*fields)),
        tag_decoded(encoded@) == Some(fields.0),
        tag_pair_decoded(encoded@) == Some((fields.0, fields.1)),
        encoded@.len() == 40 + fields.5@.len(),
{
    let encoded = serialize_frame(fields);
    proof {
        assert(encoded.len() <= usize::MAX);
        lemma_frame_written(frame_values(*fields), encoded@);
    }
    encoded
}

/// Decodes the fields of a frame.
pub(crate) fn decode_frame_fields(encoded: &[u8]) -> (fields: Option<FrameFields>)
    ensures
        fields is Some <==> frame_decoded(encoded@) is Some,
        fields matches Some(f) ==> frame_decoded(encoded@) == Some(frame_values(f)),
{
    let fields = deserialize_frame(encoded);
    proof {
        assert(encoded.len() <= usize::MAX);
        if fields is Some {
            lemma_frame_read(frame_values(fields->0), encoded@);
        }
    }
    fields
}

// ---------------------------------------------------------------------------------------------
// Acknowledgements
// ---------------------------------------------------------------------------------------------

/// A delivery acknowledgement: variant number and message id.
pub type AckFields = (u32, [u8; 16]);

/// The fields of an acknowledgement as bytes.
pub open spec fn ack_layout(v: AckFields) -> Seq<Seq<u8>> {
    seq![
        layout::le32(v.0),
        v.1@,
    ]
}

/// The encoding of an acknowledgement's fields.
pub open spec fn ack_encoded(values: AckFields) -> Seq<u8> {
    layout::joined(ack_layout(values))
}

/// The acknowledgement fields that start an encoding.
pub open spec fn ack_decoded(encoded: Seq<u8>) -> Option<AckFields> {
    if exists|v: AckFields| (#[trigger] ack_encoded(v)).is_prefix_of(encoded) {
        Some(choose|v: AckFields| (#[trigger] ack_encoded(v)).is_prefix_of(encoded))
    } else {
        None
    }
}

/// Calls `bincode::serialize`: the fields one after the other, in the layout above.
#[verifier::external_body]
fn serialize_ack(fields: &AckFields) -> (encoded: Vec<u8>)
    ensures
        encoded@ == ack_encoded(*fields),
{
    bincode::serialize(fields).expect("plain values always have an encoding")
}

/// Calls `bincode::deserialize`: the fields whose bytes start the encoding, with any bytes
/// behind them; `None` where it starts with the bytes of no fields.
#[verifier::external_body]
fn deserialize_ack(encoded: &[u8]) -> (fields: Option<AckFields>)
    ensures
        match fields {
            Some(f) => ack_encoded(f).is_prefix_of(encoded@),
            None => forall|v: AckFields| !(#[trigger] ack_encoded(v)).is_prefix_of(encoded@),
        },
{
    bincode::deserialize(encoded).ok()
}

/// The acknowledgement whose bytes start a packet is the one that is read from it.
proof fn lemma_ack_read(v: AckFields, packet: Seq<u8>)
    requires
        ack_encoded(v).is_prefix_of(packet),
        packet.len() <= u64::MAX,
    ensures
        ack_decoded(packet) == Some(v),
{
    let w = ack_decoded(packet)->0;
    let p = ack_layout(v);
    let q = ack_layout(w);
    layout::lemma_fixed(p[0], q[0]);
    layout::lemma_fixed(p[1], q[1]);
    assert forall|i: int| 0 <= i < p.len() implies layout::apart(#[trigger] p[i], q[i]) by {
        assert(i == 0 || i == 1);
    }
    layout::lemma_same_fields(p, q, packet);
    assert(p[0] == q[0]);
    layout::lemma_le32(v.0, w.0);
    assert(p[1] == q[1]);
    bytes::lemma_array_ext(v.1, w.1);
}

/// The bytes of an acknowledgement are read as the acknowledgement.
proof fn lemma_ack_written(v: AckFields, packet: Seq<u8>)
    requires
        packet == ack_encoded(v),
        packet.len() <= u64::MAX,
    ensures
        ack_decoded(packet) == Some(v),
        tag_decoded(packet) == Some(v.0),
        packet.len() == 20,
{
    let fields = ack_layout(v);
    layout::lemma_len_from(fields, 0);
    layout::lemma_len_from(fields, 1);
    layout::lemma_len_from(fields, 2);
    assert(packet =~= packet.subrange(0, packet.len() as int));
    lemma_ack_read(v, packet);
    lemma_tags(ack_layout(v), v.0, 0);
}

/// Encodes the fields of an acknowledgement. Decoding gives them back.
pub(crate) fn encode_ack_fields(fields: &AckFields) -> (encoded: Vec<u8>)
    ensures
        encoded@ == ack_encoded(*fields),
        ack_decoded(encoded@) == Some(*fields),
        tag_decoded(encoded@) == Some(fields.0),
        encoded@.len() == 20,
{
    let encoded = serialize_ack(fields);
    proof {
        assert(encoded.len() <= usize::MAX);
        lemma_ack_written(*fields, encoded@);
    }
    encoded
}

/// Decodes the fields of an acknowledgement.
pub(crate) fn decode_ack_fields(encoded: &[u8]) -> (fields: Option<AckFields>)
    ensures
        fields == ack_decoded(encoded@),
{
    let fields = deserialize_ack(encoded);
    proof {
        assert(encoded.len() <= usize::MAX);
        if fields is Some {
            lemma_ack_read(fields->0, encoded@);
        }
    }
    fields
}

// ---------------------------------------------------------------------------------------------
// Stored texts
// ---------------------------------------------------------------------------------------------

/// Stored text: variant number and text.
pub type TextFields = (u32, String);

/// The values of those fields.
pub type TextValues = (u32, Seq<char>);

/// The fields of a stored text as bytes.
pub open spec fn text_layout(v: TextValues) -> Seq<Seq<u8>> {
    seq![
        layout::le32(v.0),
        layout::text(v.1),
    ]
}

/// The encoding of a stored text.
pub open spec fn text_encoded(values: TextValues) -> Seq<u8> {
    layout::joined(text_layout(values))
}

/// The stored text that starts an encoding.
pub open spec fn text_decoded(encoded: Seq<u8>) -> Option<TextValues> {
    if exists|v: TextValues| (#[trigger] text_encoded(v)).is_prefix_of(encoded) {
        Some(choose|v: TextValues| (#[trigger] text_encoded(v)).is_prefix_of(encoded))
    } else {
        None
    }
}

/// Calls `bincode::serialize`: the fields one after the other, in the layout above.
#[verifier::external_body]
fn serialize_text(fields: &TextFields) -> (encoded: Vec<u8>)
    ensures
        encoded@ == text_encoded((fields.0, fields.1@)),
{
    bincode::serialize(fields).expect("plain values always have an encoding")
}

/// Calls `bincode::deserialize`: the fields whose bytes start the encoding, with any bytes
/// behind them; `None` where it starts with the bytes of no fields.
#[verifier::external_body]
fn deserialize_text(encoded: &[u8]) -> (fields: Option<TextFields>)
    ensures
        match fields {
            Some(f) => text_encoded((f.0, f.1@)).is_prefix_of(encoded@),
            None => forall|v: TextValues| !(#[trigger] text_encoded(v)).is_prefix_of(encoded@),
        },
{
    bincode::deserialize(encoded).ok()
}

/// The stored text whose bytes start a packet is the one that is read from it.
proof fn lemma_text_read(v: TextValues, packet: Seq<u8>)
    requires
        text_encoded(v).is_prefix_of(packet),
        packet.len() <= u64::MAX,
    ensures
        text_decoded(packet) == Some(v),
{
    let w = text_decoded(packet)->0;
    let p = text_layout(v);
    let q = text_layout(w);
    layout::lemma_fixed(p[0], q[0]);
    layout::lemma_field_len(p, 1);
    layout::lemma_field_len(q, 1);
    layout::lemma_text(v.1, w.1);
    assert forall|i: int| 0 <= i < p.len() implies layout::apart(#[trigger] p[i], q[i]) by {
        assert(i == 0 || i == 1);
    }
    layout::lemma_same_fields(p, q, packet);
    assert(p[0] == q[0]);
    layout::lemma_le32(v.0, w.0);
    assert(p[1] == q[1]);
}

/// The bytes of a stored text are read as the stored text.
proof fn lemma_text_written(v: TextValues, packet: Seq<u8>)
    requires
        packet == text_encoded(v),
        packet.len() <= u64::MAX,
    ensures
        text_decoded(packet) == Some(v),
        tag_decoded(packet) == Some(v.0),
        packet.len() == 12 + encode_utf8(v.1).len(),
{
    let fields = text_layout(v);
    layout::lemma_len_from(fields, 0);
    layout::lemma_len_from(fields, 1);
    layout::lemma_len_from(fields, 2);
    assert(packet =~= packet.subrange(0, packet.len() as int));
    lemma_text_read(v, packet);
    lemma_tags(text_layout(v), v.0, 0);
}

/// Encodes the fields of a stored text. Decoding gives them back.
pub(crate) fn encode_text_fields(fields: &TextFields) -> (encoded: Vec<u8>)
    ensures
        encoded@ == text_encoded((fields.0, fields.1@)),
        text_decoded(encoded@) == Some((fields.0, fields.1@)),
        tag_decoded(encoded@) == Some(fields.0),
        encoded@.len() == 12 + encode_utf8(fields.1@).len(),
{
    let encoded = serialize_text(fields);
    proof {
        assert(encoded.len() <= usize::MAX);
        lemma_text_written((fields.0, fields.1@), encoded@);
    }
    encoded
}

/// Decodes the fields of a stored text.
pub(crate) fn decode_text_fields(encoded: &[u8]) -> (fields: Option<TextFields>)
    ensures
        fields is Some <==> text_decoded(encoded@) is Some,
        fields matches Some(f) ==> text_decoded(encoded@) == Some((f.0, f.1@)),
{
    let fields = deserialize_text(encoded);
    proof {
        assert(encoded.len() <= usize::MAX);
        if fields is Some {
            lemma_text_read(((fields->0).0, (fields->0).1@), encoded@);
        }
    }
    fields
}

// ---------------------------------------------------------------------------------------------
// Stored files
// ---------------------------------------------------------------------------------------------

/// A stored file: variant number, transfer id, name, MIME type, kind, data.
pub type FileFields = (u32, [u8; 16], String, String, u32, Vec<u8>);

/// The values of those fields.
pub type FileValues = (u32, [u8; 16], Seq<char>, Seq<char>, u32, Seq<u8>);

/// The values of the fields of a stored file.
pub open spec fn file_values(f: FileFields) -> FileValues {
    (f.0, f.1, f.2@, f.3@, f.4, f.5@)
}

/// The fields of a stored file as bytes.
pub open spec fn file_layout(v: FileValues) -> Seq<Seq<u8>> {
    seq![
        layout::le32(v.0),
        v.1@,
        layout::text(v.2),
        layout::text(v.3),
        layout::le32(v.4),
        layout::blob(v.5),
    ]
}

/// The encoding of a stored file.
pub open spec fn file_encoded(values: FileValues) -> Seq<u8> {
    layout::joined(file_layout(values))
}

/// The stored file that starts an encoding.
pub open spec fn file_decoded(encoded: Seq<u8>) -> Option<FileValues> {
    if exists|v: FileValues| (#[trigger] file_encoded(v)).is_prefix_of(encoded) {
        Some(choose|v: FileValues| (#[trigger] file_encoded(v)).is_prefix_of(encoded))
    } else {
        None
    }
}

/// Calls `bincode::serialize`: the fields one after the other, in the layout above.
#[verifier::external_body]
fn serialize_file(fields: &FileFields) -> (encoded: Vec<u8>)
    ensures
        encoded@ == file_encoded(file_values(*fields)),
{
    bincode::serialize(fields).expect("plain values always have an encoding")
}

/// Calls `bincode::deserialize`: the fields whose bytes start the encoding, with any bytes
/// behind them; `None` where it starts with the bytes of no fields.
#[verifier::external_body]
fn deserialize_file(encoded: &[u8]) -> (fields: Option<FileFields>)
    ensures
        match fields {
            Some(f) => file_encoded(file_values(f)).is_prefix_of(encoded@),
            None => forall|v: FileValues| !(#[trigger] file_encoded(v)).is_prefix_of(encoded@),
        },
{
    bincode::deserialize(encoded).ok()
}

/// The stored file whose bytes start a packet is the one that is read from it.
proof fn lemma_file_read(v: FileValues, packet: Seq<u8>)
    requires
        file_encoded(v).is_prefix_of(packet),
        packet.len() <= u64::MAX,
    ensures
        file_decoded(packet) == Some(v),
{
    let w = file_decoded(packet)->0;
    let p = file_layout(v);
    let q = file_layout(w);
    layout::lemma_fixed(p[0], q[0]);
    layout::lemma_fixed(p[1], q[1]);
    layout::lemma_field_len(p, 2);
    layout::lemma_field_len(q, 2);
    layout::lemma_text(v.2, w.2);
    layout::lemma_field_len(p, 3);
    layout::lemma_field_len(q, 3);
    layout::lemma_text(v.3, w.3);
    layout::lemma_fixed(p[4], q[4]);
    layout::lemma_field_len(p, 5);
    layout::lemma_field_len(q, 5);
    layout::lemma_blob(v.5, w.5);
    assert forall|i: int| 0 <= i < p.len() implies layout::apart(#[trigger] p[i], q[i]) by {
        assert(i == 0 || i == 1 || i == 2 || i == 3 || i == 4 || i == 5);
    }
    layout::lemma_same_fields(p, q, packet);
    assert(p[0] == q[0]);
    layout::lemma_le32(v.0, w.0);
    assert(p[1] == q[1]);
    bytes::lemma_array_ext(v.1, w.1);
    assert(p[2] == q[2]);
    assert(p[3] == q[3]);
    assert(p[4] == q[4]);
    layout::lemma_le32(v.4, w.4);
    assert(p[5] == q[5]);
}

/// The bytes of a stored file are read as the stored file.
proof fn lemma_file_written(v: FileValues, packet: Seq<u8>)
    requires
        packet == file_encoded(v),
        packet.len() <= u64::MAX,
    ensures
        file_decoded(packet) == Some(v),
        tag_decoded(packet) == Some(v.0),
        packet.len() == 48 + encode_utf8(v.2).len() + encode_utf8(v.3).len() + v.5.len(),
{
    let fields = file_layout(v);
    layout::lemma_len_from(fields, 0);
    layout::lemma_len_from(fields, 1);
    layout::lemma_len_from(fields, 2);
    layout::lemma_len_from(fields, 3);
    layout::lemma_len_from(fields, 4);
    layout::lemma_len_from(fields, 5);
    layout::lemma_len_from(fields, 6);
    assert(packet =~= packet.subrange(0, packet.len() as int));
    lemma_file_read(v, packet);
    lemma_tags(file_layout(v), v.0, 0);
}

/// Encodes the fields of a stored file. Decoding gives them back.
pub(crate) fn encode_file_fields(fields: &FileFields) -> (encoded: Vec<u8>)
    ensures
        encoded@ == file_encoded(file_values(*fields)),
        file_decoded(encoded@) == Some(file_values(*fields)),
        tag_decoded(encoded@) == Some(fields.0),
        encoded@.len() == 48 + encode_utf8(fields.2@).len() + encode_utf8(fields.3@).len()
            + fields.5@.len(),
{
    let encoded = serialize_file(fields);
    proof {
        assert(encoded.len() <= usize::MAX);
        lemma_file_written(file_values(*fields), encoded@);
    }
    encoded
}

/// Decodes the fields of a stored file.
pub(crate) fn decode_file_fields(encoded: &[u8]) -> (fields: Option<FileFields>)
    ensures
        fields is Some <==> file_decoded(encoded@) is Some,
        fields matches Some(f) ==> file_decoded(encoded@) == Some(file_values(f)),
{
    let fields = deserialize_file(encoded);
    proof {
        assert(encoded.len() <= usize::MAX);
        if fields is Some {
            lemma_file_read(file_values(fields->0), encoded@);
        }
    }
    fields
}

// ---------------------------------------------------------------------------------------------
// Announcements
// ---------------------------------------------------------------------------------------------

/// What a node announces: id, name, port, X25519 key, binding signature, protocol version.
pub type AnnouncementFields = ([u8; 32], String, u16, [u8; 32], Vec<u8>, u8);

/// The values of those fields.
pub type AnnouncementValues = ([u8; 32], Seq<char>, u16, [u8; 32], Seq<u8>, u8);

/// The values of the fields of an announcement.
pub open spec fn announcement_values(f: AnnouncementFields) -> AnnouncementValues {
    (f.0, f.1@, f.2, f.3, f.4@, f.5)
}

/// The fields of an announcement as bytes.
pub open spec fn announcement_layout(v: AnnouncementValues) -> Seq<Seq<u8>> {
    seq![
        v.0@,
        layout::text(v.1),
        layout::le16(v.2),
        v.3@,
        layout::blob(v.4),
        seq![v.5],
    ]
}

/// The encoding of an announcement's fields.
pub open spec fn announcement_encoded(values: AnnouncementValues) -> Seq<u8> {
    layout::joined(announcement_layout(values))
}

/// The announcement fields that start an encoding.
pub open spec fn announcement_decoded(encoded: Seq<u8>) -> Option<AnnouncementValues> {
    if exists|v: AnnouncementValues| (#[trigger] announcement_encoded(v)).is_prefix_of(encoded) {
        Some(choose|v: AnnouncementValues| (#[trigger] announcement_encoded(v)).is_prefix_of(encoded))
    } else {
        None
    }
}

/// Calls `bincode::serialize`: the fields one after the other, in the layout above.
#[verifier::external_body]
fn serialize_announcement(fields: &AnnouncementFields) -> (encoded: Vec<u8>)
    ensures
        encoded@ == announcement_encoded(announcement_values(*fields)),
{
    bincode::serialize(fields).expect("plain values always have an encoding")
}

/// Calls `bincode::deserialize`: the fields whose bytes start the encoding, with any bytes
/// behind them; `None` where it starts with the bytes of no fields.
#[verifier::external_body]
fn deserialize_announcement(encoded: &[u8]) -> (fields: Option<AnnouncementFields>)
    ensures
        match fields {
            Some(f) => announcement_encoded(announcement_values(f)).is_prefix_of(encoded@),
            None => forall|v: AnnouncementValues|
                !(#[trigger] announcement_encoded(v)).is_prefix_of(encoded@),
        },
{
    bincode::deserialize(encoded).ok()
}

/// The announcement whose bytes start a packet is the one that is read from it.
proof fn lemma_announcement_read(v: AnnouncementValues, packet: Seq<u8>)
    requires
        announcement_encoded(v).is_prefix_of(packet),
        packet.len() <= u64::MAX,
    ensures
        announcement_decoded(packet) == Some(v),
{
    let w = announcement_decoded(packet)->0;
    let p = announcement_layout(v);
    let q = announcement_layout(w);
    layout::lemma_fixed(p[0], q[0]);
    layout::lemma_field_len(p, 1);
    layout::lemma_field_len(q, 1);
    layout::lemma_text(v.1, w.1);
    layout::lemma_fixed(p[2], q[2]);
    layout::lemma_fixed(p[3], q[3]);
    layout::lemma_field_len(p, 4);
    layout::lemma_field_len(q, 4);
    layout::lemma_blob(v.4, w.4);
    layout::lemma_fixed(p[5], q[5]);
    assert forall|i: int| 0 <= i < p.len() implies layout::apart(#[trigger] p[i], q[i]) by {
        assert(i == 0 || i == 1 || i == 2 || i == 3 || i == 4 || i == 5);
    }
    layout::lemma_same_fields(p, q, packet);
    assert(p[0] == q[0]);
    bytes::lemma_array_ext(v.0, w.0);
    assert(p[1] == q[1]);
    assert(p[2] == q[2]);
    layout::lemma_le16(v.2, w.2);
    assert(p[3] == q[3]);
    bytes::lemma_array_ext(v.3, w.3);
    assert(p[4] == q[4]);
    assert(p[5] == q[5]);
    assert(p[5][0] == q[5][0]);
}

/// The bytes of an announcement are read as the announcement.
proof fn lemma_announcement_written(v: AnnouncementValues, packet: Seq<u8>)
    requires
        packet == announcement_encoded(v),
        packet.len() <= u64::MAX,
    ensures
        announcement_decoded(packet) == Some(v),
{
    assert(packet =~= packet.subrange(0, packet.len() as int));
    lemma_announcement_read(v, packet);
}

/// Encodes the fields of an announcement. Decoding gives them back.
pub(crate) fn encode_announcement_fields(fields: &AnnouncementFields) -> (encoded: Vec<u8>)
    ensures
        encoded@ == announcement_encoded(announcement_values(*fields)),
        announcement_decoded(encoded@) == Some(announcement_values(*fields)),
{
    let encoded = serialize_announcement(fields);
    proof {
        assert(encoded.len() <= usize::MAX);
        lemma_announcement_written(announcement_values(*fields), encoded@);
    }
    encoded
}

/// Decodes the fields of an announcement.
pub(crate) fn decode_announcement_fields(encoded: &[u8]) -> (fields: Option<AnnouncementFields>)
    ensures
        fields is Some <==> announcement_decoded(encoded@) is Some,
        fields matches Some(f) ==> announcement_decoded(encoded@) == Some(announcement_values(f)),
{
    let fields = deserialize_announcement(encoded);
    proof {
        assert(encoded.len() <= usize::MAX);
        if fields is Some {
            lemma_announcement_read(announcement_values(fields->0), encoded@);
        }
    }
    fields
}

} // verus!
