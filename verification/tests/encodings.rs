use meshtalk::call::{CallFrame, CallMessage, CallSignal, MediaKind};
use meshtalk::direct_crypto::{DirectCiphertext, DirectCryptoHeaderV1, DirectEnvelopeBody};
use meshtalk::discovery::Announcement;
use meshtalk::message::{EncryptionMode, Envelope, MessageType};
use meshtalk::payload::{Chunk, ContentKind, DeliveryAck, ReceivedContent, WirePayload};
use meshtalk::session::PublicIdentity;
use meshtalk::wire::{
    decode_content, decode_envelope, decode_payload, encode_body, encode_content, encode_envelope, encode_payload,
};

/// Pieces of bytes, one after the other.
fn join(pieces: &[&[u8]]) -> Vec<u8> {
    pieces.concat()
}

fn le32(x: u32) -> [u8; 4] {
    x.to_le_bytes()
}

fn le64(x: u64) -> [u8; 8] {
    x.to_le_bytes()
}

fn envelope(recipient: Option<[u8; 32]>) -> Envelope {
    Envelope {
        protocol_version: 1,
        message_id: [2; 16],
        sender: [3; 32],
        recipient,
        message_type: MessageType::DeliveryAck,
        encryption_mode: EncryptionMode::DirectV1,
        created_at: 0x0102030405060708,
        expires_at: 9,
        max_hops: 16,
        hops_used: 4,
        nonce: [5; 24],
        ciphertext: vec![6, 7],
        signature: vec![8, 9, 10],
    }
}

#[test]
fn an_envelope_is_its_fields_in_order() {
    let tail = join(&[
        &le32(3),
        &le32(1),
        &[8, 7, 6, 5, 4, 3, 2, 1],
        &le64(9),
        &[16, 4],
        &[5; 24],
        &le64(2),
        &[6, 7],
        &le64(3),
        &[8, 9, 10],
    ]);
    let broadcast = join(&[&[1], &[2; 16], &[3; 32], &[0], &tail]);
    assert_eq!(encode_envelope(&envelope(None)), broadcast);
    let direct = join(&[&[1], &[2; 16], &[3; 32], &[1], &[11; 32], &tail]);
    assert_eq!(encode_envelope(&envelope(Some([11; 32]))), direct);
}

#[test]
fn bytes_behind_an_envelope_are_allowed_and_missing_ones_are_not() {
    let mut packet = encode_envelope(&envelope(None));
    assert!(decode_envelope(&packet[..packet.len() - 1]).is_none());
    packet.push(99);
    let read = decode_envelope(&packet).unwrap();
    assert_eq!(read.signature, vec![8, 9, 10]);
    assert_eq!(read.recipient, None);
}

#[test]
fn an_option_is_there_or_not() {
    let mut packet = encode_envelope(&envelope(None));
    packet[49] = 2;
    assert!(decode_envelope(&packet).is_none());
}

#[test]
fn a_direct_body_is_its_fields_in_order() {
    let body = DirectEnvelopeBody {
        header: DirectCryptoHeaderV1 { sender_x25519_public: [1; 32], sender_x25519_signature: vec![2; 3] },
        message: DirectCiphertext { nonce: [3; 24], ciphertext: vec![4], signature: vec![] },
    };
    let expected = join(&[&[1; 32], &le64(3), &[2; 3], &[3; 24], &le64(1), &[4], &le64(0)]);
    assert_eq!(encode_body(&body), expected);
}

#[test]
fn payloads_start_with_the_number_of_their_variant() {
    let ack = WirePayload::DeliveryAck(DeliveryAck { acked_message_id: [7; 16] });
    assert_eq!(encode_payload(&ack), join(&[&le32(2), &[7; 16]]));

    let invite = WirePayload::Call(CallMessage::Signal(CallSignal::Invite { call_id: [7; 16], video: true }));
    assert_eq!(encode_payload(&invite), join(&[&le32(1), &le32(0), &le32(0), &[7; 16], &[1]]));

    let end = WirePayload::Call(CallMessage::Signal(CallSignal::End { call_id: [7; 16] }));
    assert_eq!(encode_payload(&end), join(&[&le32(1), &le32(0), &le32(3), &[7; 16]]));

    let frame = WirePayload::Call(CallMessage::Frame(CallFrame {
        call_id: [7; 16],
        media: MediaKind::Video,
        sequence: 258,
        data: vec![1, 2],
    }));
    assert_eq!(
        encode_payload(&frame),
        join(&[&le32(1), &le32(1), &[7; 16], &le32(1), &[2, 1, 0, 0], &le64(2), &[1, 2]])
    );

    let chunk = WirePayload::Chunk(Chunk {
        transfer_id: [7; 16],
        chunk_index: 1,
        chunk_count: 3,
        kind: ContentKind::Voice,
        file_name: Some("é".to_string()),
        mime_type: None,
        data: vec![9],
    });
    assert_eq!(
        encode_payload(&chunk),
        join(&[
            &le32(0),
            &[7; 16],
            &le32(1),
            &le32(3),
            &le32(3),
            &[1],
            &le64(2),
            &[0xc3, 0xa9],
            &[0],
            &le64(1),
            &[9]
        ])
    );
}

#[test]
fn payloads_that_are_cut_short_or_garbled_are_refused() {
    assert!(decode_payload(&[2, 0, 0]).is_none());
    assert!(decode_payload(&[1, 0, 0, 0, 0, 0, 0]).is_none());
    // A flag that is neither set nor unset.
    assert!(decode_payload(&join(&[&le32(1), &le32(0), &le32(0), &[7; 16], &[2]])).is_none());
    // An invitation without its flag.
    assert!(decode_payload(&join(&[&le32(1), &le32(0), &le32(0), &[7; 16]])).is_none());
    // A name that is no UTF-8.
    let name = join(&[&le32(0), &[7; 16], &le32(0), &le32(1), &le32(0), &[1], &le64(1), &[0xff], &[0], &le64(0)]);
    assert!(decode_payload(&name).is_none());
    // A length beyond the end.
    let long = join(&[&le32(0), &[7; 16], &le32(0), &le32(1), &le32(0), &[0], &[0], &le64(u64::MAX)]);
    assert!(decode_payload(&long).is_none());
}

#[test]
fn stored_content_starts_with_the_number_of_its_variant() {
    let text = ReceivedContent::Text("hi".to_string());
    assert_eq!(encode_content(&text), join(&[&le32(0), &le64(2), b"hi"]));

    let file = ReceivedContent::File {
        transfer_id: [7; 16],
        name: "a".to_string(),
        mime: "b/c".to_string(),
        kind: ContentKind::Image,
        data: vec![1, 2, 3],
    };
    let expected =
        join(&[&le32(1), &[7; 16], &le64(1), b"a", &le64(3), b"b/c", &le32(1), &le64(3), &[1, 2, 3]]);
    assert_eq!(encode_content(&file), expected);
    assert!(decode_content(&expected[..expected.len() - 1]).is_none());
}

#[test]
fn an_announcement_is_its_fields_in_order() {
    let announcement = Announcement {
        public_identity: PublicIdentity { node_id: [1; 32], x25519_public: [2; 32], x25519_signature: vec![3, 4] },
        display_name: "Ada".to_string(),
        service_port: 0x1234,
        protocol_version: 5,
    };
    let expected = join(&[&[1; 32], &le64(3), b"Ada", &[0x34, 0x12], &[2; 32], &le64(2), &[3, 4], &[5]]);
    assert_eq!(announcement.encode(), expected);
    assert!(Announcement::decode(&expected[..expected.len() - 1]).is_none());
    assert!(Announcement::decode(&expected).is_some());
}
