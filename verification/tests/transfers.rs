use meshtalk::call::{CallFrame, CallMessage, CallSignal, MediaKind};
use meshtalk::crypto::ChannelKey;
use meshtalk::direct_crypto::{DirectCiphertext, DirectCryptoHeaderV1, DirectEnvelopeBody};
use meshtalk::payload::{
    split_into_chunks, split_with_id, Chunk, ContentKind, DeliveryAck, ReceivedContent, WirePayload, CHUNK_SIZE,
};
use meshtalk::reassembly::{Accepted, Reassembler, MAX_IN_FLIGHT_TRANSFERS, TRANSFER_TIMEOUT_MS};
use meshtalk::wire::{decode_body, decode_content, decode_payload, encode_body, encode_content, encode_payload};

fn text_chunks(id: u8, text: &str) -> Vec<Chunk> {
    split_with_id([id; 16], ContentKind::Text, None, None, text.as_bytes())
}

#[test]
fn an_empty_text_is_one_empty_chunk() {
    let chunks = split_into_chunks(ContentKind::Text, None, None, b"");
    assert_eq!(chunks.len(), 1);
    assert_eq!((chunks[0].chunk_index, chunks[0].chunk_count), (0, 1));
    assert!(chunks[0].data.is_empty());
}

#[test]
fn data_is_cut_into_full_chunks_and_a_rest() {
    let data: Vec<u8> = (0..2 * CHUNK_SIZE + 1).map(|i| i as u8).collect();
    let chunks = split_into_chunks(ContentKind::File, Some("f".to_string()), Some("m".to_string()), &data);
    assert_eq!(chunks.iter().map(|c| c.data.len()).collect::<Vec<_>>(), vec![1024, 1024, 1]);
    assert!(chunks.iter().all(|c| c.chunk_count == 3 && c.transfer_id == chunks[0].transfer_id));
    assert_eq!(chunks.iter().map(|c| c.chunk_index).collect::<Vec<_>>(), vec![0, 1, 2]);
    assert_eq!(chunks[2].file_name.as_deref(), Some("f"));
    assert_eq!(chunks[2].mime_type.as_deref(), Some("m"));
    let exact = split_into_chunks(ContentKind::File, None, None, &data[..2 * CHUNK_SIZE]);
    assert_eq!(exact.len(), 2);
    let again = split_into_chunks(ContentKind::File, None, None, &data);
    assert_ne!(again[0].transfer_id, chunks[0].transfer_id);
}

#[test]
fn a_single_chunk_completes_at_once() {
    let mut reassembler = Reassembler::new();
    let chunk = text_chunks(1, "hello").remove(0);
    assert!(matches!(reassembler.accept(chunk, 0), Some(ReceivedContent::Text(t)) if t == "hello"));
}

#[test]
fn chunks_may_come_in_any_order_and_twice() {
    let text = "abc".repeat(1_000);
    let chunks = text_chunks(1, &text);
    assert_eq!(chunks.len(), 3);
    let mut reassembler = Reassembler::new();
    for (i, expected) in [(2usize, 1u32), (0, 2), (2, 2)] {
        match reassembler.accept_chunk(chunks[i].clone(), 0) {
            Accepted::Progress(p) => {
                assert_eq!(p.done_chunks, expected);
                assert_eq!(p.total_chunks, 3);
                assert_eq!(p.transfer_id, [1u8; 16]);
            }
            _ => panic!("expected progress"),
        }
    }
    assert!(matches!(
        reassembler.accept_chunk(chunks[1].clone(), 0),
        Accepted::Complete(ReceivedContent::Text(t)) if t == text
    ));
}

#[test]
fn transfers_do_not_mix() {
    let a = text_chunks(1, &"a".repeat(CHUNK_SIZE + 1));
    let b = text_chunks(2, &"b".repeat(CHUNK_SIZE + 1));
    let mut reassembler = Reassembler::new();
    assert!(reassembler.accept(a[0].clone(), 0).is_none());
    assert!(reassembler.accept(b[1].clone(), 0).is_none());
    assert!(matches!(reassembler.accept(b[0].clone(), 0), Some(ReceivedContent::Text(t)) if t == "b".repeat(CHUNK_SIZE + 1)));
    assert!(matches!(reassembler.accept(a[1].clone(), 0), Some(ReceivedContent::Text(t)) if t == "a".repeat(CHUNK_SIZE + 1)));
}

#[test]
fn a_transfer_that_stops_coming_is_forgotten() {
    let chunks = text_chunks(1, &"a".repeat(CHUNK_SIZE + 1));
    let mut reassembler = Reassembler::new();
    assert!(reassembler.accept(chunks[0].clone(), 1_000).is_none());
    assert!(reassembler.accept(chunks[1].clone(), 1_000 + TRANSFER_TIMEOUT_MS).is_none());
    assert!(reassembler.accept(chunks[0].clone(), 1_000 + TRANSFER_TIMEOUT_MS + 1).is_some());
}

#[test]
fn a_flood_of_transfers_pushes_out_the_oldest() {
    let mut reassembler = Reassembler::new();
    let first = split_with_id([0u8; 16], ContentKind::File, None, None, &vec![1u8; CHUNK_SIZE + 1]);
    reassembler.accept(first[0].clone(), 0);
    for i in 1..=MAX_IN_FLIGHT_TRANSFERS as u64 + 1 {
        let mut id = [0u8; 16];
        id[0] = i as u8;
        let chunks = split_with_id(id, ContentKind::File, None, None, &vec![1u8; CHUNK_SIZE + 1]);
        reassembler.accept(chunks[0].clone(), i);
    }
    assert!(reassembler.accept(first[1].clone(), 100).is_none());
}

#[test]
fn a_file_without_a_name_gets_one() {
    let chunks = split_into_chunks(ContentKind::Voice, None, None, b"\x01\x02");
    let mut reassembler = Reassembler::new();
    match reassembler.accept(chunks[0].clone(), 0) {
        Some(ReceivedContent::File { name, mime, kind, data, transfer_id }) => {
            assert_eq!(name, "file");
            assert_eq!(mime, "application/octet-stream");
            assert_eq!(kind, ContentKind::Voice);
            assert_eq!(data, vec![1, 2]);
            assert_eq!(transfer_id, chunks[0].transfer_id);
        }
        _ => panic!("expected a file"),
    }
}

#[test]
fn bytes_that_are_no_text_are_replaced() {
    let chunks = split_into_chunks(ContentKind::Text, None, None, b"a\xffb");
    let mut reassembler = Reassembler::new();
    assert!(matches!(
        reassembler.accept(chunks[0].clone(), 0),
        Some(ReceivedContent::Text(t)) if t == "a\u{fffd}b"
    ));
}

#[test]
fn a_chunk_beyond_the_end_never_completes_a_transfer() {
    let mut reassembler = Reassembler::new();
    let mut chunk = text_chunks(1, "hello").remove(0);
    chunk.chunk_index = 7;
    assert!(reassembler.accept(chunk, 0).is_none());
}

fn piece(index: u32, data: &str) -> Chunk {
    let mut chunk = text_chunks(1, data).remove(0);
    chunk.chunk_index = index;
    chunk.chunk_count = 2;
    chunk
}

#[test]
fn a_chunk_beyond_the_end_does_not_harm_a_transfer() {
    let mut reassembler = Reassembler::new();
    assert!(reassembler.accept(piece(0, "a"), 0).is_none());
    match reassembler.accept_chunk(piece(7, "x"), 0) {
        Accepted::Progress(p) => assert_eq!((p.done_chunks, p.total_chunks), (1, 2)),
        _ => panic!("expected progress"),
    }
    assert!(reassembler.accept(piece(7, "y"), 0).is_none());
    assert!(matches!(reassembler.accept(piece(1, "b"), 0), Some(ReceivedContent::Text(t)) if t == "ab"));
}

#[test]
fn a_chunk_beyond_the_end_may_come_first() {
    let mut reassembler = Reassembler::new();
    assert!(reassembler.accept(piece(7, "x"), 0).is_none());
    assert!(reassembler.accept(piece(1, "b"), 0).is_none());
    assert!(matches!(reassembler.accept(piece(0, "a"), 0), Some(ReceivedContent::Text(t)) if t == "ab"));
}

#[test]
fn a_channel_key_reads_what_it_sealed() {
    let key = ChannelKey::from_passphrase("open sesame");
    let same = ChannelKey::from_passphrase("open sesame");
    let other = ChannelKey::from_passphrase("open barley");
    let (ciphertext, nonce) = key.encrypt(b"hello");
    assert_eq!(ciphertext.len(), 5 + 16);
    assert!(!ciphertext.windows(5).any(|w| w == b"hello"));
    assert_eq!(same.decrypt(&ciphertext, &nonce), Some(b"hello".to_vec()));
    assert_eq!(other.decrypt(&ciphertext, &nonce), None);
    let mut bent = ciphertext.clone();
    bent[0] ^= 1;
    assert_eq!(key.decrypt(&bent, &nonce), None);
    assert_eq!(key.decrypt(&[1, 2, 3], &nonce), None);
    let (again, other_nonce) = key.encrypt(b"hello");
    assert_ne!(nonce, other_nonce);
    assert_ne!(ciphertext, again);
}

#[test]
fn payloads_survive_their_encoding() {
    let chunk = split_with_id([1u8; 16], ContentKind::Image, Some("n".to_string()), Some("m".to_string()), b"data").remove(0);
    let bytes = encode_payload(&WirePayload::Chunk(chunk));
    assert_eq!(bytes[..4], [0, 0, 0, 0]);
    match decode_payload(&bytes) {
        Some(WirePayload::Chunk(back)) => {
            assert_eq!(back.transfer_id, [1u8; 16]);
            assert_eq!((back.chunk_index, back.chunk_count), (0, 1));
            assert_eq!(back.kind, ContentKind::Image);
            assert_eq!(back.file_name.as_deref(), Some("n"));
            assert_eq!(back.mime_type.as_deref(), Some("m"));
            assert_eq!(back.data, b"data");
        }
        _ => panic!("expected a chunk"),
    }

    for signal in [
        CallSignal::Invite { call_id: [2u8; 16], video: true },
        CallSignal::Accept { call_id: [2u8; 16] },
        CallSignal::Reject { call_id: [2u8; 16] },
        CallSignal::End { call_id: [2u8; 16] },
    ] {
        let bytes = encode_payload(&WirePayload::Call(CallMessage::Signal(signal)));
        match decode_payload(&bytes) {
            Some(WirePayload::Call(CallMessage::Signal(back))) => {
                assert_eq!(format!("{back:?}"), format!("{signal:?}"));
            }
            _ => panic!("expected a signal"),
        }
    }

    let frame = CallFrame { call_id: [3u8; 16], media: MediaKind::Video, sequence: 8, data: vec![1, 2] };
    match decode_payload(&encode_payload(&WirePayload::Call(CallMessage::Frame(frame)))) {
        Some(WirePayload::Call(CallMessage::Frame(back))) => {
            assert_eq!((back.call_id, back.media, back.sequence, back.data), ([3u8; 16], MediaKind::Video, 8, vec![1, 2]));
        }
        _ => panic!("expected a frame"),
    }

    let ack = WirePayload::DeliveryAck(DeliveryAck { acked_message_id: [4u8; 16] });
    match decode_payload(&encode_payload(&ack)) {
        Some(WirePayload::DeliveryAck(back)) => assert_eq!(back.acked_message_id, [4u8; 16]),
        _ => panic!("expected an acknowledgement"),
    }
}

#[test]
fn payloads_with_unknown_numbers_are_refused() {
    assert!(decode_payload(&[]).is_none());
    assert!(decode_payload(&[9, 0, 0, 0, 1, 2, 3]).is_none());
    let mut bytes = encode_payload(&WirePayload::Call(CallMessage::Signal(CallSignal::End { call_id: [2u8; 16] })));
    bytes[4] = 7;
    assert!(decode_payload(&bytes).is_none());
    let chunk = text_chunks(1, "x").remove(0);
    let mut bytes = encode_payload(&WirePayload::Chunk(chunk));
    bytes[4 + 16 + 4 + 4] = 9;
    assert!(decode_payload(&bytes).is_none());
}

#[test]
fn content_survives_its_encoding() {
    let text = ReceivedContent::Text("gr\u{fc}\u{df}e".to_string());
    assert!(matches!(decode_content(&encode_content(&text)), Some(ReceivedContent::Text(t)) if t == "gr\u{fc}\u{df}e"));
    let mut bytes = encode_content(&text);
    bytes[0] = 5;
    assert!(decode_content(&bytes).is_none());
    assert!(decode_content(&bytes[..2]).is_none());
}

#[test]
fn a_direct_body_survives_its_encoding() {
    let body = DirectEnvelopeBody {
        header: DirectCryptoHeaderV1 { sender_x25519_public: [1u8; 32], sender_x25519_signature: vec![2u8; 64] },
        message: DirectCiphertext { nonce: [3u8; 24], ciphertext: vec![4, 5], signature: vec![6u8; 64] },
    };
    let bytes = encode_body(&body);
    let back = decode_body(&bytes).unwrap();
    assert_eq!(back.header.sender_x25519_public, [1u8; 32]);
    assert_eq!(back.header.sender_x25519_signature, vec![2u8; 64]);
    assert_eq!(back.message.nonce, [3u8; 24]);
    assert_eq!(back.message.ciphertext, vec![4, 5]);
    assert_eq!(back.message.signature, vec![6u8; 64]);
    assert!(decode_body(&bytes[..bytes.len() - 1]).is_none());
}

#[test]
fn kinds_have_their_numbers() {
    for (number, kind) in [
        (0, ContentKind::Text),
        (1, ContentKind::Image),
        (2, ContentKind::Video),
        (3, ContentKind::Voice),
        (4, ContentKind::File),
    ] {
        assert_eq!(kind.to_number(), number);
        assert_eq!(ContentKind::from_number(number), Some(kind));
    }
    assert_eq!(ContentKind::from_number(5), None);
    assert_eq!(MediaKind::from_number(MediaKind::Audio.to_number()), Some(MediaKind::Audio));
    assert_eq!(MediaKind::from_number(MediaKind::Video.to_number()), Some(MediaKind::Video));
    assert_eq!(MediaKind::from_number(2), None);
}
