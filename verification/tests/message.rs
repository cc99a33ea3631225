use meshtalk::identity::{verify, Identity};
use meshtalk::message::{EncryptionMode, Envelope, MessageType, CLOCK_SKEW_TOLERANCE_MS, PROTOCOL_VERSION};
use meshtalk::wire::{decode_envelope, encode_envelope};

fn sample_envelope(sender: &Identity, max_hops: u8, hops_used: u8) -> Envelope {
    let mut envelope = Envelope {
        protocol_version: PROTOCOL_VERSION,
        message_id: [1u8; 16],
        sender: sender.node_id(),
        recipient: Some([2u8; 32]),
        message_type: MessageType::Chat,
        encryption_mode: EncryptionMode::ChannelV1,
        created_at: 1_000,
        expires_at: 2_000,
        max_hops,
        hops_used,
        nonce: [3u8; 24],
        ciphertext: vec![9, 9, 9],
        signature: Vec::new(),
    };
    envelope.signature = sender.sign(&envelope.signed_payload()).to_vec();
    envelope
}

fn verify_envelope(envelope: &Envelope) -> bool {
    let sig: [u8; 64] = match envelope.signature.clone().try_into() {
        Ok(sig) => sig,
        Err(_) => return false,
    };
    verify(&envelope.sender, &envelope.signed_payload(), &sig)
}

#[test]
fn valid_envelope_verifies() {
    let sender = Identity::generate();
    let envelope = sample_envelope(&sender, 16, 0);
    assert!(verify_envelope(&envelope));
}

#[test]
fn incrementing_hops_used_does_not_invalidate_signature() {
    let sender = Identity::generate();
    let mut envelope = sample_envelope(&sender, 16, 0);
    envelope.hops_used += 1;
    assert!(verify_envelope(&envelope));
}

#[test]
fn malicious_relay_resetting_hops_used_does_not_invalidate_signature() {
    let sender = Identity::generate();
    let mut envelope = sample_envelope(&sender, 5, 4);
    envelope.hops_used = 0;
    assert!(verify_envelope(&envelope));
}

#[test]
fn tampering_with_max_hops_invalidates_signature() {
    let sender = Identity::generate();
    let mut envelope = sample_envelope(&sender, 1, 0);
    envelope.max_hops = 255;
    assert!(!verify_envelope(&envelope));
}

#[test]
fn tampering_with_recipient_invalidates_signature() {
    let sender = Identity::generate();
    let mut envelope = sample_envelope(&sender, 16, 0);
    envelope.recipient = Some([7u8; 32]);
    assert!(!verify_envelope(&envelope));
}

#[test]
fn tampering_with_encryption_mode_invalidates_signature() {
    let sender = Identity::generate();
    let mut envelope = sample_envelope(&sender, 16, 0);
    envelope.encryption_mode = EncryptionMode::DirectV1;
    assert!(!verify_envelope(&envelope));
}

#[test]
fn hop_budget_exhausted_reflects_hops_used_vs_max_hops() {
    let sender = Identity::generate();
    let mut envelope = sample_envelope(&sender, 2, 0);
    assert!(!envelope.hop_budget_exhausted());
    envelope.hops_used = 1;
    assert!(!envelope.hop_budget_exhausted());
    envelope.hops_used = 2;
    assert!(envelope.hop_budget_exhausted());
}

#[test]
fn unsupported_version_is_detected() {
    let sender = Identity::generate();
    let mut envelope = sample_envelope(&sender, 16, 0);
    envelope.protocol_version = PROTOCOL_VERSION + 1;
    assert!(!envelope.is_supported_version());
}

#[test]
fn deserializing_out_of_range_encryption_mode_discriminant_fails_safely() {
    assert!(EncryptionMode::from_number(99).is_none());
    let sender = Identity::generate();
    let mut bytes = encode_envelope(&sample_envelope(&sender, 16, 0));
    let mode_at = 1 + 16 + 32 + 33 + 4;
    bytes[mode_at..mode_at + 4].copy_from_slice(&bincode::serialize(&99u32).unwrap());
    assert!(decode_envelope(&bytes).is_none());
}

#[test]
fn expiry_check_allows_a_sender_clock_running_fast_within_tolerance() {
    let sender = Identity::generate();
    let mut envelope = sample_envelope(&sender, 16, 0);
    envelope.expires_at = 10_000;
    let now = envelope.expires_at + CLOCK_SKEW_TOLERANCE_MS;
    assert!(!envelope.is_expired(now));
}

#[test]
fn expiry_check_drops_messages_past_the_clock_skew_tolerance() {
    let sender = Identity::generate();
    let mut envelope = sample_envelope(&sender, 16, 0);
    envelope.expires_at = 10_000;
    let now = envelope.expires_at + CLOCK_SKEW_TOLERANCE_MS + 1;
    assert!(envelope.is_expired(now));
}

#[test]
fn an_envelope_that_never_expires_does_not_expire() {
    let sender = Identity::generate();
    let mut envelope = sample_envelope(&sender, 16, 0);
    envelope.expires_at = u64::MAX;
    assert!(!envelope.is_expired(u64::MAX));
}

#[test]
fn signed_bytes_are_the_fields_in_order() {
    let sender = Identity::from_seed([1u8; 32]);
    let envelope = sample_envelope(&sender, 16, 3);
    let mut expected = vec![PROTOCOL_VERSION];
    expected.extend_from_slice(&[1u8; 16]);
    expected.extend_from_slice(&sender.node_id());
    expected.push(1);
    expected.extend_from_slice(&[2u8; 32]);
    expected.push(0);
    expected.push(0);
    expected.extend_from_slice(&1_000u64.to_le_bytes());
    expected.extend_from_slice(&2_000u64.to_le_bytes());
    expected.push(16);
    expected.extend_from_slice(&[3u8; 24]);
    expected.extend_from_slice(&[9, 9, 9]);
    assert_eq!(envelope.signed_payload(), expected);
}

#[test]
fn an_envelope_survives_its_encoding() {
    let sender = Identity::generate();
    for recipient in [None, Some([5u8; 32])] {
        let mut envelope = sample_envelope(&sender, 16, 3);
        envelope.recipient = recipient;
        envelope.message_type = MessageType::DeliveryAck;
        envelope.encryption_mode = EncryptionMode::DirectV1;
        let bytes = encode_envelope(&envelope);
        assert_eq!(bytes.len(), 115 + if recipient.is_some() { 33 } else { 1 } + 3 + 64);
        let back = decode_envelope(&bytes).unwrap();
        assert_eq!(back.recipient, recipient);
        assert_eq!(back.message_type, MessageType::DeliveryAck);
        assert_eq!(back.encryption_mode, EncryptionMode::DirectV1);
        assert_eq!(back.hops_used, 3);
        assert_eq!(back.ciphertext, envelope.ciphertext);
        assert_eq!(back.signature, envelope.signature);
        assert!(decode_envelope(&bytes[..bytes.len() - 1]).is_none());
    }
}

#[test]
fn numbers_of_types_and_modes() {
    for (number, kind) in [
        (0, MessageType::Chat),
        (1, MessageType::CallSignal),
        (2, MessageType::CallFrame),
        (3, MessageType::DeliveryAck),
    ] {
        assert_eq!(MessageType::from_number(number), Some(kind));
        assert_eq!(kind.discriminant() as u32, number);
    }
    assert_eq!(MessageType::from_number(4), None);
    assert_eq!(EncryptionMode::from_number(0), Some(EncryptionMode::ChannelV1));
    assert_eq!(EncryptionMode::from_number(1), Some(EncryptionMode::DirectV1));
    assert_eq!(EncryptionMode::DirectV1.discriminant(), 1);
}
