use meshtalk::direct_crypto::{
    decrypt_direct_message, encode_aad_v1, encrypt_direct_message, try_encrypt_direct_message, DirectCiphertext,
    DirectCryptoError, DirectCryptoHeaderV1, DirectMessageAadV1,
};
use meshtalk::identity::Identity;
use meshtalk::message::{MessageType, PROTOCOL_VERSION};
use meshtalk::session::{PublicIdentity, Session, VerifiedPublicIdentity};
use rand::RngCore;

fn verified(identity: &Identity) -> VerifiedPublicIdentity {
    PublicIdentity::new(identity).verify().unwrap()
}

fn sample_aad(sender: &Identity, recipient: &Identity) -> DirectMessageAadV1 {
    DirectMessageAadV1::new(PROTOCOL_VERSION, [1u8; 16], sender.node_id(), recipient.node_id(), MessageType::Chat, 1_000, 2_000, 16)
}

#[test]
fn alice_to_bob_decrypts() {
    let alice = Identity::generate();
    let bob = Identity::generate();
    let alice_session = Session::establish(&alice, &verified(&bob)).unwrap();
    let aad = sample_aad(&alice, &bob);

    let ciphertext = encrypt_direct_message(&alice, &alice_session, &aad, b"hello bob");

    let bob_session = Session::establish(&bob, &verified(&alice)).unwrap();
    let plaintext = decrypt_direct_message(&bob_session, &alice.node_id(), &aad, &ciphertext).unwrap();
    assert_eq!(plaintext, b"hello bob");
}

#[test]
fn bob_to_alice_decrypts() {
    let alice = Identity::generate();
    let bob = Identity::generate();
    let bob_session = Session::establish(&bob, &verified(&alice)).unwrap();
    let aad = sample_aad(&bob, &alice);

    let ciphertext = encrypt_direct_message(&bob, &bob_session, &aad, b"hello alice");

    let alice_session = Session::establish(&alice, &verified(&bob)).unwrap();
    let plaintext = decrypt_direct_message(&alice_session, &bob.node_id(), &aad, &ciphertext).unwrap();
    assert_eq!(plaintext, b"hello alice");
}

#[test]
fn charlie_cannot_decrypt_alice_to_bob() {
    let alice = Identity::generate();
    let bob = Identity::generate();
    let charlie = Identity::generate();
    let alice_session = Session::establish(&alice, &verified(&bob)).unwrap();
    let aad = sample_aad(&alice, &bob);
    let ciphertext = encrypt_direct_message(&alice, &alice_session, &aad, b"private to bob");

    let charlie_session = Session::establish(&charlie, &verified(&alice)).unwrap();
    let result = decrypt_direct_message(&charlie_session, &alice.node_id(), &aad, &ciphertext);
    assert_eq!(result, Err(DirectCryptoError::DecryptionFailed));
}

#[test]
fn wrong_directional_key_fails() {
    let alice = Identity::generate();
    let bob = Identity::generate();
    let alice_session = Session::establish(&alice, &verified(&bob)).unwrap();
    let aad = sample_aad(&alice, &bob);
    let ciphertext = encrypt_direct_message(&alice, &alice_session, &aad, b"hello bob");

    let result = decrypt_direct_message(&alice_session, &alice.node_id(), &aad, &ciphertext);
    assert_eq!(result, Err(DirectCryptoError::DecryptionFailed));
}

#[test]
fn ciphertext_mutation_fails() {
    let alice = Identity::generate();
    let bob = Identity::generate();
    let alice_session = Session::establish(&alice, &verified(&bob)).unwrap();
    let aad = sample_aad(&alice, &bob);
    let mut ciphertext = encrypt_direct_message(&alice, &alice_session, &aad, b"hello bob");
    ciphertext.ciphertext[0] ^= 0xFF;

    let bob_session = Session::establish(&bob, &verified(&alice)).unwrap();
    assert!(decrypt_direct_message(&bob_session, &alice.node_id(), &aad, &ciphertext).is_err());
}

#[test]
fn nonce_mutation_fails() {
    let alice = Identity::generate();
    let bob = Identity::generate();
    let alice_session = Session::establish(&alice, &verified(&bob)).unwrap();
    let aad = sample_aad(&alice, &bob);
    let mut ciphertext = encrypt_direct_message(&alice, &alice_session, &aad, b"hello bob");
    ciphertext.nonce[0] ^= 0xFF;

    let bob_session = Session::establish(&bob, &verified(&alice)).unwrap();
    assert!(decrypt_direct_message(&bob_session, &alice.node_id(), &aad, &ciphertext).is_err());
}

#[test]
fn sender_mutation_fails() {
    let alice = Identity::generate();
    let bob = Identity::generate();
    let mallory = Identity::generate();
    let alice_session = Session::establish(&alice, &verified(&bob)).unwrap();
    let mut aad = sample_aad(&alice, &bob);
    let ciphertext = encrypt_direct_message(&alice, &alice_session, &aad, b"hello bob");

    aad.sender = mallory.node_id();
    let bob_session = Session::establish(&bob, &verified(&alice)).unwrap();
    assert!(decrypt_direct_message(&bob_session, &alice.node_id(), &aad, &ciphertext).is_err());
}

#[test]
fn recipient_mutation_fails() {
    let alice = Identity::generate();
    let bob = Identity::generate();
    let charlie = Identity::generate();
    let alice_session = Session::establish(&alice, &verified(&bob)).unwrap();
    let mut aad = sample_aad(&alice, &bob);
    let ciphertext = encrypt_direct_message(&alice, &alice_session, &aad, b"hello bob");

    aad.recipient = charlie.node_id();
    let bob_session = Session::establish(&bob, &verified(&alice)).unwrap();
    assert!(decrypt_direct_message(&bob_session, &alice.node_id(), &aad, &ciphertext).is_err());
}

#[test]
fn message_id_mutation_fails() {
    let alice = Identity::generate();
    let bob = Identity::generate();
    let alice_session = Session::establish(&alice, &verified(&bob)).unwrap();
    let mut aad = sample_aad(&alice, &bob);
    let ciphertext = encrypt_direct_message(&alice, &alice_session, &aad, b"hello bob");

    aad.message_id = [9u8; 16];
    let bob_session = Session::establish(&bob, &verified(&alice)).unwrap();
    assert!(decrypt_direct_message(&bob_session, &alice.node_id(), &aad, &ciphertext).is_err());
}

#[test]
fn message_type_mutation_fails() {
    let alice = Identity::generate();
    let bob = Identity::generate();
    let alice_session = Session::establish(&alice, &verified(&bob)).unwrap();
    let mut aad = sample_aad(&alice, &bob);
    let ciphertext = encrypt_direct_message(&alice, &alice_session, &aad, b"hello bob");

    aad.message_type = MessageType::CallSignal;
    let bob_session = Session::establish(&bob, &verified(&alice)).unwrap();
    assert!(decrypt_direct_message(&bob_session, &alice.node_id(), &aad, &ciphertext).is_err());
}

#[test]
fn created_at_mutation_fails() {
    let alice = Identity::generate();
    let bob = Identity::generate();
    let alice_session = Session::establish(&alice, &verified(&bob)).unwrap();
    let mut aad = sample_aad(&alice, &bob);
    let ciphertext = encrypt_direct_message(&alice, &alice_session, &aad, b"hello bob");

    aad.created_at += 1;
    let bob_session = Session::establish(&bob, &verified(&alice)).unwrap();
    assert!(decrypt_direct_message(&bob_session, &alice.node_id(), &aad, &ciphertext).is_err());
}

#[test]
fn expires_at_mutation_fails() {
    let alice = Identity::generate();
    let bob = Identity::generate();
    let alice_session = Session::establish(&alice, &verified(&bob)).unwrap();
    let mut aad = sample_aad(&alice, &bob);
    let ciphertext = encrypt_direct_message(&alice, &alice_session, &aad, b"hello bob");

    aad.expires_at += 1;
    let bob_session = Session::establish(&bob, &verified(&alice)).unwrap();
    assert!(decrypt_direct_message(&bob_session, &alice.node_id(), &aad, &ciphertext).is_err());
}

#[test]
fn max_hops_mutation_fails() {
    let alice = Identity::generate();
    let bob = Identity::generate();
    let alice_session = Session::establish(&alice, &verified(&bob)).unwrap();
    let mut aad = sample_aad(&alice, &bob);
    let ciphertext = encrypt_direct_message(&alice, &alice_session, &aad, b"hello bob");

    aad.max_hops += 1;
    let bob_session = Session::establish(&bob, &verified(&alice)).unwrap();
    assert!(decrypt_direct_message(&bob_session, &alice.node_id(), &aad, &ciphertext).is_err());
}

#[test]
fn hops_used_is_not_part_of_the_authenticated_data() {
    let alice = Identity::generate();
    let bob = Identity::generate();
    let alice_session = Session::establish(&alice, &verified(&bob)).unwrap();
    let aad = sample_aad(&alice, &bob);
    let ciphertext = encrypt_direct_message(&alice, &alice_session, &aad, b"hello bob");

    let bob_session = Session::establish(&bob, &verified(&alice)).unwrap();
    let plaintext = decrypt_direct_message(&bob_session, &alice.node_id(), &aad, &ciphertext).unwrap();
    assert_eq!(plaintext, b"hello bob");
}

#[test]
fn malformed_nonce_rejected_safely() {
    let alice = Identity::generate();
    let bob = Identity::generate();
    let alice_session = Session::establish(&alice, &verified(&bob)).unwrap();
    let aad = sample_aad(&alice, &bob);
    let mut ciphertext = encrypt_direct_message(&alice, &alice_session, &aad, b"hello bob");
    ciphertext.nonce = [0xFFu8; 24];

    let bob_session = Session::establish(&bob, &verified(&alice)).unwrap();
    assert!(decrypt_direct_message(&bob_session, &alice.node_id(), &aad, &ciphertext).is_err());
}

#[test]
fn truncated_ciphertext_rejected_safely() {
    let alice = Identity::generate();
    let bob = Identity::generate();
    let alice_session = Session::establish(&alice, &verified(&bob)).unwrap();
    let aad = sample_aad(&alice, &bob);
    let mut ciphertext = encrypt_direct_message(&alice, &alice_session, &aad, b"hello bob");
    ciphertext.ciphertext.truncate(4);

    let bob_session = Session::establish(&bob, &verified(&alice)).unwrap();
    assert_eq!(decrypt_direct_message(&bob_session, &alice.node_id(), &aad, &ciphertext), Err(DirectCryptoError::MalformedInput));
}

#[test]
fn empty_ciphertext_rejected_safely() {
    let alice = Identity::generate();
    let bob = Identity::generate();
    let alice_session = Session::establish(&alice, &verified(&bob)).unwrap();
    let aad = sample_aad(&alice, &bob);
    let mut ciphertext = encrypt_direct_message(&alice, &alice_session, &aad, b"hello bob");
    ciphertext.ciphertext.clear();

    let bob_session = Session::establish(&bob, &verified(&alice)).unwrap();
    assert_eq!(decrypt_direct_message(&bob_session, &alice.node_id(), &aad, &ciphertext), Err(DirectCryptoError::MalformedInput));
}

#[test]
fn random_garbage_never_panics() {
    let alice = Identity::generate();
    let bob = Identity::generate();
    let bob_session = Session::establish(&bob, &verified(&alice)).unwrap();
    let aad = sample_aad(&alice, &bob);

    let mut garbage_ciphertext = vec![0u8; 100];
    rand::rngs::OsRng.fill_bytes(&mut garbage_ciphertext);
    let mut garbage_signature = vec![0u8; 64];
    rand::rngs::OsRng.fill_bytes(&mut garbage_signature);
    let mut garbage_nonce = [0u8; 24];
    rand::rngs::OsRng.fill_bytes(&mut garbage_nonce);

    let garbage = DirectCiphertext {
        nonce: garbage_nonce,
        ciphertext: garbage_ciphertext,
        signature: garbage_signature,
    };
    let _ = decrypt_direct_message(&bob_session, &alice.node_id(), &aad, &garbage);
}

#[test]
fn unknown_encryption_version_rejected() {
    let alice = Identity::generate();
    let bob = Identity::generate();
    let alice_session = Session::establish(&alice, &verified(&bob)).unwrap();
    let mut aad = sample_aad(&alice, &bob);
    let ciphertext = encrypt_direct_message(&alice, &alice_session, &aad, b"hello bob");

    aad.encryption_version = 99;
    let bob_session = Session::establish(&bob, &verified(&alice)).unwrap();
    assert_eq!(
        decrypt_direct_message(&bob_session, &alice.node_id(), &aad, &ciphertext),
        Err(DirectCryptoError::UnknownEncryptionVersion)
    );
}

#[test]
fn unverified_public_identity_cannot_create_session() {
    let mallory = Identity::generate();
    let mut tampered = PublicIdentity::new(&Identity::generate());
    tampered.x25519_public = mallory.x25519_public();
    assert!(tampered.verify().is_err());
}

#[test]
fn missing_or_invalid_recipient_key_fails_closed() {
    let alice = Identity::generate();
    let mallory = Identity::generate();
    let mut tampered_bob = PublicIdentity::new(&Identity::generate());
    tampered_bob.x25519_public = mallory.x25519_public();

    let aad = sample_aad(&alice, &Identity::generate());
    let result = try_encrypt_direct_message(&alice, tampered_bob, &aad, b"hello bob");
    assert_eq!(result.unwrap_err(), DirectCryptoError::CannotEncryptForRecipient);
}

#[test]
fn no_plaintext_fallback_exists() {
    let alice = Identity::generate();
    let bob = Identity::generate();
    let aad = sample_aad(&alice, &bob);
    let result = try_encrypt_direct_message(&alice, PublicIdentity::new(&bob), &aad, b"hello bob");
    match result {
        Ok(ciphertext) => assert_ne!(ciphertext.ciphertext, b"hello bob"),
        Err(_) => panic!("expected success for a valid recipient in this test"),
    }
}

#[test]
fn app_restart_still_permits_decryption_with_restored_identity() {
    let alice = Identity::generate();
    let bob = Identity::generate();
    let bob_seed = bob.seed();

    let alice_session = Session::establish(&alice, &verified(&bob)).unwrap();
    let aad = sample_aad(&alice, &bob);
    let ciphertext = encrypt_direct_message(&alice, &alice_session, &aad, b"hi bob, see you after restart");

    let restored_bob = Identity::from_seed(bob_seed);
    let restored_bob_session = Session::establish(&restored_bob, &verified(&alice)).unwrap();

    let plaintext = decrypt_direct_message(&restored_bob_session, &alice.node_id(), &aad, &ciphertext).unwrap();
    assert_eq!(plaintext, b"hi bob, see you after restart");
}

#[test]
fn same_plaintext_encrypted_twice_produces_different_ciphertext() {
    let alice = Identity::generate();
    let bob = Identity::generate();
    let session = Session::establish(&alice, &verified(&bob)).unwrap();
    let aad = sample_aad(&alice, &bob);

    let first = encrypt_direct_message(&alice, &session, &aad, b"same message");
    let second = encrypt_direct_message(&alice, &session, &aad, b"same message");

    assert_ne!(first.nonce, second.nonce);
    assert_ne!(first.ciphertext, second.ciphertext);
}

#[test]
fn associated_data_is_the_fields_in_order() {
    let mut aad = DirectMessageAadV1::new(3, [1u8; 16], [2u8; 32], [3u8; 32], MessageType::DeliveryAck, 5, 6, 7);
    aad.encryption_version = 1;
    let mut expected = b"MESHTALK-AAD-V1".to_vec();
    expected.push(3);
    expected.push(1);
    expected.extend_from_slice(&[1u8; 16]);
    expected.extend_from_slice(&[2u8; 32]);
    expected.extend_from_slice(&[3u8; 32]);
    expected.push(3);
    expected.extend_from_slice(&5u64.to_be_bytes());
    expected.extend_from_slice(&6u64.to_be_bytes());
    expected.push(7);
    assert_eq!(encode_aad_v1(&aad), expected);
}

#[test]
fn a_header_vouches_for_its_sender_only() {
    let alice = Identity::generate();
    let header = DirectCryptoHeaderV1::new(&alice);
    assert!(header.verify_sender(alice.node_id()).is_some());
    assert!(header.verify_sender(Identity::generate().node_id()).is_none());
}

#[test]
fn a_signature_by_someone_else_is_told_apart() {
    let alice = Identity::generate();
    let bob = Identity::generate();
    let mallory = Identity::generate();
    let alice_session = Session::establish(&alice, &verified(&bob)).unwrap();
    let aad = sample_aad(&alice, &bob);
    let sealed = encrypt_direct_message(&alice, &alice_session, &aad, b"hello bob");
    let bob_session = Session::establish(&bob, &verified(&alice)).unwrap();
    assert_eq!(
        decrypt_direct_message(&bob_session, &mallory.node_id(), &aad, &sealed),
        Err(DirectCryptoError::SignatureInvalid)
    );
    let mut short = sealed.clone();
    short.signature.pop();
    assert_eq!(
        decrypt_direct_message(&bob_session, &alice.node_id(), &aad, &short),
        Err(DirectCryptoError::MalformedInput)
    );
}

#[test]
fn errors_say_what_is_wrong() {
    for (error, text) in [
        (DirectCryptoError::CannotEncryptForRecipient, "cannot encrypt for recipient: no verified session key available"),
        (DirectCryptoError::UnknownEncryptionVersion, "unknown encryption version"),
        (DirectCryptoError::SignatureInvalid, "signature invalid"),
        (DirectCryptoError::DecryptionFailed, "decryption failed"),
        (DirectCryptoError::MalformedInput, "malformed input"),
    ] {
        assert_eq!(error.message(), text);
    }
}

#[test]
fn what_is_sealed_for_a_recipient_opens_there() {
    let alice = Identity::generate();
    let bob = Identity::generate();
    let aad = sample_aad(&alice, &bob);
    let sealed = try_encrypt_direct_message(&alice, PublicIdentity::new(&bob), &aad, b"hello bob").unwrap();
    assert_eq!(sealed.ciphertext.len(), 9 + 16);
    assert_eq!(sealed.signature.len(), 64);
    let bob_session = Session::establish(&bob, &verified(&alice)).unwrap();
    assert_eq!(decrypt_direct_message(&bob_session, &alice.node_id(), &aad, &sealed).unwrap(), b"hello bob");
}
