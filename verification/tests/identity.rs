use meshtalk::bytes::{hex_decode, hex_encode};
use meshtalk::identity::{short_id, verify, x25519_binding_payload, Identity};

#[test]
fn seed_round_trip_preserves_node_id() {
    let original = Identity::generate();
    let seed = original.seed();
    let restored = Identity::from_seed(seed);
    assert_eq!(original.node_id(), restored.node_id());
}

#[test]
fn signatures_from_restored_identity_verify_against_original_node_id() {
    let original = Identity::generate();
    let seed = original.seed();
    let restored = Identity::from_seed(seed);
    let message = b"hello mesh";
    let sig = restored.sign(message);
    assert!(verify(&original.node_id(), message, &sig));
}

#[test]
fn freshly_generated_identities_are_distinct() {
    let a = Identity::generate();
    let b = Identity::generate();
    assert_ne!(a.node_id(), b.node_id());
}

#[test]
fn different_seeds_produce_different_node_ids() {
    let a = Identity::from_seed([1u8; 32]);
    let b = Identity::from_seed([2u8; 32]);
    assert_ne!(a.node_id(), b.node_id());
}

#[test]
fn same_seed_always_produces_same_node_id() {
    let a = Identity::from_seed([42u8; 32]);
    let b = Identity::from_seed([42u8; 32]);
    assert_eq!(a.node_id(), b.node_id());
}

#[test]
fn node_id_is_the_ed25519_public_key_of_the_seed() {
    let key = ed25519_dalek::SigningKey::from_bytes(&[7u8; 32]);
    let identity = Identity::from_seed([7u8; 32]);
    assert_eq!(identity.node_id(), key.verifying_key().to_bytes());
    assert_ne!(identity.node_id(), identity.seed());
}

#[test]
fn a_signature_is_not_accepted_for_other_data_or_another_node() {
    let alice = Identity::from_seed([1u8; 32]);
    let bob = Identity::from_seed([2u8; 32]);
    let sig = alice.sign(b"data");
    assert!(verify(&alice.node_id(), b"data", &sig));
    assert!(!verify(&alice.node_id(), b"Data", &sig));
    assert!(!verify(&bob.node_id(), b"data", &sig));
    let mut forged = sig;
    forged[0] ^= 1;
    assert!(!verify(&alice.node_id(), b"data", &forged));
}

#[test]
fn x25519_key_is_derived_in_its_own_domain() {
    let identity = Identity::from_seed([3u8; 32]);
    let secret = blake3::derive_key("meshtalk 2026 x25519-static-key v1", &[3u8; 32]);
    let public = x25519_dalek::PublicKey::from(&x25519_dalek::StaticSecret::from(secret));
    assert_eq!(identity.x25519_public(), public.to_bytes());
}

#[test]
fn binding_payload_is_domain_node_and_key() {
    let payload = x25519_binding_payload(&[1u8; 32], &[2u8; 32]);
    let mut expected = b"meshtalk/x25519-binding/v1".to_vec();
    expected.extend_from_slice(&[1u8; 32]);
    expected.extend_from_slice(&[2u8; 32]);
    assert_eq!(payload, expected);
}

#[test]
fn short_id_is_six_hexadecimal_digits() {
    let mut id = [0u8; 32];
    id[0] = 0xab;
    id[1] = 0x01;
    id[5] = 0xff;
    assert_eq!(short_id(&id), "ab0100");
    assert_eq!(short_id(&[0xab; 32]), "ababab");
}

#[test]
fn hexadecimal_text_reads_back() {
    assert_eq!(hex_encode(&[0x00, 0x7f, 0xa0, 0xff]), "007fa0ff");
    assert_eq!(hex_decode::<4>("007fa0ff"), Some([0x00, 0x7f, 0xa0, 0xff]));
    assert_eq!(hex_decode::<4>("007FA0FF"), Some([0x00, 0x7f, 0xa0, 0xff]));
    assert_eq!(hex_decode::<4>("007fa0f"), None);
    assert_eq!(hex_decode::<4>("007fa0fg"), None);
    assert_eq!(hex_decode::<4>("007fa0ff00"), None);
    assert_eq!(hex_decode::<1>("+1"), None);
    assert_eq!(hex_decode::<1>("\u{e9}"), None);
    assert_eq!(hex_decode::<0>(""), Some([]));
}
