use meshtalk::identity::{Identity, X25519Public};
use meshtalk::session::{
    session_protocol_version, ContactRecord, PublicIdentity, Session, SessionKeyPair, VerificationState,
    VerifiedPublicIdentity,
};

#[test]
fn alice_and_bob_derive_matching_shared_secret() {
    let alice = Identity::generate();
    let bob = Identity::generate();

    let alice_secret = alice.derive_shared_secret(&bob.x25519_public()).unwrap();
    let bob_secret = bob.derive_shared_secret(&alice.x25519_public()).unwrap();

    assert_eq!(alice_secret, bob_secret);
}

#[test]
fn alice_and_charlie_do_not_derive_the_same_secret_as_alice_and_bob() {
    let alice = Identity::generate();
    let bob = Identity::generate();
    let charlie = Identity::generate();

    let alice_bob_secret = alice.derive_shared_secret(&bob.x25519_public()).unwrap();
    let alice_charlie_secret = alice.derive_shared_secret(&charlie.x25519_public()).unwrap();

    assert_ne!(alice_bob_secret, alice_charlie_secret);
}

#[test]
fn all_zero_peer_public_key_is_rejected_as_non_contributory() {
    let alice = Identity::generate();
    let all_zero_public_key: X25519Public = [0u8; 32];
    assert!(alice.derive_shared_secret(&all_zero_public_key).is_none());
}

#[test]
fn both_sides_derive_identical_session_keys_regardless_of_argument_order() {
    let alice = Identity::generate();
    let bob = Identity::generate();
    let shared = alice.derive_shared_secret(&bob.x25519_public()).unwrap();

    let alice_view = SessionKeyPair::derive(&shared, &alice.node_id(), &bob.node_id(), &alice.x25519_public(), &bob.x25519_public());
    let bob_view = SessionKeyPair::derive(&shared, &bob.node_id(), &alice.node_id(), &bob.x25519_public(), &alice.x25519_public());

    assert!(alice_view == bob_view);
}

#[test]
fn alice_send_key_equals_bob_recv_key_and_vice_versa() {
    let alice = Identity::generate();
    let bob = Identity::generate();
    let shared = alice.derive_shared_secret(&bob.x25519_public()).unwrap();
    let keys = SessionKeyPair::derive(&shared, &alice.node_id(), &bob.node_id(), &alice.x25519_public(), &bob.x25519_public());

    assert_eq!(
        keys.send_key(&alice.node_id(), &bob.node_id()),
        keys.recv_key(&bob.node_id(), &alice.node_id()),
        "A.send must equal B.recv"
    );
    assert_eq!(
        keys.send_key(&bob.node_id(), &alice.node_id()),
        keys.recv_key(&alice.node_id(), &bob.node_id()),
        "B.send must equal A.recv"
    );
}

#[test]
fn send_and_recv_keys_are_different_from_each_other() {
    let alice = Identity::generate();
    let bob = Identity::generate();
    let shared = alice.derive_shared_secret(&bob.x25519_public()).unwrap();
    let keys = SessionKeyPair::derive(&shared, &alice.node_id(), &bob.node_id(), &alice.x25519_public(), &bob.x25519_public());

    assert_ne!(
        keys.send_key(&alice.node_id(), &bob.node_id()),
        keys.recv_key(&alice.node_id(), &bob.node_id()),
        "A.send must not equal A.recv"
    );
}

#[test]
fn swapping_peer_identity_changes_derived_keys() {
    let alice = Identity::generate();
    let bob = Identity::generate();
    let charlie = Identity::generate();
    let shared = [7u8; 32];

    let with_bob = SessionKeyPair::derive(&shared, &alice.node_id(), &bob.node_id(), &alice.x25519_public(), &bob.x25519_public());
    let with_charlie = SessionKeyPair::derive(&shared, &alice.node_id(), &charlie.node_id(), &alice.x25519_public(), &charlie.x25519_public());

    assert!(with_bob != with_charlie);
}

#[test]
fn swapping_x25519_keys_changes_derived_keys() {
    let alice = Identity::generate();
    let bob = Identity::generate();
    let shared = [7u8; 32];
    let real_bob_x25519 = bob.x25519_public();
    let substituted_x25519: X25519Public = [9u8; 32];

    let real = SessionKeyPair::derive(&shared, &alice.node_id(), &bob.node_id(), &alice.x25519_public(), &real_bob_x25519);
    let substituted = SessionKeyPair::derive(&shared, &alice.node_id(), &bob.node_id(), &alice.x25519_public(), &substituted_x25519);

    assert!(real != substituted);
}

#[test]
fn self_session_is_well_defined_and_does_not_panic() {
    let alice = Identity::generate();
    let self_secret_a = alice.derive_shared_secret(&alice.x25519_public()).unwrap();
    let self_secret_b = alice.derive_shared_secret(&alice.x25519_public()).unwrap();
    assert_eq!(self_secret_a, self_secret_b);

    let keys = SessionKeyPair::derive(&self_secret_a, &alice.node_id(), &alice.node_id(), &alice.x25519_public(), &alice.x25519_public());
    let send_once = keys.send_key(&alice.node_id(), &alice.node_id());
    let send_again = keys.send_key(&alice.node_id(), &alice.node_id());
    let recv_once = keys.recv_key(&alice.node_id(), &alice.node_id());
    let recv_again = keys.recv_key(&alice.node_id(), &alice.node_id());
    assert_eq!(send_once, send_again);
    assert_eq!(recv_once, recv_again);
}

#[test]
fn valid_x25519_binding_verifies() {
    let alice = Identity::generate();
    let public_identity = PublicIdentity::new(&alice);
    assert!(public_identity.verify_binding());
}

#[test]
fn tampered_x25519_public_key_fails_binding_verification() {
    let alice = Identity::generate();
    let mallory = Identity::generate();
    let mut public_identity = PublicIdentity::new(&alice);
    public_identity.x25519_public = mallory.x25519_public();
    assert!(!public_identity.verify_binding());
}

#[test]
fn signature_without_domain_separator_is_rejected() {
    let alice = Identity::generate();
    let old_style_signature = alice.sign(&alice.x25519_public());
    let public_identity = PublicIdentity {
        node_id: alice.node_id(),
        x25519_public: alice.x25519_public(),
        x25519_signature: old_style_signature.to_vec(),
    };
    assert!(!public_identity.verify_binding());
}

#[test]
fn restored_persistent_identity_derives_the_same_public_identity() {
    let original = Identity::generate();
    let seed = original.seed();
    let restored = Identity::from_seed(seed);

    assert_eq!(original.x25519_public(), restored.x25519_public());
    assert_eq!(original.sign_x25519_public(), restored.sign_x25519_public());
    assert!(PublicIdentity::new(&restored).verify_binding());
}

#[test]
fn malformed_public_identity_fails_safely() {
    let unrelated_signature = vec![0u8; 64];
    let public_identity = PublicIdentity {
        node_id: Identity::generate().node_id(),
        x25519_public: Identity::generate().x25519_public(),
        x25519_signature: unrelated_signature,
    };
    assert!(!public_identity.verify_binding());
}

#[test]
fn wrong_length_signature_fails_safely() {
    let alice = Identity::generate();
    let mut public_identity = PublicIdentity::new(&alice);
    public_identity.x25519_signature = vec![0u8; 10];
    assert!(!public_identity.verify_binding());
}

#[test]
fn contact_record_always_starts_unverified_regardless_of_network_data() {
    let alice = Identity::generate();
    let public_identity = PublicIdentity::new(&alice);
    let contact = ContactRecord::new(public_identity, Some("Totally Legit Bob".to_string()), 12_345);
    assert_eq!(contact.verification, VerificationState::Unverified);
}

#[test]
fn contact_record_display_name_prefers_local_alias_over_advertised_name() {
    let alice = Identity::generate();
    let public_identity = PublicIdentity::new(&alice);
    let mut contact = ContactRecord::new(public_identity, Some("advertised".to_string()), 0);
    assert_eq!(contact.display_name(), "advertised");
    contact.local_alias = Some("my alias for them".to_string());
    assert_eq!(contact.display_name(), "my alias for them");
}


fn verified(identity: &Identity) -> VerifiedPublicIdentity {
    PublicIdentity::new(identity).verify().unwrap()
}

#[test]
fn session_establish_fails_for_non_contributory_peer_key() {
    let alice = Identity::generate();
    let mut tampered = PublicIdentity::new(&Identity::generate());
    tampered.x25519_public = [0u8; 32];
    assert!(tampered.verify().is_err());
    let _ = alice;
}

#[test]
fn alice_outbound_equals_bob_inbound_and_vice_versa() {
    let alice = Identity::generate();
    let bob = Identity::generate();

    let alice_session = Session::establish(&alice, &verified(&bob)).unwrap();
    let bob_session = Session::establish(&bob, &verified(&alice)).unwrap();

    assert_eq!(alice_session.outbound_key(), bob_session.inbound_key(), "Alice.outbound == Bob.inbound");
    assert_eq!(bob_session.outbound_key(), alice_session.inbound_key(), "Bob.outbound == Alice.inbound");
}

#[test]
fn alice_outbound_differs_from_alice_inbound() {
    let alice = Identity::generate();
    let bob = Identity::generate();

    let alice_session = Session::establish(&alice, &verified(&bob)).unwrap();
    let bob_session = Session::establish(&bob, &verified(&alice)).unwrap();

    assert_ne!(alice_session.outbound_key(), alice_session.inbound_key());
    assert_ne!(bob_session.outbound_key(), bob_session.inbound_key());
}

#[test]
fn session_keys_are_derived_in_three_domains() {
    let shared = [7u8; 32];
    let (low, high) = ([1u8; 32], [2u8; 32]);
    let (low_x, high_x) = ([3u8; 32], [4u8; 32]);
    let keys = SessionKeyPair::derive(&shared, &high, &low, &high_x, &low_x);
    let mut material = vec![meshtalk::message::PROTOCOL_VERSION, session_protocol_version()];
    material.extend_from_slice(&shared);
    material.extend_from_slice(&low);
    material.extend_from_slice(&high);
    material.extend_from_slice(&low_x);
    material.extend_from_slice(&high_x);
    let root = blake3::derive_key("meshtalk 2026 session-root v1", &material);
    assert_eq!(keys.send_key(&low, &high), blake3::derive_key("meshtalk 2026 session-send v1", &root));
    assert_eq!(keys.send_key(&high, &low), blake3::derive_key("meshtalk 2026 session-recv v1", &root));
}

#[test]
fn a_session_knows_its_two_ends() {
    let alice = Identity::generate();
    let bob = Identity::generate();
    let session = Session::establish(&alice, &verified(&bob)).unwrap();
    assert_eq!(session.local_node_id(), alice.node_id());
    assert_eq!(session.peer_node_id(), bob.node_id());
}

#[test]
fn a_key_change_takes_trust_away_until_verified_again() {
    let mut contact = ContactRecord::new(PublicIdentity::new(&Identity::generate()), None, 5);
    assert_eq!(contact.display_name().len(), 6);
    contact.mark_verified();
    assert_eq!(contact.verification, VerificationState::Verified);
    contact.mark_identity_change_pending();
    assert_eq!(contact.verification, VerificationState::Unverified);
    assert!(contact.identity_change_pending);
    contact.acknowledge_identity_change();
    assert!(!contact.identity_change_pending);
    assert_eq!(contact.verification, VerificationState::Unverified);
    contact.mark_identity_change_pending();
    contact.mark_verified();
    assert!(!contact.identity_change_pending);
    contact.touch_last_seen(9);
    assert_eq!((contact.first_seen_ms, contact.last_seen_ms), (5, 9));
}
