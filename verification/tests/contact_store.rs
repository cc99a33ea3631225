use meshtalk::contact_store::{
    ContactStore, PersistedContactV1, PersistedStoreV1, PersistedVerificationState, SCHEMA_VERSION,
};
use meshtalk::direct_crypto::ENCRYPTION_VERSION;
use meshtalk::identity::Identity;
use meshtalk::session::{session_protocol_version, ContactRecord, PublicIdentity, VerificationState};

fn sample_contact_record(now: u64) -> ContactRecord {
    let peer = Identity::generate();
    ContactRecord::new(PublicIdentity::new(&peer), Some("Bob".to_string()), now)
}

#[test]
fn a_saved_store_reopens_with_the_same_contact() {
    let mut store = ContactStore::new();
    assert!(store.is_empty(), "nothing persisted yet on first open");
    let record = sample_contact_record(1000);
    let node_id = record.public_identity.node_id;
    store.insert(record);

    let reloaded = ContactStore::from_persisted(store.to_persisted()).unwrap();
    assert_eq!(reloaded.len(), 1);
    let reloaded_record = reloaded.get(&node_id).unwrap();
    assert_eq!(reloaded_record.advertised_name.as_deref(), Some("Bob"));
    assert_eq!(reloaded_record.first_seen_ms, 1000);
}

#[test]
fn local_alias_and_verification_survive_a_restart() {
    let mut store = ContactStore::new();
    let mut record = sample_contact_record(2000);
    let node_id = record.public_identity.node_id;
    record.local_alias = Some("My Best Friend".to_string());
    record.mark_verified();
    store.insert(record);

    let reloaded = ContactStore::from_persisted(store.to_persisted()).unwrap();
    let reloaded_record = reloaded.get(&node_id).unwrap();
    assert_eq!(reloaded_record.local_alias.as_deref(), Some("My Best Friend"));
    assert_eq!(reloaded_record.verification, VerificationState::Verified);
}

#[test]
fn identity_change_pending_survives_a_restart() {
    let mut store = ContactStore::new();
    let mut record = sample_contact_record(3000);
    let node_id = record.public_identity.node_id;
    record.mark_identity_change_pending();
    store.insert(record);

    let reloaded = ContactStore::from_persisted(store.to_persisted()).unwrap();
    let reloaded_record = reloaded.get(&node_id).unwrap();
    assert!(reloaded_record.identity_change_pending);
    assert_eq!(reloaded_record.verification, VerificationState::Unverified);
}

#[test]
fn an_unrecognized_schema_version_fails_safe() {
    let file = PersistedStoreV1 { schema_version: 999, contacts: vec![] };
    assert!(ContactStore::from_persisted(file).is_none());
}

#[test]
fn the_stored_form_carries_its_versions() {
    let mut store = ContactStore::new();
    let mut record = sample_contact_record(7);
    record.mark_verified();
    store.insert(record);
    let file = store.to_persisted();
    assert_eq!(file.schema_version, SCHEMA_VERSION);
    assert_eq!(file.contacts.len(), 1);
    assert_eq!(file.contacts[0].session_protocol_version, session_protocol_version());
    assert_eq!(file.contacts[0].encryption_version, ENCRYPTION_VERSION);
    assert_eq!(file.contacts[0].verification, PersistedVerificationState::Verified);
    assert_eq!(file.contacts[0].last_seen_ms, 7);
}

#[test]
fn of_two_stored_records_of_a_node_the_last_counts() {
    let peer = Identity::generate();
    let first = ContactRecord::new(PublicIdentity::new(&peer), Some("old".to_string()), 1);
    let second = ContactRecord::new(PublicIdentity::new(&peer), Some("new".to_string()), 2);
    let file = PersistedStoreV1 {
        schema_version: SCHEMA_VERSION,
        contacts: vec![
            PersistedContactV1::from_contact_record(&first),
            PersistedContactV1::from_contact_record(&sample_contact_record(9)),
            PersistedContactV1::from_contact_record(&second),
        ],
    };
    let store = ContactStore::from_persisted(file).unwrap();
    assert_eq!(store.len(), 2);
    assert_eq!(store.get(&peer.node_id()).unwrap().advertised_name.as_deref(), Some("new"));
    assert_eq!(store.all()[0].first_seen_ms, 2);
}

#[test]
fn an_inserted_record_replaces_the_one_of_its_node() {
    let peer = Identity::generate();
    let mut store = ContactStore::new();
    store.insert(ContactRecord::new(PublicIdentity::new(&peer), None, 1));
    store.insert(sample_contact_record(2));
    store.insert(ContactRecord::new(PublicIdentity::new(&peer), Some("x".to_string()), 3));
    assert_eq!(store.len(), 2);
    assert_eq!(store.get(&peer.node_id()).unwrap().first_seen_ms, 3);
    assert!(store.get(&[0u8; 32]).is_none());
    store.clear();
    assert!(store.is_empty());
}
