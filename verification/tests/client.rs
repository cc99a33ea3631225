use meshtalk::bytes::{hex_decode, hex_encode};
use meshtalk::call::{CallFrame, CallMessage, CallSignal, MediaKind};
use meshtalk::client::{
    parse_target_and_call, pause_before_signal, resolve_identity, resolve_storage_key, ClientStores, MeshClient,
    MeshClientConfig, CONTACT_EVENT_CAPACITY, INBOX_CAPACITY,
};
use meshtalk::contact_store::ContactStore;
use meshtalk::delivery_store::DeliveryStore;
use meshtalk::discovery::{Announcement, LanDiscovery};
use meshtalk::forward_store::ForwardStore;
use meshtalk::identity::Identity;
use meshtalk::inbox_store::{InboxStore, StoredMessage};
use meshtalk::node::{DeliveredContent, IncomingEvent, Local};
use meshtalk::payload::{ContentKind, ReceivedContent, TransferProgress, CHUNK_SIZE};
use meshtalk::records::{
    AttachmentKind, CallEventKind, CallMediaKind, ContactEventKind, ContactVerification, SendOutcome, TransferDirection,
};
use meshtalk::replay_store::ReplayStore;
use meshtalk::session::{ContactRecord, PublicIdentity, VerificationState};
use meshtalk::wire::decode_envelope;

const NOW: u64 = 1_700_000_000_000;

fn config(name: &str, seed: Option<Vec<u8>>) -> MeshClientConfig {
    MeshClientConfig {
        display_name: name.to_string(),
        listen_addr: "127.0.0.1:0".to_string(),
        peer_addrs: vec![],
        channel_passphrase: "test-channel".to_string(),
        ttl: 8,
        identity_seed: seed,
        contacts_db_path: None,
        replay_store_path: None,
        delivery_store_path: None,
        forward_store_path: None,
        inbox_store_path: None,
        inbox_storage_key: None,
    }
}

fn stores(contacts: ContactStore) -> ClientStores {
    ClientStores {
        contacts,
        replay: ReplayStore::in_memory(),
        delivery: DeliveryStore::in_memory(),
        forward: ForwardStore::in_memory(),
        inbox: InboxStore::with_key([0x11; 32], 5_000),
    }
}

fn client(name: &str, seed: Option<Vec<u8>>) -> MeshClient {
    MeshClient::new(config(name, seed), [0x11; 32], stores(ContactStore::new()))
}

fn bob_record(bob: &Identity) -> ContactRecord {
    ContactRecord::new(PublicIdentity::new(bob), Some("Bob".to_string()), NOW)
}

/// Takes a packet in and stores what it carries.
fn receive(client: &mut MeshClient, raw: &[u8]) -> Option<IncomingEvent> {
    match client.node_mut().handle_incoming(raw, NOW, 0).unwrap().local {
        Local::Store(pending) => client.node_mut().store_content(pending, NOW).event,
        Local::Event(event) => Some(event),
        _ => None,
    }
}

#[test]
fn resolve_identity_reuses_a_valid_saved_seed() {
    let original = Identity::generate();
    let seed = original.seed().to_vec();
    let restored = resolve_identity(Some(seed));
    assert_eq!(original.node_id(), restored.node_id());
}

#[test]
fn resolve_identity_generates_fresh_identity_when_none_saved() {
    let a = resolve_identity(None);
    let b = resolve_identity(None);
    assert_ne!(a.node_id(), b.node_id());
}

#[test]
fn resolve_identity_falls_back_safely_on_wrong_length_seed() {
    let too_short = vec![1, 2, 3];
    let identity = resolve_identity(Some(too_short));
    let _ = identity.node_id();

    let too_long = vec![0u8; 64];
    let identity = resolve_identity(Some(too_long));
    let _ = identity.node_id();

    let empty: Vec<u8> = Vec::new();
    let identity = resolve_identity(Some(empty));
    let _ = identity.node_id();
}

#[test]
fn a_storage_key_is_reused_or_drawn() {
    assert_eq!(resolve_storage_key(Some(vec![7u8; 32])), [7u8; 32]);
    assert_ne!(resolve_storage_key(None), resolve_storage_key(None));
    assert_ne!(resolve_storage_key(Some(vec![7u8; 31])), resolve_storage_key(Some(vec![7u8; 31])));
}

#[test]
fn contacts_persist_across_a_simulated_app_restart() {
    let seed = Identity::generate().seed().to_vec();
    let peer_identity = Identity::generate();
    let peer_node_id = peer_identity.node_id();

    let mut first = client("Alice", Some(seed.clone()));
    first.insert_contact(bob_record(&peer_identity));
    assert_eq!(first.contacts().len(), 1, "contact should be visible before the simulated restart");
    let file = first.persisted_contacts();
    drop(first);

    let contacts = ContactStore::from_persisted(file).unwrap();
    let mut restarted = MeshClient::new(config("Alice", Some(seed)), [0x11; 32], stores(contacts));
    let contacts = restarted.contacts();
    assert_eq!(contacts.len(), 1, "contact discovered before the simulated restart should still be there");
    assert_eq!(contacts[0].full_node_id, hex_encode(&peer_node_id));

    let (outcome, _) = restarted.send(&hex_encode(&peer_node_id), "hello from a fresh launch", NOW);
    assert_eq!(outcome, SendOutcome::Sent);
}

#[test]
fn persisted_offline_contact_survives_restart_and_decrypts_after_capture() {
    let alice_seed = Identity::generate().seed().to_vec();
    let bob_identity = Identity::generate();
    let bob_node_id = bob_identity.node_id();

    let mut alice1 = client("Alice", Some(alice_seed.clone()));
    alice1.insert_contact(bob_record(&bob_identity));
    let file = alice1.persisted_contacts();
    drop(alice1);

    let contacts = ContactStore::from_persisted(file).unwrap();
    let mut alice2 = MeshClient::new(config("Alice", Some(alice_seed)), [0x11; 32], stores(contacts));
    let alice_node_id = hex_decode::<32>(&alice2.full_node_id()).unwrap();
    assert_eq!(alice2.contacts().len(), 1, "Bob's identity should have survived Alice's restart");
    let (outcome, outgoing) = alice2.send(&hex_encode(&bob_node_id), "hello Bob", NOW);
    assert_eq!(
        outcome,
        SendOutcome::Sent,
        "sending to a known-but-currently-offline contact must still succeed at the encryption/send step"
    );
    let captured = outgoing.unwrap().bytes;
    drop(alice2);

    let haystack = String::from_utf8_lossy(&captured);
    assert!(!haystack.contains("hello Bob"), "plaintext must never appear in the transmitted bytes");

    let mut bob2 = client("Bob", Some(bob_identity.seed().to_vec()));
    match receive(&mut bob2, &captured) {
        Some(IncomingEvent::Content(delivered)) => {
            assert_eq!(delivered.sender, alice_node_id);
            assert!(matches!(delivered.content, ReceivedContent::Text(ref text) if text == "hello Bob"));
        }
        _ => panic!("expected a decrypted text message from Alice"),
    }
}

#[test]
fn replayed_packet_is_rejected_after_a_mesh_client_restart() {
    let bob_identity = Identity::generate();
    let bob_seed = bob_identity.seed().to_vec();
    let mut alice = client("Alice", None);
    alice.insert_contact(bob_record(&bob_identity));
    let (outcome, outgoing) = alice.send(&hex_encode(&bob_identity.node_id()), "hello Bob", NOW);
    assert_eq!(outcome, SendOutcome::Sent);
    let captured = outgoing.unwrap().bytes;

    let mut bob1 = client("Bob", Some(bob_seed.clone()));
    assert!(matches!(receive(&mut bob1, &captured), Some(IncomingEvent::Content(_))));
    let rows = bob1.node().replay().rows().clone();
    drop(bob1);

    let mut restarted = stores(ContactStore::new());
    restarted.replay = ReplayStore::from_rows(rows, 50_000);
    let mut bob2 = MeshClient::new(config("Bob", Some(bob_seed)), [0x11; 32], restarted);
    assert!(
        receive(&mut bob2, &captured).is_none(),
        "a replayed packet must be rejected even after MeshClient restarts, given the same replay_store_path"
    );
}

#[test]
fn send_reports_too_long_explicitly_instead_of_silently_falling_back() {
    let mut alice = client("Alice", None);
    let bob_identity = Identity::generate();
    alice.insert_contact(bob_record(&bob_identity));

    let too_long = "x".repeat(CHUNK_SIZE + 1);
    let (outcome, outgoing) = alice.send(&hex_encode(&bob_identity.node_id()), &too_long, NOW);
    assert_eq!(outcome, SendOutcome::TooLongForReliableText);
    assert!(outgoing.is_none());

    let (outcome, _) = alice.send(&hex_encode(&bob_identity.node_id()), "short", NOW);
    assert_eq!(outcome, SendOutcome::Sent);
}

#[test]
fn chat_history_survives_a_mesh_client_restart() {
    let bob_identity = Identity::generate();
    let bob_seed = bob_identity.seed().to_vec();
    let bob_inbox_storage_key = [0x11u8; 32];
    let mut alice = client("Alice", None);
    alice.insert_contact(bob_record(&bob_identity));

    let mut with_inbox = stores(ContactStore::new());
    with_inbox.inbox = InboxStore::with_key(bob_inbox_storage_key, 5_000);
    let mut bob = MeshClient::new(config("Bob", Some(bob_seed.clone())), bob_inbox_storage_key, with_inbox);
    let (outcome, outgoing) = alice.send(&bob.full_node_id(), "hello Bob", NOW);
    assert_eq!(outcome, SendOutcome::Sent);
    receive(&mut bob, &outgoing.unwrap().bytes);
    assert_eq!(bob.chat_history().len(), 1, "bob should have received alice's message");
    let rows: Vec<StoredMessage> = bob
        .node()
        .inbox()
        .rows()
        .iter()
        .map(|row| StoredMessage {
            sender: row.sender,
            message_id: row.message_id,
            received_at: row.received_at,
            nonce: row.nonce.clone(),
            content_ciphertext: row.content_ciphertext.clone(),
        })
        .collect();
    drop(bob);

    let mut reopened = stores(ContactStore::new());
    reopened.inbox = InboxStore::from_rows(rows, bob_inbox_storage_key, 5_000);
    let bob_restarted = MeshClient::new(config("Bob", Some(bob_seed)), bob_inbox_storage_key, reopened);
    let history = bob_restarted.chat_history();
    assert_eq!(history.len(), 1, "chat history must survive a restart -- it lives in the durable inbox, not an in-memory list");
    assert_eq!(history[0].text.as_deref(), Some("hello Bob"));
    assert_eq!(history[0].peer_id, alice.full_node_id());
    assert_eq!(history[0].sender_id, alice.node_id());

    let page = bob_restarted.chat_history_page(&alice.full_node_id(), None, 10);
    assert_eq!(page.len(), 1);
    assert!(bob_restarted.chat_history_page(&alice.full_node_id(), Some(NOW), 10).is_empty());
    assert!(bob_restarted.chat_history_page(&alice.full_node_id(), None, 0).is_empty());
    assert!(bob_restarted.chat_history_page("not hex", None, 10).is_empty());
}

#[test]
fn a_client_shows_its_ids_and_keys() {
    let alice = client("Alice", Some(vec![5u8; 32]));
    let id = Identity::from_seed([5u8; 32]).node_id();
    assert_eq!(alice.identity_seed(), "05".repeat(32));
    assert_eq!(alice.inbox_storage_key(), "11".repeat(32));
    assert_eq!(alice.full_node_id(), hex_encode(&id));
    assert_eq!(alice.node_id(), hex_encode(&id[..3]));
    assert_eq!(alice.display_name(), "Alice");
}

#[test]
fn nothing_is_sent_to_strangers() {
    let mut alice = client("Alice", None);
    let stranger = hex_encode(&Identity::generate().node_id());
    assert_eq!(alice.send(&stranger, "hi", NOW).0, SendOutcome::Failed);
    assert_eq!(alice.send("garbage", "hi", NOW).0, SendOutcome::Failed);
    assert!(alice.send_file(&stranger, b"x", "n".to_string(), "m".to_string(), AttachmentKind::File).is_none());
    assert!(alice.node().deliveries().is_empty());

    let bob = Identity::generate();
    let mut record = bob_record(&bob);
    record.public_identity.x25519_public = Identity::generate().x25519_public();
    alice.insert_contact(record);
    assert_eq!(alice.send(&hex_encode(&bob.node_id()), "hi", NOW).0, SendOutcome::Failed);
}

#[test]
fn a_file_to_a_contact_is_sent_in_chunks() {
    let mut alice = client("Alice", None);
    let bob = Identity::generate();
    alice.insert_contact(bob_record(&bob));
    let mut transfer = alice
        .send_file(
            &hex_encode(&bob.node_id()),
            &vec![1u8; CHUNK_SIZE + 1],
            "n".to_string(),
            "m".to_string(),
            AttachmentKind::Video,
        )
        .unwrap();
    let mut count = 0;
    while let Some(step) = alice.node_mut().send_next_chunk(&mut transfer, NOW) {
        let sent = step.unwrap();
        count += 1;
        assert_eq!(sent.progress.kind, ContentKind::Video);
        alice.take_sending_progress(sent.progress);
    }
    assert_eq!(count, 2);
    let update = alice.poll_transfer_progress().unwrap();
    assert_eq!(update.direction, TransferDirection::Sending);
    assert_eq!((update.done_chunks, update.total_chunks), (1, 2));
    assert_eq!(update.kind, AttachmentKind::Video);
    assert_eq!(alice.poll_transfer_progress().unwrap().done_chunks, 2);
    assert!(alice.poll_transfer_progress().is_none());
}

fn text_event(id: u32, text: &str) -> IncomingEvent {
    let mut message_id = [0u8; 16];
    message_id[..4].copy_from_slice(&id.to_be_bytes());
    IncomingEvent::Content(DeliveredContent {
        sender: [0xab; 32],
        sender_identity: None,
        message_id,
        content: ReceivedContent::Text(text.to_string()),
    })
}

#[test]
fn messages_wait_in_order_and_the_oldest_go_first() {
    let mut alice = client("Alice", None);
    assert!(alice.poll_message().is_none());
    for i in 0..INBOX_CAPACITY as u32 + 3 {
        alice.take_event(text_event(i, &format!("m{i}")));
    }
    let first = alice.poll_message().unwrap();
    assert_eq!(first.text.as_deref(), Some("m3"));
    assert_eq!(first.peer_id, "ab".repeat(32));
    assert_eq!(first.sender_id, "ababab");
    assert_eq!(first.message_id, "00000003000000000000000000000000");
    assert!(first.attachment.is_none());
    let mut count = 1;
    while alice.poll_message().is_some() {
        count += 1;
    }
    assert_eq!(count, INBOX_CAPACITY);
}

#[test]
fn a_received_file_is_shown_as_an_attachment() {
    let mut alice = client("Alice", None);
    alice.take_event(IncomingEvent::Content(DeliveredContent {
        sender: [1u8; 32],
        sender_identity: None,
        message_id: [2u8; 16],
        content: ReceivedContent::File {
            transfer_id: [3u8; 16],
            name: "n".to_string(),
            mime: "m".to_string(),
            kind: ContentKind::Voice,
            data: vec![4],
        },
    }));
    let message = alice.poll_message().unwrap();
    assert!(message.text.is_none());
    let attachment = message.attachment.unwrap();
    assert_eq!(attachment.transfer_id, "03".repeat(16));
    assert_eq!(attachment.kind, AttachmentKind::Voice);
    assert_eq!((attachment.name.as_str(), attachment.mime.as_str()), ("n", "m"));
    assert_eq!(attachment.data, vec![4]);
}

#[test]
fn progress_and_calls_are_reported() {
    let mut alice = client("Alice", None);
    alice.take_event(IncomingEvent::Progress(
        [1u8; 32],
        TransferProgress { transfer_id: [2u8; 16], kind: ContentKind::Text, done_chunks: 1, total_chunks: 4 },
    ));
    let update = alice.poll_transfer_progress().unwrap();
    assert_eq!(update.transfer_id, "02".repeat(16));
    assert_eq!(update.kind, AttachmentKind::File);
    assert_eq!(update.direction, TransferDirection::Receiving);
    assert_eq!((update.done_chunks, update.total_chunks), (1, 4));

    for (signal, kind) in [
        (CallSignal::Invite { call_id: [3u8; 16], video: true }, CallEventKind::IncomingInvite { video: true }),
        (CallSignal::Accept { call_id: [3u8; 16] }, CallEventKind::Accepted),
        (CallSignal::Reject { call_id: [3u8; 16] }, CallEventKind::Rejected),
        (CallSignal::End { call_id: [3u8; 16] }, CallEventKind::Ended),
    ] {
        alice.take_event(IncomingEvent::Call([1u8; 32], CallMessage::Signal(signal)));
        let event = alice.poll_call_event().unwrap();
        assert_eq!(event.call_id, "03".repeat(16));
        assert_eq!(event.remote_node_id, "01".repeat(32));
        assert_eq!(event.remote_short_id, "010101");
        assert_eq!(event.kind, kind);
    }
    assert!(alice.poll_call_event().is_none());

    let frame = CallFrame { call_id: [3u8; 16], media: MediaKind::Audio, sequence: 5, data: vec![9] };
    alice.take_event(IncomingEvent::Call([1u8; 32], CallMessage::Frame(frame)));
    let shown = alice.poll_call_frame().unwrap();
    assert_eq!(shown.call_id, "03".repeat(16));
    assert_eq!(shown.remote_node_id, "01".repeat(32));
    assert_eq!(shown.media, CallMediaKind::Audio);
    assert_eq!((shown.sequence, shown.data), (5, vec![9]));
    assert!(alice.poll_call_frame().is_none());
}

#[test]
fn a_call_is_started_answered_and_carried() {
    let mut alice = client("Alice", None);
    let mut bob = client("Bob", None);
    let (call_id, invite) = alice.start_call(&bob.full_node_id(), true, NOW).unwrap();
    let event = receive(&mut bob, &invite.unwrap().bytes).unwrap();
    bob.take_event(event);
    let shown = bob.poll_call_event().unwrap();
    assert_eq!(shown.call_id, call_id);
    assert_eq!(shown.remote_node_id, alice.full_node_id());

    let (target, signal) = bob.accept_call(&shown.remote_node_id, &shown.call_id).unwrap();
    let sent = bob.send_signal(target, signal, NOW).unwrap();
    let event = receive(&mut alice, &sent.bytes).unwrap();
    alice.take_event(event);
    assert_eq!(alice.poll_call_event().unwrap().kind, CallEventKind::Accepted);

    for (target, signal) in [
        bob.reject_call(&shown.remote_node_id, &shown.call_id).unwrap(),
        bob.end_call(&shown.remote_node_id, &shown.call_id).unwrap(),
    ] {
        let sent = bob.send_signal(target, signal, NOW).unwrap();
        let event = receive(&mut alice, &sent.bytes).unwrap();
        alice.take_event(event);
    }
    assert_eq!(alice.poll_call_event().unwrap().kind, CallEventKind::Rejected);
    assert_eq!(alice.poll_call_event().unwrap().kind, CallEventKind::Ended);

    let frame = alice
        .send_call_frame(&bob.full_node_id(), &call_id, CallMediaKind::Video, 3, vec![1, 2], NOW)
        .unwrap()
        .unwrap();
    let event = receive(&mut bob, &frame.bytes).unwrap();
    bob.take_event(event);
    assert_eq!(bob.poll_call_frame().unwrap().data, vec![1, 2]);

    assert!(alice.start_call("nobody", false, NOW).is_none());
    assert!(alice.accept_call("nobody", &call_id).is_none());
    assert!(alice.reject_call(&bob.full_node_id(), "nothing").is_none());
    assert!(alice.end_call("", "").is_none());
    assert!(alice.send_call_frame("nobody", &call_id, CallMediaKind::Audio, 0, vec![], NOW).is_none());
    let again = alice.send_signal(hex_decode(&bob.full_node_id()).unwrap(), CallSignal::Invite { call_id: [1u8; 16], video: false }, NOW);
    assert!(again.is_ok());
}

#[test]
fn ids_are_read_from_hexadecimal_text() {
    assert_eq!(parse_target_and_call(&"01".repeat(32), &"02".repeat(16)), Some(([1u8; 32], [2u8; 16])));
    assert_eq!(parse_target_and_call(&"01".repeat(31), &"02".repeat(16)), None);
    assert_eq!(parse_target_and_call(&"01".repeat(32), &"0g".repeat(16)), None);
}

#[test]
fn a_signal_is_repeated_twice() {
    assert_eq!(pause_before_signal(0), Some(0));
    assert_eq!(pause_before_signal(1), Some(200));
    assert_eq!(pause_before_signal(2), Some(200));
    assert_eq!(pause_before_signal(3), None);
    assert_eq!(pause_before_signal(usize::MAX), None);
}

fn announced(local: &MeshClient, who: &Identity, name: &str) -> Vec<meshtalk::discovery::DiscoveredPeer> {
    let mut discovery = LanDiscovery::new(local.node().node_id());
    assert!(discovery.hear(&Announcement::new(&PublicIdentity::new(who), name, 9).encode(), "10.0.0.9", NOW));
    discovery.discovered_peers(NOW)
}

#[test]
fn a_discovered_node_becomes_a_contact() {
    let mut alice = client("Alice", None);
    let bob = Identity::generate();
    let peers = announced(&alice, &bob, "Bob");
    let (shown, changed) = alice.discovered_peers(peers, NOW);
    assert!(changed);
    assert_eq!(shown.len(), 1);
    assert_eq!(shown[0].full_node_id, hex_encode(&bob.node_id()));
    assert_eq!(shown[0].node_id, hex_encode(&bob.node_id()[..3]));
    assert_eq!(shown[0].display_name, "Bob");
    assert_eq!(shown[0].address, "10.0.0.9:9");
    assert_eq!(shown[0].pairing_code.len(), 6);
    let event = alice.poll_contact_event().unwrap();
    assert_eq!(event.kind, ContactEventKind::Discovered);
    assert_eq!(event.full_node_id, hex_encode(&bob.node_id()));
    let contacts = alice.contacts();
    assert_eq!(contacts.len(), 1);
    assert_eq!(contacts[0].advertised_name, "Bob");
    assert_eq!(contacts[0].verification, ContactVerification::Unverified);
    assert_eq!((contacts[0].first_seen_ms, contacts[0].last_seen_ms), (NOW, NOW));

    let again = announced(&alice, &bob, "Bobby");
    assert!(alice.update_contact_cache(&again, NOW + 5));
    assert!(alice.poll_contact_event().is_none());
    let contacts = alice.contacts();
    assert_eq!(contacts[0].advertised_name, "Bobby");
    assert_eq!((contacts[0].first_seen_ms, contacts[0].last_seen_ms), (NOW, NOW + 5));
    assert!(!alice.update_contact_cache(&vec![], NOW + 6));
    assert_eq!(alice.send(&hex_encode(&bob.node_id()), "hi", NOW).0, SendOutcome::Sent);
}

#[test]
fn a_changed_key_withdraws_trust_and_warns() {
    let mut alice = client("Alice", None);
    let bob = Identity::generate();
    let mut known = bob_record(&bob);
    known.public_identity.x25519_public = [9u8; 32];
    known.local_alias = Some("my Bob".to_string());
    known.mark_verified();
    alice.insert_contact(known);
    let peers = announced(&alice, &bob, "Bob");
    alice.discovered_peers(peers, NOW + 1);
    let event = alice.poll_contact_event().unwrap();
    assert_eq!(event.kind, ContactEventKind::IdentityChanged);
    let record = alice.contact(&bob.node_id()).unwrap();
    assert_eq!(record.verification, VerificationState::Unverified);
    assert!(record.identity_change_pending);
    assert_eq!(record.public_identity.x25519_public, bob.x25519_public());
    assert_eq!(record.local_alias.as_deref(), Some("my Bob"));

    assert!(!alice.acknowledge_identity_change("nobody"));
    assert!(alice.acknowledge_identity_change(&hex_encode(&bob.node_id())));
    let contacts = alice.contacts();
    assert!(!contacts[0].identity_change_pending);
    assert_eq!(contacts[0].verification, ContactVerification::Unverified);
    assert!(!alice.acknowledge_identity_change(&"00".repeat(32)));

    assert_eq!(alice.reset_contacts(), 1);
    assert!(alice.contacts().is_empty());
}

#[test]
fn trust_stays_while_the_key_stays() {
    let mut alice = client("Alice", None);
    let bob = Identity::generate();
    let mut known = bob_record(&bob);
    known.mark_verified();
    alice.insert_contact(known);
    let peers = announced(&alice, &bob, "Bob");
    alice.discovered_peers(peers, NOW + 1);
    assert!(alice.poll_contact_event().is_none());
    assert_eq!(alice.contacts()[0].verification, ContactVerification::Verified);
}

#[test]
fn contact_news_is_bounded() {
    let mut alice = client("Alice", None);
    for _ in 0..CONTACT_EVENT_CAPACITY + 2 {
        let peers = announced(&alice, &Identity::generate(), "x");
        alice.update_contact_cache(&peers, NOW);
    }
    let mut count = 0;
    while alice.poll_contact_event().is_some() {
        count += 1;
    }
    assert_eq!(count, CONTACT_EVENT_CAPACITY);
    assert_eq!(alice.contacts().len(), CONTACT_EVENT_CAPACITY + 2);
}

#[test]
fn chat_is_always_direct() {
    let mut alice = client("Alice", None);
    let bob = Identity::generate();
    alice.insert_contact(bob_record(&bob));
    let (_, outgoing) = alice.send(&hex_encode(&bob.node_id()), "hi", NOW);
    let envelope = decode_envelope(&outgoing.unwrap().bytes).unwrap();
    assert_eq!(envelope.encryption_mode, meshtalk::message::EncryptionMode::DirectV1);
    assert_eq!(envelope.recipient, Some(bob.node_id()));
    assert_eq!(envelope.max_hops, 8);
}

#[test]
fn the_key_a_client_reports_is_the_one_its_inbox_is_sealed_with() {
    let bob_identity = Identity::generate();
    let mut alice = client("Alice", None);
    alice.insert_contact(bob_record(&bob_identity));
    let mut bob = client("Bob", Some(bob_identity.seed().to_vec()));
    let (_, outgoing) = alice.send(&bob.full_node_id(), "hello Bob", NOW);
    receive(&mut bob, &outgoing.unwrap().bytes);
    let row = &bob.node().inbox().rows()[0];
    let copy = StoredMessage {
        sender: row.sender,
        message_id: row.message_id,
        received_at: row.received_at,
        nonce: row.nonce.clone(),
        content_ciphertext: row.content_ciphertext.clone(),
    };
    let reported = hex_decode::<32>(&bob.inbox_storage_key()).unwrap();
    assert_eq!(InboxStore::from_rows(vec![copy], reported, 5_000).all_messages().len(), 1);
}

#[test]
fn a_client_starts_with_its_configured_key_and_no_memory_of_packets() {
    let mut configured = config("Bob", None);
    configured.inbox_storage_key = Some(vec![0x22; 32]);
    let key = resolve_storage_key(configured.inbox_storage_key.clone());
    let mut with_inbox = stores(ContactStore::new());
    with_inbox.inbox = InboxStore::with_key(key, 5_000);
    let bob = MeshClient::new(configured, key, with_inbox);
    assert_eq!(bob.inbox_storage_key(), "22".repeat(32));
    assert!(bob.node().replay().rows().is_empty());
    assert!(bob.node().deliveries().rows().is_empty());
    assert!(bob.node().forwards().rows().is_empty());
    assert!(bob.node().inbox().rows().is_empty());
}
