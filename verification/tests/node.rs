use std::collections::{HashMap, HashSet, VecDeque};

use meshtalk::call::{random_call_id, CallMessage, CallSignal, MediaKind};
use meshtalk::crypto::ChannelKey;
use meshtalk::delivery_store::{DeliveryStore, OutboundMessage, OutboundState};
use meshtalk::direct_crypto::{
    encrypt_direct_message, DirectCryptoError, DirectCryptoHeaderV1, DirectEnvelopeBody, DirectMessageAadV1,
};
use meshtalk::forward_store::{ForwardAttempt, ForwardState, ForwardStore};
use meshtalk::identity::Identity;
use meshtalk::inbox_store::{InboxError, InboxStore, StoredMessage};
use meshtalk::message::{EncryptionMode, Envelope, MessageType, PROTOCOL_VERSION};
use meshtalk::node::{
    flood_succeeded, DeliveredContent, IncomingEvent, Local, MeshNode, NodeError, OutgoingTransfer, Relay,
    MAX_ENVELOPE_BYTES, MESSAGE_LIFETIME_MS,
};
use meshtalk::payload::{ContentKind, DeliveryAck, ReceivedContent, WirePayload, CHUNK_SIZE};
use meshtalk::reassembly::TRANSFER_TIMEOUT_MS;
use meshtalk::replay_store::ReplayStore;
use meshtalk::session::{PublicIdentity, Session};
use meshtalk::wire::{decode_envelope, encode_body, encode_envelope, encode_payload};
use rand::RngCore;

const START: u64 = 1_700_000_000_000;

const TEST_INBOX_STORAGE_KEY: [u8; 32] = [0x42; 32];

/// A network of named queues and a clock that stands still unless it is moved.
struct Net {
    now: u64,
    queues: HashMap<String, VecDeque<Vec<u8>>>,
    down: HashSet<String>,
    failing: HashSet<(String, String)>,
}

impl Net {
    fn new() -> Net {
        Net { now: START, queues: HashMap::new(), down: HashSet::new(), failing: HashSet::new() }
    }

    fn deliver(&mut self, from: &str, to: &str, bytes: &[u8]) -> bool {
        if self.down.contains(from) || self.failing.contains(&(from.to_string(), to.to_string())) {
            return false;
        }
        self.queues.entry(to.to_string()).or_default().push_back(bytes.to_vec());
        true
    }
}

/// A node with a name and neighbours.
struct TestNode {
    name: String,
    peers: Vec<String>,
    node: MeshNode,
}

fn names(peers: &[&str]) -> Vec<String> {
    peers.iter().map(|p| p.to_string()).collect()
}

fn make_node(name: &str, peers: &[&str], max_hops: u8) -> TestNode {
    make_node_with_identity(name, peers, max_hops, Identity::generate())
}

fn make_node_with_identity(name: &str, peers: &[&str], max_hops: u8, identity: Identity) -> TestNode {
    let channel_key = ChannelKey::from_passphrase("test-channel");
    let inbox = InboxStore::with_key(TEST_INBOX_STORAGE_KEY, 5_000);
    let node = MeshNode::new_with_stores(
        identity,
        channel_key,
        max_hops,
        ReplayStore::in_memory(),
        DeliveryStore::in_memory(),
        ForwardStore::in_memory(),
        inbox,
    );
    TestNode { name: name.to_string(), peers: names(peers), node }
}

impl TestNode {
    fn recv_raw(&self, net: &mut Net) -> Option<Vec<u8>> {
        net.queues.entry(self.name.clone()).or_default().pop_front()
    }

    fn flood(&self, net: &mut Net, bytes: &[u8]) -> bool {
        let outcomes: Vec<bool> = self.peers.iter().map(|peer| net.deliver(&self.name, peer, bytes)).collect();
        flood_succeeded(&outcomes)
    }

    fn run_transfer(&mut self, net: &mut Net, mut transfer: OutgoingTransfer) -> Result<usize, NodeError> {
        let mut sent = 0;
        while let Some(step) = self.node.send_next_chunk(&mut transfer, net.now) {
            let chunk = step?;
            self.flood(net, &chunk.outgoing.bytes);
            sent += 1;
        }
        Ok(sent)
    }

    fn send_text(&mut self, net: &mut Net, to: &PublicIdentity, text: &str) -> Result<usize, NodeError> {
        let transfer = self.node.send_text(to, text);
        self.run_transfer(net, transfer)
    }

    fn send_reliable_text(&mut self, net: &mut Net, to: &PublicIdentity, text: &str) -> Result<(), NodeError> {
        let outgoing = self.node.send_reliable_text(to, text, net.now)?;
        self.flood(net, &outgoing.bytes);
        self.node.record_delivery_attempt(&outgoing.message_id, net.now);
        Ok(())
    }

    fn retry_due_deliveries(&mut self, net: &mut Net) -> usize {
        let due = self.node.retry_due_deliveries(net.now);
        for message in &due {
            self.flood(net, &message.envelope_bytes);
            self.node.record_delivery_attempt(&message.message_id, net.now);
        }
        due.len()
    }

    fn retry_pending_forwards(&mut self, net: &mut Net) -> usize {
        let due = self.node.retry_pending_forwards(net.now);
        let mut tried: Vec<[u8; 16]> = Vec::new();
        for item in &due {
            let ok = net.deliver(&self.name, &item.peer, &item.envelope_bytes);
            self.node.record_forward_result(&item.message_id, &item.peer, ok, net.now);
            tried.push(item.message_id);
        }
        self.node.finish_forward_retries(&tried, net.now);
        due.len()
    }

    fn acknowledge(&mut self, net: &mut Net, to: &PublicIdentity, message_id: [u8; 16]) {
        if let Ok(outgoing) = self.node.send_delivery_ack(to, message_id, net.now) {
            self.flood(net, &outgoing.bytes);
        }
    }

    fn handle_incoming(&mut self, net: &mut Net, raw: Vec<u8>) -> Result<Option<IncomingEvent>, NodeError> {
        self.handle_with_disk(net, raw, true)
    }

    fn handle_with_disk(&mut self, net: &mut Net, raw: Vec<u8>, disk_works: bool) -> Result<Option<IncomingEvent>, NodeError> {
        let incoming = self.node.handle_incoming(&raw, net.now, net.now - START)?;
        match incoming.relay {
            Relay::Nothing => {}
            Relay::Flood(outgoing) => {
                self.flood(net, &outgoing.bytes);
            }
            Relay::Track(task) => {
                self.node.relay_forward(&task, &self.peers, net.now);
                for peer in self.peers.clone() {
                    if self.node.awaits_forward(&task.message_id, &peer) {
                        let ok = net.deliver(&self.name, &peer, &task.bytes);
                        self.node.record_forward_result(&task.message_id, &peer, ok, net.now);
                    }
                }
                self.node.finish_relay(&task, !self.peers.is_empty(), net.now);
            }
        }
        match incoming.local {
            Local::Nothing => Ok(None),
            Local::Event(event) => Ok(Some(event)),
            Local::Acknowledge(to, message_id) => {
                self.acknowledge(net, &to, message_id);
                Ok(None)
            }
            Local::Store(pending) => {
                let settled = if disk_works {
                    self.node.store_content(pending, net.now)
                } else {
                    self.node.settle_content(pending, Err(InboxError::Storage), net.now)
                };
                if let Some((to, message_id)) = &settled.acknowledge {
                    self.acknowledge(net, to, *message_id);
                }
                Ok(settled.event)
            }
        }
    }

    /// Handles packets until one satisfies the predicate; returns it and what came of it.
    fn recv_until(&mut self, net: &mut Net, mut predicate: impl FnMut(&Envelope) -> bool) -> (Vec<u8>, Option<IncomingEvent>) {
        loop {
            let raw = self.recv_raw(net).expect("expected a matching packet");
            let envelope = decode_envelope(&raw).unwrap();
            let matched = predicate(&envelope);
            let event = self.handle_incoming(net, raw.clone()).unwrap();
            if matched {
                return (raw, event);
            }
        }
    }

    /// The same node after its process was killed and started again with its stores.
    fn restart(self) -> TestNode {
        let seed = self.node.identity_seed();
        let replay = ReplayStore::from_rows(self.node.replay().rows().clone(), 50_000);
        let delivery = self
            .node
            .deliveries()
            .rows()
            .iter()
            .map(|row| OutboundMessage {
                message_id: row.message_id,
                recipient: row.recipient,
                envelope_bytes: row.envelope_bytes.clone(),
                state: row.state,
                attempts: row.attempts,
                next_attempt_at: row.next_attempt_at,
                expires_at: row.expires_at,
                created_at: row.created_at,
            })
            .collect();
        let forward = self
            .node
            .forwards()
            .rows()
            .iter()
            .map(|row| ForwardAttempt {
                message_id: row.message_id,
                sender: row.sender,
                peer: row.peer.clone(),
                envelope_bytes: row.envelope_bytes.clone(),
                state: row.state,
                attempts: row.attempts,
                next_attempt_at: row.next_attempt_at,
                expires_at: row.expires_at,
                created_at: row.created_at,
            })
            .collect();
        let inbox = self
            .node
            .inbox()
            .rows()
            .iter()
            .map(|row| StoredMessage {
                sender: row.sender,
                message_id: row.message_id,
                received_at: row.received_at,
                nonce: row.nonce.clone(),
                content_ciphertext: row.content_ciphertext.clone(),
            })
            .collect();
        let node = MeshNode::new_with_stores(
            Identity::from_seed(seed),
            ChannelKey::from_passphrase("test-channel"),
            16,
            replay,
            DeliveryStore::from_rows(delivery, 10_000),
            ForwardStore::from_rows(forward, 20_000),
            InboxStore::from_rows(inbox, TEST_INBOX_STORAGE_KEY, 5_000),
        );
        TestNode { name: self.name, peers: self.peers, node }
    }
}

fn contains_bytes(haystack: &[u8], needle: &[u8]) -> bool {
    needle.is_empty() || haystack.windows(needle.len()).any(|window| window == needle)
}

fn text_of(event: &Option<IncomingEvent>) -> Option<&str> {
    match event {
        Some(IncomingEvent::Content(DeliveredContent { content: ReceivedContent::Text(text), .. })) => Some(text),
        _ => None,
    }
}

fn sender_of(event: &Option<IncomingEvent>) -> Option<[u8; 32]> {
    match event {
        Some(IncomingEvent::Content(delivered)) => Some(delivered.sender),
        _ => None,
    }
}

fn sample_envelope(sender: &Identity, recipient: [u8; 32], protocol_version: u8, ciphertext: Vec<u8>) -> Envelope {
    let mut envelope = Envelope {
        protocol_version,
        message_id: [1u8; 16],
        sender: sender.node_id(),
        recipient: Some(recipient),
        message_type: MessageType::Chat,
        encryption_mode: EncryptionMode::ChannelV1,
        created_at: START,
        expires_at: START + 60_000,
        max_hops: 16,
        hops_used: 0,
        nonce: [0u8; 24],
        ciphertext,
        signature: Vec::new(),
    };
    envelope.signature = sender.sign(&envelope.signed_payload()).to_vec();
    envelope
}

#[test]
fn direct_message_reaches_recipient_two_hops_away_via_relay() {
    let mut net = Net::new();
    let mut alice = make_node("alice", &["bob"], 16);
    let mut bob = make_node("bob", &["alice", "carol"], 16);
    let mut carol = make_node("carol", &["bob"], 16);

    let alice_id = alice.node.node_id();
    alice.send_text(&mut net, &carol.node.public_identity(), "hello carol").unwrap();

    let bob_raw = bob.recv_raw(&mut net).unwrap();
    let bob_event = bob.handle_incoming(&mut net, bob_raw).unwrap();
    assert!(bob_event.is_none());

    let carol_raw = carol.recv_raw(&mut net).unwrap();
    let carol_event = carol.handle_incoming(&mut net, carol_raw).unwrap();
    assert_eq!(sender_of(&carol_event), Some(alice_id));
    assert_eq!(text_of(&carol_event), Some("hello carol"));
}

#[test]
fn relay_never_surfaces_content_not_addressed_to_it() {
    let mut net = Net::new();
    let mut alice = make_node("alice", &["bob"], 16);
    let mut bob = make_node("bob", &["alice", "carol"], 16);
    let carol = make_node("carol", &["bob"], 16);

    alice.send_text(&mut net, &carol.node.public_identity(), "private to carol").unwrap();

    let bob_raw = bob.recv_raw(&mut net).unwrap();
    assert!(bob.handle_incoming(&mut net, bob_raw).unwrap().is_none());
}

#[test]
fn hop_budget_of_zero_prevents_any_relay_beyond_direct_neighbors() {
    let mut net = Net::new();
    let mut alice = make_node("alice", &["bob"], 0);
    let mut bob = make_node("bob", &["alice", "carol"], 0);
    let carol = make_node("carol", &["bob"], 0);

    alice.send_text(&mut net, &carol.node.public_identity(), "should not be relayed further").unwrap();

    let bob_raw = bob.recv_raw(&mut net).unwrap();
    assert!(bob.handle_incoming(&mut net, bob_raw).unwrap().is_none());
    assert!(carol.recv_raw(&mut net).is_none(), "carol should not have received a relayed packet");
}

#[test]
fn broadcast_reaches_all_connected_nodes() {
    let mut net = Net::new();
    let mut alice = make_node("alice", &["bob"], 16);
    let mut bob = make_node("bob", &["alice"], 16);

    let transfer = alice.node.broadcast_text("hello everyone");
    alice.run_transfer(&mut net, transfer).unwrap();

    let bob_raw = bob.recv_raw(&mut net).unwrap();
    let event = bob.handle_incoming(&mut net, bob_raw).unwrap();
    assert_eq!(text_of(&event), Some("hello everyone"));
}

#[test]
fn handle_incoming_drops_envelope_with_unsupported_protocol_version() {
    let mut net = Net::new();
    let mut bob = make_node("bob", &[], 16);
    let alice_identity = Identity::generate();
    let envelope = sample_envelope(&alice_identity, bob.node.node_id(), PROTOCOL_VERSION + 1, vec![1, 2, 3]);
    let raw = encode_envelope(&envelope);

    assert!(bob.handle_incoming(&mut net, raw).unwrap().is_none());
}

#[test]
fn handle_incoming_never_panics_on_random_garbage_bytes() {
    let mut net = Net::new();
    let mut bob = make_node("bob", &[], 16);

    let mut garbage = vec![0u8; 200];
    rand::rngs::OsRng.fill_bytes(&mut garbage);

    let _ = bob.handle_incoming(&mut net, garbage);
}

#[test]
fn handle_incoming_never_panics_on_truncated_envelope() {
    let mut net = Net::new();
    let mut bob = make_node("bob", &[], 16);
    let alice_identity = Identity::generate();
    let envelope = sample_envelope(&alice_identity, bob.node.node_id(), PROTOCOL_VERSION, vec![1, 2, 3, 4, 5, 6, 7, 8]);
    let raw = encode_envelope(&envelope);
    let truncated = raw[..raw.len() / 2].to_vec();

    assert!(matches!(bob.handle_incoming(&mut net, truncated), Err(NodeError::MalformedPacket)));
}

#[test]
fn handle_incoming_quickly_rejects_oversized_packets() {
    let mut net = Net::new();
    let mut bob = make_node("bob", &[], 16);
    let huge = vec![0u8; MAX_ENVELOPE_BYTES + 1];

    assert!(bob.handle_incoming(&mut net, huge).unwrap().is_none());
}

#[test]
fn handle_incoming_rejects_malformed_signature_length() {
    let mut net = Net::new();
    let mut bob = make_node("bob", &[], 16);
    let alice_identity = Identity::generate();
    let mut envelope = sample_envelope(&alice_identity, bob.node.node_id(), PROTOCOL_VERSION, vec![1, 2, 3]);
    envelope.signature = vec![0u8; 10];
    let raw = encode_envelope(&envelope);

    assert!(bob.handle_incoming(&mut net, raw).unwrap().is_none());
}

#[test]
fn alice_to_bob_direct_encrypted_message_is_delivered() {
    let mut net = Net::new();
    let mut alice = make_node("alice", &["bob"], 16);
    let mut bob = make_node("bob", &["alice"], 16);

    alice.send_text(&mut net, &bob.node.public_identity(), "hello").unwrap();

    let bob_raw = bob.recv_raw(&mut net).unwrap();
    let event = bob.handle_incoming(&mut net, bob_raw).unwrap();
    assert_eq!(sender_of(&event), Some(alice.node.node_id()));
    assert_eq!(text_of(&event), Some("hello"));
}

#[test]
fn alice_to_bob_via_one_relay_decrypts_and_relay_never_sees_plaintext() {
    let mut net = Net::new();
    let mut alice = make_node("alice", &["relay"], 16);
    let mut relay = make_node("relay", &["alice", "bob"], 16);
    let mut bob = make_node("bob", &["relay"], 16);

    alice.send_text(&mut net, &bob.node.public_identity(), "secret for bob").unwrap();

    let relay_raw = relay.recv_raw(&mut net).unwrap();
    assert!(relay.handle_incoming(&mut net, relay_raw.clone()).unwrap().is_none());
    assert!(!contains_bytes(&relay_raw, b"secret for bob"));

    let bob_raw = bob.recv_raw(&mut net).unwrap();
    let event = bob.handle_incoming(&mut net, bob_raw).unwrap();
    assert_eq!(sender_of(&event), Some(alice.node.node_id()));
    assert_eq!(text_of(&event), Some("secret for bob"));
}

#[test]
fn alice_to_bob_via_two_relays_decrypts_and_relays_never_see_plaintext() {
    let mut net = Net::new();
    let mut alice = make_node("alice", &["relay1"], 16);
    let mut relay1 = make_node("relay1", &["alice", "relay2"], 16);
    let mut relay2 = make_node("relay2", &["relay1", "bob"], 16);
    let mut bob = make_node("bob", &["relay2"], 16);

    alice.send_text(&mut net, &bob.node.public_identity(), "multi-hop secret").unwrap();

    let relay1_raw = relay1.recv_raw(&mut net).unwrap();
    assert!(relay1.handle_incoming(&mut net, relay1_raw.clone()).unwrap().is_none());
    assert!(!contains_bytes(&relay1_raw, b"multi-hop secret"));

    let relay2_raw = relay2.recv_raw(&mut net).unwrap();
    assert!(relay2.handle_incoming(&mut net, relay2_raw.clone()).unwrap().is_none());
    assert!(!contains_bytes(&relay2_raw, b"multi-hop secret"));

    let bob_raw = bob.recv_raw(&mut net).unwrap();
    let event = bob.handle_incoming(&mut net, bob_raw).unwrap();
    assert_eq!(sender_of(&event), Some(alice.node.node_id()));
    assert_eq!(text_of(&event), Some("multi-hop secret"));
}

#[test]
fn charlie_cannot_decrypt_alice_to_bob_at_the_meshnode_level() {
    let mut net = Net::new();
    let mut alice = make_node("alice", &["bob"], 16);
    let bob = make_node("bob", &["alice"], 16);
    let mut charlie = make_node("charlie", &[], 16);

    alice.send_text(&mut net, &bob.node.public_identity(), "private").unwrap();
    let raw = bob.recv_raw(&mut net).unwrap();

    assert!(charlie.handle_incoming(&mut net, raw.clone()).unwrap().is_none());
    assert!(charlie.node.decrypt_payload(&decode_envelope(&raw).unwrap()).is_none());
}

fn assert_mutating_envelope_field_is_rejected(mutate: impl FnOnce(&mut Envelope)) {
    let mut net = Net::new();
    let mut alice = make_node("alice", &["bob"], 16);
    let mut bob = make_node("bob", &["alice"], 16);
    alice.send_text(&mut net, &bob.node.public_identity(), "hello").unwrap();

    let raw = bob.recv_raw(&mut net).unwrap();
    let mut envelope = decode_envelope(&raw).unwrap();
    mutate(&mut envelope);
    let tampered = encode_envelope(&envelope);

    assert!(bob.handle_incoming(&mut net, tampered).unwrap().is_none());
}

#[test]
fn modified_ciphertext_is_rejected() {
    assert_mutating_envelope_field_is_rejected(|envelope| envelope.ciphertext[0] ^= 0xFF);
}

#[test]
fn changed_sender_is_rejected() {
    assert_mutating_envelope_field_is_rejected(|envelope| envelope.sender = [7u8; 32]);
}

#[test]
fn changed_recipient_is_rejected() {
    assert_mutating_envelope_field_is_rejected(|envelope| envelope.recipient = Some([7u8; 32]));
}

#[test]
fn changed_message_type_is_rejected() {
    assert_mutating_envelope_field_is_rejected(|envelope| envelope.message_type = MessageType::CallSignal);
}

#[test]
fn changed_max_hops_is_rejected() {
    assert_mutating_envelope_field_is_rejected(|envelope| envelope.max_hops = envelope.max_hops.wrapping_add(1));
}

#[test]
fn changed_hops_used_still_permits_decryption() {
    let mut net = Net::new();
    let mut alice = make_node("alice", &["bob"], 16);
    let mut bob = make_node("bob", &["alice"], 16);
    alice.send_text(&mut net, &bob.node.public_identity(), "hello").unwrap();

    let raw = bob.recv_raw(&mut net).unwrap();
    let mut envelope = decode_envelope(&raw).unwrap();
    envelope.hops_used += 1;
    let tampered = encode_envelope(&envelope);

    let event = bob.handle_incoming(&mut net, tampered).unwrap();
    assert_eq!(text_of(&event), Some("hello"));
}

fn craft_direct_envelope_with(
    sender_identity: &Identity,
    recipient: &TestNode,
    header: DirectCryptoHeaderV1,
    message_type: MessageType,
    plaintext: &[u8],
) -> Vec<u8> {
    let verified_recipient = recipient.node.public_identity().verify().unwrap();
    let session = Session::establish(sender_identity, &verified_recipient).unwrap();
    let mut message_id = [0u8; 16];
    rand::rngs::OsRng.fill_bytes(&mut message_id);
    let aad = DirectMessageAadV1::new(
        PROTOCOL_VERSION,
        message_id,
        sender_identity.node_id(),
        recipient.node.node_id(),
        message_type,
        START,
        START + 60_000,
        16,
    );
    let message = encrypt_direct_message(sender_identity, &session, &aad, plaintext);
    let ciphertext = encode_body(&DirectEnvelopeBody { header, message });
    let mut envelope = Envelope {
        protocol_version: PROTOCOL_VERSION,
        message_id,
        sender: sender_identity.node_id(),
        recipient: Some(recipient.node.node_id()),
        message_type,
        encryption_mode: EncryptionMode::DirectV1,
        created_at: START,
        expires_at: START + 60_000,
        max_hops: 16,
        hops_used: 0,
        nonce: [0u8; 24],
        ciphertext,
        signature: Vec::new(),
    };
    envelope.signature = sender_identity.sign(&envelope.signed_payload()).to_vec();
    encode_envelope(&envelope)
}

#[test]
fn invalid_x25519_binding_in_header_is_rejected() {
    let mut net = Net::new();
    let mut bob = make_node("bob", &["alice"], 16);
    let alice_for_crafting = Identity::generate();
    let mallory = Identity::generate();

    let bad_header = DirectCryptoHeaderV1 {
        sender_x25519_public: mallory.x25519_public(),
        sender_x25519_signature: alice_for_crafting.sign_x25519_public().to_vec(),
    };
    let raw = craft_direct_envelope_with(&alice_for_crafting, &bob, bad_header, MessageType::Chat, b"hi");

    assert!(bob.handle_incoming(&mut net, raw).unwrap().is_none());
    assert!(
        bob.node.replay().is_empty(),
        "a valid outer signature with a failed inner decrypt must not be durably recorded"
    );
}

#[test]
fn malformed_crypto_header_is_rejected() {
    let mut net = Net::new();
    let mut bob = make_node("bob", &["alice"], 16);
    let alice_for_crafting = Identity::generate();

    let malformed_header = DirectCryptoHeaderV1 {
        sender_x25519_public: alice_for_crafting.x25519_public(),
        sender_x25519_signature: vec![0u8; 5],
    };
    let raw = craft_direct_envelope_with(&alice_for_crafting, &bob, malformed_header, MessageType::Chat, b"hi");

    assert!(bob.handle_incoming(&mut net, raw).unwrap().is_none());
    assert!(
        bob.node.replay().is_empty(),
        "a valid outer signature with a failed inner decrypt must not be durably recorded"
    );
}

#[test]
fn duplicate_authenticated_message_is_delivered_only_once() {
    let mut net = Net::new();
    let mut alice = make_node("alice", &["bob"], 16);
    let mut bob = make_node("bob", &["alice"], 16);
    alice.send_text(&mut net, &bob.node.public_identity(), "hello").unwrap();

    let raw = bob.recv_raw(&mut net).unwrap();
    assert!(
        matches!(bob.handle_incoming(&mut net, raw.clone()).unwrap(), Some(IncomingEvent::Content(_))),
        "expected the first delivery to succeed"
    );
    assert!(bob.handle_incoming(&mut net, raw).unwrap().is_none());
}

#[test]
fn replayed_message_is_rejected_after_restart() {
    let mut net = Net::new();
    let mut alice = make_node("alice", &["bob"], 16);
    let mut bob = make_node("bob", &["alice"], 16);
    alice.send_text(&mut net, &bob.node.public_identity(), "hello").unwrap();
    let captured_raw = bob.recv_raw(&mut net).unwrap();
    assert!(
        matches!(bob.handle_incoming(&mut net, captured_raw.clone()).unwrap(), Some(IncomingEvent::Content(_))),
        "the first, legitimate delivery must succeed"
    );
    assert!(
        bob.handle_incoming(&mut net, captured_raw.clone()).unwrap().is_none(),
        "an immediate in-process replay must still be deduplicated once durably persisted"
    );

    let mut bob_restarted = bob.restart();
    assert!(
        bob_restarted.handle_incoming(&mut net, captured_raw).unwrap().is_none(),
        "a replay of an already-processed message must be rejected even after the recipient restarts"
    );

    alice.send_text(&mut net, &bob_restarted.node.public_identity(), "hello again").unwrap();
    let new_raw = bob_restarted.recv_raw(&mut net).unwrap();
    let event = bob_restarted.handle_incoming(&mut net, new_raw).unwrap();
    assert_eq!(text_of(&event), Some("hello again"));
}

#[test]
fn relay_does_not_forward_a_replayed_message_after_a_successful_forward_and_restart() {
    let mut net = Net::new();
    let mut alice = make_node("alice", &["relay"], 16);
    let mut bob = make_node("bob", &["relay"], 16);
    let mut relay = make_node("relay", &["alice", "bob"], 16);

    alice.send_text(&mut net, &bob.node.public_identity(), "hello via relay").unwrap();
    let captured_raw = relay.recv_raw(&mut net).unwrap();
    assert!(relay.handle_incoming(&mut net, captured_raw.clone()).unwrap().is_none(), "not addressed to the relay itself");
    let forwarded = bob.recv_raw(&mut net).unwrap();
    let event = bob.handle_incoming(&mut net, forwarded).unwrap();
    assert_eq!(text_of(&event), Some("hello via relay"));

    let mut relay_restarted = relay.restart();
    assert!(
        relay_restarted.handle_incoming(&mut net, captured_raw).unwrap().is_none(),
        "the restarted relay must reject the replay itself"
    );
    assert!(
        bob.recv_raw(&mut net).is_none(),
        "a message the relay already successfully forwarded before restarting must not be forwarded again"
    );
}

#[test]
fn relay_retries_forwarding_after_a_failed_attempt_even_across_a_restart() {
    let mut net = Net::new();
    let mut alice = make_node("alice", &["relay"], 16);
    let mut bob = make_node("bob", &["relay"], 16);
    let mut relay = make_node("relay", &["alice", "bob"], 16);
    net.down.insert("relay".to_string());

    alice.send_text(&mut net, &bob.node.public_identity(), "hello via relay").unwrap();
    let captured_raw = relay.recv_raw(&mut net).unwrap();
    assert!(relay.handle_incoming(&mut net, captured_raw.clone()).unwrap().is_none());
    assert!(relay.node.replay().is_empty(), "a failed forward attempt must not be durably recorded as handled");

    net.down.clear();
    let mut relay_restarted = relay.restart();
    assert!(relay_restarted.handle_incoming(&mut net, captured_raw).unwrap().is_none());
    let forwarded = bob
        .recv_raw(&mut net)
        .expect("the restarted relay should have retried forwarding, reaching bob this time");
    let event = bob.handle_incoming(&mut net, forwarded).unwrap();
    assert_eq!(text_of(&event), Some("hello via relay"));
}

#[test]
fn relay_partial_flood_success_leaves_only_failed_neighbors_retryable() {
    let mut net = Net::new();
    let mut alice = make_node("alice", &["relay"], 16);
    let b = make_node("b", &["relay"], 16);
    let c = make_node("c", &["relay"], 16);
    let mut d = make_node("d", &["relay"], 16);
    let mut relay = make_node("relay", &["alice", "b", "c", "d"], 16);
    net.failing.insert(("relay".to_string(), "c".to_string()));
    net.failing.insert(("relay".to_string(), "d".to_string()));

    alice.send_text(&mut net, &d.node.public_identity(), "hello via relay").unwrap();
    let raw = relay.recv_raw(&mut net).unwrap();
    let message_id = decode_envelope(&raw).unwrap().message_id;
    assert!(relay.handle_incoming(&mut net, raw).unwrap().is_none(), "not addressed to the relay itself");

    assert!(b.recv_raw(&mut net).is_some(), "b should have received the relay's forward");
    assert!(c.recv_raw(&mut net).is_none(), "c must not have received anything yet");
    assert!(d.recv_raw(&mut net).is_none(), "d must not have received anything yet");

    assert_eq!(relay.node.forwards().state_of(&message_id, "b"), Some(ForwardState::Forwarded));
    assert_eq!(relay.node.forwards().state_of(&message_id, "c"), Some(ForwardState::Pending));
    assert_eq!(relay.node.forwards().state_of(&message_id, "d"), Some(ForwardState::Pending));
    assert!(
        relay.node.replay().is_empty(),
        "a partially-successful flood must not be durably marked seen while any neighbor is still pending"
    );

    net.failing.clear();
    net.now += 2_600;
    assert_eq!(relay.retry_pending_forwards(&mut net), 2, "only the two still-pending neighbors should need a retry attempt");

    assert!(c.recv_raw(&mut net).is_some(), "c should now have received the retried forward");
    let d_raw = d.recv_raw(&mut net).expect("d should now have received the retried forward");
    let event = d.handle_incoming(&mut net, d_raw).unwrap();
    assert_eq!(text_of(&event), Some("hello via relay"));

    assert!(relay.node.forwards().all_peers_resolved(&message_id));
    assert!(!relay.node.replay().is_empty(), "once every neighbor is resolved, the message must be durably marked seen");
}

#[test]
fn relay_retains_pending_forward_state_across_a_restart() {
    let mut net = Net::new();
    let mut alice = make_node("alice", &["relay"], 16);
    let mut c = make_node("c", &["relay"], 16);
    let mut relay = make_node("relay", &["alice", "c"], 16);
    net.failing.insert(("relay".to_string(), "c".to_string()));

    alice.send_text(&mut net, &c.node.public_identity(), "hello via relay").unwrap();
    let captured_raw = relay.recv_raw(&mut net).unwrap();
    let captured_message_id = decode_envelope(&captured_raw).unwrap().message_id;
    assert!(relay.handle_incoming(&mut net, captured_raw.clone()).unwrap().is_none());
    assert_eq!(relay.node.forwards().state_of(&captured_message_id, "c"), Some(ForwardState::Pending));
    assert!(relay.node.replay().is_empty(), "c is still pending -- must not be marked seen yet");

    net.failing.clear();
    let mut relay_restarted = relay.restart();
    net.now += 2_600;
    assert_eq!(relay_restarted.retry_pending_forwards(&mut net), 1, "only c's still-pending forward should need a retry");

    let forwarded = c
        .recv_raw(&mut net)
        .expect("c should have received the retried forward after the relay restarted");
    let event = c.handle_incoming(&mut net, forwarded).unwrap();
    assert_eq!(text_of(&event), Some("hello via relay"));
    assert!(relay_restarted.node.forwards().all_peers_resolved(&captured_message_id));
    assert!(!relay_restarted.node.replay().is_empty(), "once c is finally resolved, the message must be durably marked seen");

    while c.recv_raw(&mut net).is_some() {}
    relay_restarted.handle_incoming(&mut net, captured_raw).unwrap();
    assert!(
        c.recv_raw(&mut net).is_none(),
        "a fully-resolved message must not be forwarded again to an already-resolved neighbor"
    );
}

#[test]
fn forged_signature_never_enters_replay_store() {
    let mut net = Net::new();
    let mut alice = make_node("alice", &["bob"], 16);
    let mut bob = make_node("bob", &["alice"], 16);
    alice.send_text(&mut net, &bob.node.public_identity(), "hello").unwrap();

    let raw = bob.recv_raw(&mut net).unwrap();
    let mut envelope = decode_envelope(&raw).unwrap();
    envelope.ciphertext[0] ^= 0xFF;
    let tampered = encode_envelope(&envelope);

    assert!(bob.handle_incoming(&mut net, tampered).unwrap().is_none());
    assert!(bob.node.replay().is_empty(), "a forged/unverified packet must never be recorded in the replay store");
}

#[test]
fn malformed_packet_never_enters_replay_store() {
    let mut net = Net::new();
    let mut bob = make_node("bob", &["alice"], 16);

    assert!(bob.handle_incoming(&mut net, vec![0xFFu8; 40]).is_err());
    assert!(bob.node.replay().is_empty(), "malformed input must never be recorded in the replay store");
}

#[test]
fn first_time_message_is_still_delivered_when_recipients_replay_store_was_just_reopened_from_disk() {
    let mut net = Net::new();
    let mut alice = make_node("alice", &["bob"], 16);
    let mut bob = make_node("bob", &["alice"], 16).restart();

    alice.send_text(&mut net, &bob.node.public_identity(), "brand new message").unwrap();
    let raw = bob.recv_raw(&mut net).unwrap();
    let event = bob.handle_incoming(&mut net, raw).unwrap();
    assert_eq!(text_of(&event), Some("brand new message"));
}

#[test]
fn fake_unauthenticated_duplicate_does_not_suppress_later_legitimate_message() {
    let mut net = Net::new();
    let mut bob = make_node("bob", &["alice"], 16);
    let alice_for_crafting = Identity::generate();
    let mallory = Identity::generate();

    let shared_message_id = [42u8; 16];
    let mut fake_envelope = sample_envelope(&alice_for_crafting, bob.node.node_id(), PROTOCOL_VERSION, vec![1, 2, 3]);
    fake_envelope.message_id = shared_message_id;
    fake_envelope.signature = mallory.sign(&fake_envelope.signed_payload()).to_vec();
    assert!(bob.handle_incoming(&mut net, encode_envelope(&fake_envelope)).unwrap().is_none());
    assert!(net.queues.is_empty(), "a forgery must not be handed on");

    let mut real_envelope = fake_envelope.clone();
    real_envelope.signature = alice_for_crafting.sign(&real_envelope.signed_payload()).to_vec();
    let real_raw = encode_envelope(&real_envelope);
    let _ = bob.handle_incoming(&mut net, real_raw.clone());
    assert_eq!(net.queues["alice"].len(), 1, "the real envelope must have been processed and handed on");
    assert!(bob.handle_incoming(&mut net, real_raw).unwrap().is_none());
}

#[test]
fn recipient_without_valid_encryption_identity_fails_closed_and_sends_nothing() {
    let mut net = Net::new();
    let mut alice = make_node("alice", &["bob"], 16);
    let bob = make_node("bob", &["alice"], 16);

    let mallory = Identity::generate();
    let mut tampered_bob_identity = bob.node.public_identity();
    tampered_bob_identity.x25519_public = mallory.x25519_public();

    let result = alice.send_text(&mut net, &tampered_bob_identity, "hello");
    assert_eq!(result, Err(NodeError::Crypto(DirectCryptoError::CannotEncryptForRecipient)));
    assert!(bob.recv_raw(&mut net).is_none(), "bob should not have received anything after a failed-closed send");
}

#[test]
fn direct_v1_send_never_falls_back_to_channel_v1() {
    let mut net = Net::new();
    let mut alice = make_node("alice", &["bob"], 16);
    let bob = make_node("bob", &["alice"], 16);

    alice.send_text(&mut net, &bob.node.public_identity(), "hello").unwrap();

    let raw = bob.recv_raw(&mut net).unwrap();
    let envelope = decode_envelope(&raw).unwrap();
    assert_eq!(envelope.encryption_mode, EncryptionMode::DirectV1);
}

#[test]
fn message_survives_recipient_app_restart() {
    let mut net = Net::new();
    let mut alice = make_node("alice", &["bob"], 16);
    let bob_identity = Identity::generate();
    let bob_seed = bob_identity.seed();
    let bob = make_node_with_identity("bob", &["alice"], 16, bob_identity);

    alice.send_text(&mut net, &bob.node.public_identity(), "see you after restart").unwrap();
    let raw = bob.recv_raw(&mut net).unwrap();

    drop(bob);
    let mut restarted_bob = make_node_with_identity("bob", &["alice"], 16, Identity::from_seed(bob_seed));

    let event = restarted_bob.handle_incoming(&mut net, raw).unwrap();
    assert_eq!(sender_of(&event), Some(alice.node.node_id()));
    assert_eq!(text_of(&event), Some("see you after restart"));
}

#[test]
fn alice_sends_bob_acks_and_alice_stops_retrying() {
    let mut net = Net::new();
    let mut alice = make_node("alice", &["bob"], 16);
    let mut bob = make_node("bob", &["alice"], 16);
    let alice_id = alice.node.node_id();

    alice.send_reliable_text(&mut net, &bob.node.public_identity(), "hello").unwrap();

    let (_, event) = bob.recv_until(&mut net, |e| e.sender == alice_id && e.message_type == MessageType::Chat);
    assert_eq!(text_of(&event), Some("hello"));
    let message_id = match event {
        Some(IncomingEvent::Content(delivered)) => delivered.message_id,
        _ => panic!("bob should have received the message"),
    };

    alice.recv_until(&mut net, |e| e.message_type == MessageType::DeliveryAck);
    assert_eq!(alice.node.deliveries().state_of(&message_id), Some(OutboundState::Acknowledged));

    net.now += 2_600;
    assert_eq!(alice.retry_due_deliveries(&mut net), 0);
}

#[test]
fn lost_ack_causes_alice_to_retry_and_bob_to_reack_without_reshowing_content() {
    let mut net = Net::new();
    let mut alice = make_node("alice", &["bob"], 16);
    let mut bob = make_node("bob", &["alice"], 16);
    let alice_id = alice.node.node_id();

    alice.send_reliable_text(&mut net, &bob.node.public_identity(), "hello").unwrap();
    let (message_raw, event) = bob.recv_until(&mut net, |e| e.sender == alice_id && e.message_type == MessageType::Chat);
    let message_id = match event {
        Some(IncomingEvent::Content(delivered)) => delivered.message_id,
        _ => panic!("bob should have received the message"),
    };
    while alice.recv_raw(&mut net).is_some() {}

    assert!(alice.node.deliveries().due_for_attempt(net.now + 10_000).iter().any(|m| m.message_id == message_id));
    net.now += 2_600;
    assert_eq!(alice.retry_due_deliveries(&mut net), 1);

    let (retried_raw, event) = bob.recv_until(&mut net, |e| e.message_id == message_id);
    assert_eq!(retried_raw, message_raw, "a retry must retransmit the exact original bytes, not a freshly re-encrypted message");
    assert!(event.is_none());

    alice.recv_until(&mut net, |e| e.message_type == MessageType::DeliveryAck);
    assert_eq!(alice.node.deliveries().state_of(&message_id), Some(OutboundState::Acknowledged));
}

#[test]
fn message_lost_on_first_attempt_is_eventually_delivered_via_retry() {
    let mut net = Net::new();
    let mut alice = make_node("alice", &["bob"], 16);
    let mut bob = make_node("bob", &["alice"], 16);
    let alice_id = alice.node.node_id();
    net.down.insert("alice".to_string());

    alice.send_reliable_text(&mut net, &bob.node.public_identity(), "hello").unwrap();
    assert!(bob.recv_raw(&mut net).is_none());

    net.down.clear();
    net.now += 2_600;
    assert_eq!(alice.retry_due_deliveries(&mut net), 1);

    let (_, event) = bob.recv_until(&mut net, |e| e.sender == alice_id && e.message_type == MessageType::Chat);
    assert_eq!(text_of(&event), Some("hello"));
}

#[test]
fn alice_restart_after_send_before_ack_retries_the_same_message_id_and_bytes() {
    let mut net = Net::new();
    let mut alice = make_node("alice", &["bob"], 16);
    let alice_node_id = alice.node.node_id();
    let mut bob = make_node("bob", &["alice"], 16);

    alice.send_reliable_text(&mut net, &bob.node.public_identity(), "hello").unwrap();
    let (original_raw, _) = bob.recv_until(&mut net, |e| e.sender == alice_node_id && e.message_type == MessageType::Chat);
    let original_message_id = decode_envelope(&original_raw).unwrap().message_id;

    let mut alice_restarted = alice.restart();
    net.now += 2_600;
    assert_eq!(alice_restarted.retry_due_deliveries(&mut net), 1);

    let (retried_raw, _) = bob.recv_until(&mut net, |e| e.message_id == original_message_id);
    assert_eq!(retried_raw, original_raw, "the retry after a restart must be byte-identical to the original send");
    let retried_envelope = decode_envelope(&retried_raw).unwrap();
    assert_eq!(retried_envelope.message_id, original_message_id, "a retry must reuse the same logical message_id");
}

#[test]
fn bob_restart_with_persisted_inbox_deduplicates_a_resend_without_reshowing_it() {
    let mut net = Net::new();
    let mut alice = make_node("alice", &["bob"], 16);
    let mut bob = make_node("bob", &["alice"], 16);
    let alice_id = alice.node.node_id();

    alice.send_reliable_text(&mut net, &bob.node.public_identity(), "hello").unwrap();
    let (raw, event) = bob.recv_until(&mut net, |e| e.sender == alice_id && e.message_type == MessageType::Chat);
    assert_eq!(text_of(&event), Some("hello"));
    assert_eq!(bob.node.inbox_messages().len(), 1, "the message must be durably persisted immediately -- no app callback required");
    while alice.recv_raw(&mut net).is_some() {}

    let mut bob_restarted = bob.restart();
    assert_eq!(bob_restarted.node.inbox_messages().len(), 1, "durably-accepted chat history must survive a restart");

    assert!(bob_restarted.handle_incoming(&mut net, raw).unwrap().is_none());
    assert_eq!(bob_restarted.node.inbox_messages().len(), 1, "a resend must not create a duplicate inbox entry");
    alice.recv_until(&mut net, |e| e.message_type == MessageType::DeliveryAck);
}

#[test]
fn inbox_write_failure_prevents_ack_and_leaves_the_message_retryable() {
    let mut net = Net::new();
    let mut alice = make_node("alice", &["bob"], 16);
    let mut bob = make_node("bob", &["alice"], 16);

    alice.send_reliable_text(&mut net, &bob.node.public_identity(), "hello").unwrap();
    let raw = bob.recv_raw(&mut net).unwrap();
    let message_id = decode_envelope(&raw).unwrap().message_id;

    assert!(
        bob.handle_with_disk(&mut net, raw, false).unwrap().is_none(),
        "a failed durable write must not surface content to the application layer"
    );
    assert!(bob.node.replay().is_empty(), "a failed durable write must not be durably marked seen either");

    while let Some(raw) = alice.recv_raw(&mut net) {
        alice.handle_incoming(&mut net, raw).unwrap();
    }
    assert_ne!(alice.node.deliveries().state_of(&message_id), Some(OutboundState::Acknowledged));
    assert!(alice.node.deliveries().due_for_attempt(net.now + 10_000).iter().any(|m| m.message_id == message_id));
}

#[test]
fn forged_or_misattributed_ack_does_not_stop_retries() {
    let mut net = Net::new();
    let mut alice = make_node("alice", &["bob", "mallory"], 16);
    let mut bob = make_node("bob", &["alice"], 16);
    let mallory = Identity::generate();
    let alice_id = alice.node.node_id();

    alice.send_reliable_text(&mut net, &bob.node.public_identity(), "hello").unwrap();
    let (raw, _) = bob.recv_until(&mut net, |e| e.sender == alice_id && e.message_type == MessageType::Chat);
    let message_id = decode_envelope(&raw).unwrap().message_id;

    let payload = encode_payload(&WirePayload::DeliveryAck(DeliveryAck { acked_message_id: message_id }));
    let header = DirectCryptoHeaderV1::new(&mallory);
    let forged_raw = craft_direct_envelope_with(&mallory, &alice, header, MessageType::DeliveryAck, &payload);

    assert!(alice.handle_incoming(&mut net, forged_raw).unwrap().is_none());
    assert_ne!(
        alice.node.deliveries().state_of(&message_id),
        Some(OutboundState::Acknowledged),
        "an ack from the wrong node must not be accepted as delivery confirmation"
    );
    net.now += 2_600;
    assert_eq!(alice.retry_due_deliveries(&mut net), 1, "alice must still be retrying, since no legitimate ack has arrived");
}

#[test]
fn a_file_arrives_whole_with_its_progress() {
    let mut net = Net::new();
    let mut alice = make_node("alice", &["bob"], 16);
    let mut bob = make_node("bob", &["alice"], 16);
    let data: Vec<u8> = (0..2 * CHUNK_SIZE + 10).map(|i| (i % 251) as u8).collect();

    let transfer = alice.node.send_file(
        &bob.node.public_identity(),
        ContentKind::Image,
        "holiday.png".to_string(),
        "image/png".to_string(),
        &data,
    );
    assert_eq!(alice.run_transfer(&mut net, transfer).unwrap(), 3);

    let mut progress = Vec::new();
    let mut arrived = None;
    while let Some(raw) = bob.recv_raw(&mut net) {
        match bob.handle_incoming(&mut net, raw).unwrap() {
            Some(IncomingEvent::Progress(sender, p)) => {
                assert_eq!(sender, alice.node.node_id());
                progress.push((p.done_chunks, p.total_chunks));
            }
            Some(IncomingEvent::Content(delivered)) => arrived = Some(delivered.content),
            _ => {}
        }
    }
    assert_eq!(progress, vec![(1, 3), (2, 3)]);
    match arrived {
        Some(ReceivedContent::File { name, mime, kind, data: received, .. }) => {
            assert_eq!(name, "holiday.png");
            assert_eq!(mime, "image/png");
            assert_eq!(kind, ContentKind::Image);
            assert_eq!(received, data);
        }
        _ => panic!("expected the file"),
    }
}

#[test]
fn a_burst_of_chunks_is_followed_by_a_pause() {
    let mut alice = make_node("alice", &["bob"], 16);
    let bob = make_node("bob", &["alice"], 16);
    let data = vec![7u8; 17 * CHUNK_SIZE];
    let mut transfer = alice.node.send_file(
        &bob.node.public_identity(),
        ContentKind::File,
        "f".to_string(),
        "m".to_string(),
        &data,
    );
    let mut pauses = Vec::new();
    while let Some(step) = alice.node.send_next_chunk(&mut transfer, START) {
        pauses.push(step.unwrap().pause);
    }
    assert_eq!(pauses.len(), 17);
    assert_eq!(pauses.iter().filter(|p| **p).count(), 1);
    assert!(pauses[15]);
}

#[test]
fn a_text_too_long_for_reliable_delivery_is_refused() {
    let mut net = Net::new();
    let mut alice = make_node("alice", &["bob"], 16);
    let bob = make_node("bob", &["alice"], 16);
    let text = "x".repeat(CHUNK_SIZE + 1);
    assert_eq!(
        alice.send_reliable_text(&mut net, &bob.node.public_identity(), &text),
        Err(NodeError::TooLongForReliableDelivery(2))
    );
    assert!(alice.node.deliveries().is_empty());
    let fitting = "x".repeat(CHUNK_SIZE);
    assert_eq!(alice.send_reliable_text(&mut net, &bob.node.public_identity(), &fitting), Ok(()));
    assert_eq!(alice.node.deliveries().len(), 1);
}

#[test]
fn call_signals_and_frames_reach_the_one_called() {
    let mut net = Net::new();
    let mut alice = make_node("alice", &["bob"], 16);
    let mut bob = make_node("bob", &["alice"], 16);
    let call_id = random_call_id();
    let target = bob.node.node_id();

    let invite = alice.node.call_invite(target, call_id, true, net.now).unwrap();
    let accept = alice.node.call_accept(target, call_id, net.now).unwrap();
    let reject = alice.node.call_reject(target, call_id, net.now).unwrap();
    let end = alice.node.call_end(target, call_id, net.now).unwrap();
    let frame = alice.node.send_call_frame(target, call_id, MediaKind::Audio, 9, vec![1, 2, 3], net.now).unwrap();

    let mut signals = Vec::new();
    for outgoing in [invite, accept, reject, end] {
        match bob.handle_incoming(&mut net, outgoing.bytes).unwrap() {
            Some(IncomingEvent::Call(sender, CallMessage::Signal(signal))) => {
                assert_eq!(sender, alice.node.node_id());
                assert_eq!(signal.call_id(), call_id);
                signals.push(signal);
            }
            _ => panic!("expected a signal"),
        }
    }
    assert!(matches!(signals[0], CallSignal::Invite { video: true, .. }));
    assert!(matches!(signals[1], CallSignal::Accept { .. }));
    assert!(matches!(signals[2], CallSignal::Reject { .. }));
    assert!(matches!(signals[3], CallSignal::End { .. }));

    match bob.handle_incoming(&mut net, frame.bytes.clone()).unwrap() {
        Some(IncomingEvent::Call(_, CallMessage::Frame(received))) => {
            assert_eq!(received.call_id, call_id);
            assert_eq!(received.media, MediaKind::Audio);
            assert_eq!(received.sequence, 9);
            assert_eq!(received.data, vec![1, 2, 3]);
        }
        _ => panic!("expected a frame"),
    }
    assert!(bob.handle_incoming(&mut net, frame.bytes).unwrap().is_none(), "a frame is taken once");
}

#[test]
fn call_frames_are_not_remembered_for_good() {
    let mut net = Net::new();
    let mut alice = make_node("alice", &["bob"], 16);
    let mut bob = make_node("bob", &["alice"], 16);
    let frame = alice
        .node
        .send_call_frame(bob.node.node_id(), [1u8; 16], MediaKind::Video, 0, vec![0], net.now)
        .unwrap();
    assert!(alice.node.replay().is_empty());
    bob.handle_incoming(&mut net, frame.bytes).unwrap();
    assert!(bob.node.replay().is_empty());
}

#[test]
fn an_expired_packet_is_neither_shown_nor_handed_on() {
    let mut net = Net::new();
    let mut alice = make_node("alice", &["bob"], 16);
    let mut bob = make_node("bob", &["alice", "carol"], 16);
    alice.send_text(&mut net, &bob.node.public_identity(), "late").unwrap();
    let raw = bob.recv_raw(&mut net).unwrap();
    net.now += MESSAGE_LIFETIME_MS + 300_000 + 1;
    assert!(bob.handle_incoming(&mut net, raw.clone()).unwrap().is_none());
    assert!(!net.queues.contains_key("carol"));
    net.now -= 1;
    let event = bob.handle_incoming(&mut net, raw).unwrap();
    assert_eq!(text_of(&event), Some("late"));
    assert_eq!(net.queues["carol"].len(), 2, "the packet and the acknowledgement");
}

#[test]
fn a_node_does_not_send_its_own_message_round_again() {
    let mut net = Net::new();
    let mut alice = make_node("alice", &["bob"], 16);
    let mut bob = make_node("bob", &["alice"], 16);
    let transfer = alice.node.broadcast_text("hello");
    alice.run_transfer(&mut net, transfer).unwrap();
    let raw = bob.recv_raw(&mut net).unwrap();
    bob.handle_incoming(&mut net, raw).unwrap();
    let bounced = alice.recv_raw(&mut net).unwrap();
    assert!(alice.handle_incoming(&mut net, bounced).unwrap().is_none());
    assert!(bob.recv_raw(&mut net).is_none());
}

#[test]
fn each_relay_counts_one_hop() {
    let mut net = Net::new();
    let mut alice = make_node("alice", &["relay"], 16);
    let mut relay = make_node("relay", &["bob"], 16);
    let bob = make_node("bob", &["relay"], 16);
    alice.send_text(&mut net, &bob.node.public_identity(), "hello").unwrap();
    let first = relay.recv_raw(&mut net).unwrap();
    relay.handle_incoming(&mut net, first.clone()).unwrap();
    let second = bob.recv_raw(&mut net).unwrap();
    assert_eq!(decode_envelope(&first).unwrap().hops_used, 0);
    assert_eq!(decode_envelope(&second).unwrap().hops_used, 1);
    assert_eq!(decode_envelope(&first).unwrap().signature, decode_envelope(&second).unwrap().signature);
}

#[test]
fn a_flood_succeeds_where_one_neighbour_takes_it_or_there_is_none() {
    assert!(flood_succeeded(&vec![]));
    assert!(flood_succeeded(&vec![false, true]));
    assert!(!flood_succeeded(&vec![false, false]));
}

#[test]
fn a_fresh_node_knows_nothing() {
    let node = MeshNode::new(Identity::from_seed([5u8; 32]), ChannelKey::from_passphrase("x"), 3);
    assert_eq!(node.node_id(), Identity::from_seed([5u8; 32]).node_id());
    assert_eq!(node.identity_seed(), [5u8; 32]);
    assert!(node.public_identity().verify_binding());
    assert!(node.replay().is_empty());
    assert!(node.deliveries().is_empty());
    assert!(node.forwards().is_empty());
    assert!(node.inbox().is_empty());
    let other = MeshNode::new_with_replay_store(
        Identity::from_seed([5u8; 32]),
        ChannelKey::from_passphrase("x"),
        3,
        ReplayStore::in_memory(),
    );
    assert_eq!(other.node_id(), node.node_id());
}

#[test]
fn other_channels_do_not_read_a_broadcast() {
    let mut net = Net::new();
    let mut alice = make_node("alice", &["eve"], 16);
    let mut eve = TestNode {
        name: "eve".to_string(),
        peers: vec![],
        node: MeshNode::new(Identity::generate(), ChannelKey::from_passphrase("another-channel"), 16),
    };
    let transfer = alice.node.broadcast_text("members only");
    alice.run_transfer(&mut net, transfer).unwrap();
    let raw = eve.recv_raw(&mut net).unwrap();
    assert!(eve.handle_incoming(&mut net, raw).unwrap().is_none());
    assert!(eve.node.inbox_messages().is_empty());
}

#[test]
fn a_conversation_is_paged_from_the_newest() {
    let mut net = Net::new();
    let mut alice = make_node("alice", &["bob"], 16);
    let mut bob = make_node("bob", &[], 16);
    for text in ["one", "two", "three"] {
        alice.send_text(&mut net, &bob.node.public_identity(), text).unwrap();
        let raw = bob.recv_raw(&mut net).unwrap();
        bob.handle_incoming(&mut net, raw).unwrap();
        net.now += 10;
    }
    let page = bob.node.inbox_messages_for_peer(&alice.node.node_id(), None, 2);
    assert_eq!(page.len(), 2);
    assert!(matches!(&page[0].content, ReceivedContent::Text(t) if t == "three"));
    assert!(matches!(&page[1].content, ReceivedContent::Text(t) if t == "two"));
    let rest = bob.node.inbox_messages_for_peer(&alice.node.node_id(), Some(page[1].received_at), 2);
    assert_eq!(rest.len(), 1);
    assert!(matches!(&rest[0].content, ReceivedContent::Text(t) if t == "one"));
}

/// The packets of a file of two chunks from one node to another.
fn two_packets(net: &mut Net, alice: &mut TestNode, bob: &TestNode) -> Vec<Vec<u8>> {
    let transfer = alice.node.send_file(
        &bob.node.public_identity(),
        ContentKind::File,
        "f".to_string(),
        "m".to_string(),
        &[7u8; CHUNK_SIZE + 1],
    );
    assert_eq!(alice.run_transfer(net, transfer).unwrap(), 2);
    let mut packets = Vec::new();
    while let Some(raw) = bob.recv_raw(net) {
        packets.push(raw);
    }
    packets
}

#[test]
fn a_jump_of_the_wall_clock_does_not_lose_a_transfer() {
    let mut net = Net::new();
    let mut alice = make_node("alice", &["bob"], 16);
    let mut bob = make_node("bob", &["alice"], 16);
    let packets = two_packets(&mut net, &mut alice, &bob);
    let first = bob.node.handle_incoming(&packets[0], START, 5).unwrap();
    assert!(matches!(first.local, Local::Event(IncomingEvent::Progress(_, _))));
    let second = bob.node.handle_incoming(&packets[1], START + TRANSFER_TIMEOUT_MS + 1_000, 6).unwrap();
    assert!(matches!(second.local, Local::Store(_)));
}

#[test]
fn a_transfer_is_lost_once_the_node_has_run_too_long_without_it() {
    let mut net = Net::new();
    let mut alice = make_node("alice", &["bob"], 16);
    let mut bob = make_node("bob", &["alice"], 16);
    let packets = two_packets(&mut net, &mut alice, &bob);
    bob.node.handle_incoming(&packets[0], START, 5).unwrap();
    let second = bob.node.handle_incoming(&packets[1], START, 5 + TRANSFER_TIMEOUT_MS).unwrap();
    assert!(matches!(
        second.local,
        Local::Event(IncomingEvent::Progress(_, p)) if (p.done_chunks, p.total_chunks) == (1, 2)
    ));
}
