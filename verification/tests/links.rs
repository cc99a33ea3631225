use meshtalk::discovery::{pairing_code, Announcement, LanDiscovery, DISCOVERY_PORT, EXPIRE_AFTER_MS};
use meshtalk::framing::{frame_message, FrameBuffer, MAX_CHUNK_LEN};
use meshtalk::identity::Identity;
use meshtalk::message::PROTOCOL_VERSION;
use meshtalk::session::PublicIdentity;

fn announcement_of(identity: &Identity, name: &str, port: u16) -> Vec<u8> {
    Announcement::new(&PublicIdentity::new(identity), name, port).encode()
}

#[test]
fn an_announcement_survives_its_encoding() {
    let alice = Identity::generate();
    let packet = announcement_of(&alice, "Alice", 9001);
    let back = Announcement::decode(&packet).unwrap();
    assert_eq!(back.public_identity.node_id, alice.node_id());
    assert_eq!(back.public_identity.x25519_public, alice.x25519_public());
    assert!(back.public_identity.verify_binding());
    assert_eq!(back.display_name, "Alice");
    assert_eq!(back.service_port, 9001);
    assert_eq!(back.protocol_version, PROTOCOL_VERSION);
    assert!(Announcement::decode(&packet[..packet.len() - 1]).is_none());
    assert!(Announcement::decode(b"").is_none());
}

#[test]
fn a_node_that_announces_itself_is_visible() {
    let alice = Identity::generate();
    let bob = Identity::generate();
    let mut discovery = LanDiscovery::new(bob.node_id());
    assert!(discovery.hear(&announcement_of(&alice, "Alice", 9001), "192.168.1.7", 1_000));
    let peers = discovery.discovered_peers(1_500);
    assert_eq!(peers.len(), 1);
    assert_eq!(peers[0].node_id, alice.node_id());
    assert_eq!(peers[0].display_name, "Alice");
    assert_eq!(peers[0].address, "192.168.1.7:9001");
    assert_eq!(peers[0].pairing_code, pairing_code(&bob.node_id(), &alice.node_id()));
    assert_eq!(peers[0].last_seen_ms, 1_000);
    assert_eq!(DISCOVERY_PORT, 45679);
}

#[test]
fn its_own_announcement_and_unbound_keys_are_dropped() {
    let alice = Identity::generate();
    let bob = Identity::generate();
    let mut discovery = LanDiscovery::new(bob.node_id());
    assert!(!discovery.hear(&announcement_of(&bob, "Bob", 1), "127.0.0.1", 1));
    let mut identity = PublicIdentity::new(&alice);
    identity.x25519_public = Identity::generate().x25519_public();
    assert!(!discovery.hear(&Announcement::new(&identity, "Alice", 1).encode(), "127.0.0.1", 1));
    assert!(!discovery.hear(b"noise", "127.0.0.1", 1));
    assert!(discovery.discovered_peers(2).is_empty());
}

#[test]
fn a_later_announcement_replaces_an_earlier_one() {
    let alice = Identity::generate();
    let mut discovery = LanDiscovery::new([0u8; 32]);
    assert!(discovery.hear(&announcement_of(&alice, "Alice", 80), "10.0.0.1", 1_000));
    assert!(discovery.hear(&announcement_of(&alice, "Alice's phone", 65535), "10.0.0.2", 2_000));
    let peers = discovery.discovered_peers(2_000);
    assert_eq!(peers.len(), 1);
    assert_eq!(peers[0].display_name, "Alice's phone");
    assert_eq!(peers[0].address, "10.0.0.2:65535");
}

#[test]
fn silent_nodes_disappear_and_the_latest_comes_first() {
    let (a, b, c) = (Identity::generate(), Identity::generate(), Identity::generate());
    let mut discovery = LanDiscovery::new([0u8; 32]);
    discovery.hear(&announcement_of(&a, "a", 1), "x", 1_000);
    discovery.hear(&announcement_of(&b, "b", 2), "x", 3_000);
    discovery.hear(&announcement_of(&c, "c", 0), "x", 2_000);
    let names: Vec<String> = discovery.discovered_peers(3_000).into_iter().map(|p| p.display_name).collect();
    assert_eq!(names, vec!["b", "c", "a"]);
    let names: Vec<String> =
        discovery.discovered_peers(1_000 + EXPIRE_AFTER_MS).into_iter().map(|p| p.display_name).collect();
    assert_eq!(names, vec!["b", "c"]);
    assert!(discovery.discovered_peers(3_000 + EXPIRE_AFTER_MS).is_empty());
}

#[test]
fn both_sides_show_the_same_pairing_code() {
    let (a, b) = ([1u8; 32], [2u8; 32]);
    let mut input = a.to_vec();
    input.extend_from_slice(&b);
    let hash = blake3::hash(&input);
    let number = u32::from_be_bytes(hash.as_bytes()[..4].try_into().unwrap()) % 1_000_000;
    assert_eq!(pairing_code(&a, &b), format!("{number:06}"));
    assert_eq!(pairing_code(&b, &a), pairing_code(&a, &b));
    assert_eq!(pairing_code(&a, &b).len(), 6);
    for i in 0..200u8 {
        let code = pairing_code(&[i; 32], &[255 - i; 32]);
        assert_eq!(code.len(), 6);
        assert!(code.bytes().all(|d| d.is_ascii_digit()));
    }
}

#[test]
fn a_message_is_cut_into_pieces_behind_its_length() {
    let message: Vec<u8> = (0..400).map(|i| i as u8).collect();
    let pieces = frame_message(&message);
    assert_eq!(pieces.iter().map(|p| p.len()).collect::<Vec<_>>(), vec![MAX_CHUNK_LEN, MAX_CHUNK_LEN, 44]);
    assert_eq!(pieces[0][..4], [0, 0, 1, 144]);
    let joined: Vec<u8> = pieces.concat();
    assert_eq!(joined[4..], message);
    assert_eq!(frame_message(b""), vec![vec![0, 0, 0, 0]]);
}

#[test]
fn messages_come_out_however_they_were_cut() {
    let messages: Vec<Vec<u8>> = vec![vec![1, 2, 3], vec![], (0..500).map(|i| i as u8).collect(), vec![9; 176]];
    let stream: Vec<u8> = messages.iter().flat_map(|m| frame_message(m).concat()).collect();
    for size in [1usize, 3, 4, 7, 180, 10_000] {
        let mut buffer = FrameBuffer::new();
        let mut out = Vec::new();
        for piece in stream.chunks(size) {
            out.extend(buffer.push(piece));
        }
        assert_eq!(out, messages);
    }
}

#[test]
fn an_unfinished_message_waits() {
    let mut buffer = FrameBuffer::new();
    assert!(buffer.push(&[0, 0, 0]).is_empty());
    assert!(buffer.push(&[2, 7]).is_empty());
    assert_eq!(buffer.push(&[8, 0, 0]), vec![vec![7, 8]]);
    assert!(buffer.push(&[255, 255]).is_empty());
}
