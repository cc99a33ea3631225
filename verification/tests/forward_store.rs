use meshtalk::forward_store::{ForwardAttempt, ForwardState, ForwardStore};
use meshtalk::identity::{Identity, NodeId};

fn now_millis() -> u64 {
    std::time::SystemTime::now().duration_since(std::time::UNIX_EPOCH).unwrap_or_default().as_millis() as u64
}

fn test_sender() -> NodeId {
    Identity::generate().node_id()
}

fn copy_rows(store: &ForwardStore) -> Vec<ForwardAttempt> {
    store
        .rows()
        .iter()
        .map(|row| ForwardAttempt {
            message_id: row.message_id,
            peer: row.peer.clone(),
            sender: row.sender,
            envelope_bytes: row.envelope_bytes.clone(),
            state: row.state,
            attempts: row.attempts,
            next_attempt_at: row.next_attempt_at,
            expires_at: row.expires_at,
            created_at: row.created_at,
        })
        .collect()
}

#[test]
fn no_tracked_peers_is_vacuously_resolved() {
    let store = ForwardStore::in_memory();
    assert!(store.all_peers_resolved(&[1u8; 16]));
}

#[test]
fn message_id_with_no_peers_tracked_is_vacuously_resolved_matching_pre_3b_behavior() {
    let mut store = ForwardStore::in_memory();
    store.enqueue_pending(&[7u8; 16], &test_sender(), &[], b"bytes", now_millis(), now_millis() + 60_000);
    assert!(store.all_peers_resolved(&[7u8; 16]));
    assert!(store.is_empty());
}

#[test]
fn partial_success_leaves_only_the_failed_peers_pending_and_unresolved() {
    let mut store = ForwardStore::in_memory();
    let message_id = [2u8; 16];
    let now = now_millis();
    let peers = vec!["b".to_string(), "c".to_string(), "d".to_string()];
    store.enqueue_pending(&message_id, &test_sender(), &peers, b"bytes", now, now + 600_000);

    store.record_attempt_result(&message_id, "b", true, now);
    store.record_attempt_result(&message_id, "c", false, now);
    store.record_attempt_result(&message_id, "d", false, now);

    assert_eq!(store.state_of(&message_id, "b"), Some(ForwardState::Forwarded));
    assert_eq!(store.state_of(&message_id, "c"), Some(ForwardState::Pending));
    assert_eq!(store.state_of(&message_id, "d"), Some(ForwardState::Pending));
    assert!(
        !store.all_peers_resolved(&message_id),
        "a partially-successful flood must not be considered fully forwarded while any peer is still pending"
    );

    let due: Vec<String> = store.due_for_attempt(now + 10_000).into_iter().map(|d| d.peer).collect();
    assert!(due.contains(&"c".to_string()));
    assert!(due.contains(&"d".to_string()));
    assert!(!due.contains(&"b".to_string()));
}

#[test]
fn resolved_once_every_peer_eventually_succeeds() {
    let mut store = ForwardStore::in_memory();
    let message_id = [3u8; 16];
    let now = now_millis();
    let peers = vec!["b".to_string(), "c".to_string()];
    store.enqueue_pending(&message_id, &test_sender(), &peers, b"bytes", now, now + 60_000);

    store.record_attempt_result(&message_id, "b", true, now);
    assert!(!store.all_peers_resolved(&message_id));
    store.record_attempt_result(&message_id, "c", true, now);
    assert!(store.all_peers_resolved(&message_id));
}

#[test]
fn expired_pending_peer_counts_as_resolved_but_not_forwarded() {
    let mut store = ForwardStore::in_memory();
    let message_id = [4u8; 16];
    let now = now_millis();
    store.enqueue_pending(&message_id, &test_sender(), &["c".to_string()], b"bytes", now, now + 100);

    store.expire_overdue(now + 200);
    assert_eq!(store.state_of(&message_id, "c"), Some(ForwardState::Expired));
    assert!(store.all_peers_resolved(&message_id));
    assert!(store.due_for_attempt(now + 999_999).is_empty());
}

#[test]
fn resending_the_same_message_id_does_not_reset_an_already_forwarded_peer() {
    let mut store = ForwardStore::in_memory();
    let message_id = [5u8; 16];
    let now = now_millis();
    let sender = test_sender();
    store.enqueue_pending(&message_id, &sender, &["b".to_string()], b"bytes", now, now + 60_000);
    store.record_attempt_result(&message_id, "b", true, now);

    store.enqueue_pending(&message_id, &sender, &["b".to_string()], b"bytes", now + 1_000, now + 60_000);
    assert_eq!(store.state_of(&message_id, "b"), Some(ForwardState::Forwarded));
}

#[test]
fn sender_and_expiry_are_recoverable_after_resolution_for_later_replay_marking() {
    let mut store = ForwardStore::in_memory();
    let message_id = [8u8; 16];
    let sender = test_sender();
    let now = now_millis();
    assert!(store.sender_and_expiry_of(&message_id).is_none());

    store.enqueue_pending(&message_id, &sender, &["b".to_string()], b"bytes", now, now + 60_000);
    let (recovered_sender, recovered_expiry) = store.sender_and_expiry_of(&message_id).unwrap();
    assert_eq!(recovered_sender, sender);
    assert_eq!(recovered_expiry, now + 60_000);
}

#[test]
fn forward_store_persists_across_reopen_at_the_same_path() {
    let message_id = [6u8; 16];
    let now = now_millis();

    let mut store = ForwardStore::in_memory();
    store.enqueue_pending(&message_id, &test_sender(), &["b".to_string(), "c".to_string()], b"bytes", now, now + 600_000);
    store.record_attempt_result(&message_id, "b", true, now);
    store.record_attempt_result(&message_id, "c", false, now);

    let reopened = ForwardStore::from_rows(copy_rows(&store), 20_000);
    assert_eq!(reopened.state_of(&message_id, "b"), Some(ForwardState::Forwarded));
    assert_eq!(reopened.state_of(&message_id, "c"), Some(ForwardState::Pending));
    assert!(!reopened.all_peers_resolved(&message_id));
}

#[test]
fn stored_forward_words_read_back() {
    for state in [ForwardState::Pending, ForwardState::Forwarded, ForwardState::Expired] {
        assert_eq!(ForwardState::from_str(state.as_str()), Some(state));
    }
    assert_eq!(ForwardState::Pending.as_str(), "pending");
    assert_eq!(ForwardState::Forwarded.as_str(), "forwarded");
    assert_eq!(ForwardState::Expired.as_str(), "expired");
    assert_eq!(ForwardState::from_str("queued"), None);
}

#[test]
fn a_failed_neighbour_is_tried_again_on_schedule() {
    let mut store = ForwardStore::in_memory();
    store.enqueue_pending(&[1u8; 16], &[2u8; 32], &["b".to_string()], b"bytes", 1_000, 900_000);
    assert_eq!(store.due_for_attempt(1_000).len(), 1);
    store.record_attempt_result_with(&[1u8; 16], "b", false, 1_000, 0);
    assert_eq!(store.rows()[0].attempts, 1);
    assert!(store.due_for_attempt(2_999).is_empty());
    let due = store.due_for_attempt(3_000);
    assert_eq!(due.len(), 1);
    assert_eq!(due[0].envelope_bytes, b"bytes");
}

#[test]
fn a_full_forward_store_gives_up_finished_rows_first() {
    let mut store = ForwardStore::in_memory_with_capacity(2);
    store.enqueue_pending(&[1u8; 16], &[2u8; 32], &["b".to_string()], b"open", 1_000, 900_000);
    store.enqueue_pending(&[2u8; 16], &[2u8; 32], &["b".to_string()], b"done", 2_000, 900_000);
    store.record_attempt_result(&[2u8; 16], "b", true, 2_000);
    store.enqueue_pending(&[3u8; 16], &[2u8; 32], &["b".to_string()], b"new", 3_000, 900_000);
    assert_eq!(store.len(), 2);
    assert_eq!(store.state_of(&[1u8; 16], "b"), Some(ForwardState::Pending));
    assert_eq!(store.state_of(&[2u8; 16], "b"), None);
    assert_eq!(store.state_of(&[3u8; 16], "b"), Some(ForwardState::Pending));
}

#[test]
fn a_second_stored_row_of_a_message_and_neighbour_is_left_out() {
    let mut store = ForwardStore::in_memory();
    let peers = vec!["b".to_string(), "c".to_string()];
    store.enqueue_pending(&[1u8; 16], &[9u8; 32], &peers, b"first", 1_000, 2_000);
    let mut rows = copy_rows(&store);
    let mut again = copy_rows(&store);
    again[1].envelope_bytes = b"second".to_vec();
    rows.push(again.remove(1));
    let reopened = ForwardStore::from_rows(rows, 10);
    let kept: Vec<(&str, &[u8])> =
        reopened.rows().iter().map(|row| (row.peer.as_str(), &row.envelope_bytes[..])).collect();
    assert_eq!(kept, vec![("b", &b"first"[..]), ("c", &b"first"[..])]);
}
