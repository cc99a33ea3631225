use meshtalk::backoff::{next_retry_delay_ms, retry_delay_ms, RETRY_BASE_MS, RETRY_MAX_DELAY_MS};
use meshtalk::delivery_store::{DeliveryStore, OutboundMessage, OutboundState};
use meshtalk::identity::Identity;

fn now_millis() -> u64 {
    std::time::SystemTime::now().duration_since(std::time::UNIX_EPOCH).unwrap_or_default().as_millis() as u64
}

fn copy_rows(store: &DeliveryStore) -> Vec<OutboundMessage> {
    store
        .rows()
        .iter()
        .map(|row| OutboundMessage {
            message_id: row.message_id,
            recipient: row.recipient,
            envelope_bytes: row.envelope_bytes.clone(),
            state: row.state,
            attempts: row.attempts,
            next_attempt_at: row.next_attempt_at,
            expires_at: row.expires_at,
            created_at: row.created_at,
        })
        .collect()
}

#[test]
fn enqueued_message_is_immediately_due() {
    let mut store = DeliveryStore::in_memory();
    let recipient = Identity::generate().node_id();
    let message_id = [1u8; 16];
    let now = now_millis();

    store.enqueue(&message_id, &recipient, b"envelope-bytes", now, now + 60_000);
    assert_eq!(store.state_of(&message_id), Some(OutboundState::Queued));

    let due = store.due_for_attempt(now);
    assert_eq!(due.len(), 1);
    assert_eq!(due[0].message_id, message_id);
    assert_eq!(due[0].envelope_bytes, b"envelope-bytes");
}

#[test]
fn record_attempt_transitions_to_sent_and_schedules_a_later_retry() {
    let mut store = DeliveryStore::in_memory();
    let recipient = Identity::generate().node_id();
    let message_id = [2u8; 16];
    let now = now_millis();
    store.enqueue(&message_id, &recipient, b"bytes", now, now + 600_000);

    store.record_attempt(&message_id, now);
    assert_eq!(store.state_of(&message_id), Some(OutboundState::Sent));
    assert!(store.due_for_attempt(now).is_empty());
    assert!(!store.due_for_attempt(now + 120_000).is_empty());
}

#[test]
fn acknowledge_stops_future_retries() {
    let mut store = DeliveryStore::in_memory();
    let recipient = Identity::generate().node_id();
    let message_id = [3u8; 16];
    let now = now_millis();
    store.enqueue(&message_id, &recipient, b"bytes", now, now + 60_000);
    store.record_attempt(&message_id, now);

    assert!(store.acknowledge_from(&message_id, &recipient));
    assert_eq!(store.state_of(&message_id), Some(OutboundState::Acknowledged));
    assert!(store.due_for_attempt(now + 999_999).is_empty());
}

#[test]
fn acknowledge_is_idempotent_and_harmless_for_unknown_ids() {
    let mut store = DeliveryStore::in_memory();
    assert!(!store.acknowledge_from(&[9u8; 16], &Identity::generate().node_id()));
    assert!(store.is_empty());

    let recipient = Identity::generate().node_id();
    let message_id = [4u8; 16];
    let now = now_millis();
    store.enqueue(&message_id, &recipient, b"bytes", now, now + 60_000);
    assert!(store.acknowledge_from(&message_id, &recipient));
    assert!(store.acknowledge_from(&message_id, &recipient));
    assert_eq!(store.state_of(&message_id), Some(OutboundState::Acknowledged));
}

#[test]
fn acknowledge_from_the_wrong_node_is_rejected() {
    let mut store = DeliveryStore::in_memory();
    let real_recipient = Identity::generate().node_id();
    let mallory = Identity::generate().node_id();
    let message_id = [10u8; 16];
    let now = now_millis();
    store.enqueue(&message_id, &real_recipient, b"bytes", now, now + 60_000);

    assert!(!store.acknowledge_from(&message_id, &mallory), "an ack from the wrong node must not be accepted");
    assert_eq!(store.state_of(&message_id), Some(OutboundState::Queued), "state must be unaffected by a mismatched ack");
    assert!(!store.due_for_attempt(now).is_empty(), "the message must remain retryable");

    assert!(store.acknowledge_from(&message_id, &real_recipient), "the real recipient's ack must still work");
}

#[test]
fn expire_overdue_transitions_past_expiry_messages_and_stops_retries() {
    let mut store = DeliveryStore::in_memory();
    let recipient = Identity::generate().node_id();
    let message_id = [5u8; 16];
    store.enqueue(&message_id, &recipient, b"bytes", 1_000, 2_000);

    store.expire_overdue(3_000);
    assert_eq!(store.state_of(&message_id), Some(OutboundState::Expired));
    assert!(store.due_for_attempt(3_000).is_empty());
}

#[test]
fn delivery_store_store_survives_being_reopened_at_the_same_path() {
    let recipient = Identity::generate().node_id();
    let message_id = [6u8; 16];
    let now = now_millis();

    let mut store = DeliveryStore::in_memory();
    store.enqueue(&message_id, &recipient, b"envelope-bytes", now, now + 60_000);
    store.record_attempt(&message_id, now);

    let reopened = DeliveryStore::from_rows(copy_rows(&store), 10_000);
    assert_eq!(reopened.state_of(&message_id), Some(OutboundState::Sent));
}

#[test]
fn delivery_store_store_size_is_bounded_by_capacity() {
    let mut store = DeliveryStore::in_memory_with_capacity(5);
    let now = now_millis();
    for i in 0..20u8 {
        let recipient = Identity::generate().node_id();
        store.enqueue(&[i; 16], &recipient, b"bytes", now, now + 999_999_999);
    }
    assert!(store.len() <= 5, "store should never grow past its configured capacity, got {}", store.len());
}

#[test]
fn retry_delay_increases_with_attempts_but_is_capped() {
    let first = next_retry_delay_ms(1);
    let later = next_retry_delay_ms(5);
    let capped = next_retry_delay_ms(50);
    assert!(first < later, "backoff should grow with more attempts");
    assert!(capped <= RETRY_MAX_DELAY_MS + RETRY_MAX_DELAY_MS / 4, "backoff must stay bounded however many attempts have happened");
}

#[test]
fn delays_double_up_to_the_cap() {
    assert_eq!(RETRY_BASE_MS, 1_000);
    assert_eq!(retry_delay_ms(0, 0), 1_000);
    assert_eq!(retry_delay_ms(1, 0), 2_000);
    assert_eq!(retry_delay_ms(2, 0), 4_000);
    assert_eq!(retry_delay_ms(5, 0), 32_000);
    assert_eq!(retry_delay_ms(6, 0), 60_000);
    assert_eq!(retry_delay_ms(u32::MAX, 0), 60_000);
    assert_eq!(retry_delay_ms(1, 500), 2_500);
    assert_eq!(retry_delay_ms(1, 501), 2_000);
}

#[test]
fn stored_state_words_read_back() {
    for state in [OutboundState::Queued, OutboundState::Sent, OutboundState::Acknowledged, OutboundState::Expired] {
        assert_eq!(OutboundState::from_str(state.as_str()), Some(state));
    }
    assert_eq!(OutboundState::Queued.as_str(), "queued");
    assert_eq!(OutboundState::Sent.as_str(), "sent");
    assert_eq!(OutboundState::Acknowledged.as_str(), "acknowledged");
    assert_eq!(OutboundState::Expired.as_str(), "expired");
    assert_eq!(OutboundState::from_str("lost"), None);
    assert_eq!(OutboundState::from_str(""), None);
}

#[test]
fn queueing_again_keeps_the_first_bytes_and_state() {
    let mut store = DeliveryStore::in_memory();
    let recipient = [7u8; 32];
    store.enqueue(&[1u8; 16], &recipient, b"first", 100, 10_000);
    store.record_attempt_with(&[1u8; 16], 100, 0);
    store.enqueue(&[1u8; 16], &recipient, b"second", 200, 20_000);
    assert_eq!(store.len(), 1);
    assert_eq!(store.rows()[0].envelope_bytes, b"first");
    assert_eq!(store.state_of(&[1u8; 16]), Some(OutboundState::Sent));
}

#[test]
fn an_attempt_is_scheduled_exactly() {
    let mut store = DeliveryStore::in_memory();
    store.enqueue(&[1u8; 16], &[2u8; 32], b"bytes", 5_000, 900_000);
    store.record_attempt_with(&[1u8; 16], 5_000, 0);
    assert_eq!(store.rows()[0].attempts, 1);
    assert_eq!(store.rows()[0].next_attempt_at, 7_000);
    assert!(store.due_for_attempt(6_999).is_empty());
    assert_eq!(store.due_for_attempt(7_000).len(), 1);
    store.record_attempt_with(&[1u8; 16], 7_000, 0);
    assert_eq!(store.rows()[0].attempts, 2);
    assert_eq!(store.rows()[0].next_attempt_at, 11_000);
}

#[test]
fn a_settled_message_is_not_touched_again() {
    let mut store = DeliveryStore::in_memory();
    store.enqueue(&[1u8; 16], &[2u8; 32], b"bytes", 1_000, 2_000);
    assert!(store.acknowledge_from(&[1u8; 16], &[2u8; 32]));
    store.record_attempt(&[1u8; 16], 1_500);
    store.expire_overdue(9_000);
    assert_eq!(store.state_of(&[1u8; 16]), Some(OutboundState::Acknowledged));
}

#[test]
fn settled_messages_make_room_first() {
    let mut store = DeliveryStore::in_memory_with_capacity(2);
    store.enqueue(&[1u8; 16], &[9u8; 32], b"old and open", 1_000, 90_000);
    store.enqueue(&[2u8; 16], &[9u8; 32], b"young and settled", 2_000, 90_000);
    assert!(store.acknowledge_from(&[2u8; 16], &[9u8; 32]));
    store.enqueue(&[3u8; 16], &[9u8; 32], b"new", 3_000, 90_000);
    assert_eq!(store.state_of(&[1u8; 16]), Some(OutboundState::Queued));
    assert_eq!(store.state_of(&[2u8; 16]), None);
    assert_eq!(store.state_of(&[3u8; 16]), Some(OutboundState::Queued));
}

#[test]
fn a_late_acknowledgement_does_not_revive_a_message_given_up() {
    let mut store = DeliveryStore::in_memory();
    store.enqueue(&[5u8; 16], &[9u8; 32], b"bytes", 1_000, 2_000);
    store.expire_overdue(3_000);
    assert_eq!(store.state_of(&[5u8; 16]), Some(OutboundState::Expired));
    assert!(store.acknowledge_from(&[5u8; 16], &[9u8; 32]));
    assert_eq!(store.state_of(&[5u8; 16]), Some(OutboundState::Expired));
    assert!(!store.acknowledge_from(&[5u8; 16], &[8u8; 32]));
}

#[test]
fn a_second_stored_row_of_a_message_is_left_out() {
    let mut store = DeliveryStore::in_memory();
    store.enqueue(&[1u8; 16], &[9u8; 32], b"first", 1_000, 2_000);
    store.enqueue(&[2u8; 16], &[9u8; 32], b"other", 1_000, 2_000);
    let mut rows = copy_rows(&store);
    let mut again = copy_rows(&store);
    again[0].envelope_bytes = b"second".to_vec();
    rows.push(again.remove(0));
    let reopened = DeliveryStore::from_rows(rows, 10);
    let kept: Vec<&[u8]> = reopened.rows().iter().map(|row| &row.envelope_bytes[..]).collect();
    assert_eq!(kept, vec![&b"first"[..], &b"other"[..]]);
}
