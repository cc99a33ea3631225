use meshtalk::identity::Identity;
use meshtalk::message::CLOCK_SKEW_TOLERANCE_MS;
use meshtalk::replay_store::ReplayStore;

fn now_millis() -> u64 {
    std::time::SystemTime::now().duration_since(std::time::UNIX_EPOCH).unwrap_or_default().as_millis() as u64
}

#[test]
fn first_insert_is_new_second_is_a_replay() {
    let mut store = ReplayStore::in_memory();
    let sender = Identity::generate().node_id();
    let message_id = [1u8; 16];
    let now = now_millis();

    assert!(store.check_and_insert(&sender, &message_id, now, now + 60_000));
    assert!(!store.check_and_insert(&sender, &message_id, now, now + 60_000));
}

#[test]
fn replay_store_same_message_id_from_different_senders_does_not_collide() {
    let mut store = ReplayStore::in_memory();
    let alice = Identity::generate().node_id();
    let bob = Identity::generate().node_id();
    let shared_message_id = [7u8; 16];
    let now = now_millis();

    assert!(store.check_and_insert(&alice, &shared_message_id, now, now + 60_000));
    assert!(store.check_and_insert(&bob, &shared_message_id, now, now + 60_000));
    assert!(!store.check_and_insert(&alice, &shared_message_id, now, now + 60_000));
    assert!(!store.check_and_insert(&bob, &shared_message_id, now, now + 60_000));
}

#[test]
fn replay_store_store_survives_being_reopened_at_the_same_path() {
    let sender = Identity::generate().node_id();
    let message_id = [2u8; 16];
    let now = now_millis();

    let mut store = ReplayStore::in_memory();
    assert!(store.check_and_insert(&sender, &message_id, now, now + 60_000));

    let mut reopened = ReplayStore::from_rows(store.rows().clone(), 50_000);
    assert!(
        !reopened.check_and_insert(&sender, &message_id, now, now + 60_000),
        "the same (sender, message_id) must still be recognized as already-seen after reopening"
    );
}

#[test]
fn expired_entries_are_purged_on_a_later_insert() {
    let mut store = ReplayStore::in_memory();
    let sender = Identity::generate().node_id();
    let old_message_id = [3u8; 16];
    let new_message_id = [4u8; 16];

    assert!(store.check_and_insert(&sender, &old_message_id, 1_000, 1_000));
    assert_eq!(store.len(), 1);

    let far_future = 1_000 + CLOCK_SKEW_TOLERANCE_MS * 10;
    assert!(store.check_and_insert(&sender, &new_message_id, far_future, far_future + 60_000));
    assert_eq!(store.len(), 1, "the expired entry should have been purged, leaving only the new one");
}

#[test]
fn contains_does_not_insert() {
    let mut store = ReplayStore::in_memory();
    let sender = Identity::generate().node_id();
    let message_id = [6u8; 16];

    assert!(!store.contains(&sender, &message_id));
    assert!(!store.contains(&sender, &message_id), "merely checking must not have inserted anything");
    assert_eq!(store.len(), 0);

    let now = now_millis();
    store.mark_seen(&sender, &message_id, now, now + 60_000);
    assert!(store.contains(&sender, &message_id));
    assert_eq!(store.len(), 1);
}

#[test]
fn mark_seen_is_idempotent() {
    let mut store = ReplayStore::in_memory();
    let sender = Identity::generate().node_id();
    let message_id = [7u8; 16];
    let now = now_millis();

    store.mark_seen(&sender, &message_id, now, now + 60_000);
    store.mark_seen(&sender, &message_id, now, now + 60_000);
    assert_eq!(store.len(), 1);
}

#[test]
fn replay_store_store_size_is_bounded_by_capacity() {
    let mut store = ReplayStore::in_memory_with_capacity(5);
    let now = now_millis();
    for i in 0..20u8 {
        let sender = Identity::generate().node_id();
        store.check_and_insert(&sender, &[i; 16], now, now + 999_999_999);
    }
    assert!(store.len() <= 5, "store should never grow past its configured capacity, got {}", store.len());
}

#[test]
fn a_handled_message_is_remembered_until_its_copies_have_expired() {
    let mut store = ReplayStore::in_memory();
    store.mark_seen(&[1u8; 32], &[1u8; 16], 10_000, 20_000);
    assert_eq!(store.rows()[0].first_seen_at, 10_000);
    assert_eq!(store.rows()[0].retain_until, 20_000 + CLOCK_SKEW_TOLERANCE_MS);
    let last_moment = 20_000 + CLOCK_SKEW_TOLERANCE_MS;
    store.mark_seen(&[1u8; 32], &[2u8; 16], last_moment, last_moment);
    assert!(store.contains(&[1u8; 32], &[1u8; 16]));
    store.mark_seen(&[1u8; 32], &[3u8; 16], last_moment + 1, last_moment + 1);
    assert!(!store.contains(&[1u8; 32], &[1u8; 16]));
}

#[test]
fn an_expiry_at_the_end_of_time_is_taken() {
    let mut store = ReplayStore::in_memory();
    store.mark_seen(&[1u8; 32], &[1u8; 16], 5, u64::MAX);
    assert!(store.contains(&[1u8; 32], &[1u8; 16]));
    assert_eq!(store.rows()[0].retain_until, u64::MAX);
}

#[test]
fn the_oldest_entry_leaves_a_full_replay_store() {
    let mut store = ReplayStore::in_memory_with_capacity(2);
    store.mark_seen(&[1u8; 32], &[1u8; 16], 100, 900_000);
    store.mark_seen(&[1u8; 32], &[2u8; 16], 200, 900_000);
    store.mark_seen(&[1u8; 32], &[3u8; 16], 300, 900_000);
    assert_eq!(store.len(), 2);
    assert!(!store.is_empty());
    assert!(!store.contains(&[1u8; 32], &[1u8; 16]));
    assert!(store.contains(&[1u8; 32], &[2u8; 16]));
    assert!(store.contains(&[1u8; 32], &[3u8; 16]));
}

#[test]
fn a_second_stored_row_of_a_seen_message_is_left_out() {
    let mut store = ReplayStore::in_memory();
    assert!(store.check_and_insert(&[1u8; 32], &[1u8; 16], 1_000, 60_000));
    assert!(store.check_and_insert(&[1u8; 32], &[2u8; 16], 2_000, 60_000));
    let mut rows = store.rows().clone();
    let mut again = rows[0];
    again.first_seen_at = 5_000;
    rows.push(again);
    let reopened = ReplayStore::from_rows(rows, 10);
    let kept: Vec<([u8; 16], u64)> = reopened.rows().iter().map(|row| (row.message_id, row.first_seen_at)).collect();
    assert_eq!(kept, vec![([1u8; 16], 1_000), ([2u8; 16], 2_000)]);
}
