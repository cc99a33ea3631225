use meshtalk::identity::{Identity, NodeId};
use meshtalk::inbox_store::{InboxStore, InsertOutcome, StoredMessage};
use meshtalk::payload::{ContentKind, ReceivedContent};

fn now_millis() -> u64 {
    std::time::SystemTime::now().duration_since(std::time::UNIX_EPOCH).unwrap_or_default().as_millis() as u64
}

fn test_sender() -> NodeId {
    Identity::generate().node_id()
}

fn test_key(seed: u8) -> [u8; 32] {
    [seed; 32]
}

fn copy_rows(store: &InboxStore) -> Vec<StoredMessage> {
    store
        .rows()
        .iter()
        .map(|row| StoredMessage {
            sender: row.sender,
            message_id: row.message_id,
            received_at: row.received_at,
            nonce: row.nonce.clone(),
            content_ciphertext: row.content_ciphertext.clone(),
        })
        .collect()
}

#[test]
fn first_insert_is_new_second_is_a_duplicate() {
    let mut store = InboxStore::in_memory();
    let sender = test_sender();
    let message_id = [1u8; 16];
    let content = ReceivedContent::Text("hello".to_string());

    assert_eq!(store.insert_if_absent(&sender, &message_id, now_millis(), &content).unwrap(), InsertOutcome::Inserted);
    assert_eq!(store.insert_if_absent(&sender, &message_id, now_millis(), &content).unwrap(), InsertOutcome::AlreadyPresent);
    assert_eq!(store.len(), 1, "a duplicate insert must not create a second row");
}

#[test]
fn inbox_store_same_message_id_from_different_senders_does_not_collide() {
    let mut store = InboxStore::in_memory();
    let (alice, bob) = (test_sender(), test_sender());
    let message_id = [2u8; 16];
    let content = ReceivedContent::Text("hi".to_string());

    assert_eq!(store.insert_if_absent(&alice, &message_id, now_millis(), &content).unwrap(), InsertOutcome::Inserted);
    assert_eq!(store.insert_if_absent(&bob, &message_id, now_millis(), &content).unwrap(), InsertOutcome::Inserted);
    assert_eq!(store.len(), 2);
}

#[test]
fn all_messages_round_trips_content_in_received_order() {
    let mut store = InboxStore::in_memory();
    let sender = test_sender();
    let now = now_millis();
    store.insert_if_absent(&sender, &[3u8; 16], now, &ReceivedContent::Text("first".to_string())).unwrap();
    store.insert_if_absent(&sender, &[4u8; 16], now + 1, &ReceivedContent::Text("second".to_string())).unwrap();

    let all = store.all_messages();
    assert_eq!(all.len(), 2);
    assert!(matches!(&all[0].content, ReceivedContent::Text(t) if t == "first"));
    assert!(matches!(&all[1].content, ReceivedContent::Text(t) if t == "second"));
}

#[test]
fn inbox_store_persists_across_reopen_at_the_same_path() {
    let sender = test_sender();
    let message_id = [6u8; 16];
    let key = test_key(7);

    let mut store = InboxStore::with_key(key, 5_000);
    store.insert_if_absent(&sender, &message_id, now_millis(), &ReceivedContent::Text("persisted".to_string())).unwrap();

    let reopened = InboxStore::from_rows(copy_rows(&store), key, 5_000);
    assert!(reopened.contains(&sender, &message_id));
    assert_eq!(reopened.all_messages().len(), 1);
}

#[test]
fn raw_file_does_not_contain_plaintext_marker() {
    let marker = "TOTALLY-SECRET-MARKER-STRING-12345";
    let mut store = InboxStore::with_key(test_key(9), 5_000);
    store.insert_if_absent(&test_sender(), &[8u8; 16], now_millis(), &ReceivedContent::Text(marker.to_string())).unwrap();

    let raw = copy_rows(&store).remove(0).content_ciphertext;
    let haystack = String::from_utf8_lossy(&raw);
    assert!(!haystack.contains(marker), "message plaintext must never appear in what is stored");
}

#[test]
fn wrong_storage_key_fails_closed() {
    let sender = test_sender();
    let mut store = InboxStore::with_key(test_key(1), 5_000);
    store.insert_if_absent(&sender, &[10u8; 16], now_millis(), &ReceivedContent::Text("hello".to_string())).unwrap();

    let reopened_wrong_key = InboxStore::from_rows(copy_rows(&store), test_key(2), 5_000);
    assert!(reopened_wrong_key.all_messages().is_empty(), "a wrong storage key must not decrypt any content");
    assert!(reopened_wrong_key.contains(&sender, &[10u8; 16]));

    let reopened_right_key = InboxStore::from_rows(copy_rows(&reopened_wrong_key), test_key(1), 5_000);
    assert_eq!(reopened_right_key.all_messages().len(), 1, "the correct key must still decrypt it afterward");
}

#[test]
fn modified_stored_ciphertext_is_rejected() {
    let sender = test_sender();
    let key = test_key(3);
    let mut store = InboxStore::with_key(key, 5_000);
    store.insert_if_absent(&sender, &[11u8; 16], now_millis(), &ReceivedContent::Text("hello".to_string())).unwrap();

    let mut rows = copy_rows(&store);
    rows[0].content_ciphertext.push(0);

    let reopened = InboxStore::from_rows(rows, key, 5_000);
    assert!(reopened.all_messages().is_empty(), "tampered ciphertext must fail AEAD authentication, not be silently accepted");
}

#[test]
fn messages_for_peer_paginates_newest_first() {
    let mut store = InboxStore::in_memory();
    let (alice, bob) = (test_sender(), test_sender());
    let now = now_millis();
    for i in 0..5u64 {
        store.insert_if_absent(&alice, &[i as u8; 16], now + i, &ReceivedContent::Text(format!("alice-{i}"))).unwrap();
    }
    store.insert_if_absent(&bob, &[99u8; 16], now, &ReceivedContent::Text("bob-only".to_string())).unwrap();

    let page1 = store.messages_for_peer(&alice, None, 2);
    assert_eq!(page1.len(), 2);
    assert!(matches!(&page1[0].content, ReceivedContent::Text(t) if t == "alice-4"));
    assert!(matches!(&page1[1].content, ReceivedContent::Text(t) if t == "alice-3"));

    let page2 = store.messages_for_peer(&alice, Some(page1[1].received_at), 2);
    assert_eq!(page2.len(), 2);
    assert!(matches!(&page2[0].content, ReceivedContent::Text(t) if t == "alice-2"));
    assert!(matches!(&page2[1].content, ReceivedContent::Text(t) if t == "alice-1"));

    assert!(store.messages_for_peer(&alice, None, 100).iter().all(|m| m.sender == alice));
}

#[test]
fn a_row_moved_to_another_message_does_not_open() {
    let key = test_key(4);
    let mut store = InboxStore::with_key(key, 5_000);
    store.insert_if_absent(&[1u8; 32], &[1u8; 16], 10, &ReceivedContent::Text("hello".to_string())).unwrap();
    let mut moved = copy_rows(&store);
    moved[0].message_id = [2u8; 16];
    assert!(InboxStore::from_rows(moved, key, 5_000).all_messages().is_empty());
    let mut reattributed = copy_rows(&store);
    reattributed[0].sender = [2u8; 32];
    assert!(InboxStore::from_rows(reattributed, key, 5_000).all_messages().is_empty());
}

#[test]
fn a_file_keeps_everything_that_came_with_it() {
    let mut store = InboxStore::in_memory();
    let content = ReceivedContent::File {
        transfer_id: [9u8; 16],
        name: "holiday.png".to_string(),
        mime: "image/png".to_string(),
        kind: ContentKind::Image,
        data: vec![1, 2, 3, 0, 255],
    };
    store.insert_if_absent(&[1u8; 32], &[1u8; 16], 10, &content).unwrap();
    let all = store.all_messages();
    assert_eq!(all.len(), 1);
    assert_eq!(all[0].received_at, 10);
    match &all[0].content {
        ReceivedContent::File { transfer_id, name, mime, kind, data } => {
            assert_eq!(transfer_id, &[9u8; 16]);
            assert_eq!(name, "holiday.png");
            assert_eq!(mime, "image/png");
            assert_eq!(*kind, ContentKind::Image);
            assert_eq!(data, &vec![1, 2, 3, 0, 255]);
        }
        ReceivedContent::Text(_) => panic!("expected a file"),
    }
}

#[test]
fn history_is_ordered_by_time_of_receipt() {
    let mut store = InboxStore::in_memory();
    for (id, time, text) in [(1u8, 30u64, "third"), (2, 10, "first"), (3, 20, "second"), (4, 20, "second again")] {
        store.insert_if_absent(&[1u8; 32], &[id; 16], time, &ReceivedContent::Text(text.to_string())).unwrap();
    }
    let texts: Vec<String> = store
        .all_messages()
        .into_iter()
        .map(|m| match m.content {
            ReceivedContent::Text(t) => t,
            _ => unreachable!(),
        })
        .collect();
    assert_eq!(texts, vec!["first", "second", "second again", "third"]);
}

#[test]
fn a_full_inbox_loses_its_oldest_message() {
    let mut store = InboxStore::in_memory_with_capacity(2);
    for id in 1..4u8 {
        store.insert_if_absent(&[1u8; 32], &[id; 16], id as u64, &ReceivedContent::Text("x".to_string())).unwrap();
    }
    assert_eq!(store.len(), 2);
    assert!(!store.contains(&[1u8; 32], &[1u8; 16]));
    assert!(store.contains(&[1u8; 32], &[2u8; 16]));
    assert!(store.contains(&[1u8; 32], &[3u8; 16]));
}

#[test]
fn a_sealed_row_is_added_once() {
    let mut store = InboxStore::in_memory();
    let content = ReceivedContent::Text("sealed".to_string());
    let row = store.seal_row(&[1u8; 32], &[1u8; 16], 5, &content).unwrap();
    let again = store.seal_row(&[1u8; 32], &[1u8; 16], 6, &content).unwrap();
    assert_ne!(row.nonce, again.nonce);
    assert_eq!(store.insert_row(row), InsertOutcome::Inserted);
    assert_eq!(store.insert_row(again), InsertOutcome::AlreadyPresent);
    assert_eq!(store.all_messages()[0].received_at, 5);
}

#[test]
fn a_second_stored_row_of_a_received_message_is_left_out() {
    let mut store = InboxStore::with_key(test_key(1), 5_000);
    store.insert_if_absent(&[1u8; 32], &[1u8; 16], 1_000, &ReceivedContent::Text("one".to_string())).unwrap();
    store.insert_if_absent(&[1u8; 32], &[2u8; 16], 2_000, &ReceivedContent::Text("two".to_string())).unwrap();
    let mut rows = copy_rows(&store);
    let mut again = copy_rows(&store);
    again[0].received_at = 5_000;
    rows.push(again.remove(0));
    let reopened = InboxStore::from_rows(rows, test_key(1), 5_000);
    let kept: Vec<([u8; 16], u64)> = reopened.rows().iter().map(|row| (row.message_id, row.received_at)).collect();
    assert_eq!(kept, vec![([1u8; 16], 1_000), ([2u8; 16], 2_000)]);
}
