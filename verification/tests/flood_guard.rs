use meshtalk::flood_guard::FloodGuard;
use meshtalk::store::SeenCache;

#[test]
fn first_seen_is_new_second_is_not() {
    let mut guard = FloodGuard::new();
    let sender = [1u8; 32];
    let id = [2u8; 16];
    assert!(guard.check_and_insert(&sender, &id));
    assert!(!guard.check_and_insert(&sender, &id));
}

#[test]
fn different_senders_with_the_same_message_id_do_not_collide() {
    let mut guard = FloodGuard::new();
    let alice = [1u8; 32];
    let bob = [2u8; 32];
    let id = [9u8; 16];
    assert!(guard.check_and_insert(&alice, &id));
    assert!(guard.check_and_insert(&bob, &id));
}

#[test]
fn capacity_is_bounded_and_evicts_oldest_first() {
    let mut guard = FloodGuard::with_capacity(2);
    let sender = [1u8; 32];
    assert!(guard.check_and_insert(&sender, &[1u8; 16]));
    assert!(guard.check_and_insert(&sender, &[2u8; 16]));
    assert!(guard.check_and_insert(&sender, &[3u8; 16]));
    assert!(guard.check_and_insert(&sender, &[1u8; 16]));
}

#[test]
fn a_default_guard_is_an_empty_one() {
    let mut guard = FloodGuard::default();
    assert!(guard.check_and_insert(&[1u8; 32], &[1u8; 16]));
    assert!(!guard.check_and_insert(&[1u8; 32], &[1u8; 16]));
}

#[test]
fn seen_cache_knows_an_id_until_it_is_the_oldest_of_too_many() {
    let mut cache = SeenCache::new(2);
    assert!(cache.check_and_insert([1u8; 16]));
    assert!(!cache.check_and_insert([1u8; 16]));
    assert!(cache.check_and_insert([2u8; 16]));
    assert!(cache.check_and_insert([3u8; 16]));
    assert!(!cache.check_and_insert([3u8; 16]));
    assert!(!cache.check_and_insert([2u8; 16]));
    assert!(cache.check_and_insert([1u8; 16]));
}
