use piano_trainer::history::ActiveKeysHistory;
use piano_trainer::keyset::KeySet;

#[test]
fn key_survives_half_a_second_and_expires_by_two_and_a_half() {
    let mut h = ActiveKeysHistory::new();
    h.insert(60, 0);
    h.autoclean(500_000);
    assert!(h.get().contains(60));
    h.autoclean(2_500_000);
    assert!(!h.get().contains(60));
    assert_eq!(h.len(), 0);
}

#[test]
fn entry_lives_just_under_the_ttl() {
    let mut h = ActiveKeysHistory::new();
    h.insert(60, 1_000);
    h.autoclean(2_000_999);
    assert!(h.get().contains(60));
    h.autoclean(2_001_000);
    assert!(!h.get().contains(60));
}

#[test]
fn entry_stamped_in_the_future_is_purged() {
    let mut h = ActiveKeysHistory::new();
    h.insert(60, 10_000);
    h.autoclean(5_000);
    assert!(!h.get().contains(60));
}

#[test]
fn autoclean_keeps_young_and_drops_old() {
    let mut h = ActiveKeysHistory::new();
    h.insert(60, 0);
    h.insert(62, 1_500_000);
    h.insert(64, 2_900_000);
    h.autoclean(3_000_000);
    let keys = h.get();
    assert!(!keys.contains(60));
    assert!(keys.contains(62));
    assert!(keys.contains(64));
    assert_eq!(h.len(), 2);
}

#[test]
fn history_counts_distinct_keys() {
    let mut h = ActiveKeysHistory::new();
    h.insert(60, 0);
    h.insert(60, 100);
    h.insert(62, 200);
    assert_eq!(h.len(), 2);
}

#[test]
fn clear_empties_the_history() {
    let mut h = ActiveKeysHistory::new();
    h.insert(60, 0);
    h.insert(62, 0);
    h.clear();
    assert_eq!(h.len(), 0);
    assert!(!h.get().contains(60));
}

#[test]
fn key_set_insert_remove_contains() {
    let mut s = KeySet::new();
    assert!(s.is_empty());
    s.insert(64);
    s.insert(60);
    s.insert(64);
    assert_eq!(s.len(), 2);
    assert!(s.contains(60));
    assert!(s.contains(64));
    assert!(!s.contains(62));
    s.remove(60);
    assert!(!s.contains(60));
    assert_eq!(s.len(), 1);
    s.remove(61);
    assert_eq!(s.len(), 1);
}

#[test]
fn key_set_equality_is_exact() {
    let mut a = KeySet::new();
    let mut b = KeySet::new();
    a.insert(60);
    a.insert(64);
    b.insert(64);
    b.insert(60);
    assert!(a.equals(&b));
    b.insert(67);
    assert!(!a.equals(&b));
    assert!(!b.equals(&a));
}

#[test]
fn key_set_lists_keys_ascending() {
    let mut s = KeySet::new();
    s.insert(67);
    s.insert(60);
    s.insert(64);
    assert_eq!(s.to_vec(), vec![60, 64, 67]);
}
