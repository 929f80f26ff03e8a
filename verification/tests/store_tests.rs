use nanodb::store::InMemoryDB;

#[test]
fn set_then_get_returns_value_unchanged() {
    let mut db = InMemoryDB::new();
    db.set("k".to_string(), "v".to_string(), None, 0);
    assert_eq!(db.get("k", 0), Some("v".to_string()));
    assert_eq!(db.get("k", u64::MAX), Some("v".to_string()));
}

#[test]
fn delete_after_set_makes_get_report_not_found() {
    let mut db = InMemoryDB::new();
    db.set("k".to_string(), "v".to_string(), None, 3);
    assert!(db.delete("k", 3));
    assert_eq!(db.get("k", 3), None);
}

#[test]
fn zero_or_past_ttl_expires_immediately() {
    let mut db = InMemoryDB::new();
    db.set("a".to_string(), "v".to_string(), Some(0), 10);
    assert_eq!(db.get("a", 10), None);
    // an expiration already in the past at read time
    db.set("b".to_string(), "v".to_string(), Some(5), 10);
    assert_eq!(db.get("b", 20), None);
}

#[test]
fn repeated_delete_on_absent_key_reports_not_found() {
    let mut db = InMemoryDB::new();
    assert!(!db.delete("ghost", 0));
    assert!(!db.delete("ghost", 0));
    db.set("ghost".to_string(), "v".to_string(), None, 0);
    assert!(db.delete("ghost", 0));
    assert!(!db.delete("ghost", 0));
}

#[test]
fn expiry_is_monotone_under_get() {
    let mut db = InMemoryDB::new();
    db.set("k".to_string(), "v".to_string(), Some(4), 6);
    assert_eq!(db.get("k", 9), Some("v".to_string()));
    // the entry expires at 10; every read from then on reports not-found
    assert_eq!(db.get("k", 10), None);
    assert_eq!(db.get("k", 11), None);
    assert_eq!(db.get("k", u64::MAX), None);
}

#[test]
fn sweep_removes_expired_entries_without_any_get() {
    let mut db = InMemoryDB::new();
    db.set("stays".to_string(), "a".to_string(), None, 0);
    db.set("goes".to_string(), "b".to_string(), Some(1), 0);
    db.sweep(1);
    assert_eq!(db.get("goes", 1), None);
    assert_eq!(db.get("stays", 1), Some("a".to_string()));
}

#[test]
fn sweep_keeps_live_entries_unchanged() {
    let mut db = InMemoryDB::new();
    db.set("k".to_string(), "v".to_string(), Some(10), 0);
    db.sweep(9);
    assert_eq!(db.get("k", 9), Some("v".to_string()));
}

#[test]
fn last_set_wins_entirely() {
    let mut db = InMemoryDB::new();
    db.set("k".to_string(), "first".to_string(), None, 0);
    db.set("k".to_string(), "second".to_string(), None, 0);
    assert_eq!(db.get("k", 0), Some("second".to_string()));
}

#[test]
fn get_expired_removes_the_entry() {
    let mut db = InMemoryDB::new();
    db.set("k".to_string(), "v".to_string(), Some(1), 0);
    assert_eq!(db.get("k", 5), None);
    // the lazy expiry removed the entry, so delete finds nothing
    assert!(!db.delete("k", 5));
}

#[test]
fn ttl_saturates_instead_of_overflowing() {
    let mut db = InMemoryDB::new();
    db.set("k".to_string(), "v".to_string(), Some(u64::MAX), 5);
    assert_eq!(db.get("k", u64::MAX - 1), Some("v".to_string()));
}

#[test]
fn delete_reports_an_expired_entry_as_absent() {
    let mut db = InMemoryDB::new();
    db.set("k".to_string(), "v".to_string(), Some(0), 10);
    // present but expired, not yet swept: reported like an absent key,
    // removed as a side effect
    assert!(!db.delete("k", 10));
    assert_eq!(db.get("k", 10), None);
}

#[test]
fn delete_reports_a_live_entry_as_removed() {
    let mut db = InMemoryDB::new();
    db.set("k".to_string(), "v".to_string(), Some(5), 10);
    assert!(db.delete("k", 14));
}
