//! The store and its lock.
use mergemint_backend::claims::store_claim;
use mergemint_backend::db::{
    acquire_db, new_shared_db, read_db, recover_read, recover_write, Bounty, SharedDb,
};
use mergemint_backend::timestamp::Timestamp;
use std::sync::{Arc, PoisonError};

#[test]
fn it_compiles() {}

#[test]
fn test_acquire_db_normal() {
    let db = new_shared_db();
    let mut guard = acquire_db(&db);
    guard.records.insert("key".to_string(), "value".to_string());
    assert_eq!(guard.records.get("key").map(|s| s.as_str()), Some("value"));
}

#[test]
fn test_concurrent_read_guards_are_allowed() {
    let db = new_shared_db();
    let read_a = read_db(&db);
    let read_b = read_db(&db);

    assert!(read_a.records.is_empty());
    assert!(read_b.records.is_empty());
}

#[test]
fn what_is_written_is_read_back() {
    let db = new_shared_db();
    acquire_db(&db).records.insert("key".to_string(), "value".to_string());
    let guard = read_db(&db);
    assert_eq!(guard.records.get("key").map(|s| s.as_str()), Some("value"));
}

#[test]
fn guards_hold_the_lock_that_they_were_asked_for() {
    let db = new_shared_db();
    let other = new_shared_db();
    let guard = acquire_db(&db);
    assert!(db.try_read().is_err());
    assert!(other.try_read().is_ok());
    drop(guard);
    let guard = read_db(&db);
    assert!(db.try_write().is_err());
    assert!(db.try_read().is_ok());
    assert!(other.try_write().is_ok());
    drop(guard);
    assert!(db.try_write().is_ok());
}

#[test]
fn a_poisoned_write_lock_gives_its_guard() {
    let db = new_shared_db();
    acquire_db(&db).records.insert("key".to_string(), "value".to_string());
    let poisoned = PoisonError::new(acquire_db(&db));
    let guard = recover_write(Err(poisoned));
    assert_eq!(guard.records.get("key").map(|s| s.as_str()), Some("value"));
    let held = recover_write(Ok(guard));
    assert_eq!(held.records.len(), 1);
}

#[test]
fn a_poisoned_read_lock_gives_its_guard() {
    let db = new_shared_db();
    acquire_db(&db).records.insert("key".to_string(), "value".to_string());
    let poisoned = PoisonError::new(read_db(&db));
    let guard = recover_read(Err(poisoned));
    assert_eq!(guard.records.get("key").map(|s| s.as_str()), Some("value"));
    let held = recover_read(Ok(guard));
    assert_eq!(held.records.len(), 1);
}

#[test]
fn a_new_store_is_separate_and_free() {
    let first = new_shared_db();
    acquire_db(&first).records.insert("key".to_string(), "value".to_string());
    let second = new_shared_db();
    assert!(!second.is_poisoned());
    assert!(second.try_write().is_ok());
    assert!(read_db(&second).records.is_empty());
    acquire_db(&second).records.insert("other".to_string(), "value".to_string());
    assert_eq!(read_db(&first).records.len(), 1);
    assert!(!read_db(&first).records.contains_key("other"));
    assert!(!read_db(&second).records.contains_key("key"));
}

/// Runs `work` as a task that panics, and waits for its end.
fn panicking(work: impl FnOnce() + Send + 'static) {
    let runtime = tokio::runtime::Builder::new_current_thread().build().unwrap();
    assert!(runtime.block_on(runtime.spawn_blocking(work)).unwrap_err().is_panic());
}

/// A store that a task left poisoned, between two inserts.
fn poisoned() -> SharedDb {
    let db = new_shared_db();
    acquire_db(&db).records.insert("one".to_string(), "before".to_string());
    let shared = Arc::clone(&db);
    panicking(move || {
        let mut guard = shared.write().unwrap();
        guard.records.insert("two".to_string(), "half-way".to_string());
        panic!("simulated panic");
    });
    assert!(db.is_poisoned());
    db
}

#[test]
fn test_acquire_db_poison_recovery() {
    let db = new_shared_db();

    // Simulate a panic while holding the lock.
    let db_clone = Arc::clone(&db);
    panicking(move || {
        let _guard = db_clone.write().unwrap();
        panic!("simulated panic");
    });
    assert!(db.is_poisoned());

    // The lock is now poisoned; acquire_db must not propagate the poison.
    let guard = acquire_db(&db);
    assert!(guard.records.is_empty(), "recovered store should be intact");
}

#[test]
fn a_poisoned_store_is_written_as_it_was_left() {
    let db = poisoned();
    let guard = acquire_db(&db);
    assert_eq!(guard.records.len(), 2);
    assert_eq!(guard.records["one"], "before");
    assert_eq!(guard.records["two"], "half-way");
}

#[test]
fn a_poisoned_store_is_read_as_it_was_left() {
    let db = poisoned();
    let guard = read_db(&db);
    assert_eq!(guard.records.len(), 2);
    assert_eq!(guard.records["one"], "before");
    assert_eq!(guard.records["two"], "half-way");
}

#[test]
fn a_claim_on_a_poisoned_store_changes_what_it_found() {
    let db = poisoned();
    let read = |raw: &String| {
        Some(Bounty {
            id: raw.clone(),
            creator: "alice".to_string(),
            assignee: None,
            created_at: Timestamp { seconds: 0, nanos: 0 },
        })
    };
    let rewrite = |raw: &String, _bounty: &Bounty| format!("{raw}, claimed");
    let guard = store_claim(&db, "half-way", "carol", read, rewrite);
    assert_eq!(guard.records.len(), 2);
    assert_eq!(guard.records["one"], "before");
    assert_eq!(guard.records["two"], "half-way, claimed");
    assert!(db.try_read().is_err());
}
