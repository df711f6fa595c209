//! Engine scenarios: locking, unlocking, waiting, expiry and lookup.

use blob_idx::blob::{BlobOffset, BlobStorage, BlobStorageConfig, LockOutcome};
use blob_idx::errors::BlobError;
use blob_idx::http::BlobEntry;

fn make_config(max_files: u32, lock_timeout: u64) -> BlobStorageConfig {
    BlobStorageConfig::new(max_files, lock_timeout)
}

fn entries(list: &[(&str, u64)]) -> Vec<BlobEntry> {
    list.iter()
        .map(|(k, n)| BlobEntry::new(k.to_string(), *n))
        .collect()
}

fn lock_granted(st: &mut BlobStorage, list: &[(&str, u64)], node: &str, now: u64) -> BlobOffset {
    match st.create_and_lock(entries(list), node.to_string(), now).unwrap() {
        LockOutcome::Granted(off) => off,
        LockOutcome::Queued(t) => panic!("unexpectedly queued with ticket {}", t),
    }
}

fn lock_queued(st: &mut BlobStorage, list: &[(&str, u64)], node: &str, now: u64) -> u64 {
    match st.create_and_lock(entries(list), node.to_string(), now).unwrap() {
        LockOutcome::Granted(_) => panic!("unexpectedly granted"),
        LockOutcome::Queued(t) => t,
    }
}

fn lock_err(st: &mut BlobStorage, list: &[(&str, u64)], node: &str, now: u64) -> BlobError {
    match st.create_and_lock(entries(list), node.to_string(), now) {
        Ok(_) => panic!("expected an error"),
        Err(e) => e,
    }
}

#[test]
fn test_simple_get_slice_unlock_lookup() {
    let mut st = BlobStorage::init(make_config(1, 5));

    let offset = lock_granted(&mut st, &[("k1", 1), ("k2", 2)], "n1", 0);
    assert_eq!(offset.file_id, 0); // picks the first file
    assert_eq!(offset.byte_offset, 0); // starts at 0

    st.create_unlock(0, "n1".to_string(), 0).unwrap();

    let slice = st.lookup("k1".to_string()).unwrap();
    assert_eq!(slice.file_id, 0);
    assert_eq!(slice.byte_offset, 0);
    assert_eq!(slice.num_bytes, 1);

    // lock again
    let offset = lock_granted(&mut st, &[("k3", 1), ("k4", 2)], "n1", 0);
    assert_eq!(offset.file_id, 0); // picks the first file
    assert_eq!(offset.byte_offset, 3); // starts at 3

    st.create_unlock(0, "n1".to_string(), 0).unwrap();

    let slice = st.lookup("k4".to_string()).unwrap();
    assert_eq!(slice.file_id, 0);
    assert_eq!(slice.byte_offset, 4);
    assert_eq!(slice.num_bytes, 2);
}

#[test]
fn test_lock_wait() {
    let mut st = BlobStorage::init(make_config(1, 5));

    // n1 initially locks, gets the lock; n2 and n3 queue up behind it
    let o1 = lock_granted(&mut st, &[("k1", 1)], "n1", 0);
    let t2 = lock_queued(&mut st, &[("k2", 3)], "n2", 0);
    let t3 = lock_queued(&mut st, &[("k3", 10)], "n3", 0);

    st.create_unlock(0, "n1".to_string(), 0).unwrap();
    let o2 = match st.take_grant(t2) {
        Some(Ok(off)) => off,
        other => panic!("expected a granted offset, got {:?}", other),
    };
    assert!(st.take_grant(t3).is_none()); // n3 still waits

    st.create_unlock(0, "n2".to_string(), 0).unwrap();
    let o3 = match st.take_grant(t3) {
        Some(Ok(off)) => off,
        other => panic!("expected a granted offset, got {:?}", other),
    };

    st.create_unlock(0, "n3".to_string(), 0).unwrap();

    // check offsets (needs creation)
    assert_eq!(o1.file_id, 0);
    assert!(o1.needs_creation);
    assert_eq!(o1.byte_offset, 0);

    assert_eq!(o2.file_id, 0);
    assert!(!o2.needs_creation);
    assert_eq!(o2.byte_offset, 1);

    assert_eq!(o3.file_id, 0);
    assert!(!o3.needs_creation);
    assert_eq!(o3.byte_offset, 4);

    // -------------------------------------------------------
    // now that everything is unlocked, we redo the same thing
    // -------------------------------------------------------

    let o1 = lock_granted(&mut st, &[("k4", 1)], "n1", 0);
    let t2 = lock_queued(&mut st, &[("k5", 3)], "n2", 0);
    let t3 = lock_queued(&mut st, &[("k6", 10)], "n3", 0);

    st.create_unlock(0, "n1".to_string(), 0).unwrap();
    let o2 = match st.take_grant(t2) {
        Some(Ok(off)) => off,
        other => panic!("expected a granted offset, got {:?}", other),
    };
    st.create_unlock(0, "n2".to_string(), 0).unwrap();
    let o3 = match st.take_grant(t3) {
        Some(Ok(off)) => off,
        other => panic!("expected a granted offset, got {:?}", other),
    };
    st.create_unlock(0, "n3".to_string(), 0).unwrap();

    // check offsets (now doesn't need creation)
    assert_eq!(o1.file_id, 0);
    assert!(!o1.needs_creation);
    assert_eq!(o1.byte_offset, 14);

    assert_eq!(o2.file_id, 0);
    assert!(!o2.needs_creation);
    assert_eq!(o2.byte_offset, 15);

    assert_eq!(o3.file_id, 0);
    assert!(!o3.needs_creation);
    assert_eq!(o3.byte_offset, 18);
}

#[test]
fn test_cleaner_basic() {
    let mut st = BlobStorage::init(make_config(1, 2)); // two seconds to clean

    // lock n1 and let the lease lapse
    let resp1 = lock_granted(&mut st, &[("k1", 1)], "n1", 0);

    // two seconds later the slot can be taken again
    let resp2 = lock_granted(&mut st, &[("k2", 1)], "n2", 2);
    assert_eq!(resp1.file_id, resp2.file_id);

    st.create_unlock(resp2.file_id, "n2".to_string(), 2).unwrap();

    // ok now let's test for keepalive (at least 3)
    let resp = lock_granted(&mut st, &[("k3", 1)], "n1", 2);
    st.keep_alive_lock(resp.file_id, 3).unwrap();
    st.keep_alive_lock(resp.file_id, 4).unwrap();
    st.keep_alive_lock(resp.file_id, 5).unwrap();

    // now check that we can unlock manually
    st.create_unlock(resp.file_id, "n1".to_string(), 5).unwrap();

    // now lets keepalive, but not unlock
    let resp = lock_granted(&mut st, &[("k4", 1)], "n1", 5);
    st.keep_alive_lock(resp.file_id, 6).unwrap();

    // after the refreshed lease has fully lapsed, unlocking fails
    let u = st.create_unlock(resp.file_id, "n1".to_string(), 8);
    assert_eq!(u.unwrap_err(), BlobError::CreateNotLocked);

    // check k4 not written
    let resp = st.lookup("k4".to_string());
    assert!(resp.is_err());
    assert_eq!(resp.unwrap_err(), BlobError::NotWritten);
}

#[test]
fn test_cleaner_keepalive_race() {
    let mut st = BlobStorage::init(make_config(1, 1));
    let epochs: u64 = 20;
    for i in 0..epochs {
        let now = i;
        let resp = lock_granted(&mut st, &[(&format!("k{}", i), 1)], "n1", now);
        st.keep_alive_lock(resp.file_id, now).unwrap();
        st.clean_expired(now);
        st.create_unlock(resp.file_id, "n1".to_string(), now).unwrap();
    }
}

#[test]
fn more_than_one_file() {
    let mut st = BlobStorage::init(make_config(3, 20)); // 3 files

    let h1 = lock_granted(&mut st, &[("k1", 1)], "n1", 0);
    let h2 = lock_granted(&mut st, &[("k2", 1)], "n1", 0);
    let h3 = lock_granted(&mut st, &[("k3", 1)], "n1", 0);
    assert_eq!(h1.file_id, 0);
    assert_eq!(h2.file_id, 1);
    assert_eq!(h3.file_id, 2);

    // only unlock one of them
    st.create_unlock(h2.file_id, "n1".to_string(), 0).unwrap();

    // try to lock another one, should be the freed file
    let resp = lock_granted(&mut st, &[("k4", 1)], "n1", 0);
    assert_eq!(resp.file_id, h2.file_id);

    // unlock all
    st.create_unlock(h1.file_id, "n1".to_string(), 0).unwrap();
    st.create_unlock(h3.file_id, "n1".to_string(), 0).unwrap();
}

#[test]
fn test_not_written() {
    let mut st = BlobStorage::init(make_config(1, 5));

    let resp = lock_granted(&mut st, &[("k1", 1)], "n1", 0);
    assert_eq!(resp.file_id, 0);

    // try to lookup before unlock
    let resp = st.lookup("k1".to_string());
    assert!(resp.is_err());
    assert_eq!(resp.unwrap_err(), BlobError::NotWritten);
}

#[test]
fn test_wrong_node_id() {
    let mut st = BlobStorage::init(make_config(1, 5));

    let resp = lock_granted(&mut st, &[("k1", 1)], "n1", 0);
    assert_eq!(resp.file_id, 0);

    // try to unlock with n2
    let u = st.create_unlock(resp.file_id, "n2".to_string(), 0);
    assert_eq!(u.unwrap_err(), BlobError::WrongNode);
}

#[test]
fn test_slice_doesnt_exist() {
    let st = BlobStorage::init(make_config(1, 5));

    let resp = st.lookup("k1".to_string());
    assert!(resp.is_err());
    assert_eq!(resp.unwrap_err(), BlobError::DoesNotExist("k1".to_string()));
}

#[test]
fn test_unlock_twice() {
    let mut st = BlobStorage::init(make_config(1, 5));

    let resp = lock_granted(&mut st, &[("k1", 1)], "n1", 0);
    assert_eq!(resp.file_id, 0);

    st.create_unlock(resp.file_id, "n1".to_string(), 0).unwrap();

    // unlock it again
    let u = st.create_unlock(resp.file_id, "n1".to_string(), 0);
    assert_eq!(u.unwrap_err(), BlobError::CreateNotLocked);
}

#[test]
fn test_duplicate_keys() {
    let mut st = BlobStorage::init(make_config(1, 5));

    let resp = lock_err(&mut st, &[("k1", 1), ("k1", 1)], "n1", 0);
    assert_eq!(resp, BlobError::DuplicateKeys);
}

#[test]
fn test_already_created_key() {
    let mut st = BlobStorage::init(make_config(1, 5));

    let resp = lock_granted(&mut st, &[("k1", 1)], "n1", 0);
    assert_eq!(resp.file_id, 0);

    st.create_unlock(resp.file_id, "n1".to_string(), 0).unwrap();

    // try to create again
    let e = lock_err(&mut st, &[("k1", 1)], "n1", 0);
    assert_eq!(e, BlobError::AlreadyExists("k1".to_string()));
}

#[test]
fn test_lock_twice() {
    let mut st = BlobStorage::init(make_config(1, 5));

    let resp = lock_granted(&mut st, &[("k1", 1)], "n1", 0);
    assert_eq!(resp.file_id, 0);

    // lock same key again while its lease is live
    let e = lock_err(&mut st, &[("k1", 1)], "n1", 0);
    assert_eq!(e, BlobError::AlreadyExists("k1".to_string()));
}

#[test]
fn test_rewrite_cleaned() {
    let mut st = BlobStorage::init(make_config(1, 2));

    let resp = lock_granted(&mut st, &[("k1", 1)], "n1", 0);
    assert_eq!(resp.file_id, 0);
    assert_eq!(resp.byte_offset, 0);

    // wait for the lock to expire, then lock another different key
    let resp = lock_granted(&mut st, &[("k2", 1)], "n2", 2);
    assert_eq!(resp.file_id, 0);
    assert_eq!(resp.byte_offset, 1);

    st.create_unlock(resp.file_id, "n2".to_string(), 2).unwrap();

    // now, try to lock the first key again
    let resp = lock_granted(&mut st, &[("k1", 1)], "n2", 2);
    assert_eq!(resp.file_id, 0);
    assert_eq!(resp.byte_offset, 2); // NOTE: important, it wouldn't be 0

    st.create_unlock(resp.file_id, "n2".to_string(), 2).unwrap();
}

#[test]
fn scenario_lookup_pending_then_committed() {
    // one slot; a key is unreadable while its batch is pending, and
    // becomes a committed slice at its reserved range after unlock
    let mut st = BlobStorage::init(make_config(1, 5));

    lock_granted(&mut st, &[("k1", 1)], "n1", 0);
    assert_eq!(st.lookup("k1".to_string()).unwrap_err(), BlobError::NotWritten);

    st.create_unlock(0, "n1".to_string(), 0).unwrap();
    let slice = st.lookup("k1".to_string()).unwrap();
    assert_eq!(slice.byte_offset, 0);
    assert_eq!(slice.num_bytes, 1);
}

#[test]
fn scenario_ghost_persists_after_expiry() {
    // an expired lease leaves its pending keys as ghosts: not written,
    // never unknown, until a new batch claims them
    let mut st = BlobStorage::init(make_config(1, 2));

    lock_granted(&mut st, &[("k1", 1)], "n1", 0);
    st.clean_expired(5);
    assert_eq!(st.lookup("k1".to_string()).unwrap_err(), BlobError::NotWritten);

    // the ghost can be claimed again, at a fresh offset
    let resp = lock_granted(&mut st, &[("k1", 1)], "n2", 5);
    assert_eq!(resp.byte_offset, 1);
}

#[test]
fn scenario_lengths_never_shrink() {
    // slot lengths only grow, whatever happens: allocations, expiries,
    // cleaner passes, unlocks
    let mut st = BlobStorage::init(make_config(2, 2));
    let mut last: Vec<u64> = vec![0, 0];

    let mut check = |st: &BlobStorage, last: &mut Vec<u64>| {
        for (i, slot) in st.slots.iter().enumerate() {
            assert!(slot.length >= last[i]);
            last[i] = slot.length;
        }
    };

    lock_granted(&mut st, &[("a", 7)], "n1", 0);
    check(&st, &mut last);
    lock_granted(&mut st, &[("b", 3)], "n2", 0);
    check(&st, &mut last);
    st.clean_expired(10);
    check(&st, &mut last);
    lock_granted(&mut st, &[("a", 5)], "n1", 10);
    check(&st, &mut last);
    st.create_unlock(0, "n1".to_string(), 10).unwrap();
    check(&st, &mut last);
    assert_eq!(st.slots[0].length, 12);
}

#[test]
fn scenario_committed_ranges_disjoint() {
    // committed ranges in one slot never overlap, holes included
    let mut st = BlobStorage::init(make_config(1, 2));

    lock_granted(&mut st, &[("a", 4), ("b", 2)], "n1", 0);
    st.create_unlock(0, "n1".to_string(), 0).unwrap();
    lock_granted(&mut st, &[("c", 3)], "n1", 0); // abandoned: a hole
    st.clean_expired(5);
    lock_granted(&mut st, &[("d", 1)], "n1", 5);
    st.create_unlock(0, "n1".to_string(), 5).unwrap();

    let a = st.lookup("a".to_string()).unwrap();
    let b = st.lookup("b".to_string()).unwrap();
    let d = st.lookup("d".to_string()).unwrap();
    let ranges = [
        (a.byte_offset, a.num_bytes),
        (b.byte_offset, b.num_bytes),
        (d.byte_offset, d.num_bytes),
    ];
    for (i, (o1, n1)) in ranges.iter().enumerate() {
        for (j, (o2, n2)) in ranges.iter().enumerate() {
            if i != j {
                assert!(o1 + n1 <= *o2 || o2 + n2 <= *o1);
            }
        }
    }
    assert_eq!(d.byte_offset, 9); // after the hole left by "c"
}

#[test]
fn scenario_queued_validation_failure_is_reported() {
    // a waiter whose key was committed meanwhile is refused at hand-off
    let mut st = BlobStorage::init(make_config(1, 5));

    lock_granted(&mut st, &[("k1", 1)], "n1", 0);
    // both waiters target the same unregistered key: both valid on arrival
    let t = lock_queued(&mut st, &[("k2", 1)], "n2", 0);
    let t2 = lock_queued(&mut st, &[("k2", 1)], "n3", 0);
    st.create_unlock(0, "n1".to_string(), 0).unwrap();
    // the first waiter got the slot
    assert!(matches!(st.take_grant(t), Some(Ok(_))));
    st.create_unlock(0, "n2".to_string(), 0).unwrap();
    // n2's unlock committed "k2", so the second waiter is refused
    match st.take_grant(t2) {
        Some(Err(BlobError::AlreadyExists(k))) => assert_eq!(k, "k2"),
        other => panic!("expected AlreadyExists, got {:?}", other),
    }
}

#[test]
fn scenario_errors_and_edges() {
    let mut st = BlobStorage::init(make_config(1, 5));

    // keep-alive without any lease
    assert_eq!(st.keep_alive_lock(0, 0).unwrap_err(), BlobError::LockExpired);
    // keep-alive on an out-of-range slot
    assert_eq!(st.keep_alive_lock(7, 0).unwrap_err(), BlobError::LockExpired);
    // unlock on an out-of-range slot
    assert_eq!(
        st.create_unlock(7, "n1".to_string(), 0).unwrap_err(),
        BlobError::CreateNotLocked
    );
    // a batch too large for one slot
    let e = lock_err(&mut st, &[("big", u64::MAX), ("more", 1)], "n1", 0);
    assert_eq!(e, BlobError::OffsetOverflow);
    // polling an unknown ticket
    assert!(st.take_grant(123).is_none());
    // counters start with plenty of headroom
    assert!(st.has_headroom());
    // derived file names
    let off = lock_granted(&mut st, &[("k", 1)], "n1", 0);
    assert_eq!(off.file_name, "blob_0");
}

#[test]
fn scenario_prohibited_key() {
    let mut st = BlobStorage::init(BlobStorageConfig {
        max_files: 1,
        lock_timeout: 5,
        prohibited_keys: vec!["secret".to_string()],
    });
    let e = lock_err(&mut st, &[("secret", 1)], "n1", 0);
    assert_eq!(e, BlobError::ProhibitedKey("secret".to_string()));
}

#[test]
fn scenario_error_messages() {
    assert_eq!(BlobError::NotWritten.message(), "Blob is not written");
    assert_eq!(
        BlobError::AlreadyExists("x".to_string()).message(),
        "Blob already exists"
    );
    assert_eq!(BlobError::WrongNode.message(), "Blob is locked by another node");
}
