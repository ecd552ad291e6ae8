use redis_lite::errors::app_errors::AppError;
use redis_lite::storage::Storage;

fn keys_of(st: &Storage, pattern: &str) -> Vec<String> {
    let mut ks = st.keys(pattern).unwrap();
    ks.sort();
    ks
}

#[test]
fn set_then_get_returns_value() {
    let mut st = Storage::new(0);
    st.set("k".to_string(), "v".to_string(), 0, 1_000);
    let item = st.get("k", 2_000).unwrap();
    assert_eq!(item.value, "v");
}

#[test]
fn get_missing_key_is_none() {
    let st = Storage::new(0);
    assert!(st.get("nope", 10).is_none());
}

#[test]
fn set_overwrites_prior_entry() {
    let mut st = Storage::new(0);
    st.set("k".to_string(), "old".to_string(), 0, 1);
    st.set("k".to_string(), "new".to_string(), 0, 2);
    assert_eq!(st.get("k", 3).unwrap().value, "new");
    assert_eq!(st.items.len(), 1);
}

#[test]
fn ttl_boundary() {
    let mut st = Storage::new(0);
    // SET k v PX 50 at t=1000: live through t=1050, expired at t=1051.
    st.set("k".to_string(), "v".to_string(), 50, 1_000);
    assert_eq!(st.get("k", 1_000).unwrap().value, "v");
    assert_eq!(st.get("k", 1_050).unwrap().value, "v");
    assert!(st.get("k", 1_051).is_none());
}

#[test]
fn expired_entry_is_not_removed() {
    let mut st = Storage::new(0);
    st.set("k".to_string(), "v".to_string(), 10, 0);
    assert!(st.get("k", 100).is_none());
    assert_eq!(st.items.len(), 1);
}

#[test]
fn del_counting() {
    let mut st = Storage::new(0);
    st.set("a".to_string(), "1".to_string(), 0, 0);
    st.set("c".to_string(), "2".to_string(), 0, 0);
    let n = st.del(&vec!["a".to_string(), "b".to_string(), "c".to_string()]);
    assert_eq!(n, 2);
    assert!(st.get("a", 1).is_none());
    assert!(st.get("c", 1).is_none());
}

#[test]
fn del_on_empty_store_counts_zero() {
    let mut st = Storage::new(0);
    assert_eq!(st.del(&vec!["x".to_string()]), 0);
}

#[test]
fn del_counts_duplicates_once() {
    let mut st = Storage::new(0);
    st.set("a".to_string(), "1".to_string(), 0, 0);
    assert_eq!(st.del(&vec!["a".to_string(), "a".to_string()]), 1);
}

#[test]
fn del_increments_dirty_count_per_removal() {
    let mut st = Storage::new(0);
    st.set("a".to_string(), "1".to_string(), 0, 0);
    st.set("b".to_string(), "2".to_string(), 0, 0);
    let before = st.snapshot.change_count;
    st.del(&vec!["a".to_string(), "b".to_string(), "missing".to_string()]);
    assert_eq!(st.snapshot.change_count, before + 2);
}

#[test]
fn keys_matching() {
    let mut st = Storage::new(0);
    st.set("foo".to_string(), "1".to_string(), 0, 0);
    st.set("bar".to_string(), "2".to_string(), 0, 0);
    st.set("foobar".to_string(), "3".to_string(), 0, 0);
    assert_eq!(keys_of(&st, "foo*"), vec!["foo".to_string(), "foobar".to_string()]);
    assert_eq!(keys_of(&st, "baz"), Vec::<String>::new());
    assert_eq!(keys_of(&st, "foo"), vec!["foo".to_string()]);
    assert_eq!(keys_of(&st, "*"), vec!["bar".to_string(), "foo".to_string(), "foobar".to_string()]);
}

#[test]
fn keys_invalid_pattern_is_error() {
    let mut st = Storage::new(0);
    st.set("foo".to_string(), "1".to_string(), 0, 0);
    match st.keys("[*") {
        Err(AppError::InvalidPattern) => (),
        other => panic!("expected InvalidPattern, got {:?}", other.map(|_| ())),
    }
}

#[test]
fn save_of_empty_store_is_header_and_trailer() {
    let st = Storage::new(0);
    assert_eq!(st.save_rdb(0), b"REDIS0006EOF".to_vec());
}

#[test]
fn save_load_round_trip() {
    let mut st = Storage::new(0);
    st.set("alpha".to_string(), "one".to_string(), 0, 5_000);
    st.set("beta".to_string(), "two".to_string(), 600_000, 5_000);
    let bytes = st.save_rdb(9_000);
    let mut fresh = Storage::new(0);
    fresh.load_rdb(&bytes, 9_500).unwrap();
    assert_eq!(fresh.items.len(), 2);
    assert_eq!(fresh.get("alpha", 9_500).unwrap().value, "one");
    let beta = fresh.get("beta", 9_500).unwrap();
    assert_eq!(beta.value, "two");
    assert_eq!(beta.expires, 600_000);
    // Loading counts no mutations.
    assert_eq!(fresh.snapshot.change_count, 0);
}

#[test]
fn save_records_age_in_whole_seconds() {
    let mut st = Storage::new(0);
    st.set("k".to_string(), "v".to_string(), 0, 1_000);
    // Saved at t=3500: age is 2 whole seconds; loaded at t=10000 the
    // entry's creation is reconstructed as 10000 - 2000 = 8000.
    let bytes = st.save_rdb(3_500);
    let mut fresh = Storage::new(0);
    fresh.load_rdb(&bytes, 10_000).unwrap();
    assert_eq!(fresh.get("k", 10_000).unwrap().created, 8_000);
}

#[test]
fn load_rejects_bad_magic() {
    let mut st = Storage::new(0);
    match st.load_rdb(&b"NOPES0006EOF".to_vec(), 0) {
        Err(AppError::InvalidFileFormat) => (),
        other => panic!("expected InvalidFileFormat, got {:?}", other),
    }
}

#[test]
fn load_rejects_bad_version() {
    let mut st = Storage::new(0);
    match st.load_rdb(&b"REDIS9999EOF".to_vec(), 0) {
        Err(AppError::InvalidFileFormat) => (),
        other => panic!("expected InvalidFileFormat, got {:?}", other),
    }
}

#[test]
fn load_rejects_truncated_header() {
    let mut st = Storage::new(0);
    match st.load_rdb(&b"RED".to_vec(), 0) {
        Err(AppError::FileError(_)) => (),
        other => panic!("expected FileError, got {:?}", other),
    }
}

#[test]
fn load_rejects_bad_trailer() {
    let mut st = Storage::new(0);
    match st.load_rdb(&b"REDIS0006XYZ".to_vec(), 0) {
        Err(AppError::InvalidFileFormat) => (),
        other => panic!("expected InvalidFileFormat, got {:?}", other),
    }
}

#[test]
fn load_rejects_non_text_key_bytes() {
    let mut st = Storage::new(0);
    let mut bytes = b"REDIS0006".to_vec();
    bytes.extend_from_slice(&[0, 0, 0, 0, 0, 0, 0, 0]); // age
    bytes.extend_from_slice(&[0, 0, 0, 0]); // expiry
    bytes.extend_from_slice(&[0xFF, 0xFE, 0]); // invalid UTF-8 key
    bytes.extend_from_slice(b"v\0");
    bytes.extend_from_slice(b"EOF");
    match st.load_rdb(&bytes, 0) {
        Err(AppError::InvalidFileFormat) => (),
        other => panic!("expected InvalidFileFormat, got {:?}", other),
    }
}

#[test]
fn snapshot_trigger() {
    let mut st = Storage::new(0);
    // Exceed the default threshold of 100 mutations.
    for i in 0..101u32 {
        st.set(format!("k{}", i), "v".to_string(), 0, 0);
    }
    assert_eq!(st.snapshot.change_count, 101);
    // Before the period has elapsed, nothing is due.
    let (none_yet, sleep) = st.scheduler_tick(59_999, 60);
    assert!(none_yet.is_none());
    assert_eq!(sleep, 60);
    // Once the period has elapsed the tick saves exactly once.
    let (saved, _) = st.scheduler_tick(60_000, 60);
    let bytes = saved.expect("snapshot was due");
    assert_eq!(st.snapshot.change_count, 0);
    let mut fresh = Storage::new(0);
    fresh.load_rdb(&bytes, 60_000).unwrap();
    assert_eq!(fresh.items.len(), 101);
    // An immediate second tick does not save again.
    let (again, sleep2) = st.scheduler_tick(60_000, 60);
    assert!(again.is_none());
    assert_eq!(sleep2, 60);
}

#[test]
fn should_take_snapshot_requires_both_conditions() {
    let mut st = Storage::new(0);
    st.set("k".to_string(), "v".to_string(), 0, 0);
    // One mutation is under the threshold even after the period.
    assert!(!st.should_take_snapshot(1_000_000));
}
