use respkv::store::Store;

#[test]
fn read_never_written_key() {
    let mut s = Store::new();
    assert_eq!(s.read(&b"missing".to_vec(), 0), None);
}

#[test]
fn write_then_read() {
    let mut s = Store::new();
    s.write(b"k".to_vec(), b"v".to_vec(), None);
    assert_eq!(s.read(&b"k".to_vec(), 0), Some(b"v".to_vec()));
    assert_eq!(s.read(&b"k".to_vec(), u64::MAX), Some(b"v".to_vec()));
}

#[test]
fn expiry_correctness() {
    let mut s = Store::new();
    s.write(b"k".to_vec(), b"v".to_vec(), Some(100));
    assert_eq!(s.read(&b"k".to_vec(), 50), Some(b"v".to_vec()));
    assert_eq!(s.read(&b"k".to_vec(), 150), None);
    // the expired read evicted the entry
    assert!(!s.contains_key(&b"k".to_vec()));
}

#[test]
fn overwrite_clears_expiry() {
    let mut s = Store::new();
    s.write(b"k".to_vec(), b"v1".to_vec(), Some(10));
    s.write(b"k".to_vec(), b"v2".to_vec(), None);
    assert_eq!(s.read(&b"k".to_vec(), 50), Some(b"v2".to_vec()));
}

#[test]
fn last_write_wins() {
    let mut s = Store::new();
    for i in 0..10u32 {
        let v = format!("v{}", i).into_bytes();
        s.write(b"k".to_vec(), v, None);
    }
    assert_eq!(s.read(&b"k".to_vec(), 0), Some(b"v9".to_vec()));
}

#[test]
fn overwriting_expired_entry_replaces_it() {
    let mut s = Store::new();
    s.write(b"k".to_vec(), b"old".to_vec(), Some(10));
    // the entry has expired but was never observed; a write replaces it
    s.write(b"k".to_vec(), b"new".to_vec(), Some(100));
    assert_eq!(s.read(&b"k".to_vec(), 50), Some(b"new".to_vec()));
}

#[test]
fn keys_are_independent() {
    let mut s = Store::new();
    s.write(b"a".to_vec(), b"1".to_vec(), Some(10));
    s.write(b"b".to_vec(), b"2".to_vec(), None);
    assert_eq!(s.read(&b"a".to_vec(), 50), None);
    assert_eq!(s.read(&b"b".to_vec(), 50), Some(b"2".to_vec()));
}

#[test]
fn expiry_boundary_is_inclusive() {
    let mut s = Store::new();
    s.write(b"k".to_vec(), b"v".to_vec(), Some(100));
    // an entry expires strictly after its expiry instant passes
    assert_eq!(s.read(&b"k".to_vec(), 100), Some(b"v".to_vec()));
    assert_eq!(s.read(&b"k".to_vec(), 101), None);
}
