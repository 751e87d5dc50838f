use pelikan::{value_response, IncrResult, Response, Seg, SetError, StoreResult};

fn get_wire(seg: &Seg, key: &[u8], now: u64) -> Vec<u8> {
    let mut out = Vec::new();
    if let Some(f) = seg.get(key, now) {
        out.extend(value_response(key, f.flags, &f.value));
    }
    out.extend(Response::End.to_bytes());
    out
}

#[test]
fn set_then_get_round_trip() {
    let mut seg = Seg::new(1024, 4);
    assert!(seg.set(b"foo", b"hello", 0, 0, 100).is_ok());
    assert_eq!(Response::Stored.to_bytes(), b"STORED\r\n");
    assert_eq!(get_wire(&seg, b"foo", 100), b"VALUE foo 0 5\r\nhello\r\nEND\r\n".to_vec());
    assert_eq!(get_wire(&seg, b"bar", 100), b"END\r\n".to_vec());
}

#[test]
fn item_with_ttl_is_gone_after_it_expires() {
    let mut seg = Seg::new(1024, 4);
    assert!(seg.set(b"foo", b"hello", 0, 1, 100).is_ok());
    assert!(seg.get(b"foo", 100).is_some());
    assert_eq!(get_wire(&seg, b"foo", 102), b"END\r\n".to_vec());
    seg.expire(102);
    assert_eq!(get_wire(&seg, b"foo", 102), b"END\r\n".to_vec());
}

#[test]
fn add_only_when_absent() {
    let mut seg = Seg::new(1024, 4);
    assert!(matches!(seg.add(b"foo", b"a", 0, 0, 0), StoreResult::Stored(_)));
    assert_eq!(seg.add(b"foo", b"b", 0, 0, 0), StoreResult::NotStored);
    assert_eq!(seg.get(b"foo", 0).unwrap().value, b"a");
}

#[test]
fn replace_only_when_present() {
    let mut seg = Seg::new(1024, 4);
    assert_eq!(seg.replace(b"foo", b"a", 0, 0, 0), StoreResult::NotStored);
    assert!(seg.get(b"foo", 0).is_none());
    seg.set(b"foo", b"a", 7, 0, 0).unwrap();
    assert!(matches!(seg.replace(b"foo", b"b", 3, 0, 0), StoreResult::Stored(_)));
    let f = seg.get(b"foo", 0).unwrap();
    assert_eq!(f.value, b"b");
    assert_eq!(f.flags, 3);
}

#[test]
fn incr_missing_then_numeric() {
    let mut seg = Seg::new(1024, 4);
    assert_eq!(seg.incr(b"n", 1, 0), IncrResult::NotFound);
    seg.set(b"n", b"1", 0, 0, 0).unwrap();
    match seg.incr(b"n", 2, 0) {
        IncrResult::Value { value, .. } => assert_eq!(value, 3),
        other => panic!("unexpected {:?}", other),
    }
    assert_eq!(seg.get(b"n", 0).unwrap().value, b"3");
    assert_eq!(Response::Numeric(3).to_bytes(), b"3\r\n");
}

#[test]
fn incr_wraps_and_decr_stops_at_zero() {
    let mut seg = Seg::new(1024, 4);
    seg.set(b"n", b"18446744073709551615", 0, 0, 0).unwrap();
    assert!(matches!(seg.incr(b"n", 2, 0), IncrResult::Value { value: 1, .. }));
    assert!(matches!(seg.decr(b"n", 5, 0), IncrResult::Value { value: 0, .. }));
    assert_eq!(seg.get(b"n", 0).unwrap().value, b"0");
    seg.set(b"s", b"abc", 0, 0, 0).unwrap();
    assert_eq!(seg.incr(b"s", 1, 0), IncrResult::NotNumeric);
    seg.set(b"z", b"01", 0, 0, 0).unwrap();
    assert_eq!(seg.decr(b"z", 1, 0), IncrResult::NotNumeric);
}

#[test]
fn largest_item_fits_and_one_more_byte_does_not() {
    let mut seg = Seg::new(64, 4);
    let fits = vec![b'x'; 64 - 8 - 1];
    assert!(seg.set(b"k", &fits, 0, 0, 0).is_ok());
    let too_big = vec![b'x'; 64 - 8 - 1 + 1];
    assert_eq!(seg.set(b"k", &too_big, 0, 0, 0), Err(SetError::ValueTooLarge));
    assert_eq!(seg.get(b"k", 0).unwrap().value.len(), 55);
}

#[test]
fn never_expiring_item_survives_expire() {
    let mut seg = Seg::new(1024, 4);
    seg.set(b"keep", b"v", 0, 0, 10).unwrap();
    seg.set(b"drop", b"w", 0, 5, 10).unwrap();
    seg.expire(1_000_000);
    assert_eq!(seg.get(b"keep", 1_000_000).unwrap().value, b"v");
    assert!(seg.get(b"drop", 1_000_000).is_none());
}

#[test]
fn stale_cas_token_gives_exists() {
    let mut seg = Seg::new(1024, 4);
    seg.set(b"k", b"one", 0, 0, 0).unwrap();
    let stale = seg.get(b"k", 0).unwrap().cas;
    seg.set(b"k", b"two", 0, 0, 0).unwrap();
    let fresh = seg.get(b"k", 0).unwrap().cas;
    assert_ne!(stale, fresh);
    assert_eq!(seg.cas(b"k", b"three", 0, 0, stale, 0), StoreResult::Exists);
    assert_eq!(seg.get(b"k", 0).unwrap().value, b"two");
    assert!(matches!(seg.cas(b"k", b"three", 0, 0, fresh, 0), StoreResult::Stored(_)));
    assert_eq!(seg.cas(b"gone", b"x", 0, 0, fresh, 0), StoreResult::NotFound);
}

#[test]
fn recycled_segment_drops_all_its_entries() {
    let mut seg = Seg::new(1024, 2);
    seg.set(b"a", b"1", 0, 3, 0).unwrap();
    seg.set(b"b", b"2", 0, 6, 0).unwrap();
    seg.set(b"c", b"3", 0, 100, 0).unwrap();
    seg.expire(8);
    assert!(seg.get(b"a", 0).is_none());
    assert!(seg.get(b"b", 0).is_none());
    assert_eq!(seg.get(b"c", 8).unwrap().value, b"3");
    // the recycled segment is free again for another bucket
    assert!(seg.set(b"d", b"4", 0, 0, 8).is_ok());
}

#[test]
fn no_free_segment() {
    let mut seg = Seg::new(1024, 1);
    seg.set(b"a", b"1", 0, 0, 0).unwrap();
    assert_eq!(seg.set(b"b", b"2", 0, 30, 0), Err(SetError::NoFreeSegment));
    assert!(seg.set(b"b", b"2", 0, 0, 0).is_ok());
}

#[test]
fn full_segment_opens_another() {
    let mut seg = Seg::new(32, 2);
    let v = vec![b'v'; 20];
    seg.set(b"a", &v, 0, 0, 0).unwrap();
    seg.set(b"b", &v, 0, 0, 0).unwrap();
    assert_eq!(seg.set(b"c", &v, 0, 0, 0), Err(SetError::NoFreeSegment));
    assert_eq!(seg.get(b"a", 0).unwrap().value, v);
    assert_eq!(seg.get(b"b", 0).unwrap().value, v);
}

#[test]
fn delete_and_flush_all() {
    let mut seg = Seg::new(1024, 4);
    seg.set(b"a", b"1", 0, 0, 0).unwrap();
    seg.set(b"b", b"2", 0, 0, 0).unwrap();
    assert!(seg.delete(b"a", 0));
    assert!(!seg.delete(b"a", 0));
    assert!(seg.get(b"a", 0).is_none());
    assert_eq!(seg.get(b"b", 0).unwrap().value, b"2");
    seg.flush_all();
    assert!(seg.get(b"b", 0).is_none());
}
