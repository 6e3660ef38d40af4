//! The pending buffer of a transaction.

use surreal_lance::kvs::lance::tx_buffer::{PendingBuffer, PendingEntry};

#[test]
fn set_then_get_returns_set() {
    let mut buf = PendingBuffer::new();
    buf.set(b"key".to_vec(), b"val".to_vec());
    match buf.get(&b"key".to_vec()) {
        Some(PendingEntry::Write(v)) => assert_eq!(v, b"val"),
        other => panic!("expected Set, got {:?}", other),
    }
}

#[test]
fn delete_then_get_returns_delete() {
    let mut buf = PendingBuffer::new();
    buf.delete(b"key".to_vec());
    assert!(matches!(buf.get(&b"key".to_vec()), Some(PendingEntry::Delete)));
}

#[test]
fn set_then_delete_overrides_set() {
    let mut buf = PendingBuffer::new();
    buf.set(b"key".to_vec(), b"val".to_vec());
    buf.delete(b"key".to_vec());
    assert!(matches!(buf.get(&b"key".to_vec()), Some(PendingEntry::Delete)));
}

#[test]
fn partition_separates_writes_and_deletes() {
    let mut buf = PendingBuffer::new();
    buf.set(b"a".to_vec(), b"1".to_vec());
    buf.set(b"b".to_vec(), b"2".to_vec());
    buf.delete(b"c".to_vec());

    let (writes, deletes) = buf.partition();
    assert_eq!(writes.len(), 2);
    assert_eq!(deletes.len(), 1);
    assert_eq!(deletes[0], b"c");
}

#[test]
fn clone_for_savepoint_is_deep() {
    let mut buf = PendingBuffer::new();
    buf.set(b"a".to_vec(), b"1".to_vec());
    let snapshot = buf.clone();
    buf.set(b"a".to_vec(), b"2".to_vec());

    match snapshot.get(&b"a".to_vec()) {
        Some(PendingEntry::Write(v)) => assert_eq!(v, b"1"),
        _ => panic!("snapshot was not deep-cloned"),
    }
}

#[test]
fn buffer_lists_its_keys_in_order() {
    let mut buf = PendingBuffer::default();
    assert!(buf.is_empty());
    for k in ["c", "a", "b", "ab", ""] {
        buf.set(k.as_bytes().to_vec(), b"v".to_vec());
    }
    buf.delete(b"b".to_vec());
    assert_eq!(buf.len(), 5);
    let keys: Vec<Vec<u8>> = buf.iter().into_iter().map(|(k, _)| k.clone()).collect();
    assert_eq!(
        keys,
        vec![b"".to_vec(), b"a".to_vec(), b"ab".to_vec(), b"b".to_vec(), b"c".to_vec()]
    );
    let (writes, deletes) = buf.partition();
    assert_eq!(
        writes.iter().map(|(k, _)| k.clone()).collect::<Vec<_>>(),
        vec![b"".to_vec(), b"a".to_vec(), b"ab".to_vec(), b"c".to_vec()]
    );
    assert_eq!(deletes, vec![b"b".to_vec()]);
    buf.clear();
    assert!(buf.is_empty());
    assert!(buf.get(&b"a".to_vec()).is_none());
}
