//! Batches, filters and what is read out of them.

use arrow_array::{Array, BinaryArray, BooleanArray, StringArray, UInt64Array};
use arrow_schema::DataType;
use surreal_lance::kvs::lance::schema::{BatchError, KvSchema};
use surreal_lance::live::delta::{Action, DeltaError, LiveDelta};

#[test]
fn schema_has_expected_fields() {
    let schema = KvSchema::arrow_schema();
    assert_eq!(schema.fields().len(), 4);
    assert_eq!(schema.field(0).name(), "key");
    assert_eq!(schema.field(1).name(), "val");
    assert_eq!(schema.field(2).name(), "version");
    assert_eq!(schema.field(3).name(), "tombstone");
}

#[test]
fn write_batch_roundtrip() {
    let writes = vec![
        (b"key1".to_vec(), b"val1".to_vec()),
        (b"key2".to_vec(), b"val2".to_vec()),
    ];
    let batch = KvSchema::build_write_batch(&writes, 42).unwrap().0;
    assert_eq!(batch.num_rows(), 2);
    assert_eq!(batch.num_columns(), 4);
    let keys = batch.column(0).as_any().downcast_ref::<BinaryArray>().unwrap();
    let vals = batch.column(1).as_any().downcast_ref::<BinaryArray>().unwrap();
    let versions = batch.column(2).as_any().downcast_ref::<UInt64Array>().unwrap();
    let marks = batch.column(3).as_any().downcast_ref::<BooleanArray>().unwrap();
    assert_eq!(keys.value(1), b"key2");
    assert_eq!(vals.value(0), b"val1");
    assert_eq!(versions.value(1), 42);
    assert!(!marks.value(0) && !marks.value(1));
}

#[test]
fn tombstone_batch_marks_deletion() {
    let deletes = vec![b"key1".to_vec()];
    let batch = KvSchema::build_tombstone_batch(&deletes, 42).unwrap().0;
    let tombstone_col = batch
        .column_by_name("tombstone")
        .unwrap()
        .as_any()
        .downcast_ref::<BooleanArray>()
        .unwrap();
    assert!(tombstone_col.value(0));
}

#[test]
fn get_predicate_hex_encodes_key() {
    let key = vec![0xaa, 0xbb, 0xcc];
    let pred = KvSchema::build_get_predicate(&key);
    assert_eq!(pred, "key = X'aabbcc' AND tombstone = false");
}

#[test]
fn range_predicate_is_half_open() {
    let start = vec![0x01];
    let end = vec![0x05];
    let pred = KvSchema::build_range_predicate(&start, &end);
    assert!(pred.contains("key >= X'01'"));
    assert!(pred.contains("key < X'05'"));
    assert_eq!(pred, "key >= X'01' AND key < X'05' AND tombstone = false");
}

#[test]
fn different_keys_have_different_filters() {
    let keys: [&[u8]; 5] = [b"", b"\x00", b"\x00\x00", b"0", b"\x10"];
    for (i, a) in keys.iter().enumerate() {
        for (j, b) in keys.iter().enumerate() {
            let same = KvSchema::build_get_predicate(&a.to_vec())
                == KvSchema::build_get_predicate(&b.to_vec());
            assert_eq!(same, i == j);
        }
    }
}

#[test]
fn delete_predicate_lists_the_keys() {
    assert_eq!(KvSchema::build_delete_predicate(&[]), "false");
    assert_eq!(
        KvSchema::build_delete_predicate(&[vec![1], vec![0xff, 0], vec![]]),
        "key IN (X'01', X'ff00', X'')"
    );
}

#[test]
fn field_types_are_these() {
    let schema = KvSchema::dataset_schema();
    let kinds: Vec<(&str, DataType, bool)> = schema
        .fields()
        .iter()
        .map(|f| (f.name().as_str(), f.data_type().clone(), f.is_nullable()))
        .collect();
    assert_eq!(kinds.len(), 5);
    assert_eq!(kinds[0].1, DataType::Binary);
    assert_eq!(kinds[1].1, DataType::Binary);
    assert_eq!(kinds[2].1, DataType::UInt64);
    assert_eq!(kinds[3].1, DataType::Boolean);
    assert_eq!((kinds[4].0, kinds[4].1.clone()), ("seq", DataType::UInt64));
    assert_eq!(KvSchema::arrow_schema_ref().fields().len(), 4);
}

#[test]
fn dataset_batches_carry_their_sequence_numbers() {
    let writes = vec![(b"a".to_vec(), b"1".to_vec()), (b"b".to_vec(), b"2".to_vec())];
    let batch = KvSchema::build_write_batch_lance(&writes, 7, &[70, 71]).unwrap().0;
    let seqs = batch
        .column_by_name("seq")
        .unwrap()
        .as_any()
        .downcast_ref::<UInt64Array>()
        .unwrap();
    assert_eq!((seqs.value(0), seqs.value(1)), (70, 71));
    let marks = KvSchema::build_tombstone_batch_lance(&[b"c".to_vec()], 7, &[72]).unwrap().0;
    assert_eq!(marks.schema(), batch.schema());
}

#[test]
fn unequal_numbers_of_rows_and_sequence_numbers_are_refused() {
    let writes = vec![(b"a".to_vec(), b"1".to_vec())];
    let e = KvSchema::build_write_batch_lance(&writes, 7, &[]).unwrap_err();
    assert!(matches!(e, BatchError::InvalidArgument(_)));
    assert!(e.message().starts_with("Invalid argument error: build_write_batch_lance"));
    let e = KvSchema::build_tombstone_batch_lance(&[], 7, &[1]).unwrap_err();
    assert!(e.message().contains("build_tombstone_batch_lance"));
}

fn payload(batch: &arrow_array::RecordBatch) -> String {
    batch
        .column_by_name("payload")
        .unwrap()
        .as_any()
        .downcast_ref::<StringArray>()
        .unwrap()
        .value(0)
        .to_string()
}

#[test]
fn deltas_carry_the_record() {
    let json = "{\"index\":1}".to_string();
    assert_eq!(LiveDelta::sprint1_schema().field(0).name(), "payload");
    let created = LiveDelta::from_notification(Action::Create, json.clone()).unwrap();
    assert!(matches!(created, LiveDelta::Create(_)));
    assert_eq!(payload(&created.into_record_batch().0), json);
    let updated = LiveDelta::from_notification(Action::Update, json.clone()).unwrap();
    let LiveDelta::Update { before, after } = updated else {
        panic!("an update is an update");
    };
    assert_eq!(payload(&before.0), json);
    assert_eq!(payload(&after.0), json);
    let deleted = LiveDelta::from_notification(Action::Delete, json.clone()).unwrap();
    assert!(matches!(deleted, LiveDelta::Delete(_)));
    let key: Result<String, DeltaError> = deleted.primary_key("id");
    assert_eq!(
        key.unwrap_err().message(),
        "primary_key() is not yet implemented (Sprint 1 uses opaque JSON payload column); \
         wire typed columns in Sprint 2"
    );
    assert_eq!(payload(&deleted.into_record_batch().0), json);
}
