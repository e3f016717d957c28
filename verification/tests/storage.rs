use plotka::{Number, NumberVec, Record, Storage, StorageError};

fn record(fields: &[(&str, Number)]) -> Record {
    let mut r = Record::new();
    for (key, value) in fields {
        assert!(r.insert(key.to_string(), *value));
    }
    r
}

#[test]
fn first_push_adopts_schema() {
    let mut storage = Storage::new();
    assert!(storage.is_empty());

    let rec = record(&[
        ("a", Number::Int(1)),
        ("b", Number::Float(2.5f64.to_bits())),
    ]);
    storage.push_record(&rec).unwrap();

    assert!(!storage.is_empty());
    assert_eq!(storage.records_len(), 1);
    assert!(storage.column("a").ints().is_some());
    assert!(storage.column("b").float().is_some());

    let rows = storage.snapshot();
    assert_eq!(rows.len(), 1);
    assert_eq!(rows[0].get("a"), Some(Number::Int(1)));
    assert_eq!(rows[0].get("b"), Some(Number::Float(2.5f64.to_bits())));
}

#[test]
fn empty_first_record_fails_with_empty_record() {
    let mut storage = Storage::new();

    let outcome = storage.push_record(&Record::new());

    assert_eq!(outcome, Err(StorageError::EmptyRecord));
    assert!(storage.is_empty());
    assert_eq!(storage.records_len(), 0);
}

#[test]
fn field_mismatch_leaves_store_unchanged() {
    let mut storage = Storage::new();
    storage
        .push_record(&record(&[("a", Number::Int(1)), ("b", Number::Int(2))]))
        .unwrap();

    let different_name = record(&[("a", Number::Int(3)), ("c", Number::Int(4))]);
    assert_eq!(
        storage.push_record(&different_name),
        Err(StorageError::FieldMismatch)
    );

    let different_cardinality = record(&[("a", Number::Int(3))]);
    assert_eq!(
        storage.push_record(&different_cardinality),
        Err(StorageError::FieldMismatch)
    );

    assert_eq!(storage.records_len(), 1);
    let rows = storage.snapshot();
    assert_eq!(rows.len(), 1);
    assert_eq!(rows[0].get("a"), Some(Number::Int(1)));
    assert_eq!(rows[0].get("b"), Some(Number::Int(2)));
}

#[test]
fn field_type_mismatch_leaves_store_unchanged() {
    let mut storage = Storage::new();
    storage
        .push_record(&record(&[("a", Number::Int(1)), ("b", Number::Int(2))]))
        .unwrap();

    let wrong_kind = record(&[
        ("a", Number::Int(3)),
        ("b", Number::Float(4.0f64.to_bits())),
    ]);
    assert_eq!(
        storage.push_record(&wrong_kind),
        Err(StorageError::FieldTypeMismatch)
    );

    assert_eq!(storage.records_len(), 1);
    let rows = storage.snapshot();
    assert_eq!(rows[0].get("a"), Some(Number::Int(1)));
    assert_eq!(rows[0].get("b"), Some(Number::Int(2)));
}

#[test]
fn name_mismatch_is_reported_before_type_mismatch() {
    let mut storage = Storage::new();
    storage
        .push_record(&record(&[("a", Number::Int(1))]))
        .unwrap();

    let wrong_name_and_kind = record(&[("b", Number::Float(1.0f64.to_bits()))]);
    assert_eq!(
        storage.push_record(&wrong_name_and_kind),
        Err(StorageError::FieldMismatch)
    );
}

#[test]
fn columns_keep_equal_length_after_every_push() {
    let mut storage = Storage::new();

    for i in 0..5i64 {
        let rec = record(&[
            ("a", Number::Int(i)),
            ("b", Number::Float((i as f64).to_bits())),
        ]);
        storage.push_record(&rec).unwrap();

        let expected = (i + 1) as usize;
        assert_eq!(storage.records_len(), expected);
        assert_eq!(storage.column("a").len(), expected);
        assert_eq!(storage.column("b").len(), expected);
    }
}

#[test]
fn snapshot_is_row_major_in_ingestion_order() {
    let mut storage = Storage::new();
    storage
        .push_record(&record(&[("a", Number::Int(1)), ("b", Number::Int(2))]))
        .unwrap();
    storage
        .push_record(&record(&[("a", Number::Int(11)), ("b", Number::Int(12))]))
        .unwrap();

    let rows = storage.snapshot();
    assert_eq!(rows.len(), 2);
    assert_eq!(rows[0].get("a"), Some(Number::Int(1)));
    assert_eq!(rows[0].get("b"), Some(Number::Int(2)));
    assert_eq!(rows[1].get("a"), Some(Number::Int(11)));
    assert_eq!(rows[1].get("b"), Some(Number::Int(12)));
}

#[test]
fn number_vec_accessors() {
    let ints = NumberVec::from_number(Number::Int(7));
    assert_eq!(ints.len(), 1);
    assert!(!ints.is_empty());
    assert_eq!(ints.get(0), Some(Number::Int(7)));
    assert_eq!(ints.get(1), None);
    assert_eq!(ints.ints(), Some(&vec![7i64]));
    assert_eq!(ints.float(), None);

    let floats = NumberVec::from_number(Number::Float(1.5f64.to_bits()));
    assert_eq!(floats.get(0), Some(Number::Float(1.5f64.to_bits())));
    assert_eq!(floats.float(), Some(&vec![1.5f64.to_bits()]));
    assert_eq!(floats.ints(), None);
}

#[test]
fn number_from_integer() {
    assert_eq!(Number::from(5i64), Number::Int(5));
}

#[test]
fn record_insert_rejects_duplicate_names() {
    let mut rec = Record::new();
    assert!(rec.insert("a".to_string(), Number::Int(1)));
    assert!(!rec.insert("a".to_string(), Number::Int(2)));
    assert_eq!(rec.len(), 1);
    assert_eq!(rec.get("a"), Some(Number::Int(1)));
    assert_eq!(rec.get("b"), None);
}
