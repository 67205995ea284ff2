//! Tests for partition splitting and key/value conversion.

use icelake::batch::RecordBatch;
use icelake::error::ErrorKind;
use icelake::partition_splitter::{PartitionSpec, PartitionSpecField, PartitionSplitter};
use icelake::transform::Transform;
use icelake::types::{DataType, Field, PrimitiveType, Schema, Value};

fn long_field(id: i64, name: &str) -> Field {
    Field {
        id,
        name: name.to_string(),
        required: true,
        data_type: DataType::Primitive(PrimitiveType::Long),
    }
}

fn str_field(id: i64, name: &str) -> Field {
    Field {
        id,
        name: name.to_string(),
        required: true,
        data_type: DataType::Primitive(PrimitiveType::Str),
    }
}

fn two_column_schema() -> Schema {
    Schema { fields: vec![long_field(1, "region"), str_field(2, "city")] }
}

fn identity_spec(source_column_id: i64) -> PartitionSpec {
    PartitionSpec {
        fields: vec![PartitionSpecField {
            name: "region".to_string(),
            source_column_id,
            transform: Transform::Identity,
        }],
    }
}

fn sample_batch() -> RecordBatch {
    let schema = two_column_schema();
    let regions = vec![
        Value::Long(1),
        Value::Long(2),
        Value::Long(1),
        Value::Long(2),
        Value::Long(1),
    ];
    let cities = vec![
        Value::Str("aa".to_string()),
        Value::Str("bb".to_string()),
        Value::Str("cc".to_string()),
        Value::Str("dd".to_string()),
        Value::Str("ee".to_string()),
    ];
    RecordBatch::try_new(schema, vec![regions, cities]).unwrap()
}

#[test]
fn split_two_partitions_covers_all_rows() {
    let splitter = PartitionSplitter::try_new(
        &identity_spec(1),
        &two_column_schema(),
        vec![long_field(1000, "region")],
    )
    .unwrap();
    let batch = sample_batch();
    let groups = splitter.split_by_partition(&batch).unwrap();
    assert_eq!(groups.len(), 2);
    let total: usize = groups.iter().map(|g| g.batch.num_rows).sum();
    assert_eq!(total, 5);
}

#[test]
fn split_keeps_row_order_within_groups() {
    let splitter = PartitionSplitter::try_new(
        &identity_spec(1),
        &two_column_schema(),
        vec![long_field(1000, "region")],
    )
    .unwrap();
    let batch = sample_batch();
    let groups = splitter.split_by_partition(&batch).unwrap();
    // Groups come out in first-appearance order: region 1, then region 2.
    assert_eq!(groups[0].rows, vec![0, 2, 4]);
    assert_eq!(groups[1].rows, vec![1, 3]);
    // The sub-batches carry the source rows in their original order.
    match (&groups[0].batch.columns[1][0], &groups[0].batch.columns[1][1]) {
        (Value::Str(a), Value::Str(b)) => {
            assert_eq!(a, "aa");
            assert_eq!(b, "cc");
        }
        _ => panic!("expected string cells"),
    }
}

#[test]
fn split_of_empty_batch_yields_no_groups() {
    let splitter = PartitionSplitter::try_new(
        &identity_spec(1),
        &two_column_schema(),
        vec![long_field(1000, "region")],
    )
    .unwrap();
    let schema = two_column_schema();
    let batch = RecordBatch::try_new(schema, vec![vec![], vec![]]).unwrap();
    let groups = splitter.split_by_partition(&batch).unwrap();
    assert_eq!(groups.len(), 0);
}

#[test]
fn convert_key_round_trips_derived_value() {
    let splitter = PartitionSplitter::try_new(
        &identity_spec(1),
        &two_column_schema(),
        vec![long_field(1000, "region")],
    )
    .unwrap();
    let batch = sample_batch();
    let key = splitter.derive_key_of_row(&batch, 1).unwrap();
    let value = splitter.convert_key_to_value(key).unwrap();
    assert_eq!(value.values.len(), 1);
    match &value.values[0] {
        Value::Long(v) => assert_eq!(*v, 2),
        _ => panic!("expected a long partition value"),
    }
    assert_eq!(value.fields[0].id, 1000);
}

#[test]
fn group_keys_decode_to_their_partition_values() {
    let splitter = PartitionSplitter::try_new(
        &identity_spec(1),
        &two_column_schema(),
        vec![long_field(1000, "region")],
    )
    .unwrap();
    let batch = sample_batch();
    let groups = splitter.split_by_partition(&batch).unwrap();
    let mut decoded = Vec::new();
    for g in groups {
        let value = splitter.convert_key_to_value(g.key).unwrap();
        match &value.values[0] {
            Value::Long(v) => decoded.push(*v),
            _ => panic!("expected a long partition value"),
        }
    }
    assert_eq!(decoded, vec![1, 2]);
}

#[test]
fn missing_source_column_fails_construction() {
    let r = PartitionSplitter::try_new(
        &identity_spec(77),
        &two_column_schema(),
        vec![long_field(1000, "region")],
    );
    let e = r.err().unwrap();
    assert_eq!(e.kind(), ErrorKind::PartitionResolution);
    assert_eq!(e.source_column_id, Some(77));
}

#[test]
fn field_count_mismatch_fails_construction() {
    let r = PartitionSplitter::try_new(&identity_spec(1), &two_column_schema(), vec![]);
    assert_eq!(r.err().unwrap().kind(), ErrorKind::PartitionResolution);
}

#[test]
fn nested_source_column_is_resolved() {
    // struct<point:struct<x:10,y:11>, z:3>, partition on y.
    let inner = vec![long_field(10, "x"), long_field(11, "y")];
    let schema = Schema {
        fields: vec![
            Field {
                id: 5,
                name: "point".to_string(),
                required: true,
                data_type: DataType::Struct(inner),
            },
            long_field(3, "z"),
        ],
    };
    let spec = identity_spec(11);
    let splitter =
        PartitionSplitter::try_new(&spec, &schema, vec![long_field(1000, "y")]).unwrap();
    let points = vec![
        Value::Struct(vec![Value::Long(1), Value::Long(7)]),
        Value::Struct(vec![Value::Long(2), Value::Long(8)]),
        Value::Struct(vec![Value::Long(3), Value::Long(7)]),
    ];
    let zs = vec![Value::Long(0), Value::Long(0), Value::Long(0)];
    let batch = RecordBatch::try_new(schema, vec![points, zs]).unwrap();
    let groups = splitter.split_by_partition(&batch).unwrap();
    assert_eq!(groups.len(), 2);
    assert_eq!(groups[0].rows, vec![0, 2]);
    assert_eq!(groups[1].rows, vec![1]);
}

#[test]
fn truncate_transform_groups_by_bucketed_value() {
    let spec = PartitionSpec {
        fields: vec![PartitionSpecField {
            name: "region_bucket".to_string(),
            source_column_id: 1,
            transform: Transform::Truncate(10),
        }],
    };
    let splitter =
        PartitionSplitter::try_new(&spec, &two_column_schema(), vec![long_field(1000, "rb")])
            .unwrap();
    let schema = two_column_schema();
    let regions = vec![Value::Long(12), Value::Long(17), Value::Long(23), Value::Long(-3)];
    let cities = vec![
        Value::Str("a".to_string()),
        Value::Str("b".to_string()),
        Value::Str("c".to_string()),
        Value::Str("d".to_string()),
    ];
    let batch = RecordBatch::try_new(schema, vec![regions, cities]).unwrap();
    let groups = splitter.split_by_partition(&batch).unwrap();
    // 12 and 17 truncate to 10; 23 truncates to 20; -3 truncates to -10.
    assert_eq!(groups.len(), 3);
    assert_eq!(groups[0].rows, vec![0, 1]);
    let v = splitter.convert_key_to_value(groups[2].key.duplicate()).unwrap();
    match &v.values[0] {
        Value::Long(x) => assert_eq!(*x, -10),
        _ => panic!("expected a long partition value"),
    }
}

#[test]
fn type_mismatch_between_derived_and_declared_fails_split() {
    // Declared partition type says string, but identity over a long column
    // derives longs.
    let splitter = PartitionSplitter::try_new(
        &identity_spec(1),
        &two_column_schema(),
        vec![str_field(1000, "region")],
    )
    .unwrap();
    let batch = sample_batch();
    let e = splitter.split_by_partition(&batch).err().unwrap();
    assert_eq!(e.kind(), ErrorKind::SchemaMismatch);
}

#[test]
fn invalid_truncate_width_fails_construction() {
    let spec = PartitionSpec {
        fields: vec![PartitionSpecField {
            name: "b".to_string(),
            source_column_id: 1,
            transform: Transform::Truncate(0),
        }],
    };
    let r = PartitionSplitter::try_new(&spec, &two_column_schema(), vec![long_field(1000, "b")]);
    assert_eq!(r.err().unwrap().kind(), ErrorKind::PartitionResolution);
}

#[test]
fn truncate_rejects_boolean_input() {
    let t = Transform::Truncate(4);
    let e = t.apply(&Value::Boolean(true)).err().unwrap();
    assert_eq!(e.kind(), ErrorKind::InvalidInput);
}

#[test]
fn truncate_values_follow_the_floor_formula() {
    let t = Transform::Truncate(10);
    match t.apply(&Value::Long(-3)).unwrap() {
        Value::Long(v) => assert_eq!(v, -10),
        _ => panic!("expected a long"),
    }
    match t.apply(&Value::Long(20)).unwrap() {
        Value::Long(v) => assert_eq!(v, 20),
        _ => panic!("expected a long"),
    }
    let t4 = Transform::Truncate(4);
    match t4.apply(&Value::Str("abcdef".to_string())).unwrap() {
        Value::Str(s) => assert_eq!(s, "abcd"),
        _ => panic!("expected a string"),
    }
    match t4.apply(&Value::Str("ab".to_string())).unwrap() {
        Value::Str(s) => assert_eq!(s, "ab"),
        _ => panic!("expected a string"),
    }
}

#[test]
fn void_transform_sends_every_row_to_one_group() {
    let spec = PartitionSpec {
        fields: vec![PartitionSpecField {
            name: "v".to_string(),
            source_column_id: 1,
            transform: Transform::Void,
        }],
    };
    let splitter =
        PartitionSplitter::try_new(&spec, &two_column_schema(), vec![long_field(1000, "v")])
            .unwrap();
    let batch = sample_batch();
    let groups = splitter.split_by_partition(&batch).unwrap();
    assert_eq!(groups.len(), 1);
    assert_eq!(groups[0].rows, vec![0, 1, 2, 3, 4]);
}

#[test]
fn keys_of_equal_rows_are_equal() {
    let splitter = PartitionSplitter::try_new(
        &identity_spec(1),
        &two_column_schema(),
        vec![long_field(1000, "region")],
    )
    .unwrap();
    let batch = sample_batch();
    let k0 = splitter.derive_key_of_row(&batch, 0).unwrap();
    let k2 = splitter.derive_key_of_row(&batch, 2).unwrap();
    let k1 = splitter.derive_key_of_row(&batch, 1).unwrap();
    assert!(k0.eq_key(&k2));
    assert!(!k0.eq_key(&k1));
}
