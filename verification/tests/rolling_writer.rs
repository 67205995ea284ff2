//! Tests for the rolling writer state machine.

use icelake::batch::RecordBatch;
use icelake::config::{ParquetWriterConfig, TableConfig};
use icelake::data_file::FileCloseInfo;
use icelake::error::ErrorKind;
use icelake::rolling_writer::RollingWriter;
use icelake::types::{DataType, Field, PrimitiveType, Schema, TimeUnit, Value};

fn config(rows_per_file: u64, target_file_size_in_bytes: u64) -> TableConfig {
    TableConfig {
        rows_per_file,
        target_file_size_in_bytes,
        max_record_num: 100,
        parquet_writer: ParquetWriterConfig {
            enable_bloom_filter: false,
            compression: "zstd".to_string(),
            max_row_group_size: 1024,
            write_batch_size: 1024,
            data_page_size: 4096,
            created_by: None,
        },
    }
}

fn long_schema() -> Schema {
    Schema {
        fields: vec![Field {
            id: 1,
            name: "v".to_string(),
            required: true,
            data_type: DataType::Primitive(PrimitiveType::Long),
        }],
    }
}

fn writer(rows_per_file: u64, target: u64) -> RollingWriter {
    RollingWriter::try_new(
        "s3://bucket/table".to_string(),
        long_schema(),
        config(rows_per_file, target),
        "data-0".to_string(),
    )
    .unwrap()
}

#[test]
fn invalid_config_is_rejected() {
    let r = RollingWriter::try_new(
        "t".to_string(),
        long_schema(),
        config(0, 1),
        "data-0".to_string(),
    );
    assert_eq!(r.err().unwrap().kind(), ErrorKind::InvalidConfig);
}

#[test]
fn descriptor_row_counts_sum_to_rows_written() {
    // Splits every 2 rows once 10 bytes are reported.
    let mut w = writer(2, 10);
    // 2 % 2 == 0 and 50 >= 10: the caller must roll now.
    assert!(w.record_write(2, 50).unwrap());
    let del = w.roll_file(FileCloseInfo { num_rows: 2, written_size: 50 }, "data-1".to_string());
    let del = del.unwrap();
    assert!(del.is_none());
    assert!(!w.record_write(3, 7).unwrap());
    let (files, del) = w.close(FileCloseInfo { num_rows: 3, written_size: 7 }).unwrap();
    assert!(del.is_none());
    let total: u64 = files.iter().map(|f| f.num_rows).sum();
    assert_eq!(total, 5);
    assert!(files.iter().all(|f| f.num_rows > 0));
    assert_eq!(files.len(), 2);
    assert_eq!(files[0].file_location, "data-0");
    assert_eq!(files[1].file_location, "data-1");
}

#[test]
fn split_triggers_only_on_both_conditions() {
    let mut w = writer(4, 1000);
    // Row counter multiple of 4 but size below target: no split.
    assert!(!w.record_write(4, 10).unwrap());
    // Size above target but counter not a multiple of 4: no split.
    assert!(!w.record_write(1, 5000).unwrap());
    // Both conditions met.
    assert!(w.record_write(3, 5000).unwrap());
}

#[test]
fn no_split_means_single_descriptor() {
    let mut w = writer(1, u64::MAX);
    w.record_write(3, 10).unwrap();
    w.record_write(2, 20).unwrap();
    let (files, del) = w.close(FileCloseInfo { num_rows: 5, written_size: 20 }).unwrap();
    assert!(del.is_none());
    assert_eq!(files.len(), 1);
    assert_eq!(files[0].num_rows, 5);
    assert_eq!(files[0].written_size, 20);
}

#[test]
fn empty_file_is_discarded_and_deleted() {
    let mut w = writer(1, 1);
    let (files, del) = w.close(FileCloseInfo { num_rows: 0, written_size: 0 }).unwrap();
    assert_eq!(files.len(), 0);
    assert_eq!(del, Some("data-0".to_string()));
}

#[test]
fn empty_file_on_roll_is_discarded_and_deleted() {
    let mut w = writer(1, 1);
    let del = w
        .roll_file(FileCloseInfo { num_rows: 0, written_size: 0 }, "data-1".to_string())
        .unwrap();
    assert_eq!(del, Some("data-0".to_string()));
    w.record_write(1, 1).unwrap();
    let (files, del) = w.close(FileCloseInfo { num_rows: 1, written_size: 9 }).unwrap();
    assert!(del.is_none());
    assert_eq!(files.len(), 1);
    assert_eq!(files[0].file_location, "data-1");
}

#[test]
fn second_close_fails() {
    let mut w = writer(1, 1);
    w.close(FileCloseInfo { num_rows: 0, written_size: 0 }).unwrap();
    let r = w.close(FileCloseInfo { num_rows: 0, written_size: 0 });
    assert_eq!(r.err().unwrap().kind(), ErrorKind::IllegalState);
}

fn ts_field(zone: Option<&str>) -> Field {
    Field {
        id: 1,
        name: "ts".to_string(),
        required: true,
        data_type: DataType::Primitive(PrimitiveType::Timestamp {
            unit: TimeUnit::Microsecond,
            zone: zone.map(|z| z.to_string()),
        }),
    }
}

#[test]
fn timestamp_timezone_mismatch_is_cast_not_rejected() {
    let target = Schema { fields: vec![ts_field(Some("+00:00"))] };
    let w = RollingWriter::try_new(
        "t".to_string(),
        target,
        config(1, 1),
        "data-0".to_string(),
    )
    .unwrap();
    let batch_schema = Schema { fields: vec![ts_field(Some("UTC"))] };
    let batch = RecordBatch::try_new(
        batch_schema,
        vec![vec![Value::Timestamp(1_000_000), Value::Timestamp(2_000_000)]],
    )
    .unwrap();
    let cast = w.try_cast_batch(batch).unwrap();
    // The batch is accepted and rebuilt under the target schema; the
    // values pass through unchanged.
    match &cast.schema.fields[0].data_type {
        DataType::Primitive(PrimitiveType::Timestamp { unit, zone }) => {
            assert_eq!(*unit, TimeUnit::Microsecond);
            assert_eq!(zone.as_deref(), Some("+00:00"));
        }
        _ => panic!("expected a timestamp field"),
    }
    assert_eq!(cast.num_rows, 2);
    match cast.columns[0][0] {
        Value::Timestamp(v) => assert_eq!(v, 1_000_000),
        _ => panic!("expected a timestamp value"),
    }
}

#[test]
fn batch_without_timezone_mismatch_passes_through() {
    let target = Schema { fields: vec![ts_field(Some("UTC"))] };
    let w = RollingWriter::try_new(
        "t".to_string(),
        target,
        config(1, 1),
        "data-0".to_string(),
    )
    .unwrap();
    let batch_schema = Schema { fields: vec![ts_field(Some("UTC"))] };
    let batch =
        RecordBatch::try_new(batch_schema, vec![vec![Value::Timestamp(5)]]).unwrap();
    let cast = w.try_cast_batch(batch).unwrap();
    match &cast.schema.fields[0].data_type {
        DataType::Primitive(PrimitiveType::Timestamp { zone, .. }) => {
            assert_eq!(zone.as_deref(), Some("UTC"));
        }
        _ => panic!("expected a timestamp field"),
    }
}

#[test]
fn current_file_joins_table_and_file_location() {
    let w = writer(1, 1);
    assert_eq!(w.current_file(), "s3://bucket/table/data-0");
    assert_eq!(w.current_row(), 0);
}

#[test]
fn record_batch_rejects_mismatched_columns() {
    let schema = long_schema();
    let r = RecordBatch::try_new(schema, vec![vec![Value::Str("x".to_string())]]);
    assert_eq!(r.err().unwrap().kind(), ErrorKind::SchemaMismatch);
}
