//! Tests for the position delete writers.

use icelake::config::{ParquetWriterConfig, TableConfig};
use icelake::data_file::{DataContentType, DataFileBuilder, FileCloseInfo};
use icelake::error::ErrorKind;
use icelake::position_delete_writer::{
    sort_positions, str_compare, PositionDeleteWriter, SortedPositionDeleteWriter,
};
use icelake::types::{DataType, Field, PrimitiveType, Value};

fn config(max_record_num: u64) -> TableConfig {
    TableConfig {
        rows_per_file: 1,
        target_file_size_in_bytes: u64::MAX,
        max_record_num,
        parquet_writer: ParquetWriterConfig {
            enable_bloom_filter: false,
            compression: "zstd".to_string(),
            max_row_group_size: 1024,
            write_batch_size: 1024,
            data_page_size: 4096,
            created_by: Some("writer".to_string()),
        },
    }
}

#[test]
fn sorted_groups_come_out_sorted_with_duplicates() {
    // Deletions (f1,5), (f1,2), (f2,9), (f1,5) with a threshold above 4:
    // f1 yields [2,5,5] ascending with the duplicate preserved, f2 [9].
    let mut w = SortedPositionDeleteWriter::new("t".to_string(), config(100));
    assert!(!w.delete("f1".to_string(), 5));
    assert!(!w.delete("f1".to_string(), 2));
    assert!(!w.delete("f2".to_string(), 9));
    assert!(!w.delete("f1".to_string(), 5));
    assert!(w.needs_final_flush());
    let groups = w.take_sorted_groups();
    assert_eq!(groups.len(), 2);
    assert_eq!(groups[0].0, "f1");
    assert_eq!(groups[0].1, vec![2, 5, 5]);
    assert_eq!(groups[1].0, "f2");
    assert_eq!(groups[1].1, vec![9]);
    assert!(!w.needs_final_flush());
}

#[test]
fn reaching_the_threshold_demands_a_flush() {
    let mut w = SortedPositionDeleteWriter::new("t".to_string(), config(3));
    assert!(!w.delete("f".to_string(), 1));
    assert!(!w.delete("f".to_string(), 2));
    // The third deletion reaches max_record_num.
    assert!(w.delete("f".to_string(), 3));
    let groups = w.take_sorted_groups();
    assert_eq!(groups.len(), 1);
    assert_eq!(groups[0].1, vec![1, 2, 3]);
    // The in-memory state is empty immediately after the flush.
    assert!(!w.needs_final_flush());
    assert!(!w.delete("f".to_string(), 4));
}

#[test]
fn close_returns_absorbed_results() {
    let mut w = SortedPositionDeleteWriter::new("loc".to_string(), config(100));
    w.delete("f".to_string(), 1);
    let _groups = w.take_sorted_groups();
    let files = vec![DataFileBuilder::new(1, "loc".to_string(), "d-0".to_string(), 10)
        .with_content(DataContentType::PositionDeletes)];
    w.extend_results(files);
    let out = w.close();
    assert_eq!(out.len(), 1);
    assert_eq!(out[0].num_rows, 1);
    assert_eq!(out[0].content, Some(DataContentType::PositionDeletes));
}

#[test]
fn delete_writer_builds_the_fixed_schema_batch() {
    let w = PositionDeleteWriter::try_new(
        "t".to_string(),
        None,
        config(100),
        "del-0".to_string(),
    )
    .unwrap();
    assert_eq!(w.schema.fields.len(), 2);
    assert_eq!(w.schema.fields[0].id, 2147483546);
    assert_eq!(w.schema.fields[0].name, "file_path");
    assert_eq!(w.schema.fields[1].id, 2147483545);
    assert_eq!(w.schema.fields[1].name, "pos");
    let batch = w
        .write_by_vec("f1".to_string(), vec![2, 5, 5], None)
        .unwrap();
    assert_eq!(batch.num_rows, 3);
    match (&batch.columns[0][1], &batch.columns[1][1]) {
        (Value::Str(p), Value::Long(pos)) => {
            assert_eq!(p, "f1");
            assert_eq!(*pos, 5);
        }
        _ => panic!("expected path and position cells"),
    }
}

#[test]
fn delete_writer_close_tags_descriptors() {
    let mut w = PositionDeleteWriter::try_new(
        "table-loc".to_string(),
        None,
        config(100),
        "del-0".to_string(),
    )
    .unwrap();
    let batch = w.write_by_vec("f1".to_string(), vec![1, 2], None).unwrap();
    assert!(!w.record_write(batch.num_rows as u64, 64).unwrap());
    let (files, del) = w.close(FileCloseInfo { num_rows: 2, written_size: 64 }).unwrap();
    assert!(del.is_none());
    assert_eq!(files.len(), 1);
    assert_eq!(files[0].num_rows, 2);
    assert_eq!(files[0].content, Some(DataContentType::PositionDeletes));
    assert_eq!(files[0].table_location, "table-loc");
}

#[test]
fn delete_writer_invalid_config_is_rejected() {
    let r = PositionDeleteWriter::try_new(
        "t".to_string(),
        None,
        config(0),
        "del-0".to_string(),
    );
    assert_eq!(r.err().unwrap().kind(), ErrorKind::InvalidConfig);
}

#[test]
fn delete_writer_builds_row_column_when_requested() {
    let row_type = vec![Field {
        id: 9,
        name: "v".to_string(),
        required: true,
        data_type: DataType::Primitive(PrimitiveType::Long),
    }];
    let w = PositionDeleteWriter::try_new(
        "t".to_string(),
        Some(row_type),
        config(100),
        "del-0".to_string(),
    )
    .unwrap();
    assert_eq!(w.schema.fields.len(), 3);
    assert_eq!(w.schema.fields[2].id, 2147483544);
    assert_eq!(w.schema.fields[2].name, "row");
    let rows = vec![Value::Struct(vec![Value::Long(42)])];
    let batch = w.write_by_vec("f".to_string(), vec![3], Some(rows)).unwrap();
    assert_eq!(batch.columns.len(), 3);
    match &batch.columns[2][0] {
        Value::Struct(vs) => match &vs[0] {
            Value::Long(v) => assert_eq!(*v, 42),
            _ => panic!("expected a long row cell"),
        },
        _ => panic!("expected a struct row value"),
    }
}

#[test]
fn sort_positions_orders_and_keeps_duplicates() {
    let sorted = sort_positions(vec![5, -1, 5, 0, 3]);
    assert_eq!(sorted, vec![-1, 0, 3, 5, 5]);
    let empty = sort_positions(vec![]);
    assert_eq!(empty, Vec::<i64>::new());
}

#[test]
fn str_compare_orders_lexicographically() {
    assert!(str_compare("a", "b") < 0);
    assert!(str_compare("b", "a") > 0);
    assert_eq!(str_compare("abc", "abc"), 0);
    assert!(str_compare("ab", "abc") < 0);
    assert!(str_compare("abd", "abc") > 0);
    assert!(str_compare("", "a") < 0);
}

#[test]
fn cache_keys_are_visited_in_ascending_order() {
    let mut w = SortedPositionDeleteWriter::new("t".to_string(), config(100));
    w.delete("zz".to_string(), 1);
    w.delete("aa".to_string(), 2);
    w.delete("mm".to_string(), 3);
    w.delete("aa".to_string(), 1);
    let groups = w.take_sorted_groups();
    let keys: Vec<&str> = groups.iter().map(|g| g.0.as_str()).collect();
    assert_eq!(keys, vec!["aa", "mm", "zz"]);
    assert_eq!(groups[0].1, vec![1, 2]);
}
