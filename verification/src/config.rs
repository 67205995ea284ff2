//! Immutable table configuration, shared read-only by every writer of a
//! write session.

use vstd::prelude::*;

verus! {

/// Physical-writer tuning options. The write path passes these through
/// opaquely to the embedding application's columnar encoder.
#[derive(Debug)]
pub struct ParquetWriterConfig {
    /// Whether bloom filters are written.
    pub enable_bloom_filter: bool,
    /// Compression codec name.
    pub compression: String,
    /// Maximum number of rows per row group.
    pub max_row_group_size: u64,
    /// Number of values written per batch.
    pub write_batch_size: u64,
    /// Data page size limit in bytes.
    pub data_page_size: u64,
    /// Writer-identity string, when one is recorded.
    pub created_by: Option<String>,
}

/// Table configuration for the write path. Shared, read-only; every
/// component receives it at construction time.
#[derive(Debug)]
pub struct TableConfig {
    /// Split check interval of the rolling writer, in rows. Must be
    /// positive.
    pub rows_per_file: u64,
    /// Split threshold of the rolling writer, in written bytes. Must be
    /// positive.
    pub target_file_size_in_bytes: u64,
    /// Flush threshold of the sorted position delete writer, in
    /// accumulated deletions. Must be positive.
    pub max_record_num: u64,
    /// Physical-writer tuning, passed through opaquely.
    pub parquet_writer: ParquetWriterConfig,
}

impl TableConfig {
    /// All thresholds are positive.
    pub open spec fn wf(self) -> bool {
        &&& self.rows_per_file > 0
        &&& self.target_file_size_in_bytes > 0
        &&& self.max_record_num > 0
    }

    /// Decide whether this configuration is well-formed.
    pub fn is_valid(&self) -> (r: bool)
        ensures
            r == self.wf(),
    {
        self.rows_per_file > 0 && self.target_file_size_in_bytes > 0 && self.max_record_num > 0
    }

    /// Copy this configuration.
    pub fn duplicate(&self) -> (r: TableConfig)
        ensures
            r == *self,
    {
        let created_by = match &self.parquet_writer.created_by {
            Option::Some(s) => Option::Some(s.clone()),
            Option::None => Option::None,
        };
        TableConfig {
            rows_per_file: self.rows_per_file,
            target_file_size_in_bytes: self.target_file_size_in_bytes,
            max_record_num: self.max_record_num,
            parquet_writer: ParquetWriterConfig {
                enable_bloom_filter: self.parquet_writer.enable_bloom_filter,
                compression: self.parquet_writer.compression.clone(),
                max_row_group_size: self.parquet_writer.max_row_group_size,
                write_batch_size: self.parquet_writer.write_batch_size,
                data_page_size: self.parquet_writer.data_page_size,
                created_by,
            },
        }
    }
}

} // verus!
