//! Data file descriptors: the per-physical-file metadata a writer
//! accumulates and hands back to its caller.

use vstd::prelude::*;

use crate::partition_splitter::StructValue;

verus! {

/// The content a physical file carries.
#[derive(Clone, Copy, Debug, PartialEq, Eq, Structural)]
pub enum DataContentType {
    /// Table rows.
    Data,
    /// Position delete markers.
    PositionDeletes,
}

/// What the physical columnar writer reports when a file is closed.
#[derive(Clone, Copy, Debug)]
pub struct FileCloseInfo {
    /// Rows written to the file. The backing store must report this
    /// accurately; it is used to detect and discard empty files.
    pub num_rows: u64,
    /// Bytes written to the file.
    pub written_size: u64,
}

/// Metadata of one closed, non-empty physical file.
#[derive(Debug)]
pub struct DataFileBuilder {
    /// Rows in the file.
    pub num_rows: u64,
    /// Bytes in the file.
    pub written_size: u64,
    /// The table's base location.
    pub table_location: String,
    /// The file's path relative to the table location.
    pub file_location: String,
    /// The content tag, once a content writer attached it.
    pub content: Option<DataContentType>,
    /// The file's partition value, once the caller attached it.
    pub partition_value: Option<StructValue>,
}

impl DataFileBuilder {
    /// Describe one closed file.
    pub fn new(num_rows: u64, table_location: String, file_location: String, written_size: u64) -> (r:
        DataFileBuilder)
        ensures
            r.num_rows == num_rows,
            r.written_size == written_size,
            r.table_location == table_location,
            r.file_location == file_location,
            r.content is None,
            r.partition_value is None,
    {
        DataFileBuilder {
            num_rows,
            written_size,
            table_location,
            file_location,
            content: Option::None,
            partition_value: Option::None,
        }
    }

    /// Attach the content tag.
    pub fn with_content(self, content: DataContentType) -> (r: DataFileBuilder)
        ensures
            r.content == Some(content),
            r.num_rows == self.num_rows,
            r.written_size == self.written_size,
            r.table_location == self.table_location,
            r.file_location == self.file_location,
            r.partition_value == self.partition_value,
    {
        DataFileBuilder { content: Option::Some(content), ..self }
    }

    /// Attach the table location.
    pub fn with_table_location(self, table_location: String) -> (r: DataFileBuilder)
        ensures
            r.table_location == table_location,
            r.num_rows == self.num_rows,
            r.written_size == self.written_size,
            r.file_location == self.file_location,
            r.content == self.content,
            r.partition_value == self.partition_value,
    {
        DataFileBuilder { table_location, ..self }
    }

    /// Attach the partition value.
    pub fn with_partition_value(self, partition_value: StructValue) -> (r: DataFileBuilder)
        ensures
            r.partition_value == Some(partition_value),
            r.num_rows == self.num_rows,
            r.written_size == self.written_size,
            r.table_location == self.table_location,
            r.file_location == self.file_location,
            r.content == self.content,
    {
        DataFileBuilder { partition_value: Option::Some(partition_value), ..self }
    }
}

/// The total row count over a list of file descriptors.
pub open spec fn sum_result_rows(s: Seq<DataFileBuilder>) -> int
    decreases s.len(),
{
    if s.len() == 0 {
        0
    } else {
        sum_result_rows(s.drop_last()) + s.last().num_rows
    }
}

} // verus!
