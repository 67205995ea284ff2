//! Write path of an Iceberg-style table library.
//!
//! The crate takes columnar record batches destined for a logical table and
//! produces correctly partitioned, size-bounded file descriptors together
//! with position-delete records:
//!
//! - [`partition_splitter`] splits a batch into per-partition sub-batches
//!   using transform functions over possibly nested source columns.
//! - [`rolling_writer`] rolls one logical output stream into multiple
//!   physical files once a size/row threshold is crossed, reconciling
//!   timestamp-timezone mismatches and discarding empty files.
//! - [`position_delete_writer`] accumulates, sorts and flushes
//!   position-delete records keyed by source file path.
//!
//! The physical columnar encoder and the storage backend are outside
//! collaborators: they are driven by the embedding application, which feeds
//! their reported row counts and byte sizes back into the verified state
//! machines defined here.

pub mod batch;
pub mod config;
pub mod data_file;
pub mod error;
pub mod models;
pub mod partition_splitter;
pub mod transform;
pub mod position_delete_writer;
pub mod rolling_writer;
pub mod types;
