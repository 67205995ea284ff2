//! The rolling writer: one logical append-only destination that spans
//! multiple physical files.
//!
//! The physical columnar encoder and the storage backend are driven by
//! the embedding application; this state machine makes every decision.
//! One write is one round: the caller casts the batch with
//! [`RollingWriter::try_cast_batch`], hands it to the physical writer,
//! and reports the outcome with [`RollingWriter::record_write`]. When
//! that call asks for a split, the caller closes the physical file and
//! reports its metadata to [`RollingWriter::roll_file`], deleting the
//! file the writer names as empty, then opens a new physical file at the
//! location it passed in. [`RollingWriter::close`] ends the stream the
//! same way and drains the accumulated descriptors.

use vstd::prelude::*;

use crate::batch::RecordBatch;
use crate::config::TableConfig;
use crate::data_file::{sum_result_rows, DataFileBuilder, FileCloseInfo};
use crate::error::{Error, ErrorKind};
use crate::types::{
    fields_eq, lemma_data_type_eq_matches_type, lemma_fields_eq_iff_pointwise, value_matches_type,
    zone_eq, zones_equal, DataType, Field, PrimitiveType, Schema,
};

verus! {

/// Whether the fields at index `i` are timestamps of the same unit whose
/// timezone annotations differ: the one mismatch the writer reconciles
/// by a cast.
pub open spec fn tz_cast_needed_at(a: Seq<Field>, b: Seq<Field>, i: int) -> bool {
    match (a[i].data_type, b[i].data_type) {
        (
            DataType::Primitive(PrimitiveType::Timestamp { unit: u1, zone: z1 }),
            DataType::Primitive(PrimitiveType::Timestamp { unit: u2, zone: z2 }),
        ) => u1 == u2 && !zone_eq(z1, z2),
        _ => false,
    }
}

/// Whether any column of a batch schema needs the timestamp-timezone
/// cast against the target schema.
pub open spec fn tz_cast_needed(a: Seq<Field>, b: Seq<Field>) -> bool {
    exists|i: int| 0 <= i < a.len() && i < b.len() && #[trigger] tz_cast_needed_at(a, b, i)
}

/// Whether the columns can stand under the target fields: one column per
/// field, equal lengths, every value inhabiting its field's type.
pub open spec fn columns_fit(columns: Seq<Vec<crate::types::Value>>, fields: Seq<Field>) -> bool {
    let n = if columns.len() > 0 {
        columns[0]@.len() as int
    } else {
        0
    };
    &&& columns.len() == fields.len()
    &&& forall|c: int| 0 <= c < columns.len() ==> (#[trigger] columns[c]@).len() == n
    &&& forall|c: int, r: int|
        0 <= c < columns.len() && 0 <= r < n ==> value_matches_type(
            #[trigger] columns[c]@[r],
            fields[c].data_type,
        )
}

/// A single logical output stream that rolls over multiple physical
/// files once a size/row threshold is crossed, discards files that ended
/// up empty, and accumulates one descriptor per non-empty file.
#[derive(Debug)]
pub struct RollingWriter {
    /// The table's base location.
    pub table_location: String,
    /// The target schema batches are reconciled against.
    pub schema: Schema,
    /// The shared table configuration.
    pub config: TableConfig,
    /// Whether `close` has completed; a closed writer rejects every
    /// further operation.
    pub closed: bool,
    /// Rows recorded against the currently open physical file.
    pub current_row_num: u64,
    /// Location of the currently open physical file, kept so an empty
    /// file can be deleted.
    pub current_location: String,
    /// Rows recorded over the writer's whole lifetime.
    pub total_rows: u64,
    /// How many times the writer rolled to a new physical file.
    pub rolled: u64,
    /// One descriptor per closed, non-empty physical file, in creation
    /// order.
    pub results: Vec<DataFileBuilder>,
}

impl RollingWriter {
    /// The configuration is valid, every accumulated descriptor counts
    /// at least one row, descriptors never outnumber rollovers, and the
    /// row accounting adds up: rows in closed files plus rows in the
    /// open file equal the rows ever recorded.
    pub open spec fn wf(self) -> bool {
        &&& self.config.wf()
        &&& self.results@.len() <= self.rolled
        &&& forall|i: int| 0 <= i < self.results@.len() ==> (#[trigger] self.results@[i]).num_rows > 0
        &&& !self.closed ==> sum_result_rows(self.results@) + self.current_row_num
            == self.total_rows
        &&& self.closed ==> self.results@.len() == 0
    }

    /// The split policy: splits are checked only at batch boundaries,
    /// and trigger when the row counter is an exact multiple of the
    /// check interval and the physical writer's reported size has
    /// reached the target file size.
    pub open spec fn should_split_spec(self, written_size: u64) -> bool {
        &&& self.current_row_num % self.config.rows_per_file == 0
        &&& written_size >= self.config.target_file_size_in_bytes
    }

    /// Open a new rolling writer over the first physical file, which the
    /// caller has already opened at `first_file_location`. Fails exactly
    /// when the configuration's thresholds are not all positive.
    pub fn try_new(
        table_location: String,
        schema: Schema,
        config: TableConfig,
        first_file_location: String,
    ) -> (r: Result<RollingWriter, Error>)
        ensures
            r is Ok <==> config.wf(),
            r matches Ok(w) ==> {
                &&& w.wf()
                &&& !w.closed
                &&& w.table_location == table_location
                &&& w.schema == schema
                &&& w.config == config
                &&& w.current_row_num == 0
                &&& w.current_location == first_file_location
                &&& w.total_rows == 0
                &&& w.rolled == 0
                &&& w.results@.len() == 0
            },
            r matches Err(e) ==> e.kind == ErrorKind::InvalidConfig,
    {
        if !config.is_valid() {
            return Err(Error::new(
                ErrorKind::InvalidConfig,
                "rolling writer thresholds must be positive",
            ));
        }
        Ok(RollingWriter {
            table_location,
            schema,
            config,
            closed: false,
            current_row_num: 0,
            current_location: first_file_location,
            total_rows: 0,
            rolled: 0,
            results: Vec::new(),
        })
    }

    /// Reconcile a batch with the target schema. Only one mismatch is
    /// repaired: a timestamp column whose unit matches the target's but
    /// whose timezone annotation differs is cast to the target type.
    /// When no column needs that cast the batch passes through
    /// untouched, whatever else may differ; when one does, the batch is
    /// rebuilt under the target schema and any remaining disagreement is
    /// an error.
    pub fn try_cast_batch(&self, batch: RecordBatch) -> (r: Result<RecordBatch, Error>)
        ensures
            !tz_cast_needed(batch.schema.fields@, self.schema.fields@) ==> (r matches Ok(b) && b
                == batch),
            tz_cast_needed(batch.schema.fields@, self.schema.fields@) ==> {
                &&& (r is Ok <==> columns_fit(batch.columns@, self.schema.fields@))
                &&& (r matches Ok(b) ==> {
                    &&& b.wf()
                    &&& fields_eq(self.schema.fields@, b.schema.fields@)
                    &&& b.columns == batch.columns
                    &&& b.num_rows == (if batch.columns@.len() > 0 {
                        batch.columns@[0]@.len() as int
                    } else {
                        0int
                    })
                })
                &&& (r matches Err(e) ==> e.kind == ErrorKind::SchemaMismatch)
            },
    {
        let a_len = batch.schema.fields.len();
        let b_len = self.schema.fields.len();
        let limit = if a_len < b_len {
            a_len
        } else {
            b_len
        };
        let mut need_cast = false;
        let mut i: usize = 0;
        while i < limit
            invariant
                limit <= batch.schema.fields@.len(),
                limit <= self.schema.fields@.len(),
                limit == (if batch.schema.fields@.len() < self.schema.fields@.len() {
                    batch.schema.fields@.len() as int
                } else {
                    self.schema.fields@.len() as int
                }),
                0 <= i <= limit,
                need_cast ==> tz_cast_needed(batch.schema.fields@, self.schema.fields@),
                !need_cast ==> forall|j: int|
                    0 <= j < i ==> !#[trigger] tz_cast_needed_at(
                        batch.schema.fields@,
                        self.schema.fields@,
                        j,
                    ),
            decreases limit - i,
        {
            let actual = &batch.schema.fields[i];
            let expect = &self.schema.fields[i];
            match (&actual.data_type, &expect.data_type) {
                (
                    DataType::Primitive(PrimitiveType::Timestamp { unit: u1, zone: z1 }),
                    DataType::Primitive(PrimitiveType::Timestamp { unit: u2, zone: z2 }),
                ) => {
                    let units_agree = match (u1, u2) {
                        (crate::types::TimeUnit::Second, crate::types::TimeUnit::Second) => true,
                        (
                            crate::types::TimeUnit::Millisecond,
                            crate::types::TimeUnit::Millisecond,
                        ) => true,
                        (
                            crate::types::TimeUnit::Microsecond,
                            crate::types::TimeUnit::Microsecond,
                        ) => true,
                        (
                            crate::types::TimeUnit::Nanosecond,
                            crate::types::TimeUnit::Nanosecond,
                        ) => true,
                        _ => false,
                    };
                    if units_agree && !zones_equal(z1, z2) {
                        proof {
                            assert(tz_cast_needed_at(
                                batch.schema.fields@,
                                self.schema.fields@,
                                i as int,
                            ));
                        }
                        need_cast = true;
                    }
                },
                _ => {},
            }
            i += 1;
        }
        if !need_cast {
            proof {
                assert(!tz_cast_needed(batch.schema.fields@, self.schema.fields@));
            }
            return Ok(batch);
        }
        let nrows: usize = if batch.columns.len() > 0 {
            batch.columns[0].len()
        } else {
            0
        };
        let target = self.schema.duplicate();
        let ghost target_fields = target.fields@;
        let ghost target_snap = target;
        let ghost colsv = batch.columns;
        let ghost cols_snap = batch.columns@;
        let ghost n0: int = if batch.columns@.len() > 0 {
            batch.columns@[0]@.len() as int
        } else {
            0
        };
        let r = RecordBatch::try_new(target, batch.columns);
        proof {
            lemma_fields_eq_iff_pointwise(self.schema.fields@, target_fields);
            match &r {
                Ok(b) => {
                    assert forall|c: int, row: int|
                        0 <= c < cols_snap.len() && 0 <= row < n0 implies value_matches_type(
                        #[trigger] cols_snap[c]@[row],
                        self.schema.fields@[c].data_type,
                    ) by {
                        assert(b.columns@ == cols_snap);
                        assert(value_matches_type(
                            b.columns@[c]@[row],
                            b.schema.fields@[c].data_type,
                        ));
                        assert(b.schema.fields@ == target_fields);
                        assert(crate::types::field_eq(self.schema.fields@[c], target_fields[c]));
                        lemma_data_type_eq_matches_type(
                            cols_snap[c]@[row],
                            self.schema.fields@[c].data_type,
                            target_fields[c].data_type,
                        );
                    }
                    assert(columns_fit(cols_snap, self.schema.fields@));
                },
                Err(_) => {
                    if columns_fit(cols_snap, self.schema.fields@) {
                        let cand = RecordBatch {
                            schema: target_snap,
                            columns: colsv,
                            num_rows: nrows,
                        };
                        assert(cand.columns@.len() == cand.schema.fields@.len());
                        assert forall|c: int| 0 <= c < cand.columns@.len() implies (
                        #[trigger] cand.columns@[c]@).len() == cand.num_rows by {
                            assert(cols_snap[c]@.len() == n0);
                        }
                        assert forall|c: int, row: int|
                            0 <= c < cand.columns@.len() && 0 <= row < cand.num_rows implies
                            value_matches_type(
                            #[trigger] cand.columns@[c]@[row],
                            cand.schema.fields@[c].data_type,
                        ) by {
                            assert(value_matches_type(
                                cols_snap[c]@[row],
                                self.schema.fields@[c].data_type,
                            ));
                            assert(crate::types::field_eq(
                                self.schema.fields@[c],
                                target_fields[c],
                            ));
                            lemma_data_type_eq_matches_type(
                                cols_snap[c]@[row],
                                self.schema.fields@[c].data_type,
                                target_fields[c].data_type,
                            );
                        }
                        assert(cand.wf());
                        assert(false);
                    }
                },
            }
        }
        r
    }

    /// Decide the split policy against the physical writer's reported
    /// written size.
    pub fn should_split(&self, written_size: u64) -> (r: bool)
        requires
            self.config.wf(),
        ensures
            r == self.should_split_spec(written_size),
    {
        self.current_row_num % self.config.rows_per_file == 0 && written_size
            >= self.config.target_file_size_in_bytes
    }

    /// Record that a batch of `num_rows` rows reached the physical
    /// writer, which now reports `written_size` bytes, and decide
    /// whether the caller must roll to a new file. Fails on a closed
    /// writer.
    pub fn record_write(&mut self, num_rows: u64, written_size: u64) -> (r: Result<bool, Error>)
        requires
            old(self).wf(),
            old(self).total_rows + num_rows <= u64::MAX,
            old(self).current_row_num + num_rows <= u64::MAX,
        ensures
            old(self).closed ==> r is Err && *final(self) == *old(self),
            !old(self).closed ==> {
                &&& r matches Ok(roll)
                &&& final(self).wf()
                &&& final(self).current_row_num == old(self).current_row_num + num_rows
                &&& final(self).total_rows == old(self).total_rows + num_rows
                &&& final(self).results == old(self).results
                &&& final(self).rolled == old(self).rolled
                &&& final(self).closed == false
                &&& final(self).schema == old(self).schema
                &&& final(self).config == old(self).config
                &&& final(self).table_location == old(self).table_location
                &&& final(self).current_location == old(self).current_location
                &&& (r matches Ok(roll2) ==> roll2 == final(self).should_split_spec(written_size))
            },
            r matches Err(e) ==> e.kind == ErrorKind::IllegalState,
    {
        if self.closed {
            return Err(Error::new(
                ErrorKind::IllegalState,
                "the rolling writer is already closed",
            ));
        }
        self.current_row_num = self.current_row_num + num_rows;
        self.total_rows = self.total_rows + num_rows;
        Ok(self.should_split(written_size))
    }

    /// Record that the caller closed the current physical file with the
    /// reported metadata and opened a new one at `new_location`. When
    /// the closed file is empty, no descriptor is kept and its location
    /// is returned for deletion from the backing store. Fails on a
    /// closed writer.
    pub fn roll_file(&mut self, info: FileCloseInfo, new_location: String) -> (r: Result<
        Option<String>,
        Error,
    >)
        requires
            old(self).wf(),
            info.num_rows == old(self).current_row_num,
            old(self).rolled + 1 <= u64::MAX,
        ensures
            old(self).closed ==> r is Err && *final(self) == *old(self),
            !old(self).closed ==> {
                &&& r is Ok
                &&& final(self).wf()
                &&& final(self).closed == false
                &&& final(self).rolled == old(self).rolled + 1
                &&& final(self).current_row_num == 0
                &&& final(self).current_location == new_location
                &&& final(self).total_rows == old(self).total_rows
                &&& final(self).schema == old(self).schema
                &&& final(self).config == old(self).config
                &&& final(self).table_location == old(self).table_location
                &&& (info.num_rows == 0 ==> {
                    &&& (r matches Ok(del) ==> del matches Some(loc) && loc
                        == old(self).current_location)
                    &&& final(self).results == old(self).results
                    &&& final(self).total_rows == old(self).total_rows
                })
                &&& (info.num_rows > 0 ==> {
                    &&& (r matches Ok(del) ==> del is None)
                    &&& final(self).results@.len() == old(self).results@.len() + 1
                    &&& final(self).results@.drop_last() == old(self).results@
                    &&& final(self).results@.last().num_rows == info.num_rows
                    &&& final(self).results@.last().written_size == info.written_size
                    &&& final(self).results@.last().file_location
                        == old(self).current_location
                    &&& final(self).results@.last().table_location
                        == old(self).table_location
                    &&& final(self).results@.last().content is None
                    &&& final(self).results@.last().partition_value is None
                })
            },
            r matches Err(e) ==> e.kind == ErrorKind::IllegalState,
    {
        if self.closed {
            return Err(Error::new(
                ErrorKind::IllegalState,
                "the rolling writer is already closed",
            ));
        }
        let old_location = self.current_location.clone();
        self.current_location = new_location;
        self.current_row_num = 0;
        self.rolled = self.rolled + 1;
        if info.num_rows == 0 {
            Ok(Some(old_location))
        } else {
            let builder = DataFileBuilder::new(
                info.num_rows,
                self.table_location.clone(),
                old_location,
                info.written_size,
            );
            let ghost before = self.results@;
            self.results.push(builder);
            proof {
                assert(self.results@.drop_last() =~= before);
            }
            Ok(None)
        }
    }

    /// Close the stream: the caller closed the last physical file with
    /// the reported metadata. Returns every accumulated descriptor in
    /// creation order and, when the last file is empty, its location
    /// for deletion. A second close fails.
    ///
    /// For every session with accurately reported row counts: the sum
    /// of the returned descriptors' row counts equals the total number
    /// of rows ever recorded, no returned descriptor counts zero rows,
    /// and a session that never rolled and recorded at least one row
    /// returns exactly one descriptor.
    pub fn close(&mut self, info: FileCloseInfo) -> (r: Result<
        (Vec<DataFileBuilder>, Option<String>),
        Error,
    >)
        requires
            old(self).wf(),
            info.num_rows == old(self).current_row_num,
        ensures
            old(self).closed ==> r is Err && *final(self) == *old(self),
            !old(self).closed ==> {
                &&& r is Ok
                &&& final(self).wf()
                &&& final(self).closed
                &&& final(self).results@.len() == 0
                &&& (r matches Ok((files, del)) ==> {
                    &&& (info.num_rows == 0 ==> (del matches Some(loc) && loc
                        == old(self).current_location) && files@ == old(self).results@)
                    &&& (info.num_rows > 0 ==> del is None && files@.len() == old(
                        self,
                    ).results@.len() + 1 && files@.drop_last() == old(self).results@
                        && files@.last().num_rows == info.num_rows && files@.last().written_size
                        == info.written_size && files@.last().file_location
                        == old(self).current_location && files@.last().table_location
                        == old(self).table_location && files@.last().content is None
                        && files@.last().partition_value is None)
                    &&& sum_result_rows(files@) == old(self).total_rows
                    &&& forall|i: int| 0 <= i < files@.len() ==> (#[trigger] files@[i]).num_rows > 0
                    &&& (old(self).rolled == 0 && old(self).total_rows > 0 ==> files@.len() == 1)
                })
            },
            r matches Err(e) ==> e.kind == ErrorKind::IllegalState,
    {
        if self.closed {
            return Err(Error::new(
                ErrorKind::IllegalState,
                "the rolling writer is already closed",
            ));
        }
        let mut files: Vec<DataFileBuilder> = Vec::new();
        core::mem::swap(&mut files, &mut self.results);
        self.closed = true;
        if info.num_rows == 0 {
            Ok((files, Some(self.current_location.clone())))
        } else {
            let builder = DataFileBuilder::new(
                info.num_rows,
                self.table_location.clone(),
                self.current_location.clone(),
                info.written_size,
            );
            let ghost before = files@;
            files.push(builder);
            proof {
                assert(files@.drop_last() =~= before);
            }
            Ok((files, None))
        }
    }

    /// The rows recorded against the currently open physical file.
    pub fn current_row(&self) -> (r: u64)
        ensures
            r == self.current_row_num,
    {
        self.current_row_num
    }

    /// The full path of the currently open physical file.
    pub fn current_file(&self) -> (r: String)
        ensures
            r@ == self.table_location@ + "/"@ + self.current_location@,
    {
        let mut s = self.table_location.clone();
        s.append("/");
        s.append(self.current_location.as_str());
        s
    }
}

} // verus!
