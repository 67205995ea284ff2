//! Record batches: immutable, columnar, fixed-schema collections of
//! equal-length typed columns.

use vstd::prelude::*;

use crate::error::{Error, ErrorKind};
use crate::types::{
    fields_eq, lemma_data_type_eq_matches_type, lemma_fields_eq_iff_pointwise,
    lemma_value_eq_matches_type, value_eq, value_matches_type, values_eq,
    lemma_values_eq_iff_pointwise, Schema, Value,
};

verus! {

/// An immutable columnar slice of rows with a shared schema. Columns are
/// stored row-major per column; a nested struct column holds one struct
/// value per row.
#[derive(Debug)]
pub struct RecordBatch {
    /// The shared schema.
    pub schema: Schema,
    /// One value vector per schema field.
    pub columns: Vec<Vec<Value>>,
    /// The common length of all columns.
    pub num_rows: usize,
}

/// The values of `col` at the positions listed in `idxs`, in that order.
pub open spec fn select_values(col: Seq<Value>, idxs: Seq<usize>) -> Seq<Value> {
    Seq::new(idxs.len(), |k: int| col[idxs[k] as int])
}

impl RecordBatch {
    /// Columns match the schema: one per field, all of the stated length,
    /// every value inhabiting its field's type.
    pub open spec fn wf(self) -> bool {
        &&& self.columns@.len() == self.schema.fields@.len()
        &&& forall|c: int| 0 <= c < self.columns@.len() ==> self.columns@[c]@.len() == self.num_rows
        &&& forall|c: int, r: int|
            0 <= c < self.columns@.len() && 0 <= r < self.num_rows ==> value_matches_type(
                #[trigger] self.columns@[c]@[r],
                self.schema.fields@[c].data_type,
            )
    }

    /// Assemble a batch, validating the columns against the schema. The
    /// row count is the first column's length (zero when there are no
    /// columns).
    pub fn try_new(schema: Schema, columns: Vec<Vec<Value>>) -> (r: Result<RecordBatch, Error>)
        ensures
            r matches Ok(b) ==> {
                &&& b.wf()
                &&& b.schema == schema
                &&& b.columns == columns
                &&& b.num_rows == (if columns@.len() > 0 {
                    columns@[0]@.len()
                } else {
                    0
                })
            },
            r is Err ==> !(RecordBatch {
                schema,
                columns,
                num_rows: (if columns@.len() > 0 {
                    columns@[0]@.len() as int
                } else {
                    0int
                }) as usize,
            }).wf(),
            r matches Err(e) ==> e.kind == ErrorKind::SchemaMismatch,
    {
        let num_rows: usize = if columns.len() > 0 {
            columns[0].len()
        } else {
            0
        };
        if columns.len() != schema.fields.len() {
            return Err(Error::new(
                ErrorKind::SchemaMismatch,
                "column count does not match the schema's field count",
            ));
        }
        let mut c: usize = 0;
        while c < columns.len()
            invariant
                columns@.len() == schema.fields@.len(),
                num_rows == (if columns@.len() > 0 {
                    columns@[0]@.len() as int
                } else {
                    0int
                }),
                0 <= c <= columns@.len(),
                forall|j: int| 0 <= j < c ==> columns@[j]@.len() == num_rows,
                forall|j: int, r: int|
                    0 <= j < c && 0 <= r < num_rows ==> value_matches_type(
                        #[trigger] columns@[j]@[r],
                        schema.fields@[j].data_type,
                    ),
            decreases columns@.len() - c,
        {
            if columns[c].len() != num_rows {
                return Err(Error::new(
                    ErrorKind::SchemaMismatch,
                    "columns have unequal lengths",
                ));
            }
            let mut r: usize = 0;
            while r < num_rows
                invariant
                    columns@.len() == schema.fields@.len(),
                    0 <= c < columns@.len(),
                    columns@[c as int]@.len() == num_rows,
                    0 <= r <= num_rows,
                    forall|k: int|
                        0 <= k < r ==> value_matches_type(
                            #[trigger] columns@[c as int]@[k],
                            schema.fields@[c as int].data_type,
                        ),
                decreases num_rows - r,
            {
                if !columns[c][r].matches_type(&schema.fields[c].data_type) {
                    return Err(Error::with_column(
                        ErrorKind::SchemaMismatch,
                        "a column value does not inhabit its field's type",
                        schema.fields[c].id,
                    ));
                }
                r += 1;
            }
            c += 1;
        }
        Ok(RecordBatch { schema, columns, num_rows })
    }

    /// Build the sub-batch holding the rows at `idxs`, in that order.
    /// The selection is stable: rows keep the order of `idxs`.
    pub fn take_rows(&self, idxs: &Vec<usize>) -> (r: RecordBatch)
        requires
            self.wf(),
            forall|k: int| 0 <= k < idxs@.len() ==> idxs@[k] < self.num_rows,
        ensures
            r.wf(),
            r.num_rows == idxs@.len(),
            fields_eq(self.schema.fields@, r.schema.fields@),
            r.columns@.len() == self.columns@.len(),
            forall|c: int|
                0 <= c < r.columns@.len() ==> values_eq(
                    #[trigger] r.columns@[c]@,
                    select_values(self.columns@[c]@, idxs@),
                ),
    {
        let new_schema = self.schema.duplicate();
        let mut new_columns: Vec<Vec<Value>> = Vec::new();
        let mut c: usize = 0;
        while c < self.columns.len()
            invariant
                self.wf(),
                forall|k: int| 0 <= k < idxs@.len() ==> idxs@[k] < self.num_rows,
                fields_eq(self.schema.fields@, new_schema.fields@),
                0 <= c <= self.columns@.len(),
                new_columns@.len() == c,
                forall|j: int|
                    0 <= j < c ==> values_eq(
                        #[trigger] new_columns@[j]@,
                        select_values(self.columns@[j]@, idxs@),
                    ),
            decreases self.columns@.len() - c,
        {
            let col = &self.columns[c];
            let mut new_col: Vec<Value> = Vec::new();
            let mut k: usize = 0;
            while k < idxs.len()
                invariant
                    self.wf(),
                    forall|x: int| 0 <= x < idxs@.len() ==> idxs@[x] < self.num_rows,
                    0 <= c < self.columns@.len(),
                    col == self.columns@[c as int],
                    0 <= k <= idxs@.len(),
                    new_col@.len() == k,
                    forall|x: int|
                        0 <= x < k ==> value_eq(
                            col@[idxs@[x] as int],
                            #[trigger] new_col@[x],
                        ),
                decreases idxs@.len() - k,
            {
                let v = col[idxs[k]].duplicate();
                new_col.push(v);
                k += 1;
            }
            proof {
                lemma_values_eq_iff_pointwise(new_col@, select_values(self.columns@[c as int]@, idxs@));
                assert forall|x: int| 0 <= x < new_col@.len() implies value_eq(
                    #[trigger] new_col@[x],
                    select_values(self.columns@[c as int]@, idxs@)[x],
                ) by {
                    crate::types::lemma_value_eq_symmetric(
                        self.columns@[c as int]@[idxs@[x] as int],
                        new_col@[x],
                    );
                }
                assert(values_eq(new_col@, select_values(self.columns@[c as int]@, idxs@)));
            }
            new_columns.push(new_col);
            c += 1;
        }
        let r = RecordBatch { schema: new_schema, columns: new_columns, num_rows: idxs.len() };
        proof {
            lemma_fields_eq_iff_pointwise(self.schema.fields@, r.schema.fields@);
            assert forall|c2: int, row: int|
                0 <= c2 < r.columns@.len() && 0 <= row < r.num_rows implies value_matches_type(
                #[trigger] r.columns@[c2]@[row],
                r.schema.fields@[c2].data_type,
            ) by {
                let orig = self.columns@[c2]@[idxs@[row] as int];
                lemma_values_eq_iff_pointwise(
                    r.columns@[c2]@,
                    select_values(self.columns@[c2]@, idxs@),
                );
                assert(select_values(self.columns@[c2]@, idxs@)[row] == orig);
                assert(value_eq(r.columns@[c2]@[row], orig));
                crate::types::lemma_value_eq_symmetric(r.columns@[c2]@[row], orig);
                assert(value_eq(orig, r.columns@[c2]@[row]));
                assert(value_matches_type(orig, self.schema.fields@[c2].data_type));
                lemma_value_eq_matches_type(orig, r.columns@[c2]@[row], self.schema.fields@[c2].data_type);
                assert(crate::types::field_eq(self.schema.fields@[c2], r.schema.fields@[c2]));
                lemma_data_type_eq_matches_type(
                    r.columns@[c2]@[row],
                    self.schema.fields@[c2].data_type,
                    r.schema.fields@[c2].data_type,
                );
            }
        }
        r
    }
}

} // verus!
