//! Position delete writers: the unsorted primitive fixing the delete-file
//! schema, and the accumulating, sorting layer above it.

use vstd::prelude::*;

use vstd::seq_lib::group_to_multiset_ensures;

use crate::batch::RecordBatch;
use crate::config::TableConfig;
use crate::data_file::{DataContentType, DataFileBuilder, FileCloseInfo};
use crate::error::{Error, ErrorKind};
use crate::rolling_writer::RollingWriter;
use crate::types::{value_matches_type, DataType, Field, PrimitiveType, Schema, Value};

verus! {

/// Strict lexicographic order on character sequences, by code point.
pub open spec fn lex_lt(a: Seq<char>, b: Seq<char>) -> bool
    decreases a.len(),
{
    if b.len() == 0 {
        false
    } else if a.len() == 0 {
        true
    } else if a[0] != b[0] {
        (a[0] as u32) < (b[0] as u32)
    } else {
        lex_lt(a.drop_first(), b.drop_first())
    }
}

/// The order is strict: it is asymmetric and never relates a sequence
/// to itself.
pub proof fn lemma_lex_strict(a: Seq<char>, b: Seq<char>)
    ensures
        !(lex_lt(a, b) && lex_lt(b, a)),
        lex_lt(a, b) ==> a != b,
        lex_lt(b, a) ==> a != b,
    decreases a.len(),
{
    if a.len() > 0 && b.len() > 0 {
        lemma_lex_strict(a.drop_first(), b.drop_first());
        if a == b {
            assert(a.drop_first() =~= b.drop_first());
        }
    }
}

/// Lexicographic order is transitive.
pub proof fn lemma_lex_transitive(a: Seq<char>, b: Seq<char>, c: Seq<char>)
    ensures
        lex_lt(a, b) && lex_lt(b, c) ==> lex_lt(a, c),
    decreases a.len(),
{
    if lex_lt(a, b) && lex_lt(b, c) {
        if a.len() > 0 && b.len() > 0 && c.len() > 0 {
            lemma_lex_transitive(a.drop_first(), b.drop_first(), c.drop_first());
        }
    }
}

/// Compare two string slices lexicographically by code point. Returns a
/// negative, zero or positive number as `a` is below, equal to or above
/// `b`.
pub fn str_compare(a: &str, b: &str) -> (r: i32)
    ensures
        (r < 0) == lex_lt(a@, b@),
        (r == 0) == (a@ == b@),
        (r > 0) == lex_lt(b@, a@),
{
    let a_len = a.unicode_len();
    let b_len = b.unicode_len();
    let limit = if a_len < b_len {
        a_len
    } else {
        b_len
    };
    let mut i: usize = 0;
    proof {
        assert(a@.skip(0) =~= a@);
        assert(b@.skip(0) =~= b@);
    }
    while i < limit
        invariant
            a_len == a@.len(),
            b_len == b@.len(),
            limit == (if a_len < b_len {
                a_len as int
            } else {
                b_len as int
            }),
            0 <= i <= limit,
            forall|j: int| 0 <= j < i ==> a@[j] == b@[j],
            lex_lt(a@, b@) == lex_lt(a@.skip(i as int), b@.skip(i as int)),
            lex_lt(b@, a@) == lex_lt(b@.skip(i as int), a@.skip(i as int)),
            (a@ == b@) == (a@.len() == b@.len() && a@.skip(i as int) == b@.skip(i as int)),
        decreases limit - i,
    {
        let ca = a.get_char(i);
        let cb = b.get_char(i);
        let va = ca as u32;
        let vb = cb as u32;
        proof {
            assert(a@.skip(i as int)[0] == a@[i as int]);
            assert(b@.skip(i as int)[0] == b@[i as int]);
            assert(a@.skip(i as int).drop_first() =~= a@.skip(i as int + 1));
            assert(b@.skip(i as int).drop_first() =~= b@.skip(i as int + 1));
        }
        if va < vb {
            proof {
                assert(ca != cb);
                assert(lex_lt(a@.skip(i as int), b@.skip(i as int)));
                lemma_lex_strict(a@, b@);
            }
            return -1;
        }
        if vb < va {
            proof {
                assert(ca != cb);
                assert(lex_lt(b@.skip(i as int), a@.skip(i as int)));
                lemma_lex_strict(a@, b@);
            }
            return 1;
        }
        proof {
            assert(ca == cb);
            if a@.skip(i as int) == b@.skip(i as int) {
                assert(a@.skip(i as int + 1) =~= b@.skip(i as int + 1));
            }
            if a@.skip(i as int + 1) == b@.skip(i as int + 1) {
                assert forall|k: int| 0 <= k < a@.skip(i as int).len() implies a@.skip(
                    i as int,
                )[k] == b@.skip(i as int)[k] by {
                    if k > 0 {
                        assert(a@.skip(i as int + 1)[k - 1] == b@.skip(i as int + 1)[k - 1]);
                        assert(a@.skip(i as int)[k] == a@[i as int + k]);
                        assert(b@.skip(i as int)[k] == b@[i as int + k]);
                        assert(a@.skip(i as int + 1)[k - 1] == a@[i as int + k]);
                        assert(b@.skip(i as int + 1)[k - 1] == b@[i as int + k]);
                    }
                }
                assert(a@.skip(i as int) =~= b@.skip(i as int));
            }
        }
        i += 1;
    }
    proof {
        if a@.len() == b@.len() {
            assert(a@.skip(i as int) =~= b@.skip(i as int));
            assert(a@ =~= b@);
        } else if a@.len() < b@.len() {
            assert(a@.skip(i as int).len() == 0);
            assert(lex_lt(a@.skip(i as int), b@.skip(i as int)));
            lemma_lex_strict(a@, b@);
        } else {
            assert(b@.skip(i as int).len() == 0);
            assert(lex_lt(b@.skip(i as int), a@.skip(i as int)));
            lemma_lex_strict(a@, b@);
        }
    }
    if a_len == b_len {
        0
    } else if a_len < b_len {
        -1
    } else {
        1
    }
}

/// Whether a position sequence is sorted in ascending order, duplicates
/// allowed.
pub open spec fn sorted_ascending(s: Seq<i64>) -> bool {
    forall|i: int, j: int| 0 <= i < j < s.len() ==> s[i] <= s[j]
}

/// Sort positions ascending, preserving duplicates.
pub fn sort_positions(v: Vec<i64>) -> (r: Vec<i64>)
    ensures
        sorted_ascending(r@),
        r@.to_multiset() == v@.to_multiset(),
{
    broadcast use group_to_multiset_ensures;

    let mut out: Vec<i64> = Vec::new();
    let mut i: usize = 0;
    while i < v.len()
        invariant
            0 <= i <= v@.len(),
            sorted_ascending(out@),
            out@.to_multiset() == v@.subrange(0, i as int).to_multiset(),
        decreases v@.len() - i,
    {
        let x = v[i];
        let mut j: usize = 0;
        while j < out.len() && out[j] <= x
            invariant
                0 <= j <= out@.len(),
                forall|k: int| 0 <= k < j ==> out@[k] <= x,
            decreases out@.len() - j,
        {
            j += 1;
        }
        let ghost before = out@;
        out.insert(j, x);
        proof {
            assert(out@ =~= before.insert(j as int, x));
            vstd::seq_lib::to_multiset_insert(before, j as int, x);
            assert(out@.to_multiset() =~= before.to_multiset().insert(x));
            vstd::seq_lib::to_multiset_build(v@.subrange(0, i as int), x);
            assert(v@.subrange(0, i as int).push(x).to_multiset() =~= v@.subrange(
                0,
                i as int,
            ).to_multiset().insert(x));
            assert(v@.subrange(0, i as int + 1) =~= v@.subrange(0, i as int).push(x));
            assert(out@.to_multiset() =~= v@.subrange(0, i as int + 1).to_multiset());
            assert forall|p: int, q: int| 0 <= p < q < out@.len() implies out@[p] <= out@[q] by {
                if p < j && q == j {
                } else if p == j && q > j {
                    assert(out@[q] == before[q - 1]);
                    assert(before[j as int] > x);
                } else if p < j && q > j {
                    assert(out@[q] == before[q - 1]);
                } else if p > j && q > j {
                    assert(out@[p] == before[p - 1]);
                    assert(out@[q] == before[q - 1]);
                }
            }
        }
        i += 1;
    }
    proof {
        assert(v@.subrange(0, v@.len() as int) =~= v@);
        assert(out@.to_multiset() =~= v@.to_multiset());
    }
    out
}

/// The total number of positions over a list of position groups.
pub open spec fn sum_positions(s: Seq<Seq<i64>>) -> int
    decreases s.len(),
{
    if s.len() == 0 {
        0
    } else {
        sum_positions(s.drop_last()) + s.last().len()
    }
}

/// Updating one group changes the total by the difference of lengths.
proof fn lemma_sum_positions_update(s: Seq<Seq<i64>>, i: int, v: Seq<i64>)
    requires
        0 <= i < s.len(),
    ensures
        sum_positions(s.update(i, v)) == sum_positions(s) - s[i].len() + v.len(),
    decreases s.len(),
{
    let t = s.update(i, v);
    if i == s.len() - 1 {
        assert(t.drop_last() =~= s.drop_last());
        assert(t.last() == v);
    } else {
        assert(t.drop_last() =~= s.drop_last().update(i, v));
        assert(t.last() == s.last());
        lemma_sum_positions_update(s.drop_last(), i, v);
    }
}

/// Inserting one group adds its length to the total.
proof fn lemma_sum_positions_insert(s: Seq<Seq<i64>>, i: int, v: Seq<i64>)
    requires
        0 <= i <= s.len(),
    ensures
        sum_positions(s.insert(i, v)) == sum_positions(s) + v.len(),
    decreases s.len(),
{
    let t = s.insert(i, v);
    if i == s.len() {
        assert(t.drop_last() =~= s);
        assert(t.last() == v);
    } else {
        assert(t.drop_last() =~= s.drop_last().insert(i, v));
        assert(t.last() == s.last());
        lemma_sum_positions_insert(s.drop_last(), i, v);
    }
}

/// The delete cache: a key-ordered mapping from referenced file path to
/// the, as yet unsorted, positions deleted from that file.
#[derive(Debug)]
pub struct DeleteCache {
    entries: Vec<(String, Vec<i64>)>,
}

impl DeleteCache {
    /// The cached file paths, in storage order.
    pub closed spec fn keys(self) -> Seq<Seq<char>> {
        Seq::new(self.entries@.len(), |i: int| self.entries@[i].0@)
    }

    /// The cached position groups, parallel to `keys`.
    pub closed spec fn positions(self) -> Seq<Seq<i64>> {
        Seq::new(self.entries@.len(), |i: int| self.entries@[i].1@)
    }

    /// The total number of cached positions.
    pub open spec fn total(self) -> int {
        sum_positions(self.positions())
    }

    /// Keys are held in strictly ascending lexicographic order, so each
    /// path appears at most once.
    pub open spec fn wf(self) -> bool {
        forall|i: int, j: int|
            #![trigger self.keys()[i], self.keys()[j]]
            0 <= i < j < self.keys().len() ==> lex_lt(self.keys()[i], self.keys()[j])
    }

    /// An empty cache.
    pub fn new() -> (r: DeleteCache)
        ensures
            r.wf(),
            r.keys().len() == 0,
            r.total() == 0,
    {
        let r = DeleteCache { entries: Vec::new() };
        proof {
            assert(r.positions() =~= Seq::<Seq<i64>>::empty());
        }
        r
    }

    /// Append one deleted position to its path's group, creating the
    /// group at its ordered place when the path is new. Returns the
    /// group's index.
    pub fn insert(&mut self, path: String, pos: i64) -> (idx: usize)
        requires
            old(self).wf(),
        ensures
            final(self).wf(),
            idx < final(self).keys().len(),
            idx as int <= old(self).keys().len(),
            final(self).keys()[idx as int] == path@,
            final(self).total() == old(self).total() + 1,
            (exists|i: int|
                0 <= i < old(self).keys().len() && #[trigger] old(self).keys()[i] == path@) ==> {
                &&& final(self).keys() == old(self).keys()
                &&& old(self).keys()[idx as int] == path@
                &&& final(self).positions() == old(self).positions().update(
                    idx as int,
                    old(self).positions()[idx as int].push(pos),
                )
            },
            !(exists|i: int|
                0 <= i < old(self).keys().len() && #[trigger] old(self).keys()[i] == path@) ==> {
                &&& final(self).keys() == old(self).keys().insert(idx as int, path@)
                &&& final(self).positions() == old(self).positions().insert(
                    idx as int,
                    seq![pos],
                )
            },
    {
        let ghost old_keys = self.keys();
        let ghost old_positions = self.positions();
        let mut i: usize = 0;
        while i < self.entries.len()
            invariant
                self.wf(),
                old_keys == old(self).keys(),
                old_positions == old(self).positions(),
                old_keys == self.keys(),
                old_positions == self.positions(),
                0 <= i <= self.entries@.len(),
                forall|j: int| 0 <= j < i ==> lex_lt(#[trigger] self.keys()[j], path@),
            decreases self.entries@.len() - i,
        {
            let c = str_compare(path.as_str(), self.entries[i].0.as_str());
            if c == 0 {
                let mut pair = self.entries.remove(i);
                pair.1.push(pos);
                self.entries.insert(i, pair);
                proof {
                    assert(self.keys() =~= old_keys);
                    assert(self.positions() =~~= old_positions.update(
                        i as int,
                        old_positions[i as int].push(pos),
                    ));
                    lemma_sum_positions_update(
                        old_positions,
                        i as int,
                        old_positions[i as int].push(pos),
                    );
                    assert(old_keys[i as int] == path@);
                }
                return i;
            }
            if c < 0 {
                let entry = (path, vec![pos]);
                self.entries.insert(i, entry);
                proof {
                    assert(self.keys() =~= old_keys.insert(i as int, path@));
                    assert(self.positions() =~~= old_positions.insert(i as int, seq![pos]));
                    lemma_sum_positions_insert(old_positions, i as int, seq![pos]);
                    assert(lex_lt(path@, old_keys[i as int]));
                    assert forall|x: int, y: int|
                        #![trigger self.keys()[x], self.keys()[y]]
                        0 <= x < y < self.keys().len() implies lex_lt(
                        self.keys()[x],
                        self.keys()[y],
                    ) by {
                        if x < i && y == i {
                        } else if x == i && y > i {
                            assert(self.keys()[y] == old_keys[y - 1]);
                            if y - 1 > i {
                                lemma_lex_transitive(path@, old_keys[i as int], old_keys[y - 1]);
                            }
                        } else if x < i && y > i {
                            assert(self.keys()[y] == old_keys[y - 1]);
                        } else if x > i && y > i {
                            assert(self.keys()[x] == old_keys[x - 1]);
                            assert(self.keys()[y] == old_keys[y - 1]);
                        }
                    }
                    assert forall|j: int|
                        0 <= j < old_keys.len() implies #[trigger] old_keys[j] != path@ by {
                        if j < i {
                            lemma_lex_strict(old_keys[j], path@);
                        } else if j == i {
                            lemma_lex_strict(path@, old_keys[j]);
                        } else {
                            lemma_lex_transitive(path@, old_keys[i as int], old_keys[j]);
                            lemma_lex_strict(path@, old_keys[j]);
                        }
                    }
                }
                return i;
            }
            i += 1;
        }
        let n = self.entries.len();
        let entry = (path, vec![pos]);
        self.entries.insert(n, entry);
        proof {
            assert(self.keys() =~= old_keys.insert(n as int, path@));
            assert(self.positions() =~~= old_positions.insert(n as int, seq![pos]));
            lemma_sum_positions_insert(old_positions, n as int, seq![pos]);
            assert forall|x: int, y: int|
                #![trigger self.keys()[x], self.keys()[y]]
                0 <= x < y < self.keys().len() implies lex_lt(self.keys()[x], self.keys()[y]) by {
                if y == n {
                    assert(self.keys()[x] == old_keys[x]);
                }
            }
            assert forall|j: int| 0 <= j < old_keys.len() implies #[trigger] old_keys[j]
                != path@ by {
                lemma_lex_strict(old_keys[j], path@);
            }
        }
        n
    }

    /// Take the cached groups, in key order, leaving the cache empty.
    pub fn take(&mut self) -> (r: Vec<(String, Vec<i64>)>)
        ensures
            final(self).wf(),
            final(self).keys().len() == 0,
            final(self).total() == 0,
            r@.len() == old(self).keys().len(),
            forall|g: int| 0 <= g < r@.len() ==> (#[trigger] r@[g]).0@ == old(self).keys()[g],
            forall|g: int| 0 <= g < r@.len() ==> (#[trigger] r@[g]).1@ == old(self).positions()[g],
    {
        let mut r: Vec<(String, Vec<i64>)> = Vec::new();
        core::mem::swap(&mut r, &mut self.entries);
        proof {
            assert(self.positions() =~= Seq::<Seq<i64>>::empty());
        }
        r
    }
}

/// The fixed delete-file schema: a required string `file_path` column, a
/// required 64-bit `pos` column, and, when row-level metadata is
/// requested, a required nested `row` column of the given struct type.
pub open spec fn delete_schema_ok(fields: Seq<Field>, row_type: Option<Vec<Field>>) -> bool {
    &&& fields.len() == (if row_type is Some {
        3int
    } else {
        2int
    })
    &&& fields[0].id == 2147483546
    &&& fields[0].name@ == "file_path"@
    &&& fields[0].required
    &&& fields[0].data_type == DataType::Primitive(PrimitiveType::Str)
    &&& fields[1].id == 2147483545
    &&& fields[1].name@ == "pos"@
    &&& fields[1].required
    &&& fields[1].data_type == DataType::Primitive(PrimitiveType::Long)
    &&& (row_type matches Some(rt) ==> {
        &&& fields[2].id == 2147483544
        &&& fields[2].name@ == "row"@
        &&& fields[2].required
        &&& fields[2].data_type == DataType::Struct(rt)
    })
}

/// The unsorted position delete primitive: fixes the delete-file schema
/// and delegates physically to a rolling writer. It neither sorts nor
/// checks the order of the positions handed to it; producing file-path-
/// and position-sorted delete files is entirely the caller's obligation.
#[derive(Debug)]
pub struct PositionDeleteWriter {
    /// The rolling writer this delegate writes through.
    pub inner_writer: RollingWriter,
    /// The table's base location, attached to every descriptor at close.
    pub table_location: String,
    /// The fixed delete-file schema.
    pub schema: Schema,
}

impl PositionDeleteWriter {
    /// The inner writer is coherent and carries the delete-file schema,
    /// whose first two columns are the required string `file_path` and
    /// the required 64-bit `pos`.
    pub open spec fn wf(self) -> bool {
        &&& self.inner_writer.wf()
        &&& crate::types::fields_eq(self.schema.fields@, self.inner_writer.schema.fields@)
        &&& self.schema.fields@.len() >= 2
        &&& self.schema.fields@[0].data_type == DataType::Primitive(PrimitiveType::Str)
        &&& self.schema.fields@[1].data_type == DataType::Primitive(PrimitiveType::Long)
    }

    /// Open a position delete writer over the first physical file, which
    /// the caller has already opened. Fails exactly when the
    /// configuration's thresholds are not all positive.
    pub fn try_new(
        table_location: String,
        row_type: Option<Vec<Field>>,
        config: TableConfig,
        first_file_location: String,
    ) -> (r: Result<PositionDeleteWriter, Error>)
        ensures
            r is Ok <==> config.wf(),
            r matches Ok(w) ==> {
                &&& w.wf()
                &&& delete_schema_ok(w.schema.fields@, row_type)
                &&& w.table_location == table_location
                &&& !w.inner_writer.closed
                &&& w.inner_writer.total_rows == 0
                &&& w.inner_writer.rolled == 0
                &&& w.inner_writer.results@.len() == 0
                &&& w.inner_writer.current_location == first_file_location
                &&& w.inner_writer.config == config
            },
            r matches Err(e) ==> e.kind == crate::error::ErrorKind::InvalidConfig,
    {
        let mut fields: Vec<Field> = Vec::new();
        fields.push(Field {
            id: 2147483546,
            name: String::from_str("file_path"),
            required: true,
            data_type: DataType::Primitive(PrimitiveType::Str),
        });
        fields.push(Field {
            id: 2147483545,
            name: String::from_str("pos"),
            required: true,
            data_type: DataType::Primitive(PrimitiveType::Long),
        });
        match row_type {
            Option::Some(rt) => {
                fields.push(Field {
                    id: 2147483544,
                    name: String::from_str("row"),
                    required: true,
                    data_type: DataType::Struct(rt),
                });
            },
            Option::None => {},
        }
        let schema = Schema { fields };
        let inner_schema = schema.duplicate();
        let inner = RollingWriter::try_new(
            table_location.clone(),
            inner_schema,
            config,
            first_file_location,
        );
        match inner {
            Ok(w) => Ok(PositionDeleteWriter { inner_writer: w, table_location, schema }),
            Err(e) => Err(e),
        }
    }

    /// Assemble the record batch for one referenced file's deletions:
    /// the `file_path` column repeats the path once per position and the
    /// `pos` column holds the positions verbatim, in the order given.
    /// The positions are not sorted or checked here; callers must
    /// pre-sort them. The caller hands the batch to the physical writer
    /// and then records the write on the inner rolling writer.
    pub fn write_by_vec(
        &self,
        file_path: String,
        pos_vec: Vec<i64>,
        row_column: Option<Vec<Value>>,
    ) -> (r: Result<RecordBatch, Error>)
        requires
            self.wf(),
        ensures
            r is Ok <==> ({
                &&& (if row_column is Some {
                    3int
                } else {
                    2int
                }) == self.schema.fields@.len()
                &&& (row_column matches Some(rc) ==> rc@.len() == pos_vec@.len() && forall|k: int|
                    0 <= k < rc@.len() ==> value_matches_type(
                        #[trigger] rc@[k],
                        self.schema.fields@[2].data_type,
                    ))
            }),
            r matches Ok(b) ==> {
                &&& b.wf()
                &&& b.num_rows == pos_vec@.len()
                &&& crate::types::fields_eq(self.schema.fields@, b.schema.fields@)
                &&& forall|k: int|
                    0 <= k < pos_vec@.len() ==> #[trigger] b.columns@[0]@[k] == Value::Str(
                        file_path,
                    )
                &&& forall|k: int|
                    0 <= k < pos_vec@.len() ==> #[trigger] b.columns@[1]@[k] == Value::Long(
                        pos_vec@[k],
                    )
                &&& (row_column matches Some(rc) ==> b.columns@.len() == 3 && b.columns@[2] == rc)
                &&& (row_column is None ==> b.columns@.len() == 2)
            },
            r matches Err(e) ==> e.kind == crate::error::ErrorKind::SchemaMismatch,
    {
        let n = pos_vec.len();
        let mut path_col: Vec<Value> = Vec::new();
        let mut k: usize = 0;
        while k < n
            invariant
                0 <= k <= n,
                path_col@.len() == k,
                forall|x: int| 0 <= x < k ==> #[trigger] path_col@[x] == Value::Str(file_path),
            decreases n - k,
        {
            path_col.push(Value::Str(file_path.clone()));
            k += 1;
        }
        let mut pos_col: Vec<Value> = Vec::new();
        let mut j: usize = 0;
        while j < n
            invariant
                n == pos_vec@.len(),
                0 <= j <= n,
                pos_col@.len() == j,
                forall|x: int| 0 <= x < j ==> #[trigger] pos_col@[x] == Value::Long(pos_vec@[x]),
            decreases n - j,
        {
            pos_col.push(Value::Long(pos_vec[j]));
            j += 1;
        }
        let mut columns: Vec<Vec<Value>> = Vec::new();
        columns.push(path_col);
        columns.push(pos_col);
        match row_column {
            Option::Some(rc) => {
                columns.push(rc);
            },
            Option::None => {},
        }
        let ghost cols_snap = columns@;
        let ghost colsv = columns;
        let ghost rc_snap = row_column;
        let batch_schema = self.schema.duplicate();
        let ghost bsf = batch_schema.fields@;
        let ghost schema_snap = batch_schema;
        let r = RecordBatch::try_new(batch_schema, columns);
        proof {
            crate::types::lemma_fields_eq_iff_pointwise(self.schema.fields@, bsf);
            assert(crate::types::field_eq(self.schema.fields@[0], bsf[0]));
            assert(crate::types::field_eq(self.schema.fields@[1], bsf[1]));
            assert(crate::types::data_type_eq(self.schema.fields@[0].data_type, bsf[0].data_type));
            assert(crate::types::data_type_eq(self.schema.fields@[1].data_type, bsf[1].data_type));
            assert(bsf[0].data_type is Primitive && bsf[0].data_type->Primitive_0 is Str);
            assert(bsf[1].data_type is Primitive && bsf[1].data_type->Primitive_0 is Long);
            match &r {
                Ok(b) => {
                    // A successful assembly certifies the schema fit.
                    assert(cols_snap.len() == bsf.len());
                    match rc_snap {
                        Option::Some(rc) => {
                            assert(b.columns@ == cols_snap);
                            assert(cols_snap[2] == rc);
                            assert(b.columns@[2]@.len() == b.num_rows);
                            assert(rc@.len() == b.num_rows);
                            assert forall|k: int| 0 <= k < rc@.len() implies value_matches_type(
                                #[trigger] rc@[k],
                                self.schema.fields@[2].data_type,
                            ) by {
                                assert(value_matches_type(
                                    b.columns@[2]@[k],
                                    bsf[2].data_type,
                                ));
                                assert(crate::types::field_eq(self.schema.fields@[2], bsf[2]));
                                crate::types::lemma_data_type_eq_matches_type(
                                    rc@[k],
                                    self.schema.fields@[2].data_type,
                                    bsf[2].data_type,
                                );
                            }
                        },
                        Option::None => {},
                    }
                },
                Err(_) => {
                    // A fitting request cannot fail: it would assemble a
                    // well-formed batch, which the constructor accepts.
                    let fit = {
                        &&& cols_snap.len() == self.schema.fields@.len()
                        &&& (rc_snap matches Some(rc) ==> rc@.len() == pos_vec@.len()
                            && forall|k: int|
                            0 <= k < rc@.len() ==> value_matches_type(
                                #[trigger] rc@[k],
                                self.schema.fields@[2].data_type,
                            ))
                    };
                    if fit {
                        let cand = RecordBatch { schema: schema_snap, columns: colsv, num_rows: n };
                        assert(cand.columns@ == cols_snap);
                        assert(cand.schema.fields@ == bsf);
                        assert forall|c: int, row: int|
                            0 <= c < cand.columns@.len() && 0 <= row < cand.num_rows implies
                            value_matches_type(
                            #[trigger] cand.columns@[c]@[row],
                            cand.schema.fields@[c].data_type,
                        ) by {
                            if c == 0 {
                                assert(cols_snap[0]@[row] == Value::Str(file_path));
                            } else if c == 1 {
                                assert(cols_snap[1]@[row] == Value::Long(pos_vec@[row]));
                            } else {
                                let rc = rc_snap->0;
                                assert(cols_snap[2] == rc);
                                assert(value_matches_type(
                                    rc@[row],
                                    self.schema.fields@[2].data_type,
                                ));
                                assert(crate::types::field_eq(self.schema.fields@[2], bsf[2]));
                                crate::types::lemma_data_type_eq_matches_type(
                                    rc@[row],
                                    self.schema.fields@[2].data_type,
                                    bsf[2].data_type,
                                );
                            }
                        }
                        assert(cand.wf());
                        assert(false);
                    }
                },
            }
        }
        match r {
            Ok(b) => Ok(b),
            Err(e) => Err(e),
        }
    }

    /// Record a write on the inner rolling writer; see
    /// [`RollingWriter::record_write`].
    pub fn record_write(&mut self, num_rows: u64, written_size: u64) -> (r: Result<bool, Error>)
        requires
            old(self).wf(),
            old(self).inner_writer.total_rows + num_rows <= u64::MAX,
            old(self).inner_writer.current_row_num + num_rows <= u64::MAX,
        ensures
            final(self).table_location == old(self).table_location,
            final(self).schema == old(self).schema,
            old(self).inner_writer.closed ==> r is Err && *final(self) == *old(self),
            !old(self).inner_writer.closed ==> {
                &&& r is Ok
                &&& final(self).wf()
                &&& final(self).inner_writer.total_rows == old(self).inner_writer.total_rows
                    + num_rows
                &&& final(self).inner_writer.results == old(self).inner_writer.results
                &&& final(self).inner_writer.rolled == old(self).inner_writer.rolled
                &&& !final(self).inner_writer.closed
                &&& (r matches Ok(roll) ==> roll == final(self).inner_writer.should_split_spec(
                    written_size,
                ))
            },
    {
        self.inner_writer.record_write(num_rows, written_size)
    }

    /// Roll the inner rolling writer to a new physical file; see
    /// [`RollingWriter::roll_file`].
    pub fn roll_file(&mut self, info: FileCloseInfo, new_location: String) -> (r: Result<
        Option<String>,
        Error,
    >)
        requires
            old(self).wf(),
            info.num_rows == old(self).inner_writer.current_row_num,
            old(self).inner_writer.rolled + 1 <= u64::MAX,
        ensures
            final(self).table_location == old(self).table_location,
            final(self).schema == old(self).schema,
            old(self).inner_writer.closed ==> r is Err && *final(self) == *old(self),
            !old(self).inner_writer.closed ==> {
                &&& r is Ok
                &&& final(self).wf()
                &&& !final(self).inner_writer.closed
                &&& final(self).inner_writer.total_rows == old(self).inner_writer.total_rows
                &&& (info.num_rows == 0 ==> final(self).inner_writer.results == old(
                    self,
                ).inner_writer.results && (r matches Ok(del) ==> del matches Some(loc) && loc
                    == old(self).inner_writer.current_location))
                &&& (info.num_rows > 0 ==> final(self).inner_writer.results@.len() == old(
                    self,
                ).inner_writer.results@.len() + 1 && (r matches Ok(del) ==> del is None))
            },
    {
        self.inner_writer.roll_file(info, new_location)
    }

    /// Close the inner writer and return every descriptor, each tagged
    /// as position deletes and carrying the table location. When the
    /// last physical file is empty, its location is returned for
    /// deletion. A second close fails.
    pub fn close(&mut self, info: FileCloseInfo) -> (r: Result<
        (Vec<DataFileBuilder>, Option<String>),
        Error,
    >)
        requires
            old(self).wf(),
            info.num_rows == old(self).inner_writer.current_row_num,
        ensures
            old(self).inner_writer.closed ==> r is Err,
            !old(self).inner_writer.closed ==> {
                &&& r is Ok
                &&& (r matches Ok((files, del)) ==> {
                    &&& crate::data_file::sum_result_rows(files@) == old(
                        self,
                    ).inner_writer.total_rows
                    &&& forall|i: int|
                        0 <= i < files@.len() ==> (#[trigger] files@[i]).num_rows > 0
                    &&& forall|i: int|
                        0 <= i < files@.len() ==> (#[trigger] files@[i]).content == Some(
                            DataContentType::PositionDeletes,
                        )
                    &&& forall|i: int|
                        0 <= i < files@.len() ==> (#[trigger] files@[i]).table_location
                            == old(self).table_location
                    &&& (old(self).inner_writer.rolled == 0 && old(self).inner_writer.total_rows
                        > 0 ==> files@.len() == 1)
                    &&& (info.num_rows == 0 ==> (del matches Some(loc) && loc == old(
                        self,
                    ).inner_writer.current_location))
                    &&& (info.num_rows > 0 ==> del is None)
                })
            },
            r matches Err(e) ==> e.kind == crate::error::ErrorKind::IllegalState,
    {
        let (files, del) = match self.inner_writer.close(info) {
            Ok(p) => p,
            Err(e) => {
                return Err(e);
            },
        };
        let ghost files_snap = files@;
        let mut tagged: Vec<DataFileBuilder> = Vec::new();
        let mut remaining = files;
        proof {
            assert(files_snap.skip(0) =~= files_snap);
        }
        // Tag the descriptors in order, draining the inner writer's list.
        while remaining.len() > 0
            invariant
                files_snap.len() == tagged@.len() + remaining@.len(),
                forall|k: int|
                    0 <= k < remaining@.len() ==> #[trigger] remaining@[k] == files_snap[tagged@.len()
                        + k],
                forall|k: int|
                    0 <= k < tagged@.len() ==> (#[trigger] tagged@[k]).num_rows
                        == files_snap[k].num_rows,
                forall|k: int|
                    0 <= k < tagged@.len() ==> (#[trigger] tagged@[k]).content == Some(
                        DataContentType::PositionDeletes,
                    ),
                forall|k: int|
                    0 <= k < tagged@.len() ==> (#[trigger] tagged@[k]).table_location
                        == old(self).table_location,
                crate::data_file::sum_result_rows(tagged@) + crate::data_file::sum_result_rows(
                    files_snap.skip(tagged@.len() as int),
                ) == crate::data_file::sum_result_rows(files_snap),
                self.table_location == old(self).table_location,
            decreases remaining@.len(),
        {
            let b = remaining.remove(0);
            let tagged_b = b.with_content(DataContentType::PositionDeletes).with_table_location(
                self.table_location.clone(),
            );
            let ghost t_before = tagged@;
            let ghost r_before = remaining@;
            tagged.push(tagged_b);
            proof {
                assert(tagged@.drop_last() =~= t_before);
                lemma_sum_skip_step(files_snap, t_before.len() as int);
            }
        }
        proof {
            assert(files_snap.skip(tagged@.len() as int) =~= Seq::<DataFileBuilder>::empty());
            assert forall|k: int| 0 <= k < tagged@.len() implies (#[trigger] tagged@[k]).num_rows
                > 0 by {
                assert(files_snap[k].num_rows > 0);
            }
            lemma_sum_pointwise(tagged@, files_snap);
        }
        Ok((tagged, del))
    }
}

/// Splitting one descriptor off the front of the remaining total.
proof fn lemma_sum_skip_step(s: Seq<DataFileBuilder>, i: int)
    requires
        0 <= i < s.len(),
    ensures
        crate::data_file::sum_result_rows(s.skip(i)) == s[i].num_rows
            + crate::data_file::sum_result_rows(s.skip(i + 1)),
    decreases s.len() - i,
{
    lemma_sum_first(s.skip(i));
    assert(s.skip(i).drop_first() =~= s.skip(i + 1));
    assert(s.skip(i)[0] == s[i]);
}

/// The total splits off the first descriptor.
proof fn lemma_sum_first(s: Seq<DataFileBuilder>)
    requires
        s.len() > 0,
    ensures
        crate::data_file::sum_result_rows(s) == s[0].num_rows + crate::data_file::sum_result_rows(
            s.drop_first(),
        ),
    decreases s.len(),
{
    if s.len() == 1 {
        assert(s.drop_first() =~= Seq::<DataFileBuilder>::empty());
        assert(s.drop_last() =~= Seq::<DataFileBuilder>::empty());
    } else {
        lemma_sum_first(s.drop_last());
        assert(s.drop_last()[0] == s[0]);
        assert(s.drop_first().drop_last() =~= s.drop_last().drop_first());
        assert(s.drop_first().last() == s.last());
    }
}

/// Descriptor lists that agree pointwise on row counts have equal totals.
proof fn lemma_sum_pointwise(a: Seq<DataFileBuilder>, b: Seq<DataFileBuilder>)
    requires
        a.len() == b.len(),
        forall|k: int| 0 <= k < a.len() ==> (#[trigger] a[k]).num_rows == b[k].num_rows,
    ensures
        crate::data_file::sum_result_rows(a) == crate::data_file::sum_result_rows(b),
    decreases a.len(),
{
    if a.len() > 0 {
        lemma_sum_pointwise(a.drop_last(), b.drop_last());
    }
}

/// The accumulating position delete writer: `delete` gathers deletions
/// in a path-keyed, key-ordered cache; when the running count reaches
/// the configured flush threshold the caller must flush, taking the
/// sorted groups with [`SortedPositionDeleteWriter::take_sorted_groups`],
/// writing them through a [`PositionDeleteWriter`] of its own, and
/// handing the resulting descriptors back with
/// [`SortedPositionDeleteWriter::extend_results`].
#[derive(Debug)]
pub struct SortedPositionDeleteWriter {
    /// The table's base location.
    pub table_location: String,
    /// The shared table configuration; `max_record_num` is the flush
    /// threshold.
    pub config: TableConfig,
    /// The in-memory deletion groups, keyed by referenced file path.
    pub delete_cache: DeleteCache,
    /// Deletions accumulated since the last flush.
    pub record_num: u64,
    /// Descriptors of every delete file written so far.
    pub results: Vec<DataFileBuilder>,
}

impl SortedPositionDeleteWriter {
    /// The configuration is valid, the cache's keys are ordered, and the
    /// running count equals the number of cached positions.
    pub open spec fn wf(self) -> bool {
        &&& self.config.wf()
        &&& self.delete_cache.wf()
        &&& self.record_num as int == self.delete_cache.total()
    }

    /// A fresh writer with an empty cache.
    pub fn new(table_location: String, config: TableConfig) -> (r: SortedPositionDeleteWriter)
        ensures
            config.wf() ==> r.wf(),
            r.table_location == table_location,
            r.config == config,
            r.record_num == 0,
            r.delete_cache.keys().len() == 0,
            r.results@.len() == 0,
    {
        SortedPositionDeleteWriter {
            table_location,
            config,
            delete_cache: DeleteCache::new(),
            record_num: 0,
            results: Vec::new(),
        }
    }

    /// Record the deletion of row `pos` of the file at `file_path`.
    /// Returns whether the flush threshold has been reached, in which
    /// case the caller must flush before recording further deletions.
    pub fn delete(&mut self, file_path: String, pos: i64) -> (needs_flush: bool)
        requires
            old(self).wf(),
            old(self).record_num + 1 <= u64::MAX,
        ensures
            final(self).wf(),
            final(self).record_num == old(self).record_num + 1,
            needs_flush == (final(self).record_num >= final(self).config.max_record_num),
            final(self).table_location == old(self).table_location,
            final(self).config == old(self).config,
            final(self).results == old(self).results,
            final(self).delete_cache.total() == old(self).delete_cache.total() + 1,
            (exists|i: int|
                0 <= i < old(self).delete_cache.keys().len()
                    && #[trigger] old(self).delete_cache.keys()[i] == file_path@) ==> {
                &&& final(self).delete_cache.keys() == old(self).delete_cache.keys()
                &&& exists|i: int|
                    {
                        &&& 0 <= i < old(self).delete_cache.keys().len()
                        &&& #[trigger] old(self).delete_cache.keys()[i] == file_path@
                        &&& final(self).delete_cache.positions() == old(
                            self,
                        ).delete_cache.positions().update(
                            i,
                            old(self).delete_cache.positions()[i].push(pos),
                        )
                    }
            },
            !(exists|i: int|
                0 <= i < old(self).delete_cache.keys().len()
                    && #[trigger] old(self).delete_cache.keys()[i] == file_path@) ==> exists|j: int|
                {
                    &&& 0 <= j <= old(self).delete_cache.keys().len()
                    &&& final(self).delete_cache.keys() == old(self).delete_cache.keys().insert(
                        j,
                        file_path@,
                    )
                    &&& final(self).delete_cache.positions() == old(
                        self,
                    ).delete_cache.positions().insert(j, seq![pos])
                },
    {
        let idx = self.delete_cache.insert(file_path, pos);
        self.record_num = self.record_num + 1;
        proof {
            let ks = old(self).delete_cache.keys();
            if !(exists|i: int| 0 <= i < ks.len() && #[trigger] ks[i] == file_path@) {
                assert(self.delete_cache.keys() == ks.insert(idx as int, file_path@));
                assert(self.delete_cache.positions() == old(
                    self,
                ).delete_cache.positions().insert(idx as int, seq![pos]));
                assert(0 <= idx as int <= ks.len());
            }
        }
        self.record_num >= self.config.max_record_num
    }

    /// Whether unflushed deletions remain; `close` demands a final flush
    /// first when they do.
    pub fn needs_final_flush(&self) -> (r: bool)
        ensures
            r == (self.record_num > 0),
    {
        self.record_num > 0
    }

    /// Take the accumulated groups for a flush: the cache is emptied and
    /// the running count reset, and the groups come out in ascending key
    /// order, each group's positions sorted ascending with duplicates
    /// preserved.
    pub fn take_sorted_groups(&mut self) -> (groups: Vec<(String, Vec<i64>)>)
        requires
            old(self).wf(),
        ensures
            final(self).wf(),
            final(self).record_num == 0,
            final(self).delete_cache.keys().len() == 0,
            final(self).table_location == old(self).table_location,
            final(self).config == old(self).config,
            final(self).results == old(self).results,
            groups@.len() == old(self).delete_cache.keys().len(),
            forall|g: int|
                0 <= g < groups@.len() ==> (#[trigger] groups@[g]).0@ == old(
                    self,
                ).delete_cache.keys()[g],
            forall|g: int|
                0 <= g < groups@.len() ==> sorted_ascending((#[trigger] groups@[g]).1@),
            forall|g: int|
                0 <= g < groups@.len() ==> (#[trigger] groups@[g]).1@.to_multiset() == old(
                    self,
                ).delete_cache.positions()[g].to_multiset(),
            forall|g1: int, g2: int|
                #![trigger groups@[g1].0, groups@[g2].0]
                0 <= g1 < g2 < groups@.len() ==> lex_lt(groups@[g1].0@, groups@[g2].0@),
    {
        let raw = self.delete_cache.take();
        self.record_num = 0;
        let ghost old_keys = old(self).delete_cache.keys();
        let ghost old_positions = old(self).delete_cache.positions();
        let mut groups: Vec<(String, Vec<i64>)> = Vec::new();
        let mut remaining = raw;
        proof {
            assert(old(self).delete_cache.wf());
        }
        while remaining.len() > 0
            invariant
                old_keys.len() == groups@.len() + remaining@.len(),
                old_keys == old(self).delete_cache.keys(),
                old_positions == old(self).delete_cache.positions(),
                old(self).delete_cache.wf(),
                forall|k: int|
                    0 <= k < remaining@.len() ==> (#[trigger] remaining@[k]).0@ == old_keys[groups@.len()
                        + k],
                forall|k: int|
                    0 <= k < remaining@.len() ==> (#[trigger] remaining@[k]).1@
                        == old_positions[groups@.len() + k],
                forall|g: int| 0 <= g < groups@.len() ==> (#[trigger] groups@[g]).0@ == old_keys[g],
                forall|g: int| 0 <= g < groups@.len() ==> sorted_ascending((#[trigger] groups@[g]).1@),
                forall|g: int|
                    0 <= g < groups@.len() ==> (#[trigger] groups@[g]).1@.to_multiset()
                        == old_positions[g].to_multiset(),
            decreases remaining@.len(),
        {
            let (path, positions) = remaining.remove(0);
            let sorted = sort_positions(positions);
            let ghost g_before = groups@;
            groups.push((path, sorted));
            proof {
                assert(groups@.drop_last() =~= g_before);
            }
        }
        proof {
            assert forall|g1: int, g2: int|
                #![trigger groups@[g1].0, groups@[g2].0]
                0 <= g1 < g2 < groups@.len() implies lex_lt(groups@[g1].0@, groups@[g2].0@) by {
                assert(old(self).delete_cache.keys()[g1] == groups@[g1].0@);
                assert(old(self).delete_cache.keys()[g2] == groups@[g2].0@);
            }
        }
        groups
    }

    /// Absorb the descriptors a flush produced.
    pub fn extend_results(&mut self, files: Vec<DataFileBuilder>)
        ensures
            final(self).results@ == old(self).results@ + files@,
            final(self).table_location == old(self).table_location,
            final(self).config == old(self).config,
            final(self).record_num == old(self).record_num,
            final(self).delete_cache == old(self).delete_cache,
            old(self).wf() ==> final(self).wf(),
    {
        let ghost before = self.results@;
        let mut incoming = files;
        let ghost files_snap = incoming@;
        while incoming.len() > 0
            invariant
                files_snap.len() >= incoming@.len(),
                self.results@ == before + files_snap.take(files_snap.len() - incoming@.len()),
                forall|k: int|
                    0 <= k < incoming@.len() ==> (#[trigger] incoming@[k]) == files_snap[files_snap.len()
                        - incoming@.len() + k],
                self.table_location == old(self).table_location,
                self.config == old(self).config,
                self.record_num == old(self).record_num,
                self.delete_cache == old(self).delete_cache,
            decreases incoming@.len(),
        {
            let b = incoming.remove(0);
            let ghost r_before = self.results@;
            self.results.push(b);
            proof {
                assert(self.results@ =~= before + files_snap.take(
                    files_snap.len() - incoming@.len(),
                ));
            }
        }
        proof {
            assert(files_snap.take(files_snap.len() as int) =~= files_snap);
            assert(self.results@ =~= before + files_snap);
        }
    }

    /// End the session and hand back every descriptor, in creation
    /// order. The caller must have flushed any remaining deletions
    /// first; `needs_final_flush` says whether any remain.
    pub fn close(self) -> (r: Vec<DataFileBuilder>)
        requires
            self.record_num == 0,
        ensures
            r == self.results,
    {
        self.results
    }
}

} // verus!
