//! Splitting a record batch into per-partition sub-batches, and the
//! reversible mapping between a compact partition key and its structured
//! partition value.

use vstd::prelude::*;

use crate::batch::{select_values, RecordBatch};
use crate::error::{Error, ErrorKind};
use crate::transform::{apply_ok, apply_rel, Transform};
use crate::types::{
    data_type_eq, field_eq, fields_eq, lemma_data_type_eq_matches_type,
    lemma_fields_eq_iff_pointwise, lemma_value_eq_matches_type, lemma_values_eq_iff_pointwise,
    struct_values_match, value_eq, value_matches_type, values_eq, DataType, Field, PrimitiveType,
    Schema, Value,
};

verus! {

/// One field of a partition specification: a source column id and the
/// transform deriving the partition value from that column.
#[derive(Debug)]
pub struct PartitionSpecField {
    /// Name of the partition field.
    pub name: String,
    /// Stable id of the source column, looked up by recursive descent.
    pub source_column_id: i64,
    /// The transform to apply to the source column.
    pub transform: Transform,
}

/// An ordered list of partition fields.
#[derive(Debug)]
pub struct PartitionSpec {
    /// The partition fields, in order.
    pub fields: Vec<PartitionSpecField>,
}

/// The compact, hashable encoding of one row's partition-derived values:
/// one derived cell per partition field, without field metadata. Rows with
/// equal derived values produce equal keys.
#[derive(Debug)]
pub struct PartitionKey {
    cells: Vec<Value>,
}

impl PartitionKey {
    /// The derived cells, one per partition field.
    pub closed spec fn cells_view(self) -> Seq<Value> {
        self.cells@
    }

    /// Wrap derived cells into a key.
    pub fn from_cells(cells: Vec<Value>) -> (r: PartitionKey)
        ensures
            r.cells_view() == cells@,
    {
        PartitionKey { cells }
    }

    /// Decide whether two keys encode the same derived values.
    pub fn eq_key(&self, other: &PartitionKey) -> (r: bool)
        ensures
            r == values_eq(self.cells_view(), other.cells_view()),
    {
        if self.cells.len() != other.cells.len() {
            proof {
                lemma_values_eq_iff_pointwise(self.cells@, other.cells@);
            }
            return false;
        }
        let mut i: usize = 0;
        while i < self.cells.len()
            invariant
                self.cells@.len() == other.cells@.len(),
                0 <= i <= self.cells@.len(),
                forall|j: int| 0 <= j < i ==> value_eq(#[trigger] self.cells@[j], other.cells@[j]),
            decreases self.cells@.len() - i,
        {
            if !self.cells[i].eq_value(&other.cells[i]) {
                proof {
                    lemma_values_eq_iff_pointwise(self.cells@, other.cells@);
                }
                return false;
            }
            i += 1;
        }
        proof {
            lemma_values_eq_iff_pointwise(self.cells@, other.cells@);
        }
        true
    }
}

/// The structured, metadata-facing form of a partition key: the partition
/// type's fields next to the decoded values.
#[derive(Debug)]
pub struct StructValue {
    /// The partition type's fields.
    pub fields: Vec<Field>,
    /// One decoded value per field.
    pub values: Vec<Value>,
}

impl StructValue {
    /// One value per field, each inhabiting its field's type.
    pub open spec fn wf(self) -> bool {
        &&& self.values@.len() == self.fields@.len()
        &&& forall|i: int|
            0 <= i < self.fields@.len() ==> value_matches_type(
                #[trigger] self.values@[i],
                self.fields@[i].data_type,
            )
    }
}

/// Whether the field tree rooted at this list holds a field with the
/// given stable column id, at any depth.
pub open spec fn tree_contains(fields: Seq<Field>, id: int) -> bool
    decreases fields,
{
    if fields.len() == 0 {
        false
    } else {
        field_subtree_contains(fields[0], id) || tree_contains(fields.drop_first(), id)
    }
}

/// Whether this field, or any field nested below it, carries the id.
pub open spec fn field_subtree_contains(f: Field, id: int) -> bool
    decreases f,
{
    ||| f.id == id
    ||| match f.data_type {
        DataType::Struct(children) => tree_contains(children@, id),
        _ => false,
    }
}

/// The field reached from `fields` by the index path, descending through
/// struct types.
pub open spec fn field_at_path(fields: Seq<Field>, path: Seq<usize>) -> Option<Field>
    decreases path.len(),
{
    if path.len() == 0 {
        Option::None
    } else if path[0] >= fields.len() {
        Option::None
    } else if path.len() == 1 {
        Option::Some(fields[path[0] as int])
    } else {
        match fields[path[0] as int].data_type {
            DataType::Struct(children) => field_at_path(children@, path.drop_first()),
            _ => Option::None,
        }
    }
}

/// `tree_contains` holds exactly when some field of the list contains the
/// id in its subtree.
pub proof fn lemma_tree_contains_iff_pointwise(fields: Seq<Field>, id: int)
    ensures
        tree_contains(fields, id) <==> exists|i: int|
            0 <= i < fields.len() && field_subtree_contains(#[trigger] fields[i], id),
    decreases fields.len(),
{
    if fields.len() > 0 {
        lemma_tree_contains_iff_pointwise(fields.drop_first(), id);
        if tree_contains(fields, id) {
            if field_subtree_contains(fields[0], id) {
                assert(field_subtree_contains(fields[0], id));
            } else {
                let i = choose|i: int|
                    0 <= i < fields.drop_first().len() && field_subtree_contains(
                        #[trigger] fields.drop_first()[i],
                        id,
                    );
                assert(fields.drop_first()[i] == fields[i + 1]);
                assert(field_subtree_contains(fields[i + 1], id));
            }
        }
        if exists|i: int|
            0 <= i < fields.len() && field_subtree_contains(#[trigger] fields[i], id) {
            let i = choose|i: int|
                0 <= i < fields.len() && field_subtree_contains(#[trigger] fields[i], id);
            if i > 0 {
                assert(fields.drop_first()[i - 1] == fields[i]);
                assert(field_subtree_contains(fields.drop_first()[i - 1], id));
            }
        }
    }
}

/// Find the index path of the field carrying `col_id`, by depth-first
/// search over the field tree, matching on the stable column id.
pub fn fetch_column_index(fields: &Vec<Field>, col_id: i64) -> (r: Option<Vec<usize>>)
    ensures
        r is Some <==> tree_contains(fields@, col_id as int),
        r matches Some(path) ==> {
            &&& path@.len() > 0
            &&& match field_at_path(fields@, path@) {
                Option::Some(f) => f.id == col_id,
                Option::None => false,
            }
        },
    decreases fields@,
{
    let mut i: usize = 0;
    while i < fields.len()
        invariant
            0 <= i <= fields@.len(),
            forall|j: int|
                0 <= j < i ==> !field_subtree_contains(#[trigger] fields@[j], col_id as int),
        decreases fields@.len() - i,
    {
        if fields[i].id == col_id {
            let mut path: Vec<usize> = Vec::new();
            path.push(i);
            proof {
                assert(field_at_path(fields@, path@) == Option::Some(fields@[i as int]));
                lemma_tree_contains_iff_pointwise(fields@, col_id as int);
                assert(field_subtree_contains(fields@[i as int], col_id as int));
            }
            return Some(path);
        }
        let found: Option<Vec<usize>> = match &fields[i].data_type {
            DataType::Struct(children) => {
                proof {
                    assert(decreases_to!(fields@ => fields@[i as int]));
                    assert(decreases_to!(
                        fields@[i as int] => fields@[i as int].data_type));
                    assert(decreases_to!(
                        fields@[i as int].data_type
                            => fields@[i as int].data_type->Struct_0));
                    assert(fields@[i as int].data_type->Struct_0 == *children);
                    assert(decreases_to!(*children => children@));
                }
                fetch_column_index(children, col_id)
            },
            _ => None,
        };
        match found {
            Option::Some(sub) => {
                let mut path: Vec<usize> = Vec::new();
                path.push(i);
                let mut k: usize = 0;
                while k < sub.len()
                    invariant
                        0 <= k <= sub@.len(),
                        path@.len() == k + 1,
                        path@[0] == i,
                        forall|x: int| 0 <= x < k ==> path@[x + 1] == sub@[x],
                    decreases sub@.len() - k,
                {
                    path.push(sub[k]);
                    k += 1;
                }
                proof {
                    assert(path@.drop_first() =~= sub@);
                    lemma_tree_contains_iff_pointwise(fields@, col_id as int);
                    assert(field_subtree_contains(fields@[i as int], col_id as int));
                }
                return Some(path);
            },
            Option::None => {
                proof {
                    assert(!field_subtree_contains(fields@[i as int], col_id as int));
                }
            },
        }
        i += 1;
    }
    proof {
        lemma_tree_contains_iff_pointwise(fields@, col_id as int);
    }
    None
}

/// The value reached from `v` by the index path, descending through
/// struct values. A null struct short-circuits to null at any depth.
pub open spec fn value_at_path(v: Value, path: Seq<usize>) -> Option<Value>
    decreases path.len(),
{
    if path.len() == 0 {
        Option::Some(v)
    } else {
        match v {
            Value::Null => Option::Some(Value::Null),
            Value::Struct(vs) => if path[0] < vs@.len() {
                value_at_path(vs@[path[0] as int], path.drop_first())
            } else {
                Option::None
            },
            _ => Option::None,
        }
    }
}

/// The source cell of row `r` under the resolved index path: the
/// (possibly nested) value the partition transform is applied to.
pub open spec fn source_cell(batch: RecordBatch, path: Seq<usize>, r: int) -> Option<Value> {
    if path.len() > 0 && path[0] < batch.columns@.len() && 0 <= r
        < batch.columns@[path[0] as int]@.len() {
        value_at_path(batch.columns@[path[0] as int]@[r], path.drop_first())
    } else {
        Option::None
    }
}

/// Whether a derived column type is accepted where the declared partition
/// field type is expected: either the types agree, or both are timestamps
/// of the same unit whose timezone annotations differ, which is
/// reconciled by a cast.
pub open spec fn types_reconcilable(src: DataType, dst: DataType) -> bool {
    ||| data_type_eq(src, dst)
    ||| match (src, dst) {
        (
            DataType::Primitive(PrimitiveType::Timestamp { unit: u1, zone: _ }),
            DataType::Primitive(PrimitiveType::Timestamp { unit: u2, zone: _ }),
        ) => u1 == u2,
        _ => false,
    }
}

/// Decide whether a derived column type is accepted for a declared type.
pub fn types_reconcilable_exec(src: &DataType, dst: &DataType) -> (r: bool)
    ensures
        r == types_reconcilable(*src, *dst),
{
    if src.eq_type(dst) {
        return true;
    }
    match (src, dst) {
        (
            DataType::Primitive(PrimitiveType::Timestamp { unit: u1, zone: _ }),
            DataType::Primitive(PrimitiveType::Timestamp { unit: u2, zone: _ }),
        ) => u1 == u2,
        _ => false,
    }
}

/// A value reached through a valid field path inhabits the type of the
/// field the path ends at, and the descent cannot fail.
pub proof fn lemma_value_at_path_matches(fields: Seq<Field>, path: Seq<usize>, v0: Value)
    requires
        path.len() >= 1,
        path[0] < fields.len(),
        value_matches_type(v0, fields[path[0] as int].data_type),
        field_at_path(fields, path) is Some,
    ensures
        value_at_path(v0, path.drop_first()) is Some,
        value_matches_type(
            value_at_path(v0, path.drop_first())->0,
            field_at_path(fields, path)->0.data_type,
        ),
    decreases path.len(),
{
    let rest = path.drop_first();
    if path.len() == 1 {
        assert(rest.len() == 0);
    } else {
        let f0 = fields[path[0] as int];
        match f0.data_type {
            DataType::Struct(children) => {
                assert(field_at_path(fields, path) == field_at_path(children@, rest));
                assert(rest[0] < children@.len()) by {
                    assert(field_at_path(children@, rest) is Some);
                }
                match v0 {
                    Value::Null => {
                        assert(value_at_path(v0, rest) == Option::Some(Value::Null));
                    },
                    Value::Struct(vs) => {
                        crate::types::lemma_struct_values_match_iff_pointwise(vs@, children@);
                        assert(value_matches_type(
                            vs@[rest[0] as int],
                            children@[rest[0] as int].data_type,
                        ));
                        lemma_value_at_path_matches(children@, rest, vs@[rest[0] as int]);
                        assert(rest.drop_first() =~= path.drop_first().drop_first());
                    },
                    _ => {},
                }
            },
            _ => {},
        }
    }
}

/// Walk the remaining path below `v`, returning a copy of the value it
/// reaches. Descending into a non-struct value fails; a null struct
/// yields null.
fn extract_cell(v: &Value, path: &Vec<usize>, depth: usize) -> (r: Result<Value, Error>)
    requires
        depth <= path@.len(),
    ensures
        r is Ok <==> value_at_path(*v, path@.skip(depth as int)) is Some,
        r matches Ok(out) ==> value_eq(value_at_path(*v, path@.skip(depth as int))->0, out),
        r matches Err(e) ==> e.kind == ErrorKind::Encoding,
    decreases path@.len() - depth,
{
    let ghost rest = path@.skip(depth as int);
    if depth == path.len() {
        proof {
            assert(rest.len() == 0);
        }
        let out = v.duplicate();
        return Ok(out);
    }
    match v {
        Value::Null => {
            proof {
                assert(rest.len() > 0);
                assert(value_at_path(*v, rest) == Option::Some(Value::Null));
            }
            Ok(Value::Null)
        },
        Value::Struct(vs) => {
            let idx = path[depth];
            proof {
                assert(rest[0] == path@[depth as int]);
            }
            if idx < vs.len() {
                proof {
                    assert(rest.drop_first() =~= path@.skip(depth as int + 1));
                }
                extract_cell(&vs[idx], path, depth + 1)
            } else {
                Err(Error::new(
                    ErrorKind::Encoding,
                    "a resolved column index leaves its struct's bounds",
                ))
            }
        },
        _ => Err(Error::new(
            ErrorKind::Encoding,
            "a resolved column path descends into a non-struct value",
        )),
    }
}

/// Walk a full index path below the top level of a field list, returning
/// the field it ends at.
fn field_at_path_exec<'a>(fields: &'a Vec<Field>, path: &Vec<usize>, depth: usize) -> (r: Option<
    &'a Field,
>)
    requires
        depth < path@.len(),
    ensures
        match r {
            Option::Some(f) => field_at_path(fields@, path@.skip(depth as int)) == Option::Some(*f),
            Option::None => field_at_path(fields@, path@.skip(depth as int)) is None,
        },
    decreases path@.len() - depth,
{
    let ghost rest = path@.skip(depth as int);
    let idx = path[depth];
    proof {
        assert(rest[0] == path@[depth as int]);
    }
    if idx >= fields.len() {
        return None;
    }
    if path.len() - depth == 1 {
        proof {
            assert(rest.len() == 1);
        }
        return Some(&fields[idx]);
    }
    proof {
        assert(rest.drop_first() =~= path@.skip(depth as int + 1));
    }
    match &fields[idx].data_type {
        DataType::Struct(children) => field_at_path_exec(children, path, depth + 1),
        _ => None,
    }
}

/// Resolved, per-instance information for one partition field: the index
/// path to its source column and the transform to apply.
#[derive(Debug)]
struct PartitionFieldComputeInfo {
    index_vec: Vec<usize>,
    transform: Transform,
}

/// Splits record batches by partition value. Construction resolves, once
/// per instance, the transform and the source column index path of every
/// partition field.
#[derive(Debug)]
pub struct PartitionSplitter {
    field_infos: Vec<PartitionFieldComputeInfo>,
    partition_fields: Vec<Field>,
}

impl PartitionSplitter {
    /// The number of partition fields.
    pub closed spec fn num_fields(self) -> int {
        self.partition_fields@.len() as int
    }

    /// The partition type: one declared field per partition field.
    pub closed spec fn partition_fields_view(self) -> Seq<Field> {
        self.partition_fields@
    }

    /// The resolved index path of partition field `f`.
    pub closed spec fn path_of(self, f: int) -> Seq<usize> {
        self.field_infos@[f].index_vec@
    }

    /// The transform of partition field `f`.
    pub closed spec fn transform_of(self, f: int) -> Transform {
        self.field_infos@[f].transform
    }

    /// One resolved entry per partition field, each with a well-formed
    /// transform and a nonempty index path.
    pub closed spec fn wf(self) -> bool {
        &&& self.field_infos@.len() == self.partition_fields@.len()
        &&& forall|f: int|
            0 <= f < self.field_infos@.len() ==> (#[trigger] self.field_infos@[f].transform).wf()
                && self.field_infos@[f].index_vec@.len() > 0
    }

    /// Resolve a partition specification against a schema. Fails when the
    /// partition type's field count differs from the specification's,
    /// when a transform is invalid, or when a source column id cannot be
    /// found anywhere in the schema's field tree.
    pub fn try_new(
        partition_spec: &PartitionSpec,
        schema: &Schema,
        partition_type: Vec<Field>,
    ) -> (r: Result<PartitionSplitter, Error>)
        ensures
            r is Ok <==> ({
                &&& partition_type@.len() == partition_spec.fields@.len()
                &&& forall|f: int|
                    0 <= f < partition_spec.fields@.len() ==> (
                    #[trigger] partition_spec.fields@[f].transform).wf()
                &&& forall|f: int|
                    0 <= f < partition_spec.fields@.len() ==> tree_contains(
                        schema.fields@,
                        (#[trigger] partition_spec.fields@[f]).source_column_id as int,
                    )
            }),
            r matches Ok(s) ==> {
                &&& s.wf()
                &&& s.partition_fields_view() == partition_type@
                &&& s.num_fields() == partition_spec.fields@.len()
                &&& forall|f: int|
                    0 <= f < s.num_fields() ==> #[trigger] s.transform_of(f)
                        == partition_spec.fields@[f].transform
                &&& forall|f: int|
                    0 <= f < s.num_fields() ==> match field_at_path(
                        schema.fields@,
                        #[trigger] s.path_of(f),
                    ) {
                        Option::Some(fld) => fld.id == partition_spec.fields@[f].source_column_id,
                        Option::None => false,
                    }
            },
            r matches Err(e) ==> e.kind == ErrorKind::PartitionResolution,
    {
        if partition_type.len() != partition_spec.fields.len() {
            return Err(Error::new(
                ErrorKind::PartitionResolution,
                "partition spec field count does not match the partition type's field count",
            ));
        }
        let mut field_infos: Vec<PartitionFieldComputeInfo> = Vec::new();
        let mut f: usize = 0;
        while f < partition_spec.fields.len()
            invariant
                partition_type@.len() == partition_spec.fields@.len(),
                0 <= f <= partition_spec.fields@.len(),
                field_infos@.len() == f,
                forall|j: int|
                    0 <= j < f ==> (#[trigger] partition_spec.fields@[j].transform).wf(),
                forall|j: int|
                    0 <= j < f ==> tree_contains(
                        schema.fields@,
                        (#[trigger] partition_spec.fields@[j]).source_column_id as int,
                    ),
                forall|j: int|
                    0 <= j < f ==> (#[trigger] field_infos@[j].transform)
                        == partition_spec.fields@[j].transform,
                forall|j: int|
                    0 <= j < f ==> (#[trigger] field_infos@[j].index_vec@).len() > 0,
                forall|j: int|
                    0 <= j < f ==> match field_at_path(
                        schema.fields@,
                        (#[trigger] field_infos@[j]).index_vec@,
                    ) {
                        Option::Some(fld) => fld.id == partition_spec.fields@[j].source_column_id,
                        Option::None => false,
                    },
            decreases partition_spec.fields@.len() - f,
        {
            let spec_field = &partition_spec.fields[f];
            if !spec_field.transform.is_valid() {
                return Err(Error::with_column(
                    ErrorKind::PartitionResolution,
                    "a partition field names an invalid transform",
                    spec_field.source_column_id,
                ));
            }
            match fetch_column_index(&schema.fields, spec_field.source_column_id) {
                Option::Some(index_vec) => {
                    field_infos.push(PartitionFieldComputeInfo {
                        index_vec,
                        transform: spec_field.transform,
                    });
                },
                Option::None => {
                    return Err(Error::with_column(
                        ErrorKind::PartitionResolution,
                        "a partition field's source column id cannot be found in the schema",
                        spec_field.source_column_id,
                    ));
                },
            }
            f += 1;
        }
        Ok(PartitionSplitter { field_infos, partition_fields: partition_type })
    }

    /// Decode a partition key into its structured partition value. Fails
    /// when the key's cells do not fit the partition type, which cannot
    /// happen for a key this splitter derived itself.
    pub fn convert_key_to_value(&self, key: PartitionKey) -> (r: Result<StructValue, Error>)
        requires
            self.wf(),
        ensures
            r is Ok <==> struct_values_match(key.cells_view(), self.partition_fields_view()),
            r matches Ok(sv) ==> {
                &&& sv.wf()
                &&& fields_eq(self.partition_fields_view(), sv.fields@)
                &&& sv.values@ == key.cells_view()
            },
            r matches Err(e) ==> e.kind == ErrorKind::Encoding,
    {
        if key.cells.len() != self.partition_fields.len() {
            proof {
                crate::types::lemma_struct_values_match_iff_pointwise(
                    key.cells@,
                    self.partition_fields@,
                );
            }
            return Err(Error::new(
                ErrorKind::Encoding,
                "partition key cell count does not match the partition type",
            ));
        }
        let mut i: usize = 0;
        while i < key.cells.len()
            invariant
                key.cells@.len() == self.partition_fields@.len(),
                0 <= i <= key.cells@.len(),
                forall|j: int|
                    0 <= j < i ==> value_matches_type(
                        key.cells@[j],
                        (#[trigger] self.partition_fields@[j]).data_type,
                    ),
            decreases key.cells@.len() - i,
        {
            if !key.cells[i].matches_type(&self.partition_fields[i].data_type) {
                proof {
                    crate::types::lemma_struct_values_match_iff_pointwise(
                        key.cells@,
                        self.partition_fields@,
                    );
                }
                return Err(Error::new(
                    ErrorKind::Encoding,
                    "a partition key cell does not inhabit its partition field's type",
                ));
            }
            i += 1;
        }
        let mut fields: Vec<Field> = Vec::new();
        let mut k: usize = 0;
        while k < self.partition_fields.len()
            invariant
                0 <= k <= self.partition_fields@.len(),
                fields@.len() == k,
                forall|j: int|
                    0 <= j < k ==> #[trigger] field_eq(self.partition_fields@[j], fields@[j]),
            decreases self.partition_fields@.len() - k,
        {
            let fld = self.partition_fields[k].duplicate();
            fields.push(fld);
            k += 1;
        }
        let sv = StructValue { fields, values: key.cells };
        proof {
            lemma_fields_eq_iff_pointwise(self.partition_fields@, sv.fields@);
            crate::types::lemma_struct_values_match_iff_pointwise(sv.values@, self.partition_fields@);
            assert forall|j: int| 0 <= j < sv.fields@.len() implies value_matches_type(
                #[trigger] sv.values@[j],
                sv.fields@[j].data_type,
            ) by {
                assert(field_eq(self.partition_fields@[j], sv.fields@[j]));
                lemma_data_type_eq_matches_type(
                    sv.values@[j],
                    self.partition_fields@[j].data_type,
                    sv.fields@[j].data_type,
                );
            }
        }
        Ok(sv)
    }
}

impl PartitionKey {
    /// Copy this key.
    pub fn duplicate(&self) -> (r: PartitionKey)
        ensures
            values_eq(self.cells_view(), r.cells_view()),
    {
        let mut cells: Vec<Value> = Vec::new();
        let mut i: usize = 0;
        while i < self.cells.len()
            invariant
                0 <= i <= self.cells@.len(),
                cells@.len() == i,
                forall|j: int| 0 <= j < i ==> value_eq(#[trigger] self.cells@[j], cells@[j]),
            decreases self.cells@.len() - i,
        {
            let v = self.cells[i].duplicate();
            cells.push(v);
            i += 1;
        }
        proof {
            lemma_values_eq_iff_pointwise(self.cells@, cells@);
        }
        PartitionKey { cells }
    }
}

/// Whether `out` is the value that partition field `f` derives from row
/// `r` of the batch.
pub open spec fn row_derives_cell(
    s: PartitionSplitter,
    batch: RecordBatch,
    f: int,
    r: int,
    out: Value,
) -> bool {
    match source_cell(batch, s.path_of(f), r) {
        Option::Some(src) => apply_rel(s.transform_of(f), src, out),
        Option::None => false,
    }
}

/// Whether `cells` is exactly the sequence of values the partition fields
/// derive from row `r` of the batch.
pub open spec fn row_derives_key(
    s: PartitionSplitter,
    batch: RecordBatch,
    r: int,
    cells: Seq<Value>,
) -> bool {
    &&& cells.len() == s.num_fields()
    &&& forall|f: int| 0 <= f < cells.len() ==> row_derives_cell(s, batch, f, r, #[trigger] cells[f])
}

/// Whether partition field `f`'s resolved path leads to a field of the
/// batch's schema whose type is accepted for the declared partition
/// field type.
pub open spec fn field_resolves(s: PartitionSplitter, batch: RecordBatch, f: int) -> bool {
    match field_at_path(batch.schema.fields@, s.path_of(f)) {
        Option::Some(fld) => types_reconcilable(
            fld.data_type,
            s.partition_fields_view()[f].data_type,
        ),
        Option::None => false,
    }
}

/// Whether every partition field derives a value from row `r`.
pub open spec fn row_derivable(s: PartitionSplitter, batch: RecordBatch, r: int) -> bool {
    forall|f: int|
        0 <= f < s.num_fields() ==> match source_cell(batch, #[trigger] s.path_of(f), r) {
            Option::Some(src) => apply_ok(s.transform_of(f), src),
            Option::None => false,
        }
}

/// Whether a split of the batch succeeds: every partition field resolves
/// against the batch's schema and every row derives a full key.
pub open spec fn split_ok(s: PartitionSplitter, batch: RecordBatch) -> bool {
    &&& forall|f: int| 0 <= f < s.num_fields() ==> #[trigger] field_resolves(s, batch, f)
    &&& forall|r: int| 0 <= r < batch.num_rows ==> #[trigger] row_derivable(s, batch, r)
}

/// Structurally equal cell sequences are derived by the same rows.
pub proof fn lemma_row_derives_respects(
    s: PartitionSplitter,
    batch: RecordBatch,
    r: int,
    c1: Seq<Value>,
    c2: Seq<Value>,
)
    requires
        row_derives_key(s, batch, r, c1),
        values_eq(c1, c2),
    ensures
        row_derives_key(s, batch, r, c2),
{
    lemma_values_eq_iff_pointwise(c1, c2);
    assert forall|f: int| 0 <= f < c2.len() implies row_derives_cell(
        s,
        batch,
        f,
        r,
        #[trigger] c2[f],
    ) by {
        assert(row_derives_cell(s, batch, f, r, c1[f]));
        match source_cell(batch, s.path_of(f), r) {
            Option::Some(src) => {
                crate::transform::lemma_apply_rel_respects_out(
                    s.transform_of(f),
                    src,
                    c1[f],
                    c2[f],
                );
            },
            Option::None => {},
        }
    }
}

/// The cells a row derives inhabit, one by one, the declared partition
/// field types, when every partition field resolves against the batch.
pub proof fn lemma_derived_key_matches(
    s: PartitionSplitter,
    batch: RecordBatch,
    r: int,
    cells: Seq<Value>,
)
    requires
        s.wf(),
        batch.wf(),
        0 <= r < batch.num_rows,
        row_derives_key(s, batch, r, cells),
        forall|f: int| 0 <= f < s.num_fields() ==> #[trigger] field_resolves(s, batch, f),
    ensures
        struct_values_match(cells, s.partition_fields_view()),
{
    assert forall|f: int| 0 <= f < s.num_fields() implies value_matches_type(
        cells[f],
        (#[trigger] s.partition_fields_view()[f]).data_type,
    ) by {
        let path = s.path_of(f);
        assert(row_derives_cell(s, batch, f, r, cells[f]));
        assert(field_resolves(s, batch, f));
        let fld = field_at_path(batch.schema.fields@, path)->0;
        let src = source_cell(batch, path, r)->0;
        let p0 = path[0] as int;
        assert(0 <= p0 < batch.columns@.len());
        let colval = batch.columns@[p0]@[r];
        assert(value_matches_type(colval, batch.schema.fields@[p0].data_type));
        lemma_value_at_path_matches(batch.schema.fields@, path, colval);
        assert(value_matches_type(src, fld.data_type));
        crate::transform::lemma_apply_rel_preserves_match(
            s.transform_of(f),
            src,
            cells[f],
            fld.data_type,
        );
        let declared = s.partition_fields_view()[f].data_type;
        if data_type_eq(fld.data_type, declared) {
            lemma_data_type_eq_matches_type(cells[f], fld.data_type, declared);
        } else {
            assert(value_matches_type(cells[f], declared));
        }
    }
    crate::types::lemma_struct_values_match_iff_pointwise(cells, s.partition_fields_view());
}

impl PartitionSplitter {
    /// Derive the partition key of one row: extract each partition
    /// field's source cell by its resolved index path and apply the
    /// field's transform.
    pub fn derive_key_of_row(&self, batch: &RecordBatch, row: usize) -> (r: Result<
        PartitionKey,
        Error,
    >)
        requires
            self.wf(),
            batch.wf(),
            row < batch.num_rows,
        ensures
            r is Ok <==> row_derivable(*self, *batch, row as int),
            r matches Ok(k) ==> row_derives_key(*self, *batch, row as int, k.cells_view()),
            r matches Err(e) ==> (e.kind == ErrorKind::Encoding || e.kind
                == ErrorKind::InvalidInput),
    {
        let mut cells: Vec<Value> = Vec::new();
        let mut f: usize = 0;
        while f < self.field_infos.len()
            invariant
                self.wf(),
                batch.wf(),
                row < batch.num_rows,
                0 <= f <= self.field_infos@.len(),
                cells@.len() == f,
                forall|j: int|
                    0 <= j < f ==> row_derives_cell(
                        *self,
                        *batch,
                        j,
                        row as int,
                        #[trigger] cells@[j],
                    ),
                forall|j: int|
                    0 <= j < f ==> match source_cell(*batch, #[trigger] self.path_of(j), row as int) {
                        Option::Some(src) => apply_ok(self.transform_of(j), src),
                        Option::None => false,
                    },
            decreases self.field_infos@.len() - f,
        {
            let ghost path = self.path_of(f as int);
            let info = &self.field_infos[f];
            let p0 = info.index_vec[0];
            if p0 >= batch.columns.len() {
                proof {
                    assert(source_cell(*batch, path, row as int) is None);
                    assert(!row_derivable(*self, *batch, row as int));
                }
                return Err(Error::new(
                    ErrorKind::Encoding,
                    "a resolved column index leaves the batch's column bounds",
                ));
            }
            proof {
                assert(batch.columns@[p0 as int]@.len() == batch.num_rows);
                assert(path.skip(1) =~= path.drop_first());
            }
            let src = match extract_cell(&batch.columns[p0][row], &info.index_vec, 1) {
                Ok(v) => v,
                Err(e) => {
                    proof {
                        assert(source_cell(*batch, path, row as int) is None);
                        assert(!row_derivable(*self, *batch, row as int));
                    }
                    return Err(e);
                },
            };
            let ghost src0 = source_cell(*batch, path, row as int)->0;
            let out = match info.transform.apply(&src) {
                Ok(v) => v,
                Err(e) => {
                    proof {
                        crate::transform::lemma_apply_respects_value_eq(
                            self.transform_of(f as int),
                            src0,
                            src,
                            src,
                        );
                        assert(!apply_ok(self.transform_of(f as int), src0));
                        assert(!row_derivable(*self, *batch, row as int));
                    }
                    return Err(e);
                },
            };
            proof {
                crate::types::lemma_value_eq_symmetric(src0, src);
                crate::transform::lemma_apply_respects_value_eq(
                    self.transform_of(f as int),
                    src,
                    src0,
                    out,
                );
                assert(apply_rel(self.transform_of(f as int), src0, out));
                assert(row_derives_cell(*self, *batch, f as int, row as int, out));
                crate::transform::lemma_apply_respects_value_eq(
                    self.transform_of(f as int),
                    src,
                    src0,
                    out,
                );
                assert(apply_ok(self.transform_of(f as int), src0));
            }
            cells.push(out);
            f += 1;
        }
        proof {
            assert forall|j: int| 0 <= j < self.num_fields() implies match source_cell(
                *batch,
                #[trigger] self.path_of(j),
                row as int,
            ) {
                Option::Some(src) => apply_ok(self.transform_of(j), src),
                Option::None => false,
            } by {
                assert(row_derives_cell(*self, *batch, j, row as int, cells@[j]));
            }
            assert(row_derivable(*self, *batch, row as int));
        }
        Ok(PartitionKey::from_cells(cells))
    }
}

/// One partition of a split batch: the group's key, the source row
/// indices it covers (ascending), and the filtered sub-batch.
#[derive(Debug)]
pub struct PartitionGroup {
    /// The partition key shared by the group's rows.
    pub key: PartitionKey,
    /// The source rows of the group, in ascending order.
    pub rows: Vec<usize>,
    /// The sub-batch holding exactly those rows, in that order.
    pub batch: RecordBatch,
}

/// How many entries of `assign` equal `g`.
pub open spec fn count_assigned(assign: Seq<usize>, g: int) -> int
    decreases assign.len(),
{
    if assign.len() == 0 {
        0
    } else {
        count_assigned(assign.drop_last(), g) + if assign.last() == g {
            1int
        } else {
            0int
        }
    }
}

/// The total of `count_assigned` over the group indices below `g`.
pub open spec fn sum_group_counts(assign: Seq<usize>, g: int) -> int
    decreases g,
{
    if g <= 0 {
        0
    } else {
        sum_group_counts(assign, g - 1) + count_assigned(assign, g - 1)
    }
}

/// The total row count over a list of partition groups.
pub open spec fn sum_group_sizes(gs: Seq<PartitionGroup>) -> int
    decreases gs.len(),
{
    if gs.len() == 0 {
        0
    } else {
        sum_group_sizes(gs.drop_last()) + gs.last().rows@.len()
    }
}

/// Appending one entry raises its group's count by one and no other's.
proof fn lemma_count_assigned_push(assign: Seq<usize>, v: usize, g: int)
    ensures
        count_assigned(assign.push(v), g) == count_assigned(assign, g) + if v == g {
            1int
        } else {
            0int
        },
{
    assert(assign.push(v).drop_last() =~= assign);
}

/// Appending an entry below the bound raises the running total by one.
proof fn lemma_sum_group_counts_push(assign: Seq<usize>, v: usize, g: int)
    ensures
        v < g ==> sum_group_counts(assign.push(v), g) == sum_group_counts(assign, g) + 1,
        v >= g ==> sum_group_counts(assign.push(v), g) == sum_group_counts(assign, g),
    decreases g,
{
    if g > 0 {
        lemma_sum_group_counts_push(assign, v, g - 1);
        lemma_count_assigned_push(assign, v, g - 1);
    }
}

/// When every entry lies below `g`, the per-group counts add up to the
/// sequence's length.
proof fn lemma_sum_group_counts_total(assign: Seq<usize>, g: int)
    requires
        forall|k: int| 0 <= k < assign.len() ==> assign[k] < g,
    ensures
        sum_group_counts(assign, g) == assign.len(),
    decreases assign.len(),
{
    if assign.len() == 0 {
        assert forall|h: int| 0 <= h <= g implies sum_group_counts(assign, h) == 0 by {
            lemma_sum_group_counts_empty(assign, h);
        }
        lemma_sum_group_counts_empty(assign, g);
    } else {
        let prefix = assign.drop_last();
        lemma_sum_group_counts_total(prefix, g);
        lemma_sum_group_counts_push(prefix, assign.last(), g);
        assert(prefix.push(assign.last()) =~= assign);
    }
}

/// Over an empty sequence every running total is zero.
proof fn lemma_sum_group_counts_empty(assign: Seq<usize>, g: int)
    requires
        assign.len() == 0,
    ensures
        sum_group_counts(assign, g) == 0,
    decreases g,
{
    if g > 0 {
        lemma_sum_group_counts_empty(assign, g - 1);
    }
}

/// Counts are never negative.
proof fn lemma_count_assigned_nonneg(assign: Seq<usize>, g: int)
    ensures
        count_assigned(assign, g) >= 0,
    decreases assign.len(),
{
    if assign.len() > 0 {
        lemma_count_assigned_nonneg(assign.drop_last(), g);
    }
}

/// Find the group whose key encodes the same derived values, if any.
fn find_group(reps: &Vec<PartitionKey>, key: &PartitionKey) -> (r: Option<usize>)
    ensures
        match r {
            Option::Some(g) => g < reps@.len() && values_eq(
                reps@[g as int].cells_view(),
                key.cells_view(),
            ),
            Option::None => forall|g: int|
                0 <= g < reps@.len() ==> !values_eq(
                    (#[trigger] reps@[g]).cells_view(),
                    key.cells_view(),
                ),
        },
{
    let mut g: usize = 0;
    while g < reps.len()
        invariant
            0 <= g <= reps@.len(),
            forall|j: int|
                0 <= j < g ==> !values_eq((#[trigger] reps@[j]).cells_view(), key.cells_view()),
        decreases reps@.len() - g,
    {
        if reps[g].eq_key(key) {
            return Some(g);
        }
        g += 1;
    }
    None
}

/// What holds of one returned partition group: nonempty, stably ordered
/// rows inside the batch's bounds, every row deriving the group's key,
/// the key inhabiting the partition type, and a sub-batch holding exactly
/// the group's rows in order.
pub open spec fn group_ok(s: PartitionSplitter, batch: RecordBatch, g: PartitionGroup) -> bool {
    &&& g.rows@.len() > 0
    &&& forall|x: int| 0 <= x < g.rows@.len() ==> (#[trigger] g.rows@[x]) < batch.num_rows
    &&& forall|x: int, y: int|
        #![trigger g.rows@[x], g.rows@[y]]
        0 <= x < y < g.rows@.len() ==> g.rows@[x] < g.rows@[y]
    &&& forall|x: int|
        0 <= x < g.rows@.len() ==> row_derives_key(
            s,
            batch,
            (#[trigger] g.rows@[x]) as int,
            g.key.cells_view(),
        )
    &&& struct_values_match(g.key.cells_view(), s.partition_fields_view())
    &&& g.batch.wf()
    &&& fields_eq(batch.schema.fields@, g.batch.schema.fields@)
    &&& g.batch.num_rows == g.rows@.len()
    &&& g.batch.columns@.len() == batch.columns@.len()
    &&& forall|c: int|
        0 <= c < g.batch.columns@.len() ==> values_eq(
            #[trigger] g.batch.columns@[c]@,
            select_values(batch.columns@[c]@, g.rows@),
        )
}

impl PartitionSplitter {
    /// Split a batch into one sub-batch per distinct partition key. Rows
    /// with equal derived values share a group; the order of rows within
    /// each group matches their relative order in the source batch. The
    /// order of the groups is the order of first appearance.
    pub fn split_by_partition(&self, batch: &RecordBatch) -> (r: Result<Vec<PartitionGroup>, Error>)
        requires
            self.wf(),
            batch.wf(),
        ensures
            r is Ok <==> split_ok(*self, *batch),
            r matches Ok(groups) ==> {
                &&& sum_group_sizes(groups@) == batch.num_rows
                &&& forall|g: int|
                    0 <= g < groups@.len() ==> group_ok(*self, *batch, #[trigger] groups@[g])
                &&& forall|g1: int, x1: int, g2: int, x2: int|
                    #![trigger groups@[g1].rows@[x1], groups@[g2].rows@[x2]]
                    0 <= g1 < groups@.len() && 0 <= x1 < groups@[g1].rows@.len() && 0 <= g2
                        < groups@.len() && 0 <= x2 < groups@[g2].rows@.len() && groups@[g1].rows@[x1]
                        == groups@[g2].rows@[x2] ==> g1 == g2 && x1 == x2
                &&& forall|g1: int, g2: int|
                    #![trigger values_eq(groups@[g1].key.cells_view(), groups@[g2].key.cells_view())]
                    0 <= g1 < groups@.len() && 0 <= g2 < groups@.len() && g1 != g2 ==> !values_eq(
                        groups@[g1].key.cells_view(),
                        groups@[g2].key.cells_view(),
                    )
            },
            r matches Err(e) ==> (e.kind == ErrorKind::SchemaMismatch || e.kind
                == ErrorKind::Encoding || e.kind == ErrorKind::InvalidInput),
    {
        // Resolve every partition field's type against this batch's schema.
        let mut f: usize = 0;
        while f < self.field_infos.len()
            invariant
                self.wf(),
                batch.wf(),
                0 <= f <= self.field_infos@.len(),
                forall|j: int| 0 <= j < f ==> #[trigger] field_resolves(*self, *batch, j),
            decreases self.field_infos@.len() - f,
        {
            let info = &self.field_infos[f];
            proof {
                assert(self.field_infos@[f as int].transform.wf());
                assert(info.index_vec@.len() > 0);
                assert(info.index_vec@.skip(0) =~= self.path_of(f as int));
            }
            match field_at_path_exec(&batch.schema.fields, &info.index_vec, 0) {
                Option::Some(fld) => {
                    if !types_reconcilable_exec(&fld.data_type, &self.partition_fields[f].data_type)
                    {
                        proof {
                            assert(!field_resolves(*self, *batch, f as int));
                        }
                        return Err(Error::new(
                            ErrorKind::SchemaMismatch,
                            "a derived column's type cannot be reconciled with its partition field type",
                        ));
                    }
                },
                Option::None => {
                    proof {
                        assert(!field_resolves(*self, *batch, f as int));
                    }
                    return Err(Error::new(
                        ErrorKind::SchemaMismatch,
                        "a resolved column path does not fit this batch's schema",
                    ));
                },
            }
            f += 1;
        }
        // Derive every row's partition key.
        let n = batch.num_rows;
        let mut keys: Vec<PartitionKey> = Vec::new();
        let mut row: usize = 0;
        while row < n
            invariant
                self.wf(),
                batch.wf(),
                n == batch.num_rows,
                0 <= row <= n,
                keys@.len() == row,
                forall|j: int| 0 <= j < self.num_fields() ==> #[trigger] field_resolves(*self, *batch, j),
                forall|r2: int|
                    0 <= r2 < row ==> row_derives_key(
                        *self,
                        *batch,
                        r2,
                        (#[trigger] keys@[r2]).cells_view(),
                    ),
                forall|r2: int| 0 <= r2 < row ==> #[trigger] row_derivable(*self, *batch, r2),
            decreases n - row,
        {
            match self.derive_key_of_row(batch, row) {
                Ok(k) => {
                    keys.push(k);
                },
                Err(e) => {
                    proof {
                        assert(!row_derivable(*self, *batch, row as int));
                    }
                    return Err(e);
                },
            }
            row += 1;
        }
        // Group the rows by key, keeping first-appearance order of keys.
        let mut reps: Vec<PartitionKey> = Vec::new();
        let mut assign: Vec<usize> = Vec::new();
        row = 0;
        while row < n
            invariant
                0 <= row <= n,
                n == batch.num_rows,
                keys@.len() == n,
                assign@.len() == row,
                forall|g1: int, g2: int|
                    #![trigger values_eq(reps@[g1].cells_view(), reps@[g2].cells_view())]
                    0 <= g1 < reps@.len() && 0 <= g2 < reps@.len() && g1 != g2 ==> !values_eq(
                        reps@[g1].cells_view(),
                        reps@[g2].cells_view(),
                    ),
                forall|r2: int| 0 <= r2 < row ==> (#[trigger] assign@[r2]) < reps@.len(),
                forall|r2: int|
                    0 <= r2 < row ==> values_eq(
                        (#[trigger] keys@[r2]).cells_view(),
                        reps@[assign@[r2] as int].cells_view(),
                    ),
                forall|h: int|
                    0 <= h < reps@.len() ==> #[trigger] count_assigned(assign@, h) >= 1,
            decreases n - row,
        {
            let ghost old_assign = assign@;
            let ghost old_reps = reps@;
            match find_group(&reps, &keys[row]) {
                Option::Some(g) => {
                    proof {
                        crate::types::lemma_values_eq_symmetric(
                            reps@[g as int].cells_view(),
                            keys@[row as int].cells_view(),
                        );
                    }
                    assign.push(g);
                },
                Option::None => {
                    let k2 = keys[row].duplicate();
                    reps.push(k2);
                    let g = reps.len() - 1;
                    assign.push(g);
                    proof {
                        let newg = g as int;
                        crate::types::lemma_values_eq_symmetric(
                            keys@[row as int].cells_view(),
                            reps@[newg].cells_view(),
                        );
                        assert(values_eq(reps@[newg].cells_view(), keys@[row as int].cells_view()));
                        assert forall|g1: int, g2: int|
                            0 <= g1 < reps@.len() && 0 <= g2 < reps@.len() && g1 != g2 implies
                            !values_eq(reps@[g1].cells_view(), reps@[g2].cells_view()) by {
                            if values_eq(reps@[g1].cells_view(), reps@[g2].cells_view()) {
                                if g1 < newg && g2 < newg {
                                    assert(reps@[g1] == old_reps[g1]);
                                    assert(reps@[g2] == old_reps[g2]);
                                    assert(!values_eq(
                                        old_reps[g1].cells_view(),
                                        old_reps[g2].cells_view(),
                                    ));
                                } else {
                                    let o: int = if g1 == newg {
                                        g2
                                    } else {
                                        g1
                                    };
                                    assert(0 <= o < newg);
                                    if g1 == newg {
                                        crate::types::lemma_values_eq_symmetric(
                                            reps@[newg].cells_view(),
                                            reps@[o].cells_view(),
                                        );
                                    }
                                    assert(values_eq(
                                        reps@[o].cells_view(),
                                        reps@[newg].cells_view(),
                                    ));
                                    crate::types::lemma_values_eq_transitive(
                                        reps@[o].cells_view(),
                                        reps@[newg].cells_view(),
                                        keys@[row as int].cells_view(),
                                    );
                                    assert(reps@[o] == old_reps[o]);
                                    assert(!values_eq(
                                        old_reps[o].cells_view(),
                                        keys@[row as int].cells_view(),
                                    ));
                                    assert(false);
                                }
                            }
                        }
                    }
                },
            }
            proof {
                assert(assign@.drop_last() =~= old_assign);
                assert forall|h: int|
                    0 <= h < reps@.len() implies #[trigger] count_assigned(assign@, h) >= 1 by {
                    lemma_count_assigned_push(old_assign, assign@.last(), h);
                    lemma_count_assigned_nonneg(old_assign, h);
                }
            }
            row += 1;
        }
        // Materialize one group per representative key.
        let mut groups: Vec<PartitionGroup> = Vec::new();
        let mut g: usize = 0;
        while g < reps.len()
            invariant
                self.wf(),
                batch.wf(),
                n == batch.num_rows,
                keys@.len() == n,
                assign@.len() == n,
                0 <= g <= reps@.len(),
                groups@.len() == g,
                forall|j: int| 0 <= j < self.num_fields() ==> #[trigger] field_resolves(*self, *batch, j),
                forall|r2: int|
                    0 <= r2 < n ==> row_derives_key(
                        *self,
                        *batch,
                        r2,
                        (#[trigger] keys@[r2]).cells_view(),
                    ),
                forall|g1: int, g2: int|
                    #![trigger values_eq(reps@[g1].cells_view(), reps@[g2].cells_view())]
                    0 <= g1 < reps@.len() && 0 <= g2 < reps@.len() && g1 != g2 ==> !values_eq(
                        reps@[g1].cells_view(),
                        reps@[g2].cells_view(),
                    ),
                forall|r2: int| 0 <= r2 < n ==> (#[trigger] assign@[r2]) < reps@.len(),
                forall|r2: int|
                    0 <= r2 < n ==> values_eq(
                        (#[trigger] keys@[r2]).cells_view(),
                        reps@[assign@[r2] as int].cells_view(),
                    ),
                forall|h: int|
                    0 <= h < reps@.len() ==> #[trigger] count_assigned(assign@, h) >= 1,
                sum_group_sizes(groups@) == sum_group_counts(assign@, g as int),
                forall|j: int|
                    0 <= j < g ==> group_ok(*self, *batch, #[trigger] groups@[j]),
                forall|j: int, x: int|
                    #![trigger groups@[j].rows@[x]]
                    0 <= j < g && 0 <= x < groups@[j].rows@.len() ==> assign@[groups@[j].rows@[x] as int]
                        == j,
                forall|j: int|
                    0 <= j < g ==> values_eq(
                        (#[trigger] reps@[j]).cells_view(),
                        groups@[j].key.cells_view(),
                    ),
            decreases reps@.len() - g,
        {
            let mut rows_g: Vec<usize> = Vec::new();
            let mut r2: usize = 0;
            while r2 < n
                invariant
                    0 <= r2 <= n,
                    assign@.len() == n,
                    forall|x: int| 0 <= x < rows_g@.len() ==> (#[trigger] rows_g@[x]) < r2,
                    forall|x: int, y: int|
                        #![trigger rows_g@[x], rows_g@[y]]
                        0 <= x < y < rows_g@.len() ==> rows_g@[x] < rows_g@[y],
                    forall|x: int|
                        0 <= x < rows_g@.len() ==> assign@[(#[trigger] rows_g@[x]) as int] == g,
                    rows_g@.len() == count_assigned(assign@.subrange(0, r2 as int), g as int),
                decreases n - r2,
            {
                proof {
                    lemma_count_assigned_push(
                        assign@.subrange(0, r2 as int),
                        assign@[r2 as int],
                        g as int,
                    );
                    assert(assign@.subrange(0, r2 as int + 1) =~= assign@.subrange(
                        0,
                        r2 as int,
                    ).push(assign@[r2 as int]));
                }
                if assign[r2] == g {
                    rows_g.push(r2);
                }
                r2 += 1;
            }
            proof {
                assert(assign@.subrange(0, n as int) =~= assign@);
                assert(count_assigned(assign@, g as int) >= 1);
                assert(rows_g@.len() > 0);
            }
            let sub = batch.take_rows(&rows_g);
            let key = reps[g].duplicate();
            proof {
                assert forall|x: int| 0 <= x < rows_g@.len() implies row_derives_key(
                    *self,
                    *batch,
                    (#[trigger] rows_g@[x]) as int,
                    key.cells_view(),
                ) by {
                    let rr = rows_g@[x] as int;
                    assert(assign@[rr] == g as int);
                    assert(row_derives_key(*self, *batch, rr, keys@[rr].cells_view()));
                    lemma_row_derives_respects(
                        *self,
                        *batch,
                        rr,
                        keys@[rr].cells_view(),
                        reps@[g as int].cells_view(),
                    );
                    lemma_row_derives_respects(
                        *self,
                        *batch,
                        rr,
                        reps@[g as int].cells_view(),
                        key.cells_view(),
                    );
                }
                let r0 = rows_g@[0] as int;
                assert(row_derives_key(*self, *batch, r0, key.cells_view()));
                lemma_derived_key_matches(*self, *batch, r0, key.cells_view());
            }
            let pg = PartitionGroup { key, rows: rows_g, batch: sub };
            proof {
                assert(group_ok(*self, *batch, pg));
            }
            let ghost groups_before = groups@;
            groups.push(pg);
            proof {
                assert(groups@.drop_last() =~= groups_before);
            }
            g += 1;
        }
        proof {
            lemma_sum_group_counts_total(assign@, reps@.len() as int);
            assert(sum_group_sizes(groups@) == batch.num_rows);
            assert forall|g1: int, x1: int, g2: int, x2: int|
                #![trigger groups@[g1].rows@[x1], groups@[g2].rows@[x2]]
                0 <= g1 < groups@.len() && 0 <= x1 < groups@[g1].rows@.len() && 0 <= g2
                    < groups@.len() && 0 <= x2 < groups@[g2].rows@.len() && groups@[g1].rows@[x1]
                    == groups@[g2].rows@[x2] implies g1 == g2 && x1 == x2 by {
                assert(assign@[groups@[g1].rows@[x1] as int] == g1);
                assert(assign@[groups@[g2].rows@[x2] as int] == g2);
                if x1 < x2 {
                    assert(groups@[g1].rows@[x1] < groups@[g1].rows@[x2]);
                }
                if x2 < x1 {
                    assert(groups@[g1].rows@[x2] < groups@[g1].rows@[x1]);
                }
            }
            assert forall|g1: int, g2: int|
                #![trigger values_eq(groups@[g1].key.cells_view(), groups@[g2].key.cells_view())]
                0 <= g1 < groups@.len() && 0 <= g2 < groups@.len() && g1 != g2 implies !values_eq(
                groups@[g1].key.cells_view(),
                groups@[g2].key.cells_view(),
            ) by {
                if values_eq(groups@[g1].key.cells_view(), groups@[g2].key.cells_view()) {
                    crate::types::lemma_values_eq_transitive(
                        reps@[g1].cells_view(),
                        groups@[g1].key.cells_view(),
                        groups@[g2].key.cells_view(),
                    );
                    crate::types::lemma_values_eq_symmetric(
                        reps@[g2].cells_view(),
                        groups@[g2].key.cells_view(),
                    );
                    crate::types::lemma_values_eq_transitive(
                        reps@[g1].cells_view(),
                        groups@[g2].key.cells_view(),
                        reps@[g2].cells_view(),
                    );
                    assert(values_eq(reps@[g1].cells_view(), reps@[g2].cells_view()));
                }
            }
        }
        Ok(groups)
    }
}

/// Decoding is a left inverse of key derivation: a partition key derived
/// from a row always decodes (its cells inhabit the partition type, so
/// `convert_key_to_value` succeeds and returns exactly those cells), and
/// its cells are structurally equal to any partition values computed
/// directly from that row's source columns via the configured
/// transforms.
pub proof fn lemma_key_round_trip(
    s: PartitionSplitter,
    batch: RecordBatch,
    r: int,
    key_cells: Seq<Value>,
    direct: Seq<Value>,
)
    requires
        s.wf(),
        batch.wf(),
        0 <= r < batch.num_rows,
        forall|f: int| 0 <= f < s.num_fields() ==> #[trigger] field_resolves(s, batch, f),
        row_derives_key(s, batch, r, key_cells),
        row_derives_key(s, batch, r, direct),
    ensures
        struct_values_match(key_cells, s.partition_fields_view()),
        values_eq(key_cells, direct),
{
    lemma_derived_key_matches(s, batch, r, key_cells);
    assert forall|f: int| 0 <= f < key_cells.len() implies value_eq(
        #[trigger] key_cells[f],
        direct[f],
    ) by {
        assert(row_derives_cell(s, batch, f, r, key_cells[f]));
        assert(row_derives_cell(s, batch, f, r, direct[f]));
        match source_cell(batch, s.path_of(f), r) {
            Option::Some(src) => {
                crate::transform::lemma_apply_rel_functional(
                    s.transform_of(f),
                    src,
                    key_cells[f],
                    direct[f],
                );
            },
            Option::None => {},
        }
    }
    lemma_values_eq_iff_pointwise(key_cells, direct);
}

} // verus!
