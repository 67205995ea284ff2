//! The columnar data model: types, fields, schemas and plain values.
//!
//! Every value that the write path reads out of a batch is held here as a
//! plain value; the physical columnar representation lives with the
//! embedding application.
//!
//! Structural equality over these types is defined by element-wise
//! recursion (`field_eq`, `fields_eq`, `value_eq`, ...); the
//! `lemma_*_iff_pointwise` lemmas restate each list equality as a
//! quantified form for use in loop invariants.

use vstd::prelude::*;

verus! {

/// Resolution of a timestamp column.
#[derive(Clone, Copy, Debug, PartialEq, Eq, Structural)]
pub enum TimeUnit {
    /// Seconds since the epoch.
    Second,
    /// Milliseconds since the epoch.
    Millisecond,
    /// Microseconds since the epoch.
    Microsecond,
    /// Nanoseconds since the epoch.
    Nanosecond,
}

/// A primitive column type.
#[derive(Clone, Debug)]
pub enum PrimitiveType {
    /// Boolean values.
    Boolean,
    /// 32-bit signed integers.
    Int,
    /// 64-bit signed integers.
    Long,
    /// UTF-8 strings.
    Str,
    /// Instants with a unit and an optional timezone annotation.
    Timestamp {
        /// Resolution of the stored instant.
        unit: TimeUnit,
        /// Timezone annotation, such as `UTC` or `+00:00`; `None` for a
        /// timezone-naive column.
        zone: Option<String>,
    },
}

/// A column type: primitive, or a struct of named fields.
#[derive(Debug)]
pub enum DataType {
    /// A primitive type.
    Primitive(PrimitiveType),
    /// A nested struct with an ordered list of fields.
    Struct(Vec<Field>),
}

/// A named, identified column of a schema or of a nested struct.
#[derive(Debug)]
pub struct Field {
    /// Stable column identifier; nested lookups match on this, never on
    /// the name or the position.
    pub id: i64,
    /// Human-facing field name.
    pub name: String,
    /// Whether a null value is rejected for this field.
    pub required: bool,
    /// The field's type.
    pub data_type: DataType,
}

/// The fixed schema of a record batch: an ordered list of top-level fields.
#[derive(Debug)]
pub struct Schema {
    /// The top-level fields.
    pub fields: Vec<Field>,
}

/// One plain cell value.
#[derive(Debug)]
pub enum Value {
    /// An absent value.
    Null,
    /// A boolean.
    Boolean(bool),
    /// A 32-bit integer.
    Int(i32),
    /// A 64-bit integer.
    Long(i64),
    /// A string.
    Str(String),
    /// An instant, counted in the unit of the column's type.
    Timestamp(i64),
    /// A nested struct value, one entry per field of the struct type.
    Struct(Vec<Value>),
}

/// Spec-level equality of optional timezone annotations, by string view.
pub open spec fn zone_eq(a: Option<String>, b: Option<String>) -> bool {
    match (a, b) {
        (Option::None, Option::None) => true,
        (Option::Some(x), Option::Some(y)) => x@ == y@,
        _ => false,
    }
}

/// Spec-level structural equality of primitive types.
pub open spec fn primitive_type_eq(a: PrimitiveType, b: PrimitiveType) -> bool {
    match (a, b) {
        (PrimitiveType::Boolean, PrimitiveType::Boolean) => true,
        (PrimitiveType::Int, PrimitiveType::Int) => true,
        (PrimitiveType::Long, PrimitiveType::Long) => true,
        (PrimitiveType::Str, PrimitiveType::Str) => true,
        (
            PrimitiveType::Timestamp { unit: ua, zone: za },
            PrimitiveType::Timestamp { unit: ub, zone: zb },
        ) => ua == ub && zone_eq(za, zb),
        _ => false,
    }
}

/// Spec-level structural equality of types, recursing through structs.
pub open spec fn data_type_eq(a: DataType, b: DataType) -> bool
    decreases a,
{
    match (a, b) {
        (DataType::Primitive(pa), DataType::Primitive(pb)) => primitive_type_eq(pa, pb),
        (DataType::Struct(fa), DataType::Struct(fb)) => fields_eq(fa@, fb@),
        _ => false,
    }
}

/// Spec-level structural equality of fields.
pub open spec fn field_eq(a: Field, b: Field) -> bool
    decreases a,
{
    &&& a.id == b.id
    &&& a.name@ == b.name@
    &&& a.required == b.required
    &&& data_type_eq(a.data_type, b.data_type)
}

/// Spec-level structural equality of field lists, element by element.
pub open spec fn fields_eq(a: Seq<Field>, b: Seq<Field>) -> bool
    decreases a,
{
    if a.len() != b.len() {
        false
    } else if a.len() == 0 {
        true
    } else {
        field_eq(a[0], b[0]) && fields_eq(a.drop_first(), b.drop_first())
    }
}

/// Spec-level structural equality of plain values, recursing through
/// struct values and comparing strings by view.
pub open spec fn value_eq(a: Value, b: Value) -> bool
    decreases a,
{
    match (a, b) {
        (Value::Null, Value::Null) => true,
        (Value::Boolean(x), Value::Boolean(y)) => x == y,
        (Value::Int(x), Value::Int(y)) => x == y,
        (Value::Long(x), Value::Long(y)) => x == y,
        (Value::Str(x), Value::Str(y)) => x@ == y@,
        (Value::Timestamp(x), Value::Timestamp(y)) => x == y,
        (Value::Struct(xs), Value::Struct(ys)) => values_eq(xs@, ys@),
        _ => false,
    }
}

/// Spec-level equality of value sequences, element by element.
pub open spec fn values_eq(a: Seq<Value>, b: Seq<Value>) -> bool
    decreases a,
{
    if a.len() != b.len() {
        false
    } else if a.len() == 0 {
        true
    } else {
        value_eq(a[0], b[0]) && values_eq(a.drop_first(), b.drop_first())
    }
}

/// Whether a plain value inhabits a primitive type. `Null` inhabits every
/// type; whether it is admitted is the field's `required` flag's concern.
pub open spec fn value_matches_primitive(v: Value, t: PrimitiveType) -> bool {
    match v {
        Value::Null => true,
        Value::Boolean(_) => t is Boolean,
        Value::Int(_) => t is Int,
        Value::Long(_) => t is Long,
        Value::Str(_) => t is Str,
        Value::Timestamp(_) => t is Timestamp,
        Value::Struct(_) => false,
    }
}

/// Whether a plain value inhabits a type, recursing through structs.
pub open spec fn value_matches_type(v: Value, t: DataType) -> bool
    decreases t,
{
    match t {
        DataType::Primitive(p) => value_matches_primitive(v, p),
        DataType::Struct(fields) => match v {
            Value::Null => true,
            Value::Struct(vs) => struct_values_match(vs@, fields@),
            _ => false,
        },
    }
}

/// Whether a struct value's entries inhabit, one by one, the types of the
/// given fields.
pub open spec fn struct_values_match(vs: Seq<Value>, fields: Seq<Field>) -> bool
    decreases fields,
{
    if vs.len() != fields.len() {
        false
    } else if fields.len() == 0 {
        true
    } else {
        value_matches_type(vs[0], fields[0].data_type) && struct_values_match(
            vs.drop_first(),
            fields.drop_first(),
        )
    }
}

/// `fields_eq` holds exactly when the lists have equal length and agree,
/// field by field, under `field_eq`.
pub proof fn lemma_fields_eq_iff_pointwise(a: Seq<Field>, b: Seq<Field>)
    ensures
        fields_eq(a, b) <==> (a.len() == b.len() && forall|i: int|
            0 <= i < a.len() ==> #[trigger] field_eq(a[i], b[i])),
    decreases a.len(),
{
    if a.len() == b.len() && a.len() > 0 {
        lemma_fields_eq_iff_pointwise(a.drop_first(), b.drop_first());
        if fields_eq(a, b) {
            assert forall|i: int| 0 <= i < a.len() implies #[trigger] field_eq(a[i], b[i]) by {
                if i > 0 {
                    assert(field_eq(a.drop_first()[i - 1], b.drop_first()[i - 1]));
                }
            }
        }
        if a.len() == b.len() && (forall|i: int|
            0 <= i < a.len() ==> #[trigger] field_eq(a[i], b[i])) {
            assert(field_eq(a[0], b[0]));
            assert forall|i: int| 0 <= i < a.drop_first().len() implies #[trigger] field_eq(
                a.drop_first()[i],
                b.drop_first()[i],
            ) by {
                assert(a.drop_first()[i] == a[i + 1]);
                assert(b.drop_first()[i] == b[i + 1]);
                assert(field_eq(a[i + 1], b[i + 1]));
            }
        }
    }
}

/// `values_eq` holds exactly when the sequences have equal length and
/// agree, value by value, under `value_eq`.
pub proof fn lemma_values_eq_iff_pointwise(a: Seq<Value>, b: Seq<Value>)
    ensures
        values_eq(a, b) <==> (a.len() == b.len() && forall|i: int|
            0 <= i < a.len() ==> value_eq(#[trigger] a[i], b[i])),
    decreases a.len(),
{
    if a.len() == b.len() && a.len() > 0 {
        lemma_values_eq_iff_pointwise(a.drop_first(), b.drop_first());
        if values_eq(a, b) {
            assert forall|i: int| 0 <= i < a.len() implies value_eq(#[trigger] a[i], b[i]) by {
                if i > 0 {
                    assert(value_eq(a.drop_first()[i - 1], b.drop_first()[i - 1]));
                }
            }
        }
        if a.len() == b.len() && (forall|i: int|
            0 <= i < a.len() ==> value_eq(#[trigger] a[i], b[i])) {
            assert(value_eq(a[0], b[0]));
            assert forall|i: int| 0 <= i < a.drop_first().len() implies value_eq(
                #[trigger] a.drop_first()[i],
                b.drop_first()[i],
            ) by {
                assert(a.drop_first()[i] == a[i + 1]);
                assert(b.drop_first()[i] == b[i + 1]);
                assert(value_eq(a[i + 1], b[i + 1]));
            }
        }
    }
}

/// `struct_values_match` holds exactly when the entries and the fields
/// have equal length and each entry inhabits its field's type.
pub proof fn lemma_struct_values_match_iff_pointwise(vs: Seq<Value>, fields: Seq<Field>)
    ensures
        struct_values_match(vs, fields) <==> (vs.len() == fields.len() && forall|i: int|
            0 <= i < fields.len() ==> value_matches_type(vs[i], #[trigger] fields[i].data_type)),
    decreases fields.len(),
{
    if vs.len() == fields.len() && fields.len() > 0 {
        lemma_struct_values_match_iff_pointwise(vs.drop_first(), fields.drop_first());
        if struct_values_match(vs, fields) {
            assert forall|i: int| 0 <= i < fields.len() implies value_matches_type(
                vs[i],
                #[trigger] fields[i].data_type,
            ) by {
                if i > 0 {
                    assert(value_matches_type(
                        vs.drop_first()[i - 1],
                        fields.drop_first()[i - 1].data_type,
                    ));
                }
            }
        }
        if vs.len() == fields.len() && (forall|i: int|
            0 <= i < fields.len() ==> value_matches_type(vs[i], #[trigger] fields[i].data_type)) {
            assert(value_matches_type(vs[0], fields[0].data_type));
            assert forall|i: int| 0 <= i < fields.drop_first().len() implies value_matches_type(
                vs.drop_first()[i],
                #[trigger] fields.drop_first()[i].data_type,
            ) by {
                assert(vs.drop_first()[i] == vs[i + 1]);
                assert(fields.drop_first()[i] == fields[i + 1]);
                assert(value_matches_type(vs[i + 1], fields[i + 1].data_type));
            }
        }
    }
}

/// `value_eq` is reflexive.
pub proof fn lemma_value_eq_reflexive(a: Value)
    ensures
        value_eq(a, a),
    decreases a,
{
    match a {
        Value::Struct(xs) => {
            assert forall|i: int| 0 <= i < xs@.len() implies value_eq(
                #[trigger] xs@[i],
                xs@[i],
            ) by {
                lemma_value_eq_reflexive(xs@[i]);
            }
            lemma_values_eq_iff_pointwise(xs@, xs@);
        },
        _ => {},
    }
}

/// `value_eq` is symmetric.
pub proof fn lemma_value_eq_symmetric(a: Value, b: Value)
    ensures
        value_eq(a, b) == value_eq(b, a),
    decreases a,
{
    match (a, b) {
        (Value::Struct(xs), Value::Struct(ys)) => {
            assert forall|i: int|
                #![trigger value_eq(xs@[i], ys@[i])]
                #![trigger value_eq(ys@[i], xs@[i])]
                0 <= i < xs@.len() && i < ys@.len() implies value_eq(xs@[i], ys@[i]) == value_eq(
                ys@[i],
                xs@[i],
            ) by {
                lemma_value_eq_symmetric(xs@[i], ys@[i]);
            }
            lemma_values_eq_iff_pointwise(xs@, ys@);
            lemma_values_eq_iff_pointwise(ys@, xs@);
        },
        _ => {},
    }
}

/// `value_eq` is transitive.
pub proof fn lemma_value_eq_transitive(a: Value, b: Value, c: Value)
    ensures
        value_eq(a, b) && value_eq(b, c) ==> value_eq(a, c),
    decreases a,
{
    match (a, b, c) {
        (Value::Struct(xs), Value::Struct(ys), Value::Struct(zs)) => {
            assert forall|i: int|
                #![trigger value_eq(xs@[i], ys@[i])]
                #![trigger value_eq(ys@[i], zs@[i])]
                #![trigger value_eq(xs@[i], zs@[i])]
                0 <= i < xs@.len() && i < ys@.len() && i < zs@.len() implies (value_eq(
                xs@[i],
                ys@[i],
            ) && value_eq(ys@[i], zs@[i]) ==> value_eq(xs@[i], zs@[i])) by {
                lemma_value_eq_transitive(xs@[i], ys@[i], zs@[i]);
            }
            lemma_values_eq_iff_pointwise(xs@, ys@);
            lemma_values_eq_iff_pointwise(ys@, zs@);
            lemma_values_eq_iff_pointwise(xs@, zs@);
        },
        _ => {},
    }
}

/// `field_eq` is reflexive.
pub proof fn lemma_field_eq_reflexive(a: Field)
    ensures
        field_eq(a, a),
    decreases a,
{
    lemma_data_type_eq_reflexive(a.data_type);
}

/// `data_type_eq` is reflexive.
pub proof fn lemma_data_type_eq_reflexive(a: DataType)
    ensures
        data_type_eq(a, a),
    decreases a,
{
    match a {
        DataType::Struct(fs) => {
            assert forall|i: int| 0 <= i < fs@.len() implies #[trigger] field_eq(
                fs@[i],
                fs@[i],
            ) by {
                lemma_field_eq_reflexive(fs@[i]);
            }
            lemma_fields_eq_iff_pointwise(fs@, fs@);
        },
        _ => {},
    }
}

/// Structurally equal values inhabit the same types.
pub proof fn lemma_value_eq_matches_type(a: Value, b: Value, t: DataType)
    ensures
        value_eq(a, b) ==> value_matches_type(a, t) == value_matches_type(b, t),
    decreases t,
{
    if value_eq(a, b) {
        match t {
            DataType::Primitive(_) => {},
            DataType::Struct(fields) => {
                match (a, b) {
                    (Value::Struct(xs), Value::Struct(ys)) => {
                        lemma_values_eq_iff_pointwise(xs@, ys@);
                        assert forall|i: int| 0 <= i < fields@.len() && i < xs@.len() implies
                            value_matches_type(xs@[i], #[trigger] fields@[i].data_type)
                                == value_matches_type(ys@[i], fields@[i].data_type) by {
                            lemma_value_eq_matches_type(xs@[i], ys@[i], fields@[i].data_type);
                        }
                        lemma_struct_values_match_iff_pointwise(xs@, fields@);
                        lemma_struct_values_match_iff_pointwise(ys@, fields@);
                    },
                    _ => {},
                }
            },
        }
    }
}

/// Structurally equal types admit the same values.
pub proof fn lemma_data_type_eq_matches_type(v: Value, t1: DataType, t2: DataType)
    ensures
        data_type_eq(t1, t2) ==> value_matches_type(v, t1) == value_matches_type(v, t2),
    decreases t1,
{
    if data_type_eq(t1, t2) {
        match (t1, t2) {
            (DataType::Struct(fa), DataType::Struct(fb)) => {
                lemma_fields_eq_iff_pointwise(fa@, fb@);
                match v {
                    Value::Struct(vs) => {
                        lemma_struct_values_match_iff_pointwise(vs@, fa@);
                        lemma_struct_values_match_iff_pointwise(vs@, fb@);
                        if vs@.len() == fa@.len() {
                            assert forall|i: int| 0 <= i < fa@.len() implies value_matches_type(
                                vs@[i],
                                #[trigger] fa@[i].data_type,
                            ) == value_matches_type(vs@[i], fb@[i].data_type) by {
                                assert(field_eq(fa@[i], fb@[i]));
                                lemma_data_type_eq_matches_type(
                                    vs@[i],
                                    fa@[i].data_type,
                                    fb@[i].data_type,
                                );
                            }
                            if struct_values_match(vs@, fa@) {
                                assert forall|i: int| 0 <= i < fb@.len() implies value_matches_type(
                                    vs@[i],
                                    #[trigger] fb@[i].data_type,
                                ) by {
                                    assert(value_matches_type(vs@[i], fa@[i].data_type));
                                }
                                assert(struct_values_match(vs@, fb@));
                            }
                            if struct_values_match(vs@, fb@) {
                                assert forall|i: int| 0 <= i < fa@.len() implies value_matches_type(
                                    vs@[i],
                                    #[trigger] fa@[i].data_type,
                                ) by {
                                    assert(value_matches_type(vs@[i], fb@[i].data_type));
                                }
                                assert(struct_values_match(vs@, fa@));
                            }
                        }
                    },
                    _ => {},
                }
            },
            _ => {},
        }
    }
}

/// Decide equality of two string slices, character by character.
pub fn strings_equal(a: &str, b: &str) -> (r: bool)
    ensures
        r == (a@ == b@),
{
    let a_len = a.unicode_len();
    let b_len = b.unicode_len();
    if a_len != b_len {
        proof {
            assert(a@ != b@) by {
                if a@ == b@ {
                    assert(a@.len() == b@.len());
                }
            }
        }
        return false;
    }
    let mut i: usize = 0;
    while i < a_len
        invariant
            a_len == a@.len(),
            b_len == b@.len(),
            a_len == b_len,
            0 <= i <= a_len,
            forall|j: int| 0 <= j < i ==> a@[j] == b@[j],
        decreases a_len - i,
    {
        if a.get_char(i) != b.get_char(i) {
            return false;
        }
        i += 1;
    }
    proof {
        assert(a@ =~= b@);
    }
    true
}

/// Decide equality of optional timezone annotations.
pub fn zones_equal(a: &Option<String>, b: &Option<String>) -> (r: bool)
    ensures
        r == zone_eq(*a, *b),
{
    match (a, b) {
        (Option::None, Option::None) => true,
        (Option::Some(x), Option::Some(y)) => strings_equal(x.as_str(), y.as_str()),
        _ => false,
    }
}

impl PrimitiveType {
    /// Decide structural equality of two primitive types.
    pub fn eq_type(&self, other: &PrimitiveType) -> (r: bool)
        ensures
            r == primitive_type_eq(*self, *other),
    {
        match (self, other) {
            (PrimitiveType::Boolean, PrimitiveType::Boolean) => true,
            (PrimitiveType::Int, PrimitiveType::Int) => true,
            (PrimitiveType::Long, PrimitiveType::Long) => true,
            (PrimitiveType::Str, PrimitiveType::Str) => true,
            (
                PrimitiveType::Timestamp { unit: ua, zone: za },
                PrimitiveType::Timestamp { unit: ub, zone: zb },
            ) => {
                let units_agree = match (ua, ub) {
                    (TimeUnit::Second, TimeUnit::Second) => true,
                    (TimeUnit::Millisecond, TimeUnit::Millisecond) => true,
                    (TimeUnit::Microsecond, TimeUnit::Microsecond) => true,
                    (TimeUnit::Nanosecond, TimeUnit::Nanosecond) => true,
                    _ => false,
                };
                units_agree && zones_equal(za, zb)
            },
            _ => false,
        }
    }

    /// Copy this primitive type.
    pub fn duplicate(&self) -> (r: PrimitiveType)
        ensures
            primitive_type_eq(*self, r),
    {
        match self {
            PrimitiveType::Boolean => PrimitiveType::Boolean,
            PrimitiveType::Int => PrimitiveType::Int,
            PrimitiveType::Long => PrimitiveType::Long,
            PrimitiveType::Str => PrimitiveType::Str,
            PrimitiveType::Timestamp { unit, zone } => {
                let z = match zone {
                    Option::Some(s) => Option::Some(s.clone()),
                    Option::None => Option::None,
                };
                PrimitiveType::Timestamp { unit: *unit, zone: z }
            },
        }
    }
}

impl DataType {
    /// Decide structural equality of two types.
    pub fn eq_type(&self, other: &DataType) -> (r: bool)
        ensures
            r == data_type_eq(*self, *other),
        decreases *self,
    {
        match (self, other) {
            (DataType::Primitive(pa), DataType::Primitive(pb)) => pa.eq_type(pb),
            (DataType::Struct(fa), DataType::Struct(fb)) => {
                if fa.len() != fb.len() {
                    proof {
                        lemma_fields_eq_iff_pointwise(fa@, fb@);
                    }
                    return false;
                }
                let mut i: usize = 0;
                while i < fa.len()
                    invariant
                        *self == DataType::Struct(*fa),
                        *other == DataType::Struct(*fb),
                        fa@.len() == fb@.len(),
                        0 <= i <= fa@.len(),
                        forall|j: int| 0 <= j < i ==> #[trigger] field_eq(fa@[j], fb@[j]),
                    decreases fa@.len() - i,
                {
                    let fx = &fa[i];
                    let fy = &fb[i];
                    if fx.id != fy.id {
                        proof {
                            assert(!field_eq(fa@[i as int], fb@[i as int]));
                            lemma_fields_eq_iff_pointwise(fa@, fb@);
                        }
                        return false;
                    }
                    if !strings_equal(fx.name.as_str(), fy.name.as_str()) {
                        proof {
                            assert(!field_eq(fa@[i as int], fb@[i as int]));
                            lemma_fields_eq_iff_pointwise(fa@, fb@);
                        }
                        return false;
                    }
                    if fx.required != fy.required {
                        proof {
                            assert(!field_eq(fa@[i as int], fb@[i as int]));
                            lemma_fields_eq_iff_pointwise(fa@, fb@);
                        }
                        return false;
                    }
                    proof {
                        assert(decreases_to!(*self => (*self)->Struct_0));
                        assert((*self)->Struct_0 == *fa);
                        assert(decreases_to!(*fa => fa@));
                        assert(decreases_to!(fa@ => fa@[i as int]));
                        assert(decreases_to!(fa@[i as int] => fa@[i as int].data_type));
                    }
                    if !fx.data_type.eq_type(&fy.data_type) {
                        proof {
                            assert(!field_eq(fa@[i as int], fb@[i as int]));
                            lemma_fields_eq_iff_pointwise(fa@, fb@);
                        }
                        return false;
                    }
                    i += 1;
                }
                proof {
                    lemma_fields_eq_iff_pointwise(fa@, fb@);
                }
                true
            },
            _ => false,
        }
    }

    /// Copy this type.
    pub fn duplicate(&self) -> (r: DataType)
        ensures
            data_type_eq(*self, r),
        decreases *self,
    {
        match self {
            DataType::Primitive(p) => DataType::Primitive(p.duplicate()),
            DataType::Struct(fs) => {
                let mut out: Vec<Field> = Vec::new();
                let mut i: usize = 0;
                while i < fs.len()
                    invariant
                        *self == DataType::Struct(*fs),
                        0 <= i <= fs@.len(),
                        out@.len() == i,
                        forall|j: int| 0 <= j < i ==> #[trigger] field_eq(fs@[j], out@[j]),
                    decreases fs@.len() - i,
                {
                    proof {
                        assert(decreases_to!(*self => (*self)->Struct_0));
                        assert((*self)->Struct_0 == *fs);
                        assert(decreases_to!(*fs => fs@));
                        assert(decreases_to!(fs@ => fs@[i as int]));
                    }
                    let f = fs[i].duplicate();
                    out.push(f);
                    i += 1;
                }
                proof {
                    lemma_fields_eq_iff_pointwise(fs@, out@);
                }
                DataType::Struct(out)
            },
        }
    }
}

impl Field {
    /// Copy this field.
    pub fn duplicate(&self) -> (r: Field)
        ensures
            field_eq(*self, r),
        decreases *self,
    {
        proof {
            assert(decreases_to!(*self => self.data_type));
        }
        Field {
            id: self.id,
            name: self.name.clone(),
            required: self.required,
            data_type: self.data_type.duplicate(),
        }
    }
}

impl Schema {
    /// Copy this schema.
    pub fn duplicate(&self) -> (r: Schema)
        ensures
            fields_eq(self.fields@, r.fields@),
    {
        let mut out: Vec<Field> = Vec::new();
        let mut i: usize = 0;
        while i < self.fields.len()
            invariant
                0 <= i <= self.fields@.len(),
                out@.len() == i,
                forall|j: int| 0 <= j < i ==> #[trigger] field_eq(self.fields@[j], out@[j]),
            decreases self.fields@.len() - i,
        {
            let f = self.fields[i].duplicate();
            out.push(f);
            i += 1;
        }
        proof {
            lemma_fields_eq_iff_pointwise(self.fields@, out@);
        }
        Schema { fields: out }
    }
}

impl Value {
    /// Decide whether this value inhabits the given primitive type.
    pub fn matches_primitive(&self, t: &PrimitiveType) -> (r: bool)
        ensures
            r == value_matches_primitive(*self, *t),
    {
        match self {
            Value::Null => true,
            Value::Boolean(_) => matches!(t, PrimitiveType::Boolean),
            Value::Int(_) => matches!(t, PrimitiveType::Int),
            Value::Long(_) => matches!(t, PrimitiveType::Long),
            Value::Str(_) => matches!(t, PrimitiveType::Str),
            Value::Timestamp(_) => matches!(t, PrimitiveType::Timestamp { .. }),
            Value::Struct(_) => false,
        }
    }

    /// Decide whether this value inhabits the given type.
    pub fn matches_type(&self, t: &DataType) -> (r: bool)
        ensures
            r == value_matches_type(*self, *t),
        decreases *t,
    {
        match t {
            DataType::Primitive(p) => self.matches_primitive(p),
            DataType::Struct(fields) => match self {
                Value::Null => true,
                Value::Struct(vs) => {
                    if vs.len() != fields.len() {
                        proof {
                            lemma_struct_values_match_iff_pointwise(vs@, fields@);
                        }
                        return false;
                    }
                    let mut i: usize = 0;
                    while i < fields.len()
                        invariant
                            *t == DataType::Struct(*fields),
                            *self == Value::Struct(*vs),
                            vs@.len() == fields@.len(),
                            0 <= i <= fields@.len(),
                            forall|j: int|
                                0 <= j < i ==> value_matches_type(
                                    vs@[j],
                                    #[trigger] fields@[j].data_type,
                                ),
                        decreases fields@.len() - i,
                    {
                        proof {
                            assert(decreases_to!(*t => (*t)->Struct_0));
                            assert((*t)->Struct_0 == *fields);
                            assert(decreases_to!(*fields => fields@));
                            assert(decreases_to!(fields@ => fields@[i as int]));
                            assert(decreases_to!(
                                fields@[i as int] => fields@[i as int].data_type));
                        }
                        if !vs[i].matches_type(&fields[i].data_type) {
                            proof {
                                lemma_struct_values_match_iff_pointwise(vs@, fields@);
                            }
                            return false;
                        }
                        i += 1;
                    }
                    proof {
                        lemma_struct_values_match_iff_pointwise(vs@, fields@);
                    }
                    true
                },
                _ => false,
            },
        }
    }

    /// Decide structural equality of two values.
    pub fn eq_value(&self, other: &Value) -> (r: bool)
        ensures
            r == value_eq(*self, *other),
        decreases *self,
    {
        match (self, other) {
            (Value::Null, Value::Null) => true,
            (Value::Boolean(x), Value::Boolean(y)) => x == y,
            (Value::Int(x), Value::Int(y)) => x == y,
            (Value::Long(x), Value::Long(y)) => x == y,
            (Value::Str(x), Value::Str(y)) => strings_equal(x.as_str(), y.as_str()),
            (Value::Timestamp(x), Value::Timestamp(y)) => x == y,
            (Value::Struct(xs), Value::Struct(ys)) => {
                if xs.len() != ys.len() {
                    proof {
                        lemma_values_eq_iff_pointwise(xs@, ys@);
                    }
                    return false;
                }
                let mut i: usize = 0;
                while i < xs.len()
                    invariant
                        *self == Value::Struct(*xs),
                        *other == Value::Struct(*ys),
                        xs@.len() == ys@.len(),
                        0 <= i <= xs@.len(),
                        forall|j: int| 0 <= j < i ==> value_eq(#[trigger] xs@[j], ys@[j]),
                    decreases xs@.len() - i,
                {
                    proof {
                        assert(decreases_to!(*self => (*self)->Struct_0));
                        assert((*self)->Struct_0 == *xs);
                        assert(decreases_to!(*xs => xs@));
                        assert(decreases_to!(xs@ => xs@[i as int]));
                    }
                    if !xs[i].eq_value(&ys[i]) {
                        proof {
                            assert(!value_eq(xs@[i as int], ys@[i as int]));
                            lemma_values_eq_iff_pointwise(xs@, ys@);
                        }
                        return false;
                    }
                    i += 1;
                }
                proof {
                    lemma_values_eq_iff_pointwise(xs@, ys@);
                }
                true
            },
            _ => false,
        }
    }

    /// Copy this value.
    pub fn duplicate(&self) -> (r: Value)
        ensures
            value_eq(*self, r),
        decreases *self,
    {
        match self {
            Value::Null => Value::Null,
            Value::Boolean(x) => Value::Boolean(*x),
            Value::Int(x) => Value::Int(*x),
            Value::Long(x) => Value::Long(*x),
            Value::Str(x) => Value::Str(x.clone()),
            Value::Timestamp(x) => Value::Timestamp(*x),
            Value::Struct(xs) => {
                let mut out: Vec<Value> = Vec::new();
                let mut i: usize = 0;
                while i < xs.len()
                    invariant
                        *self == Value::Struct(*xs),
                        0 <= i <= xs@.len(),
                        out@.len() == i,
                        forall|j: int| 0 <= j < i ==> value_eq(#[trigger] xs@[j], out@[j]),
                    decreases xs@.len() - i,
                {
                    proof {
                        assert(decreases_to!(*self => (*self)->Struct_0));
                        assert((*self)->Struct_0 == *xs);
                        assert(decreases_to!(*xs => xs@));
                        assert(decreases_to!(xs@ => xs@[i as int]));
                    }
                    let v = xs[i].duplicate();
                    out.push(v);
                    i += 1;
                }
                proof {
                    lemma_values_eq_iff_pointwise(xs@, out@);
                }
                Value::Struct(out)
            },
        }
    }
}

/// `values_eq` is symmetric.
pub proof fn lemma_values_eq_symmetric(a: Seq<Value>, b: Seq<Value>)
    ensures
        values_eq(a, b) == values_eq(b, a),
{
    lemma_values_eq_iff_pointwise(a, b);
    lemma_values_eq_iff_pointwise(b, a);
    if values_eq(a, b) {
        assert forall|i: int| 0 <= i < b.len() implies value_eq(#[trigger] b[i], a[i]) by {
            lemma_value_eq_symmetric(a[i], b[i]);
        }
    }
    if values_eq(b, a) {
        assert forall|i: int| 0 <= i < a.len() implies value_eq(#[trigger] a[i], b[i]) by {
            lemma_value_eq_symmetric(b[i], a[i]);
        }
    }
}

/// `values_eq` is transitive.
pub proof fn lemma_values_eq_transitive(a: Seq<Value>, b: Seq<Value>, c: Seq<Value>)
    ensures
        values_eq(a, b) && values_eq(b, c) ==> values_eq(a, c),
{
    if values_eq(a, b) && values_eq(b, c) {
        lemma_values_eq_iff_pointwise(a, b);
        lemma_values_eq_iff_pointwise(b, c);
        lemma_values_eq_iff_pointwise(a, c);
        assert forall|i: int| 0 <= i < a.len() implies value_eq(#[trigger] a[i], c[i]) by {
            assert(value_eq(a[i], b[i]));
            assert(value_eq(b[i], c[i]));
            lemma_value_eq_transitive(a[i], b[i], c[i]);
        }
    }
}

} // verus!
