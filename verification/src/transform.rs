//! Partition transform functions: pure, deterministic functions deriving a
//! partition-relevant value from a source column's values.

use vstd::prelude::*;

use vstd::arithmetic::div_mod::{lemma_fundamental_div_mod, lemma_fundamental_div_mod_converse};

use crate::error::{Error, ErrorKind};
use crate::types::{value_eq, Value};

verus! {

/// The kind of a partition transform.
#[derive(Clone, Copy, Debug, PartialEq, Eq, Structural)]
pub enum Transform {
    /// The source value itself.
    Identity,
    /// Always null; partitions everything into one group.
    Void,
    /// Integers are floored to a multiple of the width; strings are cut to
    /// at most the width in characters.
    Truncate(u32),
}

/// `v` floored to the nearest multiple of `w` at or below it.
pub open spec fn truncate_int(v: int, w: int) -> int {
    v - (v % w)
}

/// The first `w` characters of `s`, or all of `s` when it is shorter.
pub open spec fn truncate_chars(s: Seq<char>, w: int) -> Seq<char> {
    if s.len() <= w {
        s
    } else {
        s.subrange(0, w)
    }
}

/// Whether applying `t` to `v` succeeds. Truncation is declared for null,
/// integer and string inputs and fails on any other variant; a floored
/// integer that leaves its type's range is rejected.
pub open spec fn apply_ok(t: Transform, v: Value) -> bool {
    match t {
        Transform::Identity => true,
        Transform::Void => true,
        Transform::Truncate(w) => match v {
            Value::Null => true,
            Value::Int(x) => truncate_int(x as int, w as int) >= i32::MIN as int,
            Value::Long(x) => truncate_int(x as int, w as int) >= i64::MIN as int,
            Value::Str(_) => true,
            _ => false,
        },
    }
}

/// What a successful application of `t` to `v` returns.
pub open spec fn apply_rel(t: Transform, v: Value, out: Value) -> bool {
    match t {
        Transform::Identity => value_eq(v, out),
        Transform::Void => out is Null,
        Transform::Truncate(w) => match v {
            Value::Null => out is Null,
            Value::Int(x) => out == Value::Int(truncate_int(x as int, w as int) as i32),
            Value::Long(x) => out == Value::Long(truncate_int(x as int, w as int) as i64),
            Value::Str(s) => match out {
                Value::Str(s2) => s2@ == truncate_chars(s@, w as int),
                _ => false,
            },
            _ => false,
        },
    }
}

impl Transform {
    /// A truncation width must be positive.
    pub open spec fn wf(self) -> bool {
        match self {
            Transform::Truncate(w) => w > 0,
            _ => true,
        }
    }

    /// Decide whether this transform is well-formed.
    pub fn is_valid(&self) -> (r: bool)
        ensures
            r == self.wf(),
    {
        match self {
            Transform::Truncate(w) => *w > 0,
            _ => true,
        }
    }

    /// Apply this transform to one value.
    pub fn apply(&self, v: &Value) -> (r: Result<Value, Error>)
        requires
            self.wf(),
        ensures
            r is Ok <==> apply_ok(*self, *v),
            r matches Ok(out) ==> apply_rel(*self, *v, out),
            r matches Err(e) ==> e.kind == ErrorKind::InvalidInput,
    {
        match self {
            Transform::Identity => Ok(v.duplicate()),
            Transform::Void => Ok(Value::Null),
            Transform::Truncate(w) => match v {
                Value::Null => Ok(Value::Null),
                Value::Int(x) => {
                    let wide = truncate_long_value(*x as i64, *w);
                    proof {
                        assert(truncate_int(*x as int, *w as int) >= i32::MIN as int ==> wide
                            is Some);
                    }
                    match wide {
                        Option::Some(t) => {
                            if t < i32::MIN as i64 {
                                Err(Error::new(
                                    ErrorKind::InvalidInput,
                                    "truncated value leaves the 32-bit integer range",
                                ))
                            } else {
                                Ok(Value::Int(t as i32))
                            }
                        },
                        Option::None => Err(Error::new(
                            ErrorKind::InvalidInput,
                            "truncated value leaves the 32-bit integer range",
                        )),
                    }
                },
                Value::Long(x) => match truncate_long_value(*x, *w) {
                    Option::Some(t) => Ok(Value::Long(t)),
                    Option::None => Err(Error::new(
                        ErrorKind::InvalidInput,
                        "truncated value leaves the 64-bit integer range",
                    )),
                },
                Value::Str(s) => {
                    let len = s.as_str().unicode_len();
                    let keep: usize = if (*w as usize) < len {
                        *w as usize
                    } else {
                        len
                    };
                    let prefix = s.as_str().substring_char(0, keep);
                    let out = String::from_str(prefix);
                    proof {
                        if s@.len() <= *w as int {
                            assert(s@.subrange(0, s@.len() as int) =~= s@);
                        }
                    }
                    Ok(Value::Str(out))
                },
                _ => Err(Error::new(
                    ErrorKind::InvalidInput,
                    "truncate applies to null, integer and string values only",
                )),
            },
        }
    }
}

/// Floor `v` to a multiple of `w`, or `None` when the result would fall
/// below the 64-bit range.
fn truncate_long_value(v: i64, w: u32) -> (r: Option<i64>)
    requires
        w > 0,
    ensures
        r is Some <==> truncate_int(v as int, w as int) >= i64::MIN as int,
        r matches Some(t) ==> t as int == truncate_int(v as int, w as int),
{
    let wi: i64 = w as i64;
    if v >= 0 {
        let rem: i64 = v % wi;
        proof {
            assert(rem as int == (v as int) % (wi as int));
            assert((v as int) % (wi as int) >= 0);
        }
        Some(v - rem)
    } else {
        let nv: i128 = -(v as i128);
        let wv: i128 = wi as i128;
        let m: i128 = nv % wv;
        let rem: i128 = if m == 0 {
            0
        } else {
            wv - m
        };
        proof {
            let vv = v as int;
            let ww = wi as int;
            let mm = m as int;
            lemma_fundamental_div_mod(-vv, ww);
            let q = (-vv) / ww;
            if mm == 0 {
                assert(vv == ww * (-q) + 0) by {
                    assert(-vv == ww * q + mm);
                    assert(ww * (-q) == -(ww * q)) by (nonlinear_arith);
                }
                lemma_fundamental_div_mod_converse(vv, ww, -q, 0);
            } else {
                assert(vv == ww * (-q - 1) + (ww - mm)) by {
                    assert(-vv == ww * q + mm);
                    assert(ww * (-q - 1) == -(ww * q) - ww) by (nonlinear_arith);
                }
                lemma_fundamental_div_mod_converse(vv, ww, -q - 1, ww - mm);
            }
            assert(rem as int == vv % ww);
        }
        let res: i128 = (v as i128) - rem;
        if res < i64::MIN as i128 {
            None
        } else {
            Some(res as i64)
        }
    }
}

/// Two successful applications of one transform to one value return
/// structurally equal results.
pub proof fn lemma_apply_rel_functional(t: Transform, v: Value, out1: Value, out2: Value)
    requires
        apply_rel(t, v, out1),
        apply_rel(t, v, out2),
    ensures
        value_eq(out1, out2),
{
    match t {
        Transform::Identity => {
            crate::types::lemma_value_eq_symmetric(v, out1);
            crate::types::lemma_value_eq_transitive(out1, v, out2);
        },
        Transform::Void => {},
        Transform::Truncate(_) => match (out1, out2) {
            (Value::Str(_), Value::Str(_)) => {},
            _ => {
                crate::types::lemma_value_eq_reflexive(out1);
            },
        },
    }
}

/// A transform's output inhabits every type its input inhabits.
pub proof fn lemma_apply_rel_preserves_match(t: Transform, v: Value, out: Value, dt: crate::types::DataType)
    requires
        apply_rel(t, v, out),
        crate::types::value_matches_type(v, dt),
    ensures
        crate::types::value_matches_type(out, dt),
{
    match t {
        Transform::Identity => {
            crate::types::lemma_value_eq_matches_type(v, out, dt);
        },
        _ => {},
    }
}

/// Applying a transform to structurally equal inputs succeeds on one
/// exactly when it succeeds on the other, and accepts the same outputs.
pub proof fn lemma_apply_respects_value_eq(t: Transform, v1: Value, v2: Value, out: Value)
    requires
        value_eq(v1, v2),
    ensures
        apply_ok(t, v1) == apply_ok(t, v2),
        apply_rel(t, v1, out) ==> apply_rel(t, v2, out),
{
    match t {
        Transform::Identity => {
            if apply_rel(t, v1, out) {
                crate::types::lemma_value_eq_symmetric(v1, v2);
                crate::types::lemma_value_eq_transitive(v2, v1, out);
            }
        },
        _ => {},
    }
}

/// A transform relates an input to every value structurally equal to one
/// related output.
pub proof fn lemma_apply_rel_respects_out(t: Transform, v: Value, out1: Value, out2: Value)
    requires
        apply_rel(t, v, out1),
        value_eq(out1, out2),
    ensures
        apply_rel(t, v, out2),
{
    match t {
        Transform::Identity => {
            crate::types::lemma_value_eq_transitive(v, out1, out2);
        },
        _ => {},
    }
}

} // verus!
