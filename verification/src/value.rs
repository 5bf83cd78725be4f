//! One typed cell of a table, and the coercion of a raw token into a cell
//! under a column's declared type tag.

use vstd::prelude::*;
use crate::error::DbError;
use crate::float_syntax::is_float_literal;
use crate::float_syntax::is_float_token;
use crate::num::int32_of;
use crate::num::parse_i32;
use crate::strutil::str_eq;

verus! {

/// One typed cell: text, a 32-bit signed integer, or a 32-bit float.
/// A float cell keeps its validated literal text; turning the literal into
/// machine float form is presentation work outside the library.
#[derive(Debug, PartialEq)]
pub enum Value {
    Text(String),
    Int32(i32),
    Float32(String),
}

/// The mathematical shape of a cell: the same three variants over
/// character sequences and integers.
pub enum ValueModel {
    Text(Seq<char>),
    Int32(i32),
    Float32(Seq<char>),
}

impl View for Value {
    type V = ValueModel;

    open spec fn view(&self) -> ValueModel {
        match self {
            Value::Text(s) => ValueModel::Text(s@),
            Value::Int32(v) => ValueModel::Int32(*v),
            Value::Float32(s) => ValueModel::Float32(s@),
        }
    }
}

impl Value {
    /// An exact copy of the cell.
    pub fn duplicate(&self) -> (r: Value)
        ensures
            r == *self,
    {
        match self {
            Value::Text(s) => Value::Text(s.clone()),
            Value::Int32(v) => Value::Int32(*v),
            Value::Float32(s) => Value::Float32(s.clone()),
        }
    }
}

/// The cell, if any, that the raw token `raw` denotes under the type tag
/// `tag`: `int` asks for a 32-bit signed integer, `float` for a float
/// literal, and any other tag takes the token verbatim as text.
pub open spec fn coerce_spec(tag: Seq<char>, raw: Seq<char>) -> Option<ValueModel> {
    if tag == "int"@ {
        match int32_of(raw) {
            Some(v) => Some(ValueModel::Int32(v)),
            None => None,
        }
    } else if tag == "float"@ {
        if is_float_literal(raw) {
            Some(ValueModel::Float32(raw))
        } else {
            None
        }
    } else {
        Some(ValueModel::Text(raw))
    }
}

/// Coerces `raw` under `tag`, exactly as [`coerce_spec`] describes; a token
/// that does not parse as its column's declared numeric type is refused.
pub fn coerce(tag: &str, raw: &str) -> (r: Result<Value, DbError>)
    ensures
        match r {
            Ok(v) => coerce_spec(tag@, raw@) == Some(v@),
            Err(e) => coerce_spec(tag@, raw@) is None && e == DbError::TypeCoercion,
        },
{
    if str_eq(tag, "int") {
        match parse_i32(raw) {
            Some(v) => Ok(Value::Int32(v)),
            None => Err(DbError::TypeCoercion),
        }
    } else if str_eq(tag, "float") {
        if is_float_token(raw) {
            Ok(Value::Float32(raw.to_owned()))
        } else {
            Err(DbError::TypeCoercion)
        }
    } else {
        Ok(Value::Text(raw.to_owned()))
    }
}

} // verus!
