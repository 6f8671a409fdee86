use vstd::prelude::*;

use crate::json::JsonValue;

verus! {

/// A value as the storage engine holds it in a cell or takes it as a
/// parameter. `Real` holds the bit pattern of an IEEE double.
#[derive(Debug, Clone, PartialEq)]
pub enum SqlValue {
    Null,
    Integer(i64),
    Real(u64),
    Text(String),
    Blob(Vec<u8>),
}

pub enum Cell {
    Null,
    Integer(i64),
    Real(u64),
    Text(Seq<char>),
    Blob(Seq<u8>),
}

impl View for SqlValue {
    type V = Cell;

    open spec fn view(&self) -> Cell {
        match self {
            SqlValue::Null => Cell::Null,
            SqlValue::Integer(i) => Cell::Integer(*i),
            SqlValue::Real(r) => Cell::Real(*r),
            SqlValue::Text(s) => Cell::Text(s@),
            SqlValue::Blob(b) => Cell::Blob(b@),
        }
    }
}

/// The cell that a scalar JSON value is stored or compared as; a boolean
/// becomes the integer 0 or 1.
pub open spec fn scalar_cell(v: JsonValue) -> Cell {
    match v {
        JsonValue::Bool(b) => Cell::Integer(if b { 1 } else { 0 }),
        JsonValue::Int(i) => Cell::Integer(i),
        JsonValue::Real(r) => Cell::Real(r),
        JsonValue::Str(s) => Cell::Text(s@),
        _ => Cell::Null,
    }
}

/// Converts a scalar JSON value to the engine's value.
pub fn value_to_sql(value: &JsonValue) -> (r: SqlValue)
    requires
        value.is_scalar(),
    ensures
        r@ == scalar_cell(*value),
{
    match value {
        JsonValue::Bool(b) => SqlValue::Integer(if *b { 1 } else { 0 }),
        JsonValue::Int(i) => SqlValue::Integer(*i),
        JsonValue::Real(r) => SqlValue::Real(*r),
        JsonValue::Str(s) => SqlValue::Text(s.clone()),
        _ => SqlValue::Null,
    }
}

/// The views of a list of named values.
pub open spec fn named_cells(p: Seq<(String, SqlValue)>) -> Seq<(Seq<char>, Cell)> {
    p.map_values(|e: (String, SqlValue)| (e.0@, e.1@))
}

} // verus!
