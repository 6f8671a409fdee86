use vstd::prelude::*;

verus! {

/// A JSON-shaped value, as filters are written and as records are laid out.
#[derive(Debug, PartialEq)]
pub enum JsonValue {
    Null,
    Bool(bool),
    Int(i64),
    /// A number with a fraction, held as the bit pattern of an IEEE double.
    Real(u64),
    Str(String),
    Array(Vec<JsonValue>),
    Object(Vec<(String, JsonValue)>),
}

impl JsonValue {
    /// Null, a boolean, a number or a string.
    pub open spec fn is_scalar(self) -> bool {
        !(self is Array) && !(self is Object)
    }
}

} // verus!
