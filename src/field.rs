use vstd::prelude::*;

verus! {

/// Storage type of a single scalar value, as found by classifying a sample.
#[derive(Debug, Clone, Copy, PartialEq, Eq, Structural)]
pub enum FieldType {
    Char,
    String,
    Bool,
    U8,
    U16,
    U32,
    U64,
    I8,
    I16,
    I32,
    I64,
    F32,
    F64,
    Bytes,
    Unsupported,
}

/// A named column of a table schema.
#[derive(Debug, Clone)]
pub struct Field {
    pub name: String,
    pub typ: FieldType,
}

impl View for Field {
    type V = (Seq<char>, FieldType);

    open spec fn view(&self) -> (Seq<char>, FieldType) {
        (self.name@, self.typ)
    }
}

/// Column type name used for a field of the given type.
pub open spec fn sqlite_type_of(t: FieldType) -> Seq<char> {
    match t {
        FieldType::Char => "CHARACTER(1)"@,
        FieldType::String => "TEXT"@,
        FieldType::Bool | FieldType::U8 | FieldType::I8 => "TINYINT"@,
        FieldType::U16 | FieldType::I16 => "SMALLINT"@,
        FieldType::U32 | FieldType::I32 => "INTEGER"@,
        FieldType::U64 | FieldType::I64 => "BIGINT"@,
        FieldType::F32 => "FLOAT"@,
        FieldType::F64 => "DOUBLE"@,
        FieldType::Bytes => "BLOB"@,
        FieldType::Unsupported => Seq::empty(),
    }
}

impl FieldType {
    pub fn sqlite_type(&self) -> (r: &'static str)
        requires
            *self != FieldType::Unsupported,
        ensures
            r@ == sqlite_type_of(*self),
    {
        match self {
            FieldType::Char => "CHARACTER(1)",
            FieldType::String => "TEXT",
            FieldType::Bool => "TINYINT",
            FieldType::U8 | FieldType::I8 => "TINYINT",
            FieldType::U16 | FieldType::I16 => "SMALLINT",
            FieldType::U32 | FieldType::I32 => "INTEGER",
            FieldType::U64 | FieldType::I64 => "BIGINT",
            FieldType::F32 => "FLOAT",
            FieldType::F64 => "DOUBLE",
            FieldType::Bytes => "BLOB",
            FieldType::Unsupported => "",
        }
    }
}

} // verus!
