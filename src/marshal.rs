use vstd::prelude::*;

use crate::field::{Field, FieldType};
use crate::json::JsonValue;
use crate::sql::{named_cells, scalar_cell, value_to_sql, Cell, SqlValue};
use crate::table::{Columns, Table};

verus! {

/// Why a record cannot be written or a row cannot be read back.
#[derive(Debug, Clone, PartialEq, Eq)]
pub enum MarshalError {
    /// The record has no value for this column.
    MissingField(String),
    /// The record's value for this column is not a scalar.
    NotScalar(String),
    /// The row has no cell for this column.
    MissingColumn(String),
}

pub enum MarshalErrorView {
    MissingField(Seq<char>),
    NotScalar(Seq<char>),
    MissingColumn(Seq<char>),
}

impl View for MarshalError {
    type V = MarshalErrorView;

    open spec fn view(&self) -> MarshalErrorView {
        match self {
            MarshalError::MissingField(n) => MarshalErrorView::MissingField(n@),
            MarshalError::NotScalar(n) => MarshalErrorView::NotScalar(n@),
            MarshalError::MissingColumn(n) => MarshalErrorView::MissingColumn(n@),
        }
    }
}

/// What a record's field holds, as far as storing it is concerned.
pub enum FieldValue {
    Null,
    Bool(bool),
    Int(i64),
    Real(u64),
    Text(Seq<char>),
    Bytes(Seq<u8>),
    Other,
}

/// An array of integers, each within a byte's range.
pub open spec fn is_byte_array(a: Seq<JsonValue>) -> bool {
    forall|i: int|
        0 <= i < a.len() ==> match #[trigger] a[i] {
            JsonValue::Int(x) => 0 <= x <= 255,
            _ => false,
        }
}

pub open spec fn byte_seq(a: Seq<JsonValue>) -> Seq<u8> {
    a.map_values(
        |e: JsonValue|
            match e {
                JsonValue::Int(x) => x as u8,
                _ => 0u8,
            },
    )
}

pub open spec fn field_value(v: JsonValue) -> FieldValue {
    match v {
        JsonValue::Null => FieldValue::Null,
        JsonValue::Bool(b) => FieldValue::Bool(b),
        JsonValue::Int(i) => FieldValue::Int(i),
        JsonValue::Real(r) => FieldValue::Real(r),
        JsonValue::Str(s) => FieldValue::Text(s@),
        JsonValue::Array(a) => if is_byte_array(a@) {
            FieldValue::Bytes(byte_seq(a@))
        } else {
            FieldValue::Other
        },
        JsonValue::Object(_) => FieldValue::Other,
    }
}

/// The views of a record's (name, value) entries.
pub open spec fn doc_view(d: Seq<(String, JsonValue)>) -> Seq<(Seq<char>, FieldValue)> {
    d.map_values(|e: (String, JsonValue)| (e.0@, field_value(e.1)))
}

/// The cell a record's value is written as: a byte array becomes a blob,
/// and a nested value cannot be written.
pub open spec fn stored_cell(v: JsonValue) -> Option<Cell> {
    match v {
        JsonValue::Array(a) => if is_byte_array(a@) {
            Some(Cell::Blob(byte_seq(a@)))
        } else {
            None
        },
        JsonValue::Object(_) => None,
        _ => Some(scalar_cell(v)),
    }
}

/// The value a cell of a column of type `t` reads back as: in a boolean
/// column an integer is false when it is zero.
pub open spec fn cell_value(t: FieldType, c: Cell) -> FieldValue {
    match c {
        Cell::Null => FieldValue::Null,
        Cell::Integer(i) => if t == FieldType::Bool {
            FieldValue::Bool(i != 0)
        } else {
            FieldValue::Int(i)
        },
        Cell::Real(r) => FieldValue::Real(r),
        Cell::Text(s) => FieldValue::Text(s),
        Cell::Blob(b) => FieldValue::Bytes(b),
    }
}

/// The first value stored under `k`.
pub open spec fn lookup_json(doc: Seq<(String, JsonValue)>, k: Seq<char>) -> Option<JsonValue>
    decreases doc.len(),
{
    if doc.len() == 0 {
        None
    } else if doc[0].0@ == k {
        Some(doc[0].1)
    } else {
        lookup_json(doc.drop_first(), k)
    }
}

/// The first cell stored under `k`.
pub open spec fn lookup_cell(row: Seq<(Seq<char>, Cell)>, k: Seq<char>) -> Option<Cell>
    decreases row.len(),
{
    if row.len() == 0 {
        None
    } else if row[0].0 == k {
        Some(row[0].1)
    } else {
        lookup_cell(row.drop_first(), k)
    }
}

/// The named parameters for the first `n` columns.
pub open spec fn params_prefix(fields: Columns, doc: Seq<(String, JsonValue)>, n: nat) -> Result<
    Seq<(Seq<char>, Cell)>,
    MarshalErrorView,
>
    decreases n,
{
    if n == 0 {
        Ok(Seq::empty())
    } else {
        match params_prefix(fields, doc, (n - 1) as nat) {
            Err(e) => Err(e),
            Ok(ps) => {
                let name = fields[n - 1].0;
                match lookup_json(doc, name) {
                    None => Err(MarshalErrorView::MissingField(name)),
                    Some(v) => match stored_cell(v) {
                        None => Err(MarshalErrorView::NotScalar(name)),
                        Some(c) => Ok(ps.push((":"@ + name, c))),
                    },
                }
            },
        }
    }
}

/// The record read from the first `n` columns of a row.
pub open spec fn row_prefix(fields: Columns, row: Seq<(Seq<char>, Cell)>, n: nat) -> Result<
    Seq<(Seq<char>, FieldValue)>,
    MarshalErrorView,
>
    decreases n,
{
    if n == 0 {
        Ok(Seq::empty())
    } else {
        match row_prefix(fields, row, (n - 1) as nat) {
            Err(e) => Err(e),
            Ok(d) => {
                let name = fields[n - 1].0;
                match lookup_cell(row, name) {
                    None => Err(MarshalErrorView::MissingColumn(name)),
                    Some(c) => Ok(d.push((name, cell_value(fields[n - 1].1, c)))),
                }
            },
        }
    }
}

pub proof fn lemma_params_err_stays(fields: Columns, doc: Seq<(String, JsonValue)>, n: nat, m: nat)
    requires
        n <= m,
        params_prefix(fields, doc, n) is Err,
    ensures
        params_prefix(fields, doc, m) == params_prefix(fields, doc, n),
    decreases m - n,
{
    if n < m {
        lemma_params_err_stays(fields, doc, n, (m - 1) as nat);
    }
}

pub proof fn lemma_row_err_stays(fields: Columns, row: Seq<(Seq<char>, Cell)>, n: nat, m: nat)
    requires
        n <= m,
        row_prefix(fields, row, n) is Err,
    ensures
        row_prefix(fields, row, m) == row_prefix(fields, row, n),
    decreases m - n,
{
    if n < m {
        lemma_row_err_stays(fields, row, n, (m - 1) as nat);
    }
}

fn find_json<'a>(doc: &'a Vec<(String, JsonValue)>, k: &str) -> (r: Option<&'a JsonValue>)
    ensures
        match r {
            Some(v) => lookup_json(doc@, k@) == Some(*v),
            None => lookup_json(doc@, k@) is None,
        },
{
    let mut i: usize = 0;
    assert(doc@.subrange(0, doc@.len() as int) =~= doc@);
    while i < doc.len()
        invariant
            i <= doc@.len(),
            lookup_json(doc@, k@) == lookup_json(doc@.subrange(i as int, doc@.len() as int), k@),
        decreases doc@.len() - i,
    {
        let ghost rest = doc@.subrange(i as int, doc@.len() as int);
        assert(rest.drop_first() =~= doc@.subrange(i + 1, doc@.len() as int));
        if crate::text::same_text(doc[i].0.as_str(), k) {
            return Some(&doc[i].1);
        }
        i = i + 1;
    }
    None
}

fn find_cell<'a>(row: &'a Vec<(String, SqlValue)>, k: &str) -> (r: Option<&'a SqlValue>)
    ensures
        match r {
            Some(v) => lookup_cell(named_cells(row@), k@) == Some(v@),
            None => lookup_cell(named_cells(row@), k@) is None,
        },
{
    let ghost cells = named_cells(row@);
    let mut i: usize = 0;
    assert(cells.subrange(0, cells.len() as int) =~= cells);
    while i < row.len()
        invariant
            i <= row@.len(),
            cells == named_cells(row@),
            lookup_cell(cells, k@) == lookup_cell(cells.subrange(i as int, cells.len() as int), k@),
        decreases row@.len() - i,
    {
        let ghost rest = cells.subrange(i as int, cells.len() as int);
        assert(rest.drop_first() =~= cells.subrange(i + 1, cells.len() as int));
        if crate::text::same_text(row[i].0.as_str(), k) {
            return Some(&row[i].1);
        }
        i = i + 1;
    }
    None
}

/// The bytes of an array of integers, each within a byte's range.
fn bytes_of(a: &Vec<JsonValue>) -> (r: Option<Vec<u8>>)
    ensures
        match r {
            Some(b) => is_byte_array(a@) && b@ == byte_seq(a@),
            None => !is_byte_array(a@),
        },
{
    let mut bytes: Vec<u8> = Vec::new();
    let mut i: usize = 0;
    while i < a.len()
        invariant
            i <= a@.len(),
            bytes@ =~= byte_seq(a@.take(i as int)),
            is_byte_array(a@.take(i as int)),
        decreases a@.len() - i,
    {
        match &a[i] {
            JsonValue::Int(x) => {
                if *x < 0 || *x > 255 {
                    assert(!is_byte_array(a@)) by {
                        assert(match a@[i as int] { JsonValue::Int(x) => !(0 <= x <= 255), _ => true });
                    }
                    return None;
                }
                bytes.push(*x as u8);
            },
            _ => {
                assert(!is_byte_array(a@)) by {
                    assert(match a@[i as int] { JsonValue::Int(x) => false, _ => true });
                }
                return None;
            },
        }
        assert(a@.take(i + 1) =~= a@.take(i as int).push(a@[i as int]));
        i = i + 1;
    }
    assert(a@.take(a@.len() as int) =~= a@);
    Some(bytes)
}

/// The cell a record's value is written as, if it can be written.
pub fn json_to_sql(v: &JsonValue) -> (r: Option<SqlValue>)
    ensures
        match r {
            Some(c) => stored_cell(*v) == Some(c@),
            None => stored_cell(*v) is None,
        },
{
    match v {
        JsonValue::Object(_) => None,
        JsonValue::Array(a) => match bytes_of(a) {
            Some(bytes) => Some(SqlValue::Blob(bytes)),
            None => None,
        },
        _ => Some(value_to_sql(v)),
    }
}

/// The value a cell of a column of type `t` reads back as.
pub fn sql_to_json(t: FieldType, c: &SqlValue) -> (r: JsonValue)
    ensures
        field_value(r) == cell_value(t, c@),
{
    match c {
        SqlValue::Null => JsonValue::Null,
        SqlValue::Integer(i) => if t == FieldType::Bool {
            JsonValue::Bool(*i != 0)
        } else {
            JsonValue::Int(*i)
        },
        SqlValue::Real(r) => JsonValue::Real(*r),
        SqlValue::Text(s) => JsonValue::Str(s.clone()),
        SqlValue::Blob(b) => {
            let mut a: Vec<JsonValue> = Vec::new();
            let mut i: usize = 0;
            while i < b.len()
                invariant
                    i <= b@.len(),
                    a@.len() == i,
                    forall|k: int| 0 <= k < i ==> a@[k] == JsonValue::Int(b@[k] as i64),
                decreases b@.len() - i,
            {
                a.push(JsonValue::Int(b[i] as i64));
                i = i + 1;
            }
            assert(is_byte_array(a@));
            assert(byte_seq(a@) =~= b@);
            JsonValue::Array(a)
        },
    }
}

/// The named parameters that write a record: one per column, in column
/// order, named `:column`.
pub fn to_named_params(table: &Table, doc: &Vec<(String, JsonValue)>) -> (r: Result<
    Vec<(String, SqlValue)>,
    MarshalError,
>)
    ensures
        match r {
            Ok(ps) => params_prefix(table@.fields, doc@, table@.fields.len()) == Ok::<
                Seq<(Seq<char>, Cell)>,
                MarshalErrorView,
            >(named_cells(ps@)),
            Err(e) => params_prefix(table@.fields, doc@, table@.fields.len()) == Err::<
                Seq<(Seq<char>, Cell)>,
                MarshalErrorView,
            >(e@),
        },
{
    let fields = table.fields();
    let ghost cols = table@.fields;
    let mut ps: Vec<(String, SqlValue)> = Vec::new();
    let mut i: usize = 0;
    assert(named_cells(ps@) =~= Seq::<(Seq<char>, Cell)>::empty());
    while i < fields.len()
        invariant
            i <= fields@.len(),
            cols == table@.fields,
            fields@.map_values(|f: Field| f@) == cols,
            params_prefix(cols, doc@, i as nat) == Ok::<Seq<(Seq<char>, Cell)>, MarshalErrorView>(named_cells(ps@)),
        decreases fields@.len() - i,
    {
        let name = &fields[i].name;
        assert(cols[i as int].0 == name@);
        match find_json(doc, name.as_str()) {
            None => {
                proof { lemma_params_err_stays(cols, doc@, (i + 1) as nat, cols.len()); }
                return Err(MarshalError::MissingField(name.clone()));
            },
            Some(v) => match json_to_sql(v) {
                None => {
                    proof { lemma_params_err_stays(cols, doc@, (i + 1) as nat, cols.len()); }
                    return Err(MarshalError::NotScalar(name.clone()));
                },
                Some(c) => {
                    let mut p = String::new();
                    p.append(":");
                    p.append(name.as_str());
                    let ghost before = named_cells(ps@);
                    let ghost entry = (p@, c@);
                    ps.push((p, c));
                    assert(named_cells(ps@) =~= before.push(entry));
                },
            },
        }
        i = i + 1;
    }
    Ok(ps)
}

/// Reads a record back from a row: for each column, in column order, the
/// cell of that name.
pub fn from_row(table: &Table, row: &Vec<(String, SqlValue)>) -> (r: Result<
    Vec<(String, JsonValue)>,
    MarshalError,
>)
    ensures
        match r {
            Ok(d) => row_prefix(table@.fields, named_cells(row@), table@.fields.len()) == Ok::<
                Seq<(Seq<char>, FieldValue)>,
                MarshalErrorView,
            >(doc_view(d@)),
            Err(e) => row_prefix(table@.fields, named_cells(row@), table@.fields.len()) == Err::<
                Seq<(Seq<char>, FieldValue)>,
                MarshalErrorView,
            >(e@),
        },
{
    let fields = table.fields();
    let ghost cols = table@.fields;
    let ghost cells = named_cells(row@);
    let mut d: Vec<(String, JsonValue)> = Vec::new();
    let mut i: usize = 0;
    assert(doc_view(d@) =~= Seq::<(Seq<char>, FieldValue)>::empty());
    while i < fields.len()
        invariant
            i <= fields@.len(),
            cols == table@.fields,
            cells == named_cells(row@),
            fields@.map_values(|f: Field| f@) == cols,
            row_prefix(cols, cells, i as nat) == Ok::<Seq<(Seq<char>, FieldValue)>, MarshalErrorView>(doc_view(d@)),
        decreases fields@.len() - i,
    {
        let name = &fields[i].name;
        let typ = fields[i].typ;
        assert(cols[i as int] == (name@, typ));
        match find_cell(row, name.as_str()) {
            None => {
                proof { lemma_row_err_stays(cols, cells, (i + 1) as nat, cols.len()); }
                return Err(MarshalError::MissingColumn(name.clone()));
            },
            Some(c) => {
                let v = sql_to_json(typ, c);
                let ghost before = doc_view(d@);
                let ghost entry = (name@, field_value(v));
                d.push((name.clone(), v));
                assert(doc_view(d@) =~= before.push(entry));
            },
        }
        i = i + 1;
    }
    Ok(d)
}

/// The records read from the first `n` rows.
pub open spec fn rows_prefix(fields: Columns, rows: Seq<Vec<(String, SqlValue)>>, n: nat) -> Result<
    Seq<Seq<(Seq<char>, FieldValue)>>,
    MarshalErrorView,
>
    decreases n,
{
    if n == 0 {
        Ok(Seq::empty())
    } else {
        match rows_prefix(fields, rows, (n - 1) as nat) {
            Err(e) => Err(e),
            Ok(ds) => match row_prefix(fields, named_cells(rows[n - 1]@), fields.len()) {
                Err(e) => Err(e),
                Ok(d) => Ok(ds.push(d)),
            },
        }
    }
}

pub proof fn lemma_rows_err_stays(fields: Columns, rows: Seq<Vec<(String, SqlValue)>>, n: nat, m: nat)
    requires
        n <= m,
        rows_prefix(fields, rows, n) is Err,
    ensures
        rows_prefix(fields, rows, m) == rows_prefix(fields, rows, n),
    decreases m - n,
{
    if n < m {
        lemma_rows_err_stays(fields, rows, n, (m - 1) as nat);
    }
}

/// Reads back the records of a list of rows, in row order.
pub fn from_rows(table: &Table, rows: &Vec<Vec<(String, SqlValue)>>) -> (r: Result<
    Vec<Vec<(String, JsonValue)>>,
    MarshalError,
>)
    ensures
        match r {
            Ok(ds) => rows_prefix(table@.fields, rows@, rows@.len()) == Ok::<
                Seq<Seq<(Seq<char>, FieldValue)>>,
                MarshalErrorView,
            >(ds@.map_values(|d: Vec<(String, JsonValue)>| doc_view(d@))),
            Err(e) => rows_prefix(table@.fields, rows@, rows@.len()) == Err::<
                Seq<Seq<(Seq<char>, FieldValue)>>,
                MarshalErrorView,
            >(e@),
        },
{
    let mut ds: Vec<Vec<(String, JsonValue)>> = Vec::new();
    let mut i: usize = 0;
    assert(ds@.map_values(|d: Vec<(String, JsonValue)>| doc_view(d@)) =~= Seq::<
        Seq<(Seq<char>, FieldValue)>,
    >::empty());
    while i < rows.len()
        invariant
            i <= rows@.len(),
            rows_prefix(table@.fields, rows@, i as nat) == Ok::<Seq<Seq<(Seq<char>, FieldValue)>>, MarshalErrorView>(
                ds@.map_values(|d: Vec<(String, JsonValue)>| doc_view(d@)),
            ),
        decreases rows@.len() - i,
    {
        match from_row(table, &rows[i]) {
            Ok(d) => {
                let ghost before = ds@.map_values(|d: Vec<(String, JsonValue)>| doc_view(d@));
                let ghost dv = doc_view(d@);
                ds.push(d);
                assert(ds@.map_values(|d: Vec<(String, JsonValue)>| doc_view(d@)) =~= before.push(dv));
            },
            Err(e) => {
                proof { lemma_rows_err_stays(table@.fields, rows@, (i + 1) as nat, rows@.len()); }
                return Err(e);
            },
        }
        i = i + 1;
    }
    Ok(ds)
}

} // verus!
