use vstd::prelude::*;

use crate::field::FieldType;
use crate::filter::{
    bind_spec, compile_prefix, compile_spec, empty_model, lemma_compile_err_stays, op_index, op_suffix,
    op_symbol, operands_bind_prefix, operands_prefix, param_names, where_clause_of, FilterErrorView,
    FilterModel,
};
use crate::json::JsonValue;
use crate::marshal::{
    cell_value, field_value, is_byte_array, lookup_cell, lookup_json, params_prefix, row_prefix,
    stored_cell, FieldValue, MarshalErrorView,
};
use crate::sql::{scalar_cell, Cell};
use crate::table::{
    derive_prefix, derive_spec, lemma_derive_err_stays, names_of, valid_columns, Columns, TableView,
};

verus! {

// ----- filters -----

/// An empty filter selects every record: it compiles to the always-true
/// clause `1=1` and binds no parameter.
pub proof fn lemma_empty_filter_selects_all(entries: Vec<(String, JsonValue)>, t: TableView)
    requires
        entries@.len() == 0,
    ensures
        compile_spec(JsonValue::Object(entries), t) == Ok::<FilterModel, FilterErrorView>(empty_model()),
        where_clause_of(empty_model().conditions) == "1=1"@,
{
}

proof fn lemma_unknown_prefix(entries: Seq<(String, JsonValue)>, names: Seq<Seq<char>>, n: nat)
    requires
        n <= entries.len(),
        forall|i: int| 0 <= i < entries.len() ==> !names.contains(#[trigger] entries[i].0@),
    ensures
        compile_prefix(entries, names, n) == Ok::<FilterModel, FilterErrorView>(empty_model()),
    decreases n,
{
    if n > 0 {
        lemma_unknown_prefix(entries, names, (n - 1) as nat);
        assert(!names.contains(entries[n - 1].0@));
    }
}

/// A filter whose keys are all outside the schema is dropped whole: it
/// compiles as the empty filter does.
pub proof fn lemma_unknown_keys_dropped(entries: Vec<(String, JsonValue)>, t: TableView)
    requires
        forall|i: int| 0 <= i < entries@.len() ==> !names_of(t.fields).contains(#[trigger] entries@[i].0@),
    ensures
        compile_spec(JsonValue::Object(entries), t) == Ok::<FilterModel, FilterErrorView>(empty_model()),
{
    lemma_unknown_prefix(entries@, names_of(t.fields), entries@.len());
}

/// A filter that gives a schema field an array as its value is refused.
pub proof fn lemma_array_value_refused(entries: Vec<(String, JsonValue)>, t: TableView, i: int)
    requires
        0 <= i < entries@.len(),
        names_of(t.fields).contains(entries@[i].0@),
        entries@[i].1 is Array,
    ensures
        compile_spec(JsonValue::Object(entries), t) is Err,
{
    let names = names_of(t.fields);
    let n = entries@.len();
    match compile_prefix(entries@, names, i as nat) {
        Err(_) => {
            lemma_compile_err_stays(entries@, names, i as nat, n);
        },
        Ok(_) => {
            assert(compile_prefix(entries@, names, (i + 1) as nat) is Err);
            lemma_compile_err_stays(entries@, names, (i + 1) as nat, n);
        },
    }
}

/// The parameter names of a compiled filter are pairwise distinct.
pub open spec fn distinct_params(m: FilterModel) -> bool {
    forall|i: int, j: int| 0 <= i < j < m.params.len() ==> m.params[i].0 != m.params[j].0
}

proof fn lemma_bind_keeps_distinct(st: FilterModel, cond: Seq<char>, name: Seq<char>, value: Cell)
    requires
        distinct_params(st),
    ensures
        bind_spec(st, cond, name, value) matches Ok(m) ==> distinct_params(m),
{
    if !param_names(st.params).contains(name) {
        assert forall|k: int| 0 <= k < st.params.len() implies st.params[k].0 != name by {
            assert(param_names(st.params)[k] == st.params[k].0);
        }
    }
}

proof fn lemma_operands_keep_distinct(st: FilterModel, field: Seq<char>, slots: Seq<Option<Cell>>, n: nat)
    requires
        distinct_params(st),
    ensures
        operands_bind_prefix(st, field, slots, n) matches Ok(m) ==> distinct_params(m),
    decreases n,
{
    if n > 0 {
        lemma_operands_keep_distinct(st, field, slots, (n - 1) as nat);
        if let Ok(s) = operands_bind_prefix(st, field, slots, (n - 1) as nat) {
            let i = n - 1;
            match slots[i] {
                None => {},
                Some(Cell::Null) => {},
                Some(c) => {
                    lemma_bind_keeps_distinct(
                        s,
                        field + " "@ + op_symbol(i) + " :"@ + field + op_suffix(i),
                        ":"@ + field + op_suffix(i),
                        c,
                    );
                },
            }
        }
    }
}

proof fn lemma_compile_keeps_distinct(entries: Seq<(String, JsonValue)>, names: Seq<Seq<char>>, n: nat)
    ensures
        compile_prefix(entries, names, n) matches Ok(m) ==> distinct_params(m),
    decreases n,
{
    if n > 0 {
        lemma_compile_keeps_distinct(entries, names, (n - 1) as nat);
        if let Ok(st) = compile_prefix(entries, names, (n - 1) as nat) {
            let key = entries[n - 1].0@;
            let v = entries[n - 1].1;
            if names.contains(key) {
                match v {
                    JsonValue::Null => {},
                    JsonValue::Str(s) => {
                        lemma_bind_keeps_distinct(st, key + " MATCH :"@ + key, ":"@ + key, Cell::Text(s@));
                    },
                    JsonValue::Array(_) => {},
                    JsonValue::Object(ops) => {
                        if let Ok(slots) = operands_prefix(ops@, key, ops@.len()) {
                            lemma_operands_keep_distinct(st, key, slots, 6);
                        }
                    },
                    _ => {
                        lemma_bind_keeps_distinct(st, key + " = :"@ + key, ":"@ + key, scalar_cell(v));
                    },
                }
            }
        }
    } else {
        assert(distinct_params(empty_model()));
    }
}

/// No two values of a compiled filter are bound to the same parameter
/// name, so no bound value overwrites another.
pub proof fn lemma_compiled_params_distinct(filter: JsonValue, t: TableView)
    ensures
        compile_spec(filter, t) matches Ok(m) ==> distinct_params(m),
{
    if let JsonValue::Object(entries) = filter {
        lemma_compile_keeps_distinct(entries@, names_of(t.fields), entries@.len());
    }
}

/// An operator object made of the six comparison operators, each with a
/// scalar or null operand.
pub open spec fn plain_operators(ops: Seq<(String, JsonValue)>) -> bool {
    forall|i: int| 0 <= i < ops.len() ==> op_index((#[trigger] ops[i]).0@) is Some && ops[i].1.is_scalar()
}

/// A filter entry on a schema field whose value is a scalar, null or a
/// plain operator object.
pub open spec fn plain_entry(names: Seq<Seq<char>>, key: Seq<char>, v: JsonValue) -> bool {
    &&& names.contains(key)
    &&& match v {
        JsonValue::Array(_) => false,
        JsonValue::Object(ops) => plain_operators(ops@),
        _ => true,
    }
}

proof fn lemma_plain_operands_read(ops: Seq<(String, JsonValue)>, field: Seq<char>, n: nat)
    requires
        n <= ops.len(),
        plain_operators(ops),
    ensures
        operands_prefix(ops, field, n) is Ok,
    decreases n,
{
    if n > 0 {
        lemma_plain_operands_read(ops, field, (n - 1) as nat);
        assert(op_index(ops[n - 1].0@) is Some && ops[n - 1].1.is_scalar());
    }
}

proof fn lemma_operand_binds_only_clash(st: FilterModel, field: Seq<char>, slots: Seq<Option<Cell>>, n: nat)
    ensures
        operands_bind_prefix(st, field, slots, n) matches Err(e) ==> e is DuplicateParameter,
    decreases n,
{
    if n > 0 {
        lemma_operand_binds_only_clash(st, field, slots, (n - 1) as nat);
    }
}

proof fn lemma_plain_prefix_only_clash(entries: Seq<(String, JsonValue)>, names: Seq<Seq<char>>, n: nat)
    requires
        n <= entries.len(),
        forall|i: int| 0 <= i < entries.len() ==> plain_entry(names, (#[trigger] entries[i]).0@, entries[i].1),
    ensures
        compile_prefix(entries, names, n) matches Err(e) ==> e is DuplicateParameter,
    decreases n,
{
    if n > 0 {
        lemma_plain_prefix_only_clash(entries, names, (n - 1) as nat);
        if let Ok(st) = compile_prefix(entries, names, (n - 1) as nat) {
            let key = entries[n - 1].0@;
            let v = entries[n - 1].1;
            assert(plain_entry(names, key, v));
            if let JsonValue::Object(ops) = v {
                lemma_plain_operands_read(ops@, key, ops@.len());
                if let Ok(slots) = operands_prefix(ops@, key, ops@.len()) {
                    lemma_operand_binds_only_clash(st, key, slots, 6);
                }
            }
        }
    }
}

/// A filter made only of equality, null and the six comparison operators
/// on schema fields compiles, unless two of its values would be bound to
/// one parameter name.
pub proof fn lemma_plain_filter_compiles(entries: Vec<(String, JsonValue)>, t: TableView)
    requires
        forall|i: int| 0 <= i < entries@.len() ==> plain_entry(names_of(t.fields), (#[trigger] entries@[i]).0@, entries@[i].1),
    ensures
        compile_spec(JsonValue::Object(entries), t) matches Err(e) ==> e is DuplicateParameter,
{
    lemma_plain_prefix_only_clash(entries@, names_of(t.fields), entries@.len());
}

// ----- schemas -----

/// A record with a field whose value is not a scalar has no schema, so no
/// repository and no statement exist for it.
pub proof fn lemma_nonscalar_field_refused(record_name: Seq<char>, cols: Columns, i: int)
    requires
        0 <= i < cols.len(),
        cols[i].1 == FieldType::Unsupported,
    ensures
        derive_spec(record_name, cols) is Err,
{
    match derive_prefix(cols, i as nat) {
        Err(_) => {
            lemma_derive_err_stays(cols, i as nat, cols.len());
        },
        Ok(_) => {
            assert(derive_prefix(cols, (i + 1) as nat) is Err);
            lemma_derive_err_stays(cols, (i + 1) as nat, cols.len());
        },
    }
}

// ----- records -----

/// A value that a column of type `t` stores and reads back unchanged.
pub open spec fn conforms(t: FieldType, v: JsonValue) -> bool {
    match v {
        JsonValue::Null => true,
        JsonValue::Bool(_) => t == FieldType::Bool,
        JsonValue::Int(_) => t != FieldType::Bool && t != FieldType::String && t != FieldType::Char && t
            != FieldType::Bytes,
        JsonValue::Real(_) => t == FieldType::F32 || t == FieldType::F64,
        JsonValue::Str(_) => t == FieldType::String || t == FieldType::Char,
        JsonValue::Array(a) => t == FieldType::Bytes && is_byte_array(a@),
        JsonValue::Object(_) => false,
    }
}

/// The record has, for every column, a value that the column holds.
pub open spec fn record_conforms(t: TableView, doc: Seq<(String, JsonValue)>) -> bool {
    forall|i: int|
        0 <= i < t.fields.len() ==> match #[trigger] lookup_json(doc, t.fields[i].0) {
            Some(v) => conforms(t.fields[i].1, v),
            None => false,
        }
}

/// The row that the engine returns for a written record: each column under
/// its own name, holding the value bound to its parameter.
pub open spec fn stored_row(params: Seq<(Seq<char>, Cell)>) -> Seq<(Seq<char>, Cell)> {
    params.map_values(|p: (Seq<char>, Cell)| (p.0.drop_first(), p.1))
}

/// The record's value for each column, in column order.
pub open spec fn record_values(t: TableView, doc: Seq<(String, JsonValue)>) -> Seq<(Seq<char>, FieldValue)> {
    t.fields.map_values(
        |f: (Seq<char>, FieldType)|
            (
                f.0,
                match lookup_json(doc, f.0) {
                    Some(v) => field_value(v),
                    None => FieldValue::Other,
                },
            ),
    )
}

spec fn param_of(t: TableView, doc: Seq<(String, JsonValue)>, j: int) -> (Seq<char>, Cell) {
    (
        ":"@ + t.fields[j].0,
        match lookup_json(doc, t.fields[j].0) {
            Some(v) => match stored_cell(v) {
                Some(c) => c,
                None => Cell::Null,
            },
            None => Cell::Null,
        },
    )
}

proof fn lemma_params_shape(t: TableView, doc: Seq<(String, JsonValue)>, n: nat)
    requires
        n <= t.fields.len(),
        record_conforms(t, doc),
    ensures
        params_prefix(t.fields, doc, n) == Ok::<Seq<(Seq<char>, Cell)>, MarshalErrorView>(
            Seq::new(n, |j: int| param_of(t, doc, j)),
        ),
    decreases n,
{
    if n > 0 {
        let j = n - 1;
        lemma_params_shape(t, doc, (n - 1) as nat);
        let v = lookup_json(doc, t.fields[j].0);
        assert(v matches Some(x) && conforms(t.fields[j].1, x));
        assert(stored_cell(v->Some_0) is Some);
        assert(Seq::new((n - 1) as nat, |k: int| param_of(t, doc, k)).push(param_of(t, doc, j)) =~= Seq::new(
            n,
            |k: int| param_of(t, doc, k),
        ));
    } else {
        assert(Seq::new(0, |k: int| param_of(t, doc, k)) =~= Seq::<(Seq<char>, Cell)>::empty());
    }
}

proof fn lemma_lookup_distinct(row: Seq<(Seq<char>, Cell)>, j: int)
    requires
        0 <= j < row.len(),
        forall|a: int, b: int| 0 <= a < b < row.len() ==> row[a].0 != row[b].0,
    ensures
        lookup_cell(row, row[j].0) == Some(row[j].1),
    decreases j,
{
    if j > 0 {
        let rest = row.drop_first();
        assert(row[0].0 != row[j].0);
        assert(rest[j - 1] == row[j]);
        lemma_lookup_distinct(rest, j - 1);
    }
}

proof fn lemma_read_shape(t: TableView, doc: Seq<(String, JsonValue)>, row: Seq<(Seq<char>, Cell)>, n: nat)
    requires
        n <= t.fields.len(),
        valid_columns(t.fields),
        record_conforms(t, doc),
        row.len() == t.fields.len(),
        forall|j: int| 0 <= j < row.len() ==> #[trigger] row[j] == (t.fields[j].0, param_of(t, doc, j).1),
    ensures
        row_prefix(t.fields, row, n) == Ok::<Seq<(Seq<char>, FieldValue)>, MarshalErrorView>(
            record_values(t, doc).take(n as int),
        ),
    decreases n,
{
    if n > 0 {
        let j = n - 1;
        lemma_read_shape(t, doc, row, (n - 1) as nat);
        assert forall|a: int, b: int| 0 <= a < b < row.len() implies row[a].0 != row[b].0 by {
            assert(row[a].0 == t.fields[a].0);
            assert(row[b].0 == t.fields[b].0);
        }
        assert(row[j].0 == t.fields[j].0);
        lemma_lookup_distinct(row, j);
        let v = lookup_json(doc, t.fields[j].0)->Some_0;
        assert(lookup_json(doc, t.fields[j].0) matches Some(x) && conforms(t.fields[j].1, x));
        assert(cell_value(t.fields[j].1, param_of(t, doc, j).1) == field_value(v)) by {
            if let JsonValue::Array(a) = v {
                assert(is_byte_array(a@));
            }
        }
        assert(record_values(t, doc).take(n as int) =~= record_values(t, doc).take(j).push(
            (t.fields[j].0, field_value(v)),
        ));
    } else {
        assert(record_values(t, doc).take(0) =~= Seq::<(Seq<char>, FieldValue)>::empty());
    }
}

/// A record that has, for every column, a value the column holds is read
/// back unchanged: its parameters, stored under the columns' names, read
/// back as the record's own values in column order.
pub proof fn lemma_write_read_round_trip(t: TableView, doc: Seq<(String, JsonValue)>)
    requires
        valid_columns(t.fields),
        record_conforms(t, doc),
    ensures
        match params_prefix(t.fields, doc, t.fields.len()) {
            Ok(ps) => row_prefix(t.fields, stored_row(ps), t.fields.len()) == Ok::<
                Seq<(Seq<char>, FieldValue)>,
                MarshalErrorView,
            >(record_values(t, doc)),
            Err(_) => false,
        },
{
    let n = t.fields.len();
    lemma_params_shape(t, doc, n);
    let ps = Seq::new(n, |j: int| param_of(t, doc, j));
    let row = stored_row(ps);
    assert forall|j: int| 0 <= j < row.len() implies #[trigger] row[j] == (t.fields[j].0, param_of(t, doc, j).1) by {
        reveal_strlit(":");
        assert((":"@ + t.fields[j].0).drop_first() =~= t.fields[j].0);
    }
    lemma_read_shape(t, doc, row, n);
    assert(record_values(t, doc).take(n as int) =~= record_values(t, doc));
}

} // verus!
