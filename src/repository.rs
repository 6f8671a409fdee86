use vstd::prelude::*;

use crate::filter::{compile_filter, compile_spec, where_clause_of, FilterError, FilterErrorView, FilterModel};
use crate::json::JsonValue;
use crate::marshal::{
    doc_view, from_rows, params_prefix, rows_prefix, to_named_params, FieldValue, MarshalError, MarshalErrorView,
};
use crate::sql::{named_cells, Cell, SqlValue};
use crate::table::{create_script_of, insert_script_of, select_all_script_of, select_script_of, Table, TableView};

verus! {

/// A statement for the storage engine: its text and the values of its
/// named parameters.
#[derive(Debug)]
pub struct Statement {
    pub sql: String,
    pub params: Vec<(String, SqlValue)>,
}

/// The store of one record type: it plans the statements that create its
/// table, write a record and read records, and reads the rows they return.
/// A record is a list of (field, value) entries; read back, its entries
/// follow the column order.
#[derive(Debug)]
pub struct Repository {
    table: Table,
}

impl View for Repository {
    type V = TableView;

    closed spec fn view(&self) -> TableView {
        self.table@
    }
}

impl Repository {
    pub fn new(table: Table) -> (r: Repository)
        ensures
            r@ == table@,
    {
        Repository { table }
    }

    pub fn table(&self) -> (r: &Table)
        ensures
            r@ == self@,
    {
        &self.table
    }

    /// Creates the table if it is not there yet; running it again changes
    /// nothing.
    pub fn create_statement(&self) -> (r: Statement)
        ensures
            r.sql@ == create_script_of(self@),
            r.params@.len() == 0,
    {
        Statement { sql: self.table.create_fts_script(), params: Vec::new() }
    }

    /// Reads every stored record.
    pub fn list_statement(&self) -> (r: Statement)
        ensures
            r.sql@ == select_all_script_of(self@),
            r.params@.len() == 0,
    {
        Statement { sql: self.table.select_all_script(), params: Vec::new() }
    }

    /// Writes one record and reads it back.
    pub fn insert_statement(&self, record: &Vec<(String, JsonValue)>) -> (r: Result<Statement, MarshalError>)
        ensures
            match r {
                Ok(s) => {
                    &&& s.sql@ == insert_script_of(self@)
                    &&& params_prefix(self@.fields, record@, self@.fields.len()) == Ok::<
                        Seq<(Seq<char>, Cell)>,
                        MarshalErrorView,
                    >(named_cells(s.params@))
                },
                Err(e) => params_prefix(self@.fields, record@, self@.fields.len()) == Err::<
                    Seq<(Seq<char>, Cell)>,
                    MarshalErrorView,
                >(e@),
            },
    {
        match to_named_params(&self.table, record) {
            Ok(params) => Ok(Statement { sql: self.table.insert_script(), params }),
            Err(e) => Err(e),
        }
    }

    /// Reads the records that a filter selects.
    pub fn find_statement(&self, filter: &JsonValue) -> (r: Result<Statement, FilterError>)
        ensures
            match r {
                Ok(s) => match compile_spec(*filter, self@) {
                    Ok(m) => {
                        &&& s.sql@ == select_script_of(self@, where_clause_of(m.conditions))
                        &&& named_cells(s.params@) == m.params
                    },
                    Err(_) => false,
                },
                Err(e) => compile_spec(*filter, self@) == Err::<FilterModel, FilterErrorView>(e@),
            },
    {
        match compile_filter(filter, &self.table) {
            Ok(c) => {
                let clause = c.where_clause();
                let sql = self.table.select_script(clause.as_str());
                Ok(Statement { sql, params: c.params })
            },
            Err(e) => Err(e),
        }
    }

    /// Reads back the records of the rows a statement returned, in row order.
    pub fn read_rows(&self, rows: &Vec<Vec<(String, SqlValue)>>) -> (r: Result<
        Vec<Vec<(String, JsonValue)>>,
        MarshalError,
    >)
        ensures
            match r {
                Ok(ds) => rows_prefix(self@.fields, rows@, rows@.len()) == Ok::<
                    Seq<Seq<(Seq<char>, FieldValue)>>,
                    MarshalErrorView,
                >(ds@.map_values(|d: Vec<(String, JsonValue)>| doc_view(d@))),
                Err(e) => rows_prefix(self@.fields, rows@, rows@.len()) == Err::<
                    Seq<Seq<(Seq<char>, FieldValue)>>,
                    MarshalErrorView,
                >(e@),
            },
    {
        from_rows(&self.table, rows)
    }
}

} // verus!
