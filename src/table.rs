use vstd::prelude::*;

use crate::field::{Field, FieldType};
use crate::text::{join, join_strings, same_text, views};

verus! {

/// Why a record description cannot become a table schema.
#[derive(Debug, Clone, PartialEq, Eq)]
pub enum SchemaError {
    /// A field named `rowid` that is not a 64-bit signed integer.
    InvalidRowId,
    /// A field whose sample value is not a scalar.
    UnsupportedFieldType(String),
    /// Two fields with the same name.
    DuplicateField(String),
    /// No column is left to store.
    NoFields,
}

pub enum SchemaErrorView {
    InvalidRowId,
    UnsupportedFieldType(Seq<char>),
    DuplicateField(Seq<char>),
    NoFields,
}

impl View for SchemaError {
    type V = SchemaErrorView;

    open spec fn view(&self) -> SchemaErrorView {
        match self {
            SchemaError::InvalidRowId => SchemaErrorView::InvalidRowId,
            SchemaError::UnsupportedFieldType(n) => SchemaErrorView::UnsupportedFieldType(n@),
            SchemaError::DuplicateField(n) => SchemaErrorView::DuplicateField(n@),
            SchemaError::NoFields => SchemaErrorView::NoFields,
        }
    }
}

/// The columns of a schema: (name, type) in declaration order.
pub type Columns = Seq<(Seq<char>, FieldType)>;

pub open spec fn names_of(cols: Columns) -> Seq<Seq<char>> {
    cols.map_values(|c: (Seq<char>, FieldType)| c.0)
}

/// The column names are pairwise distinct.
pub open spec fn distinct_names(cols: Columns) -> bool {
    forall|i: int, j: int| 0 <= i < j < cols.len() ==> cols[i].0 != cols[j].0
}

/// What every finished schema satisfies.
pub open spec fn valid_columns(cols: Columns) -> bool {
    &&& cols.len() > 0
    &&& distinct_names(cols)
    &&& forall|i: int| 0 <= i < cols.len() ==> cols[i].1 != FieldType::Unsupported
    &&& forall|i: int| 0 <= i < cols.len() ==> cols[i].0 != "rowid"@
}

pub struct TableView {
    pub name: Seq<char>,
    pub fields: Columns,
}

/// One field of the sample record taken into account.
pub open spec fn derive_step(acc: Columns, col: (Seq<char>, FieldType)) -> Result<Columns, SchemaErrorView> {
    if col.0 == "rowid"@ {
        if col.1 == FieldType::I64 {
            Ok(acc)
        } else {
            Err(SchemaErrorView::InvalidRowId)
        }
    } else if col.1 == FieldType::Unsupported {
        Err(SchemaErrorView::UnsupportedFieldType(col.0))
    } else if names_of(acc).contains(col.0) {
        Err(SchemaErrorView::DuplicateField(col.0))
    } else {
        Ok(acc.push(col))
    }
}

/// The columns accepted from the first `n` fields of the sample.
pub open spec fn derive_prefix(cols: Columns, n: nat) -> Result<Columns, SchemaErrorView>
    decreases n,
{
    if n == 0 {
        Ok(Seq::empty())
    } else {
        match derive_prefix(cols, (n - 1) as nat) {
            Err(e) => Err(e),
            Ok(acc) => derive_step(acc, cols[n - 1]),
        }
    }
}

/// The schema derived from a record type's name and its classified fields.
pub open spec fn derive_spec(record_name: Seq<char>, cols: Columns) -> Result<TableView, SchemaErrorView> {
    match derive_prefix(cols, cols.len()) {
        Err(e) => Err(e),
        Ok(fields) => if fields.len() == 0 {
            Err(SchemaErrorView::NoFields)
        } else {
            Ok(TableView { name: record_name + "s"@, fields })
        },
    }
}

pub open spec fn create_script_of(t: TableView) -> Seq<char> {
    "CREATE VIRTUAL TABLE IF NOT EXISTS "@ + t.name + " USING fts5 ("@ + join(names_of(t.fields), ","@)
        + ")"@
}

pub open spec fn placeholders(names: Seq<Seq<char>>) -> Seq<Seq<char>> {
    names.map_values(|n: Seq<char>| ":"@ + n)
}

pub open spec fn insert_script_of(t: TableView) -> Seq<char> {
    "INSERT INTO "@ + t.name + " ("@ + join(names_of(t.fields), ","@) + ") VALUES ("@ + join(
        placeholders(names_of(t.fields)),
        ","@,
    ) + ") RETURNING *"@
}

pub open spec fn select_all_script_of(t: TableView) -> Seq<char> {
    "SELECT * FROM "@ + t.name
}

pub open spec fn select_script_of(t: TableView, clause: Seq<char>) -> Seq<char> {
    "SELECT * FROM "@ + t.name + " WHERE "@ + clause
}

pub open spec fn cols_view(v: Seq<(String, FieldType)>) -> Columns {
    v.map_values(|c: (String, FieldType)| (c.0@, c.1))
}

/// The storage schema of one record type: a table name and its columns.
#[derive(Debug)]
pub struct Table {
    name: String,
    fields: Vec<Field>,
}

impl View for Table {
    type V = TableView;

    closed spec fn view(&self) -> TableView {
        TableView { name: self.name@, fields: self.fields@.map_values(|f: Field| f@) }
    }
}

impl Table {
    #[verifier::type_invariant]
    spec fn inv(&self) -> bool {
        valid_columns(self@.fields)
    }

    pub fn name(&self) -> (r: &String)
        ensures
            r@ == self@.name,
    {
        &self.name
    }

    pub fn fields(&self) -> (r: &Vec<Field>)
        ensures
            r@.map_values(|f: Field| f@) == self@.fields,
            valid_columns(self@.fields),
    {
        proof {
            use_type_invariant(self);
        }
        &self.fields
    }

    /// The first column, which stands for the record's identity.
    pub fn pk(&self) -> (r: &Field)
        ensures
            r@ == self@.fields[0],
    {
        proof {
            use_type_invariant(self);
        }
        &self.fields[0]
    }

    /// Whether the schema has a column of this name.
    pub fn has_field(&self, name: &str) -> (r: bool)
        ensures
            r == names_of(self@.fields).contains(name@),
    {
        let mut i: usize = 0;
        while i < self.fields.len()
            invariant
                i <= self.fields@.len(),
                forall|k: int| 0 <= k < i ==> self.fields@[k].name@ != name@,
            decreases self.fields@.len() - i,
        {
            if same_text(self.fields[i].name.as_str(), name) {
                assert(names_of(self@.fields)[i as int] == name@);
                return true;
            }
            i = i + 1;
        }
        assert forall|k: int| 0 <= k < names_of(self@.fields).len() implies names_of(
            self@.fields,
        )[k] != name@ by {
            assert(names_of(self@.fields)[k] == self.fields@[k].name@);
        }
        false
    }

    /// Derives the schema of a record type from its name and its fields in
    /// declaration order, each with the type its sample value was classified as.
    pub fn derive(record_name: &str, columns: &Vec<(String, FieldType)>) -> (r: Result<Table, SchemaError>)
        ensures
            match r {
                Ok(t) => derive_spec(record_name@, cols_view(columns@)) == Ok::<TableView, SchemaErrorView>(t@),
                Err(e) => derive_spec(record_name@, cols_view(columns@)) == Err::<TableView, SchemaErrorView>(e@),
            },
    {
        let ghost cols = cols_view(columns@);
        let mut fields: Vec<Field> = Vec::new();
        let mut i: usize = 0;
        assert(fields@.map_values(|f: Field| f@) =~= Seq::<(Seq<char>, FieldType)>::empty());
        while i < columns.len()
            invariant
                i <= columns@.len(),
                cols == cols_view(columns@),
                derive_prefix(cols, i as nat) == Ok::<Columns, SchemaErrorView>(fields@.map_values(|f: Field| f@)),
                distinct_names(fields@.map_values(|f: Field| f@)),
                forall|k: int| 0 <= k < fields@.len() ==> fields@[k].typ != FieldType::Unsupported,
                forall|k: int| 0 <= k < fields@.len() ==> fields@[k].name@ != "rowid"@,
            decreases columns@.len() - i,
        {
            let ghost acc = fields@.map_values(|f: Field| f@);
            assert(cols.len() == columns@.len());
            let name = &columns[i].0;
            let typ = columns[i].1;
            assert(cols[i as int] == (name@, typ));
            if same_text(name.as_str(), "rowid") {
                if typ != FieldType::I64 {
                    proof { lemma_derive_err_stays(cols, (i + 1) as nat, cols.len()); }
                    return Err(SchemaError::InvalidRowId);
                }
            } else if typ == FieldType::Unsupported {
                proof { lemma_derive_err_stays(cols, (i + 1) as nat, cols.len()); }
                return Err(SchemaError::UnsupportedFieldType(name.clone()));
            } else {
                let mut j: usize = 0;
                while j < fields.len()
                    invariant
                        j <= fields@.len(),
                        i < cols.len(),
                        cols == cols_view(columns@),
                        cols.len() == columns@.len(),
                        cols[i as int] == (name@, typ),
                        name@ != "rowid"@,
                        typ != FieldType::Unsupported,
                        derive_prefix(cols, i as nat) == Ok::<Columns, SchemaErrorView>(acc),
                        acc == fields@.map_values(|f: Field| f@),
                        forall|k: int| 0 <= k < j ==> fields@[k].name@ != name@,
                    decreases fields@.len() - j,
                {
                    if same_text(fields[j].name.as_str(), name.as_str()) {
                        proof {
                            assert(names_of(acc)[j as int] == name@);
                            assert(names_of(acc).contains(name@));
                            lemma_derive_err_stays(cols, (i + 1) as nat, cols.len());
                        }
                        return Err(SchemaError::DuplicateField(name.clone()));
                    }
                    j = j + 1;
                }
                assert(!names_of(acc).contains(name@)) by {
                    assert forall|k: int| 0 <= k < names_of(acc).len() implies names_of(acc)[k] != name@ by {
                        assert(names_of(acc)[k] == fields@[k].name@);
                    }
                }
                fields.push(Field { name: name.clone(), typ });
                assert(fields@.map_values(|f: Field| f@) =~= acc.push((name@, typ)));
            }
            i = i + 1;
        }
        assert(cols.len() == columns@.len());
        if fields.len() == 0 {
            return Err(SchemaError::NoFields);
        }
        let mut table_name = String::new();
        table_name.append(record_name);
        table_name.append("s");
        Ok(Table { name: table_name, fields })
    }

    fn column_names(&self, prefix: &str) -> (r: Vec<String>)
        ensures
            views(r@) == names_of(self@.fields).map_values(|n: Seq<char>| prefix@ + n),
    {
        let mut r: Vec<String> = Vec::new();
        let mut i: usize = 0;
        while i < self.fields.len()
            invariant
                i <= self.fields@.len(),
                views(r@) == names_of(self@.fields).take(i as int).map_values(|n: Seq<char>| prefix@ + n),
            decreases self.fields@.len() - i,
        {
            let mut s = String::new();
            s.append(prefix);
            s.append(self.fields[i].name.as_str());
            let ghost before = r@;
            assert(names_of(self@.fields)[i as int] == self.fields@[i as int].name@);
            r.push(s);
            assert(views(r@) =~= views(before).push(s@));
            assert(views(r@) =~= names_of(self@.fields).take(i + 1).map_values(|n: Seq<char>| prefix@ + n));
            i = i + 1;
        }
        assert(names_of(self@.fields).take(self.fields@.len() as int) =~= names_of(self@.fields));
        r
    }

    /// The statement that creates the table, once, as a full-text index
    /// over all columns.
    pub fn create_fts_script(&self) -> (r: String)
        ensures
            r@ == create_script_of(self@),
    {
        let names = self.column_names("");
        proof {
            reveal_strlit("");
            assert(names_of(self@.fields).map_values(|n: Seq<char>| ""@ + n) =~= names_of(self@.fields)) by {
                assert forall|k: int| 0 <= k < names_of(self@.fields).len() implies ""@ + names_of(self@.fields)[k]
                    =~= names_of(self@.fields)[k] by {}
            }
        }
        let mut r = String::new();
        r.append("CREATE VIRTUAL TABLE IF NOT EXISTS ");
        r.append(self.name.as_str());
        r.append(" USING fts5 (");
        let cols = join_strings(&names, ",");
        r.append(cols.as_str());
        r.append(")");
        r
    }

    /// The statement that writes one record, each column bound to the
    /// parameter of its own name, and reads it back.
    pub fn insert_script(&self) -> (r: String)
        ensures
            r@ == insert_script_of(self@),
    {
        let names = self.column_names("");
        proof {
            reveal_strlit("");
            assert(names_of(self@.fields).map_values(|n: Seq<char>| ""@ + n) =~= names_of(self@.fields)) by {
                assert forall|k: int| 0 <= k < names_of(self@.fields).len() implies ""@ + names_of(self@.fields)[k]
                    =~= names_of(self@.fields)[k] by {}
            }
        }
        let params = self.column_names(":");
        let mut r = String::new();
        r.append("INSERT INTO ");
        r.append(self.name.as_str());
        r.append(" (");
        let cols = join_strings(&names, ",");
        r.append(cols.as_str());
        r.append(") VALUES (");
        let vals = join_strings(&params, ",");
        r.append(vals.as_str());
        r.append(") RETURNING *");
        r
    }

    /// The statement that reads every stored record.
    pub fn select_all_script(&self) -> (r: String)
        ensures
            r@ == select_all_script_of(self@),
    {
        let mut r = String::new();
        r.append("SELECT * FROM ");
        r.append(self.name.as_str());
        r
    }

    /// The statement that reads the records for which `clause` holds.
    pub fn select_script(&self, clause: &str) -> (r: String)
        ensures
            r@ == select_script_of(self@, clause@),
    {
        let mut r = String::new();
        r.append("SELECT * FROM ");
        r.append(self.name.as_str());
        r.append(" WHERE ");
        r.append(clause);
        r
    }
}

/// Once a prefix of the fields is refused, so is every longer one.
pub proof fn lemma_derive_err_stays(cols: Columns, n: nat, m: nat)
    requires
        n <= m,
        derive_prefix(cols, n) is Err,
    ensures
        derive_prefix(cols, m) == derive_prefix(cols, n),
    decreases m - n,
{
    if n < m {
        lemma_derive_err_stays(cols, n, (m - 1) as nat);
    }
}

} // verus!
