use pacdb::field::FieldType;
use pacdb::filter::FilterError;
use pacdb::json::JsonValue;
use pacdb::marshal::MarshalError;
use pacdb::repository::{Repository, Statement};
use pacdb::sql::SqlValue;
use pacdb::table::{SchemaError, Table};
use rusqlite::types::{Value, ValueRef};
use rusqlite::{Connection, ToSql};

fn engine_value(v: &SqlValue) -> Value {
    match v {
        SqlValue::Null => Value::Null,
        SqlValue::Integer(i) => Value::Integer(*i),
        SqlValue::Real(bits) => Value::Real(f64::from_bits(*bits)),
        SqlValue::Text(s) => Value::Text(s.clone()),
        SqlValue::Blob(b) => Value::Blob(b.clone()),
    }
}

fn run(conn: &Connection, st: &Statement) -> Vec<Vec<(String, SqlValue)>> {
    let mut stmt = conn.prepare(&st.sql).unwrap();
    let names: Vec<String> = stmt.column_names().iter().map(|s| s.to_string()).collect();
    let owned: Vec<(String, Value)> = st.params.iter().map(|(n, v)| (n.clone(), engine_value(v))).collect();
    let refs: Vec<(&str, &dyn ToSql)> = owned.iter().map(|(n, v)| (n.as_str(), v as &dyn ToSql)).collect();
    let mut rows = stmt.query(refs.as_slice()).unwrap();
    let mut out = Vec::new();
    while let Some(row) = rows.next().unwrap() {
        let mut cells = Vec::new();
        for (i, n) in names.iter().enumerate() {
            let v = match row.get_ref(i).unwrap() {
                ValueRef::Null => SqlValue::Null,
                ValueRef::Integer(x) => SqlValue::Integer(x),
                ValueRef::Real(f) => SqlValue::Real(f.to_bits()),
                ValueRef::Text(t) => SqlValue::Text(String::from_utf8_lossy(t).to_string()),
                ValueRef::Blob(b) => SqlValue::Blob(b.to_vec()),
            };
            cells.push((n.clone(), v));
        }
        out.push(cells);
    }
    out
}

fn s(x: &str) -> String {
    x.to_string()
}

fn obj(entries: Vec<(&str, JsonValue)>) -> JsonValue {
    JsonValue::Object(entries.into_iter().map(|(k, v)| (s(k), v)).collect())
}

fn person(name: &str, age: i64, active: bool) -> Vec<(String, JsonValue)> {
    vec![
        (s("name"), JsonValue::Str(s(name))),
        (s("age"), JsonValue::Int(age)),
        (s("active"), JsonValue::Bool(active)),
    ]
}

fn person_table() -> Table {
    Table::derive(
        "Person",
        &vec![(s("name"), FieldType::String), (s("age"), FieldType::I32), (s("active"), FieldType::Bool)],
    )
    .unwrap()
}

fn open(table: Table) -> (Connection, Repository) {
    let conn = Connection::open_in_memory().unwrap();
    let repo = Repository::new(table);
    conn.execute_batch(&repo.create_statement().sql).unwrap();
    (conn, repo)
}

fn insert(conn: &Connection, repo: &Repository, record: &Vec<(String, JsonValue)>) -> Vec<(String, JsonValue)> {
    let st = repo.insert_statement(record).unwrap();
    let rows = run(conn, &st);
    assert_eq!(rows.len(), 1);
    repo.read_rows(&rows).unwrap().remove(0)
}

fn find(conn: &Connection, repo: &Repository, filter: &JsonValue) -> Vec<Vec<(String, JsonValue)>> {
    let st = repo.find_statement(filter).unwrap();
    repo.read_rows(&run(conn, &st)).unwrap()
}

fn names_of(records: &[Vec<(String, JsonValue)>]) -> Vec<String> {
    let mut names: Vec<String> = records
        .iter()
        .map(|r| match &r[0].1 {
            JsonValue::Str(n) => n.clone(),
            other => panic!("unexpected {:?}", other),
        })
        .collect();
    names.sort();
    names
}

#[test]
fn scenario_age_active_and_empty_filter() {
    let (conn, repo) = open(person_table());
    let a = person("a", 30, true);
    let b = person("b", 20, false);
    assert_eq!(insert(&conn, &repo, &a), a);
    assert_eq!(insert(&conn, &repo, &b), b);
    let older = find(&conn, &repo, &obj(vec![("age", obj(vec![("$gte", JsonValue::Int(25))]))]));
    assert_eq!(older, vec![person("a", 30, true)]);
    let unset = find(&conn, &repo, &obj(vec![("active", JsonValue::Null)]));
    assert!(unset.is_empty());
    let all = find(&conn, &repo, &obj(vec![]));
    assert_eq!(names_of(&all), vec![s("a"), s("b")]);
}

#[test]
fn round_trip_every_scalar_kind() {
    let table = Table::derive(
        "Sample",
        &vec![
            (s("label"), FieldType::String),
            (s("small"), FieldType::I8),
            (s("big"), FieldType::I64),
            (s("flag"), FieldType::Bool),
            (s("ratio"), FieldType::F64),
            (s("letter"), FieldType::Char),
        ],
    )
    .unwrap();
    let (conn, repo) = open(table);
    let record = vec![
        (s("label"), JsonValue::Str(s("héllo wörld"))),
        (s("small"), JsonValue::Int(-128)),
        (s("big"), JsonValue::Int(i64::MAX)),
        (s("flag"), JsonValue::Bool(false)),
        (s("ratio"), JsonValue::Real(0.1f64.to_bits())),
        (s("letter"), JsonValue::Str(s("z"))),
    ];
    assert_eq!(insert(&conn, &repo, &record), record);
    let listed = repo.read_rows(&run(&conn, &repo.list_statement())).unwrap();
    assert_eq!(listed, vec![record]);
}

#[test]
fn round_trip_bytes_through_marshaller() {
    let table = Table::derive("Blob", &vec![(s("id"), FieldType::I64), (s("data"), FieldType::Bytes)]).unwrap();
    let repo = Repository::new(table);
    let record = vec![
        (s("id"), JsonValue::Int(7)),
        (s("data"), JsonValue::Array(vec![JsonValue::Int(0), JsonValue::Int(255), JsonValue::Int(16)])),
    ];
    let st = repo.insert_statement(&record).unwrap();
    assert_eq!(st.params[1], (s(":data"), SqlValue::Blob(vec![0, 255, 16])));
    let row: Vec<(String, SqlValue)> = st.params.iter().map(|(n, v)| (n[1..].to_string(), v.clone())).collect();
    assert_eq!(repo.read_rows(&vec![row]).unwrap(), vec![record]);
}

#[test]
fn filter_over_present_fields_selects_matching_subset() {
    let (conn, repo) = open(person_table());
    for (n, age, active) in [("c", 40, true), ("a", 30, true), ("d", 10, false), ("b", 20, false)] {
        insert(&conn, &repo, &person(n, age, active));
    }
    let range = obj(vec![("age", obj(vec![("$gte", JsonValue::Int(20)), ("$lt", JsonValue::Int(40))]))]);
    assert_eq!(names_of(&find(&conn, &repo, &range)), vec![s("a"), s("b")]);
    let ne = obj(vec![("age", obj(vec![("$ne", JsonValue::Int(30))]))]);
    assert_eq!(names_of(&find(&conn, &repo, &ne)), vec![s("b"), s("c"), s("d")]);
    let eq_and_flag =
        obj(vec![("active", JsonValue::Bool(true)), ("age", obj(vec![("$eq", JsonValue::Int(40))]))]);
    assert_eq!(names_of(&find(&conn, &repo, &eq_and_flag)), vec![s("c")]);
    let gt_lte = obj(vec![("age", obj(vec![("$gt", JsonValue::Int(10)), ("$lte", JsonValue::Int(20))]))]);
    assert_eq!(names_of(&find(&conn, &repo, &gt_lte)), vec![s("b")]);
    let set = obj(vec![("age", obj(vec![("$eq", JsonValue::Null)]))]);
    assert_eq!(names_of(&find(&conn, &repo, &set)), vec![s("a"), s("b"), s("c"), s("d")]);
    let text = obj(vec![("name", JsonValue::Str(s("d")))]);
    assert_eq!(names_of(&find(&conn, &repo, &text)), vec![s("d")]);
}

#[test]
fn unknown_keys_select_everything() {
    let (conn, repo) = open(person_table());
    insert(&conn, &repo, &person("a", 30, true));
    insert(&conn, &repo, &person("b", 20, false));
    let filter = obj(vec![("colour", JsonValue::Str(s("red"))), ("size", JsonValue::Array(vec![]))]);
    let st = repo.find_statement(&filter).unwrap();
    assert_eq!(st.sql, "SELECT * FROM Persons WHERE 1=1");
    assert!(st.params.is_empty());
    assert_eq!(names_of(&find(&conn, &repo, &filter)), vec![s("a"), s("b")]);
}

#[test]
fn array_value_is_refused_and_store_unchanged() {
    let (conn, repo) = open(person_table());
    insert(&conn, &repo, &person("a", 30, true));
    let filter = obj(vec![("age", JsonValue::Array(vec![JsonValue::Int(1)]))]);
    assert_eq!(repo.find_statement(&filter).unwrap_err(), FilterError::ArrayNotSupported(s("age")));
    assert_eq!(find(&conn, &repo, &obj(vec![])).len(), 1);
}

#[test]
fn filter_errors() {
    let repo = Repository::new(person_table());
    assert_eq!(repo.find_statement(&JsonValue::Int(1)).unwrap_err(), FilterError::NotAnObject);
    let inside = obj(vec![("age", obj(vec![("$in", JsonValue::Array(vec![JsonValue::Int(1)]))]))]);
    assert_eq!(repo.find_statement(&inside).unwrap_err(), FilterError::UnsupportedOperator(s("$in")));
    let nested = obj(vec![("age", obj(vec![("$gt", obj(vec![]))]))]);
    assert_eq!(repo.find_statement(&nested).unwrap_err(), FilterError::ObjectNotSupported(s("age")));
    let listed = obj(vec![("age", obj(vec![("$lt", JsonValue::Array(vec![]))]))]);
    assert_eq!(repo.find_statement(&listed).unwrap_err(), FilterError::ArrayNotSupported(s("age")));
    let twice = obj(vec![("age", JsonValue::Int(1)), ("age", JsonValue::Int(2))]);
    assert_eq!(repo.find_statement(&twice).unwrap_err(), FilterError::DuplicateParameter(s(":age")));
}

#[test]
fn compiled_clause_and_parameter_names() {
    let repo = Repository::new(person_table());
    let filter = obj(vec![
        ("name", JsonValue::Str(s("pac*"))),
        ("age", obj(vec![("$lt", JsonValue::Int(9)), ("$gte", JsonValue::Int(3)), ("$ne", JsonValue::Null)])),
        ("active", JsonValue::Bool(true)),
    ]);
    let st = repo.find_statement(&filter).unwrap();
    assert_eq!(
        st.sql,
        "SELECT * FROM Persons WHERE name MATCH :name AND age IS NOT NULL AND age < :age_lt AND age >= :age_gte AND active = :active"
    );
    assert_eq!(
        st.params,
        vec![
            (s(":name"), SqlValue::Text(s("pac*"))),
            (s(":age_lt"), SqlValue::Integer(9)),
            (s(":age_gte"), SqlValue::Integer(3)),
            (s(":active"), SqlValue::Integer(1)),
        ]
    );
}

#[test]
fn schema_from_record_description() {
    let table = person_table();
    assert_eq!(table.name(), "Persons");
    assert_eq!(table.pk().name, "name");
    assert_eq!(table.create_fts_script(), "CREATE VIRTUAL TABLE IF NOT EXISTS Persons USING fts5 (name,age,active)");
    assert_eq!(
        table.insert_script(),
        "INSERT INTO Persons (name,age,active) VALUES (:name,:age,:active) RETURNING *"
    );
    assert_eq!(table.select_all_script(), "SELECT * FROM Persons");
    assert!(table.has_field("age"));
    assert!(!table.has_field("rowid"));
}

#[test]
fn rowid_is_checked_and_left_out() {
    let cols = vec![(s("rowid"), FieldType::I64), (s("name"), FieldType::String)];
    let table = Table::derive("Item", &cols).unwrap();
    assert_eq!(table.fields().len(), 1);
    assert_eq!(table.fields()[0].name, "name");
    let bad = vec![(s("rowid"), FieldType::I32), (s("name"), FieldType::String)];
    assert_eq!(Table::derive("Item", &bad).unwrap_err(), SchemaError::InvalidRowId);
}

#[test]
fn schema_errors() {
    let nested = vec![(s("name"), FieldType::String), (s("tags"), FieldType::Unsupported)];
    assert_eq!(Table::derive("Item", &nested).unwrap_err(), SchemaError::UnsupportedFieldType(s("tags")));
    assert_eq!(Table::derive("Item", &vec![]).unwrap_err(), SchemaError::NoFields);
    let only_rowid = vec![(s("rowid"), FieldType::I64)];
    assert_eq!(Table::derive("Item", &only_rowid).unwrap_err(), SchemaError::NoFields);
    let twice = vec![(s("a"), FieldType::U8), (s("a"), FieldType::U16)];
    assert_eq!(Table::derive("Item", &twice).unwrap_err(), SchemaError::DuplicateField(s("a")));
}

#[test]
fn marshal_errors() {
    let repo = Repository::new(person_table());
    let missing = vec![(s("name"), JsonValue::Str(s("a"))), (s("age"), JsonValue::Int(1))];
    assert_eq!(repo.insert_statement(&missing).unwrap_err(), MarshalError::MissingField(s("active")));
    let mut nested = person("a", 1, true);
    nested[1].1 = JsonValue::Object(vec![]);
    assert_eq!(repo.insert_statement(&nested).unwrap_err(), MarshalError::NotScalar(s("age")));
    let mut big = person("a", 1, true);
    big[1].1 = JsonValue::Array(vec![JsonValue::Int(256)]);
    assert_eq!(repo.insert_statement(&big).unwrap_err(), MarshalError::NotScalar(s("age")));
    let row = vec![(s("name"), SqlValue::Text(s("a"))), (s("active"), SqlValue::Integer(0))];
    assert_eq!(repo.read_rows(&vec![row]).unwrap_err(), MarshalError::MissingColumn(s("age")));
}

#[test]
fn insert_params_follow_column_order() {
    let repo = Repository::new(person_table());
    let record = vec![
        (s("active"), JsonValue::Bool(true)),
        (s("extra"), JsonValue::Int(5)),
        (s("age"), JsonValue::Null),
        (s("name"), JsonValue::Str(s("x"))),
    ];
    let st = repo.insert_statement(&record).unwrap();
    assert_eq!(
        st.params,
        vec![(s(":name"), SqlValue::Text(s("x"))), (s(":age"), SqlValue::Null), (s(":active"), SqlValue::Integer(1))]
    );
}
