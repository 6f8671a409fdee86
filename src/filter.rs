use vstd::prelude::*;

use crate::json::JsonValue;
use crate::sql::{named_cells, scalar_cell, value_to_sql, Cell, SqlValue};
use crate::table::{names_of, Table, TableView};
use crate::text::{join, join_strings, same_text, views};

verus! {

/// Why a filter cannot be compiled.
#[derive(Debug, Clone, PartialEq, Eq)]
pub enum FilterError {
    /// The filter is not an object.
    NotAnObject,
    /// An array where a scalar is required; holds the field's name.
    ArrayNotSupported(String),
    /// An object as an operator's operand; holds the field's name.
    ObjectNotSupported(String),
    /// An operator outside `$ne $lt $lte $eq $gte $gt`; holds the operator.
    UnsupportedOperator(String),
    /// Two values would be bound to the same parameter name.
    DuplicateParameter(String),
}

pub enum FilterErrorView {
    NotAnObject,
    ArrayNotSupported(Seq<char>),
    ObjectNotSupported(Seq<char>),
    UnsupportedOperator(Seq<char>),
    DuplicateParameter(Seq<char>),
}

impl View for FilterError {
    type V = FilterErrorView;

    open spec fn view(&self) -> FilterErrorView {
        match self {
            FilterError::NotAnObject => FilterErrorView::NotAnObject,
            FilterError::ArrayNotSupported(f) => FilterErrorView::ArrayNotSupported(f@),
            FilterError::ObjectNotSupported(f) => FilterErrorView::ObjectNotSupported(f@),
            FilterError::UnsupportedOperator(o) => FilterErrorView::UnsupportedOperator(o@),
            FilterError::DuplicateParameter(p) => FilterErrorView::DuplicateParameter(p@),
        }
    }
}

/// A compiled predicate: conditions to be joined with AND, and the values
/// bound to their named parameters.
pub struct FilterModel {
    pub conditions: Seq<Seq<char>>,
    pub params: Seq<(Seq<char>, Cell)>,
}

pub open spec fn empty_model() -> FilterModel {
    FilterModel { conditions: Seq::empty(), params: Seq::empty() }
}

pub open spec fn param_names(p: Seq<(Seq<char>, Cell)>) -> Seq<Seq<char>> {
    p.map_values(|e: (Seq<char>, Cell)| e.0)
}

pub open spec fn with_condition(st: FilterModel, cond: Seq<char>) -> FilterModel {
    FilterModel { conditions: st.conditions.push(cond), params: st.params }
}

/// Adds a condition that reads the parameter `name`, bound to `value`;
/// a name that is bound already is refused rather than overwritten.
pub open spec fn bind_spec(st: FilterModel, cond: Seq<char>, name: Seq<char>, value: Cell) -> Result<
    FilterModel,
    FilterErrorView,
> {
    if param_names(st.params).contains(name) {
        Err(FilterErrorView::DuplicateParameter(name))
    } else {
        Ok(FilterModel { conditions: st.conditions.push(cond), params: st.params.push((name, value)) })
    }
}

/// The comparison operators, in the order their conditions are emitted.
pub open spec fn op_key(i: int) -> Seq<char> {
    if i == 0 {
        "$ne"@
    } else if i == 1 {
        "$lt"@
    } else if i == 2 {
        "$lte"@
    } else if i == 3 {
        "$eq"@
    } else if i == 4 {
        "$gte"@
    } else {
        "$gt"@
    }
}

pub open spec fn op_symbol(i: int) -> Seq<char> {
    if i == 0 {
        "!="@
    } else if i == 1 {
        "<"@
    } else if i == 2 {
        "<="@
    } else if i == 3 {
        "="@
    } else if i == 4 {
        ">="@
    } else {
        ">"@
    }
}

/// What an operator adds to the field's name to name its parameter.
pub open spec fn op_suffix(i: int) -> Seq<char> {
    if i == 0 {
        "_ne"@
    } else if i == 1 {
        "_lt"@
    } else if i == 2 {
        "_lte"@
    } else if i == 3 {
        "_eq"@
    } else if i == 4 {
        "_gte"@
    } else {
        "_gt"@
    }
}

pub open spec fn op_index(key: Seq<char>) -> Option<int> {
    if key == op_key(0) {
        Some(0)
    } else if key == op_key(1) {
        Some(1)
    } else if key == op_key(2) {
        Some(2)
    } else if key == op_key(3) {
        Some(3)
    } else if key == op_key(4) {
        Some(4)
    } else if key == op_key(5) {
        Some(5)
    } else {
        None
    }
}

pub open spec fn no_operands() -> Seq<Option<Cell>> {
    Seq::new(6, |i: int| None)
}

/// One `operator: operand` entry of a field's operator object.
pub open spec fn operand_step(slots: Seq<Option<Cell>>, field: Seq<char>, key: Seq<char>, v: JsonValue) -> Result<
    Seq<Option<Cell>>,
    FilterErrorView,
> {
    match op_index(key) {
        None => Err(FilterErrorView::UnsupportedOperator(key)),
        Some(i) => if v is Array {
            Err(FilterErrorView::ArrayNotSupported(field))
        } else if v is Object {
            Err(FilterErrorView::ObjectNotSupported(field))
        } else {
            Ok(slots.update(i, Some(scalar_cell(v))))
        },
    }
}

/// The operand of each operator after the first `n` entries.
pub open spec fn operands_prefix(ops: Seq<(String, JsonValue)>, field: Seq<char>, n: nat) -> Result<
    Seq<Option<Cell>>,
    FilterErrorView,
>
    decreases n,
{
    if n == 0 {
        Ok(no_operands())
    } else {
        match operands_prefix(ops, field, (n - 1) as nat) {
            Err(e) => Err(e),
            Ok(slots) => operand_step(slots, field, ops[n - 1].0@, ops[n - 1].1),
        }
    }
}

/// The condition of operator `i`: a null operand asks that the field be set.
pub open spec fn operand_bind(st: FilterModel, field: Seq<char>, i: int, slot: Option<Cell>) -> Result<
    FilterModel,
    FilterErrorView,
> {
    match slot {
        None => Ok(st),
        Some(Cell::Null) => Ok(with_condition(st, field + " IS NOT NULL"@)),
        Some(c) => bind_spec(
            st,
            field + " "@ + op_symbol(i) + " :"@ + field + op_suffix(i),
            ":"@ + field + op_suffix(i),
            c,
        ),
    }
}

pub open spec fn operands_bind_prefix(st: FilterModel, field: Seq<char>, slots: Seq<Option<Cell>>, n: nat) -> Result<
    FilterModel,
    FilterErrorView,
>
    decreases n,
{
    if n == 0 {
        Ok(st)
    } else {
        match operands_bind_prefix(st, field, slots, (n - 1) as nat) {
            Err(e) => Err(e),
            Ok(s) => operand_bind(s, field, n - 1, slots[n - 1]),
        }
    }
}

/// One top-level `field: value` entry of a filter; fields that the schema
/// does not have are passed over.
pub open spec fn entry_step(st: FilterModel, names: Seq<Seq<char>>, key: Seq<char>, v: JsonValue) -> Result<
    FilterModel,
    FilterErrorView,
> {
    if !names.contains(key) {
        Ok(st)
    } else {
        match v {
            JsonValue::Null => Ok(with_condition(st, key + " IS NULL"@)),
            JsonValue::Str(s) => bind_spec(st, key + " MATCH :"@ + key, ":"@ + key, Cell::Text(s@)),
            JsonValue::Array(_) => Err(FilterErrorView::ArrayNotSupported(key)),
            JsonValue::Object(ops) => match operands_prefix(ops@, key, ops@.len()) {
                Err(e) => Err(e),
                Ok(slots) => operands_bind_prefix(st, key, slots, 6),
            },
            _ => bind_spec(st, key + " = :"@ + key, ":"@ + key, scalar_cell(v)),
        }
    }
}

pub open spec fn compile_prefix(entries: Seq<(String, JsonValue)>, names: Seq<Seq<char>>, n: nat) -> Result<
    FilterModel,
    FilterErrorView,
>
    decreases n,
{
    if n == 0 {
        Ok(empty_model())
    } else {
        match compile_prefix(entries, names, (n - 1) as nat) {
            Err(e) => Err(e),
            Ok(st) => entry_step(st, names, entries[n - 1].0@, entries[n - 1].1),
        }
    }
}

/// The predicate that a filter compiles to against a schema.
pub open spec fn compile_spec(filter: JsonValue, t: TableView) -> Result<FilterModel, FilterErrorView> {
    match filter {
        JsonValue::Object(entries) => compile_prefix(entries@, names_of(t.fields), entries@.len()),
        _ => Err(FilterErrorView::NotAnObject),
    }
}

/// The WHERE clause of a list of conditions: always true when there is none.
pub open spec fn where_clause_of(conditions: Seq<Seq<char>>) -> Seq<char> {
    if conditions.len() == 0 {
        "1=1"@
    } else {
        join(conditions, " AND "@)
    }
}

pub proof fn lemma_operands_err_stays(ops: Seq<(String, JsonValue)>, field: Seq<char>, n: nat, m: nat)
    requires
        n <= m,
        operands_prefix(ops, field, n) is Err,
    ensures
        operands_prefix(ops, field, m) == operands_prefix(ops, field, n),
    decreases m - n,
{
    if n < m {
        lemma_operands_err_stays(ops, field, n, (m - 1) as nat);
    }
}

pub proof fn lemma_bind_err_stays(st: FilterModel, field: Seq<char>, slots: Seq<Option<Cell>>, n: nat, m: nat)
    requires
        n <= m,
        operands_bind_prefix(st, field, slots, n) is Err,
    ensures
        operands_bind_prefix(st, field, slots, m) == operands_bind_prefix(st, field, slots, n),
    decreases m - n,
{
    if n < m {
        lemma_bind_err_stays(st, field, slots, n, (m - 1) as nat);
    }
}

pub proof fn lemma_compile_err_stays(entries: Seq<(String, JsonValue)>, names: Seq<Seq<char>>, n: nat, m: nat)
    requires
        n <= m,
        compile_prefix(entries, names, n) is Err,
    ensures
        compile_prefix(entries, names, m) == compile_prefix(entries, names, n),
    decreases m - n,
{
    if n < m {
        lemma_compile_err_stays(entries, names, n, (m - 1) as nat);
    }
}

fn operator_key(i: usize) -> (r: &'static str)
    requires
        i < 6,
    ensures
        r@ == op_key(i as int),
{
    if i == 0 {
        "$ne"
    } else if i == 1 {
        "$lt"
    } else if i == 2 {
        "$lte"
    } else if i == 3 {
        "$eq"
    } else if i == 4 {
        "$gte"
    } else {
        "$gt"
    }
}

fn operator_symbol(i: usize) -> (r: &'static str)
    requires
        i < 6,
    ensures
        r@ == op_symbol(i as int),
{
    if i == 0 {
        "!="
    } else if i == 1 {
        "<"
    } else if i == 2 {
        "<="
    } else if i == 3 {
        "="
    } else if i == 4 {
        ">="
    } else {
        ">"
    }
}

fn operator_suffix(i: usize) -> (r: &'static str)
    requires
        i < 6,
    ensures
        r@ == op_suffix(i as int),
{
    if i == 0 {
        "_ne"
    } else if i == 1 {
        "_lt"
    } else if i == 2 {
        "_lte"
    } else if i == 3 {
        "_eq"
    } else if i == 4 {
        "_gte"
    } else {
        "_gt"
    }
}

fn operator_index(key: &str) -> (r: Option<usize>)
    ensures
        match r {
            Some(i) => i < 6 && op_index(key@) == Some(i as int),
            None => op_index(key@) is None,
        },
{
    let mut i: usize = 0;
    while i < 6
        invariant
            i <= 6,
            forall|k: int| 0 <= k < i ==> op_key(k) != key@,
        decreases 6 - i,
    {
        if same_text(key, operator_key(i)) {
            return Some(i);
        }
        i = i + 1;
    }
    None
}

spec fn operand_cells(v: Seq<Option<&JsonValue>>) -> Seq<Option<Cell>> {
    v.map_values(
        |o: Option<&JsonValue>|
            match o {
                Some(v) => Some(scalar_cell(*v)),
                None => None,
            },
    )
}

/// The operands of one field's operator object, each a scalar or null,
/// one slot per operator.
pub struct QueryFilter<'a> {
    operands: Vec<Option<&'a JsonValue>>,
}

impl<'a> View for QueryFilter<'a> {
    type V = Seq<Option<Cell>>;

    closed spec fn view(&self) -> Seq<Option<Cell>> {
        operand_cells(self.operands@)
    }
}

impl<'a> QueryFilter<'a> {
    #[verifier::type_invariant]
    spec fn inv(&self) -> bool {
        &&& self.operands@.len() == 6
        &&& forall|i: int| 0 <= i < 6 ==> (#[trigger] self.operands@[i] matches Some(v) ==> v.is_scalar())
    }

    /// Reads the operator object of `field`.
    pub fn from_json(ops: &'a Vec<(String, JsonValue)>, field: &String) -> (r: Result<QueryFilter<'a>, FilterError>)
        ensures
            match r {
                Ok(q) => operands_prefix(ops@, field@, ops@.len()) == Ok::<Seq<Option<Cell>>, FilterErrorView>(q@),
                Err(e) => operands_prefix(ops@, field@, ops@.len()) == Err::<Seq<Option<Cell>>, FilterErrorView>(e@),
            },
    {
        let mut operands: Vec<Option<&'a JsonValue>> = Vec::new();
        let mut k: usize = 0;
        while k < 6
            invariant
                k <= 6,
                operands@.len() == k,
                forall|i: int| 0 <= i < k ==> operands@[i] is None,
            decreases 6 - k,
        {
            operands.push(None);
            k = k + 1;
        }
        assert(operand_cells(operands@) =~= no_operands());
        let mut n: usize = 0;
        while n < ops.len()
            invariant
                n <= ops@.len(),
                operands@.len() == 6,
                forall|i: int| 0 <= i < 6 ==> (#[trigger] operands@[i] matches Some(v) ==> v.is_scalar()),
                operands_prefix(ops@, field@, n as nat) == Ok::<Seq<Option<Cell>>, FilterErrorView>(operand_cells(operands@)),
            decreases ops@.len() - n,
        {
            let key = &ops[n].0;
            let value = &ops[n].1;
            match operator_index(key.as_str()) {
                None => {
                    proof { lemma_operands_err_stays(ops@, field@, (n + 1) as nat, ops@.len()); }
                    return Err(FilterError::UnsupportedOperator(key.clone()));
                },
                Some(i) => {
                    match value {
                        JsonValue::Array(_) => {
                            proof { lemma_operands_err_stays(ops@, field@, (n + 1) as nat, ops@.len()); }
                            return Err(FilterError::ArrayNotSupported(field.clone()));
                        },
                        JsonValue::Object(_) => {
                            proof { lemma_operands_err_stays(ops@, field@, (n + 1) as nat, ops@.len()); }
                            return Err(FilterError::ObjectNotSupported(field.clone()));
                        },
                        _ => {
                            let ghost before = operand_cells(operands@);
                            assert(before.len() == 6);
                            operands[i] = Some(value);
                            assert(operand_cells(operands@) =~= before.update(i as int, Some(scalar_cell(*value))));
                        },
                    }
                },
            }
            n = n + 1;
        }
        Ok(QueryFilter { operands })
    }

    /// Adds the conditions of this field's operators to `out`, in the order
    /// `$ne $lt $lte $eq $gte $gt`; each parameter is named after the field
    /// and the operator.
    pub fn to_sql(&self, field: &String, out: &mut CompiledFilter) -> (r: Result<(), FilterError>)
        ensures
            match r {
                Ok(_) => operands_bind_prefix(old(out)@, field@, self@, 6) == Ok::<FilterModel, FilterErrorView>(final(out)@),
                Err(e) => operands_bind_prefix(old(out)@, field@, self@, 6) == Err::<FilterModel, FilterErrorView>(e@),
            },
    {
        proof { use_type_invariant(self); }
        let ghost start = out@;
        let mut i: usize = 0;
        while i < 6
            invariant
                i <= 6,
                start == old(out)@,
                self.operands@.len() == 6,
                forall|k: int| 0 <= k < 6 ==> (#[trigger] self.operands@[k] matches Some(v) ==> v.is_scalar()),
                operands_bind_prefix(start, field@, self@, i as nat) == Ok::<FilterModel, FilterErrorView>(out@),
            decreases 6 - i,
        {
            assert(self@[i as int] == match self.operands@[i as int] {
                Some(v) => Some(scalar_cell(*v)),
                None => None::<Cell>,
            });
            match self.operands[i] {
                None => {},
                Some(JsonValue::Null) => {
                    let mut cond = field.clone();
                    cond.append(" IS NOT NULL");
                    out.add_condition(cond);
                },
                Some(v) => {
                    let mut name = String::new();
                    name.append(":");
                    name.append(field.as_str());
                    name.append(operator_suffix(i));
                    assert(name@ =~= ":"@ + field@ + op_suffix(i as int));
                    let mut cond = field.clone();
                    cond.append(" ");
                    cond.append(operator_symbol(i));
                    cond.append(" ");
                    cond.append(name.as_str());
                    proof {
                        assert(cond@ =~= field@ + " "@ + op_symbol(i as int) + " :"@ + field@ + op_suffix(i as int)) by {
                            reveal_strlit(" ");
                            reveal_strlit(":");
                            reveal_strlit(" :");
                        }
                    }
                    let value = value_to_sql(v);
                    let ghost cur = out@;
                    let ghost args = (cond@, name@, value@);
                    match out.bind(cond, name, value) {
                        Ok(_) => {},
                        Err(e) => {
                            proof {
                                assert(self@[i as int] == Some(args.2));
                                assert(!(args.2 is Null));
                                assert(operand_bind(cur, field@, i as int, self@[i as int]) == bind_spec(cur, args.0, args.1, args.2));
                                assert(bind_spec(cur, args.0, args.1, args.2) == Err::<FilterModel, FilterErrorView>(e@));
                                assert(operands_bind_prefix(start, field@, self@, (i + 1) as nat) == Err::<FilterModel, FilterErrorView>(e@));
                                lemma_bind_err_stays(start, field@, self@, (i + 1) as nat, 6);
                            }
                            return Err(e);
                        },
                    }
                },
            }
            i = i + 1;
        }
        Ok(())
    }
}

/// A compiled filter: its conditions, to be joined with AND, and the named
/// parameters they read.
#[derive(Debug)]
pub struct CompiledFilter {
    pub conditions: Vec<String>,
    pub params: Vec<(String, SqlValue)>,
}

impl View for CompiledFilter {
    type V = FilterModel;

    open spec fn view(&self) -> FilterModel {
        FilterModel { conditions: views(self.conditions@), params: named_cells(self.params@) }
    }
}

impl CompiledFilter {
    pub fn new() -> (r: CompiledFilter)
        ensures
            r@ == empty_model(),
    {
        let r = CompiledFilter { conditions: Vec::new(), params: Vec::new() };
        assert(r@.conditions =~= Seq::<Seq<char>>::empty());
        assert(r@.params =~= Seq::<(Seq<char>, Cell)>::empty());
        r
    }

    /// The conditions joined with AND, or `1=1` when there is none.
    pub fn where_clause(&self) -> (r: String)
        ensures
            r@ == where_clause_of(self@.conditions),
    {
        if self.conditions.len() == 0 {
            let mut r = String::new();
            r.append("1=1");
            r
        } else {
            join_strings(&self.conditions, " AND ")
        }
    }

    pub fn has_param(&self, name: &str) -> (r: bool)
        ensures
            r == param_names(self@.params).contains(name@),
    {
        let mut i: usize = 0;
        while i < self.params.len()
            invariant
                i <= self.params@.len(),
                forall|k: int| 0 <= k < i ==> self.params@[k].0@ != name@,
            decreases self.params@.len() - i,
        {
            if same_text(self.params[i].0.as_str(), name) {
                assert(param_names(self@.params)[i as int] == name@);
                return true;
            }
            i = i + 1;
        }
        assert forall|k: int| 0 <= k < param_names(self@.params).len() implies param_names(self@.params)[k]
            != name@ by {
            assert(param_names(self@.params)[k] == self.params@[k].0@);
        }
        false
    }

    fn add_condition(&mut self, cond: String)
        ensures
            final(self)@ == with_condition(old(self)@, cond@),
    {
        self.conditions.push(cond);
        assert(final(self)@.conditions =~= old(self)@.conditions.push(cond@));
    }

    fn bind(&mut self, cond: String, name: String, value: SqlValue) -> (r: Result<(), FilterError>)
        ensures
            match r {
                Ok(_) => bind_spec(old(self)@, cond@, name@, value@) == Ok::<FilterModel, FilterErrorView>(final(self)@),
                Err(e) => bind_spec(old(self)@, cond@, name@, value@) == Err::<FilterModel, FilterErrorView>(e@),
            },
    {
        if self.has_param(name.as_str()) {
            return Err(FilterError::DuplicateParameter(name));
        }
        let ghost before = self@;
        self.conditions.push(cond);
        let ghost n = name@;
        self.params.push((name, value));
        assert(self@.conditions =~= before.conditions.push(cond@));
        assert(self@.params =~= before.params.push((n, value@)));
        Ok(())
    }
}

/// Compiles a filter object against a schema: one group of conditions for
/// each entry whose key is a column, in the order of the entries.
pub fn compile_filter(filter: &JsonValue, table: &Table) -> (r: Result<CompiledFilter, FilterError>)
    ensures
        match r {
            Ok(c) => compile_spec(*filter, table@) == Ok::<FilterModel, FilterErrorView>(c@),
            Err(e) => compile_spec(*filter, table@) == Err::<FilterModel, FilterErrorView>(e@),
        },
{
    match filter {
        JsonValue::Object(entries) => compile_entries(entries, table),
        _ => Err(FilterError::NotAnObject),
    }
}

fn compile_entries(entries: &Vec<(String, JsonValue)>, table: &Table) -> (r: Result<CompiledFilter, FilterError>)
    ensures
        match r {
            Ok(c) => compile_prefix(entries@, names_of(table@.fields), entries@.len()) == Ok::<
                FilterModel,
                FilterErrorView,
            >(c@),
            Err(e) => compile_prefix(entries@, names_of(table@.fields), entries@.len()) == Err::<
                FilterModel,
                FilterErrorView,
            >(e@),
        },
{
    let ghost names = names_of(table@.fields);
    let mut out = CompiledFilter::new();
    let mut n: usize = 0;
    while n < entries.len()
        invariant
            n <= entries@.len(),
            names == names_of(table@.fields),
            compile_prefix(entries@, names, n as nat) == Ok::<FilterModel, FilterErrorView>(out@),
        decreases entries@.len() - n,
    {
        let key = &entries[n].0;
        let value = &entries[n].1;
        if table.has_field(key.as_str()) {
            match value {
                JsonValue::Null => {
                    let mut cond = key.clone();
                    cond.append(" IS NULL");
                    out.add_condition(cond);
                },
                JsonValue::Array(_) => {
                    proof { lemma_compile_err_stays(entries@, names, (n + 1) as nat, entries@.len()); }
                    return Err(FilterError::ArrayNotSupported(key.clone()));
                },
                JsonValue::Object(ops) => {
                    match QueryFilter::from_json(ops, key) {
                        Err(e) => {
                            proof { lemma_compile_err_stays(entries@, names, (n + 1) as nat, entries@.len()); }
                            return Err(e);
                        },
                        Ok(q) => {
                            match q.to_sql(key, &mut out) {
                                Ok(_) => {},
                                Err(e) => {
                                    proof {
                                        lemma_compile_err_stays(entries@, names, (n + 1) as nat, entries@.len());
                                    }
                                    return Err(e);
                                },
                            }
                        },
                    }
                },
                _ => {
                    let mut name = String::new();
                    name.append(":");
                    name.append(key.as_str());
                    assert(name@ =~= ":"@ + key@);
                    let mut cond = key.clone();
                    let sql_value;
                    let ghost cond_spec;
                    if let JsonValue::Str(s) = value {
                        cond.append(" MATCH ");
                        sql_value = SqlValue::Text(s.clone());
                        proof { cond_spec = key@ + " MATCH :"@ + key@; }
                    } else {
                        cond.append(" = ");
                        sql_value = value_to_sql(value);
                        proof { cond_spec = key@ + " = :"@ + key@; }
                    }
                    cond.append(name.as_str());
                    proof {
                        reveal_strlit(" MATCH ");
                        reveal_strlit(" MATCH :");
                        reveal_strlit(" = ");
                        reveal_strlit(" = :");
                        reveal_strlit(":");
                        assert(cond@ =~= cond_spec);
                    }
                    match out.bind(cond, name, sql_value) {
                        Ok(_) => {},
                        Err(e) => {
                            proof { lemma_compile_err_stays(entries@, names, (n + 1) as nat, entries@.len()); }
                            return Err(e);
                        },
                    }
                },
            }
        }
        n = n + 1;
    }
    Ok(out)
}

} // verus!
