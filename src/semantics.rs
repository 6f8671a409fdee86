use vstd::prelude::*;

use crate::filter::{
    bind_spec, compile_prefix, compile_spec, entry_step, lemma_compile_err_stays, op_suffix, op_symbol,
    operands_bind_prefix, operands_prefix, param_names, with_condition, FilterModel,
};
use crate::json::JsonValue;
use crate::marshal::lookup_cell;
use crate::sql::{scalar_cell, Cell};
use crate::table::{names_of, TableView};

verus! {

/// What one compiled condition tests of its column. A test that reads a
/// parameter names it and carries the operand it was compiled from.
pub enum Test {
    IsNull,
    NotNull,
    Compare(Seq<char>, Seq<char>, Cell),
    Match(Seq<char>, Cell),
}

pub struct Pred {
    pub column: Seq<char>,
    pub test: Test,
}

/// The text of a condition.
pub open spec fn render(p: Pred) -> Seq<char> {
    match p.test {
        Test::IsNull => p.column + " IS NULL"@,
        Test::NotNull => p.column + " IS NOT NULL"@,
        Test::Compare(sym, name, _) => p.column + " "@ + sym + " "@ + name,
        Test::Match(name, _) => p.column + " MATCH "@ + name,
    }
}

pub open spec fn renders(ps: Seq<Pred>) -> Seq<Seq<char>> {
    ps.map_values(|p: Pred| render(p))
}

pub open spec fn slot_preds(field: Seq<char>, i: int, slot: Option<Cell>) -> Seq<Pred> {
    match slot {
        None => Seq::empty(),
        Some(Cell::Null) => seq![Pred { column: field, test: Test::NotNull }],
        Some(c) => seq![Pred { column: field, test: Test::Compare(op_symbol(i), ":"@ + field + op_suffix(i), c) }],
    }
}

pub open spec fn slots_preds(field: Seq<char>, slots: Seq<Option<Cell>>, n: nat) -> Seq<Pred>
    decreases n,
{
    if n == 0 {
        Seq::empty()
    } else {
        slots_preds(field, slots, (n - 1) as nat) + slot_preds(field, n - 1, slots[n - 1])
    }
}

/// The conditions that one filter entry compiles to.
pub open spec fn entry_preds(names: Seq<Seq<char>>, key: Seq<char>, v: JsonValue) -> Seq<Pred> {
    if !names.contains(key) {
        Seq::empty()
    } else {
        match v {
            JsonValue::Null => seq![Pred { column: key, test: Test::IsNull }],
            JsonValue::Str(s) => seq![Pred { column: key, test: Test::Match(":"@ + key, Cell::Text(s@)) }],
            JsonValue::Array(_) => Seq::empty(),
            JsonValue::Object(ops) => match operands_prefix(ops@, key, ops@.len()) {
                Ok(slots) => slots_preds(key, slots, 6),
                Err(_) => Seq::empty(),
            },
            _ => seq![Pred { column: key, test: Test::Compare("="@, ":"@ + key, scalar_cell(v)) }],
        }
    }
}

pub open spec fn preds_prefix(entries: Seq<(String, JsonValue)>, names: Seq<Seq<char>>, n: nat) -> Seq<Pred>
    decreases n,
{
    if n == 0 {
        Seq::empty()
    } else {
        preds_prefix(entries, names, (n - 1) as nat) + entry_preds(names, entries[n - 1].0@, entries[n - 1].1)
    }
}

/// Every condition that reads a parameter finds its own operand under that
/// parameter's name.
pub open spec fn bound(params: Seq<(Seq<char>, Cell)>, ps: Seq<Pred>) -> bool {
    forall|i: int|
        0 <= i < ps.len() ==> match (#[trigger] ps[i]).test {
            Test::Compare(_, name, c) => lookup_cell(params, name) == Some(c),
            Test::Match(name, c) => lookup_cell(params, name) == Some(c),
            _ => true,
        }
}

/// How a storage engine compares a cell with a value (by operator) and
/// matches a cell against a text query.
pub struct Engine {
    pub compare: spec_fn(Seq<char>, Cell, Cell) -> bool,
    pub text_match: spec_fn(Cell, Cell) -> bool,
}

/// The cell of a column in a row; a missing column reads as null.
pub open spec fn column_cell(row: Seq<(Seq<char>, Cell)>, k: Seq<char>) -> Cell {
    match lookup_cell(row, k) {
        Some(c) => c,
        None => Cell::Null,
    }
}

/// A condition holds of a row, its parameters read by name.
pub open spec fn pred_holds(p: Pred, params: Seq<(Seq<char>, Cell)>, row: Seq<(Seq<char>, Cell)>, e: Engine) -> bool {
    let c = column_cell(row, p.column);
    match p.test {
        Test::IsNull => c == Cell::Null,
        Test::NotNull => c != Cell::Null,
        Test::Compare(sym, name, _) => match lookup_cell(params, name) {
            Some(v) => (e.compare)(sym, c, v),
            None => false,
        },
        Test::Match(name, _) => match lookup_cell(params, name) {
            Some(v) => (e.text_match)(c, v),
            None => false,
        },
    }
}

/// A condition holds of a row, read with the operand it carries.
pub open spec fn direct_holds(p: Pred, row: Seq<(Seq<char>, Cell)>, e: Engine) -> bool {
    let c = column_cell(row, p.column);
    match p.test {
        Test::IsNull => c == Cell::Null,
        Test::NotNull => c != Cell::Null,
        Test::Compare(sym, _, v) => (e.compare)(sym, c, v),
        Test::Match(_, v) => (e.text_match)(c, v),
    }
}

pub open spec fn slot_holds(field: Seq<char>, i: int, slot: Option<Cell>, row: Seq<(Seq<char>, Cell)>, e: Engine) -> bool {
    match slot {
        None => true,
        Some(Cell::Null) => column_cell(row, field) != Cell::Null,
        Some(c) => (e.compare)(op_symbol(i), column_cell(row, field), c),
    }
}

/// What a filter entry asks of a row: null asks for a null cell, a string
/// for a text match, another scalar for equality, and an operator object
/// for each of its operators; an entry on a field outside the schema asks
/// nothing.
pub open spec fn entry_holds(names: Seq<Seq<char>>, key: Seq<char>, v: JsonValue, row: Seq<(Seq<char>, Cell)>, e: Engine) -> bool {
    if !names.contains(key) {
        true
    } else {
        let c = column_cell(row, key);
        match v {
            JsonValue::Null => c == Cell::Null,
            JsonValue::Str(s) => (e.text_match)(c, Cell::Text(s@)),
            JsonValue::Array(_) => false,
            JsonValue::Object(ops) => match operands_prefix(ops@, key, ops@.len()) {
                Ok(slots) => forall|i: int| 0 <= i < 6 ==> #[trigger] slot_holds(key, i, slots[i], row, e),
                Err(_) => false,
            },
            _ => (e.compare)("="@, c, scalar_cell(v)),
        }
    }
}

proof fn lemma_lookup_push(p: Seq<(Seq<char>, Cell)>, x: (Seq<char>, Cell), k: Seq<char>)
    ensures
        lookup_cell(p.push(x), k) == (if lookup_cell(p, k) is Some {
            lookup_cell(p, k)
        } else if x.0 == k {
            Some(x.1)
        } else {
            None
        }),
    decreases p.len(),
{
    if p.len() > 0 {
        assert(p.push(x)[0] == p[0]);
        assert(p.push(x).drop_first() =~= p.drop_first().push(x));
        lemma_lookup_push(p.drop_first(), x, k);
    } else {
        assert(p.push(x)[0] == x);
        assert(p.push(x).drop_first() =~= Seq::<(Seq<char>, Cell)>::empty());
        assert(lookup_cell(Seq::<(Seq<char>, Cell)>::empty(), k) is None);
    }
}

proof fn lemma_lookup_absent(p: Seq<(Seq<char>, Cell)>, k: Seq<char>)
    requires
        !param_names(p).contains(k),
    ensures
        lookup_cell(p, k) is None,
    decreases p.len(),
{
    if p.len() > 0 {
        assert(param_names(p)[0] == p[0].0);
        assert(param_names(p.drop_first()) =~= param_names(p).drop_first());
        if param_names(p.drop_first()).contains(k) {
            let j = choose|j: int| 0 <= j < param_names(p.drop_first()).len() && param_names(p.drop_first())[j] == k;
            assert(param_names(p)[j + 1] == k);
        }
        lemma_lookup_absent(p.drop_first(), k);
    }
}

/// Binding keeps every earlier condition's parameter, and binds the new one.
proof fn lemma_bind_shape(st: FilterModel, ps: Seq<Pred>, p: Pred, name: Seq<char>, c: Cell)
    requires
        st.conditions == renders(ps),
        bound(st.params, ps),
        match p.test {
            Test::Compare(_, n, v) => n == name && v == c,
            Test::Match(n, v) => n == name && v == c,
            _ => false,
        },
    ensures
        bind_spec(st, render(p), name, c) matches Ok(m) ==> m.conditions == renders(ps.push(p)) && bound(
            m.params,
            ps.push(p),
        ),
{
    if let Ok(m) = bind_spec(st, render(p), name, c) {
        lemma_lookup_absent(st.params, name);
        assert(renders(ps.push(p)) =~= renders(ps).push(render(p)));
        assert forall|i: int| 0 <= i < ps.push(p).len() implies match (#[trigger] ps.push(p)[i]).test {
            Test::Compare(_, n, v) => lookup_cell(m.params, n) == Some(v),
            Test::Match(n, v) => lookup_cell(m.params, n) == Some(v),
            _ => true,
        } by {
            match ps.push(p)[i].test {
                Test::Compare(_, n, v) => {
                    lemma_lookup_push(st.params, (name, c), n);
                },
                Test::Match(n, v) => {
                    lemma_lookup_push(st.params, (name, c), n);
                },
                _ => {},
            }
            if i < ps.len() {
                assert(ps.push(p)[i] == ps[i]);
            }
        }
    }
}

proof fn lemma_condition_shape(st: FilterModel, ps: Seq<Pred>, p: Pred)
    requires
        st.conditions == renders(ps),
        bound(st.params, ps),
        p.test is IsNull || p.test is NotNull,
    ensures
        with_condition(st, render(p)).conditions == renders(ps.push(p)),
        bound(with_condition(st, render(p)).params, ps.push(p)),
{
    assert(renders(ps.push(p)) =~= renders(ps).push(render(p)));
    assert forall|i: int| 0 <= i < ps.push(p).len() implies match (#[trigger] ps.push(p)[i]).test {
        Test::Compare(_, n, v) => lookup_cell(st.params, n) == Some(v),
        Test::Match(n, v) => lookup_cell(st.params, n) == Some(v),
        _ => true,
    } by {
        if i < ps.len() {
            assert(ps.push(p)[i] == ps[i]);
        }
    }
}

proof fn lemma_operands_shape(st: FilterModel, ps: Seq<Pred>, field: Seq<char>, slots: Seq<Option<Cell>>, n: nat)
    requires
        st.conditions == renders(ps),
        bound(st.params, ps),
    ensures
        operands_bind_prefix(st, field, slots, n) matches Ok(m) ==> m.conditions == renders(
            ps + slots_preds(field, slots, n),
        ) && bound(m.params, ps + slots_preds(field, slots, n)),
    decreases n,
{
    if n == 0 {
        assert(ps + slots_preds(field, slots, 0) =~= ps);
    } else {
        let i = n - 1;
        lemma_operands_shape(st, ps, field, slots, (n - 1) as nat);
        if let Ok(s) = operands_bind_prefix(st, field, slots, (n - 1) as nat) {
            let before = ps + slots_preds(field, slots, (n - 1) as nat);
            match slots[i] {
                None => {
                    assert(ps + slots_preds(field, slots, n) =~= before);
                },
                Some(Cell::Null) => {
                    let p = Pred { column: field, test: Test::NotNull };
                    assert(ps + slots_preds(field, slots, n) =~= before.push(p));
                    lemma_condition_shape(s, before, p);
                },
                Some(c) => {
                    let name = ":"@ + field + op_suffix(i);
                    let p = Pred { column: field, test: Test::Compare(op_symbol(i), name, c) };
                    assert(ps + slots_preds(field, slots, n) =~= before.push(p));
                    assert(render(p) =~= field + " "@ + op_symbol(i) + " :"@ + field + op_suffix(i)) by {
                        reveal_strlit(" ");
                        reveal_strlit(":");
                        reveal_strlit(" :");
                    }
                    lemma_bind_shape(s, before, p, name, c);
                },
            }
        }
    }
}

proof fn lemma_compile_shape(entries: Seq<(String, JsonValue)>, names: Seq<Seq<char>>, n: nat)
    ensures
        compile_prefix(entries, names, n) matches Ok(m) ==> m.conditions == renders(preds_prefix(entries, names, n))
            && bound(m.params, preds_prefix(entries, names, n)),
    decreases n,
{
    if n == 0 {
        assert(renders(Seq::<Pred>::empty()) =~= Seq::<Seq<char>>::empty());
    } else {
        lemma_compile_shape(entries, names, (n - 1) as nat);
        if let Ok(st) = compile_prefix(entries, names, (n - 1) as nat) {
            let ps = preds_prefix(entries, names, (n - 1) as nat);
            let key = entries[n - 1].0@;
            let v = entries[n - 1].1;
            if !names.contains(key) {
                assert(ps + entry_preds(names, key, v) =~= ps);
            } else {
                match v {
                    JsonValue::Null => {
                        let p = Pred { column: key, test: Test::IsNull };
                        assert(ps + entry_preds(names, key, v) =~= ps.push(p));
                        lemma_condition_shape(st, ps, p);
                    },
                    JsonValue::Str(s) => {
                        let p = Pred { column: key, test: Test::Match(":"@ + key, Cell::Text(s@)) };
                        assert(ps + entry_preds(names, key, v) =~= ps.push(p));
                        assert(render(p) =~= key + " MATCH :"@ + key) by {
                            reveal_strlit(" MATCH ");
                            reveal_strlit(" MATCH :");
                            reveal_strlit(":");
                        }
                        lemma_bind_shape(st, ps, p, ":"@ + key, Cell::Text(s@));
                    },
                    JsonValue::Array(_) => {},
                    JsonValue::Object(ops) => {
                        if let Ok(slots) = operands_prefix(ops@, key, ops@.len()) {
                            lemma_operands_shape(st, ps, key, slots, 6);
                        }
                    },
                    _ => {
                        let p = Pred { column: key, test: Test::Compare("="@, ":"@ + key, scalar_cell(v)) };
                        assert(ps + entry_preds(names, key, v) =~= ps.push(p));
                        assert(render(p) =~= key + " = :"@ + key) by {
                            reveal_strlit(" = :");
                            reveal_strlit(" ");
                            reveal_strlit("=");
                            reveal_strlit(":");
                        }
                        lemma_bind_shape(st, ps, p, ":"@ + key, scalar_cell(v));
                    },
                }
            }
        }
    }
}

pub open spec fn all_hold(ps: Seq<Pred>, row: Seq<(Seq<char>, Cell)>, e: Engine) -> bool {
    forall|i: int| 0 <= i < ps.len() ==> #[trigger] direct_holds(ps[i], row, e)
}

proof fn lemma_all_hold_concat(a: Seq<Pred>, b: Seq<Pred>, row: Seq<(Seq<char>, Cell)>, e: Engine)
    ensures
        all_hold(a + b, row, e) == (all_hold(a, row, e) && all_hold(b, row, e)),
{
    if all_hold(a + b, row, e) {
        assert forall|i: int| 0 <= i < a.len() implies #[trigger] direct_holds(a[i], row, e) by {
            assert((a + b)[i] == a[i]);
        }
        assert forall|i: int| 0 <= i < b.len() implies #[trigger] direct_holds(b[i], row, e) by {
            assert((a + b)[a.len() + i] == b[i]);
        }
    }
    if all_hold(a, row, e) && all_hold(b, row, e) {
        assert forall|i: int| 0 <= i < (a + b).len() implies #[trigger] direct_holds((a + b)[i], row, e) by {
            if i < a.len() {
                assert((a + b)[i] == a[i]);
            } else {
                assert((a + b)[i] == b[i - a.len()]);
            }
        }
    }
}

proof fn lemma_slots_hold(field: Seq<char>, slots: Seq<Option<Cell>>, row: Seq<(Seq<char>, Cell)>, e: Engine, n: nat)
    ensures
        all_hold(slots_preds(field, slots, n), row, e) == (forall|i: int|
            0 <= i < n ==> #[trigger] slot_holds(field, i, slots[i], row, e)),
    decreases n,
{
    if n == 0 {
    } else {
        let i = n - 1;
        lemma_slots_hold(field, slots, row, e, (n - 1) as nat);
        lemma_all_hold_concat(slots_preds(field, slots, (n - 1) as nat), slot_preds(field, i, slots[i]), row, e);
        let last = slot_preds(field, i, slots[i]);
        assert(all_hold(last, row, e) == slot_holds(field, i, slots[i], row, e)) by {
            if last.len() == 1 {
                assert(direct_holds(last[0], row, e) == slot_holds(field, i, slots[i], row, e));
            }
        }
        if forall|k: int| 0 <= k < n ==> #[trigger] slot_holds(field, k, slots[k], row, e) {
            assert(slot_holds(field, i, slots[i], row, e));
        }
    }
}

proof fn lemma_entry_holds(names: Seq<Seq<char>>, key: Seq<char>, v: JsonValue, st: FilterModel, row: Seq<(Seq<char>, Cell)>, e: Engine)
    requires
        entry_step(st, names, key, v) is Ok,
    ensures
        all_hold(entry_preds(names, key, v), row, e) == entry_holds(names, key, v, row, e),
{
    let ps = entry_preds(names, key, v);
    if names.contains(key) {
        match v {
            JsonValue::Object(ops) => {
                if let Ok(slots) = operands_prefix(ops@, key, ops@.len()) {
                    lemma_slots_hold(key, slots, row, e, 6);
                }
            },
            JsonValue::Array(_) => {},
            _ => {
                assert(ps.len() == 1);
                assert(all_hold(ps, row, e) == direct_holds(ps[0], row, e));
            },
        }
    }
}

proof fn lemma_entries_hold(entries: Seq<(String, JsonValue)>, names: Seq<Seq<char>>, row: Seq<(Seq<char>, Cell)>, e: Engine, n: nat)
    requires
        compile_prefix(entries, names, n) is Ok,
    ensures
        all_hold(preds_prefix(entries, names, n), row, e) == (forall|i: int|
            0 <= i < n ==> #[trigger] entry_holds(names, entries[i].0@, entries[i].1, row, e)),
    decreases n,
{
    if n > 0 {
        let j = n - 1;
        if compile_prefix(entries, names, (n - 1) as nat) is Err {
            lemma_compile_err_stays(entries, names, (n - 1) as nat, n);
        }
        let st = compile_prefix(entries, names, (n - 1) as nat)->Ok_0;
        lemma_entries_hold(entries, names, row, e, (n - 1) as nat);
        lemma_all_hold_concat(
            preds_prefix(entries, names, (n - 1) as nat),
            entry_preds(names, entries[j].0@, entries[j].1),
            row,
            e,
        );
        lemma_entry_holds(names, entries[j].0@, entries[j].1, st, row, e);
        if forall|k: int| 0 <= k < n ==> #[trigger] entry_holds(names, entries[k].0@, entries[k].1, row, e) {
            assert(entry_holds(names, entries[j].0@, entries[j].1, row, e));
        }
    }
}

/// What a compiled filter means. Its conditions are the texts of the
/// conditions below, and for every engine that binds parameters by name,
/// every condition holds of a row exactly when every entry of the filter
/// holds of it: the compiled predicate selects the records the filter
/// describes.
pub proof fn lemma_compiled_filter_meaning(entries: Vec<(String, JsonValue)>, t: TableView, row: Seq<(Seq<char>, Cell)>, e: Engine)
    ensures
        compile_spec(JsonValue::Object(entries), t) matches Ok(m) ==> {
            let names = names_of(t.fields);
            let ps = preds_prefix(entries@, names, entries@.len());
            &&& m.conditions == renders(ps)
            &&& (forall|i: int| 0 <= i < ps.len() ==> #[trigger] pred_holds(ps[i], m.params, row, e)) == (forall|i: int|
                0 <= i < entries@.len() ==> #[trigger] entry_holds(names, entries@[i].0@, entries@[i].1, row, e))
        },
{
    let names = names_of(t.fields);
    let n = entries@.len();
    if let Ok(m) = compile_spec(JsonValue::Object(entries), t) {
        let ps = preds_prefix(entries@, names, n);
        lemma_compile_shape(entries@, names, n);
        lemma_entries_hold(entries@, names, row, e, n);
        assert forall|i: int| 0 <= i < ps.len() implies #[trigger] pred_holds(ps[i], m.params, row, e) == direct_holds(
            ps[i],
            row,
            e,
        ) by {
            assert(bound(m.params, ps));
        }
        if forall|i: int| 0 <= i < ps.len() ==> #[trigger] pred_holds(ps[i], m.params, row, e) {
            assert forall|i: int| 0 <= i < ps.len() implies #[trigger] direct_holds(ps[i], row, e) by {
                assert(pred_holds(ps[i], m.params, row, e));
            }
            assert(all_hold(ps, row, e));
        }
        if all_hold(ps, row, e) {
            assert forall|i: int| 0 <= i < ps.len() implies #[trigger] pred_holds(ps[i], m.params, row, e) by {
                assert(direct_holds(ps[i], row, e));
            }
        }
    }
}

} // verus!
