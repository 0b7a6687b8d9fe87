//! What INSERT adds to a table, and what it does where a new row conflicts with another.

use vstd::prelude::*;
use crate::ast::{default_word, table_name_of};
use crate::authorization::numbered;
use crate::catalog::{cell_of, column_named, table_of, AuthModel, CellsModel, ColumnModel, DatabaseModel, Identity, RowModel, TableModel};
use crate::dml::{
    completed_from, conflict_handled, conflict_keys_of, conflict_of, conflicting_from, excluded_from, given_from,
    insert_rows, insert_target, inserted, missing_value, name_repeated, new_cells, row_conflicts, row_inserted,
    rows_inserted_from, upserted_from, InsertionModel,
};
use crate::error::Failure;
use crate::eval::satisfied;
use crate::json::{Json, Num};
use crate::mutations::{
    all_upserted, apart, assigned_cells_are_rewritten, checked_rows_fit, column_is_there, computed, elsewhere_same,
    fitting, generated_anew, holds_default, holds_value, named_column, one_table_changes, regenerating, rewritten,
};
use crate::ordmap::{get, get_absent, get_after_put, get_at, has_key, put, put_keeps_order, sorted, spot_from, spot_from_range};
use crate::rules::{permitted, regenerated};
use crate::value::{child, items, payload, same_json, tag};

verus! {

// ---------------------------------------------------------------------------------------------
// The cells of a new row
// ---------------------------------------------------------------------------------------------

/// Whether the columns of an INSERT have names of their own.
pub open spec fn names_apart(target: Seq<Seq<char>>) -> bool {
    forall|i: int, j: int| #![trigger target[i], target[j]] 0 <= i < j < target.len() ==> target[i] != target[j]
}

/// Whether an INSERT gives an expression for the column at a position of its list.
pub open spec fn gives(target: Seq<Seq<char>>, exprs: Json, i: int) -> bool {
    0 <= i < target.len() && i < items(exprs).len() && !default_word(items(exprs)[i])
}

/// Whether an INSERT gives an expression for a column.
pub open spec fn given(target: Seq<Seq<char>>, exprs: Json, name: Seq<char>) -> bool {
    exists|i: int| #[trigger] gives(target, exprs, i) && target[i] == name
}

/// The number that an identity column gives to the row with an identity: the start for the first row, and
/// one increment more for each that follows.
pub open spec fn numbered_as(cell: Option<Json>, identity: Identity, id: u64) -> bool {
    cell matches Some(Json::Number(Num::Int(n))) && n == identity.start + identity.increment * (if id == 0 {
        0
    } else {
        id - 1
    })
}

/// Whether the cell of a column that is left out has what the column says: its next number, its default,
/// else null.
pub open spec fn holds_missing(cells: CellsModel, column: ColumnModel, id: u64, caller: AuthModel) -> bool {
    match column.identity {
        Some(identity) => numbered_as(get(cells, column.name), identity, id),
        None => holds_default(cells, column, caller),
    }
}

/// Whether cells are those of a new row: the values that are given, what the columns say where none is, and
/// the generated columns computed from them.
pub open spec fn filled(
    columns: Seq<ColumnModel>,
    target: Seq<Seq<char>>,
    exprs: Json,
    id: u64,
    cells: CellsModel,
    caller: AuthModel,
) -> bool {
    &&& forall|i: int|
        #[trigger] gives(target, exprs, i) ==> !computed(columns, target[i]) && holds_value(
            cells,
            target[i],
            items(exprs)[i],
            Seq::empty(),
            caller,
        )
    &&& forall|p: int|
        0 <= p < columns.len() && (#[trigger] columns[p]).generated is None && !given(target, exprs, columns[p].name)
            ==> holds_missing(cells, columns[p], id, caller)
    &&& exists|base: CellsModel| #[trigger] generated_anew(columns, base, cells, caller)
}

/// What is known of the expressions before a position.
spec fn giving(
    columns: Seq<ColumnModel>,
    target: Seq<Seq<char>>,
    exprs: Json,
    from: int,
    cells: CellsModel,
    caller: AuthModel,
) -> bool {
    &&& sorted(cells)
    &&& forall|i: int|
        #[trigger] gives(target, exprs, i) && i < from ==> !computed(columns, target[i]) && holds_value(
            cells,
            target[i],
            items(exprs)[i],
            Seq::empty(),
            caller,
        )
    &&& forall|name: Seq<char>|
        (#[trigger] get(cells, name)) is Some ==> exists|i: int|
            #[trigger] gives(target, exprs, i) && i < from && target[i] == name
}

proof fn all_given(
    columns: Seq<ColumnModel>,
    target: Seq<Seq<char>>,
    exprs: Json,
    from: int,
    cells: CellsModel,
    caller: AuthModel,
)
    requires
        apart(columns),
        names_apart(target),
        forall|i: int| 0 <= i < target.len() ==> column_named(columns, #[trigger] target[i]) is Some,
        0 <= from <= target.len(),
        giving(columns, target, exprs, from, cells, caller),
    ensures
        given_from(columns, target, exprs, from, cells, caller) matches Ok(done) ==> giving(
            columns,
            target,
            exprs,
            target.len() as int,
            done,
            caller,
        ),
    decreases target.len() - from,
{
    if from < target.len() && from < items(exprs).len() {
        let expr = items(exprs)[from];
        let name = target[from];
        if default_word(expr) {
            assert(!gives(target, exprs, from));
            assert(giving(columns, target, exprs, from + 1, cells, caller)) by {
                assert forall|i: int| #[trigger] gives(target, exprs, i) && i < from + 1 implies !computed(
                    columns,
                    target[i],
                ) && holds_value(cells, target[i], items(exprs)[i], Seq::empty(), caller) by {
                    assert(i < from);
                }
                assert forall|other: Seq<char>| (#[trigger] get(cells, other)) is Some implies exists|i: int|
                    #[trigger] gives(target, exprs, i) && i < from + 1 && target[i] == other by {
                    let i = choose|i: int| #[trigger] gives(target, exprs, i) && i < from && target[i] == other;
                    assert(gives(target, exprs, i) && i < from + 1);
                }
            }
            all_given(columns, target, exprs, from + 1, cells, caller);
        } else {
            let p = column_is_there(columns, name);
            match given_from(columns, target, exprs, from, cells, caller) {
                Err(_) => {},
                Ok(_) => {
                    assert(!computed(columns, name)) by {
                        if computed(columns, name) {
                            let q = choose|q: int|
                                0 <= q < columns.len() && (#[trigger] columns[q]).name == name && columns[q].generated
                                    is Some;
                            named_column(columns, q);
                        }
                    }
                    let value = crate::eval::evaluated(expr, Seq::empty(), caller)->Ok_0;
                    let next = put(cells, name, value);
                    put_keeps_order(cells, name, value);
                    assert forall|i: int| #[trigger] gives(target, exprs, i) && i < from + 1 implies !computed(
                        columns,
                        target[i],
                    ) && holds_value(next, target[i], items(exprs)[i], Seq::empty(), caller) by {
                        get_after_put(cells, name, value, target[i]);
                        if i < from {
                            assert(target[i] != target[from]);
                        }
                    }
                    assert forall|other: Seq<char>| (#[trigger] get(next, other)) is Some implies exists|i: int|
                        #[trigger] gives(target, exprs, i) && i < from + 1 && target[i] == other by {
                        get_after_put(cells, name, value, other);
                        if other == name {
                            assert(gives(target, exprs, from));
                        } else {
                            assert(get(cells, other) is Some);
                            let i = choose|i: int| #[trigger] gives(target, exprs, i) && i < from && target[i] == other;
                            assert(gives(target, exprs, i) && i < from + 1);
                        }
                    }
                    all_given(columns, target, exprs, from + 1, next, caller);
                },
            }
        }
    } else {
        assert forall|name: Seq<char>| (#[trigger] get(cells, name)) is Some implies exists|i: int|
            #[trigger] gives(target, exprs, i) && i < target.len() && target[i] == name by {
            let i = choose|i: int| #[trigger] gives(target, exprs, i) && i < from && target[i] == name;
            assert(gives(target, exprs, i) && i < target.len());
        }
    }
}

proof fn missing_values_are_held(cells: CellsModel, column: ColumnModel, id: u64, caller: AuthModel)
    requires
        missing_value(column, id, caller) matches Ok(value) && get(cells, column.name) == Some(value),
    ensures
        holds_missing(cells, column, id, caller),
{
    match column.identity {
        Some(identity) => {
            let ordinal = if id == 0 {
                0
            } else {
                id - 1
            };
            assert(ordinal * identity.increment == identity.increment * ordinal) by (nonlinear_arith);
        },
        None => {},
    }
}

/// What is known of the columns before a position: `first` are the cells that were there before.
spec fn completing(columns: Seq<ColumnModel>, from: int, first: CellsModel, cells: CellsModel, id: u64, caller: AuthModel) -> bool {
    &&& sorted(cells)
    &&& forall|name: Seq<char>| (#[trigger] get(first, name)) is Some ==> get(cells, name) == get(first, name)
    &&& forall|p: int|
        0 <= p < from && p < columns.len() && get(first, (#[trigger] columns[p]).name) is None ==> holds_missing(
            cells,
            columns[p],
            id,
            caller,
        )
    &&& forall|p: int|
        from <= p < columns.len() ==> get(cells, (#[trigger] columns[p]).name) == get(first, columns[p].name)
}

proof fn all_completed(
    columns: Seq<ColumnModel>,
    from: int,
    first: CellsModel,
    cells: CellsModel,
    id: u64,
    caller: AuthModel,
)
    requires
        apart(columns),
        sorted(first),
        0 <= from <= columns.len(),
        completing(columns, from, first, cells, id, caller),
    ensures
        completed_from(columns, from, cells, id, caller) matches Ok(done) ==> completing(
            columns,
            columns.len() as int,
            first,
            done,
            id,
            caller,
        ),
    decreases columns.len() - from,
{
    if from < columns.len() {
        let name = columns[from].name;
        key_is_found(cells, name);
        if has_key(cells, name) {
            all_completed(columns, from + 1, first, cells, id, caller);
        } else {
            match missing_value(columns[from], id, caller) {
                Err(_) => {},
                Ok(value) => {
                    let next = put(cells, name, value);
                    put_keeps_order(cells, name, value);
                    assert forall|other: Seq<char>| #[trigger] get(next, other) == (if other == name {
                        Some(value)
                    } else {
                        get(cells, other)
                    }) by {
                        get_after_put(cells, name, value, other);
                    }
                    assert(get(first, name) is None);
                    assert forall|other: Seq<char>| (#[trigger] get(first, other)) is Some implies get(next, other) == get(
                        first,
                        other,
                    ) by {
                        assert(get(cells, other) == get(first, other));
                        assert(get(next, other) == get(cells, other));
                    }
                    assert forall|p: int|
                        0 <= p < from + 1 && p < columns.len() && get(first, (#[trigger] columns[p]).name) is None implies holds_missing(
                        next,
                        columns[p],
                        id,
                        caller,
                    ) by {
                        if p == from {
                            missing_values_are_held(next, columns[p], id, caller);
                        } else {
                            assert(columns[p].name != columns[from].name);
                            assert(get(next, columns[p].name) == get(cells, columns[p].name));
                        }
                    }
                    assert forall|p: int| from + 1 <= p < columns.len() implies get(next, (#[trigger] columns[p]).name) == get(
                        first,
                        columns[p].name,
                    ) by {
                        assert(columns[from].name != columns[p].name);
                        assert(get(next, columns[p].name) == get(cells, columns[p].name));
                    }
                    all_completed(columns, from + 1, first, next, id, caller);
                },
            }
        }
    }
}

proof fn key_is_found(cells: CellsModel, name: Seq<char>)
    requires
        sorted(cells),
    ensures
        has_key(cells, name) <==> get(cells, name) is Some,
{
    spot_from_range(cells, name, 0);
    let i = spot_from(cells, name, 0);
    if i < cells.len() {
        get_at(cells, i);
    } else {
        get_absent(cells, name);
    }
}

/// Whether an INSERT may fill these columns: they are columns of the table, each named once.
pub open spec fn proper_target(table: TableModel, target: Seq<Seq<char>>) -> bool {
    names_apart(target) && forall|i: int|
        0 <= i < target.len() ==> column_named(table.columns, #[trigger] target[i]) is Some
}

proof fn new_cells_are_filled(table: TableModel, target: Seq<Seq<char>>, exprs: Json, caller: AuthModel)
    requires
        apart(table.columns),
        proper_target(table, target),
    ensures
        new_cells(table, target, exprs, caller) matches Ok(cells) ==> filled(
            table.columns,
            target,
            exprs,
            table.next_row_id,
            cells,
            caller,
        ) && fitting(table, cells, caller) && permitted(table, "INSERT"@, cells, caller, true) == Ok::<bool, Failure>(true)
            && (items(exprs).len() > 0 ==> items(exprs).len() == target.len()) && sorted(cells),
{
    let columns = table.columns;
    let none = Seq::<(Seq<char>, Json)>::empty();
    match new_cells(table, target, exprs, caller) {
        Err(_) => {},
        Ok(cells) => {
            all_given(columns, target, exprs, 0, none, caller);
            let first = given_from(columns, target, exprs, 0, none, caller)->Ok_0;
            all_completed(columns, 0, first, first, table.next_row_id, caller);
            let complete = completed_from(columns, 0, first, table.next_row_id, caller)->Ok_0;
            regenerating(columns, 0, complete, complete, caller);
            assert(generated_anew(columns, complete, cells, caller));
            checked_rows_fit(table, cells, caller);
            assert forall|i: int| #[trigger] gives(target, exprs, i) implies !computed(columns, target[i]) && holds_value(
                cells,
                target[i],
                items(exprs)[i],
                Seq::empty(),
                caller,
            ) by {
                assert(get(first, target[i]) is Some);
                assert(get(complete, target[i]) == get(first, target[i]));
                assert(get(cells, target[i]) == get(complete, target[i]));
            }
            assert forall|p: int|
                0 <= p < columns.len() && (#[trigger] columns[p]).generated is None && !given(
                    target,
                    exprs,
                    columns[p].name,
                ) implies holds_missing(cells, columns[p], table.next_row_id, caller) by {
                let name = columns[p].name;
                if get(first, name) is Some {
                    let i = choose|i: int| #[trigger] gives(target, exprs, i) && i < target.len() && target[i] == name;
                    assert(given(target, exprs, name));
                }
                assert(!computed(columns, name)) by {
                    if computed(columns, name) {
                        let q = choose|q: int|
                            0 <= q < columns.len() && (#[trigger] columns[q]).name == name && columns[q].generated is Some;
                        named_column(columns, q);
                        named_column(columns, p);
                    }
                }
                assert(get(cells, name) == get(complete, name));
                assert(holds_missing(complete, columns[p], table.next_row_id, caller));
            }
        },
    }
}

// ---------------------------------------------------------------------------------------------
// Conflicts
// ---------------------------------------------------------------------------------------------

/// Whether new cells have the key of a row: no cell of it is null, and each is that of the row.
pub open spec fn clash(cells: CellsModel, row: CellsModel, key: Seq<Seq<char>>) -> bool {
    forall|i: int|
        0 <= i < key.len() ==> !(cell_of(cells, #[trigger] key[i]) is Null) && same_json(
            cell_of(cells, key[i]),
            cell_of(row, key[i]),
        )
}

/// Whether new cells have one of these keys of a row.
pub open spec fn clashes(cells: CellsModel, row: CellsModel, keys: Seq<Seq<Seq<char>>>) -> bool {
    exists|i: int| 0 <= i < keys.len() && clash(cells, row, #[trigger] keys[i])
}

proof fn first_conflict(rows: Seq<(u64, RowModel)>, from: int, cells: CellsModel, keys: Seq<Seq<Seq<char>>>)
    requires
        0 <= from,
    ensures
        match conflicting_from(rows, from, cells, keys) {
            Some(row) => exists|i: int|
                from <= i < rows.len() && (#[trigger] rows[i]).1 == row && clashes(cells, row.values, keys),
            None => forall|i: int|
                from <= i < rows.len() ==> !clashes(cells, (#[trigger] rows[i]).1.values, keys),
        },
    decreases rows.len() - from,
{
    if from < rows.len() {
        let row = rows[from].1.values;
        assert(row_conflicts(cells, row, keys) <==> clashes(cells, row, keys)) by {
            if row_conflicts(cells, row, keys) {
                let i = choose|i: int|
                    0 <= i < keys.len() && crate::dml::key_conflicts(cells, row, #[trigger] keys[i]);
                assert(clash(cells, row, keys[i]));
            }
            if clashes(cells, row, keys) {
                let i = choose|i: int| 0 <= i < keys.len() && clash(cells, row, #[trigger] keys[i]);
                assert(crate::dml::key_conflicts(cells, row, keys[i]));
            }
        }
        first_conflict(rows, from + 1, cells, keys);
        if !row_conflicts(cells, row, keys) {
            match conflicting_from(rows, from + 1, cells, keys) {
                Some(found) => {
                    let i = choose|i: int|
                        from + 1 <= i < rows.len() && (#[trigger] rows[i]).1 == found && clashes(cells, found.values, keys);
                    assert(rows[i].1 == found);
                },
                None => {},
            }
        } else {
            assert(rows[from].1 == rows[from].1);
        }
    }
}

/// Whether a scope has the cells of a row under their names, and those of a proposed one under theirs after
/// the word `excluded`.
pub open spec fn proposal(scope: CellsModel, row: CellsModel, cells: CellsModel) -> bool {
    &&& forall|k: int|
        0 <= k < cells.len() ==> get(scope, "excluded."@ + (#[trigger] cells[k]).0) == Some(cells[k].1)
    &&& forall|name: Seq<char>|
        (forall|k: int| 0 <= k < cells.len() ==> name != "excluded."@ + (#[trigger] cells[k]).0) ==> #[trigger] get(
            scope,
            name,
        ) == get(row, name)
}

proof fn excluded_names_differ(a: Seq<char>, b: Seq<char>)
    ensures
        "excluded."@ + a == "excluded."@ + b ==> a == b,
{
    let n = "excluded."@.len() as int;
    assert(("excluded."@ + a).skip(n) =~= a);
    assert(("excluded."@ + b).skip(n) =~= b);
}

proof fn cells_are_proposed(scope: CellsModel, row: CellsModel, cells: CellsModel, from: int)
    requires
        sorted(scope),
        sorted(cells),
        0 <= from <= cells.len(),
        forall|k: int| 0 <= k < from ==> get(scope, "excluded."@ + (#[trigger] cells[k]).0) == Some(cells[k].1),
        forall|name: Seq<char>|
            (forall|k: int| 0 <= k < cells.len() ==> name != "excluded."@ + (#[trigger] cells[k]).0) ==> #[trigger] get(
                scope,
                name,
            ) == get(row, name),
    ensures
        proposal(excluded_from(scope, cells, from), row, cells),
    decreases cells.len() - from,
{
    if from < cells.len() {
        let name = "excluded."@ + cells[from].0;
        let next = put(scope, name, cells[from].1);
        put_keeps_order(scope, name, cells[from].1);
        assert forall|k: int| 0 <= k < from + 1 implies get(next, "excluded."@ + (#[trigger] cells[k]).0) == Some(
            cells[k].1,
        ) by {
            get_after_put(scope, name, cells[from].1, "excluded."@ + cells[k].0);
            excluded_names_differ(cells[k].0, cells[from].0);
            if k < from && cells[k].0 == cells[from].0 {
                get_at(cells, k);
                get_at(cells, from);
            }
        }
        assert forall|other: Seq<char>|
            (forall|k: int| 0 <= k < cells.len() ==> other != "excluded."@ + (#[trigger] cells[k]).0) implies #[trigger] get(
            next,
            other,
        ) == get(row, other) by {
            assert(other != "excluded."@ + cells[from].0);
            get_after_put(scope, name, cells[from].1, other);
            assert(get(scope, other) == get(row, other));
        }
        cells_are_proposed(next, row, cells, from + 1);
    }
}

// ---------------------------------------------------------------------------------------------
// One row
// ---------------------------------------------------------------------------------------------

/// Whether the progress of an INSERT goes on by one written row.
pub open spec fn writes(
    state: InsertionModel,
    next: InsertionModel,
    row: RowModel,
    returning: Json,
    caller: AuthModel,
) -> bool {
    &&& get(next.table.rows, row.id) == Some(row)
    &&& forall|id: u64| id != row.id ==> #[trigger] get(next.table.rows, id) == get(state.table.rows, id)
    &&& next.table == TableModel { rows: next.table.rows, next_row_id: next.table.next_row_id, ..state.table }
    &&& next.affected == (state.affected + 1) as usize
    &&& next.touched == state.touched.push(row.id)
    &&& if returning is Null {
        next.output == state.output
    } else {
        next.output.len() == state.output.len() + 1 && next.output.drop_last() == state.output && next.output.last() is Object
            && crate::eval::projected(returning, row.values, caller) == Ok::<CellsModel, Failure>(
            next.output.last()->Object_0,
        )
    }
}

/// Whether a row of an INSERT is added as a new row: under the next identity, in its first version.
pub open spec fn adds(
    state: InsertionModel,
    next: InsertionModel,
    cells: CellsModel,
    returning: Json,
    caller: AuthModel,
) -> bool {
    &&& next.table.next_row_id == state.table.next_row_id + 1
    &&& writes(state, next, RowModel { id: state.table.next_row_id, version: 1, values: cells }, returning, caller)
}

/// Whether a row of an INSERT updates a row that it clashes with: the policies allow it, its WHERE is true,
/// and the statement has not written the row before. Assignments have the values that their expressions
/// have on the row and the proposed one.
pub open spec fn upserts(
    state: InsertionModel,
    next: InsertionModel,
    old_row: RowModel,
    cells: CellsModel,
    update: Json,
    returning: Json,
    caller: AuthModel,
    scope: CellsModel,
    values: CellsModel,
) -> bool {
    &&& proposal(scope, old_row.values, cells)
    &&& permitted(state.table, "UPDATE"@, old_row.values, caller, false) == Ok::<bool, Failure>(true)
    &&& satisfied(child(update, "selection"@), scope, caller) == Ok::<bool, Failure>(true)
    &&& !state.touched.contains(old_row.id)
    &&& rewritten(state.table.columns, child(update, "assignments"@), old_row.values, scope, values, caller)
    &&& fitting(state.table, values, caller)
    &&& permitted(state.table, "UPDATE"@, values, caller, true) == Ok::<bool, Failure>(true)
    &&& next.table.next_row_id == state.table.next_row_id
    &&& old_row.version < u64::MAX
    &&& writes(
        state,
        next,
        RowModel { id: old_row.id, version: (old_row.version + 1) as u64, values },
        returning,
        caller,
    )
}

/// Whether a row of an INSERT that clashes with another is passed over: by DO NOTHING, or because the WHERE
/// of DO UPDATE is not true.
pub open spec fn passes_over(
    state: InsertionModel,
    next: InsertionModel,
    old_row: RowModel,
    cells: CellsModel,
    action: Json,
    caller: AuthModel,
    scope: CellsModel,
) -> bool {
    &&& next == state
    &&& tag(action) == "DoNothing"@ || proposal(scope, old_row.values, cells) && permitted(
        state.table,
        "UPDATE"@,
        old_row.values,
        caller,
        false,
    ) == Ok::<bool, Failure>(true) && satisfied(child(payload(action), "selection"@), scope, caller) == Ok::<bool, Failure>(
        false,
    )
}

/// Whether a clash with a row is resolved: by an update of that row, or by passing over.
pub open spec fn resolves(
    state: InsertionModel,
    next: InsertionModel,
    i: int,
    cells: CellsModel,
    keys: Seq<Seq<Seq<char>>>,
    action: Json,
    returning: Json,
    caller: AuthModel,
    scope: CellsModel,
    values: CellsModel,
) -> bool {
    let row = state.table.rows[i].1;
    &&& 0 <= i < state.table.rows.len()
    &&& clashes(cells, row.values, keys)
    &&& passes_over(state, next, row, cells, action, caller, scope) || (tag(action) != "DoNothing"@ && upserts(
        state,
        next,
        row,
        cells,
        payload(action),
        returning,
        caller,
        scope,
        values,
    ))
}

/// What becomes of the cells of a row of an INSERT: a new row where they clash with none; else an update of
/// a row that they clash with, or nothing.
pub open spec fn lands(
    state: InsertionModel,
    next: InsertionModel,
    cells: CellsModel,
    keys: Seq<Seq<Seq<char>>>,
    action: Json,
    returning: Json,
    caller: AuthModel,
) -> bool {
    if forall|i: int|
        0 <= i < state.table.rows.len() ==> !clashes(cells, (#[trigger] state.table.rows[i]).1.values, keys) {
        adds(state, next, cells, returning, caller)
    } else {
        exists|i: int, scope: CellsModel, values: CellsModel| #[trigger]
            resolves(state, next, i, cells, keys, action, returning, caller, scope, values)
    }
}

/// What one row of an INSERT does: its cells are filled in, accepted by the table and its policies, and
/// land.
pub open spec fn insert_step(
    state: InsertionModel,
    next: InsertionModel,
    target: Seq<Seq<char>>,
    exprs: Json,
    keys: Seq<Seq<Seq<char>>>,
    action: Json,
    returning: Json,
    caller: AuthModel,
    cells: CellsModel,
) -> bool {
    &&& filled(state.table.columns, target, exprs, state.table.next_row_id, cells, caller)
    &&& items(exprs).len() > 0 ==> items(exprs).len() == target.len()
    &&& fitting(state.table, cells, caller)
    &&& permitted(state.table, "INSERT"@, cells, caller, true) == Ok::<bool, Failure>(true)
    &&& lands(state, next, cells, keys, action, returning, caller)
}

/// Whether a table is kept in order while rows are added.
pub open spec fn orderly(table: TableModel) -> bool {
    numbered(table.rows) && crate::mutations::cells_sorted(table) && apart(table.columns)
}

proof fn rows_are_written(state: InsertionModel, row: RowModel, returning: Json, touched: Seq<u64>, caller: AuthModel)
    requires
        orderly(state.table),
        touched == state.touched.push(row.id),
        sorted(row.values),
    ensures
        crate::dml::row_written(state, row, returning, touched, caller) matches Ok(next) ==> writes(
            state,
            next,
            row,
            returning,
            caller,
        ) && orderly(next.table) && next.table.next_row_id == state.table.next_row_id,
{
    match crate::dml::row_written(state, row, returning, touched, caller) {
        Err(_) => {},
        Ok(next) => {
            let rows = state.table.rows;
            put_keeps_order(rows, row.id, row);
            assert forall|id: u64| #[trigger] get(next.table.rows, id) == (if id == row.id {
                Some(row)
            } else {
                get(rows, id)
            }) by {
                get_after_put(rows, row.id, row, id);
            }
            assert(get(next.table.rows, row.id) == Some(row));
            assert forall|i: int| 0 <= i < next.table.rows.len() implies (#[trigger] next.table.rows[i]).0
                == next.table.rows[i].1.id && sorted(next.table.rows[i].1.values) by {
                let id = next.table.rows[i].0;
                get_at(next.table.rows, i);
                assert(get(next.table.rows, id) == Some(next.table.rows[i].1));
                if id != row.id {
                    spot_from_range(rows, id, 0);
                    let j = spot_from(rows, id, 0);
                    if j < rows.len() {
                        get_at(rows, j);
                        assert(sorted(rows[j].1.values));
                    } else {
                        get_absent(rows, id);
                    }
                }
            }
            if !(returning is Null) {
                assert(next.output.drop_last() =~= state.output);
            }
        },
    }
}

proof fn conflicts_are_handled(
    state: InsertionModel,
    i: int,
    cells: CellsModel,
    keys: Seq<Seq<Seq<char>>>,
    action: Json,
    returning: Json,
    caller: AuthModel,
)
    requires
        orderly(state.table),
        sorted(cells),
        0 <= i < state.table.rows.len(),
        clashes(cells, state.table.rows[i].1.values, keys),
    ensures
        conflict_handled(state, state.table.rows[i].1, cells, action, returning, caller) matches Ok(next) ==> lands(
            state,
            next,
            cells,
            keys,
            action,
            returning,
            caller,
        ) && orderly(next.table),
{
    let row = state.table.rows[i].1;
    let update = payload(action);
    let assignments = child(update, "assignments"@);
    let scope = excluded_from(row.values, cells, 0);
    assert(sorted(state.table.rows[i].1.values));
    cells_are_proposed(row.values, row.values, cells, 0);
    match conflict_handled(state, row, cells, action, returning, caller) {
        Err(_) => {},
        Ok(next) => {
            if tag(action) == "DoNothing"@ {
                assert(resolves(state, next, i, cells, keys, action, returning, caller, scope, cells));
            } else if satisfied(child(update, "selection"@), scope, caller) == Ok::<bool, Failure>(false) {
                assert(resolves(state, next, i, cells, keys, action, returning, caller, scope, cells));
            } else {
                all_upserted(state.table, assignments, 0, row.values, scope, row.values, caller);
                let changed = upserted_from(state.table, assignments, 0, row.values, scope, caller)->Ok_0;
                assigned_cells_are_rewritten(state.table.columns, assignments, row.values, scope, changed, caller);
                let values = regenerated(state.table.columns, changed, caller)->Ok_0;
                checked_rows_fit(state.table, values, caller);
                let written = RowModel { id: row.id, version: (row.version + 1) as u64, values };
                rows_are_written(state, written, returning, state.touched.push(row.id), caller);
                assert(resolves(state, next, i, cells, keys, action, returning, caller, scope, values));
            }
        },
    }
}

proof fn one_row_lands(
    state: InsertionModel,
    target: Seq<Seq<char>>,
    exprs: Json,
    keys: Seq<Seq<Seq<char>>>,
    conflict: Json,
    returning: Json,
    caller: AuthModel,
) -> (cells: CellsModel)
    requires
        orderly(state.table),
        proper_target(state.table, target),
    ensures
        row_inserted(state, target, exprs, keys, conflict, returning, caller) matches Ok(next) ==> insert_step(
            state,
            next,
            target,
            exprs,
            keys,
            child(conflict, "action"@),
            returning,
            caller,
            cells,
        ) && orderly(next.table) && next.table.columns == state.table.columns,
{
    let cells = new_cells(state.table, target, exprs, caller)->Ok_0;
    match row_inserted(state, target, exprs, keys, conflict, returning, caller) {
        Err(_) => cells,
        Ok(next) => {
            new_cells_are_filled(state.table, target, exprs, caller);
            first_conflict(state.table.rows, 0, cells, keys);
            match conflicting_from(state.table.rows, 0, cells, keys) {
                Some(row) => {
                    let i = choose|i: int|
                        0 <= i < state.table.rows.len() && (#[trigger] state.table.rows[i]).1 == row && clashes(
                            cells,
                            row.values,
                            keys,
                        );
                    conflicts_are_handled(state, i, cells, keys, child(conflict, "action"@), returning, caller);
                },
                None => {
                    let id = state.table.next_row_id;
                    let counted = InsertionModel {
                        table: TableModel { next_row_id: (id + 1) as u64, ..state.table },
                        ..state
                    };
                    let row = RowModel { id, version: 1, values: cells };
                    assert(orderly(counted.table));
                    rows_are_written(counted, row, returning, state.touched.push(id), caller);
                },
            }
            cells
        },
    }
}

// ---------------------------------------------------------------------------------------------
// All rows
// ---------------------------------------------------------------------------------------------

/// Whether the progress of an INSERT goes through these states, one step for each row from a position on.
pub open spec fn goes_through(
    states: Seq<InsertionModel>,
    target: Seq<Seq<char>>,
    input: Json,
    from: int,
    keys: Seq<Seq<Seq<char>>>,
    action: Json,
    returning: Json,
    caller: AuthModel,
) -> bool {
    &&& states.len() == items(input).len() - from + 1
    &&& forall|k: int|
        0 <= k < states.len() - 1 ==> #[trigger] leads_at(
            states,
            k,
            target,
            items(input)[from + k],
            keys,
            action,
            returning,
            caller,
        )
}

/// Whether the state of an INSERT at a position leads on to the one after it.
pub open spec fn leads_at(
    states: Seq<InsertionModel>,
    k: int,
    target: Seq<Seq<char>>,
    exprs: Json,
    keys: Seq<Seq<Seq<char>>>,
    action: Json,
    returning: Json,
    caller: AuthModel,
) -> bool {
    leads_on(states[k], states[k + 1], target, exprs, keys, action, returning, caller)
}

/// Whether a state of an INSERT leads on to the next.
pub open spec fn leads_on(
    state: InsertionModel,
    next: InsertionModel,
    target: Seq<Seq<char>>,
    exprs: Json,
    keys: Seq<Seq<Seq<char>>>,
    action: Json,
    returning: Json,
    caller: AuthModel,
) -> bool {
    exists|cells: CellsModel| #[trigger]
        insert_step(state, next, target, exprs, keys, action, returning, caller, cells)
}

proof fn path_grows(
    state: InsertionModel,
    rest: Seq<InsertionModel>,
    target: Seq<Seq<char>>,
    input: Json,
    from: int,
    keys: Seq<Seq<Seq<char>>>,
    action: Json,
    returning: Json,
    caller: AuthModel,
)
    requires
        0 <= from < items(input).len(),
        goes_through(rest, target, input, from + 1, keys, action, returning, caller),
        leads_on(state, rest[0], target, items(input)[from], keys, action, returning, caller),
    ensures
        goes_through(seq![state] + rest, target, input, from, keys, action, returning, caller),
        (seq![state] + rest)[0] == state,
        (seq![state] + rest).last() == rest.last(),
{
    let states = seq![state] + rest;
    assert forall|k: int| 0 <= k < states.len() - 1 implies #[trigger] leads_at(
        states,
        k,
        target,
        items(input)[from + k],
        keys,
        action,
        returning,
        caller,
    ) by {
        if k == 0 {
            assert(states[0] == state && states[1] == rest[0]);
        } else {
            assert(states[k] == rest[k - 1] && states[k + 1] == rest[k]);
            assert(leads_at(
                rest,
                k - 1,
                target,
                items(input)[from + 1 + (k - 1)],
                keys,
                action,
                returning,
                caller,
            ));
        }
    }
}

proof fn rows_go_through(
    state: InsertionModel,
    target: Seq<Seq<char>>,
    input: Json,
    from: int,
    keys: Seq<Seq<Seq<char>>>,
    conflict: Json,
    returning: Json,
    caller: AuthModel,
) -> (states: Seq<InsertionModel>)
    requires
        orderly(state.table),
        proper_target(state.table, target),
        0 <= from <= items(input).len(),
    ensures
        rows_inserted_from(state, target, input, from, keys, conflict, returning, caller) matches Ok(done) ==> goes_through(
            states,
            target,
            input,
            from,
            keys,
            child(conflict, "action"@),
            returning,
            caller,
        ) && states[0] == state && states.last() == done,
    decreases items(input).len() - from,
{
    if from < items(input).len() {
        let exprs = items(input)[from];
        let action = child(conflict, "action"@);
        match row_inserted(state, target, exprs, keys, conflict, returning, caller) {
            Err(_) => seq![state],
            Ok(next) => {
                let cells = one_row_lands(state, target, exprs, keys, conflict, returning, caller);
                let rest = rows_go_through(next, target, input, from + 1, keys, conflict, returning, caller);
                match rows_inserted_from(next, target, input, from + 1, keys, conflict, returning, caller) {
                    Err(_) => {},
                    Ok(done) => {
                        assert(leads_on(state, next, target, exprs, keys, action, returning, caller));
                        path_grows(state, rest, target, input, from, keys, action, returning, caller);
                    },
                }
                seq![state] + rest
            },
        }
    } else {
        seq![state]
    }
}

proof fn columns_are_required(table: TableModel, names: Seq<Seq<char>>, from: int, i: int)
    requires
        0 <= from <= i < names.len(),
        crate::rules::columns_required_from(table, names, from) is Ok,
    ensures
        column_named(table.columns, names[i]) is Some,
    decreases i - from,
{
    if from < i {
        columns_are_required(table, names, from + 1, i);
    }
}

proof fn targets_are_proper(table: TableModel, columns: Json)
    ensures
        insert_target(table, columns) matches Ok(target) ==> proper_target(table, target) && (items(columns).len() == 0 ==> (
        target.len() == table.columns.len() && forall|p: int|
            0 <= p < target.len() ==> #[trigger] target[p] == table.columns[p].name)),
{
    match insert_target(table, columns) {
        Err(_) => {},
        Ok(target) => {
            assert forall|i: int| 0 <= i < target.len() implies column_named(table.columns, #[trigger] target[i]) is Some by {
                columns_are_required(table, target, 0, i);
            }
            assert(!name_repeated(target));
        },
    }
}

proof fn nonempty_keys_are_kept(list: Seq<Seq<Seq<char>>>, from: int, found: Seq<Seq<Seq<char>>>, key: Seq<Seq<char>>)
    requires
        0 <= from,
    ensures
        crate::alter::kept_from(list, from, found, crate::dml::nonempty_key()).contains(key) <==> (found.contains(key)
            || (key.len() > 0 && key_listed(list, from, key))),
    decreases list.len() - from,
{
    if from < list.len() {
        if key_listed(list, from, key) {
            let i = choose|i: int| from <= i < list.len() && #[trigger] list[i] == key;
            if i > from {
                assert(key_listed(list, from + 1, key));
            }
        }
        if key_listed(list, from + 1, key) {
            let i = choose|i: int| from + 1 <= i < list.len() && #[trigger] list[i] == key;
            assert(list[i] == key);
        }
        if list[from].len() > 0 {
            let next = found.push(list[from]);
            nonempty_keys_are_kept(list, from + 1, next, key);
            assert(next[found.len() as int] == list[from]);
            if found.contains(key) {
                let i = choose|i: int| 0 <= i < found.len() && found[i] == key;
                assert(next[i] == key);
            }
            if next.contains(key) {
                let i = choose|i: int| 0 <= i < next.len() && next[i] == key;
                if i < found.len() {
                    assert(found[i] == key);
                }
            }
        } else {
            nonempty_keys_are_kept(list, from + 1, found, key);
        }
    }
}

spec fn key_listed(list: Seq<Seq<Seq<char>>>, from: int, key: Seq<Seq<char>>) -> bool {
    exists|i: int| from <= i < list.len() && #[trigger] list[i] == key
}

/// Whether columns are a key of a table, its primary key or a unique one.
pub open spec fn key_of(table: TableModel, key: Seq<Seq<char>>) -> bool {
    key == table.primary_key || exists|i: int| 0 <= i < table.unique.len() && #[trigger] table.unique[i] == key
}

/// Whether these are the keys on which the rows of an INSERT can clash: none without ON CONFLICT, the one
/// that it names, which must be a key of the table, else all keys of the table.
pub open spec fn arbiters(table: TableModel, on: Json, conflict: Json, keys: Seq<Seq<Seq<char>>>) -> bool {
    let target = child(conflict, "conflict_target"@);
    if on is Null {
        keys.len() == 0
    } else if target is Null {
        forall|key: Seq<Seq<char>>| #[trigger] keys.contains(key) <==> key.len() > 0 && key_of(table, key)
    } else {
        keys.len() == 1 && key_of(table, keys[0]) && keys[0] == crate::ast::ident_names(payload(target))
    }
}

proof fn conflict_keys_arbitrate(table: TableModel, on: Json, conflict: Json)
    ensures
        conflict_keys_of(table, on, conflict) matches Ok(keys) ==> arbiters(table, on, conflict, keys),
{
    match conflict_keys_of(table, on, conflict) {
        Err(_) => {},
        Ok(keys) => {
            let list = table.unique.push(table.primary_key);
            if !(on is Null) && child(conflict, "conflict_target"@) is Null {
                assert forall|key: Seq<Seq<char>>| #[trigger] keys.contains(key) <==> key.len() > 0 && key_of(table, key) by {
                    let none = Seq::<Seq<Seq<char>>>::empty();
                    nonempty_keys_are_kept(list, 0, none, key);
                    assert(!none.contains(key));
                    if key_listed(list, 0, key) {
                        let i = choose|i: int| 0 <= i < list.len() && #[trigger] list[i] == key;
                        if i < table.unique.len() {
                            assert(table.unique[i] == key);
                        }
                    }
                    if key_of(table, key) {
                        if key == table.primary_key {
                            assert(list[table.unique.len() as int] == key);
                        } else {
                            let i = choose|i: int| 0 <= i < table.unique.len() && #[trigger] table.unique[i] == key;
                            assert(list[i] == key);
                        }
                    }
                }
            } else if !(on is Null) {
                let columns = crate::ast::ident_names(payload(child(conflict, "conflict_target"@)));
                assert(keys == seq![columns]);
                if crate::rules::unique_listed(table.unique, columns) {
                    let i = choose|i: int| 0 <= i < table.unique.len() && #[trigger] table.unique[i] == columns;
                    assert(table.unique[i] == columns);
                }
            }
        },
    }
}

/// Whether an INSERT turns a table into another, through the states of its rows one after the other.
pub open spec fn insertion_made(
    table: TableModel,
    done: InsertionModel,
    node: Json,
    conflict: Json,
    caller: AuthModel,
    target: Seq<Seq<char>>,
    input: Json,
    keys: Seq<Seq<Seq<char>>>,
    states: Seq<InsertionModel>,
) -> bool {
    &&& proper_target(table, target)
    &&& items(child(node, "columns"@)).len() == 0 ==> target.len() == table.columns.len() && forall|p: int|
        0 <= p < target.len() ==> #[trigger] target[p] == table.columns[p].name
    &&& items(child(node, "columns"@)).len() > 0 ==> target == crate::ast::ident_names(child(node, "columns"@))
    &&& if child(node, "source"@) is Null {
        items(input).len() == 1 && items(items(input)[0]).len() == 0
    } else {
        input == child(payload(child(child(node, "source"@), "body"@)), "rows"@)
    }
    &&& arbiters(table, child(node, "on"@), conflict, keys)
    &&& goes_through(states, target, input, 0, keys, child(conflict, "action"@), child(node, "returning"@), caller)
    &&& states[0] == (InsertionModel { table, output: Seq::empty(), affected: 0, touched: Seq::empty() })
    &&& states.last() == done
}

/// An INSERT adds a row for each of its rows of expressions, or resolves its clash with a row as ON CONFLICT
/// says. The cells are the values of the expressions; a column that is left out has its next number, its
/// default or null. Nothing else changes.
pub proof fn insertions_add_the_rows_they_give(
    database: DatabaseModel,
    node: Json,
    caller: AuthModel,
    name: Seq<char>,
    table: TableModel,
)
    requires
        sorted(database.catalog),
        orderly(table),
        table_name_of(child(node, "table_name"@)) == Ok::<Seq<char>, Failure>(name),
        table_of(database, name) == Ok::<TableModel, Failure>(table),
    ensures
        inserted(database, node, caller) matches Ok((next, result)) ==> elsewhere_same(database, next, name) && exists|
            done: InsertionModel,
            conflict: Json,
            target: Seq<Seq<char>>,
            input: Json,
            keys: Seq<Seq<Seq<char>>>,
            states: Seq<InsertionModel>,
        |
            get(next.catalog, name) == Some(done.table) && result.rows == done.output && result.affected == done.affected
                && conflict_of(child(node, "on"@)) == Ok::<Json, Failure>(conflict) && #[trigger] insertion_made(
                table,
                done,
                node,
                conflict,
                caller,
                target,
                input,
                keys,
                states,
            ),
{
    match inserted(database, node, caller) {
        Err(_) => {},
        Ok((next, result)) => {
            let conflict = conflict_of(child(node, "on"@))->Ok_0;
            let keys = conflict_keys_of(table, child(node, "on"@), conflict)->Ok_0;
            let target = insert_target(table, child(node, "columns"@))->Ok_0;
            let input = insert_rows(child(node, "source"@))->Ok_0;
            let returning = child(node, "returning"@);
            let start = InsertionModel { table, output: Seq::empty(), affected: 0, touched: Seq::empty() };
            let done = rows_inserted_from(start, target, input, 0, keys, conflict, returning, caller)->Ok_0;
            targets_are_proper(table, child(node, "columns"@));
            conflict_keys_arbitrate(table, child(node, "on"@), conflict);
            let states = rows_go_through(start, target, input, 0, keys, conflict, returning, caller);
            one_table_changes(database, name, done.table);
            assert(insertion_made(table, done, node, conflict, caller, target, input, keys, states));
        },
    }
}

} // verus!
