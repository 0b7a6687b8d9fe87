//! What INSERT, UPDATE and DELETE do to the rows of a table.

use vstd::prelude::*;
use crate::answers::increasing;
use crate::ast::{default_word, factor_name_of, ident_name};
use crate::authorization::numbered;
use crate::catalog::{
    cell_of, column_from_range, column_named, table_of, AuthModel, CellsModel, ColumnModel, DatabaseModel,
    ResultModel, RowModel, TableModel,
};
use crate::dml::{
    assigned_from, deleted, deletions_from, rows_put_from, rows_removed_from, updated, updates_from, upserted_from,
};
use crate::error::Failure;
use crate::eval::{evaluated, projected, satisfied};
use crate::json::Json;
use crate::ordmap::{del, del_keeps_order, get, get_after_del, get_after_put, put, put_keeps_order, sorted, Ranked};
use crate::rules::{
    checks_passed_from, columns_hold_from, permitted, regenerated, regenerated_from, row_checked,
};
use crate::value::{child, item, items};

verus! {

/// Whether the columns have names of their own.
pub open spec fn apart(columns: Seq<ColumnModel>) -> bool {
    forall|p: int, q: int|
        #![trigger columns[p], columns[q]]
        0 <= p < q < columns.len() ==> columns[p].name != columns[q].name
}

/// A column is found under its name.
pub proof fn named_column(columns: Seq<ColumnModel>, p: int)
    requires
        apart(columns),
        0 <= p < columns.len(),
    ensures
        column_named(columns, columns[p].name) == Some(columns[p]),
{
    column_from_range(columns, columns[p].name, 0);
    let spot = crate::catalog::column_from(columns, columns[p].name, 0);
    if spot < p {
        assert(columns[spot].name != columns[p].name);
    }
}

/// The column of a name stands at some position.
pub proof fn column_is_there(columns: Seq<ColumnModel>, name: Seq<char>) -> (p: int)
    requires
        column_named(columns, name) is Some,
    ensures
        0 <= p < columns.len(),
        columns[p].name == name,
        column_named(columns, name) == Some(columns[p]),
{
    column_from_range(columns, name, 0);
    crate::catalog::column_from(columns, name, 0)
}

/// Whether a column of this name is generated.
pub open spec fn computed(columns: Seq<ColumnModel>, name: Seq<char>) -> bool {
    exists|p: int| 0 <= p < columns.len() && (#[trigger] columns[p]).name == name && columns[p].generated is Some
}

/// Whether the cell of a column holds the value of an expression.
pub open spec fn holds_value(cells: CellsModel, name: Seq<char>, expr: Json, scope: CellsModel, caller: AuthModel) -> bool {
    get(cells, name) matches Some(value) && evaluated(expr, scope, caller) == Ok::<Json, Failure>(value)
}

/// Whether the cell of a column holds the column's default, null where it has none.
pub open spec fn holds_default(cells: CellsModel, column: ColumnModel, caller: AuthModel) -> bool {
    match column.default {
        Some(expr) => holds_value(cells, column.name, expr, Seq::empty(), caller),
        None => get(cells, column.name) == Some(Json::Null),
    }
}

// ---------------------------------------------------------------------------------------------
// Generated columns
// ---------------------------------------------------------------------------------------------

/// Whether the generated columns hold the values of their expressions on cells that are otherwise the same.
pub open spec fn generated_anew(columns: Seq<ColumnModel>, base: CellsModel, cells: CellsModel, caller: AuthModel) -> bool {
    &&& forall|name: Seq<char>| !computed(columns, name) ==> #[trigger] get(cells, name) == get(base, name)
    &&& forall|p: int|
        0 <= p < columns.len() && (#[trigger] columns[p]).generated is Some ==> holds_value(
            cells,
            columns[p].name,
            columns[p].generated->0,
            base,
            caller,
        )
}

/// The generated columns of a row are computed anew from its other cells.
pub proof fn regenerating(columns: Seq<ColumnModel>, from: int, base: CellsModel, row: CellsModel, caller: AuthModel)
    requires
        apart(columns),
        sorted(row),
        0 <= from <= columns.len(),
        forall|name: Seq<char>| !computed(columns, name) ==> #[trigger] get(row, name) == get(base, name),
        forall|p: int|
            0 <= p < from && (#[trigger] columns[p]).generated is Some ==> holds_value(
                row,
                columns[p].name,
                columns[p].generated->0,
                base,
                caller,
            ),
    ensures
        regenerated_from(columns, from, base, row, caller) matches Ok(cells) ==> generated_anew(columns, base, cells, caller)
            && sorted(cells),
    decreases columns.len() - from,
{
    if from < columns.len() {
        match columns[from].generated {
            None => {
                regenerating(columns, from + 1, base, row, caller);
            },
            Some(expr) => match evaluated(expr, base, caller) {
                Err(_) => {},
                Ok(value) => {
                    let next = put(row, columns[from].name, value);
                    put_keeps_order(row, columns[from].name, value);
                    assert forall|name: Seq<char>| !computed(columns, name) implies #[trigger] get(next, name) == get(
                        base,
                        name,
                    ) by {
                        get_after_put(row, columns[from].name, value, name);
                        assert(get(row, name) == get(base, name));
                    }
                    assert forall|p: int|
                        0 <= p < from + 1 && (#[trigger] columns[p]).generated is Some implies holds_value(
                        next,
                        columns[p].name,
                        columns[p].generated->0,
                        base,
                        caller,
                    ) by {
                        get_after_put(row, columns[from].name, value, columns[p].name);
                    }
                    regenerating(columns, from + 1, base, next, caller);
                },
            },
        }
    }
}

// ---------------------------------------------------------------------------------------------
// Rows that a table can hold
// ---------------------------------------------------------------------------------------------

/// Whether a table can hold these cells: no null where a column refuses it, no check that is false.
pub open spec fn fitting(table: TableModel, cells: CellsModel, caller: AuthModel) -> bool {
    &&& forall|p: int|
        0 <= p < table.columns.len() && !(#[trigger] table.columns[p]).nullable ==> !(cell_of(
            cells,
            table.columns[p].name,
        ) is Null)
    &&& forall|k: int|
        0 <= k < table.checks.len() ==> evaluated(#[trigger] table.checks[k], cells, caller) is Ok && evaluated(
            table.checks[k],
            cells,
            caller,
        ) != Ok::<Json, Failure>(Json::Bool(false))
}

proof fn columns_hold(columns: Seq<ColumnModel>, from: int, row: CellsModel, p: int)
    requires
        0 <= from <= p < columns.len(),
        columns_hold_from(columns, from, row) is Ok,
        !columns[p].nullable,
    ensures
        !(cell_of(row, columns[p].name) is Null),
    decreases p - from,
{
    if from < p {
        columns_hold(columns, from + 1, row, p);
    }
}

proof fn checks_pass(table: Seq<char>, checks: Seq<Json>, from: int, row: CellsModel, caller: AuthModel, k: int)
    requires
        0 <= from <= k < checks.len(),
        checks_passed_from(table, checks, from, row, caller) is Ok,
    ensures
        evaluated(checks[k], row, caller) is Ok,
        evaluated(checks[k], row, caller) != Ok::<Json, Failure>(Json::Bool(false)),
    decreases k - from,
{
    if from < k {
        checks_pass(table, checks, from + 1, row, caller, k);
    }
}

/// Cells that pass the checks of a table fit it.
pub proof fn checked_rows_fit(table: TableModel, cells: CellsModel, caller: AuthModel)
    requires
        row_checked(table, cells, caller) is Ok,
    ensures
        fitting(table, cells, caller),
{
    assert forall|p: int| 0 <= p < table.columns.len() && !(#[trigger] table.columns[p]).nullable implies !(cell_of(
        cells,
        table.columns[p].name,
    ) is Null) by {
        columns_hold(table.columns, 0, cells, p);
    }
    assert forall|k: int| 0 <= k < table.checks.len() implies evaluated(#[trigger] table.checks[k], cells, caller) is Ok
        && evaluated(table.checks[k], cells, caller) != Ok::<Json, Failure>(Json::Bool(false)) by {
        checks_pass(table.name, table.checks, 0, cells, caller, k);
    }
}

// ---------------------------------------------------------------------------------------------
// Assignments
// ---------------------------------------------------------------------------------------------

/// The column that an assignment names.
pub open spec fn target_of(assignments: Json, i: int) -> Seq<char> {
    ident_name(item(child(items(assignments)[i], "id"@), 0))
}

/// Whether no assignment from a position on names a column.
pub open spec fn unassigned(assignments: Json, from: int, name: Seq<char>) -> bool {
    forall|j: int| from <= j < items(assignments).len() ==> #[trigger] target_of(assignments, j) != name
}

/// Whether the assignment at a position is made, and is the last to its column.
pub open spec fn settles(columns: Seq<ColumnModel>, assignments: Json, i: int) -> bool {
    &&& 0 <= i < items(assignments).len()
    &&& unassigned(assignments, i + 1, target_of(assignments, i))
    &&& !computed(columns, target_of(assignments, i))
}

/// Whether cells hold what an assignment says, with the values that expressions have in a scope.
pub open spec fn holds_assignment(
    columns: Seq<ColumnModel>,
    assignments: Json,
    i: int,
    cells: CellsModel,
    scope: CellsModel,
    caller: AuthModel,
) -> bool {
    let name = target_of(assignments, i);
    let expr = child(items(assignments)[i], "value"@);
    if default_word(expr) {
        column_named(columns, name) matches Some(column) && holds_default(cells, column, caller)
    } else {
        holds_value(cells, name, expr, scope, caller)
    }
}

/// Whether cells are others with assignments made: each column has the value of its expression in the
/// scope, no other column changes, and the generated columns follow.
pub open spec fn rewritten(
    columns: Seq<ColumnModel>,
    assignments: Json,
    old_cells: CellsModel,
    scope: CellsModel,
    cells: CellsModel,
    caller: AuthModel,
) -> bool {
    &&& forall|i: int|
        #[trigger] settles(columns, assignments, i) ==> holds_assignment(columns, assignments, i, cells, scope, caller)
    &&& forall|name: Seq<char>|
        unassigned(assignments, 0, name) && !computed(columns, name) ==> #[trigger] get(cells, name) == get(
            old_cells,
            name,
        )
    &&& exists|base: CellsModel| #[trigger]
        generated_anew(columns, base, cells, caller) && forall|name: Seq<char>|
            computed(columns, name) ==> #[trigger] get(base, name) == get(old_cells, name)
}

/// What is known after the assignments before a position.
pub open spec fn assigning(
    columns: Seq<ColumnModel>,
    assignments: Json,
    from: int,
    old_cells: CellsModel,
    scope: CellsModel,
    cells: CellsModel,
    caller: AuthModel,
) -> bool {
    &&& sorted(cells)
    &&& forall|i: int|
        #[trigger] settles(columns, assignments, i) && i < from ==> holds_assignment(
            columns,
            assignments,
            i,
            cells,
            scope,
            caller,
        )
    &&& forall|name: Seq<char>|
        (unassigned(assignments, 0, name) || computed(columns, name)) ==> #[trigger] get(cells, name) == get(
            old_cells,
            name,
        )
}

proof fn one_more_assigned(
    columns: Seq<ColumnModel>,
    assignments: Json,
    from: int,
    old_cells: CellsModel,
    scope: CellsModel,
    cells: CellsModel,
    caller: AuthModel,
)
    requires
        apart(columns),
        0 <= from < items(assignments).len(),
        assigning(columns, assignments, from, old_cells, scope, cells, caller),
    ensures
        crate::rules::assigned(
            columns,
            cells,
            target_of(assignments, from),
            child(items(assignments)[from], "value"@),
            scope,
            caller,
        ) matches Ok(next) ==> assigning(columns, assignments, from + 1, old_cells, scope, next, caller),
{
    let name = target_of(assignments, from);
    let expr = child(items(assignments)[from], "value"@);
    match crate::rules::assigned(columns, cells, name, expr, scope, caller) {
        Err(_) => {},
        Ok(next) => {
            let p = column_is_there(columns, name);
            if columns[p].generated is Some {
                assert(computed(columns, name));
            } else {
                assert(!computed(columns, name)) by {
                    if computed(columns, name) {
                        let q = choose|q: int|
                            0 <= q < columns.len() && (#[trigger] columns[q]).name == name && columns[q].generated is Some;
                        named_column(columns, q);
                    }
                }
                let value = if default_word(expr) {
                    crate::rules::default_of(columns[p].default, caller)->Ok_0
                } else {
                    evaluated(expr, scope, caller)->Ok_0
                };
                assert(next == put(cells, name, value));
                put_keeps_order(cells, name, value);
                assert forall|other: Seq<char>| #[trigger] get(next, other) == (if other == name {
                    Some(value)
                } else {
                    get(cells, other)
                }) by {
                    get_after_put(cells, name, value, other);
                }
                assert forall|i: int|
                    #[trigger] settles(columns, assignments, i) && i < from + 1 implies holds_assignment(
                    columns,
                    assignments,
                    i,
                    next,
                    scope,
                    caller,
                ) by {
                    if i < from {
                        assert(target_of(assignments, from) != target_of(assignments, i));
                        assert(get(next, target_of(assignments, i)) == get(cells, target_of(assignments, i)));
                        if default_word(child(items(assignments)[i], "value"@)) {
                            let q = column_is_there(columns, target_of(assignments, i));
                        }
                    } else {
                        assert(get(next, name) == Some(value));
                    }
                }
                assert forall|other: Seq<char>|
                    (unassigned(assignments, 0, other) || computed(columns, other)) implies #[trigger] get(next, other) == get(
                    old_cells,
                    other,
                ) by {
                    assert(target_of(assignments, from) == name);
                    assert(get(cells, other) == get(old_cells, other));
                }
            }
        },
    }
}

proof fn all_assigned(
    columns: Seq<ColumnModel>,
    assignments: Json,
    from: int,
    old_cells: CellsModel,
    scope: CellsModel,
    cells: CellsModel,
    caller: AuthModel,
)
    requires
        apart(columns),
        0 <= from <= items(assignments).len(),
        assigning(columns, assignments, from, old_cells, scope, cells, caller),
    ensures
        assigned_from(columns, assignments, from, cells, scope, caller) matches Ok(next) ==> assigning(
            columns,
            assignments,
            items(assignments).len() as int,
            old_cells,
            scope,
            next,
            caller,
        ),
    decreases items(assignments).len() - from,
{
    if from < items(assignments).len() {
        one_more_assigned(columns, assignments, from, old_cells, scope, cells, caller);
        match crate::rules::assigned(
            columns,
            cells,
            target_of(assignments, from),
            child(items(assignments)[from], "value"@),
            scope,
            caller,
        ) {
            Err(_) => {},
            Ok(next) => {
                all_assigned(columns, assignments, from + 1, old_cells, scope, next, caller);
            },
        }
    }
}

/// The assignments of an upsert are made one after the other.
pub proof fn all_upserted(
    table: TableModel,
    assignments: Json,
    from: int,
    old_cells: CellsModel,
    scope: CellsModel,
    cells: CellsModel,
    caller: AuthModel,
)
    requires
        apart(table.columns),
        0 <= from <= items(assignments).len(),
        assigning(table.columns, assignments, from, old_cells, scope, cells, caller),
    ensures
        upserted_from(table, assignments, from, cells, scope, caller) matches Ok(next) ==> assigning(
            table.columns,
            assignments,
            items(assignments).len() as int,
            old_cells,
            scope,
            next,
            caller,
        ),
    decreases items(assignments).len() - from,
{
    if from < items(assignments).len() {
        one_more_assigned(table.columns, assignments, from, old_cells, scope, cells, caller);
        match crate::rules::assigned(
            table.columns,
            cells,
            target_of(assignments, from),
            child(items(assignments)[from], "value"@),
            scope,
            caller,
        ) {
            Err(_) => {},
            Ok(next) => {
                all_upserted(table, assignments, from + 1, old_cells, scope, next, caller);
            },
        }
    }
}

/// Cells with all assignments made and the generated columns computed are rewritten.
pub proof fn assigned_cells_are_rewritten(
    columns: Seq<ColumnModel>,
    assignments: Json,
    old_cells: CellsModel,
    scope: CellsModel,
    changed: CellsModel,
    caller: AuthModel,
)
    requires
        apart(columns),
        assigning(columns, assignments, items(assignments).len() as int, old_cells, scope, changed, caller),
    ensures
        regenerated(columns, changed, caller) matches Ok(cells) ==> rewritten(
            columns,
            assignments,
            old_cells,
            scope,
            cells,
            caller,
        ) && sorted(cells),
{
    regenerating(columns, 0, changed, changed, caller);
    match regenerated(columns, changed, caller) {
        Err(_) => {},
        Ok(cells) => {
            assert forall|i: int| #[trigger] settles(columns, assignments, i) implies holds_assignment(
                columns,
                assignments,
                i,
                cells,
                scope,
                caller,
            ) by {
                let name = target_of(assignments, i);
                assert(get(cells, name) == get(changed, name));
                assert(holds_assignment(columns, assignments, i, changed, scope, caller));
                if default_word(child(items(assignments)[i], "value"@)) {
                    let q = column_is_there(columns, name);
                }
            }
            assert(generated_anew(columns, changed, cells, caller));
            assert forall|name: Seq<char>|
                unassigned(assignments, 0, name) && !computed(columns, name) implies #[trigger] get(cells, name) == get(
                old_cells,
                name,
            ) by {
                assert(get(changed, name) == get(old_cells, name));
            }
        },
    }
}

// ---------------------------------------------------------------------------------------------
// Rows that a statement reaches
// ---------------------------------------------------------------------------------------------

/// Whether the predicate of a statement is true of a row and the policies allow the command on it.
pub open spec fn meant(table: TableModel, selection: Json, command: Seq<char>, caller: AuthModel, i: int) -> bool {
    let cells = table.rows[i].1.values;
    satisfied(selection, cells, caller) == Ok::<bool, Failure>(true) && permitted(table, command, cells, caller, false)
        == Ok::<bool, Failure>(true)
}

/// Whether these are the positions of the rows that a statement means among the first `count`.
pub open spec fn meaning_rows(
    table: TableModel,
    selection: Json,
    command: Seq<char>,
    caller: AuthModel,
    count: int,
    picked: Seq<int>,
) -> bool {
    &&& increasing(picked)
    &&& forall|k: int|
        0 <= k < picked.len() ==> 0 <= #[trigger] picked[k] < count && meant(table, selection, command, caller, picked[k])
    &&& forall|i: int| 0 <= i < count && #[trigger] meant(table, selection, command, caller, i) ==> picked.contains(i)
}

proof fn one_more_meant(
    table: TableModel,
    selection: Json,
    command: Seq<char>,
    caller: AuthModel,
    count: int,
    picked: Seq<int>,
)
    requires
        0 <= count,
        meaning_rows(table, selection, command, caller, count, picked),
    ensures
        meant(table, selection, command, caller, count) ==> meaning_rows(
            table,
            selection,
            command,
            caller,
            count + 1,
            picked.push(count),
        ),
        !meant(table, selection, command, caller, count) ==> meaning_rows(
            table,
            selection,
            command,
            caller,
            count + 1,
            picked,
        ),
{
    if meant(table, selection, command, caller, count) {
        let more = picked.push(count);
        assert forall|k: int| 0 <= k < more.len() implies 0 <= #[trigger] more[k] < count + 1 && meant(
            table,
            selection,
            command,
            caller,
            more[k],
        ) by {
            if k < picked.len() {
                assert(more[k] == picked[k]);
            }
        }
        assert forall|i: int| 0 <= i < count + 1 && #[trigger] meant(table, selection, command, caller, i) implies more.contains(
            i,
        ) by {
            if i < count {
                let k = choose|k: int| 0 <= k < picked.len() && picked[k] == i;
                assert(more[k] == i);
            } else {
                assert(more[picked.len() as int] == i);
            }
        }
    }
}

/// Whether result rows are what RETURNING makes of rows, in their order; none where it is left out.
pub open spec fn returns_rows(returning: Json, rows: Seq<CellsModel>, output: Seq<Json>, caller: AuthModel) -> bool {
    if returning is Null {
        output.len() == 0
    } else {
        &&& output.len() == rows.len()
        &&& forall|k: int|
            0 <= k < output.len() ==> (#[trigger] output[k]) is Object && projected(returning, rows[k], caller) == Ok::<
                CellsModel,
                Failure,
            >(output[k]->Object_0)
    }
}

/// RETURNING shows one row more.
pub proof fn one_more_returned(returning: Json, rows: Seq<CellsModel>, cells: CellsModel, output: Seq<Json>, caller: AuthModel)
    requires
        returns_rows(returning, rows, output, caller),
    ensures
        crate::dml::returned(returning, cells, output, caller) matches Ok(more) ==> returns_rows(
            returning,
            rows.push(cells),
            more,
            caller,
        ),
{
    match crate::dml::returned(returning, cells, output, caller) {
        Err(_) => {},
        Ok(more) => {
            if !(returning is Null) {
                assert forall|k: int| 0 <= k < more.len() implies (#[trigger] more[k]) is Object && projected(
                    returning,
                    rows.push(cells)[k],
                    caller,
                ) == Ok::<CellsModel, Failure>(more[k]->Object_0) by {
                    if k < output.len() {
                        assert(more[k] == output[k]);
                    }
                }
            }
        },
    }
}

/// The cells of rows.
pub open spec fn cells_of(rows: Seq<RowModel>) -> Seq<CellsModel> {
    Seq::new(rows.len(), |k: int| rows[k].values)
}

// ---------------------------------------------------------------------------------------------
// UPDATE
// ---------------------------------------------------------------------------------------------

/// Whether an UPDATE turns a row into another: the same row one version on, with its cells rewritten by
/// the values that expressions have on the row before, that the table and its policies accept.
pub open spec fn turns_into(table: TableModel, assignments: Json, old_row: RowModel, row: RowModel, caller: AuthModel) -> bool {
    &&& row.id == old_row.id
    &&& row.version == old_row.version + 1
    &&& rewritten(table.columns, assignments, old_row.values, old_row.values, row.values, caller)
    &&& fitting(table, row.values, caller)
    &&& permitted(table, "UPDATE"@, row.values, caller, true) == Ok::<bool, Failure>(true)
}

/// Whether these are the new rows of the ones at some positions.
pub open spec fn turned(
    table: TableModel,
    assignments: Json,
    picked: Seq<int>,
    changed: Seq<RowModel>,
    caller: AuthModel,
) -> bool {
    &&& changed.len() == picked.len()
    &&& forall|k: int|
        0 <= k < changed.len() ==> turns_into(
            table,
            assignments,
            table.rows[picked[k]].1,
            #[trigger] changed[k],
            caller,
        )
}

/// Whether the cells of every row are in order.
pub open spec fn cells_sorted(table: TableModel) -> bool {
    forall|i: int| 0 <= i < table.rows.len() ==> sorted((#[trigger] table.rows[i]).1.values)
}

proof fn row_turns(table: TableModel, assignments: Json, row: RowModel, caller: AuthModel)
    requires
        apart(table.columns),
        sorted(row.values),
    ensures
        crate::dml::row_updated(table, assignments, row, caller) matches Ok(next) ==> turns_into(
            table,
            assignments,
            row,
            next,
            caller,
        ),
{
    match crate::dml::row_updated(table, assignments, row, caller) {
        Err(_) => {},
        Ok(next) => {
            all_assigned(table.columns, assignments, 0, row.values, row.values, row.values, caller);
            let changed = assigned_from(table.columns, assignments, 0, row.values, row.values, caller)->Ok_0;
            assigned_cells_are_rewritten(table.columns, assignments, row.values, row.values, changed, caller);
            checked_rows_fit(table, next.values, caller);
        },
    }
}

proof fn updates_turn(
    table: TableModel,
    node: Json,
    from: int,
    changed: Seq<RowModel>,
    output: Seq<Json>,
    caller: AuthModel,
    picked: Seq<int>,
) -> (all: Seq<int>)
    requires
        apart(table.columns),
        cells_sorted(table),
        0 <= from <= table.rows.len(),
        meaning_rows(table, child(node, "selection"@), "UPDATE"@, caller, from, picked),
        turned(table, child(node, "assignments"@), picked, changed, caller),
        returns_rows(child(node, "returning"@), cells_of(changed), output, caller),
    ensures
        updates_from(table, node, from, changed, output, caller) matches Ok((list, result)) ==> meaning_rows(
            table,
            child(node, "selection"@),
            "UPDATE"@,
            caller,
            table.rows.len() as int,
            all,
        ) && turned(table, child(node, "assignments"@), all, list, caller) && returns_rows(
            child(node, "returning"@),
            cells_of(list),
            result,
            caller,
        ),
    decreases table.rows.len() - from,
{
    if from < table.rows.len() {
        let selection = child(node, "selection"@);
        let row = table.rows[from].1;
        let assignments = child(node, "assignments"@);
        let returning = child(node, "returning"@);
        one_more_meant(table, selection, "UPDATE"@, caller, from, picked);
        if meant(table, selection, "UPDATE"@, caller, from) {
            match crate::dml::row_updated(table, assignments, row, caller) {
                Err(_) => picked,
                Ok(next) => {
                    row_turns(table, assignments, row, caller);
                    one_more_returned(returning, cells_of(changed), next.values, output, caller);
                    assert(cells_of(changed.push(next)) =~= cells_of(changed).push(next.values));
                    let more = picked.push(from);
                    let list = changed.push(next);
                    assert forall|k: int| 0 <= k < list.len() implies turns_into(
                        table,
                        assignments,
                        table.rows[more[k]].1,
                        #[trigger] list[k],
                        caller,
                    ) by {
                        if k < changed.len() {
                            assert(list[k] == changed[k] && more[k] == picked[k]);
                        }
                    }
                    match crate::dml::returned(returning, next.values, output, caller) {
                        Err(_) => picked,
                        Ok(rest) => updates_turn(table, node, from + 1, list, rest, caller, more),
                    }
                },
            }
        } else {
            updates_turn(table, node, from + 1, changed, output, caller, picked)
        }
    } else {
        picked
    }
}

/// Whether rows have identities of their own.
pub open spec fn told_apart(rows: Seq<RowModel>) -> bool {
    forall|i: int, j: int| #![trigger rows[i], rows[j]] 0 <= i < j < rows.len() ==> rows[i].id != rows[j].id
}

proof fn put_row_is_found(rows: Seq<(u64, RowModel)>, changed: Seq<RowModel>, from: int, k: int)
    requires
        sorted(rows),
        told_apart(changed),
        0 <= k < changed.len(),
        0 <= from,
        k < from ==> get(rows, changed[k].id) == Some(changed[k]),
    ensures
        get(rows_put_from(rows, changed, from), changed[k].id) == Some(changed[k]),
    decreases changed.len() - from,
{
    if from < changed.len() {
        put_keeps_order(rows, changed[from].id, changed[from]);
        get_after_put(rows, changed[from].id, changed[from], changed[k].id);
        put_row_is_found(put(rows, changed[from].id, changed[from]), changed, from + 1, k);
    }
}

proof fn other_row_stays(rows: Seq<(u64, RowModel)>, changed: Seq<RowModel>, from: int, id: u64)
    requires
        sorted(rows),
        forall|k: int| 0 <= k < changed.len() ==> (#[trigger] changed[k]).id != id,
        0 <= from,
    ensures
        get(rows_put_from(rows, changed, from), id) == get(rows, id),
    decreases changed.len() - from,
{
    if from < changed.len() {
        put_keeps_order(rows, changed[from].id, changed[from]);
        get_after_put(rows, changed[from].id, changed[from], id);
        other_row_stays(put(rows, changed[from].id, changed[from]), changed, from + 1, id);
    }
}

/// Whether a table is another with some rows put in place of those with their identities.
pub open spec fn rows_replaced(table: TableModel, after: TableModel, changed: Seq<RowModel>) -> bool {
    &&& forall|k: int| 0 <= k < changed.len() ==> get(after.rows, (#[trigger] changed[k]).id) == Some(changed[k])
    &&& forall|id: u64|
        (forall|k: int| 0 <= k < changed.len() ==> (#[trigger] changed[k]).id != id) ==> #[trigger] get(after.rows, id)
            == get(table.rows, id)
    &&& (TableModel { rows: table.rows, ..after }) == table
}

proof fn turned_rows_replace(
    table: TableModel,
    assignments: Json,
    picked: Seq<int>,
    changed: Seq<RowModel>,
    caller: AuthModel,
)
    requires
        numbered(table.rows),
        increasing(picked),
        forall|k: int| 0 <= k < picked.len() ==> 0 <= #[trigger] picked[k] < table.rows.len(),
        turned(table, assignments, picked, changed, caller),
    ensures
        rows_replaced(table, TableModel { rows: rows_put_from(table.rows, changed, 0), ..table }, changed),
{
    let after = TableModel { rows: rows_put_from(table.rows, changed, 0), ..table };
    assert forall|i: int, j: int| #![trigger changed[i], changed[j]] 0 <= i < j < changed.len() implies changed[i].id
        != changed[j].id by {
        assert(picked[i] < picked[j]);
        let a = table.rows[picked[i]];
        let b = table.rows[picked[j]];
        assert(turns_into(table, assignments, a.1, changed[i], caller));
        assert(turns_into(table, assignments, b.1, changed[j], caller));
        assert(a.0.before(b.0));
    }
    assert forall|k: int| 0 <= k < changed.len() implies get(after.rows, (#[trigger] changed[k]).id) == Some(
        changed[k],
    ) by {
        put_row_is_found(table.rows, changed, 0, k);
    }
    assert forall|id: u64|
        (forall|k: int| 0 <= k < changed.len() ==> (#[trigger] changed[k]).id != id) implies #[trigger] get(after.rows, id)
        == get(table.rows, id) by {
        other_row_stays(table.rows, changed, 0, id);
    }
}

/// Whether two states differ in one table at most.
pub open spec fn elsewhere_same(database: DatabaseModel, next: DatabaseModel, name: Seq<char>) -> bool {
    &&& forall|other: Seq<char>| other != name ==> #[trigger] get(next.catalog, other) == get(database.catalog, other)
    &&& (DatabaseModel { catalog: database.catalog, ..next }) == database
}

/// What an UPDATE does: every row that it means, and no other, turns into its new one.
pub open spec fn update_made(
    table: TableModel,
    after: TableModel,
    node: Json,
    result: ResultModel,
    caller: AuthModel,
    picked: Seq<int>,
    changed: Seq<RowModel>,
) -> bool {
    &&& meaning_rows(table, child(node, "selection"@), "UPDATE"@, caller, table.rows.len() as int, picked)
    &&& turned(table, child(node, "assignments"@), picked, changed, caller)
    &&& rows_replaced(table, after, changed)
    &&& result.affected == changed.len() as usize
    &&& returns_rows(child(node, "returning"@), cells_of(changed), result.rows, caller)
}

/// What an UPDATE does, whichever rows it means.
pub open spec fn update_done(table: TableModel, after: TableModel, node: Json, result: ResultModel, caller: AuthModel) -> bool {
    exists|picked: Seq<int>, changed: Seq<RowModel>| #[trigger]
        update_made(table, after, node, result, caller, picked, changed)
}

/// Putting a table into a state changes no other.
pub proof fn one_table_changes(database: DatabaseModel, name: Seq<char>, after: TableModel)
    requires
        sorted(database.catalog),
    ensures
        elsewhere_same(database, crate::alter::with_table(database, name, after), name),
        get(crate::alter::with_table(database, name, after).catalog, name) == Some(after),
{
    let next = crate::alter::with_table(database, name, after);
    assert forall|other: Seq<char>| #[trigger] get(next.catalog, other) == (if other == name {
        Some(after)
    } else {
        get(database.catalog, other)
    }) by {
        get_after_put(database.catalog, name, after, other);
    }
}

proof fn update_is_made(table: TableModel, node: Json, caller: AuthModel, changed: Seq<RowModel>, output: Seq<Json>)
    requires
        numbered(table.rows),
        cells_sorted(table),
        apart(table.columns),
        updates_from(table, node, 0, Seq::empty(), Seq::empty(), caller) == Ok::<(Seq<RowModel>, Seq<Json>), Failure>(
            (changed, output),
        ),
    ensures
        update_done(
            table,
            TableModel { rows: rows_put_from(table.rows, changed, 0), ..table },
            node,
            ResultModel { rows: output, affected: changed.len() as usize },
            caller,
        ),
{
    let none = Seq::<int>::empty();
    assert(meaning_rows(table, child(node, "selection"@), "UPDATE"@, caller, 0, none));
    assert(returns_rows(child(node, "returning"@), cells_of(Seq::empty()), Seq::empty(), caller));
    let picked = updates_turn(table, node, 0, Seq::empty(), Seq::empty(), caller, none);
    turned_rows_replace(table, child(node, "assignments"@), picked, changed, caller);
    assert(update_made(
        table,
        TableModel { rows: rows_put_from(table.rows, changed, 0), ..table },
        node,
        ResultModel { rows: output, affected: changed.len() as usize },
        caller,
        picked,
        changed,
    ));
}

/// An UPDATE changes the rows that its predicate is true of and that the policies allow, and no other. A
/// changed row has in each column that the statement assigns the value of the expression on the cells of
/// the row before the statement, whatever the order of the assignments, and keeps its other cells but
/// those of generated columns. It is accepted only where all columns and checks are met.
pub proof fn updates_assign_from_the_row_before(
    database: DatabaseModel,
    node: Json,
    caller: AuthModel,
    name: Seq<char>,
    table: TableModel,
)
    requires
        sorted(database.catalog),
        numbered(table.rows),
        cells_sorted(table),
        apart(table.columns),
        factor_name_of(child(child(node, "table"@), "relation"@)) == Ok::<Seq<char>, Failure>(name),
        table_of(database, name) == Ok::<TableModel, Failure>(table),
    ensures
        updated(database, node, caller) matches Ok((next, result)) ==> elsewhere_same(database, next, name) && (get(
            next.catalog,
            name,
        ) matches Some(after) && update_done(table, after, node, result, caller)),
{
    match updated(database, node, caller) {
        Err(_) => {},
        Ok((next, result)) => {
            let (changed, output) = updates_from(table, node, 0, Seq::empty(), Seq::empty(), caller)->Ok_0;
            let after = TableModel { rows: rows_put_from(table.rows, changed, 0), ..table };
            assert(next == crate::alter::with_table(database, name, after));
            one_table_changes(database, name, after);
            update_is_made(table, node, caller, changed, output);
        },
    }
}

/// Whether two UPDATEs make the same assignments in some order, each column at most once.
pub open spec fn same_assignments(one: Json, other: Json, order: Seq<int>) -> bool {
    &&& crate::ordering::permutation(order, items(one).len() as int)
    &&& items(other).len() == items(one).len()
    &&& forall|i: int| 0 <= i < order.len() ==> items(other)[#[trigger] order[i]] == items(one)[i]
    &&& forall|j: int| 0 <= j < items(other).len() ==> #[trigger] order.contains(j)
    &&& forall|i: int, j: int|
        #![trigger target_of(one, i), target_of(one, j)]
        0 <= i < j < items(one).len() ==> target_of(one, i) != target_of(one, j)
    &&& forall|i: int, j: int|
        #![trigger target_of(other, i), target_of(other, j)]
        0 <= i < j < items(other).len() ==> target_of(other, i) != target_of(other, j)
}

proof fn reordered_cells_are_the_same(
    columns: Seq<ColumnModel>,
    one: Json,
    other: Json,
    order: Seq<int>,
    old_cells: CellsModel,
    scope: CellsModel,
    a: CellsModel,
    b: CellsModel,
    caller: AuthModel,
    name: Seq<char>,
)
    requires
        same_assignments(one, other, order),
        rewritten(columns, one, old_cells, scope, a, caller),
        rewritten(columns, other, old_cells, scope, b, caller),
        !computed(columns, name),
    ensures
        get(a, name) == get(b, name),
{
    if exists|i: int| 0 <= i < items(one).len() && #[trigger] target_of(one, i) == name {
        let i = choose|i: int| 0 <= i < items(one).len() && #[trigger] target_of(one, i) == name;
        let j = order[i];
        assert(items(other)[order[i]] == items(one)[i]);
        assert(target_of(other, j) == name);
        assert(settles(columns, one, i));
        assert(settles(columns, other, j));
        assert(holds_assignment(columns, one, i, a, scope, caller));
        assert(holds_assignment(columns, other, j, b, scope, caller));
        if default_word(child(items(one)[i], "value"@)) {
            let p = column_is_there(columns, name);
        }
    } else {
        assert(unassigned(one, 0, name));
        assert(unassigned(other, 0, name)) by {
            assert forall|j: int| 0 <= j < items(other).len() implies #[trigger] target_of(other, j) != name by {
                assert(order.contains(j));
                let i = choose|i: int| 0 <= i < order.len() && order[i] == j;
                assert(items(other)[order[i]] == items(one)[i]);
                assert(target_of(one, i) == target_of(other, j));
            }
        }
    }
}

/// The order in which an UPDATE assigns different columns does not matter: two that make the same
/// assignments in any order give every row the same cells, where they are not generated.
pub proof fn order_of_assignments_is_free(
    database: DatabaseModel,
    one: Json,
    other: Json,
    order: Seq<int>,
    caller: AuthModel,
    name: Seq<char>,
    table: TableModel,
    id: u64,
    column: Seq<char>,
)
    requires
        sorted(database.catalog),
        numbered(table.rows),
        cells_sorted(table),
        apart(table.columns),
        factor_name_of(child(child(one, "table"@), "relation"@)) == Ok::<Seq<char>, Failure>(name),
        factor_name_of(child(child(other, "table"@), "relation"@)) == Ok::<Seq<char>, Failure>(name),
        table_of(database, name) == Ok::<TableModel, Failure>(table),
        child(one, "selection"@) == child(other, "selection"@),
        same_assignments(child(one, "assignments"@), child(other, "assignments"@), order),
        !computed(table.columns, column),
    ensures
        match (updated(database, one, caller), updated(database, other, caller)) {
            (Ok((a, _)), Ok((b, _))) => match (get(a.catalog, name), get(b.catalog, name)) {
                (Some(left), Some(right)) => match (get(left.rows, id), get(right.rows, id)) {
                    (Some(x), Some(y)) => get(x.values, column) == get(y.values, column),
                    (None, None) => true,
                    _ => false,
                },
                _ => false,
            },
            _ => true,
        },
{
    updates_assign_from_the_row_before(database, one, caller, name, table);
    updates_assign_from_the_row_before(database, other, caller, name, table);
    match (updated(database, one, caller), updated(database, other, caller)) {
        (Ok((a, first)), Ok((b, second))) => {
            let left = get(a.catalog, name)->Some_0;
            let right = get(b.catalog, name)->Some_0;
            let (picked, changed) = choose|picked: Seq<int>, changed: Seq<RowModel>| #[trigger]
                update_made(table, left, one, first, caller, picked, changed);
            let (taken, others) = choose|taken: Seq<int>, others: Seq<RowModel>| #[trigger]
                update_made(table, right, other, second, caller, taken, others);
            if exists|k: int| 0 <= k < changed.len() && (#[trigger] changed[k]).id == id {
                let k = choose|k: int| 0 <= k < changed.len() && (#[trigger] changed[k]).id == id;
                assert(meant(table, child(one, "selection"@), "UPDATE"@, caller, picked[k]));
                assert(taken.contains(picked[k]));
                let m = choose|m: int| 0 <= m < taken.len() && taken[m] == picked[k];
                assert(turns_into(table, child(one, "assignments"@), table.rows[picked[k]].1, changed[k], caller));
                assert(turns_into(table, child(other, "assignments"@), table.rows[taken[m]].1, others[m], caller));
                let cells = table.rows[picked[k]].1.values;
                reordered_cells_are_the_same(
                    table.columns,
                    child(one, "assignments"@),
                    child(other, "assignments"@),
                    order,
                    cells,
                    cells,
                    changed[k].values,
                    others[m].values,
                    caller,
                    column,
                );
            } else {
                assert(get(left.rows, id) == get(table.rows, id));
                assert forall|m: int| 0 <= m < others.len() implies (#[trigger] others[m]).id != id by {
                    assert(turns_into(table, child(other, "assignments"@), table.rows[taken[m]].1, others[m], caller));
                    assert(meant(table, child(one, "selection"@), "UPDATE"@, caller, taken[m]));
                    assert(picked.contains(taken[m]));
                    let k = choose|k: int| 0 <= k < picked.len() && picked[k] == taken[m];
                    assert(turns_into(table, child(one, "assignments"@), table.rows[picked[k]].1, changed[k], caller));
                }
                assert(get(right.rows, id) == get(table.rows, id));
            }
        },
        _ => {},
    }
}

// ---------------------------------------------------------------------------------------------
// DELETE
// ---------------------------------------------------------------------------------------------

/// The identities of the rows at some positions.
pub open spec fn ids_at(table: TableModel, picked: Seq<int>) -> Seq<u64> {
    Seq::new(picked.len(), |k: int| table.rows[picked[k]].1.id)
}

/// The cells of the rows at some positions.
pub open spec fn values_at(table: TableModel, picked: Seq<int>) -> Seq<CellsModel> {
    Seq::new(picked.len(), |k: int| table.rows[picked[k]].1.values)
}

proof fn deletions_pick(
    table: TableModel,
    node: Json,
    from: int,
    ids: Seq<u64>,
    output: Seq<Json>,
    caller: AuthModel,
    picked: Seq<int>,
) -> (all: Seq<int>)
    requires
        0 <= from <= table.rows.len(),
        meaning_rows(table, child(node, "selection"@), "DELETE"@, caller, from, picked),
        ids == ids_at(table, picked),
        returns_rows(child(node, "returning"@), values_at(table, picked), output, caller),
    ensures
        deletions_from(table, node, from, ids, output, caller) matches Ok((list, result)) ==> meaning_rows(
            table,
            child(node, "selection"@),
            "DELETE"@,
            caller,
            table.rows.len() as int,
            all,
        ) && list == ids_at(table, all) && returns_rows(child(node, "returning"@), values_at(table, all), result, caller),
    decreases table.rows.len() - from,
{
    if from < table.rows.len() {
        let selection = child(node, "selection"@);
        let row = table.rows[from].1;
        let returning = child(node, "returning"@);
        one_more_meant(table, selection, "DELETE"@, caller, from, picked);
        if meant(table, selection, "DELETE"@, caller, from) {
            let more = picked.push(from);
            one_more_returned(returning, values_at(table, picked), row.values, output, caller);
            assert(values_at(table, more) =~= values_at(table, picked).push(row.values));
            assert(ids_at(table, more) =~= ids.push(row.id));
            match crate::dml::returned(returning, row.values, output, caller) {
                Err(_) => picked,
                Ok(rest) => deletions_pick(table, node, from + 1, ids.push(row.id), rest, caller, more),
            }
        } else {
            deletions_pick(table, node, from + 1, ids, output, caller, picked)
        }
    } else {
        picked
    }
}

proof fn listed_rows_are_removed(rows: Seq<(u64, RowModel)>, ids: Seq<u64>, from: int, id: u64)
    requires
        sorted(rows),
        0 <= from <= ids.len(),
        forall|k: int| 0 <= k < from && #[trigger] ids[k] == id ==> get(rows, id) is None,
    ensures
        ids.contains(id) ==> get(rows_removed_from(rows, ids, from), id) is None,
        !ids.contains(id) ==> get(rows_removed_from(rows, ids, from), id) == get(rows, id),
    decreases ids.len() - from,
{
    if from < ids.len() {
        del_keeps_order(rows, ids[from]);
        get_after_del(rows, ids[from], id);
        assert(ids.contains(ids[from]));
        listed_rows_are_removed(del(rows, ids[from]), ids, from + 1, id);
    }
}

/// What a DELETE does: every row that it means, and no other, is gone.
pub open spec fn deletion_made(
    table: TableModel,
    after: TableModel,
    node: Json,
    result: ResultModel,
    caller: AuthModel,
    picked: Seq<int>,
) -> bool {
    &&& meaning_rows(table, child(node, "selection"@), "DELETE"@, caller, table.rows.len() as int, picked)
    &&& forall|id: u64| ids_at(table, picked).contains(id) ==> (#[trigger] get(after.rows, id)) is None
    &&& forall|id: u64|
        !ids_at(table, picked).contains(id) ==> #[trigger] get(after.rows, id) == get(table.rows, id)
    &&& (TableModel { rows: table.rows, ..after }) == table
    &&& result.affected == picked.len() as usize
    &&& returns_rows(child(node, "returning"@), values_at(table, picked), result.rows, caller)
}

/// What a DELETE does, whichever rows it means.
pub open spec fn deletion_done(table: TableModel, after: TableModel, node: Json, result: ResultModel, caller: AuthModel) -> bool {
    exists|picked: Seq<int>| #[trigger] deletion_made(table, after, node, result, caller, picked)
}

/// A DELETE removes the rows that its predicate is true of and that the policies allow, and changes nothing
/// else.
pub proof fn deletions_remove_the_rows_they_mean(
    database: DatabaseModel,
    node: Json,
    caller: AuthModel,
    name: Seq<char>,
    table: TableModel,
)
    requires
        sorted(database.catalog),
        numbered(table.rows),
        factor_name_of(child(item(child(node, "from"@), 0), "relation"@)) == Ok::<Seq<char>, Failure>(name),
        table_of(database, name) == Ok::<TableModel, Failure>(table),
    ensures
        deleted(database, node, caller) matches Ok((next, result)) ==> elsewhere_same(database, next, name) && (get(
            next.catalog,
            name,
        ) matches Some(after) && deletion_done(table, after, node, result, caller)),
{
    match deleted(database, node, caller) {
        Err(_) => {},
        Ok((next, result)) => {
            let none = Seq::<int>::empty();
            assert(ids_at(table, none) =~= Seq::empty());
            assert(meaning_rows(table, child(node, "selection"@), "DELETE"@, caller, 0, none));
            let picked = deletions_pick(table, node, 0, Seq::empty(), Seq::empty(), caller, none);
            let ids = ids_at(table, picked);
            let after = TableModel { rows: rows_removed_from(table.rows, ids, 0), ..table };
            assert(next == crate::alter::with_table(database, name, after));
            one_table_changes(database, name, after);
            assert forall|id: u64| ids.contains(id) implies (#[trigger] get(after.rows, id)) is None by {
                listed_rows_are_removed(table.rows, ids, 0, id);
            }
            assert forall|id: u64| !ids.contains(id) implies #[trigger] get(after.rows, id) == get(table.rows, id) by {
                listed_rows_are_removed(table.rows, ids, 0, id);
            }
            assert(deletion_made(table, after, node, result, caller, picked));
        },
    }
}

} // verus!
