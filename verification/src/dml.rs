//! INSERT, UPDATE and DELETE.

use vstd::prelude::*;
use crate::alter::with_table;
use crate::ast::{
    default_word, factor_name, factor_name_of, ident, ident_name, ident_names, is_default, names,
    table_name, table_name_of,
};
use crate::catalog::{
    cell, cell_of, column_named, column_names, column_names_of, column_required, find_column, require_column,
    table_of, AuthContext, AuthModel, Cells, CellsModel, Column, ColumnModel, Database, DatabaseModel, ResultModel,
    Row, RowModel, SqlResult, StableId, Table, TableModel,
};
use crate::depend::{count_up, next_count};
use crate::error::{err, failure, outcome, unsupported, unsupported_failure, Outcome, Result};
use crate::eval::{eval, evaluated, predicate, project, projected, satisfied};
use crate::json::{group_value_views, Datum, Json};
use crate::ordmap::{del, has_key, put, OrdMap};
use crate::replica::{add_last, no_items, one_item, Replica};
use crate::rules::{
    allowed, assign_value, assigned, check_row, columns_required_from, identity_number, identity_value,
    permitted, recompute_generated, regenerated, row_checked, unique_listed,
};
use crate::text::{cat2, same, same_names};
use crate::validate::{is_unique_key, require_columns};
use crate::value::{child, flag, item, items, payload, same_json, tag};

verus! {

broadcast use group_value_views;

/// The result rows with one more, where a RETURNING clause asks for it.
pub open spec fn returned(returning: Json, cells: CellsModel, output: Seq<Json>, caller: AuthModel) -> Outcome<
    Seq<Json>,
> {
    if returning is Null {
        Ok(output)
    } else {
        match projected(returning, cells, caller) {
            Err(error) => Err(error),
            Ok(row) => Ok(output.push(Json::Object(row))),
        }
    }
}

fn add_returned(returning: &Datum, cells: &Cells, output: Vec<Datum>, context: &AuthContext) -> (result: Result<
    Vec<Datum>,
>)
    ensures
        outcome(result) == returned(
            returning@,
            cells@,
            output.deep_view(),
            context.deep_view(),
        ),
{
    if returning.is_null() {
        return Ok(output);
    }
    let row = project(returning, cells, context)?;
    let mut output = output;
    add_last(&mut output, Datum::Object(row));
    Ok(output)
}

// ---------------------------------------------------------------------------------------------
// INSERT: what it asks for
// ---------------------------------------------------------------------------------------------

/// Whether an INSERT carries only supported clauses.
pub open spec fn insert_accepted(node: Json) -> Outcome<()> {
    let source = child(node, "source"@);
    if child(node, "or"@) !is Null || flag(child(node, "ignore"@)) || flag(child(node, "overwrite"@)) || child(
        node,
        "partitioned"@,
    ) !is Null || items(child(node, "after_columns"@)).len() > 0 {
        Err(unsupported_failure("INSERT modifiers"@))
    } else if child(source, "with"@) !is Null || items(child(source, "order_by"@)).len() > 0 || child(
        source,
        "limit"@,
    ) !is Null || child(source, "offset"@) !is Null || child(source, "fetch"@) !is Null || items(
        child(source, "locks"@),
    ).len() > 0 {
        Err(unsupported_failure("INSERT VALUES query modifiers"@))
    } else {
        Ok(())
    }
}

/// The ON CONFLICT clause; null where there is none.
pub open spec fn conflict_of(on: Json) -> Outcome<Json> {
    if on is Null {
        Ok(Json::Null)
    } else if tag(on) == "OnConflict"@ {
        Ok(payload(on))
    } else {
        Err(unsupported_failure("ON DUPLICATE KEY"@))
    }
}

pub open spec fn nonempty_key() -> spec_fn(Seq<Seq<char>>) -> bool {
    |key: Seq<Seq<char>>| key.len() > 0
}

/// The keys on which rows can conflict.
pub open spec fn conflict_keys_of(table: TableModel, on: Json, conflict: Json) -> Outcome<Seq<Seq<Seq<char>>>> {
    let target = child(conflict, "conflict_target"@);
    if on is Null {
        Ok(Seq::empty())
    } else if target is Null {
        if tag(child(conflict, "action"@)) == "DoUpdate"@ {
            Err(failure("SyntaxError"@, "DO UPDATE requires a conflict target"@))
        } else {
            Ok(crate::alter::kept(table.unique.push(table.primary_key), nonempty_key()))
        }
    } else if tag(target) == "Columns"@ {
        let columns = ident_names(payload(target));
        if columns != table.primary_key && !unique_listed(table.unique, columns) {
            Err(
                failure(
                    "ConstraintViolation"@,
                    "ON CONFLICT target must identify a unique or primary key"@,
                ),
            )
        } else {
            Ok(seq![columns])
        }
    } else {
        Err(unsupported_failure("ON CONFLICT ON CONSTRAINT"@))
    }
}

/// Whether one of the keys is deferred.
pub open spec fn some_deferred(table: TableModel, keys: Seq<Seq<Seq<char>>>) -> bool {
    exists|i: int| 0 <= i < keys.len() && has_key(table.deferred_unique, #[trigger] keys[i])
}

/// Whether a name occurs twice.
pub open spec fn name_repeated(list: Seq<Seq<char>>) -> bool {
    exists|i: int, j: int| 0 <= i < j < list.len() && #[trigger] list[i] == #[trigger] list[j]
}

/// The columns that an INSERT fills.
pub open spec fn insert_target(table: TableModel, columns: Json) -> Outcome<Seq<Seq<char>>> {
    let target = if items(columns).len() == 0 {
        column_names_of(table.columns)
    } else {
        ident_names(columns)
    };
    match columns_required_from(table, target, 0) {
        Err(error) => Err(error),
        Ok(_) => if name_repeated(target) {
            Err(failure("DuplicateColumn"@, "Duplicate INSERT column"@))
        } else {
            Ok(target)
        },
    }
}

/// The rows of expressions that an INSERT gives: one empty row for DEFAULT VALUES.
pub open spec fn insert_rows(source: Json) -> Outcome<Json> {
    if source is Null {
        Ok(Json::Array(seq![Json::Array(Seq::empty())]))
    } else if tag(child(source, "body"@)) == "Values"@ {
        Ok(child(payload(child(source, "body"@)), "rows"@))
    } else {
        Err(unsupported_failure("INSERT currently requires VALUES"@))
    }
}

fn accept_insert(node: &Datum) -> (result: Result<()>)
    ensures
        outcome(result) == insert_accepted(node@),
{
    let source = node.child("source");
    if !node.child("or").is_null() || node.child("ignore").flag() || node.child("overwrite").flag()
        || !node.child("partitioned").is_null() || node.child("after_columns").count() > 0 {
        return Err(unsupported("INSERT modifiers"));
    }
    if !source.child("with").is_null() || source.child("order_by").count() > 0 || !source.child(
        "limit",
    ).is_null() || !source.child("offset").is_null() || !source.child("fetch").is_null() || source.child(
        "locks",
    ).count() > 0 {
        return Err(unsupported("INSERT VALUES query modifiers"));
    }
    Ok(())
}

fn nonempty_keys(table: &Table) -> (result: Vec<Vec<String>>)
    ensures
        result.deep_view() == crate::alter::kept(
            table.deep_view().unique.push(table.deep_view().primary_key),
            nonempty_key(),
        ),
{
    let mut all = table.unique.replica();
    add_last(&mut all, table.primary_key.replica());
    let mut result: Vec<Vec<String>> = no_items();
    let ghost keep = nonempty_key();
    let ghost model = all.deep_view();
    let mut i: usize = 0;
    while i < all.len()
        invariant
            i <= all.len(),
            model == all.deep_view(),
            keep == nonempty_key(),
            crate::alter::kept(model, keep) == crate::alter::kept_from(
                model,
                i as int,
                result.deep_view(),
                keep,
            ),
        decreases all.len() - i,
    {
        assert(model[i as int] == all[i as int].deep_view());
        if all[i].len() > 0 {
            add_last(&mut result, all[i].replica());
        }
        i += 1;
    }
    result
}

fn conflict_keys(table: &Table, on: &Datum, conflict: &Datum) -> (result: Result<Vec<Vec<String>>>)
    ensures
        outcome(result) == conflict_keys_of(table.deep_view(), on@, conflict@),
{
    if on.is_null() {
        return Ok(no_items());
    }
    let target = conflict.child("conflict_target");
    if target.is_null() {
        if conflict.child("action").is("DoUpdate") {
            return Err(err("SyntaxError", "DO UPDATE requires a conflict target"));
        }
        Ok(nonempty_keys(table))
    } else if target.is("Columns") {
        let columns = names(target.payload());
        if !same_names(&columns, &table.primary_key) && !is_unique_key(&table.unique, &columns) {
            return Err(
                err(
                    "ConstraintViolation",
                    "ON CONFLICT target must identify a unique or primary key",
                ),
            );
        }
        Ok(one_item(columns))
    } else {
        Err(unsupported("ON CONFLICT ON CONSTRAINT"))
    }
}

fn has_deferred(table: &Table, keys: &Vec<Vec<String>>) -> (result: bool)
    ensures
        result == some_deferred(table.deep_view(), keys.deep_view()),
{
    let mut i: usize = 0;
    while i < keys.len()
        invariant
            i <= keys.len(),
            forall|j: int|
                0 <= j < i ==> !has_key(table.deferred_unique@, #[trigger] keys.deep_view()[j]),
        decreases keys.len() - i,
    {
        assert(keys.deep_view()[i as int] == keys[i as int].deep_view());
        if table.deferred_unique.contains(&keys[i]) {
            return true;
        }
        i += 1;
    }
    false
}

fn is_repeated(list: &Vec<String>) -> (result: bool)
    ensures
        result == name_repeated(list.deep_view()),
{
    let ghost model = list.deep_view();
    let mut i: usize = 0;
    while i < list.len()
        invariant
            i <= list.len(),
            model == list.deep_view(),
            forall|a: int, b: int| 0 <= a < i && a < b < list.len() ==> #[trigger] model[a] != #[trigger] model[b],
        decreases list.len() - i,
    {
        let mut k: usize = i + 1;
        while k < list.len()
            invariant
                i < k <= list.len(),
                model == list.deep_view(),
                forall|b: int| i < b < k ==> model[i as int] != #[trigger] model[b],
            decreases list.len() - k,
        {
            if same(list[i].as_str(), list[k].as_str()) {
                assert(model[i as int] == model[k as int]);
                return true;
            }
            k += 1;
        }
        i += 1;
    }
    false
}

fn target_columns(table: &Table, columns: &Datum) -> (result: Result<Vec<String>>)
    ensures
        outcome(result) == insert_target(table.deep_view(), columns@),
{
    let target = if columns.count() == 0 {
        column_names(&table.columns)
    } else {
        names(columns)
    };
    require_columns(table, &target)?;
    if is_repeated(&target) {
        return Err(err("DuplicateColumn", "Duplicate INSERT column"));
    }
    Ok(target)
}

fn input_rows(source: &Datum) -> (result: Result<Datum>)
    ensures
        outcome(result) == insert_rows(source@),
{
    if source.is_null() {
        let row = Datum::Array(no_items());
        Ok(Datum::Array(one_item(row)))
    } else if source.child("body").is("Values") {
        Ok(source.child("body").payload().child("rows").copied())
    } else {
        Err(unsupported("INSERT currently requires VALUES"))
    }
}

// ---------------------------------------------------------------------------------------------
// INSERT: one row
// ---------------------------------------------------------------------------------------------

/// The cells that the expressions from position `from` on give.
pub open spec fn given_from(
    columns: Seq<ColumnModel>,
    target: Seq<Seq<char>>,
    exprs: Json,
    from: int,
    cells: CellsModel,
    caller: AuthModel,
) -> Outcome<CellsModel>
    decreases target.len() - from,
{
    if from < 0 || from >= target.len() || from >= items(exprs).len() {
        Ok(cells)
    } else {
        let expr = items(exprs)[from];
        if default_word(expr) {
            given_from(columns, target, exprs, from + 1, cells, caller)
        } else if column_named(columns, target[from]) matches Some(column) && (column.generated is Some || (
        column.identity is Some && column.identity->0.always)) {
            Err(failure("ConstraintViolation"@, target[from] + " is GENERATED ALWAYS"@))
        } else {
            match evaluated(expr, Seq::empty(), caller) {
                Err(error) => Err(error),
                Ok(value) => given_from(
                    columns,
                    target,
                    exprs,
                    from + 1,
                    put(cells, target[from], value),
                    caller,
                ),
            }
        }
    }
}

/// The value of a column that an INSERT leaves out.
pub open spec fn missing_value(column: ColumnModel, row_id: u64, caller: AuthModel) -> Outcome<Json> {
    match column.identity {
        Some(identity) => identity_number(identity, row_id),
        None => match column.default {
            Some(expr) => evaluated(expr, Seq::empty(), caller),
            None => Ok(Json::Null),
        },
    }
}

/// The cells with the columns from position `from` on that are left out filled in.
pub open spec fn completed_from(
    columns: Seq<ColumnModel>,
    from: int,
    cells: CellsModel,
    row_id: u64,
    caller: AuthModel,
) -> Outcome<CellsModel>
    decreases columns.len() - from,
{
    if from < 0 || from >= columns.len() {
        Ok(cells)
    } else if has_key(cells, columns[from].name) {
        completed_from(columns, from + 1, cells, row_id, caller)
    } else {
        match missing_value(columns[from], row_id, caller) {
            Err(error) => Err(error),
            Ok(value) => completed_from(
                columns,
                from + 1,
                put(cells, columns[from].name, value),
                row_id,
                caller,
            ),
        }
    }
}

/// The cells of a new row that the table and its policies accept.
pub open spec fn new_cells(
    table: TableModel,
    target: Seq<Seq<char>>,
    exprs: Json,
    caller: AuthModel,
) -> Outcome<CellsModel> {
    if items(exprs).len() > 0 && items(exprs).len() != target.len() {
        Err(failure("TypeError"@, "INSERT column/value arity differs"@))
    } else {
        match given_from(table.columns, target, exprs, 0, Seq::empty(), caller) {
            Err(error) => Err(error),
            Ok(given) => match completed_from(table.columns, 0, given, table.next_row_id, caller) {
                Err(error) => Err(error),
                Ok(complete) => match regenerated(table.columns, complete, caller) {
                    Err(error) => Err(error),
                    Ok(cells) => match row_checked(table, cells, caller) {
                        Err(error) => Err(error),
                        Ok(_) => match permitted(table, "INSERT"@, cells, caller, true) {
                            Err(error) => Err(error),
                            Ok(false) => Err(
                                failure(
                                    "RlsViolation"@,
                                    "New row violates row-level security policy"@,
                                ),
                            ),
                            Ok(true) => Ok(cells),
                        },
                    },
                },
            },
        }
    }
}

/// Whether a new row has the key of an existing one.
pub open spec fn key_conflicts(cells: CellsModel, row: CellsModel, key: Seq<Seq<char>>) -> bool {
    forall|i: int|
        0 <= i < key.len() ==> !(cell_of(cells, #[trigger] key[i]) is Null) && same_json(
            cell_of(cells, key[i]),
            cell_of(row, key[i]),
        )
}

/// Whether a new row conflicts with an existing one on some key.
pub open spec fn row_conflicts(cells: CellsModel, row: CellsModel, keys: Seq<Seq<Seq<char>>>) -> bool {
    exists|i: int| 0 <= i < keys.len() && key_conflicts(cells, row, #[trigger] keys[i])
}

/// The first row from position `from` on with which a new row conflicts.
pub open spec fn conflicting_from(
    rows: Seq<(u64, RowModel)>,
    from: int,
    cells: CellsModel,
    keys: Seq<Seq<Seq<char>>>,
) -> Option<RowModel>
    decreases rows.len() - from,
{
    if from < 0 || from >= rows.len() {
        None
    } else if row_conflicts(cells, rows[from].1.values, keys) {
        Some(rows[from].1)
    } else {
        conflicting_from(rows, from + 1, cells, keys)
    }
}

/// The proposed cells from position `from` on, named as an upsert names them, put into a scope.
pub open spec fn excluded_from(scope: CellsModel, cells: CellsModel, from: int) -> CellsModel
    decreases cells.len() - from,
{
    if from < 0 || from >= cells.len() {
        scope
    } else {
        excluded_from(put(scope, "excluded."@ + cells[from].0, cells[from].1), cells, from + 1)
    }
}

/// The cells after the assignments of an upsert from position `from` on.
pub open spec fn upserted_from(
    table: TableModel,
    assignments: Json,
    from: int,
    cells: CellsModel,
    scope: CellsModel,
    caller: AuthModel,
) -> Outcome<CellsModel>
    decreases items(assignments).len() - from,
{
    if from < 0 || from >= items(assignments).len() {
        Ok(cells)
    } else {
        let assignment = items(assignments)[from];
        let name = ident_name(item(child(assignment, "id"@), 0));
        if items(child(assignment, "id"@)).len() != 1 {
            Err(unsupported_failure("Qualified upsert assignment target"@))
        } else {
            match column_required(table, name) {
                Err(error) => Err(error),
                Ok(_) => match assigned(
                    table.columns,
                    cells,
                    name,
                    child(assignment, "value"@),
                    scope,
                    caller,
                ) {
                    Err(error) => Err(error),
                    Ok(next) => upserted_from(table, assignments, from + 1, next, scope, caller),
                },
            }
        }
    }
}

/// The progress of an INSERT.
pub struct Insertion {
    pub table: Table,
    pub output: Vec<Datum>,
    pub affected: usize,
    pub touched: Vec<u64>,
}

/// [`Insertion`] in specifications.
pub struct InsertionModel {
    pub table: TableModel,
    pub output: Seq<Json>,
    pub affected: usize,
    pub touched: Seq<u64>,
}

impl DeepView for Insertion {
    type V = InsertionModel;

    open spec fn deep_view(&self) -> InsertionModel {
        InsertionModel {
            table: self.table.deep_view(),
            output: self.output.deep_view(),
            affected: self.affected,
            touched: self.touched@,
        }
    }
}

/// The progress after a written row.
pub open spec fn row_written(
    state: InsertionModel,
    row: RowModel,
    returning: Json,
    touched: Seq<u64>,
    caller: AuthModel,
) -> Outcome<InsertionModel> {
    match returned(returning, row.values, state.output, caller) {
        Err(error) => Err(error),
        Ok(output) => Ok(
            InsertionModel {
                table: TableModel { rows: put(state.table.rows, row.id, row), ..state.table },
                output,
                affected: (state.affected + 1) as usize,
                touched,
            },
        ),
    }
}

/// The progress after a conflict: nothing, or an update of the existing row.
pub open spec fn conflict_handled(
    state: InsertionModel,
    row: RowModel,
    cells: CellsModel,
    action: Json,
    returning: Json,
    caller: AuthModel,
) -> Outcome<InsertionModel> {
    let update = payload(action);
    let scope = excluded_from(row.values, cells, 0);
    if tag(action) == "DoNothing"@ {
        Ok(state)
    } else {
        match permitted(state.table, "UPDATE"@, row.values, caller, false) {
            Err(error) => Err(error),
            Ok(false) => Err(failure("RlsViolation"@, "Conflicting row violates UPDATE policy"@)),
            Ok(true) => match satisfied(child(update, "selection"@), scope, caller) {
                Err(error) => Err(error),
                Ok(false) => Ok(state),
                Ok(true) => if state.touched.contains(row.id) {
                    Err(failure("CardinalityError"@, "ON CONFLICT cannot affect the same row twice"@))
                } else {
                    match upserted_from(
                        state.table,
                        child(update, "assignments"@),
                        0,
                        row.values,
                        scope,
                        caller,
                    ) {
                        Err(error) => Err(error),
                        Ok(changed) => match regenerated(state.table.columns, changed, caller) {
                            Err(error) => Err(error),
                            Ok(values) => match row_checked(state.table, values, caller) {
                                Err(error) => Err(error),
                                Ok(_) => match permitted(
                                    state.table,
                                    "UPDATE"@,
                                    values,
                                    caller,
                                    true,
                                ) {
                                    Err(error) => Err(error),
                                    Ok(false) => Err(
                                        failure(
                                            "RlsViolation"@,
                                            "Upserted row violates UPDATE policy"@,
                                        ),
                                    ),
                                    Ok(true) => match next_count(row.version) {
                                        Err(error) => Err(error),
                                        Ok(version) => row_written(
                                            state,
                                            RowModel { version, values, ..row },
                                            returning,
                                            state.touched.push(row.id),
                                            caller,
                                        ),
                                    },
                                },
                            },
                        },
                    }
                },
            },
        }
    }
}

/// The progress after one row of an INSERT.
pub open spec fn row_inserted(
    state: InsertionModel,
    target: Seq<Seq<char>>,
    exprs: Json,
    keys: Seq<Seq<Seq<char>>>,
    conflict: Json,
    returning: Json,
    caller: AuthModel,
) -> Outcome<InsertionModel> {
    match new_cells(state.table, target, exprs, caller) {
        Err(error) => Err(error),
        Ok(cells) => match conflicting_from(state.table.rows, 0, cells, keys) {
            Some(row) => conflict_handled(
                state,
                row,
                cells,
                child(conflict, "action"@),
                returning,
                caller,
            ),
            None => {
                let id = state.table.next_row_id;
                match next_count(id) {
                    Err(error) => Err(error),
                    Ok(next) => row_written(
                        InsertionModel {
                            table: TableModel { next_row_id: next, ..state.table },
                            ..state
                        },
                        RowModel { id, version: 1, values: cells },
                        returning,
                        state.touched.push(id),
                        caller,
                    ),
                }
            },
        },
    }
}

/// The progress after the rows of an INSERT from position `from` on.
pub open spec fn rows_inserted_from(
    state: InsertionModel,
    target: Seq<Seq<char>>,
    input: Json,
    from: int,
    keys: Seq<Seq<Seq<char>>>,
    conflict: Json,
    returning: Json,
    caller: AuthModel,
) -> Outcome<InsertionModel>
    decreases items(input).len() - from,
{
    if from < 0 || from >= items(input).len() {
        Ok(state)
    } else {
        match row_inserted(state, target, items(input)[from], keys, conflict, returning, caller) {
            Err(error) => Err(error),
            Ok(next) => rows_inserted_from(
                next,
                target,
                input,
                from + 1,
                keys,
                conflict,
                returning,
                caller,
            ),
        }
    }
}

/// The state and the result after the rows of an INSERT into a table.
pub open spec fn table_inserted(
    database: DatabaseModel,
    name: Seq<char>,
    table: TableModel,
    node: Json,
    conflict: Json,
    caller: AuthModel,
) -> Outcome<(DatabaseModel, ResultModel)> {
    match conflict_keys_of(table, child(node, "on"@), conflict) {
        Err(error) => Err(error),
        Ok(keys) => if some_deferred(table, keys) {
            Err(unsupported_failure("Deferred constraints cannot arbitrate ON CONFLICT"@))
        } else {
            match insert_target(table, child(node, "columns"@)) {
                Err(error) => Err(error),
                Ok(target) => match insert_rows(child(node, "source"@)) {
                    Err(error) => Err(error),
                    Ok(input) => match rows_inserted_from(
                        (InsertionModel {
                            table,
                            output: Seq::empty(),
                            affected: 0,
                            touched: Seq::empty(),
                        }),
                        target,
                        input,
                        0,
                        keys,
                        conflict,
                        child(node, "returning"@),
                        caller,
                    ) {
                        Err(error) => Err(error),
                        Ok(done) => Ok(
                            (
                                with_table(database, name, done.table),
                                ResultModel { rows: done.output, affected: done.affected },
                            ),
                        ),
                    },
                },
            }
        },
    }
}

/// The state and the result after INSERT.
pub open spec fn inserted(database: DatabaseModel, node: Json, caller: AuthModel) -> Outcome<
    (DatabaseModel, ResultModel),
> {
    match insert_accepted(node) {
        Err(error) => Err(error),
        Ok(_) => match table_name_of(child(node, "table_name"@)) {
            Err(error) => Err(error),
            Ok(name) => match table_of(database, name) {
                Err(error) => Err(error),
                Ok(table) => match conflict_of(child(node, "on"@)) {
                    Err(error) => Err(error),
                    Ok(conflict) => table_inserted(database, name, table, node, conflict, caller),
                },
            },
        },
    }
}

fn read_given(columns: &Vec<Column>, target: &Vec<String>, exprs: &Datum, context: &AuthContext) -> (result:
    Result<Cells>)
    ensures
        outcome(result) == given_from(
            columns.deep_view(),
            target.deep_view(),
            exprs@,
            0,
            Seq::empty(),
            context.deep_view(),
        ),
{
    let none: Cells = OrdMap::new();
    let mut cells: Cells = OrdMap::new();
    let ghost model = columns.deep_view();
    let ghost list = target.deep_view();
    let count: usize = exprs.count();
    let mut i: usize = 0;
    while i < target.len() && i < count
        invariant
            i <= target.len(),
            count == items(exprs@).len(),
            model == columns.deep_view(),
            list == target.deep_view(),
            none@ == Seq::<(Seq<char>, Json)>::empty(),
            given_from(model, list, exprs@, 0, Seq::empty(), context.deep_view()) == given_from(
                model,
                list,
                exprs@,
                i as int,
                cells@,
                context.deep_view(),
            ),
        decreases target.len() - i,
    {
        assert(list[i as int] == target[i as int]@);
        let expr = exprs.item(i);
        if !is_default(expr) {
            let spot: usize = find_column(columns, target[i].as_str());
            if spot < columns.len() {
                let column = &columns[spot];
                assert(model[spot as int] == column.deep_view());
                let always: bool = match &column.identity {
                    Some(identity) => identity.always,
                    None => false,
                };
                if column.generated.is_some() || always {
                    return Err(
                        err(
                            "ConstraintViolation",
                            cat2(target[i].as_str(), " is GENERATED ALWAYS").as_str(),
                        ),
                    );
                }
            }
            let value = eval(expr, &none, context)?;
            cells.insert(target[i].clone(), value);
        }
        i += 1;
    }
    Ok(cells)
}

fn complete(columns: &Vec<Column>, start: Cells, row_id: u64, context: &AuthContext) -> (result: Result<Cells>)
    ensures
        outcome(result) == completed_from(
            columns.deep_view(),
            0,
            start@,
            row_id,
            context.deep_view(),
        ),
{
    let ghost first = start@;
    let ghost model = columns.deep_view();
    let none: Cells = OrdMap::new();
    let mut cells = start;
    let mut i: usize = 0;
    while i < columns.len()
        invariant
            i <= columns.len(),
            model == columns.deep_view(),
            first == start@,
            none@ == Seq::<(Seq<char>, Json)>::empty(),
            completed_from(model, 0, first, row_id, context.deep_view()) == completed_from(
                model,
                i as int,
                cells@,
                row_id,
                context.deep_view(),
            ),
        decreases columns.len() - i,
    {
        let column = &columns[i];
        assert(model[i as int] == column.deep_view());
        if !cells.holds(column.name.as_str()) {
            let value = match &column.identity {
                Some(identity) => identity_value(identity, row_id)?,
                None => match &column.default {
                    Some(expr) => eval(expr, &none, context)?,
                    None => Datum::Null,
                },
            };
            cells.insert(column.name.clone(), value);
        }
        i += 1;
    }
    Ok(cells)
}

fn make_cells(table: &Table, target: &Vec<String>, exprs: &Datum, context: &AuthContext) -> (result: Result<Cells>)
    ensures
        outcome(result) == new_cells(
            table.deep_view(),
            target.deep_view(),
            exprs@,
            context.deep_view(),
        ),
{
    if exprs.count() > 0 && exprs.count() != target.len() {
        return Err(err("TypeError", "INSERT column/value arity differs"));
    }
    let given = read_given(&table.columns, target, exprs, context)?;
    let full = complete(&table.columns, given, table.next_row_id, context)?;
    let cells = recompute_generated(&table.columns, full, context)?;
    check_row(table, &cells, context)?;
    if !allowed(table, "INSERT", &cells, context, true)? {
        return Err(err("RlsViolation", "New row violates row-level security policy"));
    }
    Ok(cells)
}

fn is_key_conflict(cells: &Cells, row: &Cells, key: &Vec<String>) -> (result: bool)
    ensures
        result == key_conflicts(cells@, row@, key.deep_view()),
{
    let ghost model = key.deep_view();
    let mut i: usize = 0;
    while i < key.len()
        invariant
            i <= key.len(),
            model == key.deep_view(),
            forall|j: int|
                0 <= j < i ==> !(cell_of(cells@, #[trigger] model[j]) is Null) && same_json(
                    cell_of(cells@, model[j]),
                    cell_of(row@, model[j]),
                ),
        decreases key.len() - i,
    {
        assert(model[i as int] == key[i as int]@);
        let value = cell(cells, key[i].as_str());
        if value.is_null() || !value.equals(cell(row, key[i].as_str())) {
            return false;
        }
        i += 1;
    }
    true
}

fn is_conflict(cells: &Cells, row: &Cells, keys: &Vec<Vec<String>>) -> (result: bool)
    ensures
        result == row_conflicts(cells@, row@, keys.deep_view()),
{
    let ghost model = keys.deep_view();
    let mut i: usize = 0;
    while i < keys.len()
        invariant
            i <= keys.len(),
            model == keys.deep_view(),
            forall|j: int| 0 <= j < i ==> !key_conflicts(cells@, row@, #[trigger] model[j]),
        decreases keys.len() - i,
    {
        assert(model[i as int] == keys[i as int].deep_view());
        if is_key_conflict(cells, row, &keys[i]) {
            return true;
        }
        i += 1;
    }
    false
}

fn find_conflict(rows: &OrdMap<StableId, Row>, cells: &Cells, keys: &Vec<Vec<String>>) -> (result: Option<Row>)
    ensures
        result.deep_view() == conflicting_from(rows@, 0, cells@, keys.deep_view()),
{
    let mut i: usize = 0;
    while i < rows.len()
        invariant
            i <= rows@.len(),
            conflicting_from(rows@, 0, cells@, keys.deep_view()) == conflicting_from(
                rows@,
                i as int,
                cells@,
                keys.deep_view(),
            ),
        decreases rows@.len() - i,
    {
        let row = rows.value_at(i);
        if is_conflict(cells, &row.values, keys) {
            return Some(row.replica());
        }
        i += 1;
    }
    None
}

fn add_excluded(start: Cells, cells: &Cells) -> (result: Cells)
    ensures
        result@ == excluded_from(start@, cells@, 0),
{
    let ghost first = start@;
    let mut scope = start;
    let mut i: usize = 0;
    while i < cells.len()
        invariant
            i <= cells@.len(),
            excluded_from(first, cells@, 0) == excluded_from(scope@, cells@, i as int),
        decreases cells@.len() - i,
    {
        let name = cat2("excluded.", cells.key_at(i).as_str());
        scope.insert(name, cells.value_at(i).copied());
        i += 1;
    }
    scope
}

fn upsert(table: &Table, assignments: &Datum, start: Cells, scope: &Cells, context: &AuthContext) -> (result:
    Result<Cells>)
    ensures
        outcome(result) == upserted_from(
            table.deep_view(),
            assignments@,
            0,
            start@,
            scope@,
            context.deep_view(),
        ),
{
    let ghost first = start@;
    let ghost model = table.deep_view();
    let mut cells = start;
    let count: usize = assignments.count();
    let mut i: usize = 0;
    while i < count
        invariant
            i <= count == items(assignments@).len(),
            model == table.deep_view(),
            first == start@,
            upserted_from(model, assignments@, 0, first, scope@, context.deep_view()) == upserted_from(
                model,
                assignments@,
                i as int,
                cells@,
                scope@,
                context.deep_view(),
            ),
        decreases count - i,
    {
        let assignment = assignments.item(i);
        if assignment.child("id").count() != 1 {
            return Err(unsupported("Qualified upsert assignment target"));
        }
        let name = ident(assignment.child("id").item(0));
        require_column(table, name.as_str())?;
        cells = assign_value(
            &table.columns,
            cells,
            name.as_str(),
            assignment.child("value"),
            scope,
            context,
        )?;
        i += 1;
    }
    Ok(cells)
}

fn is_touched(touched: &Vec<u64>, id: u64) -> (result: bool)
    ensures
        result == touched@.contains(id),
{
    let mut i: usize = 0;
    while i < touched.len()
        invariant
            i <= touched.len(),
            forall|j: int| 0 <= j < i ==> touched[j] != id,
        decreases touched.len() - i,
    {
        if touched[i] == id {
            return true;
        }
        i += 1;
    }
    false
}

fn write_row(state: Insertion, row: Row, returning: &Datum, touched: Vec<u64>, context: &AuthContext) -> (result:
    Result<Insertion>)
    requires
        state.affected < usize::MAX,
    ensures
        outcome(result) == row_written(
            state.deep_view(),
            row.deep_view(),
            returning@,
            touched@,
            context.deep_view(),
        ),
        result matches Ok(next) ==> next.affected <= state.affected + 1,
{
    let affected: usize = state.affected + 1;
    let output = add_returned(returning, &row.values, state.output, context)?;
    let mut table = state.table;
    table.rows.insert(row.id, row);
    Ok(Insertion { table, output, affected, touched })
}

fn handle_conflict(
    state: Insertion,
    row: Row,
    cells: &Cells,
    action: &Datum,
    returning: &Datum,
    context: &AuthContext,
) -> (result: Result<Insertion>)
    requires
        state.affected < usize::MAX,
    ensures
        outcome(result) == conflict_handled(
            state.deep_view(),
            row.deep_view(),
            cells@,
            action@,
            returning@,
            context.deep_view(),
        ),
        result matches Ok(next) ==> next.affected <= state.affected + 1,
{
    if action.is("DoNothing") {
        return Ok(state);
    }
    let update = action.payload();
    if !allowed(&state.table, "UPDATE", &row.values, context, false)? {
        return Err(err("RlsViolation", "Conflicting row violates UPDATE policy"));
    }
    let scope = add_excluded(row.values.replica(), cells);
    if !predicate(update.child("selection"), &scope, context)? {
        return Ok(state);
    }
    if is_touched(&state.touched, row.id) {
        return Err(err("CardinalityError", "ON CONFLICT cannot affect the same row twice"));
    }
    let changed = upsert(
        &state.table,
        update.child("assignments"),
        row.values.replica(),
        &scope,
        context,
    )?;
    let values = recompute_generated(&state.table.columns, changed, context)?;
    check_row(&state.table, &values, context)?;
    if !allowed(&state.table, "UPDATE", &values, context, true)? {
        return Err(err("RlsViolation", "Upserted row violates UPDATE policy"));
    }
    let version: u64 = count_up(row.version)?;
    let mut touched = state.touched.clone();
    assert(touched@ =~= state.touched@);
    touched.push(row.id);
    write_row(state, Row { id: row.id, version, values }, returning, touched, context)
}

fn insert_row(
    state: Insertion,
    target: &Vec<String>,
    exprs: &Datum,
    keys: &Vec<Vec<String>>,
    conflict: &Datum,
    returning: &Datum,
    context: &AuthContext,
) -> (result: Result<Insertion>)
    requires
        state.affected < usize::MAX,
    ensures
        outcome(result) == row_inserted(
            state.deep_view(),
            target.deep_view(),
            exprs@,
            keys.deep_view(),
            conflict@,
            returning@,
            context.deep_view(),
        ),
        result matches Ok(next) ==> next.affected <= state.affected + 1,
{
    let cells = make_cells(&state.table, target, exprs, context)?;
    match find_conflict(&state.table.rows, &cells, keys) {
        Some(row) => handle_conflict(state, row, &cells, conflict.child("action"), returning, context),
        None => {
            let id: u64 = state.table.next_row_id;
            let next: u64 = count_up(id)?;
            let mut touched = state.touched.clone();
            assert(touched@ =~= state.touched@);
            touched.push(id);
            let mut state = state;
            state.table.next_row_id = next;
            write_row(state, Row { id, version: 1, values: cells }, returning, touched, context)
        },
    }
}

fn insert_all(
    start: Insertion,
    target: &Vec<String>,
    input: &Datum,
    keys: &Vec<Vec<String>>,
    conflict: &Datum,
    returning: &Datum,
    context: &AuthContext,
) -> (result: Result<Insertion>)
    requires
        start.affected == 0,
    ensures
        outcome(result) == rows_inserted_from(
            start.deep_view(),
            target.deep_view(),
            input@,
            0,
            keys.deep_view(),
            conflict@,
            returning@,
            context.deep_view(),
        ),
{
    let ghost first = start.deep_view();
    let ghost caller = context.deep_view();
    let mut state = start;
    let count: usize = input.count();
    let mut i: usize = 0;
    while i < count
        invariant
            i <= count == items(input@).len(),
            state.affected <= i,
            first == start.deep_view(),
            caller == context.deep_view(),
            rows_inserted_from(
                first,
                target.deep_view(),
                input@,
                0,
                keys.deep_view(),
                conflict@,
                returning@,
                caller,
            ) == rows_inserted_from(
                state.deep_view(),
                target.deep_view(),
                input@,
                i as int,
                keys.deep_view(),
                conflict@,
                returning@,
                caller,
            ),
        decreases count - i,
    {
        state = insert_row(state, target, input.item(i), keys, conflict, returning, context)?;
        i += 1;
    }
    Ok(state)
}

/// Runs INSERT.
pub fn insert(database: Database, node: &Datum, context: &AuthContext) -> (result: Result<(Database, SqlResult)>)
    ensures
        outcome(result) == inserted(database.deep_view(), node@, context.deep_view()),
{
    accept_insert(node)?;
    let name = table_name(node.child("table_name"))?;
    let table = database.table(name.as_str())?.replica();
    let on = node.child("on");
    let conflict = if on.is_null() {
        &Datum::Null
    } else if on.is("OnConflict") {
        on.payload()
    } else {
        return Err(unsupported("ON DUPLICATE KEY"));
    };
    let keys = conflict_keys(&table, on, conflict)?;
    if has_deferred(&table, &keys) {
        return Err(unsupported("Deferred constraints cannot arbitrate ON CONFLICT"));
    }
    let target = target_columns(&table, node.child("columns"))?;
    let input = input_rows(node.child("source"))?;
    let start = Insertion { table, output: no_items(), affected: 0, touched: Vec::new() };
    let done = insert_all(start, &target, &input, &keys, conflict, node.child("returning"), context)?;
    let mut database = database;
    database.catalog.insert(name, done.table);
    Ok((database, SqlResult { rows: done.output, affected: done.affected }))
}

// ---------------------------------------------------------------------------------------------
// UPDATE
// ---------------------------------------------------------------------------------------------

/// Whether the assignments from position `from` on name columns of the table.
pub open spec fn assignments_valid_from(table: TableModel, assignments: Json, from: int) -> Outcome<()>
    decreases items(assignments).len() - from,
{
    if from < 0 || from >= items(assignments).len() {
        Ok(())
    } else {
        let id = child(items(assignments)[from], "id"@);
        if items(id).len() != 1 {
            Err(unsupported_failure("Qualified assignment target"@))
        } else {
            match column_required(table, ident_name(item(id, 0))) {
                Err(error) => Err(error),
                Ok(_) => assignments_valid_from(table, assignments, from + 1),
            }
        }
    }
}

/// The cells after the assignments from position `from` on.
pub open spec fn assigned_from(
    columns: Seq<ColumnModel>,
    assignments: Json,
    from: int,
    cells: CellsModel,
    scope: CellsModel,
    caller: AuthModel,
) -> Outcome<CellsModel>
    decreases items(assignments).len() - from,
{
    if from < 0 || from >= items(assignments).len() {
        Ok(cells)
    } else {
        let assignment = items(assignments)[from];
        match assigned(
            columns,
            cells,
            ident_name(item(child(assignment, "id"@), 0)),
            child(assignment, "value"@),
            scope,
            caller,
        ) {
            Err(error) => Err(error),
            Ok(next) => assigned_from(columns, assignments, from + 1, next, scope, caller),
        }
    }
}

/// A row after an UPDATE that applies to it.
pub open spec fn row_updated(table: TableModel, assignments: Json, row: RowModel, caller: AuthModel) -> Outcome<
    RowModel,
> {
    match assigned_from(table.columns, assignments, 0, row.values, row.values, caller) {
        Err(error) => Err(error),
        Ok(changed) => match regenerated(table.columns, changed, caller) {
            Err(error) => Err(error),
            Ok(values) => match row_checked(table, values, caller) {
                Err(error) => Err(error),
                Ok(_) => match permitted(table, "UPDATE"@, values, caller, true) {
                    Err(error) => Err(error),
                    Ok(false) => Err(
                        failure("RlsViolation"@, "Updated row violates row-level security policy"@),
                    ),
                    Ok(true) => match next_count(row.version) {
                        Err(error) => Err(error),
                        Ok(version) => Ok(RowModel { version, values, ..row }),
                    },
                },
            },
        },
    }
}

/// Whether a statement reaches a row: its predicate holds and the policies allow the command.
pub open spec fn reached(
    table: TableModel,
    selection: Json,
    command: Seq<char>,
    cells: CellsModel,
    caller: AuthModel,
) -> Outcome<bool> {
    match satisfied(selection, cells, caller) {
        Err(error) => Err(error),
        Ok(false) => Ok(false),
        Ok(true) => permitted(table, command, cells, caller, false),
    }
}

/// The changed rows and the result rows of an UPDATE from position `from` on.
pub open spec fn updates_from(
    table: TableModel,
    node: Json,
    from: int,
    changed: Seq<RowModel>,
    output: Seq<Json>,
    caller: AuthModel,
) -> Outcome<(Seq<RowModel>, Seq<Json>)>
    decreases table.rows.len() - from,
{
    if from < 0 || from >= table.rows.len() {
        Ok((changed, output))
    } else {
        let row = table.rows[from].1;
        match reached(table, child(node, "selection"@), "UPDATE"@, row.values, caller) {
            Err(error) => Err(error),
            Ok(false) => updates_from(table, node, from + 1, changed, output, caller),
            Ok(true) => match row_updated(table, child(node, "assignments"@), row, caller) {
                Err(error) => Err(error),
                Ok(next) => match returned(child(node, "returning"@), next.values, output, caller) {
                    Err(error) => Err(error),
                    Ok(more) => updates_from(table, node, from + 1, changed.push(next), more, caller),
                },
            },
        }
    }
}

/// The rows with the changed ones from position `from` on put in.
pub open spec fn rows_put_from(rows: Seq<(u64, RowModel)>, changed: Seq<RowModel>, from: int) -> Seq<(u64, RowModel)>
    decreases changed.len() - from,
{
    if from < 0 || from >= changed.len() {
        rows
    } else {
        rows_put_from(put(rows, changed[from].id, changed[from]), changed, from + 1)
    }
}

/// The state and the result after UPDATE.
pub open spec fn updated(database: DatabaseModel, node: Json, caller: AuthModel) -> Outcome<
    (DatabaseModel, ResultModel),
> {
    let relation = child(node, "table"@);
    if child(node, "from"@) !is Null || items(child(relation, "joins"@)).len() > 0 {
        Err(unsupported_failure("UPDATE FROM/JOIN"@))
    } else {
        match factor_name_of(child(relation, "relation"@)) {
            Err(error) => Err(error),
            Ok(name) => match table_of(database, name) {
                Err(error) => Err(error),
                Ok(table) => match assignments_valid_from(table, child(node, "assignments"@), 0) {
                    Err(error) => Err(error),
                    Ok(_) => match updates_from(table, node, 0, Seq::empty(), Seq::empty(), caller) {
                        Err(error) => Err(error),
                        Ok((changed, output)) => Ok(
                            (
                                with_table(
                                    database,
                                    name,
                                    TableModel {
                                        rows: rows_put_from(table.rows, changed, 0),
                                        ..table
                                    },
                                ),
                                ResultModel { rows: output, affected: changed.len() as usize },
                            ),
                        ),
                    },
                },
            },
        }
    }
}

fn check_assignments(table: &Table, assignments: &Datum) -> (result: Result<()>)
    ensures
        outcome(result) == assignments_valid_from(table.deep_view(), assignments@, 0),
{
    let count: usize = assignments.count();
    let mut i: usize = 0;
    while i < count
        invariant
            i <= count == items(assignments@).len(),
            assignments_valid_from(table.deep_view(), assignments@, 0) == assignments_valid_from(
                table.deep_view(),
                assignments@,
                i as int,
            ),
        decreases count - i,
    {
        let id = assignments.item(i).child("id");
        if id.count() != 1 {
            return Err(unsupported("Qualified assignment target"));
        }
        require_column(table, ident(id.item(0)).as_str())?;
        i += 1;
    }
    Ok(())
}

fn assign_all(columns: &Vec<Column>, assignments: &Datum, row: &Cells, context: &AuthContext) -> (result: Result<
    Cells,
>)
    ensures
        outcome(result) == assigned_from(
            columns.deep_view(),
            assignments@,
            0,
            row@,
            row@,
            context.deep_view(),
        ),
{
    let mut cells = row.replica();
    let count: usize = assignments.count();
    let mut i: usize = 0;
    while i < count
        invariant
            i <= count == items(assignments@).len(),
            assigned_from(columns.deep_view(), assignments@, 0, row@, row@, context.deep_view())
                == assigned_from(
                columns.deep_view(),
                assignments@,
                i as int,
                cells@,
                row@,
                context.deep_view(),
            ),
        decreases count - i,
    {
        let assignment = assignments.item(i);
        let name = ident(assignment.child("id").item(0));
        cells = assign_value(columns, cells, name.as_str(), assignment.child("value"), row, context)?;
        i += 1;
    }
    Ok(cells)
}

fn update_row(table: &Table, assignments: &Datum, row: &Row, context: &AuthContext) -> (result: Result<Row>)
    ensures
        outcome(result) == row_updated(
            table.deep_view(),
            assignments@,
            row.deep_view(),
            context.deep_view(),
        ),
{
    let changed = assign_all(&table.columns, assignments, &row.values, context)?;
    let values = recompute_generated(&table.columns, changed, context)?;
    check_row(table, &values, context)?;
    if !allowed(table, "UPDATE", &values, context, true)? {
        return Err(err("RlsViolation", "Updated row violates row-level security policy"));
    }
    let version: u64 = count_up(row.version)?;
    Ok(Row { id: row.id, version, values })
}

fn reaches(table: &Table, selection: &Datum, command: &str, cells: &Cells, context: &AuthContext) -> (result:
    Result<bool>)
    ensures
        outcome(result) == reached(
            table.deep_view(),
            selection@,
            command@,
            cells@,
            context.deep_view(),
        ),
{
    if !predicate(selection, cells, context)? {
        return Ok(false);
    }
    allowed(table, command, cells, context, false)
}

fn collect_updates(table: &Table, node: &Datum, context: &AuthContext) -> (result: Result<(Vec<Row>, Vec<Datum>)>)
    ensures
        outcome(result) == updates_from(
            table.deep_view(),
            node@,
            0,
            Seq::empty(),
            Seq::empty(),
            context.deep_view(),
        ),
{
    let mut changed: Vec<Row> = no_items();
    let mut output: Vec<Datum> = no_items();
    let ghost model = table.deep_view();
    let mut i: usize = 0;
    while i < table.rows.len()
        invariant
            i <= model.rows.len(),
            model == table.deep_view(),
            updates_from(model, node@, 0, Seq::empty(), Seq::empty(), context.deep_view())
                == updates_from(
                model,
                node@,
                i as int,
                changed.deep_view(),
                output.deep_view(),
                context.deep_view(),
            ),
        decreases model.rows.len() - i,
    {
        let row = table.rows.value_at(i);
        assert(model.rows[i as int].1 == row.deep_view());
        if reaches(table, node.child("selection"), "UPDATE", &row.values, context)? {
            let next = update_row(table, node.child("assignments"), row, context)?;
            output = add_returned(node.child("returning"), &next.values, output, context)?;
            add_last(&mut changed, next);
        }
        i += 1;
    }
    Ok((changed, output))
}

fn put_rows(start: OrdMap<StableId, Row>, changed: &Vec<Row>) -> (result: OrdMap<StableId, Row>)
    ensures
        result@ == rows_put_from(start@, changed.deep_view(), 0),
{
    let ghost first = start@;
    let ghost model = changed.deep_view();
    let mut rows = start;
    let mut i: usize = 0;
    while i < changed.len()
        invariant
            i <= changed.len(),
            model == changed.deep_view(),
            rows_put_from(first, model, 0) == rows_put_from(rows@, model, i as int),
        decreases changed.len() - i,
    {
        assert(model[i as int] == changed[i as int].deep_view());
        rows.insert(changed[i].id, changed[i].replica());
        i += 1;
    }
    rows
}

/// Runs UPDATE.
pub fn update(database: Database, node: &Datum, context: &AuthContext) -> (result: Result<(Database, SqlResult)>)
    ensures
        outcome(result) == updated(database.deep_view(), node@, context.deep_view()),
{
    let relation = node.child("table");
    if !node.child("from").is_null() || relation.child("joins").count() > 0 {
        return Err(unsupported("UPDATE FROM/JOIN"));
    }
    let name = factor_name(relation.child("relation"))?;
    let table = database.table(name.as_str())?.replica();
    check_assignments(&table, node.child("assignments"))?;
    let (changed, output) = collect_updates(&table, node, context)?;
    let mut table = table;
    table.rows = put_rows(table.rows, &changed);
    let mut database = database;
    database.catalog.insert(name, table);
    Ok((database, SqlResult { rows: output, affected: changed.len() }))
}

// ---------------------------------------------------------------------------------------------
// DELETE
// ---------------------------------------------------------------------------------------------

/// The identities of the deleted rows and the result rows of a DELETE from position `from` on.
pub open spec fn deletions_from(
    table: TableModel,
    node: Json,
    from: int,
    deleted: Seq<u64>,
    output: Seq<Json>,
    caller: AuthModel,
) -> Outcome<(Seq<u64>, Seq<Json>)>
    decreases table.rows.len() - from,
{
    if from < 0 || from >= table.rows.len() {
        Ok((deleted, output))
    } else {
        let row = table.rows[from].1;
        match reached(table, child(node, "selection"@), "DELETE"@, row.values, caller) {
            Err(error) => Err(error),
            Ok(false) => deletions_from(table, node, from + 1, deleted, output, caller),
            Ok(true) => match returned(child(node, "returning"@), row.values, output, caller) {
                Err(error) => Err(error),
                Ok(more) => deletions_from(table, node, from + 1, deleted.push(row.id), more, caller),
            },
        }
    }
}

/// The rows without the identities from position `from` on.
pub open spec fn rows_removed_from(rows: Seq<(u64, RowModel)>, deleted: Seq<u64>, from: int) -> Seq<(u64, RowModel)>
    decreases deleted.len() - from,
{
    if from < 0 || from >= deleted.len() {
        rows
    } else {
        rows_removed_from(del(rows, deleted[from]), deleted, from + 1)
    }
}

/// The state and the result after DELETE.
pub open spec fn deleted(database: DatabaseModel, node: Json, caller: AuthModel) -> Outcome<
    (DatabaseModel, ResultModel),
> {
    let relation = item(child(node, "from"@), 0);
    if items(child(node, "from"@)).len() != 1 || child(node, "using"@) !is Null || items(
        child(node, "tables"@),
    ).len() > 0 || items(child(node, "order_by"@)).len() > 0 || child(node, "limit"@) !is Null || items(
        child(relation, "joins"@),
    ).len() > 0 {
        Err(unsupported_failure("DELETE join/using/order/limit"@))
    } else {
        match factor_name_of(child(relation, "relation"@)) {
            Err(error) => Err(error),
            Ok(name) => match table_of(database, name) {
                Err(error) => Err(error),
                Ok(table) => match deletions_from(
                    table,
                    node,
                    0,
                    Seq::empty(),
                    Seq::empty(),
                    caller,
                ) {
                    Err(error) => Err(error),
                    Ok((ids, output)) => Ok(
                        (
                            with_table(
                                database,
                                name,
                                TableModel { rows: rows_removed_from(table.rows, ids, 0), ..table },
                            ),
                            ResultModel { rows: output, affected: ids.len() as usize },
                        ),
                    ),
                },
            },
        }
    }
}

fn collect_deletions(table: &Table, node: &Datum, context: &AuthContext) -> (result: Result<(Vec<u64>, Vec<Datum>)>)
    ensures
        (match result {
            Ok((ids, output)) => Ok((ids@, output.deep_view())),
            Err(error) => Err(error@),
        }) == deletions_from(
            table.deep_view(),
            node@,
            0,
            Seq::empty(),
            Seq::empty(),
            context.deep_view(),
        ),
{
    let mut ids: Vec<u64> = Vec::new();
    let mut output: Vec<Datum> = no_items();
    let ghost model = table.deep_view();
    let mut i: usize = 0;
    while i < table.rows.len()
        invariant
            i <= model.rows.len(),
            model == table.deep_view(),
            deletions_from(model, node@, 0, Seq::empty(), Seq::empty(), context.deep_view())
                == deletions_from(
                model,
                node@,
                i as int,
                ids@,
                output.deep_view(),
                context.deep_view(),
            ),
        decreases model.rows.len() - i,
    {
        let row = table.rows.value_at(i);
        assert(model.rows[i as int].1 == row.deep_view());
        if reaches(table, node.child("selection"), "DELETE", &row.values, context)? {
            output = add_returned(node.child("returning"), &row.values, output, context)?;
            ids.push(row.id);
        }
        i += 1;
    }
    Ok((ids, output))
}

fn remove_rows(start: OrdMap<StableId, Row>, ids: &Vec<u64>) -> (result: OrdMap<StableId, Row>)
    ensures
        result@ == rows_removed_from(start@, ids@, 0),
{
    let ghost first = start@;
    let mut rows = start;
    let mut i: usize = 0;
    while i < ids.len()
        invariant
            i <= ids.len(),
            rows_removed_from(first, ids@, 0) == rows_removed_from(rows@, ids@, i as int),
        decreases ids.len() - i,
    {
        let _removed = rows.remove(&ids[i]);
        i += 1;
    }
    rows
}

/// Runs DELETE.
pub fn delete(database: Database, node: &Datum, context: &AuthContext) -> (result: Result<(Database, SqlResult)>)
    ensures
        outcome(result) == deleted(database.deep_view(), node@, context.deep_view()),
{
    let relation = node.child("from").item(0);
    if node.child("from").count() != 1 || !node.child("using").is_null() || node.child("tables").count() > 0
        || node.child("order_by").count() > 0 || !node.child("limit").is_null() || relation.child(
        "joins",
    ).count() > 0 {
        return Err(unsupported("DELETE join/using/order/limit"));
    }
    let name = factor_name(relation.child("relation"))?;
    let table = database.table(name.as_str())?.replica();
    let (ids, output) = collect_deletions(&table, node, context)?;
    let mut table = table;
    table.rows = remove_rows(table.rows, &ids);
    let mut database = database;
    database.catalog.insert(name, table);
    Ok((database, SqlResult { rows: output, affected: ids.len() }))
}

} // verus!
