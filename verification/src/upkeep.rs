//! What every published state keeps: maps in order, identities of their own below the counters, and
//! names of columns of their own.

use vstd::prelude::*;
use crate::alter::{
    catalog_renamed, catalog_retargeted, column_added, column_altered, column_detached_from, kept_from,
    key_set_renamed_from, operation_applied, operations_applied_from, other_column, other_key_entry, row_filled,
    rows_filled_from, rows_without_from, table_without, with_table,
};
use crate::ast::{batch_of, factor_name_of, first_of, ident_name, statements_of, table_name_of, words_of};
use crate::catalog::{
    AuthContext, Column, Database, ForeignKey, FunctionParameter, Identity, Policy, SqlFunction, Table,
    column_from, column_from_range, empty_database, has_column, local_name, no_result, table_of, AuthModel, CellsModel,
    ColumnModel, DatabaseModel, ForeignKeyModel, FunctionModel, ReferentialAction, ResultModel, RowModel, TableModel,
};
use crate::codec::{canonical_expr, canonical_exprs, Codec};
use crate::columns::{allocated, options_applied_from, option_applied, plain_column};
use crate::deferred::{keys_added_from, statement_untimed, table_timed, timed_created, TimedKeysModel};
use crate::calls::{
    all_substituted, bindings_from, body_run_from, body_step, body_step_done, call_committed, call_prepared, called,
    nested_call_of, CALL_DEPTH,
};
use crate::definitions::{
    actions_keep_definitions, mutation_steps, plain_catalog, plain_name, plain_sources, plain_statement,
    same_definitions, same_definitions_chain, sources_are_plain,
};
use crate::depend::{
    del_length, dependents_of, detached_from, other_keys_from, schema_changed, table_set_from, tables_detached_from,
    without_dependents, without_functions_from, without_tables_from, without_views_from,
};
use crate::dml::{
    assigned_from, completed_from, conflict_keys_of, conflict_of, conflicting_from, deleted, deletions_from,
    excluded_from, given_from, insert_rows, insert_target, inserted, new_cells, returned, row_inserted, row_updated,
    rows_inserted_from, rows_put_from, rows_removed_from, updated, updates_from, upserted_from, InsertionModel,
};
use crate::encode::Encode;
use crate::error::Failure;
use crate::execute::{
    batch_executed, migration_applied, statement_done, statements_done_from, text_done, texts_done_from,
};
use crate::identities::conflict_is_a_row;
use crate::json::Json;
use crate::layout::layout_value;
use crate::ordmap::{
    del, del_keeps_order, get, has_key, place_from, place_from_range, put, put_keeps_order, sorted, spot_from,
    spot_from_range, Ranked,
};
use crate::projection::{bare, bare_table};
use crate::referential::{
    action_for, cells_acted_from, change_applied, changes_applied, changes_between, full_key, key_reacted,
    keys_reacted_from, new_key_of, referring_from, row_acted, rows_acted_from, rows_deleted_from, sources_from,
    ChangeModel, CASCADE_LIMIT,
};
use crate::replay::{sound, sound_table};
use crate::rules::{assigned, referred_key, regenerated, regenerated_from};
use crate::statement::{
    column_declared, columns_declared_from, constraint_declared, constraints_declared_from, plain_table,
    statement_executed, table_created, table_declared, views_dropped_from,
};
use crate::value::{child, flag, item, items, payload, tag};

verus! {

/// Rows by their identities.
pub type Rows = Seq<(u64, RowModel)>;

/// Tables by their names.
pub type Tables = Seq<(Seq<char>, TableModel)>;

/// Whether columns have names and identities of their own, the identities below `next`.
pub open spec fn columns_kept(columns: Seq<ColumnModel>, next: u64) -> bool {
    &&& forall|p: int| 0 <= p < columns.len() ==> (#[trigger] columns[p]).id < next
    &&& forall|p: int, q: int|
        #![trigger columns[p], columns[q]]
        0 <= p < q < columns.len() ==> columns[p].id != columns[q].id && columns[p].name != columns[q].name
}

/// Whether rows stand in order under their own identities, which are below `next`, with their cells in
/// order.
pub open spec fn rows_kept(rows: Rows, next: u64) -> bool {
    &&& sorted(rows)
    &&& forall|i: int|
        0 <= i < rows.len() ==> (#[trigger] rows[i]).0 == rows[i].1.id && rows[i].0 < next && sorted(rows[i].1.values)
}

/// Whether a table keeps its columns, keys and rows in order, with identities below the counters.
pub open spec fn table_kept(table: TableModel, next: u64) -> bool {
    &&& table.id < next
    &&& columns_kept(table.columns, next)
    &&& sorted(table.deferred_unique)
    &&& rows_kept(table.rows, table.next_row_id)
}

/// Whether tables stand in order under names without a schema in front, each with an identity of its own.
pub open spec fn tables_kept(catalog: Tables, next: u64) -> bool {
    &&& sorted(catalog)
    &&& plain_catalog(catalog)
    &&& forall|i: int| 0 <= i < catalog.len() ==> table_kept((#[trigger] catalog[i]).1, next)
    &&& forall|i: int, j: int|
        #![trigger catalog[i], catalog[j]]
        0 <= i < j < catalog.len() ==> catalog[i].1.id != catalog[j].1.id
}

/// Whether a state is well kept: its maps are in order, its identities are given once and below the
/// counters, and no table has the name of a schema inside its own.
pub open spec fn well_kept(database: DatabaseModel) -> bool {
    &&& tables_kept(database.catalog, database.next_object_id)
    &&& sorted(database.views)
    &&& sorted(database.functions)
    &&& sorted(database.migrations)
}

/// A well kept state is well formed.
pub proof fn well_kept_is_sound(database: DatabaseModel)
    requires
        well_kept(database),
    ensures
        sound(database),
{
    assert forall|i: int| 0 <= i < database.catalog.len() implies sound_table(
        (#[trigger] database.catalog[i]).1,
    ) by {
        assert(table_kept(database.catalog[i].1, database.next_object_id));
    }
}

/// The empty state is well kept.
pub proof fn empty_is_well_kept()
    ensures
        well_kept(empty_database()),
{
}

// ---------------------------------------------------------------------------------------------
// Rows and cells
// ---------------------------------------------------------------------------------------------

proof fn row_put_kept(rows: Rows, next: u64, row: RowModel)
    requires
        rows_kept(rows, next),
        row.id < next,
        sorted(row.values),
    ensures
        rows_kept(put(rows, row.id, row), next),
{
    put_keeps_order(rows, row.id, row);
    place_from_range(rows, row.id, 0);
    let place = place_from(rows, row.id, 0);
    let after = put(rows, row.id, row);
    assert forall|i: int| 0 <= i < after.len() implies (#[trigger] after[i]).0 == after[i].1.id && after[i].0 < next
        && sorted(after[i].1.values) by {
        if i != place {
            let source = if after.len() == rows.len() || i < place {
                i
            } else {
                i - 1
            };
            assert(after[i] == rows[source]);
        }
    }
}

proof fn row_del_kept(rows: Rows, next: u64, id: u64)
    requires
        rows_kept(rows, next),
    ensures
        rows_kept(del(rows, id), next),
{
    del_keeps_order(rows, id);
    spot_from_range(rows, id, 0);
    let spot = spot_from(rows, id, 0);
    let after = del(rows, id);
    assert forall|i: int| 0 <= i < after.len() implies (#[trigger] after[i]).0 == after[i].1.id && after[i].0 < next
        && sorted(after[i].1.values) by {
        if spot < rows.len() {
            let source = if i < spot {
                i
            } else {
                i + 1
            };
            assert(after[i] == rows[source]);
        } else {
            assert(after[i] == rows[i]);
        }
    }
}

/// Whether rows of a list have identities below `next` and their cells in order.
spec fn listed_kept(list: Seq<RowModel>, next: u64) -> bool {
    forall|k: int| 0 <= k < list.len() ==> (#[trigger] list[k]).id < next && sorted(list[k].values)
}

proof fn rows_put_kept(rows: Rows, changed: Seq<RowModel>, from: int, next: u64)
    requires
        0 <= from,
        rows_kept(rows, next),
        listed_kept(changed, next),
    ensures
        rows_kept(rows_put_from(rows, changed, from), next),
    decreases changed.len() - from,
{
    if from < changed.len() {
        row_put_kept(rows, next, changed[from]);
        rows_put_kept(put(rows, changed[from].id, changed[from]), changed, from + 1, next);
    }
}

proof fn rows_removed_kept(rows: Rows, ids: Seq<u64>, from: int, next: u64)
    requires
        0 <= from,
        rows_kept(rows, next),
    ensures
        rows_kept(rows_removed_from(rows, ids, from), next),
    decreases ids.len() - from,
{
    if from < ids.len() {
        row_del_kept(rows, next, ids[from]);
        rows_removed_kept(del(rows, ids[from]), ids, from + 1, next);
    }
}

proof fn given_in_order(
    columns: Seq<ColumnModel>,
    target: Seq<Seq<char>>,
    exprs: Json,
    from: int,
    cells: CellsModel,
    caller: AuthModel,
)
    requires
        sorted(cells),
    ensures
        given_from(columns, target, exprs, from, cells, caller) matches Ok(done) ==> sorted(done),
    decreases target.len() - from,
{
    if 0 <= from < target.len() && from < items(exprs).len() {
        given_in_order(columns, target, exprs, from + 1, cells, caller);
        match crate::eval::evaluated(items(exprs)[from], Seq::empty(), caller) {
            Ok(value) => {
                put_keeps_order(cells, target[from], value);
                given_in_order(columns, target, exprs, from + 1, put(cells, target[from], value), caller);
            },
            Err(_) => {},
        }
    }
}

proof fn completed_in_order(
    columns: Seq<ColumnModel>,
    from: int,
    cells: CellsModel,
    row_id: u64,
    caller: AuthModel,
)
    requires
        sorted(cells),
    ensures
        completed_from(columns, from, cells, row_id, caller) matches Ok(done) ==> sorted(done),
    decreases columns.len() - from,
{
    if 0 <= from < columns.len() {
        completed_in_order(columns, from + 1, cells, row_id, caller);
        match crate::dml::missing_value(columns[from], row_id, caller) {
            Ok(value) => {
                put_keeps_order(cells, columns[from].name, value);
                completed_in_order(columns, from + 1, put(cells, columns[from].name, value), row_id, caller);
            },
            Err(_) => {},
        }
    }
}

proof fn regenerated_in_order(
    columns: Seq<ColumnModel>,
    from: int,
    base: CellsModel,
    row: CellsModel,
    caller: AuthModel,
)
    requires
        sorted(row),
    ensures
        regenerated_from(columns, from, base, row, caller) matches Ok(done) ==> sorted(done),
    decreases columns.len() - from,
{
    if 0 <= from < columns.len() {
        match columns[from].generated {
            None => {
                regenerated_in_order(columns, from + 1, base, row, caller);
            },
            Some(expr) => match crate::eval::evaluated(expr, base, caller) {
                Ok(value) => {
                    put_keeps_order(row, columns[from].name, value);
                    regenerated_in_order(columns, from + 1, base, put(row, columns[from].name, value), caller);
                },
                Err(_) => {},
            },
        }
    }
}

proof fn assigned_in_order(
    columns: Seq<ColumnModel>,
    row: CellsModel,
    name: Seq<char>,
    expr: Json,
    scope: CellsModel,
    caller: AuthModel,
)
    requires
        sorted(row),
    ensures
        assigned(columns, row, name, expr, scope, caller) matches Ok(done) ==> sorted(done),
{
    match crate::rules::default_of(
        match crate::catalog::column_named(columns, name) {
            Some(column) => column.default,
            None => None,
        },
        caller,
    ) {
        Ok(value) => {
            put_keeps_order(row, name, value);
        },
        Err(_) => {},
    }
    match crate::eval::evaluated(expr, scope, caller) {
        Ok(value) => {
            put_keeps_order(row, name, value);
        },
        Err(_) => {},
    }
}

proof fn assignments_in_order(
    columns: Seq<ColumnModel>,
    assignments: Json,
    from: int,
    cells: CellsModel,
    scope: CellsModel,
    caller: AuthModel,
)
    requires
        sorted(cells),
    ensures
        assigned_from(columns, assignments, from, cells, scope, caller) matches Ok(done) ==> sorted(done),
    decreases items(assignments).len() - from,
{
    if 0 <= from < items(assignments).len() {
        let assignment = items(assignments)[from];
        let name = ident_name(item(child(assignment, "id"@), 0));
        assigned_in_order(columns, cells, name, child(assignment, "value"@), scope, caller);
        match assigned(columns, cells, name, child(assignment, "value"@), scope, caller) {
            Ok(next) => {
                assignments_in_order(columns, assignments, from + 1, next, scope, caller);
            },
            Err(_) => {},
        }
    }
}

proof fn upserted_in_order(
    table: TableModel,
    assignments: Json,
    from: int,
    cells: CellsModel,
    scope: CellsModel,
    caller: AuthModel,
)
    requires
        sorted(cells),
    ensures
        upserted_from(table, assignments, from, cells, scope, caller) matches Ok(done) ==> sorted(done),
    decreases items(assignments).len() - from,
{
    if 0 <= from < items(assignments).len() {
        let assignment = items(assignments)[from];
        let name = ident_name(item(child(assignment, "id"@), 0));
        assigned_in_order(table.columns, cells, name, child(assignment, "value"@), scope, caller);
        match assigned(table.columns, cells, name, child(assignment, "value"@), scope, caller) {
            Ok(next) => {
                upserted_in_order(table, assignments, from + 1, next, scope, caller);
            },
            Err(_) => {},
        }
    }
}

proof fn acted_in_order(
    action: ReferentialAction,
    columns: Seq<ColumnModel>,
    names: Seq<Seq<char>>,
    from: int,
    cells: CellsModel,
    new_key: Option<Seq<Json>>,
    caller: AuthModel,
)
    requires
        sorted(cells),
    ensures
        cells_acted_from(action, columns, names, from, cells, new_key, caller) matches Ok(done) ==> sorted(done),
    decreases names.len() - from,
{
    if 0 <= from < names.len() {
        match crate::referential::action_value(action, columns, names[from], new_key, from, caller) {
            Ok(value) => {
                put_keeps_order(cells, names[from], value);
                acted_in_order(
                    action,
                    columns,
                    names,
                    from + 1,
                    put(cells, names[from], value),
                    new_key,
                    caller,
                );
            },
            Err(_) => {},
        }
    }
}

// ---------------------------------------------------------------------------------------------
// Mutations of a table
// ---------------------------------------------------------------------------------------------

proof fn new_cells_in_order(table: TableModel, target: Seq<Seq<char>>, exprs: Json, caller: AuthModel)
    ensures
        new_cells(table, target, exprs, caller) matches Ok(cells) ==> sorted(cells),
{
    given_in_order(table.columns, target, exprs, 0, Seq::empty(), caller);
    match given_from(table.columns, target, exprs, 0, Seq::empty(), caller) {
        Ok(given) => {
            completed_in_order(table.columns, 0, given, table.next_row_id, caller);
            match completed_from(table.columns, 0, given, table.next_row_id, caller) {
                Ok(complete) => {
                    regenerated_in_order(table.columns, 0, complete, complete, caller);
                },
                Err(_) => {},
            }
        },
        Err(_) => {},
    }
}

proof fn inserted_row_kept(
    state: InsertionModel,
    target: Seq<Seq<char>>,
    exprs: Json,
    keys: Seq<Seq<Seq<char>>>,
    conflict: Json,
    returning: Json,
    caller: AuthModel,
    next: u64,
)
    requires
        table_kept(state.table, next),
    ensures
        row_inserted(state, target, exprs, keys, conflict, returning, caller) matches Ok(done) ==> table_kept(
            done.table,
            next,
        ) && done.table.id == state.table.id,
{
    let table = state.table;
    new_cells_in_order(table, target, exprs, caller);
    match new_cells(table, target, exprs, caller) {
        Ok(cells) => {
            match conflicting_from(table.rows, 0, cells, keys) {
                Some(row) => {
                    conflict_is_a_row(table.rows, 0, cells, keys);
                    let at = choose|at: int| 0 <= at < table.rows.len() && (#[trigger] table.rows[at]).1 == row;
                    assert(table.rows[at].1.id < table.next_row_id);
                    let update = payload(child(conflict, "action"@));
                    let scope = excluded_from(row.values, cells, 0);
                    upserted_in_order(table, child(update, "assignments"@), 0, row.values, scope, caller);
                    match upserted_from(table, child(update, "assignments"@), 0, row.values, scope, caller) {
                        Ok(changed) => {
                            regenerated_in_order(table.columns, 0, changed, changed, caller);
                            match regenerated(table.columns, changed, caller) {
                                Ok(values) => match crate::depend::next_count(row.version) {
                                    Ok(version) => {
                                        row_put_kept(
                                            table.rows,
                                            table.next_row_id,
                                            RowModel { version, values, ..row },
                                        );
                                    },
                                    Err(_) => {},
                                },
                                Err(_) => {},
                            }
                        },
                        Err(_) => {},
                    }
                },
                None => {
                    match crate::depend::next_count(table.next_row_id) {
                        Ok(later) => {
                            let row = RowModel { id: table.next_row_id, version: 1, values: cells };
                            assert(rows_kept(table.rows, later));
                            row_put_kept(table.rows, later, row);
                        },
                        Err(_) => {},
                    }
                },
            }
        },
        Err(_) => {},
    }
}

proof fn insertion_kept(
    state: InsertionModel,
    target: Seq<Seq<char>>,
    input: Json,
    from: int,
    keys: Seq<Seq<Seq<char>>>,
    conflict: Json,
    returning: Json,
    caller: AuthModel,
    next: u64,
)
    requires
        table_kept(state.table, next),
    ensures
        rows_inserted_from(state, target, input, from, keys, conflict, returning, caller) matches Ok(done)
            ==> table_kept(done.table, next) && done.table.id == state.table.id,
    decreases items(input).len() - from,
{
    if 0 <= from < items(input).len() {
        let exprs = items(input)[from];
        inserted_row_kept(state, target, exprs, keys, conflict, returning, caller, next);
        match row_inserted(state, target, exprs, keys, conflict, returning, caller) {
            Ok(later) => {
                insertion_kept(later, target, input, from + 1, keys, conflict, returning, caller, next);
            },
            Err(_) => {},
        }
    }
}

proof fn updates_kept(
    table: TableModel,
    node: Json,
    from: int,
    changed: Seq<RowModel>,
    output: Seq<Json>,
    caller: AuthModel,
)
    requires
        rows_kept(table.rows, table.next_row_id),
        listed_kept(changed, table.next_row_id),
    ensures
        updates_from(table, node, from, changed, output, caller) matches Ok(found) ==> listed_kept(
            found.0,
            table.next_row_id,
        ),
    decreases table.rows.len() - from,
{
    if 0 <= from < table.rows.len() {
        let row = table.rows[from].1;
        assert(table.rows[from].0 == row.id);
        updates_kept(table, node, from + 1, changed, output, caller);
        assignments_in_order(table.columns, child(node, "assignments"@), 0, row.values, row.values, caller);
        match assigned_from(table.columns, child(node, "assignments"@), 0, row.values, row.values, caller) {
            Ok(cells) => {
                regenerated_in_order(table.columns, 0, cells, cells, caller);
            },
            Err(_) => {},
        }
        match row_updated(table, child(node, "assignments"@), row, caller) {
            Ok(next) => {
                assert(listed_kept(changed.push(next), table.next_row_id));
                match returned(child(node, "returning"@), next.values, output, caller) {
                    Ok(more) => {
                        updates_kept(table, node, from + 1, changed.push(next), more, caller);
                    },
                    Err(_) => {},
                }
            },
            Err(_) => {},
        }
    }
}

// ---------------------------------------------------------------------------------------------
// Tables of a state
// ---------------------------------------------------------------------------------------------

/// Whether no table but the one of this name has an identity.
pub open spec fn only_id(catalog: Tables, name: Seq<char>, id: u64) -> bool {
    forall|i: int| 0 <= i < catalog.len() && (#[trigger] catalog[i]).0 != name ==> catalog[i].1.id != id
}

proof fn table_put_kept(catalog: Tables, next: u64, name: Seq<char>, table: TableModel)
    requires
        tables_kept(catalog, next),
        plain_name(name),
        table_kept(table, next),
        only_id(catalog, name, table.id),
    ensures
        tables_kept(put(catalog, name, table), next),
{
    put_keeps_order(catalog, name, table);
    place_from_range(catalog, name, 0);
    let place = place_from(catalog, name, 0);
    let after = put(catalog, name, table);
    let same = after.len() == catalog.len();
    assert forall|i: int| 0 <= i < after.len() && i != place implies (#[trigger] after[i]) == catalog[if same || i < place {
        i
    } else {
        i - 1
    }] && after[i].0 != name by {
        let source = if same || i < place {
            i
        } else {
            i - 1
        };
        assert(after[i] == catalog[source]);
        assert(after[place].0 == name);
        Ranked::irreflexive(name);
        if i < place {
            assert(after[i].0.before(after[place].0));
        } else {
            assert(after[place].0.before(after[i].0));
        }
    }
    assert(after[place] == (name, table));
    assert forall|i: int| 0 <= i < after.len() implies table_kept((#[trigger] after[i]).1, next) && plain_name(
        after[i].0,
    ) by {}
    assert forall|i: int, j: int|
        #![trigger after[i], after[j]]
        0 <= i < j < after.len() implies after[i].1.id != after[j].1.id by {
        if i != place && j != place {
            let a = if same || i < place {
                i
            } else {
                i - 1
            };
            let b = if same || j < place {
                j
            } else {
                j - 1
            };
            assert(after[i] == catalog[a] && after[j] == catalog[b]);
        } else if i != place {
            let a = if same || i < place {
                i
            } else {
                i - 1
            };
            assert(after[i] == catalog[a]);
        } else {
            let b = if same || j < place {
                j
            } else {
                j - 1
            };
            assert(after[j] == catalog[b]);
        }
    }
}

/// The table of a name has its identity alone, and is kept.
pub proof fn table_found(catalog: Tables, next: u64, name: Seq<char>, table: TableModel)
    requires
        tables_kept(catalog, next),
        get(catalog, name) == Some(table),
    ensures
        table_kept(table, next),
        only_id(catalog, name, table.id),
        plain_name(name),
{
    spot_from_range(catalog, name, 0);
    let spot = spot_from(catalog, name, 0);
    assert(catalog[spot] == (name, table));
    assert forall|i: int| 0 <= i < catalog.len() && (#[trigger] catalog[i]).0 != name implies catalog[i].1.id
        != table.id by {
        if i < spot {
            assert(catalog[i].1.id != catalog[spot].1.id);
        } else {
            assert(catalog[spot].1.id != catalog[i].1.id);
        }
    }
}

/// Putting a kept table back under its name keeps the state.
proof fn table_back_kept(database: DatabaseModel, name: Seq<char>, table: TableModel, after: TableModel)
    requires
        well_kept(database),
        plain_name(name),
        table_of(database, name) == Ok::<TableModel, Failure>(table),
        table_kept(after, database.next_object_id),
        after.id == table.id,
    ensures
        well_kept(with_table(database, name, after)),
{
    table_found(database.catalog, database.next_object_id, name, table);
    table_put_kept(database.catalog, database.next_object_id, name, after);
}

proof fn table_del_kept(catalog: Tables, next: u64, name: Seq<char>)
    requires
        tables_kept(catalog, next),
    ensures
        tables_kept(del(catalog, name), next),
        forall|i: int|
            0 <= i < del(catalog, name).len() ==> (#[trigger] del(catalog, name)[i]).0 != name && exists|j: int|
                0 <= j < catalog.len() && catalog[j] == del(catalog, name)[i],
{
    del_keeps_order(catalog, name);
    spot_from_range(catalog, name, 0);
    let spot = spot_from(catalog, name, 0);
    let after = del(catalog, name);
    assert forall|i: int| 0 <= i < after.len() implies (#[trigger] after[i]) == catalog[if i < spot {
        i
    } else {
        i + 1
    }] && after[i].0 != name by {
        if spot < catalog.len() {
            let source = if i < spot {
                i
            } else {
                i + 1
            };
            assert(after[i] == catalog[source]);
            Ranked::irreflexive(name);
            if source < spot {
                assert(catalog[source].0.before(catalog[spot].0));
            } else {
                assert(catalog[spot].0.before(catalog[source].0));
            }
        }
    }
    assert forall|i: int, j: int|
        #![trigger after[i], after[j]]
        0 <= i < j < after.len() implies after[i].1.id != after[j].1.id by {
        let a = if i < spot {
            i
        } else {
            i + 1
        };
        let b = if j < spot {
            j
        } else {
            j + 1
        };
        assert(after[i] == catalog[a] && after[j] == catalog[b]);
    }
}

/// Whether tables are the same but for their foreign keys.
spec fn keys_aside(a: Tables, b: Tables) -> bool {
    a.len() == b.len() && (forall|i: int|
        #![trigger b[i]]
        0 <= i < a.len() ==> b[i].0 == a[i].0 && b[i].1 == (TableModel {
            foreign_keys: b[i].1.foreign_keys,
            ..a[i].1
        }))
}

proof fn keys_aside_kept(a: Tables, b: Tables, next: u64)
    requires
        tables_kept(a, next),
        keys_aside(a, b),
    ensures
        tables_kept(b, next),
{
    assert forall|i: int, j: int|
        #![trigger b[i], b[j]]
        0 <= i < j < b.len() implies b[i].0.before(b[j].0) && b[i].1.id != b[j].1.id by {
        assert(a[i].0.before(a[j].0));
        assert(a[i].1.id != a[j].1.id);
    }
    assert forall|i: int| 0 <= i < b.len() implies table_kept((#[trigger] b[i]).1, next) && plain_name(b[i].0) by {
        assert(table_kept(a[i].1, next));
        assert(plain_name(a[i].0));
    }
}

proof fn detaching_is_aside(
    catalog: Tables,
    from: int,
    dropped: Seq<(Seq<char>, ())>,
    name: Seq<char>,
    cascade: bool,
)
    ensures
        detached_from(catalog, from, dropped, name, cascade) matches Ok(after) ==> keys_aside(catalog, after),
    decreases catalog.len() - from,
{
    if 0 <= from < catalog.len() {
        detaching_is_aside(catalog, from + 1, dropped, name, cascade);
        let table = catalog[from].1;
        let kept = other_keys_from(table.foreign_keys, 0, Seq::empty(), name);
        let changed = catalog.update(from, (catalog[from].0, (TableModel { foreign_keys: kept, ..table })));
        detaching_is_aside(changed, from + 1, dropped, name, cascade);
        match detached_from(changed, from + 1, dropped, name, cascade) {
            Ok(after) => {
                assert(keys_aside(catalog, changed));
                aside_chain(catalog, changed, after);
            },
            Err(_) => {},
        }
    }
}

proof fn aside_chain(a: Tables, b: Tables, c: Tables)
    requires
        keys_aside(a, b),
        keys_aside(b, c),
    ensures
        keys_aside(a, c),
{
    assert forall|i: int|
        #![trigger c[i]]
        0 <= i < a.len() implies c[i].0 == a[i].0 && c[i].1 == (TableModel {
        foreign_keys: c[i].1.foreign_keys,
        ..a[i].1
    }) by {
        assert(b[i].0 == a[i].0);
    }
}

proof fn column_detaching_is_aside(
    catalog: Tables,
    from: int,
    name: Seq<char>,
    column: Seq<char>,
    primary_key: Seq<Seq<char>>,
    cascade: bool,
)
    ensures
        column_detached_from(catalog, from, name, column, primary_key, cascade) matches Ok(after) ==> keys_aside(
            catalog,
            after,
        ),
    decreases catalog.len() - from,
{
    if 0 <= from < catalog.len() {
        column_detaching_is_aside(catalog, from + 1, name, column, primary_key, cascade);
        let table = catalog[from].1;
        let keys = crate::alter::kept(
            table.foreign_keys,
            crate::alter::independent_key(name, column, primary_key),
        );
        let changed = catalog.update(from, (catalog[from].0, (TableModel { foreign_keys: keys, ..table })));
        column_detaching_is_aside(changed, from + 1, name, column, primary_key, cascade);
        match column_detached_from(changed, from + 1, name, column, primary_key, cascade) {
            Ok(after) => {
                assert(keys_aside(catalog, changed));
                aside_chain(catalog, changed, after);
            },
            Err(_) => {},
        }
    }
}

// ---------------------------------------------------------------------------------------------
// Dependents
// ---------------------------------------------------------------------------------------------

/// Whether a state has the tables, the migrations and the counter of another, and views and functions in
/// order where that one has.
spec fn rest_kept(a: DatabaseModel, b: DatabaseModel) -> bool {
    &&& b.catalog == a.catalog
    &&& b.migrations == a.migrations
    &&& b.next_object_id == a.next_object_id
    &&& sorted(a.views) ==> sorted(b.views)
    &&& sorted(a.functions) ==> sorted(b.functions)
}

proof fn functions_removed_kept(database: DatabaseModel, names: Seq<Seq<char>>, from: int)
    ensures
        rest_kept(database, without_functions_from(database, names, from)),
    decreases names.len() - from,
{
    if 0 <= from < names.len() {
        if sorted(database.functions) {
            del_keeps_order(database.functions, names[from]);
        }
        functions_removed_kept(
            DatabaseModel { functions: del(database.functions, names[from]), ..database },
            names,
            from + 1,
        );
    }
}

/// Removing what depends on a relation leaves the tables alone.
pub proof fn dependents_leave_tables(database: DatabaseModel, relation: Seq<char>, cascade: bool)
    ensures
        without_dependents(database, relation, cascade) matches Ok(next) ==> next.catalog == database.catalog,
{
    dependents_removed_kept(database, relation, cascade);
}

proof fn dependents_removed_kept(database: DatabaseModel, relation: Seq<char>, cascade: bool)
    ensures
        without_dependents(database, relation, cascade) matches Ok(next) ==> rest_kept(database, next),
    decreases database.views.len(), 1int, 0int,
{
    match dependents_of(database, relation) {
        Ok((views, functions)) => {
            views_removed_kept(database, views, 0);
            match without_views_from(database, views, 0) {
                Ok(next) => {
                    functions_removed_kept(next, functions, 0);
                },
                Err(_) => {},
            }
        },
        Err(_) => {},
    }
}

proof fn views_removed_kept(database: DatabaseModel, names: Seq<Seq<char>>, from: int)
    ensures
        without_views_from(database, names, from) matches Ok(next) ==> rest_kept(database, next),
    decreases database.views.len(), 0int, names.len() - from,
{
    if 0 <= from < names.len() {
        if !has_key(database.views, names[from]) {
            views_removed_kept(database, names, from + 1);
        } else {
            del_length(database.views, names[from]);
            if sorted(database.views) {
                del_keeps_order(database.views, names[from]);
            }
            let fewer = DatabaseModel { views: del(database.views, names[from]), ..database };
            dependents_removed_kept(fewer, names[from], true);
            match without_dependents(fewer, names[from], true) {
                Ok(next) => {
                    if next.views.len() < database.views.len() {
                        views_removed_kept(next, names, from + 1);
                    }
                },
                Err(_) => {},
            }
        }
    }
}

proof fn views_dropping_kept(database: DatabaseModel, names: Json, from: int, if_exists: bool, cascade: bool)
    ensures
        views_dropped_from(database, names, from, if_exists, cascade) matches Ok(next) ==> rest_kept(database, next),
    decreases items(names).len() - from,
{
    if 0 <= from < items(names).len() {
        match table_name_of(items(names)[from]) {
            Ok(name) => {
                dependents_removed_kept(database, name, cascade);
                match without_dependents(database, name, cascade) {
                    Ok(next) => {
                        if sorted(next.views) {
                            del_keeps_order(next.views, name);
                        }
                        views_dropping_kept(
                            DatabaseModel { views: del(next.views, name), ..next },
                            names,
                            from + 1,
                            if_exists,
                            cascade,
                        );
                    },
                    Err(_) => {},
                }
            },
            Err(_) => {},
        }
    }
}

proof fn tables_detached_kept(database: DatabaseModel, names: Seq<(Seq<char>, ())>, from: int, cascade: bool)
    requires
        well_kept(database),
    ensures
        tables_detached_from(database, names, from, cascade) matches Ok(next) ==> well_kept(next),
    decreases names.len() - from,
{
    if 0 <= from < names.len() {
        dependents_removed_kept(database, names[from].0, cascade);
        match without_dependents(database, names[from].0, cascade) {
            Ok(next) => {
                detaching_is_aside(next.catalog, 0, names, names[from].0, cascade);
                match detached_from(next.catalog, 0, names, names[from].0, cascade) {
                    Ok(catalog) => {
                        keys_aside_kept(next.catalog, catalog, next.next_object_id);
                        tables_detached_kept(DatabaseModel { catalog, ..next }, names, from + 1, cascade);
                    },
                    Err(_) => {},
                }
            },
            Err(_) => {},
        }
    }
}

proof fn tables_removed_kept(catalog: Tables, names: Seq<(Seq<char>, ())>, from: int, next: u64)
    requires
        tables_kept(catalog, next),
    ensures
        tables_kept(without_tables_from(catalog, names, from), next),
    decreases names.len() - from,
{
    if 0 <= from < names.len() {
        table_del_kept(catalog, next, names[from].0);
        tables_removed_kept(del(catalog, names[from].0), names, from + 1, next);
    }
}

// ---------------------------------------------------------------------------------------------
// Declarations
// ---------------------------------------------------------------------------------------------

proof fn tables_kept_later(catalog: Tables, next: u64, later: u64)
    requires
        tables_kept(catalog, next),
        next <= later,
    ensures
        tables_kept(catalog, later),
{
    assert forall|i: int| 0 <= i < catalog.len() implies table_kept((#[trigger] catalog[i]).1, later) by {
        assert(table_kept(catalog[i].1, next));
    }
}

/// Whether options leave the columns, the rows and the identities of a table alone, and the name and the
/// identity of a column.
pub proof fn options_aside(table: TableModel, column: ColumnModel, options: Json, from: int, adding: bool, caller: AuthModel)
    ensures
        options_applied_from(table, column, options, from, adding, caller) matches Ok((next, changed)) ==> next
            == (TableModel {
            primary_key: next.primary_key,
            unique: next.unique,
            foreign_keys: next.foreign_keys,
            checks: next.checks,
            ..table
        }) && changed.id == column.id && changed.name == column.name,
    decreases items(options).len() - from,
{
    if 0 <= from < items(options).len() {
        match option_applied(table, column, child(items(options)[from], "option"@), adding, caller) {
            Ok((next, changed)) => {
                options_aside(next, changed, options, from + 1, adding, caller);
            },
            Err(_) => {},
        }
    }
}

proof fn no_such_column(columns: Seq<ColumnModel>, name: Seq<char>)
    requires
        !has_column(columns, name),
    ensures
        forall|p: int| 0 <= p < columns.len() ==> (#[trigger] columns[p]).name != name,
{
    column_from_range(columns, name, 0);
}

proof fn column_pushed_kept(columns: Seq<ColumnModel>, column: ColumnModel, next: u64)
    requires
        columns_kept(columns, next),
        column.id == next,
        next < u64::MAX,
        !has_column(columns, column.name),
    ensures
        columns_kept(columns.push(column), (next + 1) as u64),
{
    no_such_column(columns, column.name);
    let after = columns.push(column);
    assert forall|p: int, q: int|
        #![trigger after[p], after[q]]
        0 <= p < q < after.len() implies after[p].id != after[q].id && after[p].name != after[q].name by {
        assert(after[p] == columns[p]);
        if q < columns.len() {
            assert(after[q] == columns[q]);
        }
    }
}

proof fn columns_declared_kept(database: DatabaseModel, table: TableModel, columns: Json, from: int, caller: AuthModel)
    requires
        table_kept(table, database.next_object_id),
    ensures
        columns_declared_from(database, table, columns, from, caller) matches Ok((next, declared)) ==> {
            &&& next == (DatabaseModel { next_object_id: next.next_object_id, ..database })
            &&& next.next_object_id >= database.next_object_id
            &&& table_kept(declared, next.next_object_id)
            &&& declared.id == table.id
        },
    decreases items(columns).len() - from,
{
    if 0 <= from < items(columns).len() {
        let def = items(columns)[from];
        let name = ident_name(child(def, "name"@));
        match allocated(database) {
            Ok((next, id)) => {
                let ty = crate::ast::data_type_of(child(def, "data_type"@));
                options_aside(table, plain_column(id, name, ty), child(def, "options"@), 0, false, caller);
                match column_declared(database, table, def, caller) {
                    Ok((later, declared)) => {
                        column_pushed_kept(table.columns, declared.columns.last(), database.next_object_id);
                        assert(declared.columns =~= table.columns.push(declared.columns.last()));
                        columns_declared_kept(later, declared, columns, from + 1, caller);
                    },
                    Err(_) => {},
                }
            },
            Err(_) => {},
        }
    }
}

proof fn constraints_aside(table: TableModel, constraints: Json, from: int)
    ensures
        constraints_declared_from(table, constraints, from) matches Ok(next) ==> next == (TableModel {
            primary_key: next.primary_key,
            unique: next.unique,
            foreign_keys: next.foreign_keys,
            checks: next.checks,
            ..table
        }),
    decreases items(constraints).len() - from,
{
    if 0 <= from < items(constraints).len() {
        match constraint_declared(table, items(constraints)[from]) {
            Ok(next) => {
                constraints_aside(next, constraints, from + 1);
            },
            Err(_) => {},
        }
    }
}

proof fn table_created_kept(database: DatabaseModel, node: Json, caller: AuthModel)
    requires
        well_kept(database),
        table_name_of(child(node, "name"@)) matches Ok(name) ==> plain_name(name),
    ensures
        table_created(database, node, caller) matches Ok((next, _)) ==> well_kept(next),
{
    match (table_name_of(child(node, "name"@)), allocated(database)) {
        (Ok(name), Ok((first, id))) => {
            if !has_key(database.catalog, name) {
                let start = plain_table(id, name);
                assert(table_kept(start, first.next_object_id));
                columns_declared_kept(first, start, child(node, "columns"@), 0, caller);
                match columns_declared_from(first, start, child(node, "columns"@), 0, caller) {
                    Ok((next, table)) => {
                        constraints_aside(table, child(node, "constraints"@), 0);
                        match table_declared(database, name, node, caller) {
                            Ok((last, declared)) => {
                                tables_kept_later(database.catalog, database.next_object_id, next.next_object_id);
                                assert(columns_kept(declared.columns, next.next_object_id)) by {
                                    assert forall|p: int| 0 <= p < declared.columns.len() implies (
                                    #[trigger] declared.columns[p]).id == table.columns[p].id && declared.columns[p].name
                                        == table.columns[p].name by {}
                                    assert forall|p: int, q: int|
                                        #![trigger declared.columns[p], declared.columns[q]]
                                        0 <= p < q < declared.columns.len() implies declared.columns[p].id
                                        != declared.columns[q].id && declared.columns[p].name
                                        != declared.columns[q].name by {
                                        assert(table.columns[p].id != table.columns[q].id);
                                    }
                                }
                                assert(only_id(database.catalog, name, declared.id)) by {
                                    assert forall|i: int|
                                        0 <= i < database.catalog.len() && (#[trigger] database.catalog[i]).0
                                            != name implies database.catalog[i].1.id != declared.id by {
                                        assert(table_kept(database.catalog[i].1, database.next_object_id));
                                    }
                                }
                                table_put_kept(database.catalog, next.next_object_id, name, declared);
                            },
                            Err(_) => {},
                        }
                    },
                    Err(_) => {},
                }
            }
        },
        _ => {},
    }
}

// ---------------------------------------------------------------------------------------------
// ALTER TABLE
// ---------------------------------------------------------------------------------------------

proof fn rows_filled_kept(rows: Rows, from: int, column: ColumnModel, caller: AuthModel, next: u64)
    requires
        rows_kept(rows, next),
        0 <= from,
    ensures
        rows_filled_from(rows, from, column, caller) matches Ok(after) ==> rows_kept(after, next),
    decreases rows.len() - from,
{
    if from < rows.len() {
        match row_filled(column, rows[from].1, caller) {
            Ok(row) => {
                let changed = rows.update(from, (rows[from].0, row));
                match crate::alter::initial_value(column, rows[from].1, caller) {
                    Ok(value) => {
                        put_keeps_order(rows[from].1.values, column.name, value);
                    },
                    Err(_) => {},
                }
                row_updated_kept(rows, from, row, next);
                rows_filled_kept(changed, from + 1, column, caller, next);
            },
            Err(_) => {},
        }
    }
}

proof fn row_updated_kept(rows: Rows, at: int, row: RowModel, next: u64)
    requires
        rows_kept(rows, next),
        0 <= at < rows.len(),
        row.id == rows[at].1.id,
        sorted(row.values),
    ensures
        rows_kept(rows.update(at, (rows[at].0, row)), next),
{
    let after = rows.update(at, (rows[at].0, row));
    assert forall|i: int, j: int|
        #![trigger after[i], after[j]]
        0 <= i < j < after.len() implies after[i].0.before(after[j].0) by {
        assert(rows[i].0.before(rows[j].0));
    }
    assert forall|i: int| 0 <= i < after.len() implies (#[trigger] after[i]).0 == after[i].1.id && after[i].0 < next
        && sorted(after[i].1.values) by {
        assert(rows[i].0 == rows[i].1.id);
    }
}

proof fn rows_without_kept(rows: Rows, from: int, column: Seq<char>, next: u64)
    requires
        rows_kept(rows, next),
        0 <= from,
    ensures
        rows_without_from(rows, from, column) matches Ok(after) ==> rows_kept(after, next),
    decreases rows.len() - from,
{
    if from < rows.len() {
        match crate::depend::next_count(rows[from].1.version) {
            Ok(version) => {
                let row = RowModel { version, values: del(rows[from].1.values, column), ..rows[from].1 };
                del_keeps_order(rows[from].1.values, column);
                row_updated_kept(rows, from, row, next);
                rows_without_kept(rows.update(from, (rows[from].0, row)), from + 1, column, next);
            },
            Err(_) => {},
        }
    }
}

proof fn columns_left_kept(
    list: Seq<ColumnModel>,
    from: int,
    done: Seq<ColumnModel>,
    keep: spec_fn(ColumnModel) -> bool,
    next: u64,
)
    requires
        0 <= from,
        columns_kept(list, next),
        columns_kept(done, next),
        forall|p: int, q: int|
            #![trigger done[p], list[q]]
            0 <= p < done.len() && from <= q < list.len() ==> done[p].id != list[q].id && done[p].name
                != list[q].name,
    ensures
        columns_kept(kept_from(list, from, done, keep), next),
    decreases list.len() - from,
{
    if from < list.len() {
        columns_left_kept(list, from + 1, done, keep, next);
        if keep(list[from]) {
            let more = done.push(list[from]);
            assert forall|p: int, q: int|
                #![trigger more[p], more[q]]
                0 <= p < q < more.len() implies more[p].id != more[q].id && more[p].name != more[q].name by {
                assert(more[p] == done[p]);
                if q < done.len() {
                    assert(more[q] == done[q]);
                } else {
                    assert(done[p].id != list[from].id);
                }
            }
            assert forall|p: int, q: int|
                #![trigger more[p], list[q]]
                0 <= p < more.len() && from + 1 <= q < list.len() implies more[p].id != list[q].id && more[p].name
                != list[q].name by {
                if p < done.len() {
                    assert(more[p] == done[p]);
                } else {
                    assert(list[from].id != list[q].id);
                }
            }
            columns_left_kept(list, from + 1, more, keep, next);
        }
    }
}

proof fn keys_left_in_order(
    list: Seq<(Seq<Seq<char>>, ())>,
    from: int,
    done: Seq<(Seq<Seq<char>>, ())>,
    keep: spec_fn((Seq<Seq<char>>, ())) -> bool,
)
    requires
        0 <= from,
        sorted(list),
        sorted(done),
        forall|p: int, q: int|
            #![trigger done[p], list[q]]
            0 <= p < done.len() && from <= q < list.len() ==> done[p].0.before(list[q].0),
    ensures
        sorted(kept_from(list, from, done, keep)),
    decreases list.len() - from,
{
    if from < list.len() {
        keys_left_in_order(list, from + 1, done, keep);
        if keep(list[from]) {
            let more = done.push(list[from]);
            assert forall|p: int, q: int|
                #![trigger more[p], more[q]]
                0 <= p < q < more.len() implies more[p].0.before(more[q].0) by {
                assert(more[p] == done[p]);
                if q < done.len() {
                    assert(more[q] == done[q]);
                } else {
                    assert(done[p].0.before(list[from].0));
                }
            }
            assert forall|p: int, q: int|
                #![trigger more[p], list[q]]
                0 <= p < more.len() && from + 1 <= q < list.len() implies more[p].0.before(list[q].0) by {
                if p < done.len() {
                    assert(more[p] == done[p]);
                } else {
                    assert(list[from].0.before(list[q].0));
                }
            }
            keys_left_in_order(list, from + 1, more, keep);
        }
    }
}

proof fn key_set_in_order(
    set: Seq<(Seq<Seq<char>>, ())>,
    at: int,
    done: Seq<(Seq<Seq<char>>, ())>,
    from: Seq<char>,
    to: Seq<char>,
)
    requires
        sorted(done),
    ensures
        sorted(key_set_renamed_from(set, at, done, from, to)),
    decreases set.len() - at,
{
    if 0 <= at < set.len() {
        let name = crate::alter::swapped_names(set[at].0, from, to);
        put_keeps_order(done, name, ());
        key_set_in_order(set, at + 1, put(done, name, ()), from, to);
    }
}

proof fn keys_added_in_order(set: Seq<(Seq<Seq<char>>, ())>, keys: Seq<Seq<Seq<char>>>, from: int)
    requires
        sorted(set),
    ensures
        sorted(keys_added_from(set, keys, from)),
    decreases keys.len() - from,
{
    if 0 <= from < keys.len() {
        put_keeps_order(set, keys[from], ());
        keys_added_in_order(put(set, keys[from], ()), keys, from + 1);
    }
}

proof fn table_without_kept(table: TableModel, name: Seq<char>, column: Seq<char>, cascade: bool, next: u64)
    requires
        table_kept(table, next),
    ensures
        table_without(table, name, column, cascade) matches Ok(after) ==> table_kept(after, next) && after.id == table.id,
{
    rows_without_kept(table.rows, 0, column, table.next_row_id);
    columns_left_kept(table.columns, 0, Seq::empty(), other_column(column), next);
    keys_left_in_order(table.deferred_unique, 0, Seq::empty(), other_key_entry(column));
}

proof fn column_renamed_kept(table: TableModel, name: Seq<char>, from: Seq<char>, to: Seq<char>, next: u64)
    requires
        table_kept(table, next),
        !has_column(table.columns, to),
    ensures
        table_kept(crate::alter::table_column_renamed(table, name, from, to), next),
{
    let after = crate::alter::table_column_renamed(table, name, from, to);
    no_such_column(table.columns, to);
    key_set_in_order(table.deferred_unique, 0, Seq::empty(), from, to);
    assert forall|p: int, q: int|
        #![trigger after.columns[p], after.columns[q]]
        0 <= p < q < after.columns.len() implies after.columns[p].id != after.columns[q].id && after.columns[p].name
        != after.columns[q].name by {
        assert(table.columns[p].id != table.columns[q].id);
        assert(table.columns[p].name != to && table.columns[q].name != to);
    }
    assert forall|p: int| 0 <= p < after.columns.len() implies (#[trigger] after.columns[p]).id < next by {
        assert(table.columns[p].id < next);
    }
    assert forall|i: int, j: int|
        #![trigger after.rows[i], after.rows[j]]
        0 <= i < j < after.rows.len() implies after.rows[i].0.before(after.rows[j].0) by {
        assert(table.rows[i].0.before(table.rows[j].0));
    }
    assert forall|i: int| 0 <= i < after.rows.len() implies (#[trigger] after.rows[i]).0 == after.rows[i].1.id
        && after.rows[i].0 < after.next_row_id && sorted(after.rows[i].1.values) by {
        let cells = table.rows[i].1.values;
        assert(table.rows[i].0 == table.rows[i].1.id);
        del_keeps_order(cells, from);
        let value = match get(cells, from) {
            Some(value) => value,
            None => Json::Null,
        };
        put_keeps_order(del(cells, from), to, value);
    }
}

proof fn column_altered_kept(table: TableModel, node: Json, next: u64)
    requires
        table_kept(table, next),
    ensures
        column_altered(table, node) matches Ok(after) ==> table_kept(after, next) && after.id == table.id,
{
    let name = ident_name(child(node, "column_name"@));
    column_from_range(table.columns, name, 0);
    let spot = column_from(table.columns, name, 0);
    match column_altered(table, node) {
        Ok(after) => {
            assert(after.columns[spot].id == table.columns[spot].id && after.columns[spot].name
                == table.columns[spot].name);
            assert forall|p: int| 0 <= p < after.columns.len() implies (#[trigger] after.columns[p]).id
                == table.columns[p].id && after.columns[p].name == table.columns[p].name by {}
            assert forall|p: int, q: int|
                #![trigger after.columns[p], after.columns[q]]
                0 <= p < q < after.columns.len() implies after.columns[p].id != after.columns[q].id
                && after.columns[p].name != after.columns[q].name by {
                assert(table.columns[p].id != table.columns[q].id);
            }
        },
        Err(_) => {},
    }
}

proof fn column_added_kept(database: DatabaseModel, table: TableModel, node: Json, caller: AuthModel)
    requires
        table_kept(table, database.next_object_id),
    ensures
        column_added(database, table, node, caller) matches Ok(Some((next, after))) ==> {
            &&& next == (DatabaseModel { next_object_id: next.next_object_id, ..database })
            &&& next.next_object_id >= database.next_object_id
            &&& table_kept(after, next.next_object_id)
            &&& after.id == table.id
        },
{
    let def = child(node, "column_def"@);
    let name = ident_name(child(def, "name"@));
    let ty = crate::ast::data_type_of(child(def, "data_type"@));
    match allocated(database) {
        Ok((next, id)) => {
            let start = plain_column(id, name, ty);
            options_aside(table, start, child(def, "options"@), 0, true, caller);
            match options_applied_from(table, start, child(def, "options"@), 0, true, caller) {
                Ok((changed, column)) => {
                    rows_filled_kept(changed.rows, 0, column, caller, changed.next_row_id);
                    if !has_column(table.columns, name) {
                        column_pushed_kept(table.columns, column, database.next_object_id);
                    }
                },
                Err(_) => {},
            }
        },
        Err(_) => {},
    }
}

/// Whether an operation gives a table no name with a schema in front.
pub open spec fn plain_operation(operation: Json) -> bool {
    tag(operation) == "RenameTable"@ ==> (table_name_of(child(payload(operation), "table_name"@)) matches Ok(to)
        ==> plain_name(to))
}

proof fn operation_kept(
    database: DatabaseModel,
    name: Seq<char>,
    table: TableModel,
    operation: Json,
    caller: AuthModel,
)
    requires
        well_kept(database),
        get(database.catalog, name) == Some(table),
        plain_operation(operation),
    ensures
        operation_applied(database, name, table, operation, caller) matches Ok(Some((next, changed, new_name)))
            ==> well_kept(with_table(next, new_name, changed)) && plain_name(new_name),
{
    let node = payload(operation);
    let n = database.next_object_id;
    table_found(database.catalog, n, name, table);
    match operation_applied(database, name, table, operation, caller) {
        Ok(Some((next, changed, new_name))) => {
            if tag(operation) == "AddColumn"@ {
                column_added_kept(database, table, node, caller);
                tables_kept_later(database.catalog, n, next.next_object_id);
                table_put_kept(database.catalog, next.next_object_id, name, changed);
            } else if tag(operation) == "RenameColumn"@ {
                let from = ident_name(child(node, "old_column_name"@));
                let to = ident_name(child(node, "new_column_name"@));
                column_renamed_kept(table, name, from, to, n);
                let catalog = catalog_renamed(database.catalog, name, from, to);
                assert(keys_aside(database.catalog, catalog));
                keys_aside_kept(database.catalog, catalog, n);
                assert(only_id(catalog, name, changed.id)) by {
                    assert forall|i: int|
                        0 <= i < catalog.len() && (#[trigger] catalog[i]).0 != name implies catalog[i].1.id
                        != changed.id by {
                        assert(database.catalog[i].0 != name);
                    }
                }
                table_put_kept(catalog, n, name, changed);
            } else if tag(operation) == "DropColumn"@ {
                let column = ident_name(child(node, "column_name"@));
                let cascade = flag(child(node, "cascade"@));
                dependents_removed_kept(database, name, cascade);
                let fewer = without_dependents(database, name, cascade)->Ok_0;
                column_detaching_is_aside(fewer.catalog, 0, name, column, table.primary_key, cascade);
                let catalog = column_detached_from(fewer.catalog, 0, name, column, table.primary_key, cascade)->Ok_0;
                keys_aside_kept(fewer.catalog, catalog, n);
                table_without_kept(table, name, column, cascade, n);
                assert(only_id(catalog, name, changed.id)) by {
                    assert forall|i: int|
                        0 <= i < catalog.len() && (#[trigger] catalog[i]).0 != name implies catalog[i].1.id
                        != changed.id by {
                        assert(database.catalog[i].0 != name);
                    }
                }
                table_put_kept(catalog, n, name, changed);
            } else if tag(operation) == "AlterColumn"@ {
                column_altered_kept(table, node, n);
                table_put_kept(database.catalog, n, name, changed);
            } else {
                let to = new_name;
                let moved = catalog_retargeted(database.catalog, name, to);
                assert(keys_aside(database.catalog, moved));
                keys_aside_kept(database.catalog, moved, n);
                table_del_kept(moved, n, name);
                let left = del(moved, name);
                assert(only_id(left, to, changed.id)) by {
                    assert forall|i: int| 0 <= i < left.len() && (#[trigger] left[i]).0 != to implies left[i].1.id
                        != changed.id by {
                        let j = choose|j: int| 0 <= j < moved.len() && moved[j] == left[i];
                        assert(moved[j].0 != name);
                        assert(database.catalog[j].0 != name);
                    }
                }
                table_put_kept(left, n, to, changed);
            }
        },
        _ => {},
    }
}

proof fn operations_kept(database: DatabaseModel, name: Seq<char>, operations: Json, from: int, caller: AuthModel)
    requires
        well_kept(database),
        plain_name(name),
        forall|i: int| 0 <= i < items(operations).len() ==> plain_operation(#[trigger] items(operations)[i]),
    ensures
        operations_applied_from(database, name, operations, from, caller) matches Ok(next) ==> well_kept(next),
    decreases items(operations).len() - from,
{
    if 0 <= from < items(operations).len() {
        match table_of(database, name) {
            Ok(table) => {
                let operation = items(operations)[from];
                operation_kept(database, name, table, operation, caller);
                match operation_applied(database, name, table, operation, caller) {
                    Ok(None) => {
                        operations_kept(database, name, operations, from + 1, caller);
                    },
                    Ok(Some((next, changed, new_name))) => {
                        match schema_changed(with_table(next, new_name, changed)) {
                            Ok(last) => {
                                operations_kept(last, new_name, operations, from + 1, caller);
                            },
                            Err(_) => {},
                        }
                    },
                    Err(_) => {},
                }
            },
            Err(_) => {},
        }
    }
}

// ---------------------------------------------------------------------------------------------
// Statements
// ---------------------------------------------------------------------------------------------

/// Whether a statement names no table by a name with a schema inside.
pub open spec fn plainly_named(statement: Json) -> bool {
    let node = payload(statement);
    &&& plain_statement(statement)
    &&& tag(statement) == "CreateTable"@ ==> (table_name_of(child(node, "name"@)) matches Ok(name) ==> plain_name(name))
    &&& tag(statement) == "AlterTable"@ ==> forall|i: int|
        0 <= i < items(child(node, "operations"@)).len() ==> plain_operation(
            #[trigger] items(child(node, "operations"@))[i],
        )
}

/// A statement keeps the state in order.
pub proof fn statement_kept(database: DatabaseModel, statement: Json, caller: AuthModel)
    requires
        well_kept(database),
        plainly_named(statement),
    ensures
        statement_executed(database, statement, caller) matches Ok((next, _)) ==> well_kept(next),
{
    let node = payload(statement);
    let kind = tag(child(node, "object_type"@));
    if tag(statement) == "AlterTable"@ {
        match table_name_of(child(node, "name"@)) {
            Ok(name) => {
                if has_key(database.catalog, name) {
                    table_found(
                        database.catalog,
                        database.next_object_id,
                        name,
                        get(database.catalog, name)->Some_0,
                    );
                    operations_kept(database, name, child(node, "operations"@), 0, caller);
                }
            },
            Err(_) => {},
        }
    } else if tag(statement) == "Drop"@ && kind == "Table"@ {
        match table_set_from(child(node, "names"@), 0, Seq::empty()) {
            Ok(set) => {
                let cascade = flag(child(node, "cascade"@));
                tables_detached_kept(database, set, 0, cascade);
                match tables_detached_from(database, set, 0, cascade) {
                    Ok(next) => {
                        tables_removed_kept(next.catalog, set, 0, next.next_object_id);
                    },
                    Err(_) => {},
                }
            },
            Err(_) => {},
        }
    } else if tag(statement) == "CreateView"@ {
        match table_name_of(child(node, "name"@)) {
            Ok(name) => {
                let view = crate::views::ViewModel {
                    sql: crate::ast::statement_text_of(crate::value::tagged("Query"@, child(node, "query"@))),
                    materialized: flag(child(node, "materialized"@)),
                };
                put_keeps_order(database.views, name, view);
            },
            Err(_) => {},
        }
    } else if tag(statement) == "Drop"@ && kind == "View"@ {
        views_dropping_kept(
            database,
            child(node, "names"@),
            0,
            flag(child(node, "if_exists"@)),
            flag(child(node, "cascade"@)),
        );
    } else if tag(statement) == "CreateIndex"@ {
    } else if tag(statement) == "CreateTable"@ {
        table_created_kept(database, node, caller);
    } else if tag(statement) == "Insert"@ {
        insert_kept(database, node, caller);
    } else if tag(statement) == "Update"@ {
        update_kept(database, node, caller);
    } else if tag(statement) == "Delete"@ {
        delete_kept(database, node, caller);
    }
}

proof fn insert_kept(database: DatabaseModel, node: Json, caller: AuthModel)
    requires
        well_kept(database),
        table_name_of(child(node, "table_name"@)) matches Ok(name) ==> plain_name(name),
    ensures
        inserted(database, node, caller) matches Ok((next, _)) ==> well_kept(next),
{
    match inserted(database, node, caller) {
        Ok((next, _)) => {
            let name = table_name_of(child(node, "table_name"@))->Ok_0;
            let table = table_of(database, name)->Ok_0;
            let conflict = conflict_of(child(node, "on"@))->Ok_0;
            let keys = conflict_keys_of(table, child(node, "on"@), conflict)->Ok_0;
            let target = insert_target(table, child(node, "columns"@))->Ok_0;
            let input = insert_rows(child(node, "source"@))->Ok_0;
            let state = InsertionModel { table, output: Seq::empty(), affected: 0, touched: Seq::empty() };
            let returning = child(node, "returning"@);
            let n = database.next_object_id;
            table_found(database.catalog, n, name, table);
            insertion_kept(state, target, input, 0, keys, conflict, returning, caller, n);
            let done = rows_inserted_from(state, target, input, 0, keys, conflict, returning, caller)->Ok_0;
            table_back_kept(database, name, table, done.table);
        },
        Err(_) => {},
    }
}

proof fn update_kept(database: DatabaseModel, node: Json, caller: AuthModel)
    requires
        well_kept(database),
        factor_name_of(child(child(node, "table"@), "relation"@)) matches Ok(name) ==> plain_name(name),
    ensures
        updated(database, node, caller) matches Ok((next, _)) ==> well_kept(next),
{
    match updated(database, node, caller) {
        Ok((next, _)) => {
            let name = factor_name_of(child(child(node, "table"@), "relation"@))->Ok_0;
            let table = table_of(database, name)->Ok_0;
            table_found(database.catalog, database.next_object_id, name, table);
            updates_kept(table, node, 0, Seq::empty(), Seq::empty(), caller);
            let changed = updates_from(table, node, 0, Seq::empty(), Seq::empty(), caller)->Ok_0.0;
            rows_put_kept(table.rows, changed, 0, table.next_row_id);
            table_back_kept(
                database,
                name,
                table,
                TableModel { rows: rows_put_from(table.rows, changed, 0), ..table },
            );
        },
        Err(_) => {},
    }
}

proof fn delete_kept(database: DatabaseModel, node: Json, caller: AuthModel)
    requires
        well_kept(database),
        factor_name_of(child(item(child(node, "from"@), 0), "relation"@)) matches Ok(name) ==> plain_name(name),
    ensures
        deleted(database, node, caller) matches Ok((next, _)) ==> well_kept(next),
{
    match deleted(database, node, caller) {
        Ok((next, _)) => {
            let name = factor_name_of(child(item(child(node, "from"@), 0), "relation"@))->Ok_0;
            let table = table_of(database, name)->Ok_0;
            table_found(database.catalog, database.next_object_id, name, table);
            let ids = deletions_from(table, node, 0, Seq::empty(), Seq::empty(), caller)->Ok_0.0;
            rows_removed_kept(table.rows, ids, 0, table.next_row_id);
            table_back_kept(
                database,
                name,
                table,
                TableModel { rows: rows_removed_from(table.rows, ids, 0), ..table },
            );
        },
        Err(_) => {},
    }
}

// ---------------------------------------------------------------------------------------------
// Referential actions
// ---------------------------------------------------------------------------------------------

proof fn referring_kept(
    rows: Rows,
    from: int,
    columns: Seq<Seq<char>>,
    old_key: Seq<Json>,
    found: Seq<RowModel>,
    next: u64,
)
    requires
        rows_kept(rows, next),
        listed_kept(found, next),
    ensures
        listed_kept(referring_from(rows, from, columns, old_key, found), next),
    decreases rows.len() - from,
{
    if 0 <= from < rows.len() {
        assert(rows[from].0 == rows[from].1.id);
        referring_kept(rows, from + 1, columns, old_key, found, next);
        assert(listed_kept(found.push(rows[from].1), next));
        referring_kept(rows, from + 1, columns, old_key, found.push(rows[from].1), next);
    }
}

proof fn rows_deleted_kept(
    name: Seq<char>,
    table: TableModel,
    rows: Seq<RowModel>,
    from: int,
    more: Seq<ChangeModel>,
    next: u64,
)
    requires
        table_kept(table, next),
    ensures
        table_kept(rows_deleted_from(name, table, rows, from, more).0, next),
        rows_deleted_from(name, table, rows, from, more).0.id == table.id,
    decreases rows.len() - from,
{
    if 0 <= from < rows.len() {
        row_del_kept(table.rows, table.next_row_id, rows[from].id);
        rows_deleted_kept(
            name,
            TableModel { rows: del(table.rows, rows[from].id), ..table },
            rows,
            from + 1,
            more.push(ChangeModel { table: name, before: rows[from], after: None }),
            next,
        );
    }
}

proof fn rows_acted_kept(
    name: Seq<char>,
    action: ReferentialAction,
    table: TableModel,
    key: ForeignKeyModel,
    rows: Seq<RowModel>,
    from: int,
    new_key: Option<Seq<Json>>,
    more: Seq<ChangeModel>,
    caller: AuthModel,
    next: u64,
)
    requires
        table_kept(table, next),
        listed_kept(rows, table.next_row_id),
    ensures
        rows_acted_from(name, action, table, key, rows, from, new_key, more, caller) matches Ok(done) ==> table_kept(
            done.0,
            next,
        ) && done.0.id == table.id,
    decreases rows.len() - from,
{
    if 0 <= from < rows.len() {
        acted_in_order(action, table.columns, key.columns, 0, rows[from].values, new_key, caller);
        match cells_acted_from(action, table.columns, key.columns, 0, rows[from].values, new_key, caller) {
            Ok(cells) => {
                regenerated_in_order(table.columns, 0, cells, cells, caller);
            },
            Err(_) => {},
        }
        match row_acted(action, table.columns, key, rows[from], new_key, caller) {
            Ok(row) => {
                assert(rows[from].id < table.next_row_id);
                row_put_kept(table.rows, table.next_row_id, row);
                rows_acted_kept(
                    name,
                    action,
                    TableModel { rows: put(table.rows, row.id, row), ..table },
                    key,
                    rows,
                    from + 1,
                    new_key,
                    more.push(ChangeModel { table: name, before: rows[from], after: Some(row) }),
                    caller,
                    next,
                );
            },
            Err(_) => {},
        }
    }
}

/// A foreign key keeps the state in order.
pub proof fn reaction_kept(
    database: DatabaseModel,
    target: TableModel,
    change: ChangeModel,
    name: Seq<char>,
    key: ForeignKeyModel,
    more: Seq<ChangeModel>,
    caller: AuthModel,
)
    requires
        well_kept(database),
        plain_name(name),
    ensures
        key_reacted(database, target, change, name, key, more, caller) matches Ok((next, _)) ==> well_kept(next),
{
    let referred = referred_key(key, target);
    let old_key = full_key(change.before.values, referred);
    let new_key = new_key_of(change, referred);
    let n = database.next_object_id;
    match table_of(database, name) {
        Ok(source) => {
            if old_key is Some {
                table_found(database.catalog, n, name, source);
                let rows = referring_from(source.rows, 0, key.columns, old_key->0, Seq::empty());
                referring_kept(source.rows, 0, key.columns, old_key->0, Seq::empty(), source.next_row_id);
                rows_deleted_kept(name, source, rows, 0, more, n);
                table_back_kept(database, name, source, rows_deleted_from(name, source, rows, 0, more).0);
                match action_for(key, change) {
                    Some(action) => {
                        rows_acted_kept(name, action, source, key, rows, 0, new_key, more, caller, n);
                        match rows_acted_from(name, action, source, key, rows, 0, new_key, more, caller) {
                            Ok((table, _)) => {
                                table_back_kept(database, name, source, table);
                            },
                            Err(_) => {},
                        }
                    },
                    None => {},
                }
            }
        },
        Err(_) => {},
    }
}

/// Foreign keys keep the state in order.
pub proof fn reactions_kept(
    database: DatabaseModel,
    target: TableModel,
    change: ChangeModel,
    sources: Seq<(Seq<char>, ForeignKeyModel)>,
    from: int,
    more: Seq<ChangeModel>,
    caller: AuthModel,
)
    requires
        well_kept(database),
        plain_sources(sources),
    ensures
        keys_reacted_from(database, target, change, sources, from, more, caller) matches Ok((next, _)) ==> well_kept(
            next,
        ),
    decreases sources.len() - from,
{
    if 0 <= from < sources.len() {
        let (name, key) = sources[from];
        reaction_kept(database, target, change, name, key, more, caller);
        match key_reacted(database, target, change, name, key, more, caller) {
            Ok((next, changes)) => {
                reactions_kept(next, target, change, sources, from + 1, changes, caller);
            },
            Err(_) => {},
        }
    }
}

/// Referential actions keep the state in order.
pub proof fn actions_kept(database: DatabaseModel, pending: Seq<ChangeModel>, steps: int, caller: AuthModel)
    requires
        well_kept(database),
    ensures
        changes_applied(database, pending, steps, caller) matches Ok(next) ==> well_kept(next),
    decreases CASCADE_LIMIT - steps,
{
    if pending.len() > 0 && steps < CASCADE_LIMIT {
        let change = pending[0];
        match table_of(database, change.table) {
            Ok(target) => {
                let sources = sources_from(database.catalog, 0, change.table, Seq::empty());
                sources_are_plain(database.catalog, 0, change.table, Seq::empty());
                reactions_kept(database, target, change, sources, 0, Seq::empty(), caller);
                match change_applied(database, change, caller) {
                    Ok((next, more)) => {
                        actions_kept(next, pending.skip(1) + more, steps + 1, caller);
                    },
                    Err(_) => {},
                }
            },
            Err(_) => {},
        }
    }
}

// ---------------------------------------------------------------------------------------------
// Batches
// ---------------------------------------------------------------------------------------------

proof fn statement_done_kept(database: DatabaseModel, statement: Json, caller: AuthModel)
    requires
        well_kept(database),
        plainly_named(statement),
    ensures
        statement_done(database, statement, caller) matches Ok((next, _)) ==> well_kept(next),
{
    statement_kept(database, statement, caller);
    match statement_executed(database, statement, caller) {
        Ok((next, _)) => {
            actions_kept(next, changes_between(database, next), 0, caller);
        },
        Err(_) => {},
    }
}

proof fn statements_done_kept(
    database: DatabaseModel,
    list: Seq<Json>,
    from: int,
    result: ResultModel,
    caller: AuthModel,
)
    requires
        well_kept(database),
        forall|i: int| 0 <= i < list.len() ==> plainly_named(#[trigger] list[i]),
    ensures
        statements_done_from(database, list, from, result, caller) matches Ok((next, _)) ==> well_kept(next),
    decreases list.len() - from,
{
    if 0 <= from < list.len() {
        statement_done_kept(database, list[from], caller);
        match statement_done(database, list[from], caller) {
            Ok((next, rows)) => {
                statements_done_kept(next, list, from + 1, rows, caller);
            },
            Err(_) => {},
        }
    }
}

/// Whether all statements of a text do, also that of a CREATE TABLE whose timing clauses are taken out.
pub open spec fn plainly_named_text(sql: Seq<char>) -> bool {
    &&& statements_of(sql) matches Ok(list) ==> forall|i: int| 0 <= i < list.len() ==> plainly_named(#[trigger] list[i])
    &&& words_of(sql) matches Ok(words) ==> (statement_untimed(words) matches Ok((untimed, _)) ==> (statements_of(
        untimed,
    ) matches Ok(list) ==> plainly_named(first_of(list))))
}

/// Whether all statements of a batch do.
pub open spec fn plainly_named_batch(sql: Seq<char>) -> bool {
    batch_of(sql) matches Ok(texts) ==> forall|i: int| 0 <= i < texts.len() ==> plainly_named_text(#[trigger] texts[i])
}

proof fn timed_kept(database: DatabaseModel, sql: Seq<char>, keys: TimedKeysModel, caller: AuthModel)
    requires
        well_kept(database),
        statements_of(sql) matches Ok(list) ==> plainly_named(first_of(list)),
    ensures
        timed_created(database, sql, keys, caller) matches Ok((next, _)) ==> well_kept(next),
{
    match statements_of(sql) {
        Ok(list) => {
            statement_kept(database, first_of(list), caller);
            match (table_name_of(child(payload(first_of(list)), "name"@)), statement_executed(
                database,
                first_of(list),
                caller,
            )) {
                (Ok(name), Ok((next, _))) => {
                    match get(next.catalog, name) {
                        Some(table) => {
                            table_found(next.catalog, next.next_object_id, name, table);
                            keys_added_in_order(table.deferred_unique, keys.unique, 0);
                            table_put_kept(next.catalog, next.next_object_id, name, table_timed(table, keys));
                        },
                        None => {},
                    }
                },
                _ => {},
            }
        },
        Err(_) => {},
    }
}

proof fn policy_kept(database: DatabaseModel, sql: Seq<char>, caller: AuthModel)
    requires
        well_kept(database),
    ensures
        crate::policy::policy_executed(database, sql, caller) matches Ok(Some((next, _))) ==> well_kept(next),
{
    let n = database.next_object_id;
    match words_of(sql) {
        Ok(words) => {
            switch_kept(database, words);
            match crate::policy::policy_read(words) {
                Ok((policy, name)) => match get(database.catalog, name) {
                    Some(table) => {
                        table_found(database.catalog, n, name, table);
                        table_put_kept(
                            database.catalog,
                            n,
                            name,
                            TableModel { policies: table.policies.push(policy), ..table },
                        );
                    },
                    None => {},
                },
                Err(_) => {},
            }
        },
        Err(_) => {},
    }
}

proof fn switch_kept(database: DatabaseModel, words: Seq<Seq<char>>)
    requires
        well_kept(database),
    ensures
        crate::policy::security_switched(database, words) matches Ok(next) ==> well_kept(next),
{
    let upper = crate::words::upper_all(words);
    let action = crate::policy::switch_from(upper, 0);
    match crate::ast::relation_of(crate::words::phrase(words, 2, action)) {
        Ok(name) => match get(database.catalog, name) {
            Some(table) => {
                table_found(database.catalog, database.next_object_id, name, table);
                table_put_kept(
                    database.catalog,
                    database.next_object_id,
                    name,
                    TableModel { rls_enabled: upper[action] == "ENABLE"@, ..table },
                );
            },
            None => {},
        },
        Err(_) => {},
    }
}

proof fn function_kept(database: DatabaseModel, sql: Seq<char>, caller: AuthModel)
    requires
        well_kept(database),
    ensures
        crate::functions::function_executed(database, sql, caller) matches Ok(Some((next, _))) ==> well_kept(next),
{
    match words_of(sql) {
        Ok(words) => {
            match crate::functions::function_read(database, words, 4, caller) {
                Ok(function) => {
                    put_keeps_order(database.functions, function.name, function);
                },
                Err(_) => {},
            }
            match crate::functions::function_read(database, words, 2, caller) {
                Ok(function) => {
                    put_keeps_order(database.functions, function.name, function);
                },
                Err(_) => {},
            }
        },
        Err(_) => {},
    }
}

proof fn text_kept(database: DatabaseModel, sql: Seq<char>, result: ResultModel, caller: AuthModel)
    requires
        well_kept(database),
        plainly_named_text(sql),
    ensures
        text_done(database, sql, result, caller) matches Ok((next, _)) ==> well_kept(next),
{
    match words_of(sql) {
        Ok(words) => match statement_untimed(words) {
            Ok((untimed, keys)) => {
                timed_kept(database, untimed, keys, caller);
            },
            Err(_) => {},
        },
        Err(_) => {},
    }
    function_kept(database, sql, caller);
    policy_kept(database, sql, caller);
    match statements_of(sql) {
        Ok(list) => {
            statements_done_kept(database, list, 0, result, caller);
        },
        Err(_) => {},
    }
}

proof fn texts_kept(
    database: DatabaseModel,
    texts: Seq<Seq<char>>,
    from: int,
    result: ResultModel,
    caller: AuthModel,
)
    requires
        well_kept(database),
        forall|i: int| 0 <= i < texts.len() ==> plainly_named_text(#[trigger] texts[i]),
    ensures
        texts_done_from(database, texts, from, result, caller) matches Ok((next, _)) ==> well_kept(next),
    decreases texts.len() - from,
{
    if 0 <= from < texts.len() {
        text_kept(database, texts[from], result, caller);
        match text_done(database, texts[from], result, caller) {
            Ok((next, rows)) => {
                texts_kept(next, texts, from + 1, rows, caller);
            },
            Err(_) => {},
        }
    }
}

/// A batch that succeeds leaves a well kept state, where it names no table by a name with a schema inside.
pub proof fn batches_keep_states_sound(database: DatabaseModel, sql: Seq<char>, caller: AuthModel)
    requires
        well_kept(database),
        plainly_named_batch(sql),
    ensures
        batch_executed(database, sql, caller) matches Ok((next, _)) ==> sound(next) && well_kept(next),
{
    match batch_of(sql) {
        Ok(texts) => {
            texts_kept(database, texts, 0, no_result(), caller);
            match batch_executed(database, sql, caller) {
                Ok((next, _)) => {
                    well_kept_is_sound(next);
                },
                Err(_) => {},
            }
        },
        Err(_) => {},
    }
}

/// A migration that succeeds leaves a well kept state, where it names no table by a name with a schema
/// inside.
pub proof fn migrations_keep_states_sound(
    database: DatabaseModel,
    version: Seq<char>,
    sql: Seq<char>,
    caller: AuthModel,
)
    requires
        well_kept(database),
        plainly_named_batch(sql),
    ensures
        migration_applied(database, version, sql, caller) matches Ok((next, _)) ==> sound(next) && well_kept(next),
{
    well_kept_is_sound(database);
    batches_keep_states_sound(database, sql, caller);
    match batch_executed(database, sql, caller) {
        Ok((next, _)) => {
            put_keeps_order(next.migrations, version, ());
        },
        Err(_) => {},
    }
}

// ---------------------------------------------------------------------------------------------
// Calls
// ---------------------------------------------------------------------------------------------

/// Whether a statement only reads or changes rows, and names no table by a name with a schema inside.
pub open spec fn plain_mutation(statement: Json) -> bool {
    &&& tag(statement) == "Insert"@ || tag(statement) == "Update"@ || tag(statement) == "Delete"@ || tag(statement)
        == "Query"@
    &&& plainly_named(statement)
}

/// Whether the body of every function has only such statements, whatever its parameters are bound to.
pub open spec fn plain_bodies(functions: Seq<(Seq<char>, FunctionModel)>) -> bool {
    forall|name: Seq<char>, bindings: CellsModel, i: int|
        #![trigger get(functions, name), bodies(get(functions, name), bindings)[i]]
        0 <= i < bodies(get(functions, name), bindings).len() ==> plain_mutation(
            bodies(get(functions, name), bindings)[i],
        )
}

/// The statements of a function with its parameters replaced.
pub open spec fn bodies(function: Option<FunctionModel>, bindings: CellsModel) -> Seq<Json> {
    match function {
        Some(function) => match statements_of(function.body) {
            Ok(list) => all_substituted(list, bindings),
            Err(_) => Seq::empty(),
        },
        None => Seq::empty(),
    }
}

/// Whether all statements of a list only read or change rows, and name no table by a name with a schema
/// inside.
spec fn plain_list(list: Seq<Json>) -> bool {
    forall|i: int| 0 <= i < list.len() ==> plain_mutation(#[trigger] list[i])
}

proof fn prepared_is_plain(database: DatabaseModel, name: Seq<char>, args: Json, caller: AuthModel)
    requires
        plain_bodies(database.functions),
    ensures
        call_prepared(database, name, args, caller) matches Ok((_, _, list)) ==> plain_list(list),
{
    let local = local_name(name);
    match (get(database.functions, local), args) {
        (Some(function), Json::Object(given)) => {
            match bindings_from(function, 0, given, Seq::empty(), caller) {
                Ok(bindings) => match statements_of(function.body) {
                    Ok(list) => {
                        let all = all_substituted(list, bindings);
                        assert(bodies(get(database.functions, local), bindings) == all);
                        assert forall|i: int| 0 <= i < all.len() implies plain_mutation(#[trigger] all[i]) by {
                            assert(plain_mutation(bodies(get(database.functions, local), bindings)[i]));
                        }
                    },
                    Err(_) => {},
                },
                Err(_) => {},
            }
        },
        _ => {},
    }
}

proof fn call_kept(database: DatabaseModel, name: Seq<char>, args: Json, caller: AuthModel, depth: int)
    requires
        well_kept(database),
        plain_bodies(database.functions),
    ensures
        called(database, name, args, caller, depth) matches Ok((next, _)) ==> well_kept(next) && same_definitions(database, next),
    decreases CALL_DEPTH - depth, 1int, 0int,
{
    if depth < CALL_DEPTH {
        prepared_is_plain(database, name, args, caller);
        match call_prepared(database, name, args, caller) {
            Ok((function, effective, list)) => {
                body_kept(database, list, 0, effective, depth, Seq::empty(), 0);
            },
            Err(_) => {},
        }
    }
}

proof fn step_kept(database: DatabaseModel, statement: Json, caller: AuthModel, depth: int)
    requires
        well_kept(database),
        plain_bodies(database.functions),
        plain_mutation(statement),
    ensures
        body_step(database, statement, caller, depth) matches Ok((next, _)) ==> well_kept(next) && same_definitions(database, next),
    decreases CALL_DEPTH - depth, 0int, 0int,
{
    match nested_call_of(statement, database.functions, caller) {
        Ok(Some((callee, args))) => {
            if depth < CALL_DEPTH {
                call_kept(database, callee, args, caller, depth + 1);
            }
        },
        Ok(None) => {
            statement_kept(database, statement, caller);
            mutation_steps(database, statement, caller);
        },
        Err(_) => {},
    }
}

proof fn step_done_kept(database: DatabaseModel, statement: Json, caller: AuthModel, depth: int)
    requires
        well_kept(database),
        plain_bodies(database.functions),
        plain_mutation(statement),
    ensures
        body_step_done(database, statement, caller, depth) matches Ok((next, _)) ==> well_kept(next) && same_definitions(database, next),
    decreases CALL_DEPTH - depth, 0int, 1int,
{
    step_kept(database, statement, caller, depth);
    match body_step(database, statement, caller, depth) {
        Ok((next, _)) => {
            let pending = changes_between(database, next);
            actions_kept(next, pending, 0, caller);
            actions_keep_definitions(next, pending, 0, caller);
            match changes_applied(next, pending, 0, caller) {
                Ok(last) => {
                    same_definitions_chain(database, next, last);
                },
                Err(_) => {},
            }
        },
        Err(_) => {},
    }
}

proof fn body_kept(
    database: DatabaseModel,
    list: Seq<Json>,
    from: int,
    caller: AuthModel,
    depth: int,
    rows: Seq<Json>,
    affected: usize,
)
    requires
        well_kept(database),
        plain_bodies(database.functions),
        plain_list(list),
    ensures
        body_run_from(database, list, from, caller, depth, rows, affected) matches Ok((next, _)) ==> well_kept(next)
            && same_definitions(database, next),
    decreases CALL_DEPTH - depth, 0int, list.len() - from + 2,
{
    assert(same_definitions(database, database));
    if 0 <= from < list.len() {
        step_done_kept(database, list[from], caller, depth);
        match body_step_done(database, list[from], caller, depth) {
            Ok((next, result)) => {
                if affected + result.affected <= usize::MAX {
                    let total = (affected + result.affected) as usize;
                    body_kept(next, list, from + 1, caller, depth, result.rows, total);
                    match body_run_from(next, list, from + 1, caller, depth, result.rows, total) {
                        Ok((last, _)) => {
                            same_definitions_chain(database, next, last);
                        },
                        Err(_) => {},
                    }
                }
            },
            Err(_) => {},
        }
    }
}

/// A call that succeeds leaves a well kept state with the same definitions, where the bodies of functions
/// only read or change rows and name no table by a name with a schema inside.
pub proof fn calls_keep_states_sound(database: DatabaseModel, name: Seq<char>, args: Json, caller: AuthModel)
    requires
        well_kept(database),
        plain_bodies(database.functions),
    ensures
        call_committed(database, name, args, caller) matches Ok((next, _)) ==> sound(next) && well_kept(next)
            && same_definitions(database, next),
{
    call_kept(database, name, args, caller, 0);
    match call_committed(database, name, args, caller) {
        Ok((next, _)) => {
            well_kept_is_sound(next);
        },
        Err(_) => {},
    }
}

// ---------------------------------------------------------------------------------------------
// The canonical form
// ---------------------------------------------------------------------------------------------

/// Whether the expressions of a table are in the form in which the parser serializes them.
pub open spec fn table_expressions_canonical(table: TableModel) -> bool {
    &&& forall|p: int|
        0 <= p < table.columns.len() ==> canonical_expr((#[trigger] table.columns[p]).default) && canonical_expr(
            table.columns[p].generated,
        )
    &&& canonical_exprs(table.checks)
    &&& <Vec<Policy>>::canonical(table.policies)
}

/// Whether the expressions of a state are in the form in which the parser serializes them.
pub open spec fn expressions_canonical(database: DatabaseModel) -> bool {
    &&& forall|i: int| 0 <= i < database.catalog.len() ==> table_expressions_canonical((#[trigger] database.catalog[i]).1)
    &&& forall|i: int|
        0 <= i < database.functions.len() ==> <Vec<FunctionParameter>>::canonical(
            (#[trigger] database.functions[i]).1.parameters,
        )
}

/// The definitions of a well kept state are in canonical form where its expressions are.
pub proof fn well_kept_is_canonical(database: DatabaseModel)
    requires
        well_kept(database),
        expressions_canonical(database),
    ensures
        Database::canonical(bare(database)),
{
    let definitions = bare(database);
    assert forall|i: int| 0 <= i < definitions.catalog.len() implies Table::canonical(
        (#[trigger] definitions.catalog[i]).1,
    ) by {
        let table = database.catalog[i].1;
        assert(table_kept(table, database.next_object_id));
        assert(table_expressions_canonical(table));
        assert(definitions.catalog[i].1 == bare_table(table));
        assert forall|p: int| 0 <= p < table.columns.len() implies Column::canonical(#[trigger] table.columns[p]) by {
            let column = table.columns[p];
            if column.identity is Some {
                assert(layout_value(Identity::layout_of(column.identity->Some_0)) is Object);
            }
        }
        assert forall|p: int| 0 <= p < table.foreign_keys.len() implies ForeignKey::canonical(
            #[trigger] table.foreign_keys[p],
        ) by {}
    }
    assert forall|i: int, j: int|
        #![trigger definitions.catalog[i], definitions.catalog[j]]
        0 <= i < j < definitions.catalog.len() implies definitions.catalog[i].0.before(definitions.catalog[j].0) by {
        assert(database.catalog[i].0.before(database.catalog[j].0));
    }
    assert forall|i: int| 0 <= i < definitions.functions.len() implies SqlFunction::canonical(
        (#[trigger] definitions.functions[i]).1,
    ) by {
        let function = database.functions[i].1;
        if function.definer_context is Some {
            assert(layout_value(AuthContext::layout_of(function.definer_context->Some_0)) is Object);
        }
    }
}

} // verus!
