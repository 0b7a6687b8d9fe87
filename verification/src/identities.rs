//! Identities of rows: each is handed out once, and a row keeps its own.

use vstd::prelude::*;
use crate::ast::table_name_of;
use crate::authorization::Rows;
use crate::catalog::{table_of, AuthModel, DatabaseModel, RowModel, TableModel};
use crate::dml::{
    conflict_keys_of, conflict_of, conflicting_from, insert_rows, insert_target, inserted, new_cells, row_inserted,
    rows_inserted_from, InsertionModel,
};
use crate::error::Failure;
use crate::json::Json;
use crate::ordmap::{get, get_after_put, get_at, has_key, put, put_keeps_order, sorted};
use crate::value::{child, items};

verus! {

/// Whether the rows of a table stand in order under their own identities, and every identity from the
/// next one on is free.
pub open spec fn well_numbered(table: TableModel) -> bool {
    &&& sorted(table.rows)
    &&& forall|id: u64| #[trigger]
        get(table.rows, id) matches Some(row) ==> row.id == id && id < table.next_row_id
}

/// Whether a later table has every row of an earlier one, and its other rows under identities that
/// were free.
pub open spec fn only_fresh(before: TableModel, after: TableModel) -> bool {
    &&& before.next_row_id <= after.next_row_id
    &&& forall|id: u64|
        #![trigger get(after.rows, id)]
        (has_key(before.rows, id) ==> has_key(after.rows, id)) && (!has_key(before.rows, id) && has_key(
            after.rows,
            id,
        ) ==> before.next_row_id <= id < after.next_row_id)
}

proof fn row_takes_a_fresh_identity(
    table: TableModel,
    state: InsertionModel,
    target: Seq<Seq<char>>,
    exprs: Json,
    keys: Seq<Seq<Seq<char>>>,
    conflict: Json,
    returning: Json,
    caller: AuthModel,
)
    requires
        well_numbered(state.table),
        only_fresh(table, state.table),
    ensures
        match row_inserted(state, target, exprs, keys, conflict, returning, caller) {
            Ok(next) => well_numbered(next.table) && only_fresh(table, next.table),
            Err(_) => true,
        },
{
    match row_inserted(state, target, exprs, keys, conflict, returning, caller) {
        Ok(next) => {
            let rows = state.table.rows;
            let cells = new_cells(state.table, target, exprs, caller)->Ok_0;
            match conflicting_from(rows, 0, cells, keys) {
                Some(row) => {
                    conflict_is_a_row(rows, 0, cells, keys);
                    let at = choose|at: int| 0 <= at < rows.len() && (#[trigger] rows[at]).1 == row;
                    get_at(rows, at);
                    if next.table != state.table {
                        assert(exists|new: RowModel|
                            new.id == row.id && next.table == (TableModel {
                                rows: #[trigger] put(rows, row.id, new),
                                ..state.table
                            }));
                        let new = choose|new: RowModel|
                            new.id == row.id && next.table == (TableModel {
                                rows: #[trigger] put(rows, row.id, new),
                                ..state.table
                            });
                        put_keeps_order(rows, row.id, new);
                        assert forall|id: u64| true implies #[trigger] get(next.table.rows, id) == (if id == row.id {
                            Some(new)
                        } else {
                            get(rows, id)
                        }) by {
                            get_after_put(rows, row.id, new, id);
                        }
                        assert(get(rows, row.id) is Some);
                        assert forall|id: u64|
                            #![trigger get(next.table.rows, id)]
                            (has_key(table.rows, id) ==> has_key(next.table.rows, id)) && (!has_key(table.rows, id)
                                && has_key(next.table.rows, id) ==> table.next_row_id <= id
                                < next.table.next_row_id) by {
                            assert(get(rows, id) == get(rows, id));
                        }
                    }
                },
                None => {
                    let row = RowModel { id: state.table.next_row_id, version: 1, values: cells };
                    put_keeps_order(rows, row.id, row);
                    assert(next.table.rows == put(rows, row.id, row));
                    assert forall|id: u64| true implies #[trigger] get(next.table.rows, id) == (if id == row.id {
                        Some(row)
                    } else {
                        get(rows, id)
                    }) by {
                        get_after_put(rows, row.id, row, id);
                    }
                    assert forall|id: u64|
                        #![trigger get(next.table.rows, id)]
                        (has_key(table.rows, id) ==> has_key(next.table.rows, id)) && (!has_key(table.rows, id)
                            && has_key(next.table.rows, id) ==> table.next_row_id <= id
                            < next.table.next_row_id) by {
                        assert(get(rows, id) == get(rows, id));
                    }
                },
            }
        },
        Err(_) => {},
    }
}

pub proof fn conflict_is_a_row(rows: Rows, from: int, cells: crate::catalog::CellsModel, keys: Seq<Seq<Seq<char>>>)
    requires
        0 <= from,
    ensures
        conflicting_from(rows, from, cells, keys) matches Some(row) ==> exists|at: int|
            0 <= at < rows.len() && (#[trigger] rows[at]).1 == row,
    decreases rows.len() - from,
{
    if from < rows.len() {
        conflict_is_a_row(rows, from + 1, cells, keys);
        assert(rows[from].1 == rows[from].1);
    }
}

proof fn rows_take_fresh_identities(
    table: TableModel,
    state: InsertionModel,
    target: Seq<Seq<char>>,
    input: Json,
    from: int,
    keys: Seq<Seq<Seq<char>>>,
    conflict: Json,
    returning: Json,
    caller: AuthModel,
)
    requires
        well_numbered(state.table),
        only_fresh(table, state.table),
    ensures
        match rows_inserted_from(state, target, input, from, keys, conflict, returning, caller) {
            Ok(done) => well_numbered(done.table) && only_fresh(table, done.table),
            Err(_) => true,
        },
    decreases items(input).len() - from,
{
    if 0 <= from < items(input).len() {
        let exprs = items(input)[from];
        row_takes_a_fresh_identity(table, state, target, exprs, keys, conflict, returning, caller);
        match row_inserted(state, target, exprs, keys, conflict, returning, caller) {
            Ok(next) => {
                rows_take_fresh_identities(table, next, target, input, from + 1, keys, conflict, returning, caller);
            },
            Err(_) => {},
        }
    }
}

/// An insertion hands out free identities and takes none back: rows that were there stay under their
/// identities, new ones get identities that no row had before.
pub proof fn insertions_take_fresh_identities(
    database: DatabaseModel,
    node: Json,
    caller: AuthModel,
    name: Seq<char>,
    table: TableModel,
)
    requires
        sorted(database.catalog),
        well_numbered(table),
        table_name_of(child(node, "table_name"@)) == Ok::<Seq<char>, Failure>(name),
        table_of(database, name) == Ok::<TableModel, Failure>(table),
    ensures
        match inserted(database, node, caller) {
            Ok((next, _)) => get(next.catalog, name) matches Some(after) && well_numbered(after) && only_fresh(
                table,
                after,
            ),
            Err(_) => true,
        },
{
    match inserted(database, node, caller) {
        Ok((next, _)) => {
            let conflict = conflict_of(child(node, "on"@))->Ok_0;
            let keys = conflict_keys_of(table, child(node, "on"@), conflict)->Ok_0;
            let target = insert_target(table, child(node, "columns"@))->Ok_0;
            let input = insert_rows(child(node, "source"@))->Ok_0;
            let state = InsertionModel { table, output: Seq::empty(), affected: 0, touched: Seq::empty() };
            let returning = child(node, "returning"@);
            rows_take_fresh_identities(table, state, target, input, 0, keys, conflict, returning, caller);
            let done = rows_inserted_from(state, target, input, 0, keys, conflict, returning, caller)->Ok_0;
            get_after_put(database.catalog, name, done.table, name);
        },
        Err(_) => {},
    }
}

} // verus!
