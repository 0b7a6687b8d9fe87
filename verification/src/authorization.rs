//! Row-level security of writes: no statement writes or removes a row that the policies of its table
//! hold back.

use vstd::prelude::*;
use crate::ast::{factor_name_of, table_name_of};
use crate::catalog::{table_of, AuthModel, DatabaseModel, RowModel, TableModel};
use crate::definitions::same_table;
use crate::dml::{
    conflict_keys_of, conflict_of, deleted, deletions_from, insert_rows, insert_target, inserted, new_cells, reached,
    row_inserted, row_updated, rows_inserted_from, rows_put_from, rows_removed_from, updated, updates_from,
    InsertionModel,
};
use crate::error::Failure;
use crate::json::Json;
use crate::ordmap::{del, del_keeps_order, get, get_after_del, get_after_put, get_at, put, put_keeps_order, sorted};
use crate::rules::permitted;
use crate::value::{child, item, items};

verus! {

/// Rows by their identities.
pub type Rows = Seq<(u64, RowModel)>;

/// Whether the policies let a caller write a new row with these cells.
pub open spec fn may_insert(table: TableModel, row: RowModel, caller: AuthModel) -> bool {
    permitted(table, "INSERT"@, row.values, caller, true) == Ok::<bool, Failure>(true)
}

/// Whether the policies let a caller change a row to these cells.
pub open spec fn may_become(table: TableModel, row: RowModel, caller: AuthModel) -> bool {
    permitted(table, "UPDATE"@, row.values, caller, true) == Ok::<bool, Failure>(true)
}

/// Whether the policies let a caller run a command on a row.
pub open spec fn may_reach(table: TableModel, command: Seq<char>, row: RowModel, caller: AuthModel) -> bool {
    permitted(table, command, row.values, caller, false) == Ok::<bool, Failure>(true)
}

/// Whether rows stand in order under their own identities.
pub open spec fn numbered(rows: Rows) -> bool {
    sorted(rows) && (forall|i: int| 0 <= i < rows.len() ==> (#[trigger] rows[i]).0 == rows[i].1.id)
}

// ---------------------------------------------------------------------------------------------
// Insertions
// ---------------------------------------------------------------------------------------------

/// Whether every row is an earlier one or one that the caller may write, and no row is lost.
pub open spec fn rightly_written(table: TableModel, before: Rows, after: Rows, caller: AuthModel) -> bool {
    forall|id: u64| #[trigger]
        get(after, id) == get(before, id) || (get(after, id) matches Some(row) && (may_insert(table, row, caller)
            || may_become(table, row, caller)))
}

proof fn putting_is_right(table: TableModel, before: Rows, rows: Rows, row: RowModel, caller: AuthModel)
    requires
        sorted(rows),
        rightly_written(table, before, rows, caller),
        may_insert(table, row, caller) || may_become(table, row, caller),
    ensures
        sorted(put(rows, row.id, row)),
        rightly_written(table, before, put(rows, row.id, row), caller),
{
    put_keeps_order(rows, row.id, row);
    assert forall|id: u64| #[trigger]
        get(put(rows, row.id, row), id) == get(before, id) || (get(put(rows, row.id, row), id) matches Some(found) && (
        may_insert(table, found, caller) || may_become(table, found, caller))) by {
        get_after_put(rows, row.id, row, id);
        assert(get(rows, id) == get(rows, id));
    }
}

proof fn insertion_is_right(
    table: TableModel,
    state: InsertionModel,
    target: Seq<Seq<char>>,
    input: Json,
    from: int,
    keys: Seq<Seq<Seq<char>>>,
    conflict: Json,
    returning: Json,
    caller: AuthModel,
)
    requires
        same_table(table, state.table),
        sorted(state.table.rows),
        rightly_written(table, table.rows, state.table.rows, caller),
    ensures
        match rows_inserted_from(state, target, input, from, keys, conflict, returning, caller) {
            Ok(done) => rightly_written(table, table.rows, done.table.rows, caller),
            Err(_) => true,
        },
    decreases items(input).len() - from,
{
    if 0 <= from < items(input).len() {
        let exprs = items(input)[from];
        match row_inserted(state, target, exprs, keys, conflict, returning, caller) {
            Ok(next) => {
                row_is_right(table, state, target, exprs, keys, conflict, returning, caller);
                insertion_is_right(table, next, target, input, from + 1, keys, conflict, returning, caller);
            },
            Err(_) => {},
        }
    }
}

proof fn row_is_right(
    table: TableModel,
    state: InsertionModel,
    target: Seq<Seq<char>>,
    exprs: Json,
    keys: Seq<Seq<Seq<char>>>,
    conflict: Json,
    returning: Json,
    caller: AuthModel,
)
    requires
        same_table(table, state.table),
        sorted(state.table.rows),
        rightly_written(table, table.rows, state.table.rows, caller),
    ensures
        match row_inserted(state, target, exprs, keys, conflict, returning, caller) {
            Ok(next) => same_table(table, next.table) && sorted(next.table.rows) && rightly_written(
                table,
                table.rows,
                next.table.rows,
                caller,
            ),
            Err(_) => true,
        },
{
    match row_inserted(state, target, exprs, keys, conflict, returning, caller) {
        Ok(next) => {
            let cells = new_cells(state.table, target, exprs, caller)->Ok_0;
            match crate::dml::conflicting_from(state.table.rows, 0, cells, keys) {
                Some(row) => {
                    let action = child(conflict, "action"@);
                    let update = crate::value::payload(action);
                    let scope = crate::dml::excluded_from(row.values, cells, 0);
                    match crate::dml::upserted_from(
                        state.table,
                        child(update, "assignments"@),
                        0,
                        row.values,
                        scope,
                        caller,
                    ) {
                        Ok(changed) => match crate::rules::regenerated(state.table.columns, changed, caller) {
                            Ok(values) => match crate::depend::next_count(row.version) {
                                Ok(version) => {
                                    let new = RowModel { version, values, ..row };
                                    if may_become(table, new, caller) {
                                        putting_is_right(table, table.rows, state.table.rows, new, caller);
                                    }
                                },
                                Err(_) => {},
                            },
                            Err(_) => {},
                        },
                        Err(_) => {},
                    }
                },
                None => {
                    let row = RowModel { id: state.table.next_row_id, version: 1, values: cells };
                    putting_is_right(table, table.rows, state.table.rows, row, caller);
                },
            }
        },
        Err(_) => {},
    }
}

/// An insertion writes rows that the policies let the caller insert, or in place of a conflicting row
/// one that they let the caller change it to; every other row stays as it is.
pub proof fn insertions_respect_policies(database: DatabaseModel, node: Json, caller: AuthModel, name: Seq<char>, table: TableModel)
    requires
        sorted(database.catalog),
        sorted(table.rows),
        table_name_of(child(node, "table_name"@)) == Ok::<Seq<char>, Failure>(name),
        table_of(database, name) == Ok::<TableModel, Failure>(table),
    ensures
        match inserted(database, node, caller) {
            Ok((next, _)) => get(next.catalog, name) matches Some(after) && rightly_written(
                table,
                table.rows,
                after.rows,
                caller,
            ),
            Err(_) => true,
        },
{
    match inserted(database, node, caller) {
        Ok((next, _)) => {
            let conflict = conflict_of(child(node, "on"@))->Ok_0;
            let keys = conflict_keys_of(table, child(node, "on"@), conflict)->Ok_0;
            let target = insert_target(table, child(node, "columns"@))->Ok_0;
            let input = insert_rows(child(node, "source"@))->Ok_0;
            let state = InsertionModel { table, output: Seq::empty(), affected: 0, touched: Seq::empty() };
            let returning = child(node, "returning"@);
            insertion_is_right(table, state, target, input, 0, keys, conflict, returning, caller);
            let done = rows_inserted_from(state, target, input, 0, keys, conflict, returning, caller)->Ok_0;
            get_after_put(database.catalog, name, done.table, name);
        },
        Err(_) => {},
    }
}

// ---------------------------------------------------------------------------------------------
// Updates
// ---------------------------------------------------------------------------------------------

/// Whether an update may turn one row into another: the statement reaches the old one, and the
/// policies allow both.
pub open spec fn update_of(table: TableModel, node: Json, old_row: RowModel, new_row: RowModel, caller: AuthModel) -> bool {
    &&& new_row.id == old_row.id
    &&& new_row.version == old_row.version + 1
    &&& reached(table, child(node, "selection"@), "UPDATE"@, old_row.values, caller) == Ok::<bool, Failure>(true)
    &&& may_reach(table, "UPDATE"@, old_row, caller)
    &&& may_become(table, new_row, caller)
}

/// Whether every changed row comes from a row of the table that an update may turn into it.
spec fn updates_come(table: TableModel, node: Json, changed: Seq<RowModel>, caller: AuthModel) -> bool {
    forall|k: int|
        0 <= k < changed.len() ==> exists|i: int|
            0 <= i < table.rows.len() && update_of(table, node, (#[trigger] table.rows[i]).1, #[trigger] changed[k], caller)
}

proof fn updates_are_right(
    table: TableModel,
    node: Json,
    from: int,
    changed: Seq<RowModel>,
    output: Seq<Json>,
    caller: AuthModel,
)
    requires
        updates_come(table, node, changed, caller),
    ensures
        match updates_from(table, node, from, changed, output, caller) {
            Ok((list, _)) => updates_come(table, node, list, caller),
            Err(_) => true,
        },
    decreases table.rows.len() - from,
{
    if 0 <= from < table.rows.len() {
        let row = table.rows[from].1;
        match reached(table, child(node, "selection"@), "UPDATE"@, row.values, caller) {
            Ok(true) => match row_updated(table, child(node, "assignments"@), row, caller) {
                Ok(next) => {
                    assert(update_of(table, node, table.rows[from].1, next, caller));
                    let more = changed.push(next);
                    assert forall|k: int| 0 <= k < more.len() implies exists|i: int|
                        0 <= i < table.rows.len() && update_of(
                            table,
                            node,
                            (#[trigger] table.rows[i]).1,
                            #[trigger] more[k],
                            caller,
                        ) by {
                        if k < changed.len() {
                            let i = choose|i: int|
                                0 <= i < table.rows.len() && update_of(
                                    table,
                                    node,
                                    (#[trigger] table.rows[i]).1,
                                    changed[k],
                                    caller,
                                );
                            assert(update_of(table, node, table.rows[i].1, more[k], caller));
                        } else {
                            assert(update_of(table, node, table.rows[from].1, more[k], caller));
                        }
                    }
                    match crate::dml::returned(child(node, "returning"@), next.values, output, caller) {
                        Ok(shown) => {
                            updates_are_right(table, node, from + 1, more, shown, caller);
                        },
                        Err(_) => {},
                    }
                },
                Err(_) => {},
            },
            Ok(false) => {
                updates_are_right(table, node, from + 1, changed, output, caller);
            },
            Err(_) => {},
        }
    }
}

/// Whether a row is among those at or after position `from`.
spec fn row_listed(changed: Seq<RowModel>, from: int, row: RowModel) -> bool {
    exists|k: int| from <= k < changed.len() && #[trigger] changed[k] == row
}

proof fn rows_put(rows: Rows, changed: Seq<RowModel>, from: int, id: u64)
    requires
        sorted(rows),
        0 <= from,
    ensures
        ({
            let found = get(rows_put_from(rows, changed, from), id);
            found == get(rows, id) || (found matches Some(row) && row.id == id && row_listed(changed, from, row))
        }),
    decreases changed.len() - from,
{
    if from < changed.len() {
        let next = put(rows, changed[from].id, changed[from]);
        put_keeps_order(rows, changed[from].id, changed[from]);
        get_after_put(rows, changed[from].id, changed[from], id);
        rows_put(next, changed, from + 1, id);
        assert(row_listed(changed, from, changed[from]));
        let found = get(rows_put_from(next, changed, from + 1), id);
        if found is Some && row_listed(changed, from + 1, found->Some_0) {
            let k = choose|k: int| from + 1 <= k < changed.len() && #[trigger] changed[k] == found->Some_0;
            assert(changed[k] == found->Some_0);
        }
    }
}

/// An update changes only rows that it reaches and the policies show to the caller for it, and only to
/// what they let the caller write; every other row stays as it is, and none is added or removed.
pub proof fn updates_respect_policies(
    database: DatabaseModel,
    node: Json,
    caller: AuthModel,
    name: Seq<char>,
    table: TableModel,
    id: u64,
)
    requires
        sorted(database.catalog),
        numbered(table.rows),
        factor_name_of(child(child(node, "table"@), "relation"@)) == Ok::<Seq<char>, Failure>(name),
        table_of(database, name) == Ok::<TableModel, Failure>(table),
    ensures
        match updated(database, node, caller) {
            Ok((next, _)) => get(next.catalog, name) matches Some(after) && match (
                get(table.rows, id),
                get(after.rows, id),
            ) {
                (None, None) => true,
                (Some(old_row), Some(new_row)) => old_row == new_row || update_of(
                    table,
                    node,
                    old_row,
                    new_row,
                    caller,
                ),
                _ => false,
            },
            Err(_) => true,
        },
{
    match updated(database, node, caller) {
        Ok((next, _)) => {
            updates_are_right(table, node, 0, Seq::empty(), Seq::empty(), caller);
            let changed = updates_from(table, node, 0, Seq::empty(), Seq::empty(), caller)->Ok_0.0;
            let rows = rows_put_from(table.rows, changed, 0);
            get_after_put(database.catalog, name, TableModel { rows, ..table }, name);
            rows_put(table.rows, changed, 0, id);
            let found = get(rows, id);
            if found != get(table.rows, id) {
                let k = choose|k: int| 0 <= k < changed.len() && #[trigger] changed[k] == found->Some_0;
                let i = choose|i: int|
                    0 <= i < table.rows.len() && update_of(table, node, (#[trigger] table.rows[i]).1, changed[k], caller);
                assert(update_of(table, node, table.rows[i].1, changed[k], caller));
                get_at(table.rows, i);
            }
        },
        Err(_) => {},
    }
}

/// Whether the statement reaches a row.
spec fn reaches(table: TableModel, node: Json, command: Seq<char>, row: RowModel, caller: AuthModel) -> bool {
    reached(table, child(node, "selection"@), command, row.values, caller) == Ok::<bool, Failure>(true)
}

/// Whether a row with this identity is among those at or after position `from`.
spec fn id_listed(changed: Seq<RowModel>, from: int, id: u64) -> bool {
    exists|k: int| from <= k < changed.len() && (#[trigger] changed[k]).id == id
}

proof fn listed_stays(changed: Seq<RowModel>, next: RowModel, id: u64)
    requires
        id_listed(changed, 0, id),
    ensures
        id_listed(changed.push(next), 0, id),
{
    let k = choose|k: int| 0 <= k < changed.len() && (#[trigger] changed[k]).id == id;
    assert(changed.push(next)[k].id == id);
}

proof fn reached_rows_change(
    table: TableModel,
    node: Json,
    from: int,
    changed: Seq<RowModel>,
    output: Seq<Json>,
    caller: AuthModel,
    i: int,
)
    requires
        0 <= from,
        0 <= i < table.rows.len(),
        reaches(table, node, "UPDATE"@, table.rows[i].1, caller),
        i < from ==> id_listed(changed, 0, table.rows[i].1.id),
    ensures
        match updates_from(table, node, from, changed, output, caller) {
            Ok((list, _)) => id_listed(list, 0, table.rows[i].1.id),
            Err(_) => true,
        },
    decreases table.rows.len() - from,
{
    if from < table.rows.len() {
        let row = table.rows[from].1;
        match reached(table, child(node, "selection"@), "UPDATE"@, row.values, caller) {
            Ok(true) => match row_updated(table, child(node, "assignments"@), row, caller) {
                Ok(next) => match crate::dml::returned(child(node, "returning"@), next.values, output, caller) {
                    Ok(shown) => {
                        if i < from {
                            listed_stays(changed, next, table.rows[i].1.id);
                        } else if i == from {
                            assert(changed.push(next)[changed.len() as int].id == row.id);
                        }
                        reached_rows_change(table, node, from + 1, changed.push(next), shown, caller, i);
                    },
                    Err(_) => {},
                },
                Err(_) => {},
            },
            Ok(false) => {
                reached_rows_change(table, node, from + 1, changed, output, caller, i);
            },
            Err(_) => {},
        }
    }
}

proof fn listed_row_is_put(rows: Rows, changed: Seq<RowModel>, from: int, id: u64)
    requires
        sorted(rows),
        0 <= from,
        id_listed(changed, from, id),
    ensures
        get(rows_put_from(rows, changed, from), id) matches Some(row) && row.id == id && row_listed(changed, from, row),
    decreases changed.len() - from,
{
    if from < changed.len() {
        let next = put(rows, changed[from].id, changed[from]);
        put_keeps_order(rows, changed[from].id, changed[from]);
        get_after_put(rows, changed[from].id, changed[from], id);
        let found = get(rows_put_from(next, changed, from + 1), id);
        if id_listed(changed, from + 1, id) {
            listed_row_is_put(next, changed, from + 1, id);
        } else {
            let k = choose|k: int| from <= k < changed.len() && (#[trigger] changed[k]).id == id;
            assert(k == from);
            rows_put(next, changed, from + 1, id);
            assert(changed[from] == changed[from]);
        }
        if row_listed(changed, from + 1, found->Some_0) {
            let k = choose|k: int| from + 1 <= k < changed.len() && #[trigger] changed[k] == found->Some_0;
            assert(changed[k] == found->Some_0);
        }
    }
}

/// An update that succeeds changes every row that it reaches and the policies let the caller change.
pub proof fn updates_are_complete(
    database: DatabaseModel,
    node: Json,
    caller: AuthModel,
    name: Seq<char>,
    table: TableModel,
    i: int,
)
    requires
        sorted(database.catalog),
        numbered(table.rows),
        factor_name_of(child(child(node, "table"@), "relation"@)) == Ok::<Seq<char>, Failure>(name),
        table_of(database, name) == Ok::<TableModel, Failure>(table),
        0 <= i < table.rows.len(),
        reached(table, child(node, "selection"@), "UPDATE"@, table.rows[i].1.values, caller) == Ok::<bool, Failure>(
            true,
        ),
    ensures
        match updated(database, node, caller) {
            Ok((next, _)) => get(next.catalog, name) matches Some(after) && (get(after.rows, table.rows[i].0) matches Some(
                new_row,
            ) && update_of(table, node, table.rows[i].1, new_row, caller)),
            Err(_) => true,
        },
{
    match updated(database, node, caller) {
        Ok((next, _)) => {
            let id = table.rows[i].1.id;
            updates_are_right(table, node, 0, Seq::empty(), Seq::empty(), caller);
            reached_rows_change(table, node, 0, Seq::empty(), Seq::empty(), caller, i);
            let changed = updates_from(table, node, 0, Seq::empty(), Seq::empty(), caller)->Ok_0.0;
            let rows = rows_put_from(table.rows, changed, 0);
            get_after_put(database.catalog, name, TableModel { rows, ..table }, name);
            listed_row_is_put(table.rows, changed, 0, id);
            let found = get(rows, id)->Some_0;
            let k = choose|k: int| 0 <= k < changed.len() && #[trigger] changed[k] == found;
            let j = choose|j: int|
                0 <= j < table.rows.len() && update_of(table, node, (#[trigger] table.rows[j]).1, changed[k], caller);
            assert(update_of(table, node, table.rows[j].1, changed[k], caller));
            get_at(table.rows, i);
            get_at(table.rows, j);
        },
        Err(_) => {},
    }
}

// ---------------------------------------------------------------------------------------------
// Deletions
// ---------------------------------------------------------------------------------------------

/// Whether a deletion may remove a row: it reaches the row, and the policies allow it.
pub open spec fn deletion_of(table: TableModel, node: Json, row: RowModel, caller: AuthModel) -> bool {
    &&& reached(table, child(node, "selection"@), "DELETE"@, row.values, caller) == Ok::<bool, Failure>(true)
    &&& may_reach(table, "DELETE"@, row, caller)
}

/// Whether every identity is that of a row that the deletion may remove.
spec fn deletions_come(table: TableModel, node: Json, ids: Seq<u64>, caller: AuthModel) -> bool {
    forall|k: int|
        0 <= k < ids.len() ==> exists|i: int|
            0 <= i < table.rows.len() && (#[trigger] table.rows[i]).1.id == #[trigger] ids[k] && deletion_of(
                table,
                node,
                table.rows[i].1,
                caller,
            )
}

proof fn deletions_are_right(
    table: TableModel,
    node: Json,
    from: int,
    ids: Seq<u64>,
    output: Seq<Json>,
    caller: AuthModel,
)
    requires
        deletions_come(table, node, ids, caller),
    ensures
        match deletions_from(table, node, from, ids, output, caller) {
            Ok((list, _)) => deletions_come(table, node, list, caller),
            Err(_) => true,
        },
    decreases table.rows.len() - from,
{
    if 0 <= from < table.rows.len() {
        let row = table.rows[from].1;
        match reached(table, child(node, "selection"@), "DELETE"@, row.values, caller) {
            Ok(true) => match crate::dml::returned(child(node, "returning"@), row.values, output, caller) {
                Ok(shown) => {
                    let more = ids.push(row.id);
                    assert forall|k: int| 0 <= k < more.len() implies exists|i: int|
                        0 <= i < table.rows.len() && (#[trigger] table.rows[i]).1.id == #[trigger] more[k] && deletion_of(
                            table,
                            node,
                            table.rows[i].1,
                            caller,
                        ) by {
                        if k < ids.len() {
                            let i = choose|i: int|
                                0 <= i < table.rows.len() && (#[trigger] table.rows[i]).1.id == ids[k] && deletion_of(
                                    table,
                                    node,
                                    table.rows[i].1,
                                    caller,
                                );
                            assert(table.rows[i].1.id == more[k]);
                        } else {
                            assert(table.rows[from].1.id == more[k]);
                        }
                    }
                    deletions_are_right(table, node, from + 1, more, shown, caller);
                },
                Err(_) => {},
            },
            Ok(false) => {
                deletions_are_right(table, node, from + 1, ids, output, caller);
            },
            Err(_) => {},
        }
    }
}

proof fn rows_removed(rows: Rows, ids: Seq<u64>, from: int, id: u64)
    requires
        sorted(rows),
        0 <= from,
    ensures
        ({
            let found = get(rows_removed_from(rows, ids, from), id);
            found == get(rows, id) || (found is None && exists|k: int| from <= k < ids.len() && #[trigger] ids[k] == id)
        }),
    decreases ids.len() - from,
{
    if from < ids.len() {
        del_keeps_order(rows, ids[from]);
        get_after_del(rows, ids[from], id);
        rows_removed(del(rows, ids[from]), ids, from + 1, id);
        assert(ids[from] == ids[from]);
    }
}

/// A deletion removes only rows that it reaches and the policies let the caller delete; every other
/// row stays as it is.
pub proof fn deletions_respect_policies(
    database: DatabaseModel,
    node: Json,
    caller: AuthModel,
    name: Seq<char>,
    table: TableModel,
    id: u64,
)
    requires
        sorted(database.catalog),
        numbered(table.rows),
        factor_name_of(child(item(child(node, "from"@), 0), "relation"@)) == Ok::<Seq<char>, Failure>(name),
        table_of(database, name) == Ok::<TableModel, Failure>(table),
    ensures
        match deleted(database, node, caller) {
            Ok((next, _)) => get(next.catalog, name) matches Some(after) && (get(after.rows, id) == get(
                table.rows,
                id,
            ) || (get(after.rows, id) is None && get(table.rows, id) is Some && deletion_of(
                table,
                node,
                get(table.rows, id)->Some_0,
                caller,
            ))),
            Err(_) => true,
        },
{
    match deleted(database, node, caller) {
        Ok((next, _)) => {
            deletions_are_right(table, node, 0, Seq::empty(), Seq::empty(), caller);
            let ids = deletions_from(table, node, 0, Seq::empty(), Seq::empty(), caller)->Ok_0.0;
            let rows = rows_removed_from(table.rows, ids, 0);
            get_after_put(database.catalog, name, TableModel { rows, ..table }, name);
            rows_removed(table.rows, ids, 0, id);
            if get(rows, id) != get(table.rows, id) {
                let k = choose|k: int| 0 <= k < ids.len() && #[trigger] ids[k] == id;
                let i = choose|i: int|
                    0 <= i < table.rows.len() && (#[trigger] table.rows[i]).1.id == ids[k] && deletion_of(
                        table,
                        node,
                        table.rows[i].1,
                        caller,
                    );
                assert(table.rows[i].1.id == ids[k]);
                get_at(table.rows, i);
            }
        },
        Err(_) => {},
    }
}

proof fn reached_rows_go(
    table: TableModel,
    node: Json,
    from: int,
    ids: Seq<u64>,
    output: Seq<Json>,
    caller: AuthModel,
    i: int,
)
    requires
        0 <= from,
        0 <= i < table.rows.len(),
        reaches(table, node, "DELETE"@, table.rows[i].1, caller),
        i < from ==> ids.contains(table.rows[i].1.id),
    ensures
        match deletions_from(table, node, from, ids, output, caller) {
            Ok((list, _)) => list.contains(table.rows[i].1.id),
            Err(_) => true,
        },
    decreases table.rows.len() - from,
{
    if from < table.rows.len() {
        let row = table.rows[from].1;
        match reached(table, child(node, "selection"@), "DELETE"@, row.values, caller) {
            Ok(true) => match crate::dml::returned(child(node, "returning"@), row.values, output, caller) {
                Ok(shown) => {
                    let more = ids.push(row.id);
                    if i < from {
                        let k = choose|k: int| 0 <= k < ids.len() && ids[k] == table.rows[i].1.id;
                        assert(more[k] == table.rows[i].1.id);
                    } else if i == from {
                        assert(more[ids.len() as int] == row.id);
                    }
                    reached_rows_go(table, node, from + 1, more, shown, caller, i);
                },
                Err(_) => {},
            },
            Ok(false) => {
                reached_rows_go(table, node, from + 1, ids, output, caller, i);
            },
            Err(_) => {},
        }
    }
}

proof fn listed_row_goes(rows: Rows, ids: Seq<u64>, from: int, id: u64)
    requires
        sorted(rows),
        0 <= from,
        get(rows, id) is None || exists|k: int| from <= k < ids.len() && #[trigger] ids[k] == id,
    ensures
        get(rows_removed_from(rows, ids, from), id) is None,
    decreases ids.len() - from,
{
    if from < ids.len() {
        del_keeps_order(rows, ids[from]);
        get_after_del(rows, ids[from], id);
        if get(rows, id) is Some && ids[from] != id {
            let k = choose|k: int| from <= k < ids.len() && #[trigger] ids[k] == id;
            assert(from + 1 <= k && ids[k] == id);
        }
        listed_row_goes(del(rows, ids[from]), ids, from + 1, id);
    }
}

/// A deletion that succeeds removes every row that it reaches and the policies let the caller delete.
pub proof fn deletions_are_complete(
    database: DatabaseModel,
    node: Json,
    caller: AuthModel,
    name: Seq<char>,
    table: TableModel,
    i: int,
)
    requires
        sorted(database.catalog),
        numbered(table.rows),
        factor_name_of(child(item(child(node, "from"@), 0), "relation"@)) == Ok::<Seq<char>, Failure>(name),
        table_of(database, name) == Ok::<TableModel, Failure>(table),
        0 <= i < table.rows.len(),
        reached(table, child(node, "selection"@), "DELETE"@, table.rows[i].1.values, caller) == Ok::<bool, Failure>(
            true,
        ),
    ensures
        match deleted(database, node, caller) {
            Ok((next, _)) => get(next.catalog, name) matches Some(after) && get(after.rows, table.rows[i].0) is None,
            Err(_) => true,
        },
{
    match deleted(database, node, caller) {
        Ok((next, _)) => {
            let id = table.rows[i].1.id;
            reached_rows_go(table, node, 0, Seq::empty(), Seq::empty(), caller, i);
            let ids = deletions_from(table, node, 0, Seq::empty(), Seq::empty(), caller)->Ok_0.0;
            let rows = rows_removed_from(table.rows, ids, 0);
            get_after_put(database.catalog, name, TableModel { rows, ..table }, name);
            let k = choose|k: int| 0 <= k < ids.len() && ids[k] == id;
            assert(ids[k] == id);
            listed_row_goes(table.rows, ids, 0, id);
        },
        Err(_) => {},
    }
}

} // verus!
