//! In what order a plan writes.

use vstd::prelude::*;
use crate::catalog::{DatabaseModel, TableModel};
use crate::chain::OperationModel;
use crate::ordmap::has_key;
use crate::projection::{
    all_removals_from, all_writes_from, catalog_writes, cell_write, cell_writes_from, former, former_row, held,
    migration_write, migration_writes_from, planned, removals_from, row_creation, row_removal, row_writes, table_with,
    table_writes_from, unchanged,
};

verus! {

/// Whether the write at position `j` is one to the row at position `r` of the table at position `t`
/// of the new catalog, and comes after the creation of that row where the row is new.
pub open spec fn written_in_turn(
    before: DatabaseModel,
    after: DatabaseModel,
    plan: Seq<OperationModel>,
    j: int,
    t: int,
    r: int,
) -> bool {
    let table = after.catalog[t].1;
    let row = table.rows[r].1;
    &&& 0 <= t < after.catalog.len()
    &&& 0 <= r < table.rows.len()
    &&& plan[j].table_id == row_creation(table.id, row.id).table_id
    &&& plan[j].row_id == row_creation(table.id, row.id).row_id
    &&& former_row(table_with(before.catalog, table.id), row.id) is None ==> created_before(plan, j, table.id, row.id)
}

/// Whether the creation of a row stands before position `j`.
pub open spec fn created_before(plan: Seq<OperationModel>, j: int, table: u64, row: u64) -> bool {
    exists|i: int| 0 <= i < j && #[trigger] plan[i] == row_creation(table, row)
}

/// Whether every cell is written to a row of the new state, after the row's creation where the row
/// is new.
pub open spec fn rows_come_first(before: DatabaseModel, after: DatabaseModel, plan: Seq<OperationModel>) -> bool {
    forall|j: int|
        0 <= j < plan.len() && (#[trigger] plan[j]).kind == 3 ==> exists|t: int, r: int|
            written_in_turn(before, after, plan, j, t, r)
}

proof fn one_more_write(before: DatabaseModel, after: DatabaseModel, done: Seq<OperationModel>, op: OperationModel)
    requires
        rows_come_first(before, after, done),
        op.kind == 3 ==> exists|t: int, r: int|
            written_in_turn(before, after, done.push(op), done.len() as int, t, r),
    ensures
        rows_come_first(before, after, done.push(op)),
{
    let more = done.push(op);
    assert forall|j: int| 0 <= j < more.len() && (#[trigger] more[j]).kind == 3 implies exists|t: int, r: int|
        written_in_turn(before, after, more, j, t, r) by {
        if j < done.len() {
            assert(more[j] == done[j]);
            let (t, r) = choose|t: int, r: int| written_in_turn(before, after, done, j, t, r);
            let table = after.catalog[t].1;
            let row = table.rows[r].1;
            if former_row(table_with(before.catalog, table.id), row.id) is None {
                let i = choose|i: int| 0 <= i < j && #[trigger] done[i] == row_creation(table.id, row.id);
                assert(more[i] == row_creation(table.id, row.id));
            }
            assert(written_in_turn(before, after, more, j, t, r));
        }
    }
}

proof fn cells_come_after(
    before: DatabaseModel,
    after: DatabaseModel,
    t: int,
    r: int,
    from: int,
    done: Seq<OperationModel>,
)
    requires
        0 <= t < after.catalog.len(),
        0 <= r < after.catalog[t].1.rows.len(),
        rows_come_first(before, after, done),
        former_row(
            table_with(before.catalog, after.catalog[t].1.id),
            after.catalog[t].1.rows[r].1.id,
        ) is None ==> created_before(
            done,
            done.len() as int,
            after.catalog[t].1.id,
            after.catalog[t].1.rows[r].1.id,
        ),
    ensures
        rows_come_first(
            before,
            after,
            cell_writes_from(
                after.catalog[t].1,
                table_with(before.catalog, after.catalog[t].1.id),
                after.catalog[t].1.rows[r].1,
                former_row(
                    table_with(before.catalog, after.catalog[t].1.id),
                    after.catalog[t].1.rows[r].1.id,
                ),
                from,
                done,
            ),
        ),
    decreases after.catalog[t].1.columns.len() - from,
{
    let table = after.catalog[t].1;
    let row = table.rows[r].1;
    let known = table_with(before.catalog, table.id);
    let known_row = former_row(known, row.id);
    if 0 <= from < table.columns.len() {
        let column = table.columns[from];
        let value = held(row, column.name);
        if unchanged(former(known, known_row, column), value) {
            cells_come_after(before, after, t, r, from + 1, done);
        } else {
            let op = cell_write(table.id, row.id, column, value);
            let more = done.push(op);
            if known_row is None {
                let i = choose|i: int| 0 <= i < done.len() && #[trigger] done[i] == row_creation(table.id, row.id);
                assert(more[i] == row_creation(table.id, row.id));
            }
            assert(written_in_turn(before, after, more, done.len() as int, t, r));
            one_more_write(before, after, done, op);
            cells_come_after(before, after, t, r, from + 1, more);
        }
    }
}

proof fn rows_of_a_table_come_first(
    before: DatabaseModel,
    after: DatabaseModel,
    t: int,
    from: int,
    done: Seq<OperationModel>,
)
    requires
        0 <= t < after.catalog.len(),
        0 <= from,
        rows_come_first(before, after, done),
    ensures
        rows_come_first(
            before,
            after,
            table_writes_from(
                after.catalog[t].1,
                table_with(before.catalog, after.catalog[t].1.id),
                from,
                done,
            ),
        ),
    decreases after.catalog[t].1.rows.len() - from,
{
    let table = after.catalog[t].1;
    let known = table_with(before.catalog, table.id);
    if from < table.rows.len() {
        let row = table.rows[from].1;
        let begun = if former_row(known, row.id) is None {
            done.push(row_creation(table.id, row.id))
        } else {
            done
        };
        if former_row(known, row.id) is None {
            one_more_write(before, after, done, row_creation(table.id, row.id));
            assert(begun[done.len() as int] == row_creation(table.id, row.id));
        }
        cells_come_after(before, after, t, from, 0, begun);
        rows_of_a_table_come_first(before, after, t, from + 1, row_writes(table, known, row, done));
    }
}

proof fn rows_of_all_tables_come_first(
    before: DatabaseModel,
    after: DatabaseModel,
    from: int,
    done: Seq<OperationModel>,
)
    requires
        0 <= from,
        rows_come_first(before, after, done),
    ensures
        rows_come_first(before, after, all_writes_from(before.catalog, after.catalog, from, done)),
    decreases after.catalog.len() - from,
{
    if from < after.catalog.len() {
        let table = after.catalog[from].1;
        rows_of_a_table_come_first(before, after, from, 0, done);
        rows_of_all_tables_come_first(
            before,
            after,
            from + 1,
            table_writes_from(table, table_with(before.catalog, table.id), 0, done),
        );
    }
}

proof fn removals_write_no_cells(
    before: DatabaseModel,
    after: DatabaseModel,
    table: TableModel,
    kept: Option<TableModel>,
    from: int,
    done: Seq<OperationModel>,
)
    requires
        rows_come_first(before, after, done),
    ensures
        rows_come_first(before, after, removals_from(table, kept, from, done)),
    decreases table.rows.len() - from,
{
    if 0 <= from < table.rows.len() {
        let row = table.rows[from].1;
        if kept is None || !has_key(kept->Some_0.rows, row.id) {
            one_more_write(before, after, done, row_removal(table.id, row.id));
            removals_write_no_cells(before, after, table, kept, from + 1, done.push(row_removal(table.id, row.id)));
        } else {
            removals_write_no_cells(before, after, table, kept, from + 1, done);
        }
    }
}

proof fn all_removals_write_no_cells(
    before: DatabaseModel,
    after: DatabaseModel,
    from: int,
    done: Seq<OperationModel>,
)
    requires
        rows_come_first(before, after, done),
    ensures
        rows_come_first(before, after, all_removals_from(before.catalog, after.catalog, from, done)),
    decreases before.catalog.len() - from,
{
    if 0 <= from < before.catalog.len() {
        let table = before.catalog[from].1;
        let kept = table_with(after.catalog, table.id);
        removals_write_no_cells(before, after, table, kept, 0, done);
        all_removals_write_no_cells(before, after, from + 1, removals_from(table, kept, 0, done));
    }
}

proof fn migrations_write_no_cells(
    before: DatabaseModel,
    after: DatabaseModel,
    from: int,
    done: Seq<OperationModel>,
)
    requires
        rows_come_first(before, after, done),
    ensures
        rows_come_first(before, after, migration_writes_from(before.migrations, after.migrations, from, done)),
    decreases after.migrations.len() - from,
{
    if 0 <= from < after.migrations.len() {
        let version = after.migrations[from].0;
        if has_key(before.migrations, version) {
            migrations_write_no_cells(before, after, from + 1, done);
        } else {
            one_more_write(before, after, done, migration_write(version));
            migrations_write_no_cells(before, after, from + 1, done.push(migration_write(version)));
        }
    }
}

/// In a plan every cell is written to a row of the new state, and where that row is new its creation
/// comes earlier.
pub proof fn rows_are_created_before_their_cells(before: DatabaseModel, after: DatabaseModel)
    ensures
        rows_come_first(before, after, planned(before, after)),
{
    let first = catalog_writes(before, after);
    assert(rows_come_first(before, after, first));
    all_removals_write_no_cells(before, after, 0, first);
    let removed = all_removals_from(before.catalog, after.catalog, 0, first);
    rows_of_all_tables_come_first(before, after, 0, removed);
    let written = all_writes_from(before.catalog, after.catalog, 0, removed);
    migrations_write_no_cells(before, after, 0, written);
}

} // verus!
