//! Commits on a chain: what batches run on a rebuilt state leave behind is rebuilt again.

use vstd::prelude::*;
use crate::catalog::{AuthModel, CellsModel, ColumnModel, Database, DatabaseModel, RowModel, TableModel};
use crate::chain::{id_of, ChangeModel};
use crate::definitions::plain_name;
use crate::execute::{batch_executed, migration_applied};
use crate::json::Json;
use crate::ordmap::{
    del, del_keeps_order, get, get_absent, get_after_del, get_after_put, get_at, has_key, put, put_keeps_order,
    sorted, spot_from, spot_from_range,
};
use crate::projection::{
    bare, bare_table, blank, catalog_write, decoded, defines, faithful, filled, filled_from, held, planned, reads_as,
    rebuilt, replay_faithful, replay_from, replay_sound, row_cells_from, row_named, settled, stepped, stored_cell,
    table_rows_from, ReplayError, ReplayModel, TraceModel,
};
use crate::replay::{
    cell_kept, change_of, changes_of, definitions_come_first, documents_faithful, every_cell_is_faithful,
    every_document_is_faithful, faithful_definitions, is_row, json_reads_back, legible, replay_continues,
    replay_follows_commit, replay_restores, restored_to, row_kept, sound, spent, standing_is_sound, stands_for,
};
use crate::same::{json_alike_to_itself, Same};
use crate::upkeep::{
    batches_keep_states_sound, migrations_keep_states_sound, plainly_named_batch, tables_kept, table_kept, well_kept,
    well_kept_is_sound,
};

verus! {

// ---------------------------------------------------------------------------------------------
// What a replay keeps
// ---------------------------------------------------------------------------------------------

/// Whether the rows of a replay and their cells are in order, and every identity is spent.
pub open spec fn replay_ordered(replay: ReplayModel) -> bool {
    &&& sorted(replay.rows)
    &&& sorted(replay.allocators)
    &&& forall|named: (u64, u64)| #[trigger]
        get(replay.rows, named) matches Some(trace) ==> sorted(trace.cells) && spent(
            replay.allocators,
            named.0,
            named.1,
        )
}

proof fn step_keeps_order(replay: ReplayModel, change: ChangeModel)
    requires
        replay_ordered(replay),
    ensures
        stepped(replay, change) matches Ok(next) ==> replay_ordered(next),
{
    match stepped(replay, change) {
        Ok(next) => {
            if change.kind == 2 || change.kind == 3 || change.kind == 4 || change.kind == 5 {
                match row_named(change) {
                    Ok(named) => {
                        let (table, row) = named;
                        if change.kind == 2 {
                            let trace = TraceModel { version: change.revision, cells: Seq::empty() };
                            put_keeps_order(replay.rows, named, trace);
                            put_keeps_order(replay.allocators, table, (row + 1) as u64);
                            assert forall|other: (u64, u64)| #[trigger] get(next.rows, other) is Some implies sorted(get(next.rows, other)->Some_0.cells) && spent(next.allocators, other.0, other.1) by {
                                get_after_put(replay.rows, named, trace, other);
                                get_after_put(replay.allocators, table, (row + 1) as u64, other.0);
                                if other != named {
                                    assert(get(replay.rows, other) is Some);
                                }
                            }
                        } else if change.kind == 3 {
                            let old_trace = get(replay.rows, named)->Some_0;
                            let trace = TraceModel {
                                version: change.revision,
                                cells: put(old_trace.cells, change.column, change.data),
                            };
                            put_keeps_order(old_trace.cells, change.column, change.data);
                            put_keeps_order(replay.rows, named, trace);
                            assert forall|other: (u64, u64)| #[trigger] get(next.rows, other) is Some implies sorted(get(next.rows, other)->Some_0.cells) && spent(next.allocators, other.0, other.1) by {
                                get_after_put(replay.rows, named, trace, other);
                                assert(get(replay.rows, other) is Some);
                            }
                        } else if change.kind == 4 {
                            match get(replay.rows, named) {
                                Some(old_trace) => {
                                    let trace = TraceModel {
                                        version: change.revision,
                                        cells: del(old_trace.cells, change.column),
                                    };
                                    del_keeps_order(old_trace.cells, change.column);
                                    put_keeps_order(replay.rows, named, trace);
                                    assert forall|other: (u64, u64)| #[trigger] get(next.rows, other) is Some implies sorted(get(next.rows, other)->Some_0.cells) && spent(next.allocators, other.0, other.1) by {
                                        get_after_put(replay.rows, named, trace, other);
                                        assert(get(replay.rows, other) is Some);
                                    }
                                },
                                None => {},
                            }
                        } else {
                            del_keeps_order(replay.rows, named);
                            assert forall|other: (u64, u64)| #[trigger] get(next.rows, other) is Some implies sorted(get(next.rows, other)->Some_0.cells) && spent(next.allocators, other.0, other.1) by {
                                get_after_del(replay.rows, named, other);
                                assert(get(replay.rows, other) is Some);
                            }
                        }
                    },
                    Err(_) => {},
                }
            }
        },
        Err(_) => {},
    }
}

proof fn replay_keeps_order(changes: Seq<ChangeModel>, from: int, replay: ReplayModel)
    requires
        replay_ordered(replay),
    ensures
        replay_from(changes, from, replay) matches Ok(next) ==> replay_ordered(next),
    decreases changes.len() - from,
{
    if 0 <= from < changes.len() {
        step_keeps_order(replay, changes[from]);
        match stepped(replay, changes[from]) {
            Ok(next) => {
                replay_keeps_order(changes, from + 1, next);
            },
            Err(_) => {},
        }
    }
}

proof fn blank_is_ordered()
    ensures
        replay_ordered(blank()),
{
    assert forall|named: (u64, u64)| #[trigger] get(blank().rows, named) is None by {
        get_absent(blank().rows, named);
    }
}

// ---------------------------------------------------------------------------------------------
// The rows of a rebuilt table
// ---------------------------------------------------------------------------------------------

/// Whether the cells of a row are what its stored cells are read as.
spec fn cells_come(columns: Seq<ColumnModel>, cells: Seq<(Seq<u8>, Seq<u8>)>, upto: int, values: CellsModel) -> bool {
    &&& sorted(values)
    &&& forall|q: int|
        0 <= q < upto ==> Ok::<Option<Json>, ReplayError>(get(values, (#[trigger] columns[q]).name)) == (
        match stored_cell(columns[q], cells) {
            Ok(value) => Ok(Some(value)),
            Err(error) => Err(error),
        })
}

/// Whether columns have names of their own.
spec fn own_names(columns: Seq<ColumnModel>) -> bool {
    forall|p: int, q: int|
        #![trigger columns[p], columns[q]]
        0 <= p < q < columns.len() ==> columns[p].name != columns[q].name
}

proof fn row_cells_come(
    columns: Seq<ColumnModel>,
    cells: Seq<(Seq<u8>, Seq<u8>)>,
    from: int,
    done: CellsModel,
)
    requires
        0 <= from <= columns.len(),
        own_names(columns),
        cells_come(columns, cells, from, done),
    ensures
        row_cells_from(columns, cells, from, done) matches Ok(values) ==> cells_come(
            columns,
            cells,
            columns.len() as int,
            values,
        ),
    decreases columns.len() - from,
{
    if from < columns.len() {
        match stored_cell(columns[from], cells) {
            Ok(value) => {
                let next = put(done, columns[from].name, value);
                put_keeps_order(done, columns[from].name, value);
                assert forall|q: int| 0 <= q < from + 1 implies Ok::<Option<Json>, ReplayError>(
                    get(next, (#[trigger] columns[q]).name),
                ) == (match stored_cell(columns[q], cells) {
                    Ok(value) => Ok(Some(value)),
                    Err(error) => Err(error),
                }) by {
                    get_after_put(done, columns[from].name, value, columns[q].name);
                    if q < from {
                        assert(columns[q].name != columns[from].name);
                    }
                }
                row_cells_come(columns, cells, from + 1, next);
            },
            Err(_) => {},
        }
    }
}

/// Whether rows of a table are those of a replay before a position.
spec fn rows_come(
    table: TableModel,
    rows: Seq<((u64, u64), TraceModel)>,
    upto: int,
    done: Seq<(u64, RowModel)>,
) -> bool {
    &&& sorted(done)
    &&& forall|p: int| 0 <= p < upto && (#[trigger] rows[p]).0.0 == table.id ==> has_key(done, rows[p].0.1)
    &&& forall|id: u64| #[trigger]
        get(done, id) matches Some(row) ==> row.id == id && exists|p: int|
            0 <= p < upto && (#[trigger] rows[p]).0 == (table.id, id) && cells_come(
                table.columns,
                rows[p].1.cells,
                table.columns.len() as int,
                row.values,
            )
}

proof fn table_rows_come(
    table: TableModel,
    rows: Seq<((u64, u64), TraceModel)>,
    from: int,
    done: Seq<(u64, RowModel)>,
)
    requires
        0 <= from <= rows.len(),
        own_names(table.columns),
        rows_come(table, rows, from, done),
    ensures
        table_rows_from(table, rows, from, done) matches Ok(found) ==> rows_come(
            table,
            rows,
            rows.len() as int,
            found,
        ),
    decreases rows.len() - from,
{
    if from < rows.len() {
        if rows[from].0.0 != table.id {
            assert(rows_come(table, rows, from + 1, done));
            table_rows_come(table, rows, from + 1, done);
        } else {
            let none: CellsModel = Seq::empty();
            let cells = rows[from].1.cells;
            assert(cells_come(table.columns, cells, 0, none));
            row_cells_come(table.columns, cells, 0, none);
            match row_cells_from(table.columns, cells, 0, none) {
                Ok(values) => {
                    let id = rows[from].0.1;
                    let row = RowModel { id, version: rows[from].1.version, values };
                    let next = put(done, id, row);
                    put_keeps_order(done, id, row);
                    assert forall|p: int| 0 <= p < from + 1 && (#[trigger] rows[p]).0.0 == table.id implies has_key(
                        next,
                        rows[p].0.1,
                    ) by {
                        get_after_put(done, id, row, rows[p].0.1);
                    }
                    assert forall|wanted: u64| #[trigger] get(next, wanted) is Some implies get(next, wanted)->Some_0.id == wanted
                        && exists|p: int|
                        0 <= p < from + 1 && (#[trigger] rows[p]).0 == (table.id, wanted) && cells_come(
                            table.columns,
                            rows[p].1.cells,
                            table.columns.len() as int,
                            get(next, wanted)->Some_0.values,
                        ) by {
                        get_after_put(done, id, row, wanted);
                        if wanted == id {
                            assert(rows[from].0 == (table.id, wanted));
                        } else {
                            let found = get(done, wanted)->Some_0;
                            let p = choose|p: int|
                                0 <= p < from && (#[trigger] rows[p]).0 == (table.id, wanted) && cells_come(
                                    table.columns,
                                    rows[p].1.cells,
                                    table.columns.len() as int,
                                    found.values,
                                );
                            assert(rows[p].0 == (table.id, wanted));
                        }
                    }
                    table_rows_come(table, rows, from + 1, next);
                },
                Err(_) => {},
            }
        }
    }
}

proof fn filled_tables(catalog: Seq<(Seq<char>, TableModel)>, replay: ReplayModel, from: int, done: Seq<
    (Seq<char>, TableModel),
>)
    requires
        0 <= from <= catalog.len(),
        done.len() == from,
        forall|i: int|
            0 <= i < from ==> (#[trigger] done[i]).0 == catalog[i].0 && filled(catalog[i].1, replay) == Ok::<
                TableModel,
                ReplayError,
            >(done[i].1),
    ensures
        filled_from(catalog, replay, from, done) matches Ok(after) ==> after.len() == catalog.len() && (forall|i: int|
            0 <= i < catalog.len() ==> (#[trigger] after[i]).0 == catalog[i].0 && filled(catalog[i].1, replay) == Ok::<
                TableModel,
                ReplayError,
            >(after[i].1)),
    decreases catalog.len() - from,
{
    if from < catalog.len() {
        match filled(catalog[from].1, replay) {
            Ok(table) => {
                filled_tables(catalog, replay, from + 1, done.push((catalog[from].0, table)));
            },
            Err(_) => {},
        }
    }
}

// ---------------------------------------------------------------------------------------------
// Rebuilt states
// ---------------------------------------------------------------------------------------------

/// Whether a replay can be built on, as commits leave it: its definitions are well kept and without rows,
/// and no row strays, each is one of a table.
pub open spec fn replay_lasting(replay: ReplayModel) -> bool {
    &&& well_kept(replay.database)
    &&& bare(replay.database) == replay.database
    &&& forall|named: (u64, u64)| #[trigger] has_key(replay.rows, named) ==> is_table(replay.database.catalog, named.0)
}

/// Whether some table has an identity.
pub open spec fn is_table(catalog: Seq<(Seq<char>, TableModel)>, id: u64) -> bool {
    exists|i: int| 0 <= i < catalog.len() && (#[trigger] catalog[i]).1.id == id
}

/// Whether the changes of a chain can be built on: they are replayed, and leave well kept definitions and
/// no stray rows, whoever wrote them.
pub open spec fn lasting(changes: Seq<ChangeModel>) -> bool {
    replay_from(changes, 0, blank()) matches Ok(replay) && replay_lasting(replay)
}

/// A chain without changes can be built on.
pub proof fn no_changes_last()
    ensures
        lasting(Seq::empty()),
{
    crate::upkeep::empty_is_well_kept();
    assert(bare(blank().database).catalog =~= blank().database.catalog);
    assert forall|named: (u64, u64)| #[trigger] has_key(blank().rows, named) implies is_table(
        blank().database.catalog,
        named.0,
    ) by {
        get_absent(blank().rows, named);
    }
}

/// A table that was rebuilt: its shape and its rows.
proof fn filled_table(shape: TableModel, replay: ReplayModel, next: u64)
    requires
        replay_ordered(replay),
        table_kept(shape, next),
    ensures
        filled(shape, replay) matches Ok(table) ==> {
            &&& table == (TableModel { rows: table.rows, next_row_id: table.next_row_id, ..shape })
            &&& rows_come(shape, replay.rows, replay.rows.len() as int, table.rows)
            &&& table_kept(table, next)
        },
{
    let none = Seq::<(u64, RowModel)>::empty();
    assert forall|id: u64| #[trigger] get(none, id) is None by {
        get_absent(none, id);
    }
    assert(own_names(shape.columns));
    assert(rows_come(shape, replay.rows, 0, none));
    table_rows_come(shape, replay.rows, 0, none);
    match filled(shape, replay) {
        Ok(table) => {
            let rows = table.rows;
            assert forall|i: int| 0 <= i < rows.len() implies (#[trigger] rows[i]).0 == rows[i].1.id && rows[i].0
                < table.next_row_id && sorted(rows[i].1.values) by {
                get_at(rows, i);
                let id = rows[i].0;
                assert(get(rows, id) == Some(rows[i].1));
                let p = choose|p: int|
                    0 <= p < replay.rows.len() && (#[trigger] replay.rows[p]).0 == (shape.id, id) && cells_come(
                        shape.columns,
                        replay.rows[p].1.cells,
                        shape.columns.len() as int,
                        rows[i].1.values,
                    );
                get_at(replay.rows, p);
                assert(get(replay.rows, (shape.id, id)) is Some);
                assert(spent(replay.allocators, shape.id, id));
            }
        },
        Err(_) => {},
    }
}

/// A state that is rebuilt from changes that can be built on is well kept, and stands for their replay.
proof fn rebuilt_is_kept(changes: Seq<ChangeModel>, replay: ReplayModel, database: DatabaseModel)
    requires
        replay_from(changes, 0, blank()) == Ok::<ReplayModel, ReplayError>(replay),
        replay_lasting(replay),
        settled(replay) == Ok::<DatabaseModel, ReplayError>(database),
    ensures
        well_kept(database),
        stands_for(replay, database),
{
    blank_is_ordered();
    replay_keeps_order(changes, 0, blank());
    let shapes = replay.database.catalog;
    let n = replay.database.next_object_id;
    filled_tables(shapes, replay, 0, Seq::empty());
    let tables = database.catalog;
    assert forall|i: int| 0 <= i < tables.len() implies (#[trigger] tables[i]).0 == shapes[i].0 && tables[i].1 == (
    TableModel { rows: tables[i].1.rows, next_row_id: tables[i].1.next_row_id, ..shapes[i].1 }) && rows_come(
        shapes[i].1,
        replay.rows,
        replay.rows.len() as int,
        tables[i].1.rows,
    ) && table_kept(tables[i].1, n) by {
        assert(table_kept(shapes[i].1, n));
        filled_table(shapes[i].1, replay, n);
    }
    assert(tables_kept(tables, n)) by {
        assert forall|i: int, j: int|
            #![trigger tables[i], tables[j]]
            0 <= i < j < tables.len() implies crate::ordmap::Ranked::before(tables[i].0, tables[j].0) && tables[i].1.id
            != tables[j].1.id by {
            assert(shapes[i].1.id != shapes[j].1.id);
        }
        assert forall|i: int| 0 <= i < tables.len() implies plain_name((#[trigger] tables[i]).0) by {
            assert(plain_name(shapes[i].0));
        }
    }
    assert(bare(database) == replay.database) by {
        assert(bare(database).catalog =~= bare(replay.database).catalog);
    }
    Database::alike_to_itself(replay.database);
    assert forall|i: int, j: int|
        #![trigger tables[i].1.rows[j]]
        0 <= i < tables.len() && 0 <= j < tables[i].1.rows.len() implies row_kept(
        replay.rows,
        tables[i].1,
        tables[i].1.rows[j].1,
    ) by {
        let table = tables[i].1;
        let row = table.rows[j].1;
        get_at(table.rows, j);
        let id = table.rows[j].0;
        assert(get(table.rows, id) == Some(row));
        let p = choose|p: int|
            0 <= p < replay.rows.len() && (#[trigger] replay.rows[p]).0 == (table.id, id) && cells_come(
                table.columns,
                replay.rows[p].1.cells,
                table.columns.len() as int,
                row.values,
            );
        get_at(replay.rows, p);
        let trace = replay.rows[p].1;
        assert(get(replay.rows, (table.id, row.id)) == Some(trace));
        assert forall|q: int| 0 <= q < table.columns.len() implies cell_kept(
            trace.cells,
            #[trigger] table.columns[q],
            row,
        ) by {
            let column = table.columns[q];
            let value = held(row, column.name);
            json_alike_to_itself(value);
            match get(trace.cells, id_of(column.id)) {
                Some(bytes) => {
                    assert(decoded(column.data_type, bytes) == Ok::<Json, ReplayError>(value));
                    assert(reads_as(column.data_type, bytes, value));
                },
                None => {
                    assert(value == Json::Null);
                },
            }
        }
    }
    assert forall|named: (u64, u64)| #[trigger] has_key(replay.rows, named) implies is_row(tables, named) by {
        let i = choose|i: int| 0 <= i < shapes.len() && (#[trigger] shapes[i]).1.id == named.0;
        spot_from_range(replay.rows, named, 0);
        let p = spot_from(replay.rows, named, 0);
        assert(replay.rows[p].0.0 == shapes[i].1.id);
        assert(has_key(tables[i].1.rows, named.1));
    }
}

/// A state that is rebuilt from changes that can be built on is well kept.
pub proof fn rebuilt_states_are_well_kept(changes: Seq<ChangeModel>, database: DatabaseModel)
    requires
        lasting(changes),
        rebuilt(changes) == Ok::<DatabaseModel, ReplayError>(database),
    ensures
        well_kept(database),
{
    let replay = replay_from(changes, 0, blank())->Ok_0;
    rebuilt_is_kept(changes, replay, database);
}

proof fn bare_is_kept(database: DatabaseModel)
    requires
        well_kept(database),
    ensures
        well_kept(bare(database)),
        bare(bare(database)) == bare(database),
{
    let a = database.catalog;
    let b = bare(database).catalog;
    assert forall|i: int, j: int|
        #![trigger b[i], b[j]]
        0 <= i < j < b.len() implies crate::ordmap::Ranked::before(b[i].0, b[j].0) && b[i].1.id != b[j].1.id by {
        assert(a[i].1.id != a[j].1.id);
    }
    assert forall|i: int| 0 <= i < b.len() implies table_kept((#[trigger] b[i]).1, database.next_object_id)
        && plain_name(b[i].0) by {
        assert(table_kept(a[i].1, database.next_object_id));
        assert(plain_name(a[i].0));
    }
    assert(bare(bare(database)).catalog =~= bare(database).catalog);
}

/// The changes of a chain with those of a commit behind them, which takes the state that they stand for
/// to the next one.
pub open spec fn commit_on(changes: Seq<ChangeModel>, next: DatabaseModel, revision: u64) -> Seq<ChangeModel> {
    match rebuilt(changes) {
        Ok(database) => changes + changes_of(planned(database, next), revision),
        Err(_) => changes,
    }
}

/// Whether a state can be committed on the changes of a chain and is sure to be read back.
pub open spec fn committable(changes: Seq<ChangeModel>, next: DatabaseModel) -> bool {
    lasting(changes) && rebuilt(changes) is Ok && well_kept(next) && legible(next)
}

/// The replay of a commit whose definitions are among the first `m` changes.
proof fn commit_stands_for(changes: Seq<ChangeModel>, next: DatabaseModel, revision: u64, m: int) -> (replay: ReplayModel)
    requires
        committable(changes, next),
        documents_faithful(commit_on(changes, next, revision), m),
        changes.len() < m || commit_on(changes, next, revision).len() <= m,
    ensures
        replay_from(commit_on(changes, next, revision), 0, blank()) == Ok::<ReplayModel, ReplayError>(replay),
        stands_for(replay, next),
        sound(next),
{
    let earlier = replay_from(changes, 0, blank())->Ok_0;
    let database = rebuilt(changes)->Ok_0;
    let ops = planned(database, next);
    let whole = commit_on(changes, next, revision);
    rebuilt_is_kept(changes, earlier, database);
    well_kept_is_sound(database);
    well_kept_is_sound(next);
    if !Database::alike(bare(database), bare(next)) {
        definitions_come_first(database, next);
        let at = changes.len() as int;
        assert(whole[at] == changes_of(ops, revision)[0]);
        assert(whole[at] == change_of(catalog_write(next), revision));
        assert(defines(whole[at]));
        faithful_definitions(next);
    }
    let after = replay_follows_commit(database, next, earlier, revision);
    replay_continues(changes, changes_of(ops, revision), blank());
    after
}

/// No change fails to be replayed on a chain with such a commit, where the definitions up to it are read
/// faithfully.
pub proof fn no_committed_change_fails(changes: Seq<ChangeModel>, next: DatabaseModel, revision: u64, i: int)
    requires
        committable(changes, next),
        0 <= i < commit_on(changes, next, revision).len(),
        documents_faithful(commit_on(changes, next, revision), i + 1),
    ensures
        replay_from(commit_on(changes, next, revision).take(i + 1), 0, blank()) is Ok,
{
    let whole = commit_on(changes, next, revision);
    let part = if i < changes.len() {
        changes
    } else {
        let replay = commit_stands_for(changes, next, revision, i + 1);
        whole
    };
    assert(whole.take(i + 1) =~= part.take(i + 1));
    assert(part =~= part.take(i + 1) + part.skip(i + 1));
    replay_continues(part.take(i + 1), part.skip(i + 1), blank());
}

/// What the replay of a chain with such a commit is, where its definitions are read faithfully.
pub proof fn commit_settles(changes: Seq<ChangeModel>, next: DatabaseModel, revision: u64, replay: ReplayModel)
    requires
        committable(changes, next),
        documents_faithful(commit_on(changes, next, revision), commit_on(changes, next, revision).len() as int),
        replay_from(commit_on(changes, next, revision), 0, blank()) == Ok::<ReplayModel, ReplayError>(replay),
    ensures
        replay_sound(replay),
        replay_faithful(replay) ==> restored_to(settled(replay), next),
{
    let same = commit_stands_for(changes, next, revision, commit_on(changes, next, revision).len() as int);
    standing_is_sound(next, replay);
    if replay_faithful(replay) {
        let restored = replay_restores(next, replay);
    }
}

/// What a commit leaves on a chain that can be built on.
proof fn commit_lasts(
    changes: Seq<ChangeModel>,
    database: DatabaseModel,
    next: DatabaseModel,
    revision: u64,
)
    requires
        lasting(changes),
        rebuilt(changes) == Ok::<DatabaseModel, ReplayError>(database),
        well_kept(next),
        legible(next),
        json_reads_back(),
    ensures
        lasting(changes + changes_of(planned(database, next), revision)),
        restored_to(rebuilt(changes + changes_of(planned(database, next), revision)), next),
{
    let replay = replay_from(changes, 0, blank())->Ok_0;
    rebuilt_is_kept(changes, replay, database);
    well_kept_is_sound(database);
    well_kept_is_sound(next);
    every_document_is_faithful(catalog_write(next).data);
    faithful_definitions(next);
    let after = replay_follows_commit(database, next, replay, revision);
    let more = changes_of(planned(database, next), revision);
    replay_continues(changes, more, blank());
    assert forall|data_type: Seq<char>, bytes: Seq<u8>| #[trigger] faithful(data_type, bytes) by {
        every_cell_is_faithful(data_type, bytes);
    }
    assert(replay_faithful(after));
    let restored = replay_restores(next, after);
    bare_is_kept(next);
    assert forall|named: (u64, u64)| #[trigger] has_key(after.rows, named) implies is_table(
        after.database.catalog,
        named.0,
    ) by {
        assert(is_row(next.catalog, named));
        let i = choose|i: int|
            #![trigger next.catalog[i]]
            0 <= i < next.catalog.len() && next.catalog[i].1.id == named.0 && has_key(next.catalog[i].1.rows, named.1);
        assert(after.database.catalog.len() == bare(next).catalog.len());
        assert(bare(next).catalog[i] == (next.catalog[i].0, bare_table(next.catalog[i].1)));
        assert(after.database.catalog[i].0 == bare(next).catalog[i].0);
        assert(crate::catalog::Table::alike(after.database.catalog[i].1, bare(next).catalog[i].1));
    }
}

/// The writes of a batch that ran on a rebuilt state, put behind the changes it was rebuilt from, rebuild
/// the state that the batch left, and may be built on again. JSON has to keep that state whole, and the
/// batch must name no table by a name with a schema inside.
pub proof fn batches_are_restored(
    changes: Seq<ChangeModel>,
    database: DatabaseModel,
    sql: Seq<char>,
    caller: AuthModel,
    revision: u64,
)
    requires
        lasting(changes),
        rebuilt(changes) == Ok::<DatabaseModel, ReplayError>(database),
        plainly_named_batch(sql),
        json_reads_back(),
    ensures
        match batch_executed(database, sql, caller) {
            Ok((next, _)) => legible(next) ==> lasting(changes + changes_of(planned(database, next), revision))
                && restored_to(rebuilt(changes + changes_of(planned(database, next), revision)), next),
            Err(_) => true,
        },
{
    rebuilt_states_are_well_kept(changes, database);
    batches_keep_states_sound(database, sql, caller);
    match batch_executed(database, sql, caller) {
        Ok((next, _)) => {
            if legible(next) {
                commit_lasts(changes, database, next, revision);
            }
        },
        Err(_) => {},
    }
}

/// The writes of a migration are restored in the same way.
pub proof fn migrations_are_restored(
    changes: Seq<ChangeModel>,
    database: DatabaseModel,
    version: Seq<char>,
    sql: Seq<char>,
    caller: AuthModel,
    revision: u64,
)
    requires
        lasting(changes),
        rebuilt(changes) == Ok::<DatabaseModel, ReplayError>(database),
        plainly_named_batch(sql),
        json_reads_back(),
    ensures
        match migration_applied(database, version, sql, caller) {
            Ok((next, _)) => legible(next) ==> lasting(changes + changes_of(planned(database, next), revision))
                && restored_to(rebuilt(changes + changes_of(planned(database, next), revision)), next),
            Err(_) => true,
        },
{
    rebuilt_states_are_well_kept(changes, database);
    migrations_keep_states_sound(database, version, sql, caller);
    match migration_applied(database, version, sql, caller) {
        Ok((next, _)) => {
            if legible(next) {
                commit_lasts(changes, database, next, revision);
            }
        },
        Err(_) => {},
    }
}

/// The writes of a call are restored in the same way.
pub proof fn calls_are_restored(
    changes: Seq<ChangeModel>,
    database: DatabaseModel,
    name: Seq<char>,
    args: Json,
    caller: AuthModel,
    revision: u64,
)
    requires
        lasting(changes),
        rebuilt(changes) == Ok::<DatabaseModel, ReplayError>(database),
        crate::upkeep::plain_bodies(database.functions),
        json_reads_back(),
    ensures
        match crate::calls::call_committed(database, name, args, caller) {
            Ok((next, _)) => legible(next) ==> lasting(changes + changes_of(planned(database, next), revision))
                && restored_to(rebuilt(changes + changes_of(planned(database, next), revision)), next),
            Err(_) => true,
        },
{
    rebuilt_states_are_well_kept(changes, database);
    crate::upkeep::calls_keep_states_sound(database, name, args, caller);
    match crate::calls::call_committed(database, name, args, caller) {
        Ok((next, _)) => {
            if legible(next) {
                commit_lasts(changes, database, next, revision);
            }
        },
        Err(_) => {},
    }
}

} // verus!
