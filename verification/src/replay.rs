//! Replaying the writes of every commit restores the state.

use vstd::prelude::*;
use vstd::utf8::{decode_utf8, encode_utf8, encode_utf8_decode_utf8, encode_utf8_valid_utf8, valid_utf8};
use crate::catalog::{
    empty_database, CellsModel, ColumnModel, Database, DatabaseModel, RowModel, TableModel,
};
use crate::chain::{id_of, ids_differ, number_of_id, ChangeModel, OperationModel};
use crate::codec::{cell_layout_reads_back, database_reads_back, text_reads, Codec};
use crate::decode::database_read;
use crate::encode::{cell_layout, cell_text, database_text, Encode};
use crate::json::Json;
use crate::layout::{keeps, keeps_layout, read_nesting, LayoutModel};
use crate::ordmap::{
    del, del_keeps_order, get, get_absent, get_after_del, get_after_put, get_at, has_key, put, put_keeps_order,
    sorted, spot_from, spot_from_range,
};
use crate::projection::{
    all_removals_from, all_writes_from, allocated, bare, bare_table, blank, catalog_write, catalog_writes,
    cell_faithful, cell_is_kept, cell_sound, cell_write, cell_writes_from, cells_faithful, cells_sound,
    column_with_from, decoded, defined, defines, document_faithful, encoded, faithful, filled, filled_from, firm,
    former, former_row, held, migration_write, migration_writes_from, planned, reads_as, rebuilt, removals_from,
    replay_faithful, replay_from, replay_sound, row_cells_from, row_creation, row_named, row_removal, row_writes,
    rows_faithful, rows_sound, settled, stepped, stored_cell, table_rows_from, table_with, table_with_from,
    table_writes_from, unchanged, ReplayError, ReplayModel, Replayed, TraceModel,
};
use crate::same::{json_alike_in_turn, json_alike_to_itself, Same};
use crate::value::same_json;

verus! {

// ---------------------------------------------------------------------------------------------
// Running writes
// ---------------------------------------------------------------------------------------------

/// The change that the chain records of a write.
pub open spec fn change_of(op: OperationModel, revision: u64) -> ChangeModel {
    ChangeModel {
        revision,
        kind: op.kind,
        table: op.table_id,
        row: op.row_id,
        column: op.column_id,
        data: op.data,
    }
}

/// The changes that the chain records of writes.
pub open spec fn changes_of(ops: Seq<OperationModel>, revision: u64) -> Seq<ChangeModel> {
    Seq::new(ops.len(), |i: int| change_of(ops[i], revision))
}

/// A replay after the changes of writes.
pub open spec fn applied(ops: Seq<OperationModel>, revision: u64, replay: ReplayModel) -> Replayed<ReplayModel> {
    replay_from(changes_of(ops, revision), 0, replay)
}

proof fn replay_tail(a: Seq<ChangeModel>, b: Seq<ChangeModel>, j: int, replay: ReplayModel)
    requires
        0 <= j <= b.len(),
    ensures
        replay_from(a + b, a.len() + j, replay) == replay_from(b, j, replay),
    decreases b.len() - j,
{
    if j < b.len() {
        assert((a + b)[a.len() + j] == b[j]);
        match stepped(replay, b[j]) {
            Ok(next) => replay_tail(a, b, j + 1, next),
            Err(_) => {},
        }
    }
}

proof fn replay_parts(a: Seq<ChangeModel>, b: Seq<ChangeModel>, i: int, replay: ReplayModel)
    requires
        0 <= i <= a.len(),
    ensures
        replay_from(a + b, i, replay) == (match replay_from(a, i, replay) {
            Ok(next) => replay_from(b, 0, next),
            Err(e) => Err(e),
        }),
    decreases a.len() - i,
{
    if i < a.len() {
        assert((a + b)[i] == a[i]);
        match stepped(replay, a[i]) {
            Ok(next) => replay_parts(a, b, i + 1, next),
            Err(_) => {},
        }
    } else {
        replay_tail(a, b, 0, replay);
    }
}

/// A replay of two lists of changes is the replay of the second after that of the first.
pub proof fn replay_continues(a: Seq<ChangeModel>, b: Seq<ChangeModel>, replay: ReplayModel)
    ensures
        replay_from(a + b, 0, replay) == (match replay_from(a, 0, replay) {
            Ok(next) => replay_from(b, 0, next),
            Err(e) => Err(e),
        }),
{
    replay_parts(a, b, 0, replay);
}

proof fn applied_push(ops: Seq<OperationModel>, op: OperationModel, revision: u64, replay: ReplayModel)
    ensures
        applied(ops.push(op), revision, replay) == (match applied(ops, revision, replay) {
            Ok(next) => stepped(next, change_of(op, revision)),
            Err(e) => Err(e),
        }),
{
    let last = seq![change_of(op, revision)];
    assert(changes_of(ops.push(op), revision) =~= changes_of(ops, revision) + last);
    replay_continues(changes_of(ops, revision), last, replay);
    match applied(ops, revision, replay) {
        Ok(next) => {
            reveal_with_fuel(replay_from, 2);
            assert(last[0] == change_of(op, revision));
        },
        Err(_) => {},
    }
}

// ---------------------------------------------------------------------------------------------
// What a replay holds
// ---------------------------------------------------------------------------------------------

/// Whether stored bytes are sure to be read as a value that is as good as `value`.
pub open spec fn stored_as(data_type: Seq<char>, bytes: Seq<u8>, value: Json) -> bool {
    exists|stored: Json| #[trigger] reads_as(data_type, bytes, stored) && same_json(stored, value)
}

/// Whether the stored cell of a column is that of the value that a row holds; a missing one is null.
pub open spec fn cell_kept(cells: Seq<(Seq<u8>, Seq<u8>)>, column: ColumnModel, row: RowModel) -> bool {
    match get(cells, id_of(column.id)) {
        Some(bytes) => stored_as(column.data_type, bytes, held(row, column.name)),
        None => same_json(Json::Null, held(row, column.name)),
    }
}

/// Whether a trace holds every cell of a row.
pub open spec fn trace_kept(trace: TraceModel, table: TableModel, row: RowModel) -> bool {
    sorted(trace.cells) && (forall|q: int|
        0 <= q < table.columns.len() ==> cell_kept(trace.cells, #[trigger] table.columns[q], row))
}

/// Whether replayed rows hold a row of a table.
pub open spec fn row_kept(rows: Seq<((u64, u64), TraceModel)>, table: TableModel, row: RowModel) -> bool {
    match get(rows, (table.id, row.id)) {
        Some(trace) => trace_kept(trace, table, row),
        None => false,
    }
}

/// Whether replayed rows hold every row of the tables.
pub open spec fn rows_kept(rows: Seq<((u64, u64), TraceModel)>, catalog: Seq<(Seq<char>, TableModel)>) -> bool {
    forall|i: int, j: int|
        #![trigger catalog[i].1.rows[j]]
        0 <= i < catalog.len() && 0 <= j < catalog[i].1.rows.len() ==> row_kept(
            rows,
            catalog[i].1,
            catalog[i].1.rows[j].1,
        )
}

/// Whether some table has a row.
pub open spec fn is_row(catalog: Seq<(Seq<char>, TableModel)>, named: (u64, u64)) -> bool {
    exists|i: int|
        #![trigger catalog[i]]
        0 <= i < catalog.len() && catalog[i].1.id == named.0 && has_key(catalog[i].1.rows, named.1)
}

/// Whether a replay stands for a state: the same definitions, every row with its cells, and no row
/// besides.
pub open spec fn stands_for(replay: ReplayModel, database: DatabaseModel) -> bool {
    &&& Database::alike(replay.database, bare(database))
    &&& sorted(replay.rows)
    &&& rows_kept(replay.rows, database.catalog)
    &&& forall|named: (u64, u64)| #[trigger] has_key(replay.rows, named) ==> is_row(database.catalog, named)
}

/// Whether a table is well formed: its columns have identities and names of their own, and its rows
/// lie in order under their identities, the last of which is never given.
pub open spec fn sound_table(table: TableModel) -> bool {
    &&& forall|p: int, q: int|
        #![trigger table.columns[p], table.columns[q]]
        0 <= p < q < table.columns.len() ==> table.columns[p].id != table.columns[q].id && table.columns[p].name
            != table.columns[q].name
    &&& sorted(table.rows)
    &&& forall|j: int|
        0 <= j < table.rows.len() ==> (#[trigger] table.rows[j]).0 == table.rows[j].1.id && table.rows[j].0
            < u64::MAX
}

/// Whether a state is well formed: its tables have identities of their own and are well formed.
pub open spec fn sound(database: DatabaseModel) -> bool {
    &&& forall|i: int, j: int|
        #![trigger database.catalog[i], database.catalog[j]]
        0 <= i < j < database.catalog.len() ==> database.catalog[i].1.id != database.catalog[j].1.id
    &&& forall|i: int| 0 <= i < database.catalog.len() ==> sound_table((#[trigger] database.catalog[i]).1)
}

/// Whether a state is sure to be read back from what is written of it: JSON keeps its definitions and
/// its cells whole, or their texts are read as what was written anyway. JSON keeps everything but
/// fractional numbers, which may be read as the next one, values that nest too deep, and objects that
/// begin with the mark that the reader takes for its own.
pub open spec fn legible(database: DatabaseModel) -> bool {
    &&& legible_definitions(database)
    &&& forall|i: int, j: int, q: int|
        #![trigger database.catalog[i].1.rows[j], database.catalog[i].1.columns[q]]
        0 <= i < database.catalog.len() && 0 <= j < database.catalog[i].1.rows.len() && 0 <= q
            < database.catalog[i].1.columns.len() ==> legible_cell(
            database.catalog[i].1.columns[q],
            database.catalog[i].1.rows[j].1,
        )
}

/// Whether the definitions of a state are read as what is written of them.
pub open spec fn definitions_read(database: DatabaseModel) -> bool {
    defined(blank(), catalog_write(database).data) == Ok::<ReplayModel, ReplayError>(
        ReplayModel { database: bare(database), ..blank() },
    )
}

/// Whether the definitions of a state are sure to be read back.
pub open spec fn legible_definitions(database: DatabaseModel) -> bool {
    definitions_read(database) || Database::canonical(bare(database)) && keeps_layout(
        Database::layout_of(bare(database)),
        read_nesting(),
    )
}

/// Whether a cell is sure to be read back.
pub open spec fn legible_cell(column: ColumnModel, row: RowModel) -> bool {
    firm(column.data_type, held(row, column.name))
}

// ---------------------------------------------------------------------------------------------
// Cells and rows
// ---------------------------------------------------------------------------------------------

proof fn cell_put(
    cells: Seq<(Seq<u8>, Seq<u8>)>,
    table: TableModel,
    row: RowModel,
    q: int,
)
    requires
        sorted(cells),
        0 <= q < table.columns.len(),
        legible_cell(table.columns[q], row),
        forall|a: int, b: int|
            #![trigger table.columns[a], table.columns[b]]
            0 <= a < b < table.columns.len() ==> table.columns[a].id != table.columns[b].id,
    ensures
        sorted(
            put(
                cells,
                id_of(table.columns[q].id),
                encoded(table.columns[q].data_type, held(row, table.columns[q].name)),
            ),
        ),
        cell_kept(
            put(
                cells,
                id_of(table.columns[q].id),
                encoded(table.columns[q].data_type, held(row, table.columns[q].name)),
            ),
            table.columns[q],
            row,
        ),
        forall|p: int|
            0 <= p < table.columns.len() && p != q ==> cell_kept(
                put(
                    cells,
                    id_of(table.columns[q].id),
                    encoded(table.columns[q].data_type, held(row, table.columns[q].name)),
                ),
                #[trigger] table.columns[p],
                row,
            ) == cell_kept(cells, table.columns[p], row),
{
    let column = table.columns[q];
    let key = id_of(column.id);
    let bytes = encoded(column.data_type, held(row, column.name));
    put_keeps_order(cells, key, bytes);
    get_after_put(cells, key, bytes, key);
    json_alike_to_itself(held(row, column.name));
    assert(reads_as(column.data_type, bytes, held(row, column.name)));
    assert forall|p: int| 0 <= p < table.columns.len() && p != q implies cell_kept(
        put(cells, key, bytes),
        #[trigger] table.columns[p],
        row,
    ) == cell_kept(cells, table.columns[p], row) by {
        ids_differ(table.columns[p].id, column.id);
        if p < q {
            assert(table.columns[p].id != table.columns[q].id);
        } else {
            assert(table.columns[q].id != table.columns[p].id);
        }
        get_after_put(cells, key, bytes, id_of(table.columns[p].id));
    }
}

proof fn cells_written(
    table: TableModel,
    known: Option<TableModel>,
    row: RowModel,
    known_row: Option<RowModel>,
    from: int,
    done: Seq<OperationModel>,
    base: ReplayModel,
    replay: ReplayModel,
    trace: TraceModel,
    revision: u64,
) -> (next: ReplayModel)
    requires
        0 <= from <= table.columns.len(),
        applied(done, revision, base) == Ok::<ReplayModel, ReplayError>(replay),
        sorted(replay.rows),
        get(replay.rows, (table.id, row.id)) == Some(trace),
        sorted(trace.cells),
        forall|a: int, b: int|
            #![trigger table.columns[a], table.columns[b]]
            0 <= a < b < table.columns.len() ==> table.columns[a].id != table.columns[b].id,
        forall|q: int| 0 <= q < table.columns.len() ==> legible_cell(#[trigger] table.columns[q], row),
        forall|q: int| 0 <= q < from ==> cell_kept(trace.cells, #[trigger] table.columns[q], row),
        forall|q: int|
            from <= q < table.columns.len() && unchanged(
                former(known, known_row, #[trigger] table.columns[q]),
                held(row, table.columns[q].name),
            ) ==> cell_kept(trace.cells, table.columns[q], row),
    ensures
        applied(cell_writes_from(table, known, row, known_row, from, done), revision, base) == Ok::<
            ReplayModel,
            ReplayError,
        >(next),
        next.database == replay.database,
        next.allocators == replay.allocators,
        sorted(next.rows),
        row_kept(next.rows, table, row),
        forall|named: (u64, u64)|
            named != (table.id, row.id) ==> #[trigger] get(next.rows, named) == get(replay.rows, named),
    decreases table.columns.len() - from,
{
    if from >= table.columns.len() {
        replay
    } else {
        let column = table.columns[from];
        let value = held(row, column.name);
        if unchanged(former(known, known_row, column), value) {
            cells_written(table, known, row, known_row, from + 1, done, base, replay, trace, revision)
        } else {
            let op = cell_write(table.id, row.id, column, value);
            let named = (table.id, row.id);
            applied_push(done, op, revision, base);
            number_of_id(table.id);
            number_of_id(row.id);
            let later = TraceModel {
                version: revision,
                cells: put(trace.cells, id_of(column.id), encoded(column.data_type, value)),
            };
            let moved = ReplayModel { rows: put(replay.rows, named, later), ..replay };
            assert(stepped(replay, change_of(op, revision)) == Ok::<ReplayModel, ReplayError>(moved));
            put_keeps_order(replay.rows, named, later);
            get_after_put(replay.rows, named, later, named);
            cell_put(trace.cells, table, row, from);
            let next = cells_written(
                table,
                known,
                row,
                known_row,
                from + 1,
                done.push(op),
                base,
                moved,
                later,
                revision,
            );
            assert forall|other: (u64, u64)| other != named implies #[trigger] get(next.rows, other) == get(
                replay.rows,
                other,
            ) by {
                get_after_put(replay.rows, named, later, other);
            }
            next
        }
    }
}

proof fn column_found(columns: Seq<ColumnModel>, wanted: u64, data_type: Seq<char>, from: int)
    requires
        0 <= from,
    ensures
        match column_with_from(columns, wanted, data_type, from) {
            Some(column) => column.id == wanted && column.data_type == data_type && exists|p: int|
                0 <= p < columns.len() && #[trigger] columns[p] == column,
            None => true,
        },
    decreases columns.len() - from,
{
    if from < columns.len() {
        if columns[from].id == wanted && columns[from].data_type == data_type {
            assert(columns[from] == columns[from]);
        } else {
            column_found(columns, wanted, data_type, from + 1);
        }
    }
}

/// An unchanged cell is still stored as it is held now.
proof fn unchanged_is_kept(
    trace: TraceModel,
    known: TableModel,
    known_row: RowModel,
    column: ColumnModel,
    row: RowModel,
)
    requires
        trace_kept(trace, known, known_row),
        unchanged(former(Some(known), Some(known_row), column), held(row, column.name)),
    ensures
        cell_kept(trace.cells, column, row),
{
    column_found(known.columns, column.id, column.data_type, 0);
    let found = column_with_from(known.columns, column.id, column.data_type, 0)->Some_0;
    let p = choose|p: int| 0 <= p < known.columns.len() && #[trigger] known.columns[p] == found;
    assert(cell_kept(trace.cells, known.columns[p], known_row));
    let previous = get(known_row.values, found.name)->Some_0;
    assert(held(known_row, found.name) == previous);
    match get(trace.cells, id_of(column.id)) {
        Some(bytes) => {
            let stored = choose|stored: Json| #[trigger]
                reads_as(column.data_type, bytes, stored) && same_json(stored, previous);
            json_alike_in_turn(stored, previous, held(row, column.name));
            assert(reads_as(column.data_type, bytes, stored));
        },
        None => {
            json_alike_in_turn(Json::Null, previous, held(row, column.name));
        },
    }
}

/// What has to be known of the earlier form of a row before its writes.
pub open spec fn former_kept(
    rows: Seq<((u64, u64), TraceModel)>,
    table: TableModel,
    known: Option<TableModel>,
    row: RowModel,
) -> bool {
    match former_row(known, row.id) {
        Some(known_row) => match get(rows, (table.id, row.id)) {
            Some(trace) => known is Some && trace_kept(trace, known->Some_0, known_row),
            None => false,
        },
        None => true,
    }
}

proof fn row_written(
    table: TableModel,
    known: Option<TableModel>,
    row: RowModel,
    done: Seq<OperationModel>,
    base: ReplayModel,
    replay: ReplayModel,
    revision: u64,
) -> (next: ReplayModel)
    requires
        applied(done, revision, base) == Ok::<ReplayModel, ReplayError>(replay),
        sorted(replay.rows),
        row.id < u64::MAX,
        former_kept(replay.rows, table, known, row),
        forall|a: int, b: int|
            #![trigger table.columns[a], table.columns[b]]
            0 <= a < b < table.columns.len() ==> table.columns[a].id != table.columns[b].id,
        forall|q: int| 0 <= q < table.columns.len() ==> legible_cell(#[trigger] table.columns[q], row),
    ensures
        applied(row_writes(table, known, row, done), revision, base) == Ok::<ReplayModel, ReplayError>(next),
        next.database == replay.database,
        sorted(next.rows),
        row_kept(next.rows, table, row),
        forall|named: (u64, u64)|
            named != (table.id, row.id) ==> #[trigger] get(next.rows, named) == get(replay.rows, named),
{
    let known_row = former_row(known, row.id);
    let named = (table.id, row.id);
    match known_row {
        Some(earlier) => {
            let trace = get(replay.rows, named)->Some_0;
            assert forall|q: int| 0 <= q < table.columns.len() && unchanged(
                former(known, known_row, #[trigger] table.columns[q]),
                held(row, table.columns[q].name),
            ) implies cell_kept(trace.cells, table.columns[q], row) by {
                unchanged_is_kept(trace, known->Some_0, earlier, table.columns[q], row);
            }
            cells_written(table, known, row, known_row, 0, done, base, replay, trace, revision)
        },
        None => {
            let op = row_creation(table.id, row.id);
            applied_push(done, op, revision, base);
            number_of_id(table.id);
            number_of_id(row.id);
            let trace = TraceModel { version: revision, cells: Seq::empty() };
            let moved = ReplayModel {
                rows: put(replay.rows, named, trace),
                allocators: allocated(replay.allocators, table.id, row.id),
                ..replay
            };
            assert(stepped(replay, change_of(op, revision)) == Ok::<ReplayModel, ReplayError>(moved));
            put_keeps_order(replay.rows, named, trace);
            get_after_put(replay.rows, named, trace, named);
            let next = cells_written(
                table,
                known,
                row,
                known_row,
                0,
                done.push(op),
                base,
                moved,
                trace,
                revision,
            );
            assert forall|other: (u64, u64)| other != named implies #[trigger] get(next.rows, other) == get(
                replay.rows,
                other,
            ) by {
                get_after_put(replay.rows, named, trace, other);
            }
            next
        },
    }
}

// ---------------------------------------------------------------------------------------------
// Tables
// ---------------------------------------------------------------------------------------------

/// Whether a row comes before the row at position `j` of the table at position `i`.
pub open spec fn passed(catalog: Seq<(Seq<char>, TableModel)>, i: int, j: int, named: (u64, u64)) -> bool {
    exists|a: int, b: int|
        #![trigger catalog[a].1.rows[b]]
        0 <= a < catalog.len() && 0 <= b < catalog[a].1.rows.len() && (a < i || a == i && b < j) && named == (
            catalog[a].1.id,
            catalog[a].1.rows[b].1.id,
        )
}

/// Whether the rows before a position are written, and the others as they were at the start.
pub open spec fn written_upto(
    rows: Seq<((u64, u64), TraceModel)>,
    start: Seq<((u64, u64), TraceModel)>,
    catalog: Seq<(Seq<char>, TableModel)>,
    i: int,
    j: int,
) -> bool {
    &&& sorted(rows)
    &&& forall|a: int, b: int|
        #![trigger catalog[a].1.rows[b]]
        0 <= a < catalog.len() && 0 <= b < catalog[a].1.rows.len() && (a < i || a == i && b < j) ==> row_kept(
            rows,
            catalog[a].1,
            catalog[a].1.rows[b].1,
        )
    &&& forall|named: (u64, u64)|
        !passed(catalog, i, j, named) ==> #[trigger] get(rows, named) == get(start, named)
}

/// Whether the earlier forms of all rows are as they have to be before their writes.
pub open spec fn ready(
    start: Seq<((u64, u64), TraceModel)>,
    before: Seq<(Seq<char>, TableModel)>,
    after: Seq<(Seq<char>, TableModel)>,
) -> bool {
    forall|a: int, b: int|
        #![trigger after[a].1.rows[b]]
        0 <= a < after.len() && 0 <= b < after[a].1.rows.len() ==> former_kept(
            start,
            after[a].1,
            table_with(before, after[a].1.id),
            after[a].1.rows[b].1,
        )
}

/// Two rows of a well-formed state at different positions have different names.
proof fn rows_differ(database: DatabaseModel, a: int, b: int, i: int, j: int)
    requires
        sound(database),
        0 <= a < database.catalog.len(),
        0 <= i < database.catalog.len(),
        0 <= b < database.catalog[a].1.rows.len(),
        0 <= j < database.catalog[i].1.rows.len(),
        (a, b) != (i, j),
    ensures
        (database.catalog[a].1.id, database.catalog[a].1.rows[b].1.id) != (
            database.catalog[i].1.id,
            database.catalog[i].1.rows[j].1.id,
        ),
{
    if a < i {
        assert(database.catalog[a].1.id != database.catalog[i].1.id);
    } else if i < a {
        assert(database.catalog[i].1.id != database.catalog[a].1.id);
    } else {
        let table = database.catalog[i].1;
        assert(sound_table(table));
        if b < j {
            assert(table.rows[b].0 < table.rows[j].0);
        } else {
            assert(table.rows[j].0 < table.rows[b].0);
        }
    }
}

proof fn table_written(
    before: DatabaseModel,
    after: DatabaseModel,
    i: int,
    j: int,
    done: Seq<OperationModel>,
    base: ReplayModel,
    replay: ReplayModel,
    start: Seq<((u64, u64), TraceModel)>,
    revision: u64,
) -> (next: ReplayModel)
    requires
        0 <= i < after.catalog.len(),
        0 <= j <= after.catalog[i].1.rows.len(),
        sound(after),
        legible(after),
        ready(start, before.catalog, after.catalog),
        applied(done, revision, base) == Ok::<ReplayModel, ReplayError>(replay),
        written_upto(replay.rows, start, after.catalog, i, j),
    ensures
        applied(
            table_writes_from(
                after.catalog[i].1,
                table_with(before.catalog, after.catalog[i].1.id),
                j,
                done,
            ),
            revision,
            base,
        ) == Ok::<ReplayModel, ReplayError>(next),
        next.database == replay.database,
        written_upto(next.rows, start, after.catalog, i + 1, 0),
    decreases after.catalog[i].1.rows.len() - j,
{
    let catalog = after.catalog;
    let table = catalog[i].1;
    let known = table_with(before.catalog, table.id);
    assert(sound_table(table));
    if j >= table.rows.len() {
        assert forall|named: (u64, u64)| !passed(catalog, i + 1, 0, named) implies #[trigger] get(
            replay.rows,
            named,
        ) == get(start, named) by {
            if passed(catalog, i, j, named) {
                let (a, b) = choose|a: int, b: int|
                    #![trigger catalog[a].1.rows[b]]
                    0 <= a < catalog.len() && 0 <= b < catalog[a].1.rows.len() && (a < i || a == i && b < j)
                        && named == (catalog[a].1.id, catalog[a].1.rows[b].1.id);
                assert(catalog[a].1.rows[b] == catalog[a].1.rows[b]);
            }
        }
        replay
    } else {
        let row = table.rows[j].1;
        let named = (table.id, row.id);
        assert(catalog[i].1.rows[j] == table.rows[j]);
        if passed(catalog, i, j, named) {
            let (a, b) = choose|a: int, b: int|
                #![trigger catalog[a].1.rows[b]]
                0 <= a < catalog.len() && 0 <= b < catalog[a].1.rows.len() && (a < i || a == i && b < j)
                    && named == (catalog[a].1.id, catalog[a].1.rows[b].1.id);
            rows_differ(after, a, b, i, j);
        }
        assert(get(replay.rows, named) == get(start, named));
        assert(former_kept(start, table, known, row));
        assert forall|q: int| 0 <= q < table.columns.len() implies legible_cell(
            #[trigger] table.columns[q],
            row,
        ) by {
            assert(after.catalog[i].1.columns[q] == table.columns[q]);
        }
        let moved = row_written(table, known, row, done, base, replay, revision);
        assert(written_upto(moved.rows, start, catalog, i, j + 1)) by {
            assert forall|a: int, b: int|
                #![trigger catalog[a].1.rows[b]]
                0 <= a < catalog.len() && 0 <= b < catalog[a].1.rows.len() && (a < i || a == i && b < j
                    + 1) implies row_kept(moved.rows, catalog[a].1, catalog[a].1.rows[b].1) by {
                if (a, b) != (i, j) {
                    rows_differ(after, a, b, i, j);
                    assert(row_kept(replay.rows, catalog[a].1, catalog[a].1.rows[b].1));
                }
            }
            assert forall|other: (u64, u64)| !passed(catalog, i, j + 1, other) implies #[trigger] get(
                moved.rows,
                other,
            ) == get(start, other) by {
                if other == named {
                    assert(catalog[i].1.rows[j] == table.rows[j]);
                    assert(passed(catalog, i, j + 1, other));
                }
                if passed(catalog, i, j, other) {
                    let (a, b) = choose|a: int, b: int|
                        #![trigger catalog[a].1.rows[b]]
                        0 <= a < catalog.len() && 0 <= b < catalog[a].1.rows.len() && (a < i || a == i && b
                            < j) && other == (catalog[a].1.id, catalog[a].1.rows[b].1.id);
                    assert(catalog[a].1.rows[b] == catalog[a].1.rows[b]);
                    assert(passed(catalog, i, j + 1, other));
                }
            }
        }
        table_written(
            before,
            after,
            i,
            j + 1,
            row_writes(table, known, row, done),
            base,
            moved,
            start,
            revision,
        )
    }
}

proof fn all_written(
    before: DatabaseModel,
    after: DatabaseModel,
    i: int,
    done: Seq<OperationModel>,
    base: ReplayModel,
    replay: ReplayModel,
    start: Seq<((u64, u64), TraceModel)>,
    revision: u64,
) -> (next: ReplayModel)
    requires
        0 <= i <= after.catalog.len(),
        sound(after),
        legible(after),
        ready(start, before.catalog, after.catalog),
        applied(done, revision, base) == Ok::<ReplayModel, ReplayError>(replay),
        written_upto(replay.rows, start, after.catalog, i, 0),
    ensures
        applied(all_writes_from(before.catalog, after.catalog, i, done), revision, base) == Ok::<
            ReplayModel,
            ReplayError,
        >(next),
        next.database == replay.database,
        written_upto(next.rows, start, after.catalog, after.catalog.len() as int, 0),
    decreases after.catalog.len() - i,
{
    if i >= after.catalog.len() {
        replay
    } else {
        let table = after.catalog[i].1;
        let moved = table_written(before, after, i, 0, done, base, replay, start, revision);
        all_written(
            before,
            after,
            i + 1,
            table_writes_from(table, table_with(before.catalog, table.id), 0, done),
            base,
            moved,
            start,
            revision,
        )
    }
}

// ---------------------------------------------------------------------------------------------
// Removals
// ---------------------------------------------------------------------------------------------

/// Whether a row of a table is not in its later form.
pub open spec fn gone(row: RowModel, kept: Option<TableModel>) -> bool {
    kept is None || !has_key(kept->Some_0.rows, row.id)
}

/// Whether a row at a position before `j` of the table at `i` is removed.
pub open spec fn removed(
    before: Seq<(Seq<char>, TableModel)>,
    after: Seq<(Seq<char>, TableModel)>,
    i: int,
    j: int,
    named: (u64, u64),
) -> bool {
    exists|a: int, b: int|
        #![trigger before[a].1.rows[b]]
        0 <= a < before.len() && 0 <= b < before[a].1.rows.len() && (a < i || a == i && b < j) && named == (
            before[a].1.id,
            before[a].1.rows[b].1.id,
        ) && gone(before[a].1.rows[b].1, table_with(after, before[a].1.id))
}

/// Whether the rows to remove before a position are removed, and the others as they were.
pub open spec fn removed_upto(
    rows: Seq<((u64, u64), TraceModel)>,
    start: Seq<((u64, u64), TraceModel)>,
    before: Seq<(Seq<char>, TableModel)>,
    after: Seq<(Seq<char>, TableModel)>,
    i: int,
    j: int,
) -> bool {
    &&& sorted(rows)
    &&& forall|named: (u64, u64)|
        #[trigger] get(rows, named) == (if removed(before, after, i, j, named) {
            None
        } else {
            get(start, named)
        })
}

proof fn removed_step(
    before: Seq<(Seq<char>, TableModel)>,
    after: Seq<(Seq<char>, TableModel)>,
    i: int,
    j: int,
    named: (u64, u64),
)
    requires
        0 <= i < before.len(),
        0 <= j < before[i].1.rows.len(),
    ensures
        removed(before, after, i, j + 1, named) == (removed(before, after, i, j, named) || named == (
            before[i].1.id,
            before[i].1.rows[j].1.id,
        ) && gone(before[i].1.rows[j].1, table_with(after, before[i].1.id))),
{
    assert(before[i].1.rows[j] == before[i].1.rows[j]);
    if removed(before, after, i, j, named) {
        let (a, b) = choose|a: int, b: int|
            #![trigger before[a].1.rows[b]]
            0 <= a < before.len() && 0 <= b < before[a].1.rows.len() && (a < i || a == i && b < j) && named == (
                before[a].1.id,
                before[a].1.rows[b].1.id,
            ) && gone(before[a].1.rows[b].1, table_with(after, before[a].1.id));
        assert(before[a].1.rows[b] == before[a].1.rows[b]);
        assert(removed(before, after, i, j + 1, named));
    }
    if removed(before, after, i, j + 1, named) {
        let (a, b) = choose|a: int, b: int|
            #![trigger before[a].1.rows[b]]
            0 <= a < before.len() && 0 <= b < before[a].1.rows.len() && (a < i || a == i && b < j + 1)
                && named == (before[a].1.id, before[a].1.rows[b].1.id) && gone(
                before[a].1.rows[b].1,
                table_with(after, before[a].1.id),
            );
        if (a, b) != (i, j) {
            assert(before[a].1.rows[b] == before[a].1.rows[b]);
            assert(removed(before, after, i, j, named));
        }
    }
}

proof fn removed_table_end(
    before: Seq<(Seq<char>, TableModel)>,
    after: Seq<(Seq<char>, TableModel)>,
    i: int,
    named: (u64, u64),
)
    requires
        0 <= i < before.len(),
    ensures
        removed(before, after, i, before[i].1.rows.len() as int, named) == removed(before, after, i + 1, 0, named),
{
    let j = before[i].1.rows.len() as int;
    if removed(before, after, i, j, named) {
        let (a, b) = choose|a: int, b: int|
            #![trigger before[a].1.rows[b]]
            0 <= a < before.len() && 0 <= b < before[a].1.rows.len() && (a < i || a == i && b < j) && named == (
                before[a].1.id,
                before[a].1.rows[b].1.id,
            ) && gone(before[a].1.rows[b].1, table_with(after, before[a].1.id));
        assert(before[a].1.rows[b] == before[a].1.rows[b]);
        assert(removed(before, after, i + 1, 0, named));
    }
    if removed(before, after, i + 1, 0, named) {
        let (a, b) = choose|a: int, b: int|
            #![trigger before[a].1.rows[b]]
            0 <= a < before.len() && 0 <= b < before[a].1.rows.len() && (a < i + 1 || a == i + 1 && b < 0)
                && named == (before[a].1.id, before[a].1.rows[b].1.id) && gone(
                before[a].1.rows[b].1,
                table_with(after, before[a].1.id),
            );
        assert(before[a].1.rows[b] == before[a].1.rows[b]);
        assert(removed(before, after, i, j, named));
    }
}

proof fn table_removed(
    before: Seq<(Seq<char>, TableModel)>,
    after: Seq<(Seq<char>, TableModel)>,
    i: int,
    j: int,
    done: Seq<OperationModel>,
    base: ReplayModel,
    replay: ReplayModel,
    start: Seq<((u64, u64), TraceModel)>,
    revision: u64,
) -> (next: ReplayModel)
    requires
        0 <= i < before.len(),
        0 <= j <= before[i].1.rows.len(),
        applied(done, revision, base) == Ok::<ReplayModel, ReplayError>(replay),
        removed_upto(replay.rows, start, before, after, i, j),
    ensures
        applied(
            removals_from(before[i].1, table_with(after, before[i].1.id), j, done),
            revision,
            base,
        ) == Ok::<ReplayModel, ReplayError>(next),
        next.database == replay.database,
        removed_upto(next.rows, start, before, after, i + 1, 0),
    decreases before[i].1.rows.len() - j,
{
    let table = before[i].1;
    let kept = table_with(after, table.id);
    if j >= table.rows.len() {
        assert forall|named: (u64, u64)| #[trigger]
            get(replay.rows, named) == (if removed(before, after, i + 1, 0, named) {
            None
        } else {
            get(start, named)
        }) by {
            removed_table_end(before, after, i, named);
        }
        replay
    } else {
        let row = table.rows[j].1;
        let named = (table.id, row.id);
        if gone(row, kept) {
            let op = row_removal(table.id, row.id);
            applied_push(done, op, revision, base);
            number_of_id(table.id);
            number_of_id(row.id);
            let moved = ReplayModel { rows: del(replay.rows, named), ..replay };
            assert(stepped(replay, change_of(op, revision)) == Ok::<ReplayModel, ReplayError>(moved));
            del_keeps_order(replay.rows, named);
            assert forall|other: (u64, u64)| #[trigger]
                get(moved.rows, other) == (if removed(before, after, i, j + 1, other) {
                None
            } else {
                get(start, other)
            }) by {
                get_after_del(replay.rows, named, other);
                removed_step(before, after, i, j, other);
            }
            table_removed(before, after, i, j + 1, done.push(op), base, moved, start, revision)
        } else {
            assert forall|other: (u64, u64)| #[trigger]
                get(replay.rows, other) == (if removed(before, after, i, j + 1, other) {
                None
            } else {
                get(start, other)
            }) by {
                removed_step(before, after, i, j, other);
            }
            table_removed(before, after, i, j + 1, done, base, replay, start, revision)
        }
    }
}

proof fn all_removed(
    before: Seq<(Seq<char>, TableModel)>,
    after: Seq<(Seq<char>, TableModel)>,
    i: int,
    done: Seq<OperationModel>,
    base: ReplayModel,
    replay: ReplayModel,
    start: Seq<((u64, u64), TraceModel)>,
    revision: u64,
) -> (next: ReplayModel)
    requires
        0 <= i <= before.len(),
        applied(done, revision, base) == Ok::<ReplayModel, ReplayError>(replay),
        removed_upto(replay.rows, start, before, after, i, 0),
    ensures
        applied(all_removals_from(before, after, i, done), revision, base) == Ok::<ReplayModel, ReplayError>(next),
        next.database == replay.database,
        removed_upto(next.rows, start, before, after, before.len() as int, 0),
    decreases before.len() - i,
{
    if i >= before.len() {
        replay
    } else {
        let table = before[i].1;
        let moved = table_removed(before, after, i, 0, done, base, replay, start, revision);
        all_removed(
            before,
            after,
            i + 1,
            removals_from(table, table_with(after, table.id), 0, done),
            base,
            moved,
            start,
            revision,
        )
    }
}

// ---------------------------------------------------------------------------------------------
// Commits
// ---------------------------------------------------------------------------------------------

proof fn table_with_range(catalog: Seq<(Seq<char>, TableModel)>, wanted: u64, from: int)
    requires
        0 <= from,
    ensures
        match table_with_from(catalog, wanted, from) {
            Some(table) => table.id == wanted && exists|i: int|
                from <= i < catalog.len() && (#[trigger] catalog[i]).1 == table,
            None => forall|i: int| from <= i < catalog.len() ==> (#[trigger] catalog[i]).1.id != wanted,
        },
    decreases catalog.len() - from,
{
    if from < catalog.len() {
        if catalog[from].1.id == wanted {
            assert(catalog[from].1 == catalog[from].1);
        } else {
            table_with_range(catalog, wanted, from + 1);
        }
    }
}

/// The table with an identity is the only one that has it.
proof fn table_with_its_id(database: DatabaseModel, i: int)
    requires
        sound(database),
        0 <= i < database.catalog.len(),
    ensures
        table_with(database.catalog, database.catalog[i].1.id) == Some(database.catalog[i].1),
{
    let catalog = database.catalog;
    table_with_range(catalog, catalog[i].1.id, 0);
    let found = table_with(catalog, catalog[i].1.id)->Some_0;
    let k = choose|k: int| 0 <= k < catalog.len() && (#[trigger] catalog[k]).1 == found;
    if k < i {
        assert(catalog[k].1.id != catalog[i].1.id);
    } else if i < k {
        assert(catalog[i].1.id != catalog[k].1.id);
    }
}

/// A row found under an identity has that identity, and a position.
proof fn row_position(table: TableModel, wanted: u64) -> (j: int)
    requires
        sound_table(table),
        has_key(table.rows, wanted),
    ensures
        0 <= j < table.rows.len(),
        table.rows[j].0 == wanted,
        table.rows[j].1.id == wanted,
        get(table.rows, wanted) == Some(table.rows[j].1),
{
    spot_from_range(table.rows, wanted, 0);
    spot_from(table.rows, wanted, 0)
}

/// A row that is still there is not among those removed.
proof fn kept_is_not_removed(before: DatabaseModel, after: DatabaseModel, a: int, b: int)
    requires
        sound(after),
        0 <= a < after.catalog.len(),
        0 <= b < after.catalog[a].1.rows.len(),
    ensures
        !removed(
            before.catalog,
            after.catalog,
            before.catalog.len() as int,
            0,
            (after.catalog[a].1.id, after.catalog[a].1.rows[b].1.id),
        ),
{
    let old = before.catalog;
    let new = after.catalog;
    let table = new[a].1;
    let named = (table.id, table.rows[b].1.id);
    assert(sound_table(table));
    if removed(old, new, old.len() as int, 0, named) {
        let (x, y) = choose|x: int, y: int|
            #![trigger old[x].1.rows[y]]
            0 <= x < old.len() && 0 <= y < old[x].1.rows.len() && (x < old.len() || x == old.len() && y < 0)
                && named == (old[x].1.id, old[x].1.rows[y].1.id) && gone(
                old[x].1.rows[y].1,
                table_with(new, old[x].1.id),
            );
        table_with_its_id(after, a);
        get_at(table.rows, b);
    }
}

proof fn becomes_ready(before: DatabaseModel, after: DatabaseModel, replay: ReplayModel, cleared: ReplayModel)
    requires
        sound(before),
        sound(after),
        rows_kept(replay.rows, before.catalog),
        removed_upto(
            cleared.rows,
            replay.rows,
            before.catalog,
            after.catalog,
            before.catalog.len() as int,
            0,
        ),
    ensures
        ready(cleared.rows, before.catalog, after.catalog),
{
    let old = before.catalog;
    let new = after.catalog;
    assert forall|a: int, b: int|
        #![trigger new[a].1.rows[b]]
        0 <= a < new.len() && 0 <= b < new[a].1.rows.len() implies former_kept(
        cleared.rows,
        new[a].1,
        table_with(old, new[a].1.id),
        new[a].1.rows[b].1,
    ) by {
        let table = new[a].1;
        let row = table.rows[b].1;
        let known = table_with(old, table.id);
        if former_row(known, row.id) is Some {
            table_with_range(old, table.id, 0);
            let former_table = known->Some_0;
            let x = choose|x: int| 0 <= x < old.len() && (#[trigger] old[x]).1 == former_table;
            assert(sound_table(old[x].1));
            let y = row_position(former_table, row.id);
            assert(row_kept(replay.rows, old[x].1, old[x].1.rows[y].1));
            kept_is_not_removed(before, after, a, b);
            assert(get(cleared.rows, (table.id, row.id)) == get(replay.rows, (table.id, row.id)));
        }
    }
}

proof fn migrations_pass(
    before: Seq<(Seq<char>, ())>,
    after: Seq<(Seq<char>, ())>,
    from: int,
    done: Seq<OperationModel>,
    base: ReplayModel,
    replay: ReplayModel,
    revision: u64,
)
    requires
        0 <= from,
        applied(done, revision, base) == Ok::<ReplayModel, ReplayError>(replay),
    ensures
        applied(migration_writes_from(before, after, from, done), revision, base) == Ok::<
            ReplayModel,
            ReplayError,
        >(replay),
    decreases after.len() - from,
{
    if from < after.len() {
        if has_key(before, after[from].0) {
            migrations_pass(before, after, from + 1, done, base, replay, revision);
        } else {
            let op = migration_write(after[from].0);
            applied_push(done, op, revision, base);
            assert(stepped(replay, change_of(op, revision)) == Ok::<ReplayModel, ReplayError>(replay));
            migrations_pass(before, after, from + 1, done.push(op), base, replay, revision);
        }
    }
}

proof fn definitions_written(before: DatabaseModel, after: DatabaseModel, replay: ReplayModel, revision: u64) -> (next:
    ReplayModel)
    requires
        Database::alike(bare(before), bare(after)) || definitions_read(after),
        Database::alike(replay.database, bare(before)),
    ensures
        applied(catalog_writes(before, after), revision, replay) == Ok::<ReplayModel, ReplayError>(next),
        next.rows == replay.rows,
        Database::alike(next.database, bare(after)),
        next.database == replay.database || next.database == bare(after),
{
    let none = Seq::<OperationModel>::empty();
    assert(changes_of(none, revision) =~= Seq::<ChangeModel>::empty());
    assert(applied(none, revision, replay) == Ok::<ReplayModel, ReplayError>(replay));
    if Database::alike(bare(before), bare(after)) {
        Database::alike_in_turn(replay.database, bare(before), bare(after));
        replay
    } else {
        let op = catalog_write(after);
        applied_push(none, op, revision, replay);
        assert(none.push(op) =~= seq![op]);
        let next = ReplayModel { database: bare(after), ..replay };
        assert(stepped(replay, change_of(op, revision)) == Ok::<ReplayModel, ReplayError>(next));
        Database::alike_to_itself(bare(after));
        next
    }
}

proof fn no_stray_rows(
    before: DatabaseModel,
    after: DatabaseModel,
    replay: ReplayModel,
    cleared: ReplayModel,
    next: ReplayModel,
    named: (u64, u64),
)
    requires
        sound(before),
        sound(after),
        stands_for(replay, before),
        removed_upto(
            cleared.rows,
            replay.rows,
            before.catalog,
            after.catalog,
            before.catalog.len() as int,
            0,
        ),
        written_upto(next.rows, cleared.rows, after.catalog, after.catalog.len() as int, 0),
        has_key(next.rows, named),
    ensures
        is_row(after.catalog, named),
{
    let old = before.catalog;
    let new = after.catalog;
    if passed(new, new.len() as int, 0, named) {
        let (a, b) = choose|a: int, b: int|
            #![trigger new[a].1.rows[b]]
            0 <= a < new.len() && 0 <= b < new[a].1.rows.len() && (a < new.len() || a == new.len() && b < 0)
                && named == (new[a].1.id, new[a].1.rows[b].1.id);
        assert(sound_table(new[a].1));
        get_at(new[a].1.rows, b);
    } else {
        assert(get(next.rows, named) == get(cleared.rows, named));
        assert(get(cleared.rows, named) == get(replay.rows, named));
        assert(has_key(replay.rows, named));
        let x = choose|x: int|
            #![trigger old[x]]
            0 <= x < old.len() && old[x].1.id == named.0 && has_key(old[x].1.rows, named.1);
        assert(sound_table(old[x].1));
        let y = row_position(old[x].1, named.1);
        assert(old[x].1.rows[y] == old[x].1.rows[y]);
        if gone(old[x].1.rows[y].1, table_with(new, old[x].1.id)) {
            assert(removed(old, new, old.len() as int, 0, named));
        }
        table_with_range(new, named.0, 0);
        let later = table_with(new, named.0)->Some_0;
        let k = choose|k: int| 0 <= k < new.len() && (#[trigger] new[k]).1 == later;
        assert(has_key(new[k].1.rows, named.1));
    }
}

/// Replaying the plan of a commit takes a replay that stands for the state before it to one that
/// stands for the state after it.
pub proof fn replay_follows_commit(before: DatabaseModel, after: DatabaseModel, replay: ReplayModel, revision: u64) -> (next:
    ReplayModel)
    requires
        sound(before),
        sound(after),
        legible(after),
        Database::alike(bare(before), bare(after)) || definitions_read(after),
        stands_for(replay, before),
    ensures
        applied(planned(before, after), revision, replay) == Ok::<ReplayModel, ReplayError>(next),
        stands_for(next, after),
        next.database == replay.database || next.database == bare(after),
{
    let old = before.catalog;
    let new = after.catalog;
    let first = catalog_writes(before, after);
    let begun = definitions_written(before, after, replay, revision);
    assert(removed_upto(begun.rows, replay.rows, old, new, 0, 0));
    let cleared = all_removed(old, new, 0, first, replay, begun, replay.rows, revision);
    let second = all_removals_from(old, new, 0, first);
    becomes_ready(before, after, replay, cleared);
    assert(written_upto(cleared.rows, cleared.rows, new, 0, 0));
    let next = all_written(before, after, 0, second, replay, cleared, cleared.rows, revision);
    let third = all_writes_from(old, new, 0, second);
    migrations_pass(before.migrations, after.migrations, 0, third, replay, next, revision);
    assert(rows_kept(next.rows, new)) by {
        assert forall|i: int, j: int|
            #![trigger new[i].1.rows[j]]
            0 <= i < new.len() && 0 <= j < new[i].1.rows.len() implies row_kept(
            next.rows,
            new[i].1,
            new[i].1.rows[j].1,
        ) by {}
    }
    assert forall|named: (u64, u64)| #[trigger] has_key(next.rows, named) implies is_row(new, named) by {
        no_stray_rows(before, after, replay, cleared, next, named);
    }
    next
}

/// The beginning of a replay stands for the empty state.
pub proof fn blank_stands_for_nothing()
    ensures
        stands_for(blank(), empty_database()),
        sound(empty_database()),
{
    assert(bare(empty_database()).catalog =~= empty_database().catalog);
    Database::alike_to_itself(empty_database());
    assert forall|named: (u64, u64)| #[trigger] has_key(blank().rows, named) implies is_row(
        empty_database().catalog,
        named,
    ) by {
        get_absent(blank().rows, named);
    }
}

/// A state gives no writes to itself.
pub proof fn equal_states_need_no_writes(database: DatabaseModel)
    requires
        sound(database),
        forall|i: int, j: int, q: int|
            #![trigger database.catalog[i].1.rows[j], database.catalog[i].1.columns[q]]
            0 <= i < database.catalog.len() && 0 <= j < database.catalog[i].1.rows.len() && 0 <= q
                < database.catalog[i].1.columns.len() ==> has_key(
                database.catalog[i].1.rows[j].1.values,
                database.catalog[i].1.columns[q].name,
            ),
    ensures
        planned(database, database) == Seq::<OperationModel>::empty(),
{
    Database::alike_to_itself(bare(database));
    let none = Seq::<OperationModel>::empty();
    no_removals(database, 0, none);
    no_writes(database, 0, none);
    no_migrations(database.migrations, 0, none);
}

proof fn no_removals(database: DatabaseModel, i: int, done: Seq<OperationModel>)
    requires
        sound(database),
        0 <= i,
    ensures
        all_removals_from(database.catalog, database.catalog, i, done) == done,
    decreases database.catalog.len() - i,
{
    if i < database.catalog.len() {
        table_with_its_id(database, i);
        no_table_removals(database.catalog[i].1, 0, done);
        no_removals(database, i + 1, done);
    }
}

proof fn no_table_removals(table: TableModel, j: int, done: Seq<OperationModel>)
    requires
        sound_table(table),
        0 <= j,
    ensures
        removals_from(table, Some(table), j, done) == done,
    decreases table.rows.len() - j,
{
    if j < table.rows.len() {
        get_at(table.rows, j);
        no_table_removals(table, j + 1, done);
    }
}

proof fn no_writes(database: DatabaseModel, i: int, done: Seq<OperationModel>)
    requires
        sound(database),
        0 <= i,
        forall|i: int, j: int, q: int|
            #![trigger database.catalog[i].1.rows[j], database.catalog[i].1.columns[q]]
            0 <= i < database.catalog.len() && 0 <= j < database.catalog[i].1.rows.len() && 0 <= q
                < database.catalog[i].1.columns.len() ==> has_key(
                database.catalog[i].1.rows[j].1.values,
                database.catalog[i].1.columns[q].name,
            ),
    ensures
        all_writes_from(database.catalog, database.catalog, i, done) == done,
    decreases database.catalog.len() - i,
{
    if i < database.catalog.len() {
        table_with_its_id(database, i);
        let table = database.catalog[i].1;
        assert forall|j: int, q: int|
            #![trigger table.rows[j], table.columns[q]]
            0 <= j < table.rows.len() && 0 <= q < table.columns.len() implies has_key(
            table.rows[j].1.values,
            table.columns[q].name,
        ) by {
            assert(database.catalog[i].1.rows[j] == table.rows[j]);
            assert(database.catalog[i].1.columns[q] == table.columns[q]);
        }
        no_table_writes(table, 0, done);
        no_writes(database, i + 1, done);
    }
}

proof fn no_table_writes(table: TableModel, j: int, done: Seq<OperationModel>)
    requires
        sound_table(table),
        0 <= j,
        forall|j: int, q: int|
            #![trigger table.rows[j], table.columns[q]]
            0 <= j < table.rows.len() && 0 <= q < table.columns.len() ==> has_key(
                table.rows[j].1.values,
                table.columns[q].name,
            ),
    ensures
        table_writes_from(table, Some(table), j, done) == done,
    decreases table.rows.len() - j,
{
    if j < table.rows.len() {
        let row = table.rows[j].1;
        get_at(table.rows, j);
        no_cell_writes(table, row, 0, done);
        no_table_writes(table, j + 1, done);
    }
}

proof fn no_cell_writes(table: TableModel, row: RowModel, q: int, done: Seq<OperationModel>)
    requires
        sound_table(table),
        0 <= q,
        forall|q: int| 0 <= q < table.columns.len() ==> has_key(row.values, (#[trigger] table.columns[q]).name),
    ensures
        cell_writes_from(table, Some(table), row, Some(row), q, done) == done,
    decreases table.columns.len() - q,
{
    if q < table.columns.len() {
        let column = table.columns[q];
        column_found(table.columns, column.id, column.data_type, 0);
        column_itself(table, q, 0);
        json_alike_to_itself(held(row, column.name));
        no_cell_writes(table, row, q + 1, done);
    }
}

proof fn column_itself(table: TableModel, q: int, from: int)
    requires
        sound_table(table),
        0 <= from <= q < table.columns.len(),
    ensures
        column_with_from(table.columns, table.columns[q].id, table.columns[q].data_type, from) == Some(
            table.columns[q],
        ),
    decreases q - from,
{
    if from < q {
        assert(table.columns[from].id != table.columns[q].id);
        column_itself(table, q, from + 1);
    }
}

proof fn no_migrations(migrations: Seq<(Seq<char>, ())>, from: int, done: Seq<OperationModel>)
    requires
        0 <= from,
    ensures
        migration_writes_from(migrations, migrations, from, done) == done,
    decreases migrations.len() - from,
{
    if from < migrations.len() {
        spot_from_range(migrations, migrations[from].0, 0);
        no_migrations(migrations, from + 1, done);
    }
}

// ---------------------------------------------------------------------------------------------
// The restored state
// ---------------------------------------------------------------------------------------------

/// Whether a row has the value of a column that another row holds.
pub open spec fn cell_restored(values: CellsModel, column: ColumnModel, row: RowModel) -> bool {
    match get(values, column.name) {
        Some(value) => same_json(value, held(row, column.name)),
        None => false,
    }
}

/// Whether a row that was found under an identity is that of a table, or missing in both.
pub open spec fn row_restored(found: Option<RowModel>, table: TableModel, wanted: u64) -> bool {
    match get(table.rows, wanted) {
        Some(row) => match found {
            Some(restored) => restored.id == wanted && (forall|q: int|
                0 <= q < table.columns.len() ==> cell_restored(
                    restored.values,
                    #[trigger] table.columns[q],
                    row,
                )),
            None => false,
        },
        None => found is None,
    }
}

/// Whether a state is another one again: the same definitions, and the same rows with the same values.
pub open spec fn restores(restored: DatabaseModel, database: DatabaseModel) -> bool {
    &&& Database::alike(bare(restored), bare(database))
    &&& restored.catalog.len() == database.catalog.len()
    &&& forall|i: int, wanted: u64|
        #![trigger get(restored.catalog[i].1.rows, wanted)]
        0 <= i < database.catalog.len() ==> row_restored(
            get(restored.catalog[i].1.rows, wanted),
            database.catalog[i].1,
            wanted,
        )
}

/// Whether two lists of columns agree in identities, names and types.
pub open spec fn same_columns(a: Seq<ColumnModel>, b: Seq<ColumnModel>) -> bool {
    a.len() == b.len() && (forall|q: int|
        0 <= q < a.len() ==> (#[trigger] a[q]).id == b[q].id && a[q].name == b[q].name && a[q].data_type
            == b[q].data_type)
}

proof fn cells_read(
    columns: Seq<ColumnModel>,
    table: TableModel,
    row: RowModel,
    trace: TraceModel,
    from: int,
    done: CellsModel,
) -> (values: CellsModel)
    requires
        same_columns(columns, table.columns),
        sound_table(table),
        trace_kept(trace, table, row),
        cells_faithful(columns, trace.cells),
        0 <= from <= columns.len(),
        sorted(done),
        forall|q: int| 0 <= q < from ==> cell_restored(done, #[trigger] table.columns[q], row),
    ensures
        row_cells_from(columns, trace.cells, from, done) == Ok::<CellsModel, ReplayError>(values),
        forall|q: int|
            0 <= q < table.columns.len() ==> cell_restored(values, #[trigger] table.columns[q], row),
    decreases columns.len() - from,
{
    if from >= columns.len() {
        done
    } else {
        let column = table.columns[from];
        assert(columns[from].id == column.id);
        assert(cell_kept(trace.cells, column, row));
        assert(cell_faithful(columns[from], trace.cells));
        let value = match get(trace.cells, id_of(column.id)) {
            Some(bytes) => choose|stored: Json| #[trigger]
                reads_as(column.data_type, bytes, stored) && same_json(stored, held(row, column.name)),
            None => Json::Null,
        };
        assert(stored_cell(columns[from], trace.cells) == Ok::<Json, ReplayError>(value));
        let next = put(done, column.name, value);
        put_keeps_order(done, column.name, value);
        get_after_put(done, column.name, value, column.name);
        assert forall|q: int| 0 <= q < from + 1 implies cell_restored(next, #[trigger] table.columns[q], row) by {
            if q < from {
                assert(table.columns[q].name != table.columns[from].name);
                get_after_put(done, column.name, value, table.columns[q].name);
            }
        }
        cells_read(columns, table, row, trace, from + 1, next)
    }
}

proof fn rows_read(
    database: DatabaseModel,
    replay: ReplayModel,
    i: int,
    shape: TableModel,
    from: int,
    done: Seq<(u64, RowModel)>,
) -> (rows: Seq<(u64, RowModel)>)
    requires
        sound(database),
        stands_for(replay, database),
        0 <= i < database.catalog.len(),
        shape.id == database.catalog[i].1.id,
        same_columns(shape.columns, database.catalog[i].1.columns),
        rows_faithful(shape, replay.rows),
        0 <= from <= replay.rows.len(),
        sorted(done),
        forall|wanted: u64|
            has_key(done, wanted) ==> row_restored(#[trigger] get(done, wanted), database.catalog[i].1, wanted),
        forall|wanted: u64|
            #[trigger] has_key(done, wanted) == exists|p: int|
                0 <= p < from && (#[trigger] replay.rows[p]).0 == (shape.id, wanted),
    ensures
        table_rows_from(shape, replay.rows, from, done) == Ok::<Seq<(u64, RowModel)>, ReplayError>(rows),
        forall|wanted: u64|
            has_key(rows, wanted) ==> row_restored(#[trigger] get(rows, wanted), database.catalog[i].1, wanted),
        forall|wanted: u64|
            #[trigger] has_key(rows, wanted) == exists|p: int|
                0 <= p < replay.rows.len() && (#[trigger] replay.rows[p]).0 == (shape.id, wanted),
    decreases replay.rows.len() - from,
{
    let table = database.catalog[i].1;
    assert(sound_table(table));
    if from >= replay.rows.len() {
        done
    } else if replay.rows[from].0.0 != shape.id {
        assert forall|wanted: u64| #[trigger]
            has_key(done, wanted) == exists|p: int|
                0 <= p < from + 1 && (#[trigger] replay.rows[p]).0 == (shape.id, wanted) by {
            if exists|p: int| 0 <= p < from + 1 && (#[trigger] replay.rows[p]).0 == (shape.id, wanted) {
                let p = choose|p: int|
                    0 <= p < from + 1 && (#[trigger] replay.rows[p]).0 == (shape.id, wanted);
                assert(p < from);
                assert(replay.rows[p].0 == (shape.id, wanted));
            }
        }
        rows_read(database, replay, i, shape, from + 1, done)
    } else {
        let named = replay.rows[from].0;
        let trace = replay.rows[from].1;
        get_at(replay.rows, from);
        assert(has_key(replay.rows, named));
        assert(is_row(database.catalog, named));
        let x = choose|x: int|
            #![trigger database.catalog[x]]
            0 <= x < database.catalog.len() && database.catalog[x].1.id == named.0 && has_key(
                database.catalog[x].1.rows,
                named.1,
            );
        if x < i {
            assert(database.catalog[x].1.id != database.catalog[i].1.id);
        } else if i < x {
            assert(database.catalog[i].1.id != database.catalog[x].1.id);
        }
        let j = row_position(table, named.1);
        let row = table.rows[j].1;
        assert(row_kept(replay.rows, database.catalog[i].1, database.catalog[i].1.rows[j].1));
        let values = cells_read(shape.columns, table, row, trace, 0, Seq::empty());
        let made = RowModel { id: named.1, version: trace.version, values };
        let next = put(done, named.1, made);
        put_keeps_order(done, named.1, made);
        assert forall|wanted: u64| has_key(next, wanted) implies row_restored(
            #[trigger] get(next, wanted),
            table,
            wanted,
        ) by {
            get_after_put(done, named.1, made, wanted);
            if wanted != named.1 {
                assert(has_key(done, wanted));
            }
        }
        assert forall|wanted: u64| #[trigger]
            has_key(next, wanted) == exists|p: int|
                0 <= p < from + 1 && (#[trigger] replay.rows[p]).0 == (shape.id, wanted) by {
            get_after_put(done, named.1, made, wanted);
            if wanted == named.1 {
                assert(replay.rows[from].0 == (shape.id, wanted));
            } else {
                assert(has_key(next, wanted) == has_key(done, wanted));
                if has_key(done, wanted) {
                    let p = choose|p: int|
                        0 <= p < from && (#[trigger] replay.rows[p]).0 == (shape.id, wanted);
                    assert(replay.rows[p].0 == (shape.id, wanted));
                }
                if exists|p: int| 0 <= p < from + 1 && (#[trigger] replay.rows[p]).0 == (shape.id, wanted) {
                    let p = choose|p: int|
                        0 <= p < from + 1 && (#[trigger] replay.rows[p]).0 == (shape.id, wanted);
                    assert(p < from);
                    assert(replay.rows[p].0 == (shape.id, wanted));
                }
            }
        }
        rows_read(database, replay, i, shape, from + 1, next)
    }
}

proof fn table_restored(database: DatabaseModel, replay: ReplayModel, i: int) -> (table: TableModel)
    requires
        sound(database),
        stands_for(replay, database),
        replay_faithful(replay),
        0 <= i < database.catalog.len(),
    ensures
        i < replay.database.catalog.len(),
        filled(replay.database.catalog[i].1, replay) == Ok::<TableModel, ReplayError>(table),
        bare_table(table) == bare_table(replay.database.catalog[i].1),
        forall|wanted: u64|
            row_restored(#[trigger] get(table.rows, wanted), database.catalog[i].1, wanted),
{
    let shape = replay.database.catalog[i].1;
    let goal = database.catalog[i].1;
    assert(bare(database).catalog[i] == (database.catalog[i].0, bare_table(goal)));
    assert(replay.database.catalog[i].0 == bare(database).catalog[i].0);
    assert(crate::catalog::Table::alike(shape, bare_table(goal)));
    assert(rows_faithful(replay.database.catalog[i].1, replay.rows));
    assert forall|q: int| 0 <= q < shape.columns.len() implies (#[trigger] shape.columns[q]).id
        == goal.columns[q].id && shape.columns[q].name == goal.columns[q].name && shape.columns[q].data_type
        == goal.columns[q].data_type by {
        assert(crate::catalog::Column::alike(shape.columns[q], bare_table(goal).columns[q]));
    }
    let none = Seq::<(u64, RowModel)>::empty();
    assert forall|wanted: u64| #[trigger]
        has_key(none, wanted) == exists|p: int| 0 <= p < 0 && (#[trigger] replay.rows[p]).0 == (shape.id, wanted) by {
        get_absent(none, wanted);
    }
    let rows = rows_read(database, replay, i, shape, 0, none);
    let table = TableModel {
        rows,
        next_row_id: match get(replay.allocators, shape.id) {
            Some(n) => n,
            None => 1,
        },
        ..shape
    };
    assert(sound_table(goal));
    assert forall|wanted: u64| row_restored(#[trigger] get(table.rows, wanted), goal, wanted) by {
        if has_key(goal.rows, wanted) {
            let j = row_position(goal, wanted);
            assert(row_kept(replay.rows, database.catalog[i].1, database.catalog[i].1.rows[j].1));
            spot_from_range(replay.rows, (goal.id, wanted), 0);
            let p = spot_from(replay.rows, (goal.id, wanted), 0);
            assert(replay.rows[p].0 == (shape.id, wanted));
            assert(has_key(rows, wanted));
        } else if has_key(rows, wanted) {
            assert(row_restored(get(rows, wanted), goal, wanted));
        }
    }
    table
}

proof fn tables_restored(
    database: DatabaseModel,
    replay: ReplayModel,
    from: int,
    done: Seq<(Seq<char>, TableModel)>,
) -> (catalog: Seq<(Seq<char>, TableModel)>)
    requires
        sound(database),
        stands_for(replay, database),
        replay_faithful(replay),
        0 <= from <= database.catalog.len(),
        done.len() == from,
        forall|i: int|
            0 <= i < from ==> (#[trigger] done[i]).0 == replay.database.catalog[i].0 && bare_table(done[i].1)
                == bare_table(replay.database.catalog[i].1),
        forall|i: int, wanted: u64|
            #![trigger get(done[i].1.rows, wanted)]
            0 <= i < from ==> row_restored(get(done[i].1.rows, wanted), database.catalog[i].1, wanted),
    ensures
        filled_from(replay.database.catalog, replay, from, done) == Ok::<
            Seq<(Seq<char>, TableModel)>,
            ReplayError,
        >(catalog),
        catalog.len() == database.catalog.len(),
        forall|i: int|
            0 <= i < catalog.len() ==> (#[trigger] catalog[i]).0 == replay.database.catalog[i].0 && bare_table(
                catalog[i].1,
            ) == bare_table(replay.database.catalog[i].1),
        forall|i: int, wanted: u64|
            #![trigger get(catalog[i].1.rows, wanted)]
            0 <= i < catalog.len() ==> row_restored(get(catalog[i].1.rows, wanted), database.catalog[i].1, wanted),
    decreases database.catalog.len() - from,
{
    assert(replay.database.catalog.len() == bare(database).catalog.len());
    if from >= database.catalog.len() {
        done
    } else {
        let table = table_restored(database, replay, from);
        let next = done.push((replay.database.catalog[from].0, table));
        tables_restored(database, replay, from + 1, next)
    }
}

/// A replay that stands for a state gives that state back, where the stored cells are read as what was
/// encoded.
pub proof fn replay_restores(database: DatabaseModel, replay: ReplayModel) -> (restored: DatabaseModel)
    requires
        sound(database),
        stands_for(replay, database),
        replay_faithful(replay),
    ensures
        settled(replay) == Ok::<DatabaseModel, ReplayError>(restored),
        restores(restored, database),
{
    let catalog = tables_restored(database, replay, 0, Seq::empty());
    let restored = DatabaseModel { catalog, ..replay.database };
    assert(Database::alike(bare(restored), bare(database))) by {
        let a = bare(restored);
        let b = bare(database);
        let d = replay.database;
        assert forall|i: int| 0 <= i < a.catalog.len() implies (#[trigger] a.catalog[i]).0 == b.catalog[i].0
            && crate::catalog::Table::alike(a.catalog[i].1, b.catalog[i].1) by {
            assert(a.catalog[i].1 == bare_table(catalog[i].1));
            assert(d.catalog[i].0 == b.catalog[i].0);
            assert(crate::catalog::Table::alike(d.catalog[i].1, b.catalog[i].1));
        }
    }
    restored
}

// ---------------------------------------------------------------------------------------------
// Histories
// ---------------------------------------------------------------------------------------------

/// The state before the commit at a position of a history that begins with the empty state.
pub open spec fn state_before(states: Seq<DatabaseModel>, n: int) -> DatabaseModel {
    if n <= 0 {
        empty_database()
    } else {
        states[n - 1]
    }
}

/// The changes that the first `n` commits of a history leave on the chain, each under its revision.
pub open spec fn history(states: Seq<DatabaseModel>, revisions: Seq<u64>, n: int) -> Seq<ChangeModel>
    decreases n,
{
    if n <= 0 {
        Seq::empty()
    } else {
        history(states, revisions, n - 1) + changes_of(
            planned(state_before(states, n - 1), states[n - 1]),
            revisions[n - 1],
        )
    }
}

proof fn history_grows(states: Seq<DatabaseModel>, revisions: Seq<u64>, n: int, total: int)
    requires
        0 <= n <= total,
    ensures
        history(states, revisions, n).len() <= history(states, revisions, total).len(),
        history(states, revisions, total).take(history(states, revisions, n).len() as int) == history(
            states,
            revisions,
            n,
        ),
    decreases total - n,
{
    let part = history(states, revisions, n);
    let whole = history(states, revisions, total);
    if n == total {
        assert(whole.take(part.len() as int) =~= part);
    } else {
        history_grows(states, revisions, n, total - 1);
        let less = history(states, revisions, total - 1);
        assert(whole.take(part.len() as int) =~= less.take(part.len() as int));
    }
}

/// Whether a list of writes begins with one.
pub open spec fn begins(ops: Seq<OperationModel>, op: OperationModel) -> bool {
    ops.len() > 0 && ops[0] == op
}

proof fn removals_begin(
    table: TableModel,
    kept: Option<TableModel>,
    from: int,
    done: Seq<OperationModel>,
    op: OperationModel,
)
    requires
        begins(done, op),
    ensures
        begins(removals_from(table, kept, from, done), op),
    decreases table.rows.len() - from,
{
    if 0 <= from < table.rows.len() {
        removals_begin(table, kept, from + 1, done, op);
        removals_begin(table, kept, from + 1, done.push(row_removal(table.id, table.rows[from].1.id)), op);
    }
}

proof fn all_removals_begin(
    before: Seq<(Seq<char>, TableModel)>,
    after: Seq<(Seq<char>, TableModel)>,
    from: int,
    done: Seq<OperationModel>,
    op: OperationModel,
)
    requires
        begins(done, op),
    ensures
        begins(all_removals_from(before, after, from, done), op),
    decreases before.len() - from,
{
    if 0 <= from < before.len() {
        let table = before[from].1;
        removals_begin(table, table_with(after, table.id), 0, done, op);
        all_removals_begin(before, after, from + 1, removals_from(table, table_with(after, table.id), 0, done), op);
    }
}

proof fn cell_writes_begin(
    table: TableModel,
    known: Option<TableModel>,
    row: RowModel,
    known_row: Option<RowModel>,
    from: int,
    done: Seq<OperationModel>,
    op: OperationModel,
)
    requires
        begins(done, op),
    ensures
        begins(cell_writes_from(table, known, row, known_row, from, done), op),
    decreases table.columns.len() - from,
{
    if 0 <= from < table.columns.len() {
        let column = table.columns[from];
        cell_writes_begin(table, known, row, known_row, from + 1, done, op);
        cell_writes_begin(
            table,
            known,
            row,
            known_row,
            from + 1,
            done.push(cell_write(table.id, row.id, column, held(row, column.name))),
            op,
        );
    }
}

proof fn table_writes_begin(
    table: TableModel,
    known: Option<TableModel>,
    from: int,
    done: Seq<OperationModel>,
    op: OperationModel,
)
    requires
        begins(done, op),
    ensures
        begins(table_writes_from(table, known, from, done), op),
    decreases table.rows.len() - from,
{
    if 0 <= from < table.rows.len() {
        let row = table.rows[from].1;
        let known_row = former_row(known, row.id);
        cell_writes_begin(table, known, row, known_row, 0, done, op);
        cell_writes_begin(table, known, row, known_row, 0, done.push(row_creation(table.id, row.id)), op);
        table_writes_begin(table, known, from + 1, row_writes(table, known, row, done), op);
    }
}

proof fn all_writes_begin(
    before: Seq<(Seq<char>, TableModel)>,
    after: Seq<(Seq<char>, TableModel)>,
    from: int,
    done: Seq<OperationModel>,
    op: OperationModel,
)
    requires
        begins(done, op),
    ensures
        begins(all_writes_from(before, after, from, done), op),
    decreases after.len() - from,
{
    if 0 <= from < after.len() {
        let table = after[from].1;
        table_writes_begin(table, table_with(before, table.id), 0, done, op);
        all_writes_begin(
            before,
            after,
            from + 1,
            table_writes_from(table, table_with(before, table.id), 0, done),
            op,
        );
    }
}

proof fn migrations_begin(
    before: Seq<(Seq<char>, ())>,
    after: Seq<(Seq<char>, ())>,
    from: int,
    done: Seq<OperationModel>,
    op: OperationModel,
)
    requires
        begins(done, op),
    ensures
        begins(migration_writes_from(before, after, from, done), op),
    decreases after.len() - from,
{
    if 0 <= from < after.len() {
        migrations_begin(before, after, from + 1, done, op);
        migrations_begin(before, after, from + 1, done.push(migration_write(after[from].0)), op);
    }
}

/// A plan that changes the definitions begins with them.
pub proof fn definitions_come_first(before: DatabaseModel, after: DatabaseModel)
    requires
        !Database::alike(bare(before), bare(after)),
    ensures
        begins(planned(before, after), catalog_write(after)),
{
    let op = catalog_write(after);
    let first = catalog_writes(before, after);
    assert(begins(first, op));
    all_removals_begin(before.catalog, after.catalog, 0, first, op);
    let removed = all_removals_from(before.catalog, after.catalog, 0, first);
    all_writes_begin(before.catalog, after.catalog, 0, removed, op);
    let written = all_writes_from(before.catalog, after.catalog, 0, removed);
    migrations_begin(before.migrations, after.migrations, 0, written, op);
}

/// Whether every state of a history is well formed and sure to be read back.
pub open spec fn legible_history(states: Seq<DatabaseModel>) -> bool {
    forall|i: int| 0 <= i < states.len() ==> sound(#[trigger] states[i]) && legible(states[i])
}

/// Whether the definitions among the first `m` changes are read as what was written.
pub open spec fn documents_faithful(changes: Seq<ChangeModel>, m: int) -> bool {
    forall|j: int|
        0 <= j < m && j < changes.len() && defines(#[trigger] changes[j]) ==> document_faithful(changes[j].data)
}

/// Definitions that are sure to be read back are read back where their text is read faithfully.
pub proof fn faithful_definitions(database: DatabaseModel)
    requires
        legible_definitions(database),
        document_faithful(catalog_write(database).data),
    ensures
        definitions_read(database),
{
    if !definitions_read(database) {
        assert(database_text(bare(database)) == database_text(bare(database)));
    }
}

/// The replay of the first commits of a history, whose definitions were among the changes read so far.
proof fn history_stands_for(states: Seq<DatabaseModel>, revisions: Seq<u64>, n: int, m: int) -> (replay: ReplayModel)
    requires
        0 <= n <= states.len(),
        legible_history(states),
        documents_faithful(history(states, revisions, states.len() as int), m),
        n == 0 || history(states, revisions, n - 1).len() < m || history(states, revisions, n).len() <= m,
    ensures
        replay_from(history(states, revisions, n), 0, blank()) == Ok::<ReplayModel, ReplayError>(replay),
        stands_for(replay, state_before(states, n)),
        sound(state_before(states, n)),
    decreases n,
{
    blank_stands_for_nothing();
    if n == 0 {
        blank()
    } else {
        let whole = history(states, revisions, states.len() as int);
        let past = history(states, revisions, n - 1);
        let before = state_before(states, n - 1);
        let after = states[n - 1];
        let ops = planned(before, after);
        let revision = revisions[n - 1];
        assert(history(states, revisions, n) == past + changes_of(ops, revision));
        if n > 1 {
            history_grows(states, revisions, n - 2, n - 1);
        }
        let earlier = history_stands_for(states, revisions, n - 1, m);
        if !Database::alike(bare(before), bare(after)) {
            definitions_come_first(before, after);
            history_grows(states, revisions, n, states.len() as int);
            let at = past.len() as int;
            assert(history(states, revisions, n)[at] == changes_of(ops, revision)[0]);
            assert(whole[at] == whole.take(history(states, revisions, n).len() as int)[at]);
            assert(whole[at] == change_of(catalog_write(after), revision));
            assert(defines(whole[at]));
            faithful_definitions(after);
        }
        let next = replay_follows_commit(before, after, earlier, revision);
        replay_continues(past, changes_of(ops, revision), blank());
        next
    }
}

/// The commit that a change of a history belongs to.
proof fn commit_of_change(states: Seq<DatabaseModel>, revisions: Seq<u64>, total: int, i: int) -> (n: int)
    requires
        0 <= total,
        0 <= i < history(states, revisions, total).len(),
    ensures
        1 <= n <= total,
        history(states, revisions, n - 1).len() <= i < history(states, revisions, n).len(),
    decreases total,
{
    if i < history(states, revisions, total - 1).len() {
        commit_of_change(states, revisions, total - 1, i)
    } else {
        total
    }
}

/// No change of a legible history fails to be replayed where the definitions up to it are read
/// faithfully.
pub proof fn no_change_fails(states: Seq<DatabaseModel>, revisions: Seq<u64>, i: int)
    requires
        legible_history(states),
        0 <= i < history(states, revisions, states.len() as int).len(),
        documents_faithful(history(states, revisions, states.len() as int), i + 1),
    ensures
        replay_from(history(states, revisions, states.len() as int).take(i + 1), 0, blank()) is Ok,
{
    let whole = history(states, revisions, states.len() as int);
    let n = commit_of_change(states, revisions, states.len() as int, i);
    let part = history(states, revisions, n);
    let replay = history_stands_for(states, revisions, n, i + 1);
    history_grows(states, revisions, n, states.len() as int);
    assert(whole.take(i + 1) =~= part.take(i + 1));
    assert(part =~= part.take(i + 1) + part.skip(i + 1));
    replay_continues(part.take(i + 1), part.skip(i + 1), blank());
}

/// A replay that stands for a state has only cells that are sure to be read back.
pub proof fn standing_is_sound(database: DatabaseModel, replay: ReplayModel)
    requires
        sound(database),
        stands_for(replay, database),
    ensures
        replay_sound(replay),
{
    assert(replay.database.catalog.len() == bare(database).catalog.len());
    assert forall|t: int| 0 <= t < replay.database.catalog.len() implies rows_sound(
        (#[trigger] replay.database.catalog[t]).1,
        replay.rows,
    ) by {
        let shape = replay.database.catalog[t].1;
        let goal = database.catalog[t].1;
        assert(bare(database).catalog[t] == (database.catalog[t].0, bare_table(goal)));
        assert(crate::catalog::Table::alike(shape, bare_table(goal)));
        assert(sound_table(goal));
        assert forall|p: int| 0 <= p < replay.rows.len() && (#[trigger] replay.rows[p]).0.0 == shape.id implies cells_sound(
            shape.columns,
            replay.rows[p].1.cells,
        ) by {
            let named = replay.rows[p].0;
            get_at(replay.rows, p);
            assert(has_key(replay.rows, named));
            let x = choose|x: int|
                #![trigger database.catalog[x]]
                0 <= x < database.catalog.len() && database.catalog[x].1.id == named.0 && has_key(
                    database.catalog[x].1.rows,
                    named.1,
                );
            if x < t {
                assert(database.catalog[x].1.id != database.catalog[t].1.id);
            } else if t < x {
                assert(database.catalog[t].1.id != database.catalog[x].1.id);
            }
            let j = row_position(goal, named.1);
            assert(row_kept(replay.rows, database.catalog[t].1, database.catalog[t].1.rows[j].1));
            assert forall|q: int| 0 <= q < shape.columns.len() implies cell_sound(
                #[trigger] shape.columns[q],
                replay.rows[p].1.cells,
            ) by {
                assert(crate::catalog::Column::alike(shape.columns[q], bare_table(goal).columns[q]));
                let row = goal.rows[j].1;
                assert(cell_kept(replay.rows[p].1.cells, goal.columns[q], row));
                match get(replay.rows[p].1.cells, id_of(goal.columns[q].id)) {
                    Some(bytes) => {
                        let stored = choose|stored: Json| #[trigger]
                            reads_as(goal.columns[q].data_type, bytes, stored) && same_json(
                                stored,
                                held(row, goal.columns[q].name),
                            );
                        assert(reads_as(shape.columns[q].data_type, bytes, stored));
                    },
                    None => {},
                }
            }
        }
    }
}

/// What the replay of a whole legible history is, where its definitions are read faithfully.
pub proof fn history_settles(states: Seq<DatabaseModel>, revisions: Seq<u64>, replay: ReplayModel)
    requires
        legible_history(states),
        documents_faithful(
            history(states, revisions, states.len() as int),
            history(states, revisions, states.len() as int).len() as int,
        ),
        replay_from(history(states, revisions, states.len() as int), 0, blank()) == Ok::<ReplayModel, ReplayError>(
            replay,
        ),
    ensures
        replay_sound(replay),
        replay_faithful(replay) ==> restored_to(settled(replay), state_before(states, states.len() as int)),
{
    let n = states.len() as int;
    let same = history_stands_for(states, revisions, n, history(states, revisions, n).len() as int);
    standing_is_sound(state_before(states, n), replay);
    if replay_faithful(replay) {
        let restored = replay_restores(state_before(states, n), replay);
    }
}

/// Whether a replay came to a state that is another one again.
pub open spec fn restored_to(outcome: Replayed<DatabaseModel>, database: DatabaseModel) -> bool {
    outcome matches Ok(restored) && restores(restored, database)
}

/// Whether JSON text is read as what was written, where it keeps that whole.
pub open spec fn json_reads_back() -> bool {
    forall|layout: LayoutModel| keeps_layout(layout, read_nesting()) ==> #[trigger] text_reads(layout)
}

/// The state of a history is restored from the changes alone: rebuilding the writes of every commit
/// gives back the definitions, the rows and their values after the last one.
pub proof fn history_is_restored(states: Seq<DatabaseModel>, revisions: Seq<u64>)
    requires
        legible_history(states),
        json_reads_back(),
    ensures
        restored_to(
            rebuilt(history(states, revisions, states.len() as int)),
            state_before(states, states.len() as int),
        ),
{
    let n = states.len() as int;
    let whole = history(states, revisions, n);
    assert forall|j: int| 0 <= j < whole.len() && defines(#[trigger] whole[j]) implies document_faithful(
        whole[j].data,
    ) by {
        every_document_is_faithful(whole[j].data);
    }
    let replay = history_stands_for(states, revisions, n, whole.len() as int);
    history_settles(states, revisions, replay);
    assert(replay_faithful(replay)) by {
        assert forall|data_type: Seq<char>, bytes: Seq<u8>| #[trigger] faithful(data_type, bytes) by {
            every_cell_is_faithful(data_type, bytes);
        }
    }
}

pub proof fn every_document_is_faithful(data: Seq<u8>)
    requires
        json_reads_back(),
    ensures
        document_faithful(data),
{
    assert forall|database: DatabaseModel|
        #![trigger database_text(database)]
        Database::canonical(database) && keeps_layout(Database::layout_of(database), read_nesting()) && data
            == encode_utf8(database_text(database)) implies valid_utf8(data) && database_read(decode_utf8(data)) == Some(
        database,
    ) by {
        assert(text_reads(Database::layout_of(database)));
        database_reads_back(database);
        encode_utf8_valid_utf8(database_text(database));
        encode_utf8_decode_utf8(database_text(database));
    }
}

pub proof fn every_cell_is_faithful(data_type: Seq<char>, bytes: Seq<u8>)
    requires
        json_reads_back(),
    ensures
        faithful(data_type, bytes),
{
    assert forall|value: Json|
        #![trigger encoded(data_type, value)]
        keeps(value, 99) && bytes == encoded(data_type, value) implies decoded(data_type, bytes) == Ok::<
        Json,
        ReplayError,
    >(value) by {
        cell_is_kept(data_type, value);
        assert(text_reads(cell_layout(data_type, value)));
        cell_reads_back(data_type, value);
    }
}

// ---------------------------------------------------------------------------------------------
// Identities
// ---------------------------------------------------------------------------------------------

/// Whether a table gives no identity up to `row` again.
pub open spec fn spent(allocators: Seq<(u64, u64)>, table: u64, row: u64) -> bool {
    match get(allocators, table) {
        Some(next) => next > row,
        None => false,
    }
}

/// An identity that was given once is never given again: the change that creates a row spends it, and
/// no later change takes that back.
pub proof fn identities_stay_spent(replay: ReplayModel, change: ChangeModel, table: u64, row: u64)
    requires
        sorted(replay.allocators),
    ensures
        match stepped(replay, change) {
            Ok(next) => {
                &&& sorted(next.allocators)
                &&& spent(replay.allocators, table, row) ==> spent(next.allocators, table, row)
                &&& change.kind == 2 && row_named(change) == Ok::<(u64, u64), ReplayError>((table, row))
                    ==> spent(next.allocators, table, row)
            },
            Err(_) => true,
        },
{
    if change.kind == 2 {
        match row_named(change) {
            Ok((created, fresh)) => {
                if fresh < u64::MAX {
                    put_keeps_order(replay.allocators, created, (fresh + 1) as u64);
                    get_after_put(replay.allocators, created, (fresh + 1) as u64, table);
                }
            },
            Err(_) => {},
        }
    }
}

// ---------------------------------------------------------------------------------------------
// Legible states
// ---------------------------------------------------------------------------------------------

/// A stored cell reads as the value that was stored.
pub proof fn cell_reads_back(data_type: Seq<char>, value: Json)
    requires
        text_reads(cell_layout(data_type, value)),
    ensures
        decoded(data_type, encoded(data_type, value)) == Ok::<Json, ReplayError>(value),
{
    encode_utf8_valid_utf8(cell_text(data_type, value));
    encode_utf8_decode_utf8(cell_text(data_type, value));
    cell_layout_reads_back(data_type, value);
}

} // verus!
