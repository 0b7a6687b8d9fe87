//! A state as writes of the chain: planning the writes of a commit and replaying them.

use vstd::prelude::*;
use vstd::utf8::{decode_utf8, encode_utf8, encode_utf8_decode_utf8, encode_utf8_valid_utf8, valid_utf8};
use crate::ast::{json_of, parse_json};
use crate::catalog::{
    empty_database, Cells, CellsModel, Column, ColumnModel, Database, DatabaseModel, Row, RowModel, StableId,
    Table, TableModel,
};
use crate::chain::{
    bytes_of, id, id_of, key, key_of, number, number_of, operation, same_word, zero_word, ChainSnapshot,
    Change, ChangeModel, Operation, OperationModel,
};
use crate::codec::{text_reads, Codec};
use crate::decode::{database_read, present, read_database, Decode};
use crate::encode::{cell_layout, cell_text, database_text, write_cell, write_database, Encode};
use crate::json::{group_value_views, Datum, Json, Num};
use crate::layout::{keeps, keeps_layout, layout_text, mark_is_long, read_nesting};
use crate::ordmap::{del, get, has_key, put, Key, OrdMap};
use crate::outside::text_from;
use crate::replay::{
    cell_reads_back, documents_faithful, history, history_settles, legible_history, no_change_fails, replay_continues,
    restored_to, state_before,
};
use crate::replica::{add_last, Replica};
use crate::restore::{commit_on, commit_settles, committable, no_committed_change_fails};
use crate::same::Same;
use crate::text::same;
use crate::value::{child, same_json};

verus! {

broadcast use group_value_views;

/// The name under which the catalog is stored.
pub const CATALOG_KEY: &'static str = "kurasql.catalog.v1";

/// Why changes cannot be replayed.
#[derive(Debug, Clone, Copy, PartialEq, Eq, Structural)]
pub enum ReplayError {
    /// A word is no 64-bit number.
    Number,
    /// Stored text is not of the right form.
    Document,
    /// A cell is written in a row that is not there.
    NoRow,
    /// A cell has an unknown version or another type than its column.
    CellForm,
    /// A row has the last identity, after which there is none.
    Exhausted,
}

/// The result of a replay in specifications.
pub type Replayed<T> = std::result::Result<T, ReplayError>;

/// What a result of a replay stands for.
pub open spec fn replayed<T: DeepView>(result: std::result::Result<T, ReplayError>) -> Replayed<T::V> {
    match result {
        Ok(value) => Ok(value.deep_view()),
        Err(error) => Err(error),
    }
}

// ---------------------------------------------------------------------------------------------
// Cells
// ---------------------------------------------------------------------------------------------

/// The stored bytes of a cell.
pub open spec fn encoded(data_type: Seq<char>, value: Json) -> Seq<u8> {
    encode_utf8(cell_text(data_type, value))
}

/// The stored bytes of a cell.
pub fn encode(column: &Column, value: &Datum) -> (result: Vec<u8>)
    ensures
        result@ == encoded(column.data_type@, value@),
{
    bytes_of(write_cell(column.data_type.as_str(), value).as_str())
}

/// The value in the envelope of a cell: a version, a type and a value, of which the first two have
/// to be those of the column.
pub open spec fn opened(data_type: Seq<char>, envelope: Json) -> Replayed<Json> {
    if !(envelope is Object) || !present(envelope, "value"@) {
        Err(ReplayError::Document)
    } else {
        match (u64::read_of(child(envelope, "version"@)), String::read_of(child(envelope, "sql_type"@))) {
            (Some(version), Some(declared)) => if version > 255 {
                Err(ReplayError::Document)
            } else if version != 1 || declared != data_type {
                Err(ReplayError::CellForm)
            } else {
                Ok(child(envelope, "value"@))
            },
            _ => Err(ReplayError::Document),
        }
    }
}

/// The value in the envelope of a cell.
pub fn open_cell(column: &Column, envelope: &Datum) -> (result: std::result::Result<Datum, ReplayError>)
    ensures
        replayed(result) == opened(column.data_type@, envelope@),
{
    match envelope {
        Datum::Object(map) => {
            if !map.holds("value") {
                return Err(ReplayError::Document);
            }
        },
        _ => {
            return Err(ReplayError::Document);
        },
    }
    match (u64::read(envelope.child("version")), String::read(envelope.child("sql_type"))) {
        (Some(version), Some(declared)) => {
            if version > 255 {
                Err(ReplayError::Document)
            } else if version != 1 || !same(declared.as_str(), column.data_type.as_str()) {
                Err(ReplayError::CellForm)
            } else {
                Ok(envelope.child("value").copied())
            }
        },
        _ => Err(ReplayError::Document),
    }
}

/// The value of stored bytes in a column of this type.
pub open spec fn decoded(data_type: Seq<char>, bytes: Seq<u8>) -> Replayed<Json> {
    if !valid_utf8(bytes) {
        Err(ReplayError::Document)
    } else {
        match json_of(decode_utf8(bytes)) {
            Ok(envelope) => opened(data_type, envelope),
            Err(_) => Err(ReplayError::Document),
        }
    }
}

/// The envelope of a cell is kept whole where its value is.
pub proof fn cell_is_kept(data_type: Seq<char>, value: Json)
    requires
        keeps(value, 99),
    ensures
        keeps_layout(cell_layout(data_type, value), read_nesting()),
{
    let fields = cell_layout(data_type, value)->Fields_0;
    mark_is_long();
    reveal_strlit("version");
    assert(fields[0].0.len() == 7);
    assert forall|i: int| 0 <= i < fields.len() implies keeps_layout((#[trigger] fields[i]).1, 99) by {
        assert(keeps(Json::Number(Num::Int(1)), 99));
        assert(keeps(Json::String(data_type), 99));
    }
}

/// Whether stored bytes are read as the value that was encoded, where JSON keeps it whole.
pub open spec fn faithful(data_type: Seq<char>, bytes: Seq<u8>) -> bool {
    forall|value: Json|
        #![trigger encoded(data_type, value)]
        keeps(value, 99) && bytes == encoded(data_type, value) ==> decoded(data_type, bytes) == Ok::<
            Json,
            ReplayError,
        >(value)
}

/// The value of stored bytes in a column: what was encoded for it, where JSON keeps that whole.
pub fn decode(column: &Column, bytes: &Vec<u8>) -> (result: std::result::Result<Datum, ReplayError>)
    ensures
        replayed(result) == decoded(column.data_type@, bytes@),
        faithful(column.data_type@, bytes@),
{
    proof {
        assert forall|value: Json|
            #![trigger encoded(column.data_type@, value)]
            keeps(value, 99) && bytes@ == encoded(column.data_type@, value) implies keeps_layout(
            cell_layout(column.data_type@, value),
            read_nesting(),
        ) && valid_utf8(bytes@) && decode_utf8(bytes@) == layout_text(cell_layout(column.data_type@, value)) && (
        text_reads(cell_layout(column.data_type@, value)) ==> decoded(column.data_type@, bytes@) == Ok::<
            Json,
            ReplayError,
        >(value)) by {
            cell_is_kept(column.data_type@, value);
            encode_utf8_valid_utf8(cell_text(column.data_type@, value));
            encode_utf8_decode_utf8(cell_text(column.data_type@, value));
            if text_reads(cell_layout(column.data_type@, value)) {
                cell_reads_back(column.data_type@, value);
            }
        }
    }
    match text_from(bytes) {
        Some(source) => match parse_json(source.as_str()) {
            Ok(envelope) => open_cell(column, &envelope),
            Err(_) => Err(ReplayError::Document),
        },
        None => Err(ReplayError::Document),
    }
}

/// Whether a value is sure to be read back from its bytes.
pub open spec fn firm(data_type: Seq<char>, value: Json) -> bool {
    keeps(value, 99) || decoded(data_type, encoded(data_type, value)) == Ok::<Json, ReplayError>(value)
}

/// Whether stored bytes are read as a value, or are those of a value that JSON keeps whole.
pub open spec fn reads_as(data_type: Seq<char>, bytes: Seq<u8>, value: Json) -> bool {
    decoded(data_type, bytes) == Ok::<Json, ReplayError>(value) || keeps(value, 99) && encoded(data_type, value)
        == bytes
}

/// Whether stored bytes are sure to be read back.
pub open spec fn firmly_stored(data_type: Seq<char>, bytes: Seq<u8>) -> bool {
    exists|value: Json| #[trigger] reads_as(data_type, bytes, value)
}

/// Whether the stored cell of a column, where there is one, is sure to be read back.
pub open spec fn cell_sound(column: ColumnModel, cells: Seq<(Seq<u8>, Seq<u8>)>) -> bool {
    get(cells, id_of(column.id)) matches Some(bytes) ==> firmly_stored(column.data_type, bytes)
}

/// Whether the stored cell of a column, where there is one, is read as what was encoded.
pub open spec fn cell_faithful(column: ColumnModel, cells: Seq<(Seq<u8>, Seq<u8>)>) -> bool {
    get(cells, id_of(column.id)) matches Some(bytes) ==> faithful(column.data_type, bytes)
}

/// Whether all cells of a row are sure to be read back.
pub open spec fn cells_sound(columns: Seq<ColumnModel>, cells: Seq<(Seq<u8>, Seq<u8>)>) -> bool {
    forall|q: int| 0 <= q < columns.len() ==> cell_sound(#[trigger] columns[q], cells)
}

/// Whether all cells of a row are read as what was encoded.
pub open spec fn cells_faithful(columns: Seq<ColumnModel>, cells: Seq<(Seq<u8>, Seq<u8>)>) -> bool {
    forall|q: int| 0 <= q < columns.len() ==> cell_faithful(#[trigger] columns[q], cells)
}

/// Whether all rows of a table are sure to be read back.
pub open spec fn rows_sound(table: TableModel, rows: Seq<((u64, u64), TraceModel)>) -> bool {
    forall|p: int|
        0 <= p < rows.len() && (#[trigger] rows[p]).0.0 == table.id ==> cells_sound(table.columns, rows[p].1.cells)
}

/// Whether all rows of a table are read as what was encoded.
pub open spec fn rows_faithful(table: TableModel, rows: Seq<((u64, u64), TraceModel)>) -> bool {
    forall|p: int|
        0 <= p < rows.len() && (#[trigger] rows[p]).0.0 == table.id ==> cells_faithful(
            table.columns,
            rows[p].1.cells,
        )
}

/// Whether all rows of a replay are sure to be read back.
pub open spec fn replay_sound(replay: ReplayModel) -> bool {
    forall|t: int|
        0 <= t < replay.database.catalog.len() ==> rows_sound(
            (#[trigger] replay.database.catalog[t]).1,
            replay.rows,
        )
}

/// Whether all rows of a replay are read as what was encoded.
pub open spec fn replay_faithful(replay: ReplayModel) -> bool {
    forall|t: int|
        0 <= t < replay.database.catalog.len() ==> rows_faithful(
            (#[trigger] replay.database.catalog[t]).1,
            replay.rows,
        )
}

/// Whether the text of definitions is read as the definitions that were written, where they are
/// canonical and JSON keeps them whole.
pub open spec fn document_faithful(data: Seq<u8>) -> bool {
    forall|database: DatabaseModel|
        #![trigger database_text(database)]
        Database::canonical(database) && keeps_layout(Database::layout_of(database), read_nesting()) && data
            == encode_utf8(database_text(database)) ==> valid_utf8(data) && database_read(decode_utf8(data)) == Some(
            database,
        )
}

/// Whether a change writes the definitions.
pub open spec fn defines(change: ChangeModel) -> bool {
    change.kind == 0 && change.column == key_of(CATALOG_KEY@)
}

// ---------------------------------------------------------------------------------------------
// Definitions without rows
// ---------------------------------------------------------------------------------------------

/// A table without its rows.
pub open spec fn bare_table(table: TableModel) -> TableModel {
    TableModel { rows: Seq::empty(), next_row_id: 1, ..table }
}

/// The definitions of a state: its tables without their rows.
pub open spec fn bare(database: DatabaseModel) -> DatabaseModel {
    DatabaseModel {
        catalog: Seq::new(
            database.catalog.len(),
            |i: int| (database.catalog[i].0, bare_table(database.catalog[i].1)),
        ),
        ..database
    }
}

/// The definitions of a state: its tables without their rows.
pub fn metadata(database: &Database) -> (result: Database)
    ensures
        result.deep_view() == bare(database.deep_view()),
{
    let mut result = database.replica();
    let ghost start = database.deep_view();
    let mut i: usize = 0;
    while i < result.catalog.len()
        invariant
            start == database.deep_view(),
            i <= result.catalog@.len() == start.catalog.len(),
            result.deep_view() == (DatabaseModel { catalog: result.catalog@, ..start }),
            forall|j: int| i <= j < start.catalog.len() ==> result.catalog@[j] == start.catalog[j],
            forall|j: int|
                0 <= j < i ==> #[trigger] result.catalog@[j] == (start.catalog[j].0, bare_table(
                    start.catalog[j].1,
                )),
        decreases result.catalog@.len() - i,
    {
        let mut table = result.catalog.value_at(i).replica();
        assert(table.deep_view() == start.catalog[i as int].1);
        table.rows = OrdMap::new();
        table.next_row_id = 1;
        assert(table.deep_view() == bare_table(start.catalog[i as int].1));
        result.catalog.set_at(i, table);
        i += 1;
    }
    assert(result.catalog@ =~= bare(start).catalog);
    result
}

// ---------------------------------------------------------------------------------------------
// Replay
// ---------------------------------------------------------------------------------------------

/// A row during a replay: the revision of its last write, and its stored cells by column.
pub struct Trace {
    pub version: u64,
    pub cells: OrdMap<Vec<u8>, Vec<u8>>,
}

/// [`Trace`] in specifications.
pub struct TraceModel {
    pub version: u64,
    pub cells: Seq<(Seq<u8>, Seq<u8>)>,
}

impl DeepView for Trace {
    type V = TraceModel;

    open spec fn deep_view(&self) -> TraceModel {
        TraceModel { version: self.version, cells: cells_view(self.cells) }
    }
}

/// Bytes stand for themselves.
broadcast proof fn bytes_view(bytes: Vec<u8>)
    ensures
        #[trigger] bytes.deep_view() == bytes@,
{
    assert(bytes.deep_view() =~= bytes@);
}

/// The stored cells of a row by column.
pub open spec fn cells_view(cells: OrdMap<Vec<u8>, Vec<u8>>) -> Seq<(Seq<u8>, Seq<u8>)> {
    cells@
}

/// A state during a replay: the definitions, the rows by table and identity, and the identity
/// after the last one in each table.
pub struct Replay {
    pub database: Database,
    pub rows: OrdMap<(u64, u64), Trace>,
    pub allocators: OrdMap<u64, u64>,
}

/// [`Replay`] in specifications.
pub struct ReplayModel {
    pub database: DatabaseModel,
    pub rows: Seq<((u64, u64), TraceModel)>,
    pub allocators: Seq<(u64, u64)>,
}

impl DeepView for Replay {
    type V = ReplayModel;

    open spec fn deep_view(&self) -> ReplayModel {
        ReplayModel { database: self.database.deep_view(), rows: self.rows@, allocators: self.allocators@ }
    }
}

/// The beginning of a replay.
pub open spec fn blank() -> ReplayModel {
    ReplayModel { database: empty_database(), rows: Seq::empty(), allocators: Seq::empty() }
}

/// The row that a change names.
pub open spec fn row_named(change: ChangeModel) -> Replayed<(u64, u64)> {
    match (number_of(change.table), number_of(change.row)) {
        (Some(table), Some(row)) => Ok((table, row)),
        _ => Err(ReplayError::Number),
    }
}

fn name_row(change: &Change) -> (result: std::result::Result<(u64, u64), ReplayError>)
    ensures
        result == row_named(change.deep_view()),
{
    match (number(&change.table), number(&change.row)) {
        (Some(table), Some(row)) => Ok((table, row)),
        _ => Err(ReplayError::Number),
    }
}

/// The next identity of a table after a row was created.
pub open spec fn allocated(allocators: Seq<(u64, u64)>, table: u64, row: u64) -> Seq<(u64, u64)> {
    match get(allocators, table) {
        Some(n) => if n > row {
            allocators
        } else {
            put(allocators, table, (row + 1) as u64)
        },
        None => put(allocators, table, (row + 1) as u64),
    }
}

/// The catalog of a replay after the definitions were written.
pub open spec fn defined(replay: ReplayModel, data: Seq<u8>) -> Replayed<ReplayModel> {
    if !valid_utf8(data) {
        Err(ReplayError::Document)
    } else {
        match database_read(decode_utf8(data)) {
            Some(database) => Ok(ReplayModel { database, ..replay }),
            None => Err(ReplayError::Document),
        }
    }
}

/// A replay after one more change. Kind 0 under the catalog's name writes the definitions, 2 creates
/// a row, 3 writes a cell, 4 clears one, 5 deletes a row; any other change has no part in the state.
pub open spec fn stepped(replay: ReplayModel, change: ChangeModel) -> Replayed<ReplayModel> {
    if change.kind == 0 && change.column == key_of(CATALOG_KEY@) {
        defined(replay, change.data)
    } else if change.kind == 2 {
        match row_named(change) {
            Err(e) => Err(e),
            Ok((table, row)) => if row == u64::MAX {
                Err(ReplayError::Exhausted)
            } else {
                Ok(
                    ReplayModel {
                        rows: put(
                            replay.rows,
                            (table, row),
                            TraceModel { version: change.revision, cells: Seq::empty() },
                        ),
                        allocators: allocated(replay.allocators, table, row),
                        ..replay
                    },
                )
            },
        }
    } else if change.kind == 3 {
        match row_named(change) {
            Err(e) => Err(e),
            Ok(named) => match get(replay.rows, named) {
                Some(trace) => Ok(
                    ReplayModel {
                        rows: put(
                            replay.rows,
                            named,
                            TraceModel {
                                version: change.revision,
                                cells: put(trace.cells, change.column, change.data),
                            },
                        ),
                        ..replay
                    },
                ),
                None => Err(ReplayError::NoRow),
            },
        }
    } else if change.kind == 4 {
        match row_named(change) {
            Err(e) => Err(e),
            Ok(named) => match get(replay.rows, named) {
                Some(trace) => Ok(
                    ReplayModel {
                        rows: put(
                            replay.rows,
                            named,
                            TraceModel { version: change.revision, cells: del(trace.cells, change.column) },
                        ),
                        ..replay
                    },
                ),
                None => Ok(replay),
            },
        }
    } else if change.kind == 5 {
        match row_named(change) {
            Err(e) => Err(e),
            Ok(named) => Ok(ReplayModel { rows: del(replay.rows, named), ..replay }),
        }
    } else {
        Ok(replay)
    }
}

impl Replica for Trace {
    fn replica(&self) -> (result: Self) {
        Trace { version: self.version, cells: copy_cells(&self.cells) }
    }
}

fn copy_cells(cells: &OrdMap<Vec<u8>, Vec<u8>>) -> (result: OrdMap<Vec<u8>, Vec<u8>>)
    ensures
        result@ == cells@,
{
    cells.replica()
}

fn step(replay: Replay, change: &Change) -> (result: std::result::Result<Replay, ReplayError>)
    ensures
        replayed(result) == stepped(replay.deep_view(), change.deep_view()),
        defines(change.deep_view()) ==> document_faithful(change.data@),
{
    broadcast use bytes_view;

    proof {
        assert forall|database: DatabaseModel|
            #![trigger database_text(database)]
            change.data@ == encode_utf8(database_text(database)) implies valid_utf8(change.data@) && decode_utf8(
            change.data@,
        ) == database_text(database) by {
            encode_utf8_valid_utf8(database_text(database));
            encode_utf8_decode_utf8(database_text(database));
        }
    }
    let mut replay = replay;
    if change.kind == 0 && same_word(&change.column, &key(CATALOG_KEY)) {
        match text_from(&change.data) {
            None => Err(ReplayError::Document),
            Some(source) => match read_database(source.as_str()) {
                Some(database) => {
                    replay.database = database;
                    Ok(replay)
                },
                None => Err(ReplayError::Document),
            },
        }
    } else if change.kind == 2 {
        let (table, row) = match name_row(change) {
            Ok(named) => named,
            Err(e) => {
                return Err(e);
            },
        };
        if row == u64::MAX {
            return Err(ReplayError::Exhausted);
        }
        let known = match replay.allocators.get(&table) {
            Some(n) => *n > row,
            None => false,
        };
        if !known {
            replay.allocators.insert(table, row + 1);
        }
        replay.rows.insert((table, row), Trace { version: change.revision, cells: OrdMap::new() });
        Ok(replay)
    } else if change.kind == 3 {
        let named = match name_row(change) {
            Ok(named) => named,
            Err(e) => {
                return Err(e);
            },
        };
        let mut cells = match replay.rows.get(&named) {
            Some(trace) => copy_cells(&trace.cells),
            None => {
                return Err(ReplayError::NoRow);
            },
        };
        cells.insert(change.column.copied(), change.data.copied());
        replay.rows.insert(named, Trace { version: change.revision, cells });
        Ok(replay)
    } else if change.kind == 4 {
        let named = match name_row(change) {
            Ok(named) => named,
            Err(e) => {
                return Err(e);
            },
        };
        let mut cells = match replay.rows.get(&named) {
            Some(trace) => copy_cells(&trace.cells),
            None => {
                return Ok(replay);
            },
        };
        let _ = cells.remove(&change.column);
        replay.rows.insert(named, Trace { version: change.revision, cells });
        Ok(replay)
    } else if change.kind == 5 {
        let named = match name_row(change) {
            Ok(named) => named,
            Err(e) => {
                return Err(e);
            },
        };
        let _ = replay.rows.remove(&named);
        Ok(replay)
    } else {
        Ok(replay)
    }
}

/// A replay after the changes from position `from` on.
pub open spec fn replay_from(changes: Seq<ChangeModel>, from: int, replay: ReplayModel) -> Replayed<ReplayModel>
    decreases changes.len() - from,
{
    if from < 0 || from >= changes.len() {
        Ok(replay)
    } else {
        match stepped(replay, changes[from]) {
            Ok(next) => replay_from(changes, from + 1, next),
            Err(e) => Err(e),
        }
    }
}

/// The cells of a row from the column at position `from` on, put into `done`; a column without a
/// stored cell is null.
pub open spec fn row_cells_from(
    columns: Seq<ColumnModel>,
    cells: Seq<(Seq<u8>, Seq<u8>)>,
    from: int,
    done: CellsModel,
) -> Replayed<CellsModel>
    decreases columns.len() - from,
{
    if from < 0 || from >= columns.len() {
        Ok(done)
    } else {
        match stored_cell(columns[from], cells) {
            Ok(value) => row_cells_from(columns, cells, from + 1, put(done, columns[from].name, value)),
            Err(e) => Err(e),
        }
    }
}

/// The stored cell of a column, or null.
pub open spec fn stored_cell(column: ColumnModel, cells: Seq<(Seq<u8>, Seq<u8>)>) -> Replayed<Json> {
    match get(cells, id_of(column.id)) {
        Some(bytes) => decoded(column.data_type, bytes),
        None => Ok(Json::Null),
    }
}

fn load_cell(column: &Column, cells: &OrdMap<Vec<u8>, Vec<u8>>) -> (result: std::result::Result<
    Datum,
    ReplayError,
>)
    ensures
        replayed(result) == stored_cell(column.deep_view(), cells@),
        cell_faithful(column.deep_view(), cells@),
{
    broadcast use bytes_view;

    match cells.get(&id(column.id)) {
        Some(bytes) => decode(column, bytes),
        None => Ok(Datum::Null),
    }
}

fn row_cells(columns: &Vec<Column>, cells: &OrdMap<Vec<u8>, Vec<u8>>) -> (result: std::result::Result<
    Cells,
    ReplayError,
>)
    ensures
        replayed(result) == row_cells_from(columns.deep_view(), cells@, 0, Seq::empty()),
        cells_sound(columns.deep_view(), cells@) ==> result is Ok && cells_faithful(columns.deep_view(), cells@),
{
    let mut done: Cells = OrdMap::new();
    let ghost model = columns.deep_view();
    let mut i: usize = 0;
    while i < columns.len()
        invariant
            i <= columns.len(),
            model == columns.deep_view(),
            row_cells_from(model, cells@, 0, Seq::empty()) == row_cells_from(model, cells@, i as int, done@),
            forall|q: int| 0 <= q < i ==> cell_faithful(#[trigger] model[q], cells@),
        decreases columns.len() - i,
    {
        assert(model[i as int] == columns[i as int].deep_view());
        let column = &columns[i];
        let value = match load_cell(column, cells) {
            Ok(value) => value,
            Err(e) => {
                assert(!cell_sound(model[i as int], cells@));
                return Err(e);
            },
        };
        done.insert(column.name.clone(), value);
        i += 1;
    }
    Ok(done)
}

/// The rows of a table from the replayed row at position `from` on, put into `done`.
pub open spec fn table_rows_from(
    table: TableModel,
    rows: Seq<((u64, u64), TraceModel)>,
    from: int,
    done: Seq<(u64, RowModel)>,
) -> Replayed<Seq<(u64, RowModel)>>
    decreases rows.len() - from,
{
    if from < 0 || from >= rows.len() {
        Ok(done)
    } else if rows[from].0.0 != table.id {
        table_rows_from(table, rows, from + 1, done)
    } else {
        match row_cells_from(table.columns, rows[from].1.cells, 0, Seq::empty()) {
            Ok(values) => table_rows_from(
                table,
                rows,
                from + 1,
                put(
                    done,
                    rows[from].0.1,
                    RowModel { id: rows[from].0.1, version: rows[from].1.version, values },
                ),
            ),
            Err(e) => Err(e),
        }
    }
}

/// A table with its replayed rows.
pub open spec fn filled(table: TableModel, replay: ReplayModel) -> Replayed<TableModel> {
    match table_rows_from(table, replay.rows, 0, Seq::empty()) {
        Ok(rows) => Ok(
            TableModel {
                rows,
                next_row_id: match get(replay.allocators, table.id) {
                    Some(n) => n,
                    None => 1,
                },
                ..table
            },
        ),
        Err(e) => Err(e),
    }
}

fn table_rows(table: &Table, rows: &OrdMap<(u64, u64), Trace>) -> (result: std::result::Result<
    OrdMap<StableId, Row>,
    ReplayError,
>)
    ensures
        replayed(result) == table_rows_from(table.deep_view(), rows@, 0, Seq::empty()),
        rows_sound(table.deep_view(), rows@) ==> result is Ok && rows_faithful(table.deep_view(), rows@),
{
    let mut done: OrdMap<StableId, Row> = OrdMap::new();
    let ghost model = table.deep_view();
    let mut i: usize = 0;
    while i < rows.len()
        invariant
            i <= rows@.len(),
            model == table.deep_view(),
            table_rows_from(model, rows@, 0, Seq::empty()) == table_rows_from(model, rows@, i as int, done@),
            rows_sound(model, rows@) ==> forall|p: int|
                0 <= p < i && (#[trigger] rows@[p]).0.0 == model.id ==> cells_faithful(model.columns, rows@[p].1.cells),
        decreases rows@.len() - i,
    {
        let (table_id, row_id) = *rows.key_at(i);
        assert(rows@[i as int].0.0 == table_id);
        if table_id == table.id {
            let trace = rows.value_at(i);
            match row_cells(&table.columns, &trace.cells) {
                Ok(values) => {
                    done.insert(row_id, Row { id: row_id, version: trace.version, values });
                },
                Err(e) => {
                    return Err(e);
                },
            }
        }
        i += 1;
    }
    Ok(done)
}

/// The tables from position `from` on with their replayed rows, after those in `done`.
pub open spec fn filled_from(
    catalog: Seq<(Seq<char>, TableModel)>,
    replay: ReplayModel,
    from: int,
    done: Seq<(Seq<char>, TableModel)>,
) -> Replayed<Seq<(Seq<char>, TableModel)>>
    decreases catalog.len() - from,
{
    if from < 0 || from >= catalog.len() {
        Ok(done)
    } else {
        match filled(catalog[from].1, replay) {
            Ok(table) => filled_from(catalog, replay, from + 1, done.push((catalog[from].0, table))),
            Err(e) => Err(e),
        }
    }
}

/// The state of a replay.
pub open spec fn settled(replay: ReplayModel) -> Replayed<DatabaseModel> {
    match filled_from(replay.database.catalog, replay, 0, Seq::empty()) {
        Ok(catalog) => Ok(DatabaseModel { catalog, ..replay.database }),
        Err(e) => Err(e),
    }
}

/// The state that changes leave behind.
pub open spec fn rebuilt(changes: Seq<ChangeModel>) -> Replayed<DatabaseModel> {
    match replay_from(changes, 0, blank()) {
        Ok(replay) => settled(replay),
        Err(e) => Err(e),
    }
}

fn settle(replay: Replay) -> (result: std::result::Result<Database, ReplayError>)
    ensures
        replayed(result) == settled(replay.deep_view()),
        replay_sound(replay.deep_view()) ==> result is Ok && replay_faithful(replay.deep_view()),
{
    let mut catalog: OrdMap<String, Table> = OrdMap { entries: Vec::new() };
    let ghost model = replay.deep_view();
    let mut i: usize = 0;
    assert(catalog@ =~= Seq::empty());
    while i < replay.database.catalog.len()
        invariant
            model == replay.deep_view(),
            i <= replay.database.catalog@.len(),
            filled_from(model.database.catalog, model, 0, Seq::empty()) == filled_from(
                model.database.catalog,
                model,
                i as int,
                catalog@,
            ),
            replay_sound(model) ==> forall|t: int|
                0 <= t < i ==> rows_faithful((#[trigger] model.database.catalog[t]).1, model.rows),
        decreases replay.database.catalog@.len() - i,
    {
        assert(model.database.catalog[i as int] == replay.database.catalog@[i as int]);
        let mut table = replay.database.catalog.value_at(i).replica();
        let rows = match table_rows(&table, &replay.rows) {
            Ok(rows) => rows,
            Err(e) => {
                return Err(e);
            },
        };
        let ghost before = catalog@;
        let ghost start = table.deep_view();
        table.rows = rows;
        table.next_row_id = match replay.allocators.get(&table.id) {
            Some(n) => *n,
            None => 1,
        };
        let ghost done = table.deep_view();
        assert(filled(start, model) == Ok::<TableModel, ReplayError>(done));
        catalog.entries.push((replay.database.catalog.key_at(i).clone(), table));
        assert(catalog@ =~= before.push((model.database.catalog[i as int].0, done)));
        i += 1;
    }
    let mut database = replay.database;
    database.catalog = catalog;
    Ok(database)
}

proof fn replay_one_more(changes: Seq<ChangeModel>, i: int, replay: ReplayModel)
    requires
        0 <= i < changes.len(),
        replay_from(changes.take(i), 0, blank()) == Ok::<ReplayModel, ReplayError>(replay),
    ensures
        replay_from(changes.take(i + 1), 0, blank()) == stepped(replay, changes[i]),
{
    let one = seq![changes[i]];
    assert(changes.take(i + 1) =~= changes.take(i) + one);
    replay_continues(changes.take(i), one, blank());
    reveal_with_fuel(replay_from, 2);
    assert(one[0] == changes[i]);
}

/// The state that the changes of a snapshot leave behind. It is the last state of the history that the
/// changes were planned for, where that is well formed and sure to be read back. In the same way it is the
/// state of a commit that was put behind changes that can be built on.
pub fn rebuild(snapshot: &ChainSnapshot) -> (result: std::result::Result<Database, ReplayError>)
    ensures
        replayed(result) == rebuilt(snapshot.changes.deep_view()),
        forall|states: Seq<DatabaseModel>, revisions: Seq<u64>|
            #![trigger history(states, revisions, states.len() as int)]
            legible_history(states) && snapshot.changes.deep_view() == history(
                states,
                revisions,
                states.len() as int,
            ) ==> restored_to(replayed(result), state_before(states, states.len() as int)),
        forall|older: Seq<ChangeModel>, next: DatabaseModel, revision: u64|
            #![trigger commit_on(older, next, revision)]
            committable(older, next) && snapshot.changes.deep_view() == commit_on(older, next, revision)
                ==> restored_to(replayed(result), next),
{
    let mut replay = Replay { database: Database::default(), rows: OrdMap::new(), allocators: OrdMap::new() };
    let ghost changes = snapshot.changes.deep_view();
    let mut i: usize = 0;
    assert(changes.take(0) =~= Seq::empty());
    while i < snapshot.changes.len()
        invariant
            i <= snapshot.changes.len(),
            changes == snapshot.changes.deep_view(),
            replay_from(changes, 0, blank()) == replay_from(changes, i as int, replay.deep_view()),
            replay_from(changes.take(i as int), 0, blank()) == Ok::<ReplayModel, ReplayError>(replay.deep_view()),
            documents_faithful(changes, i as int),
        decreases snapshot.changes.len() - i,
    {
        assert(changes[i as int] == snapshot.changes[i as int].deep_view());
        proof {
            bytes_view(snapshot.changes[i as int].data);
            replay_one_more(changes, i as int, replay.deep_view());
        }
        replay = match step(replay, &snapshot.changes[i]) {
            Ok(next) => next,
            Err(e) => {
                proof {
                    assert(documents_faithful(changes, i + 1));
                    assert forall|states: Seq<DatabaseModel>, revisions: Seq<u64>|
                        #![trigger history(states, revisions, states.len() as int)]
                        legible_history(states) && changes == history(
                            states,
                            revisions,
                            states.len() as int,
                        ) implies false by {
                        no_change_fails(states, revisions, i as int);
                    }
                    assert forall|older: Seq<ChangeModel>, next: DatabaseModel, revision: u64|
                        #![trigger commit_on(older, next, revision)]
                        committable(older, next) && changes == commit_on(older, next, revision) implies false by {
                        no_committed_change_fails(older, next, revision, i as int);
                    }
                }
                return Err(e);
            },
        };
        i += 1;
    }
    let ghost last = replay.deep_view();
    assert(changes.take(i as int) =~= changes);
    proof {
        assert forall|states: Seq<DatabaseModel>, revisions: Seq<u64>|
            #![trigger history(states, revisions, states.len() as int)]
            legible_history(states) && changes == history(states, revisions, states.len() as int) implies replay_sound(
            last,
        ) && (replay_faithful(last) ==> restored_to(
            settled(last),
            state_before(states, states.len() as int),
        )) by {
            history_settles(states, revisions, last);
        }
        assert forall|older: Seq<ChangeModel>, next: DatabaseModel, revision: u64|
            #![trigger commit_on(older, next, revision)]
            committable(older, next) && changes == commit_on(older, next, revision) implies replay_sound(last) && (
        replay_faithful(last) ==> restored_to(settled(last), next)) by {
            commit_settles(older, next, revision, last);
        }
    }
    settle(replay)
}

// ---------------------------------------------------------------------------------------------
// Plans
// ---------------------------------------------------------------------------------------------

/// The first table with this identity at or after position `from`.
pub open spec fn table_with_from(catalog: Seq<(Seq<char>, TableModel)>, wanted: u64, from: int) -> Option<TableModel>
    decreases catalog.len() - from,
{
    if from < 0 || from >= catalog.len() {
        None
    } else if catalog[from].1.id == wanted {
        Some(catalog[from].1)
    } else {
        table_with_from(catalog, wanted, from + 1)
    }
}

/// The first table with this identity.
pub open spec fn table_with(catalog: Seq<(Seq<char>, TableModel)>, wanted: u64) -> Option<TableModel> {
    table_with_from(catalog, wanted, 0)
}

fn find_table(catalog: &OrdMap<String, Table>, wanted: u64) -> (result: Option<&Table>)
    ensures
        result.deep_view() == table_with(catalog@, wanted),
{
    let mut i: usize = 0;
    while i < catalog.len()
        invariant
            i <= catalog@.len(),
            table_with(catalog@, wanted) == table_with_from(catalog@, wanted, i as int),
        decreases catalog@.len() - i,
    {
        if catalog.value_at(i).id == wanted {
            return Some(catalog.value_at(i));
        }
        i += 1;
    }
    None
}

/// The first column with this identity and type at or after position `from`.
pub open spec fn column_with_from(
    columns: Seq<ColumnModel>,
    wanted: u64,
    data_type: Seq<char>,
    from: int,
) -> Option<ColumnModel>
    decreases columns.len() - from,
{
    if from < 0 || from >= columns.len() {
        None
    } else if columns[from].id == wanted && columns[from].data_type == data_type {
        Some(columns[from])
    } else {
        column_with_from(columns, wanted, data_type, from + 1)
    }
}

fn find_column_with<'a>(columns: &'a Vec<Column>, wanted: u64, data_type: &str) -> (result: Option<&'a Column>)
    ensures
        result.deep_view() == column_with_from(columns.deep_view(), wanted, data_type@, 0),
{
    let ghost model = columns.deep_view();
    let mut i: usize = 0;
    while i < columns.len()
        invariant
            i <= columns.len(),
            model == columns.deep_view(),
            column_with_from(model, wanted, data_type@, 0) == column_with_from(
                model,
                wanted,
                data_type@,
                i as int,
            ),
        decreases columns.len() - i,
    {
        assert(model[i as int] == columns[i as int].deep_view());
        if columns[i].id == wanted && same(columns[i].data_type.as_str(), data_type) {
            return Some(&columns[i]);
        }
        i += 1;
    }
    None
}

/// The write that removes a row.
pub open spec fn row_removal(table: u64, row: u64) -> OperationModel {
    OperationModel {
        kind: 5,
        table_id: id_of(table),
        row_id: id_of(row),
        column_id: zero_word(),
        data: Seq::empty(),
    }
}

/// The write that creates a row.
pub open spec fn row_creation(table: u64, row: u64) -> OperationModel {
    OperationModel {
        kind: 2,
        table_id: id_of(table),
        row_id: id_of(row),
        column_id: zero_word(),
        data: Seq::empty(),
    }
}

/// The write of a cell.
pub open spec fn cell_write(table: u64, row: u64, column: ColumnModel, value: Json) -> OperationModel {
    OperationModel {
        kind: 3,
        table_id: id_of(table),
        row_id: id_of(row),
        column_id: id_of(column.id),
        data: encoded(column.data_type, value),
    }
}

/// The write of the definitions of a state.
pub open spec fn catalog_write(after: DatabaseModel) -> OperationModel {
    OperationModel {
        kind: 0,
        table_id: zero_word(),
        row_id: zero_word(),
        column_id: key_of(CATALOG_KEY@),
        data: encode_utf8(database_text(bare(after))),
    }
}

/// The record of an applied migration.
pub open spec fn migration_write(version: Seq<char>) -> OperationModel {
    OperationModel {
        kind: 6,
        table_id: zero_word(),
        row_id: zero_word(),
        column_id: key_of(version),
        data: encode_utf8(version),
    }
}

/// The removals of the rows of a table, from position `from` on, that its new form has no longer.
pub open spec fn removals_from(
    table: TableModel,
    kept: Option<TableModel>,
    from: int,
    done: Seq<OperationModel>,
) -> Seq<OperationModel>
    decreases table.rows.len() - from,
{
    if from < 0 || from >= table.rows.len() {
        done
    } else {
        let row = table.rows[from].1;
        let gone = kept is None || !has_key(kept->Some_0.rows, row.id);
        removals_from(
            table,
            kept,
            from + 1,
            if gone {
                done.push(row_removal(table.id, row.id))
            } else {
                done
            },
        )
    }
}

/// The removals in the tables from position `from` on.
pub open spec fn all_removals_from(
    before: Seq<(Seq<char>, TableModel)>,
    after: Seq<(Seq<char>, TableModel)>,
    from: int,
    done: Seq<OperationModel>,
) -> Seq<OperationModel>
    decreases before.len() - from,
{
    if from < 0 || from >= before.len() {
        done
    } else {
        let table = before[from].1;
        all_removals_from(
            before,
            after,
            from + 1,
            removals_from(table, table_with(after, table.id), 0, done),
        )
    }
}

/// The value that a row holds in a column; null where it holds none.
pub open spec fn held(row: RowModel, name: Seq<char>) -> Json {
    match get(row.values, name) {
        Some(value) => value,
        None => Json::Null,
    }
}

/// The value that the earlier form of a row held in the earlier form of a column.
pub open spec fn former(table: Option<TableModel>, row: Option<RowModel>, column: ColumnModel) -> Option<Json> {
    match (table, row) {
        (Some(known), Some(known_row)) => match column_with_from(known.columns, column.id, column.data_type, 0) {
            Some(known_column) => get(known_row.values, known_column.name),
            None => None,
        },
        _ => None,
    }
}

/// Whether a cell is as it was.
pub open spec fn unchanged(previous: Option<Json>, value: Json) -> bool {
    previous is Some && same_json(previous->Some_0, value)
}

/// The writes of the cells of a row from the column at position `from` on.
pub open spec fn cell_writes_from(
    table: TableModel,
    known: Option<TableModel>,
    row: RowModel,
    known_row: Option<RowModel>,
    from: int,
    done: Seq<OperationModel>,
) -> Seq<OperationModel>
    decreases table.columns.len() - from,
{
    if from < 0 || from >= table.columns.len() {
        done
    } else {
        let column = table.columns[from];
        let value = held(row, column.name);
        cell_writes_from(
            table,
            known,
            row,
            known_row,
            from + 1,
            if unchanged(former(known, known_row, column), value) {
                done
            } else {
                done.push(cell_write(table.id, row.id, column, value))
            },
        )
    }
}

/// The earlier form of a row.
pub open spec fn former_row(known: Option<TableModel>, row: u64) -> Option<RowModel> {
    match known {
        Some(table) => get(table.rows, row),
        None => None,
    }
}

/// The writes of a row: its creation where it is new, and its changed cells.
pub open spec fn row_writes(
    table: TableModel,
    known: Option<TableModel>,
    row: RowModel,
    done: Seq<OperationModel>,
) -> Seq<OperationModel> {
    let known_row = former_row(known, row.id);
    cell_writes_from(
        table,
        known,
        row,
        known_row,
        0,
        if known_row is None {
            done.push(row_creation(table.id, row.id))
        } else {
            done
        },
    )
}

/// The writes of the rows of a table from position `from` on.
pub open spec fn table_writes_from(
    table: TableModel,
    known: Option<TableModel>,
    from: int,
    done: Seq<OperationModel>,
) -> Seq<OperationModel>
    decreases table.rows.len() - from,
{
    if from < 0 || from >= table.rows.len() {
        done
    } else {
        table_writes_from(table, known, from + 1, row_writes(table, known, table.rows[from].1, done))
    }
}

/// The writes of the tables from position `from` on.
pub open spec fn all_writes_from(
    before: Seq<(Seq<char>, TableModel)>,
    after: Seq<(Seq<char>, TableModel)>,
    from: int,
    done: Seq<OperationModel>,
) -> Seq<OperationModel>
    decreases after.len() - from,
{
    if from < 0 || from >= after.len() {
        done
    } else {
        let table = after[from].1;
        all_writes_from(
            before,
            after,
            from + 1,
            table_writes_from(table, table_with(before, table.id), 0, done),
        )
    }
}

/// The records of the migrations from position `from` on that were not applied before.
pub open spec fn migration_writes_from(
    before: Seq<(Seq<char>, ())>,
    after: Seq<(Seq<char>, ())>,
    from: int,
    done: Seq<OperationModel>,
) -> Seq<OperationModel>
    decreases after.len() - from,
{
    if from < 0 || from >= after.len() {
        done
    } else {
        migration_writes_from(
            before,
            after,
            from + 1,
            if has_key(before, after[from].0) {
                done
            } else {
                done.push(migration_write(after[from].0))
            },
        )
    }
}

/// The write of the definitions, where they have changed.
pub open spec fn catalog_writes(before: DatabaseModel, after: DatabaseModel) -> Seq<OperationModel> {
    if Database::alike(bare(before), bare(after)) {
        Seq::empty()
    } else {
        seq![catalog_write(after)]
    }
}

/// The writes that take one state to another: the definitions where they changed, the removed rows,
/// the created rows and changed cells, and the new migrations.
pub open spec fn planned(before: DatabaseModel, after: DatabaseModel) -> Seq<OperationModel> {
    let removed = all_removals_from(before.catalog, after.catalog, 0, catalog_writes(before, after));
    let written = all_writes_from(before.catalog, after.catalog, 0, removed);
    migration_writes_from(before.migrations, after.migrations, 0, written)
}

fn plan_removals(table: &Table, kept: Option<&Table>, done: Vec<Operation>) -> (result: Vec<Operation>)
    ensures
        result.deep_view() == removals_from(table.deep_view(), kept.deep_view(), 0, done.deep_view()),
{
    let mut result = done;
    let ghost first = done.deep_view();
    let ghost model = table.deep_view();
    let ghost kept_model = kept.deep_view();
    let mut i: usize = 0;
    while i < table.rows.len()
        invariant
            i <= table.rows@.len(),
            model == table.deep_view(),
            kept_model == kept.deep_view(),
            removals_from(model, kept_model, 0, first) == removals_from(
                model,
                kept_model,
                i as int,
                result.deep_view(),
            ),
        decreases table.rows@.len() - i,
    {
        let row = table.rows.value_at(i);
        let gone = match kept {
            Some(known) => !known.rows.contains(&row.id),
            None => true,
        };
        if gone {
            let op = operation(5, id(table.id), id(row.id), id(0), Vec::new());
            assert(op.deep_view() =~= row_removal(model.id, model.rows[i as int].1.id));
            add_last(&mut result, op);
        }
        i += 1;
    }
    result
}

fn plan_cells(
    table: &Table,
    known: Option<&Table>,
    row: &Row,
    known_row: Option<&Row>,
    done: Vec<Operation>,
) -> (result: Vec<Operation>)
    ensures
        result.deep_view() == cell_writes_from(
            table.deep_view(),
            known.deep_view(),
            row.deep_view(),
            known_row.deep_view(),
            0,
            done.deep_view(),
        ),
{
    let mut result = done;
    let ghost first = done.deep_view();
    let ghost model = table.deep_view();
    let ghost known_model = known.deep_view();
    let ghost row_model = row.deep_view();
    let ghost former_model = known_row.deep_view();
    let mut i: usize = 0;
    while i < table.columns.len()
        invariant
            i <= table.columns.len(),
            model == table.deep_view(),
            known_model == known.deep_view(),
            row_model == row.deep_view(),
            former_model == known_row.deep_view(),
            cell_writes_from(model, known_model, row_model, former_model, 0, first) == cell_writes_from(
                model,
                known_model,
                row_model,
                former_model,
                i as int,
                result.deep_view(),
            ),
        decreases table.columns.len() - i,
    {
        let column = &table.columns[i];
        assert(model.columns[i as int] == column.deep_view());
        let null = Datum::Null;
        let value = match row.values.get(&column.name) {
            Some(value) => value,
            None => &null,
        };
        assert(value@ == held(row_model, column.name@));
        let kept = is_unchanged(known, known_row, column, value);
        if !kept {
            let op = operation(3, id(table.id), id(row.id), id(column.id), encode(column, value));
            assert(op.deep_view() =~= cell_write(model.id, row_model.id, column.deep_view(), value@));
            add_last(&mut result, op);
        }
        i += 1;
    }
    result
}

fn is_unchanged(known: Option<&Table>, known_row: Option<&Row>, column: &Column, value: &Datum) -> (result: bool)
    ensures
        result == unchanged(former(known.deep_view(), known_row.deep_view(), column.deep_view()), value@),
{
    match (known, known_row) {
        (Some(table), Some(row)) => match find_column_with(
            &table.columns,
            column.id,
            column.data_type.as_str(),
        ) {
            Some(known_column) => match row.values.get(&known_column.name) {
                Some(previous) => previous.equals(value),
                None => false,
            },
            None => false,
        },
        _ => false,
    }
}

fn plan_row(table: &Table, known: Option<&Table>, row: &Row, done: Vec<Operation>) -> (result: Vec<Operation>)
    ensures
        result.deep_view() == row_writes(
            table.deep_view(),
            known.deep_view(),
            row.deep_view(),
            done.deep_view(),
        ),
{
    let mut result = done;
    let known_row = match known {
        Some(former_table) => former_table.rows.get(&row.id),
        None => None,
    };
    if known_row.is_none() {
        let op = operation(2, id(table.id), id(row.id), id(0), Vec::new());
        assert(op.deep_view() =~= row_creation(table.id, row.id));
        add_last(&mut result, op);
    }
    plan_cells(table, known, row, known_row, result)
}

fn plan_table(table: &Table, known: Option<&Table>, done: Vec<Operation>) -> (result: Vec<Operation>)
    ensures
        result.deep_view() == table_writes_from(table.deep_view(), known.deep_view(), 0, done.deep_view()),
{
    let mut result = done;
    let ghost first = done.deep_view();
    let ghost model = table.deep_view();
    let ghost known_model = known.deep_view();
    let mut i: usize = 0;
    while i < table.rows.len()
        invariant
            i <= table.rows@.len(),
            model == table.deep_view(),
            known_model == known.deep_view(),
            table_writes_from(model, known_model, 0, first) == table_writes_from(
                model,
                known_model,
                i as int,
                result.deep_view(),
            ),
        decreases table.rows@.len() - i,
    {
        result = plan_row(table, known, table.rows.value_at(i), result);
        i += 1;
    }
    result
}

fn plan_migrations(
    before: &OrdMap<String, ()>,
    after: &OrdMap<String, ()>,
    done: Vec<Operation>,
) -> (result: Vec<Operation>)
    ensures
        result.deep_view() == migration_writes_from(before@, after@, 0, done.deep_view()),
{
    let mut result = done;
    let ghost first = done.deep_view();
    let mut i: usize = 0;
    while i < after.len()
        invariant
            i <= after@.len(),
            migration_writes_from(before@, after@, 0, first) == migration_writes_from(
                before@,
                after@,
                i as int,
                result.deep_view(),
            ),
        decreases after@.len() - i,
    {
        let version = after.key_at(i);
        if !before.contains(version) {
            let op = operation(6, id(0), id(0), key(version.as_str()), bytes_of(version.as_str()));
            assert(op.deep_view() =~= migration_write(after@[i as int].0));
            add_last(&mut result, op);
        }
        i += 1;
    }
    result
}

/// The writes that take one state to another. There always is a plan.
pub fn plan(before: &Database, after: &Database) -> (result: std::result::Result<Vec<Operation>, ReplayError>)
    ensures
        result is Ok,
        result->Ok_0.deep_view() == planned(before.deep_view(), after.deep_view()),
{
    let mut ops: Vec<Operation> = Vec::new();
    let ghost a = before.deep_view();
    let ghost b = after.deep_view();
    assert(ops.deep_view() =~= Seq::<OperationModel>::empty());
    let definitions = metadata(after);
    if !metadata(before).is_alike(&definitions) {
        let op = operation(
            0,
            id(0),
            id(0),
            key(CATALOG_KEY),
            bytes_of(write_database(&definitions).as_str()),
        );
        assert(op.deep_view() =~= catalog_write(b));
        add_last(&mut ops, op);
        assert(ops.deep_view() =~= seq![catalog_write(b)]);
    }
    assert(ops.deep_view() == catalog_writes(a, b));
    let ghost first = catalog_writes(a, b);
    let mut i: usize = 0;
    while i < before.catalog.len()
        invariant
            i <= before.catalog@.len(),
            a == before.deep_view(),
            b == after.deep_view(),
            all_removals_from(a.catalog, b.catalog, 0, first) == all_removals_from(
                a.catalog,
                b.catalog,
                i as int,
                ops.deep_view(),
            ),
        decreases before.catalog@.len() - i,
    {
        let table = before.catalog.value_at(i);
        ops = plan_removals(table, find_table(&after.catalog, table.id), ops);
        i += 1;
    }
    let ghost removed = ops.deep_view();
    let mut j: usize = 0;
    while j < after.catalog.len()
        invariant
            j <= after.catalog@.len(),
            a == before.deep_view(),
            b == after.deep_view(),
            all_writes_from(a.catalog, b.catalog, 0, removed) == all_writes_from(
                a.catalog,
                b.catalog,
                j as int,
                ops.deep_view(),
            ),
        decreases after.catalog@.len() - j,
    {
        let table = after.catalog.value_at(j);
        ops = plan_table(table, find_table(&before.catalog, table.id), ops);
        j += 1;
    }
    Ok(plan_migrations(&before.migrations, &after.migrations, ops))
}

} // verus!
