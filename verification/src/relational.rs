//! Tables as typed columns for the query engine, and its results as rows and tables.

use vstd::prelude::*;
use crate::ast::{json_of, json_text, json_text_of, parse_json};
use crate::catalog::{AuthContext, AuthModel, Cells, Column, ColumnModel, Database, DatabaseModel, Row, RowModel, Table, TableModel};
use crate::cuts::{trim, trimmed};
use crate::error::{err, failure, outcome, unsupported, unsupported_failure, Failure, Outcome, Result, SqlError};
use crate::execute::table_read;
use crate::json::{group_value_views, json, Datum, Json, Number};
use crate::ordmap::{has_key, place_from, place_from_range, put, OrdMap};
use crate::outside::lower;
use crate::replica::{add_last, no_items, Replica};
use crate::text::{before_char, cat3, cat4, owned, part_before, same};
use crate::value::{as_int, child};

verus! {

broadcast use group_value_views;

/// How many rows a result may have.
pub const MAX_RESULT_ROWS: usize = 100000;

// ---------------------------------------------------------------------------------------------
// Failures of the engine
// ---------------------------------------------------------------------------------------------

/// What kind of failure the query engine reports, any context around it taken off.
#[derive(Debug, Clone, Copy, PartialEq, Eq, Structural)]
pub enum BackendFailure {
    Resources,
    NotImplemented,
    Plan,
    Schema,
    Syntax,
    Execution,
    Arrow,
    Other,
}

/// The failure that stands for a failure of the query engine.
pub open spec fn backend_failure(kind: BackendFailure) -> Failure {
    match kind {
        BackendFailure::Resources => failure(
            "ResourceLimit"@,
            "Query memory or execution resource limit exceeded"@,
        ),
        BackendFailure::NotImplemented => unsupported_failure(
            "This query form is not supported by the relational backend"@,
        ),
        BackendFailure::Plan | BackendFailure::Schema => failure(
            "TypeError"@,
            "Invalid query columns, argument types, or relational expression"@,
        ),
        BackendFailure::Syntax => unsupported_failure(
            "The query syntax has no supported backend translation"@,
        ),
        BackendFailure::Execution | BackendFailure::Arrow => failure(
            "TypeError"@,
            "Invalid expression operands, numeric overflow, or incompatible query arguments"@,
        ),
        BackendFailure::Other => failure("ExecutionFailure"@, "Relational execution failed"@),
    }
}

/// The failure that stands for a failure of the query engine.
pub fn backend_error(kind: BackendFailure) -> (result: SqlError)
    ensures
        result@ == backend_failure(kind),
{
    match kind {
        BackendFailure::Resources => err("ResourceLimit", "Query memory or execution resource limit exceeded"),
        BackendFailure::NotImplemented => unsupported(
            "This query form is not supported by the relational backend",
        ),
        BackendFailure::Plan | BackendFailure::Schema => err(
            "TypeError",
            "Invalid query columns, argument types, or relational expression",
        ),
        BackendFailure::Syntax => unsupported("The query syntax has no supported backend translation"),
        BackendFailure::Execution | BackendFailure::Arrow => err(
            "TypeError",
            "Invalid expression operands, numeric overflow, or incompatible query arguments",
        ),
        BackendFailure::Other => err("ExecutionFailure", "Relational execution failed"),
    }
}

// ---------------------------------------------------------------------------------------------
// Columns for the engine
// ---------------------------------------------------------------------------------------------

/// How the engine stores a column.
#[derive(Debug, Clone, Copy, PartialEq, Eq, Structural)]
pub enum Storage {
    Integer,
    Boolean,
    Text,
}

/// How the engine stores a column of a type.
pub open spec fn storage_of(declared: Seq<char>) -> Outcome<Storage> {
    let base = trimmed(before_char(lower(declared), '('));
    if base == "smallint"@ || base == "int2"@ || base == "int"@ || base == "integer"@ || base == "int4"@ || base
        == "bigint"@ || base == "int8"@ {
        Ok(Storage::Integer)
    } else if base == "boolean"@ || base == "bool"@ {
        Ok(Storage::Boolean)
    } else if base == "text"@ || base == "varchar"@ || base == "character varying"@ || base == "uuid"@ || base
        == "json"@ || base == "jsonb"@ {
        Ok(Storage::Text)
    } else {
        Err(unsupported_failure("Projection type "@ + declared + " is not supported"@))
    }
}

/// What the result of finding a storage stands for.
pub open spec fn stored(result: Result<Storage>) -> Outcome<Storage> {
    match result {
        Ok(storage) => Ok(storage),
        Err(error) => Err(error@),
    }
}

/// How the engine stores a column of a type.
pub fn column_type(declared: &str) -> (result: Result<Storage>)
    ensures
        stored(result) == storage_of(declared@),
{
    let lowered = declared.to_lowercase();
    let base = trim(part_before(lowered.as_str(), '(').as_str());
    let base = base.as_str();
    if same(base, "smallint") || same(base, "int2") || same(base, "int") || same(base, "integer") || same(
        base,
        "int4",
    ) || same(base, "bigint") || same(base, "int8") {
        Ok(Storage::Integer)
    } else if same(base, "boolean") || same(base, "bool") {
        Ok(Storage::Boolean)
    } else if same(base, "text") || same(base, "varchar") || same(base, "character varying") || same(base, "uuid")
        || same(base, "json") || same(base, "jsonb") {
        Ok(Storage::Text)
    } else {
        Err(unsupported(cat3("Projection type ", declared, " is not supported").as_str()))
    }
}

/// A cell of a column for the engine.
#[derive(Debug, PartialEq, Eq)]
pub enum Scalar {
    Absent,
    Integer(i64),
    Boolean(bool),
    Text(String),
}

/// [`Scalar`] in specifications.
pub enum ScalarModel {
    Absent,
    Integer(i64),
    Boolean(bool),
    Text(Seq<char>),
}

impl DeepView for Scalar {
    type V = ScalarModel;

    open spec fn deep_view(&self) -> ScalarModel {
        match *self {
            Scalar::Absent => ScalarModel::Absent,
            Scalar::Integer(n) => ScalarModel::Integer(n),
            Scalar::Boolean(b) => ScalarModel::Boolean(b),
            Scalar::Text(s) => ScalarModel::Text(s@),
        }
    }
}

/// A column for the engine: its field and its cells.
#[derive(Debug, PartialEq, Eq)]
pub struct ColumnBatch {
    pub name: String,
    pub storage: Storage,
    pub nullable: bool,
    /// The type of the column, where it is JSON.
    pub logical: Option<String>,
    pub cells: Vec<Scalar>,
}

/// [`ColumnBatch`] in specifications.
pub struct BatchModel {
    pub name: Seq<char>,
    pub storage: Storage,
    pub nullable: bool,
    pub logical: Option<Seq<char>>,
    pub cells: Seq<ScalarModel>,
}

impl DeepView for ColumnBatch {
    type V = BatchModel;

    open spec fn deep_view(&self) -> BatchModel {
        BatchModel {
            name: self.name@,
            storage: self.storage,
            nullable: self.nullable,
            logical: self.logical.deep_view(),
            cells: self.cells.deep_view(),
        }
    }
}

/// Whether a type is JSON.
pub open spec fn json_type(name: Seq<char>) -> bool {
    name == "json"@ || name == "jsonb"@
}

fn is_json_type(name: &str) -> (result: bool)
    ensures
        result == json_type(name@),
{
    same(name, "json") || same(name, "jsonb")
}

/// The failure for a stored value that is not of its column's type.
pub open spec fn wrong_value(table: Seq<char>, column: Seq<char>) -> Failure {
    failure("TypeError"@, "Invalid canonical value for "@ + table + "."@ + column)
}

fn value_error(table: &str, column: &str) -> (result: SqlError)
    ensures
        result@ == wrong_value(table@, column@),
{
    err("TypeError", cat4("Invalid canonical value for ", table, ".", column).as_str())
}

/// A stored value as a cell for the engine; nothing where it is not of the column's type.
pub open spec fn scalar_of(value: Json, storage: Storage, as_json: bool) -> Option<ScalarModel> {
    if value is Null {
        Some(ScalarModel::Absent)
    } else {
        match storage {
            Storage::Integer => match as_int(value) {
                Some(n) => Some(ScalarModel::Integer(n)),
                None => None,
            },
            Storage::Boolean => match value {
                Json::Bool(b) => Some(ScalarModel::Boolean(b)),
                _ => None,
            },
            Storage::Text => if as_json {
                Some(ScalarModel::Text(json_text_of(value)))
            } else {
                match value {
                    Json::String(s) => Some(ScalarModel::Text(s)),
                    _ => None,
                }
            },
        }
    }
}

fn scalar(value: &Datum, storage: Storage, as_json: bool) -> (result: Option<Scalar>)
    ensures
        result.deep_view() == scalar_of(value@, storage, as_json),
{
    if value.is_null() {
        return Some(Scalar::Absent);
    }
    match storage {
        Storage::Integer => match value.as_i64() {
            Some(n) => Some(Scalar::Integer(n)),
            None => None,
        },
        Storage::Boolean => match value {
            Datum::Bool(b) => Some(Scalar::Boolean(*b)),
            _ => None,
        },
        Storage::Text => {
            if as_json {
                Some(Scalar::Text(json_text(value)))
            } else {
                match value {
                    Datum::String(s) => Some(Scalar::Text(s.clone())),
                    _ => None,
                }
            }
        },
    }
}

/// Whether some row from position `from` on has no value in a column.
pub open spec fn lacks_from(rows: Seq<Json>, column: Seq<char>, from: int) -> bool
    decreases rows.len() - from,
{
    if from < 0 || from >= rows.len() {
        false
    } else {
        child(rows[from], column) is Null || lacks_from(rows, column, from + 1)
    }
}

fn lacks(rows: &Vec<Datum>, column: &str) -> (result: bool)
    ensures
        result == lacks_from(rows.deep_view(), column@, 0),
{
    let ghost model = rows.deep_view();
    let mut i: usize = 0;
    while i < rows.len()
        invariant
            i <= rows.len(),
            model == rows.deep_view(),
            lacks_from(model, column@, 0) == lacks_from(model, column@, i as int),
        decreases rows.len() - i,
    {
        assert(model[i as int] == rows[i as int]@);
        if rows[i].child(column).is_null() {
            return true;
        }
        i += 1;
    }
    false
}

/// The cells of a column in the rows from position `from` on, after those in `done`.
pub open spec fn column_cells_from(
    rows: Seq<Json>,
    table: Seq<char>,
    column: ColumnModel,
    storage: Storage,
    from: int,
    done: Seq<ScalarModel>,
) -> Outcome<Seq<ScalarModel>>
    decreases rows.len() - from,
{
    if from < 0 || from >= rows.len() {
        Ok(done)
    } else {
        match scalar_of(child(rows[from], column.name), storage, json_type(lower(column.data_type))) {
            Some(cell) => column_cells_from(rows, table, column, storage, from + 1, done.push(cell)),
            None => Err(wrong_value(table, column.name)),
        }
    }
}

fn column_cells(rows: &Vec<Datum>, table: &str, column: &Column, storage: Storage) -> (result: Result<Vec<Scalar>>)
    ensures
        outcome(result) == column_cells_from(
            rows.deep_view(),
            table@,
            column.deep_view(),
            storage,
            0,
            Seq::empty(),
        ),
{
    let mut done: Vec<Scalar> = no_items();
    let ghost model = rows.deep_view();
    let ghost c = column.deep_view();
    let lowered = column.data_type.as_str().to_lowercase();
    let as_json = is_json_type(lowered.as_str());
    let mut i: usize = 0;
    while i < rows.len()
        invariant
            i <= rows.len(),
            model == rows.deep_view(),
            c == column.deep_view(),
            as_json == json_type(lower(c.data_type)),
            column_cells_from(model, table@, c, storage, 0, Seq::empty()) == column_cells_from(
                model,
                table@,
                c,
                storage,
                i as int,
                done.deep_view(),
            ),
        decreases rows.len() - i,
    {
        assert(model[i as int] == rows[i as int]@);
        match scalar(rows[i].child(column.name.as_str()), storage, as_json) {
            Some(cell) => {
                add_last(&mut done, cell);
            },
            None => {
                return Err(value_error(table, column.name.as_str()));
            },
        }
        i += 1;
    }
    Ok(done)
}

/// One column of rows for the engine.
pub open spec fn column_batch_of(table: Seq<char>, column: ColumnModel, rows: Seq<Json>) -> Outcome<BatchModel> {
    match storage_of(column.data_type) {
        Err(error) => Err(error),
        Ok(storage) => if !column.nullable && lacks_from(rows, column.name, 0) {
            Err(wrong_value(table, column.name))
        } else {
            match column_cells_from(rows, table, column, storage, 0, Seq::empty()) {
                Err(error) => Err(error),
                Ok(cells) => Ok(
                    BatchModel {
                        name: column.name,
                        storage,
                        nullable: column.nullable,
                        logical: if json_type(column.data_type) {
                            Some(column.data_type)
                        } else {
                            None
                        },
                        cells,
                    },
                ),
            }
        },
    }
}

fn column_batch(table: &str, column: &Column, rows: &Vec<Datum>) -> (result: Result<ColumnBatch>)
    ensures
        outcome(result) == column_batch_of(table@, column.deep_view(), rows.deep_view()),
{
    let storage = match column_type(column.data_type.as_str()) {
        Ok(storage) => storage,
        Err(error) => {
            return Err(error);
        },
    };
    if !column.nullable && lacks(rows, column.name.as_str()) {
        return Err(value_error(table, column.name.as_str()));
    }
    let cells = column_cells(rows, table, column, storage)?;
    let logical = if is_json_type(column.data_type.as_str()) {
        Some(column.data_type.clone())
    } else {
        None
    };
    Ok(ColumnBatch { name: column.name.clone(), storage, nullable: column.nullable, logical, cells })
}

/// The columns from position `from` on of rows for the engine, after those in `done`.
pub open spec fn batch_from(
    table: TableModel,
    rows: Seq<Json>,
    from: int,
    done: Seq<BatchModel>,
) -> Outcome<Seq<BatchModel>>
    decreases table.columns.len() - from,
{
    if from < 0 || from >= table.columns.len() {
        Ok(done)
    } else {
        match column_batch_of(table.name, table.columns[from], rows) {
            Err(error) => Err(error),
            Ok(batch) => batch_from(table, rows, from + 1, done.push(batch)),
        }
    }
}

/// The rows of a table as typed columns for the engine.
pub fn table_batch(table: &Table, rows: &Vec<Datum>) -> (result: Result<Vec<ColumnBatch>>)
    ensures
        outcome(result) == batch_from(table.deep_view(), rows.deep_view(), 0, Seq::empty()),
{
    let mut done: Vec<ColumnBatch> = no_items();
    let ghost model = table.deep_view();
    let ghost r = rows.deep_view();
    let mut i: usize = 0;
    while i < table.columns.len()
        invariant
            i <= table.columns.len(),
            model == table.deep_view(),
            r == rows.deep_view(),
            batch_from(model, r, 0, Seq::empty()) == batch_from(model, r, i as int, done.deep_view()),
        decreases table.columns.len() - i,
    {
        assert(model.columns[i as int] == table.columns[i as int].deep_view());
        let batch = column_batch(table.name.as_str(), &table.columns[i], rows)?;
        add_last(&mut done, batch);
        i += 1;
    }
    Ok(done)
}

/// The rows of a table that a caller may read, as typed columns for the engine.
pub open spec fn relation_batch_of(db: DatabaseModel, name: Seq<char>, caller: AuthModel) -> Outcome<Seq<BatchModel>> {
    match crate::catalog::table_of(db, name) {
        Err(error) => Err(error),
        Ok(table) => match table_read(db, name, caller) {
            Err(error) => Err(error),
            Ok(rows) => batch_from(table, rows, 0, Seq::empty()),
        },
    }
}

/// The rows of a table that a caller may read, as typed columns for the engine. No other rows reach
/// it.
pub fn relation_batch(db: &Database, name: &str, context: &AuthContext) -> (result: Result<Vec<ColumnBatch>>)
    ensures
        outcome(result) == relation_batch_of(db.deep_view(), name@, context.deep_view()),
{
    let table = db.table(name)?;
    let rows = db.read_table(name, context)?;
    table_batch(table, &rows)
}

// ---------------------------------------------------------------------------------------------
// Results of the engine
// ---------------------------------------------------------------------------------------------

/// The type of a field of a result.
#[derive(Debug, PartialEq, Eq)]
pub enum FieldType {
    Null,
    Boolean,
    Int8,
    Int16,
    Int32,
    Int64,
    UInt8,
    UInt16,
    UInt32,
    UInt64,
    Float32,
    Float64,
    Text,
    /// Any other type, as the engine writes it.
    Other(String),
}

/// A field of a result.
#[derive(Debug, PartialEq, Eq)]
pub struct ResultField {
    pub name: String,
    pub kind: FieldType,
    pub nullable: bool,
    /// The logical type that the field carries along.
    pub logical: Option<String>,
}

/// [`FieldType`] in specifications.
pub enum FieldTypeModel {
    Null,
    Boolean,
    Int8,
    Int16,
    Int32,
    Int64,
    UInt8,
    UInt16,
    UInt32,
    UInt64,
    Float32,
    Float64,
    Text,
    Other(Seq<char>),
}

/// [`ResultField`] in specifications.
pub struct FieldModel {
    pub name: Seq<char>,
    pub kind: FieldTypeModel,
    pub nullable: bool,
    pub logical: Option<Seq<char>>,
}

impl DeepView for FieldType {
    type V = FieldTypeModel;

    open spec fn deep_view(&self) -> FieldTypeModel {
        match *self {
            FieldType::Null => FieldTypeModel::Null,
            FieldType::Boolean => FieldTypeModel::Boolean,
            FieldType::Int8 => FieldTypeModel::Int8,
            FieldType::Int16 => FieldTypeModel::Int16,
            FieldType::Int32 => FieldTypeModel::Int32,
            FieldType::Int64 => FieldTypeModel::Int64,
            FieldType::UInt8 => FieldTypeModel::UInt8,
            FieldType::UInt16 => FieldTypeModel::UInt16,
            FieldType::UInt32 => FieldTypeModel::UInt32,
            FieldType::UInt64 => FieldTypeModel::UInt64,
            FieldType::Float32 => FieldTypeModel::Float32,
            FieldType::Float64 => FieldTypeModel::Float64,
            FieldType::Text => FieldTypeModel::Text,
            FieldType::Other(name) => FieldTypeModel::Other(name@),
        }
    }
}

impl DeepView for ResultField {
    type V = FieldModel;

    open spec fn deep_view(&self) -> FieldModel {
        FieldModel {
            name: self.name@,
            kind: self.kind.deep_view(),
            nullable: self.nullable,
            logical: self.logical.deep_view(),
        }
    }
}

/// A cell of a result as the engine hands it out.
#[derive(Debug, PartialEq, Eq)]
pub enum RawCell {
    Value(Datum),
    /// A floating-point number that JSON cannot hold.
    NonFinite,
    /// A value of a type that has no JSON form, with the type as the engine writes it.
    Foreign(String),
    /// An array that is not of its own type.
    Broken,
}

/// [`RawCell`] in specifications.
pub enum RawModel {
    Value(Json),
    NonFinite,
    Foreign(Seq<char>),
    Broken,
}

impl DeepView for RawCell {
    type V = RawModel;

    open spec fn deep_view(&self) -> RawModel {
        match *self {
            RawCell::Value(value) => RawModel::Value(value@),
            RawCell::NonFinite => RawModel::NonFinite,
            RawCell::Foreign(name) => RawModel::Foreign(name@),
            RawCell::Broken => RawModel::Broken,
        }
    }
}

/// A part of a result: its fields, and its rows as lists of cells in the order of the fields.
#[derive(Debug, PartialEq, Eq)]
pub struct ResultBatch {
    pub fields: Vec<ResultField>,
    pub rows: Vec<Vec<RawCell>>,
}

/// [`ResultBatch`] in specifications.
pub struct ResultBatchModel {
    pub fields: Seq<FieldModel>,
    pub rows: Seq<Seq<RawModel>>,
}

impl DeepView for ResultBatch {
    type V = ResultBatchModel;

    open spec fn deep_view(&self) -> ResultBatchModel {
        ResultBatchModel { fields: self.fields.deep_view(), rows: self.rows.deep_view() }
    }
}

/// Whether a field carries a JSON type along.
pub open spec fn carries_json(field: FieldModel) -> bool {
    field.logical is Some && json_type(field.logical->Some_0)
}

fn is_carrying_json(field: &ResultField) -> (result: bool)
    ensures
        result == carries_json(field.deep_view()),
{
    match &field.logical {
        Some(name) => is_json_type(name.as_str()),
        None => false,
    }
}

/// The JSON value of a cell; the text in a field of JSON type is read back.
pub open spec fn cell_value_of(cell: RawModel, field: FieldModel) -> Outcome<Json> {
    match cell {
        RawModel::Value(value) => if carries_json(field) && value is String {
            match json_of(value->String_0) {
                Ok(inner) => Ok(inner),
                Err(_) => Err(failure("TypeError"@, "Invalid projected JSON value"@)),
            }
        } else {
            Ok(value)
        },
        RawModel::NonFinite => Err(failure("TypeError"@, "Non-finite query result"@)),
        RawModel::Foreign(name) => Err(unsupported_failure("Query result type "@ + name + " is not supported"@)),
        RawModel::Broken => Err(failure("ExecutionFailure"@, "Invalid Arrow array"@)),
    }
}

fn cell_value(cell: &RawCell, field: &ResultField) -> (result: Result<Datum>)
    ensures
        outcome(result) == cell_value_of(cell.deep_view(), field.deep_view()),
{
    match cell {
        RawCell::Value(value) => {
            if is_carrying_json(field) {
                match value {
                    Datum::String(encoded) => {
                        return match parse_json(encoded.as_str()) {
                            Ok(inner) => Ok(inner),
                            Err(_) => Err(err("TypeError", "Invalid projected JSON value")),
                        };
                    },
                    _ => {},
                }
            }
            Ok(value.copied())
        },
        RawCell::NonFinite => Err(err("TypeError", "Non-finite query result")),
        RawCell::Foreign(name) => Err(
            unsupported(cat3("Query result type ", name.as_str(), " is not supported").as_str()),
        ),
        RawCell::Broken => Err(err("ExecutionFailure", "Invalid Arrow array")),
    }
}

/// Whether the fields from position `from` on have names of their own, not in `seen`.
pub open spec fn names_differ_from(fields: Seq<FieldModel>, from: int, seen: Seq<(Seq<char>, ())>) -> Outcome<()>
    decreases fields.len() - from,
{
    if from < 0 || from >= fields.len() {
        Ok(())
    } else if has_key(seen, fields[from].name) {
        Err(failure("DuplicateColumn"@, "Use aliases for duplicate result columns"@))
    } else {
        names_differ_from(fields, from + 1, put(seen, fields[from].name, ()))
    }
}

fn names_differ(fields: &Vec<ResultField>) -> (result: Result<()>)
    ensures
        outcome(result) == names_differ_from(fields.deep_view(), 0, Seq::empty()),
{
    let mut seen: OrdMap<String, ()> = OrdMap::new();
    let ghost model = fields.deep_view();
    let mut i: usize = 0;
    while i < fields.len()
        invariant
            i <= fields.len(),
            model == fields.deep_view(),
            names_differ_from(model, 0, Seq::empty()) == names_differ_from(model, i as int, seen@),
        decreases fields.len() - i,
    {
        assert(model[i as int] == fields[i as int].deep_view());
        if seen.contains(&fields[i].name) {
            return Err(err("DuplicateColumn", "Use aliases for duplicate result columns"));
        }
        seen.insert(fields[i].name.clone(), ());
        i += 1;
    }
    Ok(())
}

/// A row of a result from the cell at position `from` on, put into `done`.
pub open spec fn result_row_from(
    cells: Seq<RawModel>,
    fields: Seq<FieldModel>,
    from: int,
    done: Seq<(Seq<char>, Json)>,
) -> Outcome<Seq<(Seq<char>, Json)>>
    decreases cells.len() - from,
{
    if from < 0 || from >= cells.len() || from >= fields.len() {
        Ok(done)
    } else {
        match cell_value_of(cells[from], fields[from]) {
            Err(error) => Err(error),
            Ok(value) => result_row_from(cells, fields, from + 1, put(done, fields[from].name, value)),
        }
    }
}

fn result_row(cells: &Vec<RawCell>, fields: &Vec<ResultField>) -> (result: Result<Cells>)
    ensures
        outcome(result) == result_row_from(cells.deep_view(), fields.deep_view(), 0, Seq::empty()),
{
    let mut done: Cells = OrdMap::new();
    let ghost c = cells.deep_view();
    let ghost f = fields.deep_view();
    let mut i: usize = 0;
    while i < cells.len() && i < fields.len()
        invariant
            i <= cells.len(),
            i <= fields.len(),
            c == cells.deep_view(),
            f == fields.deep_view(),
            result_row_from(c, f, 0, Seq::empty()) == result_row_from(c, f, i as int, done@),
        decreases cells.len() - i,
    {
        assert(c[i as int] == cells[i as int].deep_view());
        assert(f[i as int] == fields[i as int].deep_view());
        let value = cell_value(&cells[i], &fields[i])?;
        done.insert(fields[i].name.clone(), value);
        i += 1;
    }
    Ok(done)
}

/// The rows of a part of a result from position `from` on, after those in `done`.
pub open spec fn batch_rows_from(batch: ResultBatchModel, from: int, done: Seq<Json>) -> Outcome<Seq<Json>>
    decreases batch.rows.len() - from,
{
    if from < 0 || from >= batch.rows.len() {
        Ok(done)
    } else {
        match result_row_from(batch.rows[from], batch.fields, 0, Seq::empty()) {
            Err(error) => Err(error),
            Ok(row) => batch_rows_from(batch, from + 1, done.push(Json::Object(row))),
        }
    }
}

fn batch_rows(batch: &ResultBatch, done: Vec<Datum>) -> (result: Result<Vec<Datum>>)
    ensures
        outcome(result) == batch_rows_from(batch.deep_view(), 0, done.deep_view()),
{
    let mut rows = done;
    let ghost first = done.deep_view();
    let ghost model = batch.deep_view();
    let mut i: usize = 0;
    while i < batch.rows.len()
        invariant
            i <= batch.rows.len(),
            model == batch.deep_view(),
            first == done.deep_view(),
            batch_rows_from(model, 0, first) == batch_rows_from(model, i as int, rows.deep_view()),
        decreases batch.rows.len() - i,
    {
        assert(model.rows[i as int] == batch.rows[i as int].deep_view());
        let row = result_row(&batch.rows[i], &batch.fields)?;
        add_last(&mut rows, Datum::Object(row));
        i += 1;
    }
    Ok(rows)
}

/// The rows of the parts of a result from position `from` on, after those in `done`.
pub open spec fn rows_of_batches_from(batches: Seq<ResultBatchModel>, from: int, done: Seq<Json>) -> Outcome<Seq<Json>>
    decreases batches.len() - from,
{
    if from < 0 || from >= batches.len() {
        Ok(done)
    } else if done.len() + batches[from].rows.len() > 100000 {
        Err(failure("ResourceLimit"@, "Query result exceeds 100000 rows; add LIMIT"@))
    } else {
        match names_differ_from(batches[from].fields, 0, Seq::empty()) {
            Err(error) => Err(error),
            Ok(_) => match batch_rows_from(batches[from], 0, done) {
                Err(error) => Err(error),
                Ok(more) => rows_of_batches_from(batches, from + 1, more),
            },
        }
    }
}

proof fn batch_rows_count(batch: ResultBatchModel, from: int, done: Seq<Json>)
    requires
        0 <= from <= batch.rows.len(),
    ensures
        match batch_rows_from(batch, from, done) {
            Ok(rows) => rows.len() == done.len() + batch.rows.len() - from,
            Err(_) => true,
        },
    decreases batch.rows.len() - from,
{
    if from < batch.rows.len() {
        match result_row_from(batch.rows[from], batch.fields, 0, Seq::empty()) {
            Ok(row) => batch_rows_count(batch, from + 1, done.push(Json::Object(row))),
            Err(_) => {},
        }
    }
}

/// A result has all the rows of its parts, and never more than the limit.
pub proof fn results_are_bounded(batches: Seq<ResultBatchModel>, from: int, done: Seq<Json>)
    requires
        done.len() <= 100000,
    ensures
        match rows_of_batches_from(batches, from, done) {
            Ok(rows) => done.len() <= rows.len() <= 100000,
            Err(_) => true,
        },
    decreases batches.len() - from,
{
    if 0 <= from < batches.len() {
        batch_rows_count(batches[from], 0, done);
        match batch_rows_from(batches[from], 0, done) {
            Ok(more) => if more.len() <= 100000 {
                results_are_bounded(batches, from + 1, more);
            },
            Err(_) => {},
        }
    }
}

/// The rows of a result. There may not be too many, and their columns need names of their own.
#[verifier::loop_isolation(false)]
pub fn batches_to_rows(batches: &Vec<ResultBatch>) -> (result: Result<Vec<Datum>>)
    ensures
        outcome(result) == rows_of_batches_from(batches.deep_view(), 0, Seq::empty()),
        match result {
            Ok(rows) => rows.len() <= 100000,
            Err(_) => true,
        },
{
    let mut rows: Vec<Datum> = no_items();
    let ghost model = batches.deep_view();
    let mut i: usize = 0;
    while i < batches.len()
        invariant
            i <= batches.len(),
            rows_of_batches_from(model, 0, Seq::empty()) == rows_of_batches_from(
                model,
                i as int,
                rows.deep_view(),
            ),
        decreases batches.len() - i,
    {
        assert(model[i as int] == batches[i as int].deep_view());
        let more: usize = batches[i].rows.len();
        if rows.len() > MAX_RESULT_ROWS || more > MAX_RESULT_ROWS - rows.len() {
            return Err(err("ResourceLimit", "Query result exceeds 100000 rows; add LIMIT"));
        }
        names_differ(&batches[i].fields)?;
        rows = batch_rows(&batches[i], rows)?;
        i += 1;
    }
    proof {
        results_are_bounded(model, 0, Seq::empty());
    }
    Ok(rows)
}

// ---------------------------------------------------------------------------------------------
// Derived tables
// ---------------------------------------------------------------------------------------------

/// The column type of a field of a result.
pub open spec fn field_type_name(field: FieldModel) -> Outcome<Seq<char>> {
    match field.kind {
        FieldTypeModel::Int8 | FieldTypeModel::Int16 => Ok("smallint"@),
        FieldTypeModel::Int32 => Ok("integer"@),
        FieldTypeModel::Int64 | FieldTypeModel::UInt8 | FieldTypeModel::UInt16 | FieldTypeModel::UInt32
        | FieldTypeModel::UInt64 => Ok("bigint"@),
        FieldTypeModel::Boolean => Ok("boolean"@),
        FieldTypeModel::Text => if carries_json(field) {
            Ok(field.logical->Some_0)
        } else {
            Ok("text"@)
        },
        FieldTypeModel::Null => Ok("text"@),
        FieldTypeModel::Float32 => Err(no_table_type("Float32"@)),
        FieldTypeModel::Float64 => Err(no_table_type("Float64"@)),
        FieldTypeModel::Other(name) => Err(no_table_type(name)),
    }
}

/// The failure for a result that no table can hold.
pub open spec fn no_table_type(name: Seq<char>) -> Failure {
    unsupported_failure("Materialized result type "@ + name + " has no supported canonical table type"@)
}

fn refuse_type(name: &str) -> (result: SqlError)
    ensures
        result@ == no_table_type(name@),
{
    unsupported(
        cat3("Materialized result type ", name, " has no supported canonical table type").as_str(),
    )
}

fn name_field_type(field: &ResultField) -> (result: Result<String>)
    ensures
        outcome(result) == field_type_name(field.deep_view()),
{
    match &field.kind {
        FieldType::Int8 | FieldType::Int16 => Ok(owned("smallint")),
        FieldType::Int32 => Ok(owned("integer")),
        FieldType::Int64 | FieldType::UInt8 | FieldType::UInt16 | FieldType::UInt32 | FieldType::UInt64 => Ok(
            owned("bigint"),
        ),
        FieldType::Boolean => Ok(owned("boolean")),
        FieldType::Text => {
            match &field.logical {
                Some(name) => {
                    if is_json_type(name.as_str()) {
                        return Ok(name.clone());
                    }
                },
                None => {},
            }
            Ok(owned("text"))
        },
        FieldType::Null => Ok(owned("text")),
        FieldType::Float32 => Err(refuse_type("Float32")),
        FieldType::Float64 => Err(refuse_type("Float64")),
        FieldType::Other(name) => Err(refuse_type(name.as_str())),
    }
}

/// The columns of the fields from position `from` on, numbered from one, after those in `done`.
pub open spec fn derived_columns_from(fields: Seq<FieldModel>, from: int, done: Seq<ColumnModel>) -> Outcome<
    Seq<ColumnModel>,
>
    decreases fields.len() - from,
{
    if from < 0 || from >= fields.len() {
        Ok(done)
    } else {
        match field_type_name(fields[from]) {
            Err(error) => Err(error),
            Ok(data_type) => derived_columns_from(
                fields,
                from + 1,
                done.push(
                    ColumnModel {
                        id: (from + 1) as u64,
                        name: fields[from].name,
                        data_type,
                        nullable: fields[from].nullable,
                        default: None,
                        identity: None,
                        generated: None,
                    },
                ),
            ),
        }
    }
}

fn derived_columns(fields: &Vec<ResultField>) -> (result: Result<Vec<Column>>)
    ensures
        outcome(result) == derived_columns_from(fields.deep_view(), 0, Seq::empty()),
{
    let mut done: Vec<Column> = no_items();
    let ghost model = fields.deep_view();
    let mut i: usize = 0;
    while i < fields.len()
        invariant
            i <= fields.len(),
            model == fields.deep_view(),
            derived_columns_from(model, 0, Seq::empty()) == derived_columns_from(
                model,
                i as int,
                done.deep_view(),
            ),
        decreases fields.len() - i,
    {
        assert(model[i as int] == fields[i as int].deep_view());
        let data_type = name_field_type(&fields[i])?;
        let column = Column {
            id: i as u64 + 1,
            name: fields[i].name.clone(),
            data_type,
            nullable: fields[i].nullable,
            default: None,
            identity: None,
            generated: None,
        };
        add_last(&mut done, column);
        i += 1;
    }
    Ok(done)
}

/// Result rows from position `from` on as rows of a table, numbered from one, put into `done`.
pub open spec fn derived_rows_from(rows: Seq<Json>, from: int, done: Seq<(u64, RowModel)>) -> Outcome<
    Seq<(u64, RowModel)>,
>
    decreases rows.len() - from,
{
    if from < 0 || from >= rows.len() {
        Ok(done)
    } else {
        match rows[from] {
            Json::Object(values) => derived_rows_from(
                rows,
                from + 1,
                put(
                    done,
                    (from + 1) as u64,
                    RowModel { id: (from + 1) as u64, version: 0, values },
                ),
            ),
            _ => Err(failure("ExecutionFailure"@, "Expected result object"@)),
        }
    }
}

/// Result rows as rows of a table, numbered from one.
pub fn derived_rows(rows: &Vec<Datum>) -> (result: Result<OrdMap<u64, Row>>)
    ensures
        outcome(result) == derived_rows_from(rows.deep_view(), 0, Seq::empty()),
{
    let mut done: OrdMap<u64, Row> = OrdMap::new();
    let ghost model = rows.deep_view();
    let mut i: usize = 0;
    while i < rows.len()
        invariant
            i <= rows.len(),
            model == rows.deep_view(),
            derived_rows_from(model, 0, Seq::empty()) == derived_rows_from(model, i as int, done@),
        decreases rows.len() - i,
    {
        assert(model[i as int] == rows[i as int]@);
        let id: u64 = i as u64 + 1;
        match &rows[i] {
            Datum::Object(values) => {
                done.insert(id, Row { id, version: 0, values: values.replica() });
            },
            _ => {
                return Err(err("ExecutionFailure", "Expected result object"));
            },
        }
        i += 1;
    }
    Ok(done)
}

/// The rows of a table as objects.
pub open spec fn row_objects(rows: Seq<(u64, RowModel)>) -> Seq<Json> {
    Seq::new(rows.len(), |i: int| Json::Object(rows[i].1.values))
}

fn objects(rows: &OrdMap<u64, Row>) -> (result: Vec<Datum>)
    ensures
        result.deep_view() == row_objects(rows@),
{
    let mut done: Vec<Datum> = no_items();
    let ghost goal = row_objects(rows@);
    let mut i: usize = 0;
    while i < rows.len()
        invariant
            i <= rows@.len(),
            goal == row_objects(rows@),
            done.deep_view() == goal.take(i as int),
        decreases rows@.len() - i,
    {
        let row = rows.value_at(i);
        assert(rows@[i as int].1.values == row.values@);
        add_last(&mut done, Datum::Object(row.values.replica()));
        assert(done.deep_view() =~= goal.take(i + 1));
        i += 1;
    }
    assert(goal.take(rows@.len() as int) =~= goal);
    done
}

/// A table of result rows without keys, checks and policies.
pub open spec fn derived_table(
    name: Seq<char>,
    columns: Seq<ColumnModel>,
    rows: Seq<(u64, RowModel)>,
    next_row_id: u64,
) -> TableModel {
    TableModel {
        id: 0,
        name,
        columns,
        primary_key: Seq::empty(),
        unique: Seq::empty(),
        deferred_unique: Seq::empty(),
        foreign_keys: Seq::empty(),
        checks: Seq::empty(),
        rls_enabled: false,
        policies: Seq::empty(),
        rows,
        next_row_id,
    }
}

/// The table of a result: columns of the types of its fields, and its rows, which have to be of
/// those types.
pub open spec fn materialized_of(
    fields: Seq<FieldModel>,
    batches: Seq<ResultBatchModel>,
    name: Seq<char>,
) -> Outcome<TableModel> {
    match rows_of_batches_from(batches, 0, Seq::empty()) {
        Err(error) => Err(error),
        Ok(rows) => match derived_columns_from(fields, 0, Seq::empty()) {
            Err(error) => Err(error),
            Ok(columns) => match derived_rows_from(rows, 0, Seq::empty()) {
                Err(error) => Err(error),
                Ok(stored_rows) => {
                    let table = derived_table(name, columns, stored_rows, (rows.len() + 1) as u64);
                    match batch_from(table, row_objects(stored_rows), 0, Seq::empty()) {
                        Err(error) => Err(error),
                        Ok(_) => Ok(table),
                    }
                },
            },
        },
    }
}

/// The table of a result: columns of the types of its fields, and its rows, which have to be of
/// those types.
pub fn materialize(fields: &Vec<ResultField>, batches: &Vec<ResultBatch>, name: &str) -> (result: Result<Table>)
    ensures
        outcome(result) == materialized_of(fields.deep_view(), batches.deep_view(), name@),
{
    let rows = batches_to_rows(batches)?;
    let columns = derived_columns(fields)?;
    let stored_rows = derived_rows(&rows)?;
    let table = Table {
        id: 0,
        name: owned(name),
        columns,
        primary_key: no_items(),
        unique: no_items(),
        deferred_unique: OrdMap::new(),
        foreign_keys: no_items(),
        checks: no_items(),
        rls_enabled: false,
        policies: no_items(),
        rows: stored_rows,
        next_row_id: rows.len() as u64 + 1,
    };
    let listed = objects(&table.rows);
    let _ = table_batch(&table, &listed)?;
    Ok(table)
}

/// Whether these are the rows of these objects, numbered from one in their order.
pub open spec fn numbered(rows: Seq<(u64, RowModel)>, objects: Seq<Json>) -> bool {
    &&& rows.len() == objects.len()
    &&& forall|i: int|
        0 <= i < rows.len() ==> (#[trigger] rows[i]).0 == i + 1 && rows[i].1.id == i + 1 && rows[i].1.version == 0
            && objects[i] == Json::Object(rows[i].1.values)
}

proof fn rows_are_numbered(objects: Seq<Json>, from: int, done: Seq<(u64, RowModel)>)
    requires
        0 <= from <= objects.len() < u64::MAX,
        numbered(done, objects.take(from)),
    ensures
        derived_rows_from(objects, from, done) matches Ok(rows) ==> numbered(rows, objects),
    decreases objects.len() - from,
{
    if from < objects.len() {
        match objects[from] {
            Json::Object(values) => {
                let row = RowModel { id: (from + 1) as u64, version: 0, values };
                let next = put(done, (from + 1) as u64, row);
                place_from_range(done, (from + 1) as u64, 0);
                let place = place_from(done, (from + 1) as u64, 0);
                assert(place == done.len()) by {
                    if place < done.len() {
                        assert(done[place].0 == place + 1);
                    }
                }
                assert(next =~= done.push(((from + 1) as u64, row)));
                assert forall|i: int| 0 <= i < next.len() implies (#[trigger] next[i]).0 == i + 1 && next[i].1.id == i
                    + 1 && next[i].1.version == 0 && objects.take(from + 1)[i] == Json::Object(next[i].1.values) by {
                    if i < from {
                        assert(next[i] == done[i]);
                        assert(objects.take(from)[i] == objects[i]);
                    }
                }
                rows_are_numbered(objects, from + 1, next);
            },
            _ => {},
        }
    } else {
        assert(objects.take(from) =~= objects);
    }
}

/// A materialized table holds the rows that the same result is read as, in their order and
/// numbered from one, and numbers the next row after them. Its columns are those of the result, even
/// where there are no rows, and nothing else is said of it: no keys, no checks and no policies.
pub proof fn materialized_tables_hold_the_result(
    fields: Seq<FieldModel>,
    batches: Seq<ResultBatchModel>,
    name: Seq<char>,
)
    ensures
        materialized_of(fields, batches, name) matches Ok(table) ==> {
            &&& table.name == name
            &&& derived_columns_from(fields, 0, Seq::empty()) == Ok::<Seq<ColumnModel>, Failure>(table.columns)
            &&& table.primary_key.len() == 0 && table.unique.len() == 0 && table.deferred_unique.len() == 0
            &&& table.foreign_keys.len() == 0 && table.checks.len() == 0
            &&& !table.rls_enabled && table.policies.len() == 0
            &&& rows_of_batches_from(batches, 0, Seq::empty()) matches Ok(rows) && numbered(table.rows, rows)
                && row_objects(table.rows) == rows && table.next_row_id == rows.len() + 1
        },
{
    match rows_of_batches_from(batches, 0, Seq::empty()) {
        Err(_) => {},
        Ok(rows) => {
            results_are_bounded(batches, 0, Seq::empty());
            assert(rows.take(0) =~= Seq::<Json>::empty());
            rows_are_numbered(rows, 0, Seq::empty());
            match materialized_of(fields, batches, name) {
                Err(_) => {},
                Ok(table) => {
                    assert(row_objects(table.rows) =~= rows);
                },
            }
        },
    }
}

// ---------------------------------------------------------------------------------------------
// Checks of a typed plan
// ---------------------------------------------------------------------------------------------

/// Groups of types whose values compare without a cast.
#[derive(Debug, Clone, Copy, PartialEq, Eq, Structural)]
pub enum Family {
    Null,
    Number,
    Text,
    Boolean,
    Other,
}

/// The group of a type.
pub open spec fn family_of(kind: FieldTypeModel) -> Family {
    match kind {
        FieldTypeModel::Null => Family::Null,
        FieldTypeModel::Int8 | FieldTypeModel::Int16 | FieldTypeModel::Int32 | FieldTypeModel::Int64
        | FieldTypeModel::UInt8 | FieldTypeModel::UInt16 | FieldTypeModel::UInt32 | FieldTypeModel::UInt64
        | FieldTypeModel::Float32 | FieldTypeModel::Float64 => Family::Number,
        FieldTypeModel::Text => Family::Text,
        FieldTypeModel::Boolean => Family::Boolean,
        FieldTypeModel::Other(_) => Family::Other,
    }
}

/// The group of a type.
pub fn family(kind: &FieldType) -> (result: Family)
    ensures
        result == family_of(kind.deep_view()),
{
    match kind {
        FieldType::Null => Family::Null,
        FieldType::Int8 | FieldType::Int16 | FieldType::Int32 | FieldType::Int64 | FieldType::UInt8
        | FieldType::UInt16 | FieldType::UInt32 | FieldType::UInt64 | FieldType::Float32 | FieldType::Float64 => Family::Number,
        FieldType::Text => Family::Text,
        FieldType::Boolean => Family::Boolean,
        FieldType::Other(_) => Family::Other,
    }
}

/// What an expression of a plan is.
#[derive(Debug, Clone, Copy, PartialEq, Eq, Structural)]
pub enum PlanShape {
    Column,
    Alias,
    IsNull,
    IsNotNull,
    Other,
}

/// What a plan says of one expression.
#[derive(Debug, PartialEq, Eq)]
pub struct PlanExpr {
    pub shape: PlanShape,
    /// The types of the operands of a binary expression, where both are known.
    pub operands: Option<(FieldType, FieldType)>,
    /// The logical types that the columns used in it carry along.
    pub columns: Vec<String>,
}

/// [`PlanExpr`] in specifications.
pub struct PlanExprModel {
    pub shape: PlanShape,
    pub operands: Option<(FieldTypeModel, FieldTypeModel)>,
    pub columns: Seq<Seq<char>>,
}

impl DeepView for PlanExpr {
    type V = PlanExprModel;

    open spec fn deep_view(&self) -> PlanExprModel {
        PlanExprModel {
            shape: self.shape,
            operands: self.operands.deep_view(),
            columns: self.columns.deep_view(),
        }
    }
}

/// Whether one of these logical types is JSON.
pub open spec fn json_among(types: Seq<Seq<char>>) -> bool {
    exists|i: int| 0 <= i < types.len() && json_type(#[trigger] types[i])
}

fn is_json_among(types: &Vec<String>) -> (result: bool)
    ensures
        result == json_among(types.deep_view()),
{
    let ghost model = types.deep_view();
    let mut i: usize = 0;
    while i < types.len()
        invariant
            i <= types.len(),
            model == types.deep_view(),
            forall|j: int| 0 <= j < i ==> !json_type(#[trigger] model[j]),
        decreases types.len() - i,
    {
        assert(model[i as int] == types[i as int]@);
        if is_json_type(types[i].as_str()) {
            return true;
        }
        i += 1;
    }
    false
}

/// Whether an expression hands a column on, or tests it for null.
pub open spec fn direct(shape: PlanShape) -> bool {
    shape != PlanShape::Other
}

/// What a step of a plan does.
#[derive(Debug, Clone, Copy, PartialEq, Eq, Structural)]
pub enum PlanStep {
    Sort,
    Aggregate,
    Distinct,
    Other,
}

/// What a plan says of one step.
#[derive(Debug, PartialEq, Eq)]
pub struct PlanNode {
    pub step: PlanStep,
    /// Its expressions and those inside them, in the order of the walk.
    pub expressions: Vec<PlanExpr>,
    /// The logical types that the fields of its result carry along.
    pub fields: Vec<String>,
}

/// [`PlanNode`] in specifications.
pub struct PlanNodeModel {
    pub step: PlanStep,
    pub expressions: Seq<PlanExprModel>,
    pub fields: Seq<Seq<char>>,
}

impl DeepView for PlanNode {
    type V = PlanNodeModel;

    open spec fn deep_view(&self) -> PlanNodeModel {
        PlanNodeModel {
            step: self.step,
            expressions: self.expressions.deep_view(),
            fields: self.fields.deep_view(),
        }
    }
}

/// Whether two types compare without a cast.
pub open spec fn compatible(left: FieldTypeModel, right: FieldTypeModel) -> bool {
    family_of(left) == Family::Null || family_of(right) == Family::Null || family_of(left) == family_of(right)
}

/// The last complaint about an expression, else the one before.
pub open spec fn expr_complaint(expr: PlanExprModel, before: Option<Failure>) -> Option<Failure> {
    if json_among(expr.columns) && !direct(expr.shape) {
        Some(
            unsupported_failure(
                "JSON expressions require the native JSON evaluator; direct projections are supported"@,
            ),
        )
    } else if expr.operands is Some && !compatible(expr.operands->Some_0.0, expr.operands->Some_0.1) {
        Some(failure("TypeError"@, "Incompatible operands require an explicit CAST"@))
    } else {
        before
    }
}

/// The last complaint about the expressions from position `from` on.
pub open spec fn exprs_complaint_from(exprs: Seq<PlanExprModel>, from: int, before: Option<Failure>) -> Option<Failure>
    decreases exprs.len() - from,
{
    if from < 0 || from >= exprs.len() {
        before
    } else {
        exprs_complaint_from(exprs, from + 1, expr_complaint(exprs[from], before))
    }
}

/// Whether an expression of a step uses JSON.
pub open spec fn uses_json(exprs: Seq<PlanExprModel>) -> bool {
    exists|i: int| 0 <= i < exprs.len() && json_among((#[trigger] exprs[i]).columns)
}

fn is_using_json(exprs: &Vec<PlanExpr>) -> (result: bool)
    ensures
        result == uses_json(exprs.deep_view()),
{
    let ghost model = exprs.deep_view();
    let mut i: usize = 0;
    while i < exprs.len()
        invariant
            i <= exprs.len(),
            model == exprs.deep_view(),
            forall|j: int| 0 <= j < i ==> !json_among((#[trigger] model[j]).columns),
        decreases exprs.len() - i,
    {
        assert(model[i as int] == exprs[i as int].deep_view());
        if is_json_among(&exprs[i].columns) {
            return true;
        }
        i += 1;
    }
    false
}

/// The last complaint about a step.
pub open spec fn node_complaint(node: PlanNodeModel, before: Option<Failure>) -> Option<Failure> {
    if node.step == PlanStep::Distinct && json_among(node.fields) {
        Some(unsupported_failure("DISTINCT on JSON values requires native JSON equality semantics"@))
    } else if node.step != PlanStep::Other && uses_json(node.expressions) {
        Some(unsupported_failure("JSON sorting, grouping and aggregation are not implemented"@))
    } else {
        exprs_complaint_from(node.expressions, 0, before)
    }
}

/// The last complaint about the steps from position `from` on.
pub open spec fn plan_complaint_from(nodes: Seq<PlanNodeModel>, from: int, before: Option<Failure>) -> Option<Failure>
    decreases nodes.len() - from,
{
    if from < 0 || from >= nodes.len() {
        before
    } else {
        plan_complaint_from(nodes, from + 1, node_complaint(nodes[from], before))
    }
}

/// Whether a plan is admitted before the engine adds casts of its own: operands of one group, and
/// JSON only handed through.
pub open spec fn plan_admitted(nodes: Seq<PlanNodeModel>) -> Outcome<()> {
    match plan_complaint_from(nodes, 0, None) {
        Some(complaint) => Err(complaint),
        None => Ok(()),
    }
}

fn complain_expr(expr: &PlanExpr, before: Option<SqlError>) -> (result: Option<SqlError>)
    ensures
        result.deep_view() == expr_complaint(expr.deep_view(), before.deep_view()),
{
    if expr.shape == PlanShape::Other && is_json_among(&expr.columns) {
        return Some(
            unsupported(
                "JSON expressions require the native JSON evaluator; direct projections are supported",
            ),
        );
    }
    match &expr.operands {
        Some((left, right)) => {
            let a = family(left);
            let b = family(right);
            if a != Family::Null && b != Family::Null && a != b {
                return Some(err("TypeError", "Incompatible operands require an explicit CAST"));
            }
        },
        None => {},
    }
    before
}

fn complain_exprs(exprs: &Vec<PlanExpr>, before: Option<SqlError>) -> (result: Option<SqlError>)
    ensures
        result.deep_view() == exprs_complaint_from(exprs.deep_view(), 0, before.deep_view()),
{
    let ghost model = exprs.deep_view();
    let ghost first = before.deep_view();
    let mut complaint = before;
    let mut i: usize = 0;
    while i < exprs.len()
        invariant
            i <= exprs.len(),
            model == exprs.deep_view(),
            exprs_complaint_from(model, 0, first) == exprs_complaint_from(model, i as int, complaint.deep_view()),
        decreases exprs.len() - i,
    {
        assert(model[i as int] == exprs[i as int].deep_view());
        complaint = complain_expr(&exprs[i], complaint);
        i += 1;
    }
    complaint
}

/// Whether a plan is admitted before the engine adds casts of its own: operands of one group, and
/// JSON only handed through.
pub fn validate_plan(nodes: &Vec<PlanNode>) -> (result: Result<()>)
    ensures
        outcome(result) == plan_admitted(nodes.deep_view()),
{
    let ghost model = nodes.deep_view();
    let mut complaint: Option<SqlError> = None;
    let mut i: usize = 0;
    while i < nodes.len()
        invariant
            i <= nodes.len(),
            model == nodes.deep_view(),
            plan_complaint_from(model, 0, None) == plan_complaint_from(model, i as int, complaint.deep_view()),
        decreases nodes.len() - i,
    {
        let node = &nodes[i];
        assert(model[i as int] == node.deep_view());
        complaint =
        if node.step == PlanStep::Distinct && is_json_among(&node.fields) {
            Some(unsupported("DISTINCT on JSON values requires native JSON equality semantics"))
        } else if node.step != PlanStep::Other && is_using_json(&node.expressions) {
            Some(unsupported("JSON sorting, grouping and aggregation are not implemented"))
        } else {
            complain_exprs(&node.expressions, complaint)
        };
        i += 1;
    }
    match complaint {
        Some(found) => Err(found),
        None => Ok(()),
    }
}

} // verus!
