//! The relational state: tables, rows, policies, views and functions.

use vstd::prelude::*;
use crate::ast::Expr;
use crate::error::{err, failure, outcome, Outcome, Result};
use crate::json::{group_value_views, Datum, Json};
use crate::ordmap::{get, OrdMap};
use crate::replica::{add_last, no_items, Replica};
use crate::views::ViewModel;
use crate::text::{after_prefix, cat3, owned, same, strip_prefix};

verus! {

broadcast use group_value_views;

/// The identity of a catalog object or a row, never reused.
pub type StableId = u64;

/// The cells of a row by column name.
pub type Cells = OrdMap<String, Datum>;

/// The cells of a row in specifications.
pub type CellsModel = Seq<(Seq<char>, Json)>;

/// What happens to referring rows when the referred row is deleted or its key changes.
#[derive(Debug, Clone, Copy, PartialEq, Eq, Structural)]
pub enum ReferentialAction {
    Restrict,
    Cascade,
    SetNull,
    NoAction,
    SetDefault,
}

/// How an identity column numbers its rows.
#[derive(Debug, Clone, Copy, PartialEq, Eq, Structural)]
pub struct Identity {
    pub always: bool,
    pub start: i64,
    pub increment: i64,
}

/// What a function returns.
#[derive(Debug, PartialEq, Eq)]
pub enum FunctionReturn {
    Scalar(String),
    SetOf(String),
    Table(Vec<(String, String)>),
    Void,
}

/// [`FunctionReturn`] in specifications.
pub enum ReturnModel {
    Scalar(Seq<char>),
    SetOf(Seq<char>),
    Table(Seq<(Seq<char>, Seq<char>)>),
    Void,
}

impl DeepView for FunctionReturn {
    type V = ReturnModel;

    open spec fn deep_view(&self) -> ReturnModel {
        match *self {
            FunctionReturn::Scalar(name) => ReturnModel::Scalar(name@),
            FunctionReturn::SetOf(name) => ReturnModel::SetOf(name@),
            FunctionReturn::Table(columns) => ReturnModel::Table(columns.deep_view()),
            FunctionReturn::Void => ReturnModel::Void,
        }
    }
}

impl Replica for FunctionReturn {
    fn replica(&self) -> (result: Self) {
        match self {
            FunctionReturn::Scalar(name) => FunctionReturn::Scalar(name.clone()),
            FunctionReturn::SetOf(name) => FunctionReturn::SetOf(name.clone()),
            FunctionReturn::Table(columns) => FunctionReturn::Table(columns.replica()),
            FunctionReturn::Void => FunctionReturn::Void,
        }
    }
}

impl Clone for FunctionReturn {
    fn clone(&self) -> (result: Self)
        ensures
            result.deep_view() == self.deep_view(),
    {
        self.replica()
    }
}

/// Who runs a statement: role, user, claims, and whether row security is bypassed.
#[derive(Debug, PartialEq, Eq)]
pub struct AuthContext {
    pub role: String,
    pub uid: Option<String>,
    pub jwt_claims: Datum,
    pub privileged: bool,
}

/// [`AuthContext`] in specifications.
pub struct AuthModel {
    pub role: Seq<char>,
    pub uid: Option<Seq<char>>,
    pub jwt_claims: Json,
    pub privileged: bool,
}

impl DeepView for AuthContext {
    type V = AuthModel;

    open spec fn deep_view(&self) -> AuthModel {
        AuthModel {
            role: self.role.deep_view(),
            uid: self.uid.deep_view(),
            jwt_claims: self.jwt_claims.deep_view(),
            privileged: self.privileged,
        }
    }
}

impl Replica for AuthContext {
    fn replica(&self) -> (result: Self) {
        AuthContext {
            role: self.role.replica(),
            uid: self.uid.replica(),
            jwt_claims: self.jwt_claims.replica(),
            privileged: self.privileged,
        }
    }
}

impl Clone for AuthContext {
    fn clone(&self) -> (result: Self)
        ensures
            result.deep_view() == self.deep_view(),
    {
        self.replica()
    }
}

/// A column of a table.
#[derive(Debug, PartialEq, Eq)]
pub struct Column {
    pub id: StableId,
    pub name: String,
    pub data_type: String,
    pub nullable: bool,
    pub default: Option<Expr>,
    pub identity: Option<Identity>,
    pub generated: Option<Expr>,
}

/// [`Column`] in specifications.
pub struct ColumnModel {
    pub id: u64,
    pub name: Seq<char>,
    pub data_type: Seq<char>,
    pub nullable: bool,
    pub default: Option<Json>,
    pub identity: Option<Identity>,
    pub generated: Option<Json>,
}

impl DeepView for Column {
    type V = ColumnModel;

    open spec fn deep_view(&self) -> ColumnModel {
        ColumnModel {
            id: self.id,
            name: self.name.deep_view(),
            data_type: self.data_type.deep_view(),
            nullable: self.nullable,
            default: self.default.deep_view(),
            identity: self.identity,
            generated: self.generated.deep_view(),
        }
    }
}

impl Replica for Column {
    fn replica(&self) -> (result: Self) {
        Column {
            id: self.id,
            name: self.name.replica(),
            data_type: self.data_type.replica(),
            nullable: self.nullable,
            default: self.default.replica(),
            identity: self.identity,
            generated: self.generated.replica(),
        }
    }
}

impl Clone for Column {
    fn clone(&self) -> (result: Self)
        ensures
            result.deep_view() == self.deep_view(),
    {
        self.replica()
    }
}

/// A row: its stable identity, how often it was written, and its cells.
#[derive(Debug, PartialEq, Eq)]
pub struct Row {
    pub id: StableId,
    pub version: u64,
    pub values: Cells,
}

/// [`Row`] in specifications.
pub struct RowModel {
    pub id: u64,
    pub version: u64,
    pub values: CellsModel,
}

impl DeepView for Row {
    type V = RowModel;

    open spec fn deep_view(&self) -> RowModel {
        RowModel {
            id: self.id,
            version: self.version,
            values: self.values.deep_view(),
        }
    }
}

impl Replica for Row {
    fn replica(&self) -> (result: Self) {
        Row {
            id: self.id,
            version: self.version,
            values: self.values.replica(),
        }
    }
}

impl Clone for Row {
    fn clone(&self) -> (result: Self)
        ensures
            result.deep_view() == self.deep_view(),
    {
        self.replica()
    }
}

/// A foreign key from `columns` to `referred_columns` of `foreign_table`, or to its primary key.
#[derive(Debug, PartialEq, Eq)]
pub struct ForeignKey {
    pub columns: Vec<String>,
    pub foreign_table: String,
    pub referred_columns: Vec<String>,
    pub on_delete: Option<ReferentialAction>,
    pub on_update: Option<ReferentialAction>,
    pub deferred: bool,
}

/// [`ForeignKey`] in specifications.
pub struct ForeignKeyModel {
    pub columns: Seq<Seq<char>>,
    pub foreign_table: Seq<char>,
    pub referred_columns: Seq<Seq<char>>,
    pub on_delete: Option<ReferentialAction>,
    pub on_update: Option<ReferentialAction>,
    pub deferred: bool,
}

impl DeepView for ForeignKey {
    type V = ForeignKeyModel;

    open spec fn deep_view(&self) -> ForeignKeyModel {
        ForeignKeyModel {
            columns: self.columns.deep_view(),
            foreign_table: self.foreign_table.deep_view(),
            referred_columns: self.referred_columns.deep_view(),
            on_delete: self.on_delete,
            on_update: self.on_update,
            deferred: self.deferred,
        }
    }
}

impl Replica for ForeignKey {
    fn replica(&self) -> (result: Self) {
        ForeignKey {
            columns: self.columns.replica(),
            foreign_table: self.foreign_table.replica(),
            referred_columns: self.referred_columns.replica(),
            on_delete: self.on_delete,
            on_update: self.on_update,
            deferred: self.deferred,
        }
    }
}

impl Clone for ForeignKey {
    fn clone(&self) -> (result: Self)
        ensures
            result.deep_view() == self.deep_view(),
    {
        self.replica()
    }
}

/// A row-level security policy.
#[derive(Debug, PartialEq, Eq)]
pub struct Policy {
    pub name: String,
    pub command: String,
    pub roles: Vec<String>,
    pub permissive: bool,
    pub using: Option<Expr>,
    pub check: Option<Expr>,
}

/// [`Policy`] in specifications.
pub struct PolicyModel {
    pub name: Seq<char>,
    pub command: Seq<char>,
    pub roles: Seq<Seq<char>>,
    pub permissive: bool,
    pub using: Option<Json>,
    pub check: Option<Json>,
}

impl DeepView for Policy {
    type V = PolicyModel;

    open spec fn deep_view(&self) -> PolicyModel {
        PolicyModel {
            name: self.name.deep_view(),
            command: self.command.deep_view(),
            roles: self.roles.deep_view(),
            permissive: self.permissive,
            using: self.using.deep_view(),
            check: self.check.deep_view(),
        }
    }
}

impl Replica for Policy {
    fn replica(&self) -> (result: Self) {
        Policy {
            name: self.name.replica(),
            command: self.command.replica(),
            roles: self.roles.replica(),
            permissive: self.permissive,
            using: self.using.replica(),
            check: self.check.replica(),
        }
    }
}

impl Clone for Policy {
    fn clone(&self) -> (result: Self)
        ensures
            result.deep_view() == self.deep_view(),
    {
        self.replica()
    }
}

/// A table with its rows.
#[derive(Debug, PartialEq, Eq)]
pub struct Table {
    pub id: StableId,
    pub name: String,
    pub columns: Vec<Column>,
    pub primary_key: Vec<String>,
    pub unique: Vec<Vec<String>>,
    pub deferred_unique: OrdMap<Vec<String>, ()>,
    pub foreign_keys: Vec<ForeignKey>,
    pub checks: Vec<Expr>,
    pub rls_enabled: bool,
    pub policies: Vec<Policy>,
    pub rows: OrdMap<StableId, Row>,
    pub next_row_id: u64,
}

/// [`Table`] in specifications.
pub struct TableModel {
    pub id: u64,
    pub name: Seq<char>,
    pub columns: Seq<ColumnModel>,
    pub primary_key: Seq<Seq<char>>,
    pub unique: Seq<Seq<Seq<char>>>,
    pub deferred_unique: Seq<(Seq<Seq<char>>, ())>,
    pub foreign_keys: Seq<ForeignKeyModel>,
    pub checks: Seq<Json>,
    pub rls_enabled: bool,
    pub policies: Seq<PolicyModel>,
    pub rows: Seq<(u64, RowModel)>,
    pub next_row_id: u64,
}

impl DeepView for Table {
    type V = TableModel;

    open spec fn deep_view(&self) -> TableModel {
        TableModel {
            id: self.id,
            name: self.name.deep_view(),
            columns: self.columns.deep_view(),
            primary_key: self.primary_key.deep_view(),
            unique: self.unique.deep_view(),
            deferred_unique: self.deferred_unique.deep_view(),
            foreign_keys: self.foreign_keys.deep_view(),
            checks: self.checks.deep_view(),
            rls_enabled: self.rls_enabled,
            policies: self.policies.deep_view(),
            rows: self.rows.deep_view(),
            next_row_id: self.next_row_id,
        }
    }
}

impl Replica for Table {
    fn replica(&self) -> (result: Self) {
        Table {
            id: self.id,
            name: self.name.replica(),
            columns: self.columns.replica(),
            primary_key: self.primary_key.replica(),
            unique: self.unique.replica(),
            deferred_unique: self.deferred_unique.replica(),
            foreign_keys: self.foreign_keys.replica(),
            checks: self.checks.replica(),
            rls_enabled: self.rls_enabled,
            policies: self.policies.replica(),
            rows: self.rows.replica(),
            next_row_id: self.next_row_id,
        }
    }
}

impl Clone for Table {
    fn clone(&self) -> (result: Self)
        ensures
            result.deep_view() == self.deep_view(),
    {
        self.replica()
    }
}

/// A parameter of a function.
#[derive(Debug, PartialEq, Eq)]
pub struct FunctionParameter {
    pub name: String,
    pub data_type: String,
    pub default: Option<Expr>,
}

/// [`FunctionParameter`] in specifications.
pub struct ParameterModel {
    pub name: Seq<char>,
    pub data_type: Seq<char>,
    pub default: Option<Json>,
}

impl DeepView for FunctionParameter {
    type V = ParameterModel;

    open spec fn deep_view(&self) -> ParameterModel {
        ParameterModel {
            name: self.name.deep_view(),
            data_type: self.data_type.deep_view(),
            default: self.default.deep_view(),
        }
    }
}

impl Replica for FunctionParameter {
    fn replica(&self) -> (result: Self) {
        FunctionParameter {
            name: self.name.replica(),
            data_type: self.data_type.replica(),
            default: self.default.replica(),
        }
    }
}

impl Clone for FunctionParameter {
    fn clone(&self) -> (result: Self)
        ensures
            result.deep_view() == self.deep_view(),
    {
        self.replica()
    }
}

/// A function written in SQL.
#[derive(Debug, PartialEq, Eq)]
pub struct SqlFunction {
    pub name: String,
    pub parameters: Vec<FunctionParameter>,
    pub return_kind: FunctionReturn,
    pub body: String,
    pub security_definer: bool,
    pub definer_context: Option<AuthContext>,
}

/// [`SqlFunction`] in specifications.
pub struct FunctionModel {
    pub name: Seq<char>,
    pub parameters: Seq<ParameterModel>,
    pub return_kind: ReturnModel,
    pub body: Seq<char>,
    pub security_definer: bool,
    pub definer_context: Option<AuthModel>,
}

impl DeepView for SqlFunction {
    type V = FunctionModel;

    open spec fn deep_view(&self) -> FunctionModel {
        FunctionModel {
            name: self.name.deep_view(),
            parameters: self.parameters.deep_view(),
            return_kind: self.return_kind.deep_view(),
            body: self.body.deep_view(),
            security_definer: self.security_definer,
            definer_context: self.definer_context.deep_view(),
        }
    }
}

impl Replica for SqlFunction {
    fn replica(&self) -> (result: Self) {
        SqlFunction {
            name: self.name.replica(),
            parameters: self.parameters.replica(),
            return_kind: self.return_kind.replica(),
            body: self.body.replica(),
            security_definer: self.security_definer,
            definer_context: self.definer_context.replica(),
        }
    }
}

impl Clone for SqlFunction {
    fn clone(&self) -> (result: Self)
        ensures
            result.deep_view() == self.deep_view(),
    {
        self.replica()
    }
}

/// The whole relational state.
#[derive(Debug, PartialEq, Eq)]
pub struct Database {
    pub catalog: OrdMap<String, Table>,
    pub views: OrdMap<String, crate::views::View>,
    pub functions: OrdMap<String, SqlFunction>,
    pub migrations: OrdMap<String, ()>,
    pub schema_version: u64,
    pub next_object_id: u64,
}

/// [`Database`] in specifications.
pub struct DatabaseModel {
    pub catalog: Seq<(Seq<char>, TableModel)>,
    pub views: Seq<(Seq<char>, ViewModel)>,
    pub functions: Seq<(Seq<char>, FunctionModel)>,
    pub migrations: Seq<(Seq<char>, ())>,
    pub schema_version: u64,
    pub next_object_id: u64,
}

impl DeepView for Database {
    type V = DatabaseModel;

    open spec fn deep_view(&self) -> DatabaseModel {
        DatabaseModel {
            catalog: self.catalog.deep_view(),
            views: self.views.deep_view(),
            functions: self.functions.deep_view(),
            migrations: self.migrations.deep_view(),
            schema_version: self.schema_version,
            next_object_id: self.next_object_id,
        }
    }
}

impl Replica for Database {
    fn replica(&self) -> (result: Self) {
        Database {
            catalog: self.catalog.replica(),
            views: self.views.replica(),
            functions: self.functions.replica(),
            migrations: self.migrations.replica(),
            schema_version: self.schema_version,
            next_object_id: self.next_object_id,
        }
    }
}

impl Clone for Database {
    fn clone(&self) -> (result: Self)
        ensures
            result.deep_view() == self.deep_view(),
    {
        self.replica()
    }
}

/// What a statement returns: rows, and how many rows it changed.
#[derive(Debug, PartialEq, Eq)]
pub struct SqlResult {
    pub rows: Vec<Datum>,
    pub affected: usize,
}

/// [`SqlResult`] in specifications.
pub struct ResultModel {
    pub rows: Seq<Json>,
    pub affected: usize,
}

impl DeepView for SqlResult {
    type V = ResultModel;

    open spec fn deep_view(&self) -> ResultModel {
        ResultModel {
            rows: self.rows.deep_view(),
            affected: self.affected,
        }
    }
}

impl Replica for SqlResult {
    fn replica(&self) -> (result: Self) {
        SqlResult {
            rows: self.rows.replica(),
            affected: self.affected,
        }
    }
}

impl Clone for SqlResult {
    fn clone(&self) -> (result: Self)
        ensures
            result.deep_view() == self.deep_view(),
    {
        self.replica()
    }
}

// ---------------------------------------------------------------------------------------------
// Initial states
// ---------------------------------------------------------------------------------------------

/// The anonymous caller.
pub open spec fn anonymous() -> AuthModel {
    AuthModel { role: "anon"@, uid: None, jwt_claims: Json::Null, privileged: false }
}

/// The caller that bypasses row security.
pub open spec fn administrator() -> AuthModel {
    AuthModel { role: "service_role"@, privileged: true, ..anonymous() }
}

/// A signed-in caller.
pub open spec fn signed_in(uid: Seq<char>) -> AuthModel {
    AuthModel { role: "authenticated"@, uid: Some(uid), ..anonymous() }
}

impl Default for AuthContext {
    fn default() -> (result: Self)
        ensures
            result.deep_view() == anonymous(),
    {
        AuthContext { role: owned("anon"), uid: None, jwt_claims: Datum::Null, privileged: false }
    }
}

impl AuthContext {
    /// The caller that bypasses row security.
    pub fn admin() -> (result: Self)
        ensures
            result.deep_view() == administrator(),
    {
        AuthContext {
            role: owned("service_role"),
            uid: None,
            jwt_claims: Datum::Null,
            privileged: true,
        }
    }

    /// A signed-in caller.
    pub fn authenticated(uid: &str) -> (result: Self)
        ensures
            result.deep_view() == signed_in(uid@),
    {
        AuthContext {
            role: owned("authenticated"),
            uid: Some(owned(uid)),
            jwt_claims: Datum::Null,
            privileged: false,
        }
    }
}

/// The state without any object.
pub open spec fn empty_database() -> DatabaseModel {
    DatabaseModel {
        catalog: Seq::empty(),
        views: Seq::empty(),
        functions: Seq::empty(),
        migrations: Seq::empty(),
        schema_version: 0,
        next_object_id: 1,
    }
}

impl Default for Database {
    fn default() -> (result: Self)
        ensures
            result.deep_view() == empty_database(),
    {
        Database {
            catalog: OrdMap::new(),
            views: OrdMap::new(),
            functions: OrdMap::new(),
            migrations: OrdMap::new(),
            schema_version: 0,
            next_object_id: 1,
        }
    }
}

/// The result without rows.
pub open spec fn no_result() -> ResultModel {
    ResultModel { rows: Seq::empty(), affected: 0 }
}

impl Default for SqlResult {
    fn default() -> (result: Self)
        ensures
            result.deep_view() == no_result(),
    {
        SqlResult { rows: no_items(), affected: 0 }
    }
}

// ---------------------------------------------------------------------------------------------
// Lookups
// ---------------------------------------------------------------------------------------------

/// A relation's name without the prefix of the public schema.
pub open spec fn local_name(name: Seq<char>) -> Seq<char> {
    match after_prefix(name, "public."@) {
        Some(rest) => rest,
        None => name,
    }
}

/// A relation's name without the prefix of the public schema.
pub fn unqualified(name: &str) -> (result: String)
    ensures
        result@ == local_name(name@),
{
    match strip_prefix(name, "public.") {
        Some(rest) => rest,
        None => owned(name),
    }
}

/// The table of this name.
pub open spec fn table_of(database: DatabaseModel, name: Seq<char>) -> Outcome<TableModel> {
    match get(database.catalog, local_name(name)) {
        Some(table) => Ok(table),
        None => Err(failure("UndefinedTable"@, "Table "@ + name + " does not exist"@)),
    }
}

impl Database {
    /// The table of this name.
    pub fn table(&self, name: &str) -> (result: Result<&Table>)
        ensures
            outcome(result) == table_of(self.deep_view(), name@),
    {
        match self.catalog.find(unqualified(name).as_str()) {
            Some(table) => Ok(table),
            None => Err(err("UndefinedTable", cat3("Table ", name, " does not exist").as_str())),
        }
    }
}

/// The first position at or after `from` of the column `name`, or the length.
pub open spec fn column_from(columns: Seq<ColumnModel>, name: Seq<char>, from: int) -> int
    decreases columns.len() - from,
{
    if from >= columns.len() {
        columns.len() as int
    } else if columns[from].name == name {
        from
    } else {
        column_from(columns, name, from + 1)
    }
}

/// The column of this name.
pub open spec fn column_named(columns: Seq<ColumnModel>, name: Seq<char>) -> Option<ColumnModel> {
    let spot = column_from(columns, name, 0);
    if spot < columns.len() {
        Some(columns[spot])
    } else {
        None
    }
}

/// Whether there is a column of this name.
pub open spec fn has_column(columns: Seq<ColumnModel>, name: Seq<char>) -> bool {
    column_from(columns, name, 0) < columns.len()
}

pub proof fn column_from_range(columns: Seq<ColumnModel>, name: Seq<char>, from: int)
    requires
        0 <= from <= columns.len(),
    ensures
        from <= column_from(columns, name, from) <= columns.len(),
        column_from(columns, name, from) < columns.len() ==> columns[column_from(
            columns,
            name,
            from,
        )].name == name,
        forall|i: int| from <= i < column_from(columns, name, from) ==> (#[trigger] columns[i]).name != name,
    decreases columns.len() - from,
{
    if from < columns.len() && columns[from].name != name {
        column_from_range(columns, name, from + 1);
    }
}

/// The position of the column `name`, or the length.
pub fn find_column(columns: &Vec<Column>, name: &str) -> (result: usize)
    ensures
        result == column_from(columns.deep_view(), name@, 0),
        result <= columns.len(),
{
    let mut i: usize = 0;
    while i < columns.len()
        invariant
            i <= columns.len(),
            column_from(columns.deep_view(), name@, 0) == column_from(columns.deep_view(), name@, i as int),
        decreases columns.len() - i,
    {
        assert(columns.deep_view()[i as int].name == columns[i as int].name@);
        if same(columns[i].name.as_str(), name) {
            return i;
        }
        i += 1;
    }
    i
}

/// The failure for a column that a table does not have.
pub open spec fn column_required(table: TableModel, column: Seq<char>) -> Outcome<()> {
    if has_column(table.columns, column) {
        Ok(())
    } else {
        Err(failure("UndefinedColumn"@, table.name + "."@ + column))
    }
}

/// Refuses a column that the table does not have.
pub fn require_column(table: &Table, column: &str) -> (result: Result<()>)
    ensures
        outcome(result) == column_required(table.deep_view(), column@),
{
    if find_column(&table.columns, column) < table.columns.len() {
        Ok(())
    } else {
        Err(err("UndefinedColumn", cat3(table.name.as_str(), ".", column).as_str()))
    }
}

/// The names of the columns.
pub open spec fn column_names_of(columns: Seq<ColumnModel>) -> Seq<Seq<char>> {
    Seq::new(columns.len(), |i: int| columns[i].name)
}

/// The names of the columns.
pub fn column_names(columns: &Vec<Column>) -> (result: Vec<String>)
    ensures
        result.deep_view() == column_names_of(columns.deep_view()),
{
    let mut result: Vec<String> = no_items();
    let mut i: usize = 0;
    let ghost goal = column_names_of(columns.deep_view());
    while i < columns.len()
        invariant
            i <= columns.len(),
            goal == column_names_of(columns.deep_view()),
            result.deep_view() == goal.take(i as int),
        decreases columns.len() - i,
    {
        add_last(&mut result, columns[i].name.clone());
        i += 1;
        assert(result.deep_view() =~= goal.take(i as int));
    }
    assert(goal.take(columns@.len() as int) =~= goal);
    result
}

/// The cell under a column's name; null where there is none.
pub open spec fn cell_of(cells: CellsModel, name: Seq<char>) -> Json {
    match get(cells, name) {
        Some(value) => value,
        None => Json::Null,
    }
}

/// The cell under a column's name; null where there is none.
pub fn cell<'a>(cells: &'a Cells, name: &str) -> (result: &'a Datum)
    ensures
        result@ == cell_of(cells@, name@),
{
    match cells.find(name) {
        Some(value) => value,
        None => &Datum::Null,
    }
}

} // verus!
