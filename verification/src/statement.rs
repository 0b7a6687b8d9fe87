//! Statements: definitions of tables, views and indexes, and the dispatch of a parsed statement.

use vstd::prelude::*;
use crate::alter::{alter_table, table_altered, with_table};
use crate::ast::{
    constraint_text, constraint_text_of, data_type, data_type_of, ident, ident_name, ident_names, names,
    statement_text, statement_text_of, table_name, table_name_of,
};
use crate::catalog::{
    find_column, has_column, no_result, table_of, AuthContext, AuthModel, Cells, CellsModel, Column,
    ColumnModel, Database, DatabaseModel, ResultModel, SqlResult, Table, TableModel,
};
use crate::columns::{
    allocate, allocated, apply_options, foreign_key, foreign_key_of, options_applied_from, plain_column,
};
use crate::depend::{
    change_schema, drop_tables, remove_dependents, schema_changed, tables_dropped, without_dependents,
};
use crate::dml::{delete, deleted, insert, inserted, update, updated};
use crate::error::{err, failure, outcome, unsupported, unsupported_failure, Outcome, Result};
use crate::eval::{eval, evaluated};
use crate::json::{group_value_views, Datum, Json};
use crate::ordmap::{del, has_key, put, OrdMap};
use crate::replica::{add_last, no_items, Replica};
use crate::rules::{decides, sample, sample_of};
use crate::scalar::{check_type_supported, truth, type_supported};
use crate::select::selected;
use crate::text::{cat2, is_listed, listed};
use crate::value::{child, flag, item, items, payload, tag, tagged};
use crate::views::ViewModel;

verus! {

broadcast use group_value_views;

// ---------------------------------------------------------------------------------------------
// CREATE TABLE
// ---------------------------------------------------------------------------------------------

/// A table before its columns are read.
pub open spec fn plain_table(id: u64, name: Seq<char>) -> TableModel {
    TableModel {
        id,
        name,
        columns: Seq::empty(),
        primary_key: Seq::empty(),
        unique: Seq::empty(),
        deferred_unique: Seq::empty(),
        foreign_keys: Seq::empty(),
        checks: Seq::empty(),
        rls_enabled: false,
        policies: Seq::empty(),
        rows: Seq::empty(),
        next_row_id: 1,
    }
}

/// The state and the table with one declared column added.
pub open spec fn column_declared(
    database: DatabaseModel,
    table: TableModel,
    def: Json,
    caller: AuthModel,
) -> Outcome<(DatabaseModel, TableModel)> {
    let name = ident_name(child(def, "name"@));
    let ty = data_type_of(child(def, "data_type"@));
    if child(def, "collation"@) !is Null {
        Err(unsupported_failure("Column collation"@))
    } else if has_column(table.columns, name) {
        Err(failure("DuplicateColumn"@, name))
    } else {
        match type_supported(ty) {
            Err(error) => Err(error),
            Ok(_) => match allocated(database) {
                Err(error) => Err(error),
                Ok((next, id)) => match options_applied_from(
                    table,
                    plain_column(id, name, ty),
                    child(def, "options"@),
                    0,
                    false,
                    caller,
                ) {
                    Err(error) => Err(error),
                    Ok((changed, column)) => if column.default is Some && (column.identity is Some
                        || column.generated is Some) {
                        Err(
                            failure(
                                "SyntaxError"@,
                                "Generated/identity columns cannot also have a DEFAULT"@,
                            ),
                        )
                    } else {
                        let last = ColumnModel {
                            nullable: column.nullable && column.identity is None,
                            ..column
                        };
                        Ok((next, TableModel { columns: changed.columns.push(last), ..changed }))
                    },
                },
            },
        }
    }
}

/// The state and the table with the columns from position `from` on added.
pub open spec fn columns_declared_from(
    database: DatabaseModel,
    table: TableModel,
    columns: Json,
    from: int,
    caller: AuthModel,
) -> Outcome<(DatabaseModel, TableModel)>
    decreases items(columns).len() - from,
{
    if from < 0 || from >= items(columns).len() {
        Ok((database, table))
    } else {
        match column_declared(database, table, items(columns)[from], caller) {
            Err(error) => Err(error),
            Ok((next, changed)) => columns_declared_from(next, changed, columns, from + 1, caller),
        }
    }
}

/// The table with one constraint added.
pub open spec fn constraint_declared(table: TableModel, constraint: Json) -> Outcome<TableModel> {
    let node = payload(constraint);
    let columns = ident_names(child(node, "columns"@));
    if tag(constraint) == "Unique"@ {
        if flag(child(node, "is_primary"@)) {
            if table.primary_key.len() > 0 {
                Err(failure("ConstraintViolation"@, "Multiple primary keys"@))
            } else {
                Ok(TableModel { primary_key: columns, ..table })
            }
        } else {
            Ok(TableModel { unique: table.unique.push(columns), ..table })
        }
    } else if tag(constraint) == "ForeignKey"@ {
        match foreign_key_of(columns, node) {
            Err(error) => Err(error),
            Ok(key) => Ok(TableModel { foreign_keys: table.foreign_keys.push(key), ..table }),
        }
    } else if tag(constraint) == "Check"@ {
        Ok(TableModel { checks: table.checks.push(child(node, "expr"@)), ..table })
    } else {
        Err(unsupported_failure("Constraint "@ + constraint_text_of(constraint)))
    }
}

/// The table with the constraints from position `from` on added.
pub open spec fn constraints_declared_from(table: TableModel, constraints: Json, from: int) -> Outcome<TableModel>
    decreases items(constraints).len() - from,
{
    if from < 0 || from >= items(constraints).len() {
        Ok(table)
    } else {
        match constraint_declared(table, items(constraints)[from]) {
            Err(error) => Err(error),
            Ok(next) => constraints_declared_from(next, constraints, from + 1),
        }
    }
}

/// The columns with those of the primary key not nullable.
pub open spec fn key_columns_required(columns: Seq<ColumnModel>, primary_key: Seq<Seq<char>>) -> Seq<ColumnModel> {
    Seq::new(
        columns.len(),
        |i: int|
            (ColumnModel {
                nullable: columns[i].nullable && !listed(primary_key, columns[i].name),
                ..columns[i]
            }),
    )
}

/// Whether a CREATE TABLE carries an unsupported modifier.
pub open spec fn table_modified(node: Json) -> bool {
    child(node, "query"@) !is Null || child(node, "like"@) !is Null || child(node, "clone"@) !is Null || flag(
        child(node, "temporary"@),
    ) || flag(child(node, "external"@)) || flag(child(node, "or_replace"@)) || flag(
        child(node, "transient"@),
    ) || child(node, "global"@) !is Null || child(node, "collation"@) !is Null || child(
        node,
        "on_commit"@,
    ) !is Null
}

/// The state and the new table of a CREATE TABLE.
pub open spec fn table_declared(database: DatabaseModel, name: Seq<char>, node: Json, caller: AuthModel) -> Outcome<
    (DatabaseModel, TableModel),
> {
    match allocated(database) {
        Err(error) => Err(error),
        Ok((first, id)) => match columns_declared_from(
            first,
            plain_table(id, name),
            child(node, "columns"@),
            0,
            caller,
        ) {
            Err(error) => Err(error),
            Ok((next, table)) => match constraints_declared_from(table, child(node, "constraints"@), 0) {
                Err(error) => Err(error),
                Ok(full) => Ok(
                    (
                        next,
                        TableModel {
                            columns: key_columns_required(full.columns, full.primary_key),
                            ..full
                        },
                    ),
                ),
            },
        },
    }
}

/// The state after CREATE TABLE.
pub open spec fn table_created(database: DatabaseModel, node: Json, caller: AuthModel) -> Outcome<
    (DatabaseModel, ResultModel),
> {
    if !caller.privileged {
        Err(failure("PrivilegeError"@, "DDL requires administrative authority"@))
    } else if table_modified(node) {
        Err(unsupported_failure("CREATE TABLE modifiers"@))
    } else {
        match table_name_of(child(node, "name"@)) {
            Err(error) => Err(error),
            Ok(name) => if has_key(database.catalog, name) {
                if flag(child(node, "if_not_exists"@)) {
                    Ok((database, no_result()))
                } else {
                    Err(failure("DuplicateTable"@, name))
                }
            } else {
                match table_declared(database, name, node, caller) {
                    Err(error) => Err(error),
                    Ok((next, table)) => match schema_changed(with_table(next, name, table)) {
                        Err(error) => Err(error),
                        Ok(last) => Ok((last, no_result())),
                    },
                }
            },
        }
    }
}

fn declare_column(database: Database, table: Table, def: &Datum, context: &AuthContext) -> (result: Result<
    (Database, Table),
>)
    ensures
        outcome(result) == column_declared(
            database.deep_view(),
            table.deep_view(),
            def@,
            context.deep_view(),
        ),
{
    if !def.child("collation").is_null() {
        return Err(unsupported("Column collation"));
    }
    let name = ident(def.child("name"));
    if find_column(&table.columns, name.as_str()) < table.columns.len() {
        return Err(err("DuplicateColumn", name.as_str()));
    }
    let ty = data_type(def.child("data_type"));
    check_type_supported(ty.as_str())?;
    let (next, id) = allocate(database)?;
    let column = Column {
        id,
        name,
        data_type: ty,
        nullable: true,
        default: None,
        identity: None,
        generated: None,
    };
    let (mut changed, mut column) = apply_options(table, column, def.child("options"), false, context)?;
    if column.default.is_some() && (column.identity.is_some() || column.generated.is_some()) {
        return Err(err("SyntaxError", "Generated/identity columns cannot also have a DEFAULT"));
    }
    if column.identity.is_some() {
        column.nullable = false;
    }
    add_last(&mut changed.columns, column);
    Ok((next, changed))
}

fn declare_columns(start: Database, start_table: Table, columns: &Datum, context: &AuthContext) -> (result: Result<
    (Database, Table),
>)
    ensures
        outcome(result) == columns_declared_from(
            start.deep_view(),
            start_table.deep_view(),
            columns@,
            0,
            context.deep_view(),
        ),
{
    let ghost first = (start.deep_view(), start_table.deep_view());
    let mut state: (Database, Table) = (start, start_table);
    let count: usize = columns.count();
    let mut i: usize = 0;
    while i < count
        invariant
            i <= count == items(columns@).len(),
            first == (start.deep_view(), start_table.deep_view()),
            columns_declared_from(first.0, first.1, columns@, 0, context.deep_view())
                == columns_declared_from(
                state.0.deep_view(),
                state.1.deep_view(),
                columns@,
                i as int,
                context.deep_view(),
            ),
        decreases count - i,
    {
        let (database, table) = state;
        state = declare_column(database, table, columns.item(i), context)?;
        i += 1;
    }
    Ok(state)
}

fn declare_constraint(table: Table, constraint: &Datum) -> (result: Result<Table>)
    ensures
        outcome(result) == constraint_declared(table.deep_view(), constraint@),
{
    let node = constraint.payload();
    let columns = names(node.child("columns"));
    let mut table = table;
    if constraint.is("Unique") {
        if node.child("is_primary").flag() {
            if table.primary_key.len() > 0 {
                return Err(err("ConstraintViolation", "Multiple primary keys"));
            }
            table.primary_key = columns;
        } else {
            add_last(&mut table.unique, columns);
        }
    } else if constraint.is("ForeignKey") {
        let key = foreign_key(columns, node)?;
        add_last(&mut table.foreign_keys, key);
    } else if constraint.is("Check") {
        add_last(&mut table.checks, node.child("expr").copied());
    } else {
        return Err(unsupported(cat2("Constraint ", constraint_text(constraint).as_str()).as_str()));
    }
    Ok(table)
}

fn declare_constraints(start: Table, constraints: &Datum) -> (result: Result<Table>)
    ensures
        outcome(result) == constraints_declared_from(start.deep_view(), constraints@, 0),
{
    let ghost first = start.deep_view();
    let mut table = start;
    let count: usize = constraints.count();
    let mut i: usize = 0;
    while i < count
        invariant
            i <= count == items(constraints@).len(),
            first == start.deep_view(),
            constraints_declared_from(first, constraints@, 0) == constraints_declared_from(
                table.deep_view(),
                constraints@,
                i as int,
            ),
        decreases count - i,
    {
        table = declare_constraint(table, constraints.item(i))?;
        i += 1;
    }
    Ok(table)
}

fn require_key_columns(columns: &Vec<Column>, primary_key: &Vec<String>) -> (result: Vec<Column>)
    ensures
        result.deep_view() == key_columns_required(columns.deep_view(), primary_key.deep_view()),
{
    let mut result: Vec<Column> = no_items();
    let ghost goal = key_columns_required(columns.deep_view(), primary_key.deep_view());
    let mut i: usize = 0;
    while i < columns.len()
        invariant
            i <= columns.len(),
            goal == key_columns_required(columns.deep_view(), primary_key.deep_view()),
            result.deep_view() == goal.take(i as int),
        decreases columns.len() - i,
    {
        let mut next = columns[i].replica();
        if is_listed(primary_key, next.name.as_str()) {
            next.nullable = false;
        }
        assert(next.deep_view() == goal[i as int]);
        add_last(&mut result, next);
        i += 1;
        assert(result.deep_view() =~= goal.take(i as int));
    }
    assert(goal.take(columns@.len() as int) =~= goal);
    result
}

fn declare_table(database: Database, name: &String, node: &Datum, context: &AuthContext) -> (result: Result<
    (Database, Table),
>)
    ensures
        outcome(result) == table_declared(
            database.deep_view(),
            name@,
            node@,
            context.deep_view(),
        ),
{
    let (first, id) = allocate(database)?;
    let table = Table {
        id,
        name: name.clone(),
        columns: no_items(),
        primary_key: no_items(),
        unique: no_items(),
        deferred_unique: OrdMap::new(),
        foreign_keys: no_items(),
        checks: no_items(),
        rls_enabled: false,
        policies: no_items(),
        rows: OrdMap::new(),
        next_row_id: 1,
    };
    let (next, table) = declare_columns(first, table, node.child("columns"), context)?;
    let mut full = declare_constraints(table, node.child("constraints"))?;
    full.columns = require_key_columns(&full.columns, &full.primary_key);
    Ok((next, full))
}

fn is_table_modified(node: &Datum) -> (result: bool)
    ensures
        result == table_modified(node@),
{
    !node.child("query").is_null() || !node.child("like").is_null() || !node.child("clone").is_null()
        || node.child("temporary").flag() || node.child("external").flag() || node.child("or_replace").flag()
        || node.child("transient").flag() || !node.child("global").is_null() || !node.child(
        "collation",
    ).is_null() || !node.child("on_commit").is_null()
}

fn create_table(database: Database, node: &Datum, context: &AuthContext) -> (result: Result<(Database, SqlResult)>)
    ensures
        outcome(result) == table_created(database.deep_view(), node@, context.deep_view()),
{
    if !context.privileged {
        return Err(err("PrivilegeError", "DDL requires administrative authority"));
    }
    if is_table_modified(node) {
        return Err(unsupported("CREATE TABLE modifiers"));
    }
    let name = table_name(node.child("name"))?;
    if database.catalog.contains(&name) {
        return if node.child("if_not_exists").flag() {
            Ok((database, SqlResult::default()))
        } else {
            Err(err("DuplicateTable", name.as_str()))
        };
    }
    let (mut next, table) = declare_table(database, &name, node, context)?;
    next.catalog.insert(name, table);
    let last = change_schema(next)?;
    Ok((last, SqlResult::default()))
}

// ---------------------------------------------------------------------------------------------
// Views and indexes
// ---------------------------------------------------------------------------------------------

/// The state after CREATE VIEW.
pub open spec fn view_created(database: DatabaseModel, node: Json, caller: AuthModel) -> Outcome<
    (DatabaseModel, ResultModel),
> {
    if !caller.privileged {
        Err(failure("PrivilegeError"@, "View DDL requires administrative authority"@))
    } else if items(child(node, "columns"@)).len() > 0 || flag(child(node, "temporary"@)) || items(
        child(node, "with_options"@),
    ).len() > 0 || items(child(node, "cluster_by"@)).len() > 0 || flag(
        child(node, "with_no_schema_binding"@),
    ) {
        Err(unsupported_failure("CREATE VIEW modifiers"@))
    } else {
        match table_name_of(child(node, "name"@)) {
            Err(error) => Err(error),
            Ok(name) => if has_key(database.catalog, name) {
                Err(failure("DuplicateTable"@, name))
            } else if has_key(database.views, name) && !flag(child(node, "or_replace"@)) {
                if flag(child(node, "if_not_exists"@)) {
                    Ok((database, no_result()))
                } else {
                    Err(failure("DuplicateTable"@, name))
                }
            } else {
                let view = ViewModel {
                    sql: statement_text_of(tagged("Query"@, child(node, "query"@))),
                    materialized: flag(child(node, "materialized"@)),
                };
                match schema_changed(DatabaseModel { views: put(database.views, name, view), ..database }) {
                    Err(error) => Err(error),
                    Ok(last) => Ok((last, no_result())),
                }
            },
        }
    }
}

/// The state without the views named from position `from` on.
pub open spec fn views_dropped_from(
    database: DatabaseModel,
    names: Json,
    from: int,
    if_exists: bool,
    cascade: bool,
) -> Outcome<DatabaseModel>
    decreases items(names).len() - from,
{
    if from < 0 || from >= items(names).len() {
        Ok(database)
    } else {
        match table_name_of(items(names)[from]) {
            Err(error) => Err(error),
            Ok(name) => match without_dependents(database, name, cascade) {
                Err(error) => Err(error),
                Ok(next) => if !has_key(next.views, name) && !if_exists {
                    Err(failure("UndefinedTable"@, name))
                } else {
                    views_dropped_from(
                        DatabaseModel { views: del(next.views, name), ..next },
                        names,
                        from + 1,
                        if_exists,
                        cascade,
                    )
                },
            },
        }
    }
}

/// The state after DROP VIEW.
pub open spec fn views_dropped(database: DatabaseModel, node: Json, caller: AuthModel) -> Outcome<
    (DatabaseModel, ResultModel),
> {
    if !caller.privileged {
        Err(failure("PrivilegeError"@, "View DDL requires administrative authority"@))
    } else {
        match views_dropped_from(
            database,
            child(node, "names"@),
            0,
            flag(child(node, "if_exists"@)),
            flag(child(node, "cascade"@)),
        ) {
            Err(error) => Err(error),
            Ok(next) => match schema_changed(next) {
                Err(error) => Err(error),
                Ok(last) => Ok((last, no_result())),
            },
        }
    }
}

/// Whether the indexed expressions from position `from` on can be evaluated.
pub open spec fn index_evaluates_from(columns: Json, from: int, row: CellsModel, caller: AuthModel) -> Outcome<()>
    decreases items(columns).len() - from,
{
    if from < 0 || from >= items(columns).len() {
        Ok(())
    } else {
        match evaluated(child(items(columns)[from], "expr"@), row, caller) {
            Err(error) => Err(error),
            Ok(_) => index_evaluates_from(columns, from + 1, row, caller),
        }
    }
}

/// What CREATE INDEX returns; an index changes nothing that a query can see.
pub open spec fn index_created(database: DatabaseModel, node: Json, caller: AuthModel) -> Outcome<
    (DatabaseModel, ResultModel),
> {
    if !caller.privileged {
        Err(failure("PrivilegeError"@, "Index DDL requires administrative authority"@))
    } else if flag(child(node, "unique"@)) {
        Err(unsupported_failure("CREATE UNIQUE INDEX; use a UNIQUE table constraint"@))
    } else {
        match table_name_of(child(node, "table_name"@)) {
            Err(error) => Err(error),
            Ok(name) => match table_of(database, name) {
                Err(error) => Err(error),
                Ok(table) => match index_evaluates_from(
                    child(node, "columns"@),
                    0,
                    sample_of(table.columns),
                    caller,
                ) {
                    Err(error) => Err(error),
                    Ok(_) => if child(node, "predicate"@) is Null {
                        Ok((database, no_result()))
                    } else {
                        match decides(child(node, "predicate"@), sample_of(table.columns), caller) {
                            Err(error) => Err(error),
                            Ok(_) => Ok((database, no_result())),
                        }
                    },
                },
            },
        }
    }
}

fn create_view(database: Database, node: &Datum, context: &AuthContext) -> (result: Result<(Database, SqlResult)>)
    ensures
        outcome(result) == view_created(database.deep_view(), node@, context.deep_view()),
{
    if !context.privileged {
        return Err(err("PrivilegeError", "View DDL requires administrative authority"));
    }
    if node.child("columns").count() > 0 || node.child("temporary").flag() || node.child("with_options").count()
        > 0 || node.child("cluster_by").count() > 0 || node.child("with_no_schema_binding").flag() {
        return Err(unsupported("CREATE VIEW modifiers"));
    }
    let name = table_name(node.child("name"))?;
    if database.catalog.contains(&name) {
        return Err(err("DuplicateTable", name.as_str()));
    }
    if database.views.contains(&name) && !node.child("or_replace").flag() {
        return if node.child("if_not_exists").flag() {
            Ok((database, SqlResult::default()))
        } else {
            Err(err("DuplicateTable", name.as_str()))
        };
    }
    let sql = statement_text(&Datum::tagged("Query", node.child("query").copied()));
    let view = crate::views::View { sql, materialized: node.child("materialized").flag() };
    let mut database = database;
    database.views.insert(name, view);
    let last = change_schema(database)?;
    Ok((last, SqlResult::default()))
}

fn drop_views(start: Database, node: &Datum, context: &AuthContext) -> (result: Result<(Database, SqlResult)>)
    ensures
        outcome(result) == views_dropped(start.deep_view(), node@, context.deep_view()),
{
    if !context.privileged {
        return Err(err("PrivilegeError", "View DDL requires administrative authority"));
    }
    let ghost first = start.deep_view();
    let ghost caller = context.deep_view();
    let list = node.child("names");
    let if_exists = node.child("if_exists").flag();
    let cascade = node.child("cascade").flag();
    let mut database = start;
    let count: usize = list.count();
    let mut i: usize = 0;
    while i < count
        invariant
            i <= count == items(list@).len(),
            first == start.deep_view(),
            caller == context.deep_view(),
            caller.privileged,
            list@ == child(node@, "names"@),
            if_exists == flag(child(node@, "if_exists"@)),
            cascade == flag(child(node@, "cascade"@)),
            views_dropped_from(first, list@, 0, if_exists, cascade) == views_dropped_from(
                database.deep_view(),
                list@,
                i as int,
                if_exists,
                cascade,
            ),
        decreases count - i,
    {
        let name = table_name(list.item(i))?;
        let mut next = remove_dependents(database, name.as_str(), cascade)?;
        if next.views.remove(&name).is_none() && !if_exists {
            return Err(err("UndefinedTable", name.as_str()));
        }
        database = next;
        i += 1;
    }
    let last = change_schema(database)?;
    Ok((last, SqlResult::default()))
}

fn create_index(database: Database, node: &Datum, context: &AuthContext) -> (result: Result<(Database, SqlResult)>)
    ensures
        outcome(result) == index_created(database.deep_view(), node@, context.deep_view()),
{
    if !context.privileged {
        return Err(err("PrivilegeError", "Index DDL requires administrative authority"));
    }
    if node.child("unique").flag() {
        return Err(unsupported("CREATE UNIQUE INDEX; use a UNIQUE table constraint"));
    }
    let name = table_name(node.child("table_name"))?;
    let row = sample(&database.table(name.as_str())?.columns);
    let columns = node.child("columns");
    check_indexed(columns, &row, context)?;
    if !node.child("predicate").is_null() {
        let value = eval(node.child("predicate"), &row, context)?;
        let _known = truth(&value)?;
    }
    Ok((database, SqlResult::default()))
}

fn check_indexed(columns: &Datum, row: &Cells, context: &AuthContext) -> (result: Result<()>)
    ensures
        outcome(result) == index_evaluates_from(columns@, 0, row@, context.deep_view()),
{
    let count: usize = columns.count();
    let mut i: usize = 0;
    while i < count
        invariant
            i <= count == items(columns@).len(),
            index_evaluates_from(columns@, 0, row@, context.deep_view()) == index_evaluates_from(
                columns@,
                i as int,
                row@,
                context.deep_view(),
            ),
        decreases count - i,
    {
        let _value = eval(columns.item(i).child("expr"), row, context)?;
        i += 1;
    }
    Ok(())
}

// ---------------------------------------------------------------------------------------------
// Dispatch
// ---------------------------------------------------------------------------------------------

/// The state and the result after one statement.
pub open spec fn statement_executed(database: DatabaseModel, statement: Json, caller: AuthModel) -> Outcome<
    (DatabaseModel, ResultModel),
> {
    let node = payload(statement);
    let kind = tag(child(node, "object_type"@));
    if tag(statement) == "AlterTable"@ {
        if flag(child(node, "only"@)) {
            Err(unsupported_failure("ALTER TABLE ONLY"@))
        } else {
            match table_name_of(child(node, "name"@)) {
                Err(error) => Err(error),
                Ok(name) => table_altered(
                    database,
                    name,
                    flag(child(node, "if_exists"@)),
                    child(node, "operations"@),
                    caller,
                ),
            }
        }
    } else if tag(statement) == "Drop"@ && kind == "Table"@ {
        if flag(child(node, "temporary"@)) || flag(child(node, "purge"@)) {
            Err(unsupported_failure("DROP TABLE modifiers"@))
        } else {
            tables_dropped(
                database,
                child(node, "names"@),
                flag(child(node, "if_exists"@)),
                flag(child(node, "cascade"@)),
                caller,
            )
        }
    } else if tag(statement) == "CreateView"@ {
        view_created(database, node, caller)
    } else if tag(statement) == "Drop"@ && kind == "View"@ {
        views_dropped(database, node, caller)
    } else if tag(statement) == "CreateIndex"@ {
        index_created(database, node, caller)
    } else if tag(statement) == "CreateTable"@ {
        table_created(database, node, caller)
    } else if tag(statement) == "Insert"@ {
        inserted(database, node, caller)
    } else if tag(statement) == "Update"@ {
        updated(database, node, caller)
    } else if tag(statement) == "Delete"@ {
        deleted(database, node, caller)
    } else if tag(statement) == "Query"@ {
        match selected(database, node, caller) {
            Err(error) => Err(error),
            Ok(result) => Ok((database, result)),
        }
    } else {
        Err(unsupported_failure("Statement "@ + statement_text_of(statement)))
    }
}

/// Executes one parsed statement.
pub fn execute_statement(database: Database, statement: &Datum, context: &AuthContext) -> (result: Result<
    (Database, SqlResult),
>)
    ensures
        outcome(result) == statement_executed(
            database.deep_view(),
            statement@,
            context.deep_view(),
        ),
{
    let node = statement.payload();
    if statement.is("AlterTable") {
        if node.child("only").flag() {
            return Err(unsupported("ALTER TABLE ONLY"));
        }
        let name = table_name(node.child("name"))?;
        alter_table(
            database,
            name.as_str(),
            node.child("if_exists").flag(),
            node.child("operations"),
            context,
        )
    } else if statement.is("Drop") && node.child("object_type").is("Table") {
        if node.child("temporary").flag() || node.child("purge").flag() {
            return Err(unsupported("DROP TABLE modifiers"));
        }
        drop_tables(
            database,
            node.child("names"),
            node.child("if_exists").flag(),
            node.child("cascade").flag(),
            context,
        )
    } else if statement.is("CreateView") {
        create_view(database, node, context)
    } else if statement.is("Drop") && node.child("object_type").is("View") {
        drop_views(database, node, context)
    } else if statement.is("CreateIndex") {
        create_index(database, node, context)
    } else if statement.is("CreateTable") {
        create_table(database, node, context)
    } else if statement.is("Insert") {
        insert(database, node, context)
    } else if statement.is("Update") {
        update(database, node, context)
    } else if statement.is("Delete") {
        delete(database, node, context)
    } else if statement.is("Query") {
        let result = database.select(node, context)?;
        Ok((database, result))
    } else {
        Err(unsupported(cat2("Statement ", statement_text(statement).as_str()).as_str()))
    }
}

} // verus!
