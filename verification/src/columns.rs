//! Declarations of columns.

use vstd::prelude::*;
use crate::ast::{
    column_option_text, column_option_text_of, ident_names, names, table_name, table_name_of,
};
use crate::catalog::{
    AuthContext, AuthModel, Column, ColumnModel, Database, DatabaseModel, ForeignKey, ForeignKeyModel,
    ReferentialAction, Table, TableModel,
};
use crate::depend::{count_up, next_count};
use crate::error::{err, failure, outcome, unsupported, unsupported_failure, Outcome, Result};
use crate::json::{group_value_views, Datum, Json};
use crate::replica::{add_last, one_item};
use crate::rules::{configure_generated, generated_column};
use crate::text::cat2;
use crate::value::{child, flag, item, items, payload, tag};

verus! {

broadcast use group_value_views;

/// The referential action of a node; none for null.
pub open spec fn action_of(node: Json) -> Option<ReferentialAction> {
    if tag(node) == "Restrict"@ {
        Some(ReferentialAction::Restrict)
    } else if tag(node) == "Cascade"@ {
        Some(ReferentialAction::Cascade)
    } else if tag(node) == "SetNull"@ {
        Some(ReferentialAction::SetNull)
    } else if tag(node) == "NoAction"@ {
        Some(ReferentialAction::NoAction)
    } else if tag(node) == "SetDefault"@ {
        Some(ReferentialAction::SetDefault)
    } else {
        None
    }
}

/// The foreign key from these columns that a node declares.
pub open spec fn foreign_key_of(columns: Seq<Seq<char>>, node: Json) -> Outcome<ForeignKeyModel> {
    match table_name_of(child(node, "foreign_table"@)) {
        Err(error) => Err(error),
        Ok(foreign_table) => Ok(
            ForeignKeyModel {
                columns,
                foreign_table,
                referred_columns: ident_names(child(node, "referred_columns"@)),
                on_delete: action_of(child(node, "on_delete"@)),
                on_update: action_of(child(node, "on_update"@)),
                deferred: false,
            },
        ),
    }
}

/// A column before its options are read.
pub open spec fn plain_column(id: u64, name: Seq<char>, data_type: Seq<char>) -> ColumnModel {
    ColumnModel { id, name, data_type, nullable: true, default: None, identity: None, generated: None }
}

/// The table and the column with one option of the column's declaration applied; `adding` tells a
/// column added to a table from one declared with it.
pub open spec fn option_applied(
    table: TableModel,
    column: ColumnModel,
    option: Json,
    adding: bool,
    caller: AuthModel,
) -> Outcome<(TableModel, ColumnModel)> {
    let node = payload(option);
    if tag(option) == "Null"@ {
        Ok((table, ColumnModel { nullable: true, ..column }))
    } else if tag(option) == "NotNull"@ {
        Ok((table, ColumnModel { nullable: false, ..column }))
    } else if tag(option) == "Default"@ {
        Ok((table, ColumnModel { default: Some(node), ..column }))
    } else if tag(option) == "Unique"@ && !flag(child(node, "is_primary"@)) {
        Ok((TableModel { unique: table.unique.push(seq![column.name]), ..table }, column))
    } else if tag(option) == "Unique"@ && !adding {
        if table.primary_key.len() > 0 {
            Err(failure("ConstraintViolation"@, "Multiple primary keys"@))
        } else {
            Ok(
                (
                    TableModel { primary_key: seq![column.name], ..table },
                    ColumnModel { nullable: false, ..column },
                ),
            )
        }
    } else if tag(option) == "ForeignKey"@ {
        match foreign_key_of(seq![column.name], node) {
            Err(error) => Err(error),
            Ok(key) => Ok((TableModel { foreign_keys: table.foreign_keys.push(key), ..table }, column)),
        }
    } else if tag(option) == "Check"@ {
        Ok((TableModel { checks: table.checks.push(node), ..table }, column))
    } else if tag(option) == "Generated"@ {
        match generated_column(column, node, caller) {
            Err(error) => Err(error),
            Ok(changed) => Ok((table, changed)),
        }
    } else if adding {
        Err(unsupported_failure("ADD COLUMN option"@))
    } else {
        Err(unsupported_failure("Column option "@ + column_option_text_of(option)))
    }
}

/// The table and the column with the options from position `from` on applied.
pub open spec fn options_applied_from(
    table: TableModel,
    column: ColumnModel,
    options: Json,
    from: int,
    adding: bool,
    caller: AuthModel,
) -> Outcome<(TableModel, ColumnModel)>
    decreases items(options).len() - from,
{
    if from < 0 || from >= items(options).len() {
        Ok((table, column))
    } else {
        match option_applied(table, column, child(items(options)[from], "option"@), adding, caller) {
            Err(error) => Err(error),
            Ok((next_table, next_column)) => options_applied_from(
                next_table,
                next_column,
                options,
                from + 1,
                adding,
                caller,
            ),
        }
    }
}

/// The next object identity and the state after handing it out.
pub open spec fn allocated(database: DatabaseModel) -> Outcome<(DatabaseModel, u64)> {
    match next_count(database.next_object_id) {
        Err(error) => Err(error),
        Ok(next) => Ok((DatabaseModel { next_object_id: next, ..database }, database.next_object_id)),
    }
}

/// Identities are handed out once: the next one is always greater.
pub proof fn identities_increase(database: DatabaseModel)
    ensures
        allocated(database) matches Ok((next, id)) ==> id == database.next_object_id && id
            < next.next_object_id && next.catalog == database.catalog,
{
}

/// The referential action of a node; none for null.
pub fn action(node: &Datum) -> (result: Option<ReferentialAction>)
    ensures
        result == action_of(node@),
{
    if node.is("Restrict") {
        Some(ReferentialAction::Restrict)
    } else if node.is("Cascade") {
        Some(ReferentialAction::Cascade)
    } else if node.is("SetNull") {
        Some(ReferentialAction::SetNull)
    } else if node.is("NoAction") {
        Some(ReferentialAction::NoAction)
    } else if node.is("SetDefault") {
        Some(ReferentialAction::SetDefault)
    } else {
        None
    }
}

/// The foreign key from these columns that a node declares.
pub fn foreign_key(columns: Vec<String>, node: &Datum) -> (result: Result<ForeignKey>)
    ensures
        outcome(result) == foreign_key_of(columns.deep_view(), node@),
{
    let foreign_table = table_name(node.child("foreign_table"))?;
    Ok(
        ForeignKey {
            columns,
            foreign_table,
            referred_columns: names(node.child("referred_columns")),
            on_delete: action(node.child("on_delete")),
            on_update: action(node.child("on_update")),
            deferred: false,
        },
    )
}

fn apply_option(table: Table, column: Column, option: &Datum, adding: bool, context: &AuthContext) -> (result:
    Result<(Table, Column)>)
    ensures
        outcome(result) == option_applied(
            table.deep_view(),
            column.deep_view(),
            option@,
            adding,
            context.deep_view(),
        ),
{
    let node = option.payload();
    let mut table = table;
    let mut column = column;
    if option.is("Null") {
        column.nullable = true;
    } else if option.is("NotNull") {
        column.nullable = false;
    } else if option.is("Default") {
        column.default = Some(node.copied());
    } else if option.is("Unique") && !node.child("is_primary").flag() {
        add_last(&mut table.unique, one_item(column.name.clone()));
    } else if option.is("Unique") && !adding {
        if table.primary_key.len() > 0 {
            return Err(err("ConstraintViolation", "Multiple primary keys"));
        }
        table.primary_key = one_item(column.name.clone());
        column.nullable = false;
    } else if option.is("ForeignKey") {
        let key = foreign_key(one_item(column.name.clone()), node)?;
        add_last(&mut table.foreign_keys, key);
    } else if option.is("Check") {
        add_last(&mut table.checks, node.copied());
    } else if option.is("Generated") {
        column = configure_generated(column, node, context)?;
    } else if adding {
        return Err(unsupported("ADD COLUMN option"));
    } else {
        return Err(unsupported(cat2("Column option ", column_option_text(option).as_str()).as_str()));
    }
    Ok((table, column))
}

/// Applies the options of a column's declaration.
pub fn apply_options(
    table: Table,
    column: Column,
    options: &Datum,
    adding: bool,
    context: &AuthContext,
) -> (result: Result<(Table, Column)>)
    ensures
        outcome(result) == options_applied_from(
            table.deep_view(),
            column.deep_view(),
            options@,
            0,
            adding,
            context.deep_view(),
        ),
{
    let ghost first = (table.deep_view(), column.deep_view());
    let mut done: (Table, Column) = (table, column);
    let count: usize = options.count();
    let mut i: usize = 0;
    while i < count
        invariant
            i <= count == items(options@).len(),
            first == (table.deep_view(), column.deep_view()),
            options_applied_from(first.0, first.1, options@, 0, adding, context.deep_view())
                == options_applied_from(
                done.0.deep_view(),
                done.1.deep_view(),
                options@,
                i as int,
                adding,
                context.deep_view(),
            ),
        decreases count - i,
    {
        let (current_table, current_column) = done;
        done = apply_option(
            current_table,
            current_column,
            options.item(i).child("option"),
            adding,
            context,
        )?;
        i += 1;
    }
    Ok(done)
}

/// Hands out the next object identity.
pub fn allocate(database: Database) -> (result: Result<(Database, u64)>)
    ensures
        outcome(result) == allocated(database.deep_view()),
{
    let id: u64 = database.next_object_id;
    let next: u64 = count_up(id)?;
    let mut database = database;
    database.next_object_id = next;
    Ok((database, id))
}

} // verus!
