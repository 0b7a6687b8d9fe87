//! ALTER TABLE.

use vstd::prelude::*;
use crate::ast::{
    data_type, data_type_of, expression_uses, ident, ident_name, rename_expression, renamed, table_name,
    table_name_of, uses, Expr,
};
use crate::catalog::{
    column_from, column_required, find_column, has_column, no_result, require_column, table_of, AuthContext,
    AuthModel, CellsModel, Column, ColumnModel, Database, DatabaseModel, ForeignKey, ForeignKeyModel, Policy,
    PolicyModel, ResultModel, Row, RowModel, SqlResult, StableId, Table, TableModel,
};
use crate::columns::{
    allocate, allocated, apply_options, options_applied_from, plain_column,
};
use crate::depend::{
    change_schema, count_up, dependents_of, next_count, remove_dependents, schema_changed,
    without_dependents,
};
use crate::error::{err, failure, outcome, unsupported, unsupported_failure, Outcome, Result};
use crate::eval::{eval, evaluated};
use crate::json::{group_value_views, Datum, Json};
use crate::ordmap::{del, get, has_key, put, OrdMap};
use crate::replica::{add_last, no_items, Replica};
use crate::rules::{default_of, default_value, identity_number, identity_value};
use crate::scalar::{check_type_supported, check_value, type_supported, value_checked};
use crate::text::{cat5, is_listed, listed, owned, same};
use crate::value::{child, flag, item, items, payload, tag};

verus! {

broadcast use group_value_views;

/// The items from position `from` on that pass a test, after those already kept.
pub open spec fn kept_from<A>(list: Seq<A>, from: int, kept: Seq<A>, keep: spec_fn(A) -> bool) -> Seq<A>
    decreases list.len() - from,
{
    if from < 0 || from >= list.len() {
        kept
    } else if keep(list[from]) {
        kept_from(list, from + 1, kept.push(list[from]), keep)
    } else {
        kept_from(list, from + 1, kept, keep)
    }
}

/// The items that pass a test.
pub open spec fn kept<A>(list: Seq<A>, keep: spec_fn(A) -> bool) -> Seq<A> {
    kept_from(list, 0, Seq::empty(), keep)
}

/// What an optional change stands for.
pub open spec fn change_view(result: Result<Option<(Database, Table)>>) -> Outcome<
    Option<(DatabaseModel, TableModel)>,
> {
    match result {
        Ok(Some((database, table))) => Ok(Some((database.deep_view(), table.deep_view()))),
        Ok(None) => Ok(None),
        Err(error) => Err(error@),
    }
}

// ---------------------------------------------------------------------------------------------
// ADD COLUMN
// ---------------------------------------------------------------------------------------------

/// The value that an existing row gets in a new column.
pub open spec fn initial_value(column: ColumnModel, row: RowModel, caller: AuthModel) -> Outcome<Json> {
    match column.identity {
        Some(identity) => identity_number(identity, row.id),
        None => match column.generated {
            Some(expr) => evaluated(expr, row.values, caller),
            None => default_of(column.default, caller),
        },
    }
}

/// A row with a new column filled in.
pub open spec fn row_filled(column: ColumnModel, row: RowModel, caller: AuthModel) -> Outcome<RowModel> {
    match initial_value(column, row, caller) {
        Err(error) => Err(error),
        Ok(value) => match value_checked(column.name, column.data_type, column.nullable, value) {
            Err(error) => Err(error),
            Ok(_) => match next_count(row.version) {
                Err(error) => Err(error),
                Ok(version) => Ok(
                    RowModel { version, values: put(row.values, column.name, value), ..row },
                ),
            },
        },
    }
}

/// The rows with a new column filled in from position `from` on.
pub open spec fn rows_filled_from(
    rows: Seq<(u64, RowModel)>,
    from: int,
    column: ColumnModel,
    caller: AuthModel,
) -> Outcome<Seq<(u64, RowModel)>>
    decreases rows.len() - from,
{
    if from < 0 || from >= rows.len() {
        Ok(rows)
    } else {
        match row_filled(column, rows[from].1, caller) {
            Err(error) => Err(error),
            Ok(row) => rows_filled_from(
                rows.update(from, (rows[from].0, row)),
                from + 1,
                column,
                caller,
            ),
        }
    }
}

/// The state and the table after ADD COLUMN; nothing where the column may exist and does.
pub open spec fn column_added(
    database: DatabaseModel,
    table: TableModel,
    node: Json,
    caller: AuthModel,
) -> Outcome<Option<(DatabaseModel, TableModel)>> {
    let def = child(node, "column_def"@);
    let name = ident_name(child(def, "name"@));
    let ty = data_type_of(child(def, "data_type"@));
    if has_column(table.columns, name) {
        if flag(child(node, "if_not_exists"@)) {
            Ok(None)
        } else {
            Err(failure("DuplicateColumn"@, name))
        }
    } else if child(def, "collation"@) !is Null {
        Err(unsupported_failure("Column collation"@))
    } else {
        match type_supported(ty) {
            Err(error) => Err(error),
            Ok(_) => match allocated(database) {
                Err(error) => Err(error),
                Ok((next, id)) => match options_applied_from(
                    table,
                    plain_column(id, name, ty),
                    child(def, "options"@),
                    0,
                    true,
                    caller,
                ) {
                    Err(error) => Err(error),
                    Ok((changed, column)) => match rows_filled_from(
                        changed.rows,
                        0,
                        column,
                        caller,
                    ) {
                        Err(error) => Err(error),
                        Ok(rows) => Ok(
                            Some(
                                (
                                    next,
                                    TableModel {
                                        rows,
                                        columns: changed.columns.push(column),
                                        ..changed
                                    },
                                ),
                            ),
                        ),
                    },
                },
            },
        }
    }
}

fn fill_row(column: &Column, row: &Row, context: &AuthContext) -> (result: Result<Row>)
    ensures
        outcome(result) == row_filled(column.deep_view(), row.deep_view(), context.deep_view()),
{
    let value = match &column.identity {
        Some(identity) => identity_value(identity, row.id)?,
        None => match &column.generated {
            Some(expr) => eval(expr, &row.values, context)?,
            None => default_value(&column.default, context)?,
        },
    };
    check_value(column, &value)?;
    let version: u64 = count_up(row.version)?;
    let mut values = row.values.replica();
    values.insert(column.name.clone(), value);
    Ok(Row { id: row.id, version, values })
}

fn fill_rows(start: OrdMap<StableId, Row>, column: &Column, context: &AuthContext) -> (result: Result<
    OrdMap<StableId, Row>,
>)
    ensures
        outcome(result) == rows_filled_from(start@, 0, column.deep_view(), context.deep_view()),
{
    let ghost first = start@;
    let mut rows = start;
    let mut i: usize = 0;
    while i < rows.len()
        invariant
            i <= rows@.len(),
            first == start@,
            rows_filled_from(first, 0, column.deep_view(), context.deep_view()) == rows_filled_from(
                rows@,
                i as int,
                column.deep_view(),
                context.deep_view(),
            ),
        decreases rows@.len() - i,
    {
        let row = fill_row(column, rows.value_at(i), context)?;
        rows.set_at(i, row);
        i += 1;
    }
    Ok(rows)
}

fn add_column(database: Database, table: Table, node: &Datum, context: &AuthContext) -> (result: Result<
    Option<(Database, Table)>,
>)
    ensures
        change_view(result) == column_added(
            database.deep_view(),
            table.deep_view(),
            node@,
            context.deep_view(),
        ),
{
    let def = node.child("column_def");
    let name = ident(def.child("name"));
    if find_column(&table.columns, name.as_str()) < table.columns.len() {
        return if node.child("if_not_exists").flag() {
            Ok(None)
        } else {
            Err(err("DuplicateColumn", name.as_str()))
        };
    }
    if !def.child("collation").is_null() {
        return Err(unsupported("Column collation"));
    }
    let ty = data_type(def.child("data_type"));
    check_type_supported(ty.as_str())?;
    let (next, id) = allocate(database)?;
    let column = Column {
        id,
        name,
        data_type: ty,
        nullable: true,
        default: None,
        identity: None,
        generated: None,
    };
    let (mut changed, column) = apply_options(table, column, def.child("options"), true, context)?;
    changed.rows = fill_rows(changed.rows, &column, context)?;
    add_last(&mut changed.columns, column);
    Ok(Some((next, changed)))
}

// ---------------------------------------------------------------------------------------------
// RENAME COLUMN
// ---------------------------------------------------------------------------------------------

/// The name after a renaming.
pub open spec fn swapped(name: Seq<char>, from: Seq<char>, to: Seq<char>) -> Seq<char> {
    if name == from {
        to
    } else {
        name
    }
}

/// The names after a renaming.
pub open spec fn swapped_names(list: Seq<Seq<char>>, from: Seq<char>, to: Seq<char>) -> Seq<Seq<char>> {
    Seq::new(list.len(), |i: int| swapped(list[i], from, to))
}

pub open spec fn renamed_optional(expr: Option<Json>, from: Seq<char>, to: Seq<char>) -> Option<Json> {
    match expr {
        Some(tree) => Some(renamed(tree, from, to)),
        None => None,
    }
}

pub open spec fn column_renamed(column: ColumnModel, from: Seq<char>, to: Seq<char>) -> ColumnModel {
    ColumnModel {
        name: swapped(column.name, from, to),
        default: renamed_optional(column.default, from, to),
        generated: renamed_optional(column.generated, from, to),
        ..column
    }
}

pub open spec fn columns_renamed(columns: Seq<ColumnModel>, from: Seq<char>, to: Seq<char>) -> Seq<ColumnModel> {
    Seq::new(columns.len(), |i: int| column_renamed(columns[i], from, to))
}

pub open spec fn keys_renamed(unique: Seq<Seq<Seq<char>>>, from: Seq<char>, to: Seq<char>) -> Seq<Seq<Seq<char>>> {
    Seq::new(unique.len(), |i: int| swapped_names(unique[i], from, to))
}

pub open spec fn key_set_renamed_from(
    set: Seq<(Seq<Seq<char>>, ())>,
    at: int,
    done: Seq<(Seq<Seq<char>>, ())>,
    from: Seq<char>,
    to: Seq<char>,
) -> Seq<(Seq<Seq<char>>, ())>
    decreases set.len() - at,
{
    if at < 0 || at >= set.len() {
        done
    } else {
        key_set_renamed_from(set, at + 1, put(done, swapped_names(set[at].0, from, to), ()), from, to)
    }
}

/// A foreign key whose own columns are renamed.
pub open spec fn own_columns_renamed(key: ForeignKeyModel, from: Seq<char>, to: Seq<char>) -> ForeignKeyModel {
    ForeignKeyModel { columns: swapped_names(key.columns, from, to), ..key }
}

/// A foreign key whose referred columns are renamed where it refers to the table.
pub open spec fn referred_renamed(
    key: ForeignKeyModel,
    table: Seq<char>,
    from: Seq<char>,
    to: Seq<char>,
) -> ForeignKeyModel {
    if key.foreign_table == table {
        ForeignKeyModel { referred_columns: swapped_names(key.referred_columns, from, to), ..key }
    } else {
        key
    }
}

pub open spec fn all_referred_renamed(
    keys: Seq<ForeignKeyModel>,
    table: Seq<char>,
    from: Seq<char>,
    to: Seq<char>,
) -> Seq<ForeignKeyModel> {
    Seq::new(keys.len(), |i: int| referred_renamed(keys[i], table, from, to))
}

/// The foreign keys of the renamed table itself.
pub open spec fn own_keys_renamed(
    keys: Seq<ForeignKeyModel>,
    table: Seq<char>,
    from: Seq<char>,
    to: Seq<char>,
) -> Seq<ForeignKeyModel> {
    Seq::new(
        keys.len(),
        |i: int| referred_renamed(own_columns_renamed(keys[i], from, to), table, from, to),
    )
}

pub open spec fn exprs_renamed(exprs: Seq<Json>, from: Seq<char>, to: Seq<char>) -> Seq<Json> {
    Seq::new(exprs.len(), |i: int| renamed(exprs[i], from, to))
}

pub open spec fn policies_renamed(policies: Seq<PolicyModel>, from: Seq<char>, to: Seq<char>) -> Seq<PolicyModel> {
    Seq::new(
        policies.len(),
        |i: int|
            (PolicyModel {
                using: renamed_optional(policies[i].using, from, to),
                check: renamed_optional(policies[i].check, from, to),
                ..policies[i]
            }),
    )
}

/// The cells with one moved to another name.
pub open spec fn cell_moved(cells: CellsModel, from: Seq<char>, to: Seq<char>) -> CellsModel {
    put(
        del(cells, from),
        to,
        match get(cells, from) {
            Some(value) => value,
            None => Json::Null,
        },
    )
}

pub open spec fn rows_renamed(rows: Seq<(u64, RowModel)>, from: Seq<char>, to: Seq<char>) -> Seq<(u64, RowModel)> {
    Seq::new(
        rows.len(),
        |i: int| (rows[i].0, (RowModel { values: cell_moved(rows[i].1.values, from, to), ..rows[i].1 })),
    )
}

/// The catalog whose foreign keys to the table follow a renaming of its column.
pub open spec fn catalog_renamed(
    catalog: Seq<(Seq<char>, TableModel)>,
    table: Seq<char>,
    from: Seq<char>,
    to: Seq<char>,
) -> Seq<(Seq<char>, TableModel)> {
    Seq::new(
        catalog.len(),
        |i: int|
            (
                catalog[i].0,
                (TableModel {
                    foreign_keys: all_referred_renamed(catalog[i].1.foreign_keys, table, from, to),
                    ..catalog[i].1
                }),
            ),
    )
}

/// The table with a column renamed everywhere.
pub open spec fn table_column_renamed(table: TableModel, name: Seq<char>, from: Seq<char>, to: Seq<char>) -> TableModel {
    TableModel {
        columns: columns_renamed(table.columns, from, to),
        unique: keys_renamed(table.unique, from, to),
        primary_key: swapped_names(table.primary_key, from, to),
        deferred_unique: key_set_renamed_from(table.deferred_unique, 0, Seq::empty(), from, to),
        foreign_keys: own_keys_renamed(table.foreign_keys, name, from, to),
        checks: exprs_renamed(table.checks, from, to),
        policies: policies_renamed(table.policies, from, to),
        rows: rows_renamed(table.rows, from, to),
        ..table
    }
}

/// The state and the table after RENAME COLUMN.
pub open spec fn column_rename_done(database: DatabaseModel, name: Seq<char>, table: TableModel, node: Json) -> Outcome<
    (DatabaseModel, TableModel),
> {
    let from = ident_name(child(node, "old_column_name"@));
    let to = ident_name(child(node, "new_column_name"@));
    match column_required(table, from) {
        Err(error) => Err(error),
        Ok(_) => if has_column(table.columns, to) {
            Err(failure("DuplicateColumn"@, to))
        } else {
            match dependents_of(database, name) {
                Err(error) => Err(error),
                Ok((views, functions)) => if views.len() > 0 || functions.len() > 0 {
                    Err(
                        unsupported_failure(
                            "Rename a column with dependent view/function definitions requires dependency rebinding"@,
                        ),
                    )
                } else {
                    Ok(
                        (
                            DatabaseModel {
                                catalog: catalog_renamed(database.catalog, name, from, to),
                                ..database
                            },
                            table_column_renamed(table, name, from, to),
                        ),
                    )
                },
            }
        },
    }
}

fn swap(name: &String, from: &str, to: &str) -> (result: String)
    ensures
        result@ == swapped(name@, from@, to@),
{
    if same(name.as_str(), from) {
        owned(to)
    } else {
        name.clone()
    }
}

fn swap_names(list: &Vec<String>, from: &str, to: &str) -> (result: Vec<String>)
    ensures
        result.deep_view() == swapped_names(list.deep_view(), from@, to@),
{
    let mut result: Vec<String> = no_items();
    let ghost goal = swapped_names(list.deep_view(), from@, to@);
    let mut i: usize = 0;
    while i < list.len()
        invariant
            i <= list.len(),
            goal == swapped_names(list.deep_view(), from@, to@),
            result.deep_view() == goal.take(i as int),
        decreases list.len() - i,
    {
        add_last(&mut result, swap(&list[i], from, to));
        i += 1;
        assert(result.deep_view() =~= goal.take(i as int));
    }
    assert(goal.take(list@.len() as int) =~= goal);
    result
}

fn rename_optional(expr: &Option<Expr>, from: &str, to: &str) -> (result: Option<Expr>)
    ensures
        result.deep_view() == renamed_optional(expr.deep_view(), from@, to@),
{
    match expr {
        Some(tree) => Some(rename_expression(tree, from, to)),
        None => None,
    }
}

fn rename_columns(columns: &Vec<Column>, from: &str, to: &str) -> (result: Vec<Column>)
    ensures
        result.deep_view() == columns_renamed(columns.deep_view(), from@, to@),
{
    let mut result: Vec<Column> = no_items();
    let ghost goal = columns_renamed(columns.deep_view(), from@, to@);
    let mut i: usize = 0;
    while i < columns.len()
        invariant
            i <= columns.len(),
            goal == columns_renamed(columns.deep_view(), from@, to@),
            result.deep_view() == goal.take(i as int),
        decreases columns.len() - i,
    {
        let column = &columns[i];
        let next = Column {
            id: column.id,
            name: swap(&column.name, from, to),
            data_type: column.data_type.clone(),
            nullable: column.nullable,
            default: rename_optional(&column.default, from, to),
            identity: column.identity,
            generated: rename_optional(&column.generated, from, to),
        };
        assert(next.deep_view() == goal[i as int]);
        add_last(&mut result, next);
        i += 1;
        assert(result.deep_view() =~= goal.take(i as int));
    }
    assert(goal.take(columns@.len() as int) =~= goal);
    result
}

fn rename_keys(unique: &Vec<Vec<String>>, from: &str, to: &str) -> (result: Vec<Vec<String>>)
    ensures
        result.deep_view() == keys_renamed(unique.deep_view(), from@, to@),
{
    let mut result: Vec<Vec<String>> = no_items();
    let ghost goal = keys_renamed(unique.deep_view(), from@, to@);
    let mut i: usize = 0;
    while i < unique.len()
        invariant
            i <= unique.len(),
            goal == keys_renamed(unique.deep_view(), from@, to@),
            result.deep_view() == goal.take(i as int),
        decreases unique.len() - i,
    {
        let next = swap_names(&unique[i], from, to);
        assert(next.deep_view() == goal[i as int]);
        add_last(&mut result, next);
        i += 1;
        assert(result.deep_view() =~= goal.take(i as int));
    }
    assert(goal.take(unique@.len() as int) =~= goal);
    result
}

fn rename_key_set(set: &OrdMap<Vec<String>, ()>, from: &str, to: &str) -> (result: OrdMap<Vec<String>, ()>)
    ensures
        result@ == key_set_renamed_from(set@, 0, Seq::empty(), from@, to@),
{
    let mut result: OrdMap<Vec<String>, ()> = OrdMap::new();
    let mut i: usize = 0;
    while i < set.len()
        invariant
            i <= set@.len(),
            key_set_renamed_from(set@, 0, Seq::empty(), from@, to@) == key_set_renamed_from(
                set@,
                i as int,
                result@,
                from@,
                to@,
            ),
        decreases set@.len() - i,
    {
        result.insert(swap_names(set.key_at(i), from, to), ());
        i += 1;
    }
    result
}

fn rename_referred(key: &ForeignKey, table: &str, from: &str, to: &str) -> (result: ForeignKey)
    ensures
        result.deep_view() == referred_renamed(key.deep_view(), table@, from@, to@),
{
    let mut next = key.replica();
    if same(key.foreign_table.as_str(), table) {
        next.referred_columns = swap_names(&key.referred_columns, from, to);
    }
    next
}

fn rename_all_referred(keys: &Vec<ForeignKey>, table: &str, from: &str, to: &str) -> (result: Vec<ForeignKey>)
    ensures
        result.deep_view() == all_referred_renamed(keys.deep_view(), table@, from@, to@),
{
    let mut result: Vec<ForeignKey> = no_items();
    let ghost goal = all_referred_renamed(keys.deep_view(), table@, from@, to@);
    let mut i: usize = 0;
    while i < keys.len()
        invariant
            i <= keys.len(),
            goal == all_referred_renamed(keys.deep_view(), table@, from@, to@),
            result.deep_view() == goal.take(i as int),
        decreases keys.len() - i,
    {
        let next = rename_referred(&keys[i], table, from, to);
        assert(next.deep_view() == goal[i as int]);
        add_last(&mut result, next);
        i += 1;
        assert(result.deep_view() =~= goal.take(i as int));
    }
    assert(goal.take(keys@.len() as int) =~= goal);
    result
}

fn rename_own_keys(keys: &Vec<ForeignKey>, table: &str, from: &str, to: &str) -> (result: Vec<ForeignKey>)
    ensures
        result.deep_view() == own_keys_renamed(keys.deep_view(), table@, from@, to@),
{
    let mut result: Vec<ForeignKey> = no_items();
    let ghost goal = own_keys_renamed(keys.deep_view(), table@, from@, to@);
    let mut i: usize = 0;
    while i < keys.len()
        invariant
            i <= keys.len(),
            goal == own_keys_renamed(keys.deep_view(), table@, from@, to@),
            result.deep_view() == goal.take(i as int),
        decreases keys.len() - i,
    {
        let mut own = keys[i].replica();
        own.columns = swap_names(&keys[i].columns, from, to);
        assert(own.deep_view() == own_columns_renamed(keys[i as int].deep_view(), from@, to@));
        let next = rename_referred(&own, table, from, to);
        assert(next.deep_view() == goal[i as int]);
        add_last(&mut result, next);
        i += 1;
        assert(result.deep_view() =~= goal.take(i as int));
    }
    assert(goal.take(keys@.len() as int) =~= goal);
    result
}

fn rename_exprs(exprs: &Vec<Expr>, from: &str, to: &str) -> (result: Vec<Expr>)
    ensures
        result.deep_view() == exprs_renamed(exprs.deep_view(), from@, to@),
{
    let mut result: Vec<Expr> = no_items();
    let ghost goal = exprs_renamed(exprs.deep_view(), from@, to@);
    let mut i: usize = 0;
    while i < exprs.len()
        invariant
            i <= exprs.len(),
            goal == exprs_renamed(exprs.deep_view(), from@, to@),
            result.deep_view() == goal.take(i as int),
        decreases exprs.len() - i,
    {
        let next = rename_expression(&exprs[i], from, to);
        assert(next.deep_view() == goal[i as int]);
        add_last(&mut result, next);
        i += 1;
        assert(result.deep_view() =~= goal.take(i as int));
    }
    assert(goal.take(exprs@.len() as int) =~= goal);
    result
}

fn rename_policies(policies: &Vec<Policy>, from: &str, to: &str) -> (result: Vec<Policy>)
    ensures
        result.deep_view() == policies_renamed(policies.deep_view(), from@, to@),
{
    let mut result: Vec<Policy> = no_items();
    let ghost goal = policies_renamed(policies.deep_view(), from@, to@);
    let mut i: usize = 0;
    while i < policies.len()
        invariant
            i <= policies.len(),
            goal == policies_renamed(policies.deep_view(), from@, to@),
            result.deep_view() == goal.take(i as int),
        decreases policies.len() - i,
    {
        let mut next = policies[i].replica();
        next.using = rename_optional(&policies[i].using, from, to);
        next.check = rename_optional(&policies[i].check, from, to);
        assert(next.deep_view() == goal[i as int]);
        add_last(&mut result, next);
        i += 1;
        assert(result.deep_view() =~= goal.take(i as int));
    }
    assert(goal.take(policies@.len() as int) =~= goal);
    result
}

fn rename_rows(start: OrdMap<StableId, Row>, from: &str, to: &str) -> (result: OrdMap<StableId, Row>)
    ensures
        result@ == rows_renamed(start@, from@, to@),
{
    let ghost first = start@;
    let ghost goal = rows_renamed(first, from@, to@);
    let mut rows = start;
    let old_name = owned(from);
    let mut i: usize = 0;
    while i < rows.len()
        invariant
            i <= rows@.len() == first.len(),
            old_name@ == from@,
            goal == rows_renamed(first, from@, to@),
            forall|j: int| 0 <= j < i ==> #[trigger] rows@[j] == goal[j],
            forall|j: int| i <= j < first.len() ==> #[trigger] rows@[j] == first[j],
        decreases rows@.len() - i,
    {
        let mut next = rows.value_at(i).replica();
        assert(next.deep_view() == first[i as int].1);
        let value = match next.values.remove(&old_name) {
            Some(value) => value,
            None => Datum::Null,
        };
        next.values.insert(owned(to), value);
        assert(next.deep_view() == goal[i as int].1);
        rows.set_at(i, next);
        i += 1;
    }
    assert(rows@ =~= goal);
    rows
}

fn rename_catalog(start: OrdMap<String, Table>, table: &str, from: &str, to: &str) -> (result: OrdMap<
    String,
    Table,
>)
    ensures
        result@ == catalog_renamed(start@, table@, from@, to@),
{
    let ghost first = start@;
    let ghost goal = catalog_renamed(first, table@, from@, to@);
    let mut catalog = start;
    let mut i: usize = 0;
    while i < catalog.len()
        invariant
            i <= catalog@.len() == first.len(),
            goal == catalog_renamed(first, table@, from@, to@),
            forall|j: int| 0 <= j < i ==> #[trigger] catalog@[j] == goal[j],
            forall|j: int| i <= j < first.len() ==> #[trigger] catalog@[j] == first[j],
        decreases catalog@.len() - i,
    {
        let mut next = catalog.value_at(i).replica();
        assert(next.deep_view() == first[i as int].1);
        next.foreign_keys = rename_all_referred(&next.foreign_keys, table, from, to);
        assert(next.deep_view() == goal[i as int].1);
        catalog.set_at(i, next);
        i += 1;
    }
    assert(catalog@ =~= goal);
    catalog
}

fn rename_column(database: Database, name: &str, table: Table, node: &Datum) -> (result: Result<(Database, Table)>)
    ensures
        outcome(result) == column_rename_done(
            database.deep_view(),
            name@,
            table.deep_view(),
            node@,
        ),
{
    let from = ident(node.child("old_column_name"));
    let to = ident(node.child("new_column_name"));
    require_column(&table, from.as_str())?;
    if find_column(&table.columns, to.as_str()) < table.columns.len() {
        return Err(err("DuplicateColumn", to.as_str()));
    }
    let (views, functions) = database.dependents(name)?;
    if views.len() > 0 || functions.len() > 0 {
        return Err(
            unsupported(
                "Rename a column with dependent view/function definitions requires dependency rebinding",
            ),
        );
    }
    let mut next = table;
    next.columns = rename_columns(&next.columns, from.as_str(), to.as_str());
    next.unique = rename_keys(&next.unique, from.as_str(), to.as_str());
    next.primary_key = swap_names(&next.primary_key, from.as_str(), to.as_str());
    next.deferred_unique = rename_key_set(&next.deferred_unique, from.as_str(), to.as_str());
    next.foreign_keys = rename_own_keys(&next.foreign_keys, name, from.as_str(), to.as_str());
    next.checks = rename_exprs(&next.checks, from.as_str(), to.as_str());
    next.policies = rename_policies(&next.policies, from.as_str(), to.as_str());
    next.rows = rename_rows(next.rows, from.as_str(), to.as_str());
    let mut database = database;
    database.catalog = rename_catalog(database.catalog, name, from.as_str(), to.as_str());
    Ok((database, next))
}

// ---------------------------------------------------------------------------------------------
// DROP COLUMN
// ---------------------------------------------------------------------------------------------

/// Whether a foreign key of another table depends on the column.
pub open spec fn key_depends(
    key: ForeignKeyModel,
    name: Seq<char>,
    column: Seq<char>,
    primary_key: Seq<Seq<char>>,
) -> bool {
    key.foreign_table == name && (listed(key.referred_columns, column) || key.referred_columns.len() == 0
        && listed(primary_key, column))
}

pub open spec fn independent_key(name: Seq<char>, column: Seq<char>, primary_key: Seq<Seq<char>>) -> spec_fn(
    ForeignKeyModel,
) -> bool {
    |key: ForeignKeyModel| !key_depends(key, name, column, primary_key)
}

pub open spec fn some_key_depends(
    keys: Seq<ForeignKeyModel>,
    name: Seq<char>,
    column: Seq<char>,
    primary_key: Seq<Seq<char>>,
) -> bool {
    exists|i: int| 0 <= i < keys.len() && key_depends(#[trigger] keys[i], name, column, primary_key)
}

/// The catalog whose other tables from position `from` on no longer refer to the column.
pub open spec fn column_detached_from(
    catalog: Seq<(Seq<char>, TableModel)>,
    from: int,
    name: Seq<char>,
    column: Seq<char>,
    primary_key: Seq<Seq<char>>,
    cascade: bool,
) -> Outcome<Seq<(Seq<char>, TableModel)>>
    decreases catalog.len() - from,
{
    if from < 0 || from >= catalog.len() {
        Ok(catalog)
    } else if catalog[from].0 == name {
        column_detached_from(catalog, from + 1, name, column, primary_key, cascade)
    } else if some_key_depends(catalog[from].1.foreign_keys, name, column, primary_key) && !cascade {
        Err(
            failure(
                "DependencyViolation"@,
                catalog[from].0 + " references "@ + name + "."@ + column,
            ),
        )
    } else {
        let table = catalog[from].1;
        let keys = kept(table.foreign_keys, independent_key(name, column, primary_key));
        column_detached_from(
            catalog.update(from, (catalog[from].0, (TableModel { foreign_keys: keys, ..table }))),
            from + 1,
            name,
            column,
            primary_key,
            cascade,
        )
    }
}

/// Whether a generated column uses the column.
pub open spec fn generation_uses(columns: Seq<ColumnModel>, column: Seq<char>) -> bool {
    exists|i: int|
        0 <= i < columns.len() && (#[trigger] columns[i]).generated is Some && uses(
            columns[i].generated->0,
            column,
        )
}

/// Whether a policy uses the column.
pub open spec fn policy_uses(policy: PolicyModel, column: Seq<char>) -> bool {
    policy.using is Some && uses(policy.using->0, column) || policy.check is Some && uses(
        policy.check->0,
        column,
    )
}

pub open spec fn some_policy_uses(policies: Seq<PolicyModel>, column: Seq<char>) -> bool {
    exists|i: int| 0 <= i < policies.len() && policy_uses(#[trigger] policies[i], column)
}

pub open spec fn other_column(column: Seq<char>) -> spec_fn(ColumnModel) -> bool {
    |entry: ColumnModel| entry.name != column
}

pub open spec fn other_key(column: Seq<char>) -> spec_fn(Seq<Seq<char>>) -> bool {
    |key: Seq<Seq<char>>| !listed(key, column)
}

pub open spec fn other_key_entry(column: Seq<char>) -> spec_fn((Seq<Seq<char>>, ())) -> bool {
    |entry: (Seq<Seq<char>>, ())| !listed(entry.0, column)
}

pub open spec fn other_own_key(name: Seq<char>, column: Seq<char>) -> spec_fn(ForeignKeyModel) -> bool {
    |key: ForeignKeyModel|
        !listed(key.columns, column) && !(key.foreign_table == name && listed(
            key.referred_columns,
            column,
        ))
}

pub open spec fn other_check(column: Seq<char>) -> spec_fn(Json) -> bool {
    |expr: Json| !uses(expr, column)
}

pub open spec fn other_policy(column: Seq<char>) -> spec_fn(PolicyModel) -> bool {
    |policy: PolicyModel| !policy_uses(policy, column)
}

/// The rows without the column from position `from` on.
pub open spec fn rows_without_from(rows: Seq<(u64, RowModel)>, from: int, column: Seq<char>) -> Outcome<
    Seq<(u64, RowModel)>,
>
    decreases rows.len() - from,
{
    if from < 0 || from >= rows.len() {
        Ok(rows)
    } else {
        match next_count(rows[from].1.version) {
            Err(error) => Err(error),
            Ok(version) => rows_without_from(
                rows.update(
                    from,
                    (
                        rows[from].0,
                        (RowModel { version, values: del(rows[from].1.values, column), ..rows[from].1 }),
                    ),
                ),
                from + 1,
                column,
            ),
        }
    }
}

/// The table without the column.
pub open spec fn table_without(table: TableModel, name: Seq<char>, column: Seq<char>, cascade: bool) -> Outcome<
    TableModel,
> {
    if generation_uses(table.columns, column) {
        Err(unsupported_failure("DROP a column referenced by a generated column"@))
    } else if some_policy_uses(table.policies, column) && !cascade {
        Err(failure("DependencyViolation"@, "Column is referenced by a policy"@))
    } else {
        match rows_without_from(table.rows, 0, column) {
            Err(error) => Err(error),
            Ok(rows) => Ok(
                TableModel {
                    columns: kept(table.columns, other_column(column)),
                    primary_key: if listed(table.primary_key, column) {
                        Seq::empty()
                    } else {
                        table.primary_key
                    },
                    unique: kept(table.unique, other_key(column)),
                    deferred_unique: kept(table.deferred_unique, other_key_entry(column)),
                    foreign_keys: kept(table.foreign_keys, other_own_key(name, column)),
                    checks: kept(table.checks, other_check(column)),
                    policies: kept(table.policies, other_policy(column)),
                    rows,
                    ..table
                },
            ),
        }
    }
}

/// The state and the table after DROP COLUMN; nothing where the column need not exist and does not.
pub open spec fn column_dropped(database: DatabaseModel, name: Seq<char>, table: TableModel, node: Json) -> Outcome<
    Option<(DatabaseModel, TableModel)>,
> {
    let column = ident_name(child(node, "column_name"@));
    let cascade = flag(child(node, "cascade"@));
    if !has_column(table.columns, column) {
        if flag(child(node, "if_exists"@)) {
            Ok(None)
        } else {
            Err(failure("UndefinedColumn"@, column))
        }
    } else {
        match without_dependents(database, name, cascade) {
            Err(error) => Err(error),
            Ok(next) => match column_detached_from(
                next.catalog,
                0,
                name,
                column,
                table.primary_key,
                cascade,
            ) {
                Err(error) => Err(error),
                Ok(catalog) => match table_without(table, name, column, cascade) {
                    Err(error) => Err(error),
                    Ok(changed) => Ok(Some((DatabaseModel { catalog, ..next }, changed))),
                },
            },
        }
    }
}

fn is_dependent(key: &ForeignKey, name: &str, column: &str, primary_key: &Vec<String>) -> (result: bool)
    ensures
        result == key_depends(key.deep_view(), name@, column@, primary_key.deep_view()),
{
    same(key.foreign_table.as_str(), name) && (is_listed(&key.referred_columns, column)
        || key.referred_columns.len() == 0 && is_listed(primary_key, column))
}

fn has_dependent(keys: &Vec<ForeignKey>, name: &str, column: &str, primary_key: &Vec<String>) -> (result: bool)
    ensures
        result == some_key_depends(keys.deep_view(), name@, column@, primary_key.deep_view()),
{
    let mut i: usize = 0;
    while i < keys.len()
        invariant
            i <= keys.len(),
            forall|j: int|
                0 <= j < i ==> !key_depends(
                    #[trigger] keys.deep_view()[j],
                    name@,
                    column@,
                    primary_key.deep_view(),
                ),
        decreases keys.len() - i,
    {
        assert(keys.deep_view()[i as int] == keys[i as int].deep_view());
        if is_dependent(&keys[i], name, column, primary_key) {
            return true;
        }
        i += 1;
    }
    false
}

fn independent_keys(keys: &Vec<ForeignKey>, name: &str, column: &str, primary_key: &Vec<String>) -> (result: Vec<
    ForeignKey,
>)
    ensures
        result.deep_view() == kept(
            keys.deep_view(),
            independent_key(name@, column@, primary_key.deep_view()),
        ),
{
    let mut result: Vec<ForeignKey> = no_items();
    let ghost keep = independent_key(name@, column@, primary_key.deep_view());
    let ghost model = keys.deep_view();
    let mut i: usize = 0;
    while i < keys.len()
        invariant
            i <= keys.len(),
            model == keys.deep_view(),
            keep == independent_key(name@, column@, primary_key.deep_view()),
            kept(model, keep) == kept_from(model, i as int, result.deep_view(), keep),
        decreases keys.len() - i,
    {
        assert(model[i as int] == keys[i as int].deep_view());
        if !is_dependent(&keys[i], name, column, primary_key) {
            add_last(&mut result, keys[i].replica());
        }
        i += 1;
    }
    result
}

fn detach_column(
    start: OrdMap<String, Table>,
    name: &str,
    column: &str,
    primary_key: &Vec<String>,
    cascade: bool,
) -> (result: Result<OrdMap<String, Table>>)
    ensures
        outcome(result) == column_detached_from(
            start@,
            0,
            name@,
            column@,
            primary_key.deep_view(),
            cascade,
        ),
{
    let ghost first = start@;
    let mut catalog = start;
    let mut i: usize = 0;
    while i < catalog.len()
        invariant
            i <= catalog@.len(),
            first == start@,
            column_detached_from(first, 0, name@, column@, primary_key.deep_view(), cascade)
                == column_detached_from(
                catalog@,
                i as int,
                name@,
                column@,
                primary_key.deep_view(),
                cascade,
            ),
        decreases catalog@.len() - i,
    {
        if !same(catalog.key_at(i).as_str(), name) {
            let table = catalog.value_at(i);
            if has_dependent(&table.foreign_keys, name, column, primary_key) && !cascade {
                return Err(
                    err(
                        "DependencyViolation",
                        cat5(catalog.key_at(i).as_str(), " references ", name, ".", column).as_str(),
                    ),
                );
            }
            let mut changed = table.replica();
            changed.foreign_keys = independent_keys(&table.foreign_keys, name, column, primary_key);
            catalog.set_at(i, changed);
        }
        i += 1;
    }
    Ok(catalog)
}

fn is_used_in_generation(columns: &Vec<Column>, column: &str) -> (result: bool)
    ensures
        result == generation_uses(columns.deep_view(), column@),
{
    let mut i: usize = 0;
    while i < columns.len()
        invariant
            i <= columns.len(),
            forall|j: int|
                0 <= j < i ==> !((#[trigger] columns.deep_view()[j]).generated is Some && uses(
                    columns.deep_view()[j].generated->0,
                    column@,
                )),
        decreases columns.len() - i,
    {
        assert(columns.deep_view()[i as int] == columns[i as int].deep_view());
        if let Some(expr) = &columns[i].generated {
            if expression_uses(expr, column) {
                return true;
            }
        }
        i += 1;
    }
    false
}

fn is_used_in_policy(policy: &Policy, column: &str) -> (result: bool)
    ensures
        result == policy_uses(policy.deep_view(), column@),
{
    if let Some(expr) = &policy.using {
        if expression_uses(expr, column) {
            return true;
        }
    }
    if let Some(expr) = &policy.check {
        if expression_uses(expr, column) {
            return true;
        }
    }
    false
}

fn is_used_in_some_policy(policies: &Vec<Policy>, column: &str) -> (result: bool)
    ensures
        result == some_policy_uses(policies.deep_view(), column@),
{
    let mut i: usize = 0;
    while i < policies.len()
        invariant
            i <= policies.len(),
            forall|j: int| 0 <= j < i ==> !policy_uses(#[trigger] policies.deep_view()[j], column@),
        decreases policies.len() - i,
    {
        assert(policies.deep_view()[i as int] == policies[i as int].deep_view());
        if is_used_in_policy(&policies[i], column) {
            return true;
        }
        i += 1;
    }
    false
}

fn other_columns(columns: &Vec<Column>, column: &str) -> (result: Vec<Column>)
    ensures
        result.deep_view() == kept(columns.deep_view(), other_column(column@)),
{
    let mut result: Vec<Column> = no_items();
    let ghost keep = other_column(column@);
    let ghost model = columns.deep_view();
    let mut i: usize = 0;
    while i < columns.len()
        invariant
            i <= columns.len(),
            model == columns.deep_view(),
            keep == other_column(column@),
            kept(model, keep) == kept_from(model, i as int, result.deep_view(), keep),
        decreases columns.len() - i,
    {
        assert(model[i as int] == columns[i as int].deep_view());
        if !same(columns[i].name.as_str(), column) {
            add_last(&mut result, columns[i].replica());
        }
        i += 1;
    }
    result
}

fn other_keys(unique: &Vec<Vec<String>>, column: &str) -> (result: Vec<Vec<String>>)
    ensures
        result.deep_view() == kept(unique.deep_view(), other_key(column@)),
{
    let mut result: Vec<Vec<String>> = no_items();
    let ghost keep = other_key(column@);
    let ghost model = unique.deep_view();
    let mut i: usize = 0;
    while i < unique.len()
        invariant
            i <= unique.len(),
            model == unique.deep_view(),
            keep == other_key(column@),
            kept(model, keep) == kept_from(model, i as int, result.deep_view(), keep),
        decreases unique.len() - i,
    {
        assert(model[i as int] == unique[i as int].deep_view());
        if !is_listed(&unique[i], column) {
            add_last(&mut result, unique[i].replica());
        }
        i += 1;
    }
    result
}

fn other_key_set(set: &OrdMap<Vec<String>, ()>, column: &str) -> (result: OrdMap<Vec<String>, ()>)
    ensures
        result@ == kept(set@, other_key_entry(column@)),
{
    let mut result: OrdMap<Vec<String>, ()> = OrdMap { entries: Vec::new() };
    let ghost keep = other_key_entry(column@);
    assert(result@ =~= Seq::<(Seq<Seq<char>>, ())>::empty());
    let mut i: usize = 0;
    while i < set.len()
        invariant
            i <= set@.len(),
            keep == other_key_entry(column@),
            kept(set@, keep) == kept_from(set@, i as int, result@, keep),
        decreases set@.len() - i,
    {
        let key = set.key_at(i);
        assert(set@[i as int] == (key.deep_view(), ()));
        if !is_listed(key, column) {
            let ghost before = result@;
            result.entries.push((key.replica(), ()));
            assert(result@ =~= before.push(set@[i as int]));
        }
        i += 1;
    }
    result
}

fn other_own_keys(keys: &Vec<ForeignKey>, name: &str, column: &str) -> (result: Vec<ForeignKey>)
    ensures
        result.deep_view() == kept(keys.deep_view(), other_own_key(name@, column@)),
{
    let mut result: Vec<ForeignKey> = no_items();
    let ghost keep = other_own_key(name@, column@);
    let ghost model = keys.deep_view();
    let mut i: usize = 0;
    while i < keys.len()
        invariant
            i <= keys.len(),
            model == keys.deep_view(),
            keep == other_own_key(name@, column@),
            kept(model, keep) == kept_from(model, i as int, result.deep_view(), keep),
        decreases keys.len() - i,
    {
        assert(model[i as int] == keys[i as int].deep_view());
        if !is_listed(&keys[i].columns, column) && !(same(keys[i].foreign_table.as_str(), name) && is_listed(
            &keys[i].referred_columns,
            column,
        )) {
            add_last(&mut result, keys[i].replica());
        }
        i += 1;
    }
    result
}

fn other_checks(checks: &Vec<Expr>, column: &str) -> (result: Vec<Expr>)
    ensures
        result.deep_view() == kept(checks.deep_view(), other_check(column@)),
{
    let mut result: Vec<Expr> = no_items();
    let ghost keep = other_check(column@);
    let ghost model = checks.deep_view();
    let mut i: usize = 0;
    while i < checks.len()
        invariant
            i <= checks.len(),
            model == checks.deep_view(),
            keep == other_check(column@),
            kept(model, keep) == kept_from(model, i as int, result.deep_view(), keep),
        decreases checks.len() - i,
    {
        assert(model[i as int] == checks[i as int]@);
        if !expression_uses(&checks[i], column) {
            add_last(&mut result, checks[i].copied());
        }
        i += 1;
    }
    result
}

fn other_policies(policies: &Vec<Policy>, column: &str) -> (result: Vec<Policy>)
    ensures
        result.deep_view() == kept(policies.deep_view(), other_policy(column@)),
{
    let mut result: Vec<Policy> = no_items();
    let ghost keep = other_policy(column@);
    let ghost model = policies.deep_view();
    let mut i: usize = 0;
    while i < policies.len()
        invariant
            i <= policies.len(),
            model == policies.deep_view(),
            keep == other_policy(column@),
            kept(model, keep) == kept_from(model, i as int, result.deep_view(), keep),
        decreases policies.len() - i,
    {
        assert(model[i as int] == policies[i as int].deep_view());
        if !is_used_in_policy(&policies[i], column) {
            add_last(&mut result, policies[i].replica());
        }
        i += 1;
    }
    result
}

fn rows_without(start: OrdMap<StableId, Row>, column: &String) -> (result: Result<OrdMap<StableId, Row>>)
    ensures
        outcome(result) == rows_without_from(start@, 0, column@),
{
    let ghost first = start@;
    let mut rows = start;
    let mut i: usize = 0;
    while i < rows.len()
        invariant
            i <= rows@.len(),
            first == start@,
            rows_without_from(first, 0, column@) == rows_without_from(rows@, i as int, column@),
        decreases rows@.len() - i,
    {
        let version: u64 = count_up(rows.value_at(i).version)?;
        let mut next = rows.value_at(i).replica();
        next.version = version;
        let _removed = next.values.remove(column);
        rows.set_at(i, next);
        i += 1;
    }
    Ok(rows)
}

fn drop_from_table(table: Table, name: &str, column: &String, cascade: bool) -> (result: Result<Table>)
    ensures
        outcome(result) == table_without(table.deep_view(), name@, column@, cascade),
{
    if is_used_in_generation(&table.columns, column.as_str()) {
        return Err(unsupported("DROP a column referenced by a generated column"));
    }
    if is_used_in_some_policy(&table.policies, column.as_str()) && !cascade {
        return Err(err("DependencyViolation", "Column is referenced by a policy"));
    }
    let mut next = table;
    next.columns = other_columns(&next.columns, column.as_str());
    if is_listed(&next.primary_key, column.as_str()) {
        next.primary_key = no_items();
    }
    next.unique = other_keys(&next.unique, column.as_str());
    next.deferred_unique = other_key_set(&next.deferred_unique, column.as_str());
    next.foreign_keys = other_own_keys(&next.foreign_keys, name, column.as_str());
    next.checks = other_checks(&next.checks, column.as_str());
    next.policies = other_policies(&next.policies, column.as_str());
    next.rows = rows_without(next.rows, column)?;
    Ok(next)
}

fn drop_column(database: Database, name: &str, table: Table, node: &Datum) -> (result: Result<
    Option<(Database, Table)>,
>)
    ensures
        change_view(result) == column_dropped(database.deep_view(), name@, table.deep_view(), node@),
{
    let column = ident(node.child("column_name"));
    let cascade = node.child("cascade").flag();
    if find_column(&table.columns, column.as_str()) >= table.columns.len() {
        return if node.child("if_exists").flag() {
            Ok(None)
        } else {
            Err(err("UndefinedColumn", column.as_str()))
        };
    }
    let mut next = remove_dependents(database, name, cascade)?;
    next.catalog = detach_column(
        next.catalog,
        name,
        column.as_str(),
        &table.primary_key,
        cascade,
    )?;
    let changed = drop_from_table(table, name, &column, cascade)?;
    Ok(Some((next, changed)))
}

// ---------------------------------------------------------------------------------------------
// ALTER COLUMN and RENAME TO
// ---------------------------------------------------------------------------------------------

/// The table after ALTER COLUMN.
pub open spec fn column_altered(table: TableModel, node: Json) -> Outcome<TableModel> {
    let name = ident_name(child(node, "column_name"@));
    let op = child(node, "op"@);
    match column_required(table, name) {
        Err(error) => Err(error),
        Ok(_) => {
            let spot = column_from(table.columns, name, 0);
            let column = table.columns[spot];
            let changed = if tag(op) == "SetDefault"@ {
                Ok(ColumnModel { default: Some(child(payload(op), "value"@)), ..column })
            } else if tag(op) == "DropDefault"@ {
                Ok(ColumnModel { default: None, ..column })
            } else if tag(op) == "SetNotNull"@ {
                Ok(ColumnModel { nullable: false, ..column })
            } else if tag(op) == "DropNotNull"@ {
                if listed(table.primary_key, name) {
                    Err(failure("ConstraintViolation"@, "Primary-key columns cannot be nullable"@))
                } else {
                    Ok(ColumnModel { nullable: true, ..column })
                }
            } else {
                Err(unsupported_failure("ALTER COLUMN TYPE"@))
            };
            match changed {
                Err(error) => Err(error),
                Ok(next) => Ok(TableModel { columns: table.columns.update(spot, next), ..table }),
            }
        },
    }
}

fn alter_column(table: Table, node: &Datum) -> (result: Result<Table>)
    ensures
        outcome(result) == column_altered(table.deep_view(), node@),
{
    let name = ident(node.child("column_name"));
    let op = node.child("op");
    require_column(&table, name.as_str())?;
    let spot: usize = find_column(&table.columns, name.as_str());
    let ghost before = table.columns.deep_view();
    let mut column = table.columns[spot].replica();
    assert(column.deep_view() == before[spot as int]);
    if op.is("SetDefault") {
        column.default = Some(op.payload().child("value").copied());
    } else if op.is("DropDefault") {
        column.default = None;
    } else if op.is("SetNotNull") {
        column.nullable = false;
    } else if op.is("DropNotNull") {
        if is_listed(&table.primary_key, name.as_str()) {
            return Err(err("ConstraintViolation", "Primary-key columns cannot be nullable"));
        }
        column.nullable = true;
    } else {
        return Err(unsupported("ALTER COLUMN TYPE"));
    }
    let mut table = table;
    let ghost next = column.deep_view();
    table.columns.set(spot, column);
    assert(table.columns.deep_view() =~= before.update(spot as int, next));
    Ok(table)
}

/// A foreign key that follows a renaming of its target.
pub open spec fn retargeted(key: ForeignKeyModel, from: Seq<char>, to: Seq<char>) -> ForeignKeyModel {
    ForeignKeyModel { foreign_table: swapped(key.foreign_table, from, to), ..key }
}

pub open spec fn all_retargeted(keys: Seq<ForeignKeyModel>, from: Seq<char>, to: Seq<char>) -> Seq<ForeignKeyModel> {
    Seq::new(keys.len(), |i: int| retargeted(keys[i], from, to))
}

pub open spec fn catalog_retargeted(
    catalog: Seq<(Seq<char>, TableModel)>,
    from: Seq<char>,
    to: Seq<char>,
) -> Seq<(Seq<char>, TableModel)> {
    Seq::new(
        catalog.len(),
        |i: int|
            (
                catalog[i].0,
                (TableModel {
                    foreign_keys: all_retargeted(catalog[i].1.foreign_keys, from, to),
                    ..catalog[i].1
                }),
            ),
    )
}

/// The state without the table, the table and its new name after RENAME TO.
pub open spec fn table_renamed(database: DatabaseModel, name: Seq<char>, table: TableModel, node: Json) -> Outcome<
    (DatabaseModel, TableModel, Seq<char>),
> {
    match table_name_of(child(node, "table_name"@)) {
        Err(error) => Err(error),
        Ok(to) => if has_key(database.catalog, to) || has_key(database.views, to) {
            Err(failure("DuplicateTable"@, to))
        } else {
            match dependents_of(database, name) {
                Err(error) => Err(error),
                Ok((views, functions)) => if views.len() > 0 || functions.len() > 0 {
                    Err(
                        unsupported_failure(
                            "Rename a table with dependent views/functions requires dependency rebinding"@,
                        ),
                    )
                } else {
                    Ok(
                        (
                            DatabaseModel {
                                catalog: del(catalog_retargeted(database.catalog, name, to), name),
                                ..database
                            },
                            TableModel {
                                name: to,
                                foreign_keys: all_retargeted(table.foreign_keys, name, to),
                                ..table
                            },
                            to,
                        ),
                    )
                },
            }
        },
    }
}

fn retarget(keys: &Vec<ForeignKey>, from: &str, to: &str) -> (result: Vec<ForeignKey>)
    ensures
        result.deep_view() == all_retargeted(keys.deep_view(), from@, to@),
{
    let mut result: Vec<ForeignKey> = no_items();
    let ghost goal = all_retargeted(keys.deep_view(), from@, to@);
    let mut i: usize = 0;
    while i < keys.len()
        invariant
            i <= keys.len(),
            goal == all_retargeted(keys.deep_view(), from@, to@),
            result.deep_view() == goal.take(i as int),
        decreases keys.len() - i,
    {
        let mut next = keys[i].replica();
        next.foreign_table = swap(&keys[i].foreign_table, from, to);
        assert(next.deep_view() == goal[i as int]);
        add_last(&mut result, next);
        i += 1;
        assert(result.deep_view() =~= goal.take(i as int));
    }
    assert(goal.take(keys@.len() as int) =~= goal);
    result
}

fn retarget_catalog(start: OrdMap<String, Table>, from: &str, to: &str) -> (result: OrdMap<String, Table>)
    ensures
        result@ == catalog_retargeted(start@, from@, to@),
{
    let ghost first = start@;
    let ghost goal = catalog_retargeted(first, from@, to@);
    let mut catalog = start;
    let mut i: usize = 0;
    while i < catalog.len()
        invariant
            i <= catalog@.len() == first.len(),
            goal == catalog_retargeted(first, from@, to@),
            forall|j: int| 0 <= j < i ==> #[trigger] catalog@[j] == goal[j],
            forall|j: int| i <= j < first.len() ==> #[trigger] catalog@[j] == first[j],
        decreases catalog@.len() - i,
    {
        let mut next = catalog.value_at(i).replica();
        assert(next.deep_view() == first[i as int].1);
        next.foreign_keys = retarget(&next.foreign_keys, from, to);
        assert(next.deep_view() == goal[i as int].1);
        catalog.set_at(i, next);
        i += 1;
    }
    assert(catalog@ =~= goal);
    catalog
}

fn rename_table(database: Database, name: &String, table: Table, node: &Datum) -> (result: Result<
    (Database, Table, String),
>)
    ensures
        outcome(result) == table_renamed(database.deep_view(), name@, table.deep_view(), node@),
{
    let to = table_name(node.child("table_name"))?;
    if database.catalog.contains(&to) || database.views.contains(&to) {
        return Err(err("DuplicateTable", to.as_str()));
    }
    let (views, functions) = database.dependents(name.as_str())?;
    if views.len() > 0 || functions.len() > 0 {
        return Err(
            unsupported("Rename a table with dependent views/functions requires dependency rebinding"),
        );
    }
    let mut database = database;
    database.catalog = retarget_catalog(database.catalog, name.as_str(), to.as_str());
    let _removed = database.catalog.remove(name);
    let mut next = table;
    next.foreign_keys = retarget(&next.foreign_keys, name.as_str(), to.as_str());
    next.name = to.clone();
    Ok((database, next, to))
}

// ---------------------------------------------------------------------------------------------
// The statement
// ---------------------------------------------------------------------------------------------

/// The state with a table under a name.
pub open spec fn with_table(database: DatabaseModel, name: Seq<char>, table: TableModel) -> DatabaseModel {
    DatabaseModel { catalog: put(database.catalog, name, table), ..database }
}

/// The state, the table and its name after one operation; nothing where it does not apply.
pub open spec fn operation_applied(
    database: DatabaseModel,
    name: Seq<char>,
    table: TableModel,
    operation: Json,
    caller: AuthModel,
) -> Outcome<Option<(DatabaseModel, TableModel, Seq<char>)>> {
    let node = payload(operation);
    if tag(operation) == "AddColumn"@ {
        match column_added(database, table, node, caller) {
            Err(error) => Err(error),
            Ok(None) => Ok(None),
            Ok(Some((next, changed))) => Ok(Some((next, changed, name))),
        }
    } else if tag(operation) == "RenameColumn"@ {
        match column_rename_done(database, name, table, node) {
            Err(error) => Err(error),
            Ok((next, changed)) => Ok(Some((next, changed, name))),
        }
    } else if tag(operation) == "DropColumn"@ {
        match column_dropped(database, name, table, node) {
            Err(error) => Err(error),
            Ok(None) => Ok(None),
            Ok(Some((next, changed))) => Ok(Some((next, changed, name))),
        }
    } else if tag(operation) == "AlterColumn"@ {
        match column_altered(table, node) {
            Err(error) => Err(error),
            Ok(changed) => Ok(Some((database, changed, name))),
        }
    } else if tag(operation) == "RenameTable"@ {
        match table_renamed(database, name, table, node) {
            Err(error) => Err(error),
            Ok(changed) => Ok(Some(changed)),
        }
    } else {
        Err(unsupported_failure("ALTER TABLE operation"@))
    }
}

/// The state after the operations from position `from` on.
pub open spec fn operations_applied_from(
    database: DatabaseModel,
    name: Seq<char>,
    operations: Json,
    from: int,
    caller: AuthModel,
) -> Outcome<DatabaseModel>
    decreases items(operations).len() - from,
{
    if from < 0 || from >= items(operations).len() {
        Ok(database)
    } else {
        match table_of(database, name) {
            Err(error) => Err(error),
            Ok(table) => match operation_applied(
                database,
                name,
                table,
                items(operations)[from],
                caller,
            ) {
                Err(error) => Err(error),
                Ok(None) => operations_applied_from(database, name, operations, from + 1, caller),
                Ok(Some((next, changed, new_name))) => match schema_changed(
                    with_table(next, new_name, changed),
                ) {
                    Err(error) => Err(error),
                    Ok(last) => operations_applied_from(last, new_name, operations, from + 1, caller),
                },
            },
        }
    }
}

/// The state after ALTER TABLE.
pub open spec fn table_altered(
    database: DatabaseModel,
    name: Seq<char>,
    if_exists: bool,
    operations: Json,
    caller: AuthModel,
) -> Outcome<(DatabaseModel, ResultModel)> {
    if !caller.privileged {
        Err(failure("PrivilegeError"@, "DDL requires administrative authority"@))
    } else if !has_key(database.catalog, name) {
        if if_exists {
            Ok((database, no_result()))
        } else {
            Err(failure("UndefinedTable"@, name))
        }
    } else {
        match operations_applied_from(database, name, operations, 0, caller) {
            Err(error) => Err(error),
            Ok(next) => Ok((next, no_result())),
        }
    }
}

/// A change that an operation of ALTER TABLE made, or the untouched state.
pub enum Applied {
    Untouched(Database),
    Changed(Database, Table, String),
}

/// What the result of an operation stands for.
pub open spec fn applied_view(result: Result<Applied>) -> Outcome<
    Option<(DatabaseModel, TableModel, Seq<char>)>,
> {
    match result {
        Ok(Applied::Untouched(_)) => Ok(None),
        Ok(Applied::Changed(database, table, name)) => Ok(
            Some((database.deep_view(), table.deep_view(), name@)),
        ),
        Err(error) => Err(error@),
    }
}

fn apply_operation(
    database: Database,
    name: &String,
    table: Table,
    operation: &Datum,
    context: &AuthContext,
) -> (result: Result<Applied>)
    ensures
        applied_view(result) == operation_applied(
            database.deep_view(),
            name@,
            table.deep_view(),
            operation@,
            context.deep_view(),
        ),
        result matches Ok(Applied::Untouched(same_database)) ==> same_database.deep_view()
            == database.deep_view(),
{
    let node = operation.payload();
    if operation.is("AddColumn") {
        let kept_database = database.replica();
        match add_column(database, table, node, context)? {
            Some((next, changed)) => Ok(Applied::Changed(next, changed, name.clone())),
            None => Ok(Applied::Untouched(kept_database)),
        }
    } else if operation.is("RenameColumn") {
        let (next, changed) = rename_column(database, name.as_str(), table, node)?;
        Ok(Applied::Changed(next, changed, name.clone()))
    } else if operation.is("DropColumn") {
        let kept_database = database.replica();
        match drop_column(database, name.as_str(), table, node)? {
            Some((next, changed)) => Ok(Applied::Changed(next, changed, name.clone())),
            None => Ok(Applied::Untouched(kept_database)),
        }
    } else if operation.is("AlterColumn") {
        let changed = alter_column(table, node)?;
        Ok(Applied::Changed(database, changed, name.clone()))
    } else if operation.is("RenameTable") {
        let (next, changed, new_name) = rename_table(database, name, table, node)?;
        Ok(Applied::Changed(next, changed, new_name))
    } else {
        Err(unsupported("ALTER TABLE operation"))
    }
}

fn apply_operations(start: Database, start_name: &str, operations: &Datum, context: &AuthContext) -> (result:
    Result<Database>)
    ensures
        outcome(result) == operations_applied_from(
            start.deep_view(),
            start_name@,
            operations@,
            0,
            context.deep_view(),
        ),
{
    let ghost first = start.deep_view();
    let mut database = start;
    let mut name = owned(start_name);
    let count: usize = operations.count();
    let mut i: usize = 0;
    while i < count
        invariant
            i <= count == items(operations@).len(),
            first == start.deep_view(),
            operations_applied_from(first, start_name@, operations@, 0, context.deep_view())
                == operations_applied_from(
                database.deep_view(),
                name@,
                operations@,
                i as int,
                context.deep_view(),
            ),
        decreases count - i,
    {
        let table = database.table(name.as_str())?.replica();
        match apply_operation(database, &name, table, operations.item(i), context)? {
            Applied::Untouched(unchanged) => {
                database = unchanged;
            },
            Applied::Changed(next, changed, new_name) => {
                let mut next = next;
                next.catalog.insert(new_name.clone(), changed);
                database = change_schema(next)?;
                name = new_name;
            },
        }
        i += 1;
    }
    Ok(database)
}

/// Runs ALTER TABLE.
pub fn alter_table(
    database: Database,
    name: &str,
    if_exists: bool,
    operations: &Datum,
    context: &AuthContext,
) -> (result: Result<(Database, SqlResult)>)
    ensures
        outcome(result) == table_altered(
            database.deep_view(),
            name@,
            if_exists,
            operations@,
            context.deep_view(),
        ),
{
    if !context.privileged {
        return Err(err("PrivilegeError", "DDL requires administrative authority"));
    }
    if !database.catalog.holds(name) {
        return if if_exists {
            Ok((database, SqlResult::default()))
        } else {
            Err(err("UndefinedTable", name))
        };
    }
    let next = apply_operations(database, name, operations, context)?;
    Ok((next, SqlResult::default()))
}

} // verus!
