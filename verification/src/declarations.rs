//! What CREATE TABLE declares.

use vstd::prelude::*;
use crate::ast::{data_type_of, ident_name, ident_names, table_name_of};
use crate::catalog::{AuthModel, ColumnModel, DatabaseModel, ForeignKeyModel, TableModel};
use crate::columns::{foreign_key_of, option_applied, options_applied_from, plain_column};
use crate::error::Failure;
use crate::json::Json;
use crate::mutations::one_table_changes;
use crate::ordmap::{get, sorted};
use crate::statement::{
    column_declared, columns_declared_from, constraint_declared, constraints_declared_from, plain_table,
    table_created, table_declared,
};
use crate::value::{child, flag, items, payload, tag};

verus! {

proof fn option_names_differ()
    ensures
        "Null"@ != "NotNull"@ && "Null"@ != "Default"@ && "Null"@ != "Unique"@ && "Null"@ != "ForeignKey"@ && "Null"@
            != "Check"@ && "Null"@ != "Generated"@,
        "NotNull"@ != "Default"@ && "NotNull"@ != "Unique"@ && "NotNull"@ != "ForeignKey"@ && "NotNull"@ != "Check"@
            && "NotNull"@ != "Generated"@,
        "Default"@ != "Unique"@ && "Default"@ != "ForeignKey"@ && "Default"@ != "Check"@ && "Default"@ != "Generated"@,
        "Unique"@ != "ForeignKey"@ && "Unique"@ != "Check"@ && "Unique"@ != "Generated"@,
        "ForeignKey"@ != "Check"@ && "ForeignKey"@ != "Generated"@ && "Check"@ != "Generated"@,
{
    reveal_strlit("Null");
    reveal_strlit("NotNull");
    reveal_strlit("Default");
    reveal_strlit("Unique");
    reveal_strlit("ForeignKey");
    reveal_strlit("Check");
    reveal_strlit("Generated");
    assert("Null"@.len() == 4 && "NotNull"@.len() == 7 && "Default"@.len() == 7 && "Unique"@.len() == 6
        && "ForeignKey"@.len() == 10 && "Check"@.len() == 5 && "Generated"@.len() == 9);
    assert("NotNull"@[0] == 'N' && "Default"@[0] == 'D');
}

/// Whether a table has the keys and checks of another, and maybe more.
pub open spec fn keeps_rules(a: TableModel, b: TableModel) -> bool {
    &&& forall|key: Seq<Seq<char>>| a.unique.contains(key) ==> #[trigger] b.unique.contains(key)
    &&& forall|key: ForeignKeyModel| a.foreign_keys.contains(key) ==> #[trigger] b.foreign_keys.contains(key)
    &&& forall|check: Json| a.checks.contains(check) ==> #[trigger] b.checks.contains(check)
    &&& a.primary_key.len() > 0 ==> b.primary_key == a.primary_key
}

proof fn pushed_is_held<A>(list: Seq<A>, a: A)
    ensures
        list.push(a).contains(a),
        forall|b: A| list.contains(b) ==> #[trigger] list.push(a).contains(b),
{
    assert(list.push(a)[list.len() as int] == a);
    assert forall|b: A| list.contains(b) implies #[trigger] list.push(a).contains(b) by {
        let i = choose|i: int| 0 <= i < list.len() && list[i] == b;
        assert(list.push(a)[i] == b);
    }
}

// ---------------------------------------------------------------------------------------------
// Columns
// ---------------------------------------------------------------------------------------------

/// Whether a table has the key or the check that an option of one of its columns declares.
pub open spec fn recorded(option: Json, table: TableModel, name: Seq<char>) -> bool {
    let node = payload(option);
    &&& tag(option) == "Unique"@ && !flag(child(node, "is_primary"@)) ==> table.unique.contains(seq![name])
    &&& tag(option) == "Unique"@ && flag(child(node, "is_primary"@)) ==> table.primary_key == seq![name]
    &&& tag(option) == "ForeignKey"@ ==> foreign_key_of(seq![name], node) is Ok && table.foreign_keys.contains(
        foreign_key_of(seq![name], node)->Ok_0,
    )
    &&& tag(option) == "Check"@ ==> table.checks.contains(node)
}

/// The option at a position.
pub open spec fn option_at(options: Json, j: int) -> Json {
    child(items(options)[j], "option"@)
}

/// Whether no option from a position on has a name.
pub open spec fn no_later(options: Json, from: int, count: int, name: Seq<char>) -> bool {
    forall|k: int| from <= k < count ==> tag(#[trigger] option_at(options, k)) != name
}

/// Whether an option of a name stands at a position, with none of another name after it.
pub open spec fn decides(options: Json, j: int, count: int, name: Seq<char>, other: Seq<char>) -> bool {
    0 <= j < count && tag(option_at(options, j)) == name && no_later(options, j + 1, count, other)
}

/// Whether the option at a position gives an expression from which the column is generated.
pub open spec fn generates(options: Json, j: int, count: int) -> bool {
    0 <= j < count && tag(option_at(options, j)) == "Generated"@ && !(child(
        payload(option_at(options, j)),
        "generation_expr"@,
    ) is Null)
}

/// Whether a table and a column have what the first `count` options declare.
pub open spec fn shaped_by(options: Json, count: int, table: TableModel, column: ColumnModel) -> bool {
    &&& forall|j: int| 0 <= j < count ==> recorded(#[trigger] option_at(options, j), table, column.name)
    &&& column_shaped_by(options, count, column)
}

/// Whether a column has what its first `count` options declare.
pub open spec fn column_shaped_by(options: Json, count: int, column: ColumnModel) -> bool {
    &&& forall|j: int| #[trigger] decides(options, j, count, "NotNull"@, "Null"@) ==> !column.nullable
    &&& forall|j: int|
        #[trigger] decides(options, j, count, "Default"@, "Default"@) ==> column.default == Some(
            payload(option_at(options, j)),
        )
    &&& forall|j: int|
        #[trigger] generates(options, j, count) ==> column.generated == Some(
            child(payload(option_at(options, j)), "generation_expr"@),
        )
    &&& no_later(options, 0, count, "Default"@) ==> column.default is None
    &&& no_later(options, 0, count, "Generated"@) ==> column.generated is None && column.identity is None
    &&& no_later(options, 0, count, "NotNull"@) && no_later(options, 0, count, "Unique"@) && no_later(
        options,
        0,
        count,
        "Generated"@,
    ) ==> column.nullable
}

proof fn rules_are_kept(option: Json, a: TableModel, b: TableModel, name: Seq<char>)
    requires
        recorded(option, a, name),
        keeps_rules(a, b),
    ensures
        recorded(option, b, name),
{
    if tag(option) == "Unique"@ {
        assert(a.unique.contains(seq![name]) ==> b.unique.contains(seq![name]));
    }
    if tag(option) == "ForeignKey"@ {
        let key = foreign_key_of(seq![name], payload(option))->Ok_0;
        assert(b.foreign_keys.contains(key));
    }
    if tag(option) == "Check"@ {
        assert(b.checks.contains(payload(option)));
    }
}

/// What one option does to a column.
spec fn option_does(option: Json, column: ColumnModel, changed: ColumnModel) -> bool {
    &&& changed.name == column.name && changed.data_type == column.data_type
    &&& tag(option) != "Null"@ && !column.nullable ==> !changed.nullable
    &&& tag(option) == "NotNull"@ ==> !changed.nullable
    &&& tag(option) != "NotNull"@ && tag(option) != "Unique"@ && tag(option) != "Generated"@ && column.nullable
        ==> changed.nullable
    &&& tag(option) == "Default"@ ==> changed.default == Some(payload(option))
    &&& tag(option) != "Default"@ ==> changed.default == column.default
    &&& tag(option) == "Generated"@ ==> column.generated is None && (!(child(payload(option), "generation_expr"@) is Null)
        ==> changed.generated == Some(child(payload(option), "generation_expr"@)))
    &&& tag(option) != "Generated"@ ==> changed.generated == column.generated && changed.identity == column.identity
}

proof fn one_option_is_applied(table: TableModel, column: ColumnModel, option: Json, adding: bool, caller: AuthModel)
    ensures
        option_applied(table, column, option, adding, caller) matches Ok((next, changed)) ==> option_does(
            option,
            column,
            changed,
        ) && keeps_rules(table, next) && recorded(option, next, column.name) && next.columns == table.columns,
{
    option_names_differ();
    let node = payload(option);
    match option_applied(table, column, option, adding, caller) {
        Err(_) => {},
        Ok((next, changed)) => {
            pushed_is_held(table.unique, seq![column.name]);
            pushed_is_held(table.checks, node);
            if tag(option) == "ForeignKey"@ {
                pushed_is_held(table.foreign_keys, foreign_key_of(seq![column.name], node)->Ok_0);
            }
        },
    }
}

proof fn sooner(options: Json, from: int, count: int, name: Seq<char>)
    requires
        from <= count,
        no_later(options, from, count + 1, name),
    ensures
        no_later(options, from, count, name),
        tag(option_at(options, count)) != name,
{
    assert(tag(option_at(options, count)) != name);
}

proof fn column_is_shaped_on(options: Json, from: int, column: ColumnModel, changed: ColumnModel)
    requires
        0 <= from,
        column_shaped_by(options, from, column),
        option_does(option_at(options, from), column, changed),
    ensures
        column_shaped_by(options, from + 1, changed),
{
    let option = option_at(options, from);
    assert forall|j: int| #[trigger] decides(options, j, from + 1, "NotNull"@, "Null"@) implies !changed.nullable by {
        if j < from {
            sooner(options, j + 1, from, "Null"@);
            assert(decides(options, j, from, "NotNull"@, "Null"@));
        }
    }
    assert forall|j: int| #[trigger] decides(options, j, from + 1, "Default"@, "Default"@) implies changed.default == Some(
        payload(option_at(options, j)),
    ) by {
        if j < from {
            sooner(options, j + 1, from, "Default"@);
            assert(decides(options, j, from, "Default"@, "Default"@));
        }
    }
    assert forall|j: int| #[trigger] generates(options, j, from + 1) implies changed.generated == Some(
        child(payload(option_at(options, j)), "generation_expr"@),
    ) by {
        if j < from {
            assert(generates(options, j, from));
        }
    }
    if no_later(options, 0, from + 1, "Default"@) {
        sooner(options, 0, from, "Default"@);
    }
    if no_later(options, 0, from + 1, "Generated"@) {
        sooner(options, 0, from, "Generated"@);
        if no_later(options, 0, from + 1, "NotNull"@) && no_later(options, 0, from + 1, "Unique"@) {
            sooner(options, 0, from, "NotNull"@);
            sooner(options, 0, from, "Unique"@);
        }
    }
}

proof fn one_option_more(
    options: Json,
    from: int,
    table: TableModel,
    column: ColumnModel,
    adding: bool,
    caller: AuthModel,
)
    requires
        0 <= from < items(options).len(),
        shaped_by(options, from, table, column),
    ensures
        option_applied(table, column, option_at(options, from), adding, caller) matches Ok((next, changed)) ==> shaped_by(
            options,
            from + 1,
            next,
            changed,
        ) && keeps_rules(table, next) && changed.name == column.name && changed.data_type == column.data_type
            && next.columns == table.columns,
{
    let option = option_at(options, from);
    one_option_is_applied(table, column, option, adding, caller);
    match option_applied(table, column, option, adding, caller) {
        Err(_) => {},
        Ok((next, changed)) => {
            assert forall|j: int| 0 <= j < from + 1 implies recorded(#[trigger] option_at(options, j), next, changed.name) by {
                if j < from {
                    rules_are_kept(option_at(options, j), table, next, column.name);
                }
            }
            column_is_shaped_on(options, from, column, changed);
        },
    }
}

proof fn chained_rules(a: TableModel, b: TableModel, c: TableModel)
    requires
        keeps_rules(a, b),
        keeps_rules(b, c),
    ensures
        keeps_rules(a, c),
{
    assert forall|key: Seq<Seq<char>>| a.unique.contains(key) implies #[trigger] c.unique.contains(key) by {
        assert(b.unique.contains(key));
    }
    assert forall|key: ForeignKeyModel| a.foreign_keys.contains(key) implies #[trigger] c.foreign_keys.contains(key) by {
        assert(b.foreign_keys.contains(key));
    }
    assert forall|check: Json| a.checks.contains(check) implies #[trigger] c.checks.contains(check) by {
        assert(b.checks.contains(check));
    }
}

proof fn all_options(
    options: Json,
    from: int,
    table: TableModel,
    column: ColumnModel,
    adding: bool,
    caller: AuthModel,
)
    requires
        0 <= from <= items(options).len(),
        shaped_by(options, from, table, column),
    ensures
        options_applied_from(table, column, options, from, adding, caller) matches Ok((next, changed)) ==> shaped_by(
            options,
            items(options).len() as int,
            next,
            changed,
        ) && keeps_rules(table, next) && changed.name == column.name && changed.data_type == column.data_type
            && next.columns == table.columns,
    decreases items(options).len() - from,
{
    if from < items(options).len() {
        one_option_more(options, from, table, column, adding, caller);
        match option_applied(table, column, option_at(options, from), adding, caller) {
            Err(_) => {},
            Ok((mid, some)) => {
                all_options(options, from + 1, mid, some, adding, caller);
                match options_applied_from(mid, some, options, from + 1, adding, caller) {
                    Err(_) => {},
                    Ok((next, changed)) => {
                        chained_rules(table, mid, next);
                    },
                }
            },
        }
    }
}

/// The options of a column are all heeded: NOT NULL and NULL, DEFAULT, the keys, the checks and the generated
/// value that they declare.
pub proof fn column_options_are_heeded(
    table: TableModel,
    id: u64,
    name: Seq<char>,
    data_type: Seq<char>,
    options: Json,
    adding: bool,
    caller: AuthModel,
)
    ensures
        options_applied_from(table, plain_column(id, name, data_type), options, 0, adding, caller) matches Ok(
            (next, column),
        ) ==> shaped_by(options, items(options).len() as int, next, column) && keeps_rules(table, next) && column.name
            == name && column.data_type == data_type && next.columns == table.columns,
{
    all_options(options, 0, table, plain_column(id, name, data_type), adding, caller);
}

// ---------------------------------------------------------------------------------------------
// Tables
// ---------------------------------------------------------------------------------------------

/// Whether a column of a table is as a definition declares it. A column of an identity takes no nulls.
pub open spec fn as_defined(def: Json, table: TableModel, column: ColumnModel) -> bool {
    &&& column.name == ident_name(child(def, "name"@))
    &&& column.data_type == data_type_of(child(def, "data_type"@))
    &&& exists|shape: ColumnModel| #[trigger]
        shaped_by(child(def, "options"@), items(child(def, "options"@)).len() as int, table, shape) && shape.name
            == column.name && shape.default == column.default && shape.generated == column.generated && shape.identity
            == column.identity && column.nullable == (shape.nullable && shape.identity is None)
}

proof fn definitions_stay(def: Json, a: TableModel, b: TableModel, column: ColumnModel)
    requires
        as_defined(def, a, column),
        keeps_rules(a, b),
    ensures
        as_defined(def, b, column),
{
    let options = child(def, "options"@);
    let count = items(options).len() as int;
    let shape = choose|shape: ColumnModel| #[trigger]
        shaped_by(options, count, a, shape) && shape.name == column.name && shape.default == column.default
            && shape.generated == column.generated && shape.identity == column.identity && column.nullable == (
        shape.nullable && shape.identity is None);
    assert forall|j: int| 0 <= j < count implies recorded(#[trigger] option_at(options, j), b, shape.name) by {
        rules_are_kept(option_at(options, j), a, b, shape.name);
    }
    assert(shaped_by(options, count, b, shape));
}

proof fn columns_are_defined(
    database: DatabaseModel,
    table: TableModel,
    columns: Json,
    from: int,
    caller: AuthModel,
)
    requires
        0 <= from <= items(columns).len(),
        table.columns.len() == from,
        forall|p: int| 0 <= p < from ==> as_defined(items(columns)[p], table, #[trigger] table.columns[p]),
    ensures
        columns_declared_from(database, table, columns, from, caller) matches Ok((next, after)) ==> after.columns.len()
            == items(columns).len() && (forall|p: int|
            0 <= p < after.columns.len() ==> as_defined(items(columns)[p], after, #[trigger] after.columns[p]))
            && next.catalog == database.catalog && after.name == table.name && after.rows == table.rows && after.next_row_id
            == table.next_row_id && after.policies == table.policies && after.rls_enabled == table.rls_enabled,
    decreases items(columns).len() - from,
{
    if from < items(columns).len() {
        let def = items(columns)[from];
        let name = ident_name(child(def, "name"@));
        let ty = data_type_of(child(def, "data_type"@));
        let options = child(def, "options"@);
        match column_declared(database, table, def, caller) {
            Err(_) => {},
            Ok((next, after)) => {
                let id = database.next_object_id;
                column_options_are_heeded(table, id, name, ty, options, false, caller);
                crate::upkeep::options_aside(table, plain_column(id, name, ty), options, 0, false, caller);
                let (changed, shape) = options_applied_from(
                    table,
                    plain_column(id, name, ty),
                    options,
                    0,
                    false,
                    caller,
                )->Ok_0;
                let last = after.columns[from];
                assert(after == TableModel { columns: after.columns, ..changed });
                assert(keeps_rules(changed, after));
                assert forall|j: int| 0 <= j < items(options).len() implies recorded(
                    #[trigger] option_at(options, j),
                    after,
                    shape.name,
                ) by {
                    rules_are_kept(option_at(options, j), changed, after, shape.name);
                }
                assert(shaped_by(options, items(options).len() as int, after, shape));
                assert(as_defined(def, after, last));
                chained_rules(table, changed, after);
                assert forall|p: int| 0 <= p < from + 1 implies as_defined(
                    items(columns)[p],
                    after,
                    #[trigger] after.columns[p],
                ) by {
                    if p < from {
                        assert(after.columns[p] == table.columns[p]);
                        definitions_stay(items(columns)[p], table, after, table.columns[p]);
                    }
                }
                columns_are_defined(next, after, columns, from + 1, caller);
            },
        }
    }
}

/// Whether a table has the key or the check of a constraint.
pub open spec fn constrained(constraint: Json, table: TableModel) -> bool {
    let node = payload(constraint);
    let columns = ident_names(child(node, "columns"@));
    &&& tag(constraint) == "Unique"@ && flag(child(node, "is_primary"@)) && columns.len() > 0 ==> table.primary_key
        == columns
    &&& tag(constraint) == "Unique"@ && !flag(child(node, "is_primary"@)) ==> table.unique.contains(columns)
    &&& tag(constraint) == "ForeignKey"@ ==> foreign_key_of(columns, node) is Ok && table.foreign_keys.contains(
        foreign_key_of(columns, node)->Ok_0,
    )
    &&& tag(constraint) == "Check"@ ==> table.checks.contains(child(node, "expr"@))
    &&& tag(constraint) == "Unique"@ || tag(constraint) == "ForeignKey"@ || tag(constraint) == "Check"@
}

proof fn constraints_stay(constraint: Json, a: TableModel, b: TableModel)
    requires
        constrained(constraint, a),
        keeps_rules(a, b),
    ensures
        constrained(constraint, b),
{
    let node = payload(constraint);
    let columns = ident_names(child(node, "columns"@));
    if tag(constraint) == "Unique"@ {
        assert(a.unique.contains(columns) ==> b.unique.contains(columns));
    }
    if tag(constraint) == "ForeignKey"@ {
        assert(b.foreign_keys.contains(foreign_key_of(columns, node)->Ok_0));
    }
    if tag(constraint) == "Check"@ {
        assert(b.checks.contains(child(node, "expr"@)));
    }
}

proof fn constraints_are_met(table: TableModel, constraints: Json, from: int)
    requires
        0 <= from <= items(constraints).len(),
        forall|k: int| 0 <= k < from ==> constrained(#[trigger] items(constraints)[k], table),
    ensures
        constraints_declared_from(table, constraints, from) matches Ok(after) ==> keeps_rules(table, after) && (forall|
            k: int,
        | 0 <= k < items(constraints).len() ==> constrained(#[trigger] items(constraints)[k], after)) && after
            == (TableModel {
            primary_key: after.primary_key,
            unique: after.unique,
            foreign_keys: after.foreign_keys,
            checks: after.checks,
            ..table
        }),
    decreases items(constraints).len() - from,
{
    if from < items(constraints).len() {
        option_names_differ();
        let constraint = items(constraints)[from];
        let node = payload(constraint);
        let columns = ident_names(child(node, "columns"@));
        match constraint_declared(table, constraint) {
            Err(_) => {},
            Ok(next) => {
                pushed_is_held(table.unique, columns);
                pushed_is_held(table.checks, child(node, "expr"@));
                if tag(constraint) == "ForeignKey"@ {
                    pushed_is_held(table.foreign_keys, foreign_key_of(columns, node)->Ok_0);
                }
                assert(keeps_rules(table, next));
                assert(constrained(constraint, next));
                assert forall|k: int| 0 <= k < from + 1 implies constrained(#[trigger] items(constraints)[k], next) by {
                    if k < from {
                        constraints_stay(items(constraints)[k], table, next);
                    }
                }
                constraints_are_met(next, constraints, from + 1);
                match constraints_declared_from(next, constraints, from + 1) {
                    Err(_) => {},
                    Ok(after) => {
                        chained_rules(table, next, after);
                    },
                }
            },
        }
    }
}

/// Whether a table is what CREATE TABLE declares: empty, with its columns in their order and all its
/// constraints. A column of the primary key takes no nulls.
pub open spec fn table_defined(node: Json, name: Seq<char>, table: TableModel) -> bool {
    let columns = child(node, "columns"@);
    &&& table.name == name && table.rows.len() == 0 && table.next_row_id == 1 && table.policies.len() == 0
        && !table.rls_enabled
    &&& table.columns.len() == items(columns).len()
    &&& forall|p: int|
        0 <= p < table.columns.len() ==> if table.primary_key.contains((#[trigger] table.columns[p]).name) {
            !table.columns[p].nullable
        } else {
            as_defined(items(columns)[p], table, table.columns[p])
        }
    &&& forall|p: int|
        0 <= p < table.columns.len() ==> (#[trigger] table.columns[p]).name == ident_name(child(items(columns)[p], "name"@))
            && table.columns[p].data_type == data_type_of(child(items(columns)[p], "data_type"@))
    &&& forall|k: int|
        0 <= k < items(child(node, "constraints"@)).len() ==> constrained(
            #[trigger] items(child(node, "constraints"@))[k],
            table,
        )
}

/// CREATE TABLE adds the table that it declares, and changes no other. It takes authority, and is refused
/// where there is a table of that name, unless it says otherwise.
pub proof fn created_tables_are_as_declared(database: DatabaseModel, node: Json, caller: AuthModel, name: Seq<char>)
    requires
        sorted(database.catalog),
        table_name_of(child(node, "name"@)) == Ok::<Seq<char>, Failure>(name),
    ensures
        table_created(database, node, caller) matches Ok((next, _)) ==> caller.privileged && if get(database.catalog, name) is Some {
            next == database && flag(child(node, "if_not_exists"@))
        } else {
            &&& get(next.catalog, name) matches Some(table) && table_defined(node, name, table)
            &&& forall|other: Seq<char>|
                other != name ==> #[trigger] get(next.catalog, other) == get(database.catalog, other)
        },
{
    match table_created(database, node, caller) {
        Err(_) => {},
        Ok((last, _)) => {
            if get(database.catalog, name) is None {
                let (next, table) = table_declared(database, name, node, caller)->Ok_0;
                let start = plain_table(database.next_object_id, name);
                let first = crate::columns::allocated(database)->Ok_0.0;
                let columns = child(node, "columns"@);
                let constraints = child(node, "constraints"@);
                columns_are_defined(first, start, columns, 0, caller);
                let (second, half) = columns_declared_from(first, start, columns, 0, caller)->Ok_0;
                constraints_are_met(half, constraints, 0);
                let full = constraints_declared_from(half, constraints, 0)->Ok_0;
                assert(table == TableModel { columns: table.columns, ..full });
                assert(keeps_rules(full, table));
                chained_rules(half, full, table);
                assert forall|p: int| 0 <= p < table.columns.len() implies if table.primary_key.contains(
                    (#[trigger] table.columns[p]).name,
                ) {
                    !table.columns[p].nullable
                } else {
                    as_defined(items(columns)[p], table, table.columns[p])
                } by {
                    let column = half.columns[p];
                    crate::alterations::listing(full.primary_key, column.name);
                    if !table.primary_key.contains(column.name) {
                        assert(table.columns[p] == column);
                        assert(as_defined(items(columns)[p], half, half.columns[p]));
                        definitions_stay(items(columns)[p], half, table, column);
                    }
                }
                assert forall|p: int| 0 <= p < table.columns.len() implies (#[trigger] table.columns[p]).name == ident_name(
                    child(items(columns)[p], "name"@),
                ) && table.columns[p].data_type == data_type_of(child(items(columns)[p], "data_type"@)) by {
                    assert(as_defined(items(columns)[p], half, half.columns[p]));
                }
                assert forall|k: int| 0 <= k < items(constraints).len() implies constrained(
                    #[trigger] items(constraints)[k],
                    table,
                ) by {
                    constraints_stay(items(constraints)[k], full, table);
                }
                one_table_changes(next, name, table);
            }
        },
    }
}

} // verus!
