//! Who may change definitions, and how a change of them is noticed.
//!
//! What was derived for a version of the schema, such as a built view, may be used as long as the
//! version stays the same: every change of a definition comes with a greater version.

use vstd::prelude::*;
use crate::alter::{operations_applied_from, operation_applied, with_table};
use crate::ast::{batch_of, factor_name_of, first_of, statements_of, table_name_of, words_of};
use crate::catalog::{local_name, table_of, AuthModel, DatabaseModel, ForeignKeyModel, ResultModel, RowModel, TableModel};
use crate::depend::{
    dependents_of, del_length, detached_from, tables_detached_from, without_dependents, without_functions_from,
    without_views_from,
};
use crate::dml::{deleted, inserted, row_inserted, rows_inserted_from, updated, InsertionModel};
use crate::error::Failure;
use crate::execute::{batch_executed, migration_applied, statement_done, statements_done_from, text_done, texts_done_from};
use crate::json::Json;
use crate::ordmap::{
    del, get_after_put, has_key, place_from, place_from_range, put, sorted, spot_from, spot_from_range, Ranked,
};
use crate::referential::{
    change_applied, changes_applied, changes_between, key_reacted, keys_reacted_from, rows_acted_from,
    rows_deleted_from, ChangeModel, CASCADE_LIMIT,
};
use crate::statement::{columns_declared_from, column_declared, statement_executed, table_created, views_dropped_from};
use crate::value::{child, item, items, payload, tag};

verus! {

/// Whether two tables have the same definition: all but the rows and their numbering.
pub open spec fn same_table(a: TableModel, b: TableModel) -> bool {
    b == TableModel { rows: b.rows, next_row_id: b.next_row_id, ..a }
}

/// Whether two states have the same definitions: all but the rows of tables and their numbering.
pub open spec fn same_definitions(a: DatabaseModel, b: DatabaseModel) -> bool {
    &&& b == DatabaseModel { catalog: b.catalog, ..a }
    &&& a.catalog.len() == b.catalog.len()
    &&& forall|i: int|
        #![trigger a.catalog[i]]
        #![trigger b.catalog[i]]
        0 <= i < a.catalog.len() ==> a.catalog[i].0 == b.catalog[i].0 && same_table(
            a.catalog[i].1,
            b.catalog[i].1,
        )
}

/// Whether a later state has the same version of the schema and the same migrations.
pub open spec fn same_history(a: DatabaseModel, b: DatabaseModel) -> bool {
    b.schema_version == a.schema_version && b.migrations == a.migrations
}

/// Whether a later state has the version of the schema or a greater one, and the same migrations.
spec fn no_older(a: DatabaseModel, b: DatabaseModel) -> bool {
    b.schema_version >= a.schema_version && b.migrations == a.migrations
}

/// Whether a later state has a greater version of the schema, and the same migrations.
spec fn newer(a: DatabaseModel, b: DatabaseModel) -> bool {
    b.schema_version > a.schema_version && b.migrations == a.migrations
}

/// Whether the definitions of a later state are the same, or its version tells that they are not.
pub open spec fn unchanged_or_newer(a: DatabaseModel, b: DatabaseModel) -> bool {
    b.schema_version > a.schema_version || same_definitions(a, b)
}

/// Whether a name has no schema in front.
pub open spec fn plain_name(name: Seq<char>) -> bool {
    local_name(name) == name
}

/// Whether no table has the name of a schema inside its own.
pub open spec fn plain_catalog(catalog: Seq<(Seq<char>, TableModel)>) -> bool {
    forall|i: int| 0 <= i < catalog.len() ==> plain_name((#[trigger] catalog[i]).0)
}

/// The table that a statement writes to.
pub open spec fn target_of(statement: Json) -> Option<Seq<char>> {
    let node = payload(statement);
    let name = if tag(statement) == "Insert"@ {
        table_name_of(child(node, "table_name"@))
    } else if tag(statement) == "Update"@ {
        factor_name_of(child(child(node, "table"@), "relation"@))
    } else {
        factor_name_of(child(item(child(node, "from"@), 0), "relation"@))
    };
    match name {
        Ok(name) => if tag(statement) == "Insert"@ || tag(statement) == "Update"@ || tag(statement) == "Delete"@ {
            Some(name)
        } else {
            None
        },
        Err(_) => None,
    }
}

/// Whether a statement writes to no table by a name with the name of a schema inside.
pub open spec fn plain_statement(statement: Json) -> bool {
    target_of(statement) matches Some(name) ==> plain_name(name)
}

/// Whether all statements of a text do.
pub open spec fn plain_text(sql: Seq<char>) -> bool {
    statements_of(sql) matches Ok(list) ==> forall|i: int| 0 <= i < list.len() ==> plain_statement(#[trigger] list[i])
}

/// Whether all statements of a batch do.
pub open spec fn plain_batch(sql: Seq<char>) -> bool {
    batch_of(sql) matches Ok(texts) ==> forall|i: int| 0 <= i < texts.len() ==> plain_text(#[trigger] texts[i])
}

// ---------------------------------------------------------------------------------------------
// Rows
// ---------------------------------------------------------------------------------------------

pub proof fn same_definitions_chain(a: DatabaseModel, b: DatabaseModel, c: DatabaseModel)
    requires
        same_definitions(a, b),
        same_definitions(b, c),
    ensures
        same_definitions(a, c),
{
    assert forall|i: int|
        #![trigger a.catalog[i]]
        #![trigger c.catalog[i]]
        0 <= i < a.catalog.len() implies a.catalog[i].0 == c.catalog[i].0 && same_table(
        a.catalog[i].1,
        c.catalog[i].1,
    ) by {
        assert(a.catalog[i].0 == b.catalog[i].0);
        assert(b.catalog[i].0 == c.catalog[i].0);
    }
}

proof fn names_stay_plain(a: DatabaseModel, b: DatabaseModel)
    requires
        same_definitions(a, b),
        sorted(a.catalog),
        plain_catalog(a.catalog),
    ensures
        sorted(b.catalog),
        plain_catalog(b.catalog),
{
    assert forall|i: int, j: int|
        #![trigger b.catalog[i], b.catalog[j]]
        0 <= i < j < b.catalog.len() implies b.catalog[i].0.before(b.catalog[j].0) by {
        assert(a.catalog[i].0.before(a.catalog[j].0));
    }
    assert forall|i: int| 0 <= i < b.catalog.len() implies plain_name((#[trigger] b.catalog[i]).0) by {
        assert(plain_name(a.catalog[i].0));
    }
}

/// Putting a table back with other rows keeps the definitions.
proof fn rows_keep_definitions(database: DatabaseModel, name: Seq<char>, table: TableModel, next: TableModel)
    requires
        sorted(database.catalog),
        plain_name(name),
        table_of(database, name) == Ok::<TableModel, Failure>(table),
        same_table(table, next),
    ensures
        same_definitions(database, with_table(database, name, next)),
{
    let catalog = database.catalog;
    place_from_range(catalog, name, 0);
    spot_from_range(catalog, name, 0);
    let place = place_from(catalog, name, 0);
    let spot = spot_from(catalog, name, 0);
    assert(catalog[spot].0 == name);
    Ranked::irreflexive(name);
    if place < spot {
        assert(catalog[place].0.before(catalog[spot].0));
    } else if spot < place {
        assert(catalog[spot].0.before(name));
    }
    let after = with_table(database, name, next);
    assert(after.catalog =~= catalog.update(spot, (name, next)));
}

proof fn insertion_keeps_table(
    state: InsertionModel,
    target: Seq<Seq<char>>,
    input: Json,
    from: int,
    keys: Seq<Seq<Seq<char>>>,
    conflict: Json,
    returning: Json,
    caller: AuthModel,
)
    ensures
        match rows_inserted_from(state, target, input, from, keys, conflict, returning, caller) {
            Ok(done) => same_table(state.table, done.table),
            Err(_) => true,
        },
    decreases items(input).len() - from,
{
    if 0 <= from < items(input).len() {
        match row_inserted(state, target, items(input)[from], keys, conflict, returning, caller) {
            Ok(next) => {
                assert(same_table(state.table, next.table));
                insertion_keeps_table(next, target, input, from + 1, keys, conflict, returning, caller);
            },
            Err(_) => {},
        }
    }
}

proof fn deletion_keeps_table(
    name: Seq<char>,
    table: TableModel,
    rows: Seq<RowModel>,
    from: int,
    more: Seq<ChangeModel>,
)
    ensures
        same_table(table, rows_deleted_from(name, table, rows, from, more).0),
    decreases rows.len() - from,
{
    if 0 <= from < rows.len() {
        deletion_keeps_table(
            name,
            TableModel { rows: del(table.rows, rows[from].id), ..table },
            rows,
            from + 1,
            more.push(ChangeModel { table: name, before: rows[from], after: None }),
        );
    }
}

proof fn action_keeps_table(
    name: Seq<char>,
    action: crate::catalog::ReferentialAction,
    table: TableModel,
    key: ForeignKeyModel,
    rows: Seq<RowModel>,
    from: int,
    new_key: Option<Seq<Json>>,
    more: Seq<ChangeModel>,
    caller: AuthModel,
)
    ensures
        match rows_acted_from(name, action, table, key, rows, from, new_key, more, caller) {
            Ok((next, _)) => same_table(table, next),
            Err(_) => true,
        },
    decreases rows.len() - from,
{
    if 0 <= from < rows.len() {
        match crate::referential::row_acted(action, table.columns, key, rows[from], new_key, caller) {
            Ok(row) => {
                action_keeps_table(
                    name,
                    action,
                    TableModel { rows: put(table.rows, row.id, row), ..table },
                    key,
                    rows,
                    from + 1,
                    new_key,
                    more.push(ChangeModel { table: name, before: rows[from], after: Some(row) }),
                    caller,
                );
            },
            Err(_) => {},
        }
    }
}

proof fn reaction_keeps_definitions(
    database: DatabaseModel,
    target: TableModel,
    change: ChangeModel,
    name: Seq<char>,
    key: ForeignKeyModel,
    more: Seq<ChangeModel>,
    caller: AuthModel,
)
    ensures
        match key_reacted(database, target, change, name, key, more, caller) {
            Ok((next, _)) => same_history(database, next) && (sorted(database.catalog)
                && plain_name(name) ==> same_definitions(database, next)),
            Err(_) => true,
        },
{
    let referred = crate::rules::referred_key(key, target);
    let old_key = crate::referential::full_key(change.before.values, referred);
    let new_key = crate::referential::new_key_of(change, referred);
    match table_of(database, name) {
        Ok(source) => {
            if old_key is Some {
                let rows = crate::referential::referring_from(source.rows, 0, key.columns, old_key->0, Seq::empty());
                deletion_keeps_table(name, source, rows, 0, more);
                let gone = rows_deleted_from(name, source, rows, 0, more).0;
                if sorted(database.catalog) && plain_name(name) {
                    rows_keep_definitions(database, name, source, gone);
                }
                match crate::referential::action_for(key, change) {
                    Some(action) => {
                        action_keeps_table(name, action, source, key, rows, 0, new_key, more, caller);
                        match rows_acted_from(name, action, source, key, rows, 0, new_key, more, caller) {
                            Ok((table, _)) => {
                                if sorted(database.catalog) && plain_name(name) {
                                    rows_keep_definitions(database, name, source, table);
                                }
                            },
                            Err(_) => {},
                        }
                    },
                    None => {},
                }
            }
        },
        Err(_) => {},
    }
}

proof fn reactions_keep_definitions(
    database: DatabaseModel,
    target: TableModel,
    change: ChangeModel,
    sources: Seq<(Seq<char>, ForeignKeyModel)>,
    from: int,
    more: Seq<ChangeModel>,
    caller: AuthModel,
)
    ensures
        match keys_reacted_from(database, target, change, sources, from, more, caller) {
            Ok((next, _)) => same_history(database, next) && (sorted(database.catalog)
                && plain_catalog(database.catalog) && plain_sources(sources) ==> same_definitions(database, next)),
            Err(_) => true,
        },
    decreases sources.len() - from,
{
    if 0 <= from < sources.len() {
        let (name, key) = sources[from];
        reaction_keeps_definitions(database, target, change, name, key, more, caller);
        match key_reacted(database, target, change, name, key, more, caller) {
            Ok((next, changes)) => {
                reactions_keep_definitions(next, target, change, sources, from + 1, changes, caller);
                if sorted(database.catalog) && plain_catalog(database.catalog) && plain_sources(sources) {
                    names_stay_plain(database, next);
                    match keys_reacted_from(next, target, change, sources, from + 1, changes, caller) {
                        Ok((last, _)) => {
                            same_definitions_chain(database, next, last);
                        },
                        Err(_) => {},
                    }
                }
            },
            Err(_) => {},
        }
    }
}

/// Whether all sources of references have names without a schema in front.
pub open spec fn plain_sources(sources: Seq<(Seq<char>, ForeignKeyModel)>) -> bool {
    forall|i: int| 0 <= i < sources.len() ==> plain_name((#[trigger] sources[i]).0)
}

proof fn keys_are_plain(name: Seq<char>, keys: Seq<ForeignKeyModel>, from: int, target: Seq<char>, found: Seq<
    (Seq<char>, ForeignKeyModel),
>)
    requires
        plain_name(name),
        plain_sources(found),
    ensures
        plain_sources(crate::referential::keys_to_from(name, keys, from, target, found)),
    decreases keys.len() - from,
{
    if 0 <= from < keys.len() {
        if keys[from].foreign_table == target {
            keys_are_plain(name, keys, from + 1, target, found.push((name, keys[from])));
        } else {
            keys_are_plain(name, keys, from + 1, target, found);
        }
    }
}

pub proof fn sources_are_plain(
    catalog: Seq<(Seq<char>, TableModel)>,
    from: int,
    target: Seq<char>,
    found: Seq<(Seq<char>, ForeignKeyModel)>,
)
    requires
        plain_catalog(catalog),
        plain_sources(found),
    ensures
        plain_sources(crate::referential::sources_from(catalog, from, target, found)),
    decreases catalog.len() - from,
{
    if 0 <= from < catalog.len() {
        keys_are_plain(catalog[from].0, catalog[from].1.foreign_keys, 0, target, found);
        sources_are_plain(
            catalog,
            from + 1,
            target,
            crate::referential::keys_to_from(catalog[from].0, catalog[from].1.foreign_keys, 0, target, found),
        );
    }
}

/// Referential actions keep the definitions.
pub proof fn actions_keep_definitions(
    database: DatabaseModel,
    pending: Seq<ChangeModel>,
    steps: int,
    caller: AuthModel,
)
    ensures
        match changes_applied(database, pending, steps, caller) {
            Ok(next) => same_history(database, next) && (sorted(database.catalog)
                && plain_catalog(database.catalog) ==> same_definitions(database, next)),
            Err(_) => true,
        },
    decreases CASCADE_LIMIT - steps,
{
    if pending.len() > 0 && steps < CASCADE_LIMIT {
        let change = pending[0];
        match table_of(database, change.table) {
            Ok(target) => {
                let sources = crate::referential::sources_from(database.catalog, 0, change.table, Seq::empty());
                reactions_keep_definitions(database, target, change, sources, 0, Seq::empty(), caller);
                if plain_catalog(database.catalog) {
                    sources_are_plain(database.catalog, 0, change.table, Seq::empty());
                }
                match change_applied(database, change, caller) {
                    Ok((next, more)) => {
                        actions_keep_definitions(next, pending.skip(1) + more, steps + 1, caller);
                        if sorted(database.catalog) && plain_catalog(database.catalog) {
                            names_stay_plain(database, next);
                            match changes_applied(next, pending.skip(1) + more, steps + 1, caller) {
                                Ok(last) => {
                                    same_definitions_chain(database, next, last);
                                },
                                Err(_) => {},
                            }
                        }
                    },
                    Err(_) => {},
                }
            },
            Err(_) => {},
        }
    }
}

// ---------------------------------------------------------------------------------------------
// Definitions
// ---------------------------------------------------------------------------------------------

proof fn functions_keep_version(database: DatabaseModel, names: Seq<Seq<char>>, from: int)
    ensures
        same_history(database, without_functions_from(database, names, from)),
    decreases names.len() - from,
{
    if 0 <= from < names.len() {
        functions_keep_version(
            DatabaseModel { functions: del(database.functions, names[from]), ..database },
            names,
            from + 1,
        );
    }
}

proof fn removal_keeps_version(database: DatabaseModel, relation: Seq<char>, cascade: bool)
    ensures
        match without_dependents(database, relation, cascade) {
            Ok(next) => same_history(database, next),
            Err(_) => true,
        },
    decreases database.views.len(), 1int, 0int,
{
    match dependents_of(database, relation) {
        Ok((views, functions)) => {
            view_removal_keeps_version(database, views, 0);
            match without_views_from(database, views, 0) {
                Ok(next) => {
                    functions_keep_version(next, functions, 0);
                },
                Err(_) => {},
            }
        },
        Err(_) => {},
    }
}

proof fn view_removal_keeps_version(database: DatabaseModel, names: Seq<Seq<char>>, from: int)
    ensures
        match without_views_from(database, names, from) {
            Ok(next) => same_history(database, next),
            Err(_) => true,
        },
    decreases database.views.len(), 0int, names.len() - from,
{
    if 0 <= from < names.len() {
        if !has_key(database.views, names[from]) {
            view_removal_keeps_version(database, names, from + 1);
        } else {
            del_length(database.views, names[from]);
            let fewer = DatabaseModel { views: del(database.views, names[from]), ..database };
            removal_keeps_version(fewer, names[from], true);
            match without_dependents(fewer, names[from], true) {
                Ok(next) => {
                    if next.views.len() < database.views.len() {
                        view_removal_keeps_version(next, names, from + 1);
                    }
                },
                Err(_) => {},
            }
        }
    }
}

proof fn views_dropping_keeps_version(
    database: DatabaseModel,
    names: Json,
    from: int,
    if_exists: bool,
    cascade: bool,
)
    ensures
        match views_dropped_from(database, names, from, if_exists, cascade) {
            Ok(next) => same_history(database, next),
            Err(_) => true,
        },
    decreases items(names).len() - from,
{
    if 0 <= from < items(names).len() {
        match table_name_of(items(names)[from]) {
            Ok(name) => {
                removal_keeps_version(database, name, cascade);
                match without_dependents(database, name, cascade) {
                    Ok(next) => {
                        views_dropping_keeps_version(
                            DatabaseModel { views: del(next.views, name), ..next },
                            names,
                            from + 1,
                            if_exists,
                            cascade,
                        );
                    },
                    Err(_) => {},
                }
            },
            Err(_) => {},
        }
    }
}

proof fn detaching_keeps_version(database: DatabaseModel, names: Seq<(Seq<char>, ())>, from: int, cascade: bool)
    ensures
        match tables_detached_from(database, names, from, cascade) {
            Ok(next) => same_history(database, next),
            Err(_) => true,
        },
    decreases names.len() - from,
{
    if 0 <= from < names.len() {
        removal_keeps_version(database, names[from].0, cascade);
        match without_dependents(database, names[from].0, cascade) {
            Ok(next) => match detached_from(next.catalog, 0, names, names[from].0, cascade) {
                Ok(catalog) => {
                    detaching_keeps_version(DatabaseModel { catalog, ..next }, names, from + 1, cascade);
                },
                Err(_) => {},
            },
            Err(_) => {},
        }
    }
}

proof fn declaring_keeps_version(database: DatabaseModel, table: TableModel, columns: Json, from: int, caller: AuthModel)
    ensures
        match columns_declared_from(database, table, columns, from, caller) {
            Ok((next, _)) => same_history(database, next),
            Err(_) => true,
        },
    decreases items(columns).len() - from,
{
    if 0 <= from < items(columns).len() {
        match column_declared(database, table, items(columns)[from], caller) {
            Ok((next, changed)) => {
                declaring_keeps_version(next, changed, columns, from + 1, caller);
            },
            Err(_) => {},
        }
    }
}

proof fn operation_keeps_version(
    database: DatabaseModel,
    name: Seq<char>,
    table: TableModel,
    operation: Json,
    caller: AuthModel,
)
    ensures
        match operation_applied(database, name, table, operation, caller) {
            Ok(Some((next, _, _))) => same_history(database, next),
            _ => true,
        },
{
    let node = payload(operation);
    removal_keeps_version(database, name, crate::value::flag(child(node, "cascade"@)));
}

proof fn altering_advances(
    database: DatabaseModel,
    name: Seq<char>,
    operations: Json,
    from: int,
    caller: AuthModel,
)
    ensures
        match operations_applied_from(database, name, operations, from, caller) {
            Ok(next) => next == database || newer(database, next),
            Err(_) => true,
        },
    decreases items(operations).len() - from,
{
    if 0 <= from < items(operations).len() {
        match table_of(database, name) {
            Ok(table) => {
                let operation = items(operations)[from];
                operation_keeps_version(database, name, table, operation, caller);
                match operation_applied(database, name, table, operation, caller) {
                    Ok(None) => {
                        altering_advances(database, name, operations, from + 1, caller);
                    },
                    Ok(Some((next, changed, new_name))) => {
                        match crate::depend::schema_changed(with_table(next, new_name, changed)) {
                            Ok(last) => {
                                altering_advances(last, new_name, operations, from + 1, caller);
                            },
                            Err(_) => {},
                        }
                    },
                    Err(_) => {},
                }
            },
            Err(_) => {},
        }
    }
}

proof fn creating_advances(database: DatabaseModel, node: Json, caller: AuthModel)
    ensures
        match table_created(database, node, caller) {
            Ok((next, _)) => caller.privileged && (next == database || newer(database, next)),
            Err(_) => true,
        },
{
    match crate::columns::allocated(database) {
        Ok((first, id)) => {
            match table_name_of(child(node, "name"@)) {
                Ok(name) => {
                    declaring_keeps_version(
                        first,
                        crate::statement::plain_table(id, name),
                        child(node, "columns"@),
                        0,
                        caller,
                    );
                },
                Err(_) => {},
            }
        },
        Err(_) => {},
    }
}

/// What one statement does to the definitions.
proof fn statement_steps(database: DatabaseModel, statement: Json, caller: AuthModel)
    ensures
        match statement_executed(database, statement, caller) {
            Ok((next, _)) => {
                &&& no_older(database, next)
                &&& sorted(database.catalog) && plain_statement(statement) ==> unchanged_or_newer(database, next) && (
                !caller.privileged ==> same_definitions(database, next))
            },
            Err(_) => true,
        },
{
    let node = payload(statement);
    match statement_executed(database, statement, caller) {
        Err(_) => {},
        Ok((next, _)) => {
            assert(same_definitions(database, database));
            if tag(statement) == "AlterTable"@ {
                match table_name_of(child(node, "name"@)) {
                    Ok(name) => {
                        altering_advances(database, name, child(node, "operations"@), 0, caller);
                    },
                    Err(_) => {},
                }
            } else if tag(statement) == "Drop"@ && tag(child(node, "object_type"@)) == "Table"@ {
                match crate::depend::table_set_from(child(node, "names"@), 0, Seq::empty()) {
                    Ok(set) => {
                        detaching_keeps_version(database, set, 0, crate::value::flag(child(node, "cascade"@)));
                    },
                    Err(_) => {},
                }
            } else if tag(statement) == "CreateView"@ {
            } else if tag(statement) == "Drop"@ && tag(child(node, "object_type"@)) == "View"@ {
                views_dropping_keeps_version(
                    database,
                    child(node, "names"@),
                    0,
                    crate::value::flag(child(node, "if_exists"@)),
                    crate::value::flag(child(node, "cascade"@)),
                );
            } else if tag(statement) == "CreateIndex"@ {
            } else if tag(statement) == "CreateTable"@ {
                creating_advances(database, node, caller);
            } else {
                mutation_steps(database, statement, caller);
            }
        },
    }
}

/// A statement that only reads or changes rows keeps the definitions.
pub proof fn mutation_steps(database: DatabaseModel, statement: Json, caller: AuthModel)
    requires
        tag(statement) == "Insert"@ || tag(statement) == "Update"@ || tag(statement) == "Delete"@ || tag(statement)
            == "Query"@,
    ensures
        match statement_executed(database, statement, caller) {
            Ok((next, _)) => {
                &&& same_history(database, next)
                &&& sorted(database.catalog) && plain_statement(statement) ==> same_definitions(database, next)
            },
            Err(_) => true,
        },
{
    distinct_kinds();
    let node = payload(statement);
    assert(same_definitions(database, database));
    if sorted(database.catalog) && plain_statement(statement) {
        if tag(statement) == "Insert"@ {
            assert(statement_executed(database, statement, caller) == inserted(database, node, caller));
            match inserted(database, node, caller) {
                Ok((next, _)) => {
                    let name = table_name_of(child(node, "table_name"@))->Ok_0;
                    let table = table_of(database, name)->Ok_0;
                    let conflict = crate::dml::conflict_of(child(node, "on"@))->Ok_0;
                    let keys = crate::dml::conflict_keys_of(table, child(node, "on"@), conflict)->Ok_0;
                    let target = crate::dml::insert_target(table, child(node, "columns"@))->Ok_0;
                    let input = crate::dml::insert_rows(child(node, "source"@))->Ok_0;
                    let state = InsertionModel {
                        table,
                        output: Seq::empty(),
                        affected: 0,
                        touched: Seq::empty(),
                    };
                    let returning = child(node, "returning"@);
                    insertion_keeps_table(state, target, input, 0, keys, conflict, returning, caller);
                    let done = rows_inserted_from(state, target, input, 0, keys, conflict, returning, caller)->Ok_0;
                    rows_keep_definitions(database, name, table, done.table);
                },
                Err(_) => {},
            }
        } else if tag(statement) == "Update"@ {
            assert(statement_executed(database, statement, caller) == updated(database, node, caller));
            match updated(database, node, caller) {
                Ok((next, _)) => {
                    let name = factor_name_of(child(child(node, "table"@), "relation"@))->Ok_0;
                    let table = table_of(database, name)->Ok_0;
                    let found = crate::dml::updates_from(table, node, 0, Seq::empty(), Seq::empty(), caller)->Ok_0;
                    rows_keep_definitions(
                        database,
                        name,
                        table,
                        TableModel { rows: crate::dml::rows_put_from(table.rows, found.0, 0), ..table },
                    );
                },
                Err(_) => {},
            }
        } else if tag(statement) == "Delete"@ {
            assert(statement_executed(database, statement, caller) == deleted(database, node, caller));
            match deleted(database, node, caller) {
                Ok((next, _)) => {
                    let name = factor_name_of(child(item(child(node, "from"@), 0), "relation"@))->Ok_0;
                    let table = table_of(database, name)->Ok_0;
                    let found = crate::dml::deletions_from(table, node, 0, Seq::empty(), Seq::empty(), caller)->Ok_0;
                    rows_keep_definitions(
                        database,
                        name,
                        table,
                        TableModel { rows: crate::dml::rows_removed_from(table.rows, found.0, 0), ..table },
                    );
                },
                Err(_) => {},
            }
        }
    }
}

proof fn distinct_kinds()
    ensures
        "Insert"@ != "AlterTable"@,
        "Insert"@ != "Drop"@,
        "Insert"@ != "CreateView"@,
        "Insert"@ != "CreateIndex"@,
        "Insert"@ != "CreateTable"@,
        "Update"@ != "AlterTable"@,
        "Update"@ != "Drop"@,
        "Update"@ != "CreateView"@,
        "Update"@ != "CreateIndex"@,
        "Update"@ != "CreateTable"@,
        "Update"@ != "Insert"@,
        "Delete"@ != "AlterTable"@,
        "Delete"@ != "Drop"@,
        "Delete"@ != "CreateView"@,
        "Delete"@ != "CreateIndex"@,
        "Delete"@ != "CreateTable"@,
        "Delete"@ != "Insert"@,
        "Delete"@ != "Update"@,
        "Query"@ != "AlterTable"@,
        "Query"@ != "Drop"@,
        "Query"@ != "CreateView"@,
        "Query"@ != "CreateIndex"@,
        "Query"@ != "CreateTable"@,
        "Query"@ != "Insert"@,
        "Query"@ != "Update"@,
        "Query"@ != "Delete"@,
{
    reveal_strlit("Insert");
    reveal_strlit("Update");
    reveal_strlit("Delete");
    reveal_strlit("Query");
    reveal_strlit("AlterTable");
    reveal_strlit("Drop");
    reveal_strlit("CreateView");
    reveal_strlit("CreateIndex");
    reveal_strlit("CreateTable");
    assert("Insert"@[0] == 'I' && "Update"@[0] == 'U' && "Delete"@[0] == 'D' && "Query"@[0] == 'Q');
    assert("AlterTable"@[0] == 'A' && "Drop"@[1] == 'r' && "Delete"@[1] == 'e');
    assert("CreateView"@[0] == 'C' && "CreateIndex"@[0] == 'C' && "CreateTable"@[0] == 'C');
}

proof fn statement_keeps(database: DatabaseModel, statement: Json, caller: AuthModel)
    ensures
        match statement_done(database, statement, caller) {
            Ok((next, _)) => {
                &&& no_older(database, next)
                &&& sorted(database.catalog) && plain_catalog(database.catalog) && plain_statement(statement)
                    ==> unchanged_or_newer(database, next) && (!caller.privileged ==> same_definitions(database, next))
            },
            Err(_) => true,
        },
{
    statement_steps(database, statement, caller);
    match statement_executed(database, statement, caller) {
        Ok((next, _)) => {
            let pending = changes_between(database, next);
            actions_keep_definitions(next, pending, 0, caller);
            match changes_applied(next, pending, 0, caller) {
                Ok(acted) => {
                    if sorted(database.catalog) && plain_catalog(database.catalog) && same_definitions(database, next) {
                        names_stay_plain(database, next);
                        same_definitions_chain(database, next, acted);
                    }
                },
                Err(_) => {},
            }
        },
        Err(_) => {},
    }
}

proof fn statements_keep(
    database: DatabaseModel,
    list: Seq<Json>,
    from: int,
    result: ResultModel,
    caller: AuthModel,
)
    ensures
        match statements_done_from(database, list, from, result, caller) {
            Ok((next, _)) => {
                &&& no_older(database, next)
                &&& sorted(database.catalog) && plain_catalog(database.catalog) && (forall|i: int|
                    0 <= i < list.len() ==> plain_statement(#[trigger] list[i])) ==> unchanged_or_newer(database, next) && (
                !caller.privileged ==> same_definitions(database, next))
            },
            Err(_) => true,
        },
    decreases list.len() - from,
{
    assert(same_definitions(database, database));
    if 0 <= from < list.len() {
        statement_keeps(database, list[from], caller);
        match statement_done(database, list[from], caller) {
            Ok((next, rows)) => {
                statements_keep(next, list, from + 1, rows, caller);
                if sorted(database.catalog) && plain_catalog(database.catalog) && (forall|i: int|
                    0 <= i < list.len() ==> plain_statement(#[trigger] list[i])) {
                    if same_definitions(database, next) {
                        names_stay_plain(database, next);
                        match statements_done_from(next, list, from + 1, rows, caller) {
                            Ok((last, _)) => {
                                if same_definitions(next, last) {
                                    same_definitions_chain(database, next, last);
                                }
                            },
                            Err(_) => {},
                        }
                    }
                }
            },
            Err(_) => {},
        }
    }
}

proof fn text_keeps(database: DatabaseModel, sql: Seq<char>, result: ResultModel, caller: AuthModel)
    ensures
        match text_done(database, sql, result, caller) {
            Ok((next, _)) => {
                &&& no_older(database, next)
                &&& sorted(database.catalog) && plain_catalog(database.catalog) && plain_text(sql)
                    ==> unchanged_or_newer(database, next) && (!caller.privileged ==> same_definitions(database, next))
            },
            Err(_) => true,
        },
{
    match statements_of(sql) {
        Ok(list) => {
            statements_keep(database, list, 0, result, caller);
        },
        Err(_) => {},
    }
    match words_of(sql) {
        Ok(words) => {
            match crate::deferred::statement_untimed(words) {
                Ok((text, keys)) => {
                    timed_table_advances(database, text, keys, caller);
                },
                Err(_) => {},
            }
        },
        Err(_) => {},
    }
}

proof fn timed_table_advances(
    database: DatabaseModel,
    sql: Seq<char>,
    keys: crate::deferred::TimedKeysModel,
    caller: AuthModel,
)
    ensures
        match crate::deferred::timed_created(database, sql, keys, caller) {
            Ok((next, _)) => caller.privileged && no_older(database, next)
                && unchanged_or_newer(database, next),
            Err(_) => true,
        },
{
    distinct_kinds();
    distinct_creations();
    assert(same_definitions(database, database));
    match statements_of(sql) {
        Ok(list) => {
            let statement = first_of(list);
            if tag(statement) == "CreateTable"@ {
                creating_advances(database, payload(statement), caller);
                assert(statement_executed(database, statement, caller) == table_created(
                    database,
                    payload(statement),
                    caller,
                ));
            }
        },
        Err(_) => {},
    }
}

proof fn distinct_creations()
    ensures
        "CreateTable"@ != "AlterTable"@,
        "CreateTable"@ != "Drop"@,
        "CreateTable"@ != "CreateView"@,
        "CreateTable"@ != "CreateIndex"@,
{
    reveal_strlit("AlterTable");
    reveal_strlit("Drop");
    reveal_strlit("CreateView");
    reveal_strlit("CreateIndex");
    reveal_strlit("CreateTable");
    assert("CreateTable"@[6] == 'T' && "CreateIndex"@[6] == 'I');
    assert("CreateTable"@.len() == 11 && "AlterTable"@.len() == 10);
    assert("CreateView"@.len() == 10 && "Drop"@.len() == 4);
}

proof fn texts_keep(
    database: DatabaseModel,
    texts: Seq<Seq<char>>,
    from: int,
    result: ResultModel,
    caller: AuthModel,
)
    ensures
        match texts_done_from(database, texts, from, result, caller) {
            Ok((next, _)) => {
                &&& no_older(database, next)
                &&& sorted(database.catalog) && plain_catalog(database.catalog) && (forall|i: int|
                    0 <= i < texts.len() ==> plain_text(#[trigger] texts[i])) ==> unchanged_or_newer(database, next) && (
                !caller.privileged ==> same_definitions(database, next))
            },
            Err(_) => true,
        },
    decreases texts.len() - from,
{
    assert(same_definitions(database, database));
    if 0 <= from < texts.len() {
        text_keeps(database, texts[from], result, caller);
        match text_done(database, texts[from], result, caller) {
            Ok((next, rows)) => {
                texts_keep(next, texts, from + 1, rows, caller);
                if sorted(database.catalog) && plain_catalog(database.catalog) && (forall|i: int|
                    0 <= i < texts.len() ==> plain_text(#[trigger] texts[i])) {
                    if same_definitions(database, next) {
                        names_stay_plain(database, next);
                        match texts_done_from(next, texts, from + 1, rows, caller) {
                            Ok((last, _)) => {
                                if same_definitions(next, last) {
                                    same_definitions_chain(database, next, last);
                                }
                            },
                            Err(_) => {},
                        }
                    }
                }
            },
            Err(_) => {},
        }
    }
}

// ---------------------------------------------------------------------------------------------
// Laws
// ---------------------------------------------------------------------------------------------

/// The version of the schema never goes back.
pub proof fn versions_never_go_back(database: DatabaseModel, sql: Seq<char>, caller: AuthModel)
    ensures
        match batch_executed(database, sql, caller) {
            Ok((next, _)) => next.schema_version >= database.schema_version,
            Err(_) => true,
        },
{
    match batch_of(sql) {
        Ok(texts) => {
            texts_keep(database, texts, 0, crate::catalog::no_result(), caller);
        },
        Err(_) => {},
    }
}

/// A batch leaves the list of applied migrations alone.
pub proof fn batches_record_no_migration(database: DatabaseModel, sql: Seq<char>, caller: AuthModel)
    ensures
        match batch_executed(database, sql, caller) {
            Ok((next, _)) => next.migrations == database.migrations,
            Err(_) => true,
        },
{
    match batch_of(sql) {
        Ok(texts) => {
            texts_keep(database, texts, 0, crate::catalog::no_result(), caller);
        },
        Err(_) => {},
    }
}

/// A migration that was applied is recorded, and applying its version again, whatever its text and
/// however much later, succeeds and changes nothing.
pub proof fn migrations_apply_once(
    database: DatabaseModel,
    version: Seq<char>,
    sql: Seq<char>,
    later: DatabaseModel,
    again: Seq<char>,
    caller: AuthModel,
)
    requires
        sorted(database.migrations),
        migration_applied(database, version, sql, caller) matches Ok((next, _)) && later.migrations == next.migrations,
    ensures
        migration_applied(later, version, again, caller) == Ok::<_, Failure>((later, crate::catalog::no_result())),
{
    if !has_key(database.migrations, version) {
        batches_record_no_migration(database, sql, caller);
        get_after_put(database.migrations, version, (), version);
    }
}

/// A batch that leaves the version of the schema as it is leaves every definition as it is: tables
/// but for their rows, policies, views and functions. The names of tables must not have the name of
/// a schema inside.
pub proof fn definitions_change_with_the_version(database: DatabaseModel, sql: Seq<char>, caller: AuthModel)
    requires
        sorted(database.catalog),
        plain_catalog(database.catalog),
        plain_batch(sql),
    ensures
        match batch_executed(database, sql, caller) {
            Ok((next, _)) => unchanged_or_newer(database, next),
            Err(_) => true,
        },
{
    match batch_of(sql) {
        Ok(texts) => {
            texts_keep(database, texts, 0, crate::catalog::no_result(), caller);
        },
        Err(_) => {},
    }
}

/// A caller without full authority changes rows and nothing else, whatever the batch holds. The
/// names of tables must not have the name of a schema inside.
pub proof fn definitions_need_authority(database: DatabaseModel, sql: Seq<char>, caller: AuthModel)
    requires
        !caller.privileged,
        sorted(database.catalog),
        plain_catalog(database.catalog),
        plain_batch(sql),
    ensures
        match batch_executed(database, sql, caller) {
            Ok((next, _)) => same_definitions(database, next),
            Err(_) => true,
        },
{
    match batch_of(sql) {
        Ok(texts) => {
            texts_keep(database, texts, 0, crate::catalog::no_result(), caller);
        },
        Err(_) => {},
    }
}

} // verus!
