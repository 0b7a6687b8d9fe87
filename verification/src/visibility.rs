//! What a caller may not read has no part in a query.

use vstd::prelude::*;
use crate::ast::statements_of;
use crate::catalog::{local_name, AuthModel, DatabaseModel, RowModel, TableModel};
use crate::error::Failure;
use crate::execute::{table_read, visible_from};
use crate::json::Json;
use crate::normalize::{
    admitted, aliases_of, factor_admitted, fields_of, normalized, view_factor, walked, walked_fields, walked_items,
    walked_value, with_child, FactorModel, Field, Kind, Many, Names,
};
use crate::ordmap::{get, get_from, has_key, put_all};
use crate::projection::bare_table;
use crate::relational::{batch_from, column_batch_of, relation_batch_of, BatchModel};
use crate::rules::permitted;
use crate::value::{child, items, parts_are_lighter, payload, weight};

verus! {

/// Whether the policies hide a row from a caller's queries.
pub open spec fn hidden(table: TableModel, row: RowModel, caller: AuthModel) -> bool {
    permitted(table, "SELECT"@, row.values, caller, false) == Ok::<bool, Failure>(false)
}

/// The rows from position `from` on that are not hidden, after those in `done`.
pub open spec fn shown_from(table: TableModel, from: int, done: Seq<(u64, RowModel)>, caller: AuthModel) -> Seq<
    (u64, RowModel),
>
    decreases table.rows.len() - from,
{
    if from < 0 || from >= table.rows.len() {
        done
    } else if hidden(table, table.rows[from].1, caller) {
        shown_from(table, from + 1, done, caller)
    } else {
        shown_from(table, from + 1, done.push(table.rows[from]), caller)
    }
}

/// Whether two tables have the same definition and differ at most in rows hidden from the caller.
pub open spec fn shown_alike(one: TableModel, other: TableModel, caller: AuthModel) -> bool {
    &&& bare_table(one) == bare_table(other)
    &&& shown_from(one, 0, Seq::empty(), caller) == shown_from(other, 0, Seq::empty(), caller)
}

/// Whether two tables have the same definition and the caller reads the same from both.
pub open spec fn read_alike(one: TableModel, other: TableModel, caller: AuthModel) -> bool {
    &&& bare_table(one) == bare_table(other)
    &&& visible_from(one, 0, Seq::empty(), caller) == visible_from(other, 0, Seq::empty(), caller)
}

/// Whether two states have the same views and table definitions, and the caller reads the same from
/// every table.
pub open spec fn seen_alike(one: DatabaseModel, other: DatabaseModel, caller: AuthModel) -> bool {
    &&& one.views == other.views
    &&& one.catalog.len() == other.catalog.len()
    &&& forall|i: int|
        0 <= i < one.catalog.len() ==> (#[trigger] one.catalog[i]).0 == other.catalog[i].0 && read_alike(
            one.catalog[i].1,
            other.catalog[i].1,
            caller,
        )
}

proof fn shown_begins(table: TableModel, from: int, done: Seq<(u64, RowModel)>, caller: AuthModel)
    ensures
        done.len() <= shown_from(table, from, done, caller).len(),
        shown_from(table, from, done, caller).take(done.len() as int) == done,
    decreases table.rows.len() - from,
{
    if 0 <= from < table.rows.len() {
        if hidden(table, table.rows[from].1, caller) {
            shown_begins(table, from + 1, done, caller);
        } else {
            let more = done.push(table.rows[from]);
            shown_begins(table, from + 1, more, caller);
            let all = shown_from(table, from, done, caller);
            assert(all.take(done.len() as int) =~= all.take(more.len() as int).take(done.len() as int));
            assert(more.take(done.len() as int) =~= done);
        }
    } else {
        assert(done.take(done.len() as int) =~= done);
    }
}

proof fn reading_skips_hidden_rows(
    table: TableModel,
    thin: TableModel,
    from: int,
    done: Seq<(u64, RowModel)>,
    found: Seq<Json>,
    caller: AuthModel,
)
    requires
        0 <= from <= table.rows.len(),
        bare_table(table) == bare_table(thin),
        thin.rows == shown_from(table, from, done, caller),
    ensures
        visible_from(table, from, found, caller) == visible_from(thin, done.len() as int, found, caller),
    decreases table.rows.len() - from,
{
    assert(table.policies == bare_table(table).policies && table.rls_enabled == bare_table(table).rls_enabled);
    assert(thin.policies == bare_table(thin).policies && thin.rls_enabled == bare_table(thin).rls_enabled);
    if from < table.rows.len() {
        let row = table.rows[from].1;
        if hidden(table, row, caller) {
            reading_skips_hidden_rows(table, thin, from + 1, done, found, caller);
        } else {
            let more = done.push(table.rows[from]);
            shown_begins(table, from + 1, more, caller);
            assert(thin.rows.take(more.len() as int)[done.len() as int] == table.rows[from]);
            assert(thin.rows[done.len() as int] == table.rows[from]);
            match permitted(table, "SELECT"@, row.values, caller, false) {
                Err(_) => {},
                Ok(_) => {
                    reading_skips_hidden_rows(
                        table,
                        thin,
                        from + 1,
                        more,
                        found.push(Json::Object(row.values)),
                        caller,
                    );
                },
            }
        }
    }
}

proof fn columns_are_the_same(
    one: TableModel,
    other: TableModel,
    rows: Seq<Json>,
    from: int,
    done: Seq<BatchModel>,
)
    requires
        one.name == other.name,
        one.columns == other.columns,
    ensures
        batch_from(one, rows, from, done) == batch_from(other, rows, from, done),
    decreases one.columns.len() - from,
{
    if 0 <= from < one.columns.len() {
        match column_batch_of(one.name, one.columns[from], rows) {
            Err(_) => {},
            Ok(batch) => {
                columns_are_the_same(one, other, rows, from + 1, done.push(batch));
            },
        }
    }
}

proof fn tables_correspond(one: DatabaseModel, other: DatabaseModel, caller: AuthModel, name: Seq<char>, from: int)
    requires
        seen_alike(one, other, caller),
        0 <= from,
    ensures
        match (get_from(one.catalog, name, from), get_from(other.catalog, name, from)) {
            (Some(table), Some(same)) => read_alike(table, same, caller),
            (None, None) => true,
            _ => false,
        },
    decreases one.catalog.len() - from,
{
    if from < one.catalog.len() {
        assert(one.catalog[from].0 == other.catalog[from].0);
        if one.catalog[from].0 != name {
            tables_correspond(one, other, caller, name, from + 1);
        }
    }
}

/// A caller reads the same from two tables of one definition that differ only in rows hidden from
/// the caller.
pub proof fn hidden_rows_are_not_read(one: TableModel, other: TableModel, caller: AuthModel)
    requires
        shown_alike(one, other, caller),
    ensures
        read_alike(one, other, caller),
{
    let thin = TableModel { rows: shown_from(one, 0, Seq::empty(), caller), ..one };
    assert(bare_table(thin) == bare_table(one));
    reading_skips_hidden_rows(one, thin, 0, Seq::empty(), Seq::empty(), caller);
    reading_skips_hidden_rows(other, thin, 0, Seq::empty(), Seq::empty(), caller);
}

/// What a caller may not read has no part in what a query reads: two states of the same definitions
/// from which the caller reads the same hand the query engine the same columns of every table.
pub proof fn queries_read_what_is_shown(one: DatabaseModel, other: DatabaseModel, caller: AuthModel, name: Seq<char>)
    requires
        seen_alike(one, other, caller),
    ensures
        table_read(one, name, caller) == table_read(other, name, caller),
        relation_batch_of(one, name, caller) == relation_batch_of(other, name, caller),
{
    let key = local_name(name);
    tables_correspond(one, other, caller, key, 0);
    match (get(one.catalog, key), get(other.catalog, key)) {
        (Some(table), Some(same)) => {
            assert(table.name == bare_table(table).name && same.name == bare_table(same).name);
            assert(table.columns == bare_table(table).columns && same.columns == bare_table(same).columns);
            match table_read(one, name, caller) {
                Ok(rows) => {
                    columns_are_the_same(table, same, rows, 0, Seq::empty());
                },
                Err(_) => {},
            }
        },
        _ => {},
    }
}

/// What a caller may not read has no part in how a query is admitted: two states of the same
/// definitions from which the caller reads the same admit the same queries, as the same text over
/// the same tables.
pub proof fn queries_are_admitted_by_what_is_shown(one: DatabaseModel, other: DatabaseModel, caller: AuthModel, sql: Seq<char>)
    requires
        seen_alike(one, other, caller),
    ensures
        admitted(one, sql, caller) == admitted(other, sql, caller),
{
    query_is_the_same(one, other, caller, sql, Seq::empty());
}

proof fn query_is_the_same(
    one: DatabaseModel,
    other: DatabaseModel,
    caller: AuthModel,
    sql: Seq<char>,
    path: Seq<Seq<char>>,
)
    requires
        seen_alike(one, other, caller),
    ensures
        normalized(one, sql, caller, path) == normalized(other, sql, caller, path),
    decreases 64 - path.len(), 2int, 0nat, 0int, 0int,
{
    if path.len() < 64 {
        match statements_of(sql) {
            Ok(list) => {
                if list.len() == 1 {
                    node_is_the_same(
                        Kind::Query,
                        payload(list[0]),
                        one,
                        other,
                        caller,
                        path,
                        true,
                        Seq::empty(),
                        Seq::empty(),
                    );
                }
            },
            Err(_) => {},
        }
    }
}

proof fn factor_is_the_same(
    factor: Json,
    one: DatabaseModel,
    other: DatabaseModel,
    caller: AuthModel,
    path: Seq<Seq<char>>,
    scopes: Seq<Seq<Seq<char>>>,
)
    requires
        seen_alike(one, other, caller),
    ensures
        factor_admitted(factor, one, path, scopes) == factor_admitted(factor, other, path, scopes),
{
    assert forall|name: Seq<char>| #[trigger] has_key(one.catalog, name) == has_key(other.catalog, name) by {
        tables_correspond(one, other, caller, name, 0);
    }
}

proof fn node_is_the_same(
    kind: Kind,
    node: Json,
    one: DatabaseModel,
    other: DatabaseModel,
    caller: AuthModel,
    path: Seq<Seq<char>>,
    fresh: bool,
    scopes: Seq<Seq<Seq<char>>>,
    found: Names,
)
    requires
        seen_alike(one, other, caller),
    ensures
        walked(kind, node, one, caller, path, fresh, scopes, found) == walked(
            kind,
            node,
            other,
            caller,
            path,
            fresh,
            scopes,
            found,
        ),
    decreases 64 - path.len(), fresh as int, weight(node), 2int, 0int,
{
    if !(node is Null) {
        if kind == Kind::Query {
            fields_are_the_same(
                node,
                fields_of(kind, node),
                0,
                node,
                one,
                other,
                caller,
                path,
                fresh,
                scopes.push(aliases_of(node)),
                found,
            );
        } else if kind == Kind::Factor {
            factor_is_the_same(node, one, other, caller, path, scopes);
            match factor_admitted(node, one, path, scopes) {
                Ok(FactorModel::View(relation, sql)) => {
                    if fresh && path.len() < 64 {
                        query_is_the_same(one, other, caller, sql, path.push(relation));
                        match normalized(one, sql, caller, path.push(relation)) {
                            Ok((query, more)) => {
                                let derived = view_factor(node, relation, query);
                                fields_are_the_same(
                                    derived,
                                    fields_of(kind, derived),
                                    0,
                                    derived,
                                    one,
                                    other,
                                    caller,
                                    path,
                                    false,
                                    scopes,
                                    put_all(found, more),
                                );
                            },
                            Err(_) => {},
                        }
                    }
                },
                _ => {
                    fields_are_the_same(
                        node,
                        fields_of(kind, node),
                        0,
                        node,
                        one,
                        other,
                        caller,
                        path,
                        fresh,
                        scopes,
                        found,
                    );
                },
            }
        } else {
            fields_are_the_same(
                node,
                fields_of(kind, node),
                0,
                node,
                one,
                other,
                caller,
                path,
                fresh,
                scopes,
                found,
            );
        }
    }
}

proof fn fields_are_the_same(
    node: Json,
    fields: Seq<Field>,
    from: int,
    done: Json,
    one: DatabaseModel,
    other: DatabaseModel,
    caller: AuthModel,
    path: Seq<Seq<char>>,
    fresh: bool,
    scopes: Seq<Seq<Seq<char>>>,
    found: Names,
)
    requires
        seen_alike(one, other, caller),
    ensures
        walked_fields(node, fields, from, done, one, caller, path, fresh, scopes, found) == walked_fields(
            node,
            fields,
            from,
            done,
            other,
            caller,
            path,
            fresh,
            scopes,
            found,
        ),
    decreases 64 - path.len(), fresh as int, weight(node), 1int, fields.len() - from,
{
    parts_are_lighter(node);
    if 0 <= from < fields.len() {
        let (key, kind, many) = fields[from];
        let value = child(node, key);
        if node is Null || value is Null {
            fields_are_the_same(node, fields, from + 1, done, one, other, caller, path, fresh, scopes, found);
        } else {
            value_is_the_same(kind, many, value, one, other, caller, path, fresh, scopes, found);
            match walked_value(kind, many, value, one, caller, path, fresh, scopes, found) {
                Ok((next, more)) => {
                    fields_are_the_same(
                        node,
                        fields,
                        from + 1,
                        with_child(done, key, next),
                        one,
                        other,
                        caller,
                        path,
                        fresh,
                        scopes,
                        more,
                    );
                },
                Err(_) => {},
            }
        }
    }
}

proof fn value_is_the_same(
    kind: Kind,
    many: Many,
    value: Json,
    one: DatabaseModel,
    other: DatabaseModel,
    caller: AuthModel,
    path: Seq<Seq<char>>,
    fresh: bool,
    scopes: Seq<Seq<Seq<char>>>,
    found: Names,
)
    requires
        seen_alike(one, other, caller),
    ensures
        walked_value(kind, many, value, one, caller, path, fresh, scopes, found) == walked_value(
            kind,
            many,
            value,
            other,
            caller,
            path,
            fresh,
            scopes,
            found,
        ),
    decreases 64 - path.len(), fresh as int, weight(value), 3int, 0int,
{
    if many == Many::One {
        node_is_the_same(kind, value, one, other, caller, path, fresh, scopes, found);
    } else {
        items_are_the_same(kind, many, value, 0, Seq::empty(), one, other, caller, path, fresh, scopes, found);
    }
}

proof fn items_are_the_same(
    kind: Kind,
    many: Many,
    value: Json,
    from: int,
    done: Seq<Json>,
    one: DatabaseModel,
    other: DatabaseModel,
    caller: AuthModel,
    path: Seq<Seq<char>>,
    fresh: bool,
    scopes: Seq<Seq<Seq<char>>>,
    found: Names,
)
    requires
        seen_alike(one, other, caller),
    ensures
        walked_items(kind, many, value, from, done, one, caller, path, fresh, scopes, found) == walked_items(
            kind,
            many,
            value,
            from,
            done,
            other,
            caller,
            path,
            fresh,
            scopes,
            found,
        ),
    decreases 64 - path.len(), fresh as int, weight(value), 2int, items(value).len() - from,
{
    parts_are_lighter(value);
    if 0 <= from < items(value).len() {
        let inner = if many == Many::EachOfEach {
            Many::Each
        } else {
            Many::One
        };
        value_is_the_same(kind, inner, items(value)[from], one, other, caller, path, fresh, scopes, found);
        match walked_value(kind, inner, items(value)[from], one, caller, path, fresh, scopes, found) {
            Ok((next, more)) => {
                items_are_the_same(
                    kind,
                    many,
                    value,
                    from + 1,
                    done.push(next),
                    one,
                    other,
                    caller,
                    path,
                    fresh,
                    scopes,
                    more,
                );
            },
            Err(_) => {},
        }
    }
}

} // verus!
