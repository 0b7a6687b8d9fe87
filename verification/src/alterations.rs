//! What ALTER TABLE does to a table and its rows.

use vstd::prelude::*;
use crate::alter::{
    column_detached_from, kept, kept_from, operation_applied, row_filled, rows_filled_from, rows_without_from,
    table_without,
};
use crate::answers::increasing;
use crate::ast::{ident_name, renamed, table_name_of, uses};
use crate::catalog::{
    column_from_range, has_column, AuthModel, CellsModel, ColumnModel, DatabaseModel, ForeignKeyModel, PolicyModel,
    ReferentialAction, RowModel, TableModel,
};
use crate::columns::{options_applied_from, plain_column};
use crate::error::Failure;
use crate::insertions::numbered_as;
use crate::json::Json;
use crate::mutations::{cells_sorted, holds_default, holds_value};
use crate::ordmap::{del_keeps_order, get, get_after_del, get_after_put, sorted, Ranked};
use crate::text::listed;
use crate::upkeep::options_aside;
use crate::value::{child, flag, payload, tag};

verus! {

// ---------------------------------------------------------------------------------------------
// What is left of a list
// ---------------------------------------------------------------------------------------------

/// Whether these are the positions of what is not gone of a list.
pub open spec fn remaining<A>(list: Seq<A>, rest: Seq<A>, gone: spec_fn(A) -> bool, count: int, at: Seq<int>) -> bool {
    &&& at.len() == rest.len()
    &&& increasing(at)
    &&& forall|k: int|
        0 <= k < at.len() ==> 0 <= #[trigger] at[k] < count && rest[k] == list[at[k]] && !gone(list[at[k]])
    &&& forall|i: int| 0 <= i < count && !gone(#[trigger] list[i]) ==> at.contains(i)
}

/// Whether a list is another without what is gone of it, in the same order.
pub open spec fn left_over<A>(list: Seq<A>, rest: Seq<A>, gone: spec_fn(A) -> bool) -> bool {
    exists|at: Seq<int>| #[trigger] remaining(list, rest, gone, list.len() as int, at)
}

/// One more item of a list: it remains, or it is gone.
pub proof fn one_more_remains<A>(list: Seq<A>, rest: Seq<A>, gone: spec_fn(A) -> bool, from: int, at: Seq<int>)
    requires
        0 <= from < list.len(),
        remaining(list, rest, gone, from, at),
    ensures
        gone(list[from]) ==> remaining(list, rest, gone, from + 1, at),
        !gone(list[from]) ==> remaining(list, rest.push(list[from]), gone, from + 1, at.push(from)),
{
    if !gone(list[from]) {
        let more = at.push(from);
        let next = rest.push(list[from]);
        assert forall|k: int| 0 <= k < more.len() implies 0 <= #[trigger] more[k] < from + 1 && next[k] == list[more[k]]
            && !gone(list[more[k]]) by {
            if k < at.len() {
                assert(more[k] == at[k]);
            }
        }
        assert forall|i: int| 0 <= i < from + 1 && !gone(#[trigger] list[i]) implies more.contains(i) by {
            if i < from {
                let k = choose|k: int| 0 <= k < at.len() && at[k] == i;
                assert(more[k] == i);
            } else {
                assert(more[at.len() as int] == i);
            }
        }
    }
}

proof fn keeping<A>(
    list: Seq<A>,
    from: int,
    found: Seq<A>,
    keep: spec_fn(A) -> bool,
    gone: spec_fn(A) -> bool,
    at: Seq<int>,
)
    requires
        0 <= from <= list.len(),
        forall|a: A| #[trigger] keep(a) == !gone(a),
        remaining(list, found, gone, from, at),
    ensures
        left_over(list, kept_from(list, from, found, keep), gone),
    decreases list.len() - from,
{
    if from < list.len() {
        assert(keep(list[from]) == !gone(list[from]));
        one_more_remains(list, found, gone, from, at);
        if keep(list[from]) {
            keeping(list, from + 1, found.push(list[from]), keep, gone, at.push(from));
        } else {
            keeping(list, from + 1, found, keep, gone, at);
        }
    } else {
        assert(remaining(list, found, gone, list.len() as int, at));
    }
}

/// What passes a test is what is left without the rest.
pub proof fn kept_is_left_over<A>(list: Seq<A>, keep: spec_fn(A) -> bool, gone: spec_fn(A) -> bool)
    requires
        forall|a: A| #[trigger] keep(a) == !gone(a),
    ensures
        left_over(list, kept(list, keep), gone),
{
    keeping(list, 0, Seq::empty(), keep, gone, Seq::empty());
}

proof fn operations_differ()
    ensures
        "AddColumn"@ != "RenameColumn"@ && "AddColumn"@ != "DropColumn"@ && "AddColumn"@ != "AlterColumn"@ && "AddColumn"@
            != "RenameTable"@,
        "RenameColumn"@ != "DropColumn"@ && "RenameColumn"@ != "AlterColumn"@ && "RenameColumn"@ != "RenameTable"@,
        "DropColumn"@ != "AlterColumn"@ && "DropColumn"@ != "RenameTable"@ && "AlterColumn"@ != "RenameTable"@,
{
    reveal_strlit("AddColumn");
    reveal_strlit("RenameColumn");
    reveal_strlit("DropColumn");
    reveal_strlit("AlterColumn");
    reveal_strlit("RenameTable");
    assert("AddColumn"@.len() == 9 && "RenameColumn"@.len() == 12 && "DropColumn"@.len() == 10 && "AlterColumn"@.len()
        == 11 && "RenameTable"@.len() == 11);
    assert("AlterColumn"@[0] == 'A' && "RenameTable"@[0] == 'R');
}

// ---------------------------------------------------------------------------------------------
// ADD COLUMN
// ---------------------------------------------------------------------------------------------

/// Whether the cell of a new column has what the column says: its number, the value of its expression on
/// the row, its default, else null.
pub open spec fn holds_initial(row: RowModel, cells: CellsModel, column: ColumnModel, caller: AuthModel) -> bool {
    match (column.identity, column.generated) {
        (Some(identity), _) => numbered_as(get(cells, column.name), identity, row.id),
        (None, Some(expr)) => holds_value(cells, column.name, expr, row.values, caller),
        (None, None) => holds_default(cells, column, caller),
    }
}

/// Whether a row is another with a new column filled in.
pub open spec fn extended(old_row: RowModel, row: RowModel, column: ColumnModel, caller: AuthModel) -> bool {
    &&& row.id == old_row.id && row.version == old_row.version + 1
    &&& holds_initial(old_row, row.values, column, caller)
    &&& !column.nullable ==> get(row.values, column.name) != Some(Json::Null)
    &&& forall|name: Seq<char>| name != column.name ==> #[trigger] get(row.values, name) == get(old_row.values, name)
}

proof fn rows_are_extended(first: Seq<(u64, RowModel)>, rows: Seq<(u64, RowModel)>, from: int, column: ColumnModel, caller: AuthModel)
    requires
        0 <= from <= rows.len(),
        rows.len() == first.len(),
        forall|i: int| 0 <= i < first.len() ==> sorted((#[trigger] first[i]).1.values),
        forall|i: int| from <= i < rows.len() ==> #[trigger] rows[i] == first[i],
        forall|i: int|
            0 <= i < from ==> (#[trigger] rows[i]).0 == first[i].0 && extended(first[i].1, rows[i].1, column, caller),
    ensures
        rows_filled_from(rows, from, column, caller) matches Ok(done) ==> done.len() == first.len() && forall|i: int|
            0 <= i < done.len() ==> (#[trigger] done[i]).0 == first[i].0 && extended(first[i].1, done[i].1, column, caller),
    decreases rows.len() - from,
{
    if from < rows.len() {
        assert(rows[from] == first[from]);
        let row = rows[from].1;
        match row_filled(column, row, caller) {
            Err(_) => {},
            Ok(next) => {
                let value = crate::alter::initial_value(column, row, caller)->Ok_0;
                assert forall|name: Seq<char>| #[trigger] get(next.values, name) == (if name == column.name {
                    Some(value)
                } else {
                    get(row.values, name)
                }) by {
                    get_after_put(row.values, column.name, value, name);
                }
                assert(get(next.values, column.name) == Some(value));
                match column.identity {
                    Some(identity) => {
                        let ordinal = if row.id == 0 {
                            0
                        } else {
                            row.id - 1
                        };
                        assert(ordinal * identity.increment == identity.increment * ordinal) by (nonlinear_arith);
                    },
                    None => {},
                }
                rows_are_extended(first, rows.update(from, (rows[from].0, next)), from + 1, column, caller);
            },
        }
    }
}

/// ADD COLUMN adds a column of a new name at the end, and fills it in every row by what it says; nothing
/// else of the rows changes. It is refused where there is a column of that name.
pub proof fn added_columns_are_filled(
    database: DatabaseModel,
    name: Seq<char>,
    table: TableModel,
    operation: Json,
    caller: AuthModel,
)
    requires
        tag(operation) == "AddColumn"@,
        cells_sorted(table),
    ensures
        operation_applied(database, name, table, operation, caller) matches Ok(Some((next, after, same))) ==> {
            let column = after.columns.last();
            &&& same == name && next.catalog == database.catalog
            &&& after.columns.len() == table.columns.len() + 1 && after.columns.drop_last() == table.columns
            &&& column.name == ident_name(child(child(payload(operation), "column_def"@), "name"@))
            &&& forall|p: int| 0 <= p < table.columns.len() ==> (#[trigger] table.columns[p]).name != column.name
            &&& after.rows.len() == table.rows.len()
            &&& forall|i: int|
                0 <= i < after.rows.len() ==> (#[trigger] after.rows[i]).0 == table.rows[i].0 && extended(
                    table.rows[i].1,
                    after.rows[i].1,
                    column,
                    caller,
                )
        },
        has_column(table.columns, ident_name(child(child(payload(operation), "column_def"@), "name"@))) ==> (
        operation_applied(database, name, table, operation, caller) is Err) == !flag(
            child(payload(operation), "if_not_exists"@),
        ),
{
    operations_differ();
    let node = payload(operation);
    let def = child(node, "column_def"@);
    let added = ident_name(child(def, "name"@));
    match operation_applied(database, name, table, operation, caller) {
        Ok(Some((next, after, same))) => {
            let ty = crate::ast::data_type_of(child(def, "data_type"@));
            let id = database.next_object_id;
            options_aside(table, plain_column(id, added, ty), child(def, "options"@), 0, true, caller);
            column_from_range(table.columns, added, 0);
            let (changed, column) = options_applied_from(
                table,
                plain_column(id, added, ty),
                child(def, "options"@),
                0,
                true,
                caller,
            )->Ok_0;
            rows_are_extended(table.rows, table.rows, 0, column, caller);
            assert(after.columns.drop_last() =~= table.columns);
        },
        _ => {},
    }
}

// ---------------------------------------------------------------------------------------------
// DROP COLUMN
// ---------------------------------------------------------------------------------------------

/// Whether a row is another without a column.
pub open spec fn shortened(old_row: RowModel, row: RowModel, column: Seq<char>) -> bool {
    &&& row.id == old_row.id && row.version == old_row.version + 1
    &&& get(row.values, column) is None
    &&& forall|name: Seq<char>| name != column ==> #[trigger] get(row.values, name) == get(old_row.values, name)
}

proof fn rows_are_shortened(first: Seq<(u64, RowModel)>, rows: Seq<(u64, RowModel)>, from: int, column: Seq<char>)
    requires
        0 <= from <= rows.len(),
        rows.len() == first.len(),
        forall|i: int| 0 <= i < first.len() ==> sorted((#[trigger] first[i]).1.values),
        forall|i: int| from <= i < rows.len() ==> #[trigger] rows[i] == first[i],
        forall|i: int|
            0 <= i < from ==> (#[trigger] rows[i]).0 == first[i].0 && shortened(first[i].1, rows[i].1, column),
    ensures
        rows_without_from(rows, from, column) matches Ok(done) ==> done.len() == first.len() && forall|i: int|
            0 <= i < done.len() ==> (#[trigger] done[i]).0 == first[i].0 && shortened(first[i].1, done[i].1, column),
    decreases rows.len() - from,
{
    if from < rows.len() {
        assert(rows[from] == first[from]);
        let row = rows[from].1;
        let values = crate::ordmap::del(row.values, column);
        match crate::depend::next_count(row.version) {
            Err(_) => {},
            Ok(version) => {
                let next = RowModel { version, values, ..row };
                assert forall|name: Seq<char>| #[trigger] get(values, name) == (if name == column {
                    None
                } else {
                    get(row.values, name)
                }) by {
                    get_after_del(row.values, column, name);
                }
                assert(get(values, column) is None);
                rows_are_shortened(first, rows.update(from, (rows[from].0, next)), from + 1, column);
            },
        }
    }
}

/// Whether a foreign key refers to a column of a table.
pub open spec fn refers_to_column(key: ForeignKeyModel, name: Seq<char>, column: Seq<char>, primary_key: Seq<Seq<char>>) -> bool {
    key.foreign_table == name && if key.referred_columns.len() > 0 {
        key.referred_columns.contains(column)
    } else {
        primary_key.contains(column)
    }
}

/// A name is listed where the list has it.
pub proof fn listing(names: Seq<Seq<char>>, name: Seq<char>)
    ensures
        listed(names, name) == names.contains(name),
{
    if listed(names, name) {
        let i = choose|i: int| 0 <= i < names.len() && names[i] == name;
        assert(names[i] == name);
    }
}

/// Whether the other tables of a catalog lose the foreign keys to a column, and nothing else. Without
/// cascade there is none to lose.
pub open spec fn detached(
    catalog: Seq<(Seq<char>, TableModel)>,
    after: Seq<(Seq<char>, TableModel)>,
    name: Seq<char>,
    column: Seq<char>,
    primary_key: Seq<Seq<char>>,
    cascade: bool,
) -> bool {
    &&& after.len() == catalog.len()
    &&& forall|i: int|
        0 <= i < after.len() ==> (#[trigger] after[i]).0 == catalog[i].0 && (if after[i].0 == name {
            after[i].1 == catalog[i].1
        } else {
            &&& after[i].1 == TableModel { foreign_keys: after[i].1.foreign_keys, ..catalog[i].1 }
            &&& left_over(
                catalog[i].1.foreign_keys,
                after[i].1.foreign_keys,
                |key: ForeignKeyModel| refers_to_column(key, name, column, primary_key),
            )
            &&& !cascade ==> forall|k: int|
                0 <= k < catalog[i].1.foreign_keys.len() ==> !refers_to_column(
                    #[trigger] catalog[i].1.foreign_keys[k],
                    name,
                    column,
                    primary_key,
                )
        })
}

proof fn detaching(
    first: Seq<(Seq<char>, TableModel)>,
    catalog: Seq<(Seq<char>, TableModel)>,
    from: int,
    name: Seq<char>,
    column: Seq<char>,
    primary_key: Seq<Seq<char>>,
    cascade: bool,
)
    requires
        0 <= from <= catalog.len(),
        catalog.len() == first.len(),
        forall|i: int| from <= i < catalog.len() ==> #[trigger] catalog[i] == first[i],
        detached(first.take(from), catalog.take(from), name, column, primary_key, cascade),
    ensures
        column_detached_from(catalog, from, name, column, primary_key, cascade) matches Ok(done) ==> detached(
            first,
            done,
            name,
            column,
            primary_key,
            cascade,
        ),
    decreases catalog.len() - from,
{
    if from < catalog.len() {
        let table = catalog[from].1;
        let gone = |key: ForeignKeyModel| refers_to_column(key, name, column, primary_key);
        assert(catalog[from] == first[from]);
        assert forall|key: ForeignKeyModel| #[trigger]
            crate::alter::key_depends(key, name, column, primary_key) == refers_to_column(key, name, column, primary_key) by {
            listing(key.referred_columns, column);
            listing(primary_key, column);
        }
        let keep = crate::alter::independent_key(name, column, primary_key);
        let keys = kept(table.foreign_keys, keep);
        kept_is_left_over(table.foreign_keys, keep, gone);
        let next = if catalog[from].0 == name {
            catalog
        } else {
            catalog.update(from, (catalog[from].0, (TableModel { foreign_keys: keys, ..table })))
        };
        if catalog[from].0 != name && !cascade && !crate::alter::some_key_depends(
            table.foreign_keys,
            name,
            column,
            primary_key,
        ) {
            assert forall|k: int| 0 <= k < table.foreign_keys.len() implies !refers_to_column(
                #[trigger] table.foreign_keys[k],
                name,
                column,
                primary_key,
            ) by {
                assert(!crate::alter::key_depends(table.foreign_keys[k], name, column, primary_key));
            }
        }
        if catalog[from].0 == name || cascade || !crate::alter::some_key_depends(
            table.foreign_keys,
            name,
            column,
            primary_key,
        ) {
            let a = first.take(from + 1);
            let b = next.take(from + 1);
            assert forall|i: int| 0 <= i < b.len() implies (#[trigger] b[i]).0 == a[i].0 && (if b[i].0 == name {
                b[i].1 == a[i].1
            } else {
                &&& b[i].1 == TableModel { foreign_keys: b[i].1.foreign_keys, ..a[i].1 }
                &&& left_over(a[i].1.foreign_keys, b[i].1.foreign_keys, gone)
                &&& !cascade ==> forall|k: int|
                    0 <= k < a[i].1.foreign_keys.len() ==> !refers_to_column(
                        #[trigger] a[i].1.foreign_keys[k],
                        name,
                        column,
                        primary_key,
                    )
            }) by {
                if i < from {
                    assert(b[i] == catalog.take(from)[i] && a[i] == first.take(from)[i]);
                }
            }
            detaching(first, next, from + 1, name, column, primary_key, cascade);
        }
    } else {
        assert(first.take(from) =~= first && catalog.take(from) =~= catalog);
    }
}

/// What is left of a table without a column: what neither is nor uses the column, as it was.
pub open spec fn without_column(table: TableModel, after: TableModel, name: Seq<char>, column: Seq<char>) -> bool {
    &&& left_over(table.columns, after.columns, |c: ColumnModel| c.name == column)
    &&& after.primary_key == if table.primary_key.contains(column) {
        Seq::<Seq<char>>::empty()
    } else {
        table.primary_key
    }
    &&& left_over(table.unique, after.unique, |key: Seq<Seq<char>>| key.contains(column))
    &&& left_over(table.deferred_unique, after.deferred_unique, |key: (Seq<Seq<char>>, ())| key.0.contains(column))
    &&& left_over(
        table.foreign_keys,
        after.foreign_keys,
        |key: ForeignKeyModel| key.columns.contains(column) || key.foreign_table == name && key.referred_columns.contains(column),
    )
    &&& left_over(table.checks, after.checks, |check: Json| uses(check, column))
    &&& left_over(table.policies, after.policies, |policy: PolicyModel| asks_of(policy, column))
    &&& after.rows.len() == table.rows.len()
    &&& forall|i: int|
        0 <= i < after.rows.len() ==> (#[trigger] after.rows[i]).0 == table.rows[i].0 && shortened(
            table.rows[i].1,
            after.rows[i].1,
            column,
        )
    &&& after.id == table.id && after.name == table.name && after.rls_enabled == table.rls_enabled && after.next_row_id
        == table.next_row_id
}

/// Whether an expression of a policy uses a column.
pub open spec fn asks_of(policy: PolicyModel, column: Seq<char>) -> bool {
    (policy.using matches Some(expr) && uses(expr, column)) || (policy.check matches Some(expr) && uses(expr, column))
}

proof fn tables_are_without(table: TableModel, name: Seq<char>, column: Seq<char>, cascade: bool)
    requires
        cells_sorted(table),
    ensures
        table_without(table, name, column, cascade) matches Ok(after) ==> without_column(table, after, name, column),
{
    match table_without(table, name, column, cascade) {
        Err(_) => {},
        Ok(after) => {
            rows_are_shortened(table.rows, table.rows, 0, column);
            listing(table.primary_key, column);
            assert forall|key: Seq<Seq<char>>| #[trigger] listed(key, column) == key.contains(column) by {
                listing(key, column);
            }
            kept_is_left_over(
                table.columns,
                crate::alter::other_column(column),
                |c: ColumnModel| c.name == column,
            );
            kept_is_left_over(
                table.unique,
                crate::alter::other_key(column),
                |key: Seq<Seq<char>>| key.contains(column),
            );
            kept_is_left_over(
                table.deferred_unique,
                crate::alter::other_key_entry(column),
                |key: (Seq<Seq<char>>, ())| key.0.contains(column),
            );
            kept_is_left_over(
                table.foreign_keys,
                crate::alter::other_own_key(name, column),
                |key: ForeignKeyModel|
                    key.columns.contains(column) || key.foreign_table == name && key.referred_columns.contains(column),
            );
            kept_is_left_over(table.checks, crate::alter::other_check(column), |check: Json| uses(check, column));
            kept_is_left_over(
                table.policies,
                crate::alter::other_policy(column),
                |policy: PolicyModel| asks_of(policy, column),
            );
        },
    }
}

/// DROP COLUMN removes the column, its cells, and the keys and checks that use it, and leaves the rest as it
/// was. A policy or a foreign key of another table that uses it goes only by CASCADE, and a column from
/// which another is generated does not go at all.
pub proof fn dropped_columns_leave_the_rest(
    database: DatabaseModel,
    name: Seq<char>,
    table: TableModel,
    operation: Json,
    caller: AuthModel,
)
    requires
        tag(operation) == "DropColumn"@,
        cells_sorted(table),
    ensures
        operation_applied(database, name, table, operation, caller) matches Ok(Some((next, after, same))) ==> {
            let column = ident_name(child(payload(operation), "column_name"@));
            let cascade = flag(child(payload(operation), "cascade"@));
            &&& same == name
            &&& without_column(table, after, name, column)
            &&& forall|p: int|
                0 <= p < table.columns.len() && (#[trigger] table.columns[p]).generated is Some ==> !uses(
                    table.columns[p].generated->0,
                    column,
                )
            &&& !cascade ==> forall|k: int|
                0 <= k < table.policies.len() ==> !asks_of(#[trigger] table.policies[k], column)
            &&& crate::depend::without_dependents(database, name, cascade) matches Ok(left) && detached(
                left.catalog,
                next.catalog,
                name,
                column,
                table.primary_key,
                cascade,
            )
        },
{
    operations_differ();
    let node = payload(operation);
    let column = ident_name(child(node, "column_name"@));
    let cascade = flag(child(node, "cascade"@));
    match operation_applied(database, name, table, operation, caller) {
        Ok(Some((next, after, same))) => {
            let left = crate::depend::without_dependents(database, name, cascade)->Ok_0;
            assert(detached(left.catalog.take(0), left.catalog.take(0), name, column, table.primary_key, cascade));
            detaching(left.catalog, left.catalog, 0, name, column, table.primary_key, cascade);
            tables_are_without(table, name, column, cascade);
            assert forall|p: int| 0 <= p < table.columns.len() && (#[trigger] table.columns[p]).generated is Some implies !uses(
                table.columns[p].generated->0,
                column,
            ) by {
                assert(!crate::alter::generation_uses(table.columns, column));
            }
            if !cascade {
                assert forall|k: int| 0 <= k < table.policies.len() implies !asks_of(#[trigger] table.policies[k], column) by {
                    assert(!crate::alter::policy_uses(table.policies[k], column));
                }
            }
        },
        _ => {},
    }
}

// ---------------------------------------------------------------------------------------------
// RENAME COLUMN
// ---------------------------------------------------------------------------------------------

/// Whether a list of names is another with one name for another.
pub open spec fn names_follow(names: Seq<Seq<char>>, after: Seq<Seq<char>>, from: Seq<char>, to: Seq<char>) -> bool {
    &&& after.len() == names.len()
    &&& forall|i: int| 0 <= i < names.len() && names[i] == from ==> #[trigger] after[i] == to
    &&& forall|i: int| 0 <= i < names.len() && names[i] != from ==> #[trigger] after[i] == names[i]
}

/// Whether a foreign key follows a new name of a column of a table, on either side.
pub open spec fn key_follows(
    key: ForeignKeyModel,
    after: ForeignKeyModel,
    own: bool,
    name: Seq<char>,
    from: Seq<char>,
    to: Seq<char>,
) -> bool {
    &&& after == ForeignKeyModel { columns: after.columns, referred_columns: after.referred_columns, ..key }
    &&& if own {
        names_follow(key.columns, after.columns, from, to)
    } else {
        after.columns == key.columns
    }
    &&& if key.foreign_table == name {
        names_follow(key.referred_columns, after.referred_columns, from, to)
    } else {
        after.referred_columns == key.referred_columns
    }
}

/// Whether a row has the cell of one column under the name of another, and is otherwise the same.
pub open spec fn row_follows(old_row: RowModel, row: RowModel, from: Seq<char>, to: Seq<char>) -> bool {
    &&& row.id == old_row.id && row.version == old_row.version
    &&& get(row.values, to) == Some(crate::catalog::cell_of(old_row.values, from))
    &&& from != to ==> get(row.values, from) is None
    &&& forall|name: Seq<char>|
        name != from && name != to ==> #[trigger] get(row.values, name) == get(old_row.values, name)
}

/// Whether an expression that may be there has the name replaced in it.
pub open spec fn optional_follows(expr: Option<Json>, after: Option<Json>, from: Seq<char>, to: Seq<char>) -> bool {
    match (expr, after) {
        (Some(tree), Some(next)) => next == renamed(tree, from, to),
        (None, None) => true,
        _ => false,
    }
}

/// Whether a table follows a new name of one of its columns.
pub open spec fn table_follows(table: TableModel, after: TableModel, name: Seq<char>, from: Seq<char>, to: Seq<char>) -> bool {
    &&& after.columns.len() == table.columns.len()
    &&& forall|p: int|
        0 <= p < table.columns.len() ==> (#[trigger] after.columns[p]).name == (if table.columns[p].name == from {
            to
        } else {
            table.columns[p].name
        }) && after.columns[p].id == table.columns[p].id && after.columns[p].data_type == table.columns[p].data_type
            && after.columns[p].nullable == table.columns[p].nullable && after.columns[p].identity
            == table.columns[p].identity && optional_follows(table.columns[p].default, after.columns[p].default, from, to)
            && optional_follows(table.columns[p].generated, after.columns[p].generated, from, to)
    &&& after.checks.len() == table.checks.len()
    &&& forall|k: int| 0 <= k < after.checks.len() ==> #[trigger] after.checks[k] == renamed(table.checks[k], from, to)
    &&& after.policies.len() == table.policies.len()
    &&& forall|k: int|
        0 <= k < after.policies.len() ==> optional_follows(
            table.policies[k].using,
            (#[trigger] after.policies[k]).using,
            from,
            to,
        ) && optional_follows(table.policies[k].check, after.policies[k].check, from, to) && after.policies[k] == (
        PolicyModel { using: after.policies[k].using, check: after.policies[k].check, ..table.policies[k] })
    &&& names_follow(table.primary_key, after.primary_key, from, to)
    &&& after.unique.len() == table.unique.len()
    &&& forall|k: int| 0 <= k < after.unique.len() ==> names_follow(table.unique[k], #[trigger] after.unique[k], from, to)
    &&& after.foreign_keys.len() == table.foreign_keys.len()
    &&& forall|k: int|
        0 <= k < after.foreign_keys.len() ==> key_follows(
            table.foreign_keys[k],
            #[trigger] after.foreign_keys[k],
            true,
            name,
            from,
            to,
        )
    &&& after.rows.len() == table.rows.len()
    &&& forall|i: int|
        0 <= i < after.rows.len() ==> (#[trigger] after.rows[i]).0 == table.rows[i].0 && row_follows(
            table.rows[i].1,
            after.rows[i].1,
            from,
            to,
        )
    &&& after.id == table.id && after.name == table.name && after.rls_enabled == table.rls_enabled && after.next_row_id
        == table.next_row_id
}

proof fn swapped_names_follow(names: Seq<Seq<char>>, from: Seq<char>, to: Seq<char>)
    ensures
        names_follow(names, crate::alter::swapped_names(names, from, to), from, to),
{
}

proof fn rows_follow(row: RowModel, from: Seq<char>, to: Seq<char>)
    requires
        sorted(row.values),
    ensures
        row_follows(
            row,
            RowModel { values: crate::alter::cell_moved(row.values, from, to), ..row },
            from,
            to,
        ),
{
    let cells = row.values;
    let value = crate::catalog::cell_of(cells, from);
    let rest = crate::ordmap::del(cells, from);
    del_keeps_order(cells, from);
    let next = crate::alter::cell_moved(cells, from, to);
    assert(next == crate::ordmap::put(rest, to, value));
    assert forall|name: Seq<char>| #[trigger] get(next, name) == (if name == to {
        Some(value)
    } else if name == from {
        None
    } else {
        get(cells, name)
    }) by {
        get_after_put(rest, to, value, name);
        get_after_del(cells, from, name);
    }
    assert(get(next, to) == Some(value));
    assert(from != to ==> get(next, from) is None);
}

/// RENAME COLUMN gives a column another name, of which there was none, everywhere: in the table, its rows
/// and keys, and in the foreign keys of other tables. The cells stay what they are.
pub proof fn renamed_columns_keep_their_cells(
    database: DatabaseModel,
    name: Seq<char>,
    table: TableModel,
    operation: Json,
    caller: AuthModel,
)
    requires
        tag(operation) == "RenameColumn"@,
        cells_sorted(table),
    ensures
        operation_applied(database, name, table, operation, caller) matches Ok(outcome) ==> (outcome matches Some(
            (next, after, same),
        ) && {
            let from = ident_name(child(payload(operation), "old_column_name"@));
            let to = ident_name(child(payload(operation), "new_column_name"@));
            &&& same == name
            &&& has_column(table.columns, from) && !has_column(table.columns, to)
            &&& table_follows(table, after, name, from, to)
            &&& next.catalog.len() == database.catalog.len()
            &&& forall|i: int|
                0 <= i < next.catalog.len() ==> (#[trigger] next.catalog[i]).0 == database.catalog[i].0
                    && next.catalog[i].1 == (TableModel {
                    foreign_keys: next.catalog[i].1.foreign_keys,
                    ..database.catalog[i].1
                }) && keys_follow(
                    database.catalog[i].1.foreign_keys,
                    next.catalog[i].1.foreign_keys,
                    name,
                    from,
                    to,
                )
        }),
{
    operations_differ();
    let from = ident_name(child(payload(operation), "old_column_name"@));
    let to = ident_name(child(payload(operation), "new_column_name"@));
    match operation_applied(database, name, table, operation, caller) {
        Ok(Some((next, after, same))) => {
            assert forall|i: int| 0 <= i < after.rows.len() implies (#[trigger] after.rows[i]).0 == table.rows[i].0
                && row_follows(table.rows[i].1, after.rows[i].1, from, to) by {
                assert(sorted(table.rows[i].1.values));
                rows_follow(table.rows[i].1, from, to);
            }
            swapped_names_follow(table.primary_key, from, to);
            assert forall|k: int| 0 <= k < after.foreign_keys.len() implies key_follows(
                table.foreign_keys[k],
                #[trigger] after.foreign_keys[k],
                true,
                name,
                from,
                to,
            ) by {
                swapped_names_follow(table.foreign_keys[k].columns, from, to);
                swapped_names_follow(table.foreign_keys[k].referred_columns, from, to);
            }
            assert forall|i: int| 0 <= i < next.catalog.len() implies keys_follow(
                database.catalog[i].1.foreign_keys,
                (#[trigger] next.catalog[i]).1.foreign_keys,
                name,
                from,
                to,
            ) by {
                let keys = database.catalog[i].1.foreign_keys;
                assert forall|k: int| 0 <= k < keys.len() implies key_follows(
                    keys[k],
                    #[trigger] next.catalog[i].1.foreign_keys[k],
                    false,
                    name,
                    from,
                    to,
                ) by {
                    swapped_names_follow(keys[k].referred_columns, from, to);
                }
            }
        },
        _ => {},
    }
}

/// Whether the foreign keys of another table follow a new name of a column.
pub open spec fn keys_follow(
    keys: Seq<ForeignKeyModel>,
    after: Seq<ForeignKeyModel>,
    name: Seq<char>,
    from: Seq<char>,
    to: Seq<char>,
) -> bool {
    &&& after.len() == keys.len()
    &&& forall|k: int| 0 <= k < after.len() ==> key_follows(keys[k], #[trigger] after[k], false, name, from, to)
}

// ---------------------------------------------------------------------------------------------
// ALTER COLUMN
// ---------------------------------------------------------------------------------------------

/// Whether a column is another after an operation on it.
pub open spec fn column_follows(column: ColumnModel, after: ColumnModel, op: Json) -> bool {
    ||| tag(op) == "SetDefault"@ && after.default == Some(child(payload(op), "value"@)) && after == (ColumnModel {
        default: after.default,
        ..column
    })
    ||| tag(op) == "DropDefault"@ && after.default is None && after == (ColumnModel { default: after.default, ..column })
    ||| tag(op) == "SetNotNull"@ && !after.nullable && after == (ColumnModel { nullable: after.nullable, ..column })
    ||| tag(op) == "DropNotNull"@ && after.nullable && after == (ColumnModel { nullable: after.nullable, ..column })
}

/// ALTER COLUMN changes the default of a column or whether it takes nulls, and nothing else. A column of the
/// primary key does not come to take nulls.
pub proof fn altered_columns_change_as_told(
    database: DatabaseModel,
    name: Seq<char>,
    table: TableModel,
    operation: Json,
    caller: AuthModel,
)
    requires
        tag(operation) == "AlterColumn"@,
    ensures
        operation_applied(database, name, table, operation, caller) matches Ok(outcome) ==> (outcome matches Some(
            (next, after, same),
        ) && {
            let column = ident_name(child(payload(operation), "column_name"@));
            let op = child(payload(operation), "op"@);
            &&& same == name && next == database
            &&& after == TableModel { columns: after.columns, ..table }
            &&& after.columns.len() == table.columns.len()
            &&& exists|p: int|
                0 <= p < table.columns.len() && (#[trigger] table.columns[p]).name == column && column_follows(
                    table.columns[p],
                    after.columns[p],
                    op,
                ) && (forall|q: int|
                    0 <= q < table.columns.len() && q != p ==> #[trigger] after.columns[q] == table.columns[q])
            &&& tag(op) == "DropNotNull"@ ==> !table.primary_key.contains(column)
        }),
{
    operations_differ();
    let column = ident_name(child(payload(operation), "column_name"@));
    match operation_applied(database, name, table, operation, caller) {
        Ok(Some((next, after, same))) => {
            column_from_range(table.columns, column, 0);
            let p = crate::catalog::column_from(table.columns, column, 0);
            listing(table.primary_key, column);
            reveal_strlit("SetDefault");
            reveal_strlit("DropDefault");
            reveal_strlit("SetNotNull");
            reveal_strlit("DropNotNull");
            assert("SetDefault"@[0] == 'S' && "DropDefault"@[0] == 'D' && "SetNotNull"@[0] == 'S' && "DropNotNull"@[0]
                == 'D');
            assert("SetDefault"@[3] == 'D' && "DropDefault"@[4] == 'D' && "SetNotNull"@[3] == 'N' && "DropNotNull"@[4]
                == 'N');
            assert(table.columns[p].name == column);
            assert(column_follows(table.columns[p], after.columns[p], child(payload(operation), "op"@)));
        },
        _ => {},
    }
}

// ---------------------------------------------------------------------------------------------
// RENAME TO
// ---------------------------------------------------------------------------------------------

/// Whether foreign keys refer to a table by its new name, and are otherwise the same.
pub open spec fn targets_follow(keys: Seq<ForeignKeyModel>, after: Seq<ForeignKeyModel>, from: Seq<char>, to: Seq<char>) -> bool {
    &&& after.len() == keys.len()
    &&& forall|k: int|
        0 <= k < after.len() ==> (#[trigger] after[k]).foreign_table == (if keys[k].foreign_table == from {
            to
        } else {
            keys[k].foreign_table
        }) && after[k] == (ForeignKeyModel { foreign_table: after[k].foreign_table, ..keys[k] })
}

/// RENAME TO moves a table to another name, of which there was no table and no view; the foreign keys of all
/// tables that refer to it follow, and nothing else changes.
pub proof fn renamed_tables_keep_their_rows(
    database: DatabaseModel,
    name: Seq<char>,
    table: TableModel,
    operation: Json,
    caller: AuthModel,
    other: Seq<char>,
)
    requires
        tag(operation) == "RenameTable"@,
        sorted(database.catalog),
    ensures
        operation_applied(database, name, table, operation, caller) matches Ok(outcome) ==> (outcome matches Some(
            (next, after, to),
        ) && {
            &&& table_name_of(child(payload(operation), "table_name"@)) == Ok::<Seq<char>, Failure>(to)
            &&& get(database.catalog, to) is None && get(next.catalog, name) is None
            &&& after.name == to && targets_follow(table.foreign_keys, after.foreign_keys, name, to)
            &&& after == TableModel { name: after.name, foreign_keys: after.foreign_keys, ..table }
            &&& other != name ==> match (get(database.catalog, other), get(next.catalog, other)) {
                (Some(x), Some(y)) => targets_follow(x.foreign_keys, y.foreign_keys, name, to) && y == (TableModel {
                    foreign_keys: y.foreign_keys,
                    ..x
                }),
                (None, None) => true,
                _ => false,
            }
        }),
{
    operations_differ();
    match operation_applied(database, name, table, operation, caller) {
        Ok(Some((next, after, to))) => {
            let catalog = database.catalog;
            let moved = crate::alter::catalog_retargeted(catalog, name, to);
            assert forall|i: int, j: int|
                #![trigger moved[i], moved[j]]
                0 <= i < j < moved.len() implies moved[i].0.before(moved[j].0) by {
                assert(catalog[i].0.before(catalog[j].0));
            }
            get_after_del(moved, name, other);
            get_after_del(moved, name, name);
            crate::ordmap::spot_from_range(catalog, other, 0);
            let i = crate::ordmap::spot_from(catalog, other, 0);
            if i < catalog.len() {
                crate::ordmap::get_at(catalog, i);
                crate::ordmap::get_at(moved, i);
            } else {
                crate::ordmap::get_absent(catalog, other);
                crate::ordmap::get_absent(moved, other);
            }
        },
        _ => {},
    }
}

// ---------------------------------------------------------------------------------------------
// Declarations
// ---------------------------------------------------------------------------------------------

/// A foreign key has the actions that its declaration names: none where it names none.
pub proof fn foreign_keys_are_as_declared(columns: Seq<Seq<char>>, node: Json)
    ensures
        crate::columns::foreign_key_of(columns, node) matches Ok(key) ==> {
            &&& key.columns == columns && table_name_of(child(node, "foreign_table"@)) == Ok::<Seq<char>, Failure>(
                key.foreign_table,
            )
            &&& names_action(child(node, "on_delete"@), key.on_delete)
            &&& names_action(child(node, "on_update"@), key.on_update)
            &&& key.referred_columns == crate::ast::ident_names(child(node, "referred_columns"@)) && !key.deferred
        },
{
    action_names_differ();
}

proof fn action_names_differ()
    ensures
        "Restrict"@ != "Cascade"@ && "Restrict"@ != "SetNull"@ && "Restrict"@ != "NoAction"@ && "Restrict"@
            != "SetDefault"@,
        "Cascade"@ != "SetNull"@ && "Cascade"@ != "NoAction"@ && "Cascade"@ != "SetDefault"@,
        "SetNull"@ != "NoAction"@ && "SetNull"@ != "SetDefault"@ && "NoAction"@ != "SetDefault"@,
{
    reveal_strlit("Restrict");
    reveal_strlit("Cascade");
    reveal_strlit("SetNull");
    reveal_strlit("NoAction");
    reveal_strlit("SetDefault");
    assert("Restrict"@[0] == 'R' && "Cascade"@[0] == 'C' && "SetNull"@[0] == 'S' && "NoAction"@[0] == 'N'
        && "SetDefault"@[0] == 'S');
    assert("SetNull"@.len() == 7 && "SetDefault"@.len() == 10);
}

/// Whether a word of a declaration names an action.
pub open spec fn names_action(node: Json, action: Option<ReferentialAction>) -> bool {
    &&& tag(node) == "Restrict"@ <==> action == Some(ReferentialAction::Restrict)
    &&& tag(node) == "Cascade"@ <==> action == Some(ReferentialAction::Cascade)
    &&& tag(node) == "SetNull"@ <==> action == Some(ReferentialAction::SetNull)
    &&& tag(node) == "NoAction"@ <==> action == Some(ReferentialAction::NoAction)
    &&& tag(node) == "SetDefault"@ <==> action == Some(ReferentialAction::SetDefault)
}

} // verus!
