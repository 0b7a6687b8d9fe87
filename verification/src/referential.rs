//! Referential actions: what changes of referred rows do to the rows that refer to them.

use vstd::prelude::*;
use crate::alter::with_table;
use crate::catalog::{
    column_named, find_column, table_of, AuthContext, AuthModel, Cells, CellsModel, Column, ColumnModel, Database,
    DatabaseModel, ForeignKey, ForeignKeyModel, ReferentialAction, Row, RowModel, Table, TableModel,
};
use crate::depend::{count_up, next_count};
use crate::error::{err, failure, outcome, Outcome, Result};
use crate::json::{group_value_views, Datum, Json};
use crate::ordmap::{del, get, has_key, put, OrdMap};
use crate::replica::{add_last, no_items, Replica};
use crate::rules::{
    default_of, default_value, key_cells, recompute_generated, referred_key, regenerated, same_values,
    some_null,
};
use crate::select::value_at;
use crate::text::same;
use crate::validate::{any_null, equal_values, key_values};
use crate::value::same_json;

verus! {

broadcast use group_value_views;

/// A row of a table before a statement and after it, where it still exists.
pub struct Change {
    pub table: String,
    pub before: Row,
    pub after: Option<Row>,
}

/// [`Change`] in specifications.
pub struct ChangeModel {
    pub table: Seq<char>,
    pub before: RowModel,
    pub after: Option<RowModel>,
}

impl DeepView for Change {
    type V = ChangeModel;

    open spec fn deep_view(&self) -> ChangeModel {
        ChangeModel {
            table: self.table@,
            before: self.before.deep_view(),
            after: self.after.deep_view(),
        }
    }
}

// ---------------------------------------------------------------------------------------------
// What changed
// ---------------------------------------------------------------------------------------------

/// Whether a row is still there with the same cells.
pub open spec fn row_unchanged(old_row: RowModel, new_row: Option<RowModel>) -> bool {
    new_row is Some && same_json(Json::Object(new_row->0.values), Json::Object(old_row.values))
}

/// The changes of the rows of one table from position `from` on.
pub open spec fn row_changes_from(
    name: Seq<char>,
    old_rows: Seq<(u64, RowModel)>,
    from: int,
    new_rows: Seq<(u64, RowModel)>,
    found: Seq<ChangeModel>,
) -> Seq<ChangeModel>
    decreases old_rows.len() - from,
{
    if from < 0 || from >= old_rows.len() {
        found
    } else {
        let after = get(new_rows, old_rows[from].0);
        if row_unchanged(old_rows[from].1, after) {
            row_changes_from(name, old_rows, from + 1, new_rows, found)
        } else {
            row_changes_from(
                name,
                old_rows,
                from + 1,
                new_rows,
                found.push(ChangeModel { table: name, before: old_rows[from].1, after }),
            )
        }
    }
}

/// The changes of the rows of the tables from position `from` on; dropped tables left out.
pub open spec fn changes_from(
    old_catalog: Seq<(Seq<char>, TableModel)>,
    from: int,
    new_catalog: Seq<(Seq<char>, TableModel)>,
    found: Seq<ChangeModel>,
) -> Seq<ChangeModel>
    decreases old_catalog.len() - from,
{
    if from < 0 || from >= old_catalog.len() {
        found
    } else {
        match get(new_catalog, old_catalog[from].0) {
            None => changes_from(old_catalog, from + 1, new_catalog, found),
            Some(table) => changes_from(
                old_catalog,
                from + 1,
                new_catalog,
                row_changes_from(old_catalog[from].0, old_catalog[from].1.rows, 0, table.rows, found),
            ),
        }
    }
}

/// The changes that a statement made to existing rows.
pub open spec fn changes_between(before: DatabaseModel, after: DatabaseModel) -> Seq<ChangeModel> {
    changes_from(before.catalog, 0, after.catalog, Seq::empty())
}

fn is_unchanged(old_row: &Row, new_row: Option<&Row>) -> (result: bool)
    ensures
        result == row_unchanged(old_row.deep_view(), new_row.deep_view()),
{
    match new_row {
        Some(row) => Datum::Object(row.values.replica()).equals(&Datum::Object(old_row.values.replica())),
        None => false,
    }
}

fn add_row_changes(
    name: &String,
    old_rows: &OrdMap<u64, Row>,
    new_rows: &OrdMap<u64, Row>,
    start: Vec<Change>,
) -> (result: Vec<Change>)
    ensures
        result.deep_view() == row_changes_from(name@, old_rows@, 0, new_rows@, start.deep_view()),
{
    let ghost first = start.deep_view();
    let mut found = start;
    let mut i: usize = 0;
    while i < old_rows.len()
        invariant
            i <= old_rows@.len(),
            row_changes_from(name@, old_rows@, 0, new_rows@, first) == row_changes_from(
                name@,
                old_rows@,
                i as int,
                new_rows@,
                found.deep_view(),
            ),
        decreases old_rows@.len() - i,
    {
        let before = old_rows.value_at(i);
        let after = new_rows.get(old_rows.key_at(i));
        if !is_unchanged(before, after) {
            let copy = match after {
                Some(row) => Some(row.replica()),
                None => None,
            };
            let change = Change { table: name.clone(), before: before.replica(), after: copy };
            assert(change.deep_view() == (ChangeModel {
                table: name@,
                before: old_rows@[i as int].1,
                after: get(new_rows@, old_rows@[i as int].0),
            }));
            add_last(&mut found, change);
        }
        i += 1;
    }
    found
}

fn find_changes(before: &Database, after: &Database) -> (result: Vec<Change>)
    ensures
        result.deep_view() == changes_between(before.deep_view(), after.deep_view()),
{
    let mut found: Vec<Change> = no_items();
    let ghost old_catalog = before.catalog@;
    let ghost new_catalog = after.catalog@;
    let mut i: usize = 0;
    while i < before.catalog.len()
        invariant
            i <= old_catalog.len(),
            old_catalog == before.catalog@,
            new_catalog == after.catalog@,
            changes_from(old_catalog, 0, new_catalog, Seq::empty()) == changes_from(
                old_catalog,
                i as int,
                new_catalog,
                found.deep_view(),
            ),
        decreases old_catalog.len() - i,
    {
        let name = before.catalog.key_at(i);
        let table = before.catalog.value_at(i);
        if let Some(next) = after.catalog.get(name) {
            found = add_row_changes(name, &table.rows, &next.rows, found);
        }
        i += 1;
    }
    found
}

// ---------------------------------------------------------------------------------------------
// What a change does
// ---------------------------------------------------------------------------------------------

/// The foreign keys to the table, from position `from` of one table's keys on.
pub open spec fn keys_to_from(
    name: Seq<char>,
    keys: Seq<ForeignKeyModel>,
    from: int,
    target: Seq<char>,
    found: Seq<(Seq<char>, ForeignKeyModel)>,
) -> Seq<(Seq<char>, ForeignKeyModel)>
    decreases keys.len() - from,
{
    if from < 0 || from >= keys.len() {
        found
    } else if keys[from].foreign_table == target {
        keys_to_from(name, keys, from + 1, target, found.push((name, keys[from])))
    } else {
        keys_to_from(name, keys, from + 1, target, found)
    }
}

/// The foreign keys to the table, from position `from` of the catalog on.
pub open spec fn sources_from(
    catalog: Seq<(Seq<char>, TableModel)>,
    from: int,
    target: Seq<char>,
    found: Seq<(Seq<char>, ForeignKeyModel)>,
) -> Seq<(Seq<char>, ForeignKeyModel)>
    decreases catalog.len() - from,
{
    if from < 0 || from >= catalog.len() {
        found
    } else {
        sources_from(
            catalog,
            from + 1,
            target,
            keys_to_from(catalog[from].0, catalog[from].1.foreign_keys, 0, target, found),
        )
    }
}

/// The cells of a key, where the row has every one of them.
pub open spec fn full_key(cells: CellsModel, key: Seq<Seq<char>>) -> Option<Seq<Json>> {
    if forall|i: int| 0 <= i < key.len() ==> has_key(cells, #[trigger] key[i]) {
        Some(key_cells(cells, key))
    } else {
        None
    }
}

/// The key of the row after a change, where there is one.
pub open spec fn new_key_of(change: ChangeModel, key: Seq<Seq<char>>) -> Option<Seq<Json>> {
    match change.after {
        Some(row) => full_key(row.values, key),
        None => None,
    }
}

/// The rows from position `from` on whose foreign key is the old key.
pub open spec fn referring_from(
    rows: Seq<(u64, RowModel)>,
    from: int,
    columns: Seq<Seq<char>>,
    old_key: Seq<Json>,
    found: Seq<RowModel>,
) -> Seq<RowModel>
    decreases rows.len() - from,
{
    if from < 0 || from >= rows.len() {
        found
    } else if same_values(key_cells(rows[from].1.values, columns), old_key) {
        referring_from(rows, from + 1, columns, old_key, found.push(rows[from].1))
    } else {
        referring_from(rows, from + 1, columns, old_key, found)
    }
}

/// The table without the rows from position `from` on, and the changes that this makes.
pub open spec fn rows_deleted_from(
    name: Seq<char>,
    table: TableModel,
    rows: Seq<RowModel>,
    from: int,
    more: Seq<ChangeModel>,
) -> (TableModel, Seq<ChangeModel>)
    decreases rows.len() - from,
{
    if from < 0 || from >= rows.len() {
        (table, more)
    } else {
        rows_deleted_from(
            name,
            TableModel { rows: del(table.rows, rows[from].id), ..table },
            rows,
            from + 1,
            more.push(ChangeModel { table: name, before: rows[from], after: None }),
        )
    }
}

/// The value that an action gives to a column of a foreign key.
pub open spec fn action_value(
    action: ReferentialAction,
    columns: Seq<ColumnModel>,
    name: Seq<char>,
    new_key: Option<Seq<Json>>,
    index: int,
    caller: AuthModel,
) -> Outcome<Json> {
    match action {
        ReferentialAction::Cascade => match new_key {
            Some(key) => Ok(value_at(key, index)),
            None => Err(failure("ConstraintViolation"@, "Missing cascade target"@)),
        },
        ReferentialAction::SetDefault => match column_named(columns, name) {
            Some(column) => default_of(column.default, caller),
            None => Ok(Json::Null),
        },
        _ => Ok(Json::Null),
    }
}

/// The cells after an action on the columns of the foreign key from position `from` on.
pub open spec fn cells_acted_from(
    action: ReferentialAction,
    columns: Seq<ColumnModel>,
    names: Seq<Seq<char>>,
    from: int,
    cells: CellsModel,
    new_key: Option<Seq<Json>>,
    caller: AuthModel,
) -> Outcome<CellsModel>
    decreases names.len() - from,
{
    if from < 0 || from >= names.len() {
        Ok(cells)
    } else {
        match action_value(action, columns, names[from], new_key, from, caller) {
            Err(error) => Err(error),
            Ok(value) => cells_acted_from(
                action,
                columns,
                names,
                from + 1,
                put(cells, names[from], value),
                new_key,
                caller,
            ),
        }
    }
}

/// A row after an action.
pub open spec fn row_acted(
    action: ReferentialAction,
    columns: Seq<ColumnModel>,
    key: ForeignKeyModel,
    row: RowModel,
    new_key: Option<Seq<Json>>,
    caller: AuthModel,
) -> Outcome<RowModel> {
    match cells_acted_from(action, columns, key.columns, 0, row.values, new_key, caller) {
        Err(error) => Err(error),
        Ok(cells) => match regenerated(columns, cells, caller) {
            Err(error) => Err(error),
            Ok(values) => match next_count(row.version) {
                Err(error) => Err(error),
                Ok(version) => Ok(RowModel { version, values, ..row }),
            },
        },
    }
}

/// The table after an action on the rows from position `from` on, and the changes that this makes.
pub open spec fn rows_acted_from(
    name: Seq<char>,
    action: ReferentialAction,
    table: TableModel,
    key: ForeignKeyModel,
    rows: Seq<RowModel>,
    from: int,
    new_key: Option<Seq<Json>>,
    more: Seq<ChangeModel>,
    caller: AuthModel,
) -> Outcome<(TableModel, Seq<ChangeModel>)>
    decreases rows.len() - from,
{
    if from < 0 || from >= rows.len() {
        Ok((table, more))
    } else {
        match row_acted(action, table.columns, key, rows[from], new_key, caller) {
            Err(error) => Err(error),
            Ok(row) => rows_acted_from(
                name,
                action,
                (TableModel { rows: put(table.rows, row.id, row), ..table }),
                key,
                rows,
                from + 1,
                new_key,
                more.push(ChangeModel { table: name, before: rows[from], after: Some(row) }),
                caller,
            ),
        }
    }
}

/// The action of a foreign key on a change.
pub open spec fn action_for(key: ForeignKeyModel, change: ChangeModel) -> Option<ReferentialAction> {
    if change.after is Some {
        key.on_update
    } else {
        key.on_delete
    }
}

/// The state after one foreign key reacts to a change of a row it may refer to, and the changes
/// that this makes.
pub open spec fn key_reacted(
    database: DatabaseModel,
    target: TableModel,
    change: ChangeModel,
    name: Seq<char>,
    key: ForeignKeyModel,
    more: Seq<ChangeModel>,
    caller: AuthModel,
) -> Outcome<(DatabaseModel, Seq<ChangeModel>)> {
    let referred = referred_key(key, target);
    let old_key = full_key(change.before.values, referred);
    let new_key = new_key_of(change, referred);
    if referred.len() == 0 || old_key is None || (new_key is Some && same_values(new_key->0, old_key->0))
        || some_null(old_key->0) {
        Ok((database, more))
    } else {
        match table_of(database, name) {
            Err(error) => Err(error),
            Ok(source) => {
                let rows = referring_from(source.rows, 0, key.columns, old_key->0, Seq::empty());
                if rows.len() == 0 {
                    Ok((database, more))
                } else {
                    match action_for(key, change) {
                        None => Ok((database, more)),
                        Some(ReferentialAction::NoAction) => Ok((database, more)),
                        Some(ReferentialAction::Restrict) => Err(
                            failure(
                                "ConstraintViolation"@,
                                "Foreign-key RESTRICT action prevents mutation"@,
                            ),
                        ),
                        Some(action) => if action is Cascade && change.after is None {
                            let (table, changes) = rows_deleted_from(name, source, rows, 0, more);
                            Ok((with_table(database, name, table), changes))
                        } else {
                            match rows_acted_from(
                                name,
                                action,
                                source,
                                key,
                                rows,
                                0,
                                new_key,
                                more,
                                caller,
                            ) {
                                Err(error) => Err(error),
                                Ok((table, changes)) => Ok(
                                    (with_table(database, name, table), changes),
                                ),
                            }
                        },
                    }
                }
            },
        }
    }
}

/// The state after the foreign keys from position `from` on react to a change.
pub open spec fn keys_reacted_from(
    database: DatabaseModel,
    target: TableModel,
    change: ChangeModel,
    sources: Seq<(Seq<char>, ForeignKeyModel)>,
    from: int,
    more: Seq<ChangeModel>,
    caller: AuthModel,
) -> Outcome<(DatabaseModel, Seq<ChangeModel>)>
    decreases sources.len() - from,
{
    if from < 0 || from >= sources.len() {
        Ok((database, more))
    } else {
        match key_reacted(database, target, change, sources[from].0, sources[from].1, more, caller) {
            Err(error) => Err(error),
            Ok((next, changes)) => keys_reacted_from(
                next,
                target,
                change,
                sources,
                from + 1,
                changes,
                caller,
            ),
        }
    }
}

/// The state after every foreign key reacts to a change, and the changes that this makes.
pub open spec fn change_applied(database: DatabaseModel, change: ChangeModel, caller: AuthModel) -> Outcome<
    (DatabaseModel, Seq<ChangeModel>),
> {
    match table_of(database, change.table) {
        Err(error) => Err(error),
        Ok(target) => keys_reacted_from(
            database,
            target,
            change,
            sources_from(database.catalog, 0, change.table, Seq::empty()),
            0,
            Seq::empty(),
            caller,
        ),
    }
}

/// How many changes a statement may set off.
pub const CASCADE_LIMIT: u64 = 100_000;

/// The state after the pending changes and those they set off, `steps` of them done already.
pub open spec fn changes_applied(
    database: DatabaseModel,
    pending: Seq<ChangeModel>,
    steps: int,
    caller: AuthModel,
) -> Outcome<DatabaseModel>
    decreases CASCADE_LIMIT - steps,
{
    if pending.len() == 0 {
        Ok(database)
    } else if steps >= CASCADE_LIMIT {
        Err(failure("ResourceLimit"@, "Cascading referential actions exceeded limit"@))
    } else {
        match change_applied(database, pending[0], caller) {
            Err(error) => Err(error),
            Ok((next, more)) => changes_applied(next, pending.skip(1) + more, steps + 1, caller),
        }
    }
}

/// The state after the referential actions that a statement sets off.
pub open spec fn actions_applied(before: DatabaseModel, after: DatabaseModel, caller: AuthModel) -> Outcome<
    DatabaseModel,
> {
    changes_applied(after, changes_between(before, after), 0, caller)
}

fn find_sources(database: &Database, target: &str) -> (result: Vec<(String, ForeignKey)>)
    ensures
        result.deep_view() == sources_from(database.deep_view().catalog, 0, target@, Seq::empty()),
{
    let mut found: Vec<(String, ForeignKey)> = no_items();
    let ghost catalog = database.catalog@;
    let mut i: usize = 0;
    while i < database.catalog.len()
        invariant
            i <= catalog.len(),
            catalog == database.catalog@,
            sources_from(catalog, 0, target@, Seq::empty()) == sources_from(
                catalog,
                i as int,
                target@,
                found.deep_view(),
            ),
        decreases catalog.len() - i,
    {
        let name = database.catalog.key_at(i);
        let keys = &database.catalog.value_at(i).foreign_keys;
        let ghost model = keys.deep_view();
        let ghost first = found.deep_view();
        assert(catalog[i as int].0 == name@ && catalog[i as int].1.foreign_keys == model);
        let mut k: usize = 0;
        while k < keys.len()
            invariant
                k <= keys.len(),
                model == keys.deep_view(),
                keys_to_from(name@, model, 0, target@, first) == keys_to_from(
                    name@,
                    model,
                    k as int,
                    target@,
                    found.deep_view(),
                ),
            decreases keys.len() - k,
        {
            assert(model[k as int] == keys[k as int].deep_view());
            if same(keys[k].foreign_table.as_str(), target) {
                add_last(&mut found, (name.clone(), keys[k].replica()));
            }
            k += 1;
        }
        i += 1;
    }
    found
}

fn whole_key(cells: &Cells, key: &Vec<String>) -> (result: Option<Vec<Datum>>)
    ensures
        result.deep_view() == full_key(cells@, key.deep_view()),
{
    let ghost names = key.deep_view();
    let mut i: usize = 0;
    while i < key.len()
        invariant
            i <= key.len(),
            names == key.deep_view(),
            forall|j: int| 0 <= j < i ==> has_key(cells@, #[trigger] names[j]),
        decreases key.len() - i,
    {
        assert(names[i as int] == key[i as int]@);
        if !cells.holds(key[i].as_str()) {
            return None;
        }
        i += 1;
    }
    Some(key_values(cells, key))
}

fn find_referring(rows: &OrdMap<u64, Row>, columns: &Vec<String>, old_key: &Vec<Datum>) -> (result: Vec<Row>)
    ensures
        result.deep_view() == referring_from(
            rows@,
            0,
            columns.deep_view(),
            old_key.deep_view(),
            Seq::empty(),
        ),
{
    let mut found: Vec<Row> = no_items();
    let mut i: usize = 0;
    while i < rows.len()
        invariant
            i <= rows@.len(),
            referring_from(rows@, 0, columns.deep_view(), old_key.deep_view(), Seq::empty())
                == referring_from(
                rows@,
                i as int,
                columns.deep_view(),
                old_key.deep_view(),
                found.deep_view(),
            ),
        decreases rows@.len() - i,
    {
        let row = rows.value_at(i);
        if equal_values(&key_values(&row.values, columns), old_key) {
            add_last(&mut found, row.replica());
        }
        i += 1;
    }
    found
}

fn delete_rows(name: &String, start: Table, rows: &Vec<Row>, start_more: Vec<Change>) -> (result: (
    Table,
    Vec<Change>,
))
    ensures
        result.deep_view() == rows_deleted_from(
            name@,
            start.deep_view(),
            rows.deep_view(),
            0,
            start_more.deep_view(),
        ),
{
    let ghost first = (start.deep_view(), start_more.deep_view());
    let ghost model = rows.deep_view();
    let mut table = start;
    let mut more = start_more;
    let mut i: usize = 0;
    while i < rows.len()
        invariant
            i <= rows.len(),
            model == rows.deep_view(),
            rows_deleted_from(name@, first.0, model, 0, first.1) == rows_deleted_from(
                name@,
                table.deep_view(),
                model,
                i as int,
                more.deep_view(),
            ),
        decreases rows.len() - i,
    {
        assert(model[i as int] == rows[i as int].deep_view());
        let _removed = table.rows.remove(&rows[i].id);
        add_last(&mut more, Change { table: name.clone(), before: rows[i].replica(), after: None });
        i += 1;
    }
    (table, more)
}

fn value_for_action(
    action: ReferentialAction,
    columns: &Vec<Column>,
    name: &str,
    new_key: &Option<Vec<Datum>>,
    index: usize,
    context: &AuthContext,
) -> (result: Result<Datum>)
    ensures
        outcome(result) == action_value(
            action,
            columns.deep_view(),
            name@,
            new_key.deep_view(),
            index as int,
            context.deep_view(),
        ),
{
    match action {
        ReferentialAction::Cascade => match new_key {
            Some(key) => if index < key.len() {
                assert(key.deep_view()[index as int] == key[index as int]@);
                Ok(key[index].copied())
            } else {
                Ok(Datum::Null)
            },
            None => Err(err("ConstraintViolation", "Missing cascade target")),
        },
        ReferentialAction::SetDefault => {
            let spot: usize = find_column(columns, name);
            if spot < columns.len() {
                assert(columns.deep_view()[spot as int] == columns[spot as int].deep_view());
                default_value(&columns[spot].default, context)
            } else {
                Ok(Datum::Null)
            }
        },
        _ => Ok(Datum::Null),
    }
}

fn act_on_row(
    action: ReferentialAction,
    columns: &Vec<Column>,
    key: &ForeignKey,
    row: &Row,
    new_key: &Option<Vec<Datum>>,
    context: &AuthContext,
) -> (result: Result<Row>)
    ensures
        outcome(result) == row_acted(
            action,
            columns.deep_view(),
            key.deep_view(),
            row.deep_view(),
            new_key.deep_view(),
            context.deep_view(),
        ),
{
    let mut cells = row.values.replica();
    let ghost names = key.columns.deep_view();
    let ghost caller = context.deep_view();
    let mut i: usize = 0;
    while i < key.columns.len()
        invariant
            i <= key.columns.len(),
            names == key.columns.deep_view(),
            caller == context.deep_view(),
            cells_acted_from(
                action,
                columns.deep_view(),
                names,
                0,
                row.values@,
                new_key.deep_view(),
                caller,
            ) == cells_acted_from(
                action,
                columns.deep_view(),
                names,
                i as int,
                cells@,
                new_key.deep_view(),
                caller,
            ),
        decreases key.columns.len() - i,
    {
        assert(names[i as int] == key.columns[i as int]@);
        let value = value_for_action(action, columns, key.columns[i].as_str(), new_key, i, context)?;
        cells.insert(key.columns[i].clone(), value);
        i += 1;
    }
    let values = recompute_generated(columns, cells, context)?;
    let version: u64 = count_up(row.version)?;
    Ok(Row { id: row.id, version, values })
}

fn act_on_rows(
    name: &String,
    action: ReferentialAction,
    start: Table,
    key: &ForeignKey,
    rows: &Vec<Row>,
    new_key: &Option<Vec<Datum>>,
    start_more: Vec<Change>,
    context: &AuthContext,
) -> (result: Result<(Table, Vec<Change>)>)
    ensures
        outcome(result) == rows_acted_from(
            name@,
            action,
            start.deep_view(),
            key.deep_view(),
            rows.deep_view(),
            0,
            new_key.deep_view(),
            start_more.deep_view(),
            context.deep_view(),
        ),
{
    let ghost first = (start.deep_view(), start_more.deep_view());
    let ghost model = rows.deep_view();
    let ghost caller = context.deep_view();
    let mut table = start;
    let mut more = start_more;
    let mut i: usize = 0;
    while i < rows.len()
        invariant
            i <= rows.len(),
            model == rows.deep_view(),
            caller == context.deep_view(),
            first == (start.deep_view(), start_more.deep_view()),
            rows_acted_from(
                name@,
                action,
                first.0,
                key.deep_view(),
                model,
                0,
                new_key.deep_view(),
                first.1,
                caller,
            ) == rows_acted_from(
                name@,
                action,
                table.deep_view(),
                key.deep_view(),
                model,
                i as int,
                new_key.deep_view(),
                more.deep_view(),
                caller,
            ),
        decreases rows.len() - i,
    {
        assert(model[i as int] == rows[i as int].deep_view());
        let row = act_on_row(action, &table.columns, key, &rows[i], new_key, context)?;
        let change = Change { table: name.clone(), before: rows[i].replica(), after: Some(row.replica()) };
        assert(change.deep_view() == (ChangeModel {
            table: name@,
            before: model[i as int],
            after: Some(row.deep_view()),
        }));
        table.rows.insert(row.id, row);
        add_last(&mut more, change);
        i += 1;
    }
    Ok((table, more))
}

fn react(
    database: Database,
    target: &Table,
    change: &Change,
    name: &String,
    key: &ForeignKey,
    more: Vec<Change>,
    context: &AuthContext,
) -> (result: Result<(Database, Vec<Change>)>)
    ensures
        outcome(result) == key_reacted(
            database.deep_view(),
            target.deep_view(),
            change.deep_view(),
            name@,
            key.deep_view(),
            more.deep_view(),
            context.deep_view(),
        ),
{
    let referred = if key.referred_columns.len() == 0 {
        &target.primary_key
    } else {
        &key.referred_columns
    };
    assert(referred.deep_view() == referred_key(key.deep_view(), target.deep_view()));
    if referred.len() == 0 {
        return Ok((database, more));
    }
    let old_key = match whole_key(&change.before.values, referred) {
        Some(values) => values,
        None => {
            return Ok((database, more));
        },
    };
    let new_key: Option<Vec<Datum>> = match &change.after {
        Some(row) => whole_key(&row.values, referred),
        None => None,
    };
    assert(new_key.deep_view() == new_key_of(change.deep_view(), referred.deep_view()));
    let unchanged: bool = match &new_key {
        Some(values) => equal_values(values, &old_key),
        None => false,
    };
    if unchanged || any_null(&old_key) {
        return Ok((database, more));
    }
    let source = database.table(name.as_str())?.replica();
    let rows = find_referring(&source.rows, &key.columns, &old_key);
    if rows.len() == 0 {
        return Ok((database, more));
    }
    let reaction: Option<ReferentialAction> = if change.after.is_some() {
        key.on_update
    } else {
        key.on_delete
    };
    match reaction {
        None => Ok((database, more)),
        Some(ReferentialAction::NoAction) => Ok((database, more)),
        Some(ReferentialAction::Restrict) => Err(
            err("ConstraintViolation", "Foreign-key RESTRICT action prevents mutation"),
        ),
        Some(action) => {
            let (table, changes) = if action == ReferentialAction::Cascade && change.after.is_none() {
                delete_rows(name, source, &rows, more)
            } else {
                act_on_rows(name, action, source, key, &rows, &new_key, more, context)?
            };
            let mut database = database;
            database.catalog.insert(name.clone(), table);
            Ok((database, changes))
        },
    }
}

fn apply_change(start: Database, change: &Change, context: &AuthContext) -> (result: Result<
    (Database, Vec<Change>),
>)
    ensures
        outcome(result) == change_applied(
            start.deep_view(),
            change.deep_view(),
            context.deep_view(),
        ),
{
    let target = start.table(change.table.as_str())?.replica();
    let sources = find_sources(&start, change.table.as_str());
    let ghost first = start.deep_view();
    let ghost model = sources.deep_view();
    let ghost caller = context.deep_view();
    let mut state: (Database, Vec<Change>) = (start, no_items());
    let mut i: usize = 0;
    while i < sources.len()
        invariant
            i <= sources.len(),
            model == sources.deep_view(),
            caller == context.deep_view(),
            first == start.deep_view(),
            change_applied(first, change.deep_view(), caller) == keys_reacted_from(
                state.0.deep_view(),
                target.deep_view(),
                change.deep_view(),
                model,
                i as int,
                state.1.deep_view(),
                caller,
            ),
        decreases sources.len() - i,
    {
        assert(model[i as int] == (sources[i as int].0@, sources[i as int].1.deep_view()));
        let (database, more) = state;
        state = react(database, &target, change, &sources[i].0, &sources[i].1, more, context)?;
        i += 1;
    }
    Ok(state)
}

/// Runs the referential actions that a statement sets off.
pub fn apply_referential_actions(before: &Database, start: Database, context: &AuthContext) -> (result: Result<
    Database,
>)
    ensures
        outcome(result) == actions_applied(
            before.deep_view(),
            start.deep_view(),
            context.deep_view(),
        ),
{
    let mut pending = find_changes(before, &start);
    let ghost first = start.deep_view();
    let ghost caller = context.deep_view();
    let mut database = start;
    let mut steps: u64 = 0;
    let mut head: usize = 0;
    assert(pending.deep_view().skip(0) =~= pending.deep_view());
    while head < pending.len()
        invariant
            head <= pending.len(),
            steps <= CASCADE_LIMIT,
            caller == context.deep_view(),
            first == start.deep_view(),
            actions_applied(before.deep_view(), first, caller) == changes_applied(
                database.deep_view(),
                pending.deep_view().skip(head as int),
                steps as int,
                caller,
            ),
        decreases CASCADE_LIMIT - steps,
    {
        let ghost queue = pending.deep_view();
        assert(queue.skip(head as int)[0] == pending[head as int].deep_view());
        if steps >= CASCADE_LIMIT {
            return Err(err("ResourceLimit", "Cascading referential actions exceeded limit"));
        }
        let (next, more) = apply_change(database, &pending[head], context)?;
        database = next;
        let ghost added = more.deep_view();
        let mut more = more;
        pending.append(&mut more);
        assert(pending.deep_view() =~= queue + added);
        head += 1;
        steps += 1;
        assert(pending.deep_view().skip(head as int) =~= queue.skip(head - 1).skip(1) + added);
    }
    assert(pending.deep_view().skip(head as int).len() == 0);
    Ok(database)
}

} // verus!
