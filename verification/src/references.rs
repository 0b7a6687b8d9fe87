//! What foreign keys do when the rows they refer to go or change.

use vstd::prelude::*;
use crate::alter::with_table;
use crate::answers::increasing;
use crate::authorization::numbered;
use crate::catalog::{
    cell_of, column_named, table_of, AuthModel, CellsModel, ColumnModel, DatabaseModel, ForeignKeyModel,
    ReferentialAction, RowModel, TableModel,
};
use crate::error::Failure;
use crate::json::Json;
use crate::mutations::{apart, computed, generated_anew, holds_default, regenerating, told_apart};
use crate::ordmap::{
    del, del_keeps_order, get, get_absent, get_after_del, get_after_put, get_at, has_key, put, put_keeps_order, sorted,
    Ranked,
};
use crate::referential::{
    action_for, action_value, cells_acted_from, full_key, key_reacted, new_key_of, referring_from, row_acted,
    rows_acted_from, rows_deleted_from, ChangeModel,
};
use crate::rules::{key_cells, referred_key, same_values, some_null};
use crate::upkeep::{table_found, well_kept};
use crate::value::same_json;

verus! {

// ---------------------------------------------------------------------------------------------
// References
// ---------------------------------------------------------------------------------------------

/// The columns that a foreign key refers to: those it names, else the primary key of the table.
pub open spec fn goal_of(key: ForeignKeyModel, target: TableModel) -> Seq<Seq<char>> {
    if key.referred_columns.len() > 0 {
        key.referred_columns
    } else {
        target.primary_key
    }
}

/// Whether one row refers to another through a foreign key: each of its cells is that of the other, none
/// of which is null.
pub open spec fn points_to(from: CellsModel, key: ForeignKeyModel, to: CellsModel, goal: Seq<Seq<char>>) -> bool {
    &&& goal.len() > 0 && key.columns.len() == goal.len()
    &&& forall|i: int|
        0 <= i < goal.len() ==> has_key(to, #[trigger] goal[i]) && !(cell_of(to, goal[i]) is Null) && same_json(
            cell_of(from, key.columns[i]),
            cell_of(to, goal[i]),
        )
}

/// Whether a row still has the key that it had.
pub open spec fn key_stays(before: CellsModel, after: CellsModel, goal: Seq<Seq<char>>) -> bool {
    forall|i: int|
        0 <= i < goal.len() ==> has_key(after, #[trigger] goal[i]) && same_json(
            cell_of(after, goal[i]),
            cell_of(before, goal[i]),
        )
}

/// Whether a change takes the key of a row away: the row goes, or has another key.
pub open spec fn takes_key(change: ChangeModel, goal: Seq<Seq<char>>) -> bool {
    change.after matches Some(row) ==> !key_stays(change.before.values, row.values, goal)
}

/// Whether a change takes away the key to which a row refers.
pub open spec fn bereaves(row: RowModel, key: ForeignKeyModel, change: ChangeModel, goal: Seq<Seq<char>>) -> bool {
    points_to(row.values, key, change.before.values, goal) && takes_key(change, goal)
}

/// The action that a foreign key declares for a change: one where a row goes, another where it changes.
pub open spec fn declared(key: ForeignKeyModel, change: ChangeModel) -> Option<ReferentialAction> {
    match change.after {
        None => key.on_delete,
        Some(_) => key.on_update,
    }
}

/// Whether an action does nothing.
pub open spec fn idle(action: Option<ReferentialAction>) -> bool {
    action is None || action == Some(ReferentialAction::NoAction)
}

// ---------------------------------------------------------------------------------------------
// The rows that refer
// ---------------------------------------------------------------------------------------------

/// Whether the key of the row at a position has these values.
spec fn hit(rows: Seq<(u64, RowModel)>, columns: Seq<Seq<char>>, values: Seq<Json>, i: int) -> bool {
    same_values(key_cells(rows[i].1.values, columns), values)
}

/// Whether these are the positions of the rows with such keys among the first `count`.
spec fn hits(rows: Seq<(u64, RowModel)>, columns: Seq<Seq<char>>, values: Seq<Json>, count: int, picked: Seq<int>) -> bool {
    &&& increasing(picked)
    &&& forall|k: int| 0 <= k < picked.len() ==> 0 <= #[trigger] picked[k] < count && hit(rows, columns, values, picked[k])
    &&& forall|i: int| 0 <= i < count && #[trigger] hit(rows, columns, values, i) ==> picked.contains(i)
}

spec fn rows_at(rows: Seq<(u64, RowModel)>, picked: Seq<int>) -> Seq<RowModel> {
    Seq::new(picked.len(), |k: int| rows[picked[k]].1)
}

proof fn referring_rows(
    rows: Seq<(u64, RowModel)>,
    from: int,
    columns: Seq<Seq<char>>,
    values: Seq<Json>,
    found: Seq<RowModel>,
    picked: Seq<int>,
) -> (all: Seq<int>)
    requires
        0 <= from <= rows.len(),
        hits(rows, columns, values, from, picked),
        found == rows_at(rows, picked),
    ensures
        hits(rows, columns, values, rows.len() as int, all),
        referring_from(rows, from, columns, values, found) == rows_at(rows, all),
    decreases rows.len() - from,
{
    if from < rows.len() {
        if hit(rows, columns, values, from) {
            let more = picked.push(from);
            assert(rows_at(rows, more) =~= found.push(rows[from].1));
            assert forall|k: int| 0 <= k < more.len() implies 0 <= #[trigger] more[k] < from + 1 && hit(
                rows,
                columns,
                values,
                more[k],
            ) by {
                if k < picked.len() {
                    assert(more[k] == picked[k]);
                }
            }
            assert forall|i: int| 0 <= i < from + 1 && #[trigger] hit(rows, columns, values, i) implies more.contains(i) by {
                if i < from {
                    let k = choose|k: int| 0 <= k < picked.len() && picked[k] == i;
                    assert(more[k] == i);
                } else {
                    assert(more[picked.len() as int] == i);
                }
            }
            referring_rows(rows, from + 1, columns, values, found.push(rows[from].1), more)
        } else {
            referring_rows(rows, from + 1, columns, values, found, picked)
        }
    } else {
        picked
    }
}

/// Whether a list holds the rows of a table with a key, each once.
spec fn bearers(table: TableModel, columns: Seq<Seq<char>>, values: Seq<Json>, list: Seq<RowModel>) -> bool {
    &&& told_apart(list)
    &&& forall|m: int|
        0 <= m < list.len() ==> get(table.rows, (#[trigger] list[m]).id) == Some(list[m]) && same_values(
            key_cells(list[m].values, columns),
            values,
        )
    &&& forall|id: u64|
        (#[trigger] get(table.rows, id) matches Some(row) && same_values(key_cells(row.values, columns), values))
            ==> exists|m: int| 0 <= m < list.len() && (#[trigger] list[m]).id == id
}

proof fn referring_rows_bear(table: TableModel, columns: Seq<Seq<char>>, values: Seq<Json>)
    requires
        numbered(table.rows),
    ensures
        bearers(table, columns, values, referring_from(table.rows, 0, columns, values, Seq::empty())),
{
    let rows = table.rows;
    assert(rows_at(rows, Seq::empty()) =~= Seq::empty());
    let picked = referring_rows(rows, 0, columns, values, Seq::empty(), Seq::empty());
    let list = referring_from(rows, 0, columns, values, Seq::empty());
    assert forall|i: int, j: int| #![trigger list[i], list[j]] 0 <= i < j < list.len() implies list[i].id != list[j].id by {
        assert(picked[i] < picked[j]);
        assert(rows[picked[i]].0.before(rows[picked[j]].0));
    }
    assert forall|m: int| 0 <= m < list.len() implies get(rows, (#[trigger] list[m]).id) == Some(list[m]) && same_values(
        key_cells(list[m].values, columns),
        values,
    ) by {
        get_at(rows, picked[m]);
        assert(hit(rows, columns, values, picked[m]));
    }
    assert forall|id: u64|
        (#[trigger] get(rows, id) matches Some(row) && same_values(key_cells(row.values, columns), values)) implies exists|
        m: int,
    | 0 <= m < list.len() && (#[trigger] list[m]).id == id by {
        crate::ordmap::spot_from_range(rows, id, 0);
        let i = crate::ordmap::spot_from(rows, id, 0);
        if i < rows.len() {
            get_at(rows, i);
            assert(hit(rows, columns, values, i));
            assert(picked.contains(i));
            let k = choose|k: int| 0 <= k < picked.len() && picked[k] == i;
            assert(list[k].id == id);
        } else {
            get_absent(rows, id);
        }
    }
}

// ---------------------------------------------------------------------------------------------
// What becomes of them
// ---------------------------------------------------------------------------------------------

proof fn listed_rows_go(name: Seq<char>, table: TableModel, rows: Seq<RowModel>, from: int, more: Seq<ChangeModel>)
    requires
        sorted(table.rows),
        0 <= from <= rows.len(),
    ensures
        ({
            let (after, changes) = rows_deleted_from(name, table, rows, from, more);
            &&& after == TableModel { rows: after.rows, ..table }
            &&& forall|id: u64| #[trigger]
                get(after.rows, id) == (if exists|m: int| from <= m < rows.len() && (#[trigger] rows[m]).id == id {
                    None
                } else {
                    get(table.rows, id)
                })
            &&& changes == more + Seq::new(
                (rows.len() - from) as nat,
                |m: int| ChangeModel { table: name, before: rows[from + m], after: None },
            )
        }),
    decreases rows.len() - from,
{
    let (after, changes) = rows_deleted_from(name, table, rows, from, more);
    if from < rows.len() {
        let next = TableModel { rows: del(table.rows, rows[from].id), ..table };
        let first = ChangeModel { table: name, before: rows[from], after: None };
        del_keeps_order(table.rows, rows[from].id);
        listed_rows_go(name, next, rows, from + 1, more.push(first));
        assert forall|id: u64| #[trigger]
            get(after.rows, id) == (if exists|m: int| from <= m < rows.len() && (#[trigger] rows[m]).id == id {
                None
            } else {
                get(table.rows, id)
            }) by {
            get_after_del(table.rows, rows[from].id, id);
            if exists|m: int| from + 1 <= m < rows.len() && (#[trigger] rows[m]).id == id {
                let m = choose|m: int| from + 1 <= m < rows.len() && (#[trigger] rows[m]).id == id;
                assert(rows[m].id == id);
            } else if rows[from].id == id {
                assert(get(next.rows, id) is None);
            } else {
                assert forall|m: int| from <= m < rows.len() implies (#[trigger] rows[m]).id != id by {}
            }
        }
        assert(changes =~= more + Seq::new(
            (rows.len() - from) as nat,
            |m: int| ChangeModel { table: name, before: rows[from + m], after: None },
        ));
    } else {
        assert(changes =~= more + Seq::new(
            (rows.len() - from) as nat,
            |m: int| ChangeModel { table: name, before: rows[from + m], after: None },
        ));
    }
}

/// A row after an action.
spec fn next_row(
    action: ReferentialAction,
    columns: Seq<ColumnModel>,
    key: ForeignKeyModel,
    row: RowModel,
    new_key: Option<Seq<Json>>,
    caller: AuthModel,
) -> RowModel {
    row_acted(action, columns, key, row, new_key, caller)->Ok_0
}

proof fn listed_rows_change(
    name: Seq<char>,
    action: ReferentialAction,
    table: TableModel,
    key: ForeignKeyModel,
    rows: Seq<RowModel>,
    from: int,
    new_key: Option<Seq<Json>>,
    more: Seq<ChangeModel>,
    caller: AuthModel,
)
    requires
        sorted(table.rows),
        told_apart(rows),
        0 <= from <= rows.len(),
    ensures
        rows_acted_from(name, action, table, key, rows, from, new_key, more, caller) matches Ok((after, changes)) ==> {
            &&& after == TableModel { rows: after.rows, ..table }
            &&& forall|m: int|
                from <= m < rows.len() ==> row_acted(action, table.columns, key, #[trigger] rows[m], new_key, caller) is Ok
                    && get(after.rows, rows[m].id) == Some(
                    next_row(action, table.columns, key, rows[m], new_key, caller),
                )
            &&& forall|id: u64|
                (forall|m: int| from <= m < rows.len() ==> (#[trigger] rows[m]).id != id) ==> #[trigger] get(
                    after.rows,
                    id,
                ) == get(table.rows, id)
            &&& changes == more + Seq::new(
                (rows.len() - from) as nat,
                |m: int| ChangeModel {
                    table: name,
                    before: rows[from + m],
                    after: Some(next_row(action, table.columns, key, rows[from + m], new_key, caller)),
                },
            )
        },
    decreases rows.len() - from,
{
    let changed = |m: int| ChangeModel {
        table: name,
        before: rows[from + m],
        after: Some(next_row(action, table.columns, key, rows[from + m], new_key, caller)),
    };
    match rows_acted_from(name, action, table, key, rows, from, new_key, more, caller) {
        Err(_) => {},
        Ok((after, changes)) => {
            if from < rows.len() {
                let row = next_row(action, table.columns, key, rows[from], new_key, caller);
                let next = TableModel { rows: put(table.rows, row.id, row), ..table };
                let first = ChangeModel { table: name, before: rows[from], after: Some(row) };
                put_keeps_order(table.rows, row.id, row);
                listed_rows_change(name, action, next, key, rows, from + 1, new_key, more.push(first), caller);
                assert(row.id == rows[from].id);
                assert forall|m: int| from <= m < rows.len() implies row_acted(
                    action,
                    table.columns,
                    key,
                    #[trigger] rows[m],
                    new_key,
                    caller,
                ) is Ok && get(after.rows, rows[m].id) == Some(
                    next_row(action, table.columns, key, rows[m], new_key, caller),
                ) by {
                    if m == from {
                        assert forall|j: int| from + 1 <= j < rows.len() implies (#[trigger] rows[j]).id != rows[from].id by {}
                        get_after_put(table.rows, row.id, row, row.id);
                        assert(get(after.rows, row.id) == get(next.rows, row.id));
                    }
                }
                assert forall|id: u64|
                    (forall|m: int| from <= m < rows.len() ==> (#[trigger] rows[m]).id != id) implies #[trigger] get(
                    after.rows,
                    id,
                ) == get(table.rows, id) by {
                    get_after_put(table.rows, row.id, row, id);
                    assert(rows[from].id != id);
                    assert(get(after.rows, id) == get(next.rows, id));
                }
                assert(changes =~= more + Seq::new((rows.len() - from) as nat, changed));
            } else {
                assert(changes =~= more + Seq::new((rows.len() - from) as nat, changed));
            }
        },
    }
}

/// Whether a position of a list of names is the last one with its name.
pub open spec fn last_named(names: Seq<Seq<char>>, j: int) -> bool {
    0 <= j < names.len() && forall|i: int| j < i < names.len() ==> #[trigger] names[i] != names[j]
}

/// Whether a cell of a foreign key has what an action gives it: null, the default of its column, or the
/// value of the column that it refers to.
pub open spec fn given_by(
    action: ReferentialAction,
    columns: Seq<ColumnModel>,
    cells: CellsModel,
    name: Seq<char>,
    new_key: Option<Seq<Json>>,
    j: int,
    caller: AuthModel,
) -> bool {
    match action {
        ReferentialAction::SetNull => get(cells, name) == Some(Json::Null),
        ReferentialAction::SetDefault => column_named(columns, name) matches Some(column) ==> holds_default(
            cells,
            column,
            caller,
        ),
        ReferentialAction::Cascade => new_key is Some && (j < new_key->0.len() ==> get(cells, name) == Some(
            new_key->0[j],
        )),
        _ => true,
    }
}

proof fn cells_are_given(
    action: ReferentialAction,
    columns: Seq<ColumnModel>,
    names: Seq<Seq<char>>,
    from: int,
    old_cells: CellsModel,
    cells: CellsModel,
    new_key: Option<Seq<Json>>,
    caller: AuthModel,
)
    requires
        sorted(cells),
        0 <= from <= names.len(),
        forall|j: int|
            #[trigger] last_named(names, j) && j < from ==> given_by(action, columns, cells, names[j], new_key, j, caller),
        forall|name: Seq<char>| !names.contains(name) ==> #[trigger] get(cells, name) == get(old_cells, name),
    ensures
        cells_acted_from(action, columns, names, from, cells, new_key, caller) matches Ok(done) ==> {
            &&& sorted(done)
            &&& forall|j: int|
                #[trigger] last_named(names, j) ==> given_by(action, columns, done, names[j], new_key, j, caller)
            &&& forall|name: Seq<char>| !names.contains(name) ==> #[trigger] get(done, name) == get(old_cells, name)
        },
    decreases names.len() - from,
{
    if from < names.len() {
        match action_value(action, columns, names[from], new_key, from, caller) {
            Err(_) => {},
            Ok(value) => {
                let next = put(cells, names[from], value);
                put_keeps_order(cells, names[from], value);
                assert forall|j: int| #[trigger] last_named(names, j) && j < from + 1 implies given_by(
                    action,
                    columns,
                    next,
                    names[j],
                    new_key,
                    j,
                    caller,
                ) by {
                    get_after_put(cells, names[from], value, names[j]);
                    if j < from {
                        assert(names[from] != names[j]);
                        assert(given_by(action, columns, cells, names[j], new_key, j, caller));
                    }
                    if column_named(columns, names[j]) is Some {
                        crate::catalog::column_from_range(columns, names[j], 0);
                    }
                }
                assert forall|name: Seq<char>| !names.contains(name) implies #[trigger] get(next, name) == get(
                    old_cells,
                    name,
                ) by {
                    assert(names.contains(names[from]));
                    get_after_put(cells, names[from], value, name);
                    assert(get(cells, name) == get(old_cells, name));
                }
                cells_are_given(action, columns, names, from + 1, old_cells, next, new_key, caller);
            },
        }
    }
}

/// Whether a row is another after an action: the same row one version on, with the cells of the key given
/// by the action and its other cells kept, but for the generated ones.
pub open spec fn acted_on(
    action: ReferentialAction,
    columns: Seq<ColumnModel>,
    key: ForeignKeyModel,
    old_row: RowModel,
    row: RowModel,
    new_key: Option<Seq<Json>>,
    caller: AuthModel,
) -> bool {
    &&& row.id == old_row.id
    &&& row.version == old_row.version + 1
    &&& forall|j: int|
        #[trigger] last_named(key.columns, j) && !computed(columns, key.columns[j]) ==> given_by(
            action,
            columns,
            row.values,
            key.columns[j],
            new_key,
            j,
            caller,
        )
    &&& forall|name: Seq<char>|
        !key.columns.contains(name) && !computed(columns, name) ==> #[trigger] get(row.values, name) == get(
            old_row.values,
            name,
        )
    &&& exists|base: CellsModel| #[trigger] generated_anew(columns, base, row.values, caller)
}

proof fn rows_are_acted_on(
    action: ReferentialAction,
    columns: Seq<ColumnModel>,
    key: ForeignKeyModel,
    row: RowModel,
    new_key: Option<Seq<Json>>,
    caller: AuthModel,
)
    requires
        apart(columns),
        sorted(row.values),
    ensures
        row_acted(action, columns, key, row, new_key, caller) matches Ok(next) ==> acted_on(
            action,
            columns,
            key,
            row,
            next,
            new_key,
            caller,
        ),
{
    cells_are_given(action, columns, key.columns, 0, row.values, row.values, new_key, caller);
    match row_acted(action, columns, key, row, new_key, caller) {
        Err(_) => {},
        Ok(next) => {
            let cells = cells_acted_from(action, columns, key.columns, 0, row.values, new_key, caller)->Ok_0;
            regenerating(columns, 0, cells, cells, caller);
            assert(generated_anew(columns, cells, next.values, caller));
            assert forall|j: int|
                #[trigger] last_named(key.columns, j) && !computed(columns, key.columns[j]) implies given_by(
                action,
                columns,
                next.values,
                key.columns[j],
                new_key,
                j,
                caller,
            ) by {
                assert(get(next.values, key.columns[j]) == get(cells, key.columns[j]));
                assert(given_by(action, columns, cells, key.columns[j], new_key, j, caller));
                if column_named(columns, key.columns[j]) is Some {
                    crate::catalog::column_from_range(columns, key.columns[j], 0);
                }
            }
            assert forall|name: Seq<char>|
                !key.columns.contains(name) && !computed(columns, name) implies #[trigger] get(next.values, name) == get(
                row.values,
                name,
            ) by {
                assert(get(cells, name) == get(row.values, name));
            }
        },
    }
}

// ---------------------------------------------------------------------------------------------
// One foreign key
// ---------------------------------------------------------------------------------------------

/// Whether a key has nothing to react to: the row had no full key, or still has it.
spec fn passed_by(key: ForeignKeyModel, change: ChangeModel, target: TableModel) -> bool {
    let referred = referred_key(key, target);
    let old_key = full_key(change.before.values, referred);
    let new_key = new_key_of(change, referred);
    referred.len() == 0 || old_key is None || (new_key is Some && same_values(new_key->0, old_key->0)) || some_null(
        old_key->0,
    )
}

proof fn rows_are_bereaved(row: RowModel, key: ForeignKeyModel, change: ChangeModel, target: TableModel)
    ensures
        bereaves(row, key, change, goal_of(key, target)) <==> !passed_by(key, change, target) && same_values(
            key_cells(row.values, key.columns),
            full_key(change.before.values, referred_key(key, target))->0,
        ),
{
    let goal = goal_of(key, target);
    let before = change.before.values;
    assert(goal == referred_key(key, target));
    let old_key = full_key(before, goal);
    assert(change.after is Some ==> (key_stays(before, change.after->0.values, goal) <==> (new_key_of(change, goal) is Some
        && same_values(new_key_of(change, goal)->0, key_cells(before, goal))))) by {
        if change.after is Some {
            let after = change.after->0.values;
            if key_stays(before, after, goal) {
                assert(same_values(key_cells(after, goal), key_cells(before, goal)));
            }
            if new_key_of(change, goal) is Some && same_values(new_key_of(change, goal)->0, key_cells(before, goal)) {
                assert forall|i: int| 0 <= i < goal.len() implies has_key(after, #[trigger] goal[i]) && same_json(
                    cell_of(after, goal[i]),
                    cell_of(before, goal[i]),
                ) by {
                    assert(same_json(key_cells(after, goal)[i], key_cells(before, goal)[i]));
                }
            }
        }
    }
    if bereaves(row, key, change, goal) {
        assert forall|i: int| 0 <= i < goal.len() implies has_key(before, #[trigger] goal[i]) by {}
        assert(old_key == Some(key_cells(before, goal)));
        assert(!some_null(old_key->0)) by {
            if some_null(old_key->0) {
                let i = choose|i: int| 0 <= i < old_key->0.len() && #[trigger] old_key->0[i] is Null;
                assert(cell_of(before, goal[i]) is Null);
            }
        }
        assert(same_values(key_cells(row.values, key.columns), old_key->0)) by {
            assert forall|i: int| 0 <= i < goal.len() implies same_json(
                #[trigger] key_cells(row.values, key.columns)[i],
                old_key->0[i],
            ) by {
                assert(has_key(before, goal[i]));
            }
        }
    }
    if !passed_by(key, change, target) && same_values(key_cells(row.values, key.columns), old_key->0) {
        assert forall|i: int| 0 <= i < goal.len() implies has_key(before, #[trigger] goal[i]) && !(cell_of(
            before,
            goal[i],
        ) is Null) && same_json(cell_of(row.values, key.columns[i]), cell_of(before, goal[i])) by {
            assert(old_key->0[i] == cell_of(before, goal[i]));
            assert(same_json(key_cells(row.values, key.columns)[i], old_key->0[i]));
        }
    }
}

/// The values of the key that a row has after a change.
pub open spec fn key_after(change: ChangeModel, goal: Seq<Seq<char>>) -> Option<Seq<Json>> {
    match change.after {
        None => None,
        Some(row) => if forall|i: int| 0 <= i < goal.len() ==> has_key(row.values, #[trigger] goal[i]) {
            Some(Seq::new(goal.len(), |i: int| cell_of(row.values, goal[i])))
        } else {
            None
        },
    }
}

/// Whether a row of a table refers to the key that a change takes away.
pub open spec fn some_bereaved(table: TableModel, key: ForeignKeyModel, change: ChangeModel, goal: Seq<Seq<char>>) -> bool {
    exists|id: u64| #[trigger] get(table.rows, id) matches Some(row) && bereaves(row, key, change, goal)
}

/// What a foreign key does to the rows of its table, and no other, that refer to a key that is taken away:
/// it removes them, or gives their cells null, the default or the new key.
pub open spec fn reacts(
    source: TableModel,
    after: TableModel,
    key: ForeignKeyModel,
    change: ChangeModel,
    goal: Seq<Seq<char>>,
    caller: AuthModel,
) -> bool {
    &&& after == TableModel { rows: after.rows, ..source }
    &&& forall|id: u64|
        #![trigger get(after.rows, id)]
        match get(source.rows, id) {
            None => get(after.rows, id) is None,
            Some(row) => if !bereaves(row, key, change, goal) {
                get(after.rows, id) == Some(row)
            } else if declared(key, change) == Some(ReferentialAction::Cascade) && change.after is None {
                get(after.rows, id) is None
            } else {
                get(after.rows, id) matches Some(next) && acted_on(
                    declared(key, change)->0,
                    source.columns,
                    key,
                    row,
                    next,
                    key_after(change, goal),
                    caller,
                )
            },
        }
}

/// Whether changes are earlier ones and those of the rows that referred to a key that is taken away.
pub open spec fn reports(
    source: TableModel,
    after: TableModel,
    name: Seq<char>,
    key: ForeignKeyModel,
    change: ChangeModel,
    goal: Seq<Seq<char>>,
    more: Seq<ChangeModel>,
    changes: Seq<ChangeModel>,
) -> bool {
    &&& more.len() <= changes.len() && changes.take(more.len() as int) == more
    &&& forall|m: int|
        more.len() <= m < changes.len() ==> (#[trigger] changes[m]).table == name && get(
            source.rows,
            changes[m].before.id,
        ) == Some(changes[m].before) && bereaves(changes[m].before, key, change, goal) && changes[m].after == get(
            after.rows,
            changes[m].before.id,
        )
    &&& forall|id: u64|
        (#[trigger] get(source.rows, id) matches Some(row) && bereaves(row, key, change, goal)) ==> exists|m: int|
            more.len() <= m < changes.len() && (#[trigger] changes[m]).before.id == id
}

proof fn deletions_react(
    source: TableModel,
    name: Seq<char>,
    key: ForeignKeyModel,
    change: ChangeModel,
    target: TableModel,
    more: Seq<ChangeModel>,
    caller: AuthModel,
    rows: Seq<RowModel>,
)
    requires
        numbered(source.rows),
        !passed_by(key, change, target),
        bearers(source, key.columns, full_key(change.before.values, referred_key(key, target))->0, rows),
        declared(key, change) == Some(ReferentialAction::Cascade),
        change.after is None,
    ensures
        reacts(source, rows_deleted_from(name, source, rows, 0, more).0, key, change, goal_of(key, target), caller),
        reports(
            source,
            rows_deleted_from(name, source, rows, 0, more).0,
            name,
            key,
            change,
            goal_of(key, target),
            more,
            rows_deleted_from(name, source, rows, 0, more).1,
        ),
{
    let goal = goal_of(key, target);
    let (after, changes) = rows_deleted_from(name, source, rows, 0, more);
    listed_rows_go(name, source, rows, 0, more);
    assert forall|id: u64|
        #![trigger get(after.rows, id)]
        match get(source.rows, id) {
            None => get(after.rows, id) is None,
            Some(row) => if bereaves(row, key, change, goal) {
                get(after.rows, id) is None
            } else {
                get(after.rows, id) == Some(row)
            },
        } by {
        match get(source.rows, id) {
            None => {},
            Some(row) => {
                rows_are_bereaved(row, key, change, target);
                if exists|m: int| 0 <= m < rows.len() && (#[trigger] rows[m]).id == id {
                    let m = choose|m: int| 0 <= m < rows.len() && (#[trigger] rows[m]).id == id;
                    assert(rows[m] == row);
                }
            },
        }
    }
    assert(changes.take(more.len() as int) =~= more);
    assert forall|m: int| more.len() <= m < changes.len() implies (#[trigger] changes[m]).table == name && get(
        source.rows,
        changes[m].before.id,
    ) == Some(changes[m].before) && bereaves(changes[m].before, key, change, goal) && changes[m].after == get(
        after.rows,
        changes[m].before.id,
    ) by {
        let row = rows[m - more.len()];
        assert(changes[m] == (ChangeModel { table: name, before: row, after: None }));
        rows_are_bereaved(row, key, change, target);
        assert(get(after.rows, row.id) is None);
    }
    assert forall|id: u64|
        (#[trigger] get(source.rows, id) matches Some(row) && bereaves(row, key, change, goal)) implies exists|m: int|
        more.len() <= m < changes.len() && (#[trigger] changes[m]).before.id == id by {
        rows_are_bereaved(get(source.rows, id)->Some_0, key, change, target);
        let m = choose|m: int| 0 <= m < rows.len() && (#[trigger] rows[m]).id == id;
        assert(changes[more.len() + m].before == rows[m]);
    }
}

proof fn alterations_react(
    source: TableModel,
    name: Seq<char>,
    action: ReferentialAction,
    key: ForeignKeyModel,
    change: ChangeModel,
    target: TableModel,
    more: Seq<ChangeModel>,
    caller: AuthModel,
    rows: Seq<RowModel>,
)
    requires
        numbered(source.rows),
        crate::mutations::cells_sorted(source),
        apart(source.columns),
        !passed_by(key, change, target),
        bearers(source, key.columns, full_key(change.before.values, referred_key(key, target))->0, rows),
        declared(key, change) == Some(action),
        !(action is Cascade && change.after is None),
    ensures
        rows_acted_from(name, action, source, key, rows, 0, new_key_of(change, referred_key(key, target)), more, caller) matches Ok(
            (after, changes),
        ) ==> reacts(source, after, key, change, goal_of(key, target), caller) && reports(
            source,
            after,
            name,
            key,
            change,
            goal_of(key, target),
            more,
            changes,
        ),
{
    let goal = goal_of(key, target);
    let new_key = new_key_of(change, goal);
    assert(goal == referred_key(key, target));
    assert(new_key == key_after(change, goal)) by {
        if change.after is Some {
            assert(key_cells(change.after->0.values, goal) =~= Seq::new(
                goal.len(),
                |i: int| cell_of(change.after->0.values, goal[i]),
            ));
        }
    }
    listed_rows_change(name, action, source, key, rows, 0, new_key, more, caller);
    match rows_acted_from(name, action, source, key, rows, 0, new_key, more, caller) {
        Err(_) => {},
        Ok((after, changes)) => {
            assert forall|m: int| 0 <= m < rows.len() implies acted_on(
                action,
                source.columns,
                key,
                #[trigger] rows[m],
                next_row(action, source.columns, key, rows[m], new_key, caller),
                new_key,
                caller,
            ) && bereaves(rows[m], key, change, goal) by {
                rows_are_bereaved(rows[m], key, change, target);
                let id = rows[m].id;
                crate::ordmap::spot_from_range(source.rows, id, 0);
                let i = crate::ordmap::spot_from(source.rows, id, 0);
                if i < source.rows.len() {
                    get_at(source.rows, i);
                    assert(sorted(source.rows[i].1.values));
                } else {
                    get_absent(source.rows, id);
                }
                rows_are_acted_on(action, source.columns, key, rows[m], new_key, caller);
            }
            assert forall|id: u64|
                #![trigger get(after.rows, id)]
                match get(source.rows, id) {
                    None => get(after.rows, id) is None,
                    Some(row) => if !bereaves(row, key, change, goal) {
                        get(after.rows, id) == Some(row)
                    } else {
                        get(after.rows, id) matches Some(next) && acted_on(
                            action,
                            source.columns,
                            key,
                            row,
                            next,
                            new_key,
                            caller,
                        )
                    },
                } by {
                match get(source.rows, id) {
                    None => {
                        assert forall|m: int| 0 <= m < rows.len() implies (#[trigger] rows[m]).id != id by {}
                    },
                    Some(row) => {
                        rows_are_bereaved(row, key, change, target);
                        if bereaves(row, key, change, goal) {
                            let m = choose|m: int| 0 <= m < rows.len() && (#[trigger] rows[m]).id == id;
                            assert(rows[m] == row);
                        } else {
                            assert forall|m: int| 0 <= m < rows.len() implies (#[trigger] rows[m]).id != id by {}
                        }
                    },
                }
            }
            assert(changes.take(more.len() as int) =~= more);
            assert forall|m: int| more.len() <= m < changes.len() implies (#[trigger] changes[m]).table == name && get(
                source.rows,
                changes[m].before.id,
            ) == Some(changes[m].before) && bereaves(changes[m].before, key, change, goal) && changes[m].after == get(
                after.rows,
                changes[m].before.id,
            ) by {
                let row = rows[m - more.len()];
                assert(changes[m].before == row);
            }
            assert forall|id: u64|
                (#[trigger] get(source.rows, id) matches Some(row) && bereaves(row, key, change, goal)) implies exists|
                m: int,
            | more.len() <= m < changes.len() && (#[trigger] changes[m]).before.id == id by {
                rows_are_bereaved(get(source.rows, id)->Some_0, key, change, target);
                let m = choose|m: int| 0 <= m < rows.len() && (#[trigger] rows[m]).id == id;
                assert(changes[more.len() + m].before == rows[m]);
            }
        },
    }
}

/// A foreign key does what it declares when a row that it may refer to goes or changes. Where no row
/// refers to a key that is taken away, or nothing is declared, all stays. RESTRICT refuses the change.
/// CASCADE removes the rows that refer to a row that goes; the other actions give their cells null, the
/// default of the column or the new key. No other row changes.
pub proof fn keys_react_as_declared(
    database: DatabaseModel,
    target: TableModel,
    change: ChangeModel,
    name: Seq<char>,
    key: ForeignKeyModel,
    more: Seq<ChangeModel>,
    caller: AuthModel,
    source: TableModel,
)
    requires
        well_kept(database),
        get(database.catalog, name) == Some(source),
    ensures
        ({
            let goal = goal_of(key, target);
            let outcome = key_reacted(database, target, change, name, key, more, caller);
            if !some_bereaved(source, key, change, goal) || idle(declared(key, change)) {
                outcome == Ok::<(DatabaseModel, Seq<ChangeModel>), Failure>((database, more))
            } else if declared(key, change) == Some(ReferentialAction::Restrict) {
                outcome is Err
            } else {
                &&& declared(key, change) == Some(ReferentialAction::Cascade) && change.after is None ==> outcome is Ok
                &&& outcome matches Ok((next, changes)) ==> exists|after: TableModel| #[trigger]
                    reacts(source, after, key, change, goal, caller) && next == with_table(database, name, after)
                        && reports(source, after, name, key, change, goal, more, changes)
            }
        }),
{
    let goal = goal_of(key, target);
    let referred = referred_key(key, target);
    let old_key = full_key(change.before.values, referred);
    table_found(database.catalog, database.next_object_id, name, source);
    assert(table_of(database, name) == Ok::<TableModel, Failure>(source));
    assert(action_for(key, change) == declared(key, change));
    if passed_by(key, change, target) {
        if some_bereaved(source, key, change, goal) {
            let id = choose|id: u64| #[trigger]
                get(source.rows, id) matches Some(row) && bereaves(row, key, change, goal);
            rows_are_bereaved(get(source.rows, id)->Some_0, key, change, target);
        }
    } else {
        let rows = referring_from(source.rows, 0, key.columns, old_key->0, Seq::empty());
        referring_rows_bear(source, key.columns, old_key->0);
        if rows.len() == 0 {
            if some_bereaved(source, key, change, goal) {
                let id = choose|id: u64| #[trigger]
                    get(source.rows, id) matches Some(row) && bereaves(row, key, change, goal);
                rows_are_bereaved(get(source.rows, id)->Some_0, key, change, target);
                let m = choose|m: int| 0 <= m < rows.len() && (#[trigger] rows[m]).id == id;
            }
        } else {
            rows_are_bereaved(rows[0], key, change, target);
            assert(get(source.rows, rows[0].id) == Some(rows[0]));
            assert(some_bereaved(source, key, change, goal));
            match declared(key, change) {
                None => {},
                Some(action) => {
                    if action is Cascade && change.after is None {
                        deletions_react(source, name, key, change, target, more, caller, rows);
                    } else if !(action is NoAction) && !(action is Restrict) {
                        alterations_react(source, name, action, key, change, target, more, caller, rows);
                    }
                },
            }
        }
    }
}

} // verus!
