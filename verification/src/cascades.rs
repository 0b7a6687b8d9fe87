//! What becomes of rows when a statement takes away rows or keys to which they refer.

use vstd::prelude::*;
use crate::alter::with_table;
use crate::catalog::{AuthModel, DatabaseModel, ForeignKeyModel, ReferentialAction, RowModel, TableModel};
use crate::definitions::{plain_name, plain_sources, sources_are_plain};
use crate::execute::statement_done;
use crate::json::Json;
use crate::mutations::computed;
use crate::ordmap::{get, get_absent, get_after_put, get_at, sorted, spot_from, spot_from_range};
use crate::references::{
    bereaves, declared, goal_of, idle, keys_react_as_declared, points_to, reacts, reports, some_bereaved,
};
use crate::referential::{
    change_applied, changes_applied, changes_between, changes_from, key_reacted, keys_reacted_from, keys_to_from,
    row_changes_from, row_unchanged, sources_from, ChangeModel, CASCADE_LIMIT,
};
use crate::statement::statement_executed;
use crate::upkeep::{plainly_named, reaction_kept, reactions_kept, statement_kept, table_found, well_kept};

verus! {

/// The row of a table with an identity.
pub open spec fn row_in(database: DatabaseModel, name: Seq<char>, id: u64) -> Option<RowModel> {
    match get(database.catalog, name) {
        Some(table) => get(table.rows, id),
        None => None,
    }
}

/// Whether a row is another or a later version of it.
pub open spec fn follows(later: RowModel, row: RowModel) -> bool {
    later == row || later.id == row.id && later.version > row.version
}

/// Whether a table has a foreign key.
pub open spec fn has_foreign_key(database: DatabaseModel, name: Seq<char>, key: ForeignKeyModel) -> bool {
    get(database.catalog, name) matches Some(table) && table.foreign_keys.contains(key)
}

/// Whether a state has the tables of another with some of its rows, each the same or a later version.
pub open spec fn outlives(a: DatabaseModel, b: DatabaseModel) -> bool {
    &&& forall|name: Seq<char>|
        match (get(a.catalog, name), #[trigger] get(b.catalog, name)) {
            (Some(x), Some(y)) => y == (TableModel { rows: y.rows, ..x }),
            (None, None) => true,
            _ => false,
        }
    &&& forall|name: Seq<char>, id: u64|
        (#[trigger] row_in(b, name, id)) is Some ==> row_in(a, name, id) is Some && follows(
            row_in(b, name, id)->0,
            row_in(a, name, id)->0,
        )
}

proof fn outlives_chain(a: DatabaseModel, b: DatabaseModel, c: DatabaseModel)
    requires
        outlives(a, b),
        outlives(b, c),
    ensures
        outlives(a, c),
{
    assert forall|name: Seq<char>|
        match (get(a.catalog, name), #[trigger] get(c.catalog, name)) {
            (Some(x), Some(y)) => y == (TableModel { rows: y.rows, ..x }),
            (None, None) => true,
            _ => false,
        } by {
        assert(get(b.catalog, name) == get(b.catalog, name));
    }
    assert forall|name: Seq<char>, id: u64| (#[trigger] row_in(c, name, id)) is Some implies row_in(a, name, id) is Some
        && follows(row_in(c, name, id)->0, row_in(a, name, id)->0) by {
        assert(row_in(b, name, id) is Some);
    }
}

/// Whether an action of a foreign key can change a row.
pub open spec fn alters(key: ForeignKeyModel) -> bool {
    ||| key.on_delete == Some(ReferentialAction::SetNull)
    ||| key.on_delete == Some(ReferentialAction::SetDefault)
    ||| key.on_update == Some(ReferentialAction::SetNull)
    ||| key.on_update == Some(ReferentialAction::SetDefault)
    ||| key.on_update == Some(ReferentialAction::Cascade)
}

/// Whether an action of a foreign key can remove a row.
pub open spec fn removes(key: ForeignKeyModel) -> bool {
    key.on_delete == Some(ReferentialAction::Cascade)
}

/// Whether no action on a row of a table can change a column.
pub open spec fn spared(table: TableModel, column: Seq<char>) -> bool {
    &&& !computed(table.columns, column)
    &&& forall|k: int|
        0 <= k < table.foreign_keys.len() && alters(#[trigger] table.foreign_keys[k])
            ==> !table.foreign_keys[k].columns.contains(column)
}

/// Whether an action on a row of a table can change it.
pub open spec fn alterable(table: TableModel) -> bool {
    exists|k: int| 0 <= k < table.foreign_keys.len() && alters(#[trigger] table.foreign_keys[k])
}

/// Whether a row is another that actions may have changed, in columns that they may change.
pub open spec fn alteration(table: TableModel, old_row: RowModel, row: RowModel) -> bool {
    row == old_row || (alterable(table) && forall|column: Seq<char>|
        spared(table, column) ==> #[trigger] get(row.values, column) == get(old_row.values, column))
}

/// Whether a later state has the rows of another, but for those that are gone, as actions may change them.
pub open spec fn rightly_altered(a: DatabaseModel, b: DatabaseModel) -> bool {
    forall|name: Seq<char>, id: u64|
        (#[trigger] row_in(b, name, id)) is Some && get(a.catalog, name) is Some && row_in(a, name, id) is Some
            ==> alteration(get(a.catalog, name)->0, row_in(a, name, id)->0, row_in(b, name, id)->0)
}

proof fn alteration_chain(table: TableModel, mid: TableModel, x: RowModel, y: RowModel, z: RowModel)
    requires
        mid == (TableModel { rows: mid.rows, ..table }),
        alteration(table, x, y),
        alteration(mid, y, z),
    ensures
        alteration(table, x, z),
{
    assert(mid.foreign_keys == table.foreign_keys && mid.columns == table.columns);
    if alterable(mid) {
        let k = choose|k: int| 0 <= k < mid.foreign_keys.len() && alters(#[trigger] mid.foreign_keys[k]);
        assert(alters(table.foreign_keys[k]));
    }
    if z != x {
        assert forall|column: Seq<char>| spared(table, column) implies #[trigger] get(z.values, column) == get(
            x.values,
            column,
        ) by {
            assert(spared(mid, column));
            assert(get(y.values, column) == get(x.values, column));
        }
    }
}

proof fn rightly_altered_chain(a: DatabaseModel, b: DatabaseModel, c: DatabaseModel)
    requires
        outlives(a, b),
        outlives(b, c),
        rightly_altered(a, b),
        rightly_altered(b, c),
    ensures
        rightly_altered(a, c),
{
    assert forall|name: Seq<char>, id: u64|
        (#[trigger] row_in(c, name, id)) is Some && get(a.catalog, name) is Some && row_in(a, name, id) is Some implies alteration(
        get(a.catalog, name)->0,
        row_in(a, name, id)->0,
        row_in(c, name, id)->0,
    ) by {
        let table = get(a.catalog, name)->0;
        let mid = get(b.catalog, name)->0;
        assert(row_in(b, name, id) is Some);
        assert(mid == (TableModel { rows: mid.rows, ..table }));
        alteration_chain(table, mid, row_in(a, name, id)->0, row_in(b, name, id)->0, row_in(c, name, id)->0);
    }
}

// ---------------------------------------------------------------------------------------------
// One foreign key
// ---------------------------------------------------------------------------------------------

/// What one foreign key may do in the face of a change.
spec fn stepped(
    database: DatabaseModel,
    next: DatabaseModel,
    change: ChangeModel,
    name: Seq<char>,
    key: ForeignKeyModel,
    goal: Seq<Seq<char>>,
    more: Seq<ChangeModel>,
    changes: Seq<ChangeModel>,
) -> bool {
    &&& outlives(database, next)
    &&& rightly_altered(database, next)
    &&& forall|id: u64|
        (#[trigger] row_in(next, name, id)) is Some && row_in(database, name, id) == row_in(next, name, id) && !idle(
            declared(key, change),
        ) ==> !bereaves(row_in(next, name, id)->0, key, change, goal)
    &&& forall|other: Seq<char>, id: u64|
        (#[trigger] row_in(next, other, id)) is None && row_in(database, other, id) is Some ==> {
            let row = row_in(database, other, id)->0;
            &&& other == name
            &&& points_to(row.values, key, change.before.values, goal)
            &&& removes(key) && change.after is None
            &&& changes.contains(ChangeModel { table: name, before: row, after: None })
        }
    &&& more.len() <= changes.len() && changes.take(more.len() as int) == more
    &&& forall|m: int|
        more.len() <= m < changes.len() ==> (#[trigger] changes[m]).table == name && row_in(
            database,
            name,
            changes[m].before.id,
        ) == Some(changes[m].before) && (changes[m].after is None ==> row_in(next, name, changes[m].before.id) is None)
}

proof fn one_key_steps(
    database: DatabaseModel,
    target: TableModel,
    change: ChangeModel,
    name: Seq<char>,
    key: ForeignKeyModel,
    more: Seq<ChangeModel>,
    caller: AuthModel,
)
    requires
        well_kept(database),
        has_foreign_key(database, name, key),
    ensures
        key_reacted(database, target, change, name, key, more, caller) matches Ok((next, changes)) ==> stepped(
            database,
            next,
            change,
            name,
            key,
            goal_of(key, target),
            more,
            changes,
        ),
{
    let source = get(database.catalog, name)->0;
    let goal = goal_of(key, target);
    keys_react_as_declared(database, target, change, name, key, more, caller, source);
    table_found(database.catalog, database.next_object_id, name, source);
    match key_reacted(database, target, change, name, key, more, caller) {
        Err(_) => {},
        Ok((next, changes)) => {
            if !some_bereaved(source, key, change, goal) || idle(declared(key, change)) {
                assert(changes.take(more.len() as int) =~= more);
                assert forall|id: u64|
                    (#[trigger] row_in(next, name, id)) is Some && !idle(declared(key, change)) implies !bereaves(
                    row_in(next, name, id)->0,
                    key,
                    change,
                    goal,
                ) by {
                    assert(get(source.rows, id) is Some);
                }
            } else {
                let after = choose|after: TableModel| #[trigger]
                    reacts(source, after, key, change, goal, caller) && next == with_table(database, name, after)
                        && reports(source, after, name, key, change, goal, more, changes);
                step_is_right(database, source, after, change, name, key, goal, more, changes, caller);
            }
        },
    }
}

proof fn step_is_right(
    database: DatabaseModel,
    source: TableModel,
    after: TableModel,
    change: ChangeModel,
    name: Seq<char>,
    key: ForeignKeyModel,
    goal: Seq<Seq<char>>,
    more: Seq<ChangeModel>,
    changes: Seq<ChangeModel>,
    caller: AuthModel,
)
    requires
        sorted(database.catalog),
        get(database.catalog, name) == Some(source),
        source.foreign_keys.contains(key),
        reacts(source, after, key, change, goal, caller),
        reports(source, after, name, key, change, goal, more, changes),
        !idle(declared(key, change)),
        declared(key, change) != Some(ReferentialAction::Restrict),
        forall|i: int| 0 <= i < source.rows.len() ==> (#[trigger] source.rows[i]).0 == source.rows[i].1.id,
        sorted(source.rows),
    ensures
        stepped(database, with_table(database, name, after), change, name, key, goal, more, changes),
{
    let next = with_table(database, name, after);
    assert forall|other: Seq<char>| #[trigger] get(next.catalog, other) == (if other == name {
        Some(after)
    } else {
        get(database.catalog, other)
    }) by {
        get_after_put(database.catalog, name, after, other);
    }
    assert forall|other: Seq<char>, id: u64| other != name implies #[trigger] row_in(next, other, id) == row_in(
        database,
        other,
        id,
    ) by {
        assert(get(next.catalog, other) == get(database.catalog, other));
    }
    assert(get(next.catalog, name) == Some(after));
    assert forall|id: u64| #[trigger] row_in(next, name, id) == get(after.rows, id) && row_in(database, name, id) == get(
        source.rows,
        id,
    ) by {}
    let k = choose|k: int| 0 <= k < source.foreign_keys.len() && source.foreign_keys[k] == key;
    let removal = declared(key, change) == Some(ReferentialAction::Cascade) && change.after is None;
    assert(source.foreign_keys[k] == key);
    assert(!removal ==> alters(key)) by {
        match declared(key, change)->0 {
            ReferentialAction::Restrict => {},
            ReferentialAction::Cascade => {},
            ReferentialAction::SetNull => {},
            ReferentialAction::NoAction => {},
            ReferentialAction::SetDefault => {},
        }
    }
    assert forall|other: Seq<char>, id: u64| (#[trigger] row_in(next, other, id)) is Some implies row_in(
        database,
        other,
        id,
    ) is Some && follows(row_in(next, other, id)->0, row_in(database, other, id)->0) by {
        if other == name {
            assert(get(after.rows, id) is Some);
        }
    }
    assert forall|other: Seq<char>, id: u64|
        (#[trigger] row_in(next, other, id)) is Some && get(database.catalog, other) is Some && row_in(
            database,
            other,
            id,
        ) is Some implies alteration(
        get(database.catalog, other)->0,
        row_in(database, other, id)->0,
        row_in(next, other, id)->0,
    ) by {
        if other == name {
            let x = row_in(database, name, id)->0;
            let y = row_in(next, name, id)->0;
            assert(get(after.rows, id) == Some(y));
            if bereaves(x, key, change, goal) {
                assert forall|column: Seq<char>| spared(source, column) implies #[trigger] get(y.values, column) == get(
                    x.values,
                    column,
                ) by {
                    assert(!source.foreign_keys[k].columns.contains(column));
                }
                assert(alterable(source));
            }
        }
    }
    assert forall|id: u64|
        (#[trigger] row_in(next, name, id)) is Some && row_in(database, name, id) == row_in(next, name, id) && !idle(
            declared(key, change),
        ) implies !bereaves(row_in(next, name, id)->0, key, change, goal) by {
        assert(get(after.rows, id) is Some);
    }
    assert forall|other: Seq<char>, id: u64|
        (#[trigger] row_in(next, other, id)) is None && row_in(database, other, id) is Some implies {
        let row = row_in(database, other, id)->0;
        &&& other == name
        &&& points_to(row.values, key, change.before.values, goal)
        &&& removes(key) && change.after is None
        &&& changes.contains(ChangeModel { table: name, before: row, after: None })
    } by {
        if other == name {
            assert(get(after.rows, id) is None);
            let row = get(source.rows, id)->0;
            assert(bereaves(row, key, change, goal));
            let m = choose|m: int| more.len() <= m < changes.len() && (#[trigger] changes[m]).before.id == id;
            spot_from_range(source.rows, id, 0);
            let i = spot_from(source.rows, id, 0);
            if i < source.rows.len() {
                get_at(source.rows, i);
            } else {
                get_absent(source.rows, id);
            }
            assert(changes[m] == (ChangeModel { table: name, before: row, after: None }));
        }
    }
}

// ---------------------------------------------------------------------------------------------
// The foreign keys to a table
// ---------------------------------------------------------------------------------------------

spec fn key_at(keys: Seq<ForeignKeyModel>, from: int, key: ForeignKeyModel) -> bool {
    exists|q: int| from <= q < keys.len() && #[trigger] keys[q] == key
}

spec fn entry_at(catalog: Seq<(Seq<char>, TableModel)>, from: int, name: Seq<char>, key: ForeignKeyModel) -> bool {
    exists|i: int|
        from <= i < catalog.len() && (#[trigger] catalog[i]).0 == name && key_at(catalog[i].1.foreign_keys, 0, key)
}

proof fn keys_to_hold(
    name: Seq<char>,
    keys: Seq<ForeignKeyModel>,
    from: int,
    target: Seq<char>,
    found: Seq<(Seq<char>, ForeignKeyModel)>,
    entry: (Seq<char>, ForeignKeyModel),
)
    requires
        0 <= from,
    ensures
        keys_to_from(name, keys, from, target, found).contains(entry) <==> (found.contains(entry) || (entry.0 == name
            && entry.1.foreign_table == target && key_at(keys, from, entry.1))),
    decreases keys.len() - from,
{
    if from < keys.len() {
        if keys[from].foreign_table == target {
            let next = found.push((name, keys[from]));
            keys_to_hold(name, keys, from + 1, target, next, entry);
            if found.contains(entry) {
                let i = choose|i: int| 0 <= i < found.len() && found[i] == entry;
                assert(next[i] == entry);
            }
            assert(next[found.len() as int] == (name, keys[from]));
            if next.contains(entry) {
                let i = choose|i: int| 0 <= i < next.len() && next[i] == entry;
                if i < found.len() {
                    assert(found[i] == entry);
                }
            }
        } else {
            keys_to_hold(name, keys, from + 1, target, found, entry);
        }
        if key_at(keys, from, entry.1) {
            let q = choose|q: int| from <= q < keys.len() && #[trigger] keys[q] == entry.1;
            if q > from {
                assert(keys[q] == entry.1);
            }
        }
        if key_at(keys, from + 1, entry.1) {
            let q = choose|q: int| from + 1 <= q < keys.len() && #[trigger] keys[q] == entry.1;
            assert(keys[q] == entry.1);
        }
        assert(keys[from] == entry.1 ==> key_at(keys, from, entry.1));
    }
}

proof fn sources_hold(
    catalog: Seq<(Seq<char>, TableModel)>,
    from: int,
    target: Seq<char>,
    found: Seq<(Seq<char>, ForeignKeyModel)>,
    entry: (Seq<char>, ForeignKeyModel),
)
    requires
        0 <= from,
    ensures
        sources_from(catalog, from, target, found).contains(entry) <==> (found.contains(entry)
            || entry.1.foreign_table == target && entry_at(catalog, from, entry.0, entry.1)),
    decreases catalog.len() - from,
{
    if from < catalog.len() {
        let (name, table) = catalog[from];
        keys_to_hold(name, table.foreign_keys, 0, target, found, entry);
        sources_hold(
            catalog,
            from + 1,
            target,
            keys_to_from(name, table.foreign_keys, 0, target, found),
            entry,
        );
        if entry_at(catalog, from, entry.0, entry.1) {
            let i = choose|i: int|
                from <= i < catalog.len() && (#[trigger] catalog[i]).0 == entry.0 && key_at(
                    catalog[i].1.foreign_keys,
                    0,
                    entry.1,
                );
            if i > from {
                assert(catalog[i].0 == entry.0);
            }
        }
        if entry_at(catalog, from + 1, entry.0, entry.1) {
            let i = choose|i: int|
                from + 1 <= i < catalog.len() && (#[trigger] catalog[i]).0 == entry.0 && key_at(
                    catalog[i].1.foreign_keys,
                    0,
                    entry.1,
                );
            assert(catalog[i].0 == entry.0);
        }
        assert(catalog[from].0 == name);
    }
}

proof fn sources_are_the_keys(database: DatabaseModel, target: Seq<char>, name: Seq<char>, key: ForeignKeyModel)
    requires
        sorted(database.catalog),
    ensures
        sources_from(database.catalog, 0, target, Seq::empty()).contains((name, key)) <==> (key.foreign_table == target
            && has_foreign_key(database, name, key)),
{
    let catalog = database.catalog;
    let none = Seq::<(Seq<char>, ForeignKeyModel)>::empty();
    sources_hold(catalog, 0, target, none, (name, key));
    assert(!none.contains((name, key)));
    if has_foreign_key(database, name, key) {
        spot_from_range(catalog, name, 0);
        let i = spot_from(catalog, name, 0);
        if i < catalog.len() {
            get_at(catalog, i);
            let keys = catalog[i].1.foreign_keys;
            let q = choose|q: int| 0 <= q < keys.len() && keys[q] == key;
            assert(keys[q] == key);
            assert(key_at(keys, 0, key));
            assert(catalog[i].0 == name);
        } else {
            get_absent(catalog, name);
        }
    }
    if entry_at(catalog, 0, name, key) {
        let i = choose|i: int|
            0 <= i < catalog.len() && (#[trigger] catalog[i]).0 == name && key_at(catalog[i].1.foreign_keys, 0, key);
        get_at(catalog, i);
        let keys = catalog[i].1.foreign_keys;
        let q = choose|q: int| 0 <= q < keys.len() && #[trigger] keys[q] == key;
        assert(keys[q] == key);
    }
}

// ---------------------------------------------------------------------------------------------
// All foreign keys
// ---------------------------------------------------------------------------------------------

/// Whether a version of a row refers to a row that goes, through a foreign key that removes it.
spec fn falls(
    table: TableModel,
    row: RowModel,
    name: Seq<char>,
    change: ChangeModel,
    target: TableModel,
    changes: Seq<ChangeModel>,
    key: ForeignKeyModel,
    version: RowModel,
) -> bool {
    &&& follows(version, row) && alteration(table, row, version)
    &&& removes(key) && change.after is None
    &&& points_to(version.values, key, change.before.values, goal_of(key, target))
    &&& changes.contains(ChangeModel { table: name, before: version, after: None })
}

/// What the foreign keys from a position on may do in the face of a change.
spec fn settled(
    database: DatabaseModel,
    next: DatabaseModel,
    target: TableModel,
    change: ChangeModel,
    sources: Seq<(Seq<char>, ForeignKeyModel)>,
    from: int,
    more: Seq<ChangeModel>,
    changes: Seq<ChangeModel>,
) -> bool {
    &&& outlives(database, next)
    &&& rightly_altered(database, next)
    &&& forall|j: int, id: u64|
        from <= j < sources.len() && (#[trigger] row_in(next, sources[j].0, id)) is Some && row_in(
            database,
            sources[j].0,
            id,
        ) == row_in(next, sources[j].0, id) && !idle(declared(sources[j].1, change)) ==> !bereaves(
            row_in(next, sources[j].0, id)->0,
            sources[j].1,
            change,
            goal_of(sources[j].1, target),
        )
    &&& forall|name: Seq<char>, id: u64|
        (#[trigger] row_in(next, name, id)) is None && row_in(database, name, id) is Some ==> exists|
            key: ForeignKeyModel,
            version: RowModel,
        |
            sources.contains((name, key)) && #[trigger] falls(
                get(database.catalog, name)->0,
                row_in(database, name, id)->0,
                name,
                change,
                target,
                changes,
                key,
                version,
            )
    &&& more.len() <= changes.len() && changes.take(more.len() as int) == more
    &&& forall|m: int|
        more.len() <= m < changes.len() ==> plain_name((#[trigger] changes[m]).table) && row_in(
            database,
            changes[m].table,
            changes[m].before.id,
        ) is Some && follows(changes[m].before, row_in(database, changes[m].table, changes[m].before.id)->0) && (
        changes[m].after is None ==> row_in(next, changes[m].table, changes[m].before.id) is None)
}

/// Whether all sources are foreign keys of their tables.
spec fn owned(database: DatabaseModel, sources: Seq<(Seq<char>, ForeignKeyModel)>) -> bool {
    forall|j: int| 0 <= j < sources.len() ==> #[trigger] has_foreign_key(database, sources[j].0, sources[j].1)
}

proof fn steps_settle(
    database: DatabaseModel,
    mid: DatabaseModel,
    next: DatabaseModel,
    target: TableModel,
    change: ChangeModel,
    sources: Seq<(Seq<char>, ForeignKeyModel)>,
    from: int,
    more: Seq<ChangeModel>,
    some: Seq<ChangeModel>,
    changes: Seq<ChangeModel>,
)
    requires
        0 <= from < sources.len(),
        plain_sources(sources),
        stepped(
            database,
            mid,
            change,
            sources[from].0,
            sources[from].1,
            goal_of(sources[from].1, target),
            more,
            some,
        ),
        settled(mid, next, target, change, sources, from + 1, some, changes),
    ensures
        settled(database, next, target, change, sources, from, more, changes),
{
    let (name, key) = sources[from];
    outlives_chain(database, mid, next);
    rightly_altered_chain(database, mid, next);
    assert forall|j: int, id: u64|
        from <= j < sources.len() && (#[trigger] row_in(next, sources[j].0, id)) is Some && row_in(
            database,
            sources[j].0,
            id,
        ) == row_in(next, sources[j].0, id) && !idle(declared(sources[j].1, change)) implies !bereaves(
        row_in(next, sources[j].0, id)->0,
        sources[j].1,
        change,
        goal_of(sources[j].1, target),
    ) by {
        assert(row_in(mid, sources[j].0, id) is Some);
        assert(row_in(mid, sources[j].0, id) == row_in(next, sources[j].0, id));
    }
    assert(forall|c: ChangeModel| some.contains(c) ==> #[trigger] changes.contains(c)) by {
        assert forall|c: ChangeModel| some.contains(c) implies #[trigger] changes.contains(c) by {
            let i = choose|i: int| 0 <= i < some.len() && some[i] == c;
            assert(changes.take(some.len() as int)[i] == changes[i]);
            assert(changes[i] == c);
        }
    }
    assert forall|other: Seq<char>, id: u64|
        (#[trigger] row_in(next, other, id)) is None && row_in(database, other, id) is Some implies exists|
        k: ForeignKeyModel,
        version: RowModel,
    |
        sources.contains((other, k)) && #[trigger] falls(
            get(database.catalog, other)->0,
            row_in(database, other, id)->0,
            other,
            change,
            target,
            changes,
            k,
            version,
        ) by {
        let row = row_in(database, other, id)->0;
        let table = get(database.catalog, other)->0;
        if row_in(mid, other, id) is None {
            assert(sources[from] == (other, key));
            assert(falls(table, row, other, change, target, changes, key, row));
        } else {
            let middle = row_in(mid, other, id)->0;
            let between = get(mid.catalog, other)->0;
            let (k, version) = choose|k: ForeignKeyModel, version: RowModel|
                sources.contains((other, k)) && #[trigger] falls(between, middle, other, change, target, changes, k, version);
            alteration_chain(table, between, row, middle, version);
            assert(falls(table, row, other, change, target, changes, k, version));
        }
    }
    assert(changes.take(more.len() as int) =~= changes.take(some.len() as int).take(more.len() as int));
    assert forall|m: int| more.len() <= m < changes.len() implies plain_name((#[trigger] changes[m]).table) && row_in(
        database,
        changes[m].table,
        changes[m].before.id,
    ) is Some && follows(changes[m].before, row_in(database, changes[m].table, changes[m].before.id)->0) && (
    changes[m].after is None ==> row_in(next, changes[m].table, changes[m].before.id) is None) by {
        if m < some.len() {
            assert(changes.take(some.len() as int)[m] == changes[m]);
            assert(some[m] == changes[m]);
            assert(plain_name(sources[from].0));
            if changes[m].after is None && row_in(next, name, changes[m].before.id) is Some {
                assert(row_in(mid, name, changes[m].before.id) is Some);
            }
        } else {
            assert(row_in(mid, changes[m].table, changes[m].before.id) is Some);
        }
    }
}

proof fn all_keys_settle(
    database: DatabaseModel,
    target: TableModel,
    change: ChangeModel,
    sources: Seq<(Seq<char>, ForeignKeyModel)>,
    from: int,
    more: Seq<ChangeModel>,
    caller: AuthModel,
)
    requires
        well_kept(database),
        plain_sources(sources),
        owned(database, sources),
        0 <= from <= sources.len(),
    ensures
        keys_reacted_from(database, target, change, sources, from, more, caller) matches Ok((next, changes)) ==> settled(
            database,
            next,
            target,
            change,
            sources,
            from,
            more,
            changes,
        ),
    decreases sources.len() - from,
{
    if from < sources.len() {
        let (name, key) = sources[from];
        assert(has_foreign_key(database, sources[from].0, sources[from].1));
        one_key_steps(database, target, change, name, key, more, caller);
        reaction_kept(database, target, change, name, key, more, caller);
        match key_reacted(database, target, change, name, key, more, caller) {
            Err(_) => {},
            Ok((mid, some)) => {
                assert forall|j: int| 0 <= j < sources.len() implies #[trigger] has_foreign_key(
                    mid,
                    sources[j].0,
                    sources[j].1,
                ) by {
                    assert(has_foreign_key(database, sources[j].0, sources[j].1));
                    assert(get(mid.catalog, sources[j].0) is Some);
                }
                all_keys_settle(mid, target, change, sources, from + 1, some, caller);
                match keys_reacted_from(mid, target, change, sources, from + 1, some, caller) {
                    Err(_) => {},
                    Ok((next, changes)) => {
                        steps_settle(database, mid, next, target, change, sources, from, more, some, changes);
                    },
                }
            },
        }
    } else {
        assert(more.take(more.len() as int) =~= more);
    }
}

// ---------------------------------------------------------------------------------------------
// All changes
// ---------------------------------------------------------------------------------------------

/// Whether a foreign key of a table refers to another.
pub open spec fn leads(database: DatabaseModel, name: Seq<char>, key: ForeignKeyModel, target: Seq<char>) -> bool {
    has_foreign_key(database, name, key) && key.foreign_table == target
}

/// Whether no row that stays as it is refers to a key that a change takes away, through a foreign key that
/// declares an action for it.
pub open spec fn heeded(a: DatabaseModel, b: DatabaseModel, change: ChangeModel) -> bool {
    forall|name: Seq<char>, key: ForeignKeyModel, id: u64|
        #![trigger leads(a, name, key, change.table), row_in(b, name, id)]
        leads(a, name, key, change.table) && get(a.catalog, change.table) is Some && !idle(declared(key, change)) && row_in(
            b,
            name,
            id,
        ) is Some && row_in(a, name, id) == row_in(b, name, id) ==> !bereaves(
            row_in(b, name, id)->0,
            key,
            change,
            goal_of(key, get(a.catalog, change.table)->0),
        )
}

/// Whether a row that goes was one of these changes, or is a version of a row.
pub open spec fn was_there(database: DatabaseModel, pending: Seq<ChangeModel>, name: Seq<char>, row: RowModel) -> bool {
    ||| pending.contains(ChangeModel { table: name, before: row, after: None })
    ||| row_in(database, name, row.id) is Some && follows(row, row_in(database, name, row.id)->0)
}

/// Whether a version of a row referred to a row that is gone, through a foreign key that removes it.
pub open spec fn fell(
    a: DatabaseModel,
    b: DatabaseModel,
    pending: Seq<ChangeModel>,
    name: Seq<char>,
    row: RowModel,
    key: ForeignKeyModel,
    version: RowModel,
    lost: RowModel,
) -> bool {
    &&& has_foreign_key(a, name, key) && key.on_delete == Some(ReferentialAction::Cascade)
    &&& get(a.catalog, key.foreign_table) is Some
    &&& follows(version, row) && alteration(get(a.catalog, name)->0, row, version)
    &&& points_to(version.values, key, lost.values, goal_of(key, get(a.catalog, key.foreign_table)->0))
    &&& row_in(b, key.foreign_table, lost.id) is None
    &&& was_there(a, pending, key.foreign_table, lost)
}

/// Whether every row that is gone fell by a foreign key.
pub open spec fn rightly_gone(a: DatabaseModel, b: DatabaseModel, pending: Seq<ChangeModel>) -> bool {
    forall|name: Seq<char>, id: u64|
        (#[trigger] row_in(b, name, id)) is None && row_in(a, name, id) is Some ==> exists|
            key: ForeignKeyModel,
            version: RowModel,
            lost: RowModel,
        | #[trigger]
            fell(a, b, pending, name, row_in(a, name, id)->0, key, version, lost)
}

/// Whether of every row that is gone some version, the last one, is missed by no row that stays as it is.
pub open spec fn unmissed(a: DatabaseModel, b: DatabaseModel) -> bool {
    forall|name: Seq<char>, id: u64|
        (#[trigger] row_in(b, name, id)) is None && row_in(a, name, id) is Some ==> exists|version: RowModel|
            follows(version, row_in(a, name, id)->0) && alteration(
                get(a.catalog, name)->0,
                row_in(a, name, id)->0,
                version,
            ) && #[trigger] heeded(a, b, ChangeModel { table: name, before: version, after: None })
}

/// What all reactions to pending changes lead to.
spec fn ran(a: DatabaseModel, b: DatabaseModel, pending: Seq<ChangeModel>) -> bool {
    &&& outlives(a, b)
    &&& rightly_altered(a, b)
    &&& forall|m: int| 0 <= m < pending.len() ==> heeded(a, b, #[trigger] pending[m])
    &&& rightly_gone(a, b, pending)
    &&& unmissed(a, b)
}

/// Whether the rows of pending changes that say so are gone.
spec fn ready(database: DatabaseModel, pending: Seq<ChangeModel>) -> bool {
    forall|m: int|
        0 <= m < pending.len() ==> plain_name((#[trigger] pending[m]).table) && (pending[m].after is None ==> row_in(
            database,
            pending[m].table,
            pending[m].before.id,
        ) is None)
}

proof fn heeded_earlier(a: DatabaseModel, b: DatabaseModel, c: DatabaseModel, change: ChangeModel)
    requires
        outlives(a, b),
        outlives(b, c),
        heeded(b, c, change),
    ensures
        heeded(a, c, change),
{
    assert forall|name: Seq<char>, key: ForeignKeyModel, id: u64|
        #![trigger leads(a, name, key, change.table), row_in(c, name, id)]
        leads(a, name, key, change.table) && get(a.catalog, change.table) is Some && !idle(declared(key, change)) && row_in(
            c,
            name,
            id,
        ) is Some && row_in(a, name, id) == row_in(c, name, id) implies !bereaves(
        row_in(c, name, id)->0,
        key,
        change,
        goal_of(key, get(a.catalog, change.table)->0),
    ) by {
        assert(row_in(b, name, id) is Some);
        assert(get(b.catalog, name) is Some);
        assert(get(b.catalog, change.table) is Some);
        assert(leads(b, name, key, change.table));
        assert(row_in(b, name, id) == row_in(c, name, id));
    }
}

proof fn settling_heeds(
    a: DatabaseModel,
    b: DatabaseModel,
    c: DatabaseModel,
    target: TableModel,
    change: ChangeModel,
    sources: Seq<(Seq<char>, ForeignKeyModel)>,
    changes: Seq<ChangeModel>,
)
    requires
        sorted(a.catalog),
        get(a.catalog, change.table) == Some(target),
        sources == sources_from(a.catalog, 0, change.table, Seq::empty()),
        settled(a, b, target, change, sources, 0, Seq::empty(), changes),
        outlives(b, c),
    ensures
        heeded(a, c, change),
{
    assert forall|name: Seq<char>, key: ForeignKeyModel, id: u64|
        #![trigger leads(a, name, key, change.table), row_in(c, name, id)]
        leads(a, name, key, change.table) && get(a.catalog, change.table) is Some && !idle(declared(key, change)) && row_in(
            c,
            name,
            id,
        ) is Some && row_in(a, name, id) == row_in(c, name, id) implies !bereaves(
        row_in(c, name, id)->0,
        key,
        change,
        goal_of(key, get(a.catalog, change.table)->0),
    ) by {
        sources_are_the_keys(a, change.table, name, key);
        let j = choose|j: int| 0 <= j < sources.len() && sources[j] == (name, key);
        assert(row_in(b, sources[j].0, id) is Some);
        assert(row_in(b, name, id) == row_in(c, name, id));
    }
}

proof fn settling_runs(
    a: DatabaseModel,
    b: DatabaseModel,
    c: DatabaseModel,
    target: TableModel,
    pending: Seq<ChangeModel>,
    sources: Seq<(Seq<char>, ForeignKeyModel)>,
    changes: Seq<ChangeModel>,
)
    requires
        sorted(a.catalog),
        pending.len() > 0,
        ready(a, pending),
        get(a.catalog, pending[0].table) == Some(target),
        sources == sources_from(a.catalog, 0, pending[0].table, Seq::empty()),
        settled(a, b, target, pending[0], sources, 0, Seq::empty(), changes),
        ran(b, c, pending.skip(1) + changes),
    ensures
        ran(a, c, pending),
{
    let change = pending[0];
    let rest = pending.skip(1) + changes;
    outlives_chain(a, b, c);
    rightly_altered_chain(a, b, c);
    assert forall|m: int| 0 <= m < pending.len() implies heeded(a, c, #[trigger] pending[m]) by {
        if m == 0 {
            settling_heeds(a, b, c, target, change, sources, changes);
        } else {
            assert(rest[m - 1] == pending[m]);
            heeded_earlier(a, b, c, pending[m]);
        }
    }
    assert forall|name: Seq<char>, id: u64|
        (#[trigger] row_in(c, name, id)) is None && row_in(a, name, id) is Some implies exists|
        key: ForeignKeyModel,
        version: RowModel,
        lost: RowModel,
    | #[trigger]
        fell(a, c, pending, name, row_in(a, name, id)->0, key, version, lost) by {
        let row = row_in(a, name, id)->0;
        let table = get(a.catalog, name)->0;
        if row_in(b, name, id) is None {
            let (key, version) = choose|key: ForeignKeyModel, version: RowModel|
                sources.contains((name, key)) && #[trigger] falls(
                    table,
                    row,
                    name,
                    change,
                    target,
                    changes,
                    key,
                    version,
                );
            sources_are_the_keys(a, change.table, name, key);
            assert(row_in(a, change.table, change.before.id) is None);
            assert(row_in(c, change.table, change.before.id) is None);
            assert(pending[0] == (ChangeModel { table: change.table, before: change.before, after: None }));
            assert(fell(a, c, pending, name, row, key, version, change.before));
        } else {
            let middle = row_in(b, name, id)->0;
            let (key, version, lost) = choose|key: ForeignKeyModel, version: RowModel, lost: RowModel| #[trigger]
                fell(b, c, rest, name, middle, key, version, lost);
            assert(get(b.catalog, name) is Some);
            assert(get(b.catalog, key.foreign_table) is Some);
            alteration_chain(table, get(b.catalog, name)->0, row, middle, version);
            assert(was_there(a, pending, key.foreign_table, lost)) by {
                let end = ChangeModel { table: key.foreign_table, before: lost, after: None };
                if rest.contains(end) {
                    let i = choose|i: int| 0 <= i < rest.len() && rest[i] == end;
                    if i < pending.len() - 1 {
                        assert(pending[i + 1] == end);
                    } else {
                        assert(changes[i - (pending.len() - 1)] == end);
                    }
                } else {
                    assert(row_in(b, key.foreign_table, lost.id) is Some);
                }
            }
            assert(fell(a, c, pending, name, row, key, version, lost));
        }
    }
    assert forall|name: Seq<char>, id: u64|
        (#[trigger] row_in(c, name, id)) is None && row_in(a, name, id) is Some implies exists|version: RowModel|
        follows(version, row_in(a, name, id)->0) && alteration(
            get(a.catalog, name)->0,
            row_in(a, name, id)->0,
            version,
        ) && #[trigger] heeded(a, c, ChangeModel { table: name, before: version, after: None }) by {
        let row = row_in(a, name, id)->0;
        let table = get(a.catalog, name)->0;
        if row_in(b, name, id) is None {
            let (key, version) = choose|key: ForeignKeyModel, version: RowModel|
                sources.contains((name, key)) && #[trigger] falls(
                    table,
                    row,
                    name,
                    change,
                    target,
                    changes,
                    key,
                    version,
                );
            let end = ChangeModel { table: name, before: version, after: None };
            let i = choose|i: int| 0 <= i < changes.len() && changes[i] == end;
            assert(rest[pending.len() - 1 + i] == end);
            heeded_earlier(a, b, c, end);
        } else {
            let middle = row_in(b, name, id)->0;
            let version = choose|version: RowModel|
                follows(version, middle) && alteration(get(b.catalog, name)->0, middle, version) && #[trigger] heeded(
                    b,
                    c,
                    ChangeModel { table: name, before: version, after: None },
                );
            assert(get(b.catalog, name) is Some);
            alteration_chain(table, get(b.catalog, name)->0, row, middle, version);
            heeded_earlier(a, b, c, ChangeModel { table: name, before: version, after: None });
        }
    }
}

proof fn changes_run(database: DatabaseModel, pending: Seq<ChangeModel>, steps: int, caller: AuthModel)
    requires
        well_kept(database),
        ready(database, pending),
    ensures
        changes_applied(database, pending, steps, caller) matches Ok(last) ==> ran(database, last, pending),
    decreases CASCADE_LIMIT - steps,
{
    if pending.len() > 0 && steps < CASCADE_LIMIT {
        let change = pending[0];
        match change_applied(database, change, caller) {
            Err(_) => {},
            Ok((next, changes)) => {
                assert(plain_name(change.table));
                let target = get(database.catalog, change.table)->0;
                let sources = sources_from(database.catalog, 0, change.table, Seq::empty());
                sources_are_plain(database.catalog, 0, change.table, Seq::empty());
                assert(owned(database, sources)) by {
                    assert forall|j: int| 0 <= j < sources.len() implies #[trigger] has_foreign_key(
                        database,
                        sources[j].0,
                        sources[j].1,
                    ) by {
                        assert(sources.contains(sources[j]));
                        sources_are_the_keys(database, change.table, sources[j].0, sources[j].1);
                    }
                }
                all_keys_settle(database, target, change, sources, 0, Seq::empty(), caller);
                reactions_kept(database, target, change, sources, 0, Seq::empty(), caller);
                let rest = pending.skip(1) + changes;
                assert(ready(next, rest)) by {
                    assert forall|m: int| 0 <= m < rest.len() implies plain_name((#[trigger] rest[m]).table) && (
                    rest[m].after is None ==> row_in(next, rest[m].table, rest[m].before.id) is None) by {
                        if m < pending.len() - 1 {
                            assert(rest[m] == pending[m + 1]);
                            if row_in(next, rest[m].table, rest[m].before.id) is Some {
                                assert(row_in(database, rest[m].table, rest[m].before.id) is Some);
                            }
                        } else {
                            assert(rest[m] == changes[m - (pending.len() - 1)]);
                        }
                    }
                }
                changes_run(next, rest, steps + 1, caller);
                match changes_applied(next, rest, steps + 1, caller) {
                    Err(_) => {},
                    Ok(last) => {
                        settling_runs(database, next, last, target, pending, sources, changes);
                    },
                }
            },
        }
    }
}

// ---------------------------------------------------------------------------------------------
// Statements
// ---------------------------------------------------------------------------------------------

/// Whether a statement takes a row away or changes its cells.
pub open spec fn touches(before: DatabaseModel, after: DatabaseModel, change: ChangeModel) -> bool {
    &&& row_in(before, change.table, change.before.id) == Some(change.before)
    &&& get(after.catalog, change.table) is Some
    &&& row_in(after, change.table, change.before.id) == change.after
    &&& !row_unchanged(change.before, change.after)
}

spec fn touched_at(
    name: Seq<char>,
    old_rows: Seq<(u64, RowModel)>,
    from: int,
    new_rows: Seq<(u64, RowModel)>,
    change: ChangeModel,
) -> bool {
    change.table == name && exists|i: int|
        from <= i < old_rows.len() && (#[trigger] old_rows[i]).1 == change.before && change.after == get(
            new_rows,
            old_rows[i].0,
        ) && !row_unchanged(change.before, change.after)
}

proof fn row_changes_hold(
    name: Seq<char>,
    old_rows: Seq<(u64, RowModel)>,
    from: int,
    new_rows: Seq<(u64, RowModel)>,
    found: Seq<ChangeModel>,
    change: ChangeModel,
)
    requires
        0 <= from,
    ensures
        row_changes_from(name, old_rows, from, new_rows, found).contains(change) <==> (found.contains(change)
            || touched_at(name, old_rows, from, new_rows, change)),
    decreases old_rows.len() - from,
{
    if from < old_rows.len() {
        let after = get(new_rows, old_rows[from].0);
        let this = ChangeModel { table: name, before: old_rows[from].1, after };
        if touched_at(name, old_rows, from, new_rows, change) {
            let i = choose|i: int|
                from <= i < old_rows.len() && (#[trigger] old_rows[i]).1 == change.before && change.after == get(
                    new_rows,
                    old_rows[i].0,
                ) && !row_unchanged(change.before, change.after);
            if i > from {
                assert(touched_at(name, old_rows, from + 1, new_rows, change));
            } else {
                assert(change == this);
            }
        }
        if touched_at(name, old_rows, from + 1, new_rows, change) {
            let i = choose|i: int|
                from + 1 <= i < old_rows.len() && (#[trigger] old_rows[i]).1 == change.before && change.after == get(
                    new_rows,
                    old_rows[i].0,
                ) && !row_unchanged(change.before, change.after);
            assert(old_rows[i].1 == change.before);
        }
        if row_unchanged(old_rows[from].1, after) {
            row_changes_hold(name, old_rows, from + 1, new_rows, found, change);
        } else {
            let next = found.push(this);
            row_changes_hold(name, old_rows, from + 1, new_rows, next, change);
            assert(next[found.len() as int] == this);
            assert(old_rows[from].1 == this.before);
            if found.contains(change) {
                let i = choose|i: int| 0 <= i < found.len() && found[i] == change;
                assert(next[i] == change);
            }
            if next.contains(change) {
                let i = choose|i: int| 0 <= i < next.len() && next[i] == change;
                if i < found.len() {
                    assert(found[i] == change);
                }
            }
        }
    }
}

spec fn touched_in(
    old_catalog: Seq<(Seq<char>, TableModel)>,
    from: int,
    new_catalog: Seq<(Seq<char>, TableModel)>,
    change: ChangeModel,
) -> bool {
    exists|j: int|
        from <= j < old_catalog.len() && get(new_catalog, (#[trigger] old_catalog[j]).0) is Some && touched_at(
            old_catalog[j].0,
            old_catalog[j].1.rows,
            0,
            get(new_catalog, old_catalog[j].0)->0.rows,
            change,
        )
}

proof fn changes_hold(
    old_catalog: Seq<(Seq<char>, TableModel)>,
    from: int,
    new_catalog: Seq<(Seq<char>, TableModel)>,
    found: Seq<ChangeModel>,
    change: ChangeModel,
)
    requires
        0 <= from,
    ensures
        changes_from(old_catalog, from, new_catalog, found).contains(change) <==> (found.contains(change) || touched_in(
            old_catalog,
            from,
            new_catalog,
            change,
        )),
    decreases old_catalog.len() - from,
{
    if from < old_catalog.len() {
        let (name, table) = old_catalog[from];
        if touched_in(old_catalog, from, new_catalog, change) {
            let j = choose|j: int|
                from <= j < old_catalog.len() && get(new_catalog, (#[trigger] old_catalog[j]).0) is Some && touched_at(
                    old_catalog[j].0,
                    old_catalog[j].1.rows,
                    0,
                    get(new_catalog, old_catalog[j].0)->0.rows,
                    change,
                );
            if j > from {
                assert(touched_in(old_catalog, from + 1, new_catalog, change));
            }
        }
        if touched_in(old_catalog, from + 1, new_catalog, change) {
            let j = choose|j: int|
                from + 1 <= j < old_catalog.len() && get(new_catalog, (#[trigger] old_catalog[j]).0) is Some && touched_at(
                    old_catalog[j].0,
                    old_catalog[j].1.rows,
                    0,
                    get(new_catalog, old_catalog[j].0)->0.rows,
                    change,
                );
            assert(get(new_catalog, old_catalog[j].0) is Some);
        }
        assert(old_catalog[from].0 == name);
        match get(new_catalog, name) {
            None => {
                changes_hold(old_catalog, from + 1, new_catalog, found, change);
            },
            Some(after) => {
                row_changes_hold(name, table.rows, 0, after.rows, found, change);
                changes_hold(
                    old_catalog,
                    from + 1,
                    new_catalog,
                    row_changes_from(name, table.rows, 0, after.rows, found),
                    change,
                );
            },
        }
    }
}

proof fn changes_are_touches(before: DatabaseModel, after: DatabaseModel, change: ChangeModel)
    requires
        well_kept(before),
    ensures
        changes_between(before, after).contains(change) <==> touches(before, after, change),
{
    let none = Seq::<ChangeModel>::empty();
    changes_hold(before.catalog, 0, after.catalog, none, change);
    assert(!none.contains(change));
    if touched_in(before.catalog, 0, after.catalog, change) {
        let j = choose|j: int|
            0 <= j < before.catalog.len() && get(after.catalog, (#[trigger] before.catalog[j]).0) is Some && touched_at(
                before.catalog[j].0,
                before.catalog[j].1.rows,
                0,
                get(after.catalog, before.catalog[j].0)->0.rows,
                change,
            );
        get_at(before.catalog, j);
        let rows = before.catalog[j].1.rows;
        table_found(before.catalog, before.next_object_id, before.catalog[j].0, before.catalog[j].1);
        let i = choose|i: int|
            0 <= i < rows.len() && (#[trigger] rows[i]).1 == change.before && change.after == get(
                get(after.catalog, before.catalog[j].0)->0.rows,
                rows[i].0,
            ) && !row_unchanged(change.before, change.after);
        get_at(rows, i);
        assert(touches(before, after, change));
    }
    if touches(before, after, change) {
        spot_from_range(before.catalog, change.table, 0);
        let j = spot_from(before.catalog, change.table, 0);
        if j < before.catalog.len() {
            get_at(before.catalog, j);
            let rows = before.catalog[j].1.rows;
            let id = change.before.id;
            spot_from_range(rows, id, 0);
            let i = spot_from(rows, id, 0);
            table_found(before.catalog, before.next_object_id, change.table, before.catalog[j].1);
            if i < rows.len() {
                get_at(rows, i);
                assert(rows[i].1 == change.before);
                assert(get(after.catalog, before.catalog[j].0) is Some);
            } else {
                get_absent(rows, id);
            }
        } else {
            get_absent(before.catalog, change.table);
        }
    }
}

proof fn statement_runs(
    database: DatabaseModel,
    statement: Json,
    caller: AuthModel,
    after: DatabaseModel,
    last: DatabaseModel,
)
    requires
        well_kept(database),
        plainly_named(statement),
        statement_executed(database, statement, caller) matches Ok((next, _)) && next == after,
        statement_done(database, statement, caller) matches Ok((next, _)) && next == last,
    ensures
        ran(after, last, changes_between(database, after)),
{
    let pending = changes_between(database, after);
    statement_kept(database, statement, caller);
    assert(ready(after, pending)) by {
        assert forall|m: int| 0 <= m < pending.len() implies plain_name((#[trigger] pending[m]).table) && (
        pending[m].after is None ==> row_in(after, pending[m].table, pending[m].before.id) is None) by {
            assert(pending.contains(pending[m]));
            changes_are_touches(database, after, pending[m]);
            table_found(
                database.catalog,
                database.next_object_id,
                pending[m].table,
                get(database.catalog, pending[m].table)->0,
            );
        }
    }
    changes_run(after, pending, 0, caller);
}

/// Whether no action of a foreign key of a table can remove or change its rows.
pub open spec fn quiet(table: TableModel) -> bool {
    forall|k: int|
        0 <= k < table.foreign_keys.len() ==> !alters(#[trigger] table.foreign_keys[k]) && !removes(table.foreign_keys[k])
}

proof fn quiet_rows_stay(
    a: DatabaseModel,
    b: DatabaseModel,
    pending: Seq<ChangeModel>,
    name: Seq<char>,
    id: u64,
)
    requires
        ran(a, b, pending),
        row_in(a, name, id) is Some,
        quiet(get(a.catalog, name)->0),
    ensures
        row_in(b, name, id) == row_in(a, name, id),
{
    let table = get(a.catalog, name)->0;
    let row = row_in(a, name, id)->0;
    if row_in(b, name, id) is None {
        let (key, version, lost) = choose|key: ForeignKeyModel, version: RowModel, lost: RowModel| #[trigger]
            fell(a, b, pending, name, row, key, version, lost);
        let k = choose|k: int| 0 <= k < table.foreign_keys.len() && table.foreign_keys[k] == key;
        assert(removes(table.foreign_keys[k]));
    } else {
        assert(alteration(table, row, row_in(b, name, id)->0));
        if alterable(table) {
            let k = choose|k: int| 0 <= k < table.foreign_keys.len() && alters(#[trigger] table.foreign_keys[k]);
        }
    }
}

/// A statement that takes away a key to which a row refers through a foreign key declared RESTRICT fails.
/// This is ON DELETE RESTRICT where the row goes, and ON UPDATE RESTRICT where it gets another key. The
/// row that refers is one that the statement leaves, of a table without foreign keys that remove or change
/// rows.
pub proof fn restricted_statements_fail(
    database: DatabaseModel,
    statement: Json,
    caller: AuthModel,
    after: DatabaseModel,
    change: ChangeModel,
    name: Seq<char>,
    key: ForeignKeyModel,
    id: u64,
)
    requires
        well_kept(database),
        plainly_named(statement),
        statement_executed(database, statement, caller) matches Ok((next, _)) && next == after,
        touches(database, after, change),
        leads(after, name, key, change.table),
        declared(key, change) == Some(ReferentialAction::Restrict),
        quiet(get(after.catalog, name)->0),
        row_in(after, name, id) matches Some(row) && bereaves(
            row,
            key,
            change,
            goal_of(key, get(after.catalog, change.table)->0),
        ),
    ensures
        statement_done(database, statement, caller) is Err,
{
    match statement_done(database, statement, caller) {
        Err(_) => {},
        Ok((last, _)) => {
            rows_that_lose_their_key_do_not_stay(database, statement, caller, after, last, change, name, key, id);
            statement_runs(database, statement, caller, after, last);
            quiet_rows_stay(after, last, changes_between(database, after), name, id);
        },
    }
}

/// Where a statement takes away a key to which a row refers, the row does not stay as it is, unless the
/// foreign key declares no action: it is gone or changed afterwards, if the statement is accepted at all.
pub proof fn rows_that_lose_their_key_do_not_stay(
    database: DatabaseModel,
    statement: Json,
    caller: AuthModel,
    after: DatabaseModel,
    last: DatabaseModel,
    change: ChangeModel,
    name: Seq<char>,
    key: ForeignKeyModel,
    id: u64,
)
    requires
        well_kept(database),
        plainly_named(statement),
        statement_executed(database, statement, caller) matches Ok((next, _)) && next == after,
        statement_done(database, statement, caller) matches Ok((next, _)) && next == last,
        touches(database, after, change),
        leads(after, name, key, change.table),
        !idle(declared(key, change)),
        row_in(after, name, id) matches Some(row) && bereaves(
            row,
            key,
            change,
            goal_of(key, get(after.catalog, change.table)->0),
        ),
    ensures
        row_in(last, name, id) != row_in(after, name, id),
{
    let pending = changes_between(database, after);
    statement_runs(database, statement, caller, after, last);
    changes_are_touches(database, after, change);
    let m = choose|m: int| 0 <= m < pending.len() && pending[m] == change;
    assert(heeded(after, last, pending[m]));
    if row_in(last, name, id) == row_in(after, name, id) {
        assert(row_in(last, name, id) is Some);
        assert(leads(after, name, key, change.table));
    }
}

/// The same holds of the rows that actions remove in turn. Where a row that a statement leaves is gone
/// afterwards, and no action can have changed it, no row that stays refers to it through a foreign key that
/// declares an action ON DELETE; so the statement fails where one declared RESTRICT does.
pub proof fn rows_removed_in_turn_leave_no_reference(
    database: DatabaseModel,
    statement: Json,
    caller: AuthModel,
    after: DatabaseModel,
    last: DatabaseModel,
    target: Seq<char>,
    lost: u64,
    name: Seq<char>,
    key: ForeignKeyModel,
    id: u64,
)
    requires
        well_kept(database),
        plainly_named(statement),
        statement_executed(database, statement, caller) matches Ok((next, _)) && next == after,
        statement_done(database, statement, caller) matches Ok((next, _)) && next == last,
        row_in(after, target, lost) is Some,
        row_in(last, target, lost) is None,
        !alterable(get(after.catalog, target)->0),
        leads(after, name, key, target),
        !idle(key.on_delete),
        row_in(after, name, id) is Some,
        row_in(last, name, id) == row_in(after, name, id),
    ensures
        !points_to(
            row_in(after, name, id)->0.values,
            key,
            row_in(after, target, lost)->0.values,
            goal_of(key, get(after.catalog, target)->0),
        ),
{
    statement_runs(database, statement, caller, after, last);
    let row = row_in(after, target, lost)->0;
    let version = choose|version: RowModel|
        follows(version, row) && alteration(get(after.catalog, target)->0, row, version) && #[trigger] heeded(
            after,
            last,
            ChangeModel { table: target, before: version, after: None },
        );
    let change = ChangeModel { table: target, before: version, after: None };
    assert(version == row);
    assert(heeded(after, last, change));
    assert(leads(after, name, key, change.table));
    assert(row_in(last, name, id) is Some);
}

/// Whether a row is one of the state before a statement, or a version of one that it leaves.
pub open spec fn existed(before: DatabaseModel, after: DatabaseModel, name: Seq<char>, row: RowModel) -> bool {
    ||| row_in(before, name, row.id) == Some(row)
    ||| row_in(after, name, row.id) is Some && follows(row, row_in(after, name, row.id)->0)
}

/// Whether a row referred to one that is gone, through a foreign key declared ON DELETE CASCADE.
pub open spec fn removed_with(
    before: DatabaseModel,
    after: DatabaseModel,
    last: DatabaseModel,
    name: Seq<char>,
    row: RowModel,
    key: ForeignKeyModel,
    version: RowModel,
    lost: RowModel,
) -> bool {
    &&& has_foreign_key(after, name, key) && key.on_delete == Some(ReferentialAction::Cascade)
    &&& get(after.catalog, key.foreign_table) is Some
    &&& follows(version, row) && alteration(get(after.catalog, name)->0, row, version)
    &&& points_to(version.values, key, lost.values, goal_of(key, get(after.catalog, key.foreign_table)->0))
    &&& existed(before, after, key.foreign_table, lost)
    &&& row_in(last, key.foreign_table, lost.id) is None
}

/// A row that a statement itself leaves disappears only if it refers to a row that is gone, through a
/// foreign key declared ON DELETE CASCADE. It refers to it as it is, or as actions have changed it where
/// its table has foreign keys that do.
pub proof fn rows_disappear_only_by_cascade(
    database: DatabaseModel,
    statement: Json,
    caller: AuthModel,
    after: DatabaseModel,
    last: DatabaseModel,
    name: Seq<char>,
    id: u64,
)
    requires
        well_kept(database),
        plainly_named(statement),
        statement_executed(database, statement, caller) matches Ok((next, _)) && next == after,
        statement_done(database, statement, caller) matches Ok((next, _)) && next == last,
        row_in(after, name, id) is Some,
        row_in(last, name, id) is None,
    ensures
        exists|key: ForeignKeyModel, version: RowModel, lost: RowModel| #[trigger]
            removed_with(database, after, last, name, row_in(after, name, id)->0, key, version, lost),
{
    let pending = changes_between(database, after);
    statement_runs(database, statement, caller, after, last);
    let row = row_in(after, name, id)->0;
    let (key, version, lost) = choose|key: ForeignKeyModel, version: RowModel, lost: RowModel| #[trigger]
        fell(after, last, pending, name, row, key, version, lost);
    changes_are_touches(database, after, ChangeModel { table: key.foreign_table, before: lost, after: None });
    assert(removed_with(database, after, last, name, row, key, version, lost));
}

/// Actions add no row and change nothing but rows, and these only where a foreign key of their table
/// declares to set or to update its columns: the other columns keep their cells, but for generated ones.
pub proof fn actions_change_only_what_is_declared(
    database: DatabaseModel,
    statement: Json,
    caller: AuthModel,
    after: DatabaseModel,
    last: DatabaseModel,
)
    requires
        well_kept(database),
        plainly_named(statement),
        statement_executed(database, statement, caller) matches Ok((next, _)) && next == after,
        statement_done(database, statement, caller) matches Ok((next, _)) && next == last,
    ensures
        outlives(after, last),
        rightly_altered(after, last),
{
    statement_runs(database, statement, caller, after, last);
}

} // verus!
