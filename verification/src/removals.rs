//! What DROP TABLE removes.

use vstd::prelude::*;
use crate::ast::table_name_of;
use crate::catalog::{AuthModel, DatabaseModel, ForeignKeyModel, TableModel};
use crate::depend::{
    detached_from, other_keys_from, refers_to, table_set_from, tables_detached_from, tables_dropped, tables_exist_from,
    without_dependents, without_tables_from,
};
use crate::error::Failure;
use crate::json::Json;
use crate::ordmap::{
    del, del_keeps_order, get, get_absent, get_after_del, get_after_put, get_at, has_key, put, put_keeps_order, sorted,
    spot_from, spot_from_range, Ranked,
};
use crate::upkeep::dependents_leave_tables;
use crate::value::items;

verus! {

/// Names as keys.
type Names = Seq<(Seq<char>, ())>;

/// Whether a statement names a table, from a position of its list on.
pub open spec fn names_table(names: Json, from: int, name: Seq<char>) -> bool {
    exists|i: int| from <= i < items(names).len() && table_name_of(#[trigger] items(names)[i]) == Ok::<Seq<char>, Failure>(name)
}

proof fn set_holds(names: Json, from: int, found: Names, name: Seq<char>)
    requires
        0 <= from,
        sorted(found),
    ensures
        table_set_from(names, from, found) matches Ok(set) ==> sorted(set) && (get(set, name) is Some) == (get(found, name) is Some
            || names_table(names, from, name)),
    decreases items(names).len() - from,
{
    if from < items(names).len() {
        match table_name_of(items(names)[from]) {
            Err(_) => {},
            Ok(this) => {
                put_keeps_order(found, this, ());
                get_after_put(found, this, (), name);
                set_holds(names, from + 1, put(found, this, ()), name);
                if names_table(names, from, name) {
                    let i = choose|i: int|
                        from <= i < items(names).len() && table_name_of(#[trigger] items(names)[i]) == Ok::<Seq<char>, Failure>(
                            name,
                        );
                    if i > from {
                        assert(names_table(names, from + 1, name));
                    }
                }
                if names_table(names, from + 1, name) {
                    let i = choose|i: int|
                        from + 1 <= i < items(names).len() && table_name_of(#[trigger] items(names)[i]) == Ok::<
                            Seq<char>,
                            Failure,
                        >(name);
                    assert(table_name_of(items(names)[i]) == Ok::<Seq<char>, Failure>(name));
                }
            },
        }
    }
}

proof fn other_keys_hold(keys: Seq<ForeignKeyModel>, from: int, kept: Seq<ForeignKeyModel>, name: Seq<char>, key: ForeignKeyModel)
    requires
        0 <= from,
    ensures
        other_keys_from(keys, from, kept, name).contains(key) <==> (kept.contains(key) || key.foreign_table != name && (
        exists|i: int| from <= i < keys.len() && #[trigger] keys[i] == key)),
    decreases keys.len() - from,
{
    if from < keys.len() {
        let next = if keys[from].foreign_table == name {
            kept
        } else {
            kept.push(keys[from])
        };
        other_keys_hold(keys, from + 1, next, name, key);
        if kept.contains(key) {
            let i = choose|i: int| 0 <= i < kept.len() && kept[i] == key;
            assert(next[i] == key);
        }
        if keys[from].foreign_table != name {
            assert(next[kept.len() as int] == keys[from]);
        }
        if next.contains(key) {
            let i = choose|i: int| 0 <= i < next.len() && next[i] == key;
            if i < kept.len() {
                assert(kept[i] == key);
            } else {
                assert(keys[from] == key);
            }
        }
        if exists|i: int| from <= i < keys.len() && #[trigger] keys[i] == key {
            let i = choose|i: int| from <= i < keys.len() && #[trigger] keys[i] == key;
            if i > from {
                assert(keys[i] == key);
            }
        }
        if exists|i: int| from + 1 <= i < keys.len() && #[trigger] keys[i] == key {
            let i = choose|i: int| from + 1 <= i < keys.len() && #[trigger] keys[i] == key;
            assert(keys[i] == key);
        }
    }
}

/// Whether one of the first `count` names is this one.
spec fn among_first(set: Names, count: int, name: Seq<char>) -> bool {
    exists|k: int| 0 <= k < count && k < set.len() && (#[trigger] set[k]).0 == name
}

/// Whether a table has the foreign keys of another but those to the first `count` names, and is otherwise the
/// same. Without cascade it had none of these.
spec fn cut_off(table: TableModel, after: TableModel, set: Names, count: int, cascade: bool) -> bool {
    &&& after == TableModel { foreign_keys: after.foreign_keys, ..table }
    &&& forall|key: ForeignKeyModel| #[trigger]
        after.foreign_keys.contains(key) <==> table.foreign_keys.contains(key) && !among_first(
            set,
            count,
            key.foreign_table,
        )
    &&& !cascade ==> forall|key: ForeignKeyModel| #[trigger]
        table.foreign_keys.contains(key) ==> !among_first(set, count, key.foreign_table)
}

/// Whether all tables of a catalog, the dropped ones aside, are so cut off.
spec fn all_cut_off(
    a: Seq<(Seq<char>, TableModel)>,
    b: Seq<(Seq<char>, TableModel)>,
    set: Names,
    count: int,
    cascade: bool,
) -> bool {
    &&& a.len() == b.len()
    &&& forall|i: int|
        0 <= i < a.len() ==> (#[trigger] b[i]).0 == a[i].0 && (!has_key(set, a[i].0) ==> cut_off(
            a[i].1,
            b[i].1,
            set,
            count,
            cascade,
        ))
}

proof fn one_table_cut_off(first: TableModel, table: TableModel, set: Names, count: int, cascade: bool)
    requires
        0 <= count < set.len(),
        cut_off(first, table, set, count, cascade),
        cascade || !refers_to(table.foreign_keys, set[count].0),
    ensures
        cut_off(
            first,
            TableModel {
                foreign_keys: other_keys_from(table.foreign_keys, 0, Seq::empty(), set[count].0),
                ..table
            },
            set,
            count + 1,
            cascade,
        ),
{
    let name = set[count].0;
    let none = Seq::<ForeignKeyModel>::empty();
    let keys = other_keys_from(table.foreign_keys, 0, none, name);
    assert forall|other: Seq<char>| #[trigger] among_first(set, count + 1, other) == (among_first(set, count, other) || other
        == name) by {
        assert(set[count].0 == name);
        if among_first(set, count + 1, other) {
            let k = choose|k: int| 0 <= k < count + 1 && k < set.len() && (#[trigger] set[k]).0 == other;
            if k < count {
                assert(set[k].0 == other);
            }
        }
        if among_first(set, count, other) {
            let k = choose|k: int| 0 <= k < count && k < set.len() && (#[trigger] set[k]).0 == other;
            assert(set[k].0 == other);
        }
    }
    assert forall|key: ForeignKeyModel| #[trigger] keys.contains(key) <==> first.foreign_keys.contains(key)
        && !among_first(set, count + 1, key.foreign_table) by {
        other_keys_hold(table.foreign_keys, 0, none, name, key);
        assert(!none.contains(key));
        assert(table.foreign_keys.contains(key) <==> first.foreign_keys.contains(key) && !among_first(
            set,
            count,
            key.foreign_table,
        ));
        if table.foreign_keys.contains(key) {
            let i = choose|i: int| 0 <= i < table.foreign_keys.len() && table.foreign_keys[i] == key;
            assert(table.foreign_keys[i] == key);
        }
    }
    if !cascade {
        assert forall|key: ForeignKeyModel| #[trigger] first.foreign_keys.contains(key) implies !among_first(
            set,
            count + 1,
            key.foreign_table,
        ) by {
            assert(table.foreign_keys.contains(key));
            let i = choose|i: int| 0 <= i < table.foreign_keys.len() && table.foreign_keys[i] == key;
            assert(table.foreign_keys[i].foreign_table != name);
        }
    }
}

proof fn catalog_cut_off(
    first: Seq<(Seq<char>, TableModel)>,
    old_catalog: Seq<(Seq<char>, TableModel)>,
    catalog: Seq<(Seq<char>, TableModel)>,
    from: int,
    set: Names,
    count: int,
    cascade: bool,
)
    requires
        0 <= count < set.len(),
        0 <= from <= catalog.len(),
        all_cut_off(first, old_catalog, set, count, cascade),
        catalog.len() == old_catalog.len(),
        forall|i: int| from <= i < catalog.len() ==> #[trigger] catalog[i] == old_catalog[i],
        forall|i: int|
            0 <= i < from ==> (#[trigger] catalog[i]).0 == first[i].0 && (!has_key(set, first[i].0) ==> cut_off(
                first[i].1,
                catalog[i].1,
                set,
                count + 1,
                cascade,
            )),
    ensures
        detached_from(catalog, from, set, set[count].0, cascade) matches Ok(done) ==> all_cut_off(
            first,
            done,
            set,
            count + 1,
            cascade,
        ),
    decreases catalog.len() - from,
{
    if from < catalog.len() {
        assert(catalog[from] == old_catalog[from]);
        let (name, table) = catalog[from];
        if has_key(set, name) {
            catalog_cut_off(first, old_catalog, catalog, from + 1, set, count, cascade);
        } else if cascade || !refers_to(table.foreign_keys, set[count].0) {
            one_table_cut_off(first[from].1, table, set, count, cascade);
            let kept = other_keys_from(table.foreign_keys, 0, Seq::empty(), set[count].0);
            let next = catalog.update(from, (name, (TableModel { foreign_keys: kept, ..table })));
            catalog_cut_off(first, old_catalog, next, from + 1, set, count, cascade);
        }
    }
}

proof fn tables_cut_off(first: DatabaseModel, database: DatabaseModel, set: Names, from: int, cascade: bool)
    requires
        0 <= from <= set.len(),
        all_cut_off(first.catalog, database.catalog, set, from, cascade),
    ensures
        tables_detached_from(database, set, from, cascade) matches Ok(next) ==> all_cut_off(
            first.catalog,
            next.catalog,
            set,
            set.len() as int,
            cascade,
        ),
    decreases set.len() - from,
{
    if from < set.len() {
        dependents_leave_tables(database, set[from].0, cascade);
        match without_dependents(database, set[from].0, cascade) {
            Err(_) => {},
            Ok(next) => {
                catalog_cut_off(first.catalog, next.catalog, next.catalog, 0, set, from, cascade);
                match detached_from(next.catalog, 0, set, set[from].0, cascade) {
                    Err(_) => {},
                    Ok(catalog) => {
                        tables_cut_off(first, DatabaseModel { catalog, ..next }, set, from + 1, cascade);
                    },
                }
            },
        }
    }
}

proof fn tables_without(catalog: Seq<(Seq<char>, TableModel)>, set: Names, from: int, name: Seq<char>)
    requires
        sorted(catalog),
        0 <= from <= set.len(),
        among_first(set, from, name) ==> get(catalog, name) is None,
    ensures
        get(without_tables_from(catalog, set, from), name) == (if among_first(set, set.len() as int, name) {
            None
        } else {
            get(catalog, name)
        }),
    decreases set.len() - from,
{
    if from < set.len() {
        del_keeps_order(catalog, set[from].0);
        get_after_del(catalog, set[from].0, name);
        if among_first(set, from + 1, name) {
            let k = choose|k: int| 0 <= k < from + 1 && k < set.len() && (#[trigger] set[k]).0 == name;
            if k < from {
                assert(among_first(set, from, name));
            }
        }
        assert(set[from].0 == name ==> among_first(set, set.len() as int, name));
        tables_without(del(catalog, set[from].0), set, from + 1, name);
    }
}

proof fn tables_exist(database: DatabaseModel, set: Names, from: int, k: int)
    requires
        0 <= from <= k < set.len(),
        tables_exist_from(database, set, from, false) is Ok,
    ensures
        has_key(database.catalog, set[k].0),
    decreases k - from,
{
    if from < k {
        tables_exist(database, set, from + 1, k);
    }
}

proof fn entry_is_found<V>(entries: Seq<(Seq<char>, V)>, name: Seq<char>) -> (i: int)
    requires
        sorted(entries),
    ensures
        get(entries, name) is Some ==> 0 <= i < entries.len() && entries[i] == (name, get(entries, name)->0),
        get(entries, name) is None ==> forall|j: int| 0 <= j < entries.len() ==> (#[trigger] entries[j]).0 != name,
{
    spot_from_range(entries, name, 0);
    let i = spot_from(entries, name, 0);
    if i < entries.len() {
        get_at(entries, i);
    } else {
        get_absent(entries, name);
    }
    if get(entries, name) is None {
        assert forall|j: int| 0 <= j < entries.len() implies (#[trigger] entries[j]).0 != name by {
            get_at(entries, j);
        }
    }
    i
}

/// DROP TABLE removes the tables that it names. Of every other table it removes the foreign keys to these, and
/// only by CASCADE; without it there are none. Without IF EXISTS every table that it names has to be there.
pub proof fn dropped_tables_are_gone(
    database: DatabaseModel,
    names: Json,
    if_exists: bool,
    cascade: bool,
    caller: AuthModel,
    name: Seq<char>,
)
    requires
        sorted(database.catalog),
    ensures
        tables_dropped(database, names, if_exists, cascade, caller) matches Ok((next, _)) ==> {
            &&& caller.privileged
            &&& names_table(names, 0, name) ==> get(next.catalog, name) is None && (!if_exists ==> get(
                database.catalog,
                name,
            ) is Some)
            &&& !names_table(names, 0, name) ==> match (get(database.catalog, name), get(next.catalog, name)) {
                (Some(table), Some(after)) => {
                    &&& after == TableModel { foreign_keys: after.foreign_keys, ..table }
                    &&& forall|key: ForeignKeyModel| #[trigger]
                        after.foreign_keys.contains(key) <==> table.foreign_keys.contains(key) && !names_table(
                            names,
                            0,
                            key.foreign_table,
                        )
                    &&& !cascade ==> forall|key: ForeignKeyModel| #[trigger]
                        table.foreign_keys.contains(key) ==> !names_table(names, 0, key.foreign_table)
                },
                (None, None) => true,
                _ => false,
            }
        },
{
    match tables_dropped(database, names, if_exists, cascade, caller) {
        Err(_) => {},
        Ok((last, _)) => {
            let none = Seq::<(Seq<char>, ())>::empty();
            let set = table_set_from(names, 0, none)->Ok_0;
            let count = set.len() as int;
            assert(get(none, name) is None);
            set_holds(names, 0, none, name);
            assert forall|other: Seq<char>| #[trigger] among_first(set, count, other) == names_table(names, 0, other) by {
                set_holds(names, 0, none, other);
                assert(get(none, other) is None);
                let i = entry_is_found(set, other);
                if among_first(set, count, other) {
                    let k = choose|k: int| 0 <= k < count && k < set.len() && (#[trigger] set[k]).0 == other;
                    get_at(set, k);
                }
            }
            assert(all_cut_off(database.catalog, database.catalog, set, 0, cascade));
            tables_cut_off(database, database, set, 0, cascade);
            let next = tables_detached_from(database, set, 0, cascade)->Ok_0;
            let a = database.catalog;
            let b = next.catalog;
            assert forall|i: int, j: int| #![trigger b[i], b[j]] 0 <= i < j < b.len() implies b[i].0.before(b[j].0) by {
                assert(a[i].0.before(a[j].0));
            }
            tables_without(b, set, 0, name);
            let i = entry_is_found(a, name);
            let j = entry_is_found(b, name);
            if names_table(names, 0, name) {
                if !if_exists {
                    let k = choose|k: int| 0 <= k < count && k < set.len() && (#[trigger] set[k]).0 == name;
                    tables_exist(database, set, 0, k);
                }
            } else {
                assert(!has_key(set, name));
                if get(a, name) is Some {
                    assert(b[i].0 == a[i].0);
                    get_at(b, i);
                    assert(cut_off(a[i].1, b[i].1, set, count, cascade));
                    assert forall|key: ForeignKeyModel| #[trigger] b[i].1.foreign_keys.contains(key) <==> a[i].1.foreign_keys.contains(
                        key,
                    ) && !names_table(names, 0, key.foreign_table) by {
                        assert(among_first(set, count, key.foreign_table) == names_table(names, 0, key.foreign_table));
                    }
                    if !cascade {
                        assert forall|key: ForeignKeyModel| #[trigger] a[i].1.foreign_keys.contains(key) implies !names_table(
                            names,
                            0,
                            key.foreign_table,
                        ) by {
                            assert(!among_first(set, count, key.foreign_table));
                        }
                    }
                } else if get(b, name) is Some {
                    assert(a[j].0 == b[j].0);
                }
            }
        },
    }
}

} // verus!
