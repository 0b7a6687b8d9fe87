//! Which views and functions depend on a relation, and dropping tables with their dependents.

use vstd::prelude::*;
use crate::ast::{
    parse_statements, relations, relations_of, statements_of, table_name, table_name_of,
};
use crate::catalog::{
    no_result, AuthContext, AuthModel, Database, DatabaseModel, ForeignKey, ForeignKeyModel, FunctionModel,
    ResultModel, SqlResult, Table, TableModel,
};
use crate::error::{err, failure, outcome, Failure, Outcome, Result};
use crate::json::{group_value_views, Datum, Json};
use crate::ordmap::{del, has_key, put, spot_from_range, OrdMap};
use crate::replica::{add_last, no_items, Replica};
use crate::text::{cat2, cat3, same};
use crate::value::{item, items};
use crate::views::ViewModel;

verus! {

broadcast use group_value_views;

// ---------------------------------------------------------------------------------------------
// Counters
// ---------------------------------------------------------------------------------------------

/// The counter after one more; refused where it is exhausted.
pub open spec fn next_count(n: u64) -> Outcome<u64> {
    if n < u64::MAX {
        Ok((n + 1) as u64)
    } else {
        Err(failure("ResourceLimit"@, "Counter exhausted"@))
    }
}

/// The counter after one more; refused where it is exhausted.
pub fn count_up(n: u64) -> (result: Result<u64>)
    ensures
        outcome(result) == next_count(n),
{
    if n < u64::MAX {
        Ok(n + 1)
    } else {
        Err(err("ResourceLimit", "Counter exhausted"))
    }
}

/// The state after a change of its schema.
pub open spec fn schema_changed(database: DatabaseModel) -> Outcome<DatabaseModel> {
    match next_count(database.schema_version) {
        Err(error) => Err(error),
        Ok(version) => Ok(DatabaseModel { schema_version: version, ..database }),
    }
}

/// The state after a change of its schema.
pub fn change_schema(database: Database) -> (result: Result<Database>)
    ensures
        outcome(result) == schema_changed(database.deep_view()),
{
    let version: u64 = count_up(database.schema_version)?;
    let mut database = database;
    database.schema_version = version;
    Ok(database)
}

// ---------------------------------------------------------------------------------------------
// References
// ---------------------------------------------------------------------------------------------

/// Whether a name stands for the relation.
pub open spec fn names_relation(name: Json, relation: Seq<char>) -> bool {
    table_name_of(name) matches Ok(found) && found == relation
}

/// Whether a statement names the relation.
pub open spec fn statement_names(statement: Json, relation: Seq<char>) -> bool {
    exists|i: int|
        0 <= i < relations_of(statement).len() && names_relation(
            #[trigger] relations_of(statement)[i],
            relation,
        )
}

/// Whether one of the statements names the relation.
pub open spec fn some_statement_names(list: Seq<Json>, relation: Seq<char>) -> bool {
    exists|i: int| 0 <= i < list.len() && statement_names(#[trigger] list[i], relation)
}

/// Whether an SQL text names the relation.
pub open spec fn references_relation(sql: Seq<char>, relation: Seq<char>) -> Outcome<bool> {
    match statements_of(sql) {
        Err(error) => Err(error),
        Ok(list) => Ok(some_statement_names(list, relation)),
    }
}

fn mentions_relation(statement: &Datum, relation: &str) -> (result: bool)
    ensures
        result == statement_names(statement@, relation@),
{
    let found = relations(statement);
    let mut i: usize = 0;
    while i < found.len()
        invariant
            i <= found.len(),
            found.deep_view() == relations_of(statement@),
            forall|j: int| 0 <= j < i ==> !names_relation(#[trigger] relations_of(statement@)[j], relation@),
        decreases found.len() - i,
    {
        assert(relations_of(statement@)[i as int] == found[i as int]@);
        if let Ok(name) = table_name(&found[i]) {
            if same(name.as_str(), relation) {
                return true;
            }
        }
        i += 1;
    }
    false
}

/// Whether an SQL text names the relation.
#[verifier::loop_isolation(false)]
pub fn references(sql: &str, relation: &str) -> (result: Result<bool>)
    ensures
        outcome(result) == references_relation(sql@, relation@),
{
    let list = parse_statements(sql)?;
    let ghost model = list.deep_view();
    let mut i: usize = 0;
    while i < list.len()
        invariant
            i <= list.len(),
            forall|j: int| 0 <= j < i ==> !statement_names(#[trigger] model[j], relation@),
        decreases list.len() - i,
    {
        assert(model[i as int] == list[i as int]@);
        if mentions_relation(&list[i], relation) {
            assert(some_statement_names(model, relation@));
            return Ok(true);
        }
        i += 1;
    }
    Ok(false)
}

// ---------------------------------------------------------------------------------------------
// Dependents
// ---------------------------------------------------------------------------------------------

/// The views from position `from` on that name the relation.
pub open spec fn dependent_views_from(
    views: Seq<(Seq<char>, ViewModel)>,
    from: int,
    found: Seq<Seq<char>>,
    relation: Seq<char>,
) -> Outcome<Seq<Seq<char>>>
    decreases views.len() - from,
{
    if from < 0 || from >= views.len() {
        Ok(found)
    } else {
        match references_relation(views[from].1.sql, relation) {
            Err(error) => Err(error),
            Ok(true) => dependent_views_from(views, from + 1, found.push(views[from].0), relation),
            Ok(false) => dependent_views_from(views, from + 1, found, relation),
        }
    }
}

/// The functions from position `from` on that name the relation.
pub open spec fn dependent_functions_from(
    functions: Seq<(Seq<char>, FunctionModel)>,
    from: int,
    found: Seq<Seq<char>>,
    relation: Seq<char>,
) -> Outcome<Seq<Seq<char>>>
    decreases functions.len() - from,
{
    if from < 0 || from >= functions.len() {
        Ok(found)
    } else {
        match references_relation(functions[from].1.body, relation) {
            Err(error) => Err(error),
            Ok(true) => dependent_functions_from(
                functions,
                from + 1,
                found.push(functions[from].0),
                relation,
            ),
            Ok(false) => dependent_functions_from(functions, from + 1, found, relation),
        }
    }
}

/// The views and the functions that name the relation.
pub open spec fn dependents_of(database: DatabaseModel, relation: Seq<char>) -> Outcome<
    (Seq<Seq<char>>, Seq<Seq<char>>),
> {
    match dependent_views_from(database.views, 0, Seq::empty(), relation) {
        Err(error) => Err(error),
        Ok(views) => match dependent_functions_from(database.functions, 0, Seq::empty(), relation) {
            Err(error) => Err(error),
            Ok(functions) => Ok((views, functions)),
        },
    }
}

impl Database {
    /// The views and the functions that name the relation.
    pub fn dependents(&self, relation: &str) -> (result: Result<(Vec<String>, Vec<String>)>)
        ensures
            outcome(result) == dependents_of(self.deep_view(), relation@),
    {
        let mut views: Vec<String> = no_items();
        let ghost state = self.deep_view();
        let mut i: usize = 0;
        while i < self.views.len()
            invariant
                i <= state.views.len(),
                state == self.deep_view(),
                dependent_views_from(state.views, 0, Seq::empty(), relation@) == dependent_views_from(
                    state.views,
                    i as int,
                    views.deep_view(),
                    relation@,
                ),
            decreases state.views.len() - i,
        {
            let view = self.views.value_at(i);
            if references(view.sql.as_str(), relation)? {
                add_last(&mut views, self.views.key_at(i).clone());
            }
            i += 1;
        }
        let mut functions: Vec<String> = no_items();
        let ghost found = views.deep_view();
        i = 0;
        while i < self.functions.len()
            invariant
                i <= state.functions.len(),
                state == self.deep_view(),
                dependent_views_from(state.views, 0, Seq::empty(), relation@) == Ok::<_, Failure>(found),
                dependent_functions_from(state.functions, 0, Seq::empty(), relation@)
                    == dependent_functions_from(
                    state.functions,
                    i as int,
                    functions.deep_view(),
                    relation@,
                ),
            decreases state.functions.len() - i,
        {
            let function = self.functions.value_at(i);
            if references(function.body.as_str(), relation)? {
                add_last(&mut functions, self.functions.key_at(i).clone());
            }
            i += 1;
        }
        Ok((views, functions))
    }
}

pub proof fn del_length<K, V>(entries: Seq<(K, V)>, key: K)
    ensures
        has_key(entries, key) ==> del(entries, key).len() == entries.len() - 1,
        del(entries, key).len() <= entries.len(),
{
    spot_from_range(entries, key, 0);
}

/// The state without the functions named from position `from` on.
pub open spec fn without_functions_from(database: DatabaseModel, names: Seq<Seq<char>>, from: int) -> DatabaseModel
    decreases names.len() - from,
{
    if from < 0 || from >= names.len() {
        database
    } else {
        without_functions_from(
            DatabaseModel { functions: del(database.functions, names[from]), ..database },
            names,
            from + 1,
        )
    }
}

/// The state without the views and functions that depend on the relation, and without what in turn
/// depends on those views; refused where there are any and they may not be removed.
pub open spec fn without_dependents(database: DatabaseModel, relation: Seq<char>, cascade: bool) -> Outcome<
    DatabaseModel,
>
    decreases database.views.len(), 1int, 0int,
{
    match dependents_of(database, relation) {
        Err(error) => Err(error),
        Ok((views, functions)) => if !cascade && (views.len() > 0 || functions.len() > 0) {
            Err(failure("DependencyViolation"@, relation + " has dependent views/functions"@))
        } else {
            match without_views_from(database, views, 0) {
                Err(error) => Err(error),
                Ok(next) => Ok(without_functions_from(next, functions, 0)),
            }
        },
    }
}

/// The state without the views named from position `from` on and without their dependents.
pub open spec fn without_views_from(database: DatabaseModel, names: Seq<Seq<char>>, from: int) -> Outcome<
    DatabaseModel,
>
    decreases database.views.len(), 0int, names.len() - from,
{
    if from < 0 || from >= names.len() {
        Ok(database)
    } else if !has_key(database.views, names[from]) {
        without_views_from(database, names, from + 1)
    } else {
        proof {
            del_length(database.views, names[from]);
        }
        let fewer = DatabaseModel { views: del(database.views, names[from]), ..database };
        match without_dependents(fewer, names[from], true) {
            Err(error) => Err(error),
            Ok(next) => if next.views.len() < database.views.len() {
                without_views_from(next, names, from + 1)
            } else {
                Ok(next)
            },
        }
    }
}

proof fn functions_keep_views(database: DatabaseModel, names: Seq<Seq<char>>, from: int)
    ensures
        without_functions_from(database, names, from).views == database.views,
        without_functions_from(database, names, from).catalog == database.catalog,
    decreases names.len() - from,
{
    if 0 <= from < names.len() {
        functions_keep_views(
            DatabaseModel { functions: del(database.functions, names[from]), ..database },
            names,
            from + 1,
        );
    }
}

/// Removing dependents adds no view and leaves the tables alone.
pub proof fn removal_shrinks(database: DatabaseModel, relation: Seq<char>, cascade: bool)
    ensures
        without_dependents(database, relation, cascade) matches Ok(next) ==> next.views.len()
            <= database.views.len() && next.catalog == database.catalog,
    decreases database.views.len(), 1int, 0int,
{
    if let Ok((views, functions)) = dependents_of(database, relation) {
        views_removal_shrinks(database, views, 0);
        if let Ok(next) = without_views_from(database, views, 0) {
            functions_keep_views(next, functions, 0);
        }
    }
}

proof fn views_removal_shrinks(database: DatabaseModel, names: Seq<Seq<char>>, from: int)
    ensures
        without_views_from(database, names, from) matches Ok(next) ==> next.views.len()
            <= database.views.len() && next.catalog == database.catalog,
    decreases database.views.len(), 0int, names.len() - from,
{
    if 0 <= from < names.len() {
        if !has_key(database.views, names[from]) {
            views_removal_shrinks(database, names, from + 1);
        } else {
            del_length(database.views, names[from]);
            let fewer = DatabaseModel { views: del(database.views, names[from]), ..database };
            removal_shrinks(fewer, names[from], true);
            if let Ok(next) = without_dependents(fewer, names[from], true) {
                if next.views.len() < database.views.len() {
                    views_removal_shrinks(next, names, from + 1);
                }
            }
        }
    }
}

fn remove_functions(database: Database, names: &Vec<String>) -> (result: Database)
    ensures
        result.deep_view() == without_functions_from(database.deep_view(), names.deep_view(), 0),
{
    let ghost start = database.deep_view();
    let ghost list = names.deep_view();
    let mut database = database;
    let mut i: usize = 0;
    while i < names.len()
        invariant
            i <= names.len(),
            list == names.deep_view(),
            without_functions_from(start, list, 0) == without_functions_from(
                database.deep_view(),
                list,
                i as int,
            ),
        decreases names.len() - i,
    {
        assert(list[i as int] == names[i as int]@);
        let _removed = database.functions.remove(&names[i]);
        i += 1;
    }
    database
}

/// Removes the views and functions that depend on the relation.
pub fn remove_dependents(database: Database, relation: &str, cascade: bool) -> (result: Result<Database>)
    ensures
        outcome(result) == without_dependents(database.deep_view(), relation@, cascade),
    decreases database.deep_view().views.len(), 1int,
{
    let (views, functions) = database.dependents(relation)?;
    if !cascade && (views.len() > 0 || functions.len() > 0) {
        return Err(
            err("DependencyViolation", cat2(relation, " has dependent views/functions").as_str()),
        );
    }
    let next = remove_views(database, &views)?;
    Ok(remove_functions(next, &functions))
}

fn remove_views(start: Database, names: &Vec<String>) -> (result: Result<Database>)
    ensures
        outcome(result) == without_views_from(start.deep_view(), names.deep_view(), 0),
    decreases start.deep_view().views.len(), 0int,
{
    let ghost first = start.deep_view();
    let ghost list = names.deep_view();
    let mut database = start;
    let mut i: usize = 0;
    while i < names.len()
        invariant
            i <= names.len(),
            list == names.deep_view(),
            first == start.deep_view(),
            database.deep_view().views.len() <= first.views.len(),
            without_views_from(first, list, 0) == without_views_from(
                database.deep_view(),
                list,
                i as int,
            ),
        decreases names.len() - i,
    {
        assert(list[i as int] == names[i as int]@);
        if database.views.holds(names[i].as_str()) {
            let ghost before = database.deep_view();
            proof {
                del_length(before.views, list[i as int]);
            }
            let _removed = database.views.remove(&names[i]);
            proof {
                removal_shrinks(database.deep_view(), list[i as int], true);
            }
            database = remove_dependents(database, names[i].as_str(), true)?;
        }
        i += 1;
    }
    Ok(database)
}

// ---------------------------------------------------------------------------------------------
// Dropping tables
// ---------------------------------------------------------------------------------------------

/// The names of the tables from position `from` on as a set.
pub open spec fn table_set_from(names: Json, from: int, found: Seq<(Seq<char>, ())>) -> Outcome<
    Seq<(Seq<char>, ())>,
>
    decreases items(names).len() - from,
{
    if from < 0 || from >= items(names).len() {
        Ok(found)
    } else {
        match table_name_of(items(names)[from]) {
            Err(error) => Err(error),
            Ok(name) => table_set_from(names, from + 1, put(found, name, ())),
        }
    }
}

/// Whether the tables named from position `from` on exist.
pub open spec fn tables_exist_from(
    database: DatabaseModel,
    names: Seq<(Seq<char>, ())>,
    from: int,
    if_exists: bool,
) -> Outcome<()>
    decreases names.len() - from,
{
    if from < 0 || from >= names.len() {
        Ok(())
    } else if !has_key(database.catalog, names[from].0) && !if_exists {
        Err(failure("UndefinedTable"@, names[from].0))
    } else {
        tables_exist_from(database, names, from + 1, if_exists)
    }
}

/// Whether some foreign key refers to the table.
pub open spec fn refers_to(keys: Seq<ForeignKeyModel>, name: Seq<char>) -> bool {
    exists|i: int| 0 <= i < keys.len() && (#[trigger] keys[i]).foreign_table == name
}

/// The foreign keys from position `from` on that do not refer to the table.
pub open spec fn other_keys_from(
    keys: Seq<ForeignKeyModel>,
    from: int,
    kept: Seq<ForeignKeyModel>,
    name: Seq<char>,
) -> Seq<ForeignKeyModel>
    decreases keys.len() - from,
{
    if from < 0 || from >= keys.len() {
        kept
    } else if keys[from].foreign_table == name {
        other_keys_from(keys, from + 1, kept, name)
    } else {
        other_keys_from(keys, from + 1, kept.push(keys[from]), name)
    }
}

/// The catalog whose tables from position `from` on, the dropped ones aside, no longer refer to
/// the table.
pub open spec fn detached_from(
    catalog: Seq<(Seq<char>, TableModel)>,
    from: int,
    dropped: Seq<(Seq<char>, ())>,
    name: Seq<char>,
    cascade: bool,
) -> Outcome<Seq<(Seq<char>, TableModel)>>
    decreases catalog.len() - from,
{
    if from < 0 || from >= catalog.len() {
        Ok(catalog)
    } else if has_key(dropped, catalog[from].0) {
        detached_from(catalog, from + 1, dropped, name, cascade)
    } else if refers_to(catalog[from].1.foreign_keys, name) && !cascade {
        Err(failure("DependencyViolation"@, catalog[from].0 + " references "@ + name))
    } else {
        let table = catalog[from].1;
        let kept = other_keys_from(table.foreign_keys, 0, Seq::empty(), name);
        detached_from(
            catalog.update(from, (catalog[from].0, (TableModel { foreign_keys: kept, ..table }))),
            from + 1,
            dropped,
            name,
            cascade,
        )
    }
}

/// The state in which nothing depends on the tables named from position `from` on.
pub open spec fn tables_detached_from(
    database: DatabaseModel,
    names: Seq<(Seq<char>, ())>,
    from: int,
    cascade: bool,
) -> Outcome<DatabaseModel>
    decreases names.len() - from,
{
    if from < 0 || from >= names.len() {
        Ok(database)
    } else {
        match without_dependents(database, names[from].0, cascade) {
            Err(error) => Err(error),
            Ok(next) => match detached_from(next.catalog, 0, names, names[from].0, cascade) {
                Err(error) => Err(error),
                Ok(catalog) => tables_detached_from(
                    (DatabaseModel { catalog, ..next }),
                    names,
                    from + 1,
                    cascade,
                ),
            },
        }
    }
}

/// The catalog without the tables named from position `from` on.
pub open spec fn without_tables_from(
    catalog: Seq<(Seq<char>, TableModel)>,
    names: Seq<(Seq<char>, ())>,
    from: int,
) -> Seq<(Seq<char>, TableModel)>
    decreases names.len() - from,
{
    if from < 0 || from >= names.len() {
        catalog
    } else {
        without_tables_from(del(catalog, names[from].0), names, from + 1)
    }
}

/// The state after DROP TABLE.
pub open spec fn tables_dropped(
    database: DatabaseModel,
    names: Json,
    if_exists: bool,
    cascade: bool,
    caller: AuthModel,
) -> Outcome<(DatabaseModel, ResultModel)> {
    if !caller.privileged {
        Err(failure("PrivilegeError"@, "DDL requires administrative authority"@))
    } else {
        match table_set_from(names, 0, Seq::empty()) {
            Err(error) => Err(error),
            Ok(set) => match tables_exist_from(database, set, 0, if_exists) {
                Err(error) => Err(error),
                Ok(_) => match tables_detached_from(database, set, 0, cascade) {
                    Err(error) => Err(error),
                    Ok(next) => match schema_changed(
                        DatabaseModel { catalog: without_tables_from(next.catalog, set, 0), ..next },
                    ) {
                        Err(error) => Err(error),
                        Ok(last) => Ok((last, no_result())),
                    },
                },
            },
        }
    }
}

fn table_set(names: &Datum) -> (result: Result<OrdMap<String, ()>>)
    ensures
        outcome(result) == table_set_from(names@, 0, Seq::empty()),
{
    let mut found: OrdMap<String, ()> = OrdMap::new();
    let count: usize = names.count();
    let mut i: usize = 0;
    while i < count
        invariant
            i <= count == items(names@).len(),
            table_set_from(names@, 0, Seq::empty()) == table_set_from(names@, i as int, found@),
        decreases count - i,
    {
        let name = table_name(names.item(i))?;
        found.insert(name, ());
        i += 1;
    }
    Ok(found)
}

fn require_tables(database: &Database, names: &OrdMap<String, ()>, if_exists: bool) -> (result: Result<()>)
    ensures
        outcome(result) == tables_exist_from(database.deep_view(), names@, 0, if_exists),
{
    let mut i: usize = 0;
    while i < names.len()
        invariant
            i <= names@.len(),
            tables_exist_from(database.deep_view(), names@, 0, if_exists) == tables_exist_from(
                database.deep_view(),
                names@,
                i as int,
                if_exists,
            ),
        decreases names@.len() - i,
    {
        let name = names.key_at(i);
        if !database.catalog.contains(name) && !if_exists {
            return Err(err("UndefinedTable", name.as_str()));
        }
        i += 1;
    }
    Ok(())
}

fn is_referring(keys: &Vec<ForeignKey>, name: &str) -> (result: bool)
    ensures
        result == refers_to(keys.deep_view(), name@),
{
    let mut i: usize = 0;
    while i < keys.len()
        invariant
            i <= keys.len(),
            forall|j: int| 0 <= j < i ==> (#[trigger] keys.deep_view()[j]).foreign_table != name@,
        decreases keys.len() - i,
    {
        assert(keys.deep_view()[i as int] == keys[i as int].deep_view());
        if same(keys[i].foreign_table.as_str(), name) {
            return true;
        }
        i += 1;
    }
    false
}

fn other_keys(keys: &Vec<ForeignKey>, name: &str) -> (result: Vec<ForeignKey>)
    ensures
        result.deep_view() == other_keys_from(keys.deep_view(), 0, Seq::empty(), name@),
{
    let mut kept: Vec<ForeignKey> = no_items();
    let ghost model = keys.deep_view();
    let mut i: usize = 0;
    while i < keys.len()
        invariant
            i <= keys.len(),
            model == keys.deep_view(),
            other_keys_from(model, 0, Seq::empty(), name@) == other_keys_from(
                model,
                i as int,
                kept.deep_view(),
                name@,
            ),
        decreases keys.len() - i,
    {
        assert(model[i as int] == keys[i as int].deep_view());
        if !same(keys[i].foreign_table.as_str(), name) {
            add_last(&mut kept, keys[i].replica());
        }
        i += 1;
    }
    kept
}

fn detach(
    start: OrdMap<String, Table>,
    dropped: &OrdMap<String, ()>,
    name: &str,
    cascade: bool,
) -> (result: Result<OrdMap<String, Table>>)
    ensures
        outcome(result) == detached_from(start@, 0, dropped@, name@, cascade),
{
    let ghost first = start@;
    let mut catalog = start;
    let mut i: usize = 0;
    while i < catalog.len()
        invariant
            i <= catalog@.len(),
            detached_from(first, 0, dropped@, name@, cascade) == detached_from(
                catalog@,
                i as int,
                dropped@,
                name@,
                cascade,
            ),
            first == start@,
        decreases catalog@.len() - i,
    {
        let source = catalog.key_at(i).clone();
        if !dropped.contains(&source) {
            let table = catalog.value_at(i);
            if is_referring(&table.foreign_keys, name) && !cascade {
                return Err(
                    err("DependencyViolation", cat3(source.as_str(), " references ", name).as_str()),
                );
            }
            let mut changed = table.replica();
            changed.foreign_keys = other_keys(&table.foreign_keys, name);
            let ghost before = catalog@;
            catalog.set_at(i, changed);
            assert(catalog@ == before.update(i as int, (before[i as int].0, changed.deep_view())));
        }
        i += 1;
    }
    Ok(catalog)
}

fn detach_tables(start: Database, names: &OrdMap<String, ()>, cascade: bool) -> (result: Result<Database>)
    ensures
        outcome(result) == tables_detached_from(start.deep_view(), names@, 0, cascade),
{
    let ghost first = start.deep_view();
    let mut database = start;
    let mut i: usize = 0;
    while i < names.len()
        invariant
            i <= names@.len(),
            first == start.deep_view(),
            tables_detached_from(first, names@, 0, cascade) == tables_detached_from(
                database.deep_view(),
                names@,
                i as int,
                cascade,
            ),
        decreases names@.len() - i,
    {
        let name = names.key_at(i);
        let mut next = remove_dependents(database, name.as_str(), cascade)?;
        next.catalog = detach(next.catalog, names, name.as_str(), cascade)?;
        database = next;
        i += 1;
    }
    Ok(database)
}

fn remove_tables(start: OrdMap<String, Table>, names: &OrdMap<String, ()>) -> (result: OrdMap<String, Table>)
    ensures
        result@ == without_tables_from(start@, names@, 0),
{
    let ghost first = start@;
    let mut catalog = start;
    let mut i: usize = 0;
    while i < names.len()
        invariant
            i <= names@.len(),
            without_tables_from(first, names@, 0) == without_tables_from(catalog@, names@, i as int),
        decreases names@.len() - i,
    {
        let _removed = catalog.remove(names.key_at(i));
        i += 1;
    }
    catalog
}

/// Runs DROP TABLE.
pub fn drop_tables(
    database: Database,
    names: &Datum,
    if_exists: bool,
    cascade: bool,
    context: &AuthContext,
) -> (result: Result<(Database, SqlResult)>)
    ensures
        outcome(result) == tables_dropped(
            database.deep_view(),
            names@,
            if_exists,
            cascade,
            context.deep_view(),
        ),
{
    if !context.privileged {
        return Err(err("PrivilegeError", "DDL requires administrative authority"));
    }
    let set = table_set(names)?;
    require_tables(&database, &set, if_exists)?;
    let mut next = detach_tables(database, &set, cascade)?;
    next.catalog = remove_tables(next.catalog, &set);
    let last = change_schema(next)?;
    Ok((last, SqlResult::default()))
}

} // verus!
