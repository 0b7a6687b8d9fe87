//! Batches of SQL statements, migrations and reads: the operations of a database.

use vstd::prelude::*;
use crate::ast::{batch_of, parse_statements, split_statements, statements_of};
use crate::calls::published;
use crate::catalog::{
    no_result, table_of, AuthContext, AuthModel, Database, DatabaseModel, ResultModel, RowModel, SqlResult, TableModel,
};
use crate::deferred::{deferred_executed, deferred_statement};
use crate::error::{err, failure, outcome, Failure, Outcome, Result};
use crate::functions::{function_executed, function_statement};
use crate::json::{group_value_views, Datum, Json};
use crate::ordmap::{has_key, put};
use crate::policy::{policy_executed, policy_statement};
use crate::referential::{actions_applied, apply_referential_actions};
use crate::replica::{add_last, no_items, Replica};
use crate::rules::{allowed, database_valid, permitted};
use crate::statement::{execute_statement, statement_executed};
use crate::text::owned;

verus! {

broadcast use group_value_views;

/// The state and the result after one parsed statement, the referential actions that it sets off
/// done; the constraints that are not deferred must hold then.
pub open spec fn statement_done(database: DatabaseModel, statement: Json, caller: AuthModel) -> Outcome<
    (DatabaseModel, ResultModel),
> {
    match statement_executed(database, statement, caller) {
        Err(error) => Err(error),
        Ok((next, result)) => match actions_applied(database, next, caller) {
            Err(error) => Err(error),
            Ok(acted) => match database_valid(acted, caller, false) {
                Err(error) => Err(error),
                Ok(_) => Ok((acted, result)),
            },
        },
    }
}

/// The state and the result after the parsed statements from position `from` on.
pub open spec fn statements_done_from(
    database: DatabaseModel,
    list: Seq<Json>,
    from: int,
    result: ResultModel,
    caller: AuthModel,
) -> Outcome<(DatabaseModel, ResultModel)>
    decreases list.len() - from,
{
    if from < 0 || from >= list.len() {
        Ok((database, result))
    } else {
        match statement_done(database, list[from], caller) {
            Err(error) => Err(error),
            Ok((next, rows)) => statements_done_from(next, list, from + 1, rows, caller),
        }
    }
}

/// The state and the result after the text of one statement.
pub open spec fn text_done(
    database: DatabaseModel,
    sql: Seq<char>,
    result: ResultModel,
    caller: AuthModel,
) -> Outcome<(DatabaseModel, ResultModel)> {
    match deferred_executed(database, sql, caller) {
        Err(error) => Err(error),
        Ok(Some(done)) => Ok(done),
        Ok(None) => match function_executed(database, sql, caller) {
            Err(error) => Err(error),
            Ok(Some(done)) => Ok(done),
            Ok(None) => match policy_executed(database, sql, caller) {
                Err(error) => Err(error),
                Ok(Some(done)) => Ok(done),
                Ok(None) => match statements_of(sql) {
                    Err(error) => Err(error),
                    Ok(list) => statements_done_from(database, list, 0, result, caller),
                },
            },
        },
    }
}

/// The state and the result after the texts of the statements from position `from` on.
pub open spec fn texts_done_from(
    database: DatabaseModel,
    texts: Seq<Seq<char>>,
    from: int,
    result: ResultModel,
    caller: AuthModel,
) -> Outcome<(DatabaseModel, ResultModel)>
    decreases texts.len() - from,
{
    if from < 0 || from >= texts.len() {
        Ok((database, result))
    } else {
        match text_done(database, texts[from], result, caller) {
            Err(error) => Err(error),
            Ok((next, rows)) => texts_done_from(next, texts, from + 1, rows, caller),
        }
    }
}

/// The state and the result after a batch, which must leave a valid state.
pub open spec fn batch_executed(database: DatabaseModel, sql: Seq<char>, caller: AuthModel) -> Outcome<
    (DatabaseModel, ResultModel),
> {
    match batch_of(sql) {
        Err(error) => Err(error),
        Ok(texts) => match texts_done_from(database, texts, 0, no_result(), caller) {
            Err(error) => Err(error),
            Ok((next, result)) => match database_valid(next, caller, true) {
                Err(error) => Err(error),
                Ok(_) => Ok((next, result)),
            },
        },
    }
}

/// The state and the result after a migration: nothing where it was applied before.
pub open spec fn migration_applied(
    database: DatabaseModel,
    version: Seq<char>,
    sql: Seq<char>,
    caller: AuthModel,
) -> Outcome<(DatabaseModel, ResultModel)> {
    if !caller.privileged {
        Err(failure("PrivilegeError"@, "Migrations require administrative authority"@))
    } else if has_key(database.migrations, version) {
        Ok((database, no_result()))
    } else {
        match batch_executed(database, sql, caller) {
            Err(error) => Err(error),
            Ok((next, result)) => Ok(
                (DatabaseModel { migrations: put(next.migrations, version, ()), ..next }, result),
            ),
        }
    }
}

/// The rows from position `from` on that the caller may read.
pub open spec fn visible_from(table: TableModel, from: int, found: Seq<Json>, caller: AuthModel) -> Outcome<Seq<Json>>
    decreases table.rows.len() - from,
{
    if from < 0 || from >= table.rows.len() {
        Ok(found)
    } else {
        let cells = table.rows[from].1.values;
        match permitted(table, "SELECT"@, cells, caller, false) {
            Err(error) => Err(error),
            Ok(true) => visible_from(table, from + 1, found.push(Json::Object(cells)), caller),
            Ok(false) => visible_from(table, from + 1, found, caller),
        }
    }
}

/// The rows of a table that the caller may read.
pub open spec fn table_read(database: DatabaseModel, name: Seq<char>, caller: AuthModel) -> Outcome<Seq<Json>> {
    match table_of(database, name) {
        Err(error) => Err(error),
        Ok(table) => visible_from(table, 0, Seq::empty(), caller),
    }
}

fn run_statement(database: Database, statement: &Datum, context: &AuthContext) -> (result: Result<
    (Database, SqlResult),
>)
    ensures
        outcome(result) == statement_done(database.deep_view(), statement@, context.deep_view()),
{
    let before = database.replica();
    let (next, result) = execute_statement(database, statement, context)?;
    let acted = apply_referential_actions(&before, next, context)?;
    acted.validate_immediate(context)?;
    Ok((acted, result))
}

fn run_statements(start: Database, list: &Vec<Datum>, start_result: SqlResult, context: &AuthContext) -> (result:
    Result<(Database, SqlResult)>)
    ensures
        outcome(result) == statements_done_from(
            start.deep_view(),
            list.deep_view(),
            0,
            start_result.deep_view(),
            context.deep_view(),
        ),
{
    let ghost initial = (start.deep_view(), start_result.deep_view());
    let ghost model = list.deep_view();
    let ghost caller = context.deep_view();
    let mut state: (Database, SqlResult) = (start, start_result);
    let mut i: usize = 0;
    while i < list.len()
        invariant
            i <= list.len(),
            model == list.deep_view(),
            caller == context.deep_view(),
            initial == (start.deep_view(), start_result.deep_view()),
            statements_done_from(initial.0, model, 0, initial.1, caller) == statements_done_from(
                state.0.deep_view(),
                model,
                i as int,
                state.1.deep_view(),
                caller,
            ),
        decreases list.len() - i,
    {
        assert(model[i as int] == list[i as int]@);
        let (database, _previous) = state;
        state = run_statement(database, &list[i], context)?;
        i += 1;
    }
    Ok(state)
}

fn run_text(database: Database, sql: &str, result: SqlResult, context: &AuthContext) -> (done: Result<
    (Database, SqlResult),
>)
    ensures
        outcome(done) == text_done(
            database.deep_view(),
            sql@,
            result.deep_view(),
            context.deep_view(),
        ),
{
    if let Some(done) = deferred_statement(&database, sql, context)? {
        return Ok(done);
    }
    if let Some(done) = function_statement(&database, sql, context)? {
        return Ok(done);
    }
    if let Some(done) = policy_statement(&database, sql, context)? {
        return Ok(done);
    }
    let list = parse_statements(sql)?;
    run_statements(database, &list, result, context)
}

fn run_texts(start: Database, texts: &Vec<String>, context: &AuthContext) -> (result: Result<(Database, SqlResult)>)
    ensures
        outcome(result) == texts_done_from(
            start.deep_view(),
            texts.deep_view(),
            0,
            no_result(),
            context.deep_view(),
        ),
{
    let ghost initial = start.deep_view();
    let ghost model = texts.deep_view();
    let ghost caller = context.deep_view();
    let mut state: (Database, SqlResult) = (start, SqlResult::default());
    let mut i: usize = 0;
    while i < texts.len()
        invariant
            i <= texts.len(),
            model == texts.deep_view(),
            caller == context.deep_view(),
            initial == start.deep_view(),
            texts_done_from(initial, model, 0, no_result(), caller) == texts_done_from(
                state.0.deep_view(),
                model,
                i as int,
                state.1.deep_view(),
                caller,
            ),
        decreases texts.len() - i,
    {
        assert(model[i as int] == texts[i as int]@);
        let (database, result) = state;
        state = run_text(database, texts[i].as_str(), result, context)?;
        i += 1;
    }
    Ok(state)
}

impl Database {
    /// Executes a batch as one atomic unit: the state changes only where every statement succeeds.
    pub fn execute_sql(&mut self, sql: &str, context: &AuthContext) -> (result: Result<SqlResult>)
        ensures
            published(
                *old(self),
                *final(self),
                result,
                batch_executed(old(self).deep_view(), sql@, context.deep_view()),
            ),
    {
        let texts = split_statements(sql)?;
        let (next, result) = run_texts(self.replica(), &texts, context)?;
        next.validate(context)?;
        *self = next;
        Ok(result)
    }

    /// Executes a batch once for its version: a second application changes nothing.
    pub fn apply_migration(&mut self, version: &str, sql: &str, context: &AuthContext) -> (result: Result<SqlResult>)
        ensures
            published(
                *old(self),
                *final(self),
                result,
                migration_applied(old(self).deep_view(), version@, sql@, context.deep_view()),
            ),
    {
        if !context.privileged {
            return Err(err("PrivilegeError", "Migrations require administrative authority"));
        }
        if self.migrations.holds(version) {
            return Ok(SqlResult::default());
        }
        let mut staged = self.replica();
        let result = staged.execute_sql(sql, context)?;
        staged.migrations.insert(owned(version), ());
        *self = staged;
        Ok(result)
    }

    /// The rows of a table that the caller may read.
    pub fn read_table(&self, name: &str, context: &AuthContext) -> (result: Result<Vec<Datum>>)
        ensures
            outcome(result) == table_read(self.deep_view(), name@, context.deep_view()),
    {
        let table = self.table(name)?;
        let mut rows: Vec<Datum> = no_items();
        let ghost model = table.deep_view();
        let ghost caller = context.deep_view();
        let mut i: usize = 0;
        while i < table.rows.len()
            invariant
                i <= model.rows.len(),
                model == table.deep_view(),
                caller == context.deep_view(),
                table_read(self.deep_view(), name@, caller) == visible_from(
                    model,
                    i as int,
                    rows.deep_view(),
                    caller,
                ),
            decreases model.rows.len() - i,
        {
            let row = table.rows.value_at(i);
            assert(model.rows[i as int].1.values == row.values@);
            if allowed(table, "SELECT", &row.values, context, false)? {
                add_last(&mut rows, Datum::Object(row.values.replica()));
            }
            i += 1;
        }
        Ok(rows)
    }
}

// ---------------------------------------------------------------------------------------------
// What the operations guarantee
// ---------------------------------------------------------------------------------------------

/// A batch that succeeds leaves a state that meets every constraint.
pub proof fn batches_keep_states_valid(database: DatabaseModel, sql: Seq<char>, caller: AuthModel)
    ensures
        batch_executed(database, sql, caller) matches Ok((next, _)) ==> database_valid(next, caller, true) is Ok,
{
}

/// Whether the policies of a table let the caller select a row.
pub open spec fn may_select(table: TableModel, caller: AuthModel) -> spec_fn((u64, RowModel)) -> bool {
    |entry: (u64, RowModel)|
        permitted(table, "SELECT"@, entry.1.values, caller, false) == Ok::<bool, Failure>(true)
}

/// The value that a row is read as.
pub open spec fn read_value() -> spec_fn((u64, RowModel)) -> Json {
    |entry: (u64, RowModel)| Json::Object(entry.1.values)
}

/// A read returns exactly the rows of the table that its policies let the caller select, in the order
/// of their identities.
pub proof fn reads_respect_policies(database: DatabaseModel, name: Seq<char>, caller: AuthModel)
    ensures
        match table_read(database, name, caller) {
            Ok(rows) => table_of(database, name) matches Ok(table) && rows == table.rows.filter(
                may_select(table, caller),
            ).map_values(read_value()),
            Err(_) => true,
        },
{
    if let Ok(table) = table_of(database, name) {
        let none = table.rows.take(0);
        assert(none =~= Seq::empty());
        reveal(Seq::filter);
        assert(none.filter(may_select(table, caller)).map_values(read_value()) =~= Seq::empty());
        visible_rows_are_selected(table, 0, Seq::empty(), caller);
    }
}

proof fn visible_rows_are_selected(table: TableModel, from: int, found: Seq<Json>, caller: AuthModel)
    requires
        0 <= from <= table.rows.len(),
        found == table.rows.take(from).filter(may_select(table, caller)).map_values(read_value()),
    ensures
        visible_from(table, from, found, caller) matches Ok(rows) ==> rows == table.rows.filter(
            may_select(table, caller),
        ).map_values(read_value()),
    decreases table.rows.len() - from,
{
    let select = may_select(table, caller);
    if from < table.rows.len() {
        reveal(Seq::filter);
        let longer = table.rows.take(from + 1);
        assert(longer.drop_last() =~= table.rows.take(from));
        assert(longer.last() == table.rows[from]);
        let cells = table.rows[from].1.values;
        if permitted(table, "SELECT"@, cells, caller, false) == Ok::<bool, Failure>(true) {
            let more = found.push(Json::Object(cells));
            assert(longer.filter(select) == table.rows.take(from).filter(select).push(table.rows[from]));
            assert(more =~= longer.filter(select).map_values(read_value()));
            visible_rows_are_selected(table, from + 1, more, caller);
        } else {
            assert(longer.filter(select) == table.rows.take(from).filter(select));
            visible_rows_are_selected(table, from + 1, found, caller);
        }
    } else {
        assert(table.rows.take(from) =~= table.rows);
    }
}

} // verus!
