//! Checking that a state meets its constraints.

use vstd::prelude::*;
use crate::ast::{json_text, json_text_of, Expr};
use crate::catalog::{
    cell, require_column, table_of, AuthContext, AuthModel, Cells, Column, Database, DatabaseModel, ForeignKey,
    Policy, Table, TableModel,
};
use crate::error::{err, outcome, unsupported, Result};
use crate::eval::eval;
use crate::json::{group_value_views, Datum, Json};
use crate::replica::{add_last, no_items};
use crate::rules::{
    all_decide_from, check_row, columns_required_from, database_valid, decides, followed, foreign_key_valid,
    foreign_keys_valid_from, generation_valid_from, is_impure, key_cells, key_repeated, key_valid, keys_valid_from,
    optional_decides, policies_decide_from, reference_found, referred_key, row_checked, rows_checked_from, same_key,
    same_values, sample, sample_of, some_null, table_valid, tables_valid_from, unique_listed,
};
use crate::scalar::truth;
use crate::text::{cat5, is_listed, join, listed, same_names};
use crate::value::same_json;

verus! {

broadcast use group_value_views;

fn try_predicate(expr: &Expr, row: &Cells, context: &AuthContext) -> (result: Result<()>)
    ensures
        outcome(result) == decides(expr@, row@, context.deep_view()),
{
    let value = eval(expr, row, context)?;
    let _known = truth(&value)?;
    Ok(())
}

fn try_optional(expr: &Option<Expr>, row: &Cells, context: &AuthContext) -> (result: Result<()>)
    ensures
        outcome(result) == optional_decides(expr.deep_view(), row@, context.deep_view()),
{
    match expr {
        Some(tree) => try_predicate(tree, row, context),
        None => Ok(()),
    }
}

fn validate_generation(columns: &Vec<Column>, row: &Cells, context: &AuthContext) -> (result: Result<()>)
    requires
        row@ == sample_of(columns.deep_view()),
    ensures
        outcome(result) == generation_valid_from(columns.deep_view(), 0, context.deep_view()),
{
    let mut i: usize = 0;
    let ghost model = columns.deep_view();
    while i < columns.len()
        invariant
            i <= columns.len(),
            model == columns.deep_view(),
            row@ == sample_of(model),
            generation_valid_from(model, 0, context.deep_view()) == generation_valid_from(
                model,
                i as int,
                context.deep_view(),
            ),
        decreases columns.len() - i,
    {
        assert(model[i as int] == columns[i as int].deep_view());
        if let Some(expr) = &columns[i].generated {
            if is_impure(expr, columns) {
                return Err(
                    unsupported(
                        "Generated expressions must be immutable and cannot reference generated columns",
                    ),
                );
            }
            let _value = eval(expr, row, context)?;
        }
        i += 1;
    }
    Ok(())
}

fn validate_checks(checks: &Vec<Expr>, row: &Cells, context: &AuthContext) -> (result: Result<()>)
    ensures
        outcome(result) == all_decide_from(checks.deep_view(), 0, row@, context.deep_view()),
{
    let mut i: usize = 0;
    let ghost model = checks.deep_view();
    while i < checks.len()
        invariant
            i <= checks.len(),
            model == checks.deep_view(),
            all_decide_from(model, 0, row@, context.deep_view()) == all_decide_from(
                model,
                i as int,
                row@,
                context.deep_view(),
            ),
        decreases checks.len() - i,
    {
        assert(model[i as int] == checks[i as int]@);
        try_predicate(&checks[i], row, context)?;
        i += 1;
    }
    Ok(())
}

fn validate_policies(policies: &Vec<Policy>, row: &Cells, context: &AuthContext) -> (result: Result<()>)
    ensures
        outcome(result) == policies_decide_from(policies.deep_view(), 0, row@, context.deep_view()),
{
    let mut i: usize = 0;
    let ghost model = policies.deep_view();
    while i < policies.len()
        invariant
            i <= policies.len(),
            model == policies.deep_view(),
            policies_decide_from(model, 0, row@, context.deep_view()) == policies_decide_from(
                model,
                i as int,
                row@,
                context.deep_view(),
            ),
        decreases policies.len() - i,
    {
        assert(model[i as int] == policies[i as int].deep_view());
        try_optional(&policies[i].using, row, context)?;
        try_optional(&policies[i].check, row, context)?;
        i += 1;
    }
    Ok(())
}

/// Refuses names that are no columns of the table.
pub fn require_columns(table: &Table, names: &Vec<String>) -> (result: Result<()>)
    ensures
        outcome(result) == columns_required_from(table.deep_view(), names.deep_view(), 0),
{
    let mut i: usize = 0;
    let ghost model = names.deep_view();
    while i < names.len()
        invariant
            i <= names.len(),
            model == names.deep_view(),
            columns_required_from(table.deep_view(), model, 0) == columns_required_from(
                table.deep_view(),
                model,
                i as int,
            ),
        decreases names.len() - i,
    {
        assert(model[i as int] == names[i as int]@);
        require_column(table, names[i].as_str())?;
        i += 1;
    }
    Ok(())
}

/// The cells of a row under the columns of a key.
pub fn key_values(row: &Cells, key: &Vec<String>) -> (result: Vec<Datum>)
    ensures
        result.deep_view() == key_cells(row@, key.deep_view()),
{
    let mut result: Vec<Datum> = no_items();
    let mut i: usize = 0;
    let ghost goal = key_cells(row@, key.deep_view());
    while i < key.len()
        invariant
            i <= key.len(),
            goal == key_cells(row@, key.deep_view()),
            result.deep_view() == goal.take(i as int),
        decreases key.len() - i,
    {
        add_last(&mut result, cell(row, key[i].as_str()).copied());
        i += 1;
        assert(result.deep_view() =~= goal.take(i as int));
    }
    assert(goal.take(key@.len() as int) =~= goal);
    result
}

/// Whether one of the values is null.
pub fn any_null(values: &Vec<Datum>) -> (result: bool)
    ensures
        result == some_null(values.deep_view()),
{
    let mut i: usize = 0;
    while i < values.len()
        invariant
            i <= values.len(),
            forall|j: int| 0 <= j < i ==> !(#[trigger] values.deep_view()[j] is Null),
        decreases values.len() - i,
    {
        assert(values.deep_view()[i as int] == values[i as int]@);
        if values[i].is_null() {
            return true;
        }
        i += 1;
    }
    false
}

/// Whether two lists of values are equal as JSON.
pub fn equal_values(a: &Vec<Datum>, b: &Vec<Datum>) -> (result: bool)
    ensures
        result == same_values(a.deep_view(), b.deep_view()),
{
    if a.len() != b.len() {
        return false;
    }
    let mut i: usize = 0;
    while i < a.len()
        invariant
            i <= a.len() == b.len(),
            forall|j: int| 0 <= j < i ==> same_json(#[trigger] a.deep_view()[j], b.deep_view()[j]),
        decreases a.len() - i,
    {
        assert(a.deep_view()[i as int] == a[i as int]@);
        assert(b.deep_view()[i as int] == b[i as int]@);
        if !a[i].equals(&b[i]) {
            return false;
        }
        i += 1;
    }
    true
}

/// Whether two different rows have the same key.
#[verifier::loop_isolation(false)]
fn repeats_key(table: &Table, key: &Vec<String>) -> (result: bool)
    ensures
        result == key_repeated(table.deep_view().rows, key.deep_view()),
{
    let mut seen: Vec<String> = no_items();
    let ghost rows = table.deep_view().rows;
    let ghost names = key.deep_view();
    let ghost mut origin = Seq::<int>::empty();
    let mut i: usize = 0;
    while i < table.rows.len()
        invariant
            i <= rows.len(),
            rows == table.rows@,
            names == key.deep_view(),
            origin.len() == seen.deep_view().len(),
            forall|s: int|
                0 <= s < origin.len() ==> 0 <= (#[trigger] origin[s]) < i && !some_null(
                    key_cells(rows[origin[s]].1.values, names),
                ) && json_text_of(Json::Array(key_cells(rows[origin[s]].1.values, names)))
                    == seen.deep_view()[s],
            forall|a: int|
                0 <= a < i && !some_null(key_cells((#[trigger] rows[a]).1.values, names)) ==> listed(
                    seen.deep_view(),
                    json_text_of(Json::Array(key_cells(rows[a].1.values, names))),
                ),
            forall|a: int, b: int|
                0 <= a < b < i ==> !same_key(
                    (#[trigger] rows[a]).1.values,
                    (#[trigger] rows[b]).1.values,
                    names,
                ),
        decreases table.rows@.len() - i,
    {
        let row = table.rows.value_at(i);
        assert(rows[i as int].1 == row.deep_view());
        let values = key_values(&row.values, key);
        if !any_null(&values) {
            let text = json_text(&Datum::Array(values));
            if is_listed(&seen, text.as_str()) {
                proof {
                    let s = choose|s: int| 0 <= s < seen.deep_view().len() && seen.deep_view()[s] == text@;
                    assert(0 <= origin[s] < i);
                    assert(same_key(rows[origin[s]].1.values, rows[i as int].1.values, names));
                }
                return true;
            }
            let ghost before = seen.deep_view();
            add_last(&mut seen, text);
            proof {
                origin = origin.push(i as int);
                assert(seen.deep_view()[before.len() as int] == text@);
                assert forall|a: int|
                    0 <= a < i + 1 && !some_null(key_cells((#[trigger] rows[a]).1.values, names)) implies listed(
                    seen.deep_view(),
                    json_text_of(Json::Array(key_cells(rows[a].1.values, names))),
                ) by {
                    if a < i {
                        let t = json_text_of(Json::Array(key_cells(rows[a].1.values, names)));
                        let s = choose|s: int| 0 <= s < before.len() && before[s] == t;
                        assert(seen.deep_view()[s] == t);
                    }
                }
            }
        }
        i += 1;
    }
    false
}

fn validate_key(table: &Table, key: &Vec<String>, last: bool) -> (result: Result<()>)
    ensures
        outcome(result) == key_valid(table.deep_view(), key.deep_view(), last),
{
    if key.len() == 0 {
        return Ok(());
    }
    require_columns(table, key)?;
    if !last && table.deferred_unique.contains(key) {
        return Ok(());
    }
    if repeats_key(table, key) {
        return Err(
            err(
                "ConstraintViolation",
                cat5("Duplicate key in ", table.name.as_str(), " (", join(key, ",").as_str(), ")").as_str(),
            ),
        );
    }
    Ok(())
}

fn validate_keys(table: &Table, last: bool) -> (result: Result<()>)
    ensures
        outcome(result) == followed(
            keys_valid_from(table.deep_view(), 0, last),
            key_valid(table.deep_view(), table.deep_view().primary_key, last),
        ),
{
    let mut i: usize = 0;
    let ghost model = table.deep_view();
    while i < table.unique.len()
        invariant
            i <= table.unique.len(),
            model == table.deep_view(),
            keys_valid_from(model, 0, last) == keys_valid_from(model, i as int, last),
        decreases table.unique.len() - i,
    {
        assert(model.unique[i as int] == table.unique[i as int].deep_view());
        validate_key(table, &table.unique[i], last)?;
        i += 1;
    }
    validate_key(table, &table.primary_key, last)
}

fn validate_rows(table: &Table, context: &AuthContext) -> (result: Result<()>)
    ensures
        outcome(result) == rows_checked_from(table.deep_view(), 0, context.deep_view()),
{
    let mut i: usize = 0;
    let ghost model = table.deep_view();
    while i < table.rows.len()
        invariant
            i <= model.rows.len(),
            model == table.deep_view(),
            rows_checked_from(model, 0, context.deep_view()) == rows_checked_from(
                model,
                i as int,
                context.deep_view(),
            ),
        decreases table.rows@.len() - i,
    {
        let row = table.rows.value_at(i);
        check_row(table, &row.values, context)?;
        i += 1;
    }
    Ok(())
}

/// Whether a foreign key of a row is null or finds its row in the target.
#[verifier::loop_isolation(false)]
fn finds_reference(row: &Cells, columns: &Vec<String>, target: &Table, referred: &Vec<String>) -> (result:
    bool)
    ensures
        result == reference_found(
            row@,
            columns.deep_view(),
            target.deep_view(),
            referred.deep_view(),
        ),
{
    let values = key_values(row, columns);
    if any_null(&values) {
        return true;
    }
    let ghost rows = target.deep_view().rows;
    let mut i: usize = 0;
    while i < target.rows.len()
        invariant
            i <= rows.len(),
            rows == target.rows@,
            forall|j: int|
                0 <= j < i ==> !same_values(
                    key_cells((#[trigger] rows[j]).1.values, referred.deep_view()),
                    values.deep_view(),
                ),
        decreases target.rows@.len() - i,
    {
        let other = target.rows.value_at(i);
        assert(rows[i as int].1 == other.deep_view());
        if equal_values(&key_values(&other.values, referred), &values) {
            return true;
        }
        i += 1;
    }
    false
}

/// Whether some unique key of the table is this one.
pub fn is_unique_key(unique: &Vec<Vec<String>>, key: &Vec<String>) -> (result: bool)
    ensures
        result == unique_listed(unique.deep_view(), key.deep_view()),
{
    let mut i: usize = 0;
    while i < unique.len()
        invariant
            i <= unique.len(),
            forall|j: int| 0 <= j < i ==> #[trigger] unique.deep_view()[j] != key.deep_view(),
        decreases unique.len() - i,
    {
        assert(unique.deep_view()[i as int] == unique[i as int].deep_view());
        if same_names(&unique[i], key) {
            return true;
        }
        i += 1;
    }
    false
}

#[verifier::loop_isolation(false)]
fn validate_foreign_key(database: &Database, table: &Table, key: &ForeignKey, last: bool) -> (result: Result<()>)
    ensures
        outcome(result) == foreign_key_valid(
            database.deep_view(),
            table.deep_view(),
            key.deep_view(),
            last,
        ),
{
    let target = database.table(key.foreign_table.as_str())?;
    let referred = if key.referred_columns.len() == 0 {
        &target.primary_key
    } else {
        &key.referred_columns
    };
    let ghost model = key.deep_view();
    assert(referred.deep_view() == referred_key(model, target.deep_view()));
    if referred.len() == 0 || referred.len() != key.columns.len() {
        return Err(err("ConstraintViolation", "Foreign-key arity differs"));
    }
    require_columns(table, &key.columns)?;
    require_columns(target, referred)?;
    if !same_names(referred, &target.primary_key) && !is_unique_key(&target.unique, referred) {
        return Err(err("ConstraintViolation", "Foreign key target must be a primary or unique key"));
    }
    if !last && key.deferred {
        return Ok(());
    }
    let ghost rows = table.deep_view().rows;
    let mut i: usize = 0;
    while i < table.rows.len()
        invariant
            i <= rows.len(),
            rows == table.rows@,
            forall|j: int|
                0 <= j < i ==> reference_found(
                    (#[trigger] rows[j]).1.values,
                    model.columns,
                    target.deep_view(),
                    referred.deep_view(),
                ),
        decreases table.rows@.len() - i,
    {
        let row = table.rows.value_at(i);
        assert(rows[i as int].1 == row.deep_view());
        if !finds_reference(&row.values, &key.columns, target, referred) {
            return Err(
                err(
                    "ConstraintViolation",
                    cat5(
                        "Foreign key from ",
                        table.name.as_str(),
                        " to ",
                        target.name.as_str(),
                        " failed",
                    ).as_str(),
                ),
            );
        }
        i += 1;
    }
    Ok(())
}

fn validate_table(database: &Database, table: &Table, context: &AuthContext, last: bool) -> (result: Result<()>)
    ensures
        outcome(result) == table_valid(
            database.deep_view(),
            table.deep_view(),
            context.deep_view(),
            last,
        ),
{
    let row = sample(&table.columns);
    validate_generation(&table.columns, &row, context)?;
    validate_checks(&table.checks, &row, context)?;
    validate_policies(&table.policies, &row, context)?;
    validate_keys(table, last)?;
    validate_rows(table, context)?;
    let mut i: usize = 0;
    let ghost model = table.deep_view();
    let ghost state = database.deep_view();
    while i < table.foreign_keys.len()
        invariant
            i <= table.foreign_keys.len(),
            model == table.deep_view(),
            state == database.deep_view(),
            table_valid(state, model, context.deep_view(), last) == foreign_keys_valid_from(
                state,
                model,
                i as int,
                last,
            ),
        decreases table.foreign_keys.len() - i,
    {
        assert(model.foreign_keys[i as int] == table.foreign_keys[i as int].deep_view());
        validate_foreign_key(database, table, &table.foreign_keys[i], last)?;
        i += 1;
    }
    Ok(())
}

impl Database {
    /// Checks every constraint, the deferred ones too.
    pub fn validate(&self, context: &AuthContext) -> (result: Result<()>)
        ensures
            outcome(result) == database_valid(self.deep_view(), context.deep_view(), true),
    {
        self.validate_constraints(context, true)
    }

    /// Checks every constraint that is not deferred.
    pub fn validate_immediate(&self, context: &AuthContext) -> (result: Result<()>)
        ensures
            outcome(result) == database_valid(self.deep_view(), context.deep_view(), false),
    {
        self.validate_constraints(context, false)
    }

    /// Checks every constraint; `last` also asks for the deferred ones.
    pub fn validate_constraints(&self, context: &AuthContext, last: bool) -> (result: Result<()>)
        ensures
            outcome(result) == database_valid(self.deep_view(), context.deep_view(), last),
    {
        let mut i: usize = 0;
        let ghost state = self.deep_view();
        while i < self.catalog.len()
            invariant
                i <= state.catalog.len(),
                state == self.deep_view(),
                database_valid(state, context.deep_view(), last) == tables_valid_from(
                    state,
                    i as int,
                    context.deep_view(),
                    last,
                ),
            decreases self.catalog@.len() - i,
        {
            validate_table(self, self.catalog.value_at(i), context, last)?;
            i += 1;
        }
        Ok(())
    }
}

// ---------------------------------------------------------------------------------------------
// What a valid state guarantees
// ---------------------------------------------------------------------------------------------

proof fn each_table_valid(database: DatabaseModel, from: int, caller: AuthModel, last: bool, i: int)
    requires
        0 <= from <= i < database.catalog.len(),
        tables_valid_from(database, from, caller, last) is Ok,
    ensures
        table_valid(database, database.catalog[i].1, caller, last) is Ok,
    decreases i - from,
{
    if from < i {
        each_table_valid(database, from + 1, caller, last, i);
    }
}

proof fn each_key_valid(table: TableModel, from: int, last: bool, i: int)
    requires
        0 <= from <= i < table.unique.len(),
        keys_valid_from(table, from, last) is Ok,
    ensures
        key_valid(table, table.unique[i], last) is Ok,
    decreases i - from,
{
    if from < i {
        each_key_valid(table, from + 1, last, i);
    }
}

proof fn each_row_checked(table: TableModel, from: int, caller: AuthModel, i: int)
    requires
        0 <= from <= i < table.rows.len(),
        rows_checked_from(table, from, caller) is Ok,
    ensures
        row_checked(table, table.rows[i].1.values, caller) is Ok,
    decreases i - from,
{
    if from < i {
        each_row_checked(table, from + 1, caller, i);
    }
}

proof fn each_foreign_key_valid(database: DatabaseModel, table: TableModel, from: int, last: bool, i: int)
    requires
        0 <= from <= i < table.foreign_keys.len(),
        foreign_keys_valid_from(database, table, from, last) is Ok,
    ensures
        foreign_key_valid(database, table, table.foreign_keys[i], last) is Ok,
    decreases i - from,
{
    if from < i {
        each_foreign_key_valid(database, table, from + 1, last, i);
    }
}

/// In a valid state no two rows of a table share a primary key or a unique key.
pub proof fn valid_keys_are_unique(database: DatabaseModel, caller: AuthModel, t: int, key: Seq<Seq<char>>)
    requires
        database_valid(database, caller, true) is Ok,
        0 <= t < database.catalog.len(),
        key.len() > 0,
        key == database.catalog[t].1.primary_key || unique_listed(database.catalog[t].1.unique, key),
    ensures
        !key_repeated(database.catalog[t].1.rows, key),
{
    let table = database.catalog[t].1;
    each_table_valid(database, 0, caller, true, t);
    if key != table.primary_key {
        let i = choose|i: int| 0 <= i < table.unique.len() && #[trigger] table.unique[i] == key;
        each_key_valid(table, 0, true, i);
    }
}

/// In a valid state every row has cells of its columns' types and passes every check.
pub proof fn valid_rows_pass_checks(database: DatabaseModel, caller: AuthModel, t: int, r: int)
    requires
        database_valid(database, caller, true) is Ok,
        0 <= t < database.catalog.len(),
        0 <= r < database.catalog[t].1.rows.len(),
    ensures
        row_checked(database.catalog[t].1, database.catalog[t].1.rows[r].1.values, caller) is Ok,
{
    each_table_valid(database, 0, caller, true, t);
    each_row_checked(database.catalog[t].1, 0, caller, r);
}

/// In a valid state every foreign key of every row is null or finds the row it refers to.
pub proof fn valid_references_are_found(database: DatabaseModel, caller: AuthModel, t: int, f: int, r: int)
    requires
        database_valid(database, caller, true) is Ok,
        0 <= t < database.catalog.len(),
        0 <= f < database.catalog[t].1.foreign_keys.len(),
        0 <= r < database.catalog[t].1.rows.len(),
    ensures
        ({
            let table = database.catalog[t].1;
            let key = table.foreign_keys[f];
            &&& table_of(database, key.foreign_table) matches Ok(target)
            &&& reference_found(
                table.rows[r].1.values,
                key.columns,
                target,
                referred_key(key, target),
            )
        }),
{
    let table = database.catalog[t].1;
    each_table_valid(database, 0, caller, true, t);
    each_foreign_key_valid(database, table, 0, true, f);
    assert(table.rows[r] == database.catalog[t].1.rows[r]);
}

/// A state that meets all its constraints also meets those that are checked at once.
pub proof fn valid_is_valid_at_once(database: DatabaseModel, caller: AuthModel)
    requires
        database_valid(database, caller, true) is Ok,
    ensures
        database_valid(database, caller, false) is Ok,
{
    tables_valid_at_once(database, 0, caller);
}

proof fn tables_valid_at_once(database: DatabaseModel, from: int, caller: AuthModel)
    requires
        0 <= from <= database.catalog.len(),
        tables_valid_from(database, from, caller, true) is Ok,
    ensures
        tables_valid_from(database, from, caller, false) is Ok,
    decreases database.catalog.len() - from,
{
    if from < database.catalog.len() {
        let table = database.catalog[from].1;
        keys_valid_at_once(table, 0);
        foreign_keys_valid_at_once(database, table, 0);
        tables_valid_at_once(database, from + 1, caller);
    }
}

proof fn keys_valid_at_once(table: TableModel, from: int)
    requires
        0 <= from <= table.unique.len(),
        keys_valid_from(table, from, true) is Ok,
    ensures
        keys_valid_from(table, from, false) is Ok,
    decreases table.unique.len() - from,
{
    if from < table.unique.len() {
        keys_valid_at_once(table, from + 1);
    }
}

proof fn foreign_keys_valid_at_once(database: DatabaseModel, table: TableModel, from: int)
    requires
        0 <= from <= table.foreign_keys.len(),
        foreign_keys_valid_from(database, table, from, true) is Ok,
    ensures
        foreign_keys_valid_from(database, table, from, false) is Ok,
    decreases table.foreign_keys.len() - from,
{
    if from < table.foreign_keys.len() {
        foreign_keys_valid_at_once(database, table, from + 1);
    }
}

} // verus!
