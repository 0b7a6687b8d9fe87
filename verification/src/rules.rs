//! Rules on rows: checks, generated and identity columns, row-level security, and the constraints
//! that every committed state meets.

use vstd::prelude::*;
use crate::ast::{default_word, expressions, expressions_of, function_name, function_name_of, ident, ident_name, is_default, json_text_of, Expr};
use crate::catalog::{
    cell, cell_of, column_named, column_required, find_column, table_of, AuthContext, AuthModel, Cells, CellsModel,
    Column, ColumnModel, DatabaseModel, ForeignKeyModel, Identity, Policy, PolicyModel, RowModel, Table, TableModel,
};
use crate::error::{err, failure, outcome, unsupported, unsupported_failure, Failure, Outcome, Result};
use crate::eval::{eval, evaluated, predicate, satisfied};
use crate::json::{group_value_views, Datum, Json, Num};
use crate::ordmap::{has_key, put, OrdMap};
use crate::replica::Replica;
use crate::scalar::{check_value, in_range, truth, truth_of, value_checked};
use crate::text::{cat2, cat3, is_listed, joined, listed, owned, same};
use crate::value::{as_int, child, item, items, payload, same_json, tag};

verus! {

broadcast use group_value_views;

/// The first of two checks that fails.
pub open spec fn followed(first: Outcome<()>, second: Outcome<()>) -> Outcome<()> {
    match first {
        Err(error) => Err(error),
        Ok(_) => second,
    }
}

// ---------------------------------------------------------------------------------------------
// Rows
// ---------------------------------------------------------------------------------------------

/// Whether the columns from position `from` on can hold the cells of a row.
pub open spec fn columns_hold_from(columns: Seq<ColumnModel>, from: int, row: CellsModel) -> Outcome<()>
    decreases columns.len() - from,
{
    if from < 0 || from >= columns.len() {
        Ok(())
    } else {
        let column = columns[from];
        followed(
            value_checked(
                column.name,
                column.data_type,
                column.nullable,
                cell_of(row, column.name),
            ),
            columns_hold_from(columns, from + 1, row),
        )
    }
}

/// Whether a row passes one check: it fails only where the check is false.
pub open spec fn check_passed(table: Seq<char>, check: Json, row: CellsModel, caller: AuthModel) -> Outcome<()> {
    match evaluated(check, row, caller) {
        Err(error) => Err(error),
        Ok(value) => match truth_of(value) {
            Err(error) => Err(error),
            Ok(truth) => if truth == Some(false) {
                Err(failure("ConstraintViolation"@, "CHECK constraint on "@ + table + " failed"@))
            } else {
                Ok(())
            },
        },
    }
}

/// Whether a row passes the checks from position `from` on.
pub open spec fn checks_passed_from(
    table: Seq<char>,
    checks: Seq<Json>,
    from: int,
    row: CellsModel,
    caller: AuthModel,
) -> Outcome<()>
    decreases checks.len() - from,
{
    if from < 0 || from >= checks.len() {
        Ok(())
    } else {
        followed(
            check_passed(table, checks[from], row, caller),
            checks_passed_from(table, checks, from + 1, row, caller),
        )
    }
}

/// Whether a row has cells of the columns' types and passes every check of the table.
pub open spec fn row_checked(table: TableModel, row: CellsModel, caller: AuthModel) -> Outcome<()> {
    followed(
        columns_hold_from(table.columns, 0, row),
        checks_passed_from(table.name, table.checks, 0, row, caller),
    )
}

/// Refuses a row with a cell of the wrong type or a false check.
pub fn check_row(table: &Table, row: &Cells, context: &AuthContext) -> (result: Result<()>)
    ensures
        outcome(result) == row_checked(table.deep_view(), row@, context.deep_view()),
{
    let mut i: usize = 0;
    let ghost model = table.deep_view();
    while i < table.columns.len()
        invariant
            i <= table.columns.len(),
            model == table.deep_view(),
            columns_hold_from(model.columns, 0, row@) == columns_hold_from(model.columns, i as int, row@),
        decreases table.columns.len() - i,
    {
        assert(model.columns[i as int] == table.columns[i as int].deep_view());
        let column = &table.columns[i];
        check_value(column, cell(row, column.name.as_str()))?;
        i += 1;
    }
    i = 0;
    while i < table.checks.len()
        invariant
            i <= table.checks.len(),
            model == table.deep_view(),
            columns_hold_from(model.columns, 0, row@) == Ok::<(), Failure>(()),
            checks_passed_from(model.name, model.checks, 0, row@, context.deep_view())
                == checks_passed_from(model.name, model.checks, i as int, row@, context.deep_view()),
        decreases table.checks.len() - i,
    {
        assert(model.checks[i as int] == table.checks[i as int]@);
        let value = eval(&table.checks[i], row, context)?;
        let known = truth(&value)?;
        if known == Some(false) {
            return Err(
                err(
                    "ConstraintViolation",
                    cat3("CHECK constraint on ", table.name.as_str(), " failed").as_str(),
                ),
            );
        }
        i += 1;
    }
    Ok(())
}

/// The number that an identity column gives to a row.
pub open spec fn identity_number(identity: Identity, row_id: u64) -> Outcome<Json> {
    let ordinal = if row_id == 0 {
        0
    } else {
        row_id - 1
    };
    if ordinal <= i64::MAX && in_range(ordinal * identity.increment) is Some && in_range(
        ordinal * identity.increment + identity.start,
    ) is Some {
        Ok(Json::Number(Num::Int((ordinal * identity.increment + identity.start) as i64)))
    } else {
        Err(failure("TypeError"@, "Identity integer overflow"@))
    }
}

/// The number that an identity column gives to a row.
pub fn identity_value(identity: &Identity, row_id: u64) -> (result: Result<Datum>)
    ensures
        outcome(result) == identity_number(*identity, row_id),
{
    let ordinal: u64 = if row_id == 0 {
        0
    } else {
        row_id - 1
    };
    if ordinal <= 9223372036854775807u64 {
        if let Some(scaled) = (ordinal as i64).checked_mul(identity.increment) {
            if let Some(number) = scaled.checked_add(identity.start) {
                return Ok(Datum::integer(number));
            }
        }
    }
    Err(err("TypeError", "Identity integer overflow"))
}

/// The identity that the options from position `from` on describe.
pub open spec fn identity_from(
    options: Json,
    from: int,
    identity: Identity,
    caller: AuthModel,
) -> Outcome<Identity>
    decreases items(options).len() - from,
{
    if from < 0 || from >= items(options).len() {
        Ok(identity)
    } else {
        let option = items(options)[from];
        if tag(option) == "StartWith"@ {
            match evaluated(item(payload(option), 0), Seq::empty(), caller) {
                Err(error) => Err(error),
                Ok(value) => match as_int(value) {
                    Some(n) => identity_from(
                        options,
                        from + 1,
                        (Identity { start: n, ..identity }),
                        caller,
                    ),
                    None => Err(failure("TypeError"@, "Identity START requires integer"@)),
                },
            }
        } else if tag(option) == "IncrementBy"@ {
            match evaluated(item(payload(option), 0), Seq::empty(), caller) {
                Err(error) => Err(error),
                Ok(value) => if as_int(value) is Some && as_int(value)->0 != 0 {
                    identity_from(
                        options,
                        from + 1,
                        (Identity { increment: as_int(value)->0, ..identity }),
                        caller,
                    )
                } else {
                    Err(failure("TypeError"@, "Identity INCREMENT requires a nonzero integer"@))
                },
            }
        } else if (tag(option) == "MinValue"@ || tag(option) == "MaxValue"@) && tag(payload(option))
            == "Empty"@ {
            identity_from(options, from + 1, identity, caller)
        } else {
            Err(unsupported_failure("Identity MIN/MAX/CACHE/CYCLE options"@))
        }
    }
}

pub open spec fn integer_type(name: Seq<char>) -> bool {
    name == "smallint"@ || name == "int2"@ || name == "int"@ || name == "integer"@ || name == "int4"@ || name
        == "bigint"@ || name == "int8"@
}

/// The column with a GENERATED declaration added.
pub open spec fn generated_column(column: ColumnModel, option: Json, caller: AuthModel) -> Outcome<ColumnModel> {
    let expr = child(option, "generation_expr"@);
    let options = child(option, "sequence_options"@);
    if column.generated is Some || column.identity is Some {
        Err(failure("SyntaxError"@, "Duplicate generated column declaration"@))
    } else if expr !is Null {
        if options !is Null {
            Err(unsupported_failure("Generated expression sequence options"@))
        } else {
            Ok(ColumnModel { generated: Some(expr), ..column })
        }
    } else if !integer_type(column.data_type) {
        Err(failure("TypeError"@, "Identity requires an integer column"@))
    } else {
        match identity_from(
            options,
            0,
            (Identity {
                always: tag(child(option, "generated_as"@)) == "Always"@,
                start: 1,
                increment: 1,
            }),
            caller,
        ) {
            Err(error) => Err(error),
            Ok(identity) => Ok(ColumnModel { identity: Some(identity), nullable: false, ..column }),
        }
    }
}

impl DeepView for Identity {
    type V = Identity;

    open spec fn deep_view(&self) -> Identity {
        *self
    }
}

fn read_identity(options: &Datum, always: bool, context: &AuthContext) -> (result: Result<Identity>)
    ensures
        outcome(result) == identity_from(
            options@,
            0,
            (Identity { always, start: 1, increment: 1 }),
            context.deep_view(),
        ),
{
    let mut identity = Identity { always, start: 1, increment: 1 };
    let none: Cells = OrdMap::new();
    let count: usize = options.count();
    let mut i: usize = 0;
    while i < count
        invariant
            i <= count == items(options@).len(),
            none@ == Seq::<(Seq<char>, Json)>::empty(),
            identity_from(
                options@,
                0,
                (Identity { always, start: 1, increment: 1 }),
                context.deep_view(),
            ) == identity_from(options@, i as int, identity, context.deep_view()),
        decreases count - i,
    {
        let option = options.item(i);
        if option.is("StartWith") {
            let value = eval(option.payload().item(0), &none, context)?;
            match value.as_i64() {
                Some(n) => {
                    identity = Identity { always: identity.always, start: n, increment: identity.increment };
                },
                None => {
                    return Err(err("TypeError", "Identity START requires integer"));
                },
            }
        } else if option.is("IncrementBy") {
            let value = eval(option.payload().item(0), &none, context)?;
            match value.as_i64() {
                Some(n) => {
                    if n == 0 {
                        return Err(err("TypeError", "Identity INCREMENT requires a nonzero integer"));
                    }
                    identity = Identity { always: identity.always, start: identity.start, increment: n };
                },
                None => {
                    return Err(err("TypeError", "Identity INCREMENT requires a nonzero integer"));
                },
            }
        } else if (option.is("MinValue") || option.is("MaxValue")) && option.payload().is("Empty") {
        } else {
            return Err(unsupported("Identity MIN/MAX/CACHE/CYCLE options"));
        }
        i += 1;
    }
    Ok(identity)
}

fn is_integer_type(name: &str) -> (result: bool)
    ensures
        result == integer_type(name@),
{
    same(name, "smallint") || same(name, "int2") || same(name, "int") || same(name, "integer") || same(
        name,
        "int4",
    ) || same(name, "bigint") || same(name, "int8")
}

/// Adds a GENERATED declaration to a column.
pub fn configure_generated(column: Column, option: &Datum, context: &AuthContext) -> (result: Result<Column>)
    ensures
        outcome(result) == generated_column(column.deep_view(), option@, context.deep_view()),
{
    let expr = option.child("generation_expr");
    let options = option.child("sequence_options");
    if column.generated.is_some() || column.identity.is_some() {
        return Err(err("SyntaxError", "Duplicate generated column declaration"));
    }
    let mut column = column;
    if !expr.is_null() {
        if !options.is_null() {
            return Err(unsupported("Generated expression sequence options"));
        }
        column.generated = Some(expr.copied());
    } else {
        if !is_integer_type(column.data_type.as_str()) {
            return Err(err("TypeError", "Identity requires an integer column"));
        }
        let identity = read_identity(options, option.child("generated_as").is("Always"), context)?;
        column.identity = Some(identity);
        column.nullable = false;
    }
    Ok(column)
}

/// The row with the generated columns from position `from` on computed from `base`.
pub open spec fn regenerated_from(
    columns: Seq<ColumnModel>,
    from: int,
    base: CellsModel,
    row: CellsModel,
    caller: AuthModel,
) -> Outcome<CellsModel>
    decreases columns.len() - from,
{
    if from < 0 || from >= columns.len() {
        Ok(row)
    } else {
        match columns[from].generated {
            None => regenerated_from(columns, from + 1, base, row, caller),
            Some(expr) => match evaluated(expr, base, caller) {
                Err(error) => Err(error),
                Ok(value) => regenerated_from(
                    columns,
                    from + 1,
                    base,
                    put(row, columns[from].name, value),
                    caller,
                ),
            },
        }
    }
}

/// The row with its generated columns computed anew.
pub open spec fn regenerated(columns: Seq<ColumnModel>, row: CellsModel, caller: AuthModel) -> Outcome<CellsModel> {
    regenerated_from(columns, 0, row, row, caller)
}

/// Computes the generated columns of a row anew.
#[verifier::loop_isolation(false)]
pub fn recompute_generated(columns: &Vec<Column>, cells: Cells, context: &AuthContext) -> (result: Result<Cells>)
    ensures
        outcome(result) == regenerated(columns.deep_view(), cells@, context.deep_view()),
{
    let base = cells.replica();
    let mut row = cells;
    let mut i: usize = 0;
    let ghost model = columns.deep_view();
    while i < columns.len()
        invariant
            i <= columns.len(),
            model == columns.deep_view(),
            regenerated(model, base@, context.deep_view()) == regenerated_from(
                model,
                i as int,
                base@,
                row@,
                context.deep_view(),
            ),
        decreases columns.len() - i,
    {
        assert(model[i as int] == columns[i as int].deep_view());
        if let Some(expr) = &columns[i].generated {
            let value = eval(expr, &base, context)?;
            row.insert(columns[i].name.clone(), value);
        }
        i += 1;
    }
    Ok(row)
}

/// The value of a default expression; null where there is none.
pub open spec fn default_of(default: Option<Json>, caller: AuthModel) -> Outcome<Json> {
    match default {
        Some(expr) => evaluated(expr, Seq::empty(), caller),
        None => Ok(Json::Null),
    }
}

/// The value of a default expression; null where there is none.
pub fn default_value(default: &Option<Expr>, context: &AuthContext) -> (result: Result<Datum>)
    ensures
        outcome(result) == default_of(default.deep_view(), context.deep_view()),
{
    match default {
        Some(expr) => {
            let none: Cells = OrdMap::new();
            eval(expr, &none, context)
        },
        None => Ok(Datum::Null),
    }
}

/// The row with one assignment of an UPDATE made.
pub open spec fn assigned(
    columns: Seq<ColumnModel>,
    row: CellsModel,
    name: Seq<char>,
    expr: Json,
    scope: CellsModel,
    caller: AuthModel,
) -> Outcome<CellsModel> {
    match column_named(columns, name) {
        None => Err(failure("UndefinedColumn"@, name)),
        Some(column) => if column.generated is Some {
            if default_word(expr) {
                Ok(row)
            } else {
                Err(failure("ConstraintViolation"@, name + " is GENERATED ALWAYS"@))
            }
        } else if column.identity is Some && default_word(expr) {
            Err(
                unsupported_failure(
                    "UPDATE identity DEFAULT requires an independent identity allocator"@,
                ),
            )
        } else if column.identity is Some && column.identity->0.always {
            Err(failure("ConstraintViolation"@, name + " is GENERATED ALWAYS"@))
        } else {
            let value = if default_word(expr) {
                default_of(column.default, caller)
            } else {
                evaluated(expr, scope, caller)
            };
            match value {
                Err(error) => Err(error),
                Ok(found) => Ok(put(row, name, found)),
            }
        },
    }
}

/// Makes one assignment of an UPDATE.
pub fn assign_value(
    columns: &Vec<Column>,
    row: Cells,
    name: &str,
    expr: &Expr,
    scope: &Cells,
    context: &AuthContext,
) -> (result: Result<Cells>)
    ensures
        outcome(result) == assigned(
            columns.deep_view(),
            row@,
            name@,
            expr@,
            scope@,
            context.deep_view(),
        ),
{
    let spot: usize = find_column(columns, name);
    if spot >= columns.len() {
        return Err(err("UndefinedColumn", name));
    }
    let column = &columns[spot];
    assert(columns.deep_view()[spot as int] == column.deep_view());
    if column.generated.is_some() {
        return if is_default(expr) {
            Ok(row)
        } else {
            Err(err("ConstraintViolation", cat2(name, " is GENERATED ALWAYS").as_str()))
        };
    }
    if let Some(identity) = &column.identity {
        if is_default(expr) {
            return Err(
                unsupported("UPDATE identity DEFAULT requires an independent identity allocator"),
            );
        }
        if identity.always {
            return Err(err("ConstraintViolation", cat2(name, " is GENERATED ALWAYS").as_str()));
        }
    }
    let value = if is_default(expr) {
        default_value(&column.default, context)?
    } else {
        eval(expr, scope, context)?
    };
    let mut row = row;
    row.insert(owned(name), value);
    Ok(row)
}

// ---------------------------------------------------------------------------------------------
// Row-level security
// ---------------------------------------------------------------------------------------------

/// Whether a policy speaks of a command for a caller.
pub open spec fn applicable(policy: PolicyModel, command: Seq<char>, caller: AuthModel) -> bool {
    (policy.command == "ALL"@ || policy.command == command) && (listed(policy.roles, "public"@) || listed(
        policy.roles,
        caller.role,
    ))
}

/// The expression where there is one, else null.
pub open spec fn or_null(expr: Option<Json>) -> Json {
    match expr {
        Some(tree) => tree,
        None => Json::Null,
    }
}

/// The predicate of a policy: for new rows its check, else what it uses.
pub open spec fn policy_predicate(policy: PolicyModel, check: bool) -> Json {
    if check && policy.check is Some {
        policy.check->0
    } else {
        or_null(policy.using)
    }
}

/// Whether the policies from position `from` on allow a row, given what earlier ones said.
pub open spec fn permitted_from(
    policies: Seq<PolicyModel>,
    from: int,
    permissive: bool,
    restrictive: bool,
    command: Seq<char>,
    row: CellsModel,
    caller: AuthModel,
    check: bool,
) -> Outcome<bool>
    decreases policies.len() - from,
{
    if from < 0 || from >= policies.len() {
        Ok(permissive && restrictive)
    } else if !applicable(policies[from], command, caller) {
        permitted_from(policies, from + 1, permissive, restrictive, command, row, caller, check)
    } else {
        match satisfied(policy_predicate(policies[from], check), row, caller) {
            Err(error) => Err(error),
            Ok(matched) => if policies[from].permissive {
                permitted_from(
                    policies,
                    from + 1,
                    permissive || matched,
                    restrictive,
                    command,
                    row,
                    caller,
                    check,
                )
            } else {
                permitted_from(
                    policies,
                    from + 1,
                    permissive,
                    restrictive && matched,
                    command,
                    row,
                    caller,
                    check,
                )
            },
        }
    }
}

/// Whether row-level security lets a caller run a command on a row.
pub open spec fn permitted(
    table: TableModel,
    command: Seq<char>,
    row: CellsModel,
    caller: AuthModel,
    check: bool,
) -> Outcome<bool> {
    if caller.privileged || !table.rls_enabled {
        Ok(true)
    } else {
        permitted_from(table.policies, 0, false, true, command, row, caller, check)
    }
}

/// A privileged caller is never held back.
pub proof fn privileged_bypasses(
    table: TableModel,
    command: Seq<char>,
    row: CellsModel,
    caller: AuthModel,
    check: bool,
)
    requires
        caller.privileged,
    ensures
        permitted(table, command, row, caller, check) == Ok::<bool, Failure>(true),
{
}

/// Row-level security denies by default: without an applicable permissive policy that holds, no
/// row is allowed.
pub proof fn denied_by_default(
    table: TableModel,
    command: Seq<char>,
    row: CellsModel,
    caller: AuthModel,
    check: bool,
)
    requires
        table.rls_enabled,
        !caller.privileged,
        forall|i: int|
            0 <= i < table.policies.len() && (#[trigger] table.policies[i]).permissive && applicable(
                table.policies[i],
                command,
                caller,
            ) ==> satisfied(policy_predicate(table.policies[i], check), row, caller) != Ok::<bool, Failure>(
                true,
            ),
    ensures
        permitted(table, command, row, caller, check) != Ok::<bool, Failure>(true),
{
    denied_from(table.policies, 0, true, command, row, caller, check);
}

proof fn denied_from(
    policies: Seq<PolicyModel>,
    from: int,
    restrictive: bool,
    command: Seq<char>,
    row: CellsModel,
    caller: AuthModel,
    check: bool,
)
    requires
        0 <= from <= policies.len(),
        forall|i: int|
            0 <= i < policies.len() && (#[trigger] policies[i]).permissive && applicable(
                policies[i],
                command,
                caller,
            ) ==> satisfied(policy_predicate(policies[i], check), row, caller) != Ok::<bool, Failure>(true),
    ensures
        permitted_from(policies, from, false, restrictive, command, row, caller, check) != Ok::<
            bool,
            Failure,
        >(true),
    decreases policies.len() - from,
{
    if from < policies.len() {
        denied_from(policies, from + 1, restrictive, command, row, caller, check);
        denied_from(policies, from + 1, false, command, row, caller, check);
    }
}

/// A restrictive policy that applies and does not hold denies the row.
pub proof fn restricted_is_denied(
    table: TableModel,
    command: Seq<char>,
    row: CellsModel,
    caller: AuthModel,
    check: bool,
    i: int,
)
    requires
        table.rls_enabled,
        !caller.privileged,
        0 <= i < table.policies.len(),
        !table.policies[i].permissive,
        applicable(table.policies[i], command, caller),
        satisfied(policy_predicate(table.policies[i], check), row, caller) != Ok::<bool, Failure>(true),
    ensures
        permitted(table, command, row, caller, check) != Ok::<bool, Failure>(true),
{
    restricted_from(table.policies, 0, false, true, command, row, caller, check, i);
}

proof fn restricted_from(
    policies: Seq<PolicyModel>,
    from: int,
    permissive: bool,
    restrictive: bool,
    command: Seq<char>,
    row: CellsModel,
    caller: AuthModel,
    check: bool,
    i: int,
)
    requires
        0 <= from <= policies.len(),
        !restrictive || from <= i < policies.len() && !policies[i].permissive && applicable(
            policies[i],
            command,
            caller,
        ) && satisfied(policy_predicate(policies[i], check), row, caller) != Ok::<bool, Failure>(true),
    ensures
        permitted_from(policies, from, permissive, restrictive, command, row, caller, check) != Ok::<
            bool,
            Failure,
        >(true),
    decreases policies.len() - from,
{
    if from < policies.len() {
        if !applicable(policies[from], command, caller) {
            restricted_from(policies, from + 1, permissive, restrictive, command, row, caller, check, i);
        } else if let Ok(matched) = satisfied(policy_predicate(policies[from], check), row, caller) {
            if policies[from].permissive {
                restricted_from(
                    policies,
                    from + 1,
                    permissive || matched,
                    restrictive,
                    command,
                    row,
                    caller,
                    check,
                    i,
                );
            } else {
                restricted_from(
                    policies,
                    from + 1,
                    permissive,
                    restrictive && matched,
                    command,
                    row,
                    caller,
                    check,
                    i,
                );
            }
        }
    }
}

/// Whether a policy speaks of the command for the caller, and its predicate holds of the row.
pub open spec fn grants(
    policy: PolicyModel,
    command: Seq<char>,
    row: CellsModel,
    caller: AuthModel,
    check: bool,
) -> bool {
    applicable(policy, command, caller) && satisfied(policy_predicate(policy, check), row, caller) == Ok::<
        bool,
        Failure,
    >(true)
}

/// Whether some permissive policy at or after position `from` grants the row.
pub open spec fn some_grants(
    policies: Seq<PolicyModel>,
    from: int,
    command: Seq<char>,
    row: CellsModel,
    caller: AuthModel,
    check: bool,
) -> bool {
    exists|i: int|
        from <= i < policies.len() && (#[trigger] policies[i]).permissive && grants(
            policies[i],
            command,
            row,
            caller,
            check,
        )
}

/// Whether every restrictive policy at or after position `from` that applies grants the row.
pub open spec fn none_restricts(
    policies: Seq<PolicyModel>,
    from: int,
    command: Seq<char>,
    row: CellsModel,
    caller: AuthModel,
    check: bool,
) -> bool {
    forall|i: int|
        from <= i < policies.len() && !(#[trigger] policies[i]).permissive && applicable(
            policies[i],
            command,
            caller,
        ) ==> grants(policies[i], command, row, caller, check)
}

/// Policies compose: a row is allowed when some permissive policy grants it and no restrictive one
/// holds it back, unless the evaluation of a policy fails.
pub proof fn policies_compose(
    table: TableModel,
    command: Seq<char>,
    row: CellsModel,
    caller: AuthModel,
    check: bool,
)
    requires
        table.rls_enabled,
        !caller.privileged,
    ensures
        permitted(table, command, row, caller, check) matches Ok(allowed) ==> allowed == (some_grants(
            table.policies,
            0,
            command,
            row,
            caller,
            check,
        ) && none_restricts(table.policies, 0, command, row, caller, check)),
{
    composed_from(table.policies, 0, false, true, command, row, caller, check);
}

proof fn composed_from(
    policies: Seq<PolicyModel>,
    from: int,
    permissive: bool,
    restrictive: bool,
    command: Seq<char>,
    row: CellsModel,
    caller: AuthModel,
    check: bool,
)
    requires
        0 <= from,
    ensures
        permitted_from(policies, from, permissive, restrictive, command, row, caller, check) matches Ok(allowed)
            ==> allowed == ((permissive || some_grants(policies, from, command, row, caller, check)) && (restrictive
            && none_restricts(policies, from, command, row, caller, check))),
    decreases policies.len() - from,
{
    if from < policies.len() {
        let here = policies[from];
        let next = from + 1;
        assert(some_grants(policies, from, command, row, caller, check) == (here.permissive && grants(
            here,
            command,
            row,
            caller,
            check,
        ) || some_grants(policies, next, command, row, caller, check))) by {
            if some_grants(policies, from, command, row, caller, check) {
                let i = choose|i: int|
                    from <= i < policies.len() && (#[trigger] policies[i]).permissive && grants(
                        policies[i],
                        command,
                        row,
                        caller,
                        check,
                    );
                assert(policies[i].permissive);
            }
        }
        assert(none_restricts(policies, from, command, row, caller, check) == ((!here.permissive && applicable(
            here,
            command,
            caller,
        ) ==> grants(here, command, row, caller, check)) && none_restricts(
            policies,
            next,
            command,
            row,
            caller,
            check,
        )));
        if !applicable(here, command, caller) {
            composed_from(policies, next, permissive, restrictive, command, row, caller, check);
        } else {
            match satisfied(policy_predicate(here, check), row, caller) {
                Ok(matched) => {
                    if here.permissive {
                        composed_from(
                            policies,
                            next,
                            permissive || matched,
                            restrictive,
                            command,
                            row,
                            caller,
                            check,
                        );
                    } else {
                        composed_from(
                            policies,
                            next,
                            permissive,
                            restrictive && matched,
                            command,
                            row,
                            caller,
                            check,
                        );
                    }
                },
                Err(_) => {},
            }
        }
    }
}

fn applies(policy: &Policy, command: &str, context: &AuthContext) -> (result: bool)
    ensures
        result == applicable(policy.deep_view(), command@, context.deep_view()),
{
    (same(policy.command.as_str(), "ALL") || same(policy.command.as_str(), command)) && (is_listed(
        &policy.roles,
        "public",
    ) || is_listed(&policy.roles, context.role.as_str()))
}

fn predicate_of<'a>(policy: &'a Policy, check: bool) -> (result: &'a Datum)
    ensures
        result@ == policy_predicate(policy.deep_view(), check),
{
    if check {
        if let Some(expr) = &policy.check {
            return expr;
        }
    }
    match &policy.using {
        Some(expr) => expr,
        None => &Datum::Null,
    }
}

/// Whether row-level security lets a caller run a command on a row.
#[verifier::loop_isolation(false)]
pub fn allowed(table: &Table, command: &str, row: &Cells, context: &AuthContext, check: bool) -> (result:
    Result<bool>)
    ensures
        outcome(result) == permitted(table.deep_view(), command@, row@, context.deep_view(), check),
{
    if context.privileged || !table.rls_enabled {
        return Ok(true);
    }
    let mut permissive = false;
    let mut restrictive = true;
    let mut i: usize = 0;
    let ghost policies = table.policies.deep_view();
    let ghost caller = context.deep_view();
    while i < table.policies.len()
        invariant
            i <= table.policies.len(),
            policies == table.policies.deep_view(),
            caller == context.deep_view(),
            permitted_from(policies, 0, false, true, command@, row@, caller, check) == permitted_from(
                policies,
                i as int,
                permissive,
                restrictive,
                command@,
                row@,
                caller,
                check,
            ),
        decreases table.policies.len() - i,
    {
        assert(policies[i as int] == table.policies[i as int].deep_view());
        let policy = &table.policies[i];
        i += 1;
        if !applies(policy, command, context) {
            continue ;
        }
        let matched = predicate(predicate_of(policy, check), row, context)?;
        if policy.permissive {
            permissive = permissive || matched;
        } else {
            restrictive = restrictive && matched;
        }
    }
    Ok(permissive && restrictive)
}

// ---------------------------------------------------------------------------------------------
// Constraints of a state
// ---------------------------------------------------------------------------------------------

/// A row of nulls for the columns from position `from` on, added to `row`.
pub open spec fn sample_from(columns: Seq<ColumnModel>, from: int, row: CellsModel) -> CellsModel
    decreases columns.len() - from,
{
    if from < 0 || from >= columns.len() {
        row
    } else {
        sample_from(columns, from + 1, put(row, columns[from].name, Json::Null))
    }
}

/// A row of nulls, against which expressions are tried.
pub open spec fn sample_of(columns: Seq<ColumnModel>) -> CellsModel {
    sample_from(columns, 0, Seq::empty())
}

/// A row of nulls, against which expressions are tried.
pub fn sample(columns: &Vec<Column>) -> (result: Cells)
    ensures
        result@ == sample_of(columns.deep_view()),
{
    let mut row: Cells = OrdMap::new();
    let mut i: usize = 0;
    let ghost model = columns.deep_view();
    while i < columns.len()
        invariant
            i <= columns.len(),
            model == columns.deep_view(),
            sample_of(model) == sample_from(model, i as int, row@),
        decreases columns.len() - i,
    {
        assert(model[i as int] == columns[i as int].deep_view());
        row.insert(columns[i].name.clone(), Datum::Null);
        i += 1;
    }
    row
}

/// Whether some column of this name is generated.
pub open spec fn generated_name(columns: Seq<ColumnModel>, name: Seq<char>) -> bool {
    exists|i: int| 0 <= i < columns.len() && (#[trigger] columns[i]).name == name && columns[i].generated is Some
}

/// Whether an expression alone keeps another that it is a part of from being generated: a generated
/// column, or a call of a function other than COALESCE.
pub open spec fn impure_part(expr: Json, columns: Seq<ColumnModel>) -> bool {
    if expr !is Object {
        false
    } else if tag(expr) == "Identifier"@ {
        generated_name(columns, ident_name(payload(expr)))
    } else {
        tag(expr) == "Function"@ && function_name_of(child(payload(expr), "name"@)) != "coalesce"@
    }
}

/// Whether one of these expressions keeps what they are parts of from being generated.
pub open spec fn impure_among(parts: Seq<Json>, columns: Seq<ColumnModel>) -> bool {
    exists|i: int| 0 <= i < parts.len() && impure_part(#[trigger] parts[i], columns)
}

/// Whether some part of an expression keeps it from being generated.
pub open spec fn impure(expr: Json, columns: Seq<ColumnModel>) -> bool {
    impure_among(expressions_of(expr), columns)
}

#[verifier::loop_isolation(false)]
fn is_impure_part(expr: &Datum, columns: &Vec<Column>) -> (result: bool)
    ensures
        result == impure_part(expr@, columns.deep_view()),
{
    match expr {
        Datum::Object(_) => {
            if expr.is("Identifier") {
                let name = ident(expr.payload());
                let mut i: usize = 0;
                while i < columns.len()
                    invariant
                        i <= columns.len(),
                        forall|j: int|
                            0 <= j < i ==> !((#[trigger] columns.deep_view()[j]).name == name@
                                && columns.deep_view()[j].generated is Some),
                    decreases columns.len() - i,
                {
                    assert(columns.deep_view()[i as int] == columns[i as int].deep_view());
                    if same(columns[i].name.as_str(), name.as_str()) && columns[i].generated.is_some() {
                        return true;
                    }
                    i += 1;
                }
                false
            } else if expr.is("Function") {
                !same(function_name(expr.payload().child("name")).as_str(), "coalesce")
            } else {
                false
            }
        },
        _ => false,
    }
}

/// Whether one of these expressions keeps what they are parts of from being generated.
pub fn is_impure_among(parts: &Vec<Datum>, columns: &Vec<Column>) -> (result: bool)
    ensures
        result == impure_among(parts.deep_view(), columns.deep_view()),
{
    let ghost model = parts.deep_view();
    let mut i: usize = 0;
    while i < parts.len()
        invariant
            i <= parts.len(),
            model == parts.deep_view(),
            forall|j: int| 0 <= j < i ==> !impure_part(#[trigger] model[j], columns.deep_view()),
        decreases parts.len() - i,
    {
        assert(model[i as int] == parts[i as int]@);
        if is_impure_part(&parts[i], columns) {
            return true;
        }
        i += 1;
    }
    false
}

/// Whether some part of an expression keeps it from being generated.
pub fn is_impure(expr: &Expr, columns: &Vec<Column>) -> (result: bool)
    ensures
        result == impure(expr@, columns.deep_view()),
{
    is_impure_among(&expressions(expr), columns)
}

/// Whether an expression can be evaluated on a row at all.
pub open spec fn evaluates(expr: Json, row: CellsModel, caller: AuthModel) -> Outcome<()> {
    match evaluated(expr, row, caller) {
        Err(error) => Err(error),
        Ok(_) => Ok(()),
    }
}

/// Whether an expression is a predicate on a row at all.
pub open spec fn decides(expr: Json, row: CellsModel, caller: AuthModel) -> Outcome<()> {
    match evaluated(expr, row, caller) {
        Err(error) => Err(error),
        Ok(value) => match truth_of(value) {
            Err(error) => Err(error),
            Ok(_) => Ok(()),
        },
    }
}

/// Whether the generated columns from position `from` on have expressions that can be generated.
pub open spec fn generation_valid_from(columns: Seq<ColumnModel>, from: int, caller: AuthModel) -> Outcome<()>
    decreases columns.len() - from,
{
    if from < 0 || from >= columns.len() {
        Ok(())
    } else {
        followed(
            match columns[from].generated {
                None => Ok(()),
                Some(expr) => if impure(expr, columns) {
                    Err(
                        unsupported_failure(
                            "Generated expressions must be immutable and cannot reference generated columns"@,
                        ),
                    )
                } else {
                    evaluates(expr, sample_of(columns), caller)
                },
            },
            generation_valid_from(columns, from + 1, caller),
        )
    }
}

/// Whether the expressions from position `from` on are predicates.
pub open spec fn all_decide_from(exprs: Seq<Json>, from: int, row: CellsModel, caller: AuthModel) -> Outcome<()>
    decreases exprs.len() - from,
{
    if from < 0 || from >= exprs.len() {
        Ok(())
    } else {
        followed(decides(exprs[from], row, caller), all_decide_from(exprs, from + 1, row, caller))
    }
}

/// Whether an optional expression is a predicate.
pub open spec fn optional_decides(expr: Option<Json>, row: CellsModel, caller: AuthModel) -> Outcome<()> {
    match expr {
        None => Ok(()),
        Some(tree) => decides(tree, row, caller),
    }
}

/// Whether the policies from position `from` on have predicates.
pub open spec fn policies_decide_from(
    policies: Seq<PolicyModel>,
    from: int,
    row: CellsModel,
    caller: AuthModel,
) -> Outcome<()>
    decreases policies.len() - from,
{
    if from < 0 || from >= policies.len() {
        Ok(())
    } else {
        followed(
            followed(
                optional_decides(policies[from].using, row, caller),
                optional_decides(policies[from].check, row, caller),
            ),
            policies_decide_from(policies, from + 1, row, caller),
        )
    }
}

/// Whether the table has the columns from position `from` on.
pub open spec fn columns_required_from(table: TableModel, names: Seq<Seq<char>>, from: int) -> Outcome<()>
    decreases names.len() - from,
{
    if from < 0 || from >= names.len() {
        Ok(())
    } else {
        followed(column_required(table, names[from]), columns_required_from(table, names, from + 1))
    }
}

/// The cells of a row under the columns of a key.
pub open spec fn key_cells(row: CellsModel, key: Seq<Seq<char>>) -> Seq<Json> {
    Seq::new(key.len(), |i: int| cell_of(row, key[i]))
}

/// Whether one of the values is null.
pub open spec fn some_null(values: Seq<Json>) -> bool {
    exists|i: int| 0 <= i < values.len() && #[trigger] values[i] is Null
}

/// Whether two rows have the same key without nulls.
pub open spec fn same_key(a: CellsModel, b: CellsModel, key: Seq<Seq<char>>) -> bool {
    !some_null(key_cells(a, key)) && !some_null(key_cells(b, key)) && json_text_of(
        Json::Array(key_cells(a, key)),
    ) == json_text_of(Json::Array(key_cells(b, key)))
}

/// Whether two different rows have the same key.
pub open spec fn key_repeated(rows: Seq<(u64, RowModel)>, key: Seq<Seq<char>>) -> bool {
    exists|i: int, j: int|
        0 <= i < j < rows.len() && same_key(
            (#[trigger] rows[i]).1.values,
            (#[trigger] rows[j]).1.values,
            key,
        )
}

/// Whether a key names columns of the table and no two rows share it.
pub open spec fn key_valid(table: TableModel, key: Seq<Seq<char>>, last: bool) -> Outcome<()> {
    if key.len() == 0 {
        Ok(())
    } else {
        followed(
            columns_required_from(table, key, 0),
            if !last && has_key(table.deferred_unique, key) {
                Ok(())
            } else if key_repeated(table.rows, key) {
                Err(
                    failure(
                        "ConstraintViolation"@,
                        "Duplicate key in "@ + table.name + " ("@ + joined(key, ","@) + ")"@,
                    ),
                )
            } else {
                Ok(())
            },
        )
    }
}

/// Whether the unique keys from position `from` on are valid.
pub open spec fn keys_valid_from(table: TableModel, from: int, last: bool) -> Outcome<()>
    decreases table.unique.len() - from,
{
    if from < 0 || from >= table.unique.len() {
        Ok(())
    } else {
        followed(key_valid(table, table.unique[from], last), keys_valid_from(table, from + 1, last))
    }
}

/// Whether the rows from position `from` on are valid.
pub open spec fn rows_checked_from(table: TableModel, from: int, caller: AuthModel) -> Outcome<()>
    decreases table.rows.len() - from,
{
    if from < 0 || from >= table.rows.len() {
        Ok(())
    } else {
        followed(
            row_checked(table, table.rows[from].1.values, caller),
            rows_checked_from(table, from + 1, caller),
        )
    }
}

/// Whether two lists of values are equal as JSON.
pub open spec fn same_values(a: Seq<Json>, b: Seq<Json>) -> bool {
    a.len() == b.len() && forall|i: int| 0 <= i < a.len() ==> same_json(#[trigger] a[i], b[i])
}

/// Whether a foreign key of a row is null or finds its row in the target.
pub open spec fn reference_found(
    row: CellsModel,
    columns: Seq<Seq<char>>,
    target: TableModel,
    referred: Seq<Seq<char>>,
) -> bool {
    some_null(key_cells(row, columns)) || exists|i: int|
        0 <= i < target.rows.len() && same_values(
            key_cells((#[trigger] target.rows[i]).1.values, referred),
            key_cells(row, columns),
        )
}

/// The columns that a foreign key refers to: the target's primary key where it names none.
pub open spec fn referred_key(key: ForeignKeyModel, target: TableModel) -> Seq<Seq<char>> {
    if key.referred_columns.len() == 0 {
        target.primary_key
    } else {
        key.referred_columns
    }
}

/// Whether some unique key of the table is this one.
pub open spec fn unique_listed(unique: Seq<Seq<Seq<char>>>, key: Seq<Seq<char>>) -> bool {
    exists|i: int| 0 <= i < unique.len() && #[trigger] unique[i] == key
}

/// Whether a foreign key is well formed and every row's reference is found.
pub open spec fn foreign_key_valid(
    database: DatabaseModel,
    table: TableModel,
    key: ForeignKeyModel,
    last: bool,
) -> Outcome<()> {
    match table_of(database, key.foreign_table) {
        Err(error) => Err(error),
        Ok(target) => {
            let referred = referred_key(key, target);
            if referred.len() == 0 || referred.len() != key.columns.len() {
                Err(failure("ConstraintViolation"@, "Foreign-key arity differs"@))
            } else {
                followed(
                    columns_required_from(table, key.columns, 0),
                    followed(
                        columns_required_from(target, referred, 0),
                        if referred != target.primary_key && !unique_listed(target.unique, referred) {
                            Err(
                                failure(
                                    "ConstraintViolation"@,
                                    "Foreign key target must be a primary or unique key"@,
                                ),
                            )
                        } else if !last && key.deferred {
                            Ok(())
                        } else if exists|i: int|
                            0 <= i < table.rows.len() && !reference_found(
                                (#[trigger] table.rows[i]).1.values,
                                key.columns,
                                target,
                                referred,
                            ) {
                            Err(
                                failure(
                                    "ConstraintViolation"@,
                                    "Foreign key from "@ + table.name + " to "@ + target.name + " failed"@,
                                ),
                            )
                        } else {
                            Ok(())
                        },
                    ),
                )
            }
        },
    }
}

/// Whether the foreign keys from position `from` on are valid.
pub open spec fn foreign_keys_valid_from(
    database: DatabaseModel,
    table: TableModel,
    from: int,
    last: bool,
) -> Outcome<()>
    decreases table.foreign_keys.len() - from,
{
    if from < 0 || from >= table.foreign_keys.len() {
        Ok(())
    } else {
        followed(
            foreign_key_valid(database, table, table.foreign_keys[from], last),
            foreign_keys_valid_from(database, table, from + 1, last),
        )
    }
}

/// Whether the expressions of a table can be evaluated.
pub open spec fn expressions_valid(table: TableModel, caller: AuthModel) -> Outcome<()> {
    followed(
        generation_valid_from(table.columns, 0, caller),
        followed(
            all_decide_from(table.checks, 0, sample_of(table.columns), caller),
            policies_decide_from(table.policies, 0, sample_of(table.columns), caller),
        ),
    )
}

/// Whether a table meets its constraints; `last` also asks for the deferred ones.
pub open spec fn table_valid(database: DatabaseModel, table: TableModel, caller: AuthModel, last: bool) -> Outcome<
    (),
> {
    followed(
        expressions_valid(table, caller),
        followed(
            keys_valid_from(table, 0, last),
            followed(
                key_valid(table, table.primary_key, last),
                followed(
                    rows_checked_from(table, 0, caller),
                    foreign_keys_valid_from(database, table, 0, last),
                ),
            ),
        ),
    )
}

/// Whether the tables from position `from` on meet their constraints.
pub open spec fn tables_valid_from(database: DatabaseModel, from: int, caller: AuthModel, last: bool) -> Outcome<()>
    decreases database.catalog.len() - from,
{
    if from < 0 || from >= database.catalog.len() {
        Ok(())
    } else {
        followed(
            table_valid(database, database.catalog[from].1, caller, last),
            tables_valid_from(database, from + 1, caller, last),
        )
    }
}

/// Whether a state meets its constraints; `last` also asks for the deferred ones.
pub open spec fn database_valid(database: DatabaseModel, caller: AuthModel, last: bool) -> Outcome<()> {
    tables_valid_from(database, 0, caller, last)
}

} // verus!
