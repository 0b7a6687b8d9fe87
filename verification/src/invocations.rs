//! What a call of a function runs with, and what it gives back.

use vstd::prelude::*;
use crate::calls::{
    argument_value, arguments_known_from, bindings_from, call_prepared, declared_cells_from, declared_rows_from,
    scalars_from, shaped, table_cells_from, table_rows_from, value_expression,
};
use crate::catalog::{
    local_name, AuthModel, CellsModel, ColumnModel, DatabaseModel, FunctionModel, ParameterModel, ReturnModel,
};
use crate::error::Failure;
use crate::eval::evaluated;
use crate::json::Json;
use crate::meaning::{literals_have_their_values, valued};
use crate::ordmap::{get, get_after_put, put, put_keeps_order, sorted};
use crate::text::decimal;

verus! {

// ---------------------------------------------------------------------------------------------
// Arguments
// ---------------------------------------------------------------------------------------------

/// Whether a value is that of a parameter: the argument of its name, else the value of its default.
pub open spec fn given_value(parameter: ParameterModel, args: CellsModel, caller: AuthModel, value: Json) -> bool {
    match get(args, parameter.name) {
        Some(argument) => value == argument,
        None => parameter.default matches Some(expr) && evaluated(expr, Seq::empty(), caller) == Ok::<Json, Failure>(value),
    }
}

/// Whether the body names a parameter so: by its name, by its number, or by its name after that of the
/// function.
pub open spec fn calls_it(function: FunctionModel, i: int, key: Seq<char>) -> bool {
    ||| key == function.parameters[i].name
    ||| key == "$"@ + decimal((i + 1) as nat)
    ||| key == function.name + "."@ + function.parameters[i].name
}

/// Whether a parameter is the last among the first `count` that the body names so.
pub open spec fn last_called(function: FunctionModel, i: int, key: Seq<char>, count: int) -> bool {
    &&& 0 <= i < count <= function.parameters.len()
    &&& calls_it(function, i, key)
    &&& forall|j: int| i < j < count ==> !#[trigger] calls_it(function, j, key)
}

/// Whether an expression stands for the value of a parameter.
pub open spec fn stands_for(parameter: ParameterModel, args: CellsModel, caller: AuthModel, expr: Json) -> bool {
    exists|value: Json| #[trigger]
        given_value(parameter, args, caller, value) && value_expression(value) == Ok::<Json, Failure>(expr)
}

/// Whether bindings are those of the first `count` parameters: every name of each stands for its value, and
/// nothing else is bound.
pub open spec fn binds(function: FunctionModel, args: CellsModel, caller: AuthModel, bound: CellsModel, count: int) -> bool {
    &&& sorted(bound)
    &&& forall|i: int, key: Seq<char>|
        #[trigger] last_called(function, i, key, count) ==> (get(bound, key) matches Some(expr) && stands_for(
            function.parameters[i],
            args,
            caller,
            expr,
        ))
    &&& forall|key: Seq<char>|
        (#[trigger] get(bound, key)) is Some ==> exists|i: int| #[trigger] last_called(function, i, key, count)
}

proof fn one_more_bound(
    function: FunctionModel,
    args: CellsModel,
    caller: AuthModel,
    bound: CellsModel,
    next: CellsModel,
    expr: Json,
    from: int,
)
    requires
        0 <= from < function.parameters.len(),
        binds(function, args, caller, bound, from),
        stands_for(function.parameters[from], args, caller, expr),
        sorted(next),
        forall|key: Seq<char>| #[trigger]
            get(next, key) == (if calls_it(function, from, key) {
                Some(expr)
            } else {
                get(bound, key)
            }),
    ensures
        binds(function, args, caller, next, from + 1),
{
    assert forall|i: int, key: Seq<char>| #[trigger] last_called(function, i, key, from + 1) implies (get(next, key) matches Some(
        found,
    ) && stands_for(function.parameters[i], args, caller, found)) by {
        if i < from {
            assert(!calls_it(function, from, key));
            assert(last_called(function, i, key, from));
            assert(get(next, key) == get(bound, key));
        } else {
            assert(get(next, key) == Some(expr));
        }
    }
    assert forall|key: Seq<char>| (#[trigger] get(next, key)) is Some implies exists|i: int| #[trigger]
        last_called(function, i, key, from + 1) by {
        if calls_it(function, from, key) {
            assert(last_called(function, from, key, from + 1));
        } else {
            assert(get(bound, key) is Some);
            let i = choose|i: int| #[trigger] last_called(function, i, key, from);
            assert(last_called(function, i, key, from + 1));
        }
    }
}

proof fn parameters_are_bound(function: FunctionModel, from: int, args: CellsModel, bound: CellsModel, caller: AuthModel)
    requires
        0 <= from <= function.parameters.len(),
        binds(function, args, caller, bound, from),
    ensures
        bindings_from(function, from, args, bound, caller) matches Ok(done) ==> binds(
            function,
            args,
            caller,
            done,
            function.parameters.len() as int,
        ),
    decreases function.parameters.len() - from,
{
    if from < function.parameters.len() {
        let parameter = function.parameters[from];
        match bindings_from(function, from, args, bound, caller) {
            Err(_) => {},
            Ok(_) => {
                let value = argument_value(parameter, args, caller)->Ok_0;
                let expr = value_expression(value)->Ok_0;
                let number = "$"@ + decimal((from + 1) as nat);
                let full = function.name + "."@ + parameter.name;
                let a = put(bound, parameter.name, expr);
                let b = put(a, number, expr);
                let next = put(b, full, expr);
                put_keeps_order(bound, parameter.name, expr);
                put_keeps_order(a, number, expr);
                put_keeps_order(b, full, expr);
                assert(given_value(parameter, args, caller, value));
                assert forall|key: Seq<char>| #[trigger] get(next, key) == (if calls_it(function, from, key) {
                    Some(expr)
                } else {
                    get(bound, key)
                }) by {
                    get_after_put(bound, parameter.name, expr, key);
                    get_after_put(a, number, expr, key);
                    get_after_put(b, full, expr, key);
                }
                one_more_bound(function, args, caller, bound, next, expr, from);
                parameters_are_bound(function, from + 1, args, next, caller);
            },
        }
    }
}

proof fn arguments_are_known(args: CellsModel, from: int, parameters: Seq<ParameterModel>, k: int)
    requires
        0 <= from <= k < args.len(),
        arguments_known_from(args, from, parameters) is Ok,
    ensures
        exists|i: int| 0 <= i < parameters.len() && (#[trigger] parameters[i]).name == args[k].0,
    decreases k - from,
{
    if from < k {
        arguments_are_known(args, from + 1, parameters, k);
    }
}

/// A call is of the function of its name, with arguments that it has parameters for. The body runs with the
/// authority of the caller, or with the role and the privilege of the definer where the function says so; who
/// calls stays known. Each parameter stands for its argument, else for its default; one without either is
/// refused.
pub proof fn calls_run_with_their_arguments(database: DatabaseModel, name: Seq<char>, args: Json, caller: AuthModel)
    ensures
        call_prepared(database, name, args, caller) matches Ok((function, effective, list)) ==> {
            &&& get(database.functions, local_name(name)) == Some(function)
            &&& args is Object
            &&& forall|k: int|
                0 <= k < args->Object_0.len() ==> exists|i: int|
                    0 <= i < function.parameters.len() && (#[trigger] function.parameters[i]).name == (
                    #[trigger] args->Object_0[k]).0
            &&& effective.uid == caller.uid && effective.jwt_claims == caller.jwt_claims
            &&& if function.security_definer {
                function.definer_context matches Some(definer) && effective.role == definer.role && effective.privileged
                    == definer.privileged
            } else {
                effective == caller
            }
            &&& exists|bound: CellsModel| #[trigger]
                binds(function, args->Object_0, caller, bound, function.parameters.len() as int) && (
                crate::ast::statements_of(function.body) matches Ok(body) && list.len() == body.len() && forall|i: int|
                    0 <= i < list.len() ==> #[trigger] list[i] == crate::ast::substituted(body[i], bound, true))
        },
{
    match call_prepared(database, name, args, caller) {
        Err(_) => {},
        Ok((function, effective, list)) => {
            let given = args->Object_0;
            assert forall|k: int| 0 <= k < given.len() implies exists|i: int|
                0 <= i < function.parameters.len() && (#[trigger] function.parameters[i]).name == (#[trigger] given[k]).0 by {
                arguments_are_known(given, 0, function.parameters, k);
            }
            parameters_are_bound(function, 0, given, Seq::empty(), caller);
            let bound = bindings_from(function, 0, given, Seq::empty(), caller)->Ok_0;
            assert(binds(function, given, caller, bound, function.parameters.len() as int));
        },
    }
}

/// The expression of a null, a boolean or a text has the value that it stands for, whatever the row.
pub proof fn arguments_stand_for_themselves(value: Json, row: CellsModel, caller: AuthModel)
    requires
        value is Null || value is Bool || value is String,
    ensures
        value_expression(value) matches Ok(expr) && valued(expr, value, row, caller),
{
    reveal_strlit("Value");
    let expr = value_expression(value)->Ok_0;
    literals_have_their_values(expr, row, caller);
}

// ---------------------------------------------------------------------------------------------
// Results
// ---------------------------------------------------------------------------------------------

/// The value of a row of one column, or the row itself where it is no object.
pub open spec fn lone(row: Json) -> Json {
    if row is Object {
        row->Object_0[0].1
    } else {
        row
    }
}

/// Whether a row has no more than one column, and no fewer.
pub open spec fn single(row: Json) -> bool {
    row is Object ==> row->Object_0.len() == 1
}

proof fn scalars_are_lone(ty: Seq<char>, rows: Seq<Json>, from: int, done: Seq<Json>)
    requires
        0 <= from <= rows.len(),
        done.len() == from,
        forall|i: int| 0 <= i < from ==> single(rows[i]) && #[trigger] done[i] == lone(rows[i]),
    ensures
        scalars_from(ty, rows, from, done) matches Ok(all) ==> all.len() == rows.len() && forall|i: int|
            0 <= i < all.len() ==> single(rows[i]) && #[trigger] all[i] == lone(rows[i]),
    decreases rows.len() - from,
{
    if from < rows.len() {
        if single(rows[from]) {
            scalars_are_lone(ty, rows, from + 1, done.push(lone(rows[from])));
        }
    }
}

/// Whether a row has just the columns of a list of names.
pub open spec fn has_columns(row: Json, names: Seq<Seq<char>>) -> bool {
    row is Object && row->Object_0.len() == names.len() && forall|p: int|
        0 <= p < names.len() ==> get(row->Object_0, #[trigger] names[p]) is Some
}

proof fn declared_cells_are_there(row: CellsModel, columns: Seq<(Seq<char>, Seq<char>)>, from: int, p: int)
    requires
        0 <= from <= p < columns.len(),
        declared_cells_from(row, columns, from) is Ok,
    ensures
        get(row, columns[p].0) is Some,
    decreases p - from,
{
    if from < p {
        declared_cells_are_there(row, columns, from + 1, p);
    }
}

proof fn declared_rows_are_whole(rows: Seq<Json>, columns: Seq<(Seq<char>, Seq<char>)>, from: int, i: int)
    requires
        0 <= from <= i < rows.len(),
        declared_rows_from(rows, columns, from) is Ok,
    ensures
        has_columns(rows[i], Seq::new(columns.len(), |p: int| columns[p].0)),
    decreases i - from,
{
    if from < i {
        declared_rows_are_whole(rows, columns, from + 1, i);
    } else {
        let names = Seq::new(columns.len(), |p: int| columns[p].0);
        assert forall|p: int| 0 <= p < names.len() implies get(rows[i]->Object_0, #[trigger] names[p]) is Some by {
            declared_cells_are_there(rows[i]->Object_0, columns, 0, p);
        }
    }
}

proof fn table_cells_are_there(row: CellsModel, columns: Seq<ColumnModel>, from: int, p: int)
    requires
        0 <= from <= p < columns.len(),
        table_cells_from(row, columns, from) is Ok,
    ensures
        get(row, columns[p].name) is Some,
    decreases p - from,
{
    if from < p {
        table_cells_are_there(row, columns, from + 1, p);
    }
}

proof fn table_rows_are_whole(rows: Seq<Json>, columns: Seq<ColumnModel>, from: int, i: int)
    requires
        0 <= from <= i < rows.len(),
        table_rows_from(rows, columns, from) is Ok,
    ensures
        has_columns(rows[i], Seq::new(columns.len(), |p: int| columns[p].name)),
    decreases i - from,
{
    if from < i {
        table_rows_are_whole(rows, columns, from + 1, i);
    } else {
        let names = Seq::new(columns.len(), |p: int| columns[p].name);
        assert forall|p: int| 0 <= p < names.len() implies get(rows[i]->Object_0, #[trigger] names[p]) is Some by {
            table_cells_are_there(rows[i]->Object_0, columns, 0, p);
        }
    }
}

/// A call gives back what its function declares of the rows of its last statement: nothing; the only value
/// of the only row, null where there is none; all rows, or the value of each. More rows, other columns or
/// other types are refused.
pub proof fn calls_give_what_is_declared(database: DatabaseModel, kind: ReturnModel, rows: Seq<Json>)
    ensures
        shaped(database, kind, rows) matches Ok(all) ==> match kind {
            ReturnModel::Void => all.len() == 1 && all[0] is Null,
            ReturnModel::Scalar(_) => all.len() == 1 && if rows.len() == 0 {
                all[0] is Null
            } else {
                rows.len() == 1 && single(rows[0]) && all[0] == lone(rows[0])
            },
            ReturnModel::SetOf(ty) => all.len() == rows.len() && if crate::scalar::type_supported(ty) is Ok {
                forall|i: int| 0 <= i < all.len() ==> single(rows[i]) && #[trigger] all[i] == lone(rows[i])
            } else {
                all == rows && (crate::catalog::table_of(database, ty) matches Ok(table) && forall|i: int|
                    0 <= i < rows.len() ==> has_columns(
                        #[trigger] rows[i],
                        Seq::new(table.columns.len(), |p: int| table.columns[p].name),
                    ))
            },
            ReturnModel::Table(columns) => all == rows && forall|i: int|
                0 <= i < rows.len() ==> has_columns(
                    #[trigger] rows[i],
                    Seq::new(columns.len(), |p: int| columns[p].0),
                ),
        },
{
    match kind {
        ReturnModel::SetOf(ty) => {
            scalars_are_lone(ty, rows, 0, Seq::empty());
            match crate::catalog::table_of(database, ty) {
                Err(_) => {},
                Ok(table) => {
                    if table_rows_from(rows, table.columns, 0) is Ok {
                        assert forall|i: int| 0 <= i < rows.len() implies has_columns(
                            #[trigger] rows[i],
                            Seq::new(table.columns.len(), |p: int| table.columns[p].name),
                        ) by {
                            table_rows_are_whole(rows, table.columns, 0, i);
                        }
                    }
                },
            }
        },
        ReturnModel::Table(columns) => {
            if declared_rows_from(rows, columns, 0) is Ok {
                assert forall|i: int| 0 <= i < rows.len() implies has_columns(
                    #[trigger] rows[i],
                    Seq::new(columns.len(), |p: int| columns[p].0),
                ) by {
                    declared_rows_are_whole(rows, columns, 0, i);
                }
            }
        },
        _ => {},
    }
}

} // verus!
