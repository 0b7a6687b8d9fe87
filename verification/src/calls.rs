//! Calls of functions written in SQL.

use vstd::prelude::*;
use crate::ast::{
    json_text, json_text_of, parse_statements, statements_of, substitute, substituted, table_name,
    table_name_of, Expr,
};
use crate::catalog::{
    local_name, table_of, unqualified, AuthContext, AuthModel, Cells, CellsModel, Column, ColumnModel, Database,
    DatabaseModel, FunctionModel, FunctionParameter, FunctionReturn, ParameterModel, ResultModel, ReturnModel,
    SqlFunction, SqlResult, Table,
};
use crate::error::{err, failure, outcome, unsupported, unsupported_failure, Failure, Outcome, Result};
use crate::eval::{eval, evaluated};
use crate::functions::{is_parameter_named, parameter_named};
use crate::json::{group_value_views, Datum, Json, Num, Number};
use crate::ordmap::{get, put, OrdMap};
use crate::referential::{actions_applied, apply_referential_actions};
use crate::replica::{add_last, no_items, one_item, Replica};
use crate::rules::database_valid;
use crate::scalar::{check_type_supported, check_typed, type_supported, value_checked};
use crate::statement::{execute_statement, statement_executed};
use crate::text::{cat2, cat3, decimal, decimal_text, owned};
use crate::value::{child, flag, item, items, payload, tag, tagged};

verus! {

broadcast use group_value_views;

// ---------------------------------------------------------------------------------------------
// Arguments
// ---------------------------------------------------------------------------------------------

/// The literal expression of a node of the parser's values.
pub open spec fn literal_node(kind: Seq<char>, inner: Json) -> Json {
    tagged("Value"@, tagged(kind, inner))
}

/// The expression that stands for a value.
pub open spec fn value_expression(value: Json) -> Outcome<Json> {
    match value {
        Json::Null => Ok(tagged("Value"@, Json::String("Null"@))),
        Json::Bool(b) => Ok(literal_node("Boolean"@, Json::Bool(b))),
        Json::Number(Num::Int(_)) => Ok(
            literal_node(
                "Number"@,
                Json::Array(seq![Json::String(json_text_of(value)), Json::Bool(false)]),
            ),
        ),
        Json::Number(_) => Err(unsupported_failure("Non-integer numeric function arguments"@)),
        Json::String(s) => Ok(literal_node("SingleQuotedString"@, Json::String(s))),
        _ => Ok(
            tagged(
                "Cast"@,
                Json::Object(
                    seq![
                        ("data_type"@, Json::String("JSON"@)),
                        ("expr"@, literal_node("SingleQuotedString"@, Json::String(json_text_of(value)))),
                        ("format"@, Json::Null),
                    ],
                ),
            ),
        ),
    }
}

fn literal(kind: &str, inner: Datum) -> (result: Datum)
    ensures
        result@ == literal_node(kind@, inner@),
{
    Datum::tagged("Value", Datum::tagged(kind, inner))
}

/// The expression that stands for a value.
pub fn sql_value(value: &Datum) -> (result: Result<Expr>)
    ensures
        outcome(result) == value_expression(value@),
{
    match value {
        Datum::Null => Ok(Datum::tagged("Value", Datum::string("Null"))),
        Datum::Bool(b) => Ok(literal("Boolean", Datum::Bool(*b))),
        Datum::Number(Number::Int(_)) => {
            let mut parts: Vec<Datum> = no_items();
            add_last(&mut parts, Datum::String(json_text(value)));
            add_last(&mut parts, Datum::Bool(false));
            assert(parts.deep_view() =~= seq![Json::String(json_text_of(value@)), Json::Bool(false)]);
            Ok(literal("Number", Datum::Array(parts)))
        },
        Datum::Number(_) => Err(unsupported("Non-integer numeric function arguments")),
        Datum::String(s) => Ok(literal("SingleQuotedString", Datum::String(s.clone()))),
        _ => {
            let mut entries: Vec<(String, Datum)> = Vec::new();
            entries.push((owned("data_type"), Datum::string("JSON")));
            entries.push(
                (owned("expr"), literal("SingleQuotedString", Datum::String(json_text(value)))),
            );
            entries.push((owned("format"), Datum::Null));
            let map = OrdMap { entries };
            assert(map@ =~= value_expression(value@)->Ok_0->Object_0[0].1->Object_0);
            Ok(Datum::tagged("Cast", Datum::Object(map)))
        },
    }
}

/// Whether the arguments from position `from` on name parameters.
pub open spec fn arguments_known_from(args: CellsModel, from: int, parameters: Seq<ParameterModel>) -> Outcome<()>
    decreases args.len() - from,
{
    if from < 0 || from >= args.len() {
        Ok(())
    } else if !parameter_named(parameters, args[from].0) {
        Err(failure("TypeError"@, "Unknown function argument "@ + args[from].0))
    } else {
        arguments_known_from(args, from + 1, parameters)
    }
}

/// The value of a parameter: the argument, else the default.
pub open spec fn argument_value(parameter: ParameterModel, args: CellsModel, caller: AuthModel) -> Outcome<Json> {
    match get(args, parameter.name) {
        Some(value) => Ok(value),
        None => match parameter.default {
            Some(expr) => evaluated(expr, Seq::empty(), caller),
            None => Err(failure("TypeError"@, "Missing function argument "@ + parameter.name)),
        },
    }
}

/// The expressions by which the body names the parameters from position `from` on.
pub open spec fn bindings_from(
    function: FunctionModel,
    from: int,
    args: CellsModel,
    bound: CellsModel,
    caller: AuthModel,
) -> Outcome<CellsModel>
    decreases function.parameters.len() - from,
{
    if from < 0 || from >= function.parameters.len() {
        Ok(bound)
    } else {
        let parameter = function.parameters[from];
        match argument_value(parameter, args, caller) {
            Err(error) => Err(error),
            Ok(value) => match value_checked(parameter.name, parameter.data_type, true, value) {
                Err(error) => Err(error),
                Ok(_) => match value_expression(value) {
                    Err(error) => Err(error),
                    Ok(expr) => bindings_from(
                        function,
                        from + 1,
                        args,
                        put(
                            put(put(bound, parameter.name, expr), "$"@ + decimal((from + 1) as nat), expr),
                            function.name + "."@ + parameter.name,
                            expr,
                        ),
                        caller,
                    ),
                },
            },
        }
    }
}

/// The caller with the authority under which the function runs.
pub open spec fn effective_caller(function: FunctionModel, caller: AuthModel) -> Outcome<AuthModel> {
    if !function.security_definer {
        Ok(caller)
    } else {
        match function.definer_context {
            None => Err(failure("PrivilegeError"@, "Function has no granted definer authority"@)),
            Some(definer) => Ok(
                AuthModel { role: definer.role, privileged: definer.privileged, ..caller },
            ),
        }
    }
}

fn check_arguments(args: &Cells, parameters: &Vec<FunctionParameter>) -> (result: Result<()>)
    ensures
        outcome(result) == arguments_known_from(args@, 0, parameters.deep_view()),
{
    let mut i: usize = 0;
    while i < args.len()
        invariant
            i <= args@.len(),
            arguments_known_from(args@, 0, parameters.deep_view()) == arguments_known_from(
                args@,
                i as int,
                parameters.deep_view(),
            ),
        decreases args@.len() - i,
    {
        let name = args.key_at(i);
        if !is_parameter_named(parameters, name.as_str()) {
            return Err(err("TypeError", cat2("Unknown function argument ", name.as_str()).as_str()));
        }
        i += 1;
    }
    Ok(())
}

fn read_argument(parameter: &FunctionParameter, args: &Cells, context: &AuthContext) -> (result: Result<Datum>)
    ensures
        outcome(result) == argument_value(parameter.deep_view(), args@, context.deep_view()),
{
    match args.find(parameter.name.as_str()) {
        Some(value) => Ok(value.copied()),
        None => match &parameter.default {
            Some(expr) => {
                let none: Cells = OrdMap::new();
                eval(expr, &none, context)
            },
            None => Err(
                err("TypeError", cat2("Missing function argument ", parameter.name.as_str()).as_str()),
            ),
        },
    }
}

fn bind_parameters(function: &SqlFunction, args: &Cells, context: &AuthContext) -> (result: Result<Cells>)
    ensures
        outcome(result) == bindings_from(
            function.deep_view(),
            0,
            args@,
            Seq::empty(),
            context.deep_view(),
        ),
{
    let mut bound: Cells = OrdMap::new();
    let ghost model = function.deep_view();
    let mut i: usize = 0;
    while i < function.parameters.len()
        invariant
            i <= function.parameters.len(),
            model == function.deep_view(),
            bindings_from(model, 0, args@, Seq::empty(), context.deep_view()) == bindings_from(
                model,
                i as int,
                args@,
                bound@,
                context.deep_view(),
            ),
        decreases function.parameters.len() - i,
    {
        let parameter = &function.parameters[i];
        assert(model.parameters[i as int] == parameter.deep_view());
        let value = read_argument(parameter, args, context)?;
        check_typed(parameter.name.as_str(), parameter.data_type.as_str(), true, &value)?;
        let expr = sql_value(&value)?;
        i += 1;
        bound.insert(parameter.name.clone(), expr.copied());
        bound.insert(cat2("$", decimal_text(i as u64).as_str()), expr.copied());
        bound.insert(cat3(function.name.as_str(), ".", parameter.name.as_str()), expr);
    }
    Ok(bound)
}

fn effective_context(function: &SqlFunction, context: &AuthContext) -> (result: Result<AuthContext>)
    ensures
        outcome(result) == effective_caller(function.deep_view(), context.deep_view()),
{
    let mut effective = context.replica();
    if function.security_definer {
        match &function.definer_context {
            None => {
                return Err(err("PrivilegeError", "Function has no granted definer authority"));
            },
            Some(definer) => {
                effective.role = definer.role.clone();
                effective.privileged = definer.privileged;
            },
        }
    }
    Ok(effective)
}

// ---------------------------------------------------------------------------------------------
// Nested calls
// ---------------------------------------------------------------------------------------------

/// The arguments of a nested call from position `from` on.
pub open spec fn nested_arguments_from(
    args: Json,
    parameters: Seq<ParameterModel>,
    from: int,
    done: CellsModel,
    caller: AuthModel,
) -> Outcome<CellsModel>
    decreases parameters.len() - from,
{
    if from < 0 || from >= parameters.len() || from >= items(args).len() {
        Ok(done)
    } else {
        let arg = items(args)[from];
        if tag(arg) == "Unnamed"@ && tag(payload(arg)) == "Expr"@ {
            match evaluated(payload(payload(arg)), Seq::empty(), caller) {
                Err(error) => Err(error),
                Ok(value) => nested_arguments_from(
                    args,
                    parameters,
                    from + 1,
                    put(done, parameters[from].name, value),
                    caller,
                ),
            }
        } else {
            Err(unsupported_failure("Nested function named arguments"@))
        }
    }
}

/// The only expression of a select that has nothing else; null for any other statement.
pub open spec fn lone_expression(statement: Json) -> Json {
    let query = payload(statement);
    let select = payload(child(query, "body"@));
    let entry = item(child(select, "projection"@), 0);
    if tag(statement) != "Query"@ || tag(child(query, "body"@)) != "Select"@ || items(
        child(select, "projection"@),
    ).len() != 1 || items(child(select, "from"@)).len() > 0 || child(select, "selection"@) !is Null || child(
        query,
        "with"@,
    ) !is Null || child(query, "limit"@) !is Null || items(child(query, "order_by"@)).len() > 0 {
        Json::Null
    } else if tag(entry) == "UnnamedExpr"@ {
        payload(entry)
    } else if tag(entry) == "ExprWithAlias"@ {
        child(payload(entry), "expr"@)
    } else {
        Json::Null
    }
}

/// The function of the library and the arguments that a statement calls, where it is only a call.
pub open spec fn nested_call_of(
    statement: Json,
    functions: Seq<(Seq<char>, FunctionModel)>,
    caller: AuthModel,
) -> Outcome<Option<(Seq<char>, Json)>> {
    let expr = lone_expression(statement);
    let call = payload(expr);
    if tag(expr) != "Function"@ {
        Ok(None)
    } else {
        match table_name_of(child(call, "name"@)) {
            Err(error) => Err(error),
            Ok(name) => match get(functions, name) {
                None => Ok(None),
                Some(function) => if items(child(call, "args"@)).len() != function.parameters.len() || child(
                    call,
                    "over"@,
                ) !is Null || child(call, "filter"@) !is Null || flag(child(call, "distinct"@)) {
                    Err(unsupported_failure("Nested function arguments/modifiers"@))
                } else {
                    match nested_arguments_from(
                        child(call, "args"@),
                        function.parameters,
                        0,
                        Seq::empty(),
                        caller,
                    ) {
                        Err(error) => Err(error),
                        Ok(args) => Ok(Some((name, Json::Object(args)))),
                    }
                },
            },
        }
    }
}

fn nested_arguments(args: &Datum, parameters: &Vec<FunctionParameter>, context: &AuthContext) -> (result: Result<
    Cells,
>)
    ensures
        outcome(result) == nested_arguments_from(
            args@,
            parameters.deep_view(),
            0,
            Seq::empty(),
            context.deep_view(),
        ),
{
    let none: Cells = OrdMap::new();
    let mut done: Cells = OrdMap::new();
    let ghost model = parameters.deep_view();
    let count: usize = args.count();
    let mut i: usize = 0;
    while i < parameters.len() && i < count
        invariant
            i <= parameters.len(),
            count == items(args@).len(),
            model == parameters.deep_view(),
            none@ == Seq::<(Seq<char>, Json)>::empty(),
            nested_arguments_from(args@, model, 0, Seq::empty(), context.deep_view())
                == nested_arguments_from(args@, model, i as int, done@, context.deep_view()),
        decreases parameters.len() - i,
    {
        assert(model[i as int] == parameters[i as int].deep_view());
        let arg = args.item(i);
        if !(arg.is("Unnamed") && arg.payload().is("Expr")) {
            return Err(unsupported("Nested function named arguments"));
        }
        let value = eval(arg.payload().payload(), &none, context)?;
        done.insert(parameters[i].name.clone(), value);
        i += 1;
    }
    Ok(done)
}

fn find_lone_expression(statement: &Datum) -> (result: &Datum)
    ensures
        result@ == lone_expression(statement@),
{
    let query = statement.payload();
    let select = query.child("body").payload();
    if !statement.is("Query") || !query.child("body").is("Select") || select.child("projection").count() != 1
        || select.child("from").count() > 0 || !select.child("selection").is_null() || !query.child(
        "with",
    ).is_null() || !query.child("limit").is_null() || query.child("order_by").count() > 0 {
        return &Datum::Null;
    }
    let entry = select.child("projection").item(0);
    if entry.is("UnnamedExpr") {
        entry.payload()
    } else if entry.is("ExprWithAlias") {
        entry.payload().child("expr")
    } else {
        &Datum::Null
    }
}

/// The function of the library and the arguments that a statement calls, where it is only a call.
pub fn nested_call(statement: &Datum, functions: &OrdMap<String, SqlFunction>, context: &AuthContext) -> (result:
    Result<Option<(String, Datum)>>)
    ensures
        (match result {
            Ok(Some((name, args))) => Ok(Some((name@, args@))),
            Ok(None) => Ok(None),
            Err(error) => Err(error@),
        }) == nested_call_of(statement@, functions@, context.deep_view()),
{
    let expr = find_lone_expression(statement);
    if !expr.is("Function") {
        return Ok(None);
    }
    let call = expr.payload();
    let name = table_name(call.child("name"))?;
    match functions.get(&name) {
        None => Ok(None),
        Some(function) => {
            if call.child("args").count() != function.parameters.len() || !call.child("over").is_null()
                || !call.child("filter").is_null() || call.child("distinct").flag() {
                return Err(unsupported("Nested function arguments/modifiers"));
            }
            let args = nested_arguments(call.child("args"), &function.parameters, context)?;
            Ok(Some((name, Datum::Object(args))))
        },
    }
}

// ---------------------------------------------------------------------------------------------
// Results
// ---------------------------------------------------------------------------------------------

/// Whether a returned value has the declared type.
pub open spec fn return_checked(ty: Seq<char>, value: Json) -> Outcome<()> {
    value_checked("function return"@, ty, true, value)
}

/// Refuses a returned value that does not have the declared type.
pub fn check_return_value(ty: &str, value: &Datum) -> (result: Result<()>)
    ensures
        outcome(result) == return_checked(ty@, value@),
{
    check_typed("function return", ty, true, value)
}

/// The only value of a row of a scalar function.
pub open spec fn scalar_value(rows: Seq<Json>) -> Outcome<Json> {
    if rows.len() > 1 {
        Err(failure("CardinalityError"@, "Scalar function returned multiple rows"@))
    } else if rows.len() == 0 {
        Ok(Json::Null)
    } else {
        match rows[0] {
            Json::Object(entries) => if entries.len() == 1 {
                Ok(entries[0].1)
            } else {
                Err(failure("TypeError"@, "Scalar function returned multiple columns"@))
            },
            _ => Ok(rows[0]),
        }
    }
}

/// The rows of a function that returns a set of scalars, from position `from` on.
pub open spec fn scalars_from(ty: Seq<char>, rows: Seq<Json>, from: int, done: Seq<Json>) -> Outcome<Seq<Json>>
    decreases rows.len() - from,
{
    if from < 0 || from >= rows.len() {
        Ok(done)
    } else if rows[from] is Object && rows[from]->Object_0.len() != 1 {
        Err(failure("TypeError"@, "SETOF scalar requires one column"@))
    } else {
        let value = match rows[from] {
            Json::Object(entries) => entries[0].1,
            _ => rows[from],
        };
        match return_checked(ty, value) {
            Err(error) => Err(error),
            Ok(_) => scalars_from(ty, rows, from + 1, done.push(value)),
        }
    }
}

/// Whether a row has the columns of a table from position `from` on.
pub open spec fn table_cells_from(row: CellsModel, columns: Seq<ColumnModel>, from: int) -> Outcome<()>
    decreases columns.len() - from,
{
    if from < 0 || from >= columns.len() {
        Ok(())
    } else {
        match get(row, columns[from].name) {
            None => Err(failure("TypeError"@, "Missing function result column"@)),
            Some(value) => match return_checked(columns[from].data_type, value) {
                Err(error) => Err(error),
                Ok(_) => table_cells_from(row, columns, from + 1),
            },
        }
    }
}

/// Whether the rows from position `from` on are rows of a table.
pub open spec fn table_rows_from(rows: Seq<Json>, columns: Seq<ColumnModel>, from: int) -> Outcome<()>
    decreases rows.len() - from,
{
    if from < 0 || from >= rows.len() {
        Ok(())
    } else {
        match rows[from] {
            Json::Object(row) => if row.len() != columns.len() {
                Err(failure("TypeError"@, "Function result shape does not match table"@))
            } else {
                match table_cells_from(row, columns, 0) {
                    Err(error) => Err(error),
                    Ok(_) => table_rows_from(rows, columns, from + 1),
                }
            },
            _ => Err(failure("TypeError"@, "SETOF table requires rows"@)),
        }
    }
}

/// Whether a row has the declared columns from position `from` on.
pub open spec fn declared_cells_from(row: CellsModel, columns: Seq<(Seq<char>, Seq<char>)>, from: int) -> Outcome<()>
    decreases columns.len() - from,
{
    if from < 0 || from >= columns.len() {
        Ok(())
    } else {
        match get(row, columns[from].0) {
            None => Err(
                failure(
                    "TypeError"@,
                    "Missing return column "@ + columns[from].0 + "; use explicit aliases"@,
                ),
            ),
            Some(value) => match return_checked(columns[from].1, value) {
                Err(error) => Err(error),
                Ok(_) => declared_cells_from(row, columns, from + 1),
            },
        }
    }
}

/// Whether the rows from position `from` on have the declared columns.
pub open spec fn declared_rows_from(rows: Seq<Json>, columns: Seq<(Seq<char>, Seq<char>)>, from: int) -> Outcome<()>
    decreases rows.len() - from,
{
    if from < 0 || from >= rows.len() {
        Ok(())
    } else {
        match rows[from] {
            Json::Object(row) => if row.len() != columns.len() {
                Err(failure("TypeError"@, "Function result shape does not match RETURNS TABLE"@))
            } else {
                match declared_cells_from(row, columns, 0) {
                    Err(error) => Err(error),
                    Ok(_) => declared_rows_from(rows, columns, from + 1),
                }
            },
            _ => Err(failure("TypeError"@, "TABLE function requires rows"@)),
        }
    }
}

/// The rows that a call returns, by what the function declares.
pub open spec fn shaped(database: DatabaseModel, kind: ReturnModel, rows: Seq<Json>) -> Outcome<Seq<Json>> {
    match kind {
        ReturnModel::Void => Ok(seq![Json::Null]),
        ReturnModel::Scalar(ty) => match scalar_value(rows) {
            Err(error) => Err(error),
            Ok(value) => match return_checked(ty, value) {
                Err(error) => Err(error),
                Ok(_) => Ok(seq![value]),
            },
        },
        ReturnModel::SetOf(ty) => if type_supported(ty) is Ok {
            scalars_from(ty, rows, 0, Seq::empty())
        } else {
            match table_of(database, ty) {
                Err(error) => Err(error),
                Ok(table) => match table_rows_from(rows, table.columns, 0) {
                    Err(error) => Err(error),
                    Ok(_) => Ok(rows),
                },
            }
        },
        ReturnModel::Table(columns) => match declared_rows_from(rows, columns, 0) {
            Err(error) => Err(error),
            Ok(_) => Ok(rows),
        },
    }
}

fn shape_scalar(rows: &Vec<Datum>) -> (result: Result<Datum>)
    ensures
        outcome(result) == scalar_value(rows.deep_view()),
{
    if rows.len() > 1 {
        return Err(err("CardinalityError", "Scalar function returned multiple rows"));
    }
    if rows.len() == 0 {
        return Ok(Datum::Null);
    }
    assert(rows.deep_view()[0] == rows[0]@);
    match &rows[0] {
        Datum::Object(map) => {
            if map.len() == 1 {
                Ok(map.value_at(0).copied())
            } else {
                Err(err("TypeError", "Scalar function returned multiple columns"))
            }
        },
        value => Ok(value.copied()),
    }
}

fn shape_scalars(ty: &str, rows: &Vec<Datum>) -> (result: Result<Vec<Datum>>)
    ensures
        outcome(result) == scalars_from(ty@, rows.deep_view(), 0, Seq::empty()),
{
    let mut done: Vec<Datum> = no_items();
    let ghost model = rows.deep_view();
    let mut i: usize = 0;
    while i < rows.len()
        invariant
            i <= rows.len(),
            model == rows.deep_view(),
            scalars_from(ty@, model, 0, Seq::empty()) == scalars_from(
                ty@,
                model,
                i as int,
                done.deep_view(),
            ),
        decreases rows.len() - i,
    {
        assert(model[i as int] == rows[i as int]@);
        let value = match &rows[i] {
            Datum::Object(map) => {
                if map.len() != 1 {
                    return Err(err("TypeError", "SETOF scalar requires one column"));
                }
                map.value_at(0).copied()
            },
            value => value.copied(),
        };
        check_return_value(ty, &value)?;
        add_last(&mut done, value);
        i += 1;
    }
    Ok(done)
}

fn check_table_cells(row: &Cells, columns: &Vec<Column>) -> (result: Result<()>)
    ensures
        outcome(result) == table_cells_from(row@, columns.deep_view(), 0),
{
    let ghost model = columns.deep_view();
    let mut i: usize = 0;
    while i < columns.len()
        invariant
            i <= columns.len(),
            model == columns.deep_view(),
            table_cells_from(row@, model, 0) == table_cells_from(row@, model, i as int),
        decreases columns.len() - i,
    {
        assert(model[i as int] == columns[i as int].deep_view());
        match row.find(columns[i].name.as_str()) {
            None => {
                return Err(err("TypeError", "Missing function result column"));
            },
            Some(value) => {
                check_return_value(columns[i].data_type.as_str(), value)?;
            },
        }
        i += 1;
    }
    Ok(())
}

fn check_table_rows(rows: &Vec<Datum>, columns: &Vec<Column>) -> (result: Result<()>)
    ensures
        outcome(result) == table_rows_from(rows.deep_view(), columns.deep_view(), 0),
{
    let ghost model = rows.deep_view();
    let mut i: usize = 0;
    while i < rows.len()
        invariant
            i <= rows.len(),
            model == rows.deep_view(),
            table_rows_from(model, columns.deep_view(), 0) == table_rows_from(
                model,
                columns.deep_view(),
                i as int,
            ),
        decreases rows.len() - i,
    {
        assert(model[i as int] == rows[i as int]@);
        match &rows[i] {
            Datum::Object(row) => {
                if row.len() != columns.len() {
                    return Err(err("TypeError", "Function result shape does not match table"));
                }
                check_table_cells(row, columns)?;
            },
            _ => {
                return Err(err("TypeError", "SETOF table requires rows"));
            },
        }
        i += 1;
    }
    Ok(())
}

fn check_declared_cells(row: &Cells, columns: &Vec<(String, String)>) -> (result: Result<()>)
    ensures
        outcome(result) == declared_cells_from(row@, columns.deep_view(), 0),
{
    let ghost model = columns.deep_view();
    let mut i: usize = 0;
    while i < columns.len()
        invariant
            i <= columns.len(),
            model == columns.deep_view(),
            declared_cells_from(row@, model, 0) == declared_cells_from(row@, model, i as int),
        decreases columns.len() - i,
    {
        assert(model[i as int] == (columns[i as int].0@, columns[i as int].1@));
        match row.find(columns[i].0.as_str()) {
            None => {
                return Err(
                    err(
                        "TypeError",
                        cat3(
                            "Missing return column ",
                            columns[i].0.as_str(),
                            "; use explicit aliases",
                        ).as_str(),
                    ),
                );
            },
            Some(value) => {
                check_return_value(columns[i].1.as_str(), value)?;
            },
        }
        i += 1;
    }
    Ok(())
}

fn check_declared_rows(rows: &Vec<Datum>, columns: &Vec<(String, String)>) -> (result: Result<()>)
    ensures
        outcome(result) == declared_rows_from(rows.deep_view(), columns.deep_view(), 0),
{
    let ghost model = rows.deep_view();
    let mut i: usize = 0;
    while i < rows.len()
        invariant
            i <= rows.len(),
            model == rows.deep_view(),
            declared_rows_from(model, columns.deep_view(), 0) == declared_rows_from(
                model,
                columns.deep_view(),
                i as int,
            ),
        decreases rows.len() - i,
    {
        assert(model[i as int] == rows[i as int]@);
        match &rows[i] {
            Datum::Object(row) => {
                if row.len() != columns.len() {
                    return Err(err("TypeError", "Function result shape does not match RETURNS TABLE"));
                }
                check_declared_cells(row, columns)?;
            },
            _ => {
                return Err(err("TypeError", "TABLE function requires rows"));
            },
        }
        i += 1;
    }
    Ok(())
}

fn shape(database: &Database, kind: &FunctionReturn, rows: Vec<Datum>) -> (result: Result<Vec<Datum>>)
    ensures
        outcome(result) == shaped(database.deep_view(), kind.deep_view(), rows.deep_view()),
{
    match kind {
        FunctionReturn::Void => Ok(one_item(Datum::Null)),
        FunctionReturn::Scalar(ty) => {
            let value = shape_scalar(&rows)?;
            check_return_value(ty.as_str(), &value)?;
            Ok(one_item(value))
        },
        FunctionReturn::SetOf(ty) => {
            if check_type_supported(ty.as_str()).is_ok() {
                shape_scalars(ty.as_str(), &rows)
            } else {
                let table = database.table(ty.as_str())?;
                check_table_rows(&rows, &table.columns)?;
                Ok(rows)
            }
        },
        FunctionReturn::Table(columns) => {
            check_declared_rows(&rows, columns)?;
            Ok(rows)
        },
    }
}

// ---------------------------------------------------------------------------------------------
// The call
// ---------------------------------------------------------------------------------------------

/// How deep calls may nest.
pub const CALL_DEPTH: usize = 32;

/// The statements with the parameters replaced.
pub open spec fn all_substituted(list: Seq<Json>, bindings: CellsModel) -> Seq<Json> {
    Seq::new(list.len(), |i: int| substituted(list[i], bindings, true))
}

/// What a call runs: the statements with their parameters replaced, the authority, and the
/// function.
pub open spec fn call_prepared(database: DatabaseModel, name: Seq<char>, args: Json, caller: AuthModel) -> Outcome<
    (FunctionModel, AuthModel, Seq<Json>),
> {
    match get(database.functions, local_name(name)) {
        None => Err(failure("UndefinedFunction"@, name)),
        Some(function) => match args {
            Json::Object(given) => match arguments_known_from(given, 0, function.parameters) {
                Err(error) => Err(error),
                Ok(_) => match effective_caller(function, caller) {
                    Err(error) => Err(error),
                    Ok(effective) => match bindings_from(function, 0, given, Seq::empty(), caller) {
                        Err(error) => Err(error),
                        Ok(bindings) => match statements_of(function.body) {
                            Err(error) => Err(error),
                            Ok(list) => Ok((function, effective, all_substituted(list, bindings))),
                        },
                    },
                },
            },
            _ => Err(failure("TypeError"@, "RPC arguments must be an object"@)),
        },
    }
}

/// The state and the result after a call at a depth.
pub open spec fn called(
    database: DatabaseModel,
    name: Seq<char>,
    args: Json,
    caller: AuthModel,
    depth: int,
) -> Outcome<(DatabaseModel, ResultModel)>
    decreases CALL_DEPTH - depth, 1int, 0int,
{
    if depth >= CALL_DEPTH {
        Err(failure("ResourceLimit"@, "SQL function call depth exceeded"@))
    } else {
        match call_prepared(database, name, args, caller) {
            Err(error) => Err(error),
            Ok((function, effective, list)) => match body_run_from(
                database,
                list,
                0,
                effective,
                depth,
                Seq::empty(),
                0,
            ) {
                Err(error) => Err(error),
                Ok((next, result)) => match shaped(next, function.return_kind, result.rows) {
                    Err(error) => Err(error),
                    Ok(rows) => Ok((next, ResultModel { rows, affected: result.affected })),
                },
            },
        }
    }
}

/// The state and the result after one statement of a function's body: a nested call, or a
/// statement of its own.
pub open spec fn body_step(
    database: DatabaseModel,
    statement: Json,
    caller: AuthModel,
    depth: int,
) -> Outcome<(DatabaseModel, ResultModel)>
    decreases CALL_DEPTH - depth, 0int, 0int,
{
    match nested_call_of(statement, database.functions, caller) {
        Err(error) => Err(error),
        Ok(Some((callee, args))) => if depth < CALL_DEPTH {
            called(database, callee, args, caller, depth + 1)
        } else {
            Err(failure("ResourceLimit"@, "SQL function call depth exceeded"@))
        },
        Ok(None) => statement_executed(database, statement, caller),
    }
}

/// The state and the result after one statement of a function's body, the referential actions that
/// it sets off done; the constraints that are not deferred must hold then.
pub open spec fn body_step_done(
    database: DatabaseModel,
    statement: Json,
    caller: AuthModel,
    depth: int,
) -> Outcome<(DatabaseModel, ResultModel)>
    decreases CALL_DEPTH - depth, 0int, 1int,
{
    match body_step(database, statement, caller, depth) {
        Err(error) => Err(error),
        Ok((next, result)) => match actions_applied(database, next, caller) {
            Err(error) => Err(error),
            Ok(acted) => match database_valid(acted, caller, false) {
                Err(error) => Err(error),
                Ok(_) => Ok((acted, result)),
            },
        },
    }
}

/// The state and the result after the statements of a function's body from position `from` on.
pub open spec fn body_run_from(
    database: DatabaseModel,
    list: Seq<Json>,
    from: int,
    caller: AuthModel,
    depth: int,
    rows: Seq<Json>,
    affected: usize,
) -> Outcome<(DatabaseModel, ResultModel)>
    decreases CALL_DEPTH - depth, 0int, list.len() - from + 2,
{
    if from < 0 || from >= list.len() {
        Ok((database, ResultModel { rows, affected }))
    } else {
        match body_step_done(database, list[from], caller, depth) {
            Err(error) => Err(error),
            Ok((next, result)) => if affected + result.affected > usize::MAX {
                Err(failure("ResourceLimit"@, "Counter exhausted"@))
            } else {
                body_run_from(
                    next,
                    list,
                    from + 1,
                    caller,
                    depth,
                    result.rows,
                    (affected + result.affected) as usize,
                )
            },
        }
    }
}

fn substitute_all(list: &Vec<Datum>, bindings: &Cells) -> (result: Vec<Datum>)
    ensures
        result.deep_view() == all_substituted(list.deep_view(), bindings@),
{
    let mut result: Vec<Datum> = no_items();
    let ghost goal = all_substituted(list.deep_view(), bindings@);
    let mut i: usize = 0;
    while i < list.len()
        invariant
            i <= list.len(),
            goal == all_substituted(list.deep_view(), bindings@),
            result.deep_view() == goal.take(i as int),
        decreases list.len() - i,
    {
        let next = substitute(&list[i], bindings, true);
        assert(next.deep_view() == goal[i as int]);
        add_last(&mut result, next);
        i += 1;
        assert(result.deep_view() =~= goal.take(i as int));
    }
    assert(goal.take(list@.len() as int) =~= goal);
    result
}

fn prepare_call(database: &Database, name: &str, args: &Datum, context: &AuthContext) -> (result: Result<
    (SqlFunction, AuthContext, Vec<Datum>),
>)
    ensures
        outcome(result) == call_prepared(
            database.deep_view(),
            name@,
            args@,
            context.deep_view(),
        ),
{
    let function = match database.functions.find(unqualified(name).as_str()) {
        None => {
            return Err(err("UndefinedFunction", name));
        },
        Some(found) => found.replica(),
    };
    match args {
        Datum::Object(given) => {
            check_arguments(given, &function.parameters)?;
            let effective = effective_context(&function, context)?;
            let bindings = bind_parameters(&function, given, context)?;
            let list = parse_statements(function.body.as_str())?;
            Ok((function, effective, substitute_all(&list, &bindings)))
        },
        _ => Err(err("TypeError", "RPC arguments must be an object")),
    }
}

/// Runs a function against a state, `depth` calls deep.
pub fn call_function_inner(database: Database, name: &str, args: &Datum, context: &AuthContext, depth: usize) -> (result:
    Result<(Database, SqlResult)>)
    ensures
        outcome(result) == called(
            database.deep_view(),
            name@,
            args@,
            context.deep_view(),
            depth as int,
        ),
    decreases CALL_DEPTH - depth, 1int, 0int,
{
    if depth >= CALL_DEPTH {
        return Err(err("ResourceLimit", "SQL function call depth exceeded"));
    }
    let (function, effective, list) = prepare_call(&database, name, args, context)?;
    let (next, result) = run_body(database, &list, &effective, depth)?;
    let rows = shape(&next, &function.return_kind, result.rows)?;
    Ok((next, SqlResult { rows, affected: result.affected }))
}

fn run_step(database: Database, statement: &Datum, context: &AuthContext, depth: usize) -> (result: Result<
    (Database, SqlResult),
>)
    requires
        depth < CALL_DEPTH,
    ensures
        outcome(result) == body_step(
            database.deep_view(),
            statement@,
            context.deep_view(),
            depth as int,
        ),
    decreases CALL_DEPTH - depth, 0int, 0int,
{
    match nested_call(statement, &database.functions, context)? {
        Some((callee, args)) => call_function_inner(database, callee.as_str(), &args, context, depth + 1),
        None => execute_statement(database, statement, context),
    }
}

fn run_step_done(database: Database, statement: &Datum, context: &AuthContext, depth: usize) -> (result: Result<
    (Database, SqlResult),
>)
    requires
        depth < CALL_DEPTH,
    ensures
        outcome(result) == body_step_done(
            database.deep_view(),
            statement@,
            context.deep_view(),
            depth as int,
        ),
    decreases CALL_DEPTH - depth, 0int, 1int,
{
    let before = database.replica();
    let (next, result) = run_step(database, statement, context, depth)?;
    let acted = apply_referential_actions(&before, next, context)?;
    acted.validate_immediate(context)?;
    Ok((acted, result))
}

fn run_body(start: Database, list: &Vec<Datum>, context: &AuthContext, depth: usize) -> (result: Result<
    (Database, SqlResult),
>)
    requires
        depth < CALL_DEPTH,
    ensures
        outcome(result) == body_run_from(
            start.deep_view(),
            list.deep_view(),
            0,
            context.deep_view(),
            depth as int,
            Seq::empty(),
            0,
        ),
    decreases CALL_DEPTH - depth, 0int, 2int,
{
    let ghost initial = start.deep_view();
    let ghost model = list.deep_view();
    let ghost caller = context.deep_view();
    let mut database = start;
    let mut rows: Vec<Datum> = no_items();
    let mut affected: usize = 0;
    let mut i: usize = 0;
    while i < list.len()
        invariant
            i <= list.len(),
            depth < CALL_DEPTH,
            model == list.deep_view(),
            caller == context.deep_view(),
            initial == start.deep_view(),
            body_run_from(initial, model, 0, caller, depth as int, Seq::empty(), 0) == body_run_from(
                database.deep_view(),
                model,
                i as int,
                caller,
                depth as int,
                rows.deep_view(),
                affected,
            ),
        decreases list.len() - i,
    {
        assert(model[i as int] == list[i as int]@);
        let (next, result) = run_step_done(database, &list[i], context, depth)?;
        database = next;
        match affected.checked_add(result.affected) {
            None => {
                return Err(err("ResourceLimit", "Counter exhausted"));
            },
            Some(sum) => {
                affected = sum;
            },
        }
        rows = result.rows;
        i += 1;
    }
    Ok((database, SqlResult { rows, affected }))
}

/// What a change of a state in place comes to: on success the new state, else the old one.
pub open spec fn published(
    before: Database,
    after: Database,
    result: Result<SqlResult>,
    expected: Outcome<(DatabaseModel, ResultModel)>,
) -> bool {
    match expected {
        Ok((database, rows)) => outcome(result) == Ok::<ResultModel, Failure>(rows) && after.deep_view()
            == database,
        Err(error) => outcome(result) == Err::<ResultModel, Failure>(error) && after.deep_view()
            == before.deep_view(),
    }
}

/// The state and the result after a call of its own, which must leave a valid state.
pub open spec fn call_committed(database: DatabaseModel, name: Seq<char>, args: Json, caller: AuthModel) -> Outcome<
    (DatabaseModel, ResultModel),
> {
    match called(database, name, args, caller, 0) {
        Err(error) => Err(error),
        Ok((next, result)) => match database_valid(next, caller, true) {
            Err(error) => Err(error),
            Ok(_) => Ok((next, result)),
        },
    }
}

impl Database {
    /// Runs a function and publishes its effects only on success.
    pub fn call_function(&mut self, name: &str, args: &Datum, context: &AuthContext) -> (result: Result<SqlResult>)
        ensures
            published(
                *old(self),
                *final(self),
                result,
                call_committed(old(self).deep_view(), name@, args@, context.deep_view()),
            ),
    {
        let (next, result) = call_function_inner(self.replica(), name, args, context, 0)?;
        next.validate(context)?;
        *self = next;
        Ok(result)
    }
}

} // verus!
