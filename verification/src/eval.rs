//! Evaluation of expressions against a row.

use vstd::prelude::*;
use crate::ast::{
    binary_operator_text, binary_operator_text_of, data_type, data_type_of, expr_text, expr_text_of,
    function_name, function_name_of, ident, ident_name, ident_names, json_text, json_text_of, names,
    unary_operator_text, unary_operator_text_of, Expr,
};
use crate::catalog::{AuthContext, AuthModel, Cells, CellsModel};
use crate::error::{err, failure, outcome, unsupported, unsupported_failure, Outcome, Result};
use crate::json::{group_value_views, json, Datum, Json, Num};
use crate::ordmap::{get, has_key, put, put_all, OrdMap};
use crate::outside::{json_read, lower, plain, plain_json, read_json};
use crate::scalar::{
    arithmetic, both, calculate, check_type_supported, check_typed, compare, compared, either,
    from_truth, like, like_of, of_truth, truth, truth_of, type_supported, value_checked, Order,
};
use crate::text::{cat2, cat3, chars_of, join, joined, parse_i64, parsed_i64, same};
use crate::value::{
    as_int, as_unsigned, child, flag, item, items, parts_are_lighter, payload, tag, text, weight,
};

verus! {

broadcast use group_value_views;

// ---------------------------------------------------------------------------------------------
// Operators on values
// ---------------------------------------------------------------------------------------------

/// The value of a literal.
pub open spec fn literal(expr: Json) -> Outcome<Json> {
    let node = payload(expr);
    if tag(node) == "Null"@ {
        Ok(Json::Null)
    } else if tag(node) == "Boolean"@ {
        Ok(Json::Bool(flag(payload(node))))
    } else if tag(node) == "SingleQuotedString"@ {
        Ok(Json::String(text(payload(node))))
    } else if tag(node) == "Number"@ {
        match parsed_i64(text(item(payload(node), 0))) {
            Some(n) => Ok(Json::Number(Num::Int(n))),
            None => Err(unsupported_failure("Only signed 64-bit integer literals are implemented"@)),
        }
    } else {
        Err(unsupported_failure("Literal "@ + expr_text_of(expr)))
    }
}

/// The value of a unary operator.
pub open spec fn unary(op: Json, value: Json) -> Outcome<Json> {
    if value is Null {
        Ok(Json::Null)
    } else if tag(op) == "Not"@ {
        match truth_of(value) {
            Ok(truth) => Ok(of_truth(crate::scalar::opposite(truth))),
            Err(error) => Err(error),
        }
    } else if tag(op) == "Plus"@ {
        if as_int(value) is Some {
            Ok(value)
        } else {
            Err(failure("TypeError"@, "Unary plus requires integer"@))
        }
    } else if tag(op) == "Minus"@ {
        match as_int(value) {
            Some(n) => if n != i64::MIN {
                Ok(Json::Number(Num::Int((-n) as i64)))
            } else {
                Err(failure("TypeError"@, "Integer negation overflow or incompatible type"@))
            },
            None => Err(failure("TypeError"@, "Integer negation overflow or incompatible type"@)),
        }
    } else {
        Err(unsupported_failure("Unary operator "@ + unary_operator_text_of(op)))
    }
}

pub open spec fn comparison_operator(op: Seq<char>) -> bool {
    op == "Eq"@ || op == "NotEq"@ || op == "Gt"@ || op == "GtEq"@ || op == "Lt"@ || op == "LtEq"@
}

/// Whether a comparison operator accepts an order.
pub open spec fn accepted(op: Seq<char>, order: Order) -> bool {
    if op == "Eq"@ {
        order is Equal
    } else if op == "NotEq"@ {
        order !is Equal
    } else if op == "Gt"@ {
        order is Greater
    } else if op == "GtEq"@ {
        order !is Less
    } else if op == "Lt"@ {
        order is Less
    } else {
        order !is Greater
    }
}

pub open spec fn arithmetic_operator(op: Seq<char>) -> bool {
    op == "Plus"@ || op == "Minus"@ || op == "Multiply"@ || op == "Divide"@ || op == "Modulo"@
}

/// The value of a binary operator.
pub open spec fn binary(op: Json, a: Json, b: Json) -> Outcome<Json> {
    if tag(op) == "And"@ || tag(op) == "Or"@ {
        match truth_of(a) {
            Err(error) => Err(error),
            Ok(x) => match truth_of(b) {
                Err(error) => Err(error),
                Ok(y) => Ok(
                    of_truth(
                        if tag(op) == "And"@ {
                            both(x, y)
                        } else {
                            either(x, y)
                        },
                    ),
                ),
            },
        }
    } else if a is Null || b is Null {
        Ok(Json::Null)
    } else if comparison_operator(tag(op)) {
        match compared(a, b) {
            Ok(order) => Ok(Json::Bool(accepted(tag(op), order))),
            Err(error) => Err(error),
        }
    } else if arithmetic_operator(tag(op)) {
        if as_int(a) is None || as_int(b) is None {
            Err(failure("TypeError"@, "Arithmetic requires integers"@))
        } else {
            match arithmetic(tag(op), as_int(a)->0 as int, as_int(b)->0 as int) {
                Some(n) => Ok(Json::Number(Num::Int(n))),
                None => Err(failure("TypeError"@, "Integer overflow or division by zero"@)),
            }
        }
    } else if tag(op) == "StringConcat"@ {
        match (a, b) {
            (Json::String(x), Json::String(y)) => Ok(Json::String(x + y)),
            _ => Err(failure("TypeError"@, "Concatenation requires text"@)),
        }
    } else {
        Err(unsupported_failure("Binary operator "@ + binary_operator_text_of(op)))
    }
}

/// The value of BETWEEN on values.
pub open spec fn between(value: Json, low: Json, high: Json, negated: bool) -> Outcome<Json> {
    if value is Null || low is Null || high is Null {
        Ok(Json::Null)
    } else {
        match compared(value, low) {
            Err(error) => Err(error),
            Ok(Order::Less) => Ok(Json::Bool(negated)),
            Ok(_) => match compared(value, high) {
                Err(error) => Err(error),
                Ok(order) => Ok(Json::Bool((order !is Greater) != negated)),
            },
        }
    }
}

/// The value of a cast to the type of this name.
pub open spec fn converted(target: Seq<char>, value: Json) -> Outcome<Json> {
    if target == "text"@ {
        Ok(
            Json::String(
                match value {
                    Json::String(s) => s,
                    _ => json_text_of(value),
                },
            ),
        )
    } else if target == "int"@ || target == "integer"@ || target == "bigint"@ || target == "smallint"@ {
        match value {
            Json::String(s) => match parsed_i64(s) {
                Some(n) => Ok(Json::Number(Num::Int(n))),
                None => Err(failure("TypeError"@, "Invalid integer CAST"@)),
            },
            _ => Ok(value),
        }
    } else if target == "json"@ || target == "jsonb"@ {
        match value {
            Json::String(s) => match json_read(s) {
                Ok(found) => Ok(plain_json(found)),
                Err(_) => Err(failure("TypeError"@, "Invalid JSON CAST"@)),
            },
            _ => Ok(value),
        }
    } else {
        Ok(value)
    }
}

/// The value of a cast.
pub open spec fn cast(target: Seq<char>, value: Json) -> Outcome<Json> {
    if value is Null {
        Ok(Json::Null)
    } else {
        match type_supported(target) {
            Err(error) => Err(error),
            Ok(_) => match converted(target, value) {
                Err(error) => Err(error),
                Ok(result) => match value_checked("cast"@, target, true, result) {
                    Err(error) => Err(error),
                    Ok(_) => Ok(result),
                },
            },
        }
    }
}

/// The escape character of a pattern: a backslash where none is given.
pub open spec fn escape_of(node: Json) -> char {
    if text(node).len() > 0 {
        text(node)[0]
    } else {
        '\\'
    }
}

/// The value of LIKE on values.
pub open spec fn pattern_match(
    value: Json,
    pattern: Json,
    escape: char,
    insensitive: bool,
    negated: bool,
) -> Outcome<Json> {
    if value is Null || pattern is Null {
        Ok(Json::Null)
    } else if value !is String {
        Err(failure("TypeError"@, "LIKE requires text"@))
    } else if pattern !is String {
        Err(failure("TypeError"@, "LIKE pattern requires text"@))
    } else {
        let matched = if insensitive {
            like_of(lower(text(value)), lower(text(pattern)), escape)
        } else {
            like_of(text(value), text(pattern), escape)
        };
        match matched {
            Ok(found) => Ok(Json::Bool(found != negated)),
            Err(error) => Err(error),
        }
    }
}

fn eval_literal(expr: &Expr) -> (result: Result<Datum>)
    ensures
        outcome(result) == literal(expr@),
{
    let node = expr.payload();
    if node.is("Null") {
        Ok(Datum::Null)
    } else if node.is("Boolean") {
        Ok(Datum::Bool(node.payload().flag()))
    } else if node.is("SingleQuotedString") {
        Ok(Datum::string(node.payload().text()))
    } else if node.is("Number") {
        match parse_i64(node.payload().item(0).text()) {
            Some(n) => Ok(Datum::integer(n)),
            None => Err(unsupported("Only signed 64-bit integer literals are implemented")),
        }
    } else {
        Err(unsupported(cat2("Literal ", expr_text(expr).as_str()).as_str()))
    }
}

fn eval_unary(op: &Datum, value: Datum) -> (result: Result<Datum>)
    ensures
        outcome(result) == unary(op@, value@),
{
    if value.is_null() {
        return Ok(value);
    }
    if op.is("Not") {
        match truth(&value)? {
            Some(b) => Ok(Datum::Bool(!b)),
            None => Ok(Datum::Null),
        }
    } else if op.is("Plus") {
        if value.as_i64().is_some() {
            Ok(value)
        } else {
            Err(err("TypeError", "Unary plus requires integer"))
        }
    } else if op.is("Minus") {
        match value.as_i64() {
            Some(n) => if n != i64::MIN {
                Ok(Datum::integer(-n))
            } else {
                Err(err("TypeError", "Integer negation overflow or incompatible type"))
            },
            None => Err(err("TypeError", "Integer negation overflow or incompatible type")),
        }
    } else {
        Err(unsupported(cat2("Unary operator ", unary_operator_text(op).as_str()).as_str()))
    }
}

fn is_comparison(op: &str) -> (result: bool)
    ensures
        result == comparison_operator(op@),
{
    same(op, "Eq") || same(op, "NotEq") || same(op, "Gt") || same(op, "GtEq") || same(op, "Lt") || same(
        op,
        "LtEq",
    )
}

fn accepts_order(op: &str, order: Order) -> (result: bool)
    ensures
        result == accepted(op@, order),
{
    if same(op, "Eq") {
        order == Order::Equal
    } else if same(op, "NotEq") {
        order != Order::Equal
    } else if same(op, "Gt") {
        order == Order::Greater
    } else if same(op, "GtEq") {
        order != Order::Less
    } else if same(op, "Lt") {
        order == Order::Less
    } else {
        order != Order::Greater
    }
}

fn is_arithmetic(op: &str) -> (result: bool)
    ensures
        result == arithmetic_operator(op@),
{
    same(op, "Plus") || same(op, "Minus") || same(op, "Multiply") || same(op, "Divide") || same(
        op,
        "Modulo",
    )
}

fn eval_binary(op: &Datum, a: Datum, b: Datum) -> (result: Result<Datum>)
    ensures
        outcome(result) == binary(op@, a@, b@),
{
    if op.is("And") || op.is("Or") {
        let x = truth(&a)?;
        let y = truth(&b)?;
        let truth_value: Option<bool> = if op.is("And") {
            if x == Some(false) || y == Some(false) {
                Some(false)
            } else if x == Some(true) && y == Some(true) {
                Some(true)
            } else {
                None
            }
        } else if x == Some(true) || y == Some(true) {
            Some(true)
        } else if x == Some(false) && y == Some(false) {
            Some(false)
        } else {
            None
        };
        return Ok(from_truth(truth_value));
    }
    if a.is_null() || b.is_null() {
        return Ok(Datum::Null);
    }
    if is_comparison(op.tag()) {
        let order = compare(&a, &b)?;
        Ok(Datum::Bool(accepts_order(op.tag(), order)))
    } else if is_arithmetic(op.tag()) {
        match (a.as_i64(), b.as_i64()) {
            (Some(m), Some(n)) => match calculate(op.tag(), m, n) {
                Some(value) => Ok(Datum::integer(value)),
                None => Err(err("TypeError", "Integer overflow or division by zero")),
            },
            _ => Err(err("TypeError", "Arithmetic requires integers")),
        }
    } else if op.is("StringConcat") {
        match (&a, &b) {
            (Datum::String(x), Datum::String(y)) => Ok(Datum::String(cat2(x.as_str(), y.as_str()))),
            _ => Err(err("TypeError", "Concatenation requires text")),
        }
    } else {
        Err(unsupported(cat2("Binary operator ", binary_operator_text(op).as_str()).as_str()))
    }
}

fn eval_between(value: &Datum, low: &Datum, high: &Datum, negated: bool) -> (result: Result<Datum>)
    ensures
        outcome(result) == between(value@, low@, high@, negated),
{
    if value.is_null() || low.is_null() || high.is_null() {
        return Ok(Datum::Null);
    }
    let order = compare(value, low)?;
    if order == Order::Less {
        return Ok(Datum::Bool(negated));
    }
    let order = compare(value, high)?;
    Ok(Datum::Bool((order != Order::Greater) != negated))
}

fn convert(target: &str, value: Datum) -> (result: Result<Datum>)
    ensures
        outcome(result) == converted(target@, value@),
{
    if same(target, "text") {
        match &value {
            Datum::String(s) => Ok(Datum::String(s.clone())),
            _ => Ok(Datum::String(json_text(&value))),
        }
    } else if same(target, "int") || same(target, "integer") || same(target, "bigint") || same(
        target,
        "smallint",
    ) {
        match &value {
            Datum::String(s) => match parse_i64(s.as_str()) {
                Some(n) => Ok(Datum::integer(n)),
                None => Err(err("TypeError", "Invalid integer CAST")),
            },
            _ => Ok(value),
        }
    } else if same(target, "json") || same(target, "jsonb") {
        match &value {
            Datum::String(s) => match read_json(s.as_str()) {
                Ok(found) => Ok(plain(&found)),
                Err(_) => Err(err("TypeError", "Invalid JSON CAST")),
            },
            _ => Ok(value),
        }
    } else {
        Ok(value)
    }
}

fn eval_cast(target: &str, value: Datum) -> (result: Result<Datum>)
    ensures
        outcome(result) == cast(target@, value@),
{
    if value.is_null() {
        return Ok(value);
    }
    check_type_supported(target)?;
    let converted_value = convert(target, value)?;
    check_typed("cast", target, true, &converted_value)?;
    Ok(converted_value)
}

fn eval_like(value: &Datum, pattern: &Datum, escape_node: &Datum, insensitive: bool, negated: bool) -> (result:
    Result<Datum>)
    ensures
        outcome(result) == pattern_match(
            value@,
            pattern@,
            escape_of(escape_node@),
            insensitive,
            negated,
        ),
{
    if value.is_null() || pattern.is_null() {
        return Ok(Datum::Null);
    }
    match (value, pattern) {
        (Datum::String(v), Datum::String(p)) => {
            let letters = chars_of(escape_node.text());
            let escape: char = if letters.len() > 0 {
                letters[0]
            } else {
                '\\'
            };
            let found = if insensitive {
                like(v.as_str().to_lowercase().as_str(), p.as_str().to_lowercase().as_str(), escape)?
            } else {
                like(v.as_str(), p.as_str(), escape)?
            };
            Ok(Datum::Bool(found != negated))
        },
        (Datum::String(_), _) => Err(err("TypeError", "LIKE pattern requires text")),
        _ => Err(err("TypeError", "LIKE requires text")),
    }
}

// ---------------------------------------------------------------------------------------------
// Expressions
// ---------------------------------------------------------------------------------------------

/// The failure for an expression outside the supported dialect.
pub open spec fn expression_refused(expr: Json) -> Outcome<Json> {
    Err(unsupported_failure("Expression "@ + expr_text_of(expr)))
}

/// Whether a function call carries a modifier.
pub open spec fn call_modified(call: Json) -> bool {
    child(call, "over"@) !is Null || child(call, "filter"@) !is Null || child(call, "null_treatment"@) !is Null
        || flag(child(call, "distinct"@)) || items(child(call, "order_by"@)).len() > 0
}

/// The value of an expression on a row for a caller.
pub open spec fn evaluated(expr: Json, row: CellsModel, caller: AuthModel) -> Outcome<Json>
    decreases weight(expr), 0int,
{
    proof {
        parts_are_lighter(expr);
        parts_are_lighter(payload(expr));
    }
    let node = payload(expr);
    if expr is Null {
        expression_refused(expr)
    } else if tag(expr) == "Value"@ {
        literal(expr)
    } else if tag(expr) == "Identifier"@ {
        match get(row, ident_name(node)) {
            Some(value) => Ok(value),
            None => Err(failure("UndefinedColumn"@, ident_name(node))),
        }
    } else if tag(expr) == "CompoundIdentifier"@ {
        match get(row, joined(ident_names(node), "."@)) {
            Some(value) => Ok(value),
            None => Err(unsupported_failure("Qualified expression requires the query backend"@)),
        }
    } else if tag(expr) == "Nested"@ {
        evaluated(node, row, caller)
    } else if tag(expr) == "IsNull"@ {
        match evaluated(node, row, caller) {
            Ok(value) => Ok(Json::Bool(value is Null)),
            Err(error) => Err(error),
        }
    } else if tag(expr) == "IsNotNull"@ {
        match evaluated(node, row, caller) {
            Ok(value) => Ok(Json::Bool(value !is Null)),
            Err(error) => Err(error),
        }
    } else if tag(expr) == "IsTrue"@ || tag(expr) == "IsFalse"@ {
        match evaluated(node, row, caller) {
            Ok(value) => match truth_of(value) {
                Ok(truth) => Ok(Json::Bool(truth == Some(tag(expr) == "IsTrue"@))),
                Err(error) => Err(error),
            },
            Err(error) => Err(error),
        }
    } else if tag(expr) == "UnaryOp"@ {
        match evaluated(child(node, "expr"@), row, caller) {
            Ok(value) => unary(child(node, "op"@), value),
            Err(error) => Err(error),
        }
    } else if tag(expr) == "BinaryOp"@ {
        match evaluated(child(node, "left"@), row, caller) {
            Err(error) => Err(error),
            Ok(a) => match evaluated(child(node, "right"@), row, caller) {
                Err(error) => Err(error),
                Ok(b) => binary(child(node, "op"@), a, b),
            },
        }
    } else if tag(expr) == "InList"@ {
        match evaluated(child(node, "expr"@), row, caller) {
            Err(error) => Err(error),
            Ok(value) => listed_from(
                child(node, "list"@),
                0,
                value,
                value is Null,
                flag(child(node, "negated"@)),
                row,
                caller,
            ),
        }
    } else if tag(expr) == "Between"@ {
        match evaluated(child(node, "expr"@), row, caller) {
            Err(error) => Err(error),
            Ok(value) => match evaluated(child(node, "low"@), row, caller) {
                Err(error) => Err(error),
                Ok(low) => match evaluated(child(node, "high"@), row, caller) {
                    Err(error) => Err(error),
                    Ok(high) => between(value, low, high, flag(child(node, "negated"@))),
                },
            },
        }
    } else if tag(expr) == "Function"@ {
        let name = function_name_of(child(node, "name"@));
        if call_modified(node) {
            Err(unsupported_failure("Function modifiers require the query backend"@))
        } else if name == "auth.uid"@ && items(child(node, "args"@)).len() == 0 {
            Ok(
                match caller.uid {
                    Some(uid) => Json::String(uid),
                    None => Json::Null,
                },
            )
        } else if name == "auth.jwt"@ && items(child(node, "args"@)).len() == 0 {
            Ok(caller.jwt_claims)
        } else if name == "coalesce"@ {
            coalesced_from(child(node, "args"@), 0, row, caller)
        } else {
            Err(unsupported_failure("Function "@ + name))
        }
    } else if tag(expr) == "Cast"@ {
        match evaluated(child(node, "expr"@), row, caller) {
            Err(error) => Err(error),
            Ok(value) => cast(data_type_of(child(node, "data_type"@)), value),
        }
    } else if tag(expr) == "Like"@ || tag(expr) == "ILike"@ {
        match evaluated(child(node, "expr"@), row, caller) {
            Err(error) => Err(error),
            Ok(value) => match evaluated(child(node, "pattern"@), row, caller) {
                Err(error) => Err(error),
                Ok(pattern) => pattern_match(
                    value,
                    pattern,
                    escape_of(child(node, "escape_char"@)),
                    tag(expr) != "Like"@,
                    flag(child(node, "negated"@)),
                ),
            },
        }
    } else if tag(expr) == "Case"@ {
        chosen_from(node, 0, row, caller)
    } else {
        expression_refused(expr)
    }
}

/// The value of IN for the items of the list from position `from` on.
pub open spec fn listed_from(
    list: Json,
    from: int,
    value: Json,
    unknown: bool,
    negated: bool,
    row: CellsModel,
    caller: AuthModel,
) -> Outcome<Json>
    decreases weight(list), items(list).len() - from,
{
    proof {
        parts_are_lighter(list);
    }
    if from < 0 || from >= items(list).len() {
        Ok(
            if unknown {
                Json::Null
            } else {
                Json::Bool(negated)
            },
        )
    } else {
        match evaluated(items(list)[from], row, caller) {
            Err(error) => Err(error),
            Ok(other) => if other is Null {
                listed_from(list, from + 1, value, true, negated, row, caller)
            } else if value is Null {
                listed_from(list, from + 1, value, unknown, negated, row, caller)
            } else {
                match compared(value, other) {
                    Err(error) => Err(error),
                    Ok(Order::Equal) => Ok(Json::Bool(!negated)),
                    Ok(_) => listed_from(list, from + 1, value, unknown, negated, row, caller),
                }
            },
        }
    }
}

/// The value of COALESCE for the arguments from position `from` on.
pub open spec fn coalesced_from(args: Json, from: int, row: CellsModel, caller: AuthModel) -> Outcome<Json>
    decreases weight(args), items(args).len() - from,
{
    proof {
        parts_are_lighter(args);
        parts_are_lighter(items(args)[from]);
        parts_are_lighter(payload(items(args)[from]));
    }
    if from < 0 || from >= items(args).len() {
        Ok(Json::Null)
    } else {
        let arg = items(args)[from];
        if tag(arg) == "Unnamed"@ && tag(payload(arg)) == "Expr"@ {
            match evaluated(payload(payload(arg)), row, caller) {
                Err(error) => Err(error),
                Ok(value) => if value is Null {
                    coalesced_from(args, from + 1, row, caller)
                } else {
                    Ok(value)
                },
            }
        } else {
            Err(unsupported_failure("Function argument"@))
        }
    }
}

/// The value of CASE for the branches from position `from` on.
pub open spec fn chosen_from(node: Json, from: int, row: CellsModel, caller: AuthModel) -> Outcome<Json>
    decreases weight(node), items(child(node, "conditions"@)).len() - from,
{
    let operand = child(node, "operand"@);
    let conditions = child(node, "conditions"@);
    let results = child(node, "results"@);
    let otherwise = child(node, "else_result"@);
    proof {
        parts_are_lighter(node);
        parts_are_lighter(conditions);
        parts_are_lighter(results);
    }
    if node is Null {
        Ok(Json::Null)
    } else if from < 0 || from >= items(conditions).len() || from >= items(results).len() {
        if otherwise is Null {
            Ok(Json::Null)
        } else {
            evaluated(otherwise, row, caller)
        }
    } else if operand is Null {
        match evaluated(items(conditions)[from], row, caller) {
            Err(error) => Err(error),
            Ok(value) => match truth_of(value) {
                Err(error) => Err(error),
                Ok(truth) => if truth == Some(true) {
                    evaluated(items(results)[from], row, caller)
                } else {
                    chosen_from(node, from + 1, row, caller)
                },
            },
        }
    } else {
        match evaluated(operand, row, caller) {
            Err(error) => Err(error),
            Ok(a) => match evaluated(items(conditions)[from], row, caller) {
                Err(error) => Err(error),
                Ok(b) => if a is Null || b is Null {
                    chosen_from(node, from + 1, row, caller)
                } else {
                    match compared(a, b) {
                        Err(error) => Err(error),
                        Ok(Order::Equal) => evaluated(items(results)[from], row, caller),
                        Ok(_) => chosen_from(node, from + 1, row, caller),
                    }
                },
            },
        }
    }
}

/// Whether a row satisfies a predicate; an absent predicate (null) holds, an unknown one does not.
pub open spec fn satisfied(expr: Json, row: CellsModel, caller: AuthModel) -> Outcome<bool> {
    if expr is Null {
        Ok(true)
    } else {
        match evaluated(expr, row, caller) {
            Err(error) => Err(error),
            Ok(value) => match truth_of(value) {
                Err(error) => Err(error),
                Ok(truth) => Ok(truth == Some(true)),
            },
        }
    }
}

fn has_modifiers(call: &Datum) -> (result: bool)
    ensures
        result == call_modified(call@),
{
    !call.child("over").is_null() || !call.child("filter").is_null() || !call.child("null_treatment").is_null()
        || call.child("distinct").flag() || call.child("order_by").count() > 0
}

/// The value of an expression on a row for a caller.
pub fn eval(expr: &Expr, row: &Cells, context: &AuthContext) -> (result: Result<Datum>)
    ensures
        outcome(result) == evaluated(expr@, row@, context.deep_view()),
    decreases weight(expr@), 0int,
{
    let node = expr.payload();
    proof {
        parts_are_lighter(expr@);
        parts_are_lighter(node@);
    }
    if expr.is_null() {
        Err(unsupported(cat2("Expression ", expr_text(expr).as_str()).as_str()))
    } else if expr.is("Value") {
        eval_literal(expr)
    } else if expr.is("Identifier") {
        let name = ident(node);
        match row.find(name.as_str()) {
            Some(value) => Ok(value.copied()),
            None => Err(err("UndefinedColumn", name.as_str())),
        }
    } else if expr.is("CompoundIdentifier") {
        match row.find(join(&names(node), ".").as_str()) {
            Some(value) => Ok(value.copied()),
            None => Err(unsupported("Qualified expression requires the query backend")),
        }
    } else if expr.is("Nested") {
        eval(node, row, context)
    } else if expr.is("IsNull") {
        let value = eval(node, row, context)?;
        Ok(Datum::Bool(value.is_null()))
    } else if expr.is("IsNotNull") {
        let value = eval(node, row, context)?;
        Ok(Datum::Bool(!value.is_null()))
    } else if expr.is("IsTrue") || expr.is("IsFalse") {
        let value = eval(node, row, context)?;
        let known = truth(&value)?;
        Ok(Datum::Bool(known == Some(expr.is("IsTrue"))))
    } else if expr.is("UnaryOp") {
        let value = eval(node.child("expr"), row, context)?;
        eval_unary(node.child("op"), value)
    } else if expr.is("BinaryOp") {
        let a = eval(node.child("left"), row, context)?;
        let b = eval(node.child("right"), row, context)?;
        eval_binary(node.child("op"), a, b)
    } else if expr.is("InList") {
        let value = eval(node.child("expr"), row, context)?;
        eval_in_list(node.child("list"), &value, node.child("negated").flag(), row, context)
    } else if expr.is("Between") {
        let value = eval(node.child("expr"), row, context)?;
        let low = eval(node.child("low"), row, context)?;
        let high = eval(node.child("high"), row, context)?;
        eval_between(&value, &low, &high, node.child("negated").flag())
    } else if expr.is("Function") {
        if has_modifiers(node) {
            return Err(unsupported("Function modifiers require the query backend"));
        }
        let name = function_name(node.child("name"));
        if same(name.as_str(), "auth.uid") && node.child("args").count() == 0 {
            match &context.uid {
                Some(uid) => Ok(Datum::String(uid.clone())),
                None => Ok(Datum::Null),
            }
        } else if same(name.as_str(), "auth.jwt") && node.child("args").count() == 0 {
            Ok(context.jwt_claims.copied())
        } else if same(name.as_str(), "coalesce") {
            eval_coalesce(node.child("args"), row, context)
        } else {
            Err(unsupported(cat2("Function ", name.as_str()).as_str()))
        }
    } else if expr.is("Cast") {
        let value = eval(node.child("expr"), row, context)?;
        let target = data_type(node.child("data_type"));
        eval_cast(target.as_str(), value)
    } else if expr.is("Like") || expr.is("ILike") {
        let value = eval(node.child("expr"), row, context)?;
        let pattern = eval(node.child("pattern"), row, context)?;
        eval_like(
            &value,
            &pattern,
            node.child("escape_char"),
            !expr.is("Like"),
            node.child("negated").flag(),
        )
    } else if expr.is("Case") {
        eval_case(node, row, context)
    } else {
        Err(unsupported(cat2("Expression ", expr_text(expr).as_str()).as_str()))
    }
}

fn eval_in_list(list: &Datum, value: &Datum, negated: bool, row: &Cells, context: &AuthContext) -> (result:
    Result<Datum>)
    ensures
        outcome(result) == listed_from(
            list@,
            0,
            value@,
            value@ is Null,
            negated,
            row@,
            context.deep_view(),
        ),
    decreases weight(list@), 1int,
{
    let mut unknown: bool = value.is_null();
    let count: usize = list.count();
    let mut i: usize = 0;
    while i < count
        invariant
            i <= count == items(list@).len(),
            listed_from(list@, 0, value@, value@ is Null, negated, row@, context.deep_view())
                == listed_from(list@, i as int, value@, unknown, negated, row@, context.deep_view()),
        decreases count - i,
    {
        proof {
            parts_are_lighter(list@);
        }
        let other = eval(list.item(i), row, context)?;
        if other.is_null() {
            unknown = true;
        } else if !value.is_null() {
            let order = compare(value, &other)?;
            if order == Order::Equal {
                return Ok(Datum::Bool(!negated));
            }
        }
        i += 1;
    }
    if unknown {
        Ok(Datum::Null)
    } else {
        Ok(Datum::Bool(negated))
    }
}

fn eval_coalesce(args: &Datum, row: &Cells, context: &AuthContext) -> (result: Result<Datum>)
    ensures
        outcome(result) == coalesced_from(args@, 0, row@, context.deep_view()),
    decreases weight(args@), 1int,
{
    let count: usize = args.count();
    let mut i: usize = 0;
    while i < count
        invariant
            i <= count == items(args@).len(),
            coalesced_from(args@, 0, row@, context.deep_view()) == coalesced_from(
                args@,
                i as int,
                row@,
                context.deep_view(),
            ),
        decreases count - i,
    {
        let arg = args.item(i);
        proof {
            parts_are_lighter(args@);
            parts_are_lighter(arg@);
            parts_are_lighter(payload(arg@));
        }
        if !(arg.is("Unnamed") && arg.payload().is("Expr")) {
            return Err(unsupported("Function argument"));
        }
        let value = eval(arg.payload().payload(), row, context)?;
        if !value.is_null() {
            return Ok(value);
        }
        i += 1;
    }
    Ok(Datum::Null)
}

fn eval_case(node: &Datum, row: &Cells, context: &AuthContext) -> (result: Result<Datum>)
    ensures
        outcome(result) == chosen_from(node@, 0, row@, context.deep_view()),
    decreases weight(node@), 1int,
{
    if node.is_null() {
        return Ok(Datum::Null);
    }
    let operand = node.child("operand");
    let conditions = node.child("conditions");
    let results = node.child("results");
    let count: usize = conditions.count();
    let mut i: usize = 0;
    while i < count && i < results.count()
        invariant
            i <= count == items(conditions@).len(),
            node@ !is Null,
            operand@ == child(node@, "operand"@),
            conditions@ == child(node@, "conditions"@),
            results@ == child(node@, "results"@),
            chosen_from(node@, 0, row@, context.deep_view()) == chosen_from(
                node@,
                i as int,
                row@,
                context.deep_view(),
            ),
        decreases count - i,
    {
        proof {
            parts_are_lighter(node@);
            parts_are_lighter(conditions@);
            parts_are_lighter(results@);
        }
        let matched: bool = if operand.is_null() {
            let value = eval(conditions.item(i), row, context)?;
            let known = truth(&value)?;
            known == Some(true)
        } else {
            let a = eval(operand, row, context)?;
            let b = eval(conditions.item(i), row, context)?;
            if a.is_null() || b.is_null() {
                false
            } else {
                let order = compare(&a, &b)?;
                order == Order::Equal
            }
        };
        if matched {
            return eval(results.item(i), row, context);
        }
        i += 1;
    }
    let otherwise = node.child("else_result");
    if otherwise.is_null() {
        Ok(Datum::Null)
    } else {
        proof {
            parts_are_lighter(node@);
        }
        eval(otherwise, row, context)
    }
}

/// Whether a row satisfies a predicate; an absent predicate (null) holds, an unknown one does not.
pub fn predicate(expr: &Datum, row: &Cells, context: &AuthContext) -> (result: Result<bool>)
    ensures
        outcome(result) == satisfied(expr@, row@, context.deep_view()),
{
    if expr.is_null() {
        return Ok(true);
    }
    let value = eval(expr, row, context)?;
    let known = truth(&value)?;
    Ok(known == Some(true))
}

// ---------------------------------------------------------------------------------------------
// Projection
// ---------------------------------------------------------------------------------------------

/// The name of the column that an expression without an alias produces.
pub open spec fn result_name(expr: Json) -> Seq<char> {
    if tag(expr) == "Identifier"@ {
        ident_name(payload(expr))
    } else if tag(expr) == "CompoundIdentifier"@ {
        ident_name(item(payload(expr), items(payload(expr)).len() - 1))
    } else {
        expr_text_of(expr)
    }
}

/// The columns that the items of a projection from position `from` on add to `out`.
pub open spec fn projected_from(
    projection: Json,
    from: int,
    out: CellsModel,
    row: CellsModel,
    caller: AuthModel,
) -> Outcome<CellsModel>
    decreases items(projection).len() - from,
{
    if from < 0 || from >= items(projection).len() {
        Ok(out)
    } else {
        let entry = items(projection)[from];
        let node = payload(entry);
        if tag(entry) == "Wildcard"@ {
            projected_from(projection, from + 1, put_all(out, row), row, caller)
        } else if tag(entry) == "ExprWithAlias"@ {
            match evaluated(child(node, "expr"@), row, caller) {
                Err(error) => Err(error),
                Ok(value) => projected_from(
                    projection,
                    from + 1,
                    put(out, ident_name(child(node, "alias"@)), value),
                    row,
                    caller,
                ),
            }
        } else if tag(entry) == "UnnamedExpr"@ {
            match evaluated(node, row, caller) {
                Err(error) => Err(error),
                Ok(value) => if has_key(out, result_name(node)) {
                    Err(
                        unsupported_failure(
                            "Duplicate result column "@ + result_name(node) + "; use aliases"@,
                        ),
                    )
                } else {
                    projected_from(
                        projection,
                        from + 1,
                        put(out, result_name(node), value),
                        row,
                        caller,
                    )
                },
            }
        } else {
            Err(unsupported_failure("Qualified wildcard"@))
        }
    }
}

/// The columns that a projection makes of a row.
pub open spec fn projected(projection: Json, row: CellsModel, caller: AuthModel) -> Outcome<CellsModel> {
    projected_from(projection, 0, Seq::empty(), row, caller)
}

fn name_of_result(expr: &Expr) -> (result: String)
    ensures
        result@ == result_name(expr@),
{
    if expr.is("Identifier") {
        ident(expr.payload())
    } else if expr.is("CompoundIdentifier") {
        let count: usize = expr.payload().count();
        if count > 0 {
            ident(expr.payload().item(count - 1))
        } else {
            ident(&Datum::Null)
        }
    } else {
        expr_text(expr)
    }
}

/// The columns that a projection makes of a row.
pub fn project(projection: &Datum, values: &Cells, context: &AuthContext) -> (result: Result<Cells>)
    ensures
        outcome(result) == projected(projection@, values@, context.deep_view()),
{
    let mut out: Cells = OrdMap::new();
    let count: usize = projection.count();
    let mut i: usize = 0;
    while i < count
        invariant
            i <= count == items(projection@).len(),
            projected(projection@, values@, context.deep_view()) == projected_from(
                projection@,
                i as int,
                out@,
                values@,
                context.deep_view(),
            ),
        decreases count - i,
    {
        let entry = projection.item(i);
        let node = entry.payload();
        if entry.is("Wildcard") {
            out.extend(values);
        } else if entry.is("ExprWithAlias") {
            let value = eval(node.child("expr"), values, context)?;
            out.insert(ident(node.child("alias")), value);
        } else if entry.is("UnnamedExpr") {
            let value = eval(node, values, context)?;
            let name = name_of_result(node);
            if out.holds(name.as_str()) {
                return Err(
                    unsupported(
                        cat3("Duplicate result column ", name.as_str(), "; use aliases").as_str(),
                    ),
                );
            }
            out.insert(name, value);
        } else {
            return Err(unsupported("Qualified wildcard"));
        }
        i += 1;
    }
    Ok(out)
}

/// The value of LIMIT or OFFSET.
pub open spec fn count_of(expr: Json, caller: AuthModel) -> Outcome<usize> {
    match evaluated(expr, Seq::empty(), caller) {
        Err(error) => Err(error),
        Ok(value) => match as_unsigned(value) {
            Some(n) => if n <= usize::MAX {
                Ok(n as usize)
            } else {
                Err(failure("TypeError"@, "LIMIT/OFFSET must be a nonnegative integer"@))
            },
            None => Err(failure("TypeError"@, "LIMIT/OFFSET must be a nonnegative integer"@)),
        },
    }
}

/// The value of LIMIT or OFFSET.
pub fn nonnegative(expr: &Expr, context: &AuthContext) -> (result: Result<usize>)
    ensures
        outcome(result) == count_of(expr@, context.deep_view()),
{
    let none: Cells = OrdMap::new();
    let value = eval(expr, &none, context)?;
    match value.as_u64() {
        Some(n) => if n <= usize::MAX as u64 {
            Ok(n as usize)
        } else {
            Err(err("TypeError", "LIMIT/OFFSET must be a nonnegative integer"))
        },
        None => Err(err("TypeError", "LIMIT/OFFSET must be a nonnegative integer")),
    }
}

} // verus!
