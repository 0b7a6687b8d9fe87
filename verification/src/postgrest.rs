//! SQL text from the filters, orders and bodies of a table request.

use vstd::prelude::*;
use crate::ast::{json_of, json_text, json_text_of, parse_json};
use crate::catalog::{find_column, Table, TableModel};
use crate::cuts::{
    contains_text, cut, cut_at, holds_text, in_parentheses, inside_parentheses, pieces, pieces_of, replace, replaced,
    trim_part, trimmed, trimmed_length,
};
use crate::error::{outcome, unsupported, unsupported_failure, Failure, Outcome, Result};
use crate::json::{group_value_views, Datum, Json, Number};
use crate::ordmap::OrdMap;
use crate::outside::upper;
use crate::pieces::{marks_are_solid, pieces_are_cut_no_further};
use crate::replica::{add_last, no_items, one_item, Replica};
use crate::text::{cat2, cat3, cat4, cat5, chars_of, join, joined, nothing, owned, same, starts_with, begins};

verus! {

broadcast use group_value_views;

/// The parameters of a request in their order.
pub type Params = Vec<(String, String)>;

/// [`Params`] in specifications.
pub type ParamsModel = Seq<(Seq<char>, Seq<char>)>;

/// The first value under `key`.
pub open spec fn param(params: ParamsModel, key: Seq<char>) -> Option<Seq<char>> {
    crate::ordmap::get(params, key)
}

/// The first value under `key`.
pub fn get<'a>(params: &'a Params, key: &str) -> (result: Option<&'a str>)
    ensures
        result.deep_view() == param(params.deep_view(), key@),
{
    let ghost model = params.deep_view();
    let mut i: usize = 0;
    while i < params.len()
        invariant
            i <= params.len(),
            model == params.deep_view(),
            param(model, key@) == crate::ordmap::get_from(model, key@, i as int),
        decreases params.len() - i,
    {
        assert(model[i as int] == (params[i as int].0@, params[i as int].1@));
        if same(params[i].0.as_str(), key) {
            return Some(params[i].1.as_str());
        }
        i += 1;
    }
    None
}

// ---------------------------------------------------------------------------------------------
// Names and values
// ---------------------------------------------------------------------------------------------

/// A quoted identifier: the name between double quotes, each double quote in it doubled.
pub open spec fn ident_of(name: Seq<char>) -> Outcome<Seq<char>> {
    if name.len() == 0 || name.contains('\0') {
        Err(unsupported_failure("Invalid identifier"@))
    } else {
        Ok("\""@ + replaced(name, '"', "\"\""@) + "\""@)
    }
}

fn holds_char(text: &str, c: char) -> (result: bool)
    ensures
        result == text@.contains(c),
{
    let characters = chars_of(text);
    let mut i: usize = 0;
    while i < characters.len()
        invariant
            i <= characters.len(),
            characters@ == text@,
            forall|j: int| 0 <= j < i ==> characters[j] != c,
        decreases characters.len() - i,
    {
        if characters[i] == c {
            assert(text@[i as int] == c);
            return true;
        }
        i += 1;
    }
    false
}

/// A quoted identifier: the name between double quotes, each double quote in it doubled.
pub fn ident(name: &str) -> (result: Result<String>)
    ensures
        outcome(result) == ident_of(name@),
{
    if same(name, "") || holds_char(name, '\0') {
        proof {
            reveal_strlit("");
            assert(name@ == ""@ ==> name@.len() == 0);
        }
        return Err(unsupported("Invalid identifier"));
    }
    proof {
        reveal_strlit("");
        assert(name@.len() == 0 ==> name@ =~= ""@);
    }
    let inner = replace(name, '"', "\"\"");
    Ok(cat3("\"", inner.as_str(), "\""))
}

/// A text between single quotes, each single quote in it doubled.
pub open spec fn quoted_text(text: Seq<char>) -> Seq<char> {
    "'"@ + replaced(text, '\'', "''"@) + "'"@
}

fn quote_text(text: &str) -> (result: String)
    ensures
        result@ == quoted_text(text@),
{
    let inner = replace(text, '\'', "''");
    cat3("'", inner.as_str(), "'")
}

/// The SQL literal of a JSON value.
pub open spec fn literal_of(value: Json) -> Seq<char> {
    match value {
        Json::Null => "NULL"@,
        Json::Bool(b) => if b {
            "TRUE"@
        } else {
            "FALSE"@
        },
        Json::Number(_) => json_text_of(value),
        Json::String(s) => quoted_text(s),
        _ => quoted_text(json_text_of(value)),
    }
}

/// The SQL literal of a JSON value. There always is one.
pub fn literal(value: &Datum) -> (result: Result<String>)
    ensures
        outcome(result) == Ok::<Seq<char>, crate::error::Failure>(literal_of(value@)),
{
    Ok(
        match value {
            Datum::Null => owned("NULL"),
            Datum::Bool(b) => if *b {
                owned("TRUE")
            } else {
                owned("FALSE")
            },
            Datum::Number(_) => json_text(value),
            Datum::String(s) => quote_text(s.as_str()),
            _ => quote_text(json_text(value).as_str()),
        },
    )
}

/// Whether values of a type are written without quotes.
pub open spec fn scalar_type(data_type: Seq<char>) -> bool {
    data_type == "smallint"@ || data_type == "integer"@ || data_type == "int"@ || data_type == "bigint"@
        || data_type == "real"@ || data_type == "float"@ || data_type == "double precision"@ || data_type
        == "boolean"@ || data_type == "bool"@ || begins(data_type, "numeric"@) || begins(data_type, "decimal"@)
}

fn is_scalar_type(data_type: &str) -> (result: bool)
    ensures
        result == scalar_type(data_type@),
{
    same(data_type, "smallint") || same(data_type, "integer") || same(data_type, "int") || same(
        data_type,
        "bigint",
    ) || same(data_type, "real") || same(data_type, "float") || same(data_type, "double precision") || same(
        data_type,
        "boolean",
    ) || same(data_type, "bool") || starts_with(data_type, "numeric") || starts_with(data_type, "decimal")
}

/// The characters from position `from` on without their escapes: a backslash stands for the
/// character after it.
pub open spec fn unescaped_from(text: Seq<char>, from: int, escaped: bool, done: Seq<char>) -> Outcome<Seq<char>>
    decreases text.len() - from,
{
    if from < 0 || from >= text.len() {
        if escaped {
            Err(unsupported_failure("Unterminated quoted filter escape"@))
        } else {
            Ok(done)
        }
    } else if escaped {
        unescaped_from(text, from + 1, false, done.push(text[from]))
    } else if text[from] == '\\' {
        unescaped_from(text, from + 1, true, done)
    } else {
        unescaped_from(text, from + 1, false, done.push(text[from]))
    }
}

/// The text of a filter value: as it stands, or between double quotes with backslash escapes.
pub open spec fn string_of(raw: Seq<char>) -> Outcome<Seq<char>> {
    if raw.len() == 0 || raw[0] != '"' && raw.last() != '"' {
        Ok(raw)
    } else if raw.len() < 2 || raw.last() != '"' {
        Err(unsupported_failure("Unterminated quoted filter value"@))
    } else {
        unescaped_from(raw.subrange(1, raw.len() - 1), 0, false, Seq::empty())
    }
}

/// The text of a filter value: as it stands, or between double quotes with backslash escapes.
pub fn postgrest_string(raw: &str) -> (result: Result<String>)
    ensures
        outcome(result) == string_of(raw@),
{
    let characters = chars_of(raw);
    let len: usize = characters.len();
    if len == 0 || characters[0] != '"' && characters[len - 1] != '"' {
        return Ok(owned(raw));
    }
    if len < 2 || characters[len - 1] != '"' {
        return Err(unsupported("Unterminated quoted filter value"));
    }
    let ghost inner = raw@.subrange(1, raw@.len() - 1);
    let mut done = nothing();
    let mut escaped = false;
    let mut i: usize = 1;
    while i < len - 1
        invariant
            1 <= i <= len - 1,
            len == characters.len(),
            characters@ == raw@,
            inner == raw@.subrange(1, raw@.len() - 1),
            unescaped_from(inner, 0, false, Seq::empty()) == unescaped_from(inner, i - 1, escaped, done@),
        decreases len - i,
    {
        assert(inner[i - 1] == characters[i as int]);
        if escaped {
            done.push(characters[i]);
            escaped = false;
        } else if characters[i] == '\\' {
            escaped = true;
        } else {
            done.push(characters[i]);
        }
        i += 1;
    }
    if escaped {
        return Err(unsupported("Unterminated quoted filter escape"));
    }
    Ok(done)
}

/// A filter value as a literal of its column's type.
pub open spec fn typed_of(raw: Seq<char>, table: TableModel, column: Seq<char>) -> Outcome<Seq<char>> {
    match crate::catalog::column_named(table.columns, column) {
        None => Err(unsupported_failure("Unknown column "@ + column)),
        Some(found) => if scalar_type(found.data_type) {
            if raw == "null"@ {
                Ok("NULL"@)
            } else {
                match json_of(raw) {
                    Ok(value) => Ok(literal_of(value)),
                    Err(_) => Err(unsupported_failure("Invalid typed filter value"@)),
                }
            }
        } else {
            match string_of(raw) {
                Ok(text) => Ok(quoted_text(text)),
                Err(error) => Err(error),
            }
        },
    }
}

fn typed(raw: &str, table: &Table, column: &str) -> (result: Result<String>)
    ensures
        outcome(result) == typed_of(raw@, table.deep_view(), column@),
{
    let at: usize = find_column(&table.columns, column);
    if at >= table.columns.len() {
        return Err(unsupported(cat2("Unknown column ", column).as_str()));
    }
    assert(table.columns.deep_view()[at as int] == table.columns[at as int].deep_view());
    if is_scalar_type(table.columns[at].data_type.as_str()) {
        if same(raw, "null") {
            return Ok(owned("NULL"));
        }
        match parse_json(raw) {
            Ok(value) => literal(&value),
            Err(_) => Err(unsupported("Invalid typed filter value")),
        }
    } else {
        let text = postgrest_string(raw)?;
        Ok(quote_text(text.as_str()))
    }
}

// ---------------------------------------------------------------------------------------------
// Lists
// ---------------------------------------------------------------------------------------------

/// The items of a list from position `i` on: cut at the commas outside parentheses and double
/// quotes, and trimmed.
pub open spec fn split_from(
    text: Seq<char>,
    i: int,
    start: int,
    depth: int,
    quoted: bool,
    escaped: bool,
    done: Seq<Seq<char>>,
) -> Outcome<Seq<Seq<char>>>
    decreases text.len() - i,
{
    if i < 0 || i >= text.len() {
        if depth != 0 || quoted {
            Err(unsupported_failure("Unbalanced expression"@))
        } else {
            Ok(done.push(trimmed(text.subrange(start, text.len() as int))))
        }
    } else if escaped {
        split_from(text, i + 1, start, depth, quoted, false, done)
    } else if text[i] == '\\' && quoted {
        split_from(text, i + 1, start, depth, quoted, true, done)
    } else if quoted != (text[i] == '"') {
        split_from(text, i + 1, start, depth, true, false, done)
    } else if text[i] == '(' {
        split_from(text, i + 1, start, depth + 1, false, false, done)
    } else if text[i] == ')' {
        if depth <= 0 {
            Err(unsupported_failure("Unbalanced expression"@))
        } else {
            split_from(text, i + 1, start, depth - 1, false, false, done)
        }
    } else if text[i] == ',' && depth == 0 {
        split_from(text, i + 1, i + 1, depth, false, false, done.push(trimmed(text.subrange(start, i))))
    } else {
        split_from(text, i + 1, start, depth, false, false, done)
    }
}

/// The items of a list.
pub open spec fn split_of(text: Seq<char>) -> Outcome<Seq<Seq<char>>> {
    split_from(text, 0, 0, 0, false, false, Seq::empty())
}

/// None of the characters that a list is read by is white space.
fn solid_marks()
    ensures
        marks_are_solid(),
{
    let _quote = '"'.is_whitespace();
    let _opened = '('.is_whitespace();
    let _closed = ')'.is_whitespace();
    let _escape = '\\'.is_whitespace();
}

/// The items of a list: cut at the commas outside parentheses and double quotes, and trimmed. An item
/// cut again is that item alone.
pub fn split(input: &str) -> (result: Result<Vec<String>>)
    ensures
        outcome(result) == split_of(input@),
        match result {
            Ok(items) => items.len() >= 1 && (forall|k: int|
                0 <= k < items.len() ==> (#[trigger] items[k])@.len() <= input@.len() && split_of(items[k]@) == Ok::<
                    Seq<Seq<char>>,
                    Failure,
                >(seq![items[k]@])),
            Err(_) => true,
        },
{
    let text = chars_of(input);
    let mut done: Vec<String> = Vec::new();
    let mut depth: usize = 0;
    let mut quoted = false;
    let mut escaped = false;
    let mut start: usize = 0;
    let mut i: usize = 0;
    assert(done.deep_view() =~= Seq::<Seq<char>>::empty());
    while i < text.len()
        invariant
            start <= i <= text.len(),
            depth <= i,
            text@ == input@,
            split_of(input@) == split_from(
                text@,
                i as int,
                start as int,
                depth as int,
                quoted,
                escaped,
                done.deep_view(),
            ),
            forall|k: int| 0 <= k < done.len() ==> (#[trigger] done[k])@.len() <= input@.len(),
        decreases text.len() - i,
    {
        let c = text[i];
        if escaped {
            escaped = false;
        } else if c == '\\' && quoted {
            escaped = true;
        } else if quoted != (c == '"') {
            quoted = true;
        } else {
            quoted = false;
            if c == '(' {
                depth += 1;
            } else if c == ')' {
                if depth == 0 {
                    return Err(unsupported("Unbalanced expression"));
                }
                depth -= 1;
            } else if c == ',' && depth == 0 {
                let item = trim_part(&text, start, i);
                proof {
                    trimmed_length(text@.subrange(start as int, i as int));
                }
                add_last(&mut done, item);
                start = i + 1;
            }
        }
        i += 1;
    }
    if depth != 0 || quoted {
        return Err(unsupported("Unbalanced expression"));
    }
    let item = trim_part(&text, start, text.len());
    proof {
        trimmed_length(text@.subrange(start as int, text@.len() as int));
    }
    add_last(&mut done, item);
    solid_marks();
    proof {
        assert forall|k: int| 0 <= k < done.len() implies split_of((#[trigger] done[k])@) == Ok::<
            Seq<Seq<char>>,
            Failure,
        >(seq![done[k]@]) by {
            assert(done.deep_view()[k] == done[k]@);
            pieces_are_cut_no_further(input@, k);
        }
    }
    Ok(done)
}

// ---------------------------------------------------------------------------------------------
// Filters
// ---------------------------------------------------------------------------------------------

/// The SQL of a comparison operator.
pub open spec fn comparison_of(op: Seq<char>) -> Option<Seq<char>> {
    if op == "eq"@ {
        Some("="@)
    } else if op == "neq"@ {
        Some("<>"@)
    } else if op == "gt"@ {
        Some(">"@)
    } else if op == "gte"@ {
        Some(">="@)
    } else if op == "lt"@ {
        Some("<"@)
    } else if op == "lte"@ {
        Some("<="@)
    } else {
        None
    }
}

fn comparison(op: &str) -> (result: Option<&'static str>)
    ensures
        result.deep_view() == comparison_of(op@),
{
    if same(op, "eq") {
        Some("=")
    } else if same(op, "neq") {
        Some("<>")
    } else if same(op, "gt") {
        Some(">")
    } else if same(op, "gte") {
        Some(">=")
    } else if same(op, "lt") {
        Some("<")
    } else if same(op, "lte") {
        Some("<=")
    } else {
        None
    }
}

/// The literals of the values from position `from` on, after those in `done`.
pub open spec fn typed_from(
    values: Seq<Seq<char>>,
    table: TableModel,
    column: Seq<char>,
    from: int,
    done: Seq<Seq<char>>,
) -> Outcome<Seq<Seq<char>>>
    decreases values.len() - from,
{
    if from < 0 || from >= values.len() {
        Ok(done)
    } else {
        match typed_of(values[from], table, column) {
            Ok(next) => typed_from(values, table, column, from + 1, done.push(next)),
            Err(error) => Err(error),
        }
    }
}

fn typed_list(values: &Vec<String>, table: &Table, column: &str) -> (result: Result<Vec<String>>)
    ensures
        outcome(result) == typed_from(values.deep_view(), table.deep_view(), column@, 0, Seq::empty()),
{
    let mut done: Vec<String> = no_items();
    let ghost model = values.deep_view();
    let mut i: usize = 0;
    while i < values.len()
        invariant
            i <= values.len(),
            model == values.deep_view(),
            typed_from(model, table.deep_view(), column@, 0, Seq::empty()) == typed_from(
                model,
                table.deep_view(),
                column@,
                i as int,
                done.deep_view(),
            ),
        decreases values.len() - i,
    {
        assert(model[i as int] == values[i as int]@);
        let next = typed(values[i].as_str(), table, column)?;
        add_last(&mut done, next);
        i += 1;
    }
    Ok(done)
}

/// The condition of one filter that is no negation.
pub open spec fn plain_filter_of(table: TableModel, column: Seq<char>, op: Seq<char>, value: Seq<char>) -> Outcome<
    Seq<char>,
> {
    match ident_of(column) {
        Err(error) => Err(error),
        Ok(field) => match comparison_of(op) {
            Some(operator) => match typed_of(value, table, column) {
                Ok(text) => Ok(field + " "@ + operator + " "@ + text),
                Err(error) => Err(error),
            },
            None => if op == "is"@ && (value == "null"@ || value == "true"@ || value == "false"@ || value
                == "unknown"@) {
                Ok(field + " IS "@ + upper(value))
            } else if op == "like"@ || op == "ilike"@ {
                Ok(field + " "@ + upper(op) + " "@ + quoted_text(replaced(value, '*', "%"@)))
            } else if op == "in"@ {
                match in_parentheses(value) {
                    None => Err(unsupported_failure("IN requires parentheses"@)),
                    Some(list) => if list.len() == 0 {
                        Ok("FALSE"@)
                    } else {
                        match split_of(list) {
                            Err(error) => Err(error),
                            Ok(values) => match typed_from(values, table, column, 0, Seq::empty()) {
                                Err(error) => Err(error),
                                Ok(texts) => Ok(field + " IN ("@ + joined(texts, ","@) + ")"@),
                            },
                        }
                    },
                }
            } else {
                Err(unsupported_failure("Filter "@ + op + " is not yet supported"@))
            },
        },
    }
}

fn plain_filter(table: &Table, column: &str, op: &str, value: &str) -> (result: Result<String>)
    ensures
        outcome(result) == plain_filter_of(table.deep_view(), column@, op@, value@),
{
    let field = ident(column)?;
    match comparison(op) {
        Some(operator) => {
            let text = typed(value, table, column)?;
            return Ok(cat5(field.as_str(), " ", operator, " ", text.as_str()));
        },
        None => {},
    }
    if same(op, "is") && (same(value, "null") || same(value, "true") || same(value, "false") || same(
        value,
        "unknown",
    )) {
        Ok(cat3(field.as_str(), " IS ", value.to_uppercase().as_str()))
    } else if same(op, "like") || same(op, "ilike") {
        let pattern = quote_text(replace(value, '*', "%").as_str());
        Ok(cat5(field.as_str(), " ", op.to_uppercase().as_str(), " ", pattern.as_str()))
    } else if same(op, "in") {
        match inside_parentheses(value) {
            None => Err(unsupported("IN requires parentheses")),
            Some(list) => {
                if same(list.as_str(), "") {
                    proof {
                        reveal_strlit("");
                    }
                    return Ok(owned("FALSE"));
                }
                proof {
                    reveal_strlit("");
                    assert(list@.len() == 0 ==> list@ =~= ""@);
                }
                let values = split(list.as_str())?;
                let texts = typed_list(&values, table, column)?;
                Ok(cat4(field.as_str(), " IN (", join(&texts, ",").as_str(), ")"))
            },
        }
    } else {
        Err(unsupported(cat3("Filter ", op, " is not yet supported").as_str()))
    }
}

/// The condition of one filter: an operator and a value after a dot, or `not.` before a filter.
pub open spec fn filter_of(table: TableModel, column: Seq<char>, expression: Seq<char>) -> Outcome<Seq<char>>
    decreases expression.len(),
{
    match cut_at(expression, "."@) {
        None => Err(unsupported_failure("Filter requires operator.value"@)),
        Some((op, value)) => if op == "not"@ && value.len() < expression.len() {
            match filter_of(table, column, value) {
                Ok(inner) => Ok("NOT ("@ + inner + ")"@),
                Err(error) => Err(error),
            }
        } else {
            plain_filter_of(table, column, op, value)
        },
    }
}

fn filter(table: &Table, column: &str, expression: &str) -> (result: Result<String>)
    ensures
        outcome(result) == filter_of(table.deep_view(), column@, expression@),
    decreases expression@.len(),
{
    proof {
        reveal_strlit(".");
    }
    match cut(expression, ".") {
        None => Err(unsupported("Filter requires operator.value")),
        Some((op, value)) => {
            assert(value@.len() < expression@.len());
            if same(op.as_str(), "not") {
                let inner = filter(table, column, value.as_str())?;
                Ok(cat3("NOT (", inner.as_str(), ")"))
            } else {
                plain_filter(table, column, op.as_str(), value.as_str())
            }
        },
    }
}

/// The word between the conditions of a boolean filter.
pub open spec fn connective(op: Seq<char>) -> Seq<char> {
    if op == "or"@ {
        " OR "@
    } else {
        " AND "@
    }
}

/// The condition of a boolean filter: filters and boolean filters in parentheses.
pub open spec fn logic_of(table: TableModel, op: Seq<char>, value: Seq<char>) -> Outcome<Seq<char>>
    decreases value.len(), 0int,
{
    match in_parentheses(value) {
        None => Err(unsupported_failure("Boolean filter requires parentheses"@)),
        Some(list) => match split_of(list) {
            Err(error) => Err(error),
            Ok(parts) => if list.len() < value.len() {
                match conditions_from(table, parts, list.len(), 0, Seq::empty()) {
                    Err(error) => Err(error),
                    Ok(conditions) => Ok("("@ + joined(conditions, connective(op)) + ")"@),
                }
            } else {
                Err(unsupported_failure("Invalid boolean filter"@))
            },
        },
    }
}

/// The conditions of the parts from position `from` on, after those in `done`. No part is longer
/// than `bound`.
pub open spec fn conditions_from(
    table: TableModel,
    parts: Seq<Seq<char>>,
    bound: nat,
    from: int,
    done: Seq<Seq<char>>,
) -> Outcome<Seq<Seq<char>>>
    decreases bound, parts.len() - from + 1,
{
    if from < 0 || from >= parts.len() {
        Ok(done)
    } else {
        match cut_at(parts[from], "."@) {
            None => Err(unsupported_failure("Invalid boolean filter"@)),
            Some((field, inner)) => {
                let condition = if (field == "and"@ || field == "or"@) && inner.len() < bound {
                    logic_of(table, field, inner)
                } else {
                    filter_of(table, field, inner)
                };
                match condition {
                    Err(error) => Err(error),
                    Ok(text) => conditions_from(table, parts, bound, from + 1, done.push(text)),
                }
            },
        }
    }
}

fn logic(table: &Table, op: &str, value: &str) -> (result: Result<String>)
    ensures
        outcome(result) == logic_of(table.deep_view(), op@, value@),
    decreases value@.len(), 0int,
{
    proof {
        reveal_strlit("(");
    }
    match inside_parentheses(value) {
        None => Err(unsupported("Boolean filter requires parentheses")),
        Some(list) => {
            let parts = split(list.as_str())?;
            assert(list@.len() < value@.len());
            let parted = conditions(table, &parts, list.as_str())?;
            let separator = if same(op, "or") {
                " OR "
            } else {
                " AND "
            };
            Ok(cat3("(", join(&parted, separator).as_str(), ")"))
        },
    }
}

fn conditions(table: &Table, parts: &Vec<String>, list: &str) -> (result: Result<Vec<String>>)
    requires
        forall|k: int| 0 <= k < parts.len() ==> (#[trigger] parts[k])@.len() <= list@.len(),
    ensures
        outcome(result) == conditions_from(
            table.deep_view(),
            parts.deep_view(),
            list@.len(),
            0,
            Seq::empty(),
        ),
    decreases list@.len(), 1int,
{
    proof {
        reveal_strlit(".");
    }
    let mut done: Vec<String> = no_items();
    let ghost model = parts.deep_view();
    let ghost bound = list@.len();
    let mut i: usize = 0;
    while i < parts.len()
        invariant
            i <= parts.len(),
            model == parts.deep_view(),
            bound == list@.len(),
            "."@.len() == 1,
            forall|k: int| 0 <= k < parts.len() ==> (#[trigger] parts[k])@.len() <= list@.len(),
            conditions_from(table.deep_view(), model, bound, 0, Seq::empty()) == conditions_from(
                table.deep_view(),
                model,
                bound,
                i as int,
                done.deep_view(),
            ),
        decreases parts.len() - i,
    {
        assert(model[i as int] == parts[i as int]@);
        match cut(parts[i].as_str(), ".") {
            None => {
                return Err(unsupported("Invalid boolean filter"));
            },
            Some((field, inner)) => {
                assert(inner@.len() < bound);
                let text = if same(field.as_str(), "and") || same(field.as_str(), "or") {
                    logic(table, field.as_str(), inner.as_str())?
                } else {
                    filter(table, field.as_str(), inner.as_str())?
                };
                add_last(&mut done, text);
            },
        }
        i += 1;
    }
    Ok(done)
}

/// Whether a parameter is no filter of the table itself: one of an embedded relation, or one of the
/// words that shape the answer.
pub open spec fn not_a_filter(name: Seq<char>) -> bool {
    name.contains('.') || name == "select"@ || name == "order"@ || name == "limit"@ || name == "offset"@
        || name == "on_conflict"@ || name == "columns"@
}

/// The conditions of the parameters from position `from` on, after those in `done`.
pub open spec fn terms_from(table: TableModel, params: ParamsModel, from: int, done: Seq<Seq<char>>) -> Outcome<
    Seq<Seq<char>>,
>
    decreases params.len() - from,
{
    if from < 0 || from >= params.len() {
        Ok(done)
    } else if not_a_filter(params[from].0) {
        terms_from(table, params, from + 1, done)
    } else {
        let term = if params[from].0 == "or"@ || params[from].0 == "and"@ {
            logic_of(table, params[from].0, params[from].1)
        } else {
            filter_of(table, params[from].0, params[from].1)
        };
        match term {
            Err(error) => Err(error),
            Ok(text) => terms_from(table, params, from + 1, done.push(text)),
        }
    }
}

/// The condition that all filters of a request state, or nothing.
pub open spec fn where_of(table: TableModel, params: ParamsModel) -> Outcome<Seq<char>> {
    match terms_from(table, params, 0, Seq::empty()) {
        Err(error) => Err(error),
        Ok(terms) => if terms.len() == 0 {
            Ok(Seq::empty())
        } else {
            Ok(" WHERE "@ + joined(terms, " AND "@))
        },
    }
}

/// The condition that all filters of a request state, or nothing.
pub fn where_clause(table: &Table, params: &Params) -> (result: Result<String>)
    ensures
        outcome(result) == where_of(table.deep_view(), params.deep_view()),
{
    let mut terms: Vec<String> = no_items();
    let ghost model = params.deep_view();
    let mut i: usize = 0;
    while i < params.len()
        invariant
            i <= params.len(),
            model == params.deep_view(),
            terms_from(table.deep_view(), model, 0, Seq::empty()) == terms_from(
                table.deep_view(),
                model,
                i as int,
                terms.deep_view(),
            ),
        decreases params.len() - i,
    {
        let name = params[i].0.as_str();
        let value = params[i].1.as_str();
        assert(model[i as int] == (name@, value@));
        let skipped = holds_char(name, '.') || same(name, "select") || same(name, "order") || same(name, "limit")
            || same(name, "offset") || same(name, "on_conflict") || same(name, "columns");
        if !skipped {
            let text = if same(name, "or") || same(name, "and") {
                logic(table, name, value)?
            } else {
                filter(table, name, value)?
            };
            add_last(&mut terms, text);
        }
        i += 1;
    }
    if terms.len() == 0 {
        let none = nothing();
        assert(none@ =~= Seq::<char>::empty());
        Ok(none)
    } else {
        Ok(cat2(" WHERE ", join(&terms, " AND ").as_str()))
    }
}

// ---------------------------------------------------------------------------------------------
// Queries
// ---------------------------------------------------------------------------------------------

/// The SQL of an ordering option.
pub open spec fn order_option_of(option: Seq<char>) -> Option<Seq<char>> {
    if option == "asc"@ {
        Some(" ASC"@)
    } else if option == "desc"@ {
        Some(" DESC"@)
    } else if option == "nullsfirst"@ {
        Some(" NULLS FIRST"@)
    } else if option == "nullslast"@ {
        Some(" NULLS LAST"@)
    } else {
        None
    }
}

fn order_option(option: &str) -> (result: Option<&'static str>)
    ensures
        result.deep_view() == order_option_of(option@),
{
    if same(option, "asc") {
        Some(" ASC")
    } else if same(option, "desc") {
        Some(" DESC")
    } else if same(option, "nullsfirst") {
        Some(" NULLS FIRST")
    } else if same(option, "nullslast") {
        Some(" NULLS LAST")
    } else {
        None
    }
}

/// An ordering term with the options from position `from` on.
pub open spec fn order_term_from(bits: Seq<Seq<char>>, from: int, done: Seq<char>) -> Outcome<Seq<char>>
    decreases bits.len() - from,
{
    if from < 0 || from >= bits.len() {
        Ok(done)
    } else {
        match order_option_of(bits[from]) {
            Some(text) => order_term_from(bits, from + 1, done + text),
            None => Err(unsupported_failure("Unknown ordering option"@)),
        }
    }
}

/// An ordering term: a column and its options after dots.
pub open spec fn order_term_of(order: Seq<char>) -> Outcome<Seq<char>> {
    let bits = pieces_of(order, "."@);
    match ident_of(bits[0]) {
        Err(error) => Err(error),
        Ok(field) => order_term_from(bits, 1, field),
    }
}

fn order_term(order: &str) -> (result: Result<String>)
    ensures
        outcome(result) == order_term_of(order@),
{
    let bits = pieces(order, ".");
    let ghost model = bits.deep_view();
    assert(model[0] == bits[0]@);
    let mut term = ident(bits[0].as_str())?;
    let mut i: usize = 1;
    while i < bits.len()
        invariant
            1 <= i <= bits.len(),
            model == bits.deep_view(),
            order_term_of(order@) == order_term_from(model, i as int, term@),
        decreases bits.len() - i,
    {
        assert(model[i as int] == bits[i as int]@);
        match order_option(bits[i].as_str()) {
            Some(text) => {
                term = cat2(term.as_str(), text);
            },
            None => {
                return Err(unsupported("Unknown ordering option"));
            },
        }
        i += 1;
    }
    Ok(term)
}

/// The ordering terms from position `from` on, after those in `done`.
pub open spec fn order_terms_from(orders: Seq<Seq<char>>, from: int, done: Seq<Seq<char>>) -> Outcome<Seq<Seq<char>>>
    decreases orders.len() - from,
{
    if from < 0 || from >= orders.len() {
        Ok(done)
    } else {
        match order_term_of(orders[from]) {
            Err(error) => Err(error),
            Ok(term) => order_terms_from(orders, from + 1, done.push(term)),
        }
    }
}

fn order_terms(orders: &Vec<String>) -> (result: Result<Vec<String>>)
    ensures
        outcome(result) == order_terms_from(orders.deep_view(), 0, Seq::empty()),
{
    let mut done: Vec<String> = no_items();
    let ghost model = orders.deep_view();
    let mut i: usize = 0;
    while i < orders.len()
        invariant
            i <= orders.len(),
            model == orders.deep_view(),
            order_terms_from(model, 0, Seq::empty()) == order_terms_from(model, i as int, done.deep_view()),
        decreases orders.len() - i,
    {
        assert(model[i as int] == orders[i as int]@);
        let term = order_term(orders[i].as_str())?;
        add_last(&mut done, term);
        i += 1;
    }
    Ok(done)
}

/// The query of a read request: every column, filtered and ordered.
pub open spec fn select_of(table: TableModel, params: ParamsModel) -> Outcome<Seq<char>> {
    match ident_of(table.name) {
        Err(error) => Err(error),
        Ok(name) => match where_of(table, params) {
            Err(error) => Err(error),
            Ok(condition) => {
                let sql = "SELECT * FROM "@ + name + condition;
                match param(params, "order"@) {
                    None => Ok(sql),
                    Some(order) => match split_of(order) {
                        Err(error) => Err(error),
                        Ok(orders) => match order_terms_from(orders, 0, Seq::empty()) {
                            Err(error) => Err(error),
                            Ok(terms) => Ok(sql + " ORDER BY "@ + joined(terms, ","@)),
                        },
                    },
                }
            },
        },
    }
}

/// The query of a read request: every column, filtered and ordered.
pub fn select_sql(table: &Table, params: &Params) -> (result: Result<String>)
    ensures
        outcome(result) == select_of(table.deep_view(), params.deep_view()),
{
    let name = ident(table.name.as_str())?;
    let condition = where_clause(table, params)?;
    let sql = cat3("SELECT * FROM ", name.as_str(), condition.as_str());
    match get(params, "order") {
        None => Ok(sql),
        Some(order) => {
            let orders = split(order)?;
            let terms = order_terms(&orders)?;
            Ok(cat3(sql.as_str(), " ORDER BY ", join(&terms, ",").as_str()))
        },
    }
}

// ---------------------------------------------------------------------------------------------
// Mutations
// ---------------------------------------------------------------------------------------------

/// The assignments of the entries from position `from` on, after those in `done`.
pub open spec fn assignments_from(entries: Seq<(Seq<char>, Json)>, from: int, done: Seq<Seq<char>>) -> Outcome<
    Seq<Seq<char>>,
>
    decreases entries.len() - from,
{
    if from < 0 || from >= entries.len() {
        Ok(done)
    } else {
        match ident_of(entries[from].0) {
            Err(error) => Err(error),
            Ok(name) => assignments_from(
                entries,
                from + 1,
                done.push(name + "="@ + literal_of(entries[from].1)),
            ),
        }
    }
}

fn assignments(object: &OrdMap<String, Datum>) -> (result: Result<Vec<String>>)
    ensures
        outcome(result) == assignments_from(object@, 0, Seq::empty()),
{
    let mut done: Vec<String> = no_items();
    let mut i: usize = 0;
    while i < object.len()
        invariant
            i <= object@.len(),
            assignments_from(object@, 0, Seq::empty()) == assignments_from(object@, i as int, done.deep_view()),
        decreases object@.len() - i,
    {
        let name = ident(object.key_at(i).as_str())?;
        let value = literal(object.value_at(i))?;
        add_last(&mut done, cat3(name.as_str(), "=", value.as_str()));
        i += 1;
    }
    Ok(done)
}

/// The identifiers of the names from position `from` on, after those in `done`.
pub open spec fn idents_from(names: Seq<Seq<char>>, from: int, done: Seq<Seq<char>>) -> Outcome<Seq<Seq<char>>>
    decreases names.len() - from,
{
    if from < 0 || from >= names.len() {
        Ok(done)
    } else {
        match ident_of(names[from]) {
            Err(error) => Err(error),
            Ok(name) => idents_from(names, from + 1, done.push(name)),
        }
    }
}

fn idents(names: &Vec<String>) -> (result: Result<Vec<String>>)
    ensures
        outcome(result) == idents_from(names.deep_view(), 0, Seq::empty()),
{
    let mut done: Vec<String> = no_items();
    let ghost model = names.deep_view();
    let mut i: usize = 0;
    while i < names.len()
        invariant
            i <= names.len(),
            model == names.deep_view(),
            idents_from(model, 0, Seq::empty()) == idents_from(model, i as int, done.deep_view()),
        decreases names.len() - i,
    {
        assert(model[i as int] == names[i as int]@);
        let name = ident(names[i].as_str())?;
        add_last(&mut done, name);
        i += 1;
    }
    Ok(done)
}

/// The names of the entries of an object.
pub open spec fn keys_of(entries: Seq<(Seq<char>, Json)>) -> Seq<Seq<char>> {
    Seq::new(entries.len(), |i: int| entries[i].0)
}

fn keys(object: &OrdMap<String, Datum>) -> (result: Vec<String>)
    ensures
        result.deep_view() == keys_of(object@),
{
    let mut done: Vec<String> = no_items();
    let ghost goal = keys_of(object@);
    let mut i: usize = 0;
    while i < object.len()
        invariant
            i <= object@.len(),
            goal == keys_of(object@),
            done.deep_view() == goal.take(i as int),
        decreases object@.len() - i,
    {
        add_last(&mut done, object.key_at(i).clone());
        assert(done.deep_view() =~= goal.take(i + 1));
        i += 1;
    }
    assert(goal.take(object@.len() as int) =~= goal);
    done
}

/// The literals of the entries of an object.
pub open spec fn literals_of(entries: Seq<(Seq<char>, Json)>) -> Seq<Seq<char>> {
    Seq::new(entries.len(), |i: int| literal_of(entries[i].1))
}

fn literals(object: &OrdMap<String, Datum>) -> (result: Result<Vec<String>>)
    ensures
        result is Ok,
        result->Ok_0.deep_view() == literals_of(object@),
{
    let mut done: Vec<String> = no_items();
    let ghost goal = literals_of(object@);
    let mut i: usize = 0;
    while i < object.len()
        invariant
            i <= object@.len(),
            goal == literals_of(object@),
            done.deep_view() == goal.take(i as int),
        decreases object@.len() - i,
    {
        let text = literal(object.value_at(i))?;
        add_last(&mut done, text);
        assert(done.deep_view() =~= goal.take(i + 1));
        i += 1;
    }
    assert(goal.take(object@.len() as int) =~= goal);
    Ok(done)
}

/// The groups of values of the rows from position `from` on, after those in `done`; each row has to
/// be an object with these columns.
pub open spec fn groups_from(rows: Seq<Json>, columns: Seq<Seq<char>>, from: int, done: Seq<Seq<char>>) -> Outcome<
    Seq<Seq<char>>,
>
    decreases rows.len() - from,
{
    if from < 0 || from >= rows.len() {
        Ok(done)
    } else {
        match rows[from] {
            Json::Object(entries) => if keys_of(entries) != columns {
                Err(unsupported_failure("Bulk insert requires consistent columns"@))
            } else {
                groups_from(
                    rows,
                    columns,
                    from + 1,
                    done.push("("@ + joined(literals_of(entries), ","@) + ")"@),
                )
            },
            _ => Err(unsupported_failure("INSERT expects objects"@)),
        }
    }
}

fn groups(rows: &Vec<Datum>, columns: &Vec<String>) -> (result: Result<Vec<String>>)
    ensures
        outcome(result) == groups_from(rows.deep_view(), columns.deep_view(), 0, Seq::empty()),
{
    let mut done: Vec<String> = no_items();
    let ghost model = rows.deep_view();
    let ghost names = columns.deep_view();
    let mut i: usize = 0;
    while i < rows.len()
        invariant
            i <= rows.len(),
            model == rows.deep_view(),
            names == columns.deep_view(),
            groups_from(model, names, 0, Seq::empty()) == groups_from(model, names, i as int, done.deep_view()),
        decreases rows.len() - i,
    {
        assert(model[i as int] == rows[i as int]@);
        match &rows[i] {
            Datum::Object(map) => {
                let own = keys(map);
                if !crate::text::same_names(&own, columns) {
                    return Err(unsupported("Bulk insert requires consistent columns"));
                }
                let values = literals(map)?;
                add_last(&mut done, cat3("(", join(&values, ",").as_str(), ")"));
            },
            _ => {
                return Err(unsupported("INSERT expects objects"));
            },
        }
        i += 1;
    }
    Ok(done)
}

/// The rows of a body: its items, or the body itself.
pub open spec fn body_rows(body: Json) -> Seq<Json> {
    match body {
        Json::Array(list) => list,
        _ => seq![body],
    }
}

fn rows_of_body(body: &Datum) -> (result: Vec<Datum>)
    ensures
        result.deep_view() == body_rows(body@),
{
    match body {
        Datum::Array(list) => list.replica(),
        _ => one_item(body.copied()),
    }
}

/// The assignments of an upsert from position `from` on, after those in `done`.
pub open spec fn excluded_from(names: Seq<Seq<char>>, from: int, done: Seq<Seq<char>>) -> Outcome<Seq<Seq<char>>>
    decreases names.len() - from,
{
    if from < 0 || from >= names.len() {
        Ok(done)
    } else {
        match ident_of(names[from]) {
            Err(error) => Err(error),
            Ok(name) => excluded_from(names, from + 1, done.push(name + "=EXCLUDED."@ + name)),
        }
    }
}

fn excluded(names: &Vec<String>) -> (result: Result<Vec<String>>)
    ensures
        outcome(result) == excluded_from(names.deep_view(), 0, Seq::empty()),
{
    let mut done: Vec<String> = no_items();
    let ghost model = names.deep_view();
    let mut i: usize = 0;
    while i < names.len()
        invariant
            i <= names.len(),
            model == names.deep_view(),
            excluded_from(model, 0, Seq::empty()) == excluded_from(model, i as int, done.deep_view()),
        decreases names.len() - i,
    {
        assert(model[i as int] == names[i as int]@);
        let name = ident(names[i].as_str())?;
        add_last(&mut done, cat3(name.as_str(), "=EXCLUDED.", name.as_str()));
        i += 1;
    }
    Ok(done)
}

/// The columns whose conflict an upsert resolves: those of the request, or the primary key.
pub open spec fn conflict_target(table: TableModel, params: ParamsModel) -> Seq<Seq<char>> {
    match param(params, "on_conflict"@) {
        Some(list) => pieces_of(list, ","@),
        None => table.primary_key,
    }
}

/// What an upsert does on a conflict.
pub open spec fn conflict_clause(
    table: TableModel,
    params: ParamsModel,
    columns: Seq<Seq<char>>,
    prefer: Seq<char>,
) -> Outcome<Seq<char>> {
    let target = conflict_target(table, params);
    if target.len() == 0 {
        Err(unsupported_failure("Upsert requires a conflict target"@))
    } else {
        match idents_from(target, 0, Seq::empty()) {
            Err(error) => Err(error),
            Ok(names) => {
                let head = " ON CONFLICT ("@ + joined(names, ","@) + ") "@;
                if holds_text(prefer, "resolution=ignore-duplicates"@) {
                    Ok(head + "DO NOTHING"@)
                } else {
                    match excluded_from(columns, 0, Seq::empty()) {
                        Err(error) => Err(error),
                        Ok(assigned) => Ok(head + "DO UPDATE SET "@ + joined(assigned, ","@)),
                    }
                }
            },
        }
    }
}

fn on_conflict(table: &Table, params: &Params, columns: &Vec<String>, prefer: &str) -> (result: Result<String>)
    ensures
        outcome(result) == conflict_clause(
            table.deep_view(),
            params.deep_view(),
            columns.deep_view(),
            prefer@,
        ),
{
    let target = match get(params, "on_conflict") {
        Some(list) => pieces(list, ","),
        None => table.primary_key.replica(),
    };
    if target.len() == 0 {
        return Err(unsupported("Upsert requires a conflict target"));
    }
    let names = idents(&target)?;
    let head = cat3(" ON CONFLICT (", join(&names, ",").as_str(), ") ");
    if contains_text(prefer, "resolution=ignore-duplicates") {
        Ok(cat2(head.as_str(), "DO NOTHING"))
    } else {
        let assigned = excluded(columns)?;
        Ok(cat3(head.as_str(), "DO UPDATE SET ", join(&assigned, ",").as_str()))
    }
}

/// The statement that inserts the rows of a body.
pub open spec fn insert_of(
    name: Seq<char>,
    table: TableModel,
    params: ParamsModel,
    body: Json,
    prefer: Seq<char>,
) -> Outcome<Seq<char>> {
    let rows = body_rows(body);
    if rows.len() == 0 {
        Err(unsupported_failure("INSERT expects at least one row"@))
    } else {
        match rows[0] {
            Json::Object(first) => {
                let columns = keys_of(first);
                match groups_from(rows, columns, 0, Seq::empty()) {
                    Err(error) => Err(error),
                    Ok(values) => match idents_from(columns, 0, Seq::empty()) {
                        Err(error) => Err(error),
                        Ok(names) => {
                            let sql = if columns.len() == 0 {
                                "INSERT INTO "@ + name + " DEFAULT VALUES"@
                            } else {
                                "INSERT INTO "@ + name + " ("@ + joined(names, ","@) + ") VALUES "@ + joined(
                                    values,
                                    ","@,
                                )
                            };
                            if holds_text(prefer, "resolution="@) {
                                match conflict_clause(table, params, columns, prefer) {
                                    Err(error) => Err(error),
                                    Ok(clause) => Ok(sql + clause + " RETURNING *"@),
                                }
                            } else {
                                Ok(sql + " RETURNING *"@)
                            }
                        },
                    },
                }
            },
            _ => Err(unsupported_failure("INSERT expects objects"@)),
        }
    }
}

fn insert_sql(name: &str, table: &Table, params: &Params, body: &Datum, prefer: &str) -> (result: Result<String>)
    ensures
        outcome(result) == insert_of(name@, table.deep_view(), params.deep_view(), body@, prefer@),
{
    let rows = rows_of_body(body);
    if rows.len() == 0 {
        return Err(unsupported("INSERT expects at least one row"));
    }
    assert(rows.deep_view()[0] == rows[0]@);
    let columns = match &rows[0] {
        Datum::Object(first) => keys(first),
        _ => {
            return Err(unsupported("INSERT expects objects"));
        },
    };
    let values = groups(&rows, &columns)?;
    let names = idents(&columns)?;
    let sql = if columns.len() == 0 {
        cat3("INSERT INTO ", name, " DEFAULT VALUES")
    } else {
        let head = cat3("INSERT INTO ", name, " (");
        cat4(
            head.as_str(),
            join(&names, ",").as_str(),
            ") VALUES ",
            join(&values, ",").as_str(),
        )
    };
    if contains_text(prefer, "resolution=") {
        let clause = on_conflict(table, params, &columns, prefer)?;
        Ok(cat3(sql.as_str(), clause.as_str(), " RETURNING *"))
    } else {
        Ok(cat2(sql.as_str(), " RETURNING *"))
    }
}

/// The statement of a request that changes rows.
pub open spec fn mutation_of(
    method: Seq<char>,
    table: TableModel,
    params: ParamsModel,
    body: Json,
    prefer: Seq<char>,
) -> Outcome<Seq<char>> {
    match ident_of(table.name) {
        Err(error) => Err(error),
        Ok(name) => if method == "DELETE"@ {
            match where_of(table, params) {
                Err(error) => Err(error),
                Ok(condition) => Ok("DELETE FROM "@ + name + condition + " RETURNING *"@),
            }
        } else if method == "PATCH"@ {
            match body {
                Json::Object(entries) => if entries.len() == 0 {
                    Err(unsupported_failure("UPDATE requires at least one column"@))
                } else {
                    match assignments_from(entries, 0, Seq::empty()) {
                        Err(error) => Err(error),
                        Ok(assigned) => match where_of(table, params) {
                            Err(error) => Err(error),
                            Ok(condition) => Ok(
                                "UPDATE "@ + name + " SET "@ + joined(assigned, ","@) + condition
                                    + " RETURNING *"@,
                            ),
                        },
                    }
                },
                _ => Err(unsupported_failure("UPDATE expects an object"@)),
            }
        } else if method == "POST"@ {
            insert_of(name, table, params, body, prefer)
        } else {
            Err(unsupported_failure("Unsupported HTTP method"@))
        },
    }
}

/// The statement of a request that changes rows.
pub fn mutation_sql(method: &str, table: &Table, params: &Params, body: &Datum, prefer: &str) -> (result: Result<
    String,
>)
    ensures
        outcome(result) == mutation_of(method@, table.deep_view(), params.deep_view(), body@, prefer@),
{
    let name = ident(table.name.as_str())?;
    if same(method, "DELETE") {
        let condition = where_clause(table, params)?;
        Ok(cat4("DELETE FROM ", name.as_str(), condition.as_str(), " RETURNING *"))
    } else if same(method, "PATCH") {
        match body {
            Datum::Object(object) => {
                if object.len() == 0 {
                    return Err(unsupported("UPDATE requires at least one column"));
                }
                let assigned = assignments(object)?;
                let condition = where_clause(table, params)?;
                let head = cat3("UPDATE ", name.as_str(), " SET ");
                Ok(cat4(head.as_str(), join(&assigned, ",").as_str(), condition.as_str(), " RETURNING *"))
            },
            _ => Err(unsupported("UPDATE expects an object")),
        }
    } else if same(method, "POST") {
        insert_sql(name.as_str(), table, params, body, prefer)
    } else {
        Err(unsupported("Unsupported HTTP method"))
    }
}

} // verus!
