//! Syntax trees: the serialized form in which the SQL parser hands them over.
//!
//! A node of an enumeration is a text, or an object with the variant's name as its only key; a
//! structure is an object with its fields; a name is an object with a value and a quote style.

use vstd::prelude::*;
use crate::decode::read_expr_of;
use crate::error::{err, failure, outcome, unsupported, unsupported_failure, Outcome, Result};
use crate::guards::{is_parseable, is_printable, parses, printable, solid_tokens, Spot};
use crate::json::{group_value_views, Datum, Json};
use crate::layout::{keeps_layout, layout_text, layout_value, read_nesting, LayoutModel};
use crate::ordmap::{get, get_from, has_key, OrdMap};
use crate::outside::{
    binary_operator_display, column_option_display, data_type_display, display_binary_operator,
    display_column_option, display_data_type, display_expr, display_json, display_statement,
    display_table_constraint, display_unary_operator, expr_display, expression_parts, json_display, json_read, lower, outside_json,
    outside_of, plain, plain_json, read_expressions, read_json, read_relations, read_sql, read_tokens, sql_read, statement_display,
    statement_relations, table_constraint_display, token_list, tokens_read, unary_operator_display,
};
use crate::replica::{add_last, no_items};
use crate::text::{cat2, join, joined, nothing, same};
use crate::value::{child, item, items, payload, tag, tagged, text};

verus! {

broadcast use group_value_views;

/// An expression as a syntax tree.
pub type Expr = Datum;

// ---------------------------------------------------------------------------------------------
// Names
// ---------------------------------------------------------------------------------------------

/// The name that an identifier stands for: folded to lower case unless it is quoted.
pub open spec fn ident_name(ident: Json) -> Seq<char> {
    if child(ident, "quote_style"@) is Null {
        lower(text(child(ident, "value"@)))
    } else {
        text(child(ident, "value"@))
    }
}

/// The names of a list of identifiers.
pub open spec fn ident_names(idents: Json) -> Seq<Seq<char>> {
    Seq::new(items(idents).len(), |i: int| ident_name(items(idents)[i]))
}

/// The table that a possibly qualified name stands for.
pub open spec fn table_name_of(name: Json) -> Outcome<Seq<char>> {
    if items(name).len() == 1 {
        Ok(ident_name(item(name, 0)))
    } else if items(name).len() == 2 && ident_name(item(name, 0)) == "public"@ {
        Ok(ident_name(item(name, 1)))
    } else {
        Err(unsupported_failure("Only the local public schema is supported"@))
    }
}

/// The table that a plain table factor names.
pub open spec fn factor_name_of(factor: Json) -> Outcome<Seq<char>> {
    if tag(factor) == "Table"@ && child(payload(factor), "args"@) is Null {
        table_name_of(child(payload(factor), "name"@))
    } else {
        Err(unsupported_failure("Derived tables and table functions require the query backend"@))
    }
}

/// Whether the expression is the bare word `DEFAULT`.
pub open spec fn default_word(expr: Json) -> bool {
    &&& tag(expr) == "Identifier"@
    &&& child(payload(expr), "quote_style"@) is Null
    &&& ident_name(payload(expr)) == "default"@
}

/// The name that an identifier stands for.
pub fn ident(value: &Datum) -> (result: String)
    ensures
        result@ == ident_name(value@),
{
    if value.child("quote_style").is_null() {
        value.child("value").text().to_lowercase()
    } else {
        crate::text::owned(value.child("value").text())
    }
}

/// The names of a list of identifiers.
pub fn names(values: &Datum) -> (result: Vec<String>)
    ensures
        result.deep_view() == ident_names(values@),
{
    let mut result: Vec<String> = no_items();
    let count: usize = values.count();
    let mut i: usize = 0;
    while i < count
        invariant
            i <= count == items(values@).len(),
            result.deep_view() == ident_names(values@).take(i as int),
        decreases count - i,
    {
        add_last(&mut result, ident(values.item(i)));
        i += 1;
        assert(result.deep_view() =~= ident_names(values@).take(i as int));
    }
    assert(ident_names(values@).take(count as int) =~= ident_names(values@));
    result
}

/// The table that a possibly qualified name stands for.
pub fn table_name(name: &Datum) -> (result: Result<String>)
    ensures
        outcome(result) == table_name_of(name@),
{
    let count: usize = name.count();
    if count == 1 {
        Ok(ident(name.item(0)))
    } else if count == 2 && same(ident(name.item(0)).as_str(), "public") {
        Ok(ident(name.item(1)))
    } else {
        Err(unsupported("Only the local public schema is supported"))
    }
}

/// The table that a plain table factor names.
pub fn factor_name(factor: &Datum) -> (result: Result<String>)
    ensures
        outcome(result) == factor_name_of(factor@),
{
    if factor.is("Table") && factor.payload().child("args").is_null() {
        table_name(factor.payload().child("name"))
    } else {
        Err(unsupported("Derived tables and table functions require the query backend"))
    }
}

/// Whether the expression is the bare word `DEFAULT`.
pub fn is_default(expr: &Expr) -> (result: bool)
    ensures
        result == default_word(expr@),
{
    expr.is("Identifier") && expr.payload().child("quote_style").is_null() && same(
        ident(expr.payload()).as_str(),
        "default",
    )
}

/// An identifier quoted with double quotes.
pub open spec fn quoted_ident(name: Seq<char>) -> Json {
    Json::Object(seq![("quote_style"@, Json::String("\""@)), ("value"@, Json::String(name))])
}

/// An identifier quoted with double quotes.
pub fn quoted(name: &str) -> (result: Datum)
    ensures
        result@ == quoted_ident(name@),
{
    let mut entries: Vec<(String, Datum)> = Vec::new();
    entries.push((crate::text::owned("quote_style"), Datum::string("\"")));
    entries.push((crate::text::owned("value"), Datum::string(name)));
    let map = OrdMap { entries };
    assert(map@ =~= quoted_ident(name@)->Object_0);
    Datum::Object(map)
}

// ---------------------------------------------------------------------------------------------
// Text of nodes
// ---------------------------------------------------------------------------------------------

/// The text where there is one, else no characters.
pub open spec fn or_nothing(found: Option<Seq<char>>) -> Seq<char> {
    match found {
        Some(characters) => characters,
        None => Seq::empty(),
    }
}

fn given(found: Option<String>) -> (result: String)
    ensures
        result@ == or_nothing(found.deep_view()),
{
    match found {
        Some(characters) => characters,
        None => nothing(),
    }
}

fn no_text() -> (result: String)
    ensures
        result@ == Seq::<char>::empty(),
{
    let none = nothing();
    assert(none@ =~= Seq::<char>::empty());
    none
}

/// Whether a node can be printed; trees of the parser can, but for external tables without a place.
pub open spec fn prints(node: Json) -> bool {
    printable(plain_json(outside_json(node)), Spot::Plain)
}

/// The SQL text of an expression.
pub open spec fn expr_text_of(expr: Json) -> Seq<char> {
    if prints(expr) {
        or_nothing(expr_display(outside_json(expr)))
    } else {
        Seq::empty()
    }
}

/// The SQL text of a data type in lower case.
pub open spec fn data_type_of(node: Json) -> Seq<char> {
    lower(
        if prints(node) {
            or_nothing(data_type_display(outside_json(node)))
        } else {
            Seq::empty()
        },
    )
}

/// The SQL text of a statement.
pub open spec fn statement_text_of(statement: Json) -> Seq<char> {
    if prints(statement) {
        or_nothing(statement_display(outside_json(statement)))
    } else {
        Seq::empty()
    }
}

/// The SQL text of a binary operator.
pub open spec fn binary_operator_text_of(node: Json) -> Seq<char> {
    or_nothing(binary_operator_display(outside_json(node)))
}

/// The SQL text of a unary operator.
pub open spec fn unary_operator_text_of(node: Json) -> Seq<char> {
    or_nothing(unary_operator_display(outside_json(node)))
}

/// The SQL text of a column option.
pub open spec fn column_option_text_of(node: Json) -> Seq<char> {
    if prints(node) {
        or_nothing(column_option_display(outside_json(node)))
    } else {
        Seq::empty()
    }
}

/// The SQL text of a table constraint.
pub open spec fn constraint_text_of(node: Json) -> Seq<char> {
    if prints(node) {
        or_nothing(table_constraint_display(outside_json(node)))
    } else {
        Seq::empty()
    }
}

/// The name of a called function in lower case, its parts joined by periods.
pub open spec fn function_name_of(name: Json) -> Seq<char> {
    lower(expr_text_of(tagged("CompoundIdentifier"@, name)))
}

/// The compact text of a JSON value.
pub open spec fn json_text_of(value: Json) -> Seq<char> {
    json_display(outside_json(value))
}

pub fn expr_text(expr: &Expr) -> (result: String)
    ensures
        result@ == expr_text_of(expr@),
{
    let tree = outside_of(expr);
    let shown = if is_printable(&plain(&tree), Spot::Plain) {
        given(display_expr(tree))
    } else {
        no_text()
    };
    shown
}

pub fn data_type(node: &Datum) -> (result: String)
    ensures
        result@ == data_type_of(node@),
{
    let tree = outside_of(node);
    let shown = if is_printable(&plain(&tree), Spot::Plain) {
        given(display_data_type(tree))
    } else {
        no_text()
    };
    shown.as_str().to_lowercase()
}

pub fn statement_text(statement: &Datum) -> (result: String)
    ensures
        result@ == statement_text_of(statement@),
{
    let tree = outside_of(statement);
    let shown = if is_printable(&plain(&tree), Spot::Plain) {
        given(display_statement(tree))
    } else {
        no_text()
    };
    shown
}

pub fn binary_operator_text(node: &Datum) -> (result: String)
    ensures
        result@ == binary_operator_text_of(node@),
{
    given(display_binary_operator(outside_of(node)))
}

pub fn unary_operator_text(node: &Datum) -> (result: String)
    ensures
        result@ == unary_operator_text_of(node@),
{
    given(display_unary_operator(outside_of(node)))
}

pub fn column_option_text(node: &Datum) -> (result: String)
    ensures
        result@ == column_option_text_of(node@),
{
    let tree = outside_of(node);
    let shown = if is_printable(&plain(&tree), Spot::Plain) {
        given(display_column_option(tree))
    } else {
        no_text()
    };
    shown
}

pub fn constraint_text(node: &Datum) -> (result: String)
    ensures
        result@ == constraint_text_of(node@),
{
    let tree = outside_of(node);
    let shown = if is_printable(&plain(&tree), Spot::Plain) {
        given(display_table_constraint(tree))
    } else {
        no_text()
    };
    shown
}

pub fn function_name(name: &Datum) -> (result: String)
    ensures
        result@ == function_name_of(name@),
{
    let wrapped = Datum::tagged("CompoundIdentifier", name.copied());
    expr_text(&wrapped).as_str().to_lowercase()
}

pub fn json_text(value: &Datum) -> (result: String)
    ensures
        result@ == json_text_of(value@),
{
    display_json(&outside_of(value))
}

/// The value that a JSON text stands for, or why it is none.
pub open spec fn json_of(source: Seq<char>) -> std::result::Result<Json, Seq<char>> {
    match json_read(source) {
        Ok(value) => Ok(plain_json(value)),
        Err(message) => Err(message),
    }
}

/// The value that a JSON text stands for, or why it is none. A layout that JSON keeps whole is read as
/// its value.
pub fn parse_json(source: &str) -> (result: std::result::Result<Datum, String>)
    ensures
        (match result {
            Ok(value) => Ok(value@),
            Err(message) => Err(message@),
        }) == json_of(source@),
        forall|layout: LayoutModel|
            #![trigger layout_text(layout)]
            keeps_layout(layout, read_nesting()) && source@ == layout_text(layout) ==> json_of(source@) == Ok::<
                Json,
                Seq<char>,
            >(layout_value(layout)),
{
    match read_json(source) {
        Ok(value) => Ok(plain(&value)),
        Err(message) => Err(message),
    }
}

// ---------------------------------------------------------------------------------------------
// Reading SQL text
// ---------------------------------------------------------------------------------------------

/// The library's form of a list of outside values.
pub open spec fn plain_all(trees: Seq<serde_json::Value>) -> Seq<Json> {
    Seq::new(trees.len(), |i: int| plain_json(trees[i]))
}

fn plain_list(trees: &Vec<serde_json::Value>) -> (result: Vec<Datum>)
    ensures
        result.deep_view() == plain_all(trees@),
{
    let mut result: Vec<Datum> = no_items();
    let mut i: usize = 0;
    while i < trees.len()
        invariant
            i <= trees.len(),
            result.deep_view() == plain_all(trees@).take(i as int),
        decreases trees.len() - i,
    {
        add_last(&mut result, plain(&trees[i]));
        i += 1;
        assert(result.deep_view() =~= plain_all(trees@).take(i as int));
    }
    assert(plain_all(trees@).take(trees@.len() as int) =~= plain_all(trees@));
    result
}

/// The statements of an SQL text; none of one with a clause that the parser cannot take.
pub open spec fn statements_of(sql: Seq<char>) -> Outcome<Seq<Json>> {
    if !parses(tokens_read(sql, true)) {
        Err(failure("SyntaxError"@, "Malformed clause"@))
    } else {
        match sql_read(sql) {
            Ok(trees) => Ok(plain_all(trees)),
            Err(message) => Err(failure("SyntaxError"@, message)),
        }
    }
}

/// The statements of an SQL text.
pub fn parse_statements(sql: &str) -> (result: Result<Vec<Datum>>)
    ensures
        outcome(result) == statements_of(sql@),
{
    match read_tokens(sql, true) {
        Ok(list) => {
            if !is_parseable(&solid_tokens(&list)) {
                return Err(err("SyntaxError", "Malformed clause"));
            }
        },
        Err(_) => {},
    }
    match read_sql(sql) {
        Ok(trees) => Ok(plain_list(&trees)),
        Err(message) => Err(err("SyntaxError", message.as_str())),
    }
}

/// The first item of a list; null where the list is empty.
pub open spec fn first_of(list: Seq<Json>) -> Json {
    if list.len() > 0 {
        list[0]
    } else {
        Json::Null
    }
}

/// The first item of a list; null where the list is empty.
pub fn first(list: &Vec<Datum>) -> (result: &Datum)
    ensures
        result@ == first_of(list.deep_view()),
{
    if list.len() > 0 {
        &list[0]
    } else {
        &Datum::Null
    }
}

/// The texts of the tokens from position `from` on, blanks and comments left out.
pub open spec fn words_from(tokens: Seq<(serde_json::Value, Seq<char>)>, from: int) -> Seq<Seq<char>>
    decreases tokens.len() - from,
{
    if from >= tokens.len() {
        Seq::empty()
    } else if tag(plain_json(tokens[from].0)) == "Whitespace"@ {
        words_from(tokens, from + 1)
    } else {
        seq![tokens[from].1] + words_from(tokens, from + 1)
    }
}

/// The words of an SQL text as written, blanks and comments left out.
pub open spec fn words_of(sql: Seq<char>) -> Outcome<Seq<Seq<char>>> {
    match tokens_read(sql, false) {
        Ok(tokens) => Ok(words_from(tokens, 0)),
        Err(message) => Err(failure("SyntaxError"@, message)),
    }
}

/// The words of an SQL text as written, blanks and comments left out.
pub fn tokens(sql: &str) -> (result: Result<Vec<String>>)
    ensures
        outcome(result) == words_of(sql@),
{
    match read_tokens(sql, false) {
        Ok(list) => {
            let mut words: Vec<String> = no_items();
            let mut i: usize = 0;
            let ghost all = token_list(list@);
            while i < list.len()
                invariant
                    i <= list.len(),
                    all == token_list(list@),
                    words.deep_view() + words_from(all, i as int) == words_from(all, 0),
                decreases list.len() - i,
            {
                let ghost before = words.deep_view();
                assert(all[i as int] == (list[i as int].0, list[i as int].1@));
                if !plain(&list[i].0).is("Whitespace") {
                    add_last(&mut words, list[i].1.clone());
                    assert(words.deep_view() + words_from(all, i + 1) =~= before + (seq![all[i as int].1]
                        + words_from(all, i + 1)));
                }
                i += 1;
            }
            assert(words.deep_view() + Seq::<Seq<char>>::empty() =~= words.deep_view());
            Ok(words)
        },
        Err(message) => Err(err("SyntaxError", message.as_str())),
    }
}

/// The statements formed by `current` and the words from position `from` on, cut at semicolons.
pub open spec fn split_from(words: Seq<Seq<char>>, from: int, current: Seq<Seq<char>>) -> Seq<Seq<char>>
    decreases words.len() - from,
{
    if from >= words.len() {
        if current.len() > 0 {
            seq![joined(current, " "@)]
        } else {
            Seq::empty()
        }
    } else if words[from] == ";"@ {
        if current.len() > 0 {
            seq![joined(current, " "@)] + split_from(words, from + 1, Seq::empty())
        } else {
            split_from(words, from + 1, Seq::empty())
        }
    } else {
        split_from(words, from + 1, current.push(words[from]))
    }
}

/// The texts of the non-empty statements of a batch.
pub open spec fn batch_of(sql: Seq<char>) -> Outcome<Seq<Seq<char>>> {
    match words_of(sql) {
        Ok(words) => Ok(split_from(words, 0, Seq::empty())),
        Err(error) => Err(error),
    }
}

/// The texts of the non-empty statements of a batch.
pub fn split_statements(sql: &str) -> (result: Result<Vec<String>>)
    ensures
        outcome(result) == batch_of(sql@),
{
    let words = tokens(sql)?;
    let mut out: Vec<String> = no_items();
    let mut current: Vec<String> = no_items();
    let mut i: usize = 0;
    let ghost all = words.deep_view();
    let ghost goal = split_from(all, 0, Seq::empty());
    while i < words.len()
        invariant
            i <= words.len(),
            all == words.deep_view(),
            out.deep_view() + split_from(all, i as int, current.deep_view()) == goal,
        decreases words.len() - i,
    {
        let ghost before = out.deep_view();
        assert(all[i as int] == words[i as int]@);
        if same(words[i].as_str(), ";") {
            if current.len() > 0 {
                add_last(&mut out, join(&current, " "));
                assert(out.deep_view() + split_from(all, i + 1, Seq::empty()) =~= before + (seq![
                    joined(current.deep_view(), " "@),
                ] + split_from(all, i + 1, Seq::empty())));
            }
            current = no_items();
        } else {
            add_last(&mut current, words[i].clone());
        }
        i += 1;
    }
    if current.len() > 0 {
        add_last(&mut out, join(&current, " "));
        assert(out.deep_view() =~= goal);
    } else {
        assert(out.deep_view() =~= goal);
    }
    Ok(out)
}

/// The select of a query statement whose body is one; null for any other statement.
pub open spec fn plain_select(statement: Json) -> Json {
    let body = child(payload(statement), "body"@);
    if tag(statement) == "Query"@ && tag(body) == "Select"@ {
        payload(body)
    } else {
        Json::Null
    }
}

fn select_of(statement: &Datum) -> (result: &Datum)
    ensures
        result@ == plain_select(statement@),
{
    let body = statement.payload().child("body");
    if statement.is("Query") && body.is("Select") {
        body.payload()
    } else {
        &Datum::Null
    }
}

/// The expression that a text stands for.
pub open spec fn expression_of(sql: Seq<char>) -> Outcome<Json> {
    match statements_of("SELECT "@ + sql) {
        Ok(list) => {
            let select = plain_select(first_of(list));
            if items(child(select, "projection"@)).len() == 1 && items(child(select, "from"@)).len() == 0
                && tag(item(child(select, "projection"@), 0)) == "UnnamedExpr"@ {
                Ok(payload(item(child(select, "projection"@), 0)))
            } else {
                Err(failure("SyntaxError"@, "Expected policy expression"@))
            }
        },
        Err(error) => Err(error),
    }
}

/// The expression that a text stands for.
pub fn parse_expression(sql: &str) -> (result: Result<Expr>)
    ensures
        outcome(result) == expression_of(sql@),
{
    let list = parse_statements(cat2("SELECT ", sql).as_str())?;
    let select = select_of(first(&list));
    if select.child("projection").count() == 1 && select.child("from").count() == 0 && select.child(
        "projection",
    ).item(0).is("UnnamedExpr") {
        Ok(select.child("projection").item(0).payload().copied())
    } else {
        Err(err("SyntaxError", "Expected policy expression"))
    }
}

/// The table that a text names.
pub open spec fn relation_of(sql: Seq<char>) -> Outcome<Seq<char>> {
    match statements_of("SELECT * FROM "@ + sql) {
        Ok(list) => {
            let from = child(plain_select(first_of(list)), "from"@);
            if items(from).len() == 1 && items(child(item(from, 0), "joins"@)).len() == 0 {
                factor_name_of(child(item(from, 0), "relation"@))
            } else {
                Err(failure("SyntaxError"@, "Expected table name"@))
            }
        },
        Err(error) => Err(error),
    }
}

/// The table that a text names.
pub fn parse_relation(sql: &str) -> (result: Result<String>)
    ensures
        outcome(result) == relation_of(sql@),
{
    let list = parse_statements(cat2("SELECT * FROM ", sql).as_str())?;
    let from = select_of(first(&list)).child("from");
    if from.count() == 1 && from.item(0).child("joins").count() == 0 {
        factor_name(from.item(0).child("relation"))
    } else {
        Err(err("SyntaxError", "Expected table name"))
    }
}

// ---------------------------------------------------------------------------------------------
// Relations, identifiers, substitution
// ---------------------------------------------------------------------------------------------

/// The relations that a statement names.
pub open spec fn relations_of(statement: Json) -> Seq<Json> {
    plain_all(statement_relations(outside_json(statement)))
}

/// The relations that a statement names.
pub fn relations(statement: &Datum) -> (result: Vec<Datum>)
    ensures
        result.deep_view() == relations_of(statement@),
{
    plain_list(&read_relations(outside_of(statement)))
}

/// The expressions in an expression, itself among them.
pub open spec fn expressions_of(expr: Json) -> Seq<Json> {
    plain_all(expression_parts(outside_json(expr)))
}

/// The expressions in an expression, itself among them.
pub fn expressions(expr: &Expr) -> (result: Vec<Datum>)
    ensures
        result.deep_view() == expressions_of(expr@),
        read_expr_of(expr@) matches Some(form) ==> forall|column: Seq<char>| #[trigger]
            used_among(result.deep_view(), column) == mentions(form, column),
{
    plain_list(&read_expressions(outside_of(expr)))
}

/// Whether an expression is the identifier `column`.
pub open spec fn names_column(expr: Json, column: Seq<char>) -> bool {
    expr is Object && tag(expr) == "Identifier"@ && ident_name(payload(expr)) == column
}

/// Whether one of these expressions is the identifier `column`.
pub open spec fn used_among(parts: Seq<Json>, column: Seq<char>) -> bool {
    exists|i: int| 0 <= i < parts.len() && names_column(#[trigger] parts[i], column)
}

/// Whether some expression in an expression is the identifier `column`.
pub open spec fn uses(expr: Json, column: Seq<char>) -> bool {
    used_among(expressions_of(expr), column)
}

/// Whether some node of a tree is the identifier `column`.
pub open spec fn mentions(tree: Json, column: Seq<char>) -> bool
    decreases tree,
{
    match tree {
        Json::Array(list) => exists|i: int| 0 <= i < list.len() && mentions(#[trigger] list[i], column),
        Json::Object(entries) => names_column(tree, column) || exists|i: int|
            0 <= i < entries.len() && mentions((#[trigger] entries[i]).1, column),
        _ => false,
    }
}

/// Whether one of these expressions is the identifier `column`.
pub fn is_used_among(parts: &Vec<Datum>, column: &str) -> (result: bool)
    ensures
        result == used_among(parts.deep_view(), column@),
{
    let ghost model = parts.deep_view();
    let mut i: usize = 0;
    while i < parts.len()
        invariant
            i <= parts.len(),
            model == parts.deep_view(),
            forall|j: int| 0 <= j < i ==> !names_column(#[trigger] model[j], column@),
        decreases parts.len() - i,
    {
        assert(model[i as int] == parts[i as int]@);
        if let Datum::Object(_) = &parts[i] {
            if parts[i].is("Identifier") && same(ident(parts[i].payload()).as_str(), column) {
                return true;
            }
        }
        i += 1;
    }
    false
}

/// Whether some expression in an expression is the identifier `column`. In the form in which the
/// expression is serialized, that is whether some node is.
pub fn expression_uses(expr: &Expr, column: &str) -> (result: bool)
    ensures
        result == uses(expr@, column@),
        read_expr_of(expr@) matches Some(form) ==> result == mentions(form, column@),
{
    is_used_among(&expressions(expr), column)
}

/// The name under which a leaf can be replaced: an identifier, and where `wide` also a qualified
/// identifier or a placeholder.
pub open spec fn leaf_name(tree: Json, wide: bool) -> Option<Seq<char>> {
    if tree !is Object {
        None
    } else if tag(tree) == "Identifier"@ {
        Some(ident_name(payload(tree)))
    } else if wide && tag(tree) == "CompoundIdentifier"@ {
        Some(joined(ident_names(payload(tree)), "."@))
    } else if wide && tag(tree) == "Value"@ && payload(tree) is Object && tag(payload(tree))
        == "Placeholder"@ {
        Some(text(payload(payload(tree))))
    } else {
        None
    }
}

/// The tree with every leaf that has a binding replaced by it, all at once.
pub open spec fn substituted(tree: Json, bindings: Seq<(Seq<char>, Json)>, wide: bool) -> Json
    decreases tree,
{
    if leaf_name(tree, wide) is Some && has_key(bindings, leaf_name(tree, wide)->0) {
        get(bindings, leaf_name(tree, wide)->0)->0
    } else {
        match tree {
            Json::Array(list) => Json::Array(
                Seq::new(
                    list.len(),
                    |i: int|
                        if 0 <= i < list.len() {
                            substituted(list[i], bindings, wide)
                        } else {
                            Json::Null
                        },
                ),
            ),
            Json::Object(entries) => Json::Object(
                Seq::new(
                    entries.len(),
                    |i: int|
                        if 0 <= i < entries.len() {
                            (entries[i].0, substituted(entries[i].1, bindings, wide))
                        } else {
                            (Seq::empty(), Json::Null)
                        },
                ),
            ),
            _ => tree,
        }
    }
}

fn leaf(tree: &Datum, wide: bool) -> (result: Option<String>)
    ensures
        result.deep_view() == leaf_name(tree@, wide),
{
    match tree {
        Datum::Object(_) => {
            if tree.is("Identifier") {
                Some(ident(tree.payload()))
            } else if wide && tree.is("CompoundIdentifier") {
                Some(join(&names(tree.payload()), "."))
            } else if wide && tree.is("Value") {
                match tree.payload() {
                    Datum::Object(_) => {
                        if tree.payload().is("Placeholder") {
                            Some(crate::text::owned(tree.payload().payload().text()))
                        } else {
                            None
                        }
                    },
                    _ => None,
                }
            } else {
                None
            }
        },
        _ => None,
    }
}

/// The tree with every leaf that has a binding replaced by it, all at once.
pub fn substitute(tree: &Datum, bindings: &OrdMap<String, Datum>, wide: bool) -> (result: Datum)
    ensures
        result@ == substituted(tree@, bindings@, wide),
    decreases tree,
{
    if let Some(name) = leaf(tree, wide) {
        if let Some(found) = bindings.find(name.as_str()) {
            return found.copied();
        }
    }
    match tree {
        Datum::Array(list) => {
            let mut result: Vec<Datum> = Vec::new();
            let mut i: usize = 0;
            while i < list.len()
                invariant
                    i <= list.len(),
                    tree matches Datum::Array(inner) && inner == list,
                    result.len() == i,
                    forall|j: int|
                        0 <= j < i ==> (#[trigger] result[j])@ == substituted(list[j]@, bindings@, wide),
                decreases list.len() - i,
            {
                result.push(substitute(&list[i], bindings, wide));
                i += 1;
            }
            assert(result.deep_view() =~= substituted(tree@, bindings@, wide)->Array_0);
            Datum::Array(result)
        },
        Datum::Object(map) => {
            let mut entries: Vec<(String, Datum)> = Vec::new();
            let mut i: usize = 0;
            while i < map.entries.len()
                invariant
                    i <= map.entries.len(),
                    tree matches Datum::Object(inner) && inner == map,
                    entries.len() == i,
                    forall|j: int|
                        0 <= j < i ==> (#[trigger] entries[j]).0@ == map.entries[j].0@ && entries[j].1@
                            == substituted(map.entries[j].1@, bindings@, wide),
                decreases map.entries.len() - i,
            {
                entries.push((map.entries[i].0.clone(), substitute(&map.entries[i].1, bindings, wide)));
                i += 1;
            }
            let result = OrdMap { entries };
            assert(result@ =~= substituted(tree@, bindings@, wide)->Object_0);
            Datum::Object(result)
        },
        _ => tree.copied(),
    }
}

/// The expression with the identifier `from` replaced by the quoted identifier `to`.
pub open spec fn renamed(expr: Json, from: Seq<char>, to: Seq<char>) -> Json {
    substituted(expr, seq![(from, tagged("Identifier"@, quoted_ident(to)))], false)
}

/// The expression with the identifier `old_name` replaced by the quoted identifier `new_name`.
pub fn rename_expression(expr: &Expr, old_name: &str, new_name: &str) -> (result: Expr)
    ensures
        result@ == renamed(expr@, old_name@, new_name@),
{
    let mut entries: Vec<(String, Datum)> = Vec::new();
    entries.push((crate::text::owned(old_name), Datum::tagged("Identifier", quoted(new_name))));
    let bindings = OrdMap { entries };
    assert(bindings@ =~= seq![(old_name@, tagged("Identifier"@, quoted_ident(new_name@)))]);
    substitute(expr, &bindings, false)
}

/// Whether a tree holds other trees.
pub open spec fn is_leaf(tree: Json) -> bool {
    !(tree is Array) && !(tree is Object)
}

/// Whether a tree describes a name, with nothing below its fields.
pub open spec fn simple_name(tree: Json) -> bool {
    match tree {
        Json::Array(_) => false,
        Json::Object(entries) => entries.len() != 1 && forall|i: int|
            0 <= i < entries.len() ==> is_leaf((#[trigger] entries[i]).1),
        _ => true,
    }
}

/// Whether what stands under every identifier in the tree is a name, as it is in the tree of an
/// expression.
pub open spec fn simple_names(tree: Json) -> bool
    decreases tree,
{
    match tree {
        Json::Array(list) => forall|i: int| 0 <= i < list.len() ==> simple_names(#[trigger] list[i]),
        Json::Object(entries) => {
            &&& tag(tree) == "Identifier"@ ==> simple_name(payload(tree))
            &&& forall|i: int| 0 <= i < entries.len() ==> simple_names((#[trigger] entries[i]).1)
        },
        _ => true,
    }
}

proof fn names_mention_nothing(tree: Json, column: Seq<char>)
    requires
        simple_name(tree),
    ensures
        !mentions(tree, column),
{
    reveal_strlit("Identifier");
    assert("Identifier"@.len() == 10);
    match tree {
        Json::Object(entries) => {
            assert forall|i: int| 0 <= i < entries.len() implies !mentions((#[trigger] entries[i]).1, column) by {
                assert(is_leaf(entries[i].1));
            }
        },
        _ => {},
    }
}

proof fn names_stay(tree: Json, bindings: Seq<(Seq<char>, Json)>)
    requires
        simple_name(tree),
    ensures
        substituted(tree, bindings, false) == tree,
{
    reveal_strlit("Identifier");
    assert("Identifier"@.len() == 10);
    match tree {
        Json::Object(entries) => {
            let after = substituted(tree, bindings, false)->Object_0;
            assert forall|i: int| 0 <= i < entries.len() implies after[i] == #[trigger] entries[i] by {
                assert(is_leaf(entries[i].1));
                assert(substituted(entries[i].1, bindings, false) == entries[i].1);
                assert(after[i].0 == entries[i].0);
            }
            assert(after =~= entries);
        },
        _ => {},
    }
}

proof fn new_name_is_mentioned(to: Seq<char>, column: Seq<char>)
    ensures
        mentions(tagged("Identifier"@, quoted_ident(to)), column) == (column == to),
{
    reveal_strlit("value");
    reveal_strlit("quote_style");
    assert("value"@.len() == 5 && "quote_style"@.len() == 11);
    let inner = quoted_ident(to);
    let node = tagged("Identifier"@, inner);
    let fields = inner->Object_0;
    assert(fields[0].1 is String && fields[1].1 is String);
    reveal_with_fuel(get_from, 3);
    assert(child(inner, "quote_style"@) == fields[0].1);
    assert(child(inner, "value"@) == fields[1].1);
    assert(ident_name(payload(node)) == to);
    assert(simple_name(inner)) by {
        assert forall|i: int| 0 <= i < fields.len() implies is_leaf((#[trigger] fields[i]).1) by {
            assert(i == 0 || i == 1);
        }
    }
    names_mention_nothing(inner, column);
    assert forall|i: int| 0 <= i < node->Object_0.len() implies !mentions((#[trigger] node->Object_0[i]).1, column) by {
        assert(i == 0);
    }
}

/// What a tree mentions once `from` is renamed to `to`.
pub open spec fn mentions_after(tree: Json, from: Seq<char>, to: Seq<char>, column: Seq<char>) -> bool {
    if column == from {
        false
    } else if column == to {
        mentions(tree, from) || mentions(tree, to)
    } else {
        mentions(tree, column)
    }
}

proof fn renaming_moves_mentions(tree: Json, from: Seq<char>, to: Seq<char>, column: Seq<char>)
    requires
        simple_names(tree),
        from != to,
    ensures
        mentions(renamed(tree, from, to), column) == mentions_after(tree, from, to, column),
        !mentions(tree, from) ==> renamed(tree, from, to) == tree,
    decreases tree,
{
    let bindings = seq![(from, tagged("Identifier"@, quoted_ident(to)))];
    reveal_with_fuel(get_from, 2);
    let after = renamed(tree, from, to);
    match tree {
        Json::Array(list) => {
            let next = after->Array_0;
            assert forall|i: int| 0 <= i < list.len() implies mentions(#[trigger] next[i], column) == mentions_after(
                list[i],
                from,
                to,
                column,
            ) && (!mentions(list[i], from) ==> next[i] == list[i]) by {
                assert(simple_names(list[i]));
                renaming_moves_mentions(list[i], from, to, column);
            }
            if mentions(after, column) {
                let i = choose|i: int| 0 <= i < next.len() && mentions(#[trigger] next[i], column);
                assert(mentions_after(list[i], from, to, column));
            }
            if mentions_after(tree, from, to, column) {
                let i = choose|i: int| 0 <= i < list.len() && mentions_after(#[trigger] list[i], from, to, column);
                assert(mentions(next[i], column));
            }
            if !mentions(tree, from) {
                assert forall|i: int| 0 <= i < list.len() implies next[i] == #[trigger] list[i] by {
                    assert(!mentions(list[i], from));
                }
                assert(next =~= list);
            }
        },
        Json::Object(entries) => {
            if tag(tree) == "Identifier"@ {
                let inner = payload(tree);
                reveal_strlit("Identifier");
                assert("Identifier"@.len() == 10);
                assert(entries[0].1 == inner);
                names_mention_nothing(inner, from);
                names_mention_nothing(inner, to);
                names_mention_nothing(inner, column);
                assert forall|name: Seq<char>| name == from || name == to || name == column implies #[trigger] mentions(
                    tree,
                    name,
                ) == (ident_name(inner) == name) by {
                    names_mention_nothing(inner, name);
                }
                if ident_name(inner) == from {
                    assert(has_key(bindings, from));
                    assert(after == tagged("Identifier"@, quoted_ident(to)));
                    new_name_is_mentioned(to, column);
                } else {
                    assert(!has_key(bindings, ident_name(inner)));
                    names_stay(inner, bindings);
                    assert(after->Object_0 =~= entries);
                }
            } else {
                let next = after->Object_0;
                assert(next.len() == entries.len());
                assert forall|i: int| 0 <= i < entries.len() implies mentions((#[trigger] next[i]).1, column)
                    == mentions_after(entries[i].1, from, to, column) && next[i].0 == entries[i].0 && (!mentions(
                    entries[i].1,
                    from,
                ) ==> next[i] == entries[i]) by {
                    assert(simple_names(entries[i].1));
                    renaming_moves_mentions(entries[i].1, from, to, column);
                }
                assert(tag(after) == tag(tree));
                if mentions(after, column) {
                    let i = choose|i: int| 0 <= i < next.len() && mentions((#[trigger] next[i]).1, column);
                    assert(mentions_after(entries[i].1, from, to, column));
                }
                if mentions_after(tree, from, to, column) {
                    let i = choose|i: int|
                        0 <= i < entries.len() && mentions_after((#[trigger] entries[i]).1, from, to, column);
                    assert(mentions(next[i].1, column));
                }
                if !mentions(tree, from) {
                    assert forall|i: int| 0 <= i < entries.len() implies next[i] == #[trigger] entries[i] by {
                        assert(!mentions(entries[i].1, from));
                    }
                    assert(next =~= entries);
                }
            }
        },
        _ => {},
    }
}

/// After a column is renamed, an expression mentions the old name no more. It mentions the new
/// name where it mentioned either, and any other name as before. An expression that did not mention
/// the old name stays as it was.
pub proof fn renaming_replaces_a_name(expr: Json, from: Seq<char>, to: Seq<char>)
    requires
        simple_names(expr),
        from != to,
    ensures
        !mentions(renamed(expr, from, to), from),
        mentions(renamed(expr, from, to), to) == (mentions(expr, from) || mentions(expr, to)),
        forall|other: Seq<char>|
            other != from && other != to ==> #[trigger] mentions(renamed(expr, from, to), other) == mentions(
                expr,
                other,
            ),
        !mentions(expr, from) ==> renamed(expr, from, to) == expr,
{
    renaming_moves_mentions(expr, from, to, from);
    renaming_moves_mentions(expr, from, to, to);
    assert forall|other: Seq<char>| other != from && other != to implies #[trigger] mentions(
        renamed(expr, from, to),
        other,
    ) == mentions(expr, other) by {
        renaming_moves_mentions(expr, from, to, other);
    }
}

/// Whether the expressions listed of an expression show all that its tree mentions, as they do of an
/// expression in the form in which it is serialized.
pub open spec fn listed_whole(expr: Json) -> bool {
    forall|column: Seq<char>| #[trigger] uses(expr, column) == mentions(expr, column)
}

/// The same holds of what an expression uses, where the expressions are listed whole before and after.
pub proof fn renaming_replaces_a_use(expr: Json, from: Seq<char>, to: Seq<char>)
    requires
        simple_names(expr),
        from != to,
        listed_whole(expr),
        listed_whole(renamed(expr, from, to)),
    ensures
        !uses(renamed(expr, from, to), from),
        uses(renamed(expr, from, to), to) == (uses(expr, from) || uses(expr, to)),
        forall|other: Seq<char>|
            other != from && other != to ==> #[trigger] uses(renamed(expr, from, to), other) == uses(expr, other),
        !uses(expr, from) ==> renamed(expr, from, to) == expr,
{
    renaming_replaces_a_name(expr, from, to);
    assert forall|other: Seq<char>| other != from && other != to implies #[trigger] uses(
        renamed(expr, from, to),
        other,
    ) == uses(expr, other) by {
        assert(mentions(renamed(expr, from, to), other) == mentions(expr, other));
    }
}

} // verus!
