//! The outside crates that the library calls, and what is believed of each call.

use serde_json::Value;
use vstd::prelude::*;
use vstd::utf8::{decode_utf8, valid_utf8};
use crate::ast::{mentions, plain_all, used_among};
use crate::auth::hex_of;
use crate::guards::{parses, printable, Spot};
use crate::json::{Json, Number, Datum};
use crate::layout::{keeps_layout, layout_text, layout_value, read_nesting, LayoutModel};
use crate::ordmap::OrdMap;

verus! {

// ---------------------------------------------------------------------------------------------
// Letters (std)
// ---------------------------------------------------------------------------------------------

/// What `str::to_lowercase` makes of a text.
pub uninterp spec fn lower(text: Seq<char>) -> Seq<char>;

/// What `str::to_uppercase` makes of a text.
pub uninterp spec fn upper(text: Seq<char>) -> Seq<char>;

/// Whether every character is ASCII.
pub open spec fn ascii(text: Seq<char>) -> bool {
    forall|i: int| 0 <= i < text.len() ==> (#[trigger] text[i] as int) < 128
}

/// The ASCII lower-case letter of `c`, or `c`.
pub open spec fn ascii_lower(c: char) -> char {
    if 'A' <= c && c <= 'Z' {
        (c as int + 32) as char
    } else {
        c
    }
}

/// The ASCII upper-case letter of `c`, or `c`.
pub open spec fn ascii_upper(c: char) -> char {
    if 'a' <= c && c <= 'z' {
        (c as int - 32) as char
    } else {
        c
    }
}

/// `str::to_lowercase` depends on its argument alone; on ASCII text it maps letter by letter.
pub assume_specification[ str::to_lowercase ](subject: &str) -> (result: std::string::String)
    ensures
        result@ == lower(subject@),
        ascii(subject@) ==> result@ == subject@.map_values(|c: char| ascii_lower(c)),
;

/// `str::to_uppercase` depends on its argument alone; on ASCII text it maps letter by letter.
pub assume_specification[ str::to_uppercase ](subject: &str) -> (result: std::string::String)
    ensures
        result@ == upper(subject@),
        ascii(subject@) ==> result@ == subject@.map_values(|c: char| ascii_upper(c)),
;

/// Whether a character is white space, by its Unicode property.
pub uninterp spec fn white(c: char) -> bool;

/// `char::is_whitespace` depends on its argument alone; of the ASCII characters the space and those
/// from the tabulator to the carriage return are white.
pub assume_specification[ char::is_whitespace ](c: char) -> (result: bool)
    ensures
        result == white(c),
        (c as int) < 128 ==> result == (c == ' ' || '\t' <= c && c <= '\r'),
;

// ---------------------------------------------------------------------------------------------
// JSON (serde_json)
// ---------------------------------------------------------------------------------------------

/// `serde_json::Value`, carried through without looking inside.
#[verifier::external_type_specification]
#[verifier::external_body]
pub struct ExternalJson(serde_json::Value);

/// The library's form of an outside JSON value.
pub uninterp spec fn plain_json(value: serde_json::Value) -> Json;

/// The outside form of a JSON value of the library.
pub uninterp spec fn outside_json(value: Json) -> serde_json::Value;

/// Reads a `serde_json::Value` variant by variant into the library's form, which depends on that
/// value alone. A number goes by what `as_i64` or `as_u64` gives, else by its text; the entries of
/// an object keep the order in which `serde_json::Map` hands them out.
#[verifier::external_body]
pub(crate) fn plain(value: &serde_json::Value) -> (result: Datum)
    ensures
        result@ == plain_json(*value),
{
    match value {
        Value::Null => Datum::Null,
        Value::Bool(b) => Datum::Bool(*b),
        Value::Number(n) => Datum::Number(match (n.as_i64(), n.as_u64()) {
            (Some(n), _) => Number::Int(n),
            (None, Some(n)) => Number::Big(n),
            (None, None) => Number::Real(n.to_string()),
        }),
        Value::String(s) => Datum::String(s.clone()),
        Value::Array(items) => Datum::Array(items.iter().map(plain).collect()),
        Value::Object(map) => Datum::Object(OrdMap { entries: map.iter().map(|(k, v)| (k.clone(), plain(v))).collect() }),
    }
}

/// Builds the `serde_json::Value` of a value of the library, variant by variant; it depends on what
/// that value stands for alone. A text that `serde_json::Number` does not read becomes null.
#[verifier::external_body]
pub(crate) fn outside_of(value: &Datum) -> (result: serde_json::Value)
    ensures
        result == outside_json(value@),
{
    match value {
        Datum::Null => Value::Null,
        Datum::Bool(b) => Value::Bool(*b),
        Datum::Number(Number::Int(n)) => Value::from(*n),
        Datum::Number(Number::Big(n)) => Value::from(*n),
        Datum::Number(Number::Real(s)) => s.parse().map(Value::Number).unwrap_or_default(),
        Datum::String(s) => Value::String(s.clone()),
        Datum::Array(items) => Value::Array(items.iter().map(outside_of).collect()),
        Datum::Object(map) => Value::Object(map.entries.iter().map(|(k, v)| (k.clone(), outside_of(v))).collect()),
    }
}

/// The compact text of an outside JSON value.
pub uninterp spec fn json_display(value: serde_json::Value) -> Seq<char>;

/// `Display` of `serde_json::Value`: the compact text, which depends on the value alone.
#[verifier::external_body]
pub(crate) fn display_json(value: &serde_json::Value) -> (result: String)
    ensures
        result@ == json_display(*value),
{
    value.to_string()
}

/// What `serde_json::from_str` reads from a text: a value, or the message of its error.
pub uninterp spec fn json_read(text: Seq<char>) -> std::result::Result<serde_json::Value, Seq<char>>;

/// `serde_json::from_str` into a `serde_json::Value`; its result depends on the text alone. What was
/// written as JSON is read as what was written, up to a nesting that its recursion limit allows and but
/// for fractional numbers and objects that begin with the reader's own mark: the fields of an object, the last of a name where there are several, the
/// items of an array in their order, texts, 64-bit integers, truth values and null.
#[verifier::external_body]
pub(crate) fn read_json(text: &str) -> (result: std::result::Result<serde_json::Value, String>)
    ensures
        (match result {
            Ok(value) => Ok(value),
            Err(message) => Err(message@),
        }) == json_read(text@),
        forall|layout: LayoutModel|
            #![trigger layout_text(layout)]
            keeps_layout(layout, read_nesting()) && text@ == layout_text(layout) ==> match result {
                Ok(value) => plain_json(value) == layout_value(layout),
                Err(_) => false,
            },
{
    serde_json::from_str(text).map_err(|error| error.to_string())
}

// ---------------------------------------------------------------------------------------------
// SQL text (sqlparser)
// ---------------------------------------------------------------------------------------------

/// What a fallible call stands for when its value is a list of outside values.
pub open spec fn trees_read(
    result: std::result::Result<Vec<serde_json::Value>, String>,
) -> std::result::Result<Seq<serde_json::Value>, Seq<char>> {
    match result {
        Ok(trees) => Ok(trees@),
        Err(message) => Err(message@),
    }
}

/// What `Parser::parse_sql` reads from a text in the PostgreSQL dialect: the serialized syntax
/// tree of each statement, or the message of its error.
pub uninterp spec fn sql_read(sql: Seq<char>) -> std::result::Result<Seq<serde_json::Value>, Seq<char>>;

/// `sqlparser::parser::Parser::parse_sql` with `PostgreSqlDialect`, each statement serialized by
/// its own `Serialize`; the result depends on the text alone. Texts with a clause that the parser panics
/// on are left out.
#[verifier::external_body]
pub(crate) fn read_sql(sql: &str) -> (result: std::result::Result<Vec<serde_json::Value>, String>)
    requires
        parses(tokens_read(sql@, true)),
    ensures
        trees_read(result) == sql_read(sql@),
{
    match sqlparser::parser::Parser::parse_sql(&sqlparser::dialect::PostgreSqlDialect {}, sql) {
        Ok(statements) => Ok(statements.iter().map(|s| serde_json::to_value(s).unwrap_or_default()).collect()),
        Err(error) => Err(error.to_string()),
    }
}

/// What `Tokenizer::tokenize` reads from a text in the PostgreSQL dialect: each token's serialized
/// form and its text, or the message of its error.
pub uninterp spec fn tokens_read(sql: Seq<char>, unescape: bool) -> std::result::Result<
    Seq<(serde_json::Value, Seq<char>)>,
    Seq<char>,
>;

/// What a list of tokens stands for.
pub open spec fn token_list(tokens: Seq<(serde_json::Value, String)>) -> Seq<(serde_json::Value, Seq<char>)> {
    Seq::new(tokens.len(), |i: int| (tokens[i].0, tokens[i].1@))
}

/// `sqlparser::tokenizer::Tokenizer::tokenize` with `PostgreSqlDialect`, each token serialized by
/// its own `Serialize` and printed by its `Display`; the result depends on the arguments alone.
#[verifier::external_body]
pub(crate) fn read_tokens(sql: &str, unescape: bool) -> (result: std::result::Result<
    Vec<(serde_json::Value, String)>,
    String,
>)
    ensures
        (match result {
            Ok(tokens) => Ok(token_list(tokens@)),
            Err(message) => Err(message@),
        }) == tokens_read(sql@, unescape),
{
    let dialect = sqlparser::dialect::PostgreSqlDialect {};
    match sqlparser::tokenizer::Tokenizer::new(&dialect, sql).with_unescape(unescape).tokenize() {
        Ok(tokens) => Ok(tokens.iter().map(|t| (serde_json::to_value(t).unwrap_or_default(), t.to_string())).collect()),
        Err(error) => Err(error.to_string()),
    }
}

/// The SQL text of a serialized expression, where it is one.
pub uninterp spec fn expr_display(tree: serde_json::Value) -> Option<Seq<char>>;

/// `Display` of `sqlparser::ast::Expr` after `serde_json::from_value`; nothing where the tree is no
/// expression. The result depends on the tree alone. Trees that `Display` panics on are left out.
#[verifier::external_body]
pub(crate) fn display_expr(tree: serde_json::Value) -> (result: Option<String>)
    requires
        printable(plain_json(tree), Spot::Plain),
    ensures
        result.deep_view() == expr_display(tree),
{
    serde_json::from_value::<sqlparser::ast::Expr>(tree).ok().map(|node| node.to_string())
}

/// The SQL text of a serialized data type, where it is one.
pub uninterp spec fn data_type_display(tree: serde_json::Value) -> Option<Seq<char>>;

/// `Display` of `sqlparser::ast::DataType` after `serde_json::from_value`; nothing where the tree
/// is no data type. The result depends on the tree alone. Trees that `Display` panics on
/// are left out.
#[verifier::external_body]
pub(crate) fn display_data_type(tree: serde_json::Value) -> (result: Option<String>)
    requires
        printable(plain_json(tree), Spot::Plain),
    ensures
        result.deep_view() == data_type_display(tree),
{
    serde_json::from_value::<sqlparser::ast::DataType>(tree).ok().map(|node| node.to_string())
}

/// The SQL text of a serialized statement, where it is one.
pub uninterp spec fn statement_display(tree: serde_json::Value) -> Option<Seq<char>>;

/// `Display` of `sqlparser::ast::Statement` after `serde_json::from_value`; nothing where the tree
/// is no statement. The result depends on the tree alone. Trees that `Display` panics on
/// are left out.
#[verifier::external_body]
pub(crate) fn display_statement(tree: serde_json::Value) -> (result: Option<String>)
    requires
        printable(plain_json(tree), Spot::Plain),
    ensures
        result.deep_view() == statement_display(tree),
{
    serde_json::from_value::<sqlparser::ast::Statement>(tree).ok().map(|node| node.to_string())
}

/// The SQL text of a serialized binary operator, where it is one.
pub uninterp spec fn binary_operator_display(tree: serde_json::Value) -> Option<Seq<char>>;

/// `Display` of `sqlparser::ast::BinaryOperator` after `serde_json::from_value`; nothing where the
/// tree is no binary operator. The result depends on the tree alone.
#[verifier::external_body]
pub(crate) fn display_binary_operator(tree: serde_json::Value) -> (result: Option<String>)
    ensures
        result.deep_view() == binary_operator_display(tree),
{
    serde_json::from_value::<sqlparser::ast::BinaryOperator>(tree).ok().map(|node| node.to_string())
}

/// The SQL text of a serialized unary operator, where it is one.
pub uninterp spec fn unary_operator_display(tree: serde_json::Value) -> Option<Seq<char>>;

/// `Display` of `sqlparser::ast::UnaryOperator` after `serde_json::from_value`; nothing where the
/// tree is no unary operator. The result depends on the tree alone.
#[verifier::external_body]
pub(crate) fn display_unary_operator(tree: serde_json::Value) -> (result: Option<String>)
    ensures
        result.deep_view() == unary_operator_display(tree),
{
    serde_json::from_value::<sqlparser::ast::UnaryOperator>(tree).ok().map(|node| node.to_string())
}

/// The SQL text of a serialized column option, where it is one.
pub uninterp spec fn column_option_display(tree: serde_json::Value) -> Option<Seq<char>>;

/// `Display` of `sqlparser::ast::ColumnOption` after `serde_json::from_value`; nothing where the
/// tree is no column option. The result depends on the tree alone. Trees that `Display` panics on
/// are left out.
#[verifier::external_body]
pub(crate) fn display_column_option(tree: serde_json::Value) -> (result: Option<String>)
    requires
        printable(plain_json(tree), Spot::Plain),
    ensures
        result.deep_view() == column_option_display(tree),
{
    serde_json::from_value::<sqlparser::ast::ColumnOption>(tree).ok().map(|node| node.to_string())
}

/// The SQL text of a serialized table constraint, where it is one.
pub uninterp spec fn table_constraint_display(tree: serde_json::Value) -> Option<Seq<char>>;

/// `Display` of `sqlparser::ast::TableConstraint` after `serde_json::from_value`; nothing where the
/// tree is no table constraint. The result depends on the tree alone. Trees that `Display` panics on
/// are left out.
#[verifier::external_body]
pub(crate) fn display_table_constraint(tree: serde_json::Value) -> (result: Option<String>)
    requires
        printable(plain_json(tree), Spot::Plain),
    ensures
        result.deep_view() == table_constraint_display(tree),
{
    serde_json::from_value::<sqlparser::ast::TableConstraint>(tree).ok().map(|node| node.to_string())
}

/// The relations that a serialized statement names, each as its list of serialized identifiers.
pub uninterp spec fn statement_relations(tree: serde_json::Value) -> Seq<serde_json::Value>;

/// `sqlparser::ast::visit_relations` on a statement after `serde_json::from_value`: every relation
/// name in the order of the visit, serialized; none where the tree is no statement. The result
/// depends on the tree alone.
#[verifier::external_body]
pub(crate) fn read_relations(tree: serde_json::Value) -> (result: Vec<serde_json::Value>)
    ensures
        result@ == statement_relations(tree),
{
    let statement = serde_json::from_value::<sqlparser::ast::Statement>(tree).ok();
    let mut found: Vec<serde_json::Value> = Vec::new();
    let _ = sqlparser::ast::visit_relations(&statement, |name| {
        found.push(serde_json::to_value(name).unwrap_or_default());
        std::ops::ControlFlow::<()>::Continue(())
    });
    found
}

/// The expressions in a serialized expression, itself among them, each serialized.
pub uninterp spec fn expression_parts(tree: serde_json::Value) -> Seq<serde_json::Value>;

/// `sqlparser::ast::visit_expressions` on an expression after `serde_json::from_value`: every
/// expression in the order of the visit, serialized; none where the tree is no expression. The
/// result depends on the tree alone. The visit reaches all expressions, so a column is among them just
/// where the serialized text of the expression holds a node that is its identifier: no other part of
/// the syntax is tagged as one.
#[verifier::external_body]
pub(crate) fn read_expressions(tree: serde_json::Value) -> (result: Vec<serde_json::Value>)
    ensures
        result@ == expression_parts(tree),
        expr_written(tree) matches Some(written) ==> json_read(written) matches Ok(form) ==> forall|
            column: Seq<char>,
        | #[trigger] used_among(plain_all(result@), column) == mentions(plain_json(form), column),
{
    let expression = serde_json::from_value::<sqlparser::ast::Expr>(tree).ok();
    let mut found: Vec<serde_json::Value> = Vec::new();
    let _ = sqlparser::ast::visit_expressions(&expression, |part| {
        found.push(serde_json::to_value(part).unwrap_or_default());
        std::ops::ControlFlow::<()>::Continue(())
    });
    found
}

/// The JSON text of a serialized expression, its fields in the order of their declaration.
pub uninterp spec fn expr_written(tree: serde_json::Value) -> Option<Seq<char>>;

/// `serde_json::to_string` of a `sqlparser::ast::Expr` after `serde_json::from_value`; nothing where
/// the tree is no expression. The result depends on the tree alone.
#[verifier::external_body]
pub(crate) fn write_expr(tree: serde_json::Value) -> (result: Option<String>)
    ensures
        result.deep_view() == expr_written(tree),
{
    serde_json::from_value::<sqlparser::ast::Expr>(tree).ok().and_then(|node| serde_json::to_string(&node).ok())
}

// ---------------------------------------------------------------------------------------------
// Bytes (std, alloy)
// ---------------------------------------------------------------------------------------------

/// `std::str::from_utf8`: the characters that the bytes encode, where they are valid UTF-8.
#[verifier::external_body]
pub(crate) fn text_from(bytes: &Vec<u8>) -> (result: Option<String>)
    ensures
        match result {
            Some(characters) => valid_utf8(bytes@) && characters@ == decode_utf8(bytes@),
            None => !valid_utf8(bytes@),
        },
{
    std::str::from_utf8(bytes).ok().map(|characters| characters.to_string())
}

/// The Keccak-256 hash of bytes.
pub uninterp spec fn keccak_of(bytes: Seq<u8>) -> Seq<u8>;

/// `alloy::primitives::keccak256`: 32 bytes that depend on the argument alone.
#[verifier::external_body]
pub(crate) fn keccak(bytes: &Vec<u8>) -> (result: Vec<u8>)
    ensures
        result@ == keccak_of(bytes@),
        result@.len() == 32,
{
    alloy::primitives::keccak256(bytes).to_vec()
}

/// The 256-bit number that a text writes, as 32 bytes with the most significant first.
pub uninterp spec fn word_read(text: Seq<char>) -> Option<Seq<u8>>;

/// `alloy::primitives::U256::from_str`, then `to_be_bytes`: 32 bytes that depend on the text alone, or
/// nothing where it writes no such number.
#[verifier::external_body]
pub(crate) fn read_word(text: &str) -> (result: Option<Vec<u8>>)
    ensures
        result.deep_view() == word_read(text@),
        result matches Some(bytes) ==> bytes@.len() == 32,
{
    text.parse::<alloy::primitives::U256>().ok().map(|number| number.to_be_bytes::<32>().to_vec())
}

/// The bytes that a text of hexadecimal digits writes.
pub uninterp spec fn hex_read(text: Seq<char>) -> Option<Seq<u8>>;

/// `alloy::primitives::hex::decode`: the bytes of a text of hexadecimal digits, with or without `0x`
/// before them; the result depends on the text alone, and `0x` with two lower-case digits for each byte
/// is read as those bytes.
#[verifier::external_body]
pub(crate) fn read_hex(text: &str) -> (result: Option<Vec<u8>>)
    ensures
        result.deep_view() == hex_read(text@),
        forall|bytes: Seq<u8>| text@ == #[trigger] hex_of(bytes) ==> result.deep_view() == Some(bytes),
{
    alloy::primitives::hex::decode(text).ok()
}

/// The text of bytes in URL-safe base 64 without padding.
pub uninterp spec fn base64_text(bytes: Seq<u8>) -> Seq<char>;

/// `base64::engine::general_purpose::URL_SAFE_NO_PAD.encode`; the result depends on the bytes alone.
#[verifier::external_body]
pub(crate) fn write_base64(bytes: &Vec<u8>) -> (result: String)
    ensures
        result@ == base64_text(bytes@),
        base64_bytes(result@) == Some(bytes@),
{
    base64::engine::Engine::encode(&base64::engine::general_purpose::URL_SAFE_NO_PAD, bytes)
}

/// The bytes of a text in URL-safe base 64 without padding.
pub uninterp spec fn base64_bytes(text: Seq<char>) -> Option<Seq<u8>>;

/// `base64::engine::general_purpose::URL_SAFE_NO_PAD.decode`; the result depends on the text alone, and
/// what the same engine wrote is read as the bytes that were written.
#[verifier::external_body]
pub(crate) fn read_base64(text: &str) -> (result: Option<Vec<u8>>)
    ensures
        result.deep_view() == base64_bytes(text@),
        forall|bytes: Seq<u8>| text@ == #[trigger] base64_text(bytes) ==> result.deep_view() == Some(bytes),
{
    base64::engine::Engine::decode(&base64::engine::general_purpose::URL_SAFE_NO_PAD, text).ok()
}

/// The names and values of a query string.
pub uninterp spec fn pairs_read(bytes: Seq<u8>) -> Seq<(Seq<char>, Seq<char>)>;

/// `url::form_urlencoded::parse`, each pair owned: the names and values in their order, which depend
/// on the bytes alone.
#[verifier::external_body]
pub(crate) fn read_pairs(bytes: &Vec<u8>) -> (result: Vec<(String, String)>)
    ensures
        result.deep_view() == pairs_read(bytes@),
{
    url::form_urlencoded::parse(bytes).into_owned().collect()
}

} // verus!
