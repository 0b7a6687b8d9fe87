//! What the SQL parser can take and its printer can print: the parser panics on some clauses, and the
//! printer on some trees, so both are tested before.

use vstd::prelude::*;
use crate::json::{group_value_views, Datum, Json};
use crate::outside::{plain, plain_json, token_list};
use crate::replica::{add_last, no_items};
use crate::text::{parse_u64, parsed_u64, same};
use crate::value::{child, flag, item, payload, tag, text};

verus! {

broadcast use group_value_views;

// ---------------------------------------------------------------------------------------------
// Tokens
// ---------------------------------------------------------------------------------------------

/// The tokens from position `from` on, blanks and comments left out, after those in `done`.
pub open spec fn solid_from(tokens: Seq<(serde_json::Value, Seq<char>)>, from: int, done: Seq<Json>) -> Seq<Json>
    decreases tokens.len() - from,
{
    if from < 0 || from >= tokens.len() {
        done
    } else {
        let token = plain_json(tokens[from].0);
        solid_from(
            tokens,
            from + 1,
            if tag(token) == "Whitespace"@ {
                done
            } else {
                done.push(token)
            },
        )
    }
}

/// The tokens, blanks and comments left out.
pub fn solid_tokens(list: &Vec<(serde_json::Value, String)>) -> (result: Vec<Datum>)
    ensures
        result.deep_view() == solid_from(token_list(list@), 0, Seq::empty()),
{
    let mut done: Vec<Datum> = no_items();
    let ghost all = token_list(list@);
    let mut i: usize = 0;
    while i < list.len()
        invariant
            i <= list.len(),
            all == token_list(list@),
            solid_from(all, 0, Seq::empty()) == solid_from(all, i as int, done.deep_view()),
        decreases list.len() - i,
    {
        assert(all[i as int] == (list[i as int].0, list[i as int].1@));
        let token = plain(&list[i].0);
        if !token.is("Whitespace") {
            add_last(&mut done, token);
        }
        i += 1;
    }
    done
}

/// The token at a position; null past the end.
pub open spec fn token_at(tokens: Seq<Json>, i: int) -> Json {
    if 0 <= i < tokens.len() {
        tokens[i]
    } else {
        Json::Null
    }
}

/// Whether a token is a keyword.
pub open spec fn keyword_is(token: Json, keyword: Seq<char>) -> bool {
    tag(token) == "Word"@ && text(child(payload(token), "keyword"@)) == keyword
}

/// Whether a token is a number of more than `limit`, or none that is whole.
pub open spec fn number_beyond(token: Json, limit: u64) -> bool {
    tag(token) == "Number"@ && match parsed_u64(text(item(payload(token), 0))) {
        Some(n) => n > limit,
        None => true,
    }
}

/// Whether a token is a name.
pub open spec fn name_token(token: Json) -> bool {
    tag(token) == "Word"@ || tag(token) == "SingleQuotedString"@ || tag(token) == "DoubleQuotedString"@
}

/// Whether the tokens from a position on make a `CREATE` before it that of a table.
pub open spec fn creates_table(tokens: Seq<Json>, k: int) -> bool
    decreases tokens.len() - k,
{
    0 <= k < tokens.len() && (keyword_is(tokens[k], "TABLE"@) || table_modifier(tokens[k]) && creates_table(
        tokens,
        k + 1,
    ))
}

/// Whether a token can stand between `CREATE` and `TABLE`.
pub open spec fn table_modifier(token: Json) -> bool {
    ||| keyword_is(token, "OR"@)
    ||| keyword_is(token, "REPLACE"@)
    ||| keyword_is(token, "ALTER"@)
    ||| keyword_is(token, "LOCAL"@)
    ||| keyword_is(token, "GLOBAL"@)
    ||| keyword_is(token, "TRANSIENT"@)
    ||| keyword_is(token, "TEMP"@)
    ||| keyword_is(token, "TEMPORARY"@)
}

/// Whether a statement ends at a position. The parser passes over a semicolon where it looks for the name
/// of a table to copy: behind `LIKE`, `ILIKE`, `CLONE` or the period of a name.
pub open spec fn ends_at(tokens: Seq<Json>, k: int) -> bool {
    let before = token_at(tokens, k - 1);
    tag(token_at(tokens, k)) == "SemiColon"@ && !(keyword_is(before, "LIKE"@) || keyword_is(before, "ILIKE"@)
        || keyword_is(before, "CLONE"@) || tag(before) == "Period"@)
}

/// Whether the statement that a position belongs to creates a table before it.
pub open spec fn in_new_table(tokens: Seq<Json>, k: int) -> bool
    decreases k + 1,
{
    if k < 0 || ends_at(tokens, k) {
        false
    } else if keyword_is(token_at(tokens, k), "CREATE"@) && creates_table(tokens, k + 1) {
        true
    } else {
        in_new_table(tokens, k - 1)
    }
}

/// Whether `TOP` can follow a token: it stands behind `SELECT`, `ALL` or `DISTINCT`.
pub open spec fn selects(token: Json) -> bool {
    keyword_is(token, "SELECT"@) || keyword_is(token, "ALL"@) || keyword_is(token, "DISTINCT"@) || tag(token)
        == "RParen"@
}

/// Whether a token begins the grant or the revocation of a privilege.
pub open spec fn grants(token: Json) -> bool {
    keyword_is(token, "GRANT"@) || keyword_is(token, "REVOKE"@)
}

/// Whether a clause that the parser panics on begins at a position: `TOP` of a query with a number that is
/// no 64-bit integer, `AUTO_INCREMENT` of a new table with one that is no 32-bit integer, or `GRANTED BY` of
/// a grant without a name.
pub open spec fn breaks_at(tokens: Seq<Json>, i: int) -> bool {
    let here = token_at(tokens, i);
    let next = token_at(tokens, i + 1);
    let after = token_at(tokens, i + 2);
    ||| keyword_is(here, "TOP"@) && number_beyond(next, u64::MAX) && selects(token_at(tokens, i - 1))
    ||| keyword_is(here, "AUTO_INCREMENT"@) && number_beyond(
        if tag(next) == "Eq"@ {
            after
        } else {
            next
        },
        4294967295,
    ) && in_new_table(tokens, i - 1)
    ||| keyword_is(here, "GRANTED"@) && keyword_is(next, "BY"@) && !name_token(after) && exists|j: int|
        0 <= j < i && grants(#[trigger] token_at(tokens, j))
}

/// Whether the parser panics on no clause of these tokens.
pub open spec fn parseable(tokens: Seq<Json>) -> bool {
    forall|i: int| 0 <= i < tokens.len() ==> !#[trigger] breaks_at(tokens, i)
}

/// Whether the parser panics on no clause of the tokens that were read.
pub open spec fn parses<E>(read: std::result::Result<Seq<(serde_json::Value, Seq<char>)>, E>) -> bool {
    match read {
        Ok(tokens) => parseable(solid_from(tokens, 0, Seq::empty())),
        Err(_) => true,
    }
}

fn token_ref(tokens: &Vec<Datum>, i: usize) -> (result: &Datum)
    ensures
        result@ == token_at(tokens.deep_view(), i as int),
{
    if i < tokens.len() {
        &tokens[i]
    } else {
        &Datum::Null
    }
}

fn is_keyword(token: &Datum, keyword: &str) -> (result: bool)
    ensures
        result == keyword_is(token@, keyword@),
{
    token.is("Word") && same(token.payload().child("keyword").text(), keyword)
}

fn is_beyond(token: &Datum, limit: u64) -> (result: bool)
    ensures
        result == number_beyond(token@, limit),
{
    token.is("Number") && match parse_u64(token.payload().item(0).text()) {
        Some(n) => n > limit,
        None => true,
    }
}

fn token_before(tokens: &Vec<Datum>, i: usize) -> (result: &Datum)
    ensures
        result@ == token_at(tokens.deep_view(), i - 1),
{
    if i > 0 {
        token_ref(tokens, i - 1)
    } else {
        &Datum::Null
    }
}

fn is_creating_table(tokens: &Vec<Datum>, from: usize) -> (result: bool)
    ensures
        result == creates_table(tokens.deep_view(), from as int),
{
    let ghost model = tokens.deep_view();
    let mut k: usize = from;
    while k < tokens.len()
        invariant
            model == tokens.deep_view(),
            creates_table(model, from as int) == creates_table(model, k as int),
        decreases tokens.len() - k,
    {
        let token = &tokens[k];
        assert(model[k as int] == token@);
        if is_keyword(token, "TABLE") {
            return true;
        }
        let passed = is_keyword(token, "OR") || is_keyword(token, "REPLACE") || is_keyword(token, "ALTER")
            || is_keyword(token, "LOCAL") || is_keyword(token, "GLOBAL") || is_keyword(token, "TRANSIENT")
            || is_keyword(token, "TEMP") || is_keyword(token, "TEMPORARY");
        if !passed {
            return false;
        }
        k += 1;
    }
    false
}

fn is_end(tokens: &Vec<Datum>, k: usize) -> (result: bool)
    ensures
        result == ends_at(tokens.deep_view(), k as int),
{
    let before = token_before(tokens, k);
    token_ref(tokens, k).is("SemiColon") && !(is_keyword(before, "LIKE") || is_keyword(before, "ILIKE") || is_keyword(before, "CLONE") || before.is("Period"))
}

/// Whether the statement that the position before `end` belongs to creates a table.
fn is_in_new_table(tokens: &Vec<Datum>, end: usize) -> (result: bool)
    requires
        end <= tokens.len(),
    ensures
        result == in_new_table(tokens.deep_view(), end - 1),
{
    let ghost model = tokens.deep_view();
    let mut left: usize = end;
    while left > 0
        invariant
            left <= end <= tokens.len(),
            model == tokens.deep_view(),
            in_new_table(model, end - 1) == in_new_table(model, left - 1),
        decreases left,
    {
        let k: usize = left - 1;
        if is_end(tokens, k) {
            return false;
        }
        if is_keyword(token_ref(tokens, k), "CREATE") && is_creating_table(tokens, left) {
            return true;
        }
        left = k;
    }
    false
}

fn is_granting(tokens: &Vec<Datum>, end: usize) -> (result: bool)
    requires
        end <= tokens.len(),
    ensures
        result == exists|j: int| 0 <= j < end && grants(#[trigger] token_at(tokens.deep_view(), j)),
{
    let ghost model = tokens.deep_view();
    let mut j: usize = 0;
    while j < end
        invariant
            j <= end <= tokens.len(),
            model == tokens.deep_view(),
            forall|i: int| 0 <= i < j ==> !grants(#[trigger] token_at(model, i)),
        decreases end - j,
    {
        let token = token_ref(tokens, j);
        if is_keyword(token, "GRANT") || is_keyword(token, "REVOKE") {
            assert(grants(token_at(model, j as int)));
            return true;
        }
        j += 1;
    }
    false
}

/// Whether `TOP` can stand at a position.
fn is_selecting(tokens: &Vec<Datum>, i: usize) -> (result: bool)
    ensures
        result == selects(token_at(tokens.deep_view(), i - 1)),
{
    let before = token_before(tokens, i);
    is_keyword(before, "SELECT") || is_keyword(before, "ALL") || is_keyword(before, "DISTINCT") || before.is("RParen")
}

/// Whether the parser panics on no clause of these tokens.
pub fn is_parseable(tokens: &Vec<Datum>) -> (result: bool)
    ensures
        result == parseable(tokens.deep_view()),
{
    let ghost model = tokens.deep_view();
    let count: usize = tokens.len();
    let mut i: usize = 0;
    while i < count
        invariant
            i <= count == tokens.len(),
            model == tokens.deep_view(),
            forall|j: int| 0 <= j < i ==> !#[trigger] breaks_at(model, j),
        decreases count - i,
    {
        let here = token_ref(tokens, i);
        let next = if i + 1 < count {
            token_ref(tokens, i + 1)
        } else {
            &Datum::Null
        };
        let after = if count - i > 2 {
            token_ref(tokens, i + 2)
        } else {
            &Datum::Null
        };
        assert(next@ == token_at(model, i + 1));
        assert(after@ == token_at(model, i + 2));
        let number = if next.is("Eq") {
            after
        } else {
            next
        };
        let unnamed = !(after.is("Word") || after.is("SingleQuotedString") || after.is("DoubleQuotedString"));
        if is_keyword(here, "TOP") && is_beyond(next, u64::MAX) && is_selecting(tokens, i) || is_keyword(
            here,
            "AUTO_INCREMENT",
        ) && is_beyond(number, 4294967295) && is_in_new_table(tokens, i) || is_keyword(here, "GRANTED") && is_keyword(
            next,
            "BY",
        ) && unnamed && is_granting(tokens, i) {
            assert(breaks_at(model, i as int));
            return false;
        }
        assert(!breaks_at(model, i as int));
        i += 1;
    }
    true
}

// ---------------------------------------------------------------------------------------------
// Trees
// ---------------------------------------------------------------------------------------------

/// Whether a character can quote a name in the printer's hands.
pub open spec fn quoting(style: Json) -> bool {
    match style {
        Json::Null => true,
        Json::String(mark) => mark == "\""@ || mark == "'"@ || mark == "`"@ || mark == "["@,
        _ => false,
    }
}

/// What may stand at a place in a tree.
#[derive(Debug, Clone, Copy, PartialEq, Eq, Structural)]
pub enum Spot {
    /// Nothing special.
    Plain,
    /// The body of a query.
    Body,
    /// A list of plain texts.
    Texts,
    /// A type of a name of its own, with a list of plain texts for its modifiers.
    Custom,
}

/// What stands under a name.
pub open spec fn spot_of(key: Seq<char>) -> Spot {
    if key == "body"@ || key == "left"@ || key == "right"@ {
        Spot::Body
    } else if key == "Enum"@ || key == "Set"@ || key == "files"@ || key == "PGCustomBinaryOperator"@ {
        Spot::Texts
    } else if key == "Custom"@ {
        Spot::Custom
    } else {
        Spot::Plain
    }
}

/// What stands at a position of a list.
pub open spec fn item_spot(spot: Spot, i: int) -> Spot {
    if spot == Spot::Custom && i == 1 {
        Spot::Texts
    } else {
        Spot::Body
    }
}

/// Whether the fields of an object are such that the printer panics on it:
/// - a quote style that it does not know, or a token quoted like a text;
/// - a stored generated column without an expression;
/// - an external table without a format or a place;
/// - an interval of seconds with two precisions and a last field;
/// - a query of a table without the name of the table, where the body of a query stands.
pub open spec fn unprintable(node: Json, spot: Spot) -> bool {
    let word = child(node, "Word"@);
    let generated = child(node, "Generated"@);
    let created = child(node, "CreateTable"@);
    let table = child(node, "Table"@);
    ||| !quoting(child(node, "quote_style"@))
    ||| word is Array || child(word, "quote_style"@) == Json::String("'"@)
    ||| generated is Array || tag(child(generated, "generated_as"@)) == "ExpStored"@ && child(
        generated,
        "generation_expr"@,
    ) is Null
    ||| created is Array || flag(child(created, "external"@)) && (child(created, "file_format"@) is Null || child(
        created,
        "location"@,
    ) is Null)
    ||| child(node, "Interval"@) is Array || tag(child(node, "leading_field"@)) == "Second"@ && !(child(
        node,
        "leading_precision"@,
    ) is Null) && !(child(node, "fractional_seconds_precision"@) is Null) && !(child(node, "last_field"@) is Null)
    ||| spot == Spot::Body && !(table is Null) && child(table, "table_name"@) is Null
}

/// Whether two texts in a list could be a name with a quote style that the printer does not know.
pub open spec fn unprintable_pair(list: Seq<Json>) -> bool {
    list.len() == 2 && list[0] is String && list[1] is String && text(list[1]).len() == 1 && !quoting(list[1])
}

/// Whether the printer panics on no part of a tree.
pub open spec fn printable(tree: Json, spot: Spot) -> bool
    decreases tree,
{
    match tree {
        Json::Array(list) => (spot == Spot::Texts || !unprintable_pair(list)) && (forall|i: int|
            0 <= i < list.len() ==> printable(#[trigger] list[i], item_spot(spot, i))),
        Json::Object(entries) => !unprintable(tree, spot) && (forall|i: int|
            0 <= i < entries.len() ==> printable((#[trigger] entries[i]).1, spot_of(entries[i].0))),
        _ => true,
    }
}

fn is_quoting(style: &Datum) -> (result: bool)
    ensures
        result == quoting(style@),
{
    match style {
        Datum::Null => true,
        Datum::String(mark) => same(mark.as_str(), "\"") || same(mark.as_str(), "'") || same(mark.as_str(), "`")
            || same(mark.as_str(), "["),
        _ => false,
    }
}

fn is_list(value: &Datum) -> (result: bool)
    ensures
        result == (value@ is Array),
{
    match value {
        Datum::Array(_) => true,
        _ => false,
    }
}

fn is_unprintable(node: &Datum, spot: Spot) -> (result: bool)
    ensures
        result == unprintable(node@, spot),
{
    let word = node.child("Word");
    let generated = node.child("Generated");
    let created = node.child("CreateTable");
    let table = node.child("Table");
    if !is_quoting(node.child("quote_style")) || is_list(word) || is_list(generated) || is_list(created) || is_list(
        node.child("Interval"),
    ) {
        return true;
    }
    if let Datum::String(mark) = word.child("quote_style") {
        if same(mark.as_str(), "'") {
            return true;
        }
    }
    if node.child("leading_field").is("Second") && !node.child("leading_precision").is_null() && !node.child(
        "fractional_seconds_precision",
    ).is_null() && !node.child("last_field").is_null() {
        return true;
    }
    generated.child("generated_as").is("ExpStored") && generated.child("generation_expr").is_null() || created.child(
        "external",
    ).flag() && (created.child("file_format").is_null() || created.child("location").is_null()) || spot == Spot::Body
        && !table.is_null() && table.child("table_name").is_null()
}

fn is_unprintable_pair(list: &Vec<Datum>) -> (result: bool)
    ensures
        result == unprintable_pair(list.deep_view()),
{
    let ghost model = list.deep_view();
    if list.len() != 2 {
        return false;
    }
    assert(model[0] == list[0]@ && model[1] == list[1]@);
    match (&list[0], &list[1]) {
        (Datum::String(_), Datum::String(mark)) => crate::text::chars_of(mark.as_str()).len() == 1 && !is_quoting(
            &list[1],
        ),
        _ => false,
    }
}

/// What stands under a name.
fn spot_under(key: &str) -> (result: Spot)
    ensures
        result == spot_of(key@),
{
    if same(key, "body") || same(key, "left") || same(key, "right") {
        Spot::Body
    } else if same(key, "Enum") || same(key, "Set") || same(key, "files") || same(key, "PGCustomBinaryOperator") {
        Spot::Texts
    } else if same(key, "Custom") {
        Spot::Custom
    } else {
        Spot::Plain
    }
}

/// Whether the printer panics on no part of a tree.
pub fn is_printable(tree: &Datum, spot: Spot) -> (result: bool)
    ensures
        result == printable(tree@, spot),
    decreases tree,
{
    match tree {
        Datum::Array(list) => {
            if spot != Spot::Texts && is_unprintable_pair(list) {
                return false;
            }
            let ghost all = list.deep_view();
            assert(tree@ == Json::Array(all));
            let mut i: usize = 0;
            while i < list.len()
                invariant
                    i <= list.len(),
                    tree matches Datum::Array(inner) && inner == list,
                    all == list.deep_view(),
                    tree@ == Json::Array(all),
                    spot == Spot::Texts || !unprintable_pair(all),
                    forall|j: int| 0 <= j < i ==> printable(#[trigger] all[j], item_spot(spot, j)),
                decreases list.len() - i,
            {
                assert(all[i as int] == list[i as int]@);
                let inner = if spot == Spot::Custom && i == 1 {
                    Spot::Texts
                } else {
                    Spot::Body
                };
                if !is_printable(&list[i], inner) {
                    assert(tree@->Array_0[i as int] == all[i as int]);
                    return false;
                }
                i += 1;
            }
            true
        },
        Datum::Object(map) => {
            if is_unprintable(tree, spot) {
                return false;
            }
            assert(tree@ == Json::Object(map@));
            let mut i: usize = 0;
            while i < map.entries.len()
                invariant
                    i <= map.entries.len(),
                    tree matches Datum::Object(inner) && inner == map,
                    tree@ == Json::Object(map@),
                    !unprintable(tree@, spot),
                    forall|j: int| 0 <= j < i ==> printable((#[trigger] map@[j]).1, spot_of(map@[j].0)),
                decreases map.entries.len() - i,
            {
                assert(map@[i as int] == (map.entries[i as int].0@, map.entries[i as int].1@));
                if !is_printable(&map.entries[i].1, spot_under(map.entries[i].0.as_str())) {
                    assert(tree@->Object_0[i as int] == map@[i as int]);
                    return false;
                }
                i += 1;
            }
            true
        },
        _ => true,
    }
}

} // verus!
