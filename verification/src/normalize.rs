//! Read-only queries brought into the form that the query engine may run: only admitted clauses,
//! functions and operators, views expanded, and every relation one of the catalog.

use vstd::prelude::*;
use vstd::utf8::encode_utf8;
use crate::ast::{
    data_type_of, ident_name, ident_names, names, parse_statements, quoted, quoted_ident, statement_text,
    statement_text_of, statements_of, table_name, table_name_of, data_type, ident,
};
use crate::catalog::{AuthContext, AuthModel, Database, DatabaseModel};
use crate::error::{err, failure, outcome, unsupported, unsupported_failure, Outcome, Result};
use crate::json::{group_value_views, Datum, Json};
use crate::ordmap::{get, has_key, put, put_all, OrdMap};
use crate::outside::lower;
use crate::replica::{add_last, no_items, Replica};
use crate::text::{cat3, is_listed, join, joined, listed, owned, parse_i64, parsed_i64, same};
use crate::value::{child, flag, item, items, parts_are_lighter, payload, tag, tagged, text, weight};

verus! {

broadcast use group_value_views;

/// How many bytes a query may have.
pub const MAX_SQL_BYTES: usize = 262144;

/// How deep queries and views may nest.
pub const MAX_QUERY_NESTING: usize = 64;

/// A set of names in specifications.
pub type Names = Seq<(Seq<char>, ())>;

/// What a node of a query tree is.
#[derive(Debug, Clone, Copy, PartialEq, Eq, Structural)]
pub enum Kind {
    Query,
    With,
    Cte,
    Body,
    SetOperation,
    Values,
    Select,
    Distinct,
    Item,
    AliasedItem,
    Joined,
    Join,
    JoinOperator,
    Constraint,
    Grouping,
    Factor,
    Derived,
    NestedJoin,
    Expr,
    Operands,
    Function,
    Argument,
    NamedArgument,
    ArgumentExpr,
    Window,
    WindowSpec,
    Frame,
    Bound,
    Order,
    Offset,
    Fetch,
}

/// How a field holds its nodes: one, a list, or a list of lists. A null holds none.
#[derive(Debug, Clone, Copy, PartialEq, Eq, Structural)]
pub enum Many {
    One,
    Each,
    EachOfEach,
}

/// A field of a node: its name, what it holds, and how.
pub type Field = (Seq<char>, Kind, Many);

/// Expressions that hold one expression and nothing else.
pub open spec fn holds_one(name: Seq<char>) -> bool {
    name == "Nested"@ || name == "IsFalse"@ || name == "IsNotFalse"@ || name == "IsTrue"@ || name == "IsNotTrue"@
        || name == "IsNull"@ || name == "IsNotNull"@ || name == "IsUnknown"@ || name == "IsNotUnknown"@
}

/// Expressions that hold two expressions in a row.
pub open spec fn holds_two(name: Seq<char>) -> bool {
    name == "IsDistinctFrom"@ || name == "IsNotDistinctFrom"@
}

/// Expressions with named operands.
pub open spec fn holds_operands(name: Seq<char>) -> bool {
    name == "InList"@ || name == "InSubquery"@ || name == "Between"@ || name == "BinaryOp"@ || name == "Like"@
        || name == "ILike"@ || name == "UnaryOp"@ || name == "Cast"@ || name == "Position"@ || name == "Substring"@
        || name == "Trim"@ || name == "AggregateExpressionWithFilter"@ || name == "Case"@ || name == "Exists"@
}

fn is_holding_one(name: &str) -> (result: bool)
    ensures
        result == holds_one(name@),
{
    same(name, "Nested") || same(name, "IsFalse") || same(name, "IsNotFalse") || same(name, "IsTrue") || same(
        name,
        "IsNotTrue",
    ) || same(name, "IsNull") || same(name, "IsNotNull") || same(name, "IsUnknown") || same(name, "IsNotUnknown")
}

fn is_holding_two(name: &str) -> (result: bool)
    ensures
        result == holds_two(name@),
{
    same(name, "IsDistinctFrom") || same(name, "IsNotDistinctFrom")
}

fn is_holding_operands(name: &str) -> (result: bool)
    ensures
        result == holds_operands(name@),
{
    same(name, "InList") || same(name, "InSubquery") || same(name, "Between") || same(name, "BinaryOp") || same(
        name,
        "Like",
    ) || same(name, "ILike") || same(name, "UnaryOp") || same(name, "Cast") || same(name, "Position") || same(
        name,
        "Substring",
    ) || same(name, "Trim") || same(name, "AggregateExpressionWithFilter") || same(name, "Case") || same(
        name,
        "Exists",
    )
}

/// The fields of an expression that hold further nodes.
pub open spec fn expr_fields(name: Seq<char>) -> Seq<Field> {
    if holds_one(name) {
        seq![(name, Kind::Expr, Many::One)]
    } else if holds_two(name) {
        seq![(name, Kind::Expr, Many::Each)]
    } else if holds_operands(name) {
        seq![(name, Kind::Operands, Many::One)]
    } else if name == "Function"@ {
        seq![(name, Kind::Function, Many::One)]
    } else if name == "Subquery"@ {
        seq![(name, Kind::Query, Many::One)]
    } else {
        Seq::empty()
    }
}

/// The fields of a node that hold further nodes, in the order of their declaration.
pub open spec fn fields_of(kind: Kind, node: Json) -> Seq<Field> {
    let name = tag(node);
    match kind {
        Kind::Query => seq![
            ("with"@, Kind::With, Many::One),
            ("body"@, Kind::Body, Many::One),
            ("order_by"@, Kind::Order, Many::Each),
            ("limit"@, Kind::Expr, Many::One),
            ("offset"@, Kind::Offset, Many::One),
            ("fetch"@, Kind::Fetch, Many::One),
        ],
        Kind::With => seq![("cte_tables"@, Kind::Cte, Many::Each)],
        Kind::Cte => seq![("query"@, Kind::Query, Many::One)],
        Kind::Body => seq![
            ("Select"@, Kind::Select, Many::One),
            ("Query"@, Kind::Query, Many::One),
            ("SetOperation"@, Kind::SetOperation, Many::One),
            ("Values"@, Kind::Values, Many::One),
        ],
        Kind::SetOperation => seq![("left"@, Kind::Body, Many::One), ("right"@, Kind::Body, Many::One)],
        Kind::Values => seq![("rows"@, Kind::Expr, Many::EachOfEach)],
        Kind::Select => seq![
            ("distinct"@, Kind::Distinct, Many::One),
            ("projection"@, Kind::Item, Many::Each),
            ("from"@, Kind::Joined, Many::Each),
            ("selection"@, Kind::Expr, Many::One),
            ("group_by"@, Kind::Grouping, Many::One),
            ("having"@, Kind::Expr, Many::One),
            ("named_window"@, Kind::WindowSpec, Many::EachOfEach),
        ],
        Kind::Distinct => seq![("On"@, Kind::Expr, Many::Each)],
        Kind::Item => seq![
            ("UnnamedExpr"@, Kind::Expr, Many::One),
            ("ExprWithAlias"@, Kind::AliasedItem, Many::One),
        ],
        Kind::AliasedItem => seq![("expr"@, Kind::Expr, Many::One)],
        Kind::Joined => seq![("relation"@, Kind::Factor, Many::One), ("joins"@, Kind::Join, Many::Each)],
        Kind::Join => seq![
            ("relation"@, Kind::Factor, Many::One),
            ("join_operator"@, Kind::JoinOperator, Many::One),
        ],
        Kind::JoinOperator => if node is Object {
            seq![(name, Kind::Constraint, Many::One)]
        } else {
            Seq::empty()
        },
        Kind::Constraint => seq![("On"@, Kind::Expr, Many::One)],
        Kind::Grouping => seq![("Expressions"@, Kind::Expr, Many::Each)],
        Kind::Factor => seq![
            ("Derived"@, Kind::Derived, Many::One),
            ("NestedJoin"@, Kind::NestedJoin, Many::One),
        ],
        Kind::Derived => seq![("subquery"@, Kind::Query, Many::One)],
        Kind::NestedJoin => seq![("table_with_joins"@, Kind::Joined, Many::One)],
        Kind::Expr => expr_fields(name),
        Kind::Operands => seq![
            ("expr"@, Kind::Expr, Many::One),
            ("left"@, Kind::Expr, Many::One),
            ("operand"@, Kind::Expr, Many::One),
            ("list"@, Kind::Expr, Many::Each),
            ("subquery"@, Kind::Query, Many::One),
            ("low"@, Kind::Expr, Many::One),
            ("high"@, Kind::Expr, Many::One),
            ("right"@, Kind::Expr, Many::One),
            ("pattern"@, Kind::Expr, Many::One),
            ("in"@, Kind::Expr, Many::One),
            ("substring_from"@, Kind::Expr, Many::One),
            ("substring_for"@, Kind::Expr, Many::One),
            ("trim_what"@, Kind::Expr, Many::One),
            ("trim_characters"@, Kind::Expr, Many::Each),
            ("filter"@, Kind::Expr, Many::One),
            ("conditions"@, Kind::Expr, Many::Each),
            ("results"@, Kind::Expr, Many::Each),
            ("else_result"@, Kind::Expr, Many::One),
        ],
        Kind::Function => seq![
            ("args"@, Kind::Argument, Many::Each),
            ("filter"@, Kind::Expr, Many::One),
            ("over"@, Kind::Window, Many::One),
            ("order_by"@, Kind::Order, Many::Each),
        ],
        Kind::Argument => seq![
            ("Named"@, Kind::NamedArgument, Many::One),
            ("Unnamed"@, Kind::ArgumentExpr, Many::One),
        ],
        Kind::NamedArgument => seq![("arg"@, Kind::ArgumentExpr, Many::One)],
        Kind::ArgumentExpr => seq![("Expr"@, Kind::Expr, Many::One)],
        Kind::Window => seq![("WindowSpec"@, Kind::WindowSpec, Many::One)],
        Kind::WindowSpec => seq![
            ("partition_by"@, Kind::Expr, Many::Each),
            ("order_by"@, Kind::Order, Many::Each),
            ("window_frame"@, Kind::Frame, Many::One),
        ],
        Kind::Frame => seq![
            ("start_bound"@, Kind::Bound, Many::One),
            ("end_bound"@, Kind::Bound, Many::One),
        ],
        Kind::Bound => seq![
            ("Preceding"@, Kind::Expr, Many::One),
            ("Following"@, Kind::Expr, Many::One),
        ],
        Kind::Order => seq![("expr"@, Kind::Expr, Many::One)],
        Kind::Offset => seq![("value"@, Kind::Expr, Many::One)],
        Kind::Fetch => seq![("quantity"@, Kind::Expr, Many::One)],
    }
}

/// A field of a node as a value.
pub type FieldName = (String, Kind, Many);

/// What a list of fields stands for.
pub open spec fn fields_view(fields: Seq<FieldName>) -> Seq<Field> {
    Seq::new(fields.len(), |i: int| (fields[i].0@, fields[i].1, fields[i].2))
}

fn one_field(name: &str, kind: Kind, many: Many) -> (result: Vec<FieldName>)
    ensures
        fields_view(result@) == seq![(name@, kind, many)],
{
    let mut fields: Vec<FieldName> = Vec::new();
    fields.push((owned(name), kind, many));
    assert(fields_view(fields@) =~= seq![(name@, kind, many)]);
    fields
}

fn and_field(fields: &mut Vec<FieldName>, name: &str, kind: Kind, many: Many)
    ensures
        fields_view(final(fields)@) == fields_view(old(fields)@).push((name@, kind, many)),
{
    fields.push((owned(name), kind, many));
    assert(fields_view(fields@) =~= fields_view(old(fields)@).push((name@, kind, many)));
}

fn list_expr_fields(name: &str) -> (result: Vec<FieldName>)
    ensures
        fields_view(result@) == expr_fields(name@),
{
    if is_holding_one(name) {
        one_field(name, Kind::Expr, Many::One)
    } else if is_holding_two(name) {
        one_field(name, Kind::Expr, Many::Each)
    } else if is_holding_operands(name) {
        one_field(name, Kind::Operands, Many::One)
    } else if same(name, "Function") {
        one_field(name, Kind::Function, Many::One)
    } else if same(name, "Subquery") {
        one_field(name, Kind::Query, Many::One)
    } else {
        let none: Vec<FieldName> = Vec::new();
        assert(fields_view(none@) =~= Seq::<Field>::empty());
        none
    }
}

/// The fields of a node that hold further nodes, in the order of their declaration.
fn list_fields(kind: Kind, node: &Datum) -> (result: Vec<FieldName>)
    ensures
        fields_view(result@) == fields_of(kind, node@),
{
    let mut fields: Vec<FieldName> = Vec::new();
    assert(fields_view(fields@) =~= Seq::<Field>::empty());
    match kind {
        Kind::Query => {
            and_field(&mut fields, "with", Kind::With, Many::One);
            and_field(&mut fields, "body", Kind::Body, Many::One);
            and_field(&mut fields, "order_by", Kind::Order, Many::Each);
            and_field(&mut fields, "limit", Kind::Expr, Many::One);
            and_field(&mut fields, "offset", Kind::Offset, Many::One);
            and_field(&mut fields, "fetch", Kind::Fetch, Many::One);
        },
        Kind::With => {
            and_field(&mut fields, "cte_tables", Kind::Cte, Many::Each);
        },
        Kind::Cte => {
            and_field(&mut fields, "query", Kind::Query, Many::One);
        },
        Kind::Body => {
            and_field(&mut fields, "Select", Kind::Select, Many::One);
            and_field(&mut fields, "Query", Kind::Query, Many::One);
            and_field(&mut fields, "SetOperation", Kind::SetOperation, Many::One);
            and_field(&mut fields, "Values", Kind::Values, Many::One);
        },
        Kind::SetOperation => {
            and_field(&mut fields, "left", Kind::Body, Many::One);
            and_field(&mut fields, "right", Kind::Body, Many::One);
        },
        Kind::Values => {
            and_field(&mut fields, "rows", Kind::Expr, Many::EachOfEach);
        },
        Kind::Select => {
            and_field(&mut fields, "distinct", Kind::Distinct, Many::One);
            and_field(&mut fields, "projection", Kind::Item, Many::Each);
            and_field(&mut fields, "from", Kind::Joined, Many::Each);
            and_field(&mut fields, "selection", Kind::Expr, Many::One);
            and_field(&mut fields, "group_by", Kind::Grouping, Many::One);
            and_field(&mut fields, "having", Kind::Expr, Many::One);
            and_field(&mut fields, "named_window", Kind::WindowSpec, Many::EachOfEach);
        },
        Kind::Distinct => {
            and_field(&mut fields, "On", Kind::Expr, Many::Each);
        },
        Kind::Item => {
            and_field(&mut fields, "UnnamedExpr", Kind::Expr, Many::One);
            and_field(&mut fields, "ExprWithAlias", Kind::AliasedItem, Many::One);
        },
        Kind::AliasedItem => {
            and_field(&mut fields, "expr", Kind::Expr, Many::One);
        },
        Kind::Joined => {
            and_field(&mut fields, "relation", Kind::Factor, Many::One);
            and_field(&mut fields, "joins", Kind::Join, Many::Each);
        },
        Kind::Join => {
            and_field(&mut fields, "relation", Kind::Factor, Many::One);
            and_field(&mut fields, "join_operator", Kind::JoinOperator, Many::One);
        },
        Kind::JoinOperator => {
            match node {
                Datum::Object(_) => {
                    and_field(&mut fields, node.tag(), Kind::Constraint, Many::One);
                },
                _ => {},
            }
        },
        Kind::Constraint => {
            and_field(&mut fields, "On", Kind::Expr, Many::One);
        },
        Kind::Grouping => {
            and_field(&mut fields, "Expressions", Kind::Expr, Many::Each);
        },
        Kind::Factor => {
            and_field(&mut fields, "Derived", Kind::Derived, Many::One);
            and_field(&mut fields, "NestedJoin", Kind::NestedJoin, Many::One);
        },
        Kind::Derived => {
            and_field(&mut fields, "subquery", Kind::Query, Many::One);
        },
        Kind::NestedJoin => {
            and_field(&mut fields, "table_with_joins", Kind::Joined, Many::One);
        },
        Kind::Expr => {
            return list_expr_fields(node.tag());
        },
        Kind::Operands => {
            and_field(&mut fields, "expr", Kind::Expr, Many::One);
            and_field(&mut fields, "left", Kind::Expr, Many::One);
            and_field(&mut fields, "operand", Kind::Expr, Many::One);
            and_field(&mut fields, "list", Kind::Expr, Many::Each);
            and_field(&mut fields, "subquery", Kind::Query, Many::One);
            and_field(&mut fields, "low", Kind::Expr, Many::One);
            and_field(&mut fields, "high", Kind::Expr, Many::One);
            and_field(&mut fields, "right", Kind::Expr, Many::One);
            and_field(&mut fields, "pattern", Kind::Expr, Many::One);
            and_field(&mut fields, "in", Kind::Expr, Many::One);
            and_field(&mut fields, "substring_from", Kind::Expr, Many::One);
            and_field(&mut fields, "substring_for", Kind::Expr, Many::One);
            and_field(&mut fields, "trim_what", Kind::Expr, Many::One);
            and_field(&mut fields, "trim_characters", Kind::Expr, Many::Each);
            and_field(&mut fields, "filter", Kind::Expr, Many::One);
            and_field(&mut fields, "conditions", Kind::Expr, Many::Each);
            and_field(&mut fields, "results", Kind::Expr, Many::Each);
            and_field(&mut fields, "else_result", Kind::Expr, Many::One);
        },
        Kind::Function => {
            and_field(&mut fields, "args", Kind::Argument, Many::Each);
            and_field(&mut fields, "filter", Kind::Expr, Many::One);
            and_field(&mut fields, "over", Kind::Window, Many::One);
            and_field(&mut fields, "order_by", Kind::Order, Many::Each);
        },
        Kind::Argument => {
            and_field(&mut fields, "Named", Kind::NamedArgument, Many::One);
            and_field(&mut fields, "Unnamed", Kind::ArgumentExpr, Many::One);
        },
        Kind::NamedArgument => {
            and_field(&mut fields, "arg", Kind::ArgumentExpr, Many::One);
        },
        Kind::ArgumentExpr => {
            and_field(&mut fields, "Expr", Kind::Expr, Many::One);
        },
        Kind::Window => {
            and_field(&mut fields, "WindowSpec", Kind::WindowSpec, Many::One);
        },
        Kind::WindowSpec => {
            and_field(&mut fields, "partition_by", Kind::Expr, Many::Each);
            and_field(&mut fields, "order_by", Kind::Order, Many::Each);
            and_field(&mut fields, "window_frame", Kind::Frame, Many::One);
        },
        Kind::Frame => {
            and_field(&mut fields, "start_bound", Kind::Bound, Many::One);
            and_field(&mut fields, "end_bound", Kind::Bound, Many::One);
        },
        Kind::Bound => {
            and_field(&mut fields, "Preceding", Kind::Expr, Many::One);
            and_field(&mut fields, "Following", Kind::Expr, Many::One);
        },
        Kind::Order => {
            and_field(&mut fields, "expr", Kind::Expr, Many::One);
        },
        Kind::Offset => {
            and_field(&mut fields, "value", Kind::Expr, Many::One);
        },
        Kind::Fetch => {
            and_field(&mut fields, "quantity", Kind::Expr, Many::One);
        },
    }
    assert(fields_view(fields@) =~= fields_of(kind, node@));
    fields
}

// ---------------------------------------------------------------------------------------------
// Admission
// ---------------------------------------------------------------------------------------------

/// Whether a field holds something: a value that is not null, or a list that is not empty.
pub open spec fn given(node: Json, key: Seq<char>) -> bool {
    !(child(node, key) is Null)
}

/// Whether a body of a query is admitted; the operands of a set operation have to be, too.
pub open spec fn body_admitted(body: Json) -> Outcome<()>
    decreases weight(body),
{
    proof {
        parts_are_lighter(body);
        parts_are_lighter(payload(body));
    }
    let node = payload(body);
    if body is Null {
        Err(unsupported_failure("Mutating CTEs and non-query set expressions are not supported"@))
    } else if tag(body) == "Select"@ {
        if given(node, "into"@) || given(node, "top"@) || items(child(node, "lateral_views"@)).len() > 0 || given(
            node,
            "qualify"@,
        ) || items(child(node, "cluster_by"@)).len() > 0 || items(child(node, "distribute_by"@)).len() > 0 || items(
            child(node, "sort_by"@),
        ).len() > 0 {
            Err(unsupported_failure("SELECT INTO and dialect-specific query modifiers are not supported"@))
        } else {
            Ok(())
        }
    } else if tag(body) == "SetOperation"@ {
        let quantifier = tag(child(node, "set_quantifier"@));
        if quantifier != "All"@ && quantifier != "Distinct"@ && quantifier != "None"@ {
            Err(unsupported_failure("Set operations by column name are not supported"@))
        } else {
            match body_admitted(child(node, "left"@)) {
                Err(error) => Err(error),
                Ok(_) => body_admitted(child(node, "right"@)),
            }
        }
    } else if tag(body) == "Query"@ || tag(body) == "Values"@ {
        Ok(())
    } else {
        Err(unsupported_failure("Mutating CTEs and non-query set expressions are not supported"@))
    }
}

fn validate_body(body: &Datum) -> (result: Result<()>)
    ensures
        outcome(result) == body_admitted(body@),
    decreases weight(body@),
{
    proof {
        parts_are_lighter(body@);
        parts_are_lighter(payload(body@));
    }
    let node = body.payload();
    if body.is_null() {
        Err(unsupported("Mutating CTEs and non-query set expressions are not supported"))
    } else if body.is("Select") {
        if !node.child("into").is_null() || !node.child("top").is_null() || node.child("lateral_views").count() > 0
            || !node.child("qualify").is_null() || node.child("cluster_by").count() > 0 || node.child(
            "distribute_by",
        ).count() > 0 || node.child("sort_by").count() > 0 {
            Err(unsupported("SELECT INTO and dialect-specific query modifiers are not supported"))
        } else {
            Ok(())
        }
    } else if body.is("SetOperation") {
        let quantifier = node.child("set_quantifier");
        if !quantifier.is("All") && !quantifier.is("Distinct") && !quantifier.is("None") {
            Err(unsupported("Set operations by column name are not supported"))
        } else {
            validate_body(node.child("left"))?;
            validate_body(node.child("right"))
        }
    } else if body.is("Query") || body.is("Values") {
        Ok(())
    } else {
        Err(unsupported("Mutating CTEs and non-query set expressions are not supported"))
    }
}

/// The names that a query gives to its common table expressions.
pub open spec fn aliases_of(query: Json) -> Seq<Seq<char>> {
    let tables = items(child(child(query, "with"@), "cte_tables"@));
    Seq::new(tables.len(), |i: int| ident_name(child(child(tables[i], "alias"@), "name"@)))
}

fn aliases(query: &Datum) -> (result: Vec<String>)
    ensures
        result.deep_view() == aliases_of(query@),
{
    let tables = query.child("with").child("cte_tables");
    let count: usize = tables.count();
    let ghost goal = aliases_of(query@);
    let mut result: Vec<String> = no_items();
    let mut i: usize = 0;
    while i < count
        invariant
            i <= count == items(tables@).len(),
            tables@ == child(child(query@, "with"@), "cte_tables"@),
            goal == aliases_of(query@),
            result.deep_view() == goal.take(i as int),
        decreases count - i,
    {
        add_last(&mut result, ident(tables.item(i).child("alias").child("name")));
        assert(result.deep_view() =~= goal.take(i + 1));
        i += 1;
    }
    assert(goal.take(count as int) =~= goal);
    result
}

/// Whether a query is admitted at a depth.
pub open spec fn query_admitted(query: Json, depth: nat) -> Outcome<()> {
    if depth >= 64 {
        Err(failure("ResourceLimit"@, "Query nesting limit exceeded"@))
    } else if items(child(query, "locks"@)).len() > 0 || items(child(query, "limit_by"@)).len() > 0 || given(
        query,
        "for_clause"@,
    ) {
        Err(unsupported_failure("Locking and dialect-specific query clauses are not supported"@))
    } else {
        body_admitted(child(query, "body"@))
    }
}

fn admit_query(query: &Datum, depth: usize) -> (result: Result<()>)
    ensures
        outcome(result) == query_admitted(query@, depth as nat),
{
    if depth >= MAX_QUERY_NESTING {
        Err(err("ResourceLimit", "Query nesting limit exceeded"))
    } else if query.child("locks").count() > 0 || query.child("limit_by").count() > 0 || !query.child(
        "for_clause",
    ).is_null() {
        Err(unsupported("Locking and dialect-specific query clauses are not supported"))
    } else {
        validate_body(query.child("body"))
    }
}

/// The functions that a query may call.
pub open spec fn known_function(name: Seq<char>) -> bool {
    name == "count"@ || name == "sum"@ || name == "avg"@ || name == "min"@ || name == "max"@ || name == "row_number"@
        || name == "rank"@ || name == "dense_rank"@ || name == "lag"@ || name == "lead"@ || name == "first_value"@
        || name == "last_value"@ || name == "nth_value"@ || name == "ntile"@ || name == "percent_rank"@ || name
        == "cume_dist"@ || name == "abs"@ || name == "coalesce"@ || name == "nullif"@ || name == "lower"@ || name
        == "upper"@ || name == "trim"@ || name == "ltrim"@ || name == "rtrim"@ || name == "substring"@ || name
        == "substr"@ || name == "length"@ || name == "char_length"@ || name == "character_length"@ || name
        == "concat"@ || name == "concat_ws"@ || name == "replace"@ || name == "starts_with"@ || name == "ends_with"@
        || name == "greatest"@ || name == "least"@
}

fn is_known_function(name: &str) -> (result: bool)
    ensures
        result == known_function(name@),
{
    same(name, "count") || same(name, "sum") || same(name, "avg") || same(name, "min") || same(name, "max") || same(
        name,
        "row_number",
    ) || same(name, "rank") || same(name, "dense_rank") || same(name, "lag") || same(name, "lead") || same(
        name,
        "first_value",
    ) || same(name, "last_value") || same(name, "nth_value") || same(name, "ntile") || same(name, "percent_rank")
        || same(name, "cume_dist") || same(name, "abs") || same(name, "coalesce") || same(name, "nullif") || same(
        name,
        "lower",
    ) || same(name, "upper") || same(name, "trim") || same(name, "ltrim") || same(name, "rtrim") || same(
        name,
        "substring",
    ) || same(name, "substr") || same(name, "length") || same(name, "char_length") || same(name, "character_length")
        || same(name, "concat") || same(name, "concat_ws") || same(name, "replace") || same(name, "starts_with")
        || same(name, "ends_with") || same(name, "greatest") || same(name, "least")
}

/// The literal of the caller's identity.
pub open spec fn identity_literal(caller: AuthModel) -> Json {
    tagged(
        "Value"@,
        match caller.uid {
            Some(uid) => tagged("SingleQuotedString"@, Json::String(uid)),
            None => Json::String("Null"@),
        },
    )
}

/// Whether a call is admitted; the call of `auth.uid` gives way to the caller's identity.
pub open spec fn call_admitted(call: Json, caller: AuthModel) -> Outcome<Option<Json>> {
    let name = joined(ident_names(child(call, "name"@)), "."@);
    if name == "auth.uid"@ || name == "auth.jwt"@ {
        if items(child(call, "args"@)).len() > 0 || given(call, "over"@) || given(call, "filter"@) || flag(
            child(call, "distinct"@),
        ) || items(child(call, "order_by"@)).len() > 0 || given(call, "null_treatment"@) {
            Err(unsupported_failure("Identity functions accept no arguments or modifiers"@))
        } else if name == "auth.jwt"@ {
            Err(
                unsupported_failure(
                    "auth.jwt() query output requires the native JSON evaluator; policies still use the fixed AuthContext"@,
                ),
            )
        } else {
            Ok(Some(identity_literal(caller)))
        }
    } else if known_function(name) {
        Ok(None)
    } else {
        Err(unsupported_failure("Function "@ + name + " is not supported by KuraSQL reads"@))
    }
}

fn admit_call(call: &Datum, context: &AuthContext) -> (result: Result<Option<Datum>>)
    ensures
        outcome(result) == call_admitted(call@, context.deep_view()),
{
    let parts = names(call.child("name"));
    let name = join(&parts, ".");
    let name = name.as_str();
    if same(name, "auth.uid") || same(name, "auth.jwt") {
        if call.child("args").count() > 0 || !call.child("over").is_null() || !call.child("filter").is_null()
            || call.child("distinct").flag() || call.child("order_by").count() > 0 || !call.child(
            "null_treatment",
        ).is_null() {
            return Err(unsupported("Identity functions accept no arguments or modifiers"));
        }
        if same(name, "auth.jwt") {
            return Err(
                unsupported(
                    "auth.jwt() query output requires the native JSON evaluator; policies still use the fixed AuthContext",
                ),
            );
        }
        let literal = match &context.uid {
            Some(uid) => Datum::tagged("SingleQuotedString", Datum::string(uid.as_str())),
            None => Datum::string("Null"),
        };
        Ok(Some(Datum::tagged("Value", literal)))
    } else if is_known_function(name) {
        Ok(None)
    } else {
        Err(unsupported(cat3("Function ", name, " is not supported by KuraSQL reads").as_str()))
    }
}

/// Whether a cast to this type is admitted.
pub open spec fn cast_target(target: Seq<char>) -> bool {
    target == "smallint"@ || target == "int"@ || target == "integer"@ || target == "bigint"@ || target == "boolean"@
        || target == "bool"@ || target == "text"@ || target == "varchar"@
}

/// Whether a binary operator is admitted.
pub open spec fn known_operator(name: Seq<char>) -> bool {
    name == "Plus"@ || name == "Minus"@ || name == "Multiply"@ || name == "Divide"@ || name == "Modulo"@ || name
        == "Eq"@ || name == "NotEq"@ || name == "Gt"@ || name == "GtEq"@ || name == "Lt"@ || name == "LtEq"@ || name
        == "And"@ || name == "Or"@ || name == "StringConcat"@
}

/// Whether a literal is admitted.
pub open spec fn literal_admitted(value: Json) -> Outcome<()> {
    if tag(value) == "Number"@ {
        if parsed_i64(text(item(payload(value), 0))) is Some {
            Ok(())
        } else {
            Err(unsupported_failure("Only signed 64-bit integer literals are currently supported"@))
        }
    } else if tag(value) == "Null"@ || tag(value) == "Boolean"@ || tag(value) == "SingleQuotedString"@ {
        Ok(())
    } else {
        Err(unsupported_failure("Expression form is not supported by KuraSQL reads"@))
    }
}

/// Whether an expression is admitted, and what it gives way to.
pub open spec fn expr_admitted(expr: Json, caller: AuthModel) -> Outcome<Option<Json>> {
    let name = tag(expr);
    let node = payload(expr);
    if name == "Function"@ {
        call_admitted(node, caller)
    } else if name == "Value"@ {
        match literal_admitted(node) {
            Err(error) => Err(error),
            Ok(_) => Ok(None),
        }
    } else if name == "Cast"@ {
        let target = lower(data_type_of(child(node, "data_type"@)));
        if given(node, "format"@) || !cast_target(target) {
            Err(unsupported_failure("CAST target "@ + target + " is not supported"@))
        } else {
            Ok(None)
        }
    } else if name == "BinaryOp"@ {
        if known_operator(tag(child(node, "op"@))) {
            Ok(None)
        } else {
            Err(unsupported_failure("Binary operator is not supported"@))
        }
    } else if name == "UnaryOp"@ {
        let op = tag(child(node, "op"@));
        if op == "Plus"@ || op == "Minus"@ || op == "Not"@ {
            Ok(None)
        } else {
            Err(unsupported_failure("Expression form is not supported by KuraSQL reads"@))
        }
    } else if name == "Identifier"@ || name == "CompoundIdentifier"@ || name == "Subquery"@ || holds_one(name)
        || holds_two(name) || holds_operands(name) {
        Ok(None)
    } else {
        Err(unsupported_failure("Expression form is not supported by KuraSQL reads"@))
    }
}

fn is_cast_target(target: &str) -> (result: bool)
    ensures
        result == cast_target(target@),
{
    same(target, "smallint") || same(target, "int") || same(target, "integer") || same(target, "bigint") || same(
        target,
        "boolean",
    ) || same(target, "bool") || same(target, "text") || same(target, "varchar")
}

fn is_known_operator(name: &str) -> (result: bool)
    ensures
        result == known_operator(name@),
{
    same(name, "Plus") || same(name, "Minus") || same(name, "Multiply") || same(name, "Divide") || same(
        name,
        "Modulo",
    ) || same(name, "Eq") || same(name, "NotEq") || same(name, "Gt") || same(name, "GtEq") || same(name, "Lt")
        || same(name, "LtEq") || same(name, "And") || same(name, "Or") || same(name, "StringConcat")
}

fn admit_literal(value: &Datum) -> (result: Result<()>)
    ensures
        outcome(result) == literal_admitted(value@),
{
    if value.is("Number") {
        match parse_i64(value.payload().item(0).text()) {
            Some(_) => Ok(()),
            None => Err(unsupported("Only signed 64-bit integer literals are currently supported")),
        }
    } else if value.is("Null") || value.is("Boolean") || value.is("SingleQuotedString") {
        Ok(())
    } else {
        Err(unsupported("Expression form is not supported by KuraSQL reads"))
    }
}

/// Whether an expression is admitted, and what it gives way to.
fn admit_expr(expr: &Datum, context: &AuthContext) -> (result: Result<Option<Datum>>)
    ensures
        outcome(result) == expr_admitted(expr@, context.deep_view()),
{
    let name = expr.tag();
    let node = expr.payload();
    if same(name, "Function") {
        admit_call(node, context)
    } else if same(name, "Value") {
        admit_literal(node)?;
        Ok(None)
    } else if same(name, "Cast") {
        let target = data_type(node.child("data_type")).to_lowercase();
        if !node.child("format").is_null() || !is_cast_target(target.as_str()) {
            Err(unsupported(cat3("CAST target ", target.as_str(), " is not supported").as_str()))
        } else {
            Ok(None)
        }
    } else if same(name, "BinaryOp") {
        if is_known_operator(node.child("op").tag()) {
            Ok(None)
        } else {
            Err(unsupported("Binary operator is not supported"))
        }
    } else if same(name, "UnaryOp") {
        let op = node.child("op");
        if op.is("Plus") || op.is("Minus") || op.is("Not") {
            Ok(None)
        } else {
            Err(unsupported("Expression form is not supported by KuraSQL reads"))
        }
    } else if same(name, "Identifier") || same(name, "CompoundIdentifier") || same(name, "Subquery")
        || is_holding_one(name) || is_holding_two(name) || is_holding_operands(name) {
        Ok(None)
    } else {
        Err(unsupported("Expression form is not supported by KuraSQL reads"))
    }
}

// ---------------------------------------------------------------------------------------------
// The walk
// ---------------------------------------------------------------------------------------------

/// Whether one of the scopes has a name.
pub open spec fn in_scope(scopes: Seq<Seq<Seq<char>>>, name: Seq<char>) -> bool {
    exists|i: int| 0 <= i < scopes.len() && listed(#[trigger] scopes[i], name)
}

fn is_in_scope(scopes: &Vec<Vec<String>>, name: &str) -> (result: bool)
    ensures
        result == in_scope(scopes.deep_view(), name@),
{
    let ghost model = scopes.deep_view();
    let mut i: usize = 0;
    while i < scopes.len()
        invariant
            i <= scopes.len(),
            model == scopes.deep_view(),
            forall|j: int| 0 <= j < i ==> !listed(#[trigger] model[j], name@),
        decreases scopes.len() - i,
    {
        assert(model[i as int] == scopes[i as int].deep_view());
        if is_listed(&scopes[i], name) {
            return true;
        }
        i += 1;
    }
    false
}

/// An identifier without quotes.
pub open spec fn plain_ident(name: Seq<char>) -> Json {
    Json::Object(seq![("quote_style"@, Json::Null), ("value"@, Json::String(name))])
}

fn unquoted(name: &str) -> (result: Datum)
    ensures
        result@ == plain_ident(name@),
{
    let mut entries: Vec<(String, Datum)> = Vec::new();
    entries.push((owned("quote_style"), Datum::Null));
    entries.push((owned("value"), Datum::string(name)));
    let map = OrdMap { entries };
    assert(map@ =~= plain_ident(name@)->Object_0);
    Datum::Object(map)
}

/// A node with another value in a field.
pub open spec fn with_child(node: Json, key: Seq<char>, value: Json) -> Json {
    match node {
        Json::Object(entries) => Json::Object(put(entries, key, value)),
        _ => node,
    }
}

fn set_child(node: Datum, key: &str, value: Datum) -> (result: Datum)
    ensures
        result@ == with_child(node@, key@, value@),
{
    match node {
        Datum::Object(map) => {
            let mut changed = map;
            changed.insert(owned(key), value);
            Datum::Object(changed)
        },
        other => other,
    }
}

/// A table of the catalog under its full name.
pub open spec fn catalog_factor(factor: Json, relation: Seq<char>) -> Json {
    tagged(
        "Table"@,
        with_child(
            payload(factor),
            "name"@,
            Json::Array(seq![plain_ident("public"@), quoted_ident(relation)]),
        ),
    )
}

fn name_factor(factor: &Datum, relation: &str) -> (result: Datum)
    ensures
        result@ == catalog_factor(factor@, relation@),
{
    let mut name: Vec<Datum> = no_items();
    add_last(&mut name, unquoted("public"));
    add_last(&mut name, quoted(relation));
    assert(name.deep_view() =~= seq![plain_ident("public"@), quoted_ident(relation@)]);
    Datum::tagged("Table", set_child(factor.payload().copied(), "name", Datum::Array(name)))
}

/// The alias of an expanded view: the one that was given, else the name of the view.
pub open spec fn view_alias(factor: Json, relation: Seq<char>) -> Json {
    let alias = child(payload(factor), "alias"@);
    if alias is Null {
        Json::Object(seq![("columns"@, Json::Array(Seq::empty())), ("name"@, quoted_ident(relation))])
    } else {
        alias
    }
}

/// A view as a derived table.
pub open spec fn view_factor(factor: Json, relation: Seq<char>, query: Json) -> Json {
    tagged(
        "Derived"@,
        Json::Object(
            seq![
                ("alias"@, view_alias(factor, relation)),
                ("lateral"@, Json::Bool(false)),
                ("subquery"@, query),
            ],
        ),
    )
}

fn derive_factor(factor: &Datum, relation: &str, query: Datum) -> (result: Datum)
    ensures
        result@ == view_factor(factor@, relation@, query@),
{
    let given_alias = factor.payload().child("alias");
    let alias = if given_alias.is_null() {
        let mut entries: Vec<(String, Datum)> = Vec::new();
        let none: Vec<Datum> = no_items();
        entries.push((owned("columns"), Datum::Array(none)));
        entries.push((owned("name"), quoted(relation)));
        let map = OrdMap { entries };
        assert(map@ =~= seq![("columns"@, Json::Array(Seq::empty())), ("name"@, quoted_ident(relation@))]);
        Datum::Object(map)
    } else {
        given_alias.copied()
    };
    let ghost alias_model = alias@;
    let ghost query_model = query@;
    let mut entries: Vec<(String, Datum)> = Vec::new();
    entries.push((owned("alias"), alias));
    entries.push((owned("lateral"), Datum::Bool(false)));
    entries.push((owned("subquery"), query));
    let map = OrdMap { entries };
    assert(map@ =~= seq![
        ("alias"@, alias_model),
        ("lateral"@, Json::Bool(false)),
        ("subquery"@, query_model),
    ]);
    Datum::tagged("Derived", Datum::Object(map))
}

/// What a table factor stands for.
pub enum FactorModel {
    /// A common table expression, or a factor that holds its own query: its parts are walked.
    Kept,
    /// A table of the catalog.
    Base(Seq<char>),
    /// A view and its query.
    View(Seq<char>, Seq<char>),
}

/// [`FactorModel`] as a value.
pub enum Factor {
    Kept,
    Base(String),
    View(String, String),
}

impl DeepView for Factor {
    type V = FactorModel;

    open spec fn deep_view(&self) -> FactorModel {
        match *self {
            Factor::Kept => FactorModel::Kept,
            Factor::Base(name) => FactorModel::Base(name@),
            Factor::View(name, sql) => FactorModel::View(name@, sql@),
        }
    }
}

/// What a table factor stands for, where it is admitted.
pub open spec fn factor_admitted(
    factor: Json,
    db: DatabaseModel,
    path: Seq<Seq<char>>,
    scopes: Seq<Seq<Seq<char>>>,
) -> Outcome<FactorModel> {
    let node = payload(factor);
    if tag(factor) == "Table"@ {
        if given(node, "args"@) || items(child(node, "with_hints"@)).len() > 0 || given(node, "version"@) || items(
            child(node, "partitions"@),
        ).len() > 0 {
            Err(
                unsupported_failure(
                    "Table functions, file sources and versioned relations are not supported"@,
                ),
            )
        } else {
            match table_name_of(child(node, "name"@)) {
                Err(error) => Err(error),
                Ok(relation) => if items(child(node, "name"@)).len() == 1 && in_scope(scopes, relation) {
                    Ok(FactorModel::Kept)
                } else {
                    match get(db.views, relation) {
                        Some(view) => if view.materialized {
                            Err(unsupported_failure("Materialized views require the gateway snapshot cache"@))
                        } else if listed(path, relation) {
                            Err(unsupported_failure("Cyclic view dependency"@))
                        } else {
                            Ok(FactorModel::View(relation, view.sql))
                        },
                        None => if has_key(db.catalog, relation) {
                            Ok(FactorModel::Base(relation))
                        } else {
                            Err(
                                failure(
                                    "UndefinedTable"@,
                                    "Relation "@ + relation + " does not exist"@,
                                ),
                            )
                        },
                    }
                },
            }
        }
    } else if tag(factor) == "Derived"@ && !flag(child(node, "lateral"@)) || tag(factor) == "NestedJoin"@ {
        Ok(FactorModel::Kept)
    } else {
        Err(
            unsupported_failure("Only catalog tables, views, CTEs and derived queries are supported"@),
        )
    }
}

fn admit_factor(factor: &Datum, db: &Database, path: &Vec<String>, scopes: &Vec<Vec<String>>) -> (result: Result<
    Factor,
>)
    ensures
        outcome(result) == factor_admitted(factor@, db.deep_view(), path.deep_view(), scopes.deep_view()),
{
    let node = factor.payload();
    if factor.is("Table") {
        if !node.child("args").is_null() || node.child("with_hints").count() > 0 || !node.child("version").is_null()
            || node.child("partitions").count() > 0 {
            return Err(
                unsupported("Table functions, file sources and versioned relations are not supported"),
            );
        }
        let relation = table_name(node.child("name"))?;
        if node.child("name").count() == 1 && is_in_scope(scopes, relation.as_str()) {
            return Ok(Factor::Kept);
        }
        match db.views.get(&relation) {
            Some(view) => {
                if view.materialized {
                    Err(unsupported("Materialized views require the gateway snapshot cache"))
                } else if is_listed(path, relation.as_str()) {
                    Err(unsupported("Cyclic view dependency"))
                } else {
                    Ok(Factor::View(relation, view.sql.clone()))
                }
            },
            None => {
                if db.catalog.contains(&relation) {
                    Ok(Factor::Base(relation))
                } else {
                    Err(
                        err(
                            "UndefinedTable",
                            cat3("Relation ", relation.as_str(), " does not exist").as_str(),
                        ),
                    )
                }
            },
        }
    } else if factor.is("Derived") && !node.child("lateral").flag() || factor.is("NestedJoin") {
        Ok(Factor::Kept)
    } else {
        Err(unsupported("Only catalog tables, views, CTEs and derived queries are supported"))
    }
}

/// A query brought into its normal form, and the tables that it reads. `path` names the views
/// whose expansion led to it.
pub open spec fn normalized(
    db: DatabaseModel,
    sql: Seq<char>,
    caller: AuthModel,
    path: Seq<Seq<char>>,
) -> Outcome<(Json, Names)>
    decreases 64 - path.len(), 2int, 0nat, 0int, 0int,
{
    if encode_utf8(sql).len() > 262144 || path.len() >= 64 {
        Err(failure("ResourceLimit"@, "SQL or view nesting limit exceeded"@))
    } else {
        match statements_of(sql) {
            Err(_) => Err(failure("SyntaxError"@, "Invalid SQL query"@)),
            Ok(list) => if list.len() != 1 {
                Err(unsupported_failure("Exactly one read-only SELECT query is required"@))
            } else if tag(list[0]) != "Query"@ {
                Err(unsupported_failure("The relational endpoint accepts read-only queries only"@))
            } else {
                walked(
                    Kind::Query,
                    payload(list[0]),
                    db,
                    caller,
                    path,
                    true,
                    Seq::empty(),
                    Seq::empty(),
                )
            },
        }
    }
}

/// A node after the walk, and the tables found so far. `fresh` says that views may still be
/// expanded: an expanded view is walked again, and holds no view any more.
pub open spec fn walked(
    kind: Kind,
    node: Json,
    db: DatabaseModel,
    caller: AuthModel,
    path: Seq<Seq<char>>,
    fresh: bool,
    scopes: Seq<Seq<Seq<char>>>,
    found: Names,
) -> Outcome<(Json, Names)>
    decreases 64 - path.len(), fresh as int, weight(node), 2int, 0int,
{
    if node is Null {
        Ok((node, found))
    } else if kind == Kind::Query {
        match query_admitted(node, scopes.len()) {
            Err(error) => Err(error),
            Ok(_) => walked_fields(
                node,
                fields_of(kind, node),
                0,
                node,
                db,
                caller,
                path,
                fresh,
                scopes.push(aliases_of(node)),
                found,
            ),
        }
    } else if kind == Kind::Expr {
        match expr_admitted(node, caller) {
            Err(error) => Err(error),
            Ok(Some(literal)) => Ok((literal, found)),
            Ok(None) => walked_fields(
                node,
                fields_of(kind, node),
                0,
                node,
                db,
                caller,
                path,
                fresh,
                scopes,
                found,
            ),
        }
    } else if kind == Kind::Factor {
        match factor_admitted(node, db, path, scopes) {
            Err(error) => Err(error),
            Ok(FactorModel::Base(relation)) => Ok((catalog_factor(node, relation), put(found, relation, ()))),
            Ok(FactorModel::View(relation, sql)) => if !fresh || path.len() >= 64 {
                Err(unsupported_failure("Cyclic view dependency"@))
            } else {
                match normalized(db, sql, caller, path.push(relation)) {
                    Err(error) => Err(error),
                    Ok((query, more)) => {
                        let derived = view_factor(node, relation, query);
                        walked_fields(
                            derived,
                            fields_of(kind, derived),
                            0,
                            derived,
                            db,
                            caller,
                            path,
                            false,
                            scopes,
                            put_all(found, more),
                        )
                    },
                }
            },
            Ok(FactorModel::Kept) => walked_fields(
                node,
                fields_of(kind, node),
                0,
                node,
                db,
                caller,
                path,
                fresh,
                scopes,
                found,
            ),
        }
    } else {
        walked_fields(node, fields_of(kind, node), 0, node, db, caller, path, fresh, scopes, found)
    }
}

/// A node after the walk of its fields from position `from` on; `done` has those before.
pub open spec fn walked_fields(
    node: Json,
    fields: Seq<Field>,
    from: int,
    done: Json,
    db: DatabaseModel,
    caller: AuthModel,
    path: Seq<Seq<char>>,
    fresh: bool,
    scopes: Seq<Seq<Seq<char>>>,
    found: Names,
) -> Outcome<(Json, Names)>
    decreases 64 - path.len(), fresh as int, weight(node), 1int, fields.len() - from,
{
    proof {
        parts_are_lighter(node);
    }
    if from < 0 || from >= fields.len() {
        Ok((done, found))
    } else {
        let (key, kind, many) = fields[from];
        let value = child(node, key);
        if node is Null || value is Null {
            walked_fields(node, fields, from + 1, done, db, caller, path, fresh, scopes, found)
        } else {
            match walked_value(kind, many, value, db, caller, path, fresh, scopes, found) {
                Err(error) => Err(error),
                Ok((next, more)) => walked_fields(
                    node,
                    fields,
                    from + 1,
                    with_child(done, key, next),
                    db,
                    caller,
                    path,
                    fresh,
                    scopes,
                    more,
                ),
            }
        }
    }
}

/// The value of a field after the walk.
pub open spec fn walked_value(
    kind: Kind,
    many: Many,
    value: Json,
    db: DatabaseModel,
    caller: AuthModel,
    path: Seq<Seq<char>>,
    fresh: bool,
    scopes: Seq<Seq<Seq<char>>>,
    found: Names,
) -> Outcome<(Json, Names)>
    decreases 64 - path.len(), fresh as int, weight(value), 3int, 0int,
{
    if many == Many::One {
        walked(kind, value, db, caller, path, fresh, scopes, found)
    } else {
        match value {
            Json::Array(_) => match walked_items(
                kind,
                many,
                value,
                0,
                Seq::empty(),
                db,
                caller,
                path,
                fresh,
                scopes,
                found,
            ) {
                Err(error) => Err(error),
                Ok((list, more)) => Ok((Json::Array(list), more)),
            },
            _ => Ok((value, found)),
        }
    }
}

/// The items of a list after the walk from position `from` on, after those in `done`.
pub open spec fn walked_items(
    kind: Kind,
    many: Many,
    value: Json,
    from: int,
    done: Seq<Json>,
    db: DatabaseModel,
    caller: AuthModel,
    path: Seq<Seq<char>>,
    fresh: bool,
    scopes: Seq<Seq<Seq<char>>>,
    found: Names,
) -> Outcome<(Seq<Json>, Names)>
    decreases 64 - path.len(), fresh as int, weight(value), 2int, items(value).len() - from,
{
    proof {
        parts_are_lighter(value);
    }
    if from < 0 || from >= items(value).len() {
        Ok((done, found))
    } else {
        let inner = if many == Many::EachOfEach {
            Many::Each
        } else {
            Many::One
        };
        match walked_value(kind, inner, items(value)[from], db, caller, path, fresh, scopes, found) {
            Err(error) => Err(error),
            Ok((next, more)) => walked_items(
                kind,
                many,
                value,
                from + 1,
                done.push(next),
                db,
                caller,
                path,
                fresh,
                scopes,
                more,
            ),
        }
    }
}

/// The result of a walk: the new tree and the tables found.
pub struct Walked {
    pub tree: Datum,
    pub found: OrdMap<String, ()>,
}

impl DeepView for Walked {
    type V = (Json, Names);

    open spec fn deep_view(&self) -> (Json, Names) {
        (self.tree@, self.found@)
    }
}

/// What stays the same during the walk of one query.
pub struct Walk<'a> {
    pub db: &'a Database,
    pub context: &'a AuthContext,
    pub path: &'a Vec<String>,
    pub fresh: bool,
}

/// A query brought into its normal form, and the tables that it reads.
pub fn normalize(db: &Database, sql: &str, context: &AuthContext, path: &Vec<String>) -> (result: Result<Walked>)
    ensures
        outcome(result) == normalized(db.deep_view(), sql@, context.deep_view(), path.deep_view()),
    decreases 64 - path@.len(), 2int, 0nat, 0int,
{
    if sql.as_bytes().len() > MAX_SQL_BYTES || path.len() >= MAX_QUERY_NESTING {
        return Err(err("ResourceLimit", "SQL or view nesting limit exceeded"));
    }
    let list = match parse_statements(sql) {
        Ok(list) => list,
        Err(_) => {
            return Err(err("SyntaxError", "Invalid SQL query"));
        },
    };
    if list.len() != 1 {
        return Err(unsupported("Exactly one read-only SELECT query is required"));
    }
    assert(list.deep_view()[0] == list[0]@);
    if !list[0].is("Query") {
        return Err(unsupported("The relational endpoint accepts read-only queries only"));
    }
    let walk = Walk { db, context, path, fresh: true };
    let scopes: Vec<Vec<String>> = no_items();
    walk_node(Kind::Query, list[0].payload(), &walk, &scopes, OrdMap::new())
}

fn walk_node(kind: Kind, node: &Datum, walk: &Walk<'_>, scopes: &Vec<Vec<String>>, found: OrdMap<String, ()>) -> (result:
    Result<Walked>)
    requires
        walk.path@.len() < 64,
    ensures
        outcome(result) == walked(
            kind,
            node@,
            walk.db.deep_view(),
            walk.context.deep_view(),
            walk.path.deep_view(),
            walk.fresh,
            scopes.deep_view(),
            found@,
        ),
    decreases 64 - walk.path@.len(), walk.fresh as int, weight(node@), 2int,
{
    if node.is_null() {
        return Ok(Walked { tree: Datum::Null, found });
    }
    match kind {
        Kind::Query => {
            admit_query(node, scopes.len())?;
            let mut inner = scopes.replica();
            add_last(&mut inner, aliases(node));
            walk_fields(kind, node, walk, &inner, found)
        },
        Kind::Expr => {
            match admit_expr(node, walk.context)? {
                Some(literal) => Ok(Walked { tree: literal, found }),
                None => walk_fields(kind, node, walk, scopes, found),
            }
        },
        Kind::Factor => {
            match admit_factor(node, walk.db, walk.path, scopes)? {
                Factor::Base(relation) => {
                    let mut found = found;
                    let tree = name_factor(node, relation.as_str());
                    found.insert(relation, ());
                    Ok(Walked { tree, found })
                },
                Factor::View(relation, sql) => {
                    if !walk.fresh {
                        return Err(unsupported("Cyclic view dependency"));
                    }
                    let mut path = walk.path.replica();
                    add_last(&mut path, relation.clone());
                    let inner = normalize(walk.db, sql.as_str(), walk.context, &path)?;
                    let mut found = found;
                    found.extend(&inner.found);
                    let derived = derive_factor(node, relation.as_str(), inner.tree);
                    let settled = Walk {
                        db: walk.db,
                        context: walk.context,
                        path: walk.path,
                        fresh: false,
                    };
                    walk_fields(kind, &derived, &settled, scopes, found)
                },
                Factor::Kept => walk_fields(kind, node, walk, scopes, found),
            }
        },
        _ => walk_fields(kind, node, walk, scopes, found),
    }
}

#[verifier::loop_isolation(false)]
fn walk_fields(kind: Kind, node: &Datum, walk: &Walk<'_>, scopes: &Vec<Vec<String>>, found: OrdMap<String, ()>) -> (result:
    Result<Walked>)
    requires
        walk.path@.len() < 64,
    ensures
        outcome(result) == walked_fields(
            node@,
            fields_of(kind, node@),
            0,
            node@,
            walk.db.deep_view(),
            walk.context.deep_view(),
            walk.path.deep_view(),
            walk.fresh,
            scopes.deep_view(),
            found@,
        ),
    decreases 64 - walk.path@.len(), walk.fresh as int, weight(node@), 1int,
{
    proof {
        parts_are_lighter(node@);
    }
    let fields = list_fields(kind, node);
    let ghost first = found@;
    let ghost model = fields_of(kind, node@);
    let ghost d = walk.db.deep_view();
    let ghost c = walk.context.deep_view();
    let ghost p = walk.path.deep_view();
    let ghost s = scopes.deep_view();
    let mut done = node.copied();
    let mut found = found;
    let mut i: usize = 0;
    while i < fields.len()
        invariant
            i <= fields.len(),
            walked_fields(node@, model, 0, node@, d, c, p, walk.fresh, s, first) == walked_fields(
                node@,
                model,
                i as int,
                done@,
                d,
                c,
                p,
                walk.fresh,
                s,
                found@,
            ),
        decreases fields.len() - i,
    {
        let key = fields[i].0.as_str();
        assert(model[i as int] == (key@, fields[i as int].1, fields[i as int].2));
        let value = node.child(key);
        if !value.is_null() {
            assert(!(node@ is Null));
            let next = walk_value(fields[i].1, fields[i].2, value, walk, scopes, found)?;
            done = set_child(done, key, next.tree);
            found = next.found;
        }
        i += 1;
    }
    Ok(Walked { tree: done, found })
}

fn walk_value(
    kind: Kind,
    many: Many,
    value: &Datum,
    walk: &Walk<'_>,
    scopes: &Vec<Vec<String>>,
    found: OrdMap<String, ()>,
) -> (result: Result<Walked>)
    requires
        walk.path@.len() < 64,
    ensures
        outcome(result) == walked_value(
            kind,
            many,
            value@,
            walk.db.deep_view(),
            walk.context.deep_view(),
            walk.path.deep_view(),
            walk.fresh,
            scopes.deep_view(),
            found@,
        ),
    decreases 64 - walk.path@.len(), walk.fresh as int, weight(value@), 3int,
{
    match many {
        Many::One => walk_node(kind, value, walk, scopes, found),
        _ => match value {
            Datum::Array(list) => walk_items(kind, many, value, walk, scopes, found),
            _ => Ok(Walked { tree: value.copied(), found }),
        },
    }
}

#[verifier::loop_isolation(false)]
fn walk_items(
    kind: Kind,
    many: Many,
    value: &Datum,
    walk: &Walk<'_>,
    scopes: &Vec<Vec<String>>,
    found: OrdMap<String, ()>,
) -> (result: Result<Walked>)
    requires
        walk.path@.len() < 64,
        many != Many::One,
        value@ is Array,
    ensures
        outcome(result) == walked_value(
            kind,
            many,
            value@,
            walk.db.deep_view(),
            walk.context.deep_view(),
            walk.path.deep_view(),
            walk.fresh,
            scopes.deep_view(),
            found@,
        ),
    decreases 64 - walk.path@.len(), walk.fresh as int, weight(value@), 2int,
{
    proof {
        parts_are_lighter(value@);
    }
    let inner = match many {
        Many::EachOfEach => Many::Each,
        _ => Many::One,
    };
    let ghost first = found@;
    let ghost d = walk.db.deep_view();
    let ghost c = walk.context.deep_view();
    let ghost p = walk.path.deep_view();
    let ghost s = scopes.deep_view();
    let mut done: Vec<Datum> = no_items();
    let mut found = found;
    let count: usize = value.count();
    let mut i: usize = 0;
    while i < count
        invariant
            i <= count,
            walked_items(kind, many, value@, 0, Seq::empty(), d, c, p, walk.fresh, s, first) == walked_items(
                kind,
                many,
                value@,
                i as int,
                done.deep_view(),
                d,
                c,
                p,
                walk.fresh,
                s,
                found@,
            ),
        decreases count - i,
    {
        let next = walk_value(kind, inner, value.item(i), walk, scopes, found)?;
        add_last(&mut done, next.tree);
        found = next.found;
        i += 1;
    }
    Ok(Walked { tree: Datum::Array(done), found })
}

/// The text of a query in its normal form.
pub open spec fn query_text(query: Json) -> Seq<char> {
    statement_text_of(tagged("Query"@, query))
}

/// The text that the query engine runs and the tables that it reads.
pub open spec fn admitted(db: DatabaseModel, sql: Seq<char>, caller: AuthModel) -> Outcome<(Seq<char>, Names)> {
    match normalized(db, sql, caller, Seq::empty()) {
        Err(error) => Err(error),
        Ok((query, found)) => Ok((query_text(query), found)),
    }
}

/// The text that the query engine runs and the tables that it reads.
pub fn admit_query_text(db: &Database, sql: &str, context: &AuthContext) -> (result: Result<(String, OrdMap<String, ()>)>)
    ensures
        outcome(result) == admitted(db.deep_view(), sql@, context.deep_view()),
{
    let none: Vec<String> = no_items();
    let walked = normalize(db, sql, context, &none)?;
    Ok((statement_text(&Datum::tagged("Query", walked.tree)), walked.found))
}

} // verus!
