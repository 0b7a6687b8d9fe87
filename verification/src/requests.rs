//! What the statements of requests say.

use vstd::prelude::*;
use crate::catalog::TableModel;
use crate::cuts::{cut_at, find_text_range, in_parentheses, trimmed, trimmed_length};
use crate::error::Failure;
use crate::json::Json;
use crate::postgrest::{
    assignments_from, body_rows, conditions_from, filter_of, groups_from, ident_of, idents_from, literal_of, logic_of,
    mutation_of, order_option_of, order_term_from, order_term_of, order_terms_from, param, select_of, split_from, split_of,
    terms_from, where_of, ParamsModel,
};
use crate::text::{joined, joined_from};

verus! {

/// Texts one after the other with another between each two.
pub open spec fn strung(parts: Seq<Seq<char>>, between: Seq<char>) -> Seq<char>
    decreases parts.len(),
{
    if parts.len() == 0 {
        Seq::empty()
    } else if parts.len() == 1 {
        parts[0]
    } else {
        strung(parts.drop_last(), between) + between + parts.last()
    }
}

proof fn joining(parts: Seq<Seq<char>>, between: Seq<char>, from: int)
    requires
        0 < from < parts.len(),
    ensures
        strung(parts.take(from), between) + between + joined_from(parts, between, from) == strung(parts, between),
    decreases parts.len() - from,
{
    let head = strung(parts.take(from), between);
    let next = parts.take(from + 1);
    assert(next.drop_last() =~= parts.take(from));
    assert(strung(next, between) == head + between + parts[from]);
    if from + 1 < parts.len() {
        joining(parts, between, from + 1);
        let rest = joined_from(parts, between, from + 1);
        assert(joined_from(parts, between, from) == parts[from] + between + rest);
        assert(head + between + (parts[from] + between + rest) =~= head + between + parts[from] + between + rest);
    } else {
        assert(next =~= parts);
    }
}

/// Joined texts are strung together.
pub proof fn joined_texts_are_strung(parts: Seq<Seq<char>>, between: Seq<char>)
    ensures
        joined(parts, between) == strung(parts, between),
{
    if parts.len() > 1 {
        let rest = joined_from(parts, between, 1);
        joining(parts, between, 1);
        assert(parts.take(1)[0] == parts[0]);
        assert(strung(parts.take(1), between) == parts[0]);
        assert(joined(parts, between) == parts[0] + between + rest);
    }
}

// ---------------------------------------------------------------------------------------------
// Filters
// ---------------------------------------------------------------------------------------------

proof fn pieces_are_no_longer(
    text: Seq<char>,
    i: int,
    start: int,
    depth: int,
    quoted: bool,
    escaped: bool,
    done: Seq<Seq<char>>,
)
    requires
        0 <= start <= i <= text.len(),
        forall|k: int| 0 <= k < done.len() ==> (#[trigger] done[k]).len() <= text.len(),
    ensures
        split_from(text, i, start, depth, quoted, escaped, done) matches Ok(parts) ==> forall|k: int|
            0 <= k < parts.len() ==> (#[trigger] parts[k]).len() <= text.len(),
    decreases text.len() - i,
{
    if i >= text.len() {
        trimmed_length(text.subrange(start, text.len() as int));
    } else if escaped {
        pieces_are_no_longer(text, i + 1, start, depth, quoted, false, done);
    } else if text[i] == '\\' && quoted {
        pieces_are_no_longer(text, i + 1, start, depth, quoted, true, done);
    } else if quoted != (text[i] == '"') {
        pieces_are_no_longer(text, i + 1, start, depth, true, false, done);
    } else if text[i] == '(' {
        pieces_are_no_longer(text, i + 1, start, depth + 1, false, false, done);
    } else if text[i] == ')' {
        pieces_are_no_longer(text, i + 1, start, depth - 1, false, false, done);
    } else if text[i] == ',' && depth == 0 {
        trimmed_length(text.subrange(start, i));
        pieces_are_no_longer(text, i + 1, i + 1, 0, false, false, done.push(trimmed(text.subrange(start, i))));
    } else {
        pieces_are_no_longer(text, i + 1, start, depth, false, false, done);
    }
}

/// Whether a text is the condition of a part of a boolean filter: of a boolean filter where it begins with
/// its word, else of a filter on the column with which it begins.
pub open spec fn condition_of(table: TableModel, part: Seq<char>, text: Seq<char>) -> bool {
    cut_at(part, "."@) matches Some((field, inner)) && if field == "and"@ || field == "or"@ {
        logic_of(table, field, inner) == Ok::<Seq<char>, Failure>(text)
    } else {
        filter_of(table, field, inner) == Ok::<Seq<char>, Failure>(text)
    }
}

proof fn parts_have_conditions(table: TableModel, parts: Seq<Seq<char>>, bound: nat, from: int, done: Seq<Seq<char>>)
    requires
        0 <= from <= parts.len(),
        done.len() == from,
        forall|k: int| 0 <= k < parts.len() ==> (#[trigger] parts[k]).len() <= bound,
        forall|k: int| 0 <= k < from ==> condition_of(table, parts[k], #[trigger] done[k]),
    ensures
        conditions_from(table, parts, bound, from, done) matches Ok(texts) ==> texts.len() == parts.len() && forall|k: int|
            0 <= k < texts.len() ==> condition_of(table, parts[k], #[trigger] texts[k]),
    decreases parts.len() - from,
{
    if from < parts.len() {
        reveal_strlit(".");
        find_text_range(parts[from], "."@, 0);
        match cut_at(parts[from], "."@) {
            None => {},
            Some((field, inner)) => {
                assert(inner.len() < bound);
                let condition = if field == "and"@ || field == "or"@ {
                    logic_of(table, field, inner)
                } else {
                    filter_of(table, field, inner)
                };
                match condition {
                    Err(_) => {},
                    Ok(text) => {
                        parts_have_conditions(table, parts, bound, from + 1, done.push(text));
                    },
                }
            },
        }
    }
}

/// Whether conditions are those of the parts of a list.
pub open spec fn conditions_of(table: TableModel, parts: Seq<Seq<char>>, conditions: Seq<Seq<char>>) -> bool {
    conditions.len() == parts.len() && forall|k: int|
        0 <= k < conditions.len() ==> condition_of(table, parts[k], #[trigger] conditions[k])
}

/// A boolean filter is the conditions of its parts in parentheses: any of them has to hold where its word is
/// `or`, all of them where it is `and`.
pub proof fn boolean_filters_join_their_parts(table: TableModel, word: Seq<char>, value: Seq<char>)
    requires
        word == "or"@ || word == "and"@,
    ensures
        logic_of(table, word, value) matches Ok(text) ==> (in_parentheses(value) matches Some(list) && (split_of(list) matches Ok(
            parts,
        ) && exists|conditions: Seq<Seq<char>>| #[trigger]
            conditions_of(table, parts, conditions) && text == "("@ + strung(
                conditions,
                if word == "or"@ {
                    " OR "@
                } else {
                    " AND "@
                },
            ) + ")"@)),
{
    match logic_of(table, word, value) {
        Err(_) => {},
        Ok(text) => {
            let list = in_parentheses(value)->Some_0;
            let parts = split_of(list)->Ok_0;
            pieces_are_no_longer(list, 0, 0, 0, false, false, Seq::empty());
            parts_have_conditions(table, parts, list.len(), 0, Seq::empty());
            let conditions = conditions_from(table, parts, list.len(), 0, Seq::empty())->Ok_0;
            joined_texts_are_strung(conditions, " OR "@);
            joined_texts_are_strung(conditions, " AND "@);
            assert(conditions_of(table, parts, conditions));
        },
    }
}

/// Whether a parameter of a request is a filter: it is none of the words that shape the answer, and not one
/// of an embedded relation.
pub open spec fn filters(name: Seq<char>) -> bool {
    &&& !name.contains('.')
    &&& name != "select"@ && name != "order"@ && name != "limit"@ && name != "offset"@ && name != "on_conflict"@ && name
        != "columns"@
}

/// Whether a text is the condition of a parameter.
pub open spec fn parameter_condition(table: TableModel, name: Seq<char>, value: Seq<char>, text: Seq<char>) -> bool {
    if name == "or"@ || name == "and"@ {
        logic_of(table, name, value) == Ok::<Seq<char>, Failure>(text)
    } else {
        filter_of(table, name, value) == Ok::<Seq<char>, Failure>(text)
    }
}

/// Whether conditions are those of the filters at some positions, which are all filters among the first
/// `count` parameters.
pub open spec fn terms_of(
    table: TableModel,
    params: ParamsModel,
    count: int,
    terms: Seq<Seq<char>>,
    at: Seq<int>,
) -> bool {
    &&& at.len() == terms.len()
    &&& crate::answers::increasing(at)
    &&& forall|k: int|
        0 <= k < at.len() ==> 0 <= #[trigger] at[k] < count && filters(params[at[k]].0) && parameter_condition(
            table,
            params[at[k]].0,
            params[at[k]].1,
            terms[k],
        )
    &&& forall|i: int| 0 <= i < count && filters((#[trigger] params[i]).0) ==> at.contains(i)
}

proof fn parameters_have_terms(table: TableModel, params: ParamsModel, from: int, done: Seq<Seq<char>>, at: Seq<int>) -> (all:
    Seq<int>)
    requires
        0 <= from <= params.len(),
        terms_of(table, params, from, done, at),
    ensures
        terms_from(table, params, from, done) matches Ok(terms) ==> terms_of(table, params, params.len() as int, terms, all),
    decreases params.len() - from,
{
    if from < params.len() {
        let (name, value) = params[from];
        if !filters(name) {
            parameters_have_terms(table, params, from + 1, done, at)
        } else {
            let term = if name == "or"@ || name == "and"@ {
                logic_of(table, name, value)
            } else {
                filter_of(table, name, value)
            };
            match term {
                Err(_) => at,
                Ok(text) => {
                    let more = at.push(from);
                    let next = done.push(text);
                    assert forall|k: int| 0 <= k < more.len() implies 0 <= #[trigger] more[k] < from + 1 && filters(
                        params[more[k]].0,
                    ) && parameter_condition(table, params[more[k]].0, params[more[k]].1, next[k]) by {
                        if k < at.len() {
                            assert(more[k] == at[k] && next[k] == done[k]);
                        }
                    }
                    assert forall|i: int| 0 <= i < from + 1 && filters((#[trigger] params[i]).0) implies more.contains(i) by {
                        if i < from {
                            let k = choose|k: int| 0 <= k < at.len() && at[k] == i;
                            assert(more[k] == i);
                        } else {
                            assert(more[at.len() as int] == i);
                        }
                    }
                    parameters_have_terms(table, params, from + 1, next, more)
                },
            }
        }
    } else {
        at
    }
}

/// Whether a text is the WHERE of a request: the conditions of all its filters, all of which have to hold;
/// nothing where it has none.
pub open spec fn condition_text(table: TableModel, params: ParamsModel, text: Seq<char>, terms: Seq<Seq<char>>, at: Seq<int>) -> bool {
    &&& terms_of(table, params, params.len() as int, terms, at)
    &&& if terms.len() == 0 {
        text.len() == 0
    } else {
        text == " WHERE "@ + strung(terms, " AND "@)
    }
}

/// The WHERE of a request has the condition of each of its filters, all of which have to hold.
pub proof fn all_filters_of_a_request_count(table: TableModel, params: ParamsModel)
    ensures
        where_of(table, params) matches Ok(text) ==> exists|terms: Seq<Seq<char>>, at: Seq<int>| #[trigger]
            condition_text(table, params, text, terms, at),
{
    match where_of(table, params) {
        Err(_) => {},
        Ok(text) => {
            let at = parameters_have_terms(table, params, 0, Seq::empty(), Seq::empty());
            let terms = terms_from(table, params, 0, Seq::empty())->Ok_0;
            joined_texts_are_strung(terms, " AND "@);
            assert(condition_text(table, params, text, terms, at));
        },
    }
}

// ---------------------------------------------------------------------------------------------
// Queries
// ---------------------------------------------------------------------------------------------

/// Whether a text says what an option of an order asks for.
pub open spec fn orders(option: Seq<char>, text: Seq<char>) -> bool {
    ||| option == "asc"@ && text == " ASC"@
    ||| option == "desc"@ && text == " DESC"@
    ||| option == "nullsfirst"@ && text == " NULLS FIRST"@
    ||| option == "nullslast"@ && text == " NULLS LAST"@
}

proof fn order_options_differ()
    ensures
        "asc"@ != "desc"@ && "asc"@ != "nullsfirst"@ && "asc"@ != "nullslast"@ && "desc"@ != "nullsfirst"@ && "desc"@
            != "nullslast"@ && "nullsfirst"@ != "nullslast"@,
{
    reveal_strlit("asc");
    reveal_strlit("desc");
    reveal_strlit("nullsfirst");
    reveal_strlit("nullslast");
    assert("asc"@.len() == 3 && "desc"@.len() == 4 && "nullsfirst"@.len() == 10 && "nullslast"@.len() == 9);
}

/// The column of an order and its options after it, as far as the options before `count`.
spec fn order_text(bits: Seq<Seq<char>>, texts: Seq<Seq<char>>, field: Seq<char>, text: Seq<char>, count: int) -> bool {
    &&& texts.len() == count - 1
    &&& forall|k: int| 1 <= k < count ==> orders(#[trigger] bits[k], texts[k - 1])
    &&& text == field + strung(texts, Seq::empty())
}

proof fn order_grows(bits: Seq<Seq<char>>, from: int, done: Seq<char>, texts: Seq<Seq<char>>, field: Seq<char>) -> (all: Seq<
    Seq<char>,
>)
    requires
        1 <= from <= bits.len(),
        order_text(bits, texts, field, done, from),
    ensures
        order_term_from(bits, from, done) matches Ok(text) ==> order_text(bits, all, field, text, bits.len() as int),
    decreases bits.len() - from,
{
    if from < bits.len() {
        match order_option_of(bits[from]) {
            None => texts,
            Some(text) => {
                order_options_differ();
                let more = texts.push(text);
                assert(more.drop_last() =~= texts);
                assert(strung(more, Seq::empty()) =~= strung(texts, Seq::empty()) + text) by {
                    if texts.len() > 0 {
                        assert(strung(texts, Seq::empty()) + Seq::empty() =~= strung(texts, Seq::empty()));
                    }
                }
                assert(done + text =~= field + strung(more, Seq::empty()));
                assert forall|k: int| 1 <= k < from + 1 implies orders(#[trigger] bits[k], more[k - 1]) by {
                    if k < from {
                        assert(more[k - 1] == texts[k - 1]);
                    }
                }
                order_grows(bits, from + 1, done + text, more, field)
            },
        }
    } else {
        texts
    }
}

/// An order is the quoted column and, after it, what its options ask for, in their order.
pub proof fn orders_say_what_their_options_ask_for(order: Seq<char>)
    ensures
        order_term_of(order) matches Ok(text) ==> {
            let bits = crate::cuts::pieces_of(order, "."@);
            ident_of(bits[0]) matches Ok(field) && exists|texts: Seq<Seq<char>>| #[trigger]
                ordered_by(bits, texts) && text == field + strung(texts, Seq::empty())
        },
{
    match order_term_of(order) {
        Err(_) => {},
        Ok(text) => {
            let bits = crate::cuts::pieces_of(order, "."@);
            crate::cuts::pieces_are_parts(order, "."@);
            let field = ident_of(bits[0])->Ok_0;
            assert(field + strung(Seq::empty(), Seq::empty()) =~= field);
            let texts = order_grows(bits, 1, field, Seq::empty(), field);
            assert(ordered_by(bits, texts));
        },
    }
}

/// Whether texts say what the options of an order ask for.
pub open spec fn ordered_by(bits: Seq<Seq<char>>, texts: Seq<Seq<char>>) -> bool {
    texts.len() == bits.len() - 1 && forall|k: int| 1 <= k < bits.len() ==> orders(#[trigger] bits[k], texts[k - 1])
}

// ---------------------------------------------------------------------------------------------
// Changes
// ---------------------------------------------------------------------------------------------

/// Whether texts assign the entries of an object: each its quoted name, and the literal of its value.
pub open spec fn assigns(entries: Seq<(Seq<char>, Json)>, texts: Seq<Seq<char>>, count: int) -> bool {
    texts.len() == count && forall|k: int|
        0 <= k < count ==> ident_of((#[trigger] entries[k]).0) is Ok && texts[k] == ident_of(entries[k].0)->Ok_0 + "="@
            + literal_of(entries[k].1)
}

proof fn entries_are_assigned(entries: Seq<(Seq<char>, Json)>, from: int, done: Seq<Seq<char>>)
    requires
        0 <= from <= entries.len(),
        assigns(entries, done, from),
    ensures
        assignments_from(entries, from, done) matches Ok(texts) ==> assigns(entries, texts, entries.len() as int),
    decreases entries.len() - from,
{
    if from < entries.len() {
        match ident_of(entries[from].0) {
            Err(_) => {},
            Ok(name) => {
                entries_are_assigned(entries, from + 1, done.push(name + "="@ + literal_of(entries[from].1)));
            },
        }
    }
}

proof fn methods_differ()
    ensures
        "DELETE"@ != "PATCH"@ && "DELETE"@ != "POST"@ && "PATCH"@ != "POST"@,
{
    reveal_strlit("DELETE");
    reveal_strlit("PATCH");
    reveal_strlit("POST");
    assert("DELETE"@.len() == 6 && "PATCH"@.len() == 5 && "POST"@.len() == 4);
}

/// A request to delete or to change rows says so of its table and of the rows that its filters admit: the
/// WHERE of the statement is that of the request. A change assigns the entries of its body, at least one.
pub proof fn changes_are_of_the_filtered_rows(
    method: Seq<char>,
    table: TableModel,
    params: ParamsModel,
    body: Json,
    prefer: Seq<char>,
)
    requires
        method == "DELETE"@ || method == "PATCH"@,
    ensures
        mutation_of(method, table, params, body, prefer) matches Ok(text) ==> ident_of(table.name) is Ok && where_of(
            table,
            params,
        ) is Ok && {
            let name = ident_of(table.name)->Ok_0;
            let condition = where_of(table, params)->Ok_0;
            if method == "DELETE"@ {
                text == "DELETE FROM "@ + name + condition + " RETURNING *"@
            } else {
                body is Object && body->Object_0.len() > 0 && exists|texts: Seq<Seq<char>>| #[trigger]
                    assigns(body->Object_0, texts, body->Object_0.len() as int) && text == "UPDATE "@ + name + " SET "@
                        + strung(texts, ","@) + condition + " RETURNING *"@
            }
        },
{
    methods_differ();
    match mutation_of(method, table, params, body, prefer) {
        Err(_) => {},
        Ok(text) => {
            if method == "PATCH"@ {
                let entries = body->Object_0;
                entries_are_assigned(entries, 0, Seq::empty());
                let texts = assignments_from(entries, 0, Seq::empty())->Ok_0;
                joined_texts_are_strung(texts, ","@);
                assert(assigns(entries, texts, entries.len() as int));
            }
        },
    }
}

/// A query of a request is of all columns of its table, for the rows that its filters admit.
pub proof fn queries_are_of_the_filtered_rows(table: TableModel, params: ParamsModel)
    ensures
        select_of(table, params) matches Ok(text) ==> ident_of(table.name) is Ok && where_of(table, params) is Ok && {
            let head = "SELECT * FROM "@ + ident_of(table.name)->Ok_0 + where_of(table, params)->Ok_0;
            match param(params, "order"@) {
                None => text == head,
                Some(order) => exists|terms: Seq<Seq<char>>| #[trigger]
                    ordering_terms(order, terms) && text == head + " ORDER BY "@ + strung(terms, ","@),
            }
        },
{
    match select_of(table, params) {
        Err(_) => {},
        Ok(text) => {
            match param(params, "order"@) {
                None => {},
                Some(order) => {
                    let orders = split_of(order)->Ok_0;
                    orders_have_terms(orders, 0, Seq::empty());
                    let terms = order_terms_from(orders, 0, Seq::empty())->Ok_0;
                    joined_texts_are_strung(terms, ","@);
                    assert(ordering_terms(order, terms));
                },
            }
        },
    }
}

/// Whether terms are those of the orders of a list.
pub open spec fn ordering_terms(order: Seq<char>, terms: Seq<Seq<char>>) -> bool {
    split_of(order) matches Ok(orders) && terms.len() == orders.len() && forall|k: int|
        0 <= k < terms.len() ==> order_term_of(orders[k]) == Ok::<Seq<char>, Failure>(#[trigger] terms[k])
}

proof fn orders_have_terms(orders: Seq<Seq<char>>, from: int, done: Seq<Seq<char>>)
    requires
        0 <= from <= orders.len(),
        done.len() == from,
        forall|k: int| 0 <= k < from ==> order_term_of(orders[k]) == Ok::<Seq<char>, Failure>(#[trigger] done[k]),
    ensures
        order_terms_from(orders, from, done) matches Ok(terms) ==> terms.len() == orders.len() && forall|k: int|
            0 <= k < terms.len() ==> order_term_of(orders[k]) == Ok::<Seq<char>, Failure>(#[trigger] terms[k]),
    decreases orders.len() - from,
{
    if from < orders.len() {
        match order_term_of(orders[from]) {
            Err(_) => {},
            Ok(term) => {
                orders_have_terms(orders, from + 1, done.push(term));
            },
        }
    }
}

// ---------------------------------------------------------------------------------------------
// Insertions
// ---------------------------------------------------------------------------------------------

/// Whether texts are the quoted names of columns.
pub open spec fn quoted_names(names: Seq<Seq<char>>, texts: Seq<Seq<char>>, count: int) -> bool {
    texts.len() == count && forall|k: int|
        0 <= k < count ==> ident_of(names[k]) == Ok::<Seq<char>, Failure>(#[trigger] texts[k])
}

proof fn names_are_quoted(names: Seq<Seq<char>>, from: int, done: Seq<Seq<char>>)
    requires
        0 <= from <= names.len(),
        quoted_names(names, done, from),
    ensures
        idents_from(names, from, done) matches Ok(texts) ==> quoted_names(names, texts, names.len() as int),
    decreases names.len() - from,
{
    if from < names.len() {
        match ident_of(names[from]) {
            Err(_) => {},
            Ok(name) => {
                names_are_quoted(names, from + 1, done.push(name));
            },
        }
    }
}

/// Whether a row of a body has the keys of the first one.
pub open spec fn same_keys(row: Json, first: Json) -> bool {
    row is Object && first is Object && row->Object_0.len() == first->Object_0.len() && forall|k: int|
        0 <= k < row->Object_0.len() ==> (#[trigger] row->Object_0[k]).0 == first->Object_0[k].0
}

/// Whether a text is the literals of the values of a row, in the order of its keys.
pub open spec fn group_of(row: Json, text: Seq<char>) -> bool {
    row is Object && text == "("@ + strung(
        Seq::new(row->Object_0.len(), |k: int| literal_of(row->Object_0[k].1)),
        ","@,
    ) + ")"@
}

proof fn rows_are_grouped(rows: Seq<Json>, columns: Seq<Seq<char>>, from: int, done: Seq<Seq<char>>)
    requires
        0 <= from <= rows.len(),
        rows.len() > 0 && rows[0] is Object && columns == crate::postgrest::keys_of(rows[0]->Object_0),
        done.len() == from,
        forall|i: int| 0 <= i < from ==> group_of(rows[i], #[trigger] done[i]) && same_keys(rows[i], rows[0]),
    ensures
        groups_from(rows, columns, from, done) matches Ok(texts) ==> texts.len() == rows.len() && forall|i: int|
            0 <= i < texts.len() ==> group_of(rows[i], #[trigger] texts[i]) && same_keys(rows[i], rows[0]),
    decreases rows.len() - from,
{
    if from < rows.len() {
        match rows[from] {
            Json::Object(entries) => {
                let literals = crate::postgrest::literals_of(entries);
                if crate::postgrest::keys_of(entries) == columns {
                    let first = rows[0]->Object_0;
                    assert(entries.len() == columns.len() && first.len() == columns.len());
                    joined_texts_are_strung(literals, ","@);
                    assert(literals =~= Seq::new(entries.len(), |k: int| literal_of(entries[k].1)));
                    assert forall|k: int| 0 <= k < entries.len() implies (#[trigger] entries[k]).0 == first[k].0 by {
                        assert(columns[k] == entries[k].0);
                        assert(columns[k] == first[k].0);
                    }
                    assert(same_keys(rows[from], rows[0]));
                    rows_are_grouped(
                        rows,
                        columns,
                        from + 1,
                        done.push("("@ + joined(literals, ","@) + ")"@),
                    );
                }
            },
            _ => {},
        }
    }
}

/// Whether a text inserts rows: the quoted names of the keys of the first, and the values of each. Rows
/// without keys have their defaults.
pub open spec fn inserts(name: Seq<char>, rows: Seq<Json>, text: Seq<char>, names: Seq<Seq<char>>, groups: Seq<Seq<char>>) -> bool {
    &&& rows.len() > 0 && rows[0] is Object
    &&& quoted_names(
        Seq::new(rows[0]->Object_0.len(), |k: int| rows[0]->Object_0[k].0),
        names,
        rows[0]->Object_0.len() as int,
    )
    &&& groups.len() == rows.len()
    &&& forall|i: int| 0 <= i < rows.len() ==> group_of(rows[i], #[trigger] groups[i]) && same_keys(rows[i], rows[0])
    &&& text == if rows[0]->Object_0.len() == 0 {
        "INSERT INTO "@ + name + " DEFAULT VALUES"@
    } else {
        "INSERT INTO "@ + name + " ("@ + strung(names, ","@) + ") VALUES "@ + strung(groups, ","@)
    }
}

/// A request to insert gives all rows of its body, which have the same keys, to its table. Where it prefers a
/// resolution of conflicts, the statement says so after the values.
pub proof fn insertions_give_the_rows_of_the_body(
    table: TableModel,
    params: ParamsModel,
    body: Json,
    prefer: Seq<char>,
)
    ensures
        mutation_of("POST"@, table, params, body, prefer) matches Ok(text) ==> ident_of(table.name) is Ok && exists|
            head: Seq<char>,
            names: Seq<Seq<char>>,
            groups: Seq<Seq<char>>,
        | #[trigger] inserts(ident_of(table.name)->Ok_0, body_rows(body), head, names, groups) && if crate::cuts::holds_text(
            prefer,
            "resolution="@,
        ) {
            crate::postgrest::conflict_clause(
                table,
                params,
                Seq::new(body_rows(body)[0]->Object_0.len(), |k: int| body_rows(body)[0]->Object_0[k].0),
                prefer,
            ) matches Ok(clause) && text == head + clause + " RETURNING *"@
        } else {
            text == head + " RETURNING *"@
        },
{
    methods_differ();
    match mutation_of("POST"@, table, params, body, prefer) {
        Err(_) => {},
        Ok(text) => {
            let name = ident_of(table.name)->Ok_0;
            let rows = body_rows(body);
            let first = rows[0]->Object_0;
            let columns = crate::postgrest::keys_of(first);
            rows_are_grouped(rows, columns, 0, Seq::empty());
            names_are_quoted(columns, 0, Seq::empty());
            let groups = groups_from(rows, columns, 0, Seq::empty())->Ok_0;
            let names = idents_from(columns, 0, Seq::empty())->Ok_0;
            joined_texts_are_strung(names, ","@);
            joined_texts_are_strung(groups, ","@);
            assert(columns =~= Seq::new(first.len(), |k: int| first[k].0));
            let head = if first.len() == 0 {
                "INSERT INTO "@ + name + " DEFAULT VALUES"@
            } else {
                "INSERT INTO "@ + name + " ("@ + strung(names, ","@) + ") VALUES "@ + strung(groups, ","@)
            };
            assert(inserts(name, rows, head, names, groups));
        },
    }
}

/// Whether texts assign to columns what was proposed for them.
pub open spec fn takes_proposed(names: Seq<Seq<char>>, texts: Seq<Seq<char>>, count: int) -> bool {
    texts.len() == count && forall|k: int|
        0 <= k < count ==> ident_of(#[trigger] names[k]) is Ok && texts[k] == ident_of(names[k])->Ok_0 + "=EXCLUDED."@
            + ident_of(names[k])->Ok_0
}

proof fn proposed_are_taken(names: Seq<Seq<char>>, from: int, done: Seq<Seq<char>>)
    requires
        0 <= from <= names.len(),
        takes_proposed(names, done, from),
    ensures
        crate::postgrest::excluded_from(names, from, done) matches Ok(texts) ==> takes_proposed(
            names,
            texts,
            names.len() as int,
        ),
    decreases names.len() - from,
{
    if from < names.len() {
        match ident_of(names[from]) {
            Err(_) => {},
            Ok(name) => {
                proposed_are_taken(names, from + 1, done.push(name + "=EXCLUDED."@ + name));
            },
        }
    }
}

/// Whether a text resolves conflicts on some columns: by nothing where duplicates are to be ignored, else by
/// taking what was proposed for each column.
pub open spec fn resolution(
    target: Seq<Seq<char>>,
    columns: Seq<Seq<char>>,
    ignored: bool,
    text: Seq<char>,
    names: Seq<Seq<char>>,
    texts: Seq<Seq<char>>,
) -> bool {
    &&& target.len() > 0 && quoted_names(target, names, target.len() as int)
    &&& if ignored {
        text == " ON CONFLICT ("@ + strung(names, ","@) + ") "@ + "DO NOTHING"@
    } else {
        takes_proposed(columns, texts, columns.len() as int) && text == " ON CONFLICT ("@ + strung(names, ","@) + ") "@
            + "DO UPDATE SET "@ + strung(texts, ","@)
    }
}

/// The columns on which a request resolves conflicts: those that it names, else the primary key.
pub open spec fn key_for(table: TableModel, params: ParamsModel) -> Seq<Seq<char>> {
    match param(params, "on_conflict"@) {
        Some(list) => crate::cuts::pieces_of(list, ","@),
        None => table.primary_key,
    }
}

/// A resolution of conflicts is on the columns that the request names, else on the primary key. Duplicates
/// that are to be ignored stay as they are; others take what was proposed for them.
pub proof fn resolutions_are_on_the_key(
    table: TableModel,
    params: ParamsModel,
    columns: Seq<Seq<char>>,
    prefer: Seq<char>,
)
    ensures
        crate::postgrest::conflict_clause(table, params, columns, prefer) matches Ok(text) ==> exists|
            names: Seq<Seq<char>>,
            texts: Seq<Seq<char>>,
        | #[trigger] resolution(
            key_for(table, params),
            columns,
            crate::cuts::holds_text(prefer, "resolution=ignore-duplicates"@),
            text,
            names,
            texts,
        ),
{
    match crate::postgrest::conflict_clause(table, params, columns, prefer) {
        Err(_) => {},
        Ok(text) => {
            let target = key_for(table, params);
            assert(target == crate::postgrest::conflict_target(table, params));
            let ignored = crate::cuts::holds_text(prefer, "resolution=ignore-duplicates"@);
            names_are_quoted(target, 0, Seq::empty());
            proposed_are_taken(columns, 0, Seq::empty());
            let names = idents_from(target, 0, Seq::empty())->Ok_0;
            joined_texts_are_strung(names, ","@);
            if ignored {
                assert(resolution(
                    key_for(table, params),
                    columns,
                    crate::cuts::holds_text(prefer, "resolution=ignore-duplicates"@),
                    text,
                    names,
                    names,
                ));
            } else {
                let texts = crate::postgrest::excluded_from(columns, 0, Seq::empty())->Ok_0;
                joined_texts_are_strung(texts, ","@);
                assert(resolution(
                    key_for(table, params),
                    columns,
                    crate::cuts::holds_text(prefer, "resolution=ignore-duplicates"@),
                    text,
                    names,
                    texts,
                ));
            }
        },
    }
}

} // verus!
