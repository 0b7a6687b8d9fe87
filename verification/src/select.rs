//! Queries over one table: filtering, projection, ordering, DISTINCT, OFFSET and LIMIT.

use vstd::prelude::*;
use crate::ast::{factor_name, factor_name_of, json_text, json_text_of};
use crate::catalog::{
    table_of, AuthContext, AuthModel, Cells, CellsModel, Database, DatabaseModel, ResultModel, SqlResult, Table,
    TableModel,
};
use crate::error::{outcome, unsupported, unsupported_failure, Outcome, Result};
use crate::eval::{
    count_of, eval, evaluated, nonnegative, predicate, project, projected, satisfied,
};
use crate::json::{group_value_views, Datum, Json};
use crate::ordmap::{put_all, OrdMap};
use crate::replica::{add_last, no_items, one_item, Replica};
use crate::rules::{allowed, followed, permitted, sample, sample_of};
use crate::scalar::{compare, compared, Order};
use crate::text::{is_listed, listed};
use crate::value::{child, flag, item, items, payload, tag};

verus! {

broadcast use group_value_views;

// ---------------------------------------------------------------------------------------------
// Which queries are taken
// ---------------------------------------------------------------------------------------------

/// Whether some table of a FROM list is joined, from position `from` on.
pub open spec fn joined_table(tables: Json) -> bool {
    exists|i: int| 0 <= i < items(tables).len() && items(child(#[trigger] items(tables)[i], "joins"@)).len() > 0
}

/// Whether a query is a plain select over at most one table.
pub open spec fn query_accepted(query: Json) -> Outcome<()> {
    let body = child(query, "body"@);
    let select = payload(body);
    if child(query, "with"@) !is Null || child(query, "fetch"@) !is Null || items(child(query, "locks"@)).len()
        > 0 {
        Err(unsupported_failure("CTE/FETCH/locking require the query backend"@))
    } else if tag(body) != "Select"@ {
        Err(unsupported_failure("Set operations require the query backend"@))
    } else if items(child(select, "from"@)).len() > 1 || joined_table(child(select, "from"@)) || child(
        select,
        "having"@,
    ) !is Null || items(child(select, "lateral_views"@)).len() > 0 || items(
        child(select, "named_window"@),
    ).len() > 0 || child(select, "qualify"@) !is Null || child(select, "top"@) !is Null || child(
        select,
        "into"@,
    ) !is Null {
        Err(unsupported_failure("JOIN/aggregation/windows require the query backend"@))
    } else if !(tag(child(select, "group_by"@)) == "Expressions"@ && items(
        payload(child(select, "group_by"@)),
    ).len() == 0) {
        Err(unsupported_failure("GROUP BY requires the query backend"@))
    } else {
        Ok(())
    }
}

fn has_join(tables: &Datum) -> (result: bool)
    ensures
        result == joined_table(tables@),
{
    let count: usize = tables.count();
    let mut i: usize = 0;
    while i < count
        invariant
            i <= count == items(tables@).len(),
            forall|j: int|
                0 <= j < i ==> items(child(#[trigger] items(tables@)[j], "joins"@)).len() == 0,
        decreases count - i,
    {
        if tables.item(i).child("joins").count() > 0 {
            assert(items(child(items(tables@)[i as int], "joins"@)).len() > 0);
            return true;
        }
        i += 1;
    }
    false
}

fn accept_query(query: &Datum) -> (result: Result<()>)
    ensures
        outcome(result) == query_accepted(query@),
{
    let body = query.child("body");
    let select = body.payload();
    if !query.child("with").is_null() || !query.child("fetch").is_null() || query.child("locks").count() > 0 {
        return Err(unsupported("CTE/FETCH/locking require the query backend"));
    }
    if !body.is("Select") {
        return Err(unsupported("Set operations require the query backend"));
    }
    if select.child("from").count() > 1 || has_join(select.child("from")) || !select.child("having").is_null()
        || select.child("lateral_views").count() > 0 || select.child("named_window").count() > 0
        || !select.child("qualify").is_null() || !select.child("top").is_null() || !select.child(
        "into",
    ).is_null() {
        return Err(unsupported("JOIN/aggregation/windows require the query backend"));
    }
    if !(select.child("group_by").is("Expressions") && select.child("group_by").payload().count() == 0) {
        return Err(unsupported("GROUP BY requires the query backend"));
    }
    Ok(())
}

// ---------------------------------------------------------------------------------------------
// Rows that a query reads
// ---------------------------------------------------------------------------------------------

/// The rows from position `from` on that the caller may read and that satisfy the selection.
pub open spec fn readable_from(
    table: TableModel,
    from: int,
    found: Seq<CellsModel>,
    selection: Json,
    caller: AuthModel,
) -> Outcome<Seq<CellsModel>>
    decreases table.rows.len() - from,
{
    if from < 0 || from >= table.rows.len() {
        Ok(found)
    } else {
        let cells = table.rows[from].1.values;
        match permitted(table, "SELECT"@, cells, caller, false) {
            Err(error) => Err(error),
            Ok(false) => readable_from(table, from + 1, found, selection, caller),
            Ok(true) => match satisfied(selection, cells, caller) {
                Err(error) => Err(error),
                Ok(false) => readable_from(table, from + 1, found, selection, caller),
                Ok(true) => readable_from(table, from + 1, found.push(cells), selection, caller),
            },
        }
    }
}

/// The rows that a select reads: one empty row where it has no table.
pub open spec fn source_of(database: DatabaseModel, select: Json, caller: AuthModel) -> Outcome<Seq<CellsModel>> {
    let selection = child(select, "selection"@);
    if items(child(select, "from"@)).len() > 0 {
        match factor_name_of(child(item(child(select, "from"@), 0), "relation"@)) {
            Err(error) => Err(error),
            Ok(name) => match table_of(database, name) {
                Err(error) => Err(error),
                Ok(table) => match projected(
                    child(select, "projection"@),
                    sample_of(table.columns),
                    caller,
                ) {
                    Err(error) => Err(error),
                    Ok(_) => match satisfied(selection, sample_of(table.columns), caller) {
                        Err(error) => Err(error),
                        Ok(_) => readable_from(table, 0, Seq::empty(), selection, caller),
                    },
                },
            },
        }
    } else {
        match satisfied(selection, Seq::empty(), caller) {
            Err(error) => Err(error),
            Ok(true) => Ok(seq![Seq::empty()]),
            Ok(false) => Ok(Seq::empty()),
        }
    }
}

fn read_rows(table: &Table, selection: &Datum, context: &AuthContext) -> (result: Result<Vec<Cells>>)
    ensures
        outcome(result) == readable_from(
            table.deep_view(),
            0,
            Seq::empty(),
            selection@,
            context.deep_view(),
        ),
{
    let mut found: Vec<Cells> = no_items();
    let mut i: usize = 0;
    let ghost model = table.deep_view();
    while i < table.rows.len()
        invariant
            i <= model.rows.len(),
            model == table.deep_view(),
            readable_from(model, 0, Seq::empty(), selection@, context.deep_view()) == readable_from(
                model,
                i as int,
                found.deep_view(),
                selection@,
                context.deep_view(),
            ),
        decreases model.rows.len() - i,
    {
        let row = table.rows.value_at(i);
        assert(model.rows[i as int].1.values == row.values@);
        if allowed(table, "SELECT", &row.values, context, false)? {
            if predicate(selection, &row.values, context)? {
                add_last(&mut found, row.values.replica());
            }
        }
        i += 1;
    }
    Ok(found)
}

fn read_source(database: &Database, select: &Datum, context: &AuthContext) -> (result: Result<Vec<Cells>>)
    ensures
        outcome(result) == source_of(database.deep_view(), select@, context.deep_view()),
{
    let selection = select.child("selection");
    if select.child("from").count() > 0 {
        let name = factor_name(select.child("from").item(0).child("relation"))?;
        let table = database.table(name.as_str())?;
        let nulls = sample(&table.columns);
        let _shape = project(select.child("projection"), &nulls, context)?;
        let _trial = predicate(selection, &nulls, context)?;
        read_rows(table, selection, context)
    } else {
        let none: Cells = OrdMap::new();
        if predicate(selection, &none, context)? {
            Ok(one_item(none))
        } else {
            Ok(no_items())
        }
    }
}

// ---------------------------------------------------------------------------------------------
// Ordering
// ---------------------------------------------------------------------------------------------

/// The values of the ORDER BY expressions from position `from` on.
pub open spec fn order_values_from(
    order_by: Json,
    from: int,
    found: Seq<Json>,
    scope: CellsModel,
    caller: AuthModel,
) -> Outcome<Seq<Json>>
    decreases items(order_by).len() - from,
{
    if from < 0 || from >= items(order_by).len() {
        Ok(found)
    } else {
        match evaluated(child(items(order_by)[from], "expr"@), scope, caller) {
            Err(error) => Err(error),
            Ok(value) => order_values_from(order_by, from + 1, found.push(value), scope, caller),
        }
    }
}

/// The results of the source rows from position `from` on, each with its ordering values.
pub open spec fn ranked_from(
    query: Json,
    source: Seq<CellsModel>,
    from: int,
    found: Seq<(CellsModel, Seq<Json>)>,
    caller: AuthModel,
) -> Outcome<Seq<(CellsModel, Seq<Json>)>>
    decreases source.len() - from,
{
    if from < 0 || from >= source.len() {
        Ok(found)
    } else {
        let projection = child(payload(child(query, "body"@)), "projection"@);
        match projected(projection, source[from], caller) {
            Err(error) => Err(error),
            Ok(result) => match order_values_from(
                child(query, "order_by"@),
                0,
                Seq::empty(),
                put_all(source[from], result),
                caller,
            ) {
                Err(error) => Err(error),
                Ok(values) => ranked_from(query, source, from + 1, found.push((result, values)), caller),
            },
        }
    }
}

/// Whether the values of one ordering column, from position `from` on, compare with each other.
pub open spec fn comparable_from(
    rows: Seq<(CellsModel, Seq<Json>)>,
    column: int,
    from: int,
    previous: Json,
) -> Outcome<()>
    decreases rows.len() - from,
{
    if from < 0 || from >= rows.len() {
        Ok(())
    } else if column >= rows[from].1.len() || rows[from].1[column] is Null {
        comparable_from(rows, column, from + 1, previous)
    } else if previous is Null {
        comparable_from(rows, column, from + 1, rows[from].1[column])
    } else {
        match compared(previous, rows[from].1[column]) {
            Err(error) => Err(error),
            Ok(_) => comparable_from(rows, column, from + 1, rows[from].1[column]),
        }
    }
}

/// Whether the ordering columns from position `from` on have values that compare.
pub open spec fn all_comparable_from(rows: Seq<(CellsModel, Seq<Json>)>, columns: int, from: int) -> Outcome<()>
    decreases columns - from,
{
    if from >= columns {
        Ok(())
    } else {
        followed(comparable_from(rows, from, 0, Json::Null), all_comparable_from(rows, columns, from + 1))
    }
}

pub open spec fn reversed(order: Order) -> Order {
    match order {
        Order::Less => Order::Greater,
        Order::Equal => Order::Equal,
        Order::Greater => Order::Less,
    }
}

/// Whether an ORDER BY item ascends.
pub open spec fn ascends(entry: Json) -> bool {
    child(entry, "asc"@) is Null || flag(child(entry, "asc"@))
}

/// Whether an ORDER BY item puts nulls first: by default when it descends.
pub open spec fn nulls_lead(entry: Json) -> bool {
    if child(entry, "nulls_first"@) is Null {
        !ascends(entry)
    } else {
        flag(child(entry, "nulls_first"@))
    }
}

/// How two values rank under an ORDER BY item.
pub open spec fn rank_values(entry: Json, a: Json, b: Json) -> Order {
    if a is Null && b is Null {
        Order::Equal
    } else if a is Null {
        if nulls_lead(entry) {
            Order::Less
        } else {
            Order::Greater
        }
    } else if b is Null {
        if nulls_lead(entry) {
            Order::Greater
        } else {
            Order::Less
        }
    } else {
        match compared(a, b) {
            Ok(order) => if ascends(entry) {
                order
            } else {
                reversed(order)
            },
            Err(_) => Order::Equal,
        }
    }
}

pub open spec fn value_at(values: Seq<Json>, i: int) -> Json {
    if 0 <= i < values.len() {
        values[i]
    } else {
        Json::Null
    }
}

/// How two rows rank under the ORDER BY items from position `from` on.
pub open spec fn rank_from(order_by: Json, from: int, a: Seq<Json>, b: Seq<Json>) -> Order
    decreases items(order_by).len() - from,
{
    if from < 0 || from >= items(order_by).len() {
        Order::Equal
    } else {
        let order = rank_values(items(order_by)[from], value_at(a, from), value_at(b, from));
        if order is Equal {
            rank_from(order_by, from + 1, a, b)
        } else {
            order
        }
    }
}

/// The first position at or after `from` whose row ranks after the new one.
pub open spec fn slot_from(
    order_by: Json,
    rows: Seq<(CellsModel, Seq<Json>)>,
    from: int,
    values: Seq<Json>,
) -> int
    decreases rows.len() - from,
{
    if from < 0 || from >= rows.len() {
        rows.len() as int
    } else if rank_from(order_by, 0, values, rows[from].1) is Less {
        from
    } else {
        slot_from(order_by, rows, from + 1, values)
    }
}

/// The rows from position `from` on put into order among `done`, equal ones in their order of
/// arrival.
pub open spec fn arranged_from(
    order_by: Json,
    rows: Seq<(CellsModel, Seq<Json>)>,
    from: int,
    done: Seq<(CellsModel, Seq<Json>)>,
) -> Seq<(CellsModel, Seq<Json>)>
    decreases rows.len() - from,
{
    if from < 0 || from >= rows.len() {
        done
    } else {
        arranged_from(
            order_by,
            rows,
            from + 1,
            done.insert(slot_from(order_by, done, 0, rows[from].1), rows[from]),
        )
    }
}

fn order_values(order_by: &Datum, scope: &Cells, context: &AuthContext) -> (result: Result<Vec<Datum>>)
    ensures
        outcome(result) == order_values_from(
            order_by@,
            0,
            Seq::empty(),
            scope@,
            context.deep_view(),
        ),
{
    let mut found: Vec<Datum> = no_items();
    let count: usize = order_by.count();
    let mut i: usize = 0;
    while i < count
        invariant
            i <= count == items(order_by@).len(),
            order_values_from(order_by@, 0, Seq::empty(), scope@, context.deep_view())
                == order_values_from(
                order_by@,
                i as int,
                found.deep_view(),
                scope@,
                context.deep_view(),
            ),
        decreases count - i,
    {
        let value = eval(order_by.item(i).child("expr"), scope, context)?;
        add_last(&mut found, value);
        i += 1;
    }
    Ok(found)
}

fn rank_rows(query: &Datum, source: &Vec<Cells>, context: &AuthContext) -> (result: Result<
    Vec<(Cells, Vec<Datum>)>,
>)
    ensures
        outcome(result) == ranked_from(
            query@,
            source.deep_view(),
            0,
            Seq::empty(),
            context.deep_view(),
        ),
{
    let mut found: Vec<(Cells, Vec<Datum>)> = no_items();
    let projection = query.child("body").payload().child("projection");
    let mut i: usize = 0;
    let ghost rows = source.deep_view();
    while i < source.len()
        invariant
            i <= source.len(),
            rows == source.deep_view(),
            projection@ == child(payload(child(query@, "body"@)), "projection"@),
            ranked_from(query@, rows, 0, Seq::empty(), context.deep_view()) == ranked_from(
                query@,
                rows,
                i as int,
                found.deep_view(),
                context.deep_view(),
            ),
        decreases source.len() - i,
    {
        assert(rows[i as int] == source[i as int]@);
        let result = project(projection, &source[i], context)?;
        let mut scope = source[i].replica();
        scope.extend(&result);
        let values = order_values(query.child("order_by"), &scope, context)?;
        add_last(&mut found, (result, values));
        i += 1;
    }
    Ok(found)
}

fn check_comparable(rows: &Vec<(Cells, Vec<Datum>)>, column: usize) -> (result: Result<()>)
    ensures
        outcome(result) == comparable_from(rows.deep_view(), column as int, 0, Json::Null),
{
    let mut previous: Datum = Datum::Null;
    let mut i: usize = 0;
    let ghost model = rows.deep_view();
    while i < rows.len()
        invariant
            i <= rows.len(),
            model == rows.deep_view(),
            comparable_from(model, column as int, 0, Json::Null) == comparable_from(
                model,
                column as int,
                i as int,
                previous@,
            ),
        decreases rows.len() - i,
    {
        let values = &rows[i].1;
        assert(model[i as int].1 == values.deep_view());
        if column < values.len() {
            assert(values.deep_view()[column as int] == values[column as int]@);
            let value = &values[column];
            if !value.is_null() {
                if !previous.is_null() {
                    let _order = compare(&previous, value)?;
                }
                previous = value.copied();
            }
        }
        i += 1;
    }
    Ok(())
}

fn check_all_comparable(rows: &Vec<(Cells, Vec<Datum>)>, columns: usize) -> (result: Result<()>)
    ensures
        outcome(result) == all_comparable_from(rows.deep_view(), columns as int, 0),
{
    let mut column: usize = 0;
    while column < columns
        invariant
            column <= columns,
            all_comparable_from(rows.deep_view(), columns as int, 0) == all_comparable_from(
                rows.deep_view(),
                columns as int,
                column as int,
            ),
        decreases columns - column,
    {
        check_comparable(rows, column)?;
        column += 1;
    }
    Ok(())
}

fn ranks(entry: &Datum, a: &Datum, b: &Datum) -> (result: Order)
    ensures
        result == rank_values(entry@, a@, b@),
{
    let ascending: bool = entry.child("asc").is_null() || entry.child("asc").flag();
    let nulls_first: bool = if entry.child("nulls_first").is_null() {
        !ascending
    } else {
        entry.child("nulls_first").flag()
    };
    if a.is_null() && b.is_null() {
        Order::Equal
    } else if a.is_null() {
        if nulls_first {
            Order::Less
        } else {
            Order::Greater
        }
    } else if b.is_null() {
        if nulls_first {
            Order::Greater
        } else {
            Order::Less
        }
    } else {
        match compare(a, b) {
            Ok(order) => if ascending {
                order
            } else {
                match order {
                    Order::Less => Order::Greater,
                    Order::Equal => Order::Equal,
                    Order::Greater => Order::Less,
                }
            },
            Err(_) => Order::Equal,
        }
    }
}

fn nth(values: &Vec<Datum>, i: usize) -> (result: &Datum)
    ensures
        result@ == value_at(values.deep_view(), i as int),
{
    if i < values.len() {
        assert(values.deep_view()[i as int] == values[i as int]@);
        &values[i]
    } else {
        &Datum::Null
    }
}

fn rank(order_by: &Datum, a: &Vec<Datum>, b: &Vec<Datum>) -> (result: Order)
    ensures
        result == rank_from(order_by@, 0, a.deep_view(), b.deep_view()),
{
    let count: usize = order_by.count();
    let mut i: usize = 0;
    while i < count
        invariant
            i <= count == items(order_by@).len(),
            rank_from(order_by@, 0, a.deep_view(), b.deep_view()) == rank_from(
                order_by@,
                i as int,
                a.deep_view(),
                b.deep_view(),
            ),
        decreases count - i,
    {
        let order = ranks(order_by.item(i), nth(a, i), nth(b, i));
        if order != Order::Equal {
            return order;
        }
        i += 1;
    }
    Order::Equal
}

fn arrange(order_by: &Datum, rows: Vec<(Cells, Vec<Datum>)>) -> (result: Vec<(Cells, Vec<Datum>)>)
    ensures
        result.deep_view() == arranged_from(order_by@, rows.deep_view(), 0, Seq::empty()),
{
    let mut done: Vec<(Cells, Vec<Datum>)> = no_items();
    let ghost model = rows.deep_view();
    let mut i: usize = 0;
    while i < rows.len()
        invariant
            i <= rows.len(),
            model == rows.deep_view(),
            arranged_from(order_by@, model, 0, Seq::empty()) == arranged_from(
                order_by@,
                model,
                i as int,
                done.deep_view(),
            ),
        decreases rows.len() - i,
    {
        let mut slot: usize = 0;
        let ghost sofar = done.deep_view();
        assert(model[i as int] == rows[i as int].deep_view());
        while slot < done.len() && rank(order_by, &rows[i].1, &done[slot].1) != Order::Less
            invariant
                slot <= done.len(),
                i < rows.len(),
                sofar == done.deep_view(),
                slot_from(order_by@, sofar, 0, rows[i as int].1.deep_view()) == slot_from(
                    order_by@,
                    sofar,
                    slot as int,
                    rows[i as int].1.deep_view(),
                ),
            decreases done.len() - slot,
        {
            assert(sofar[slot as int] == done[slot as int].deep_view());
            slot += 1;
        }
        if slot < done.len() {
            assert(sofar[slot as int] == done[slot as int].deep_view());
        }
        let entry = rows[i].replica();
        done.insert(slot, entry);
        assert(done.deep_view() =~= sofar.insert(slot as int, model[i as int]));
        i += 1;
    }
    done
}

// ---------------------------------------------------------------------------------------------
// The result
// ---------------------------------------------------------------------------------------------

/// The results as JSON objects.
pub open spec fn objects_of(rows: Seq<(CellsModel, Seq<Json>)>) -> Seq<Json> {
    Seq::new(rows.len(), |i: int| Json::Object(rows[i].0))
}

/// The rows from position `from` on whose text was not seen before.
pub open spec fn distinct_from(rows: Seq<Json>, from: int, seen: Seq<Seq<char>>, kept: Seq<Json>) -> Seq<Json>
    decreases rows.len() - from,
{
    if from < 0 || from >= rows.len() {
        kept
    } else if listed(seen, json_text_of(rows[from])) {
        distinct_from(rows, from + 1, seen, kept)
    } else {
        distinct_from(
            rows,
            from + 1,
            seen.push(json_text_of(rows[from])),
            kept.push(rows[from]),
        )
    }
}

/// What OFFSET and, where it is given, LIMIT leave of the rows.
pub open spec fn window(rows: Seq<Json>, offset: int, limit: Option<usize>) -> Seq<Json> {
    if offset >= rows.len() {
        Seq::empty()
    } else if limit is None || limit->0 >= rows.len() - offset {
        rows.skip(offset)
    } else {
        rows.subrange(offset, offset + limit->0)
    }
}

/// The number of rows to skip.
pub open spec fn offset_of(query: Json, caller: AuthModel) -> Outcome<usize> {
    if child(query, "offset"@) is Null {
        Ok(0)
    } else {
        count_of(child(child(query, "offset"@), "value"@), caller)
    }
}

/// The greatest number of rows to return, where there is one.
pub open spec fn limit_of(query: Json, caller: AuthModel) -> Outcome<Option<usize>> {
    if child(query, "limit"@) is Null {
        Ok(None)
    } else {
        match count_of(child(query, "limit"@), caller) {
            Ok(limit) => Ok(Some(limit)),
            Err(error) => Err(error),
        }
    }
}

/// The rows in order, duplicates removed where the query asks for it.
pub open spec fn deduplicated(query: Json, rows: Seq<Json>) -> Outcome<Seq<Json>> {
    let distinct = child(payload(child(query, "body"@)), "distinct"@);
    if distinct is Null {
        Ok(rows)
    } else if tag(distinct) == "Distinct"@ {
        Ok(distinct_from(rows, 0, Seq::empty(), Seq::empty()))
    } else {
        Err(unsupported_failure("DISTINCT ON"@))
    }
}

/// What a query returns.
pub open spec fn selected(database: DatabaseModel, query: Json, caller: AuthModel) -> Outcome<ResultModel> {
    let select = payload(child(query, "body"@));
    let order_by = child(query, "order_by"@);
    match query_accepted(query) {
        Err(error) => Err(error),
        Ok(_) => match source_of(database, select, caller) {
            Err(error) => Err(error),
            Ok(source) => match ranked_from(query, source, 0, Seq::empty(), caller) {
                Err(error) => Err(error),
                Ok(rows) => match all_comparable_from(rows, items(order_by).len() as int, 0) {
                    Err(error) => Err(error),
                    Ok(_) => match deduplicated(
                        query,
                        objects_of(arranged_from(order_by, rows, 0, Seq::empty())),
                    ) {
                        Err(error) => Err(error),
                        Ok(kept) => match offset_of(query, caller) {
                            Err(error) => Err(error),
                            Ok(offset) => match limit_of(query, caller) {
                                Err(error) => Err(error),
                                Ok(limit) => Ok(
                                    ResultModel {
                                        rows: window(kept, offset as int, limit),
                                        affected: 0,
                                    },
                                ),
                            },
                        },
                    },
                },
            },
        },
    }
}

fn to_objects(rows: Vec<(Cells, Vec<Datum>)>) -> (result: Vec<Datum>)
    ensures
        result.deep_view() == objects_of(rows.deep_view()),
{
    let mut result: Vec<Datum> = no_items();
    let mut i: usize = 0;
    let ghost goal = objects_of(rows.deep_view());
    while i < rows.len()
        invariant
            i <= rows.len(),
            goal == objects_of(rows.deep_view()),
            result.deep_view() == goal.take(i as int),
        decreases rows.len() - i,
    {
        add_last(&mut result, Datum::Object(rows[i].0.replica()));
        i += 1;
        assert(result.deep_view() =~= goal.take(i as int));
    }
    assert(goal.take(rows@.len() as int) =~= goal);
    result
}

fn keep_distinct(rows: &Vec<Datum>) -> (result: Vec<Datum>)
    ensures
        result.deep_view() == distinct_from(rows.deep_view(), 0, Seq::empty(), Seq::empty()),
{
    let mut seen: Vec<String> = no_items();
    let mut kept: Vec<Datum> = no_items();
    let mut i: usize = 0;
    let ghost model = rows.deep_view();
    while i < rows.len()
        invariant
            i <= rows.len(),
            model == rows.deep_view(),
            distinct_from(model, 0, Seq::empty(), Seq::empty()) == distinct_from(
                model,
                i as int,
                seen.deep_view(),
                kept.deep_view(),
            ),
        decreases rows.len() - i,
    {
        assert(model[i as int] == rows[i as int]@);
        let text = json_text(&rows[i]);
        if !is_listed(&seen, text.as_str()) {
            add_last(&mut seen, text);
            add_last(&mut kept, rows[i].copied());
        }
        i += 1;
    }
    kept
}

fn take_window(rows: &Vec<Datum>, offset: usize, limit: Option<usize>) -> (result: Vec<Datum>)
    ensures
        result.deep_view() == window(rows.deep_view(), offset as int, limit),
{
    let mut result: Vec<Datum> = no_items();
    let ghost goal = window(rows.deep_view(), offset as int, limit);
    if offset >= rows.len() {
        return result;
    }
    let end: usize = match limit {
        Some(most) => if most >= rows.len() - offset {
            rows.len()
        } else {
            offset + most
        },
        None => rows.len(),
    };
    let mut i: usize = offset;
    while i < end
        invariant
            offset <= i <= end <= rows.len(),
            goal.len() == end - offset,
            forall|j: int| 0 <= j < goal.len() ==> #[trigger] goal[j] == rows.deep_view()[offset + j],
            result.deep_view() == goal.take(i - offset),
        decreases end - i,
    {
        assert(goal[i - offset] == rows[i as int]@);
        add_last(&mut result, rows[i].copied());
        i += 1;
        assert(result.deep_view() =~= goal.take(i - offset));
    }
    assert(goal.take(goal.len() as int) =~= goal);
    result
}

impl Database {
    /// Runs a query over at most one table.
    pub fn select(&self, query: &Datum, context: &AuthContext) -> (result: Result<SqlResult>)
        ensures
            outcome(result) == selected(self.deep_view(), query@, context.deep_view()),
    {
        accept_query(query)?;
        let select = query.child("body").payload();
        let source = read_source(self, select, context)?;
        let ranked = rank_rows(query, &source, context)?;
        let order_by = query.child("order_by");
        check_all_comparable(&ranked, order_by.count())?;
        let mut rows = to_objects(arrange(order_by, ranked));
        if !select.child("distinct").is_null() {
            if !select.child("distinct").is("Distinct") {
                return Err(unsupported("DISTINCT ON"));
            }
            rows = keep_distinct(&rows);
        }
        let offset: usize = if query.child("offset").is_null() {
            0
        } else {
            nonnegative(query.child("offset").child("value"), context)?
        };
        let limit: Option<usize> = if query.child("limit").is_null() {
            None
        } else {
            Some(nonnegative(query.child("limit"), context)?)
        };
        Ok(SqlResult { rows: take_window(&rows, offset, limit), affected: 0 })
    }
}

/// Two queries that differ at most in OFFSET and LIMIT.
pub open spec fn same_but_paging(one: Json, other: Json) -> bool {
    forall|key: Seq<char>| key != "offset"@ && key != "limit"@ ==> #[trigger] child(one, key) == child(other, key)
}

proof fn paging_names_differ()
    ensures
        "with"@ != "limit"@ && "with"@ != "offset"@,
        "fetch"@ != "limit"@ && "fetch"@ != "offset"@,
        "locks"@ != "limit"@ && "locks"@ != "offset"@,
        "body"@ != "limit"@ && "body"@ != "offset"@,
        "order_by"@ != "limit"@ && "order_by"@ != "offset"@,
{
    reveal_strlit("limit");
    reveal_strlit("offset");
    reveal_strlit("with");
    reveal_strlit("fetch");
    reveal_strlit("locks");
    reveal_strlit("body");
    reveal_strlit("order_by");
    assert("with"@.len() == 4 && "body"@.len() == 4 && "limit"@.len() == 5 && "offset"@.len() == 6);
    assert("limit"@[1] == 'i' && "fetch"@[1] == 'e' && "locks"@[1] == 'o');
}

proof fn ranking_ignores_paging(
    one: Json,
    other: Json,
    source: Seq<CellsModel>,
    from: int,
    found: Seq<(CellsModel, Seq<Json>)>,
    caller: AuthModel,
)
    requires
        child(one, "body"@) == child(other, "body"@),
        child(one, "order_by"@) == child(other, "order_by"@),
    ensures
        ranked_from(one, source, from, found, caller) == ranked_from(other, source, from, found, caller),
    decreases source.len() - from,
{
    if 0 <= from < source.len() {
        let projection = child(payload(child(one, "body"@)), "projection"@);
        match projected(projection, source[from], caller) {
            Err(_) => {},
            Ok(result) => match order_values_from(
                child(one, "order_by"@),
                0,
                Seq::empty(),
                put_all(source[from], result),
                caller,
            ) {
                Err(_) => {},
                Ok(values) => {
                    ranking_ignores_paging(one, other, source, from + 1, found.push((result, values)), caller);
                },
            },
        }
    }
}

/// A page of a query is that part of the whole result: with an offset of `offset` and a limit of
/// `limit`, where there is one, it holds, in the same order, the rows from position `offset` on,
/// `limit` of them or as many as there are.
pub proof fn pages_are_parts_of_the_whole(
    database: DatabaseModel,
    whole: Json,
    page: Json,
    caller: AuthModel,
    offset: usize,
    limit: Option<usize>,
)
    requires
        same_but_paging(whole, page),
        child(whole, "offset"@) is Null,
        child(whole, "limit"@) is Null,
        offset_of(page, caller) == Ok::<usize, crate::error::Failure>(offset),
        limit_of(page, caller) == Ok::<Option<usize>, crate::error::Failure>(limit),
    ensures
        match selected(database, whole, caller) {
            Err(error) => selected(database, page, caller) == Err::<ResultModel, crate::error::Failure>(error),
            Ok(result) => selected(database, page, caller) == Ok::<ResultModel, crate::error::Failure>(
                ResultModel { rows: window(result.rows, offset as int, limit), affected: 0 },
            ),
        },
{
    paging_names_differ();
    assert(child(whole, "with"@) == child(page, "with"@));
    assert(child(whole, "fetch"@) == child(page, "fetch"@));
    assert(child(whole, "locks"@) == child(page, "locks"@));
    assert(child(whole, "body"@) == child(page, "body"@));
    assert(child(whole, "order_by"@) == child(page, "order_by"@));
    assert(query_accepted(whole) == query_accepted(page));
    let select = payload(child(whole, "body"@));
    match source_of(database, select, caller) {
        Err(_) => {},
        Ok(source) => {
            ranking_ignores_paging(whole, page, source, 0, Seq::empty(), caller);
        },
    }
    assert forall|kept: Seq<Json>| #[trigger] window(kept, 0, None) == kept by {
        assert(window(kept, 0, None) =~= kept);
    }
}

} // verus!
