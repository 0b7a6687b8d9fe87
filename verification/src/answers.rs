//! What queries answer: the rows that pass, projected and in order, and each once where that is asked.

use vstd::prelude::*;
use crate::ast::{expr_text_of, factor_name_of, ident_name, json_text_of};
use crate::catalog::{table_of, AuthModel, CellsModel, DatabaseModel, TableModel};
use crate::error::Failure;
use crate::eval::{evaluated, projected, projected_from, result_name, satisfied};
use crate::json::Json;
use crate::meaning::{below, order_of_values};
use crate::ordering::{arranged_rows_have_places, permutation, Ranking};
use crate::ordmap::{
    get, get_absent, get_after_put, get_at, put, put_all, put_all_from, put_keeps_order, sorted, spot_from, spot_from_range,
};
use crate::rules::permitted;
use crate::select::{
    all_comparable_from, arranged_from, distinct_from, objects_of, order_values_from, rank_from, rank_values,
    ranked_from, readable_from, selected, source_of, window,
};
use crate::text::listed;
use crate::value::{child, item, items, payload, tag};

verus! {

/// Whether positions increase.
pub open spec fn increasing(at: Seq<int>) -> bool {
    forall|i: int, j: int| #![trigger at[i], at[j]] 0 <= i < j < at.len() ==> at[i] < at[j]
}

// ---------------------------------------------------------------------------------------------
// DISTINCT
// ---------------------------------------------------------------------------------------------

/// Whether no row before this one has its text.
pub open spec fn first_of_its_text(rows: Seq<Json>, k: int) -> bool {
    &&& 0 <= k < rows.len()
    &&& forall|j: int| 0 <= j < k ==> json_text_of(#[trigger] rows[j]) != json_text_of(rows[k])
}

/// Whether `kept` are the rows at these positions, which are those of the first rows of their texts.
pub open spec fn firsts(rows: Seq<Json>, kept: Seq<Json>, at: Seq<int>) -> bool {
    &&& at.len() == kept.len()
    &&& increasing(at)
    &&& forall|i: int| 0 <= i < at.len() ==> first_of_its_text(rows, #[trigger] at[i]) && kept[i] == rows[at[i]]
    &&& forall|k: int| #[trigger] first_of_its_text(rows, k) ==> at.contains(k)
}

/// What is known of the rows before a position.
spec fn firsts_until(rows: Seq<Json>, from: int, seen: Seq<Seq<char>>, kept: Seq<Json>, at: Seq<int>) -> bool {
    &&& at.len() == kept.len() && seen.len() == kept.len()
    &&& increasing(at)
    &&& forall|i: int|
        0 <= i < at.len() ==> first_of_its_text(rows, #[trigger] at[i]) && at[i] < from && kept[i] == rows[at[i]]
            && seen[i] == json_text_of(kept[i])
    &&& forall|k: int| k < from && #[trigger] first_of_its_text(rows, k) ==> at.contains(k)
}

proof fn text_has_a_first(rows: Seq<Json>, j: int) -> (k: int)
    requires
        0 <= j < rows.len(),
    ensures
        0 <= k <= j,
        first_of_its_text(rows, k),
        json_text_of(rows[k]) == json_text_of(rows[j]),
    decreases j,
{
    if first_of_its_text(rows, j) {
        j
    } else {
        let i = choose|i: int| 0 <= i < j && json_text_of(#[trigger] rows[i]) == json_text_of(rows[j]);
        text_has_a_first(rows, i)
    }
}

proof fn distinct_keeps_firsts(rows: Seq<Json>, from: int, seen: Seq<Seq<char>>, kept: Seq<Json>, at: Seq<int>) -> (all:
    Seq<int>)
    requires
        0 <= from <= rows.len(),
        firsts_until(rows, from, seen, kept, at),
    ensures
        firsts(rows, distinct_from(rows, from, seen, kept), all),
    decreases rows.len() - from,
{
    if from < rows.len() {
        let text = json_text_of(rows[from]);
        if listed(seen, text) {
            let i = choose|i: int| 0 <= i < seen.len() && seen[i] == text;
            assert(first_of_its_text(rows, at[i]));
            assert(json_text_of(rows[at[i]]) == text);
            assert(!first_of_its_text(rows, from));
            distinct_keeps_firsts(rows, from + 1, seen, kept, at)
        } else {
            assert(first_of_its_text(rows, from)) by {
                assert forall|j: int| 0 <= j < from implies json_text_of(#[trigger] rows[j]) != text by {
                    if json_text_of(rows[j]) == text {
                        let k = text_has_a_first(rows, j);
                        assert(at.contains(k));
                        let i = choose|i: int| 0 <= i < at.len() && at[i] == k;
                        assert(first_of_its_text(rows, at[i]));
                        assert(seen[i] == text);
                    }
                }
            }
            let more = at.push(from);
            let rest = kept.push(rows[from]);
            let known = seen.push(text);
            assert forall|i: int| 0 <= i < more.len() implies first_of_its_text(rows, #[trigger] more[i]) && more[i]
                < from + 1 && rest[i] == rows[more[i]] && known[i] == json_text_of(rest[i]) by {
                if i < at.len() {
                    assert(more[i] == at[i]);
                }
            }
            assert forall|k: int| k < from + 1 && #[trigger] first_of_its_text(rows, k) implies more.contains(k) by {
                if k < from {
                    let i = choose|i: int| 0 <= i < at.len() && at[i] == k;
                    assert(more[i] == k);
                } else {
                    assert(more[at.len() as int] == k);
                }
            }
            distinct_keeps_firsts(rows, from + 1, known, rest, more)
        }
    } else {
        at
    }
}

/// Whether rows are the first ones of their texts among others: all different, every text among them, and
/// in the order of their first occurrences.
pub open spec fn each_once(all: Seq<Json>, few: Seq<Json>) -> bool {
    &&& forall|i: int, j: int| #![trigger few[i], few[j]] 0 <= i < j < few.len() ==> few[i] != few[j]
    &&& forall|k: int| 0 <= k < all.len() ==> text_among(few, json_text_of(#[trigger] all[k]))
    &&& exists|at: Seq<int>| #[trigger] firsts(all, few, at)
}

/// Whether a row has a text.
pub open spec fn text_among(rows: Seq<Json>, text: Seq<char>) -> bool {
    exists|i: int| 0 <= i < rows.len() && json_text_of(#[trigger] rows[i]) == text
}

proof fn firsts_are_each_once(all: Seq<Json>, few: Seq<Json>, at: Seq<int>)
    requires
        firsts(all, few, at),
    ensures
        each_once(all, few),
{
    assert forall|i: int, j: int| #![trigger few[i], few[j]] 0 <= i < j < few.len() implies few[i] != few[j] by {
        assert(at[i] < at[j]);
        assert(first_of_its_text(all, at[j]));
        assert(json_text_of(all[at[i]]) != json_text_of(all[at[j]]));
    }
    assert forall|k: int| 0 <= k < all.len() implies text_among(few, json_text_of(#[trigger] all[k])) by {
        let first = text_has_a_first(all, k);
        assert(at.contains(first));
        let i = choose|i: int| 0 <= i < at.len() && at[i] == first;
        assert(few[i] == all[at[i]]);
    }
}

/// Two queries without paging that differ in DISTINCT alone: the second has it.
pub open spec fn same_but_distinct(whole: Json, unique: Json) -> bool {
    let one = payload(child(whole, "body"@));
    let other = payload(child(unique, "body"@));
    &&& forall|key: Seq<char>| key != "body"@ ==> #[trigger] child(whole, key) == child(unique, key)
    &&& tag(child(whole, "body"@)) == tag(child(unique, "body"@))
    &&& forall|key: Seq<char>| key != "distinct"@ ==> #[trigger] child(one, key) == child(other, key)
    &&& child(one, "distinct"@) is Null
    &&& !(child(other, "distinct"@) is Null) && tag(child(other, "distinct"@)) == "Distinct"@
    &&& child(whole, "offset"@) is Null && child(whole, "limit"@) is Null
}

proof fn query_names_differ()
    ensures
        "with"@ != "body"@ && "fetch"@ != "body"@ && "locks"@ != "body"@ && "order_by"@ != "body"@ && "offset"@
            != "body"@ && "limit"@ != "body"@,
        "from"@ != "distinct"@ && "having"@ != "distinct"@ && "lateral_views"@ != "distinct"@ && "named_window"@
            != "distinct"@ && "qualify"@ != "distinct"@ && "top"@ != "distinct"@ && "into"@ != "distinct"@
            && "group_by"@ != "distinct"@ && "selection"@ != "distinct"@ && "projection"@ != "distinct"@,
{
    reveal_strlit("with");
    reveal_strlit("fetch");
    reveal_strlit("locks");
    reveal_strlit("body");
    reveal_strlit("order_by");
    reveal_strlit("offset");
    reveal_strlit("limit");
    reveal_strlit("from");
    reveal_strlit("having");
    reveal_strlit("lateral_views");
    reveal_strlit("named_window");
    reveal_strlit("qualify");
    reveal_strlit("top");
    reveal_strlit("into");
    reveal_strlit("group_by");
    reveal_strlit("selection");
    reveal_strlit("projection");
    reveal_strlit("distinct");
    assert("with"@[0] == 'w' && "fetch"@[0] == 'f' && "locks"@[0] == 'l' && "body"@[0] == 'b' && "order_by"@[0] == 'o'
        && "offset"@[0] == 'o' && "limit"@[0] == 'l');
    assert("from"@[0] == 'f' && "having"@[0] == 'h' && "lateral_views"@[0] == 'l' && "named_window"@[0] == 'n'
        && "qualify"@[0] == 'q' && "top"@[0] == 't' && "into"@[0] == 'i' && "group_by"@[0] == 'g' && "selection"@[0]
        == 's' && "projection"@[0] == 'p' && "distinct"@[0] == 'd');
}

proof fn ranking_is_the_same(
    one: Json,
    other: Json,
    source: Seq<CellsModel>,
    from: int,
    found: Seq<Ranking>,
    caller: AuthModel,
)
    requires
        child(payload(child(one, "body"@)), "projection"@) == child(payload(child(other, "body"@)), "projection"@),
        child(one, "order_by"@) == child(other, "order_by"@),
    ensures
        ranked_from(one, source, from, found, caller) == ranked_from(other, source, from, found, caller),
    decreases source.len() - from,
{
    if 0 <= from < source.len() {
        let projection = child(payload(child(one, "body"@)), "projection"@);
        match projected(projection, source[from], caller) {
            Err(_) => {},
            Ok(result) => match order_values_from(
                child(one, "order_by"@),
                0,
                Seq::empty(),
                put_all(source[from], result),
                caller,
            ) {
                Err(_) => {},
                Ok(values) => {
                    ranking_is_the_same(one, other, source, from + 1, found.push((result, values)), caller);
                },
            },
        }
    }
}

/// The rows of a SELECT DISTINCT are those of the same query without DISTINCT, each once, in the order of
/// their first occurrences; two rows are the same where their JSON texts are.
pub proof fn distinct_results_hold_each_row_once(
    database: DatabaseModel,
    whole: Json,
    unique: Json,
    caller: AuthModel,
)
    requires
        same_but_distinct(whole, unique),
    ensures
        match (selected(database, whole, caller), selected(database, unique, caller)) {
            (Ok(all), Ok(few)) => each_once(all.rows, few.rows),
            (Err(error), Err(other)) => error == other,
            _ => false,
        },
{
    query_names_differ();
    let one = payload(child(whole, "body"@));
    let other = payload(child(unique, "body"@));
    assert(child(whole, "with"@) == child(unique, "with"@));
    assert(child(whole, "fetch"@) == child(unique, "fetch"@));
    assert(child(whole, "locks"@) == child(unique, "locks"@));
    assert(child(whole, "order_by"@) == child(unique, "order_by"@));
    assert(child(whole, "offset"@) == child(unique, "offset"@));
    assert(child(whole, "limit"@) == child(unique, "limit"@));
    assert(child(one, "from"@) == child(other, "from"@));
    assert(child(one, "having"@) == child(other, "having"@));
    assert(child(one, "lateral_views"@) == child(other, "lateral_views"@));
    assert(child(one, "named_window"@) == child(other, "named_window"@));
    assert(child(one, "qualify"@) == child(other, "qualify"@));
    assert(child(one, "top"@) == child(other, "top"@));
    assert(child(one, "into"@) == child(other, "into"@));
    assert(child(one, "group_by"@) == child(other, "group_by"@));
    assert(child(one, "selection"@) == child(other, "selection"@));
    assert(child(one, "projection"@) == child(other, "projection"@));
    assert(crate::select::query_accepted(whole) == crate::select::query_accepted(unique));
    assert(source_of(database, one, caller) == source_of(database, other, caller));
    assert forall|kept: Seq<Json>| #[trigger] window(kept, 0, None) == kept by {
        assert(window(kept, 0, None) =~= kept);
    }
    match source_of(database, one, caller) {
        Err(_) => {},
        Ok(source) => {
            ranking_is_the_same(whole, unique, source, 0, Seq::empty(), caller);
            match ranked_from(whole, source, 0, Seq::empty(), caller) {
                Err(_) => {},
                Ok(rows) => {
                    let order_by = child(whole, "order_by"@);
                    let all = objects_of(arranged_from(order_by, rows, 0, Seq::empty()));
                    let at = distinct_keeps_firsts(all, 0, Seq::empty(), Seq::empty(), Seq::empty());
                    firsts_are_each_once(all, distinct_from(all, 0, Seq::empty(), Seq::empty()), at);
                },
            }
        },
    }
}

// ---------------------------------------------------------------------------------------------
// Rows and their order
// ---------------------------------------------------------------------------------------------

/// Whether a row is shown to a caller and passes a selection.
pub open spec fn passes(table: TableModel, selection: Json, caller: AuthModel, i: int) -> bool {
    let cells = table.rows[i].1.values;
    permitted(table, "SELECT"@, cells, caller, false) == Ok::<bool, Failure>(true) && satisfied(selection, cells, caller)
        == Ok::<bool, Failure>(true)
}

/// Whether these are the positions of the rows that pass among the first `count`.
pub open spec fn passing(table: TableModel, selection: Json, caller: AuthModel, count: int, picked: Seq<int>) -> bool {
    &&& increasing(picked)
    &&& forall|k: int|
        0 <= k < picked.len() ==> 0 <= #[trigger] picked[k] < count && passes(table, selection, caller, picked[k])
    &&& forall|i: int| 0 <= i < count && #[trigger] passes(table, selection, caller, i) ==> picked.contains(i)
}

/// The cells of the rows at these positions.
pub open spec fn cells_at(table: TableModel, picked: Seq<int>) -> Seq<CellsModel> {
    Seq::new(picked.len(), |k: int| table.rows[picked[k]].1.values)
}

proof fn reading_picks(
    table: TableModel,
    from: int,
    found: Seq<CellsModel>,
    selection: Json,
    caller: AuthModel,
    picked: Seq<int>,
) -> (all: Seq<int>)
    requires
        0 <= from <= table.rows.len(),
        passing(table, selection, caller, from, picked),
        found == cells_at(table, picked),
    ensures
        readable_from(table, from, found, selection, caller) matches Ok(source) ==> passing(
            table,
            selection,
            caller,
            table.rows.len() as int,
            all,
        ) && source == cells_at(table, all),
    decreases table.rows.len() - from,
{
    if from < table.rows.len() {
        let cells = table.rows[from].1.values;
        if passes(table, selection, caller, from) {
            let more = picked.push(from);
            assert(cells_at(table, more) =~= found.push(cells));
            assert forall|k: int| 0 <= k < more.len() implies 0 <= #[trigger] more[k] < from + 1 && passes(
                table,
                selection,
                caller,
                more[k],
            ) by {
                if k < picked.len() {
                    assert(more[k] == picked[k]);
                }
            }
            assert forall|i: int| 0 <= i < from + 1 && #[trigger] passes(table, selection, caller, i) implies more.contains(
                i,
            ) by {
                if i < from {
                    let k = choose|k: int| 0 <= k < picked.len() && picked[k] == i;
                    assert(more[k] == i);
                } else {
                    assert(more[picked.len() as int] == i);
                }
            }
            reading_picks(table, from + 1, found.push(cells), selection, caller, more)
        } else {
            reading_picks(table, from + 1, found, selection, caller, picked)
        }
    } else {
        picked
    }
}

/// Whether an item of ORDER BY ascends, which it does unless it says otherwise.
pub open spec fn rising(entry: Json) -> bool {
    child(entry, "asc"@) is Null || child(entry, "asc"@) == Json::Bool(true)
}

/// Whether an item of ORDER BY has nulls first: where it says so, else where it descends.
pub open spec fn nulls_first(entry: Json) -> bool {
    child(entry, "nulls_first"@) == Json::Bool(true) || child(entry, "nulls_first"@) is Null && !rising(entry)
}

/// Whether a value comes strictly before another under an item of ORDER BY.
pub open spec fn ahead(entry: Json, a: Json, b: Json) -> bool {
    if a is Null {
        !(b is Null) && nulls_first(entry)
    } else if b is Null {
        !nulls_first(entry)
    } else if rising(entry) {
        below(a, b)
    } else {
        below(b, a)
    }
}

/// Whether a row comes strictly before another: it does under some item, and no item before that tells
/// them apart.
pub open spec fn ahead_of(order_by: Json, a: Seq<Json>, b: Seq<Json>) -> bool {
    exists|c: int| #[trigger] ahead_by(order_by, a, b, c)
}

/// Whether a row comes strictly before another by one item.
pub open spec fn ahead_by(order_by: Json, a: Seq<Json>, b: Seq<Json>, c: int) -> bool {
    &&& 0 <= c < items(order_by).len()
    &&& a.len() == items(order_by).len() && b.len() == items(order_by).len()
    &&& ahead(items(order_by)[c], a[c], b[c])
    &&& forall|d: int| 0 <= d < c ==> #[trigger] a[d] == b[d]
}

proof fn ahead_ranks_first(order_by: Json, a: Seq<Json>, b: Seq<Json>, c: int, from: int)
    requires
        ahead_by(order_by, a, b, c),
        0 <= from <= c,
    ensures
        rank_from(order_by, from, a, b) is Less,
    decreases c - from,
{
    let entry = items(order_by)[from];
    order_of_values(a[from], b[from]);
    order_of_values(b[from], a[from]);
    if from < c {
        assert(a[from] == b[from]);
        assert(rank_values(entry, a[from], b[from]) is Equal);
        ahead_ranks_first(order_by, a, b, c, from + 1);
    } else {
        assert(rank_values(entry, a[from], b[from]) is Less);
    }
}

/// Whether these are the values of the ORDER BY expressions on a row and its results.
pub open spec fn ordering_values(order_by: Json, scope: CellsModel, values: Seq<Json>, caller: AuthModel) -> bool {
    &&& values.len() == items(order_by).len()
    &&& forall|c: int|
        0 <= c < values.len() ==> evaluated(child(items(order_by)[c], "expr"@), scope, caller) == Ok::<Json, Failure>(
            #[trigger] values[c],
        )
}

proof fn order_values_come(order_by: Json, from: int, found: Seq<Json>, scope: CellsModel, caller: AuthModel)
    requires
        0 <= from <= items(order_by).len(),
        found.len() == from,
        forall|c: int|
            0 <= c < from ==> evaluated(child(items(order_by)[c], "expr"@), scope, caller) == Ok::<Json, Failure>(
                #[trigger] found[c],
            ),
    ensures
        order_values_from(order_by, from, found, scope, caller) matches Ok(values) ==> ordering_values(
            order_by,
            scope,
            values,
            caller,
        ),
    decreases items(order_by).len() - from,
{
    if from < items(order_by).len() {
        match evaluated(child(items(order_by)[from], "expr"@), scope, caller) {
            Err(_) => {},
            Ok(value) => {
                order_values_come(order_by, from + 1, found.push(value), scope, caller);
            },
        }
    }
}

/// Whether a result row and its ordering values come of a source row.
pub open spec fn comes_of(query: Json, cells: CellsModel, row: Ranking, caller: AuthModel) -> bool {
    &&& projected(child(payload(child(query, "body"@)), "projection"@), cells, caller) == Ok::<CellsModel, Failure>(row.0)
    &&& ordering_values(child(query, "order_by"@), put_all(cells, row.0), row.1, caller)
}

proof fn ranking_comes(query: Json, source: Seq<CellsModel>, from: int, found: Seq<Ranking>, caller: AuthModel)
    requires
        0 <= from <= source.len(),
        found.len() == from,
        forall|k: int| 0 <= k < from ==> comes_of(query, source[k], #[trigger] found[k], caller),
    ensures
        ranked_from(query, source, from, found, caller) matches Ok(rows) ==> rows.len() == source.len() && forall|
            k: int,
        | 0 <= k < rows.len() ==> comes_of(query, source[k], #[trigger] rows[k], caller),
    decreases source.len() - from,
{
    if from < source.len() {
        let projection = child(payload(child(query, "body"@)), "projection"@);
        match projected(projection, source[from], caller) {
            Err(_) => {},
            Ok(result) => {
                let scope = put_all(source[from], result);
                order_values_come(child(query, "order_by"@), 0, Seq::empty(), scope, caller);
                match order_values_from(child(query, "order_by"@), 0, Seq::empty(), scope, caller) {
                    Err(_) => {},
                    Ok(values) => {
                        ranking_comes(query, source, from + 1, found.push((result, values)), caller);
                    },
                }
            },
        }
    }
}

/// Whether rows answer a query over these source rows: each source row gives one, its projection, and none
/// stands behind one that it comes before, nor before an earlier one that it comes level with.
pub open spec fn answers(
    query: Json,
    source: Seq<CellsModel>,
    rows: Seq<Json>,
    caller: AuthModel,
    ranked: Seq<Ranking>,
    order: Seq<int>,
) -> bool {
    let order_by = child(query, "order_by"@);
    &&& rows.len() == source.len() && ranked.len() == source.len()
    &&& permutation(order, source.len() as int)
    &&& forall|i: int|
        0 <= i < rows.len() ==> #[trigger] rows[i] == Json::Object(ranked[i].0) && comes_of(
            query,
            source[order[i]],
            ranked[i],
            caller,
        )
    &&& forall|i: int, j: int|
        #![trigger ranked[i], ranked[j]]
        0 <= i < j < rows.len() ==> !ahead_of(order_by, ranked[j].1, ranked[i].1) && (ranked[i].1 == ranked[j].1
            ==> order[i] < order[j])
}

proof fn ranked_rows_answer(query: Json, source: Seq<CellsModel>, caller: AuthModel, rows: Seq<Ranking>) -> (order: Seq<
    int,
>)
    requires
        ranked_from(query, source, 0, Seq::empty(), caller) == Ok::<Seq<Ranking>, Failure>(rows),
        all_comparable_from(rows, items(child(query, "order_by"@)).len() as int, 0) is Ok,
    ensures
        answers(
            query,
            source,
            objects_of(arranged_from(child(query, "order_by"@), rows, 0, Seq::empty())),
            caller,
            arranged_from(child(query, "order_by"@), rows, 0, Seq::empty()),
            order,
        ),
{
    let order_by = child(query, "order_by"@);
    ranking_comes(query, source, 0, Seq::empty(), caller);
    let order = arranged_rows_have_places(order_by, rows);
    let ranked = arranged_from(order_by, rows, 0, Seq::empty());
    assert forall|i: int| 0 <= i < ranked.len() implies comes_of(query, source[order[i]], #[trigger] ranked[i], caller) by {
        assert(ranked[i] == rows[order[i]]);
        assert(comes_of(query, source[order[i]], rows[order[i]], caller));
    }
    assert forall|i: int, j: int| #![trigger ranked[i], ranked[j]] 0 <= i < j < ranked.len() implies !ahead_of(
        order_by,
        ranked[j].1,
        ranked[i].1,
    ) by {
        if ahead_of(order_by, ranked[j].1, ranked[i].1) {
            let c = choose|c: int| #[trigger] ahead_by(order_by, ranked[j].1, ranked[i].1, c);
            ahead_ranks_first(order_by, ranked[j].1, ranked[i].1, c, 0);
        }
    }
    order
}

/// Whether a query asks for all its rows: neither for different ones nor for a page.
pub open spec fn asks_for_all(query: Json) -> bool {
    child(payload(child(query, "body"@)), "distinct"@) is Null && child(query, "offset"@) is Null && child(
        query,
        "limit"@,
    ) is Null
}

/// A query over a table answers with the rows that the caller may read and that pass its WHERE, each
/// projected, in the order that ORDER BY asks for; rows on the same level stay in the order of the table.
pub proof fn queries_answer_with_the_rows_that_pass(
    database: DatabaseModel,
    query: Json,
    caller: AuthModel,
    name: Seq<char>,
    table: TableModel,
)
    requires
        asks_for_all(query),
        items(child(payload(child(query, "body"@)), "from"@)).len() > 0,
        factor_name_of(child(item(child(payload(child(query, "body"@)), "from"@), 0), "relation"@)) == Ok::<
            Seq<char>,
            Failure,
        >(name),
        table_of(database, name) == Ok::<TableModel, Failure>(table),
    ensures
        selected(database, query, caller) matches Ok(result) ==> exists|
            picked: Seq<int>,
            ranked: Seq<Ranking>,
            order: Seq<int>,
        |
            #![trigger answers(query, cells_at(table, picked), result.rows, caller, ranked, order)]
            passing(
                table,
                child(payload(child(query, "body"@)), "selection"@),
                caller,
                table.rows.len() as int,
                picked,
            ) && answers(query, cells_at(table, picked), result.rows, caller, ranked, order),
{
    let select = payload(child(query, "body"@));
    let selection = child(select, "selection"@);
    assert forall|kept: Seq<Json>| #[trigger] window(kept, 0, None) == kept by {
        assert(window(kept, 0, None) =~= kept);
    }
    match selected(database, query, caller) {
        Err(_) => {},
        Ok(result) => {
            assert(cells_at(table, Seq::empty()) =~= Seq::empty());
            let picked = reading_picks(table, 0, Seq::empty(), selection, caller, Seq::empty());
            let source = source_of(database, select, caller)->Ok_0;
            let rows = ranked_from(query, source, 0, Seq::empty(), caller)->Ok_0;
            let order = ranked_rows_answer(query, source, caller, rows);
            let ranked = arranged_from(child(query, "order_by"@), rows, 0, Seq::empty());
            assert(answers(query, cells_at(table, picked), result.rows, caller, ranked, order));
        },
    }
}

/// A query without a table answers with one row, its projection, where its WHERE is true, else with none.
pub proof fn queries_without_a_table_answer_once(database: DatabaseModel, query: Json, caller: AuthModel)
    requires
        asks_for_all(query),
        items(child(payload(child(query, "body"@)), "from"@)).len() == 0,
    ensures
        selected(database, query, caller) matches Ok(result) ==> if satisfied(
            child(payload(child(query, "body"@)), "selection"@),
            Seq::empty(),
            caller,
        ) == Ok::<bool, Failure>(true) {
            result.rows.len() == 1 && result.rows[0] is Object && projected(
                child(payload(child(query, "body"@)), "projection"@),
                Seq::empty(),
                caller,
            ) == Ok::<CellsModel, Failure>(result.rows[0]->Object_0)
        } else {
            result.rows.len() == 0
        },
{
    let select = payload(child(query, "body"@));
    assert forall|kept: Seq<Json>| #[trigger] window(kept, 0, None) == kept by {
        assert(window(kept, 0, None) =~= kept);
    }
    match selected(database, query, caller) {
        Err(_) => {},
        Ok(result) => {
            let source = source_of(database, select, caller)->Ok_0;
            let rows = ranked_from(query, source, 0, Seq::empty(), caller)->Ok_0;
            let order = ranked_rows_answer(query, source, caller, rows);
            if source.len() == 1 {
                assert(result.rows[0] == Json::Object(arranged_from(child(query, "order_by"@), rows, 0, Seq::empty())[0].0));
            }
        },
    }
}

// ---------------------------------------------------------------------------------------------
// Projection
// ---------------------------------------------------------------------------------------------

/// Whether an item of a projection makes a result column: a wildcard those of the row, an expression the
/// one of its alias, or of its own name where it has none.
pub open spec fn makes(entry: Json, row: CellsModel, name: Seq<char>) -> bool {
    let node = payload(entry);
    ||| tag(entry) == "Wildcard"@ && get(row, name) is Some
    ||| tag(entry) == "ExprWithAlias"@ && ident_name(child(node, "alias"@)) == name
    ||| tag(entry) == "UnnamedExpr"@ && heads(node, name)
}

/// Whether a result column has the name of an expression: that of the column it stands for, without the
/// table in front, else its text.
pub open spec fn heads(expr: Json, name: Seq<char>) -> bool {
    &&& tag(expr) == "Identifier"@ ==> name == ident_name(payload(expr))
    &&& tag(expr) == "CompoundIdentifier"@ ==> name == ident_name(item(payload(expr), items(payload(expr)).len() - 1))
    &&& tag(expr) != "Identifier"@ && tag(expr) != "CompoundIdentifier"@ ==> name == expr_text_of(expr)
}

/// Whether a value is what an item of a projection makes of a row in a column.
pub open spec fn made(entry: Json, row: CellsModel, name: Seq<char>, value: Json, caller: AuthModel) -> bool {
    let node = payload(entry);
    &&& tag(entry) == "Wildcard"@ ==> get(row, name) == Some(value)
    &&& tag(entry) == "ExprWithAlias"@ ==> evaluated(child(node, "expr"@), row, caller) == Ok::<Json, Failure>(value)
    &&& tag(entry) == "UnnamedExpr"@ ==> evaluated(node, row, caller) == Ok::<Json, Failure>(value)
}

/// Whether an item is the last that makes a result column, among the first `count`.
pub open spec fn last_maker(projection: Json, row: CellsModel, name: Seq<char>, i: int, count: int) -> bool {
    &&& 0 <= i < count <= items(projection).len()
    &&& makes(items(projection)[i], row, name)
    &&& forall|j: int| i < j < count ==> !makes(#[trigger] items(projection)[j], row, name)
}

/// Whether a result has the columns that the first `count` items make, and no others, each with the value
/// that the last of its makers gives it.
pub open spec fn projection_of(projection: Json, row: CellsModel, out: CellsModel, caller: AuthModel, count: int) -> bool {
    &&& sorted(out)
    &&& forall|name: Seq<char>, i: int|
        #[trigger] last_maker(projection, row, name, i, count) ==> (get(out, name) matches Some(value) && made(
            items(projection)[i],
            row,
            name,
            value,
            caller,
        ))
    &&& forall|name: Seq<char>|
        (#[trigger] get(out, name)) is Some ==> exists|i: int| #[trigger] last_maker(projection, row, name, i, count)
}

/// Cells put into others take the place of those with their names.
pub proof fn put_all_keeps(entries: CellsModel, more: CellsModel, from: int, name: Seq<char>)
    requires
        sorted(entries),
        sorted(more),
        0 <= from <= more.len(),
        forall|k: int| 0 <= k < from ==> get(entries, (#[trigger] more[k]).0) == Some(more[k].1),
    ensures
        sorted(put_all_from(entries, more, from)),
        get(put_all_from(entries, more, from), name) == (match get(more, name) {
            Some(value) => Some(value),
            None => get(entries, name),
        }),
    decreases more.len() - from,
{
    if from < more.len() {
        let (key, value) = more[from];
        let next = put(entries, key, value);
        put_keeps_order(entries, key, value);
        get_after_put(entries, key, value, name);
        get_at(more, from);
        assert forall|k: int| 0 <= k < from + 1 implies get(next, (#[trigger] more[k]).0) == Some(more[k].1) by {
            get_after_put(entries, key, value, more[k].0);
            get_at(more, k);
        }
        put_all_keeps(next, more, from + 1, name);
    } else {
        spot_from_range(more, name, 0);
        let i = spot_from(more, name, 0);
        if i < more.len() {
            get_at(more, i);
        } else {
            get_absent(more, name);
        }
    }
}

proof fn one_more_item(
    projection: Json,
    from: int,
    out: CellsModel,
    next: CellsModel,
    row: CellsModel,
    caller: AuthModel,
)
    requires
        0 <= from < items(projection).len(),
        projection_of(projection, row, out, caller, from),
        sorted(next),
        forall|name: Seq<char>|
            makes(items(projection)[from], row, name) ==> (#[trigger] get(next, name) matches Some(value) && made(
                items(projection)[from],
                row,
                name,
                value,
                caller,
            )),
        forall|name: Seq<char>|
            !makes(items(projection)[from], row, name) ==> #[trigger] get(next, name) == get(out, name),
    ensures
        projection_of(projection, row, next, caller, from + 1),
{
    assert forall|name: Seq<char>, i: int| #[trigger] last_maker(projection, row, name, i, from + 1) implies (get(
        next,
        name,
    ) matches Some(value) && made(items(projection)[i], row, name, value, caller)) by {
        if i < from {
            assert(!makes(items(projection)[from], row, name));
            assert(last_maker(projection, row, name, i, from));
            assert(get(next, name) == get(out, name));
        } else {
            assert(get(next, name) is Some);
        }
    }
    assert forall|name: Seq<char>| (#[trigger] get(next, name)) is Some implies exists|i: int| #[trigger]
        last_maker(projection, row, name, i, from + 1) by {
        if makes(items(projection)[from], row, name) {
            assert(last_maker(projection, row, name, from, from + 1));
        } else {
            assert(get(out, name) is Some);
            let i = choose|i: int| #[trigger] last_maker(projection, row, name, i, from);
            assert(last_maker(projection, row, name, i, from + 1));
        }
    }
}

proof fn items_are_projected(projection: Json, from: int, out: CellsModel, row: CellsModel, caller: AuthModel)
    requires
        sorted(row),
        0 <= from <= items(projection).len(),
        projection_of(projection, row, out, caller, from),
    ensures
        projected_from(projection, from, out, row, caller) matches Ok(done) ==> projection_of(
            projection,
            row,
            done,
            caller,
            items(projection).len() as int,
        ),
    decreases items(projection).len() - from,
{
    if from < items(projection).len() {
        let entry = items(projection)[from];
        let node = payload(entry);
        reveal_strlit("Wildcard");
        reveal_strlit("ExprWithAlias");
        reveal_strlit("UnnamedExpr");
        assert("ExprWithAlias"@.len() != "UnnamedExpr"@.len() && "Wildcard"@.len() != "UnnamedExpr"@.len()
            && "Wildcard"@.len() != "ExprWithAlias"@.len());
        reveal_strlit("Identifier");
        reveal_strlit("CompoundIdentifier");
        assert("Identifier"@.len() != "CompoundIdentifier"@.len());
        if tag(entry) == "Wildcard"@ {
            let next = put_all(out, row);
            assert forall|name: Seq<char>| #[trigger] get(next, name) == (match get(row, name) {
                Some(value) => Some(value),
                None => get(out, name),
            }) by {
                put_all_keeps(out, row, 0, name);
            }
            put_all_keeps(out, row, 0, Seq::empty());
            one_more_item(projection, from, out, next, row, caller);
            items_are_projected(projection, from + 1, next, row, caller);
        } else if tag(entry) == "ExprWithAlias"@ || tag(entry) == "UnnamedExpr"@ {
            let name = if tag(entry) == "ExprWithAlias"@ {
                ident_name(child(node, "alias"@))
            } else {
                result_name(node)
            };
            let expr = if tag(entry) == "ExprWithAlias"@ {
                child(node, "expr"@)
            } else {
                node
            };
            match evaluated(expr, row, caller) {
                Err(_) => {},
                Ok(value) => {
                    let next = put(out, name, value);
                    put_keeps_order(out, name, value);
                    assert forall|other: Seq<char>| #[trigger] get(next, other) == (if other == name {
                        Some(value)
                    } else {
                        get(out, other)
                    }) by {
                        get_after_put(out, name, value, other);
                    }
                    one_more_item(projection, from, out, next, row, caller);
                    items_are_projected(projection, from + 1, next, row, caller);
                },
            }
        }
    }
}

/// A projection of a row has the columns that its items ask for and no others, each with the value of its
/// expression on the row, or the cell of the row where a wildcard asks for it.
pub proof fn projections_hold_what_is_asked_for(projection: Json, row: CellsModel, caller: AuthModel)
    requires
        sorted(row),
    ensures
        projected(projection, row, caller) matches Ok(out) ==> projection_of(
            projection,
            row,
            out,
            caller,
            items(projection).len() as int,
        ),
{
    items_are_projected(projection, 0, Seq::empty(), row, caller);
}

} // verus!
