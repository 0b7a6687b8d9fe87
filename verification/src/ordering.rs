//! The order of query results.

use vstd::prelude::*;
use crate::catalog::CellsModel;
use crate::error::Failure;
use crate::json::Json;
use crate::scalar::{compared, Order};
use crate::select::{
    all_comparable_from, arranged_from, comparable_from, rank_from, rank_values, reversed, slot_from, value_at,
};
use crate::text::{text_before, text_order_irreflexive, text_order_total, text_order_transitive};
use crate::value::items;

verus! {

/// A result row and its ordering values.
pub type Ranking = (CellsModel, Seq<Json>);

/// Two values compare one way round as the other way round in reverse.
pub proof fn comparison_flips(a: Json, b: Json)
    ensures
        match compared(a, b) {
            Ok(order) => compared(b, a) == Ok::<Order, Failure>(reversed(order)),
            Err(_) => compared(b, a) is Err,
        },
{
    match (a, b) {
        (Json::String(x), Json::String(y)) => {
            text_order_total(x, y);
            if text_before(x, y) && text_before(y, x) {
                text_order_transitive(x, y, x);
                text_order_irreflexive(x);
            }
            text_order_irreflexive(x);
        },
        _ => {},
    }
}

proof fn rank_values_flips(entry: Json, a: Json, b: Json)
    ensures
        rank_values(entry, b, a) == reversed(rank_values(entry, a, b)),
{
    comparison_flips(a, b);
}

/// Two rows rank one way round as the other way round in reverse.
proof fn rank_flips(order_by: Json, from: int, a: Seq<Json>, b: Seq<Json>)
    ensures
        rank_from(order_by, from, b, a) == reversed(rank_from(order_by, from, a, b)),
    decreases items(order_by).len() - from,
{
    if 0 <= from < items(order_by).len() {
        rank_values_flips(items(order_by)[from], value_at(a, from), value_at(b, from));
        rank_flips(order_by, from + 1, a, b);
    }
}

/// Whether two values can be ranked: one is null, or they compare.
pub open spec fn ranks_with(a: Json, b: Json) -> bool {
    a is Null || b is Null || compared(a, b) is Ok
}

/// Whether the first `columns` values of two rows can be ranked.
pub open spec fn rows_rank(columns: int, a: Seq<Json>, b: Seq<Json>) -> bool {
    forall|c: int| 0 <= c < columns ==> ranks_with(#[trigger] value_at(a, c), value_at(b, c))
}

/// The order that two steps that do not fall come to.
pub open spec fn composed(first: Order, second: Order) -> Order {
    if first is Equal {
        second
    } else {
        first
    }
}

proof fn values_compose(entry: Json, a: Json, b: Json, c: Json)
    requires
        ranks_with(a, b),
        ranks_with(b, c),
        ranks_with(a, c),
        rank_values(entry, a, b) !is Greater,
        rank_values(entry, b, c) !is Greater,
    ensures
        rank_values(entry, a, c) == composed(rank_values(entry, a, b), rank_values(entry, b, c)),
{
    if !(a is Null) && !(b is Null) && !(c is Null) {
        match (a, b, c) {
            (Json::String(x), Json::String(y), Json::String(z)) => {
                text_order_total(x, y);
                text_order_total(y, z);
                text_order_total(x, z);
                text_order_irreflexive(x);
                text_order_irreflexive(y);
                text_order_irreflexive(z);
                if text_before(x, y) && text_before(y, z) {
                    text_order_transitive(x, y, z);
                }
                if text_before(y, x) && text_before(z, y) {
                    text_order_transitive(z, y, x);
                }
                if text_before(x, y) && text_before(y, x) {
                    text_order_transitive(x, y, x);
                }
                if text_before(y, z) && text_before(z, y) {
                    text_order_transitive(y, z, y);
                }
                if text_before(x, z) && text_before(z, x) {
                    text_order_transitive(x, z, x);
                }
            },
            _ => {},
        }
    }
}

proof fn ranks_compose(order_by: Json, from: int, a: Seq<Json>, b: Seq<Json>, c: Seq<Json>)
    requires
        0 <= from,
        rows_rank(items(order_by).len() as int, a, b),
        rows_rank(items(order_by).len() as int, b, c),
        rows_rank(items(order_by).len() as int, a, c),
        rank_from(order_by, from, a, b) !is Greater,
        rank_from(order_by, from, b, c) !is Greater,
    ensures
        rank_from(order_by, from, a, c) !is Greater,
    decreases items(order_by).len() - from,
{
    if from < items(order_by).len() {
        let x = value_at(a, from);
        let y = value_at(b, from);
        let z = value_at(c, from);
        assert(ranks_with(value_at(a, from), value_at(b, from)));
        assert(ranks_with(value_at(b, from), value_at(c, from)));
        assert(ranks_with(value_at(a, from), value_at(c, from)));
        values_compose(items(order_by)[from], x, y, z);
        if rank_values(items(order_by)[from], x, y) is Equal && rank_values(items(order_by)[from], y, z) is Equal {
            ranks_compose(order_by, from + 1, a, b, c);
        }
    }
}

// ---------------------------------------------------------------------------------------------
// Comparable columns
// ---------------------------------------------------------------------------------------------

proof fn comparing_carries(a: Json, b: Json, c: Json)
    requires
        compared(a, b) is Ok,
        compared(b, c) is Ok,
    ensures
        compared(a, c) is Ok,
{
}

proof fn column_compares(rows: Seq<Ranking>, column: int, from: int, previous: Json)
    requires
        0 <= from,
        0 <= column,
        comparable_from(rows, column, from, previous) is Ok,
    ensures
        forall|i: int|
            from <= i < rows.len() ==> ranks_with(previous, #[trigger] value_at(rows[i].1, column)),
        forall|i: int, j: int|
            #![trigger value_at(rows[i].1, column), value_at(rows[j].1, column)]
            from <= i < j < rows.len() ==> ranks_with(value_at(rows[i].1, column), value_at(rows[j].1, column)),
    decreases rows.len() - from,
{
    if from < rows.len() {
        let here = value_at(rows[from].1, column);
        if here is Null {
            column_compares(rows, column, from + 1, previous);
        } else {
            column_compares(rows, column, from + 1, here);
            assert forall|i: int| from <= i < rows.len() implies ranks_with(
                previous,
                #[trigger] value_at(rows[i].1, column),
            ) by {
                if i > from && !(previous is Null) && !(value_at(rows[i].1, column) is Null) {
                    assert(ranks_with(here, value_at(rows[i].1, column)));
                    comparing_carries(previous, here, value_at(rows[i].1, column));
                }
            }
        }
    }
}

proof fn columns_compare(rows: Seq<Ranking>, columns: int, from: int)
    requires
        0 <= from,
        all_comparable_from(rows, columns, from) is Ok,
    ensures
        forall|i: int, j: int, c: int|
            #![trigger value_at(rows[i].1, c), value_at(rows[j].1, c)]
            0 <= i < j < rows.len() && from <= c < columns ==> ranks_with(
                value_at(rows[i].1, c),
                value_at(rows[j].1, c),
            ),
    decreases columns - from,
{
    if from < columns {
        columns_compare(rows, columns, from + 1);
        column_compares(rows, from, 0, Json::Null);
    }
}

// ---------------------------------------------------------------------------------------------
// Arranged rows
// ---------------------------------------------------------------------------------------------

/// Whether no row ranks before one in front of it.
pub open spec fn in_order(order_by: Json, rows: Seq<Ranking>) -> bool {
    forall|i: int, j: int|
        #![trigger rows[i], rows[j]]
        0 <= i < j < rows.len() ==> rank_from(order_by, 0, rows[j].1, rows[i].1) !is Less
}

/// Whether rows can be ranked with each other.
pub open spec fn rankable(columns: int, rows: Seq<Ranking>) -> bool {
    forall|i: int, j: int|
        #![trigger rows[i], rows[j]]
        0 <= i < rows.len() && 0 <= j < rows.len() && i != j ==> rows_rank(columns, rows[i].1, rows[j].1)
}

proof fn slot_is_first(order_by: Json, rows: Seq<Ranking>, from: int, values: Seq<Json>)
    requires
        0 <= from <= rows.len(),
    ensures
        from <= slot_from(order_by, rows, from, values) <= rows.len(),
        forall|i: int|
            from <= i < slot_from(order_by, rows, from, values) ==> rank_from(
                order_by,
                0,
                values,
                (#[trigger] rows[i]).1,
            ) !is Less,
        slot_from(order_by, rows, from, values) < rows.len() ==> rank_from(
            order_by,
            0,
            values,
            rows[slot_from(order_by, rows, from, values)].1,
        ) is Less,
    decreases rows.len() - from,
{
    if from < rows.len() && rank_from(order_by, 0, values, rows[from].1) !is Less {
        slot_is_first(order_by, rows, from + 1, values);
    }
}

proof fn insert_keeps_order(order_by: Json, done: Seq<Ranking>, row: Ranking)
    requires
        in_order(order_by, done),
        rankable(items(order_by).len() as int, done.push(row)),
    ensures
        in_order(order_by, done.insert(slot_from(order_by, done, 0, row.1), row)),
{
    let columns = items(order_by).len() as int;
    let slot = slot_from(order_by, done, 0, row.1);
    slot_is_first(order_by, done, 0, row.1);
    let next = done.insert(slot, row);
    let all = done.push(row);
    let last = done.len() as int;
    assert(all[last] == row);
    assert forall|i: int, j: int| #![trigger next[i], next[j]] 0 <= i < j < next.len() implies rank_from(
        order_by,
        0,
        next[j].1,
        next[i].1,
    ) !is Less by {
        if j < slot {
            assert(next[i] == done[i] && next[j] == done[j]);
        } else if j == slot {
            assert(next[i] == done[i]);
        } else if i > slot {
            assert(next[i] == done[i - 1] && next[j] == done[j - 1]);
        } else if i < slot {
            assert(next[i] == done[i] && next[j] == done[j - 1]);
        } else {
            let later = done[j - 1];
            assert(next[j] == later);
            rank_flips(order_by, 0, row.1, done[slot].1);
            if j - 1 > slot {
                assert(all[slot] == done[slot] && all[j - 1] == later);
                assert(rows_rank(columns, all[last].1, all[slot].1));
                assert(rows_rank(columns, all[slot].1, all[j - 1].1));
                assert(rows_rank(columns, all[last].1, all[j - 1].1));
                assert(rank_from(order_by, 0, done[j - 1].1, done[slot].1) !is Less);
                rank_flips(order_by, 0, done[slot].1, later.1);
                ranks_compose(order_by, 0, row.1, done[slot].1, later.1);
            }
            rank_flips(order_by, 0, row.1, later.1);
        }
    }
}

proof fn arranging_keeps(order_by: Json, rows: Seq<Ranking>, from: int, done: Seq<Ranking>)
    requires
        0 <= from <= rows.len(),
        rankable(items(order_by).len() as int, done + rows.skip(from)),
        in_order(order_by, done),
    ensures
        in_order(order_by, arranged_from(order_by, rows, from, done)),
        arranged_from(order_by, rows, from, done).to_multiset() == (done + rows.skip(from)).to_multiset(),
    decreases rows.len() - from,
{
    broadcast use vstd::seq_lib::group_to_multiset_ensures;

    let columns = items(order_by).len() as int;
    if from < rows.len() {
        let row = rows[from];
        let slot = slot_from(order_by, done, 0, row.1);
        slot_is_first(order_by, done, 0, row.1);
        let next = done.insert(slot, row);
        let all = done + rows.skip(from);
        assert forall|i: int, j: int|
            #![trigger done.push(row)[i], done.push(row)[j]]
            0 <= i < done.push(row).len() && 0 <= j < done.push(row).len() && i != j implies rows_rank(
            columns,
            done.push(row)[i].1,
            done.push(row)[j].1,
        ) by {
            assert(all[i] == done.push(row)[i] && all[j] == done.push(row)[j]);
        }
        insert_keeps_order(order_by, done, row);
        let rest = next + rows.skip(from + 1);
        assert forall|i: int, j: int|
            #![trigger rest[i], rest[j]]
            0 <= i < rest.len() && 0 <= j < rest.len() && i != j implies rows_rank(columns, rest[i].1, rest[j].1) by {
            let a = moved(slot, done.len() as int, i);
            let b = moved(slot, done.len() as int, j);
            assert(rest[i] == all[a] && rest[j] == all[b]);
        }
        arranging_keeps(order_by, rows, from + 1, next);
        assert(next.to_multiset() =~= done.to_multiset().insert(row));
        assert(rows.skip(from) =~= seq![row] + rows.skip(from + 1));
        assert(done + rows.skip(from) =~= done.push(row) + rows.skip(from + 1));
        vstd::seq_lib::lemma_multiset_commutative(next, rows.skip(from + 1));
        vstd::seq_lib::lemma_multiset_commutative(done.push(row), rows.skip(from + 1));
        assert(done.push(row).to_multiset() =~= done.to_multiset().insert(row));
    } else {
        assert(done + rows.skip(from) =~= done);
    }
}

/// Where an item of the list with a row put in at `slot` stood before.
spec fn moved(slot: int, len: int, i: int) -> int {
    if i < slot {
        i
    } else if i == slot {
        len
    } else if i <= len {
        i - 1
    } else {
        i
    }
}

/// An ordered query has its rows in order: every row of the result, none besides, and none before one
/// that ranks before it.
pub proof fn results_are_in_order(order_by: Json, rows: Seq<Ranking>)
    requires
        all_comparable_from(rows, items(order_by).len() as int, 0) is Ok,
    ensures
        in_order(order_by, arranged_from(order_by, rows, 0, Seq::empty())),
        arranged_from(order_by, rows, 0, Seq::empty()).to_multiset() == rows.to_multiset(),
{
    let columns = items(order_by).len() as int;
    columns_compare(rows, columns, 0);
    let all = Seq::<Ranking>::empty() + rows.skip(0);
    assert(all =~= rows);
    assert forall|i: int, j: int|
        #![trigger rows[i], rows[j]]
        0 <= i < rows.len() && 0 <= j < rows.len() && i != j implies rows_rank(columns, rows[i].1, rows[j].1) by {
        assert forall|c: int| 0 <= c < columns implies ranks_with(
            #[trigger] value_at(rows[i].1, c),
            value_at(rows[j].1, c),
        ) by {
            if i < j {
                assert(ranks_with(value_at(rows[i].1, c), value_at(rows[j].1, c)));
            } else {
                assert(ranks_with(value_at(rows[j].1, c), value_at(rows[i].1, c)));
                comparison_flips(value_at(rows[j].1, c), value_at(rows[i].1, c));
            }
        }
    }
    arranging_keeps(order_by, rows, 0, Seq::empty());
}

// ---------------------------------------------------------------------------------------------
// Places
// ---------------------------------------------------------------------------------------------

/// Whether these are the positions of `n` things, each once.
pub open spec fn permutation(order: Seq<int>, n: int) -> bool {
    &&& order.len() == n
    &&& forall|i: int| 0 <= i < n ==> 0 <= #[trigger] order[i] < n
    &&& forall|i: int, j: int| #![trigger order[i], order[j]] 0 <= i < j < n ==> order[i] != order[j]
}

/// Where the rows of an arrangement stood before, rows with the same ordering values in the same order.
pub open spec fn rearranged(rows: Seq<Ranking>, done: Seq<Ranking>, order: Seq<int>) -> bool {
    &&& permutation(order, done.len() as int)
    &&& done.len() <= rows.len()
    &&& forall|i: int| 0 <= i < done.len() ==> #[trigger] done[i] == rows[order[i]]
    &&& forall|i: int, j: int|
        #![trigger done[i], done[j]]
        0 <= i < j < done.len() && done[i].1 == done[j].1 ==> order[i] < order[j]
}

proof fn row_finds_its_place(order_by: Json, rows: Seq<Ranking>, done: Seq<Ranking>, order: Seq<int>)
    requires
        done.len() < rows.len(),
        rearranged(rows, done, order),
        in_order(order_by, done),
    ensures
        rearranged(
            rows,
            done.insert(slot_from(order_by, done, 0, rows[done.len() as int].1), rows[done.len() as int]),
            order.insert(slot_from(order_by, done, 0, rows[done.len() as int].1), done.len() as int),
        ),
{
    let from = done.len() as int;
    let row = rows[from];
    let slot = slot_from(order_by, done, 0, row.1);
    slot_is_first(order_by, done, 0, row.1);
    let next = done.insert(slot, row);
    let places = order.insert(slot, from);
    assert forall|i: int| 0 <= i < next.len() implies #[trigger] next[i] == rows[places[i]] by {
        if i < slot {
            assert(next[i] == done[i] && places[i] == order[i]);
        } else if i > slot {
            assert(next[i] == done[i - 1] && places[i] == order[i - 1]);
        }
    }
    assert forall|i: int| 0 <= i < next.len() implies 0 <= #[trigger] places[i] < next.len() by {
        if i < slot {
            assert(places[i] == order[i]);
        } else if i > slot {
            assert(places[i] == order[i - 1]);
        }
    }
    assert forall|i: int, j: int| #![trigger places[i], places[j]] 0 <= i < j < next.len() implies places[i]
        != places[j] by {
        let a = if i < slot {
            i
        } else {
            i - 1
        };
        let b = if j < slot {
            j
        } else {
            j - 1
        };
        if i == slot {
            assert(places[j] == order[b]);
        } else if j == slot {
            assert(places[i] == order[a]);
        } else {
            assert(places[i] == order[a] && places[j] == order[b]);
        }
    }
    assert forall|i: int, j: int|
        #![trigger next[i], next[j]]
        0 <= i < j < next.len() && next[i].1 == next[j].1 implies places[i] < places[j] by {
        let a = if i < slot {
            i
        } else {
            i - 1
        };
        let b = if j < slot {
            j
        } else {
            j - 1
        };
        if i == slot {
            assert(next[j] == done[b]);
            rank_flips(order_by, 0, row.1, row.1);
            if b > slot {
                assert(rank_from(order_by, 0, done[b].1, done[slot].1) !is Less);
            }
            assert(false);
        } else if j == slot {
            assert(next[i] == done[a] && places[i] == order[a]);
        } else {
            assert(next[i] == done[a] && next[j] == done[b]);
            assert(places[i] == order[a] && places[j] == order[b]);
        }
    }
}

proof fn arranging_places(order_by: Json, rows: Seq<Ranking>, from: int, done: Seq<Ranking>, order: Seq<int>) -> (all:
    Seq<int>)
    requires
        0 <= from <= rows.len(),
        from == done.len(),
        rearranged(rows, done, order),
        rankable(items(order_by).len() as int, rows),
        in_order(order_by, done),
    ensures
        rearranged(rows, arranged_from(order_by, rows, from, done), all),
        arranged_from(order_by, rows, from, done).len() == rows.len(),
    decreases rows.len() - from,
{
    if from < rows.len() {
        let columns = items(order_by).len() as int;
        let row = rows[from];
        let slot = slot_from(order_by, done, 0, row.1);
        let pushed = done.push(row);
        assert forall|i: int, j: int|
            #![trigger pushed[i], pushed[j]]
            0 <= i < pushed.len() && 0 <= j < pushed.len() && i != j implies rows_rank(
            columns,
            pushed[i].1,
            pushed[j].1,
        ) by {
            let a = if i < done.len() {
                order[i]
            } else {
                from
            };
            let b = if j < done.len() {
                order[j]
            } else {
                from
            };
            if i < done.len() {
                assert(done[i] == rows[order[i]]);
            }
            if j < done.len() {
                assert(done[j] == rows[order[j]]);
            }
            assert(pushed[i] == rows[a] && pushed[j] == rows[b]);
            if i < j && j < done.len() {
                assert(order[i] != order[j]);
            }
            if j < i && i < done.len() {
                assert(order[j] != order[i]);
            }
            assert(a != b);
        }
        insert_keeps_order(order_by, done, row);
        row_finds_its_place(order_by, rows, done, order);
        slot_is_first(order_by, done, 0, row.1);
        arranging_places(order_by, rows, from + 1, done.insert(slot, row), order.insert(slot, from))
    } else {
        order
    }
}

/// The rows of an ordered result are those before, each once, those with the same ordering values in the
/// order in which they were, and none before one that ranks before it.
pub proof fn arranged_rows_have_places(order_by: Json, rows: Seq<Ranking>) -> (order: Seq<int>)
    requires
        all_comparable_from(rows, items(order_by).len() as int, 0) is Ok,
    ensures
        rearranged(rows, arranged_from(order_by, rows, 0, Seq::empty()), order),
        arranged_from(order_by, rows, 0, Seq::empty()).len() == rows.len(),
        in_order(order_by, arranged_from(order_by, rows, 0, Seq::empty())),
{
    results_are_in_order(order_by, rows);
    let columns = items(order_by).len() as int;
    columns_compare(rows, columns, 0);
    assert forall|i: int, j: int|
        #![trigger rows[i], rows[j]]
        0 <= i < rows.len() && 0 <= j < rows.len() && i != j implies rows_rank(columns, rows[i].1, rows[j].1) by {
        assert forall|c: int| 0 <= c < columns implies ranks_with(
            #[trigger] value_at(rows[i].1, c),
            value_at(rows[j].1, c),
        ) by {
            if i < j {
                assert(ranks_with(value_at(rows[i].1, c), value_at(rows[j].1, c)));
            } else {
                assert(ranks_with(value_at(rows[j].1, c), value_at(rows[i].1, c)));
                comparison_flips(value_at(rows[j].1, c), value_at(rows[i].1, c));
            }
        }
    }
    arranging_places(order_by, rows, 0, Seq::empty(), Seq::empty())
}

} // verus!
