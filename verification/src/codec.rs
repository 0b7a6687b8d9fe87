//! Reading what was written gives it back.

use vstd::prelude::*;
use crate::ast::json_of;
use crate::catalog::{
    AuthContext, AuthModel, Column, ColumnModel, Database, DatabaseModel, ForeignKey, ForeignKeyModel,
    FunctionModel, FunctionParameter, FunctionReturn, Identity, ParameterModel, Policy, PolicyModel,
    ReferentialAction, ReturnModel, Row, RowModel, SqlFunction, Table, TableModel,
};
use crate::decode::{
    database_read, present, read_exprs_from, read_expr_of, read_keys_from, read_list_from, read_map_from,
    read_names_from, read_rows_from, read_rows_of, read_action_of, Decode,
};
use crate::encode::{
    action_layout, cell_layout, database_text, exprs_layout, key_set_layout, name_set_layout, rows_layout, Encode,
};
use crate::json::{Datum, Json};
use crate::layout::{fields_value, layout_text, layout_value, list_value, LayoutModel};
use crate::ordmap::{
    get, get_after_put, get_at, get_from, has_key, place_from, place_from_range, put, put_keeps_order, sorted,
    spot_from, spot_from_range, OrdMap, Ranked,
};
use crate::text::{decimal, digits_value, is_digit, parsed_u64};
use crate::value::child;
use crate::views::ViewModel;

verus! {

// ---------------------------------------------------------------------------------------------
// Layouts as values
// ---------------------------------------------------------------------------------------------

proof fn list_value_at(list: Seq<LayoutModel>)
    ensures
        list_value(list).len() == list.len(),
        forall|i: int| 0 <= i < list.len() ==> #[trigger] list_value(list)[i] == layout_value(list[i]),
    decreases list.len(),
{
    if list.len() > 0 {
        list_value_at(list.drop_last());
    }
}

/// Whether the names of fields differ.
pub open spec fn distinct(fields: Seq<(Seq<char>, LayoutModel)>) -> bool {
    forall|i: int, j: int|
        #![trigger fields[i], fields[j]]
        0 <= i < j < fields.len() ==> fields[i].0 != fields[j].0
}

proof fn fields_value_order(fields: Seq<(Seq<char>, LayoutModel)>)
    ensures
        sorted(fields_value(fields)),
    decreases fields.len(),
{
    if fields.len() > 0 {
        fields_value_order(fields.drop_last());
        put_keeps_order(
            fields_value(fields.drop_last()),
            fields.last().0,
            layout_value(fields.last().1),
        );
    }
}

proof fn field_value(fields: Seq<(Seq<char>, LayoutModel)>, i: int)
    requires
        distinct(fields),
        0 <= i < fields.len(),
    ensures
        get(fields_value(fields), fields[i].0) == Some(layout_value(fields[i].1)),
    decreases fields.len(),
{
    let less = fields.drop_last();
    fields_value_order(less);
    get_after_put(fields_value(less), fields.last().0, layout_value(fields.last().1), fields[i].0);
    if i < fields.len() - 1 {
        assert(fields[i].0 != fields[fields.len() - 1].0);
        assert forall|a: int, b: int|
            #![trigger less[a], less[b]]
            0 <= a < b < less.len() implies less[a].0 != less[b].0 by {
            assert(fields[a].0 != fields[b].0);
        }
        field_value(less, i);
    }
}

/// A field of an object that was written is there, and has the value that was written.
pub proof fn field_read(fields: Seq<(Seq<char>, LayoutModel)>, i: int)
    requires
        distinct(fields),
        0 <= i < fields.len(),
    ensures
        child(layout_value(LayoutModel::Fields(fields)), fields[i].0) == layout_value(fields[i].1),
        present(layout_value(LayoutModel::Fields(fields)), fields[i].0),
{
    field_value(fields, i);
}

/// A key after all others is put at the end.
proof fn put_last<K: Ranked, V>(entries: Seq<(K, V)>, key: K, value: V)
    requires
        sorted(entries),
        forall|i: int| 0 <= i < entries.len() ==> (#[trigger] entries[i]).0.before(key),
    ensures
        put(entries, key, value) == entries.push((key, value)),
{
    place_from_range(entries, key, 0);
    let place = place_from(entries, key, 0);
    if place < entries.len() {
        assert(entries[place].0.before(key));
    }
    assert(entries.insert(entries.len() as int, (key, value)) =~= entries.push((key, value)));
}

/// Fields in the order of their names are written in that order.
proof fn ordered_fields(fields: Seq<(Seq<char>, LayoutModel)>)
    requires
        sorted(fields),
    ensures
        fields_value(fields) == Seq::new(fields.len(), |i: int| (fields[i].0, layout_value(fields[i].1))),
    decreases fields.len(),
{
    let goal = Seq::new(fields.len(), |i: int| (fields[i].0, layout_value(fields[i].1)));
    if fields.len() > 0 {
        let less = fields.drop_last();
        assert forall|a: int, b: int|
            #![trigger less[a], less[b]]
            0 <= a < b < less.len() implies less[a].0.before(less[b].0) by {
            assert(fields[a].0.before(fields[b].0));
        }
        ordered_fields(less);
        fields_value_order(less);
        let entries = fields_value(less);
        assert forall|i: int| 0 <= i < entries.len() implies (#[trigger] entries[i]).0.before(fields.last().0) by {
            assert(fields[i].0.before(fields[fields.len() - 1].0));
        }
        put_last(entries, fields.last().0, layout_value(fields.last().1));
    }
    assert(fields_value(fields) =~= goal);
}

/// The first entries of a sorted list with one more put in.
proof fn put_next<K: Ranked, V>(entries: Seq<(K, V)>, from: int)
    requires
        sorted(entries),
        0 <= from < entries.len(),
    ensures
        put(entries.take(from), entries[from].0, entries[from].1) == entries.take(from + 1),
{
    let done = entries.take(from);
    assert forall|i: int, j: int|
        #![trigger done[i], done[j]]
        0 <= i < j < done.len() implies done[i].0.before(done[j].0) by {
        assert(entries[i].0.before(entries[j].0));
    }
    assert forall|i: int| 0 <= i < done.len() implies (#[trigger] done[i]).0.before(entries[from].0) by {
        assert(entries[i].0.before(entries[from].0));
    }
    put_last(done, entries[from].0, entries[from].1);
    assert(done.push(entries[from]) =~= entries.take(from + 1));
}

/// Two sorted lists in which every lookup agrees are the same.
pub proof fn lookups_decide<K: Ranked, V>(a: Seq<(K, V)>, b: Seq<(K, V)>)
    requires
        sorted(a),
        sorted(b),
        forall|key: K| #[trigger] get(a, key) == get(b, key),
    ensures
        a == b,
    decreases a.len(),
{
    if a.len() == 0 {
        if b.len() > 0 {
            get_at(b, 0);
            assert(get(a, b[0].0) == get(b, b[0].0));
        }
        assert(a =~= b);
    } else {
        get_at(a, 0);
        assert(get(b, a[0].0) == Some(a[0].1));
        spot_from_range(b, a[0].0, 0);
        let spot = spot_from(b, a[0].0, 0);
        if spot > 0 {
            assert(b[0].0.before(b[spot].0));
            get_at(b, 0);
            assert(get(a, b[0].0) == get(b, b[0].0));
            spot_from_range(a, b[0].0, 0);
            let other = spot_from(a, b[0].0, 0);
            if other > 0 {
                assert(a[0].0.before(a[other].0));
                K::transitive(a[0].0, b[0].0, a[0].0);
            }
            K::irreflexive(a[0].0);
        }
        let x = a.skip(1);
        let y = b.skip(1);
        assert forall|i: int, j: int| #![trigger x[i], x[j]] 0 <= i < j < x.len() implies x[i].0.before(
            x[j].0,
        ) by {
            assert(a[i + 1].0.before(a[j + 1].0));
        }
        assert forall|i: int, j: int| #![trigger y[i], y[j]] 0 <= i < j < y.len() implies y[i].0.before(
            y[j].0,
        ) by {
            assert(b[i + 1].0.before(b[j + 1].0));
        }
        assert forall|key: K| #[trigger] get(x, key) == get(y, key) by {
            get_after_first(a, key);
            get_after_first(b, key);
            assert(get(a, key) == get(b, key));
        }
        lookups_decide(x, y);
        assert(a =~= seq![a[0]] + x);
        assert(b =~= seq![b[0]] + y);
    }
}

proof fn get_shift<K, V>(entries: Seq<(K, V)>, key: K, from: int)
    requires
        entries.len() > 0,
        0 <= from <= entries.len() - 1,
    ensures
        get_from(entries.skip(1), key, from) == get_from(entries, key, from + 1),
    decreases entries.len() - from,
{
    if from < entries.len() - 1 {
        get_shift(entries, key, from + 1);
    }
}

proof fn get_after_first<K: Ranked, V>(entries: Seq<(K, V)>, key: K)
    requires
        sorted(entries),
        entries.len() > 0,
    ensures
        get(entries.skip(1), key) == (if key == entries[0].0 {
            None
        } else {
            get(entries, key)
        }),
{
    get_shift(entries, key, 0);
    if key == entries[0].0 {
        let rest = entries.skip(1);
        assert forall|i: int| 0 <= i < rest.len() implies (#[trigger] rest[i]).0 != key by {
            assert(entries[0].0.before(entries[i + 1].0));
            K::irreflexive(key);
        }
        crate::ordmap::get_absent(rest, key);
    }
}

// ---------------------------------------------------------------------------------------------
// Types that read back
// ---------------------------------------------------------------------------------------------

/// Types whose layout reads back.
pub trait Codec: Encode + Decode {
    /// Whether a value has its canonical form: maps in the order of their keys, and syntax trees as the
    /// parser serializes them.
    spec fn canonical(value: <Self as DeepView>::V) -> bool;

    /// The JSON that is written of a canonical value reads as that value.
    proof fn reads_back(value: <Self as DeepView>::V)
        requires
            Self::canonical(value),
        ensures
            Self::read_of(layout_value(Self::layout_of(value))) == Some(value),
    ;
}

impl Codec for u64 {
    open spec fn canonical(value: u64) -> bool {
        true
    }

    proof fn reads_back(value: u64) {
    }
}

impl Codec for bool {
    open spec fn canonical(value: bool) -> bool {
        true
    }

    proof fn reads_back(value: bool) {
    }
}

impl Codec for String {
    open spec fn canonical(value: Seq<char>) -> bool {
        true
    }

    proof fn reads_back(value: Seq<char>) {
    }
}

impl Codec for Datum {
    open spec fn canonical(value: Json) -> bool {
        true
    }

    proof fn reads_back(value: Json) {
    }
}

proof fn list_reads_back<T: Codec>(value: Seq<<T as DeepView>::V>, from: int)
    requires
        forall|i: int| 0 <= i < value.len() ==> T::canonical(#[trigger] value[i]),
        0 <= from <= value.len(),
    ensures
        ({
            let list = list_value(Seq::new(value.len(), |i: int| T::layout_of(value[i])));
            read_list_from::<T>(list, from, value.take(from)) == Some(value)
        }),
    decreases value.len() - from,
{
    let layouts = Seq::new(value.len(), |i: int| T::layout_of(value[i]));
    let list = list_value(layouts);
    list_value_at(layouts);
    if from < value.len() {
        assert(list[from] == layout_value(layouts[from]));
        T::reads_back(value[from]);
        assert(value.take(from).push(value[from]) =~= value.take(from + 1));
        list_reads_back::<T>(value, from + 1);
    } else {
        assert(value.take(from) =~= value);
    }
}

impl<T: Codec> Codec for Vec<T> {
    open spec fn canonical(value: Seq<<T as DeepView>::V>) -> bool {
        forall|i: int| 0 <= i < value.len() ==> T::canonical(#[trigger] value[i])
    }

    proof fn reads_back(value: Seq<<T as DeepView>::V>) {
        list_reads_back::<T>(value, 0);
        assert(value.take(0) =~= Seq::empty());
    }
}

proof fn map_reads_back<T: Codec>(value: Seq<(Seq<char>, <T as DeepView>::V)>, from: int)
    requires
        sorted(value),
        forall|i: int| 0 <= i < value.len() ==> T::canonical((#[trigger] value[i]).1),
        0 <= from <= value.len(),
    ensures
        ({
            let entries = Seq::new(value.len(), |i: int| (value[i].0, layout_value(T::layout_of(value[i].1))));
            read_map_from::<T>(entries, from, value.take(from)) == Some(value)
        }),
    decreases value.len() - from,
{
    if from < value.len() {
        T::reads_back(value[from].1);
        put_next(value, from);
        map_reads_back::<T>(value, from + 1);
    } else {
        assert(value.take(from) =~= value);
    }
}

impl<T: Codec> Codec for OrdMap<String, T> {
    open spec fn canonical(value: Seq<(Seq<char>, <T as DeepView>::V)>) -> bool {
        sorted(value) && (forall|i: int| 0 <= i < value.len() ==> T::canonical((#[trigger] value[i]).1))
    }

    proof fn reads_back(value: Seq<(Seq<char>, <T as DeepView>::V)>) {
        let fields = Seq::new(value.len(), |i: int| (value[i].0, T::layout_of(value[i].1)));
        assert forall|i: int, j: int|
            #![trigger fields[i], fields[j]]
            0 <= i < j < fields.len() implies fields[i].0.before(fields[j].0) by {
            assert(value[i].0.before(value[j].0));
        }
        ordered_fields(fields);
        let entries = Seq::new(value.len(), |i: int| (value[i].0, layout_value(T::layout_of(value[i].1))));
        assert(fields_value(fields) =~= entries);
        map_reads_back::<T>(value, 0);
        assert(value.take(0) =~= Seq::empty());
    }
}

impl<T: Codec> Codec for Option<T> {
    open spec fn canonical(value: Option<<T as DeepView>::V>) -> bool {
        match value {
            Some(inner) => T::canonical(inner) && !(layout_value(T::layout_of(inner)) is Null),
            None => true,
        }
    }

    proof fn reads_back(value: Option<<T as DeepView>::V>) {
        if value is Some {
            T::reads_back(value->Some_0);
        }
    }
}

impl<A: Codec, B: Codec> Codec for (A, B) {
    open spec fn canonical(value: (<A as DeepView>::V, <B as DeepView>::V)) -> bool {
        A::canonical(value.0) && B::canonical(value.1)
    }

    proof fn reads_back(value: (<A as DeepView>::V, <B as DeepView>::V)) {
        A::reads_back(value.0);
        B::reads_back(value.1);
        list_value_at(seq![A::layout_of(value.0), B::layout_of(value.1)]);
    }
}

/// Whether an expression is in the form in which it is serialized.
pub open spec fn canonical_expr(expr: Option<Json>) -> bool {
    match expr {
        Some(tree) => read_expr_of(tree) == Some(tree) && !(tree is Null),
        None => true,
    }
}

/// Whether expressions are in the form in which they are serialized.
pub open spec fn canonical_exprs(exprs: Seq<Json>) -> bool {
    forall|i: int| 0 <= i < exprs.len() ==> read_expr_of(#[trigger] exprs[i]) == Some(exprs[i])
}

proof fn exprs_read_back(exprs: Seq<Json>, from: int)
    requires
        canonical_exprs(exprs),
        0 <= from <= exprs.len(),
    ensures
        read_exprs_from(list_value(exprs_layout(exprs)->List_0), from, exprs.take(from)) == Some(exprs),
    decreases exprs.len() - from,
{
    let layouts = exprs_layout(exprs)->List_0;
    list_value_at(layouts);
    if from < exprs.len() {
        assert(list_value(layouts)[from] == layout_value(layouts[from]));
        assert(exprs.take(from).push(exprs[from]) =~= exprs.take(from + 1));
        exprs_read_back(exprs, from + 1);
    } else {
        assert(exprs.take(from) =~= exprs);
    }
}

proof fn names_read_back(set: Seq<(Seq<char>, ())>, from: int)
    requires
        sorted(set),
        0 <= from <= set.len(),
    ensures
        read_names_from(list_value(name_set_layout(set)->List_0), from, set.take(from)) == Some(set),
    decreases set.len() - from,
{
    let layouts = name_set_layout(set)->List_0;
    list_value_at(layouts);
    if from < set.len() {
        assert(list_value(layouts)[from] == layout_value(layouts[from]));
        put_next(set, from);
        names_read_back(set, from + 1);
    } else {
        assert(set.take(from) =~= set);
    }
}

proof fn keys_read_back(set: Seq<(Seq<Seq<char>>, ())>, from: int)
    requires
        sorted(set),
        0 <= from <= set.len(),
    ensures
        read_keys_from(list_value(key_set_layout(set)->List_0), from, set.take(from)) == Some(set),
    decreases set.len() - from,
{
    let layouts = key_set_layout(set)->List_0;
    list_value_at(layouts);
    if from < set.len() {
        assert(list_value(layouts)[from] == layout_value(layouts[from]));
        <Vec<String>>::reads_back(set[from].0);
        put_next(set, from);
        keys_read_back(set, from + 1);
    } else {
        assert(set.take(from) =~= set);
    }
}

proof fn action_reads_back(action: Option<ReferentialAction>)
    ensures
        read_action_of(layout_value(action_layout(action))) == Some(action),
{
    reveal_strlit("Restrict");
    assert("Restrict"@.len() == 8);
    reveal_strlit("Cascade");
    assert("Cascade"@.len() == 7);
    reveal_strlit("SetNull");
    assert("SetNull"@.len() == 7);
    reveal_strlit("NoAction");
    assert("NoAction"@.len() == 8);
    reveal_strlit("SetDefault");
    assert("SetDefault"@.len() == 10);
    assert("Restrict"@[0] == 'R');
    assert("NoAction"@[0] == 'N');
    assert("Cascade"@[0] == 'C');
    assert("SetNull"@[0] == 'S');
}

// ---------------------------------------------------------------------------------------------
// Decimal identities
// ---------------------------------------------------------------------------------------------

/// The digits of a number write that number.
proof fn decimal_value(n: nat)
    ensures
        decimal(n).len() > 0,
        forall|i: int| 0 <= i < decimal(n).len() ==> is_digit(#[trigger] decimal(n)[i]),
        digits_value(decimal(n)) == n,
    decreases n,
{
    if n < 10 {
        let digits = decimal(n);
        assert(digits.drop_last() =~= Seq::<char>::empty());
        assert(digits_value(digits.drop_last()) == 0);
    } else {
        decimal_value(n / 10);
        let digits = decimal(n);
        assert(digits.drop_last() =~= decimal(n / 10));
    }
}

/// The decimal text of a 64-bit number reads as that number.
pub proof fn decimal_reads_back(n: u64)
    ensures
        parsed_u64(decimal(n as nat)) == Some(n),
{
    decimal_value(n as nat);
    assert(is_digit(decimal(n as nat)[0]));
}

proof fn decimals_differ(a: u64, b: u64)
    ensures
        decimal(a as nat) == decimal(b as nat) ==> a == b,
{
    decimal_reads_back(a);
    decimal_reads_back(b);
}

/// The rows of a table in their canonical form.
pub open spec fn canonical_rows(rows: Seq<(u64, RowModel)>) -> bool {
    sorted(rows) && (forall|i: int| 0 <= i < rows.len() ==> Row::canonical((#[trigger] rows[i]).1))
}

/// The row that an entry under a decimal text stands for.
pub open spec fn entry_row(entries: Seq<(Seq<char>, Json)>, wanted: u64) -> Option<RowModel> {
    match get(entries, decimal(wanted as nat)) {
        Some(value) => Row::read_of(value),
        None => None,
    }
}

/// Whether every entry is a row under the decimal text of its identity.
pub open spec fn entries_are_rows(entries: Seq<(Seq<char>, Json)>) -> bool {
    forall|i: int|
        0 <= i < entries.len() ==> parsed_u64((#[trigger] entries[i]).0) is Some && entries[i].0 == decimal(
            parsed_u64(entries[i].0)->Some_0 as nat,
        ) && Row::read_of(entries[i].1) is Some
}

proof fn rows_read(entries: Seq<(Seq<char>, Json)>, from: int, done: Seq<(u64, RowModel)>) -> (rows: Seq<
    (u64, RowModel),
>)
    requires
        sorted(entries),
        entries_are_rows(entries),
        0 <= from <= entries.len(),
        sorted(done),
        forall|wanted: u64|
            #[trigger] get(done, wanted) == entry_row(entries.take(from), wanted),
    ensures
        read_rows_from(entries, from, done) == Some(rows),
        sorted(rows),
        forall|wanted: u64| #[trigger] get(rows, wanted) == entry_row(entries, wanted),
    decreases entries.len() - from,
{
    if from >= entries.len() {
        assert(entries.take(from) =~= entries);
        done
    } else {
        let id = parsed_u64(entries[from].0)->Some_0;
        let row = Row::read_of(entries[from].1)->Some_0;
        let next = put(done, id, row);
        put_keeps_order(done, id, row);
        let more = entries.take(from + 1);
        assert forall|a: int, b: int| #![trigger more[a], more[b]] 0 <= a < b < more.len() implies more[a].0.before(
            more[b].0,
        ) by {
            assert(entries[a].0.before(entries[b].0));
        }
        put_next(entries, from);
        let less = entries.take(from);
        assert forall|a: int, b: int| #![trigger less[a], less[b]] 0 <= a < b < less.len() implies less[a].0.before(
            less[b].0,
        ) by {
            assert(entries[a].0.before(entries[b].0));
        }
        assert forall|wanted: u64| #[trigger] get(next, wanted) == entry_row(more, wanted) by {
            get_after_put(done, id, row, wanted);
            get_after_put(less, entries[from].0, entries[from].1, decimal(wanted as nat));
            decimals_differ(id, wanted);
            assert(get(done, wanted) == entry_row(less, wanted));
        }
        rows_read(entries, from + 1, next)
    }
}

proof fn fields_value_keys(fields: Seq<(Seq<char>, LayoutModel)>, i: int) -> (j: int)
    requires
        0 <= i < fields_value(fields).len(),
    ensures
        0 <= j < fields.len(),
        fields_value(fields)[i].0 == fields[j].0,
        distinct(fields) ==> fields_value(fields)[i].1 == layout_value(fields[j].1),
    decreases fields.len(),
{
    let less = fields.drop_last();
    let entries = fields_value(less);
    let key = fields.last().0;
    place_from_range(entries, key, 0);
    let place = place_from(entries, key, 0);
    fields_value_order(fields);
    if i == place {
        fields.len() - 1
    } else {
        let replaced = place < entries.len() && entries[place].0 == key;
        let source = if replaced || i < place {
            i
        } else {
            i - 1
        };
        assert(fields_value(fields)[i] == entries[source]);
        if distinct(fields) {
            assert forall|a: int, b: int|
                #![trigger less[a], less[b]]
                0 <= a < b < less.len() implies less[a].0 != less[b].0 by {
                assert(fields[a].0 != fields[b].0);
            }
        }
        fields_value_keys(less, source)
    }
}

proof fn rows_read_back(rows: Seq<(u64, RowModel)>)
    requires
        canonical_rows(rows),
    ensures
        read_rows_of(layout_value(rows_layout(rows))) == Some(rows),
{
    let fields = rows_layout(rows)->Fields_0;
    let entries = fields_value(fields);
    assert forall|a: int, b: int| #![trigger fields[a], fields[b]] 0 <= a < b < fields.len() implies fields[a].0
        != fields[b].0 by {
        assert(rows[a].0 < rows[b].0);
        decimals_differ(rows[a].0, rows[b].0);
    }
    fields_value_order(fields);
    assert forall|i: int| 0 <= i < entries.len() implies parsed_u64((#[trigger] entries[i]).0) is Some
        && entries[i].0 == decimal(parsed_u64(entries[i].0)->Some_0 as nat) && Row::read_of(entries[i].1) is Some by {
        let j = fields_value_keys(fields, i);
        decimal_reads_back(rows[j].0);
        Row::reads_back(rows[j].1);
    }
    let none = Seq::<(u64, RowModel)>::empty();
    assert(entries.take(0) =~= Seq::<(Seq<char>, Json)>::empty());
    assert forall|wanted: u64| #[trigger] get(none, wanted) == entry_row(entries.take(0), wanted) by {
        assert(get(entries.take(0), decimal(wanted as nat)) is None);
    }
    let read = rows_read(entries, 0, none);
    assert forall|wanted: u64| #[trigger] get(read, wanted) == get(rows, wanted) by {
        spot_from_range(rows, wanted, 0);
        let spot = spot_from(rows, wanted, 0);
        if spot < rows.len() {
            field_value(fields, spot);
            Row::reads_back(rows[spot].1);
        } else {
            if has_key(entries, decimal(wanted as nat)) {
                spot_from_range(entries, decimal(wanted as nat), 0);
                let at = spot_from(entries, decimal(wanted as nat), 0);
                let j = fields_value_keys(fields, at);
                decimals_differ(rows[j].0, wanted);
            }
        }
    }
    lookups_decide(read, rows);
}

// ---------------------------------------------------------------------------------------------
// Parts of a state
// ---------------------------------------------------------------------------------------------

impl Codec for FunctionReturn {
    open spec fn canonical(value: ReturnModel) -> bool {
        true
    }

    proof fn reads_back(value: ReturnModel) {
        reveal_strlit("Scalar");
        assert("Scalar"@.len() == 6);
        reveal_strlit("SetOf");
        assert("SetOf"@.len() == 5);
        reveal_strlit("Table");
        assert("Table"@.len() == 5);
        reveal_strlit("Void");
        assert("Void"@.len() == 4);
        assert("SetOf"@[0] == 'S');
        assert("Table"@[0] == 'T');
        match value {
            ReturnModel::Void => {},
            _ => {
                let fields = FunctionReturn::layout_of(value)->Fields_0;
                assert(fields.len() == 1);
                ordered_fields(fields);
                if value is Table {
                    <Vec<(String, String)>>::reads_back(value->Table_0);
                }
            },
        }
    }
}

impl Codec for Identity {
    open spec fn canonical(value: Identity) -> bool {
        true
    }

    proof fn reads_back(value: Identity) {
        let fields = Identity::layout_of(value)->Fields_0;
        reveal_strlit("always");
        assert("always"@.len() == 6);
        reveal_strlit("start");
        assert("start"@.len() == 5);
        reveal_strlit("increment");
        assert("increment"@.len() == 9);
        assert(distinct(fields));
        field_read(fields, 0);
        field_read(fields, 1);
        field_read(fields, 2);
    }
}

impl Codec for AuthContext {
    open spec fn canonical(value: AuthModel) -> bool {
        true
    }

    proof fn reads_back(value: AuthModel) {
        let fields = AuthContext::layout_of(value)->Fields_0;
        reveal_strlit("role");
        assert("role"@.len() == 4);
        reveal_strlit("uid");
        assert("uid"@.len() == 3);
        reveal_strlit("jwt_claims");
        assert("jwt_claims"@.len() == 10);
        reveal_strlit("privileged");
        assert("privileged"@.len() == 10);
        assert("jwt_claims"@[0] == 'j');
        assert("privileged"@[0] == 'p');
        assert(distinct(fields));
        field_read(fields, 0);
        field_read(fields, 1);
        field_read(fields, 2);
        field_read(fields, 3);
        <Option<String>>::reads_back(value.uid);
    }
}

impl Codec for Column {
    open spec fn canonical(value: ColumnModel) -> bool {
        &&& canonical_expr(value.default)
        &&& <Option<Identity>>::canonical(value.identity)
        &&& canonical_expr(value.generated)
    }

    proof fn reads_back(value: ColumnModel) {
        let fields = Column::layout_of(value)->Fields_0;
        reveal_strlit("id");
        assert("id"@.len() == 2);
        reveal_strlit("name");
        assert("name"@.len() == 4);
        reveal_strlit("data_type");
        assert("data_type"@.len() == 9);
        reveal_strlit("nullable");
        assert("nullable"@.len() == 8);
        reveal_strlit("default");
        assert("default"@.len() == 7);
        reveal_strlit("identity");
        assert("identity"@.len() == 8);
        reveal_strlit("generated");
        assert("generated"@.len() == 9);
        assert("data_type"@[0] == 'd');
        assert("generated"@[0] == 'g');
        assert("nullable"@[0] == 'n');
        assert("identity"@[0] == 'i');
        assert(distinct(fields));
        field_read(fields, 0);
        field_read(fields, 1);
        field_read(fields, 2);
        field_read(fields, 3);
        field_read(fields, 4);
        field_read(fields, 5);
        field_read(fields, 6);
        <Option<Identity>>::reads_back(value.identity);
    }
}

impl Codec for Row {
    open spec fn canonical(value: RowModel) -> bool {
        <OrdMap<String, Datum>>::canonical(value.values)
    }

    proof fn reads_back(value: RowModel) {
        let fields = Row::layout_of(value)->Fields_0;
        reveal_strlit("id");
        assert("id"@.len() == 2);
        reveal_strlit("version");
        assert("version"@.len() == 7);
        reveal_strlit("values");
        assert("values"@.len() == 6);
        assert(distinct(fields));
        field_read(fields, 0);
        field_read(fields, 1);
        field_read(fields, 2);
        <OrdMap<String, Datum>>::reads_back(value.values);
    }
}

impl Codec for ForeignKey {
    open spec fn canonical(value: ForeignKeyModel) -> bool {
        true
    }

    proof fn reads_back(value: ForeignKeyModel) {
        let fields = ForeignKey::layout_of(value)->Fields_0;
        reveal_strlit("columns");
        assert("columns"@.len() == 7);
        reveal_strlit("foreign_table");
        assert("foreign_table"@.len() == 13);
        reveal_strlit("referred_columns");
        assert("referred_columns"@.len() == 16);
        reveal_strlit("on_delete");
        assert("on_delete"@.len() == 9);
        reveal_strlit("on_update");
        assert("on_update"@.len() == 9);
        reveal_strlit("deferred");
        assert("deferred"@.len() == 8);
        assert("on_delete"@[3] == 'd');
        assert("on_update"@[3] == 'u');
        assert(distinct(fields));
        field_read(fields, 0);
        field_read(fields, 1);
        field_read(fields, 2);
        field_read(fields, 3);
        field_read(fields, 4);
        field_read(fields, 5);
        <Vec<String>>::reads_back(value.columns);
        <Vec<String>>::reads_back(value.referred_columns);
        action_reads_back(value.on_delete);
        action_reads_back(value.on_update);
    }
}

impl Codec for Policy {
    open spec fn canonical(value: PolicyModel) -> bool {
        &&& canonical_expr(value.using)
        &&& canonical_expr(value.check)
    }

    proof fn reads_back(value: PolicyModel) {
        let fields = Policy::layout_of(value)->Fields_0;
        reveal_strlit("name");
        assert("name"@.len() == 4);
        reveal_strlit("command");
        assert("command"@.len() == 7);
        reveal_strlit("roles");
        assert("roles"@.len() == 5);
        reveal_strlit("permissive");
        assert("permissive"@.len() == 10);
        reveal_strlit("using");
        assert("using"@.len() == 5);
        reveal_strlit("check");
        assert("check"@.len() == 5);
        assert("roles"@[0] == 'r');
        assert("using"@[0] == 'u');
        assert("check"@[0] == 'c');
        assert(distinct(fields));
        field_read(fields, 0);
        field_read(fields, 1);
        field_read(fields, 2);
        field_read(fields, 3);
        field_read(fields, 4);
        field_read(fields, 5);
        <Vec<String>>::reads_back(value.roles);
    }
}

impl Codec for Table {
    open spec fn canonical(value: TableModel) -> bool {
        &&& <Vec<Column>>::canonical(value.columns)
        &&& sorted(value.deferred_unique)
        &&& <Vec<ForeignKey>>::canonical(value.foreign_keys)
        &&& canonical_exprs(value.checks)
        &&& <Vec<Policy>>::canonical(value.policies)
        &&& canonical_rows(value.rows)
    }

    proof fn reads_back(value: TableModel) {
        let fields = Table::layout_of(value)->Fields_0;
        reveal_strlit("id");
        assert("id"@.len() == 2);
        reveal_strlit("name");
        assert("name"@.len() == 4);
        reveal_strlit("columns");
        assert("columns"@.len() == 7);
        reveal_strlit("primary_key");
        assert("primary_key"@.len() == 11);
        reveal_strlit("unique");
        assert("unique"@.len() == 6);
        reveal_strlit("deferred_unique");
        assert("deferred_unique"@.len() == 15);
        reveal_strlit("foreign_keys");
        assert("foreign_keys"@.len() == 12);
        reveal_strlit("checks");
        assert("checks"@.len() == 6);
        reveal_strlit("rls_enabled");
        assert("rls_enabled"@.len() == 11);
        reveal_strlit("policies");
        assert("policies"@.len() == 8);
        reveal_strlit("rows");
        assert("rows"@.len() == 4);
        reveal_strlit("next_row_id");
        assert("next_row_id"@.len() == 11);
        assert("name"@[0] == 'n');
        assert("rows"@[0] == 'r');
        assert("primary_key"@[0] == 'p');
        assert("rls_enabled"@[0] == 'r');
        assert("next_row_id"@[0] == 'n');
        assert("unique"@[0] == 'u');
        assert("checks"@[0] == 'c');
        assert(distinct(fields));
        field_read(fields, 0);
        field_read(fields, 1);
        field_read(fields, 2);
        field_read(fields, 3);
        field_read(fields, 4);
        field_read(fields, 5);
        field_read(fields, 6);
        field_read(fields, 7);
        field_read(fields, 8);
        field_read(fields, 9);
        field_read(fields, 10);
        field_read(fields, 11);
        <Vec<Column>>::reads_back(value.columns);
        <Vec<String>>::reads_back(value.primary_key);
        <Vec<Vec<String>>>::reads_back(value.unique);
        keys_read_back(value.deferred_unique, 0);
        assert(value.deferred_unique.take(0) =~= Seq::empty());
        <Vec<ForeignKey>>::reads_back(value.foreign_keys);
        exprs_read_back(value.checks, 0);
        assert(value.checks.take(0) =~= Seq::<Json>::empty());
        <Vec<Policy>>::reads_back(value.policies);
        rows_read_back(value.rows);
    }
}

impl Codec for crate::views::View {
    open spec fn canonical(value: ViewModel) -> bool {
        true
    }

    proof fn reads_back(value: ViewModel) {
        let fields = crate::views::View::layout_of(value)->Fields_0;
        reveal_strlit("sql");
        assert("sql"@.len() == 3);
        reveal_strlit("materialized");
        assert("materialized"@.len() == 12);
        assert(distinct(fields));
        field_read(fields, 0);
        field_read(fields, 1);
    }
}

impl Codec for FunctionParameter {
    open spec fn canonical(value: ParameterModel) -> bool {
        canonical_expr(value.default)
    }

    proof fn reads_back(value: ParameterModel) {
        let fields = FunctionParameter::layout_of(value)->Fields_0;
        reveal_strlit("name");
        assert("name"@.len() == 4);
        reveal_strlit("data_type");
        assert("data_type"@.len() == 9);
        reveal_strlit("default");
        assert("default"@.len() == 7);
        assert(distinct(fields));
        field_read(fields, 0);
        field_read(fields, 1);
        field_read(fields, 2);
    }
}

impl Codec for SqlFunction {
    open spec fn canonical(value: FunctionModel) -> bool {
        &&& <Vec<FunctionParameter>>::canonical(value.parameters)
        &&& <Option<AuthContext>>::canonical(value.definer_context)
    }

    proof fn reads_back(value: FunctionModel) {
        let fields = SqlFunction::layout_of(value)->Fields_0;
        reveal_strlit("name");
        assert("name"@.len() == 4);
        reveal_strlit("parameters");
        assert("parameters"@.len() == 10);
        reveal_strlit("return_kind");
        assert("return_kind"@.len() == 11);
        reveal_strlit("body");
        assert("body"@.len() == 4);
        reveal_strlit("security_definer");
        assert("security_definer"@.len() == 16);
        reveal_strlit("definer_context");
        assert("definer_context"@.len() == 15);
        assert("name"@[0] == 'n');
        assert("body"@[0] == 'b');
        assert(distinct(fields));
        field_read(fields, 0);
        field_read(fields, 1);
        field_read(fields, 2);
        field_read(fields, 3);
        field_read(fields, 4);
        field_read(fields, 5);
        <Vec<FunctionParameter>>::reads_back(value.parameters);
        <FunctionReturn>::reads_back(value.return_kind);
        <Option<AuthContext>>::reads_back(value.definer_context);
    }
}

impl Codec for Database {
    open spec fn canonical(value: DatabaseModel) -> bool {
        &&& <OrdMap<String, Table>>::canonical(value.catalog)
        &&& <OrdMap<String, crate::views::View>>::canonical(value.views)
        &&& <OrdMap<String, SqlFunction>>::canonical(value.functions)
        &&& sorted(value.migrations)
    }

    proof fn reads_back(value: DatabaseModel) {
        let fields = Database::layout_of(value)->Fields_0;
        reveal_strlit("catalog");
        assert("catalog"@.len() == 7);
        reveal_strlit("views");
        assert("views"@.len() == 5);
        reveal_strlit("functions");
        assert("functions"@.len() == 9);
        reveal_strlit("migrations");
        assert("migrations"@.len() == 10);
        reveal_strlit("schema_version");
        assert("schema_version"@.len() == 14);
        reveal_strlit("next_object_id");
        assert("next_object_id"@.len() == 14);
        assert("schema_version"@[0] == 's');
        assert("next_object_id"@[0] == 'n');
        assert(distinct(fields));
        field_read(fields, 0);
        field_read(fields, 1);
        field_read(fields, 2);
        field_read(fields, 3);
        field_read(fields, 4);
        field_read(fields, 5);
        <OrdMap<String, Table>>::reads_back(value.catalog);
        <OrdMap<String, crate::views::View>>::reads_back(value.views);
        <OrdMap<String, SqlFunction>>::reads_back(value.functions);
        names_read_back(value.migrations, 0);
        assert(value.migrations.take(0) =~= Seq::empty());
    }
}

// ---------------------------------------------------------------------------------------------
// Texts
// ---------------------------------------------------------------------------------------------

/// Whether the JSON reader takes the text of a layout for the value that it writes. It does where no
/// number is fractional and nothing nests too deep; of a fractional number it may read the next one.
pub open spec fn text_reads(layout: LayoutModel) -> bool {
    json_of(layout_text(layout)) == Ok::<Json, Seq<char>>(layout_value(layout))
}

/// The canonical text of a state reads as that state.
pub proof fn database_reads_back(database: DatabaseModel)
    requires
        Database::canonical(database),
        text_reads(Database::layout_of(database)),
    ensures
        database_read(database_text(database)) == Some(database),
{
    Database::reads_back(database);
}

/// The fields of an envelope of a cell that was written.
pub proof fn cell_layout_reads_back(data_type: Seq<char>, value: Json)
    ensures
        ({
            let envelope = layout_value(cell_layout(data_type, value));
            &&& envelope is Object
            &&& present(envelope, "value"@)
            &&& u64::read_of(child(envelope, "version"@)) == Some(1u64)
            &&& String::read_of(child(envelope, "sql_type"@)) == Some(data_type)
            &&& child(envelope, "value"@) == value
        }),
{
    let fields = cell_layout(data_type, value)->Fields_0;
    reveal_strlit("version");
    assert("version"@.len() == 7);
    reveal_strlit("sql_type");
    assert("sql_type"@.len() == 8);
    reveal_strlit("value");
    assert("value"@.len() == 5);
    assert(distinct(fields));
    field_read(fields, 0);
    field_read(fields, 1);
    field_read(fields, 2);
}

} // verus!
