//! What embedded relations of a request show.

use vstd::prelude::*;
use crate::alterations::{left_over, one_more_remains, remaining};
use crate::answers::put_all_keeps;
use crate::ast::json_text_of;
use crate::catalog::{AuthModel, DatabaseModel, ForeignKeyModel, TableModel};
use crate::embed::{
    aliased, as_text, candidates_from, entries_of, fields_from, hinted, inner_relations_from, linked_from,
    linked_rows_from, partnered_from, partnered_rows_from, path_of, projected, projected_from, referenced_rows,
    related_rows, relation_of, resolved, step_key, walked, walked_from, RelationModel, ResolvedModel,
};
use crate::error::Failure;
use crate::json::Json;
use crate::ordmap::{get, get_after_put, put, put_all, put_keeps_order, sorted};
use crate::postgrest::{split_of, ParamsModel};
use crate::text::{begins, parsed_usize};
use crate::value::{child, same_json};

verus! {

// ---------------------------------------------------------------------------------------------
// Partners
// ---------------------------------------------------------------------------------------------

/// Whether a row with a foreign key refers to another: the cells of the key are those of the columns that
/// it refers to, and none is null.
pub open spec fn refers(row: Json, other: Json, key: ForeignKeyModel) -> bool {
    forall|i: int|
        0 <= i < key.columns.len() && i < key.referred_columns.len() ==> !(child(row, #[trigger] key.columns[i]) is Null)
            && same_json(child(row, key.columns[i]), child(other, key.referred_columns[i]))
}

/// Whether two rows are partners: the one on the side of the foreign key refers to the other.
pub open spec fn partners(row: Json, other: Json, relation: ResolvedModel) -> bool {
    if relation.outgoing {
        refers(row, other, relation.foreign_key)
    } else {
        refers(other, row, relation.foreign_key)
    }
}

proof fn linked_rows_are_partners(row: Json, other: Json, relation: ResolvedModel, from: int)
    requires
        0 <= from,
    ensures
        linked_from(row, other, relation, from) <==> forall|i: int|
            from <= i < relation.foreign_key.columns.len() && i < relation.foreign_key.referred_columns.len() ==> !(child(
                if relation.outgoing {
                    row
                } else {
                    other
                },
                #[trigger] relation.foreign_key.columns[i],
            ) is Null) && same_json(
                child(
                    if relation.outgoing {
                        row
                    } else {
                        other
                    },
                    relation.foreign_key.columns[i],
                ),
                child(
                    if relation.outgoing {
                        other
                    } else {
                        row
                    },
                    relation.foreign_key.referred_columns[i],
                ),
            ),
    decreases relation.foreign_key.columns.len() - from,
{
    let key = relation.foreign_key;
    if from < key.columns.len() && from < key.referred_columns.len() {
        linked_rows_are_partners(row, other, relation, from + 1);
        assert(key.columns[from] == key.columns[from]);
    }
}

proof fn linking(row: Json, others: Seq<Json>, relation: ResolvedModel, from: int, done: Seq<Json>, at: Seq<int>)
    requires
        0 <= from <= others.len(),
        remaining(others, done, |other: Json| !partners(row, other, relation), from, at),
    ensures
        left_over(
            others,
            linked_rows_from(row, others, relation, from, done),
            |other: Json| !partners(row, other, relation),
        ),
    decreases others.len() - from,
{
    let gone = |other: Json| !partners(row, other, relation);
    if from < others.len() {
        linked_rows_are_partners(row, others[from], relation, 0);
        one_more_remains(others, done, gone, from, at);
        if linked_from(row, others[from], relation, 0) {
            linking(row, others, relation, from + 1, done.push(others[from]), at.push(from));
        } else {
            assert(gone(others[from]));
            linking(row, others, relation, from + 1, done, at);
        }
    } else {
        assert(remaining(others, done, gone, others.len() as int, at));
    }
}

/// The rows linked to a row are its partners, all of them and no others, in the order in which they were
/// read.
pub proof fn linked_rows_are_the_partners(row: Json, others: Seq<Json>, relation: ResolvedModel)
    ensures
        left_over(
            others,
            linked_rows_from(row, others, relation, 0, Seq::empty()),
            |other: Json| !partners(row, other, relation),
        ),
{
    linking(row, others, relation, 0, Seq::empty(), Seq::empty());
}

// ---------------------------------------------------------------------------------------------
// The foreign key of a relation
// ---------------------------------------------------------------------------------------------

/// Whether a foreign key can be meant by a relation: it refers to the table, and has the column that the
/// relation names, where it names one.
pub open spec fn meant_by(key: ForeignKeyModel, wanted: Seq<char>, hint: Option<Seq<char>>) -> bool {
    key.foreign_table == wanted && (hint matches Some(word) ==> hinted(key, word))
}

proof fn candidates_are_meant(
    keys: Seq<ForeignKeyModel>,
    wanted: Seq<char>,
    hint: Option<Seq<char>>,
    from: int,
    done: Seq<ForeignKeyModel>,
    at: Seq<int>,
)
    requires
        0 <= from <= keys.len(),
        remaining(keys, done, |key: ForeignKeyModel| !meant_by(key, wanted, hint), from, at),
    ensures
        left_over(
            keys,
            candidates_from(keys, wanted, hint, from, done),
            |key: ForeignKeyModel| !meant_by(key, wanted, hint),
        ),
    decreases keys.len() - from,
{
    let gone = |key: ForeignKeyModel| !meant_by(key, wanted, hint);
    if from < keys.len() {
        one_more_remains(keys, done, gone, from, at);
        if meant_by(keys[from], wanted, hint) {
            candidates_are_meant(keys, wanted, hint, from + 1, done.push(keys[from]), at.push(from));
        } else {
            assert(gone(keys[from]));
            candidates_are_meant(keys, wanted, hint, from + 1, done, at);
        }
    } else {
        assert(remaining(keys, done, gone, keys.len() as int, at));
    }
}

/// Whether a position of a list of foreign keys is the only one that a relation can mean.
pub open spec fn only_meant(keys: Seq<ForeignKeyModel>, wanted: Seq<char>, hint: Option<Seq<char>>, i: int) -> bool {
    &&& 0 <= i < keys.len() && meant_by(keys[i], wanted, hint)
    &&& forall|j: int| 0 <= j < keys.len() && j != i ==> !meant_by(#[trigger] keys[j], wanted, hint)
}

/// Whether a relation can mean no foreign key of a list.
pub open spec fn none_meant(keys: Seq<ForeignKeyModel>, wanted: Seq<char>, hint: Option<Seq<char>>) -> bool {
    forall|j: int| 0 <= j < keys.len() ==> !meant_by(#[trigger] keys[j], wanted, hint)
}

proof fn candidates_count(keys: Seq<ForeignKeyModel>, wanted: Seq<char>, hint: Option<Seq<char>>)
    ensures
        ({
            let found = candidates_from(keys, wanted, hint, 0, Seq::empty());
            &&& found.len() == 0 ==> none_meant(keys, wanted, hint)
            &&& found.len() == 1 ==> exists|i: int| #[trigger] only_meant(keys, wanted, hint, i) && found[0] == keys[i]
        }),
{
    let gone = |key: ForeignKeyModel| !meant_by(key, wanted, hint);
    let found = candidates_from(keys, wanted, hint, 0, Seq::empty());
    candidates_are_meant(keys, wanted, hint, 0, Seq::empty(), Seq::empty());
    let at = choose|at: Seq<int>| #[trigger] remaining(keys, found, gone, keys.len() as int, at);
    assert forall|j: int| 0 <= j < keys.len() && meant_by(#[trigger] keys[j], wanted, hint) implies at.contains(j) by {
        assert(!gone(keys[j]));
    }
    if found.len() == 1 {
        let i = at[0];
        assert(!gone(keys[i]));
        assert forall|j: int| 0 <= j < keys.len() && j != i implies !meant_by(#[trigger] keys[j], wanted, hint) by {
            if meant_by(keys[j], wanted, hint) {
                assert(at.contains(j));
            }
        }
        assert(only_meant(keys, wanted, hint, i));
    }
}

/// A relation is resolved by the one foreign key that it can mean, of the table itself or of the other; it
/// is refused where there is none or more than one.
pub proof fn relations_have_one_foreign_key(database: DatabaseModel, table: TableModel, relation: RelationModel)
    ensures
        resolved(database, table, relation) matches Ok(found) ==> {
            let hint = relation.foreign_key;
            &&& get(database.catalog, relation.target) == Some(found.target)
            &&& if found.outgoing {
                none_meant(found.target.foreign_keys, table.name, hint) && exists|i: int| #[trigger]
                    only_meant(table.foreign_keys, relation.target, hint, i) && found.foreign_key == table.foreign_keys[i]
            } else {
                none_meant(table.foreign_keys, relation.target, hint) && exists|i: int| #[trigger]
                    only_meant(found.target.foreign_keys, table.name, hint, i) && found.foreign_key
                        == found.target.foreign_keys[i]
            }
        },
{
    match resolved(database, table, relation) {
        Err(_) => {},
        Ok(found) => {
            candidates_count(table.foreign_keys, relation.target, relation.foreign_key);
            candidates_count(found.target.foreign_keys, table.name, relation.foreign_key);
        },
    }
}

// ---------------------------------------------------------------------------------------------
// Inner relations
// ---------------------------------------------------------------------------------------------

/// Whether a row has a partner among the rows of a relation.
pub open spec fn has_partner(
    row: Json,
    relation: RelationModel,
    params: ParamsModel,
    database: DatabaseModel,
    table: TableModel,
    caller: AuthModel,
) -> bool {
    &&& resolved(database, table, relation) is Ok
    &&& related_rows(database, resolved(database, table, relation)->Ok_0.target, relation, params, caller) matches Ok(others)
        && some_partner(row, others, resolved(database, table, relation)->Ok_0)
}

/// Whether a row has a partner among others.
pub open spec fn some_partner(row: Json, others: Seq<Json>, found: ResolvedModel) -> bool {
    exists|i: int| 0 <= i < others.len() && partners(row, #[trigger] others[i], found)
}

proof fn partners_are_counted(row: Json, others: Seq<Json>, found: ResolvedModel)
    ensures
        (linked_rows_from(row, others, found, 0, Seq::empty()).len() > 0) == some_partner(row, others, found),
{
    let gone = |other: Json| !partners(row, other, found);
    let linked = linked_rows_from(row, others, found, 0, Seq::empty());
    linked_rows_are_the_partners(row, others, found);
    let at = choose|at: Seq<int>| #[trigger] remaining(others, linked, gone, others.len() as int, at);
    if linked.len() > 0 {
        assert(!gone(others[at[0]]));
        assert(partners(row, others[at[0]], found));
    }
    if some_partner(row, others, found) {
        let i = choose|i: int| 0 <= i < others.len() && partners(row, #[trigger] others[i], found);
        assert(!gone(others[i]));
        assert(at.contains(i));
    }
}

proof fn partnered_rows_have_partners(
    row: Json,
    relations: Seq<RelationModel>,
    params: ParamsModel,
    database: DatabaseModel,
    table: TableModel,
    caller: AuthModel,
    from: int,
)
    requires
        0 <= from,
    ensures
        partnered_from(row, relations, params, database, table, caller, from) matches Ok(all) ==> (all <==> forall|k: int|
            from <= k < relations.len() ==> has_partner(row, #[trigger] relations[k], params, database, table, caller)),
    decreases relations.len() - from,
{
    if from < relations.len() {
        partnered_rows_have_partners(row, relations, params, database, table, caller, from + 1);
        match resolved(database, table, relations[from]) {
            Err(_) => {},
            Ok(found) => match related_rows(database, found.target, relations[from], params, caller) {
                Err(_) => {},
                Ok(others) => {
                    partners_are_counted(row, others, found);
                    assert(has_partner(row, relations[from], params, database, table, caller) == some_partner(
                        row,
                        others,
                        found,
                    ));
                },
            },
        }
    }
}

/// Whether a row lacks a partner in one of some relations.
pub open spec fn lonely(
    row: Json,
    relations: Seq<RelationModel>,
    params: ParamsModel,
    database: DatabaseModel,
    table: TableModel,
    caller: AuthModel,
) -> bool {
    exists|k: int|
        0 <= k < relations.len() && !has_partner(row, #[trigger] relations[k], params, database, table, caller)
}

proof fn partnering(
    rows: Seq<Json>,
    relations: Seq<RelationModel>,
    params: ParamsModel,
    database: DatabaseModel,
    table: TableModel,
    caller: AuthModel,
    from: int,
    done: Seq<Json>,
    at: Seq<int>,
)
    requires
        0 <= from <= rows.len(),
        remaining(rows, done, |row: Json| lonely(row, relations, params, database, table, caller), from, at),
    ensures
        partnered_rows_from(rows, relations, params, database, table, caller, from, done) matches Ok(rest) ==> left_over(
            rows,
            rest,
            |row: Json| lonely(row, relations, params, database, table, caller),
        ),
    decreases rows.len() - from,
{
    let gone = |row: Json| lonely(row, relations, params, database, table, caller);
    if from < rows.len() {
        match partnered_from(rows[from], relations, params, database, table, caller, 0) {
            Err(_) => {},
            Ok(keep) => {
                partnered_rows_have_partners(rows[from], relations, params, database, table, caller, 0);
                assert(keep == !lonely(rows[from], relations, params, database, table, caller));
                one_more_remains(rows, done, gone, from, at);
                if keep {
                    partnering(rows, relations, params, database, table, caller, from + 1, done.push(rows[from]), at.push(from));
                } else {
                    assert(gone(rows[from]));
                    partnering(rows, relations, params, database, table, caller, from + 1, done, at);
                }
            },
        }
    } else {
        assert(remaining(rows, done, gone, rows.len() as int, at));
    }
}

/// Whether a field of a select list is an inner relation.
pub open spec fn inner_field(field: Seq<char>, relation: RelationModel) -> bool {
    relation_of(field) == Ok::<Option<RelationModel>, Failure>(Some(relation)) && relation.inner
}

proof fn inner_fields_are_listed(fields: Seq<Seq<char>>, from: int, done: Seq<RelationModel>, relation: RelationModel)
    requires
        0 <= from,
    ensures
        inner_relations_from(fields, from, done) matches Ok(found) ==> (found.contains(relation) <==> (done.contains(
            relation,
        ) || inner_listed(fields, from, relation))),
    decreases fields.len() - from,
{
    if from < fields.len() {
        match relation_of(fields[from]) {
            Err(_) => {},
            Ok(this) => {
                let next = if this is Some && this->Some_0.inner {
                    done.push(this->Some_0)
                } else {
                    done
                };
                inner_fields_are_listed(fields, from + 1, next, relation);
                if inner_listed(fields, from, relation) {
                    let k = choose|k: int| from <= k < fields.len() && inner_field(#[trigger] fields[k], relation);
                    if k > from {
                        assert(inner_listed(fields, from + 1, relation));
                    } else {
                        assert(next[done.len() as int] == relation);
                    }
                }
                if inner_listed(fields, from + 1, relation) {
                    let k = choose|k: int| from + 1 <= k < fields.len() && inner_field(#[trigger] fields[k], relation);
                    assert(inner_field(fields[k], relation));
                }
                if done.contains(relation) {
                    let k = choose|k: int| 0 <= k < done.len() && done[k] == relation;
                    assert(next[k] == relation);
                }
                if next.contains(relation) {
                    let k = choose|k: int| 0 <= k < next.len() && next[k] == relation;
                    if k < done.len() {
                        assert(done[k] == relation);
                    } else {
                        assert(inner_field(fields[from], relation));
                    }
                }
            },
        }
    }
}

/// Whether a field from a position on is this inner relation.
pub open spec fn inner_listed(fields: Seq<Seq<char>>, from: int, relation: RelationModel) -> bool {
    exists|k: int| from <= k < fields.len() && inner_field(#[trigger] fields[k], relation)
}

/// Of the rows of a request those remain that have a partner in every inner relation of its select list, in
/// their order.
pub proof fn inner_relations_keep_rows_with_partners(
    rows: Seq<Json>,
    select: Seq<char>,
    params: ParamsModel,
    database: DatabaseModel,
    table: TableModel,
    caller: AuthModel,
)
    ensures
        referenced_rows(rows, select, params, database, table, caller) matches Ok(rest) ==> exists|
            relations: Seq<RelationModel>,
        | #[trigger] asked_for(select, relations) && left_over(
            rows,
            rest,
            |row: Json| lonely(row, relations, params, database, table, caller),
        ),
{
    match referenced_rows(rows, select, params, database, table, caller) {
        Err(_) => {},
        Ok(rest) => {
            let fields = split_of(select)->Ok_0;
            let none = Seq::<RelationModel>::empty();
            let relations = inner_relations_from(fields, 0, none)->Ok_0;
            assert forall|relation: RelationModel| #[trigger] relations.contains(relation) <==> inner_listed(
                fields,
                0,
                relation,
            ) by {
                inner_fields_are_listed(fields, 0, none, relation);
                assert(!none.contains(relation));
            }
            assert(asked_for(select, relations));
            let gone = |row: Json| lonely(row, relations, params, database, table, caller);
            if relations.len() == 0 {
                let at = Seq::new(rows.len(), |i: int| i);
                assert forall|i: int| 0 <= i < rows.len() && !gone(#[trigger] rows[i]) implies at.contains(i) by {
                    assert(at[i] == i);
                }
                assert(remaining(rows, rest, gone, rows.len() as int, at));
            } else {
                partnering(rows, relations, params, database, table, caller, 0, Seq::empty(), Seq::empty());
            }
        },
    }
}

/// Whether these are the inner relations of a select list.
pub open spec fn asked_for(select: Seq<char>, relations: Seq<RelationModel>) -> bool {
    split_of(select) matches Ok(fields) && forall|relation: RelationModel| #[trigger]
        relations.contains(relation) <==> inner_listed(fields, 0, relation)
}

// ---------------------------------------------------------------------------------------------
// Select lists
// ---------------------------------------------------------------------------------------------

/// Whether a field of a select list gives a key: a star those of the row, a relation its alias, and a column
/// its alias or its own name.
pub open spec fn field_makes(field: Seq<char>, row: Json, key: Seq<char>) -> bool {
    if field == "*"@ {
        get(entries_of(row), key) is Some
    } else {
        match relation_of(field) {
            Ok(Some(relation)) => key == relation.alias,
            Ok(None) => key == aliased(field).0,
            Err(_) => false,
        }
    }
}

/// Whether a value is that of the partners of a row: of a foreign key on the side of the row the partner, or
/// null where there is none; of one on the other side the list of all partners. Each is shown with the
/// fields that the relation nests.
pub open spec fn shows_partners(
    row: Json,
    relation: RelationModel,
    params: ParamsModel,
    database: DatabaseModel,
    table: TableModel,
    caller: AuthModel,
    value: Json,
    found: ResolvedModel,
    others: Seq<Json>,
    linked: Seq<Json>,
    values: Seq<Json>,
) -> bool {
    &&& resolved(database, table, relation) == Ok::<ResolvedModel, Failure>(found)
    &&& related_rows(database, found.target, relation, params, caller) == Ok::<Seq<Json>, Failure>(others)
    &&& left_over(others, linked, |other: Json| !partners(row, other, found))
    &&& projected(linked, relation.nested, params, database, found.target, caller) == Ok::<Seq<Json>, Failure>(values)
    &&& if !found.outgoing {
        value == Json::Array(values)
    } else if values.len() == 0 {
        value is Null
    } else {
        value == values[values.len() - 1]
    }
}

/// Whether a value is what a field of a select list gives under a key.
pub open spec fn field_made(
    field: Seq<char>,
    row: Json,
    key: Seq<char>,
    params: ParamsModel,
    database: DatabaseModel,
    table: TableModel,
    caller: AuthModel,
    value: Json,
) -> bool {
    if field == "*"@ {
        get(entries_of(row), key) == Some(value)
    } else {
        match relation_of(field) {
            Ok(Some(relation)) => exists|found: ResolvedModel, others: Seq<Json>, linked: Seq<Json>, values: Seq<Json>|
                #[trigger] shows_partners(
                    row,
                    relation,
                    params,
                    database,
                    table,
                    caller,
                    value,
                    found,
                    others,
                    linked,
                    values,
                ),
            Ok(None) => path_of(row, aliased(field).1) == Ok::<Json, Failure>(value),
            Err(_) => false,
        }
    }
}

/// Whether a field is the last that gives a key, among the first `count`.
pub open spec fn last_field(fields: Seq<Seq<char>>, row: Json, key: Seq<char>, i: int, count: int) -> bool {
    &&& 0 <= i < count <= fields.len()
    &&& field_makes(fields[i], row, key)
    &&& forall|j: int| i < j < count ==> !field_makes(#[trigger] fields[j], row, key)
}

/// Whether a result has the keys that the first `count` fields give, and no others, each with the value that
/// the last field with its key gives.
pub open spec fn fields_of(
    row: Json,
    fields: Seq<Seq<char>>,
    params: ParamsModel,
    database: DatabaseModel,
    table: TableModel,
    caller: AuthModel,
    out: Seq<(Seq<char>, Json)>,
    count: int,
) -> bool {
    &&& sorted(out)
    &&& forall|key: Seq<char>, i: int|
        #[trigger] last_field(fields, row, key, i, count) ==> (get(out, key) matches Some(value) && field_made(
            fields[i],
            row,
            key,
            params,
            database,
            table,
            caller,
            value,
        ))
    &&& forall|key: Seq<char>|
        (#[trigger] get(out, key)) is Some ==> exists|i: int| #[trigger] last_field(fields, row, key, i, count)
}

proof fn one_more_field(
    row: Json,
    fields: Seq<Seq<char>>,
    params: ParamsModel,
    database: DatabaseModel,
    table: TableModel,
    caller: AuthModel,
    out: Seq<(Seq<char>, Json)>,
    next: Seq<(Seq<char>, Json)>,
    from: int,
)
    requires
        0 <= from < fields.len(),
        fields_of(row, fields, params, database, table, caller, out, from),
        sorted(next),
        forall|key: Seq<char>|
            field_makes(fields[from], row, key) ==> (#[trigger] get(next, key) matches Some(value) && field_made(
                fields[from],
                row,
                key,
                params,
                database,
                table,
                caller,
                value,
            )),
        forall|key: Seq<char>| !field_makes(fields[from], row, key) ==> #[trigger] get(next, key) == get(out, key),
    ensures
        fields_of(row, fields, params, database, table, caller, next, from + 1),
{
    assert forall|key: Seq<char>, i: int| #[trigger] last_field(fields, row, key, i, from + 1) implies (get(next, key) matches Some(
        value,
    ) && field_made(fields[i], row, key, params, database, table, caller, value)) by {
        if i < from {
            assert(!field_makes(fields[from], row, key));
            assert(last_field(fields, row, key, i, from));
            assert(get(next, key) == get(out, key));
        } else {
            assert(get(next, key) is Some);
        }
    }
    assert forall|key: Seq<char>| (#[trigger] get(next, key)) is Some implies exists|i: int| #[trigger]
        last_field(fields, row, key, i, from + 1) by {
        if field_makes(fields[from], row, key) {
            assert(last_field(fields, row, key, from, from + 1));
        } else {
            assert(get(out, key) is Some);
            let i = choose|i: int| #[trigger] last_field(fields, row, key, i, from);
            assert(last_field(fields, row, key, i, from + 1));
        }
    }
}

proof fn fields_are_given(
    row: Json,
    fields: Seq<Seq<char>>,
    bound: nat,
    params: ParamsModel,
    database: DatabaseModel,
    table: TableModel,
    caller: AuthModel,
    from: int,
    out: Seq<(Seq<char>, Json)>,
)
    requires
        sorted(entries_of(row)),
        0 <= from <= fields.len(),
        fields_of(row, fields, params, database, table, caller, out, from),
    ensures
        fields_from(row, fields, bound, params, database, table, caller, from, out) matches Ok(done) ==> fields_of(
            row,
            fields,
            params,
            database,
            table,
            caller,
            done,
            fields.len() as int,
        ),
    decreases fields.len() - from,
{
    if from < fields.len() {
        let field = fields[from];
        if field == "*"@ {
            let cells = entries_of(row);
            let next = put_all(out, cells);
            assert forall|key: Seq<char>| #[trigger] get(next, key) == (match get(cells, key) {
                Some(value) => Some(value),
                None => get(out, key),
            }) by {
                put_all_keeps(out, cells, 0, key);
            }
            put_all_keeps(out, cells, 0, Seq::empty());
            one_more_field(row, fields, params, database, table, caller, out, next, from);
            fields_are_given(row, fields, bound, params, database, table, caller, from + 1, next);
        } else {
            match relation_of(field) {
                Err(_) => {},
                Ok(Some(relation)) => match resolved(database, table, relation) {
                    Err(_) => {},
                    Ok(found) => match related_rows(database, found.target, relation, params, caller) {
                        Err(_) => {},
                        Ok(others) => {
                            let linked = linked_rows_from(row, others, found, 0, Seq::empty());
                            linked_rows_are_the_partners(row, others, found);
                            match projected(linked, relation.nested, params, database, found.target, caller) {
                                Err(_) => {},
                                Ok(values) => {
                                    let value = crate::embed::embedded(values, found.outgoing);
                                    assert(shows_partners(
                                        row,
                                        relation,
                                        params,
                                        database,
                                        table,
                                        caller,
                                        value,
                                        found,
                                        others,
                                        linked,
                                        values,
                                    ));
                                    field_is_put(row, fields, params, database, table, caller, out, from, relation.alias, value);
                                    fields_are_given(
                                        row,
                                        fields,
                                        bound,
                                        params,
                                        database,
                                        table,
                                        caller,
                                        from + 1,
                                        put(out, relation.alias, value),
                                    );
                                },
                            }
                        },
                    },
                },
                Ok(None) => {
                    let (alias, column) = aliased(field);
                    match path_of(row, column) {
                        Err(_) => {},
                        Ok(value) => {
                            field_is_put(row, fields, params, database, table, caller, out, from, alias, value);
                            fields_are_given(
                                row,
                                fields,
                                bound,
                                params,
                                database,
                                table,
                                caller,
                                from + 1,
                                put(out, alias, value),
                            );
                        },
                    }
                },
            }
        }
    }
}

proof fn field_is_put(
    row: Json,
    fields: Seq<Seq<char>>,
    params: ParamsModel,
    database: DatabaseModel,
    table: TableModel,
    caller: AuthModel,
    out: Seq<(Seq<char>, Json)>,
    from: int,
    name: Seq<char>,
    value: Json,
)
    requires
        0 <= from < fields.len(),
        fields_of(row, fields, params, database, table, caller, out, from),
        forall|key: Seq<char>| #[trigger] field_makes(fields[from], row, key) <==> key == name,
        field_made(fields[from], row, name, params, database, table, caller, value),
    ensures
        fields_of(row, fields, params, database, table, caller, put(out, name, value), from + 1),
{
    let next = put(out, name, value);
    put_keeps_order(out, name, value);
    assert forall|key: Seq<char>| #[trigger] get(next, key) == (if key == name {
        Some(value)
    } else {
        get(out, key)
    }) by {
        get_after_put(out, name, value, key);
    }
    one_more_field(row, fields, params, database, table, caller, out, next, from);
}

proof fn rows_are_shown(
    rows: Seq<Json>,
    fields: Seq<Seq<char>>,
    bound: nat,
    params: ParamsModel,
    database: DatabaseModel,
    table: TableModel,
    caller: AuthModel,
    from: int,
    done: Seq<Json>,
)
    requires
        forall|i: int| 0 <= i < rows.len() ==> sorted(entries_of(#[trigger] rows[i])),
        0 <= from <= rows.len(),
        done.len() == from,
        forall|i: int| 0 <= i < from ==> shown(rows[i], fields, params, database, table, caller, #[trigger] done[i]),
    ensures
        projected_from(rows, fields, bound, params, database, table, caller, from, done) matches Ok(all) ==> all.len()
            == rows.len() && forall|i: int|
            0 <= i < all.len() ==> shown(rows[i], fields, params, database, table, caller, #[trigger] all[i]),
    decreases rows.len() - from,
{
    if from < rows.len() {
        fields_are_given(rows[from], fields, bound, params, database, table, caller, 0, Seq::empty());
        match fields_from(rows[from], fields, bound, params, database, table, caller, 0, Seq::empty()) {
            Err(_) => {},
            Ok(row) => {
                rows_are_shown(
                    rows,
                    fields,
                    bound,
                    params,
                    database,
                    table,
                    caller,
                    from + 1,
                    done.push(Json::Object(row)),
                );
            },
        }
    }
}

/// Whether a value is an object with what the fields of a select list give of a row.
pub open spec fn shown(
    row: Json,
    fields: Seq<Seq<char>>,
    params: ParamsModel,
    database: DatabaseModel,
    table: TableModel,
    caller: AuthModel,
    value: Json,
) -> bool {
    value is Object && fields_of(
        row,
        fields,
        params,
        database,
        table,
        caller,
        value->Object_0,
        fields.len() as int,
    )
}

/// A select list shows each row, in order, with the keys that its fields give and no others: the columns of
/// the row, values in them, and for each relation the partners of the row.
pub proof fn select_lists_show_what_they_name(
    rows: Seq<Json>,
    select: Seq<char>,
    params: ParamsModel,
    database: DatabaseModel,
    table: TableModel,
    caller: AuthModel,
)
    requires
        forall|i: int| 0 <= i < rows.len() ==> sorted(entries_of(#[trigger] rows[i])),
    ensures
        projected(rows, select, params, database, table, caller) matches Ok(all) ==> (split_of(select) matches Ok(fields)
            && all.len() == rows.len() && forall|i: int|
            0 <= i < all.len() ==> shown(rows[i], fields, params, database, table, caller, #[trigger] all[i])),
{
    match split_of(select) {
        Err(_) => {},
        Ok(fields) => {
            rows_are_shown(rows, fields, select.len(), params, database, table, caller, 0, Seq::empty());
        },
    }
}

// ---------------------------------------------------------------------------------------------
// Paths
// ---------------------------------------------------------------------------------------------

/// Whether a value stands under a key of another: of an object the value of the key, of a list the item with
/// that number, and null where there is none. Nothing stands under a key of a text, a number or a boolean.
pub open spec fn stands_under(value: Json, key: Seq<char>, next: Json) -> bool {
    match value {
        Json::Object(_) => next == child(value, key),
        Json::Array(list) => match parsed_usize(key) {
            Some(n) if n < list.len() => next == list[n as int],
            _ => next is Null,
        },
        Json::Null => next is Null,
        _ => false,
    }
}

/// Whether a value is what a step shows of another: itself, or its text where the step asks for text. A null
/// stays null.
pub open spec fn shows_as(step: Seq<char>, value: Json, next: Json) -> bool {
    if step.len() > 0 && step[0] == '>' {
        match value {
            Json::Null => next is Null,
            Json::String(s) => next == Json::String(s),
            _ => next == Json::String(json_text_of(value)),
        }
    } else {
        next == value
    }
}

/// Whether values lead along steps, each to the one that stands under the key of the step.
pub open spec fn trail(steps: Seq<Seq<char>>, from: int, values: Seq<Json>) -> bool {
    &&& values.len() == steps.len() - from + 1
    &&& forall|k: int|
        from <= k < steps.len() ==> #[trigger] step_taken(steps[k], values[k - from], values[k - from + 1])
}

/// Whether a step leads from one value to another.
pub open spec fn step_taken(step: Seq<char>, value: Json, next: Json) -> bool {
    exists|under: Json| #[trigger] stands_under(value, step_key(step), under) && shows_as(step, under, next)
}

proof fn walking(value: Json, steps: Seq<Seq<char>>, from: int) -> (values: Seq<Json>)
    requires
        0 <= from <= steps.len(),
    ensures
        walked_from(value, steps, from) matches Ok(last) ==> trail(steps, from, values) && values[0] == value
            && values.last() == last,
    decreases steps.len() - from,
{
    if from < steps.len() {
        let key = step_key(steps[from]);
        match walked(value, key) {
            Err(_) => seq![value],
            Ok(under) => {
                reveal_strlit(">");
                let next = if begins(steps[from], ">"@) {
                    as_text(under)
                } else {
                    under
                };
                assert(begins(steps[from], ">"@) == (steps[from].len() > 0 && steps[from][0] == '>')) by {
                    assert(">"@ =~= seq!['>']);
                    if steps[from].len() > 0 && steps[from][0] == '>' {
                        assert(steps[from].take(1) =~= ">"@);
                    }
                    if begins(steps[from], ">"@) {
                        assert(steps[from].take(1)[0] == steps[from][0]);
                        assert(">"@[0] == '>');
                    }
                }
                let rest = walking(next, steps, from + 1);
                let values = seq![value] + rest;
                match walked_from(next, steps, from + 1) {
                    Err(_) => {},
                    Ok(last) => {
                        if key.len() > 0 {
                            assert(stands_under(value, key, under));
                            assert(step_taken(steps[from], value, next));
                            assert forall|k: int| from <= k < steps.len() implies #[trigger] step_taken(
                                steps[k],
                                values[k - from],
                                values[k - from + 1],
                            ) by {
                                if k == from {
                                    assert(values[0] == value && values[1] == rest[0]);
                                } else {
                                    assert(values[k - from] == rest[k - (from + 1)]);
                                    assert(values[k - from + 1] == rest[k - (from + 1) + 1]);
                                    assert(step_taken(
                                        steps[k],
                                        rest[k - (from + 1)],
                                        rest[k - (from + 1) + 1],
                                    ));
                                }
                            }
                            assert(values.last() == rest.last());
                        }
                    },
                }
                values
            },
        }
    } else {
        seq![value]
    }
}

/// A path into a column leads from its value step by step, each step to what stands under its key; one that
/// asks for text gives the text.
pub proof fn paths_lead_step_by_step(value: Json, steps: Seq<Seq<char>>)
    ensures
        walked_from(value, steps, 0) matches Ok(last) ==> exists|values: Seq<Json>| #[trigger]
            trail(steps, 0, values) && values[0] == value && values.last() == last,
{
    let values = walking(value, steps, 0);
    if walked_from(value, steps, 0) is Ok {
        assert(trail(steps, 0, values));
    }
}

} // verus!
