//! Selected columns, JSON paths and embedded relations of a table request.

use vstd::prelude::*;
use crate::ast::{json_text, json_text_of};
use crate::catalog::{AuthContext, AuthModel, Database, DatabaseModel, ForeignKey, ForeignKeyModel, Table, TableModel};
use crate::cuts::{before_last, cut, cut_at, pieces, pieces_of, strip_last, trim, trimmed, trimmed_length};
use crate::error::{outcome, unsupported, unsupported_failure, Outcome, Result};
use crate::execute::{batch_executed, table_read};
use crate::json::{group_value_views, Datum, Json};
use crate::ordmap::{get, put, put_all, OrdMap};
use crate::postgrest::{select_of, select_sql, split, split_of, Params, ParamsModel};
use crate::replica::{add_last, no_items, Replica};
use crate::text::{
    after_prefix, begins, cat2, cat3, cat4, cat5, is_listed, join, joined, listed, owned, parse_usize, parsed_usize,
    same, starts_with, strip_prefix, trim_both, without_ends, without_head,
};
use crate::value::{child, same_json};

verus! {

broadcast use group_value_views;

// ---------------------------------------------------------------------------------------------
// Relations
// ---------------------------------------------------------------------------------------------

/// An embedded relation of a select list.
#[derive(Debug, PartialEq, Eq)]
pub struct RelationSpec {
    pub alias: String,
    pub target: String,
    pub foreign_key: Option<String>,
    pub inner: bool,
    pub nested: String,
}

/// [`RelationSpec`] in specifications.
pub struct RelationModel {
    pub alias: Seq<char>,
    pub target: Seq<char>,
    pub foreign_key: Option<Seq<char>>,
    pub inner: bool,
    pub nested: Seq<char>,
}

impl DeepView for RelationSpec {
    type V = RelationModel;

    open spec fn deep_view(&self) -> RelationModel {
        RelationModel {
            alias: self.alias@,
            target: self.target@,
            foreign_key: self.foreign_key.deep_view(),
            inner: self.inner,
            nested: self.nested@,
        }
    }
}

/// The modifiers of a relation from position `from` on: `inner` at most once, and at most one
/// selector of a foreign key.
pub open spec fn modifiers_from(parts: Seq<Seq<char>>, from: int, inner: bool, selector: Option<Seq<char>>) -> Outcome<
    (bool, Option<Seq<char>>),
>
    decreases parts.len() - from,
{
    if from < 0 || from >= parts.len() {
        Ok((inner, selector))
    } else {
        let modifier = trimmed(parts[from]);
        if modifier.len() == 0 {
            Err(unsupported_failure("Invalid relation modifier"@))
        } else if modifier == "inner"@ {
            if inner {
                Err(unsupported_failure("Duplicate !inner relation modifier"@))
            } else {
                modifiers_from(parts, from + 1, true, selector)
            }
        } else if selector is Some {
            Err(unsupported_failure("Only one explicit foreign-key selector is supported"@))
        } else {
            modifiers_from(parts, from + 1, inner, Some(modifier))
        }
    }
}

fn is_blank(text: &str) -> (result: bool)
    ensures
        result == (text@.len() == 0),
{
    proof {
        reveal_strlit("");
        assert(text@.len() == 0 ==> text@ =~= ""@);
    }
    same(text, "")
}

#[verifier::loop_isolation(false)]
fn modifiers(parts: &Vec<String>) -> (result: Result<(bool, Option<String>)>)
    requires
        parts.len() >= 1,
    ensures
        outcome(result) == modifiers_from(parts.deep_view(), 1, false, None),
{
    let mut inner = false;
    let mut selector: Option<String> = None;
    let ghost model = parts.deep_view();
    let mut i: usize = 1;
    while i < parts.len()
        invariant
            1 <= i <= parts.len(),
            modifiers_from(model, 1, false, None) == modifiers_from(model, i as int, inner, selector.deep_view()),
        decreases parts.len() - i,
    {
        assert(model[i as int] == parts[i as int]@);
        let modifier = trim(parts[i].as_str());
        if is_blank(modifier.as_str()) {
            return Err(unsupported("Invalid relation modifier"));
        }
        if same(modifier.as_str(), "inner") {
            if inner {
                return Err(unsupported("Duplicate !inner relation modifier"));
            }
            inner = true;
        } else {
            if selector.is_some() {
                return Err(unsupported("Only one explicit foreign-key selector is supported"));
            }
            selector = Some(modifier);
        }
        i += 1;
    }
    Ok((inner, selector))
}

/// The parts before and after the first `:`, or the text twice.
pub open spec fn aliased(text: Seq<char>) -> (Seq<char>, Seq<char>) {
    match cut_at(text, ":"@) {
        Some(parts) => parts,
        None => (text, text),
    }
}

fn alias_of(text: &str) -> (result: (String, String))
    ensures
        (result.0@, result.1@) == aliased(text@),
{
    match cut(text, ":") {
        Some(parts) => parts,
        None => (owned(text), owned(text)),
    }
}

/// The relation of a selected field, where it is one: `alias:target!modifiers(nested)`.
pub open spec fn relation_of(field: Seq<char>) -> Outcome<Option<RelationModel>> {
    match cut_at(field, "("@) {
        None => Ok(None),
        Some((raw, rest)) => match before_last(rest, ')') {
            None => Err(unsupported_failure("Unclosed relation"@)),
            Some(nested) => {
                let (alias, named) = aliased(trimmed(raw));
                let parts = pieces_of(named, "!"@);
                let target = trimmed(parts[0]);
                if target.len() == 0 || trimmed(alias).len() == 0 {
                    Err(unsupported_failure("Nested relation requires a name"@))
                } else {
                    match modifiers_from(parts, 1, false, None) {
                        Err(error) => Err(error),
                        Ok((inner, foreign_key)) => Ok(
                            Some(
                                RelationModel {
                                    alias: trimmed(alias),
                                    target,
                                    foreign_key,
                                    inner,
                                    nested: trimmed(nested),
                                },
                            ),
                        ),
                    }
                }
            },
        },
    }
}

/// The relation of a selected field, where it is one: `alias:target!modifiers(nested)`.
pub fn relation_spec(field: &str) -> (result: Result<Option<RelationSpec>>)
    ensures
        outcome(result) == relation_of(field@),
        match result {
            Ok(Some(found)) => found.nested@.len() < field@.len(),
            _ => true,
        },
{
    proof {
        reveal_strlit("(");
    }
    match cut(field, "(") {
        None => Ok(None),
        Some((raw, rest)) => match strip_last(rest.as_str(), ')') {
            None => Err(unsupported("Unclosed relation")),
            Some(nested) => {
                let (alias, named) = alias_of(trim(raw.as_str()).as_str());
                let parts = pieces(named.as_str(), "!");
                assert(parts.deep_view()[0] == parts[0]@);
                let target = trim(parts[0].as_str());
                let alias = trim(alias.as_str());
                if is_blank(target.as_str()) || is_blank(alias.as_str()) {
                    return Err(unsupported("Nested relation requires a name"));
                }
                let (inner, foreign_key) = modifiers(&parts)?;
                proof {
                    trimmed_length(nested@);
                }
                Ok(
                    Some(
                        RelationSpec { alias, target, foreign_key, inner, nested: trim(nested.as_str()) },
                    ),
                )
            },
        },
    }
}

/// Whether a foreign key is meant by a selector: one of its columns, or all of them joined by `_`.
pub open spec fn hinted(fk: ForeignKeyModel, hint: Seq<char>) -> bool {
    listed(fk.columns, hint) || joined(fk.columns, "_"@) == hint
}

/// Whether a foreign key is meant by a selector: one of its columns, or all of them joined by `_`.
pub fn fk_matches_hint(fk: &ForeignKey, hint: &str) -> (result: bool)
    ensures
        result == hinted(fk.deep_view(), hint@),
{
    is_listed(&fk.columns, hint) || same(join(&fk.columns, "_").as_str(), hint)
}

/// A relation with its table, its foreign key, and whether the key is on the side of the request.
pub struct ResolvedRelation<'a> {
    pub target: &'a Table,
    pub foreign_key: &'a ForeignKey,
    pub outgoing: bool,
}

/// [`ResolvedRelation`] in specifications.
pub struct ResolvedModel {
    pub target: TableModel,
    pub foreign_key: ForeignKeyModel,
    pub outgoing: bool,
}

/// What a resolved relation stands for.
pub open spec fn resolved_view(relation: ResolvedRelation<'_>) -> ResolvedModel {
    ResolvedModel {
        target: relation.target.deep_view(),
        foreign_key: relation.foreign_key.deep_view(),
        outgoing: relation.outgoing,
    }
}

/// The foreign keys from position `from` on that refer to `wanted` and meet the selector, after
/// those in `done`.
pub open spec fn candidates_from(
    keys: Seq<ForeignKeyModel>,
    wanted: Seq<char>,
    hint: Option<Seq<char>>,
    from: int,
    done: Seq<ForeignKeyModel>,
) -> Seq<ForeignKeyModel>
    decreases keys.len() - from,
{
    if from < 0 || from >= keys.len() {
        done
    } else {
        let fits = keys[from].foreign_table == wanted && (hint is None || hinted(keys[from], hint->Some_0));
        candidates_from(
            keys,
            wanted,
            hint,
            from + 1,
            if fits {
                done.push(keys[from])
            } else {
                done
            },
        )
    }
}

fn candidates<'a>(keys: &'a Vec<ForeignKey>, wanted: &str, hint: &Option<String>) -> (result: Vec<&'a ForeignKey>)
    ensures
        result.deep_view() == candidates_from(
            keys.deep_view(),
            wanted@,
            hint.deep_view(),
            0,
            Seq::empty(),
        ),
{
    let mut done: Vec<&'a ForeignKey> = no_items();
    let ghost model = keys.deep_view();
    let ghost hint_model = hint.deep_view();
    let mut i: usize = 0;
    while i < keys.len()
        invariant
            i <= keys.len(),
            model == keys.deep_view(),
            hint_model == hint.deep_view(),
            candidates_from(model, wanted@, hint_model, 0, Seq::empty()) == candidates_from(
                model,
                wanted@,
                hint_model,
                i as int,
                done.deep_view(),
            ),
        decreases keys.len() - i,
    {
        assert(model[i as int] == keys[i as int].deep_view());
        let meant = match hint {
            Some(selector) => fk_matches_hint(&keys[i], selector.as_str()),
            None => true,
        };
        if same(keys[i].foreign_table.as_str(), wanted) && meant {
            add_last(&mut done, &keys[i]);
        }
        i += 1;
    }
    done
}

/// The message for a relation that more or less than one foreign key could mean.
pub open spec fn ambiguity(table: Seq<char>, target: Seq<char>) -> Seq<char> {
    "Ambiguous relationship from "@ + table + " to "@ + target
        + "; use !<foreign-key-column> (for example !author_id)"@
}

/// The foreign key of a relation, in either direction; there has to be exactly one.
pub open spec fn resolved(database: DatabaseModel, table: TableModel, relation: RelationModel) -> Outcome<
    ResolvedModel,
> {
    match get(database.catalog, relation.target) {
        None => Err(unsupported_failure("Unknown nested relation "@ + relation.target)),
        Some(target) => {
            let own = candidates_from(
                table.foreign_keys,
                relation.target,
                relation.foreign_key,
                0,
                Seq::empty(),
            );
            let others = candidates_from(
                target.foreign_keys,
                table.name,
                relation.foreign_key,
                0,
                Seq::empty(),
            );
            if relation.foreign_key is Some && own.len() + others.len() == 0 {
                Err(
                    unsupported_failure(
                        "No relationship from "@ + table.name + " to "@ + relation.target + " matches !"@
                            + relation.foreign_key->Some_0,
                    ),
                )
            } else if own.len() + others.len() != 1 {
                Err(unsupported_failure(ambiguity(table.name, relation.target)))
            } else if own.len() == 1 {
                Ok(ResolvedModel { target, foreign_key: own[0], outgoing: true })
            } else {
                Ok(ResolvedModel { target, foreign_key: others[0], outgoing: false })
            }
        },
    }
}

/// What the result of resolving a relation stands for.
pub open spec fn resolution(result: Result<ResolvedRelation<'_>>) -> Outcome<ResolvedModel> {
    match result {
        Ok(relation) => Ok(resolved_view(relation)),
        Err(error) => Err(error@),
    }
}

/// The foreign key of a relation, in either direction; there has to be exactly one.
pub fn resolve_relation<'a>(db: &'a Database, table: &'a Table, embed: &RelationSpec) -> (result: Result<
    ResolvedRelation<'a>,
>)
    ensures
        resolution(result) == resolved(db.deep_view(), table.deep_view(), embed.deep_view()),
{
    let target = match db.catalog.get(&embed.target) {
        Some(target) => target,
        None => {
            return Err(unsupported(cat2("Unknown nested relation ", embed.target.as_str()).as_str()));
        },
    };
    let own = candidates(&table.foreign_keys, embed.target.as_str(), &embed.foreign_key);
    let others = candidates(&target.foreign_keys, table.name.as_str(), &embed.foreign_key);
    match &embed.foreign_key {
        Some(hint) => {
            if own.len() == 0 && others.len() == 0 {
                let start = cat4(
                    "No relationship from ",
                    table.name.as_str(),
                    " to ",
                    embed.target.as_str(),
                );
                return Err(unsupported(cat3(start.as_str(), " matches !", hint.as_str()).as_str()));
            }
        },
        None => {},
    }
    if own.len() == 1 && others.len() == 0 {
        assert(own.deep_view()[0] == own[0].deep_view());
        return Ok(ResolvedRelation { target, foreign_key: own[0], outgoing: true });
    }
    if own.len() == 0 && others.len() == 1 {
        assert(others.deep_view()[0] == others[0].deep_view());
        return Ok(ResolvedRelation { target, foreign_key: others[0], outgoing: false });
    }
    let message = cat5(
        "Ambiguous relationship from ",
        table.name.as_str(),
        " to ",
        embed.target.as_str(),
        "; use !<foreign-key-column> (for example !author_id)",
    );
    Err(unsupported(message.as_str()))
}

/// The name of a parameter of an embedded relation: what follows the alias or the table and a dot.
pub open spec fn own_name(name: Seq<char>, relation: RelationModel) -> Option<Seq<char>> {
    match after_prefix(name, relation.alias + "."@) {
        Some(key) => Some(key),
        None => after_prefix(name, relation.target + "."@),
    }
}

/// The parameters of an embedded relation from position `from` on, after those in `done`.
pub open spec fn own_params_from(params: ParamsModel, relation: RelationModel, from: int, done: ParamsModel) -> ParamsModel
    decreases params.len() - from,
{
    if from < 0 || from >= params.len() {
        done
    } else {
        own_params_from(
            params,
            relation,
            from + 1,
            match own_name(params[from].0, relation) {
                Some(key) => done.push((key, params[from].1)),
                None => done,
            },
        )
    }
}

/// The parameters of an embedded relation.
pub fn relation_params(params: &Params, embed: &RelationSpec) -> (result: Params)
    ensures
        result.deep_view() == own_params_from(params.deep_view(), embed.deep_view(), 0, Seq::empty()),
{
    let mut done: Params = no_items();
    let ghost model = params.deep_view();
    let ghost relation = embed.deep_view();
    let by_alias = cat2(embed.alias.as_str(), ".");
    let by_target = cat2(embed.target.as_str(), ".");
    let mut i: usize = 0;
    while i < params.len()
        invariant
            i <= params.len(),
            model == params.deep_view(),
            relation == embed.deep_view(),
            by_alias@ == relation.alias + "."@,
            by_target@ == relation.target + "."@,
            own_params_from(model, relation, 0, Seq::empty()) == own_params_from(
                model,
                relation,
                i as int,
                done.deep_view(),
            ),
        decreases params.len() - i,
    {
        assert(model[i as int] == (params[i as int].0@, params[i as int].1@));
        let own = match strip_prefix(params[i].0.as_str(), by_alias.as_str()) {
            Some(key) => Some(key),
            None => strip_prefix(params[i].0.as_str(), by_target.as_str()),
        };
        match own {
            Some(key) => {
                add_last(&mut done, (key, params[i].1.clone()));
            },
            None => {},
        }
        i += 1;
    }
    done
}

/// The rows of an embedded relation that the caller may read and its filters admit.
pub open spec fn related_rows(
    database: DatabaseModel,
    target: TableModel,
    relation: RelationModel,
    params: ParamsModel,
    caller: AuthModel,
) -> Outcome<Seq<Json>> {
    let filters = own_params_from(params, relation, 0, Seq::empty());
    if filters.len() == 0 {
        table_read(database, relation.target, caller)
    } else {
        match select_of(target, filters) {
            Err(error) => Err(error),
            Ok(sql) => match batch_executed(database, sql, caller) {
                Err(error) => Err(error),
                Ok((_, found)) => Ok(found.rows),
            },
        }
    }
}

fn relation_rows(
    db: &Database,
    target: &Table,
    embed: &RelationSpec,
    params: &Params,
    context: &AuthContext,
) -> (result: Result<Vec<Datum>>)
    ensures
        outcome(result) == related_rows(
            db.deep_view(),
            target.deep_view(),
            embed.deep_view(),
            params.deep_view(),
            context.deep_view(),
        ),
{
    let filters = relation_params(params, embed);
    if filters.len() == 0 {
        return db.read_table(embed.target.as_str(), context);
    }
    let mut snapshot = db.replica();
    let sql = select_sql(target, &filters)?;
    let found = snapshot.execute_sql(sql.as_str(), context)?;
    Ok(found.rows)
}

/// Whether the key columns of two rows agree from position `from` on; a null agrees with nothing.
pub open spec fn linked_from(row: Json, other: Json, relation: ResolvedModel, from: int) -> bool
    decreases relation.foreign_key.columns.len() - from,
{
    let fk = relation.foreign_key;
    if from < 0 || from >= fk.columns.len() || from >= fk.referred_columns.len() {
        true
    } else {
        let left = child(
            if relation.outgoing {
                row
            } else {
                other
            },
            fk.columns[from],
        );
        let right = child(
            if relation.outgoing {
                other
            } else {
                row
            },
            fk.referred_columns[from],
        );
        !(left is Null) && same_json(left, right) && linked_from(row, other, relation, from + 1)
    }
}

fn linked(row: &Datum, other: &Datum, relation: &ResolvedRelation<'_>) -> (result: bool)
    ensures
        result == linked_from(row@, other@, resolved_view(*relation), 0),
{
    let ghost model = resolved_view(*relation);
    let fk = relation.foreign_key;
    let mut i: usize = 0;
    while i < fk.columns.len() && i < fk.referred_columns.len()
        invariant
            i <= fk.columns.len(),
            i <= fk.referred_columns.len(),
            fk == relation.foreign_key,
            model == resolved_view(*relation),
            linked_from(row@, other@, model, 0) == linked_from(row@, other@, model, i as int),
        decreases fk.columns.len() - i,
    {
        assert(model.foreign_key.columns[i as int] == fk.columns[i as int]@);
        assert(model.foreign_key.referred_columns[i as int] == fk.referred_columns[i as int]@);
        let (referring, referred) = if relation.outgoing {
            (row, other)
        } else {
            (other, row)
        };
        let left = referring.child(fk.columns[i].as_str());
        let right = referred.child(fk.referred_columns[i].as_str());
        if left.is_null() || !left.equals(right) {
            return false;
        }
        i += 1;
    }
    true
}

/// The rows from position `from` on that are linked to a row, after those in `done`.
pub open spec fn linked_rows_from(
    row: Json,
    others: Seq<Json>,
    relation: ResolvedModel,
    from: int,
    done: Seq<Json>,
) -> Seq<Json>
    decreases others.len() - from,
{
    if from < 0 || from >= others.len() {
        done
    } else {
        linked_rows_from(
            row,
            others,
            relation,
            from + 1,
            if linked_from(row, others[from], relation, 0) {
                done.push(others[from])
            } else {
                done
            },
        )
    }
}

fn linked_rows(row: &Datum, others: &Vec<Datum>, relation: &ResolvedRelation<'_>) -> (result: Vec<Datum>)
    ensures
        result.deep_view() == linked_rows_from(
            row@,
            others.deep_view(),
            resolved_view(*relation),
            0,
            Seq::empty(),
        ),
{
    let mut done: Vec<Datum> = no_items();
    let ghost model = others.deep_view();
    let ghost key = resolved_view(*relation);
    let mut i: usize = 0;
    while i < others.len()
        invariant
            i <= others.len(),
            model == others.deep_view(),
            key == resolved_view(*relation),
            linked_rows_from(row@, model, key, 0, Seq::empty()) == linked_rows_from(
                row@,
                model,
                key,
                i as int,
                done.deep_view(),
            ),
        decreases others.len() - i,
    {
        assert(model[i as int] == others[i as int]@);
        if linked(row, &others[i], relation) {
            add_last(&mut done, others[i].copied());
        }
        i += 1;
    }
    done
}

// ---------------------------------------------------------------------------------------------
// JSON paths
// ---------------------------------------------------------------------------------------------

/// The value under a key of a row, which has to be there.
pub open spec fn selected_value(row: Json, column: Seq<char>) -> Outcome<Json> {
    match row {
        Json::Object(entries) => match get(entries, column) {
            Some(value) => Ok(value),
            None => Err(unsupported_failure("Unknown selected column "@ + column)),
        },
        _ => Err(unsupported_failure("Unknown selected column "@ + column)),
    }
}

fn select_value(row: &Datum, column: &str) -> (result: Result<Datum>)
    ensures
        outcome(result) == selected_value(row@, column@),
{
    match row {
        Datum::Object(map) => match map.find(column) {
            Some(value) => Ok(value.copied()),
            None => Err(unsupported(cat2("Unknown selected column ", column).as_str())),
        },
        _ => Err(unsupported(cat2("Unknown selected column ", column).as_str())),
    }
}

/// The key of a step of a path.
pub open spec fn step_key(raw: Seq<char>) -> Seq<char> {
    without_ends(trimmed(without_head(raw, '>')), '"')
}

/// A value as text; null stays null.
pub open spec fn as_text(value: Json) -> Json {
    match value {
        Json::Null => Json::Null,
        Json::String(s) => Json::String(s),
        _ => Json::String(json_text_of(value)),
    }
}

/// The value under a key of an object or an array.
pub open spec fn walked(value: Json, key: Seq<char>) -> Outcome<Json> {
    match value {
        Json::Object(entries) => Ok(child(value, key)),
        Json::Array(list) => match parsed_usize(key) {
            Some(index) => if index < list.len() {
                Ok(list[index as int])
            } else {
                Ok(Json::Null)
            },
            None => Ok(Json::Null),
        },
        Json::Null => Ok(Json::Null),
        _ => Err(unsupported_failure("JSON path traverses a non-container at "@ + key)),
    }
}

fn walk(value: &Datum, key: &str) -> (result: Result<Datum>)
    ensures
        outcome(result) == walked(value@, key@),
{
    match value {
        Datum::Object(_) => Ok(value.child(key).copied()),
        Datum::Array(list) => match parse_usize(key) {
            Some(index) => {
                if index < list.len() {
                    assert(list.deep_view()[index as int] == list[index as int]@);
                    Ok(list[index].copied())
                } else {
                    Ok(Datum::Null)
                }
            },
            None => Ok(Datum::Null),
        },
        Datum::Null => Ok(Datum::Null),
        _ => Err(unsupported(cat2("JSON path traverses a non-container at ", key).as_str())),
    }
}

/// The value after the steps from position `from` on; a step that begins with `>` gives text.
pub open spec fn walked_from(value: Json, steps: Seq<Seq<char>>, from: int) -> Outcome<Json>
    decreases steps.len() - from,
{
    if from < 0 || from >= steps.len() {
        Ok(value)
    } else {
        let key = step_key(steps[from]);
        if key.len() == 0 {
            Err(unsupported_failure("JSON path requires a key"@))
        } else {
            match walked(value, key) {
                Err(error) => Err(error),
                Ok(next) => walked_from(
                    if begins(steps[from], ">"@) {
                        as_text(next)
                    } else {
                        next
                    },
                    steps,
                    from + 1,
                ),
            }
        }
    }
}

/// The value of a selected column, or of a path of `->` and `->>` steps into it.
pub open spec fn path_of(row: Json, column: Seq<char>) -> Outcome<Json> {
    match cut_at(column, "->"@) {
        None => selected_value(row, column),
        Some((base, paths)) => match selected_value(row, base) {
            Err(error) => Err(error),
            Ok(value) => walked_from(value, pieces_of(paths, "->"@), 0),
        },
    }
}

fn trim_start(text: &str, c: char) -> (result: String)
    ensures
        result@ == without_head(text@, c),
{
    let characters = crate::text::chars_of(text);
    let mut start: usize = 0;
    assert(characters@.skip(0) =~= characters@);
    while start < characters.len() && characters[start] == c
        invariant
            start <= characters.len(),
            characters@ == text@,
            without_head(text@, c) == without_head(characters@.skip(start as int), c),
        decreases characters.len() - start,
    {
        assert(characters@.skip(start as int).skip(1) =~= characters@.skip(start + 1));
        start += 1;
    }
    let result = crate::text::text_of(&characters, start, characters.len());
    assert(result@ =~= characters@.skip(start as int));
    result
}

#[verifier::loop_isolation(false)]
fn json_path(row: &Datum, column: &str) -> (result: Result<Datum>)
    ensures
        outcome(result) == path_of(row@, column@),
{
    let (base, paths) = match cut(column, "->") {
        None => {
            return select_value(row, column);
        },
        Some(parts) => parts,
    };
    let mut value = select_value(row, base.as_str())?;
    let steps = pieces(paths.as_str(), "->");
    let ghost model = steps.deep_view();
    let mut i: usize = 0;
    while i < steps.len()
        invariant
            i <= steps.len(),
            path_of(row@, column@) == walked_from(value@, model, i as int),
        decreases steps.len() - i,
    {
        assert(model[i as int] == steps[i as int]@);
        let raw = steps[i].as_str();
        let key = trim_both(trim(trim_start(raw, '>').as_str()).as_str(), '"');
        if is_blank(key.as_str()) {
            return Err(unsupported("JSON path requires a key"));
        }
        value = walk(&value, key.as_str())?;
        if starts_with(raw, ">") {
            value = match value {
                Datum::Null => Datum::Null,
                Datum::String(s) => Datum::String(s),
                other => Datum::String(json_text(&other)),
            };
        }
        i += 1;
    }
    Ok(value)
}

// ---------------------------------------------------------------------------------------------
// Rows with a partner
// ---------------------------------------------------------------------------------------------

/// The inner relations of the fields from position `from` on, after those in `done`.
pub open spec fn inner_relations_from(fields: Seq<Seq<char>>, from: int, done: Seq<RelationModel>) -> Outcome<
    Seq<RelationModel>,
>
    decreases fields.len() - from,
{
    if from < 0 || from >= fields.len() {
        Ok(done)
    } else {
        match relation_of(fields[from]) {
            Err(error) => Err(error),
            Ok(found) => inner_relations_from(
                fields,
                from + 1,
                if found is Some && found->Some_0.inner {
                    done.push(found->Some_0)
                } else {
                    done
                },
            ),
        }
    }
}

fn inner_relations(fields: &Vec<String>) -> (result: Result<Vec<RelationSpec>>)
    ensures
        outcome(result) == inner_relations_from(fields.deep_view(), 0, Seq::empty()),
{
    let mut done: Vec<RelationSpec> = no_items();
    let ghost model = fields.deep_view();
    let mut i: usize = 0;
    while i < fields.len()
        invariant
            i <= fields.len(),
            model == fields.deep_view(),
            inner_relations_from(model, 0, Seq::empty()) == inner_relations_from(
                model,
                i as int,
                done.deep_view(),
            ),
        decreases fields.len() - i,
    {
        assert(model[i as int] == fields[i as int]@);
        match relation_spec(fields[i].as_str())? {
            Some(found) => {
                if found.inner {
                    add_last(&mut done, found);
                }
            },
            None => {},
        }
        i += 1;
    }
    Ok(done)
}

/// Whether a row has a partner in every relation from position `from` on.
pub open spec fn partnered_from(
    row: Json,
    relations: Seq<RelationModel>,
    params: ParamsModel,
    database: DatabaseModel,
    table: TableModel,
    caller: AuthModel,
    from: int,
) -> Outcome<bool>
    decreases relations.len() - from,
{
    if from < 0 || from >= relations.len() {
        Ok(true)
    } else {
        match resolved(database, table, relations[from]) {
            Err(error) => Err(error),
            Ok(relation) => match related_rows(database, relation.target, relations[from], params, caller) {
                Err(error) => Err(error),
                Ok(others) => if linked_rows_from(row, others, relation, 0, Seq::empty()).len() == 0 {
                    Ok(false)
                } else {
                    partnered_from(row, relations, params, database, table, caller, from + 1)
                },
            },
        }
    }
}

fn partnered(
    row: &Datum,
    relations: &Vec<RelationSpec>,
    params: &Params,
    db: &Database,
    table: &Table,
    context: &AuthContext,
) -> (result: Result<bool>)
    ensures
        outcome(result) == partnered_from(
            row@,
            relations.deep_view(),
            params.deep_view(),
            db.deep_view(),
            table.deep_view(),
            context.deep_view(),
            0,
        ),
{
    let ghost model = relations.deep_view();
    let mut i: usize = 0;
    while i < relations.len()
        invariant
            i <= relations.len(),
            model == relations.deep_view(),
            partnered_from(
                row@,
                model,
                params.deep_view(),
                db.deep_view(),
                table.deep_view(),
                context.deep_view(),
                0,
            ) == partnered_from(
                row@,
                model,
                params.deep_view(),
                db.deep_view(),
                table.deep_view(),
                context.deep_view(),
                i as int,
            ),
        decreases relations.len() - i,
    {
        assert(model[i as int] == relations[i as int].deep_view());
        let relation = resolve_relation(db, table, &relations[i])?;
        let others = relation_rows(db, relation.target, &relations[i], params, context)?;
        let found = linked_rows(row, &others, &relation);
        if found.len() == 0 {
            return Ok(false);
        }
        i += 1;
    }
    Ok(true)
}

/// The rows from position `from` on with a partner in every relation, after those in `done`.
pub open spec fn partnered_rows_from(
    rows: Seq<Json>,
    relations: Seq<RelationModel>,
    params: ParamsModel,
    database: DatabaseModel,
    table: TableModel,
    caller: AuthModel,
    from: int,
    done: Seq<Json>,
) -> Outcome<Seq<Json>>
    decreases rows.len() - from,
{
    if from < 0 || from >= rows.len() {
        Ok(done)
    } else {
        match partnered_from(rows[from], relations, params, database, table, caller, 0) {
            Err(error) => Err(error),
            Ok(keep) => partnered_rows_from(
                rows,
                relations,
                params,
                database,
                table,
                caller,
                from + 1,
                if keep {
                    done.push(rows[from])
                } else {
                    done
                },
            ),
        }
    }
}

/// The rows that have a partner in every `!inner` relation of a select list.
pub open spec fn referenced_rows(
    rows: Seq<Json>,
    select: Seq<char>,
    params: ParamsModel,
    database: DatabaseModel,
    table: TableModel,
    caller: AuthModel,
) -> Outcome<Seq<Json>> {
    match split_of(select) {
        Err(error) => Err(error),
        Ok(fields) => match inner_relations_from(fields, 0, Seq::empty()) {
            Err(error) => Err(error),
            Ok(relations) => if relations.len() == 0 {
                Ok(rows)
            } else {
                partnered_rows_from(rows, relations, params, database, table, caller, 0, Seq::empty())
            },
        },
    }
}

/// The rows that have a partner in every `!inner` relation of a select list. Applied before the rows
/// are counted and cut into pages.
#[verifier::loop_isolation(false)]
pub fn filter_referenced_rows(
    rows: Vec<Datum>,
    select: &str,
    params: &Params,
    db: &Database,
    table: &Table,
    context: &AuthContext,
) -> (result: Result<Vec<Datum>>)
    ensures
        outcome(result) == referenced_rows(
            rows.deep_view(),
            select@,
            params.deep_view(),
            db.deep_view(),
            table.deep_view(),
            context.deep_view(),
        ),
{
    let fields = split(select)?;
    let relations = inner_relations(&fields)?;
    if relations.len() == 0 {
        return Ok(rows);
    }
    let mut done: Vec<Datum> = no_items();
    let ghost model = rows.deep_view();
    let ghost wanted = relations.deep_view();
    let ghost p = params.deep_view();
    let ghost d = db.deep_view();
    let ghost t = table.deep_view();
    let ghost c = context.deep_view();
    let mut i: usize = 0;
    while i < rows.len()
        invariant
            i <= rows.len(),
            model == rows.deep_view(),
            partnered_rows_from(model, wanted, p, d, t, c, 0, Seq::empty()) == partnered_rows_from(
                model,
                wanted,
                p,
                d,
                t,
                c,
                i as int,
                done.deep_view(),
            ),
        decreases rows.len() - i,
    {
        assert(model[i as int] == rows[i as int]@);
        let keep = partnered(&rows[i], &relations, params, db, table, context)?;
        if keep {
            add_last(&mut done, rows[i].copied());
        }
        i += 1;
    }
    Ok(done)
}

// ---------------------------------------------------------------------------------------------
// Projection
// ---------------------------------------------------------------------------------------------

/// The entries of an object; none for any other value.
pub open spec fn entries_of(row: Json) -> Seq<(Seq<char>, Json)> {
    match row {
        Json::Object(entries) => entries,
        _ => Seq::empty(),
    }
}

/// What an embedded relation gives: the last linked row of a key on the side of the request, all
/// linked rows of a key on the other side.
pub open spec fn embedded(values: Seq<Json>, outgoing: bool) -> Json {
    if outgoing {
        if values.len() > 0 {
            values.last()
        } else {
            Json::Null
        }
    } else {
        Json::Array(values)
    }
}

/// Rows with the fields of a select list: all columns, columns and paths under their aliases, and
/// embedded relations.
pub open spec fn projected(
    rows: Seq<Json>,
    select: Seq<char>,
    params: ParamsModel,
    database: DatabaseModel,
    table: TableModel,
    caller: AuthModel,
) -> Outcome<Seq<Json>>
    decreases select.len(), 3int, 0int,
{
    match split_of(select) {
        Err(error) => Err(error),
        Ok(fields) => projected_from(
            rows,
            fields,
            select.len(),
            params,
            database,
            table,
            caller,
            0,
            Seq::empty(),
        ),
    }
}

/// The projections of the rows from position `from` on, after those in `done`.
pub open spec fn projected_from(
    rows: Seq<Json>,
    fields: Seq<Seq<char>>,
    bound: nat,
    params: ParamsModel,
    database: DatabaseModel,
    table: TableModel,
    caller: AuthModel,
    from: int,
    done: Seq<Json>,
) -> Outcome<Seq<Json>>
    decreases bound, 2int, rows.len() - from,
{
    if from < 0 || from >= rows.len() {
        Ok(done)
    } else {
        match fields_from(rows[from], fields, bound, params, database, table, caller, 0, Seq::empty()) {
            Err(error) => Err(error),
            Ok(row) => projected_from(
                rows,
                fields,
                bound,
                params,
                database,
                table,
                caller,
                from + 1,
                done.push(Json::Object(row)),
            ),
        }
    }
}

/// The fields of one row from position `from` on, put into `done`. A relation nests less than
/// `bound` characters.
pub open spec fn fields_from(
    row: Json,
    fields: Seq<Seq<char>>,
    bound: nat,
    params: ParamsModel,
    database: DatabaseModel,
    table: TableModel,
    caller: AuthModel,
    from: int,
    done: Seq<(Seq<char>, Json)>,
) -> Outcome<Seq<(Seq<char>, Json)>>
    decreases bound, 1int, fields.len() - from,
{
    if from < 0 || from >= fields.len() {
        Ok(done)
    } else {
        let next = if fields[from] == "*"@ {
            Ok(put_all(done, entries_of(row)))
        } else {
            match relation_of(fields[from]) {
                Err(error) => Err(error),
                Ok(Some(relation)) => match resolved(database, table, relation) {
                    Err(error) => Err(error),
                    Ok(found) => match related_rows(database, found.target, relation, params, caller) {
                        Err(error) => Err(error),
                        Ok(others) => if relation.nested.len() < bound {
                            match projected(
                                linked_rows_from(row, others, found, 0, Seq::empty()),
                                relation.nested,
                                params,
                                database,
                                found.target,
                                caller,
                            ) {
                                Err(error) => Err(error),
                                Ok(values) => Ok(put(done, relation.alias, embedded(values, found.outgoing))),
                            }
                        } else {
                            Err(unsupported_failure("Unclosed relation"@))
                        },
                    },
                },
                Ok(None) => {
                    let (alias, column) = aliased(fields[from]);
                    match path_of(row, column) {
                        Err(error) => Err(error),
                        Ok(value) => Ok(put(done, alias, value)),
                    }
                },
            }
        };
        match next {
            Err(error) => Err(error),
            Ok(more) => fields_from(row, fields, bound, params, database, table, caller, from + 1, more),
        }
    }
}

/// Rows with the fields of a select list, and the filters of its embedded relations applied.
pub fn project_with_params(
    rows: Vec<Datum>,
    select: &str,
    params: &Params,
    db: &Database,
    table: &Table,
    context: &AuthContext,
) -> (result: Result<Vec<Datum>>)
    ensures
        outcome(result) == projected(
            rows.deep_view(),
            select@,
            params.deep_view(),
            db.deep_view(),
            table.deep_view(),
            context.deep_view(),
        ),
    decreases select@.len(), 3int,
{
    let fields = split(select)?;
    project_rows(&rows, &fields, select, params, db, table, context)
}

#[verifier::loop_isolation(false)]
fn project_rows(
    rows: &Vec<Datum>,
    fields: &Vec<String>,
    select: &str,
    params: &Params,
    db: &Database,
    table: &Table,
    context: &AuthContext,
) -> (result: Result<Vec<Datum>>)
    requires
        forall|k: int| 0 <= k < fields.len() ==> (#[trigger] fields[k])@.len() <= select@.len(),
    ensures
        outcome(result) == projected_from(
            rows.deep_view(),
            fields.deep_view(),
            select@.len(),
            params.deep_view(),
            db.deep_view(),
            table.deep_view(),
            context.deep_view(),
            0,
            Seq::empty(),
        ),
    decreases select@.len(), 2int,
{
    let mut done: Vec<Datum> = no_items();
    let ghost model = rows.deep_view();
    let ghost f = fields.deep_view();
    let ghost p = params.deep_view();
    let ghost d = db.deep_view();
    let ghost t = table.deep_view();
    let ghost c = context.deep_view();
    let mut i: usize = 0;
    while i < rows.len()
        invariant
            i <= rows.len(),
            projected_from(model, f, select@.len(), p, d, t, c, 0, Seq::empty()) == projected_from(
                model,
                f,
                select@.len(),
                p,
                d,
                t,
                c,
                i as int,
                done.deep_view(),
            ),
        decreases rows.len() - i,
    {
        assert(model[i as int] == rows[i as int]@);
        let row = project_row(&rows[i], fields, select, params, db, table, context)?;
        add_last(&mut done, Datum::Object(row));
        i += 1;
    }
    Ok(done)
}

#[verifier::loop_isolation(false)]
fn project_row(
    row: &Datum,
    fields: &Vec<String>,
    select: &str,
    params: &Params,
    db: &Database,
    table: &Table,
    context: &AuthContext,
) -> (result: Result<OrdMap<String, Datum>>)
    requires
        forall|k: int| 0 <= k < fields.len() ==> (#[trigger] fields[k])@.len() <= select@.len(),
    ensures
        outcome(result) == fields_from(
            row@,
            fields.deep_view(),
            select@.len(),
            params.deep_view(),
            db.deep_view(),
            table.deep_view(),
            context.deep_view(),
            0,
            Seq::empty(),
        ),
    decreases select@.len(), 1int,
{
    let mut done: OrdMap<String, Datum> = OrdMap::new();
    let ghost f = fields.deep_view();
    let ghost p = params.deep_view();
    let ghost d = db.deep_view();
    let ghost t = table.deep_view();
    let ghost c = context.deep_view();
    let mut i: usize = 0;
    while i < fields.len()
        invariant
            i <= fields.len(),
            fields_from(row@, f, select@.len(), p, d, t, c, 0, Seq::empty()) == fields_from(
                row@,
                f,
                select@.len(),
                p,
                d,
                t,
                c,
                i as int,
                done@,
            ),
        decreases fields.len() - i,
    {
        assert(f[i as int] == fields[i as int]@);
        let field = fields[i].as_str();
        if same(field, "*") {
            match row {
                Datum::Object(map) => {
                    done.extend(map);
                },
                _ => {
                    assert(put_all(done@, Seq::<(Seq<char>, Json)>::empty()) == done@);
                },
            }
        } else {
            match relation_spec(field)? {
                Some(relation) => {
                    let value = embed_relation(row, &relation, params, db, table, context)?;
                    done.insert(relation.alias, value);
                },
                None => {
                    let (alias, column) = alias_of(field);
                    let value = json_path(row, column.as_str())?;
                    done.insert(alias, value);
                },
            }
        }
        i += 1;
    }
    Ok(done)
}

/// The value of an embedded relation in a row.
pub open spec fn relation_value(
    row: Json,
    relation: RelationModel,
    params: ParamsModel,
    database: DatabaseModel,
    table: TableModel,
    caller: AuthModel,
) -> Outcome<Json> {
    match resolved(database, table, relation) {
        Err(error) => Err(error),
        Ok(found) => match related_rows(database, found.target, relation, params, caller) {
            Err(error) => Err(error),
            Ok(others) => match projected(
                linked_rows_from(row, others, found, 0, Seq::empty()),
                relation.nested,
                params,
                database,
                found.target,
                caller,
            ) {
                Err(error) => Err(error),
                Ok(values) => Ok(embedded(values, found.outgoing)),
            },
        },
    }
}

fn embed_relation(
    row: &Datum,
    embed: &RelationSpec,
    params: &Params,
    db: &Database,
    table: &Table,
    context: &AuthContext,
) -> (result: Result<Datum>)
    ensures
        outcome(result) == relation_value(
            row@,
            embed.deep_view(),
            params.deep_view(),
            db.deep_view(),
            table.deep_view(),
            context.deep_view(),
        ),
    decreases embed.nested@.len(), 4int,
{
    let relation = resolve_relation(db, table, embed)?;
    let others = relation_rows(db, relation.target, embed, params, context)?;
    let found = linked_rows(row, &others, &relation);
    let mut values = project_with_params(found, embed.nested.as_str(), params, db, relation.target, context)?;
    if relation.outgoing {
        let ghost model = values.deep_view();
        match values.pop() {
            Some(last) => {
                assert(last@ == model.last());
                Ok(last)
            },
            None => Ok(Datum::Null),
        }
    } else {
        Ok(Datum::Array(values))
    }
}

/// Rows with the fields of a select list.
pub fn project(rows: Vec<Datum>, select: &str, db: &Database, table: &Table, context: &AuthContext) -> (result: Result<
    Vec<Datum>,
>)
    ensures
        outcome(result) == projected(
            rows.deep_view(),
            select@,
            Seq::empty(),
            db.deep_view(),
            table.deep_view(),
            context.deep_view(),
        ),
{
    let none: Params = no_items();
    project_with_params(rows, select, &none, db, table, context)
}

} // verus!
