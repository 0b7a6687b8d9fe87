//! CREATE TABLE with constraint timing, which the SQL parser does not read: the timing clauses are
//! taken out of the statement and applied to the table that the rest creates.

use vstd::prelude::*;
use crate::alter::with_table;
use crate::ast::{
    first, first_of, ident, ident_name, ident_names, names, parse_statements, statements_of, table_name,
    table_name_of, tokens, words_of,
};
use crate::catalog::{
    AuthContext, AuthModel, Database, DatabaseModel, ForeignKey, ForeignKeyModel, ResultModel, SqlResult, TableModel,
};
use crate::error::{err, failure, outcome, unsupported, unsupported_failure, Outcome, Result};
use crate::json::{group_value_views, Datum, Json};
use crate::ordmap::{get, has_key, put, OrdMap};
use crate::policy::handled;
use crate::replica::{add_last, no_items, one_item, Replica};
use crate::rules::database_valid;
use crate::statement::{execute_statement, statement_executed};
use crate::text::{alike, cat3, cat5, is_alike, join, joined, same, same_names};
use crate::value::{child, item, items, payload, tag};
use crate::words::{find_word, phrase, slice, to_phrase, word_from, word_is};

verus! {

broadcast use group_value_views;

/// The first position at or after `from` of the word in any case, or the length.
pub open spec fn alike_from(words: Seq<Seq<char>>, word: Seq<char>, from: int) -> int
    decreases words.len() - from,
{
    if from < 0 || from >= words.len() {
        words.len() as int
    } else if alike(words[from], word) {
        from
    } else {
        alike_from(words, word, from + 1)
    }
}

fn find_alike(words: &Vec<String>, word: &str) -> (result: usize)
    ensures
        result == alike_from(words.deep_view(), word@, 0),
        result <= words.len(),
{
    let mut i: usize = 0;
    while i < words.len()
        invariant
            i <= words.len(),
            alike_from(words.deep_view(), word@, 0) == alike_from(words.deep_view(), word@, i as int),
        decreases words.len() - i,
    {
        assert(words.deep_view()[i as int] == words[i as int]@);
        if is_alike(words[i].as_str(), word) {
            return i;
        }
        i += 1;
    }
    i
}

// ---------------------------------------------------------------------------------------------
// The parts of the definition
// ---------------------------------------------------------------------------------------------

/// The parts of a parenthesized definition cut at its own commas, and where it closes; `part` is
/// where the current part starts.
pub open spec fn parts_from(
    words: Seq<Seq<char>>,
    from: int,
    depth: int,
    part: int,
    done: Seq<Seq<Seq<char>>>,
) -> Option<(Seq<Seq<Seq<char>>>, int)>
    decreases words.len() - from,
{
    if from < 0 || from >= words.len() {
        None
    } else if words[from] == "("@ {
        parts_from(words, from + 1, depth + 1, part, done)
    } else if words[from] == ")"@ {
        if depth == 1 {
            Some((done.push(words.subrange(part, from)), from))
        } else {
            parts_from(words, from + 1, depth - 1, part, done)
        }
    } else if words[from] == ","@ && depth == 1 {
        parts_from(words, from + 1, depth, from + 1, done.push(words.subrange(part, from)))
    } else {
        parts_from(words, from + 1, depth, part, done)
    }
}

fn find_parts(words: &Vec<String>, start: usize) -> (result: Option<(Vec<Vec<String>>, usize)>)
    requires
        word_is(words.deep_view(), start as int, "("@),
    ensures
        (match result {
            Some((parts, end)) => Some((parts.deep_view(), end as int)),
            None => None,
        }) == parts_from(words.deep_view(), start as int, 0, start + 1, Seq::empty()),
        result matches Some((_, end)) ==> start <= end < words.len(),
{
    let ghost model = words.deep_view();
    let mut done: Vec<Vec<String>> = no_items();
    let mut depth: i128 = 1;
    assert(start < words.len());
    let mut part: usize = start + 1;
    let mut i: usize = start + 1;
    while i < words.len()
        invariant
            start < part <= i <= words.len(),
            model == words.deep_view(),
            start - i <= depth <= i - start,
            parts_from(model, start as int, 0, start + 1, Seq::empty()) == parts_from(
                model,
                i as int,
                depth as int,
                part as int,
                done.deep_view(),
            ),
        decreases words.len() - i,
    {
        assert(model[i as int] == words[i as int]@);
        if same(words[i].as_str(), "(") {
            depth += 1;
        } else if same(words[i].as_str(), ")") {
            if depth == 1 {
                add_last(&mut done, slice(words, part, i));
                return Some((done, i));
            }
            depth -= 1;
        } else if same(words[i].as_str(), ",") && depth == 1 {
            add_last(&mut done, slice(words, part, i));
            part = i + 1;
        }
        i += 1;
    }
    None
}

/// Whether a constraint starts deferred, by the words that follow DEFERRABLE.
pub open spec fn starts_deferred(suffix: Seq<Seq<char>>, not_deferrable: bool) -> Outcome<bool> {
    if suffix.len() == 0 {
        Ok(false)
    } else if suffix.len() == 2 && alike(suffix[0], "INITIALLY"@) && alike(suffix[1], "IMMEDIATE"@) {
        Ok(false)
    } else if suffix.len() == 2 && alike(suffix[0], "INITIALLY"@) && alike(suffix[1], "DEFERRED"@)
        && !not_deferrable {
        Ok(true)
    } else {
        Err(
            failure(
                "SyntaxError"@,
                "Expected DEFERRABLE [INITIALLY IMMEDIATE/DEFERRED] at the end of the constraint"@,
            ),
        )
    }
}

fn is_start_deferred(suffix: &Vec<String>, not_deferrable: bool) -> (result: Result<bool>)
    ensures
        outcome(result) == starts_deferred(suffix.deep_view(), not_deferrable),
{
    if suffix.len() == 0 {
        return Ok(false);
    }
    if suffix.len() == 2 {
        assert(suffix.deep_view()[0] == suffix[0]@);
        assert(suffix.deep_view()[1] == suffix[1]@);
        if is_alike(suffix[0].as_str(), "INITIALLY") && is_alike(suffix[1].as_str(), "IMMEDIATE") {
            return Ok(false);
        }
        if is_alike(suffix[0].as_str(), "INITIALLY") && is_alike(suffix[1].as_str(), "DEFERRED")
            && !not_deferrable {
            return Ok(true);
        }
    }
    Err(
        err(
            "SyntaxError",
            "Expected DEFERRABLE [INITIALLY IMMEDIATE/DEFERRED] at the end of the constraint",
        ),
    )
}

// ---------------------------------------------------------------------------------------------
// The constraints of a part
// ---------------------------------------------------------------------------------------------

/// The keys that can be timed: unique keys and the columns of foreign keys.
pub struct TimedKeys {
    pub unique: Vec<Vec<String>>,
    pub foreign: Vec<Vec<String>>,
}

/// [`TimedKeys`] in specifications.
pub struct TimedKeysModel {
    pub unique: Seq<Seq<Seq<char>>>,
    pub foreign: Seq<Seq<Seq<char>>>,
}

impl DeepView for TimedKeys {
    type V = TimedKeysModel;

    open spec fn deep_view(&self) -> TimedKeysModel {
        TimedKeysModel { unique: self.unique.deep_view(), foreign: self.foreign.deep_view() }
    }
}

/// The keys with one more, by the kind of constraint.
pub open spec fn key_found(kind: Seq<char>, key: Seq<Seq<char>>, found: TimedKeysModel) -> TimedKeysModel {
    if kind == "Unique"@ {
        TimedKeysModel { unique: found.unique.push(key), ..found }
    } else if kind == "ForeignKey"@ {
        TimedKeysModel { foreign: found.foreign.push(key), ..found }
    } else {
        found
    }
}

/// The keys that the options of a column from position `from` on declare.
pub open spec fn option_keys_from(name: Seq<char>, options: Json, from: int, found: TimedKeysModel) -> TimedKeysModel
    decreases items(options).len() - from,
{
    if from < 0 || from >= items(options).len() {
        found
    } else {
        option_keys_from(
            name,
            options,
            from + 1,
            key_found(tag(child(items(options)[from], "option"@)), seq![name], found),
        )
    }
}

/// The keys that the columns from position `from` on declare.
pub open spec fn column_keys_from(columns: Json, from: int, found: TimedKeysModel) -> TimedKeysModel
    decreases items(columns).len() - from,
{
    if from < 0 || from >= items(columns).len() {
        found
    } else {
        let column = items(columns)[from];
        column_keys_from(
            columns,
            from + 1,
            option_keys_from(
                ident_name(child(column, "name"@)),
                child(column, "options"@),
                0,
                found,
            ),
        )
    }
}

/// The keys that the constraints from position `from` on declare.
pub open spec fn constraint_keys_from(constraints: Json, from: int, found: TimedKeysModel) -> TimedKeysModel
    decreases items(constraints).len() - from,
{
    if from < 0 || from >= items(constraints).len() {
        found
    } else {
        let constraint = items(constraints)[from];
        constraint_keys_from(
            constraints,
            from + 1,
            key_found(
                tag(constraint),
                ident_names(child(payload(constraint), "columns"@)),
                found,
            ),
        )
    }
}

/// The keys that a CREATE TABLE declares.
pub open spec fn declared_keys(node: Json) -> TimedKeysModel {
    constraint_keys_from(
        child(node, "constraints"@),
        0,
        column_keys_from(
            child(node, "columns"@),
            0,
            TimedKeysModel { unique: Seq::empty(), foreign: Seq::empty() },
        ),
    )
}

fn add_key(kind: &str, key: Vec<String>, found: TimedKeys) -> (result: TimedKeys)
    ensures
        result.deep_view() == key_found(kind@, key.deep_view(), found.deep_view()),
{
    let mut found = found;
    if same(kind, "Unique") {
        add_last(&mut found.unique, key);
    } else if same(kind, "ForeignKey") {
        add_last(&mut found.foreign, key);
    }
    found
}

fn add_option_keys(name: &String, options: &Datum, start: TimedKeys) -> (result: TimedKeys)
    ensures
        result.deep_view() == option_keys_from(name@, options@, 0, start.deep_view()),
{
    let ghost initial = start.deep_view();
    let mut found = start;
    let count: usize = options.count();
    let mut i: usize = 0;
    while i < count
        invariant
            i <= count == items(options@).len(),
            option_keys_from(name@, options@, 0, initial) == option_keys_from(
                name@,
                options@,
                i as int,
                found.deep_view(),
            ),
        decreases count - i,
    {
        found = add_key(options.item(i).child("option").tag(), one_item(name.clone()), found);
        i += 1;
    }
    found
}

fn read_keys(node: &Datum) -> (result: TimedKeys)
    ensures
        result.deep_view() == declared_keys(node@),
{
    let mut found = TimedKeys { unique: no_items(), foreign: no_items() };
    let ghost initial = found.deep_view();
    let columns = node.child("columns");
    let count: usize = columns.count();
    let mut i: usize = 0;
    while i < count
        invariant
            i <= count == items(columns@).len(),
            column_keys_from(columns@, 0, initial) == column_keys_from(
                columns@,
                i as int,
                found.deep_view(),
            ),
        decreases count - i,
    {
        let column = columns.item(i);
        found = add_option_keys(&ident(column.child("name")), column.child("options"), found);
        i += 1;
    }
    let ghost middle = found.deep_view();
    let constraints = node.child("constraints");
    let more: usize = constraints.count();
    i = 0;
    while i < more
        invariant
            i <= more == items(constraints@).len(),
            constraint_keys_from(constraints@, 0, middle) == constraint_keys_from(
                constraints@,
                i as int,
                found.deep_view(),
            ),
        decreases more - i,
    {
        let constraint = constraints.item(i);
        found = add_key(constraint.tag(), names(constraint.payload().child("columns")), found);
        i += 1;
    }
    found
}

// ---------------------------------------------------------------------------------------------
// Taking the timing out
// ---------------------------------------------------------------------------------------------

/// The definition without timing, and the keys that start deferred.
pub struct Untimed {
    pub parts: Vec<String>,
    pub deferred: TimedKeys,
}

/// [`Untimed`] in specifications.
pub struct UntimedModel {
    pub parts: Seq<Seq<char>>,
    pub deferred: TimedKeysModel,
}

impl DeepView for Untimed {
    type V = UntimedModel;

    open spec fn deep_view(&self) -> UntimedModel {
        UntimedModel { parts: self.parts.deep_view(), deferred: self.deferred.deep_view() }
    }
}

/// A part of the definition without its timing, and the keys that it declares deferred.
pub open spec fn part_untimed(part: Seq<Seq<char>>) -> Outcome<(Seq<char>, TimedKeysModel)> {
    let none = TimedKeysModel { unique: Seq::empty(), foreign: Seq::empty() };
    let index = alike_from(part, "DEFERRABLE"@, 0);
    if index >= part.len() {
        Ok((joined(part, " "@), none))
    } else {
        let negated = index > 0 && alike(part[index - 1], "NOT"@);
        let end = if negated {
            index - 1
        } else {
            index
        };
        match starts_deferred(part.subrange(index + 1, part.len() as int), negated) {
            Err(error) => Err(error),
            Ok(deferred) => {
                let text = phrase(part, 0, end);
                match statements_of("CREATE TABLE __constraint ("@ + text + ")"@) {
                    Err(error) => Err(error),
                    Ok(list) => if tag(first_of(list)) != "CreateTable"@ {
                        Err(failure("SyntaxError"@, "Invalid timed constraint"@))
                    } else {
                        let keys = declared_keys(payload(first_of(list)));
                        if keys.unique.len() == 0 && keys.foreign.len() == 0 {
                            Err(
                                unsupported_failure(
                                    "Only PRIMARY KEY, UNIQUE and FOREIGN KEY can be deferred"@,
                                ),
                            )
                        } else {
                            Ok(
                                (
                                    text,
                                    if deferred {
                                        keys
                                    } else {
                                        none
                                    },
                                ),
                            )
                        }
                    },
                }
            },
        }
    }
}

/// The definition without the timing of the parts from position `from` on.
pub open spec fn parts_untimed_from(parts: Seq<Seq<Seq<char>>>, from: int, done: UntimedModel) -> Outcome<UntimedModel>
    decreases parts.len() - from,
{
    if from < 0 || from >= parts.len() {
        Ok(done)
    } else {
        match part_untimed(parts[from]) {
            Err(error) => Err(error),
            Ok((text, keys)) => parts_untimed_from(
                parts,
                from + 1,
                (UntimedModel {
                    parts: done.parts.push(text),
                    deferred: TimedKeysModel {
                        unique: done.deferred.unique + keys.unique,
                        foreign: done.deferred.foreign + keys.foreign,
                    },
                }),
            ),
        }
    }
}

fn untime_part(part: &Vec<String>) -> (result: Result<(String, TimedKeys)>)
    ensures
        outcome(result) == part_untimed(part.deep_view()),
{
    let none = TimedKeys { unique: no_items(), foreign: no_items() };
    let index: usize = find_alike(part, "DEFERRABLE");
    if index >= part.len() {
        return Ok((join(part, " "), none));
    }
    let mut end: usize = index;
    let mut negated: bool = false;
    if index > 0 {
        assert(part.deep_view()[index - 1] == part[index - 1]@);
        if is_alike(part[index - 1].as_str(), "NOT") {
            negated = true;
            end = index - 1;
        }
    }
    let deferred = is_start_deferred(&slice(part, index + 1, part.len()), negated)?;
    let text = to_phrase(part, 0, end);
    let list = parse_statements(cat3("CREATE TABLE __constraint (", text.as_str(), ")").as_str())?;
    let statement = first(&list);
    if !statement.is("CreateTable") {
        return Err(err("SyntaxError", "Invalid timed constraint"));
    }
    let keys = read_keys(statement.payload());
    if keys.unique.len() == 0 && keys.foreign.len() == 0 {
        return Err(unsupported("Only PRIMARY KEY, UNIQUE and FOREIGN KEY can be deferred"));
    }
    if deferred {
        Ok((text, keys))
    } else {
        Ok((text, none))
    }
}

fn append_keys(list: Vec<Vec<String>>, more: Vec<Vec<String>>) -> (result: Vec<Vec<String>>)
    ensures
        result.deep_view() == list.deep_view() + more.deep_view(),
{
    let ghost before = list.deep_view();
    let ghost added = more.deep_view();
    let mut list = list;
    let mut more = more;
    list.append(&mut more);
    assert(list.deep_view() =~= before + added);
    list
}

fn untime_parts(parts: &Vec<Vec<String>>) -> (result: Result<Untimed>)
    ensures
        outcome(result) == parts_untimed_from(
            parts.deep_view(),
            0,
            (UntimedModel {
                parts: Seq::empty(),
                deferred: TimedKeysModel { unique: Seq::empty(), foreign: Seq::empty() },
            }),
        ),
{
    let ghost model = parts.deep_view();
    let mut done = Untimed {
        parts: no_items(),
        deferred: TimedKeys { unique: no_items(), foreign: no_items() },
    };
    let ghost initial = done.deep_view();
    assert(initial == (UntimedModel {
        parts: Seq::empty(),
        deferred: TimedKeysModel { unique: Seq::empty(), foreign: Seq::empty() },
    }));
    let mut i: usize = 0;
    while i < parts.len()
        invariant
            i <= parts.len(),
            model == parts.deep_view(),
            initial == (UntimedModel {
                parts: Seq::empty(),
                deferred: TimedKeysModel { unique: Seq::empty(), foreign: Seq::empty() },
            }),
            parts_untimed_from(model, 0, initial) == parts_untimed_from(
                model,
                i as int,
                done.deep_view(),
            ),
        decreases parts.len() - i,
    {
        assert(model[i as int] == parts[i as int].deep_view());
        let (text, keys) = untime_part(&parts[i])?;
        add_last(&mut done.parts, text);
        done.deferred = TimedKeys {
            unique: append_keys(done.deferred.unique, keys.unique),
            foreign: append_keys(done.deferred.foreign, keys.foreign),
        };
        i += 1;
    }
    Ok(done)
}

// ---------------------------------------------------------------------------------------------
// Applying the timing
// ---------------------------------------------------------------------------------------------

/// The set with the keys from position `from` on added.
pub open spec fn keys_added_from(
    set: Seq<(Seq<Seq<char>>, ())>,
    keys: Seq<Seq<Seq<char>>>,
    from: int,
) -> Seq<(Seq<Seq<char>>, ())>
    decreases keys.len() - from,
{
    if from < 0 || from >= keys.len() {
        set
    } else {
        keys_added_from(put(set, keys[from], ()), keys, from + 1)
    }
}

/// Whether one of the keys is this one.
pub open spec fn key_listed(keys: Seq<Seq<Seq<char>>>, key: Seq<Seq<char>>) -> bool {
    exists|i: int| 0 <= i < keys.len() && #[trigger] keys[i] == key
}

/// The foreign keys with those on the given columns deferred.
pub open spec fn foreign_keys_deferred(keys: Seq<ForeignKeyModel>, columns: Seq<Seq<Seq<char>>>) -> Seq<ForeignKeyModel> {
    Seq::new(
        keys.len(),
        |i: int|
            (ForeignKeyModel {
                deferred: keys[i].deferred || key_listed(columns, keys[i].columns),
                ..keys[i]
            }),
    )
}

/// The table with its deferred keys marked.
pub open spec fn table_timed(table: TableModel, keys: TimedKeysModel) -> TableModel {
    TableModel {
        deferred_unique: keys_added_from(table.deferred_unique, keys.unique, 0),
        foreign_keys: foreign_keys_deferred(table.foreign_keys, keys.foreign),
        ..table
    }
}

/// The statement without timing, and the keys that start deferred.
pub open spec fn statement_untimed(words: Seq<Seq<char>>) -> Outcome<(Seq<char>, TimedKeysModel)> {
    let start = word_from(words, "("@, 0);
    if words.len() < 4 || !alike(words[0], "CREATE"@) || !alike(words[1], "TABLE"@) {
        Err(unsupported_failure("Constraint timing currently requires CREATE TABLE"@))
    } else if start >= words.len() {
        Err(failure("SyntaxError"@, "Missing table definition"@))
    } else {
        match parts_from(words, start, 0, start + 1, Seq::empty()) {
            None => Err(failure("SyntaxError"@, "Unclosed table definition"@)),
            Some((parts, end)) => match parts_untimed_from(
                parts,
                0,
                (UntimedModel {
                    parts: Seq::empty(),
                    deferred: TimedKeysModel { unique: Seq::empty(), foreign: Seq::empty() },
                }),
            ) {
                Err(error) => Err(error),
                Ok(done) => Ok(
                    (
                        phrase(words, 0, start) + " ( "@ + joined(done.parts, " , "@) + " ) "@ + phrase(
                            words,
                            end + 1,
                            words.len() as int,
                        ),
                        done.deferred,
                    ),
                ),
            },
        }
    }
}

/// The state and the result after the statement without timing, the deferred keys marked.
pub open spec fn timed_created(
    database: DatabaseModel,
    sql: Seq<char>,
    keys: TimedKeysModel,
    caller: AuthModel,
) -> Outcome<(DatabaseModel, ResultModel)> {
    match statements_of(sql) {
        Err(error) => Err(error),
        Ok(list) => if tag(first_of(list)) != "CreateTable"@ {
            Err(failure("SyntaxError"@, "Expected CREATE TABLE"@))
        } else {
            match table_name_of(child(payload(first_of(list)), "name"@)) {
                Err(error) => Err(error),
                Ok(name) => match statement_executed(database, first_of(list), caller) {
                    Err(error) => Err(error),
                    Ok((next, result)) => if has_key(database.catalog, name) {
                        Ok((next, result))
                    } else {
                        match get(next.catalog, name) {
                            None => Err(failure("UndefinedTable"@, name)),
                            Some(table) => Ok(
                                (with_table(next, name, table_timed(table, keys)), result),
                            ),
                        }
                    },
                },
            }
        },
    }
}

/// The state after a CREATE TABLE with constraint timing; nothing for any other statement.
pub open spec fn deferred_executed(database: DatabaseModel, sql: Seq<char>, caller: AuthModel) -> Outcome<
    Option<(DatabaseModel, ResultModel)>,
> {
    match words_of(sql) {
        Err(error) => Err(error),
        Ok(words) => if alike_from(words, "DEFERRABLE"@, 0) >= words.len() {
            Ok(None)
        } else {
            match statement_untimed(words) {
                Err(error) => Err(error),
                Ok((text, keys)) => match timed_created(database, text, keys, caller) {
                    Err(error) => Err(error),
                    Ok((next, result)) => match database_valid(next, caller, false) {
                        Err(error) => Err(error),
                        Ok(_) => Ok(Some((next, result))),
                    },
                },
            }
        },
    }
}

fn add_keys(start: OrdMap<Vec<String>, ()>, keys: &Vec<Vec<String>>) -> (result: OrdMap<Vec<String>, ()>)
    ensures
        result@ == keys_added_from(start@, keys.deep_view(), 0),
{
    let ghost initial = start@;
    let ghost model = keys.deep_view();
    let mut set = start;
    let mut i: usize = 0;
    while i < keys.len()
        invariant
            i <= keys.len(),
            model == keys.deep_view(),
            keys_added_from(initial, model, 0) == keys_added_from(set@, model, i as int),
        decreases keys.len() - i,
    {
        assert(model[i as int] == keys[i as int].deep_view());
        set.insert(keys[i].replica(), ());
        i += 1;
    }
    set
}

fn is_key_listed(keys: &Vec<Vec<String>>, key: &Vec<String>) -> (result: bool)
    ensures
        result == key_listed(keys.deep_view(), key.deep_view()),
{
    let mut i: usize = 0;
    while i < keys.len()
        invariant
            i <= keys.len(),
            forall|j: int| 0 <= j < i ==> #[trigger] keys.deep_view()[j] != key.deep_view(),
        decreases keys.len() - i,
    {
        assert(keys.deep_view()[i as int] == keys[i as int].deep_view());
        if same_names(&keys[i], key) {
            return true;
        }
        i += 1;
    }
    false
}

fn defer_foreign_keys(keys: &Vec<ForeignKey>, columns: &Vec<Vec<String>>) -> (result: Vec<ForeignKey>)
    ensures
        result.deep_view() == foreign_keys_deferred(keys.deep_view(), columns.deep_view()),
{
    let mut result: Vec<ForeignKey> = no_items();
    let ghost goal = foreign_keys_deferred(keys.deep_view(), columns.deep_view());
    let mut i: usize = 0;
    while i < keys.len()
        invariant
            i <= keys.len(),
            goal == foreign_keys_deferred(keys.deep_view(), columns.deep_view()),
            result.deep_view() == goal.take(i as int),
        decreases keys.len() - i,
    {
        let mut next = keys[i].replica();
        if is_key_listed(columns, &keys[i].columns) {
            next.deferred = true;
        }
        assert(next.deep_view() == goal[i as int]);
        add_last(&mut result, next);
        i += 1;
        assert(result.deep_view() =~= goal.take(i as int));
    }
    assert(goal.take(keys@.len() as int) =~= goal);
    result
}

fn untime_statement(words: &Vec<String>) -> (result: Result<(String, TimedKeys)>)
    ensures
        outcome(result) == statement_untimed(words.deep_view()),
{
    if words.len() < 4 {
        return Err(unsupported("Constraint timing currently requires CREATE TABLE"));
    }
    assert(words.deep_view()[0] == words[0]@);
    assert(words.deep_view()[1] == words[1]@);
    if !is_alike(words[0].as_str(), "CREATE") || !is_alike(words[1].as_str(), "TABLE") {
        return Err(unsupported("Constraint timing currently requires CREATE TABLE"));
    }
    let start: usize = find_word(words, "(", 0);
    if start >= words.len() {
        return Err(err("SyntaxError", "Missing table definition"));
    }
    proof {
        crate::words::word_from_found(words.deep_view(), "("@, 0);
    }
    match find_parts(words, start) {
        None => Err(err("SyntaxError", "Unclosed table definition")),
        Some((parts, end)) => {
            let done = untime_parts(&parts)?;
            let text = cat5(
                to_phrase(words, 0, start).as_str(),
                " ( ",
                join(&done.parts, " , ").as_str(),
                " ) ",
                to_phrase(words, end + 1, words.len()).as_str(),
            );
            Ok((text, done.deferred))
        },
    }
}

fn create_timed(database: Database, sql: &str, keys: &TimedKeys, context: &AuthContext) -> (result: Result<
    (Database, SqlResult),
>)
    ensures
        outcome(result) == timed_created(
            database.deep_view(),
            sql@,
            keys.deep_view(),
            context.deep_view(),
        ),
{
    let list = parse_statements(sql)?;
    let statement = first(&list);
    if !statement.is("CreateTable") {
        return Err(err("SyntaxError", "Expected CREATE TABLE"));
    }
    let name = table_name(statement.payload().child("name"))?;
    let existed = database.catalog.contains(&name);
    let (next, result) = execute_statement(database, statement, context)?;
    if existed {
        return Ok((next, result));
    }
    let mut table = match next.catalog.get(&name) {
        None => {
            return Err(err("UndefinedTable", name.as_str()));
        },
        Some(found) => found.replica(),
    };
    table.deferred_unique = add_keys(table.deferred_unique, &keys.unique);
    table.foreign_keys = defer_foreign_keys(&table.foreign_keys, &keys.foreign);
    let mut next = next;
    next.catalog.insert(name, table);
    Ok((next, result))
}

/// Executes a CREATE TABLE with constraint timing; nothing for any other statement.
pub fn deferred_statement(database: &Database, sql: &str, context: &AuthContext) -> (result: Result<
    Option<(Database, SqlResult)>,
>)
    ensures
        handled(result) == deferred_executed(database.deep_view(), sql@, context.deep_view()),
{
    let words = tokens(sql)?;
    if find_alike(&words, "DEFERRABLE") >= words.len() {
        return Ok(None);
    }
    let (text, keys) = untime_statement(&words)?;
    let (next, result) = create_timed(database.replica(), text.as_str(), &keys, context)?;
    next.validate_immediate(context)?;
    Ok(Some((next, result)))
}

} // verus!
