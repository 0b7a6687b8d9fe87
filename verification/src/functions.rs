//! Functions written in SQL: CREATE FUNCTION.

use vstd::prelude::*;
use crate::ast::{
    data_type, data_type_of, first, first_of, ident, ident_name, parse_relation, parse_statements, relation_of,
    statements_of, tokens, words_of, Expr,
};
use crate::catalog::{
    no_result, table_of, AuthContext, AuthModel, Database, DatabaseModel, FunctionModel, FunctionParameter,
    FunctionReturn, ParameterModel, ResultModel, ReturnModel, SqlFunction, SqlResult, Table,
};
use crate::depend::{change_schema, schema_changed};
use crate::error::{err, failure, outcome, unsupported, unsupported_failure, Outcome, Result};
use crate::json::{group_value_views, Datum, Json};
use crate::ordmap::{has_key, put};
use crate::outside::{lower, plain, plain_json, read_tokens, token_list, tokens_read, upper};
use crate::policy::handled;
use crate::replica::{add_last, no_items, Replica};
use crate::scalar::{check_type_supported, type_supported};
use crate::text::{cat2, cat3, is_listed, listed, owned, same};
use crate::value::{child, item, items, payload, tag, text};
use crate::words::{
    close_from, find_close, find_word, is_word, phrase, slice, to_phrase, to_upper, upper_all, word_from,
    word_is,
};

verus! {

broadcast use group_value_views;

// ---------------------------------------------------------------------------------------------
// Parts of a declaration
// ---------------------------------------------------------------------------------------------

/// The position of the parenthesis that closes the one at `start`.
pub open spec fn matching_close(words: Seq<Seq<char>>, start: int) -> Outcome<int> {
    if !word_is(words, start, "("@) {
        Err(failure("SyntaxError"@, "Expected opening parenthesis"@))
    } else {
        match close_from(words, start + 1, 1) {
            Some(end) => Ok(end),
            None => Err(failure("SyntaxError"@, "Unclosed function declaration"@)),
        }
    }
}

/// The position of the parenthesis that closes the one at `start`.
pub fn matching_paren(words: &Vec<String>, start: usize) -> (result: Result<usize>)
    ensures
        (match result {
            Ok(end) => Ok(end as int),
            Err(error) => Err(error@),
        }) == matching_close(words.deep_view(), start as int),
        result matches Ok(end) ==> start < end < words.len(),
{
    if !is_word(words, start, "(") {
        return Err(err("SyntaxError", "Expected opening parenthesis"));
    }
    assert(start < words.len());
    match find_close(words, start + 1) {
        Some(end) => Ok(end),
        None => Err(err("SyntaxError", "Unclosed function declaration")),
    }
}

/// The declarations of typed names in a text, as column definitions.
pub open spec fn declarations_of(sql: Seq<char>) -> Outcome<Json> {
    match statements_of("CREATE TABLE __parameters ("@ + sql + ")"@) {
        Err(error) => Err(error),
        Ok(list) => {
            let statement = first_of(list);
            if tag(statement) == "CreateTable"@ && items(child(payload(statement), "constraints"@)).len()
                == 0 {
                Ok(child(payload(statement), "columns"@))
            } else {
                Err(failure("SyntaxError"@, "Expected typed named parameters"@))
            }
        },
    }
}

/// The declarations of typed names in a text, as column definitions.
pub fn declarations(sql: &str) -> (result: Result<Datum>)
    ensures
        outcome(result) == declarations_of(sql@),
{
    let list = parse_statements(cat3("CREATE TABLE __parameters (", sql, ")").as_str())?;
    let statement = first(&list);
    if statement.is("CreateTable") && statement.payload().child("constraints").count() == 0 {
        Ok(statement.payload().child("columns").copied())
    } else {
        Err(err("SyntaxError", "Expected typed named parameters"))
    }
}

/// The typed names of RETURNS TABLE from position `from` on.
pub open spec fn typed_from(columns: Json, from: int, done: Seq<(Seq<char>, Seq<char>)>) -> Outcome<
    Seq<(Seq<char>, Seq<char>)>,
>
    decreases items(columns).len() - from,
{
    if from < 0 || from >= items(columns).len() {
        Ok(done)
    } else {
        let column = items(columns)[from];
        let ty = data_type_of(child(column, "data_type"@));
        if items(child(column, "options"@)).len() > 0 {
            Err(unsupported_failure("Return column options"@))
        } else {
            match type_supported(ty) {
                Err(error) => Err(error),
                Ok(_) => typed_from(
                    columns,
                    from + 1,
                    done.push((ident_name(child(column, "name"@)), ty)),
                ),
            }
        }
    }
}

/// What a function returns, by the words after RETURNS.
pub open spec fn return_kind_of(database: DatabaseModel, declared: Seq<Seq<char>>) -> Outcome<ReturnModel> {
    let last = declared.len() as int;
    if declared.len() == 0 {
        Err(failure("SyntaxError"@, "Missing return type"@))
    } else if upper(declared[0]) == "VOID"@ && declared.len() == 1 {
        Ok(ReturnModel::Void)
    } else if upper(declared[0]) == "SETOF"@ {
        let target = lower(phrase(declared, 1, last));
        match type_supported(target) {
            Ok(_) => Ok(ReturnModel::SetOf(target)),
            Err(_) => match relation_of(target) {
                Err(error) => Err(error),
                Ok(name) => match table_of(database, name) {
                    Err(error) => Err(error),
                    Ok(_) => Ok(ReturnModel::SetOf(target)),
                },
            },
        }
    } else if upper(declared[0]) == "TABLE"@ {
        match matching_close(declared, 1) {
            Err(error) => Err(error),
            Ok(end) => if end != last - 1 {
                Err(failure("SyntaxError"@, "Invalid TABLE return declaration"@))
            } else {
                match declarations_of(phrase(declared, 2, last - 1)) {
                    Err(error) => Err(error),
                    Ok(columns) => match typed_from(columns, 0, Seq::empty()) {
                        Err(error) => Err(error),
                        Ok(typed) => Ok(ReturnModel::Table(typed)),
                    },
                }
            },
        }
    } else {
        let ty = lower(phrase(declared, 0, last));
        match type_supported(ty) {
            Err(error) => Err(error),
            Ok(_) => Ok(ReturnModel::Scalar(ty)),
        }
    }
}

fn read_typed(columns: &Datum) -> (result: Result<Vec<(String, String)>>)
    ensures
        outcome(result) == typed_from(columns@, 0, Seq::empty()),
{
    let mut done: Vec<(String, String)> = no_items();
    let count: usize = columns.count();
    let mut i: usize = 0;
    while i < count
        invariant
            i <= count == items(columns@).len(),
            typed_from(columns@, 0, Seq::empty()) == typed_from(columns@, i as int, done.deep_view()),
        decreases count - i,
    {
        let column = columns.item(i);
        if column.child("options").count() > 0 {
            return Err(unsupported("Return column options"));
        }
        let ty = data_type(column.child("data_type"));
        check_type_supported(ty.as_str())?;
        add_last(&mut done, (ident(column.child("name")), ty));
        i += 1;
    }
    Ok(done)
}

fn read_return_kind(database: &Database, declared: &Vec<String>) -> (result: Result<FunctionReturn>)
    ensures
        outcome(result) == return_kind_of(database.deep_view(), declared.deep_view()),
{
    if declared.len() == 0 {
        return Err(err("SyntaxError", "Missing return type"));
    }
    assert(declared.deep_view()[0] == declared[0]@);
    let kind = declared[0].as_str().to_uppercase();
    if same(kind.as_str(), "VOID") && declared.len() == 1 {
        Ok(FunctionReturn::Void)
    } else if same(kind.as_str(), "SETOF") {
        let target = to_phrase(declared, 1, declared.len()).as_str().to_lowercase();
        if check_type_supported(target.as_str()).is_err() {
            let name = parse_relation(target.as_str())?;
            let _table = database.table(name.as_str())?;
        }
        Ok(FunctionReturn::SetOf(target))
    } else if same(kind.as_str(), "TABLE") {
        let end: usize = matching_paren(declared, 1)?;
        if end != declared.len() - 1 {
            return Err(err("SyntaxError", "Invalid TABLE return declaration"));
        }
        let columns = declarations(to_phrase(declared, 2, declared.len() - 1).as_str())?;
        let typed = read_typed(&columns)?;
        Ok(FunctionReturn::Table(typed))
    } else {
        let ty = to_phrase(declared, 0, declared.len()).as_str().to_lowercase();
        check_type_supported(ty.as_str())?;
        Ok(FunctionReturn::Scalar(ty))
    }
}

/// Whether a parameter of this name exists.
pub open spec fn parameter_named(parameters: Seq<ParameterModel>, name: Seq<char>) -> bool {
    exists|i: int| 0 <= i < parameters.len() && (#[trigger] parameters[i]).name == name
}

/// The default that the options of a parameter from position `from` on give.
pub open spec fn parameter_default_from(options: Json, from: int, default: Option<Json>) -> Outcome<Option<Json>>
    decreases items(options).len() - from,
{
    if from < 0 || from >= items(options).len() {
        Ok(default)
    } else {
        let option = child(items(options)[from], "option"@);
        if tag(option) == "Default"@ {
            parameter_default_from(options, from + 1, Some(payload(option)))
        } else {
            Err(unsupported_failure("Function parameter options"@))
        }
    }
}

/// The parameters that the declarations from position `from` on describe.
pub open spec fn parameters_from(columns: Json, from: int, done: Seq<ParameterModel>) -> Outcome<Seq<ParameterModel>>
    decreases items(columns).len() - from,
{
    if from < 0 || from >= items(columns).len() {
        Ok(done)
    } else {
        let column = items(columns)[from];
        let name = ident_name(child(column, "name"@));
        let ty = data_type_of(child(column, "data_type"@));
        if parameter_named(done, name) {
            Err(failure("DuplicateColumn"@, "Duplicate function parameter"@))
        } else {
            match type_supported(ty) {
                Err(error) => Err(error),
                Ok(_) => match parameter_default_from(child(column, "options"@), 0, None) {
                    Err(error) => Err(error),
                    Ok(default) => parameters_from(
                        columns,
                        from + 1,
                        done.push(ParameterModel { name, data_type: ty, default }),
                    ),
                },
            }
        }
    }
}

pub fn is_parameter_named(parameters: &Vec<FunctionParameter>, name: &str) -> (result: bool)
    ensures
        result == parameter_named(parameters.deep_view(), name@),
{
    let mut i: usize = 0;
    while i < parameters.len()
        invariant
            i <= parameters.len(),
            forall|j: int| 0 <= j < i ==> (#[trigger] parameters.deep_view()[j]).name != name@,
        decreases parameters.len() - i,
    {
        assert(parameters.deep_view()[i as int] == parameters[i as int].deep_view());
        if same(parameters[i].name.as_str(), name) {
            return true;
        }
        i += 1;
    }
    false
}

fn read_default(options: &Datum) -> (result: Result<Option<Expr>>)
    ensures
        outcome(result) == parameter_default_from(options@, 0, None),
{
    let mut default: Option<Expr> = None;
    let count: usize = options.count();
    let mut i: usize = 0;
    while i < count
        invariant
            i <= count == items(options@).len(),
            parameter_default_from(options@, 0, None) == parameter_default_from(
                options@,
                i as int,
                default.deep_view(),
            ),
        decreases count - i,
    {
        let option = options.item(i).child("option");
        if !option.is("Default") {
            return Err(unsupported("Function parameter options"));
        }
        default = Some(option.payload().copied());
        i += 1;
    }
    Ok(default)
}

fn read_parameters(columns: &Datum) -> (result: Result<Vec<FunctionParameter>>)
    ensures
        outcome(result) == parameters_from(columns@, 0, Seq::empty()),
{
    let mut done: Vec<FunctionParameter> = no_items();
    let count: usize = columns.count();
    let mut i: usize = 0;
    while i < count
        invariant
            i <= count == items(columns@).len(),
            parameters_from(columns@, 0, Seq::empty()) == parameters_from(
                columns@,
                i as int,
                done.deep_view(),
            ),
        decreases count - i,
    {
        let column = columns.item(i);
        let name = ident(column.child("name"));
        if is_parameter_named(&done, name.as_str()) {
            return Err(err("DuplicateColumn", "Duplicate function parameter"));
        }
        let ty = data_type(column.child("data_type"));
        check_type_supported(ty.as_str())?;
        let default = read_default(column.child("options"))?;
        add_last(&mut done, FunctionParameter { name, data_type: ty, default });
        i += 1;
    }
    Ok(done)
}

// ---------------------------------------------------------------------------------------------
// Clauses of a declaration
// ---------------------------------------------------------------------------------------------

/// What the clauses of a function's declaration say.
pub struct Clauses {
    pub body: Option<String>,
    pub language: Option<String>,
    pub definer: bool,
    pub behavior: String,
}

/// [`Clauses`] in specifications.
pub struct ClausesModel {
    pub body: Option<Seq<char>>,
    pub language: Option<Seq<char>>,
    pub definer: bool,
    pub behavior: Seq<char>,
}

impl DeepView for Clauses {
    type V = ClausesModel;

    open spec fn deep_view(&self) -> ClausesModel {
        ClausesModel {
            body: self.body.deep_view(),
            language: self.language.deep_view(),
            definer: self.definer,
            behavior: self.behavior@,
        }
    }
}

/// The text that a quoted word holds.
pub open spec fn quoted_body(definition: Seq<char>) -> Outcome<Seq<char>> {
    match tokens_read(definition, true) {
        Err(message) => Err(failure("SyntaxError"@, message)),
        Ok(list) => {
            let token = if list.len() == 1 {
                plain_json(list[0].0)
            } else {
                Json::Null
            };
            if token is Null {
                Err(failure("SyntaxError"@, "Function body must be a quoted SQL string"@))
            } else if tag(token) == "DollarQuotedString"@ {
                Ok(text(child(payload(token), "value"@)))
            } else if tag(token) == "SingleQuotedString"@ {
                Ok(text(payload(token)))
            } else {
                Err(failure("SyntaxError"@, "Function body must be a quoted SQL string"@))
            }
        },
    }
}

pub open spec fn behavior_word(word: Seq<char>) -> bool {
    word == "IMMUTABLE"@ || word == "STABLE"@ || word == "VOLATILE"@
}

/// The clauses with one more, and where it ends; `at` is behind the clause's word.
pub open spec fn function_clause(
    words: Seq<Seq<char>>,
    upper: Seq<Seq<char>>,
    keyword: Seq<char>,
    at: int,
    clauses: ClausesModel,
) -> Outcome<(ClausesModel, int)> {
    if keyword == "LANGUAGE"@ {
        Ok(
            (
                ClausesModel {
                    language: if at < upper.len() {
                        Some(upper[at])
                    } else {
                        None
                    },
                    ..clauses
                },
                if at < upper.len() {
                    at + 1
                } else {
                    at
                },
            ),
        )
    } else if keyword == "SECURITY"@ {
        if word_is(upper, at, "DEFINER"@) {
            Ok((ClausesModel { definer: true, ..clauses }, at + 1))
        } else if word_is(upper, at, "INVOKER"@) {
            Ok((ClausesModel { definer: false, ..clauses }, at + 1))
        } else {
            Err(failure("SyntaxError"@, "Expected SECURITY INVOKER or DEFINER"@))
        }
    } else if keyword == "AS"@ {
        if at >= words.len() {
            Err(failure("SyntaxError"@, "Missing function body"@))
        } else {
            match quoted_body(words[at]) {
                Err(error) => Err(error),
                Ok(body) => Ok((ClausesModel { body: Some(body), ..clauses }, at + 1)),
            }
        }
    } else if behavior_word(keyword) {
        Ok((ClausesModel { behavior: keyword, ..clauses }, at))
    } else {
        Err(unsupported_failure("Function clause "@ + keyword))
    }
}

/// The clauses from position `from` on, none of them twice.
pub open spec fn function_clauses_from(
    words: Seq<Seq<char>>,
    upper: Seq<Seq<char>>,
    from: int,
    clauses: ClausesModel,
    seen: Seq<Seq<char>>,
) -> Outcome<ClausesModel>
    decreases words.len() - from,
{
    if from < 0 || from >= words.len() || words.len() != upper.len() {
        Ok(clauses)
    } else {
        let keyword = upper[from];
        let category = if behavior_word(keyword) {
            "BEHAVIOR"@
        } else {
            keyword
        };
        if listed(seen, category) {
            Err(failure("SyntaxError"@, "Duplicate function clause"@))
        } else {
            match function_clause(words, upper, keyword, from + 1, clauses) {
                Err(error) => Err(error),
                Ok((next, end)) => if from < end <= words.len() {
                    function_clauses_from(words, upper, end, next, seen.push(category))
                } else {
                    Ok(next)
                },
            }
        }
    }
}

fn read_body(definition: &str) -> (result: Result<String>)
    ensures
        outcome(result) == quoted_body(definition@),
{
    match read_tokens(definition, true) {
        Err(message) => Err(err("SyntaxError", message.as_str())),
        Ok(list) => {
            let ghost model = token_list(list@);
            if list.len() == 1 {
                assert(model[0].0 == list[0].0);
                let token = plain(&list[0].0);
                if token.is_null() {
                } else if token.is("DollarQuotedString") {
                    return Ok(owned(token.payload().child("value").text()));
                } else if token.is("SingleQuotedString") {
                    return Ok(owned(token.payload().text()));
                }
            }
            Err(err("SyntaxError", "Function body must be a quoted SQL string"))
        },
    }
}

fn is_behavior(word: &str) -> (result: bool)
    ensures
        result == behavior_word(word@),
{
    same(word, "IMMUTABLE") || same(word, "STABLE") || same(word, "VOLATILE")
}

fn read_function_clause(
    words: &Vec<String>,
    upper: &Vec<String>,
    keyword: &str,
    at: usize,
    clauses: Clauses,
) -> (result: Result<(Clauses, usize)>)
    requires
        at <= words.len() == upper.len(),
    ensures
        (match result {
            Ok((next, end)) => Ok((next.deep_view(), end as int)),
            Err(error) => Err(error@),
        }) == function_clause(
            words.deep_view(),
            upper.deep_view(),
            keyword@,
            at as int,
            clauses.deep_view(),
        ),
        result matches Ok((_, end)) ==> at <= end <= words.len(),
{
    let mut clauses = clauses;
    if same(keyword, "LANGUAGE") {
        if at < upper.len() {
            assert(upper.deep_view()[at as int] == upper[at as int]@);
            clauses.language = Some(upper[at].clone());
            Ok((clauses, at + 1))
        } else {
            clauses.language = None;
            Ok((clauses, at))
        }
    } else if same(keyword, "SECURITY") {
        if is_word(upper, at, "DEFINER") {
            clauses.definer = true;
        } else if is_word(upper, at, "INVOKER") {
            clauses.definer = false;
        } else {
            return Err(err("SyntaxError", "Expected SECURITY INVOKER or DEFINER"));
        }
        Ok((clauses, at + 1))
    } else if same(keyword, "AS") {
        if at >= words.len() {
            return Err(err("SyntaxError", "Missing function body"));
        }
        assert(words.deep_view()[at as int] == words[at as int]@);
        let body = read_body(words[at].as_str())?;
        clauses.body = Some(body);
        Ok((clauses, at + 1))
    } else if is_behavior(keyword) {
        clauses.behavior = owned(keyword);
        Ok((clauses, at))
    } else {
        Err(unsupported(cat2("Function clause ", keyword).as_str()))
    }
}

fn read_function_clauses(words: &Vec<String>, upper: &Vec<String>, from: usize) -> (result: Result<Clauses>)
    requires
        from <= words.len() == upper.len(),
    ensures
        outcome(result) == function_clauses_from(
            words.deep_view(),
            upper.deep_view(),
            from as int,
            (ClausesModel { body: None, language: None, definer: false, behavior: "VOLATILE"@ }),
            Seq::empty(),
        ),
{
    let ghost list = words.deep_view();
    let ghost caps = upper.deep_view();
    let ghost initial = ClausesModel { body: None, language: None, definer: false, behavior: "VOLATILE"@ };
    let mut clauses = Clauses { body: None, language: None, definer: false, behavior: owned("VOLATILE") };
    let mut seen: Vec<String> = no_items();
    let mut i: usize = from;
    assert(clauses.deep_view() == initial);
    while i < words.len()
        invariant
            i <= words.len() == upper.len(),
            list == words.deep_view(),
            caps == upper.deep_view(),
            initial == (ClausesModel { body: None, language: None, definer: false, behavior: "VOLATILE"@ }),
            function_clauses_from(list, caps, from as int, initial, Seq::empty())
                == function_clauses_from(list, caps, i as int, clauses.deep_view(), seen.deep_view()),
        decreases words.len() - i,
    {
        assert(caps[i as int] == upper[i as int]@);
        let category = if is_behavior(upper[i].as_str()) {
            owned("BEHAVIOR")
        } else {
            upper[i].clone()
        };
        if is_listed(&seen, category.as_str()) {
            return Err(err("SyntaxError", "Duplicate function clause"));
        }
        let (next, end) = read_function_clause(words, upper, upper[i].as_str(), i + 1, clauses)?;
        clauses = next;
        add_last(&mut seen, category);
        i = end;
    }
    Ok(clauses)
}

// ---------------------------------------------------------------------------------------------
// CREATE FUNCTION
// ---------------------------------------------------------------------------------------------

pub open spec fn function_clause_word(word: Seq<char>) -> bool {
    word == "LANGUAGE"@ || word == "AS"@ || word == "SECURITY"@ || behavior_word(word)
}

/// The first position of a clause at or after `from`, or the length.
pub open spec fn function_clause_at(upper: Seq<Seq<char>>, from: int) -> int
    decreases upper.len() - from,
{
    if from < 0 || from >= upper.len() {
        upper.len() as int
    } else if function_clause_word(upper[from]) {
        from
    } else {
        function_clause_at(upper, from + 1)
    }
}

pub open spec fn writes(statement: Json) -> bool {
    tag(statement) == "Insert"@ || tag(statement) == "Update"@ || tag(statement) == "Delete"@
}

/// Whether a function of this behavior may have the statements from position `from` on.
pub open spec fn body_allowed_from(list: Seq<Json>, from: int, behavior: Seq<char>) -> Outcome<()>
    decreases list.len() - from,
{
    if from < 0 || from >= list.len() {
        Ok(())
    } else if tag(list[from]) == "Query"@ || writes(list[from]) && behavior == "VOLATILE"@ {
        body_allowed_from(list, from + 1, behavior)
    } else {
        Err(unsupported_failure("Function body permits SELECT and VOLATILE DML only"@))
    }
}

/// The body of a function whose clauses are accepted.
pub open spec fn body_of(clauses: ClausesModel) -> Outcome<Seq<char>> {
    if clauses.language != Some("SQL"@) {
        Err(unsupported_failure("Only LANGUAGE SQL functions are implemented"@))
    } else {
        match clauses.body {
            None => Err(failure("SyntaxError"@, "Missing SQL function body"@)),
            Some(body) => match statements_of(body) {
                Err(error) => Err(error),
                Ok(list) => if list.len() == 0 {
                    Err(failure("SyntaxError"@, "SQL function body is empty"@))
                } else {
                    match body_allowed_from(list, 0, clauses.behavior) {
                        Err(error) => Err(error),
                        Ok(_) => Ok(body),
                    }
                },
            },
        }
    }
}

/// The function that a CREATE FUNCTION describes; the name starts at `start`.
pub open spec fn function_read(
    database: DatabaseModel,
    words: Seq<Seq<char>>,
    start: int,
    caller: AuthModel,
) -> Outcome<FunctionModel> {
    let upper = upper_all(words);
    let open = word_from(words, "("@, start);
    if open >= words.len() {
        Err(failure("SyntaxError"@, "Missing function parameters"@))
    } else {
        match relation_of(phrase(words, start, open)) {
            Err(error) => Err(error),
            Ok(name) => match matching_close(words, open) {
                Err(error) => Err(error),
                Ok(close) => {
                    let end = function_clause_at(upper, close + 2);
                    if !word_is(upper, close + 1, "RETURNS"@) {
                        Err(failure("SyntaxError"@, "Function requires RETURNS"@))
                    } else if end >= words.len() {
                        Err(
                            failure(
                                "SyntaxError"@,
                                "SQL function requires LANGUAGE SQL and AS body"@,
                            ),
                        )
                    } else {
                        match return_kind_of(database, words.subrange(close + 2, end)) {
                            Err(error) => Err(error),
                            Ok(return_kind) => match declarations_of(
                                phrase(words, open + 1, close),
                            ) {
                                Err(error) => Err(error),
                                Ok(columns) => match parameters_from(columns, 0, Seq::empty()) {
                                    Err(error) => Err(error),
                                    Ok(parameters) => match function_clauses_from(
                                        words,
                                        upper,
                                        end,
                                        (ClausesModel {
                                            body: None,
                                            language: None,
                                            definer: false,
                                            behavior: "VOLATILE"@,
                                        }),
                                        Seq::empty(),
                                    ) {
                                        Err(error) => Err(error),
                                        Ok(clauses) => match body_of(clauses) {
                                            Err(error) => Err(error),
                                            Ok(body) => Ok(
                                                FunctionModel {
                                                    name,
                                                    parameters,
                                                    return_kind,
                                                    body,
                                                    security_definer: clauses.definer,
                                                    definer_context: if clauses.definer {
                                                        Some(caller)
                                                    } else {
                                                        None
                                                    },
                                                },
                                            ),
                                        },
                                    },
                                },
                            },
                        }
                    }
                },
            },
        }
    }
}

/// The state after CREATE FUNCTION; nothing for any other statement.
pub open spec fn function_executed(database: DatabaseModel, sql: Seq<char>, caller: AuthModel) -> Outcome<
    Option<(DatabaseModel, ResultModel)>,
> {
    match words_of(sql) {
        Err(error) => Err(error),
        Ok(words) => {
            let upper = upper_all(words);
            let replaces = word_is(upper, 0, "CREATE"@) && word_is(upper, 1, "OR"@) && word_is(
                upper,
                2,
                "REPLACE"@,
            ) && word_is(upper, 3, "FUNCTION"@);
            let creates = word_is(upper, 0, "CREATE"@) && word_is(upper, 1, "FUNCTION"@);
            if !replaces && !creates {
                Ok(None)
            } else if !caller.privileged {
                Err(failure("PrivilegeError"@, "Function DDL requires administrative authority"@))
            } else {
                match function_read(
                    database,
                    words,
                    if replaces {
                        4
                    } else {
                        2
                    },
                    caller,
                ) {
                    Err(error) => Err(error),
                    Ok(function) => if has_key(database.functions, function.name) && !replaces {
                        Err(failure("DuplicateFunction"@, function.name))
                    } else {
                        match schema_changed(
                            DatabaseModel {
                                functions: put(database.functions, function.name, function),
                                ..database
                            },
                        ) {
                            Err(error) => Err(error),
                            Ok(next) => Ok(Some((next, no_result()))),
                        }
                    },
                }
            }
        },
    }
}

fn is_function_clause(word: &str) -> (result: bool)
    ensures
        result == function_clause_word(word@),
{
    same(word, "LANGUAGE") || same(word, "AS") || same(word, "SECURITY") || is_behavior(word)
}

fn find_function_clause(upper: &Vec<String>, from: usize) -> (result: usize)
    requires
        from <= upper.len(),
    ensures
        result == function_clause_at(upper.deep_view(), from as int),
        from <= result <= upper.len(),
{
    let mut i: usize = from;
    while i < upper.len()
        invariant
            from <= i <= upper.len(),
            function_clause_at(upper.deep_view(), from as int) == function_clause_at(
                upper.deep_view(),
                i as int,
            ),
        decreases upper.len() - i,
    {
        assert(upper.deep_view()[i as int] == upper[i as int]@);
        if is_function_clause(upper[i].as_str()) {
            return i;
        }
        i += 1;
    }
    i
}

fn check_body(list: &Vec<Datum>, behavior: &str) -> (result: Result<()>)
    ensures
        outcome(result) == body_allowed_from(list.deep_view(), 0, behavior@),
{
    let ghost model = list.deep_view();
    let mut i: usize = 0;
    while i < list.len()
        invariant
            i <= list.len(),
            model == list.deep_view(),
            body_allowed_from(model, 0, behavior@) == body_allowed_from(model, i as int, behavior@),
        decreases list.len() - i,
    {
        assert(model[i as int] == list[i as int]@);
        let statement = &list[i];
        if !(statement.is("Query") || (statement.is("Insert") || statement.is("Update") || statement.is(
            "Delete",
        )) && same(behavior, "VOLATILE")) {
            return Err(unsupported("Function body permits SELECT and VOLATILE DML only"));
        }
        i += 1;
    }
    Ok(())
}

fn accept_body(clauses: &Clauses) -> (result: Result<String>)
    ensures
        outcome(result) == body_of(clauses.deep_view()),
{
    let sql: bool = match &clauses.language {
        Some(language) => same(language.as_str(), "SQL"),
        None => false,
    };
    if !sql {
        return Err(unsupported("Only LANGUAGE SQL functions are implemented"));
    }
    match &clauses.body {
        None => Err(err("SyntaxError", "Missing SQL function body")),
        Some(body) => {
            let list = parse_statements(body.as_str())?;
            if list.len() == 0 {
                return Err(err("SyntaxError", "SQL function body is empty"));
            }
            check_body(&list, clauses.behavior.as_str())?;
            Ok(body.clone())
        },
    }
}

fn read_function(database: &Database, words: &Vec<String>, upper: &Vec<String>, start: usize, context: &AuthContext) -> (result:
    Result<SqlFunction>)
    requires
        upper.deep_view() == upper_all(words.deep_view()),
        start <= words.len(),
    ensures
        outcome(result) == function_read(
            database.deep_view(),
            words.deep_view(),
            start as int,
            context.deep_view(),
        ),
{
    assert(words.deep_view().len() == upper.deep_view().len());
    let open: usize = find_word(words, "(", start);
    if open >= words.len() {
        return Err(err("SyntaxError", "Missing function parameters"));
    }
    let name = parse_relation(to_phrase(words, start, open).as_str())?;
    let close: usize = matching_paren(words, open)?;
    if !is_word(upper, close + 1, "RETURNS") {
        return Err(err("SyntaxError", "Function requires RETURNS"));
    }
    let end: usize = find_function_clause(upper, close + 2);
    if end >= words.len() {
        return Err(err("SyntaxError", "SQL function requires LANGUAGE SQL and AS body"));
    }
    let return_kind = read_return_kind(database, &slice(words, close + 2, end))?;
    let columns = declarations(to_phrase(words, open + 1, close).as_str())?;
    let parameters = read_parameters(&columns)?;
    let clauses = read_function_clauses(words, upper, end)?;
    let body = accept_body(&clauses)?;
    let definer_context: Option<AuthContext> = if clauses.definer {
        Some(context.replica())
    } else {
        None
    };
    Ok(
        SqlFunction {
            name,
            parameters,
            return_kind,
            body,
            security_definer: clauses.definer,
            definer_context,
        },
    )
}

/// Executes CREATE FUNCTION; nothing for any other statement.
pub fn function_statement(database: &Database, sql: &str, context: &AuthContext) -> (result: Result<
    Option<(Database, SqlResult)>,
>)
    ensures
        handled(result) == function_executed(database.deep_view(), sql@, context.deep_view()),
{
    let words = tokens(sql)?;
    let upper = to_upper(&words);
    let replaces = is_word(&upper, 0, "CREATE") && is_word(&upper, 1, "OR") && is_word(&upper, 2, "REPLACE")
        && is_word(&upper, 3, "FUNCTION");
    let creates = is_word(&upper, 0, "CREATE") && is_word(&upper, 1, "FUNCTION");
    if !replaces && !creates {
        return Ok(None);
    }
    if !context.privileged {
        return Err(err("PrivilegeError", "Function DDL requires administrative authority"));
    }
    assert(words.deep_view().len() == upper.deep_view().len());
    let start: usize = if replaces {
        4
    } else {
        2
    };
    let function = read_function(database, &words, &upper, start, context)?;
    if database.functions.contains(&function.name) && !replaces {
        return Err(err("DuplicateFunction", function.name.as_str()));
    }
    let mut next = database.replica();
    next.functions.insert(function.name.clone(), function);
    let last = change_schema(next)?;
    Ok(Some((last, SqlResult::default())))
}

} // verus!
