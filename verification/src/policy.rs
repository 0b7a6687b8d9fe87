//! Row-level security statements: CREATE POLICY and ALTER TABLE .. ROW LEVEL SECURITY.

use vstd::prelude::*;
use crate::alter::with_table;
use crate::ast::{expression_of, parse_expression, parse_relation, relation_of, tokens, words_of};
use crate::catalog::{
    no_result, AuthContext, AuthModel, Database, DatabaseModel, Policy, PolicyModel, ResultModel, SqlResult,
    TableModel,
};
use crate::depend::{change_schema, schema_changed};
use crate::error::{err, failure, outcome, unsupported, unsupported_failure, Outcome, Result};
use crate::json::{group_value_views, Datum, Json};
use crate::ordmap::get;
use crate::outside::lower;
use crate::replica::{add_last, no_items, one_item, Replica};
use crate::rules::database_valid;
use crate::text::{cat2, is_listed, listed, owned, same, trim_both, without_ends};
use crate::words::{close_from, find_close, is_word, phrase, to_phrase, to_upper, upper_all, word_is};

verus! {

broadcast use group_value_views;

/// What an optional statement stands for.
pub open spec fn handled(result: Result<Option<(Database, SqlResult)>>) -> Outcome<
    Option<(DatabaseModel, ResultModel)>,
> {
    match result {
        Ok(Some((database, rows))) => Ok(Some((database.deep_view(), rows.deep_view()))),
        Ok(None) => Ok(None),
        Err(error) => Err(error@),
    }
}

// ---------------------------------------------------------------------------------------------
// ENABLE and DISABLE
// ---------------------------------------------------------------------------------------------

/// Whether the words ROW LEVEL SECURITY stand at a position.
pub open spec fn security_at(upper: Seq<Seq<char>>, i: int) -> bool {
    word_is(upper, i, "ROW"@) && word_is(upper, i + 1, "LEVEL"@) && word_is(upper, i + 2, "SECURITY"@)
}

/// Whether the words ROW LEVEL SECURITY stand somewhere.
pub open spec fn security_named(upper: Seq<Seq<char>>) -> bool {
    exists|i: int| 0 <= i < upper.len() && #[trigger] security_at(upper, i)
}

/// The first position of ENABLE or DISABLE at or after `from`, or the length.
pub open spec fn switch_from(upper: Seq<Seq<char>>, from: int) -> int
    decreases upper.len() - from,
{
    if from < 0 || from >= upper.len() {
        upper.len() as int
    } else if upper[from] == "ENABLE"@ || upper[from] == "DISABLE"@ {
        from
    } else {
        switch_from(upper, from + 1)
    }
}

/// The state after ALTER TABLE .. ENABLE or DISABLE ROW LEVEL SECURITY.
pub open spec fn security_switched(database: DatabaseModel, words: Seq<Seq<char>>) -> Outcome<DatabaseModel> {
    let upper = upper_all(words);
    let action = switch_from(upper, 0);
    if action >= upper.len() {
        Err(unsupported_failure("RLS ALTER action"@))
    } else if action < 3 || upper.len() != action + 4 || !security_at(upper, action + 1) {
        Err(failure("SyntaxError"@, "Expected ENABLE/DISABLE ROW LEVEL SECURITY"@))
    } else {
        match relation_of(phrase(words, 2, action)) {
            Err(error) => Err(error),
            Ok(name) => match get(database.catalog, name) {
                None => Err(failure("UndefinedTable"@, name)),
                Some(table) => schema_changed(
                    with_table(
                        database,
                        name,
                        TableModel { rls_enabled: upper[action] == "ENABLE"@, ..table },
                    ),
                ),
            },
        }
    }
}

fn is_security_at(upper: &Vec<String>, i: usize) -> (result: bool)
    requires
        i < upper.len(),
    ensures
        result == security_at(upper.deep_view(), i as int),
{
    if upper.len() - i < 3 {
        return false;
    }
    is_word(upper, i, "ROW") && is_word(upper, i + 1, "LEVEL") && is_word(upper, i + 2, "SECURITY")
}

fn names_security(upper: &Vec<String>) -> (result: bool)
    ensures
        result == security_named(upper.deep_view()),
{
    let mut i: usize = 0;
    while i < upper.len()
        invariant
            i <= upper.len(),
            forall|j: int| 0 <= j < i ==> !#[trigger] security_at(upper.deep_view(), j),
        decreases upper.len() - i,
    {
        if is_security_at(upper, i) {
            return true;
        }
        i += 1;
    }
    false
}

fn find_switch(upper: &Vec<String>) -> (result: usize)
    ensures
        result == switch_from(upper.deep_view(), 0),
        result <= upper.len(),
{
    let mut i: usize = 0;
    while i < upper.len()
        invariant
            i <= upper.len(),
            switch_from(upper.deep_view(), 0) == switch_from(upper.deep_view(), i as int),
        decreases upper.len() - i,
    {
        assert(upper.deep_view()[i as int] == upper[i as int]@);
        if same(upper[i].as_str(), "ENABLE") || same(upper[i].as_str(), "DISABLE") {
            return i;
        }
        i += 1;
    }
    i
}

fn switch_security(database: Database, words: &Vec<String>, upper: &Vec<String>) -> (result: Result<Database>)
    requires
        upper.deep_view() == upper_all(words.deep_view()),
    ensures
        outcome(result) == security_switched(database.deep_view(), words.deep_view()),
{
    let action: usize = find_switch(upper);
    if action >= upper.len() {
        return Err(unsupported("RLS ALTER action"));
    }
    if action < 3 || upper.len() - action != 4 || !is_security_at(upper, action + 1) {
        return Err(err("SyntaxError", "Expected ENABLE/DISABLE ROW LEVEL SECURITY"));
    }
    assert(words.deep_view().len() == upper.deep_view().len());
    let name = parse_relation(to_phrase(words, 2, action).as_str())?;
    match database.catalog.get(&name) {
        None => Err(err("UndefinedTable", name.as_str())),
        Some(found) => {
            let mut table = found.replica();
            table.rls_enabled = is_word(upper, action, "ENABLE");
            let mut database = database;
            database.catalog.insert(name, table);
            change_schema(database)
        },
    }
}

// ---------------------------------------------------------------------------------------------
// CREATE POLICY
// ---------------------------------------------------------------------------------------------

pub open spec fn clause_word(word: Seq<char>) -> bool {
    word == "AS"@ || word == "FOR"@ || word == "TO"@ || word == "USING"@ || word == "WITH"@
}

/// The first position of a clause at or after `from`, or the length.
pub open spec fn clause_from(upper: Seq<Seq<char>>, from: int) -> int
    decreases upper.len() - from,
{
    if from < 0 || from >= upper.len() {
        upper.len() as int
    } else if clause_word(upper[from]) {
        from
    } else {
        clause_from(upper, from + 1)
    }
}

pub open spec fn policy_command(word: Seq<char>) -> bool {
    word == "ALL"@ || word == "SELECT"@ || word == "INSERT"@ || word == "UPDATE"@ || word == "DELETE"@
}

/// The roles of a TO clause from position `from` on, and where the clause ends.
pub open spec fn roles_from(
    words: Seq<Seq<char>>,
    upper: Seq<Seq<char>>,
    from: int,
    roles: Seq<Seq<char>>,
) -> (Seq<Seq<char>>, int)
    decreases words.len() - from,
{
    if from < 0 || from >= words.len() || word_is(upper, from, "USING"@) || word_is(upper, from, "WITH"@) {
        (roles, from)
    } else if words[from] == ","@ {
        roles_from(words, upper, from + 1, roles)
    } else {
        roles_from(words, upper, from + 1, roles.push(lower(without_ends(words[from], '"'))))
    }
}

/// The expression in parentheses at a position, and where it ends.
pub open spec fn policy_expression(words: Seq<Seq<char>>, at: int) -> Outcome<(Json, int)> {
    if !word_is(words, at, "("@) {
        Err(failure("SyntaxError"@, "Policy expression must be parenthesized"@))
    } else {
        match close_from(words, at + 1, 1) {
            None => Err(failure("SyntaxError"@, "Unclosed policy expression"@)),
            Some(end) => match expression_of(phrase(words, at + 1, end)) {
                Err(error) => Err(error),
                Ok(expr) => Ok((expr, end + 1)),
            },
        }
    }
}

/// The policy with one clause read, and where the clause ends; `at` is behind the clause's word.
pub open spec fn clause_read(
    words: Seq<Seq<char>>,
    upper: Seq<Seq<char>>,
    clause: Seq<char>,
    at: int,
    policy: PolicyModel,
) -> Outcome<(PolicyModel, int)> {
    if clause == "AS"@ {
        if word_is(upper, at, "PERMISSIVE"@) {
            Ok((PolicyModel { permissive: true, ..policy }, at + 1))
        } else if word_is(upper, at, "RESTRICTIVE"@) {
            Ok((PolicyModel { permissive: false, ..policy }, at + 1))
        } else {
            Err(failure("SyntaxError"@, "Expected PERMISSIVE or RESTRICTIVE"@))
        }
    } else if clause == "FOR"@ {
        if at >= upper.len() {
            Err(failure("SyntaxError"@, "Missing policy command"@))
        } else if !policy_command(upper[at]) {
            Err(unsupported_failure("Policy command"@))
        } else {
            Ok((PolicyModel { command: upper[at], ..policy }, at + 1))
        }
    } else if clause == "TO"@ {
        let (roles, end) = roles_from(words, upper, at, Seq::empty());
        if roles.len() == 0 {
            Err(failure("SyntaxError"@, "Missing policy role"@))
        } else {
            Ok((PolicyModel { roles, ..policy }, end))
        }
    } else if clause == "USING"@ {
        match policy_expression(words, at) {
            Err(error) => Err(error),
            Ok((expr, end)) => Ok((PolicyModel { using: Some(expr), ..policy }, end)),
        }
    } else if clause == "WITH"@ {
        if !word_is(upper, at, "CHECK"@) {
            Err(failure("SyntaxError"@, "Expected WITH CHECK"@))
        } else {
            match policy_expression(words, at + 1) {
                Err(error) => Err(error),
                Ok((expr, end)) => Ok((PolicyModel { check: Some(expr), ..policy }, end)),
            }
        }
    } else {
        Err(failure("SyntaxError"@, "Unexpected policy clause "@ + clause))
    }
}

/// The policy with the clauses from position `from` on read, none of them twice.
pub open spec fn clauses_read_from(
    words: Seq<Seq<char>>,
    upper: Seq<Seq<char>>,
    from: int,
    policy: PolicyModel,
    seen: Seq<Seq<char>>,
) -> Outcome<PolicyModel>
    decreases words.len() - from,
{
    if from < 0 || from >= words.len() || words.len() != upper.len() {
        Ok(policy)
    } else if listed(seen, upper[from]) {
        Err(failure("SyntaxError"@, "Duplicate policy clause"@))
    } else {
        match clause_read(words, upper, upper[from], from + 1, policy) {
            Err(error) => Err(error),
            Ok((next, end)) => if from < end <= words.len() {
                clauses_read_from(words, upper, end, next, seen.push(upper[from]))
            } else {
                Ok(next)
            },
        }
    }
}

/// A policy before its clauses are read.
pub open spec fn plain_policy(name: Seq<char>) -> PolicyModel {
    PolicyModel {
        name,
        command: "ALL"@,
        roles: seq!["public"@],
        permissive: true,
        using: None,
        check: None,
    }
}

/// Whether a policy has a clause that its command cannot have.
pub open spec fn clause_misplaced(policy: PolicyModel) -> bool {
    policy.command == "INSERT"@ && policy.using is Some || (policy.command == "SELECT"@ || policy.command
        == "DELETE"@) && policy.check is Some
}

/// Whether a policy of this name exists.
pub open spec fn policy_named(policies: Seq<PolicyModel>, name: Seq<char>) -> bool {
    exists|i: int| 0 <= i < policies.len() && (#[trigger] policies[i]).name == name
}

/// The policy that a CREATE POLICY describes, and the table that it is for.
pub open spec fn policy_read(words: Seq<Seq<char>>) -> Outcome<(PolicyModel, Seq<char>)> {
    let upper = upper_all(words);
    let end = clause_from(upper, 4);
    if words.len() < 5 || upper[3] != "ON"@ {
        Err(failure("SyntaxError"@, "Expected CREATE POLICY name ON table"@))
    } else {
        match relation_of(phrase(words, 4, end)) {
            Err(error) => Err(error),
            Ok(table) => match clauses_read_from(
                words,
                upper,
                end,
                plain_policy(without_ends(words[2], '"')),
                Seq::empty(),
            ) {
                Err(error) => Err(error),
                Ok(policy) => if clause_misplaced(policy) {
                    Err(failure("SyntaxError"@, "Policy clause is invalid for this command"@))
                } else {
                    Ok((policy, table))
                },
            },
        }
    }
}

/// The state after CREATE POLICY.
pub open spec fn policy_created(database: DatabaseModel, words: Seq<Seq<char>>, caller: AuthModel) -> Outcome<
    DatabaseModel,
> {
    match policy_read(words) {
        Err(error) => Err(error),
        Ok((policy, name)) => match get(database.catalog, name) {
            None => Err(failure("UndefinedTable"@, name)),
            Some(table) => if policy_named(table.policies, policy.name) {
                Err(failure("DuplicatePolicy"@, policy.name))
            } else {
                match schema_changed(
                    with_table(
                        database,
                        name,
                        TableModel { policies: table.policies.push(policy), ..table },
                    ),
                ) {
                    Err(error) => Err(error),
                    Ok(next) => match database_valid(next, caller, true) {
                        Err(error) => Err(error),
                        Ok(_) => Ok(next),
                    },
                }
            },
        },
    }
}

/// The state after a row-level security statement; nothing for any other statement.
pub open spec fn policy_executed(database: DatabaseModel, sql: Seq<char>, caller: AuthModel) -> Outcome<
    Option<(DatabaseModel, ResultModel)>,
> {
    match words_of(sql) {
        Err(error) => Err(error),
        Ok(words) => {
            let upper = upper_all(words);
            let creates = word_is(upper, 0, "CREATE"@) && word_is(upper, 1, "POLICY"@);
            let switches = word_is(upper, 0, "ALTER"@) && word_is(upper, 1, "TABLE"@) && security_named(
                upper,
            );
            if !creates && !switches {
                Ok(None)
            } else if !caller.privileged {
                Err(failure("PrivilegeError"@, "Policy DDL requires administrative authority"@))
            } else {
                match if switches {
                    security_switched(database, words)
                } else {
                    policy_created(database, words, caller)
                } {
                    Err(error) => Err(error),
                    Ok(next) => Ok(Some((next, no_result()))),
                }
            }
        },
    }
}

fn is_clause(word: &str) -> (result: bool)
    ensures
        result == clause_word(word@),
{
    same(word, "AS") || same(word, "FOR") || same(word, "TO") || same(word, "USING") || same(word, "WITH")
}

fn find_clause(upper: &Vec<String>, from: usize) -> (result: usize)
    requires
        from <= upper.len(),
    ensures
        result == clause_from(upper.deep_view(), from as int),
        from <= result <= upper.len(),
{
    let mut i: usize = from;
    while i < upper.len()
        invariant
            from <= i <= upper.len(),
            clause_from(upper.deep_view(), from as int) == clause_from(upper.deep_view(), i as int),
        decreases upper.len() - i,
    {
        assert(upper.deep_view()[i as int] == upper[i as int]@);
        if is_clause(upper[i].as_str()) {
            return i;
        }
        i += 1;
    }
    i
}

fn is_policy_command(word: &str) -> (result: bool)
    ensures
        result == policy_command(word@),
{
    same(word, "ALL") || same(word, "SELECT") || same(word, "INSERT") || same(word, "UPDATE") || same(
        word,
        "DELETE",
    )
}

fn read_roles(words: &Vec<String>, upper: &Vec<String>, from: usize) -> (result: (Vec<String>, usize))
    requires
        from <= words.len() == upper.len(),
    ensures
        (result.0.deep_view(), result.1 as int) == roles_from(
            words.deep_view(),
            upper.deep_view(),
            from as int,
            Seq::empty(),
        ),
        from <= result.1 <= words.len(),
{
    let mut roles: Vec<String> = no_items();
    let ghost list = words.deep_view();
    let ghost caps = upper.deep_view();
    let mut i: usize = from;
    while i < words.len() && !is_word(upper, i, "USING") && !is_word(upper, i, "WITH")
        invariant
            from <= i <= words.len() == upper.len(),
            list == words.deep_view(),
            caps == upper.deep_view(),
            roles_from(list, caps, from as int, Seq::empty()) == roles_from(
                list,
                caps,
                i as int,
                roles.deep_view(),
            ),
        decreases words.len() - i,
    {
        assert(list[i as int] == words[i as int]@);
        if !same(words[i].as_str(), ",") {
            add_last(&mut roles, trim_both(words[i].as_str(), '"').as_str().to_lowercase());
        }
        i += 1;
    }
    (roles, i)
}

fn read_expression(words: &Vec<String>, at: usize) -> (result: Result<(Datum, usize)>)
    requires
        at <= words.len(),
    ensures
        (match result {
            Ok((expr, end)) => Ok((expr@, end as int)),
            Err(error) => Err(error@),
        }) == policy_expression(words.deep_view(), at as int),
        result matches Ok((_, end)) ==> at < end <= words.len(),
{
    if !is_word(words, at, "(") {
        return Err(err("SyntaxError", "Policy expression must be parenthesized"));
    }
    match find_close(words, at + 1) {
        None => Err(err("SyntaxError", "Unclosed policy expression")),
        Some(end) => {
            let expr = parse_expression(to_phrase(words, at + 1, end).as_str())?;
            Ok((expr, end + 1))
        },
    }
}

fn read_clause(words: &Vec<String>, upper: &Vec<String>, clause: &str, at: usize, policy: Policy) -> (result: Result<
    (Policy, usize),
>)
    requires
        at <= words.len() == upper.len(),
    ensures
        (match result {
            Ok((next, end)) => Ok((next.deep_view(), end as int)),
            Err(error) => Err(error@),
        }) == clause_read(
            words.deep_view(),
            upper.deep_view(),
            clause@,
            at as int,
            policy.deep_view(),
        ),
        result matches Ok((_, end)) ==> at <= end <= words.len(),
{
    let mut policy = policy;
    if same(clause, "AS") {
        if is_word(upper, at, "PERMISSIVE") {
            policy.permissive = true;
        } else if is_word(upper, at, "RESTRICTIVE") {
            policy.permissive = false;
        } else {
            return Err(err("SyntaxError", "Expected PERMISSIVE or RESTRICTIVE"));
        }
        Ok((policy, at + 1))
    } else if same(clause, "FOR") {
        if at >= upper.len() {
            return Err(err("SyntaxError", "Missing policy command"));
        }
        assert(upper.deep_view()[at as int] == upper[at as int]@);
        if !is_policy_command(upper[at].as_str()) {
            return Err(unsupported("Policy command"));
        }
        policy.command = upper[at].clone();
        Ok((policy, at + 1))
    } else if same(clause, "TO") {
        let (roles, end) = read_roles(words, upper, at);
        if roles.len() == 0 {
            return Err(err("SyntaxError", "Missing policy role"));
        }
        policy.roles = roles;
        Ok((policy, end))
    } else if same(clause, "USING") {
        let (expr, end) = read_expression(words, at)?;
        policy.using = Some(expr);
        Ok((policy, end))
    } else if same(clause, "WITH") {
        if !is_word(upper, at, "CHECK") {
            return Err(err("SyntaxError", "Expected WITH CHECK"));
        }
        let (expr, end) = read_expression(words, at + 1)?;
        policy.check = Some(expr);
        Ok((policy, end))
    } else {
        Err(err("SyntaxError", cat2("Unexpected policy clause ", clause).as_str()))
    }
}

fn read_clauses(words: &Vec<String>, upper: &Vec<String>, from: usize, start: Policy) -> (result: Result<Policy>)
    requires
        from <= words.len() == upper.len(),
    ensures
        outcome(result) == clauses_read_from(
            words.deep_view(),
            upper.deep_view(),
            from as int,
            start.deep_view(),
            Seq::empty(),
        ),
{
    let ghost first = start.deep_view();
    let ghost list = words.deep_view();
    let ghost caps = upper.deep_view();
    let mut policy = start;
    let mut seen: Vec<String> = no_items();
    let mut i: usize = from;
    while i < words.len()
        invariant
            i <= words.len() == upper.len(),
            list == words.deep_view(),
            caps == upper.deep_view(),
            first == start.deep_view(),
            clauses_read_from(list, caps, from as int, first, Seq::empty()) == clauses_read_from(
                list,
                caps,
                i as int,
                policy.deep_view(),
                seen.deep_view(),
            ),
        decreases words.len() - i,
    {
        assert(caps[i as int] == upper[i as int]@);
        if is_listed(&seen, upper[i].as_str()) {
            return Err(err("SyntaxError", "Duplicate policy clause"));
        }
        let (next, end) = read_clause(words, upper, upper[i].as_str(), i + 1, policy)?;
        policy = next;
        add_last(&mut seen, upper[i].clone());
        i = end;
    }
    Ok(policy)
}

fn is_misplaced(policy: &Policy) -> (result: bool)
    ensures
        result == clause_misplaced(policy.deep_view()),
{
    same(policy.command.as_str(), "INSERT") && policy.using.is_some() || (same(
        policy.command.as_str(),
        "SELECT",
    ) || same(policy.command.as_str(), "DELETE")) && policy.check.is_some()
}

fn read_policy(words: &Vec<String>, upper: &Vec<String>) -> (result: Result<(Policy, String)>)
    requires
        upper.deep_view() == upper_all(words.deep_view()),
    ensures
        outcome(result) == policy_read(words.deep_view()),
{
    assert(words.deep_view().len() == upper.deep_view().len());
    if words.len() < 5 || !is_word(upper, 3, "ON") {
        return Err(err("SyntaxError", "Expected CREATE POLICY name ON table"));
    }
    let end: usize = find_clause(upper, 4);
    let table = parse_relation(to_phrase(words, 4, end).as_str())?;
    assert(words.deep_view()[2] == words[2]@);
    let start = Policy {
        name: trim_both(words[2].as_str(), '"'),
        command: owned("ALL"),
        roles: one_item(owned("public")),
        permissive: true,
        using: None,
        check: None,
    };
    let policy = read_clauses(words, upper, end, start)?;
    if is_misplaced(&policy) {
        return Err(err("SyntaxError", "Policy clause is invalid for this command"));
    }
    Ok((policy, table))
}

fn is_policy_named(policies: &Vec<Policy>, name: &str) -> (result: bool)
    ensures
        result == policy_named(policies.deep_view(), name@),
{
    let mut i: usize = 0;
    while i < policies.len()
        invariant
            i <= policies.len(),
            forall|j: int| 0 <= j < i ==> (#[trigger] policies.deep_view()[j]).name != name@,
        decreases policies.len() - i,
    {
        assert(policies.deep_view()[i as int] == policies[i as int].deep_view());
        if same(policies[i].name.as_str(), name) {
            return true;
        }
        i += 1;
    }
    false
}

fn create_policy(database: Database, words: &Vec<String>, upper: &Vec<String>, context: &AuthContext) -> (result:
    Result<Database>)
    requires
        upper.deep_view() == upper_all(words.deep_view()),
    ensures
        outcome(result) == policy_created(
            database.deep_view(),
            words.deep_view(),
            context.deep_view(),
        ),
{
    let (policy, name) = read_policy(words, upper)?;
    let mut table = match database.catalog.get(&name) {
        None => {
            return Err(err("UndefinedTable", name.as_str()));
        },
        Some(found) => found.replica(),
    };
    if is_policy_named(&table.policies, policy.name.as_str()) {
        return Err(err("DuplicatePolicy", policy.name.as_str()));
    }
    add_last(&mut table.policies, policy);
    let mut database = database;
    database.catalog.insert(name, table);
    let next = change_schema(database)?;
    next.validate(context)?;
    Ok(next)
}

/// Executes a row-level security statement; nothing for any other statement.
pub fn policy_statement(database: &Database, sql: &str, context: &AuthContext) -> (result: Result<
    Option<(Database, SqlResult)>,
>)
    ensures
        handled(result) == policy_executed(database.deep_view(), sql@, context.deep_view()),
{
    let words = tokens(sql)?;
    let upper = to_upper(&words);
    let creates = is_word(&upper, 0, "CREATE") && is_word(&upper, 1, "POLICY");
    let switches = is_word(&upper, 0, "ALTER") && is_word(&upper, 1, "TABLE") && names_security(&upper);
    if !creates && !switches {
        return Ok(None);
    }
    if !context.privileged {
        return Err(err("PrivilegeError", "Policy DDL requires administrative authority"));
    }
    let next = if switches {
        switch_security(database.replica(), &words, &upper)?
    } else {
        create_policy(database.replica(), &words, &upper, context)?
    };
    Ok(Some((next, SqlResult::default())))
}

} // verus!
